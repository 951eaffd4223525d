//! Schema version 1.0: an action names an image to run or a Dockerfile to
//! build, with optional docker flags, and is laid out as a command line.

use crate::docker::conf;
use crate::docker::conf::{
    accepts_all, fill, fills_all, slot_texts, stands, stops, Actions, Help, Slot, SlotView,
};
use crate::docker::fmt::InterpolationError;
use vstd::prelude::*;

verus! {

/// The schema versions this module answers to.
#[derive(Debug, Clone, Copy, PartialEq, Eq, Structural)]
pub enum Version {
    /// Written `1.0` in configuration files.
    V1_0,
}

impl Default for Version {
    fn default() -> (r: Self)
        ensures
            r == Version::V1_0,
    {
        Version::V1_0
    }
}

/// What an action does: run an image, or build one.
#[derive(Debug)]
pub enum Context {
    /// Run the image of this reference.
    Image(String),
    /// Build the Dockerfile at `path` and tag the image `name`.
    Build { path: String, name: String },
}

/// A [`Context`] as plain texts.
pub enum ContextView {
    Image(Seq<char>),
    Build { path: Seq<char>, name: Seq<char> },
}

impl View for Context {
    type V = ContextView;

    open spec fn view(&self) -> ContextView {
        match self {
            Context::Image(image) => ContextView::Image(image@),
            Context::Build { path, name } => ContextView::Build { path: path@, name: name@ },
        }
    }
}

impl Default for Context {
    fn default() -> (r: Self)
        ensures
            r@ == ContextView::Image(Seq::empty()),
    {
        Context::Image(String::new())
    }
}

impl Clone for Context {
    fn clone(&self) -> (r: Self)
        ensures
            r@ == self@,
    {
        match self {
            Context::Image(image) => Context::Image(image.clone()),
            Context::Build { path, name } => Context::Build {
                path: path.clone(),
                name: name.clone(),
            },
        }
    }
}

/// One named, runnable unit of a configuration.
#[derive(Debug)]
pub struct Action {
    /// Whether an image is run or built.
    pub context: Context,
    /// Shown when the actions are listed; never interpolated.
    pub help: Option<String>,
    /// Kept with the schema; no flag is laid out for it.
    pub interactive: Option<bool>,
    /// Kept with the schema; no flag is laid out for it.
    pub tty: Option<bool>,
    /// The process to run in the container, and its arguments.
    pub command: Option<Vec<String>>,
    /// Replaces the image's entrypoint.
    pub entrypoint: Option<String>,
    /// Variables set in the container, as pairs of a name and a value, no
    /// name twice.
    pub envs: Option<Vec<(String, String)>>,
    /// Path of a file of variables for the container.
    pub env_file: Option<String>,
    /// The network the container joins.
    pub network: Option<String>,
    /// Port mappings, in order.
    pub ports: Option<Vec<String>>,
    /// Volume mappings, in order.
    pub volumes: Option<Vec<String>>,
    /// The user the process runs as.
    pub user: Option<String>,
    /// Further flags, handed on as they are once interpolated.
    pub extra_flags: Option<Vec<String>>,
}

/// An [`Action`] as plain texts.
pub struct ActionView {
    pub context: ContextView,
    pub help: Option<Seq<char>>,
    pub interactive: Option<bool>,
    pub tty: Option<bool>,
    pub command: Option<Seq<Seq<char>>>,
    pub entrypoint: Option<Seq<char>>,
    pub envs: Option<Seq<(Seq<char>, Seq<char>)>>,
    pub env_file: Option<Seq<char>>,
    pub network: Option<Seq<char>>,
    pub ports: Option<Seq<Seq<char>>>,
    pub volumes: Option<Seq<Seq<char>>>,
    pub user: Option<Seq<char>>,
    pub extra_flags: Option<Seq<Seq<char>>>,
}

impl ActionView {
    /// No variable is named twice: the variables are a mapping from names to values.
    pub open spec fn well_formed(self) -> bool {
        Seq::new(items(self.envs).len(), |i: int| items(self.envs)[i].0).no_duplicates()
    }
}

impl View for Action {
    type V = ActionView;

    open spec fn view(&self) -> ActionView {
        ActionView {
            context: self.context@,
            help: self.help.deep_view(),
            interactive: self.interactive,
            tty: self.tty,
            command: self.command.deep_view(),
            entrypoint: self.entrypoint.deep_view(),
            envs: self.envs.deep_view(),
            env_file: self.env_file.deep_view(),
            network: self.network.deep_view(),
            ports: self.ports.deep_view(),
            volumes: self.volumes.deep_view(),
            user: self.user.deep_view(),
            extra_flags: self.extra_flags.deep_view(),
        }
    }
}

/// The members of an optional list; none where the list is absent.
pub open spec fn items<T>(list: Option<Seq<T>>) -> Seq<T> {
    match list {
        Some(members) => members,
        None => Seq::empty(),
    }
}

/// `flag` and then `value`, where there is a value.
pub open spec fn flag_value(flag: Seq<char>, value: Option<Seq<char>>) -> Seq<SlotView> {
    match value {
        Some(text) => seq![SlotView::Fixed(flag), SlotView::Template(text)],
        None => Seq::empty(),
    }
}

/// `flag` before each of `values`, in their order.
pub open spec fn flag_each(flag: Seq<char>, values: Seq<Seq<char>>) -> Seq<SlotView>
    decreases values.len(),
{
    if values.len() == 0 {
        Seq::empty()
    } else {
        flag_each(flag, values.drop_last()) + seq![
            SlotView::Fixed(flag),
            SlotView::Template(values.last()),
        ]
    }
}

/// Each of `values` as a template, in their order.
pub open spec fn templates(values: Seq<Seq<char>>) -> Seq<SlotView> {
    Seq::new(values.len(), |i: int| SlotView::Template(values[i]))
}

/// Each pair of `envs` written `NAME=VALUE`, in their order.
pub open spec fn assignments(envs: Seq<(Seq<char>, Seq<char>)>) -> Seq<Seq<char>> {
    Seq::new(envs.len(), |i: int| envs[i].0 + seq!['='] + envs[i].1)
}

/// The network flag, one argument holding name and value.
pub open spec fn network_flag(network: Option<Seq<char>>) -> Seq<SlotView> {
    match network {
        Some(name) => seq![SlotView::Template("--network="@ + name)],
        None => Seq::empty(),
    }
}

/// The command line that runs `image` as `action` asks: the subcommand and
/// `--rm`, then the flags of the fields that are set, each field in its fixed
/// place, then the image and behind it the command for the container.
pub open spec fn run_slots(action: ActionView, image: Seq<char>) -> Seq<SlotView> {
    seq![SlotView::Fixed("run"@), SlotView::Fixed("--rm"@)]
        + flag_value("--entrypoint"@, action.entrypoint)
        + flag_each("-e"@, assignments(items(action.envs)))
        + flag_value("--env-file"@, action.env_file)
        + network_flag(action.network)
        + flag_each("-p"@, items(action.ports))
        + flag_each("-v"@, items(action.volumes))
        + flag_value("-u"@, action.user)
        + templates(items(action.extra_flags))
        + seq![SlotView::Template(image)]
        + templates(items(action.command))
}

/// The command line that builds the Dockerfile at `path` and tags the image `name`.
pub open spec fn build_slots(path: Seq<char>, name: Seq<char>) -> Seq<SlotView> {
    seq![
        SlotView::Fixed("build"@),
        SlotView::Fixed("-f"@),
        SlotView::Fixed(path),
        SlotView::Fixed("-t"@),
        SlotView::Fixed(name),
    ]
}

/// The command line of `action`, by its context.
pub open spec fn slots(action: ActionView) -> Seq<SlotView> {
    match action.context {
        ContextView::Image(image) => run_slots(action, image),
        ContextView::Build { path, name } => build_slots(path, name),
    }
}

proof fn lemma_member_of_joined<T>(left: Seq<T>, right: Seq<T>, x: T)
    ensures
        (left + right).contains(x) <==> left.contains(x) || right.contains(x),
{
    let joined = left + right;
    if joined.contains(x) {
        let i = choose|i: int| 0 <= i < joined.len() && joined[i] == x;
        if i < left.len() {
            assert(left[i] == x);
        } else {
            assert(right[i - left.len()] == x);
        }
    }
    if left.contains(x) {
        let i = choose|i: int| 0 <= i < left.len() && left[i] == x;
        assert(joined[i] == x);
    }
    if right.contains(x) {
        let i = choose|i: int| 0 <= i < right.len() && right[i] == x;
        assert(joined[left.len() + i] == x);
    }
}

proof fn lemma_flag_each(flag: Seq<char>, values: Seq<Seq<char>>, slot: SlotView)
    ensures
        flag_each(flag, values).len() == 2 * values.len(),
        flag_each(flag, values).contains(slot) <==> match slot {
            SlotView::Fixed(word) => word == flag && values.len() > 0,
            SlotView::Template(text) => values.contains(text),
        },
    decreases values.len(),
{
    if values.len() > 0 {
        let front = values.drop_last();
        let pair = seq![SlotView::Fixed(flag), SlotView::Template(values.last())];
        lemma_flag_each(flag, front, slot);
        lemma_member_of_joined(flag_each(flag, front), pair, slot);
        assert(pair[0] == SlotView::Fixed(flag) && pair[1] == SlotView::Template(values.last()));
        assert(front.push(values.last()) =~= values);
        match slot {
            SlotView::Fixed(word) => {},
            SlotView::Template(text) => {
                if values.contains(text) {
                    let i = choose|i: int| 0 <= i < values.len() && values[i] == text;
                    if i < front.len() {
                        assert(front[i] == text);
                    }
                }
                if front.contains(text) {
                    let i = choose|i: int| 0 <= i < front.len() && front[i] == text;
                    assert(values[i] == text);
                }
                assert(values[values.len() - 1] == values.last());
            },
        }
    }
}

proof fn lemma_flag_value(flag: Seq<char>, value: Option<Seq<char>>, slot: SlotView)
    ensures
        flag_value(flag, value).len() == (if value is Some { 2nat } else { 0nat }),
        flag_value(flag, value).contains(slot) <==> match slot {
            SlotView::Fixed(word) => word == flag && value is Some,
            SlotView::Template(text) => value == Some(text),
        },
{
    if let Some(text) = value {
        let pair = flag_value(flag, value);
        assert(pair[0] == SlotView::Fixed(flag) && pair[1] == SlotView::Template(text));
    }
}

proof fn lemma_templates(values: Seq<Seq<char>>, slot: SlotView)
    ensures
        templates(values).contains(slot) <==> (slot matches SlotView::Template(text)
            && values.contains(text)),
{
    let all = templates(values);
    if all.contains(slot) {
        let i = choose|i: int| 0 <= i < all.len() && all[i] == slot;
        assert(values[i] == slot->Template_0);
    }
    if let SlotView::Template(text) = slot {
        if values.contains(text) {
            let i = choose|i: int| 0 <= i < values.len() && values[i] == text;
            assert(all[i] == slot);
        }
    }
}

/// Whether `slot` stands for a text of the configuration: the image, or a
/// text of a field that is set, the network within its flag.
pub open spec fn configured(action: ActionView, image: Seq<char>, text: Seq<char>) -> bool {
    ||| text == image
    ||| action.entrypoint == Some(text)
    ||| assignments(items(action.envs)).contains(text)
    ||| action.env_file == Some(text)
    ||| (action.network matches Some(name) && text == "--network="@ + name)
    ||| items(action.ports).contains(text)
    ||| items(action.volumes).contains(text)
    ||| action.user == Some(text)
    ||| items(action.extra_flags).contains(text)
    ||| items(action.command).contains(text)
}

/// Whether `word` is one that a run line holds as a fixed word: the
/// subcommand, `--rm`, or the flag of a field that is set.
pub open spec fn flagged(action: ActionView, word: Seq<char>) -> bool {
    ||| word == "run"@
    ||| word == "--rm"@
    ||| (word == "--entrypoint"@ && action.entrypoint is Some)
    ||| (word == "-e"@ && items(action.envs).len() > 0)
    ||| (word == "--env-file"@ && action.env_file is Some)
    ||| (word == "-p"@ && items(action.ports).len() > 0)
    ||| (word == "-v"@ && items(action.volumes).len() > 0)
    ||| (word == "-u"@ && action.user is Some)
}

/// How many slots a field of one optional text takes when it stands behind a flag.
pub open spec fn flag_width(value: Option<Seq<char>>) -> nat {
    if value is Some {
        2
    } else {
        0
    }
}

/// What a run line holds, and nothing else: as fixed words the subcommand,
/// `--rm` and the flags of the fields that are set; as templates the image
/// and the texts of the fields that are set. Its length counts two slots for
/// each text behind a flag and one for each other text, so a field that is
/// not set takes no slot.
pub proof fn lemma_run_slots_members(action: ActionView, image: Seq<char>, slot: SlotView)
    ensures
        run_slots(action, image).contains(slot) <==> match slot {
            SlotView::Fixed(word) => flagged(action, word),
            SlotView::Template(text) => configured(action, image, text),
        },
        run_slots(action, image).len() == 3 + flag_width(action.entrypoint) + 2 * items(
            action.envs,
        ).len() + flag_width(action.env_file) + (if action.network is Some {
            1nat
        } else {
            0nat
        }) + 2 * items(action.ports).len() + 2 * items(action.volumes).len() + flag_width(
            action.user,
        ) + items(action.extra_flags).len() + items(action.command).len(),
{
    let start = seq![SlotView::Fixed("run"@), SlotView::Fixed("--rm"@)];
    let entrypoint = flag_value("--entrypoint"@, action.entrypoint);
    let variables = flag_each("-e"@, assignments(items(action.envs)));
    let env_file = flag_value("--env-file"@, action.env_file);
    let network = network_flag(action.network);
    let ports = flag_each("-p"@, items(action.ports));
    let volumes = flag_each("-v"@, items(action.volumes));
    let user = flag_value("-u"@, action.user);
    let extra = templates(items(action.extra_flags));
    let picture = seq![SlotView::Template(image)];
    let command = templates(items(action.command));
    let mut line = start;
    lemma_member_of_joined(line, entrypoint, slot);
    line = line + entrypoint;
    lemma_member_of_joined(line, variables, slot);
    line = line + variables;
    lemma_member_of_joined(line, env_file, slot);
    line = line + env_file;
    lemma_member_of_joined(line, network, slot);
    line = line + network;
    lemma_member_of_joined(line, ports, slot);
    line = line + ports;
    lemma_member_of_joined(line, volumes, slot);
    line = line + volumes;
    lemma_member_of_joined(line, user, slot);
    line = line + user;
    lemma_member_of_joined(line, extra, slot);
    line = line + extra;
    lemma_member_of_joined(line, picture, slot);
    line = line + picture;
    lemma_member_of_joined(line, command, slot);
    line = line + command;
    assert(line == run_slots(action, image));
    lemma_flag_value("--entrypoint"@, action.entrypoint, slot);
    lemma_flag_each("-e"@, assignments(items(action.envs)), slot);
    lemma_flag_value("--env-file"@, action.env_file, slot);
    lemma_flag_each("-p"@, items(action.ports), slot);
    lemma_flag_each("-v"@, items(action.volumes), slot);
    lemma_flag_value("-u"@, action.user, slot);
    lemma_templates(items(action.extra_flags), slot);
    lemma_templates(items(action.command), slot);
    assert(start[0] == SlotView::Fixed("run"@) && start[1] == SlotView::Fixed("--rm"@));
    assert(picture[0] == SlotView::Template(image));
    if let Some(name) = action.network {
        assert(network[0] == SlotView::Template("--network="@ + name));
    }
}

/// A field that is not set leaves no flag: its flag word stands nowhere in
/// the run line as a fixed word, and where no network is set every template
/// of the line is a text of another field.
pub proof fn lemma_unset_fields_leave_no_flag(action: ActionView, image: Seq<char>)
    ensures
        action.entrypoint is None ==> !run_slots(action, image).contains(
            SlotView::Fixed("--entrypoint"@),
        ),
        items(action.envs).len() == 0 ==> !run_slots(action, image).contains(
            SlotView::Fixed("-e"@),
        ),
        action.env_file is None ==> !run_slots(action, image).contains(
            SlotView::Fixed("--env-file"@),
        ),
        items(action.ports).len() == 0 ==> !run_slots(action, image).contains(
            SlotView::Fixed("-p"@),
        ),
        items(action.volumes).len() == 0 ==> !run_slots(action, image).contains(
            SlotView::Fixed("-v"@),
        ),
        action.user is None ==> !run_slots(action, image).contains(SlotView::Fixed("-u"@)),
        action.network is None ==> forall|text: Seq<char>|
            #[trigger] run_slots(action, image).contains(SlotView::Template(text)) ==> configured(
                ActionView { network: None, ..action },
                image,
                text,
            ),
{
    reveal_strlit("run");
    reveal_strlit("--rm");
    reveal_strlit("--entrypoint");
    reveal_strlit("-e");
    reveal_strlit("--env-file");
    reveal_strlit("-p");
    reveal_strlit("-v");
    reveal_strlit("-u");
    lemma_run_slots_members(action, image, SlotView::Fixed("--entrypoint"@));
    lemma_run_slots_members(action, image, SlotView::Fixed("-e"@));
    lemma_run_slots_members(action, image, SlotView::Fixed("--env-file"@));
    lemma_run_slots_members(action, image, SlotView::Fixed("-p"@));
    lemma_run_slots_members(action, image, SlotView::Fixed("-v"@));
    lemma_run_slots_members(action, image, SlotView::Fixed("-u"@));
    assert("run"@.len() == 3 && "--rm"@.len() == 4 && "--entrypoint"@.len() == 12
        && "--env-file"@.len() == 10);
    assert("-e"@.len() == 2 && "-p"@.len() == 2 && "-v"@.len() == 2 && "-u"@.len() == 2);
    assert("-e"@[1] == 'e' && "-p"@[1] == 'p' && "-v"@[1] == 'v' && "-u"@[1] == 'u');
    assert forall|text: Seq<char>|
        action.network is None && #[trigger] run_slots(action, image).contains(
            SlotView::Template(text),
        ) implies configured(ActionView { network: None, ..action }, image, text) by {
        lemma_run_slots_members(action, image, SlotView::Template(text));
    }
}

/// In the arguments of a run, a word that is neither the subcommand, `--rm`
/// nor the flag of a field that is set stands nowhere, unless a text of the
/// configuration was interpolated to that very word.
pub proof fn lemma_unflagged_word_absent<F: Fn(&str) -> Result<String, InterpolationError>>(
    f: &F,
    action: ActionView,
    image: Seq<char>,
    args: Seq<Seq<char>>,
    word: Seq<char>,
)
    requires
        fills_all(f, run_slots(action, image), args),
        !flagged(action, word),
        forall|i: int|
            0 <= i < args.len() && run_slots(action, image)[i] is Template ==> #[trigger] args[i]
                != word,
    ensures
        !args.contains(word),
{
    let line = run_slots(action, image);
    assert forall|i: int| 0 <= i < args.len() implies args[i] != word by {
        assert(conf::fills(f, line[i], args[i]));
        if let SlotView::Fixed(fixed) = line[i] {
            lemma_run_slots_members(action, image, line[i]);
        }
    }
}

/// A run line begins with the subcommand and `--rm`, and the image parts it:
/// every flag stands before the image, and behind the image stands the
/// command for the container and nothing else.
pub proof fn lemma_image_parts_line(action: ActionView, image: Seq<char>)
    ensures
        run_slots(action, image)[0] == SlotView::Fixed("run"@),
        run_slots(action, image)[1] == SlotView::Fixed("--rm"@),
        ({
            let line = run_slots(action, image);
            let at = line.len() - items(action.command).len() - 1;
            &&& 2 <= at
            &&& line[at] == SlotView::Template(image)
            &&& line.skip(at + 1) == templates(items(action.command))
        }),
{
    let line = run_slots(action, image);
    let command = templates(items(action.command));
    let front = line.take(line.len() - command.len() - 1);
    assert(line =~= front + seq![SlotView::Template(image)] + command);
    assert(line.skip(line.len() - command.len()) =~= command);
}

/// With no optional field set, the run line is the subcommand, `--rm` and the image.
pub proof fn lemma_bare_run(action: ActionView, image: Seq<char>)
    requires
        action.entrypoint is None,
        action.envs is None,
        action.env_file is None,
        action.network is None,
        action.ports is None,
        action.volumes is None,
        action.user is None,
        action.extra_flags is None,
        action.command is None,
    ensures
        run_slots(action, image) == seq![
            SlotView::Fixed("run"@),
            SlotView::Fixed("--rm"@),
            SlotView::Template(image),
        ],
{
    assert(assignments(items(action.envs)) =~= Seq::empty());
    assert(run_slots(action, image) =~= seq![
        SlotView::Fixed("run"@),
        SlotView::Fixed("--rm"@),
        SlotView::Template(image),
    ]);
}

fn push_fixed(line: &mut Vec<Slot>, word: &str)
    ensures
        final(line).deep_view() == old(line).deep_view().push(SlotView::Fixed(word@)),
{
    line.push(Slot::Fixed(word.to_owned()));
    assert(line.deep_view() =~= old(line).deep_view().push(SlotView::Fixed(word@)));
}

fn push_template(line: &mut Vec<Slot>, text: String)
    ensures
        final(line).deep_view() == old(line).deep_view().push(SlotView::Template(text@)),
{
    let ghost shown = text@;
    line.push(Slot::Template(text));
    assert(line.deep_view() =~= old(line).deep_view().push(SlotView::Template(shown)));
}

fn push_flag_value(line: &mut Vec<Slot>, flag: &str, value: &Option<String>)
    ensures
        final(line).deep_view() == old(line).deep_view() + flag_value(flag@, value.deep_view()),
{
    match value {
        Some(text) => {
            push_fixed(line, flag);
            push_template(line, text.clone());
            assert(line.deep_view() =~= old(line).deep_view() + flag_value(
                flag@,
                value.deep_view(),
            ));
        },
        None => {
            assert(line.deep_view() =~= old(line).deep_view() + flag_value(
                flag@,
                value.deep_view(),
            ));
        },
    }
}

fn push_flag_each(line: &mut Vec<Slot>, flag: &str, values: &Option<Vec<String>>)
    ensures
        final(line).deep_view() == old(line).deep_view() + flag_each(
            flag@,
            items(values.deep_view()),
        ),
{
    let ghost start = line.deep_view();
    match values {
        Some(list) => {
            let ghost texts = list.deep_view();
            assert(start + flag_each(flag@, texts.take(0)) =~= start);
            for n in 0..list.len()
                invariant
                    texts == list.deep_view(),
                    line.deep_view() == start + flag_each(flag@, texts.take(n as int)),
            {
                push_fixed(line, flag);
                push_template(line, list[n].clone());
                proof {
                    let next = texts.take(n + 1);
                    assert(next.drop_last() =~= texts.take(n as int));
                    assert(next.last() == list[n as int]@);
                    assert(line.deep_view() =~= start + flag_each(flag@, next));
                }
            }
            assert(texts.take(list.len() as int) =~= texts);
        },
        None => {
            assert(start + flag_each(flag@, items(values.deep_view())) =~= start);
        },
    }
}

fn push_templates(line: &mut Vec<Slot>, values: &Option<Vec<String>>)
    ensures
        final(line).deep_view() == old(line).deep_view() + templates(items(values.deep_view())),
{
    let ghost start = line.deep_view();
    match values {
        Some(list) => {
            let ghost texts = list.deep_view();
            assert(start + templates(texts.take(0)) =~= start);
            for n in 0..list.len()
                invariant
                    texts == list.deep_view(),
                    line.deep_view() == start + templates(texts.take(n as int)),
            {
                push_template(line, list[n].clone());
                assert(line.deep_view() =~= start + templates(texts.take(n + 1)));
            }
            assert(texts.take(list.len() as int) =~= texts);
        },
        None => {
            assert(start + templates(items(values.deep_view())) =~= start);
        },
    }
}

fn written_assignments(envs: &Option<Vec<(String, String)>>) -> (r: Option<Vec<String>>)
    ensures
        items(r.deep_view()) == assignments(items(envs.deep_view())),
{
    match envs {
        Some(pairs) => {
            let mut written: Vec<String> = Vec::new();
            let ghost texts = pairs.deep_view();
            assert(written.deep_view() =~= assignments(texts.take(0)));
            for n in 0..pairs.len()
                invariant
                    texts == pairs.deep_view(),
                    written.deep_view() == assignments(texts.take(n as int)),
            {
                let mut text = pairs[n].0.clone();
                text.push('=');
                text.append(pairs[n].1.as_str());
                let ghost before = written.deep_view();
                let ghost shown = text@;
                assert(shown =~= texts[n as int].0 + seq!['='] + texts[n as int].1);
                written.push(text);
                assert(written.deep_view() =~= before.push(shown));
                assert(before.push(shown) =~= assignments(texts.take(n + 1)));
            }
            assert(texts.take(pairs.len() as int) =~= texts);
            Some(written)
        },
        None => {
            assert(assignments(items(envs.deep_view())) =~= Seq::empty());
            None
        },
    }
}

impl Help for Action {
    open spec fn help_text(&self) -> Option<Seq<char>> {
        self@.help
    }

    fn help(&self) -> (r: Option<String>) {
        self.help.clone()
    }
}

impl Action {
    /// Lays the action out as a command line: which words are fixed, and
    /// which texts are still to be interpolated, in the order docker reads them.
    pub fn slots(&self) -> (line: Vec<Slot>)
        ensures
            line.deep_view() == slots(self@),
    {
        let mut line: Vec<Slot> = Vec::new();
        match &self.context {
            Context::Image(image) => {
                push_fixed(&mut line, "run");
                push_fixed(&mut line, "--rm");
                assert(line.deep_view() =~= seq![
                    SlotView::Fixed("run"@),
                    SlotView::Fixed("--rm"@),
                ]);
                push_flag_value(&mut line, "--entrypoint", &self.entrypoint);
                let written = written_assignments(&self.envs);
                push_flag_each(&mut line, "-e", &written);
                push_flag_value(&mut line, "--env-file", &self.env_file);
                match &self.network {
                    Some(name) => {
                        let mut flag = "--network=".to_owned();
                        flag.append(name.as_str());
                        let ghost before = line.deep_view();
                        push_template(&mut line, flag);
                        assert(line.deep_view() =~= before + network_flag(self@.network));
                    },
                    None => {
                        assert(line.deep_view() =~= line.deep_view() + network_flag(
                            self@.network,
                        ));
                    },
                }
                push_flag_each(&mut line, "-p", &self.ports);
                push_flag_each(&mut line, "-v", &self.volumes);
                push_flag_value(&mut line, "-u", &self.user);
                push_templates(&mut line, &self.extra_flags);
                let ghost before = line.deep_view();
                push_template(&mut line, image.clone());
                assert(line.deep_view() =~= before + seq![SlotView::Template(image@)]);
                push_templates(&mut line, &self.command);
            },
            Context::Build { path, name } => {
                push_fixed(&mut line, "build");
                push_fixed(&mut line, "-f");
                push_fixed(&mut line, path.as_str());
                push_fixed(&mut line, "-t");
                push_fixed(&mut line, name.as_str());
                assert(line.deep_view() =~= build_slots(path@, name@));
            },
        }
        line
    }

    /// The arguments that make docker carry the action out: the command line
    /// of [`Action::slots`] with each template interpolated by `f`, left to
    /// right. The first interpolation that fails ends the work, and no
    /// argument is returned.
    ///
    /// `envs` is the runtime environment. It is part of the call so that every
    /// schema version answers to one signature; this version interpolates by
    /// shell expressions alone and does not read it.
    pub fn run<F: Fn(&str) -> Result<String, InterpolationError>>(
        &self,
        envs: &Vec<(String, String)>,
        f: &F,
    ) -> (r: Result<Vec<String>, InterpolationError>)
        requires
            accepts_all(f, slots(self@)),
        ensures
            match r {
                Ok(args) => fills_all(f, slots(self@), args.deep_view()),
                Err(e) => stops(f, slots(self@), e),
            },
            (forall|i: int| 0 <= i < slots(self@).len() ==> stands(#[trigger] slots(self@)[i]))
                ==> (r matches Ok(args) && args.deep_view() == slot_texts(slots(self@))),
            self@.context matches ContextView::Build { path, name } ==> (r matches Ok(args)
                && args.deep_view() == seq!["build"@, "-f"@, path, "-t"@, name]),
    {
        let line = self.slots();
        let r = fill(&line, f);
        proof {
            if let ContextView::Build { path, name } = self@.context {
                assert(slot_texts(build_slots(path, name)) =~= seq![
                    "build"@,
                    "-f"@,
                    path,
                    "-t"@,
                    name,
                ]);
            }
        }
        r
    }
}

fn copy_pairs(envs: &Option<Vec<(String, String)>>) -> (r: Option<Vec<(String, String)>>)
    ensures
        r.deep_view() == envs.deep_view(),
{
    match envs {
        Some(pairs) => {
            let mut copy: Vec<(String, String)> = Vec::new();
            for n in 0..pairs.len()
                invariant
                    copy.deep_view() =~= pairs.deep_view().take(n as int),
            {
                let ghost before = copy.deep_view();
                let pair = (pairs[n].0.clone(), pairs[n].1.clone());
                assert(pair.deep_view() == pairs.deep_view()[n as int]);
                copy.push(pair);
                assert(copy.deep_view() =~= before.push(pair.deep_view()));
            }
            assert(copy.deep_view() =~= pairs.deep_view());
            Some(copy)
        },
        None => None,
    }
}

impl Clone for Action {
    fn clone(&self) -> (r: Self)
        ensures
            r@ == self@,
    {
        let r = Action {
            context: self.context.clone(),
            help: self.help.clone(),
            interactive: self.interactive,
            tty: self.tty,
            command: self.command.clone(),
            entrypoint: self.entrypoint.clone(),
            envs: copy_pairs(&self.envs),
            env_file: self.env_file.clone(),
            network: self.network.clone(),
            ports: self.ports.clone(),
            volumes: self.volumes.clone(),
            user: self.user.clone(),
            extra_flags: self.extra_flags.clone(),
        };
        r
    }
}

impl Default for Action {
    fn default() -> (r: Self)
        ensures
            r@.well_formed(),
            r@ == (ActionView {
                context: ContextView::Image(Seq::empty()),
                help: None,
                interactive: None,
                tty: None,
                command: None,
                entrypoint: None,
                envs: None,
                env_file: None,
                network: None,
                ports: None,
                volumes: None,
                user: None,
                extra_flags: None,
            }),
    {
        Action {
            context: Context::default(),
            help: None,
            interactive: None,
            tty: None,
            command: None,
            entrypoint: None,
            envs: None,
            env_file: None,
            network: None,
            ports: None,
            volumes: None,
            user: None,
            extra_flags: None,
        }
    }
}

impl DeepView for Action {
    type V = ActionView;

    open spec fn deep_view(&self) -> ActionView {
        self@
    }
}

/// A configuration of this schema version: the named actions, no name twice.
#[derive(Debug)]
pub struct Conf {
    /// The schema version the file declares.
    pub version: Version,
    /// The actions by name.
    pub actions: Vec<(String, Action)>,
}

impl Conf {
    /// No action is named twice, and no action names a variable twice: the
    /// configuration is a mapping from names to actions.
    pub open spec fn well_formed(&self) -> bool {
        &&& conf::distinct_names(self.entries())
        &&& forall|i: int| 0 <= i < self.actions.len() ==> (#[trigger] self.actions[i]).1@.well_formed()
    }
}

impl Actions for Conf {
    open spec fn entries(&self) -> Seq<(Seq<char>, conf::ActionView)> {
        Seq::new(
            self.actions.len() as nat,
            |i: int| (self.actions[i].0@, conf::ActionView::V1_0(self.actions[i].1@)),
        )
    }

    fn actions(&self) -> (r: Vec<(String, conf::Action)>)
        ensures
            self.well_formed() ==> conf::distinct_names(r.deep_view()),
    {
        let mut named: Vec<(String, conf::Action)> = Vec::new();
        for n in 0..self.actions.len()
            invariant
                named.deep_view() =~= self.entries().take(n as int),
        {
            let ghost before = named.deep_view();
            let entry = (self.actions[n].0.clone(), conf::Action::V1_0(self.actions[n].1.clone()));
            assert(entry.deep_view() == self.entries()[n as int]);
            named.push(entry);
            assert(named.deep_view() =~= before.push(entry.deep_view()));
        }
        assert(named.deep_view() =~= self.entries());
        named
    }
}

} // verus!
