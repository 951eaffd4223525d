//! Versioned action schemas, and the command line an action is laid out as.

pub mod listing;
pub mod v1_0;

use crate::docker::fmt::{
    accepts, fails, interpolates, plain, shell_interpolate, InterpolationError,
};
use vstd::prelude::*;

verus! {

/// One argument of a command line before interpolation.
#[derive(Debug)]
pub enum Slot {
    /// A word of this library, handed on as it stands.
    Fixed(String),
    /// A text of the configuration, interpolated before it is handed on.
    Template(String),
}

/// A [`Slot`] as plain text.
pub enum SlotView {
    Fixed(Seq<char>),
    Template(Seq<char>),
}

impl View for Slot {
    type V = SlotView;

    open spec fn view(&self) -> SlotView {
        match self {
            Slot::Fixed(text) => SlotView::Fixed(text@),
            Slot::Template(text) => SlotView::Template(text@),
        }
    }
}

impl DeepView for Slot {
    type V = SlotView;

    open spec fn deep_view(&self) -> SlotView {
        self@
    }
}

/// The text a slot holds.
pub open spec fn slot_text(slot: SlotView) -> Seq<char> {
    match slot {
        SlotView::Fixed(text) => text,
        SlotView::Template(text) => text,
    }
}

/// The texts of the slots of `line`, in their order.
pub open spec fn slot_texts(line: Seq<SlotView>) -> Seq<Seq<char>> {
    Seq::new(line.len(), |i: int| slot_text(line[i]))
}

/// The slot is handed on as it stands: it is fixed, or a template in which
/// no `#` opens an expression or escapes another `#`.
pub open spec fn stands(slot: SlotView) -> bool {
    match slot {
        SlotView::Fixed(_) => true,
        SlotView::Template(text) => plain(text),
    }
}

/// `f` may be called on every expression of every template of `line`.
pub open spec fn accepts_all<F: Fn(&str) -> Result<String, InterpolationError>>(
    f: &F,
    line: Seq<SlotView>,
) -> bool {
    forall|i: int|
        0 <= i < line.len() ==> (#[trigger] line[i] matches SlotView::Template(text) ==> accepts(
            f,
            text,
        ))
}

/// `arg` is what `slot` becomes: a fixed slot its own text, a template a
/// text that interpolation with `f` may give.
pub open spec fn fills<F: Fn(&str) -> Result<String, InterpolationError>>(
    f: &F,
    slot: SlotView,
    arg: Seq<char>,
) -> bool {
    match slot {
        SlotView::Fixed(text) => arg == text,
        SlotView::Template(text) => interpolates(f, text, arg),
    }
}

/// `args` holds, for each slot of `line` in turn, what that slot becomes.
pub open spec fn fills_all<F: Fn(&str) -> Result<String, InterpolationError>>(
    f: &F,
    line: Seq<SlotView>,
    args: Seq<Seq<char>>,
) -> bool {
    &&& args.len() == line.len()
    &&& forall|i: int| 0 <= i < line.len() ==> #[trigger] fills(f, line[i], args[i])
}

/// Some leading slots of `line` can be filled, and interpolation of the
/// template that follows them fails with `e`.
pub open spec fn stops<F: Fn(&str) -> Result<String, InterpolationError>>(
    f: &F,
    line: Seq<SlotView>,
    e: InterpolationError,
) -> bool {
    exists|args: Seq<Seq<char>>|
        args.len() < line.len() && #[trigger] fills_all(f, line.take(args.len() as int), args) && (
        line[args.len() as int] matches SlotView::Template(text) && fails(f, text, e))
}

/// Turns a laid-out command line into its arguments: fixed words are handed
/// on, templates are interpolated with `f`, slot by slot from the left. The
/// first interpolation that fails ends the work, and no argument is returned.
pub fn fill<F: Fn(&str) -> Result<String, InterpolationError>>(line: &Vec<Slot>, f: &F) -> (r:
    Result<Vec<String>, InterpolationError>)
    requires
        accepts_all(f, line.deep_view()),
    ensures
        match r {
            Ok(args) => fills_all(f, line.deep_view(), args.deep_view()),
            Err(e) => stops(f, line.deep_view(), e),
        },
        (forall|i: int| 0 <= i < line.len() ==> stands(#[trigger] line.deep_view()[i])) ==> (r matches Ok(
            args,
        ) && args.deep_view() == slot_texts(line.deep_view())),
{
    let mut args: Vec<String> = Vec::new();
    let ghost slots = line.deep_view();
    assert(slot_texts(slots.take(0)) =~= args.deep_view());
    for n in 0..line.len()
        invariant
            slots == line.deep_view(),
            accepts_all(f, slots),
            fills_all(f, slots.take(n as int), args.deep_view()),
            (forall|i: int| 0 <= i < slots.len() ==> stands(#[trigger] slots[i]))
                ==> args.deep_view() == slot_texts(slots.take(n as int)),
    {
        let ghost before = args.deep_view();
        assert(slots[n as int] == line[n as int]@);
        match &line[n] {
            Slot::Fixed(word) => {
                args.push(word.clone());
            },
            Slot::Template(text) => {
                match shell_interpolate(text.as_str(), f) {
                    Ok(out) => {
                        args.push(out);
                    },
                    Err(e) => {
                        proof {
                            assert(slots.take(before.len() as int) =~= slots.take(n as int));
                            assert(fills_all(f, slots.take(before.len() as int), before));
                        }
                        return Err(e);
                    },
                }
            },
        }
        proof {
            let next = slots.take(n + 1);
            let shown = args.deep_view();
            assert(shown =~= before.push(shown[n as int]));
            assert forall|i: int| 0 <= i < next.len() implies #[trigger] fills(
                f,
                next[i],
                shown[i],
            ) by {
                if i < n {
                    assert(fills(f, slots.take(n as int)[i], before[i]));
                }
            }
            if forall|i: int| 0 <= i < slots.len() ==> stands(#[trigger] slots[i]) {
                assert(stands(slots[n as int]));
                assert(shown =~= slot_texts(next));
            }
        }
    }
    assert(slots.take(line.len() as int) =~= slots);
    Ok(args)
}

/// Something that may carry a description for listings.
pub trait Help {
    /// The description, where there is one.
    spec fn help_text(&self) -> Option<Seq<char>>;

    /// Returns the description, where there is one.
    fn help(&self) -> (r: Option<String>)
        ensures
            r.deep_view() == self.help_text(),
    ;
}

/// Something that can be laid out as a docker command line and brought to
/// its arguments.
pub trait Run {
    /// The command line before interpolation.
    spec fn line(&self) -> Seq<SlotView>;

    /// The arguments that make docker carry this out: the command line with
    /// each template interpolated by `f`, left to right. The first
    /// interpolation that fails ends the work, and no argument is returned.
    /// `envs` is the runtime environment.
    fn run<F: Fn(&str) -> Result<String, InterpolationError>>(
        &self,
        envs: &Vec<(String, String)>,
        f: &F,
    ) -> (r: Result<Vec<String>, InterpolationError>)
        requires
            accepts_all(f, self.line()),
        ensures
            match r {
                Ok(args) => fills_all(f, self.line(), args.deep_view()),
                Err(e) => stops(f, self.line(), e),
            },
            (forall|i: int| 0 <= i < self.line().len() ==> stands(#[trigger] self.line()[i])) ==> (
            r matches Ok(args) && args.deep_view() == slot_texts(self.line())),
    ;
}

/// An action of any schema version.
#[derive(Debug)]
pub enum Action {
    V1_0(v1_0::Action),
}

/// An [`Action`] as plain texts.
pub enum ActionView {
    V1_0(v1_0::ActionView),
}

impl View for Action {
    type V = ActionView;

    open spec fn view(&self) -> ActionView {
        match self {
            Action::V1_0(action) => ActionView::V1_0(action@),
        }
    }
}

impl DeepView for Action {
    type V = ActionView;

    open spec fn deep_view(&self) -> ActionView {
        self@
    }
}

impl Help for Action {
    open spec fn help_text(&self) -> Option<Seq<char>> {
        match self {
            Action::V1_0(action) => action.help_text(),
        }
    }

    fn help(&self) -> (r: Option<String>) {
        match self {
            Action::V1_0(action) => action.help(),
        }
    }
}

impl Run for Action {
    open spec fn line(&self) -> Seq<SlotView> {
        match self {
            Action::V1_0(action) => v1_0::slots(action@),
        }
    }

    fn run<F: Fn(&str) -> Result<String, InterpolationError>>(
        &self,
        envs: &Vec<(String, String)>,
        f: &F,
    ) -> (r: Result<Vec<String>, InterpolationError>) {
        match self {
            Action::V1_0(action) => action.run(envs, f),
        }
    }
}

/// A configuration of any schema version.
#[derive(Debug)]
pub enum Conf {
    V1_0(v1_0::Conf),
}

/// Something that holds named actions.
pub trait Actions {
    /// The names and their actions, in the order they are kept in.
    spec fn entries(&self) -> Seq<(Seq<char>, ActionView)>;

    /// Returns the names, each with its action under its schema version.
    fn actions(&self) -> (r: Vec<(String, Action)>)
        ensures
            r.deep_view() == self.entries(),
    ;
}

impl Actions for Conf {
    open spec fn entries(&self) -> Seq<(Seq<char>, ActionView)> {
        match self {
            Conf::V1_0(conf) => conf.entries(),
        }
    }

    fn actions(&self) -> (r: Vec<(String, Action)>) {
        match self {
            Conf::V1_0(conf) => conf.actions(),
        }
    }
}

/// The names of `entries`, in their order.
pub open spec fn names(entries: Seq<(Seq<char>, ActionView)>) -> Seq<Seq<char>> {
    Seq::new(entries.len(), |i: int| entries[i].0)
}

/// No name is given to two of `entries`: they are a mapping from names to actions.
pub open spec fn distinct_names(entries: Seq<(Seq<char>, ActionView)>) -> bool {
    names(entries).no_duplicates()
}

/// The action that `entries` keep under `name`: that of the first entry of
/// this name, which is the only one where the names are distinct.
pub open spec fn named(entries: Seq<(Seq<char>, ActionView)>, name: Seq<char>) -> Option<
    ActionView,
> {
    match names(entries).index_of_first(name) {
        Some(i) => Some(entries[i].1),
        None => None,
    }
}

/// Looks `name` up among `actions`.
pub fn find<'a>(actions: &'a Vec<(String, Action)>, name: &str) -> (r: Option<&'a Action>)
    ensures
        r.deep_view() == named(actions.deep_view(), name@),
        r matches Some(action) ==> exists|i: int|
            0 <= i < actions.len() && *action == (#[trigger] actions[i]).1,
{
    let key = name.to_owned();
    let ghost entries = actions.deep_view();
    let ghost all = names(entries);
    for n in 0..actions.len()
        invariant
            entries == actions.deep_view(),
            all == names(entries),
            key@ == name@,
            forall|j: int| 0 <= j < n ==> all[j] != name@,
    {
        assert(all[n as int] == actions[n as int].0@);
        if actions[n].0 == key {
            proof {
                all.index_of_first_ensures(name@);
                assert(all.index_of_first(name@) == Some(n as int));
                assert(entries[n as int].1 == actions[n as int].1@);
            }
            return Some(&actions[n].1);
        }
    }
    proof {
        all.index_of_first_ensures(name@);
        assert(!all.contains(name@));
    }
    None
}

/// Where the names are distinct, every entry is found under its name.
pub proof fn lemma_named_entry(entries: Seq<(Seq<char>, ActionView)>, i: int)
    requires
        distinct_names(entries),
        0 <= i < entries.len(),
    ensures
        named(entries, entries[i].0) == Some(entries[i].1),
{
    let all = names(entries);
    all.index_of_first_ensures(entries[i].0);
    assert(all[i] == entries[i].0);
    let k = all.index_of_first(entries[i].0).unwrap();
    assert(all[k] == all[i]);
}

} // verus!
