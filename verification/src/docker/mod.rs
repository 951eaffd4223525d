//! Actions that run or build a container image, and the text templating they use.

pub mod conf;
pub mod envs;
pub mod fmt;
pub mod shell;

use vstd::prelude::*;

verus! {

/// A plain `docker run` of one image, without templating.
#[derive(Debug)]
pub struct DockerRun {
    /// The image to run.
    pub image: String,
    /// Shown when the actions are listed.
    pub help: Option<String>,
    /// The process to run in the container, and its arguments.
    pub command: Option<Vec<String>>,
    /// Kept with the schema; no flag is laid out for it.
    pub entrypoint: Option<Vec<String>>,
    /// Variables set in the container, as pairs of a name and a value, no
    /// name twice.
    pub envs: Option<Vec<(String, String)>>,
    /// Path of a file of variables for the container.
    pub env_file: Option<String>,
}

/// A [`DockerRun`] as plain texts.
pub struct DockerRunView {
    pub image: Seq<char>,
    pub help: Option<Seq<char>>,
    pub command: Option<Seq<Seq<char>>>,
    pub entrypoint: Option<Seq<Seq<char>>>,
    pub envs: Option<Seq<(Seq<char>, Seq<char>)>>,
    pub env_file: Option<Seq<char>>,
}

impl View for DockerRun {
    type V = DockerRunView;

    open spec fn view(&self) -> DockerRunView {
        DockerRunView {
            image: self.image@,
            help: self.help.deep_view(),
            command: self.command.deep_view(),
            entrypoint: self.entrypoint.deep_view(),
            envs: self.envs.deep_view(),
            env_file: self.env_file.deep_view(),
        }
    }
}

/// Each pair of `pairs` as two words, `-e` and then `NAME=VALUE`, in their order.
pub open spec fn env_pairs(pairs: Seq<(Seq<char>, Seq<char>)>) -> Seq<Seq<char>>
    decreases pairs.len(),
{
    if pairs.len() == 0 {
        Seq::empty()
    } else {
        env_pairs(pairs.drop_last()) + seq!["-e"@, pairs.last().0 + seq!['='] + pairs.last().1]
    }
}

/// The words that set the variables of the container; none where none is set.
pub open spec fn env_words(envs: Option<Seq<(Seq<char>, Seq<char>)>>) -> Seq<Seq<char>> {
    match envs {
        Some(pairs) => env_pairs(pairs),
        None => Seq::empty(),
    }
}

/// Two words, `--env-file` and then the path, where there is a path.
pub open spec fn env_file_words(env_file: Option<Seq<char>>) -> Seq<Seq<char>> {
    match env_file {
        Some(path) => seq!["--env-file"@, path],
        None => Seq::empty(),
    }
}

/// The command of the container; nothing where none is set.
pub open spec fn command_words(command: Option<Seq<Seq<char>>>) -> Seq<Seq<char>> {
    match command {
        Some(words) => words,
        None => Seq::empty(),
    }
}

/// The arguments of a plain run: the subcommand and `--rm`, the variables,
/// the file of variables, the image, and behind it the command. Every flag
/// is a word of its own, and its value the word behind it.
pub open spec fn run_words(run: DockerRunView) -> Seq<Seq<char>> {
    seq!["run"@, "--rm"@] + env_words(run.envs) + env_file_words(run.env_file) + seq![run.image]
        + command_words(run.command)
}

impl DockerRun {
    /// The arguments that make docker run the image.
    pub fn run(&self) -> (args: Vec<String>)
        ensures
            args.deep_view() == run_words(self@),
    {
        let mut args: Vec<String> = Vec::new();
        args.push("run".to_owned());
        args.push("--rm".to_owned());
        assert(args.deep_view() =~= seq!["run"@, "--rm"@]);
        let ghost head = args.deep_view();
        match &self.envs {
            Some(pairs) => {
                let ghost texts = pairs.deep_view();
                assert(head + env_pairs(texts.take(0)) =~= head);
                for n in 0..pairs.len()
                    invariant
                        texts == pairs.deep_view(),
                        args.deep_view() == head + env_pairs(texts.take(n as int)),
                {
                    let ghost before = args.deep_view();
                    let mut word = pairs[n].0.clone();
                    word.push('=');
                    word.append(pairs[n].1.as_str());
                    let ghost shown = word@;
                    assert(shown =~= texts[n as int].0 + seq!['='] + texts[n as int].1);
                    args.push("-e".to_owned());
                    args.push(word);
                    proof {
                        let next = texts.take(n + 1);
                        assert(next.drop_last() =~= texts.take(n as int));
                        assert(next.last() == texts[n as int]);
                        assert(args.deep_view() =~= before + seq!["-e"@, shown]);
                        assert(args.deep_view() =~= head + env_pairs(next));
                    }
                }
                assert(texts.take(pairs.len() as int) =~= texts);
            },
            None => {
                assert(head + env_words(self@.envs) =~= head);
            },
        }
        let ghost before = args.deep_view();
        match &self.env_file {
            Some(path) => {
                args.push("--env-file".to_owned());
                args.push(path.clone());
                assert(args.deep_view() =~= before + env_file_words(self@.env_file));
            },
            None => {
                assert(before + env_file_words(self@.env_file) =~= before);
            },
        }
        let ghost before = args.deep_view();
        args.push(self.image.clone());
        assert(args.deep_view() =~= before + seq![self.image@]);
        let ghost before = args.deep_view();
        match &self.command {
            Some(words) => {
                let ghost texts = words.deep_view();
                assert(before + texts.take(0) =~= before);
                for n in 0..words.len()
                    invariant
                        texts == words.deep_view(),
                        args.deep_view() == before + texts.take(n as int),
                {
                    let ghost so_far = args.deep_view();
                    args.push(words[n].clone());
                    assert(args.deep_view() =~= so_far.push(texts[n as int]));
                    assert(so_far.push(texts[n as int]) =~= before + texts.take(n + 1));
                }
                assert(texts.take(words.len() as int) =~= texts);
            },
            None => {
                assert(before + command_words(self@.command) =~= before);
            },
        }
        args
    }
}

} // verus!
