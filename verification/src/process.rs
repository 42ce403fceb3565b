//! Commands that are run on this host, and what they leave behind.
use vstd::prelude::*;
use vstd::string::*;
use crate::text;

verus! {

/// A command to run.
pub struct Command {
    pub program: String,
    pub args: Vec<String>,
    /// Variables that are set beside those of the caller.
    pub env: Vec<(String, String)>,
    /// What is written to the standard input, if anything.
    pub stdin: Option<String>,
}

pub struct CommandView {
    pub program: Seq<char>,
    pub args: Seq<Seq<char>>,
    pub env: Seq<(Seq<char>, Seq<char>)>,
    pub stdin: Option<Seq<char>>,
}

impl View for Command {
    type V = CommandView;

    open spec fn view(&self) -> CommandView {
        CommandView {
            program: self.program@,
            args: text::views(self.args@),
            env: text::pair_views(self.env@),
            stdin: match self.stdin {
                Some(s) => Some(s@),
                None => None,
            },
        }
    }
}

/// A command with nothing but arguments.
pub open spec fn plain(program: Seq<char>, args: Seq<Seq<char>>) -> CommandView {
    CommandView { program, args, env: Seq::empty(), stdin: None }
}

/// A command with nothing but arguments.
pub fn plain_command(program: &str, args: Vec<String>) -> (r: Command)
    ensures
        r@ == plain(program@, text::views(args@)),
{
    let env: Vec<(String, String)> = Vec::new();
    proof {
        assert(text::pair_views(env@) =~= Seq::empty());
    }
    Command { program: program.to_owned(), args, env, stdin: None }
}

/// What a command that ran left behind.
pub struct CommandOutput {
    pub success: bool,
    /// The exit code, unless a signal ended the command.
    pub code: Option<i32>,
    pub stdout: Vec<u8>,
    pub stderr: Vec<u8>,
}

/// Whether an option stands among arguments, with its value behind it.
pub open spec fn option_is(args: Seq<Seq<char>>, option: Seq<char>, value: Seq<char>) -> bool {
    exists|i: int|
        0 <= i < args.len() - 1 && (#[trigger] args[i]) == option && args[i + 1] == value
}

/// Whether a word stands among arguments.
pub open spec fn word_is(args: Seq<Seq<char>>, word: Seq<char>) -> bool {
    exists|i: int| 0 <= i < args.len() && (#[trigger] args[i]) == word
}

} // verus!
