//! The command descriptor the pipeline produces: a name, ordered
//! arguments, and the three standard streams' redirections.

use vstd::prelude::*;

use crate::chars::seq_views;

verus! {

/// The mathematical shape of a command descriptor.
#[verifier::ext_equal]
pub struct SpecCommand {
    pub name: Seq<char>,
    pub args: Seq<Seq<char>>,
    pub stdin: Option<Seq<char>>,
    pub stdout: Option<Seq<char>>,
    pub append_stdout: bool,
    pub stderr: Option<Seq<char>>,
    pub append_stderr: bool,
}

/// The view of an optional owned string.
pub open spec fn opt_view(o: Option<String>) -> Option<Seq<char>> {
    match o {
        Option::Some(s) => Option::Some(s@),
        Option::None => Option::None,
    }
}

/// One executable command: its name, its arguments in order, and where
/// its standard streams are redirected. `append_stdout` / `append_stderr`
/// tell the runner to open the file for appending rather than truncation.
#[derive(Debug, Clone, PartialEq, Eq)]
pub struct Command {
    pub name: String,
    pub args: Vec<String>,
    pub stdin: Option<String>,
    pub stdout: Option<String>,
    pub append_stdout: bool,
    pub stderr: Option<String>,
    pub append_stderr: bool,
}

impl View for Command {
    type V = SpecCommand;

    open spec fn view(&self) -> SpecCommand {
        SpecCommand {
            name: self.name@,
            args: seq_views(self.args@),
            stdin: opt_view(self.stdin),
            stdout: opt_view(self.stdout),
            append_stdout: self.append_stdout,
            stderr: opt_view(self.stderr),
            append_stderr: self.append_stderr,
        }
    }
}

impl Command {
    /// A command with no redirections.
    pub fn new(name: String, args: Vec<String>) -> (r: Self)
        ensures
            r.name == name,
            r.args == args,
            r.stdin is None,
            r.stdout is None,
            !r.append_stdout,
            r.stderr is None,
            !r.append_stderr,
    {
        Command {
            name,
            args,
            stdin: None,
            stdout: None,
            append_stdout: false,
            stderr: None,
            append_stderr: false,
        }
    }

    pub fn with_stdin(self, stdin: String) -> (r: Self)
        ensures
            r == (Command { stdin: Some(stdin), ..self }),
    {
        Command { stdin: Some(stdin), ..self }
    }

    pub fn with_stdout(self, stdout: String) -> (r: Self)
        ensures
            r == (Command { stdout: Some(stdout), ..self }),
    {
        Command { stdout: Some(stdout), ..self }
    }

    pub fn with_append_stdout(self, append: bool) -> (r: Self)
        ensures
            r == (Command { append_stdout: append, ..self }),
    {
        Command { append_stdout: append, ..self }
    }

    pub fn with_stderr(self, stderr: String) -> (r: Self)
        ensures
            r == (Command { stderr: Some(stderr), ..self }),
    {
        Command { stderr: Some(stderr), ..self }
    }

    pub fn with_append_stderr(self, append: bool) -> (r: Self)
        ensures
            r == (Command { append_stderr: append, ..self }),
    {
        Command { append_stderr: append, ..self }
    }
}

} // verus!
