//! The commands that a line of local input can name.

use vstd::prelude::*;
use vstd::string::StringExecFns;

verus! {

/// A command of the client itself, or the name of one that the configuration
/// may define.
#[derive(Debug, PartialEq, Eq)]
pub enum Command {
    Quit,
    Other(String),
}

/// A `Command` as a mathematical value.
pub enum CommandView {
    Quit,
    Other(Seq<char>),
}

impl View for Command {
    type V = CommandView;

    open spec fn view(&self) -> CommandView {
        match self {
            Command::Quit => CommandView::Quit,
            Command::Other(name) => CommandView::Other(name@),
        }
    }
}

/// The name of the command that ends the session.
pub open spec fn quit_name() -> Seq<char> {
    seq!['q', 'u', 'i', 't']
}

/// The command that `name` stands for.
pub open spec fn command_of(name: Seq<char>) -> CommandView {
    if name == quit_name() {
        CommandView::Quit
    } else {
        CommandView::Other(name)
    }
}

impl Command {
    /// Reads a command from its name: `quit` is the client's own, any other
    /// name is kept for the configuration to expand.
    pub fn from_string(name: String) -> (command: Command)
        ensures
            command@ == command_of(name@),
    {
        proof {
            reveal_strlit("quit");
            assert("quit"@ =~= quit_name());
        }
        let quit = String::from_str("quit");
        if name == quit {
            Command::Quit
        } else {
            Command::Other(name)
        }
    }
}

} // verus!
