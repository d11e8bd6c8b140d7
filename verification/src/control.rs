//! The control loop's decisions.
//!
//! The loop waits for three things: events from the server, lines from the
//! user, and replies that it has queued for itself. For each of them `react`
//! says what to do; doing it is left to the caller.

use crate::cmd::Command;
use crate::cmd::CommandView;
use crate::config::join_lines;
use crate::config::Config;
use crate::input::ParsedInput;
use crate::input::ParsedInputView;
use crate::telnet::EventView;
use crate::telnet::TelnetCommand;
use crate::telnet::TelnetEvent;
use crate::telnet::TelnetOption;
use crate::telnet::DO;
use crate::telnet::DONT;
use crate::telnet::ECHO;
use crate::telnet::IAC;
use crate::tty::Toggle;
use vstd::prelude::*;
use vstd::string::StrSliceExecFns;
use vstd::string::StringExecFns;
use vstd::utf8::encode_utf8;

verus! {

/// Whether the session goes on.
#[derive(Clone, Copy, Debug, PartialEq, Eq, Structural)]
pub enum LoopState {
    /// The loop serves what arrives.
    Running,
    /// The session has ended; nothing more is done.
    Closing,
}

/// What the loop waits for.
#[derive(Debug, PartialEq, Eq)]
pub enum LoopEvent {
    /// The decoder has an event from the server.
    Remote(TelnetEvent),
    /// The server's events have come to an end.
    RemoteClosed,
    /// The user has typed a line.
    Local(ParsedInput),
    /// The user's input has come to an end.
    LocalClosed,
    /// A reply that the loop queued earlier is due.
    Reply(Vec<u8>),
}

/// What the loop asks its caller to do.
#[derive(Debug, PartialEq, Eq)]
pub enum Action {
    /// Write the bytes to the display and flush it.
    Display(Vec<u8>),
    /// Send the bytes to the server.
    Send(Vec<u8>),
    /// Queue the bytes as a reply; they come back as `LoopEvent::Reply`.
    QueueReply(Vec<u8>),
    /// Switch the terminal's echo.
    SetEcho(Toggle),
    /// Show the message to the user.
    Report(String),
    /// Close the connection.
    Close,
}

/// A `LoopEvent` as a mathematical value.
pub enum LoopEventView {
    Remote(EventView),
    RemoteClosed,
    Local(ParsedInputView),
    LocalClosed,
    Reply(Seq<u8>),
}

/// An `Action` as a mathematical value.
pub enum ActionView {
    Display(Seq<u8>),
    Send(Seq<u8>),
    QueueReply(Seq<u8>),
    SetEcho(Toggle),
    Report(Seq<char>),
    Close,
}

impl View for LoopEvent {
    type V = LoopEventView;

    open spec fn view(&self) -> LoopEventView {
        match self {
            LoopEvent::Remote(event) => LoopEventView::Remote(event@),
            LoopEvent::RemoteClosed => LoopEventView::RemoteClosed,
            LoopEvent::Local(input) => LoopEventView::Local(input@),
            LoopEvent::LocalClosed => LoopEventView::LocalClosed,
            LoopEvent::Reply(bytes) => LoopEventView::Reply(bytes@),
        }
    }
}

impl View for Action {
    type V = ActionView;

    open spec fn view(&self) -> ActionView {
        match self {
            Action::Display(bytes) => ActionView::Display(bytes@),
            Action::Send(bytes) => ActionView::Send(bytes@),
            Action::QueueReply(bytes) => ActionView::QueueReply(bytes@),
            Action::SetEcho(toggle) => ActionView::SetEcho(*toggle),
            Action::Report(message) => ActionView::Report(message@),
            Action::Close => ActionView::Close,
        }
    }
}

/// The actions of a vector, each as a mathematical value.
pub open spec fn actions_view(actions: Seq<Action>) -> Seq<ActionView> {
    actions.map_values(|a: Action| a@)
}

/// Whether a byte is shown on the display: the 7-bit ASCII characters are.
pub open spec fn is_shown(byte: u8) -> bool {
    byte < 128
}

/// The bytes of `data` that are shown on the display, in their order.
pub open spec fn shown(data: Seq<u8>) -> Seq<u8> {
    data.filter(|byte: u8| is_shown(byte))
}

/// The bytes that send `text` as a line: its UTF-8 form and a line feed.
pub open spec fn line_bytes(text: Seq<char>) -> Seq<u8> {
    encode_utf8(text + seq!['\n'])
}

/// What the user is told when a line names a command that is not defined.
pub open spec fn unknown_command(name: Seq<char>) -> Seq<char> {
    "Unknown command: /"@ + name
}

/// The reply that agrees to the server's offer to echo.
pub open spec fn do_echo() -> Seq<u8> {
    seq![IAC, DO, ECHO]
}

/// The reply that accepts the server's refusal to echo.
pub open spec fn dont_echo() -> Seq<u8> {
    seq![IAC, DONT, ECHO]
}

/// Whether an event ends the session: the command to quit does, and so does
/// the end of either stream.
pub open spec fn ends_session(event: LoopEventView) -> bool {
    match event {
        LoopEventView::RemoteClosed => true,
        LoopEventView::LocalClosed => true,
        LoopEventView::Local(ParsedInputView::CommandInput(CommandView::Quit)) => true,
        _ => false,
    }
}

/// The echo that the terminal has after an event, given the echo before it.
/// Only the server's word on the echo option changes it: when the server
/// will echo, the terminal stops, and when it will not, the terminal echoes.
pub open spec fn echo_after(echo: Toggle, event: LoopEventView) -> Toggle {
    match event {
        LoopEventView::Remote(EventView::Command(TelnetCommand::Will(TelnetOption::Echo))) => {
            Toggle::Off
        },
        LoopEventView::Remote(EventView::Command(TelnetCommand::Wont(TelnetOption::Echo))) => {
            Toggle::On
        },
        _ => echo,
    }
}

/// What a running loop does about an event, with the macros of `macros`.
pub open spec fn reaction(
    event: LoopEventView,
    macros: Map<Seq<char>, Seq<Seq<char>>>,
) -> Seq<ActionView> {
    match event {
        LoopEventView::Remote(EventView::Data(data)) => seq![ActionView::Display(shown(data))],
        LoopEventView::Remote(EventView::Command(TelnetCommand::Will(TelnetOption::Echo))) => {
            seq![ActionView::QueueReply(do_echo()), ActionView::SetEcho(Toggle::Off)]
        },
        LoopEventView::Remote(EventView::Command(TelnetCommand::Wont(TelnetOption::Echo))) => {
            seq![ActionView::QueueReply(dont_echo()), ActionView::SetEcho(Toggle::On)]
        },
        LoopEventView::Remote(EventView::Command(_)) => Seq::empty(),
        LoopEventView::RemoteClosed => seq![ActionView::Close],
        LoopEventView::Local(ParsedInputView::CommandInput(CommandView::Quit)) => {
            seq![ActionView::Close]
        },
        LoopEventView::Local(ParsedInputView::CommandInput(CommandView::Other(name))) => {
            if macros.contains_key(name) {
                seq![ActionView::Send(line_bytes(join_lines(macros[name])))]
            } else {
                seq![ActionView::Report(unknown_command(name))]
            }
        },
        LoopEventView::Local(ParsedInputView::RegularInput(line)) => {
            seq![ActionView::Send(line_bytes(line))]
        },
        LoopEventView::LocalClosed => seq![ActionView::Close],
        LoopEventView::Reply(bytes) => seq![ActionView::Send(bytes)],
    }
}

/// Keeps the bytes of `data` that are shown on the display.
pub fn filter_shown(data: &Vec<u8>) -> (kept: Vec<u8>)
    ensures
        kept@ == shown(data@),
{
    let mut kept: Vec<u8> = Vec::new();
    let n = data.len();
    let mut i: usize = 0;
    proof {
        reveal(Seq::filter);
        assert(data@.take(0).len() == 0);
    }
    while i < n
        invariant
            n == data@.len(),
            i <= n,
            kept@ == shown(data@.take(i as int)),
        decreases n - i,
    {
        proof {
            reveal(Seq::filter);
            assert(data@.take(i + 1).drop_last() == data@.take(i as int));
            assert(data@.take(i + 1).last() == data@[i as int]);
        }
        if data[i] < 128 {
            kept.push(data[i]);
        }
        i = i + 1;
    }
    assert(data@.take(n as int) == data@);
    kept
}

/// Writes `text` as a line for the server.
pub fn to_line(text: String) -> (bytes: Vec<u8>)
    ensures
        bytes@ == line_bytes(text@),
{
    proof {
        reveal_strlit("\n");
        assert("\n"@ == seq!['\n']);
    }
    let mut line = text;
    line.append("\n");
    line.as_str().as_bytes_vec()
}

/// The three bytes of a negotiation about the echo option.
fn echo_reply(verb: u8) -> (reply: Vec<u8>)
    ensures
        reply@ == seq![IAC, verb, ECHO],
{
    let mut reply: Vec<u8> = Vec::new();
    reply.push(IAC);
    reply.push(verb);
    reply.push(ECHO);
    reply
}

/// The control loop: whether the session goes on, and the echo that the
/// terminal was last set to.
pub struct ControlLoop {
    state: LoopState,
    echo: Toggle,
}

impl ControlLoop {
    /// Whether the session goes on.
    pub closed spec fn state(&self) -> LoopState {
        self.state
    }

    /// The echo that the terminal was last set to.
    pub closed spec fn echo(&self) -> Toggle {
        self.echo
    }

    /// A loop at the start of a session: running, with the terminal echoing.
    pub fn new() -> (control: ControlLoop)
        ensures
            control.state() == LoopState::Running,
            control.echo() == Toggle::On,
    {
        ControlLoop { state: LoopState::Running, echo: Toggle::On }
    }

    /// Whether the session goes on.
    pub fn current_state(&self) -> (state: LoopState)
        ensures
            state == self.state(),
    {
        self.state
    }

    /// The echo that the terminal was last set to.
    pub fn current_echo(&self) -> (echo: Toggle)
        ensures
            echo == self.echo(),
    {
        self.echo
    }

    /// Decides what to do about an event.
    ///
    /// A running loop answers with the actions of `reaction`, in that order,
    /// and goes on unless the event ends the session. A loop that is closing
    /// does nothing more and stays as it is.
    pub fn react(&mut self, event: LoopEvent, config: &Config) -> (actions: Vec<Action>)
        ensures
            old(self).state() is Closing ==> actions@.len() == 0 && *final(self) == *old(self),
            old(self).state() is Running ==> {
                &&& actions_view(actions@) == reaction(event@, config@)
                &&& final(self).echo() == echo_after(old(self).echo(), event@)
                &&& final(self).state() == if ends_session(event@) {
                    LoopState::Closing
                } else {
                    LoopState::Running
                }
            },
    {
        let mut actions: Vec<Action> = Vec::new();
        match self.state {
            LoopState::Closing => {
                return actions;
            },
            LoopState::Running => {},
        }
        match event {
            LoopEvent::Remote(TelnetEvent::Data(data)) => {
                actions.push(Action::Display(filter_shown(&data)));
            },
            LoopEvent::Remote(TelnetEvent::Command(TelnetCommand::Will(TelnetOption::Echo))) => {
                actions.push(Action::QueueReply(echo_reply(DO)));
                actions.push(Action::SetEcho(Toggle::Off));
                self.echo = Toggle::Off;
            },
            LoopEvent::Remote(TelnetEvent::Command(TelnetCommand::Wont(TelnetOption::Echo))) => {
                actions.push(Action::QueueReply(echo_reply(DONT)));
                actions.push(Action::SetEcho(Toggle::On));
                self.echo = Toggle::On;
            },
            LoopEvent::Remote(TelnetEvent::Command(_)) => {},
            LoopEvent::RemoteClosed => {
                actions.push(Action::Close);
                self.state = LoopState::Closing;
            },
            LoopEvent::Local(ParsedInput::CommandInput(Command::Quit)) => {
                actions.push(Action::Close);
                self.state = LoopState::Closing;
            },
            LoopEvent::Local(ParsedInput::CommandInput(Command::Other(name))) => {
                match config.expand_macro(name.as_str()) {
                    Some(expansion) => {
                        actions.push(Action::Send(to_line(expansion)));
                    },
                    None => {
                        let mut message = String::from_str("Unknown command: /");
                        message.append(name.as_str());
                        actions.push(Action::Report(message));
                    },
                }
            },
            LoopEvent::Local(ParsedInput::RegularInput(line)) => {
                actions.push(Action::Send(to_line(line)));
            },
            LoopEvent::LocalClosed => {
                actions.push(Action::Close);
                self.state = LoopState::Closing;
            },
            LoopEvent::Reply(bytes) => {
                actions.push(Action::Send(bytes));
            },
        }
        assert(actions_view(actions@) =~= reaction(event@, config@));
        actions
    }
}

} // verus!
