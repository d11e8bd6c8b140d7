//! The Telnet decoder: a state machine that separates literal data from
//! control sequences in a stream of bytes.
//!
//! The stream arrives in buffers of any length. The decoder keeps its state
//! between buffers, so a control sequence may straddle two of them.

use vstd::prelude::*;
use vstd::slice::slice_subrange;
use vstd::slice::slice_to_vec;

verus! {

/// The option that asks the other side to echo what is typed.
pub const ECHO: u8 = 1;

/// The sender offers to enable an option.
pub const WILL: u8 = 251;

/// The sender refuses to enable an option.
pub const WONT: u8 = 252;

/// The sender asks the receiver to enable an option.
pub const DO: u8 = 253;

/// The sender asks the receiver to disable an option.
pub const DONT: u8 = 254;

/// "Interpret as command": the byte that opens every control sequence.
pub const IAC: u8 = 255;

/// The largest number of bytes a caller should hand to the decoder at once.
pub const BUFFER_SIZE: usize = 1024;

/// An option that the two sides negotiate.
#[derive(Clone, Copy, Debug, PartialEq, Eq, Structural)]
pub enum TelnetOption {
    Echo,
    UnknownOption(u8),
}

/// One negotiation, or a command byte that the decoder does not know.
#[derive(Clone, Copy, Debug, PartialEq, Eq, Structural)]
pub enum TelnetCommand {
    Will(TelnetOption),
    Wont(TelnetOption),
    Do(TelnetOption),
    Dont(TelnetOption),
    UnknownCommand(u8),
}

/// What the decoder hands out: a run of literal bytes, or a command.
#[derive(Debug, PartialEq, Eq)]
pub enum TelnetEvent {
    Data(Vec<u8>),
    Command(TelnetCommand),
}

/// The four verbs of a negotiation.
#[derive(Clone, Copy, Debug, PartialEq, Eq, Structural)]
pub enum Verb {
    Will,
    Wont,
    Do,
    Dont,
}

/// Where the decoder stands in the stream.
#[derive(Clone, Copy, Debug, PartialEq, Eq, Structural)]
pub enum State {
    /// Bytes pass through as data.
    Data,
    /// The last byte was `IAC`; a command byte follows.
    Iac,
    /// `IAC` and a verb have been read; the option byte follows.
    Negotiating(Verb),
}

/// Why a buffer was not decoded.
#[derive(Clone, Copy, Debug, PartialEq, Eq, Structural)]
pub enum ReadError {
    /// The read returned no bytes: the peer has closed the connection.
    ConnectionClosed,
}

/// A `TelnetEvent` as a mathematical value.
pub enum EventView {
    Data(Seq<u8>),
    Command(TelnetCommand),
}

impl View for TelnetEvent {
    type V = EventView;

    open spec fn view(&self) -> EventView {
        match self {
            TelnetEvent::Data(bytes) => EventView::Data(bytes@),
            TelnetEvent::Command(command) => EventView::Command(*command),
        }
    }
}

/// The events of a vector, each as a mathematical value.
pub open spec fn events_view(events: Seq<TelnetEvent>) -> Seq<EventView> {
    events.map_values(|e: TelnetEvent| e@)
}

/// The option that an option byte names.
pub open spec fn option_of(byte: u8) -> TelnetOption {
    if byte == ECHO {
        TelnetOption::Echo
    } else {
        TelnetOption::UnknownOption(byte)
    }
}

/// The verb that a command byte names, if it names one.
pub open spec fn verb_of(byte: u8) -> Option<Verb> {
    if byte == WILL {
        Some(Verb::Will)
    } else if byte == WONT {
        Some(Verb::Wont)
    } else if byte == DO {
        Some(Verb::Do)
    } else if byte == DONT {
        Some(Verb::Dont)
    } else {
        None
    }
}

impl Verb {
    /// The byte that stands for this verb on the wire.
    pub open spec fn code(self) -> u8 {
        match self {
            Verb::Will => WILL,
            Verb::Wont => WONT,
            Verb::Do => DO,
            Verb::Dont => DONT,
        }
    }

    /// The negotiation of `option` with this verb.
    pub open spec fn command(self, option: TelnetOption) -> TelnetCommand {
        match self {
            Verb::Will => TelnetCommand::Will(option),
            Verb::Wont => TelnetCommand::Wont(option),
            Verb::Do => TelnetCommand::Do(option),
            Verb::Dont => TelnetCommand::Dont(option),
        }
    }

    /// Reads a verb from a command byte.
    pub fn from_u8(byte: u8) -> (verb: Option<Verb>)
        ensures
            verb == verb_of(byte),
    {
        if byte == WILL {
            Some(Verb::Will)
        } else if byte == WONT {
            Some(Verb::Wont)
        } else if byte == DO {
            Some(Verb::Do)
        } else if byte == DONT {
            Some(Verb::Dont)
        } else {
            None
        }
    }

    /// Writes this verb as its command byte.
    pub fn to_u8(self) -> (byte: u8)
        ensures
            byte == self.code(),
            verb_of(byte) == Some(self),
    {
        match self {
            Verb::Will => WILL,
            Verb::Wont => WONT,
            Verb::Do => DO,
            Verb::Dont => DONT,
        }
    }

    /// Builds the negotiation of `option` with this verb.
    pub fn apply(self, option: TelnetOption) -> (command: TelnetCommand)
        ensures
            command == self.command(option),
    {
        match self {
            Verb::Will => TelnetCommand::Will(option),
            Verb::Wont => TelnetCommand::Wont(option),
            Verb::Do => TelnetCommand::Do(option),
            Verb::Dont => TelnetCommand::Dont(option),
        }
    }
}

impl TelnetOption {
    /// The byte that stands for this option on the wire.
    pub open spec fn code(self) -> u8 {
        match self {
            TelnetOption::Echo => ECHO,
            TelnetOption::UnknownOption(byte) => byte,
        }
    }

    /// Reads an option from an option byte. No byte is refused: one that
    /// names no known option is kept as it is.
    pub fn from_u8(x: u8) -> (option: TelnetOption)
        ensures
            option == option_of(x),
            option.code() == x,
    {
        if x == ECHO {
            TelnetOption::Echo
        } else {
            TelnetOption::UnknownOption(x)
        }
    }

    /// Writes this option as its option byte.
    pub fn to_u8(self) -> (byte: u8)
        ensures
            byte == self.code(),
    {
        match self {
            TelnetOption::Echo => ECHO,
            TelnetOption::UnknownOption(byte) => byte,
        }
    }
}

/// The state after `byte` is read in `state`.
pub open spec fn step(state: State, byte: u8) -> State {
    match state {
        State::Data => if byte == IAC {
            State::Iac
        } else {
            State::Data
        },
        State::Iac => match verb_of(byte) {
            Some(verb) => State::Negotiating(verb),
            None => State::Data,
        },
        State::Negotiating(_) => State::Data,
    }
}

/// The state after all of `bytes` are read, starting in `state`.
pub open spec fn end_state(state: State, bytes: Seq<u8>) -> State
    decreases bytes.len(),
{
    if bytes.len() == 0 {
        state
    } else {
        end_state(step(state, bytes[0]), bytes.skip(1))
    }
}

/// The event that `byte` completes when it is read inside a control
/// sequence: an escaped `IAC` is one byte of data, a command byte that is no
/// verb is a command by itself, and an option byte closes a negotiation.
/// A byte read in `State::Data` completes nothing: it joins a run or opens a
/// control sequence.
pub open spec fn completed(state: State, byte: u8) -> Option<EventView> {
    match state {
        State::Data => None,
        State::Iac => if byte == IAC {
            Some(EventView::Data(seq![IAC]))
        } else if verb_of(byte) is Some {
            None
        } else {
            Some(EventView::Command(TelnetCommand::UnknownCommand(byte)))
        },
        State::Negotiating(verb) => Some(EventView::Command(verb.command(option_of(byte)))),
    }
}

/// The number of bytes at the head of `bytes` before the first `IAC`.
pub open spec fn run_len(bytes: Seq<u8>) -> nat
    decreases bytes.len(),
{
    if bytes.len() == 0 || bytes[0] == IAC {
        0
    } else {
        1 + run_len(bytes.skip(1))
    }
}

/// A run is no longer than the bytes it is taken from.
pub proof fn lemma_run_len_bound(bytes: Seq<u8>)
    ensures
        run_len(bytes) <= bytes.len(),
        bytes.len() > 0 && bytes[0] != IAC ==> run_len(bytes) >= 1,
    decreases bytes.len(),
{
    if bytes.len() > 0 && bytes[0] != IAC {
        lemma_run_len_bound(bytes.skip(1));
    }
}

/// The events that one buffer yields when decoding starts in `state`.
///
/// In `State::Data` the bytes up to the next `IAC`, or up to the end of the
/// buffer, form one `Data` event. Inside a control sequence each byte
/// completes an event or leads to the next state. A control sequence that the
/// buffer cuts short yields nothing yet.
pub open spec fn decode(state: State, bytes: Seq<u8>) -> Seq<EventView>
    decreases bytes.len(),
{
    if bytes.len() == 0 {
        Seq::empty()
    } else if state is Data && bytes[0] != IAC {
        let n = run_len(bytes);
        proof {
            lemma_run_len_bound(bytes);
        }
        seq![EventView::Data(bytes.take(n as int))] + decode(State::Data, bytes.skip(n as int))
    } else {
        let rest = decode(step(state, bytes[0]), bytes.skip(1));
        match completed(state, bytes[0]) {
            Some(event) => seq![event] + rest,
            None => rest,
        }
    }
}

/// A prefix of `n` bytes without `IAC` that ends the sequence or stands
/// before an `IAC` is the run at its head.
pub proof fn lemma_run_len_is(bytes: Seq<u8>, n: int)
    requires
        0 <= n <= bytes.len(),
        forall|k: int| 0 <= k < n ==> bytes[k] != IAC,
        n == bytes.len() || bytes[n] == IAC,
    ensures
        run_len(bytes) == n,
    decreases n,
{
    if n > 0 {
        let tail = bytes.skip(1);
        assert forall|k: int| 0 <= k < n - 1 implies tail[k] != IAC by {
            assert(tail[k] == bytes[k + 1]);
        }
        lemma_run_len_is(tail, n - 1);
    }
}

/// The Telnet decoder. It holds the state that one buffer leaves for the next.
pub struct Telnet {
    state: State,
}

impl Telnet {
    /// The state in which the next buffer will be read.
    pub closed spec fn state(&self) -> State {
        self.state
    }

    /// A decoder at the start of a stream.
    pub fn new() -> (telnet: Telnet)
        ensures
            telnet.state() == State::Data,
    {
        Telnet { state: State::Data }
    }

    /// The state in which the next buffer will be read.
    pub fn current_state(&self) -> (state: State)
        ensures
            state == self.state(),
    {
        self.state
    }

    /// Decodes the bytes of one read.
    ///
    /// A read of no bytes means that the peer has closed the connection: it
    /// is an error, and the decoder stays as it was. Any other buffer is
    /// decoded in full, whatever it holds.
    pub fn read_events(&mut self, input: &[u8]) -> (result: Result<Vec<TelnetEvent>, ReadError>)
        ensures
            result is Err <==> input@.len() == 0,
            result is Err ==> result == Err::<Vec<TelnetEvent>, ReadError>(
                ReadError::ConnectionClosed,
            ) && final(self).state() == old(self).state(),
            result matches Ok(events) ==> {
                &&& events_view(events@) == decode(old(self).state(), input@)
                &&& final(self).state() == end_state(old(self).state(), input@)
            },
    {
        let n = input.len();
        if n == 0 {
            return Err(ReadError::ConnectionClosed);
        }
        let ghost start = self.state;
        let mut events: Vec<TelnetEvent> = Vec::new();
        let mut state = self.state;
        // The pending run is `input[from..i]`.
        let mut from: usize = 0;
        let mut i: usize = 0;
        assert(input@.skip(0) == input@);
        while i < n
            invariant
                n == input@.len(),
                from <= i <= n,
                forall|k: int| from <= k < i ==> input@[k] != IAC,
                !(state is Data) ==> from == i,
                decode(start, input@) == events_view(events@) + decode(
                    state,
                    input@.skip(from as int),
                ),
                end_state(start, input@) == end_state(state, input@.skip(i as int)),
            decreases n - i,
        {
            let x = input[i];
            let ghost before = events_view(events@);
            let ghost pending = input@.skip(from as int);
            let ghost rest = input@.skip(i as int);
            proof {
                assert(rest[0] == x);
                assert(rest.skip(1) == input@.skip(i + 1));
            }
            match state {
                State::Data => {
                    if x == IAC {
                        if from < i {
                            let run = slice_to_vec(slice_subrange(input, from, i));
                            events.push(TelnetEvent::Data(run));
                            proof {
                                assert forall|k: int| 0 <= k < i - from implies pending[k]
                                    != IAC by {
                                    assert(pending[k] == input@[from + k]);
                                }
                                assert(pending[i - from] == x);
                                lemma_run_len_is(pending, i - from);
                                assert(pending.take(i - from) == input@.subrange(
                                    from as int,
                                    i as int,
                                ));
                                assert(pending.skip(i - from) == rest);
                                assert(events_view(events@) == before.push(
                                    EventView::Data(run@),
                                ));
                                assert(decode(State::Data, pending) == seq![
                                    EventView::Data(run@),
                                ] + decode(State::Data, rest));
                            }
                        }
                        state = State::Iac;
                        from = i + 1;
                    }
                },
                State::Iac => {
                    if x == IAC {
                        let mut escaped: Vec<u8> = Vec::new();
                        escaped.push(x);
                        events.push(TelnetEvent::Data(escaped));
                        proof {
                            assert(escaped@ == seq![IAC]);
                            assert(events_view(events@) == before.push(
                                EventView::Data(seq![IAC]),
                            ));
                        }
                        state = State::Data;
                    } else {
                        match Verb::from_u8(x) {
                            Some(verb) => {
                                state = State::Negotiating(verb);
                            },
                            None => {
                                events.push(
                                    TelnetEvent::Command(TelnetCommand::UnknownCommand(x)),
                                );
                                proof {
                                    assert(events_view(events@) == before.push(
                                        EventView::Command(TelnetCommand::UnknownCommand(x)),
                                    ));
                                }
                                state = State::Data;
                            },
                        }
                    }
                    from = i + 1;
                },
                State::Negotiating(verb) => {
                    let option = TelnetOption::from_u8(x);
                    events.push(TelnetEvent::Command(verb.apply(option)));
                    proof {
                        assert(events_view(events@) == before.push(
                            EventView::Command(verb.command(option)),
                        ));
                    }
                    state = State::Data;
                    from = i + 1;
                },
            }
            i = i + 1;
        }
        let ghost before = events_view(events@);
        let ghost pending = input@.skip(from as int);
        if from < n {
            let run = slice_to_vec(slice_subrange(input, from, n));
            events.push(TelnetEvent::Data(run));
            proof {
                assert forall|k: int| 0 <= k < n - from implies pending[k] != IAC by {
                    assert(pending[k] == input@[from + k]);
                }
                lemma_run_len_is(pending, n - from);
                assert(pending.take(n - from) == input@.subrange(from as int, n as int));
                assert(pending.skip(n - from).len() == 0);
                assert(decode(State::Data, pending.skip(n - from)) == Seq::<EventView>::empty());
                assert(pending[0] == input@[from as int]);
                assert(decode(State::Data, pending) == seq![EventView::Data(run@)] + Seq::<
                    EventView,
                >::empty());
                assert(events_view(events@) == before.push(EventView::Data(run@)));
            }
        } else {
            assert(pending.len() == 0);
        }
        assert(input@.skip(n as int).len() == 0);
        self.state = state;
        Ok(events)
    }
}

} // verus!
