//! What holds of the decoder on every input: the shape of the events for
//! plain data, escapes and negotiations, how decoding one buffer relates to
//! decoding its two halves, what the data events add up to, and that every
//! byte of the stream is accounted for.

use crate::telnet::completed;
use crate::telnet::decode;
use crate::telnet::end_state;
use crate::telnet::lemma_run_len_bound;
use crate::telnet::lemma_run_len_is;
use crate::telnet::option_of;
use crate::telnet::run_len;
use crate::telnet::step;
use crate::telnet::verb_of;
use crate::telnet::EventView;
use crate::telnet::State;
use crate::telnet::TelnetCommand;
use crate::telnet::Verb;
use crate::telnet::IAC;
use vstd::prelude::*;

verus! {

/// The literal bytes that `byte` adds to the data stream when it is read in
/// `state`: itself where it is plain data, one `IAC` where it closes an
/// escape, and nothing where it belongs to a command.
pub open spec fn literal(state: State, byte: u8) -> Seq<u8> {
    match state {
        State::Data => if byte == IAC {
            Seq::empty()
        } else {
            seq![byte]
        },
        State::Iac => if byte == IAC {
            seq![IAC]
        } else {
            Seq::empty()
        },
        State::Negotiating(_) => Seq::empty(),
    }
}

/// The data that `bytes` carry when reading starts in `state`: the stream
/// with every escaped `IAC` written once and every command left out.
pub open spec fn payload(state: State, bytes: Seq<u8>) -> Seq<u8>
    decreases bytes.len(),
{
    if bytes.len() == 0 {
        Seq::empty()
    } else {
        literal(state, bytes[0]) + payload(step(state, bytes[0]), bytes.skip(1))
    }
}

/// The bytes of the `Data` events of `events`, one after the other.
pub open spec fn data_of(events: Seq<EventView>) -> Seq<u8>
    decreases events.len(),
{
    if events.len() == 0 {
        Seq::empty()
    } else {
        let head = match events[0] {
            EventView::Data(bytes) => bytes,
            EventView::Command(_) => Seq::empty(),
        };
        head + data_of(events.skip(1))
    }
}

/// Whether cutting a buffer into `a` and `b` cuts a run of data in two: the
/// last byte of `a` is read as plain data, and so is the first byte of `b`.
pub open spec fn splits_run(state: State, a: Seq<u8>, b: Seq<u8>) -> bool {
    &&& a.len() > 0
    &&& b.len() > 0
    &&& end_state(state, a.drop_last()) is Data
    &&& a.last() != IAC
    &&& b[0] != IAC
}

/// Reading `a` and then `b` leaves the decoder where reading both at once
/// leaves it.
pub proof fn lemma_end_state_concat(state: State, a: Seq<u8>, b: Seq<u8>)
    ensures
        end_state(state, a + b) == end_state(end_state(state, a), b),
    decreases a.len(),
{
    if a.len() == 0 {
        assert(a + b == b);
    } else {
        assert((a + b)[0] == a[0]);
        assert((a + b).skip(1) == a.skip(1) + b);
        lemma_end_state_concat(step(state, a[0]), a.skip(1), b);
    }
}

/// Bytes without `IAC` leave a decoder that reads data where it is.
pub proof fn lemma_run_keeps_state(bytes: Seq<u8>)
    requires
        forall|k: int| 0 <= k < bytes.len() ==> bytes[k] != IAC,
    ensures
        end_state(State::Data, bytes) == State::Data,
    decreases bytes.len(),
{
    if bytes.len() > 0 {
        let tail = bytes.skip(1);
        assert forall|k: int| 0 <= k < tail.len() implies tail[k] != IAC by {
            assert(tail[k] == bytes[k + 1]);
        }
        lemma_run_keeps_state(tail);
    }
}

/// The run at the head of `bytes` holds no `IAC`, and an `IAC` follows it
/// unless it reaches the end.
pub proof fn lemma_run_shape(bytes: Seq<u8>)
    ensures
        run_len(bytes) <= bytes.len(),
        forall|k: int| 0 <= k < run_len(bytes) ==> bytes[k] != IAC,
        run_len(bytes) < bytes.len() ==> bytes[run_len(bytes) as int] == IAC,
    decreases bytes.len(),
{
    if bytes.len() > 0 && bytes[0] != IAC {
        let tail = bytes.skip(1);
        lemma_run_shape(tail);
        assert forall|k: int| 0 <= k < run_len(bytes) implies bytes[k] != IAC by {
            if k > 0 {
                assert(bytes[k] == tail[k - 1]);
            }
        }
        if run_len(bytes) < bytes.len() {
            assert(bytes[run_len(bytes) as int] == tail[run_len(tail) as int]);
        }
    }
}

/// A buffer of plain data, with no `IAC` in it, decodes to one `Data` event
/// that holds the whole buffer, and leaves the decoder reading data.
pub proof fn lemma_plain_data_is_one_event(bytes: Seq<u8>)
    requires
        bytes.len() > 0,
        forall|k: int| 0 <= k < bytes.len() ==> bytes[k] != IAC,
    ensures
        decode(State::Data, bytes) == seq![EventView::Data(bytes)],
        end_state(State::Data, bytes) == State::Data,
{
    lemma_run_len_is(bytes, bytes.len() as int);
    lemma_run_keeps_state(bytes);
    assert(bytes.take(bytes.len() as int) == bytes);
    assert(decode(State::Data, bytes.skip(bytes.len() as int)) == Seq::<EventView>::empty());
    assert(decode(State::Data, bytes) == seq![EventView::Data(bytes)] + Seq::<
        EventView,
    >::empty());
}

/// Two `IAC` bytes in a row are one byte of data, `IAC` itself, in an event
/// of its own; what follows is decoded as data follows data.
pub proof fn lemma_escaped_iac(rest: Seq<u8>)
    ensures
        decode(State::Data, seq![IAC, IAC] + rest) == seq![EventView::Data(seq![IAC])] + decode(
            State::Data,
            rest,
        ),
        decode(State::Data, seq![IAC, IAC]) == seq![EventView::Data(seq![IAC])],
        end_state(State::Data, seq![IAC, IAC] + rest) == end_state(State::Data, rest),
    decreases rest.len(),
{
    let pair = seq![IAC, IAC];
    let all = pair + rest;
    assert(all[0] == IAC);
    assert(all.skip(1)[0] == IAC);
    assert(all.skip(1).skip(1) == rest);
    assert(decode(State::Iac, all.skip(1)) == seq![EventView::Data(seq![IAC])] + decode(
        State::Data,
        rest,
    ));
    assert(end_state(State::Iac, all.skip(1)) == end_state(State::Data, rest));
    assert(pair + Seq::<u8>::empty() == pair);
    if rest.len() == 0 {
        assert(all == pair);
        assert(seq![EventView::Data(seq![IAC])] + Seq::<EventView>::empty() == seq![
            EventView::Data(seq![IAC]),
        ]);
    } else {
        lemma_escaped_iac(Seq::empty());
    }
}

/// `IAC`, a verb and an option byte are one command: the verb applied to the
/// option, which is `Echo` where the option byte is 1 and unknown otherwise.
/// What follows is decoded as data follows data.
pub proof fn lemma_negotiation_is_one_command(verb: Verb, option: u8, rest: Seq<u8>)
    ensures
        decode(State::Data, seq![IAC, verb.code(), option] + rest) == seq![
            EventView::Command(verb.command(option_of(option))),
        ] + decode(State::Data, rest),
        decode(State::Data, seq![IAC, verb.code(), option]) == seq![
            EventView::Command(verb.command(option_of(option))),
        ],
        end_state(State::Data, seq![IAC, verb.code(), option] + rest) == end_state(
            State::Data,
            rest,
        ),
    decreases rest.len(),
{
    let triple = seq![IAC, verb.code(), option];
    let all = triple + rest;
    let event = EventView::Command(verb.command(option_of(option)));
    assert(all[0] == IAC);
    let after_iac = all.skip(1);
    assert(after_iac[0] == verb.code());
    assert(step(State::Iac, verb.code()) == State::Negotiating(verb));
    assert(completed(State::Iac, verb.code()) is None);
    let after_verb = after_iac.skip(1);
    assert(after_verb[0] == option);
    assert(after_verb.skip(1) == rest);
    assert(decode(State::Negotiating(verb), after_verb) == seq![event] + decode(
        State::Data,
        rest,
    ));
    assert(decode(State::Iac, after_iac) == decode(State::Negotiating(verb), after_verb));
    assert(end_state(State::Negotiating(verb), after_verb) == end_state(State::Data, rest));
    assert(end_state(State::Iac, after_iac) == end_state(State::Negotiating(verb), after_verb));
    if rest.len() == 0 {
        assert(all == triple);
        assert(seq![event] + Seq::<EventView>::empty() == seq![event]);
    } else {
        lemma_negotiation_is_one_command(verb, option, Seq::empty());
    }
}

/// Decoding a buffer in two parts.
///
/// Where the cut does not fall inside a run of data, the two parts yield,
/// one after the other, the events of the whole buffer. The cut may fall
/// anywhere else, also inside a control sequence: the second part completes
/// what the first began.
pub proof fn lemma_decode_concat(state: State, a: Seq<u8>, b: Seq<u8>)
    requires
        !splits_run(state, a, b),
    ensures
        decode(state, a + b) == decode(state, a) + decode(end_state(state, a), b),
    decreases a.len(),
{
    let ab = a + b;
    if a.len() == 0 {
        assert(ab == b);
        assert(Seq::<EventView>::empty() + decode(state, b) == decode(state, b));
    } else if state is Data && a[0] != IAC {
        let n = run_len(a) as int;
        lemma_run_shape(a);
        lemma_run_len_bound(a);
        let head = a.take(n);
        let tail = a.skip(n);
        assert(a == head + tail);
        lemma_run_keeps_state(head);
        lemma_end_state_concat(State::Data, head, tail);
        assert forall|k: int| 0 <= k < n implies ab[k] != IAC by {
            assert(ab[k] == a[k]);
        }
        if n < a.len() {
            assert(ab[n] == a[n]);
            lemma_run_len_is(ab, n);
            assert(ab.take(n) == head);
            assert(ab.skip(n) == tail + b);
            if b.len() > 0 && tail.last() != IAC && b[0] != IAC {
                assert(a.drop_last() == head + tail.drop_last());
                lemma_end_state_concat(State::Data, head, tail.drop_last());
            }
            lemma_decode_concat(State::Data, tail, b);
            assert(decode(State::Data, ab) == seq![EventView::Data(head)] + (decode(
                State::Data,
                tail,
            ) + decode(end_state(State::Data, tail), b)));
            assert(decode(State::Data, a) == seq![EventView::Data(head)] + decode(
                State::Data,
                tail,
            ));
        } else {
            assert(head == a);
            assert forall|k: int| 0 <= k < a.drop_last().len() implies a.drop_last()[k]
                != IAC by {
                assert(a.drop_last()[k] == a[k]);
            }
            lemma_run_keeps_state(a.drop_last());
            lemma_run_len_is(ab, n);
            assert(ab.take(n) == a);
            assert(ab.skip(n) == b);
            assert(decode(State::Data, tail) == Seq::<EventView>::empty());
            assert(decode(State::Data, a) == seq![EventView::Data(a)] + Seq::<
                EventView,
            >::empty());
            assert(decode(State::Data, ab) == seq![EventView::Data(a)] + decode(
                State::Data,
                b,
            ));
        }
    } else {
        let next = step(state, a[0]);
        assert(ab[0] == a[0]);
        assert(ab.skip(1) == a.skip(1) + b);
        if a.len() >= 2 {
            assert(a.drop_last()[0] == a[0]);
            assert(a.drop_last().skip(1) == a.skip(1).drop_last());
        }
        lemma_decode_concat(next, a.skip(1), b);
        match completed(state, a[0]) {
            Some(event) => {
                assert(seq![event] + (decode(next, a.skip(1)) + decode(
                    end_state(next, a.skip(1)),
                    b,
                )) == (seq![event] + decode(next, a.skip(1))) + decode(
                    end_state(next, a.skip(1)),
                    b,
                ));
            },
            None => {},
        }
    }
}

/// The data of two sequences of events is the data of the first followed by
/// the data of the second.
pub proof fn lemma_data_of_concat(x: Seq<EventView>, y: Seq<EventView>)
    ensures
        data_of(x + y) == data_of(x) + data_of(y),
    decreases x.len(),
{
    if x.len() == 0 {
        assert(x + y == y);
        assert(Seq::<u8>::empty() + data_of(y) == data_of(y));
    } else {
        assert((x + y)[0] == x[0]);
        assert((x + y).skip(1) == x.skip(1) + y);
        lemma_data_of_concat(x.skip(1), y);
        let head = match x[0] {
            EventView::Data(bytes) => bytes,
            EventView::Command(_) => Seq::empty(),
        };
        assert(head + (data_of(x.skip(1)) + data_of(y)) == (head + data_of(x.skip(1))) + data_of(
            y,
        ));
    }
}

/// The data that a buffer carries is the data of its first part followed by
/// the data of the second, wherever the cut falls.
pub proof fn lemma_payload_concat(state: State, a: Seq<u8>, b: Seq<u8>)
    ensures
        payload(state, a + b) == payload(state, a) + payload(end_state(state, a), b),
    decreases a.len(),
{
    if a.len() == 0 {
        assert(a + b == b);
        assert(Seq::<u8>::empty() + payload(state, b) == payload(state, b));
    } else {
        let next = step(state, a[0]);
        assert((a + b)[0] == a[0]);
        assert((a + b).skip(1) == a.skip(1) + b);
        lemma_payload_concat(next, a.skip(1), b);
        assert(literal(state, a[0]) + (payload(next, a.skip(1)) + payload(
            end_state(next, a.skip(1)),
            b,
        )) == (literal(state, a[0]) + payload(next, a.skip(1))) + payload(
            end_state(next, a.skip(1)),
            b,
        ));
    }
}

/// Plain data, with no `IAC` in it, carries itself.
pub proof fn lemma_payload_plain(bytes: Seq<u8>)
    requires
        forall|k: int| 0 <= k < bytes.len() ==> bytes[k] != IAC,
    ensures
        payload(State::Data, bytes) == bytes,
    decreases bytes.len(),
{
    if bytes.len() > 0 {
        let tail = bytes.skip(1);
        assert forall|k: int| 0 <= k < tail.len() implies tail[k] != IAC by {
            assert(tail[k] == bytes[k + 1]);
        }
        lemma_payload_plain(tail);
        assert(seq![bytes[0]] + tail == bytes);
    }
}

/// The `Data` events of a buffer, taken together in the order in which they
/// come, are the data that the buffer carries: its bytes with every escaped
/// `IAC` written once and every command left out.
pub proof fn lemma_data_round_trip(state: State, bytes: Seq<u8>)
    ensures
        data_of(decode(state, bytes)) == payload(state, bytes),
    decreases bytes.len(),
{
    if bytes.len() == 0 {
    } else if state is Data && bytes[0] != IAC {
        let n = run_len(bytes) as int;
        lemma_run_shape(bytes);
        lemma_run_len_bound(bytes);
        let head = bytes.take(n);
        let tail = bytes.skip(n);
        assert(bytes == head + tail);
        lemma_run_keeps_state(head);
        lemma_payload_plain(head);
        lemma_payload_concat(State::Data, head, tail);
        lemma_data_round_trip(State::Data, tail);
        let first = seq![EventView::Data(head)];
        lemma_data_of_concat(first, decode(State::Data, tail));
        assert(first.skip(1).len() == 0);
        assert(data_of(first.skip(1)) == Seq::<u8>::empty());
        assert(data_of(first) == head + Seq::<u8>::empty());
        assert(head + Seq::<u8>::empty() == head);
    } else {
        let next = step(state, bytes[0]);
        lemma_data_round_trip(next, bytes.skip(1));
        match completed(state, bytes[0]) {
            Some(event) => {
                let first = seq![event];
                lemma_data_of_concat(first, decode(next, bytes.skip(1)));
                assert(first.skip(1).len() == 0);
                assert(data_of(first.skip(1)) == Seq::<u8>::empty());
                assert(data_of(first) == literal(state, bytes[0]) + Seq::<u8>::empty());
                assert(literal(state, bytes[0]) + Seq::<u8>::empty() == literal(
                    state,
                    bytes[0],
                ));
            },
            None => {
                assert(literal(state, bytes[0]) == Seq::<u8>::empty());
                assert(Seq::<u8>::empty() + payload(next, bytes.skip(1)) == payload(
                    next,
                    bytes.skip(1),
                ));
            },
        }
    }
}

/// No `Data` event is empty.
pub proof fn lemma_data_events_are_not_empty(state: State, bytes: Seq<u8>, i: int)
    requires
        0 <= i < decode(state, bytes).len(),
    ensures
        decode(state, bytes)[i] matches EventView::Data(data) ==> data.len() > 0,
    decreases bytes.len(),
{
    if bytes.len() == 0 {
    } else if state is Data && bytes[0] != IAC {
        let n = run_len(bytes) as int;
        lemma_run_len_bound(bytes);
        if i > 0 {
            lemma_data_events_are_not_empty(State::Data, bytes.skip(n), i - 1);
        }
    } else {
        let next = step(state, bytes[0]);
        match completed(state, bytes[0]) {
            Some(event) => {
                if i > 0 {
                    lemma_data_events_are_not_empty(next, bytes.skip(1), i - 1);
                }
            },
            None => {
                lemma_data_events_are_not_empty(next, bytes.skip(1), i);
            },
        }
    }
}

/// Two sequences of events, the second following the first, where a run of
/// data was cut between them: the last event of the first and the first
/// event of the second are the two parts of that run and become one event.
pub open spec fn rejoined(first: Seq<EventView>, second: Seq<EventView>) -> Seq<EventView> {
    if first.len() > 0 && second.len() > 0 {
        match (first.last(), second[0]) {
            (EventView::Data(x), EventView::Data(y)) => first.drop_last() + seq![
                EventView::Data(x + y),
            ] + second.skip(1),
            _ => first + second,
        }
    } else {
        first + second
    }
}

/// Decoding a buffer in two parts, where the cut falls inside a run of data.
///
/// The first part ends with a `Data` event and the second begins with one:
/// they hold the two parts of the run. But for that, the two parts yield the
/// events of the whole buffer.
pub proof fn lemma_decode_concat_in_run(state: State, a: Seq<u8>, b: Seq<u8>)
    requires
        splits_run(state, a, b),
    ensures
        decode(state, a).len() > 0,
        decode(state, a).last() is Data,
        decode(end_state(state, a), b).len() > 0,
        decode(end_state(state, a), b)[0] is Data,
        decode(state, a + b) == rejoined(decode(state, a), decode(end_state(state, a), b)),
    decreases a.len(),
{
    let ab = a + b;
    let m = run_len(b) as int;
    lemma_run_shape(b);
    lemma_run_len_bound(b);
    assert(a == a.drop_last().push(a.last()));
    lemma_end_state_concat(state, a.drop_last(), seq![a.last()]);
    assert(a.drop_last() + seq![a.last()] == a);
    assert(end_state(State::Data, seq![a.last()]) == State::Data) by {
        assert(seq![a.last()].skip(1).len() == 0);
        assert(end_state(State::Data, seq![a.last()].skip(1)) == State::Data);
    }
    assert(end_state(state, a) == State::Data);
    let second = decode(State::Data, b);
    assert(second == seq![EventView::Data(b.take(m))] + decode(State::Data, b.skip(m)));
    assert(second[0] == EventView::Data(b.take(m)));
    assert(second.skip(1) == decode(State::Data, b.skip(m)));
    if state is Data && a[0] != IAC {
        let n = run_len(a) as int;
        lemma_run_shape(a);
        lemma_run_len_bound(a);
        let head = a.take(n);
        let tail = a.skip(n);
        assert(a == head + tail);
        if n < a.len() {
            lemma_run_keeps_state(head);
            assert(a.drop_last() == head + tail.drop_last());
            lemma_end_state_concat(State::Data, head, tail.drop_last());
            assert forall|k: int| 0 <= k < n implies ab[k] != IAC by {
                assert(ab[k] == a[k]);
            }
            assert(ab[n] == a[n]);
            lemma_run_len_is(ab, n);
            assert(ab.take(n) == head);
            assert(ab.skip(n) == tail + b);
            lemma_end_state_concat(State::Data, head, tail);
            lemma_decode_concat_in_run(State::Data, tail, b);
            let inner = decode(State::Data, tail);
            let first = decode(State::Data, a);
            assert(first == seq![EventView::Data(head)] + inner);
            assert(first.last() == inner.last());
            assert(first.drop_last() == seq![EventView::Data(head)] + inner.drop_last());
            assert(decode(State::Data, ab) == seq![EventView::Data(head)] + rejoined(
                inner,
                second,
            ));
            assert(decode(State::Data, ab) == rejoined(first, second));
        } else {
            assert(head == a);
            assert forall|k: int| 0 <= k < n + m implies ab[k] != IAC by {
                if k < n {
                    assert(ab[k] == a[k]);
                } else {
                    assert(ab[k] == b[k - n]);
                }
            }
            if m < b.len() {
                assert(ab[n + m] == b[m]);
            }
            lemma_run_len_is(ab, n + m);
            assert(ab.take(n + m) == a + b.take(m));
            assert(ab.skip(n + m) == b.skip(m));
            assert(decode(State::Data, tail) == Seq::<EventView>::empty());
            let first = decode(State::Data, a);
            assert(first == seq![EventView::Data(a)] + Seq::<EventView>::empty());
            assert(first == seq![EventView::Data(a)]);
            assert(first.drop_last() == Seq::<EventView>::empty());
            assert(decode(State::Data, ab) == seq![EventView::Data(a + b.take(m))] + decode(
                State::Data,
                b.skip(m),
            ));
            assert(rejoined(first, second) == Seq::<EventView>::empty() + seq![
                EventView::Data(a + b.take(m)),
            ] + second.skip(1));
        }
    } else {
        let next = step(state, a[0]);
        assert(a.len() >= 2) by {
            if a.len() == 1 {
                assert(a.drop_last().len() == 0);
            }
        }
        assert(ab[0] == a[0]);
        assert(ab.skip(1) == a.skip(1) + b);
        assert(a.drop_last()[0] == a[0]);
        assert(a.drop_last().skip(1) == a.skip(1).drop_last());
        lemma_decode_concat_in_run(next, a.skip(1), b);
        let inner = decode(next, a.skip(1));
        let first = decode(state, a);
        match completed(state, a[0]) {
            Some(event) => {
                assert(first == seq![event] + inner);
                assert(first.last() == inner.last());
                assert(first.drop_last() == seq![event] + inner.drop_last());
                assert(decode(state, ab) == seq![event] + rejoined(inner, second));
                assert(decode(state, ab) == rejoined(first, second));
            },
            None => {},
        }
    }
}

/// The bytes that write `data` on the wire: every `IAC` in it twice.
pub open spec fn escaped(data: Seq<u8>) -> Seq<u8>
    decreases data.len(),
{
    if data.len() == 0 {
        Seq::empty()
    } else if data[0] == IAC {
        seq![IAC, IAC] + escaped(data.skip(1))
    } else {
        seq![data[0]] + escaped(data.skip(1))
    }
}

/// The bytes that write a command on the wire.
pub open spec fn command_bytes(command: TelnetCommand) -> Seq<u8> {
    match command {
        TelnetCommand::Will(option) => seq![IAC, Verb::Will.code(), option.code()],
        TelnetCommand::Wont(option) => seq![IAC, Verb::Wont.code(), option.code()],
        TelnetCommand::Do(option) => seq![IAC, Verb::Do.code(), option.code()],
        TelnetCommand::Dont(option) => seq![IAC, Verb::Dont.code(), option.code()],
        TelnetCommand::UnknownCommand(byte) => seq![IAC, byte],
    }
}

/// The bytes that write one event on the wire.
pub open spec fn event_bytes(event: EventView) -> Seq<u8> {
    match event {
        EventView::Data(data) => escaped(data),
        EventView::Command(command) => command_bytes(command),
    }
}

/// The bytes that write a sequence of events on the wire.
pub open spec fn wire_bytes(events: Seq<EventView>) -> Seq<u8>
    decreases events.len(),
{
    if events.len() == 0 {
        Seq::empty()
    } else {
        event_bytes(events[0]) + wire_bytes(events.skip(1))
    }
}

/// The bytes of a control sequence that a state has read, and that no event
/// has accounted for yet.
pub open spec fn pending(state: State) -> Seq<u8> {
    match state {
        State::Data => Seq::empty(),
        State::Iac => seq![IAC],
        State::Negotiating(verb) => seq![IAC, verb.code()],
    }
}

/// Plain data, with no `IAC` in it, is written on the wire as it is.
pub proof fn lemma_escaped_plain(data: Seq<u8>)
    requires
        forall|k: int| 0 <= k < data.len() ==> data[k] != IAC,
    ensures
        escaped(data) == data,
    decreases data.len(),
{
    if data.len() > 0 {
        let tail = data.skip(1);
        assert forall|k: int| 0 <= k < tail.len() implies tail[k] != IAC by {
            assert(tail[k] == data[k + 1]);
        }
        lemma_escaped_plain(tail);
        assert(seq![data[0]] + tail == data);
    }
}

/// The bytes of two sequences of events are the bytes of the first followed
/// by the bytes of the second.
pub proof fn lemma_wire_bytes_concat(x: Seq<EventView>, y: Seq<EventView>)
    ensures
        wire_bytes(x + y) == wire_bytes(x) + wire_bytes(y),
    decreases x.len(),
{
    if x.len() == 0 {
        assert(x + y == y);
        assert(Seq::<u8>::empty() + wire_bytes(y) == wire_bytes(y));
    } else {
        assert((x + y)[0] == x[0]);
        assert((x + y).skip(1) == x.skip(1) + y);
        lemma_wire_bytes_concat(x.skip(1), y);
        let head = event_bytes(x[0]);
        assert(head + (wire_bytes(x.skip(1)) + wire_bytes(y)) == (head + wire_bytes(x.skip(1)))
            + wire_bytes(y));
    }
}

/// A sequence of one event is written as that event is.
pub proof fn lemma_wire_bytes_one(event: EventView)
    ensures
        wire_bytes(seq![event]) == event_bytes(event),
{
    let one = seq![event];
    assert(one.skip(1).len() == 0);
    assert(wire_bytes(one.skip(1)) == Seq::<u8>::empty());
    assert(wire_bytes(one) == event_bytes(event) + Seq::<u8>::empty());
    assert(event_bytes(event) + Seq::<u8>::empty() == event_bytes(event));
}

/// A byte read inside a control sequence, or an `IAC` that opens one, is
/// accounted for: with the bytes held back before it, it is the event that it
/// completes, or it is held back in turn.
pub proof fn lemma_step_accounted(state: State, byte: u8)
    requires
        !(state is Data) || byte == IAC,
    ensures
        completed(state, byte) matches Some(event) ==> step(state, byte) is Data
            && event_bytes(event) == pending(state) + seq![byte],
        completed(state, byte) is None ==> pending(step(state, byte)) == pending(state) + seq![
            byte,
        ],
{
    match state {
        State::Data => {
            assert(Seq::<u8>::empty() + seq![IAC] == seq![IAC]);
        },
        State::Iac => {
            if byte == IAC {
                let one = seq![IAC];
                assert(one.skip(1).len() == 0);
                assert(escaped(one.skip(1)) == Seq::<u8>::empty());
                assert(escaped(one) == seq![IAC, IAC] + Seq::<u8>::empty());
                assert(seq![IAC, IAC] + Seq::<u8>::empty() == seq![IAC] + seq![IAC]);
            } else if verb_of(byte) is Some {
                assert(verb_of(byte)->0.code() == byte);
                assert(seq![IAC, byte] == seq![IAC] + seq![byte]);
            } else {
                assert(seq![IAC, byte] == seq![IAC] + seq![byte]);
            }
        },
        State::Negotiating(verb) => {
            assert(option_of(byte).code() == byte);
            assert(seq![IAC, verb.code(), byte] == seq![IAC, verb.code()] + seq![byte]);
        },
    }
}

/// Every byte is accounted for once, and in its place.
///
/// The bytes that a state holds back, followed by the bytes of a buffer, are
/// the bytes of the events that the buffer yields, followed by the bytes that
/// the state after it holds back. So the events of a stream, written on the
/// wire again, are the stream: no byte is dropped, doubled or moved.
pub proof fn lemma_bytes_accounted(state: State, bytes: Seq<u8>)
    ensures
        pending(state) + bytes == wire_bytes(decode(state, bytes)) + pending(
            end_state(state, bytes),
        ),
    decreases bytes.len(),
{
    let end = end_state(state, bytes);
    if bytes.len() == 0 {
        assert(pending(state) + bytes == pending(state));
        assert(Seq::<u8>::empty() + pending(state) == pending(state));
    } else if state is Data && bytes[0] != IAC {
        let n = run_len(bytes) as int;
        lemma_run_shape(bytes);
        lemma_run_len_bound(bytes);
        let head = bytes.take(n);
        let tail = bytes.skip(n);
        let inner = wire_bytes(decode(State::Data, tail));
        assert(bytes == head + tail);
        lemma_run_keeps_state(head);
        lemma_end_state_concat(State::Data, head, tail);
        lemma_escaped_plain(head);
        lemma_bytes_accounted(State::Data, tail);
        lemma_wire_bytes_one(EventView::Data(head));
        lemma_wire_bytes_concat(seq![EventView::Data(head)], decode(State::Data, tail));
        assert(Seq::<u8>::empty() + tail == tail);
        assert(Seq::<u8>::empty() + bytes == bytes);
        assert(head + (inner + pending(end)) == (head + inner) + pending(end));
    } else {
        let byte = bytes[0];
        let rest = bytes.skip(1);
        let next = step(state, byte);
        let inner = wire_bytes(decode(next, rest));
        lemma_bytes_accounted(next, rest);
        lemma_step_accounted(state, byte);
        assert(seq![byte] + rest == bytes);
        assert(pending(state) + bytes == (pending(state) + seq![byte]) + rest);
        match completed(state, byte) {
            Some(event) => {
                lemma_wire_bytes_one(event);
                lemma_wire_bytes_concat(seq![event], decode(next, rest));
                assert(Seq::<u8>::empty() + rest == rest);
                assert(event_bytes(event) + (inner + pending(end)) == (event_bytes(event)
                    + inner) + pending(end));
            },
            None => {},
        }
    }
}

/// A stream that begins and ends outside every control sequence is the
/// stream that its events write.
pub proof fn lemma_whole_stream_round_trip(bytes: Seq<u8>)
    requires
        end_state(State::Data, bytes) is Data,
    ensures
        wire_bytes(decode(State::Data, bytes)) == bytes,
{
    lemma_bytes_accounted(State::Data, bytes);
    assert(Seq::<u8>::empty() + bytes == bytes);
    assert(wire_bytes(decode(State::Data, bytes)) + Seq::<u8>::empty() == wire_bytes(
        decode(State::Data, bytes),
    ));
}

} // verus!
