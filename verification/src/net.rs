//! The connection's bookkeeping: when the socket is to be shut down, and what
//! the read pump does with each read.

use crate::telnet::decode;
use crate::telnet::end_state;
use crate::telnet::events_view;
use crate::telnet::Telnet;
use crate::telnet::TelnetEvent;
use vstd::prelude::*;

verus! {

/// A connection to a server, as far as its life goes: open from the moment
/// the socket is connected, closed for good by the first `close`.
pub struct Conn {
    open: bool,
}

impl Conn {
    /// Whether the connection is still open.
    pub closed spec fn is_open(&self) -> bool {
        self.open
    }

    /// The connection of a socket that has just been connected.
    pub fn new() -> (conn: Conn)
        ensures
            conn.is_open(),
    {
        Conn { open: true }
    }

    /// Closes the connection. The answer says whether the socket is to be
    /// shut down now, in both directions: it is on the first call, and never
    /// again after that.
    pub fn close(&mut self) -> (shut_down: bool)
        ensures
            shut_down == old(self).is_open(),
            !final(self).is_open(),
    {
        let shut_down = self.open;
        self.open = false;
        shut_down
    }
}

/// What the read pump does after a read.
#[derive(Debug, PartialEq, Eq)]
pub enum PumpStep {
    /// Hand these events on, in their order, and read again.
    Forward(Vec<TelnetEvent>),
    /// Stop reading and close the stream of events.
    Stop,
}

/// Decides what the read pump does after a read: `read` holds the bytes that
/// came, or nothing where the read failed.
///
/// A read that failed ends the pump, and so does a read of no bytes, which
/// means that the peer has closed the connection; the decoder then stays as
/// it was. Any other read is decoded and its events are handed on.
pub fn read_pump_step(telnet: &mut Telnet, read: Option<&[u8]>) -> (step: PumpStep)
    ensures
        step is Stop <==> (read matches Some(bytes) ==> bytes@.len() == 0),
        step is Stop ==> final(telnet).state() == old(telnet).state(),
        step matches PumpStep::Forward(events) ==> {
            &&& read matches Some(bytes)
            &&& events_view(events@) == decode(old(telnet).state(), bytes@)
            &&& final(telnet).state() == end_state(old(telnet).state(), bytes@)
        },
{
    match read {
        Some(bytes) => match telnet.read_events(bytes) {
            Ok(events) => PumpStep::Forward(events),
            Err(_) => PumpStep::Stop,
        },
        None => PumpStep::Stop,
    }
}

} // verus!
