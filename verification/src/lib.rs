//! A Telnet client core for MUD-style servers: the protocol decoder, the
//! connection and terminal bookkeeping, and the control loop's decisions.

pub mod cmd;
pub mod config;
pub mod control;
pub mod input;
pub mod laws;
pub mod net;
pub mod telnet;
pub mod tty;
