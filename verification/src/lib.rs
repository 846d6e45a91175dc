//! Transport core of a small name server, free of any I/O.
//!
//! The crate holds the decisions of the service and none of its sockets. A
//! caller owns the sockets and the code that understands messages; it
//! performs the action a state machine asks for and reports back what came
//! of it.
//!
//! - `frame`: the wire format of messages on a stream, and its decoder.
//! - `stream`: one accepted stream connection.
//! - `datagram`: the datagram channel.
//! - `acceptor`: the connection acceptor, and what connections owe to each
//!   other: nothing.
//! - `server`: the two loops of a server and its exit status.
//! - `stats`: time and volume of transfers, as a client that warms a cache
//!   adds them up.

pub mod acceptor;
pub mod datagram;
pub mod frame;
pub mod server;
pub mod stats;
pub mod stream;
