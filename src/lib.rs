//! An SMTP library: reply and command parsing, a CRLF line buffer, the
//! receiving server's session state machine and the sending client's
//! transaction and retry driver. The socket, TLS and DNS work is done by the
//! caller, which feeds the state machines with lines and performs the actions
//! they return.

pub mod text;
pub mod parse;
pub mod server;
pub mod error;
pub mod transport;
pub mod client;
pub mod tls;
