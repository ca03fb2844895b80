//! Session persistence for terminal processes.
//!
//! The library holds everything of a session that is decided rather than done: the ring of
//! recent output, the wire protocol, the rules by which a server keeps its clients, the rules by
//! which a client relays a terminal, the command line, and where sockets and locks live. The
//! program around it performs the reads, writes and system calls that the library asks for.

pub mod cli;
pub mod client;
pub mod outbox;
pub mod protocol;
pub mod ring;
pub mod server;
pub mod session;
pub mod session_laws;
pub mod socket;
pub mod text;
pub mod transfer;
