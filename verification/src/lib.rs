//! Verified core of an encrypted remote-shell service: the command grammar
//! that decides what executes where, and the reactor-driven connection
//! multiplexer with its per-connection output buffering and fault taxonomy.

pub mod command;
pub mod server;
