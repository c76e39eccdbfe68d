//! The decisions of two console clients for a remote desktop network: a
//! terminal client and a port forwarding client (`-L` forwards, a `-D` SOCKS5
//! proxy).
//!
//! Nothing here reads, writes or waits. Each function takes what was read as
//! plain values and says what to do next.
pub mod address;
pub mod address_reading;
pub mod arguments;
pub mod colons;
pub mod debug_log;
pub mod dialogue;
pub mod login;
pub mod socks;
pub mod targets;
pub mod terminal;
pub mod terminal_args;
pub mod text;
pub mod trace;
pub mod tunnel;
pub mod tunnel_args;
