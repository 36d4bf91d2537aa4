//! Per-protocol packet handlers and the state they maintain.

pub mod dns;
pub mod tcp;
pub mod udp;
