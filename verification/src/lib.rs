//! A verified model of a byte pipe over TCP, UDP or TLS: the receive buffer
//! and the decisions of every receive and send operation, address handling
//! and timeout parsing. The sockets themselves are driven by the caller.

pub mod address;
pub mod binding;
pub mod duration;
pub mod error;
pub mod pipe;
pub mod scan;
pub mod session;
