//! Wire-format codec and forwarding logic of a minimal DNS forwarding resolver.

pub mod dns_protocol;
pub mod dns_server;
