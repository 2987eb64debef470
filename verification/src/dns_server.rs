//! What the forwarding resolver decides: how a client's query is read, what
//! is asked of the upstream resolver, and how the answers become one
//! response. Sockets are the caller's: everything here takes and gives
//! bytes.

pub mod forwarder;
pub mod message;
