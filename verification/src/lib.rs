//! Verified core of a network semaphore: the wire format of its packets,
//! the holder registry a server keeps, and the lock table a client keeps.

pub mod client;
pub mod collections;
pub mod ids;
pub mod packet;
pub mod server;
pub mod wire;
