//! The server side of a replication bridge: what the server decides and computes between
//! Replicon's message store and the per-client transports, and the request lifecycle of state
//! rollbacks on the client.

pub mod tick;

pub mod checkpoint;

pub mod channels;

pub mod replicon;

pub mod transport;

pub mod receive;

pub mod send;

pub mod server;

pub mod rollback;

pub mod simple_box;
