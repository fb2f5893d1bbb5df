//! Application protocol adapter for a deterministic state-machine-replication
//! engine: the request/response envelope types, the application capability
//! set with its deterministic defaults, a dispatcher that routes each request
//! kind to exactly one operation, an in-memory key/value application with a
//! verified block-execution lifecycle and state-sync snapshot transfer, and
//! the computational core of the HSM key-listing command.

pub mod application;
pub mod codec;
pub mod keys;
pub mod kvstore;
pub mod protocol;
pub mod store;
