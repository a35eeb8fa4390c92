//! A local coordination substrate for autonomous coding agents sharing one
//! project directory: agents exchange status, messages and artifact metadata
//! through a shared entity store, reachable through a CLI and a line-delimited
//! JSON-RPC tool server.
//!
//! This crate holds the verified core: the entity store's data and query
//! semantics, input validation, the reference model, the liveness classifier,
//! the identity resolver, and the protocol dispatcher's decision logic.
//! Persistence, serialization and transport live outside it and hand the
//! library plain values.

pub mod agent;
pub mod artifact;
pub mod duration;
pub mod errors;
pub mod identity;
pub mod install;
pub mod liveness;
pub mod message;
pub mod output;
pub mod reference;
pub mod server;
pub mod sort;
pub mod store;
pub mod text;
pub mod validation;
