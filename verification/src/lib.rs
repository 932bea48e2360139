//! A minimal service registry: a directory mapping a service identity
//! (name plus three-part version) to the network address and method
//! signatures of the service instance that answers for it.
//!
//! The crate holds the registry's data model, its in-memory store with the
//! one-descriptor-per-identity invariant, the version grammar, and the
//! `list`/`get` operations with their error taxonomy. Transport bindings
//! (how the two operations are reached over a wire) live outside.

pub mod api;
pub mod model;
pub mod registry;
pub mod version;
