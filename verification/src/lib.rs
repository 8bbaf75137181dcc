//! Core of a device SDK for an IoT data platform that organises telemetry and
//! state around typed, versioned schemas called interfaces.
//!
//! The crate covers the parts of the SDK that are worth proving: the endpoint
//! pattern parser and matcher, the interface schema and its validation rules,
//! the interface registry with its canonical introspection string, the
//! property state engine with its deduplication and unset semantics, and the
//! decision logic of the publication pipeline.  Transports and persistence
//! backends are collaborators outside this crate: the client here records the
//! frames they must send as plain data.

pub mod client;
pub mod endpoint;
pub mod error;
pub mod interface;
pub mod interfaces;
pub mod introspection;
pub mod mapping;
pub mod schema;
pub mod store;
pub mod text;
pub mod types;
pub mod uuid;
