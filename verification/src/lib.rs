//! A verified facade over a replicated-document merge engine.
//!
//! The library keeps a collaborative document as a serialized snapshot, and
//! offers creation, local mutation, remote-change application, change
//! enumeration, duplication, and flattening into a dynamic host mapping.
//! The conflict-free merge itself is the engine's business; this crate owns
//! the value model, the host-value conversion layer, and the facade's state
//! machine, and proves their contracts.

pub mod values;
pub mod host;
pub mod convert;
pub mod errors;
pub mod engine;
pub mod facade;
