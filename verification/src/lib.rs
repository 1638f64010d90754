//! Configuration manager for a point-to-point network overlay: one router
//! endpoint plus a set of peer endpoints, rendered into `[Interface]` /
//! `[Peer]` connection-configuration text blocks and persisted as a
//! line-oriented key/value document.

use vstd::prelude::*;

pub mod addrport;
pub mod codec;
pub mod configuration;
pub mod endpoint;
pub mod netaddr;
pub mod textfmt;

verus! {

/// The ways an operation on a configuration can fail.
#[derive(Clone, Copy, Debug, PartialEq, Eq, Structural)]
pub enum ConfigError {
    /// The given path does not refer to a regular file.
    NotAFile,
    /// The file's extension is not the recognized configuration suffix.
    InvalidExtension,
    /// No configuration with the given name exists.
    NotFound,
    /// The file's content is not a well-formed configuration document.
    DeserializationError,
    /// The configuration has no known path to be saved to.
    NoDestination,
    /// The external key-generation capability failed.
    KeyGenerationFailure,
    /// A peer with the given name already exists.
    DuplicatePeerName,
}

} // verus!
