//! The error taxonomy of the library. Every fallible operation returns one
//! of these variants; no operation retries or panics.

use vstd::prelude::*;

verus! {

/// Typed failures of the realm and object-store layers.
#[derive(Debug, Clone, PartialEq, Eq)]
pub enum Error {
    /// The configuration text does not match the accepted grammar.
    ConfigParse,
    /// A local file could not be read or written.
    Io,
    /// The requested realm name is not configured; carries every known
    /// realm name for diagnostics.
    RealmNotFound { known: Vec<String> },
    /// A file name does not satisfy the realm's `contains` filter.
    Validation,
    /// The realm's transport variant has no implementation.
    UnsupportedTransport,
    /// The backend client could not be constructed from the configuration.
    Config,
    /// A network, authentication or backend failure.
    Transport,
    /// No matching object exists in the realm's namespace.
    NotFound,
    /// An object's payload is not valid text.
    Decode,
    /// The command-line tokens do not match the accepted grammar.
    Args,
}

} // verus!
