use vstd::prelude::*;

verus! {

/// Errors surfaced by the parameter-control core.
///
/// None of these abort the host application: connection errors degrade to
/// persistence-only operation, and persistence errors leave the in-memory
/// state intact.
#[derive(Debug, Clone)]
pub enum MidiError {
    /// No input ports were found on the control surface.
    NoInputPorts,
    /// Connecting to the control surface failed.
    ConnectionFailed(String),
    /// Loading or storing the persistence file failed.
    PersistenceError(String),
    /// A mapping handed to registration is malformed.
    InvalidMapping(String),
}

/// Result type for the operations of this crate.
pub type MidiResult<T> = Result<T, MidiError>;

} // verus!
