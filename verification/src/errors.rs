//! The error taxonomy of the blackboard core.
//!
//! Every failure carries an identifiable kind so the protocol and CLI
//! boundaries can render precise messages and stable numeric codes.
//! Validation failures are parameterized by an exact reason.

use vstd::prelude::*;

verus! {

/// The precise reason a validation rejected an input.
#[derive(Clone, Copy, Debug, PartialEq, Eq, Structural)]
pub enum InvalidReason {
    AgentIdEmpty,
    AgentIdTooLong,
    AgentIdControlChars,
    TaskTooLong,
    BlockersTooLong,
    ContentEmpty,
    ContentTooLong,
    PathEmpty,
    PathTooLong,
    PathUnresolvable,
    DescriptionTooLong,
    VersionTooLong,
    TooManyTags,
    TagEmpty,
    TagTooLong,
    TagInvalidChars,
    TooManyRefs,
    DurationEmpty,
    DurationBadNumber,
    DurationBadUnit,
}

/// The reason a path was rejected as escaping the project root.
#[derive(Clone, Copy, Debug, PartialEq, Eq, Structural)]
pub enum TraversalReason {
    AbsolutePath,
    ParentSegment,
    EscapesRoot,
}

/// An error of the blackboard core. Each variant is one kind of the error
/// taxonomy; the protocol dispatcher maps each kind to one stable code.
#[derive(Clone, Copy, Debug, PartialEq, Eq, Structural)]
pub enum BBError {
    /// No blackboard store exists where one was expected.
    NotInitialized,
    /// The backing store was busy and the operation should be retried.
    DatabaseBusy,
    /// An input failed validation, for the given reason.
    InvalidInput(InvalidReason),
    /// A reference string did not have the `where:what:ref` shape.
    InvalidRefFormat,
    /// An artifact path escaped the project root.
    PathTraversal(TraversalReason),
    /// A lookup by id or path missed, or a reply target does not exist.
    NotFound,
    /// No agent identity is fixed, bound or resolved.
    IdentityRequired,
    /// An identity fixed at process start can never be overridden.
    IdentityAlreadyFixed,
    /// An identify call disagreed with the already-bound identity.
    IdentityConflict,
    /// An I/O failure at the boundary.
    Io,
    /// A persistence failure in the backing store.
    Persistence,
    /// A serialization failure at the boundary.
    Serialization,
}

pub type BBResult<T> = Result<T, BBError>;

impl BBError {
    /// A short human-readable description of the error kind.
    pub fn message(&self) -> (r: &'static str)
        ensures
            r@ == self.message_spec(),
    {
        match self {
            BBError::NotInitialized => "no blackboard found",
            BBError::DatabaseBusy => "database busy",
            BBError::InvalidInput(_) => "invalid input",
            BBError::InvalidRefFormat => "invalid ref format: expected where:what:ref",
            BBError::PathTraversal(_) => "path traversal not allowed",
            BBError::NotFound => "not found",
            BBError::IdentityRequired => "identity required",
            BBError::IdentityAlreadyFixed => "identity already fixed",
            BBError::IdentityConflict => "identity already set to a different value",
            BBError::Io => "io error",
            BBError::Persistence => "database error",
            BBError::Serialization => "serialization error",
        }
    }

    pub open spec fn message_spec(&self) -> Seq<char> {
        match self {
            BBError::NotInitialized => "no blackboard found"@,
            BBError::DatabaseBusy => "database busy"@,
            BBError::InvalidInput(_) => "invalid input"@,
            BBError::InvalidRefFormat => "invalid ref format: expected where:what:ref"@,
            BBError::PathTraversal(_) => "path traversal not allowed"@,
            BBError::NotFound => "not found"@,
            BBError::IdentityRequired => "identity required"@,
            BBError::IdentityAlreadyFixed => "identity already fixed"@,
            BBError::IdentityConflict => "identity already set to a different value"@,
            BBError::Io => "io error"@,
            BBError::Persistence => "database error"@,
            BBError::Serialization => "serialization error"@,
        }
    }
}

} // verus!
