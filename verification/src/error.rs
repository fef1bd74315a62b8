//! Error taxonomy of the store layer.

use vstd::prelude::*;

verus! {

/// The error kinds a store operation can surface to its caller.
///
/// No operation silently swallows a failure or substitutes a default value
/// for a missing record: every fallible operation returns one of these.
#[derive(Clone, Copy, Debug, PartialEq, Eq, Structural)]
pub enum StoreError {
    /// The requested identifier has no matching record.
    NotFound,
    /// A foreign reference (the question a new answer points at) does not
    /// resolve to an existing record.
    InvalidReference,
    /// A comment was submitted with zero or two attachment references, or
    /// with a reference that does not resolve to an existing record.
    InvalidComment,
    /// The backing store connection or pool could not service the request.
    /// Never produced by the in-memory store; the persistent adapter maps
    /// its connection failures to this kind.
    StoreUnavailable,
    /// An in-memory guard was left inconsistent by a prior panic in a
    /// holder; fatal for the process, not recoverable locally.
    Poisoned,
}

impl StoreError {
    /// The HTTP status under which the serving layer surfaces this error:
    /// `NotFound` is a client-visible "not found", the two invalid-input
    /// kinds are "bad request", `StoreUnavailable` is "temporarily
    /// unavailable", and `Poisoned` is an internal server error.
    pub open spec fn spec_status_code(self) -> u16 {
        match self {
            StoreError::NotFound => 404,
            StoreError::InvalidReference => 400,
            StoreError::InvalidComment => 400,
            StoreError::StoreUnavailable => 503,
            StoreError::Poisoned => 500,
        }
    }

    /// Executable form of [`Self::spec_status_code`].
    pub fn status_code(&self) -> (code: u16)
        ensures
            code == self.spec_status_code(),
    {
        match self {
            StoreError::NotFound => 404,
            StoreError::InvalidReference => 400,
            StoreError::InvalidComment => 400,
            StoreError::StoreUnavailable => 503,
            StoreError::Poisoned => 500,
        }
    }

    /// A short description of the error kind.
    pub open spec fn spec_message(self) -> Seq<char> {
        match self {
            StoreError::NotFound => "not found"@,
            StoreError::InvalidReference => "invalid reference"@,
            StoreError::InvalidComment => "invalid comment"@,
            StoreError::StoreUnavailable => "store unavailable"@,
            StoreError::Poisoned => "poisoned lock"@,
        }
    }

    /// Executable form of [`Self::spec_message`]; stands in for `Display`,
    /// which verified types do not implement.
    pub fn message(&self) -> (msg: String)
        ensures
            msg@ == self.spec_message(),
    {
        match self {
            StoreError::NotFound => "not found".to_owned(),
            StoreError::InvalidReference => "invalid reference".to_owned(),
            StoreError::InvalidComment => "invalid comment".to_owned(),
            StoreError::StoreUnavailable => "store unavailable".to_owned(),
            StoreError::Poisoned => "poisoned lock".to_owned(),
        }
    }
}

/// Failure of a question lookup whose identifier is not valid; surfaced to
/// the caller as a "not found" condition.
#[derive(Clone, Copy, Debug, PartialEq, Eq, Structural)]
pub enum QuestionError {
    InvalidId,
}

impl QuestionError {
    /// Every `QuestionError` is surfaced as a "not found" condition.
    pub fn to_store_error(&self) -> (e: StoreError)
        ensures
            e == StoreError::NotFound,
    {
        match self {
            QuestionError::InvalidId => StoreError::NotFound,
        }
    }

    /// The HTTP status under which this error is surfaced.
    pub fn status_code(&self) -> (code: u16)
        ensures
            code == 404,
    {
        match self {
            QuestionError::InvalidId => 404,
        }
    }
}

} // verus!
