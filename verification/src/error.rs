//! The error that the pool reports: a kind and a text.

use vstd::prelude::*;

verus! {

/// What sort of failure an error stands for.
#[derive(Clone, Copy, Debug, PartialEq, Eq, Structural)]
pub enum ErrorKind {
    /// An argument is out of range.
    InvalidInput,
    /// There is nothing to talk to.
    NotConnected,
    /// The pool is being taken down, or the work was called off.
    Interrupted,
    /// The time allowed has passed.
    TimedOut,
    /// A queue is full for now.
    WouldBlock,
    /// The other end is gone.
    BrokenPipe,
    /// A value could not be written as a message.
    InvalidData,
    /// Anything else.
    Other,
}

/// A failure, with a text for people.
#[derive(Debug)]
pub struct PoolError {
    kind: ErrorKind,
    message: String,
}

impl PoolError {
    /// The kind of the failure.
    pub closed spec fn spec_kind(self) -> ErrorKind {
        self.kind
    }

    /// The text of the failure.
    pub closed spec fn spec_message(self) -> Seq<char> {
        self.message@
    }

    /// Whether this is the error of the given kind and text.
    pub open spec fn says(self, kind: ErrorKind, message: Seq<char>) -> bool {
        self.spec_kind() == kind && self.spec_message() == message
    }

    /// An error of a kind, with a text.
    pub fn new(kind: ErrorKind, message: String) -> (error: PoolError)
        ensures
            error.says(kind, message@),
    {
        PoolError { kind, message }
    }

    /// An error of a kind, with a fixed text.
    pub fn of(kind: ErrorKind, message: &str) -> (error: PoolError)
        ensures
            error.says(kind, message@),
    {
        PoolError { kind, message: message.to_owned() }
    }

    /// The kind of the failure.
    pub fn kind(&self) -> (kind: ErrorKind)
        ensures
            kind == self.spec_kind(),
    {
        self.kind
    }

    /// The text of the failure.
    pub fn to_string(&self) -> (message: String)
        ensures
            message@ == self.spec_message(),
    {
        self.message.clone()
    }
}

/// An error says one thing: its own kind with its own text, and nothing else.
pub proof fn errors_say_one_thing(
    error: PoolError,
    kind: ErrorKind,
    message: Seq<char>,
    other_kind: ErrorKind,
    other: Seq<char>,
)
    ensures
        error.says(error.spec_kind(), error.spec_message()),
        error.says(kind, message) && error.says(other_kind, other) ==> kind == other_kind && message
            == other,
        error.says(kind, message) <==> error.spec_kind() == kind && error.spec_message() == message,
{
}

} // verus!
