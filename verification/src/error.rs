//! Errors of the library.
use vstd::prelude::*;
use vstd::string::*;

verus! {

/// What went wrong.
#[derive(Clone, Copy, Debug, PartialEq, Eq, Structural)]
pub enum ErrorKind {
    AlreadyExists,
    Interrupted,
    InvalidData,
    InvalidInput,
    NotFound,
    WouldBlock,
    Other,
}

/// An error: its kind and what it says.
#[derive(Debug)]
pub struct ProxyError {
    pub kind: ErrorKind,
    pub message: String,
}

impl ProxyError {
    /// An error of the given kind that says `message`.
    pub fn new(kind: ErrorKind, message: &str) -> (r: ProxyError)
        ensures
            r.is(kind, message@),
    {
        ProxyError { kind, message: message.to_owned() }
    }

    /// An error of kind `kind` that says `message`.
    pub open spec fn is(self, kind: ErrorKind, message: Seq<char>) -> bool {
        self.kind == kind && self.message@ == message
    }
}

impl Clone for ProxyError {
    fn clone(&self) -> (r: Self)
        ensures
            r.is(self.kind, self.message@),
    {
        ProxyError { kind: self.kind, message: self.message.clone() }
    }
}

/// An error is known by its kind and by what it says.
pub proof fn errors_are_known_by_kind_and_message(
    error: ProxyError,
    kind: ErrorKind,
    message: Seq<char>,
)
    ensures
        error.is(kind, message) <==> error.kind == kind && error.message@ == message,
{
}

} // verus!
