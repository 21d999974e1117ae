//! Errors raised while running a program, tagged with the kind of situation that
//! raised them so that an execution policy can decide how to handle them.
use vstd::prelude::*;

verus! {

/// The situation an error comes from.
#[derive(Clone, Copy, Debug, PartialEq, Eq, Structural)]
pub enum ErrorType {
    /// An error no policy can excuse.
    AlwaysError,
    /// A code block could not be parsed.
    OnCodeBlockParseError,
    /// An undefined value was used.
    OnUndefinedValue,
}

/// An error with its message and its kind.
#[derive(Debug)]
pub struct RuntimeError {
    message: String,
    etype: ErrorType,
}

impl RuntimeError {
    /// The message of the error.
    pub closed spec fn message_of(&self) -> Seq<char> {
        self.message@
    }

    /// The kind of the error.
    pub closed spec fn kind_of(&self) -> ErrorType {
        self.etype
    }

    pub fn new(message: String, etype: ErrorType) -> (r: Self)
        ensures
            r.message_of() == message@,
            r.kind_of() == etype,
    {
        RuntimeError { message, etype }
    }

    pub fn get_error_type(&self) -> (r: &ErrorType)
        ensures
            *r == self.kind_of(),
    {
        &self.etype
    }

    /// The message of the error.
    pub fn get_message(&self) -> (r: &String)
        ensures
            r@ == self.message_of(),
    {
        &self.message
    }
}

} // verus!
