//! Errors of the protocol logic: a kind and a message.

use vstd::prelude::*;

verus! {

/// What kind of thing went wrong.
#[derive(Clone, Copy, Debug, PartialEq, Eq, Structural)]
pub enum ErrorKind {
    AddrInUse,
    AddrNotAvailable,
    BrokenPipe,
    ConnectionAborted,
    ConnectionRefused,
    ConnectionReset,
    Interrupted,
    InvalidData,
    InvalidInput,
    NotConnected,
    NotFound,
    Other,
    PermissionDenied,
    TimedOut,
    UnexpectedEof,
    Unsupported,
    WouldBlock,
    WriteZero,
}

/// An error.
#[derive(Debug, PartialEq, Eq)]
pub struct CoreError {
    pub kind: ErrorKind,
    pub message: String,
}

/// The mathematical value of an error.
#[verifier::ext_equal]
pub struct ErrorModel {
    pub kind: ErrorKind,
    pub message: Seq<char>,
}

impl View for CoreError {
    type V = ErrorModel;

    open spec fn view(&self) -> ErrorModel {
        ErrorModel { kind: self.kind, message: self.message@ }
    }
}

/// An error with a kind and a message.
pub open spec fn fault(kind: ErrorKind, message: Seq<char>) -> ErrorModel {
    ErrorModel { kind, message }
}

/// An error with a kind and a message.
pub fn failure(kind: ErrorKind, message: &str) -> (r: CoreError)
    ensures
        r@ == fault(kind, message@),
{
    CoreError { kind, message: message.to_owned() }
}

/// The error of a read that the input is too short for.
pub open spec fn eof() -> ErrorModel {
    fault(ErrorKind::UnexpectedEof, "failed to fill whole buffer"@)
}

/// The error of a read that the input is too short for.
pub fn eof_failure() -> (r: CoreError)
    ensures
        r@ == eof(),
{
    failure(ErrorKind::UnexpectedEof, "failed to fill whole buffer")
}

} // verus!
