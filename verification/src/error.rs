//! The error taxonomy, and the message-carrying error of the engine layer.

use vstd::prelude::*;
use vstd::string::*;

verus! {

/// Why a hive could not be opened.
#[derive(Clone, Copy, Debug, PartialEq, Eq, Structural)]
pub enum OpenError {
    /// The file is missing or does not begin with a hive signature.
    InvalidSignature,
    /// The engine could not allocate its handle.
    NativeInitFailure,
    /// The engine refused to open the file.
    OpenFailure,
}

/// Why a hive has no root key to offer.
#[derive(Clone, Copy, Debug, PartialEq, Eq, Structural)]
pub enum RootError {
    /// The engine yielded no root key handle.
    RootUnavailable,
}

/// Why a key or value attribute could not be decoded.
#[derive(Clone, Copy, Debug, PartialEq, Eq, Structural)]
pub enum DecodeError {
    /// The engine failed to report a field's size.
    SizeQueryFailed,
    /// The engine failed to deliver a field's bytes.
    ReadFailed,
    /// The engine holds more bytes than the size it reported.
    BufferTooSmall,
    /// The bytes are not valid UTF-8.
    InvalidEncoding,
    /// The raw time cannot be represented as a calendar timestamp.
    InvalidTimestamp,
    /// Any other engine call failed.
    NativeCallFailed,
}

/// A decode failure met while walking the key tree.
#[derive(Clone, Copy, Debug, PartialEq, Eq, Structural)]
pub struct TraversalError {
    pub cause: DecodeError,
}

/// An error of the engine layer: its kind and a message for diagnostics.
#[derive(Debug)]
pub struct RegfError {
    pub kind: DecodeError,
    pub err: String,
}

/// The text of the message that reports a call which returned nothing.
pub open spec fn returned_none_text(func: Seq<char>) -> Seq<char> {
    "unsafe function '"@ + func + "' failed, name string returned is None."@
}

/// The text of the message that reports a call which the engine failed.
pub open spec fn call_failed_text(func: Seq<char>) -> Seq<char> {
    "engine call '"@ + func + "' failed."@
}

/// The message of a failure of kind `kind` in the call `func`.
pub open spec fn failure_text(kind: DecodeError, func: Seq<char>) -> Seq<char> {
    if kind == DecodeError::InvalidEncoding {
        returned_none_text(func)
    } else {
        call_failed_text(func)
    }
}

/// Whether a failed result carries the message that belongs to its kind and
/// to the call `func`; a result that did not fail carries none.
pub open spec fn says<T>(r: Result<T, RegfError>, func: Seq<char>) -> bool {
    r is Err ==> r->Err_0.err@ == failure_text(r->Err_0.kind, func)
}

impl RegfError {
    /// The error of a call that reported no failure and still produced no
    /// value: what it delivered could not be decoded.
    pub fn function_returned_none(func: &str) -> (r: RegfError)
        ensures
            r.kind == DecodeError::InvalidEncoding,
            r.err@ == returned_none_text(func@),
    {
        let mut err = String::from_str("unsafe function '");
        err.append(func);
        err.append("' failed, name string returned is None.");
        RegfError { kind: DecodeError::InvalidEncoding, err }
    }

    /// The error of a call that the engine failed, with its kind.
    pub fn call_failed(kind: DecodeError, func: &str) -> (r: RegfError)
        ensures
            r.kind == kind,
            r.err@ == call_failed_text(func@),
    {
        let mut err = String::from_str("engine call '");
        err.append(func);
        err.append("' failed.");
        RegfError { kind, err }
    }

    /// The message, prefixed as the error prints.
    pub fn message(&self) -> (r: String)
        ensures
            r@ == "RegfError: "@ + self.err@,
    {
        let mut text = String::from_str("RegfError: ");
        text.append(self.err.as_str());
        text
    }
}

impl TraversalError {
    /// Wraps the decode failure that stopped a walk.
    pub fn new(cause: DecodeError) -> (r: TraversalError)
        ensures
            r.cause == cause,
    {
        TraversalError { cause }
    }
}

} // verus!
