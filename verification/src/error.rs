//! Why a read from the stream failed.

use vstd::prelude::*;
use vstd::string::StringExecFns;

verus! {

/// `std::io::Error`, carried as it is.
#[verifier::external_type_specification]
#[verifier::external_body]
pub struct ExIoError(std::io::Error);

/// A failure that ends a receive.
#[derive(Debug)]
pub enum ReadError {
    /// The transport failed, or the stream ended.
    IOError(std::io::Error),
    /// The bytes at the head of the buffer are not a MessagePack value.
    RmpError(rmp_serde::decode::Error),
}

/// Calls `std::io::Error::new`, which makes an I/O error of the given kind
/// that carries `reason`.
#[verifier::external_body]
pub(crate) fn io_error(kind: std::io::ErrorKind, reason: &'static str) -> std::io::Error {
    std::io::Error::new(kind, reason)
}

/// Formats an I/O error as its `Display` impl does.
#[verifier::external_body]
fn io_error_text(err: &std::io::Error) -> String {
    format!("{}", err)
}

/// Formats a decoder error as its `Display` impl does.
#[verifier::external_body]
fn decode_error_text(err: &rmp_serde::decode::Error) -> String {
    format!("{}", err)
}

impl ReadError {
    /// What stands before the cause in the text of an error.
    pub open spec fn prefix(&self) -> Seq<char> {
        match self {
            ReadError::IOError(_) => "io error: "@,
            ReadError::RmpError(_) => "rmp error: "@,
        }
    }

    /// The text of this error, given what its cause says of itself: the
    /// kind of failure, then the cause, and nothing else.
    pub fn with_cause(&self, cause: &str) -> (text: String)
        ensures
            text@ == self.prefix() + cause@,
    {
        match self {
            ReadError::IOError(_) => String::from_str("io error: ").concat(cause),
            ReadError::RmpError(_) => String::from_str("rmp error: ").concat(cause),
        }
    }

    /// The error as text: the kind of failure, then what its cause says of
    /// itself.
    pub fn message(&self) -> (text: String)
        ensures
            self.prefix().is_prefix_of(text@),
    {
        let cause = match self {
            ReadError::IOError(err) => io_error_text(err),
            ReadError::RmpError(err) => decode_error_text(err),
        };
        self.with_cause(cause.as_str())
    }
}

} // verus!
