//! One decode attempt on the bytes seen through a cursor.

use crate::cursor::Cursor;
use vstd::prelude::*;

verus! {

/// `rmp_serde::decode::Error`, the decoder's error, carried as it is.
#[verifier::external_type_specification]
#[verifier::external_body]
pub struct ExDecodeError(rmp_serde::decode::Error);

/// `std::io::ErrorKind`, an enum without fields, with its variants.
#[verifier::external_type_specification]
pub struct ExErrorKind(std::io::ErrorKind);

/// What the reader needs to know of a failed decode attempt: whether the
/// decoder was stopped by its byte source, at which point, and how the
/// source reported it.
#[derive(Debug, Clone, Copy, PartialEq, Eq)]
pub enum Fault {
    /// The source failed while the decoder read a marker byte.
    MarkerRead(std::io::ErrorKind),
    /// The source failed while the decoder read the data after a marker.
    DataRead(std::io::ErrorKind),
    /// The decoder rejected the bytes it had read.
    Invalid,
}

impl Fault {
    /// The source ran out of bytes before the value was complete.
    pub open spec fn is_incomplete(self) -> bool {
        match self {
            Fault::MarkerRead(kind) => kind is UnexpectedEof,
            Fault::DataRead(kind) => kind is UnexpectedEof,
            Fault::Invalid => false,
        }
    }

    /// Tells a value that is merely incomplete from one that is rejected.
    pub fn incomplete(&self) -> (b: bool)
        ensures
            b == self.is_incomplete(),
    {
        match self {
            Fault::MarkerRead(std::io::ErrorKind::UnexpectedEof) => true,
            Fault::DataRead(std::io::ErrorKind::UnexpectedEof) => true,
            _ => false,
        }
    }
}

/// A failed decode attempt: the decoder's own error, and what the reader
/// acts on.
#[derive(Debug)]
pub struct DecodeError {
    pub fault: Fault,
    pub source: rmp_serde::decode::Error,
}

/// What decoding one MessagePack value from the head of `bytes` gives: the
/// number of bytes that the value takes up, or the reason why there is none.
pub uninterp spec fn decode_outcome(bytes: Seq<u8>) -> Result<nat, Fault>;

/// Calls `rmp_serde::from_read` on the cursor, for a value whose contents
/// are discarded.
///
/// The decoder gets its bytes from `Cursor::read` alone, so what it returns
/// is settled by the unread bytes. When it succeeds it has read exactly the
/// bytes of one value, and the cursor stands right after them. When it fails
/// the error is handed on, together with the variant it has and, for the
/// two variants that carry an I/O error, the kind of that error. The deque
/// is untouched either way.
#[verifier::external_body]
pub(crate) fn decode_value(cursor: &mut Cursor<'_>) -> (r: Result<(), DecodeError>)
    ensures
        final(cursor).content() == old(cursor).content(),
        final(cursor).consumed() >= old(cursor).consumed(),
        match r {
            Ok(()) => decode_outcome(old(cursor).remaining()) == Ok::<nat, Fault>(
                (final(cursor).consumed() - old(cursor).consumed()) as nat,
            ),
            Err(e) => decode_outcome(old(cursor).remaining()) == Err::<nat, Fault>(e.fault),
        },
{
    match rmp_serde::from_read::<_, serde::de::IgnoredAny>(cursor) {
        Ok(_) => Ok(()),
        Err(source) => {
            let fault = match &source {
                rmp_serde::decode::Error::InvalidMarkerRead(e) => Fault::MarkerRead(e.kind()),
                rmp_serde::decode::Error::InvalidDataRead(e) => Fault::DataRead(e.kind()),
                _ => Fault::Invalid,
            };
            Err(DecodeError { fault, source })
        },
    }
}

} // verus!
