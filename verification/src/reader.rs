//! The receiving end of a stream of MessagePack values.

use crate::cursor::Cursor;
use crate::decode::{decode_outcome, decode_value, DecodeError, Fault};
use crate::error::{io_error, ReadError};
use std::collections::VecDeque;
use std::io::Read;
use vstd::prelude::*;

verus! {

/// Appends `bytes` at the back of the deque, in order.
fn extend_back(buf: &mut VecDeque<u8>, bytes: &[u8])
    ensures
        final(buf)@ == old(buf)@ + bytes@,
{
    let mut i: usize = 0;
    proof {
        assert(buf@ =~= old(buf)@ + bytes@.take(0));
    }
    while i < bytes.len()
        invariant
            i <= bytes@.len(),
            buf@ == old(buf)@ + bytes@.take(i as int),
        decreases bytes@.len() - i,
    {
        buf.push_back(bytes[i]);
        proof {
            assert(buf@ =~= old(buf)@ + bytes@.take(i + 1));
        }
        i += 1;
    }
    proof {
        assert(bytes@.take(i as int) =~= bytes@);
    }
}

/// Removes the first `n` bytes of the deque. What stood behind them stays,
/// in order.
fn drain_front(buf: &mut VecDeque<u8>, n: usize)
    requires
        n <= old(buf)@.len(),
    ensures
        final(buf)@ == old(buf)@.skip(n as int),
{
    let mut i: usize = 0;
    proof {
        assert(buf@ =~= old(buf)@.skip(0));
    }
    while i < n
        invariant
            i <= n <= old(buf)@.len(),
            buf@ == old(buf)@.skip(i as int),
        decreases n - i,
    {
        let _ = buf.pop_front();
        proof {
            assert(buf@ =~= old(buf)@.skip(i + 1));
        }
        i += 1;
    }
}

/// What one decode attempt on the buffered bytes leads to.
pub enum Step {
    /// The head of the buffer holds a whole value: these are its bytes.
    Deliver(Seq<u8>),
    /// The buffer ends before the value does.
    NeedMore,
    /// The head of the buffer is not a value.
    Reject,
}

/// The step that an attempt on `buffered` leads to.
pub open spec fn attempt(buffered: Seq<u8>) -> Step {
    match decode_outcome(buffered) {
        Ok(n) => Step::Deliver(buffered.subrange(0, n as int)),
        Err(fault) => if fault.is_incomplete() {
            Step::NeedMore
        } else {
            Step::Reject
        },
    }
}

/// What is buffered after an attempt on `buffered`: a value that was
/// delivered is gone, and nothing else.
pub open spec fn after_attempt(buffered: Seq<u8>) -> Seq<u8> {
    match decode_outcome(buffered) {
        Ok(n) => buffered.subrange(n as int, buffered.len() as int),
        Err(_) => buffered,
    }
}

/// Reads MessagePack values from a byte source that delivers them in chunks
/// of any size. The reader keeps the source and the bytes that have arrived
/// and have not been delivered as part of a value yet.
pub struct RpcReader<R> {
    reader: R,
    buf: VecDeque<u8>,
}

impl<R> RpcReader<R> {
    /// The byte source that the reader was made from.
    pub closed spec fn source(&self) -> R {
        self.reader
    }

    /// The bytes that have arrived and have not been delivered yet.
    pub closed spec fn buffered(&self) -> Seq<u8> {
        self.buf@
    }

    /// A reader on `reader`, with nothing buffered.
    pub fn new(reader: R) -> (rpc: Self)
        ensures
            rpc.source() == reader,
            rpc.buffered() == Seq::<u8>::empty(),
    {
        RpcReader { reader, buf: VecDeque::new() }
    }

    /// Gives the byte source back. What is still buffered is dropped.
    pub fn into_inner(self) -> (reader: R)
        ensures
            reader == self.source(),
    {
        self.reader
    }

    /// The byte source, to fetch the next chunk from.
    pub fn get_mut(&mut self) -> (reader: &mut R)
        ensures
            *reader == old(self).source(),
            final(self).source() == *final(reader),
            final(self).buffered() == old(self).buffered(),
    {
        &mut self.reader
    }

    /// How many bytes are buffered.
    pub fn buffered_len(&self) -> (n: usize)
        ensures
            n == self.buffered().len(),
    {
        self.buf.len()
    }

    /// A copy of the first `n` buffered bytes. The buffer keeps them.
    fn head(&self, n: usize) -> (bytes: Vec<u8>)
        requires
            n <= self.buffered().len(),
        ensures
            bytes@ == self.buffered().subrange(0, n as int),
    {
        let mut bytes = vec![0u8; n];
        let mut cursor = Cursor::new(&self.buf);
        let _ = cursor.read(bytes.as_mut_slice());
        proof {
            assert(bytes@ =~= self.buffered().subrange(0, n as int));
        }
        bytes
    }

    /// A copy of the buffered bytes, in the order in which they arrived.
    /// The buffer keeps them.
    pub fn buffered_bytes(&self) -> (bytes: Vec<u8>)
        ensures
            bytes@ == self.buffered(),
    {
        let bytes = self.head(self.buf.len());
        proof {
            assert(self.buffered() =~= self.buffered().subrange(0, self.buffered().len() as int));
        }
        bytes
    }

    /// Takes in what the source gave when it was asked for its next chunk,
    /// and returns how many bytes to acknowledge to the source.
    ///
    /// A chunk with bytes in it is appended to the buffer, whole. An empty
    /// chunk means that the stream has ended, which is an error; so is a
    /// failure of the source, which is handed on as it is. Neither changes
    /// the buffer.
    pub fn fill_buffer(&mut self, fetched: Result<&[u8], std::io::Error>) -> (r: Result<
        usize,
        ReadError,
    >)
        ensures
            final(self).source() == old(self).source(),
            match fetched {
                Ok(bytes) => if bytes@.len() > 0 {
                    &&& r == Ok::<usize, ReadError>(bytes@.len() as usize)
                    &&& final(self).buffered() == old(self).buffered() + bytes@
                } else {
                    &&& r matches Err(ReadError::IOError(_))
                    &&& final(self).buffered() == old(self).buffered()
                },
                Err(err) => {
                    &&& r == Err::<usize, ReadError>(ReadError::IOError(err))
                    &&& final(self).buffered() == old(self).buffered()
                },
            },
    {
        match fetched {
            Ok(bytes) => {
                if bytes.len() == 0 {
                    Err(
                        ReadError::IOError(
                            io_error(std::io::ErrorKind::UnexpectedEof, "Read zero bytes"),
                        ),
                    )
                } else {
                    // Add the available bytes to our buffer.
                    extend_back(&mut self.buf, bytes);
                    Ok(bytes.len())
                }
            },
            Err(err) => Err(ReadError::IOError(err)),
        }
    }

    /// Acts on the result of a decode attempt on the buffer: the number of
    /// bytes that the decoded value took up, or the failure.
    ///
    /// After a success exactly the bytes of the value leave the buffer and
    /// are returned. A value that is incomplete so far is no error: the
    /// result is `Ok(None)`, and the caller fetches more. Any other failure
    /// is returned with the decoder's error. The buffer is left as it was in
    /// both cases.
    pub fn settle(&mut self, outcome: Result<usize, DecodeError>) -> (r: Result<
        Option<Vec<u8>>,
        ReadError,
    >)
        requires
            outcome matches Ok(n) ==> n <= old(self).buffered().len(),
        ensures
            final(self).source() == old(self).source(),
            match outcome {
                Ok(n) => {
                    &&& r matches Ok(Some(frame)) && frame@ == old(self).buffered().subrange(
                        0,
                        n as int,
                    )
                    &&& final(self).buffered() == old(self).buffered().subrange(
                        n as int,
                        old(self).buffered().len() as int,
                    )
                },
                Err(e) => {
                    &&& final(self).buffered() == old(self).buffered()
                    &&& if e.fault.is_incomplete() {
                        r matches Ok(None)
                    } else {
                        r matches Err(ReadError::RmpError(source)) && source == e.source
                    }
                },
            },
    {
        match outcome {
            Ok(n) => {
                // There was enough data. Drop what was read.
                let frame = self.head(n);
                drain_front(&mut self.buf, n);
                Ok(Some(frame))
            },
            Err(e) => {
                if e.fault.incomplete() {
                    Ok(None)
                } else {
                    Err(ReadError::RmpError(e.source))
                }
            },
        }
    }

    /// Makes one decode attempt on the buffer, which stays as it is, and
    /// returns how many bytes the value at its head takes up.
    fn try_decode(&self) -> (outcome: Result<usize, DecodeError>)
        ensures
            match outcome {
                Ok(n) => n <= self.buffered().len() && decode_outcome(self.buffered()) == Ok::<
                    nat,
                    Fault,
                >(n as nat),
                Err(e) => decode_outcome(self.buffered()) == Err::<nat, Fault>(e.fault),
            },
    {
        let mut cursor = Cursor::new(&self.buf);
        proof {
            assert(cursor.remaining() =~= self.buffered());
        }
        match decode_value(&mut cursor) {
            Ok(()) => Ok(cursor.position()),
            Err(e) => Err(e),
        }
    }

    /// Tries once to decode a value from the head of the buffer, and leaves
    /// the buffer as it is whatever comes of it.
    ///
    /// Returns a copy of the bytes of the value, or `Ok(None)` when the
    /// buffer ends before the value does, or the decoder's error when the
    /// bytes are not a value. After `Ok(Some(frame))` the value is taken out
    /// of the buffer by `settle(Ok(frame.len()))`.
    pub fn peek(&self) -> (r: Result<Option<Vec<u8>>, ReadError>)
        ensures
            match attempt(self.buffered()) {
                Step::Deliver(bytes) => {
                    &&& r matches Ok(Some(frame)) && frame@ == bytes
                    &&& bytes.len() <= self.buffered().len()
                    &&& decode_outcome(self.buffered()) == Ok::<nat, Fault>(bytes.len())
                },
                Step::NeedMore => r matches Ok(None),
                Step::Reject => r matches Err(ReadError::RmpError(_)),
            },
    {
        match self.try_decode() {
            Ok(n) => Ok(Some(self.head(n))),
            Err(e) => {
                if e.fault.incomplete() {
                    Ok(None)
                } else {
                    Err(ReadError::RmpError(e.source))
                }
            },
        }
    }

    /// Tries once to decode a value from the head of the buffer.
    ///
    /// Returns the bytes of the value, which leave the buffer, or `Ok(None)`
    /// when the buffer ends before the value does: then the caller fetches
    /// the next chunk, hands it to `fill_buffer` and calls again. Bytes that
    /// are not a value are an error and stay in the buffer.
    pub fn recv(&mut self) -> (r: Result<Option<Vec<u8>>, ReadError>)
        ensures
            final(self).source() == old(self).source(),
            final(self).buffered() == after_attempt(old(self).buffered()),
            match attempt(old(self).buffered()) {
                Step::Deliver(bytes) => r matches Ok(Some(frame)) && frame@ == bytes,
                Step::NeedMore => r matches Ok(None),
                Step::Reject => r matches Err(ReadError::RmpError(_)),
            },
    {
        let outcome = self.try_decode();
        self.settle(outcome)
    }
}

} // verus!
