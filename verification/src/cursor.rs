//! Sequential, non-destructive reads over a byte deque.

use std::collections::VecDeque;
use vstd::prelude::*;

verus! {

/// The smaller of two lengths.
pub open spec fn spec_min(a: int, b: int) -> int {
    if a <= b {
        a
    } else {
        b
    }
}

/// Calls `VecDeque::as_slices`. The two slices, the first followed by the
/// second, hold the contents of the deque in order.
#[verifier::external_body]
fn as_slices<'a>(deque: &'a VecDeque<u8>) -> (parts: (&'a [u8], &'a [u8]))
    ensures
        parts.0@ + parts.1@ == deque@,
{
    deque.as_slices()
}

/// Copies `src[from..from + n]` over `buf[at..at + n]`. The rest of `buf`
/// stays as it is.
fn copy_bytes(src: &[u8], from: usize, buf: &mut [u8], at: usize, n: usize)
    requires
        from + n <= src@.len(),
        at + n <= old(buf)@.len(),
    ensures
        final(buf)@ == old(buf)@.take(at as int) + src@.subrange(from as int, from + n) + old(
            buf,
        )@.skip(at + n),
{
    proof {
        vstd::slice::axiom_spec_len(src);
        vstd::slice::axiom_spec_len(buf);
        assert(buf@ =~= old(buf)@.take(at as int) + src@.subrange(from as int, from as int)
            + old(buf)@.skip(at as int));
    }
    let mut i: usize = 0;
    while i < n
        invariant
            i <= n,
            from + n <= src@.len() <= usize::MAX,
            at + n <= buf@.len() <= usize::MAX,
            buf@.len() == old(buf)@.len(),
            buf@ == old(buf)@.take(at as int) + src@.subrange(from as int, from + i) + old(
                buf,
            )@.skip(at + i),
        decreases n - i,
    {
        buf[at + i] = src[from + i];
        proof {
            assert(buf@ =~= old(buf)@.take(at as int) + src@.subrange(from as int, from + i + 1)
                + old(buf)@.skip(at + i + 1));
        }
        i += 1;
    }
}

/// Copies into the head of `buf` the bytes that start at offset `start` of
/// the sequence stored as `front` followed by `back`, and returns how many
/// were copied: as many as are left after `start`, or as `buf` has room for.
/// What `buf` holds behind them stays as it is.
///
/// Where the two segments meet has no bearing on the result: the bytes
/// copied are those of the joined sequence.
pub fn read_segments(front: &[u8], back: &[u8], start: usize, buf: &mut [u8]) -> (n: usize)
    requires
        start <= front@.len() + back@.len(),
    ensures
        n == spec_min(front@.len() + back@.len() - start, old(buf)@.len() as int),
        final(buf)@ == (front@ + back@).subrange(start as int, start + n) + old(buf)@.skip(
            n as int,
        ),
{
    let mut read: usize = 0;

    // Read from the front segment.
    if start < front.len() {
        let left: usize = front.len() - start;
        let n: usize = if left <= buf.len() {
            left
        } else {
            buf.len()
        };
        copy_bytes(front, start, buf, 0, n);
        read += n;
    }
    // If there is still room in `buf`, read from the back segment.

    if read < buf.len() && start + read >= front.len() {
        let b_start: usize = start + read - front.len();
        if b_start < back.len() {
            let left: usize = back.len() - b_start;
            let room: usize = buf.len() - read;
            let n: usize = if left <= room {
                left
            } else {
                room
            };
            copy_bytes(back, b_start, buf, read, n);
            read += n;
        }
    }
    proof {
        assert(buf@ =~= (front@ + back@).subrange(start as int, start + read) + old(buf)@.skip(
            read as int,
        ));
    }
    read
}

/// A read position over a byte deque. Reading through it copies bytes out
/// and moves the position; the deque itself is never changed.
pub struct Cursor<'a> {
    inner: &'a VecDeque<u8>,
    pos: usize,
}

impl<'a> Cursor<'a> {
    #[verifier::type_invariant]
    spec fn within(self) -> bool {
        self.pos <= self.inner@.len()
    }

    /// The bytes of the deque that the cursor reads.
    pub closed spec fn content(&self) -> Seq<u8> {
        self.inner@
    }

    /// How many bytes have been read through the cursor.
    pub closed spec fn consumed(&self) -> nat {
        self.pos as nat
    }

    /// The bytes that have not been read yet.
    pub open spec fn remaining(&self) -> Seq<u8> {
        self.content().subrange(self.consumed() as int, self.content().len() as int)
    }

    /// A cursor at the start of `deque`.
    pub fn new(deque: &'a VecDeque<u8>) -> (cursor: Self)
        ensures
            cursor.content() == deque@,
            cursor.consumed() == 0,
    {
        Cursor { inner: deque, pos: 0 }
    }

    /// How many bytes have been read through the cursor.
    pub fn position(&self) -> (pos: usize)
        ensures
            pos == self.consumed(),
            pos <= self.content().len(),
    {
        proof {
            use_type_invariant(self);
        }
        self.pos
    }
}

impl std::io::Read for Cursor<'_> {
    /// Copies the next unread bytes into the head of `buf`, as many as are
    /// left or as `buf` has room for, and moves the position past them.
    /// At the end of the deque this copies nothing and returns `Ok(0)`; it
    /// never fails.
    fn read(&mut self, buf: &mut [u8]) -> (r: std::io::Result<usize>)
        ensures
            r matches Ok(n) && {
                &&& n == spec_min(old(self).remaining().len() as int, old(buf)@.len() as int)
                &&& final(buf)@ == old(self).remaining().take(n as int) + old(buf)@.skip(n as int)
                &&& final(self).consumed() == old(self).consumed() + n
            },
            final(self).content() == old(self).content(),
    {
        proof {
            use_type_invariant(&*self);
            vstd::std_specs::vecdeque::axiom_spec_len(self.inner);
        }
        let (front, back) = as_slices(self.inner);
        let read = read_segments(front, back, self.pos, buf);
        proof {
            assert(old(self).remaining().take(read as int) =~= (front@ + back@).subrange(
                self.pos as int,
                self.pos + read,
            ));
        }
        self.pos += read;
        Ok(read)
    }
}

} // verus!
