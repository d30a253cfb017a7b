//! A receive as a whole: decode attempts and fetches in turn, over a stream
//! given as the chunks in which it arrives, and what holds of it however the
//! stream is cut into chunks.

use crate::error::ReadError;
use crate::reader::{after_attempt, attempt, RpcReader, Step};
use vstd::prelude::*;

verus! {

/// `message` is the encoding of one value: it has bytes; an attempt on it,
/// whatever follows it, delivers it and leaves what follows; and an attempt
/// on less than all of it asks for more.
pub open spec fn is_message(message: Seq<u8>) -> bool {
    &&& message.len() > 0
    &&& forall|rest: Seq<u8>| #[trigger]
        attempt(message + rest) == Step::Deliver(message)
    &&& forall|rest: Seq<u8>| #[trigger]
        after_attempt(message + rest) == rest
    &&& forall|k: int|
        0 <= k < message.len() ==> #[trigger] attempt(message.subrange(0, k)) == Step::NeedMore
}

/// No chunk is empty.
pub open spec fn all_nonempty(chunks: Seq<Seq<u8>>) -> bool {
    forall|i: int| 0 <= i < chunks.len() ==> (#[trigger] chunks[i]).len() > 0
}

/// How a receive ends.
pub enum Received {
    /// A value was delivered. `buffered` is what stays in the buffer and
    /// `fetches` the number of chunks that were taken from the stream.
    Message { frame: Seq<u8>, buffered: Seq<u8>, fetches: nat },
    /// The head of the buffer was not a value.
    Rejected { buffered: Seq<u8>, fetches: nat },
    /// The stream ended before the value did: the last fetch found no bytes.
    Ended { buffered: Seq<u8>, fetches: nat },
}

/// A receive that starts with `buffered` in the buffer, `fetches` chunks
/// taken, and `pending` still to come from the stream. Each attempt that
/// asks for more is followed by one fetch; a stream with nothing pending
/// delivers an empty chunk.
pub open spec fn recv_loop(buffered: Seq<u8>, pending: Seq<Seq<u8>>, fetches: nat) -> Received
    decreases pending.len(),
{
    match attempt(buffered) {
        Step::Deliver(frame) => Received::Message {
            frame,
            buffered: after_attempt(buffered),
            fetches,
        },
        Step::Reject => Received::Rejected { buffered, fetches },
        Step::NeedMore => if pending.len() == 0 || pending[0].len() == 0 {
            Received::Ended { buffered, fetches: fetches + 1 }
        } else {
            recv_loop(buffered + pending[0], pending.skip(1), fetches + 1)
        },
    }
}

/// A receive on a reader that holds `buffered`, from a stream that will
/// deliver `pending`.
pub open spec fn recv_from(buffered: Seq<u8>, pending: Seq<Seq<u8>>) -> Received {
    recv_loop(buffered, pending, 0)
}

/// Where a run of receives stands: the values delivered so far, what is
/// buffered, and how many chunks were taken from the stream.
pub struct Run {
    pub frames: Seq<Seq<u8>>,
    pub buffered: Seq<u8>,
    pub fetches: nat,
}

/// `count` receives in a row, each going on where the one before it left
/// the buffer and the stream. `None` if one of them fails.
pub open spec fn recv_run(run: Run, chunks: Seq<Seq<u8>>, count: nat) -> Option<Run>
    decreases count,
{
    if count == 0 {
        Some(run)
    } else {
        match recv_from(run.buffered, chunks.skip(run.fetches as int)) {
            Received::Message { frame, buffered, fetches } => recv_run(
                Run {
                    frames: run.frames.push(frame),
                    buffered,
                    fetches: run.fetches + fetches,
                },
                chunks,
                (count - 1) as nat,
            ),
            _ => None,
        }
    }
}

/// The count of fetches that a receive starts with is carried through.
proof fn lemma_recv_loop_shift(buffered: Seq<u8>, pending: Seq<Seq<u8>>, fetches: nat)
    ensures
        recv_loop(buffered, pending, fetches) == match recv_loop(buffered, pending, 0) {
            Received::Message { frame, buffered, fetches: f } => Received::Message {
                frame,
                buffered,
                fetches: f + fetches,
            },
            Received::Rejected { buffered, fetches: f } => Received::Rejected {
                buffered,
                fetches: f + fetches,
            },
            Received::Ended { buffered, fetches: f } => Received::Ended {
                buffered,
                fetches: f + fetches,
            },
        },
    decreases pending.len(),
{
    if attempt(buffered) == Step::NeedMore && pending.len() > 0 && pending[0].len() > 0 {
        lemma_recv_loop_shift(buffered + pending[0], pending.skip(1), fetches + 1);
        lemma_recv_loop_shift(buffered + pending[0], pending.skip(1), 1);
    }
}

/// A receive delivers the message at the head of the stream, takes no more
/// chunks than it needs for that, and leaves the rest of the stream in the
/// buffer and in the chunks still to come.
pub proof fn lemma_recv_delivers_head(
    message: Seq<u8>,
    tail: Seq<u8>,
    buffered: Seq<u8>,
    pending: Seq<Seq<u8>>,
)
    requires
        is_message(message),
        all_nonempty(pending),
        buffered + pending.flatten() == message + tail,
    ensures
        recv_from(buffered, pending) matches Received::Message { frame, buffered: kept, fetches }
            && frame == message && fetches <= pending.len() && kept + pending.skip(
            fetches as int,
        ).flatten() == tail && (fetches > 0 ==> buffered.len() + pending.take(
            fetches - 1,
        ).flatten().len() < message.len()),
    decreases pending.len(),
{
    let n = message.len() as int;
    let stream = buffered + pending.flatten();
    assert(stream.len() == (message + tail).len());
    if buffered.len() >= n {
        let rest = buffered.skip(n);
        assert(buffered =~= message + rest) by {
            assert forall|i: int| 0 <= i < n implies buffered[i] == message[i] by {
                assert(stream[i] == buffered[i]);
                assert((message + tail)[i] == message[i]);
            }
        }
        assert(attempt(message + rest) == Step::Deliver(message));
        assert(after_attempt(message + rest) == rest);
        assert(pending.skip(0) =~= pending);
        assert(rest + pending.flatten() =~= tail) by {
            assert forall|i: int| 0 <= i < tail.len() implies (rest + pending.flatten())[i]
                == tail[i] by {
                assert(stream[n + i] == (rest + pending.flatten())[i]);
                assert((message + tail)[n + i] == tail[i]);
            }
        }
    } else {
        let k = buffered.len() as int;
        assert(buffered =~= message.subrange(0, k)) by {
            assert forall|i: int| 0 <= i < k implies buffered[i] == message[i] by {
                assert(stream[i] == buffered[i]);
                assert((message + tail)[i] == message[i]);
            }
        }
        assert(attempt(message.subrange(0, k)) == Step::NeedMore);
        assert(pending.flatten().len() > 0);
        assert(pending.len() > 0);
        assert(pending[0].len() > 0);
        let next = buffered + pending[0];
        let later = pending.skip(1);
        assert(later =~= pending.drop_first());
        assert(pending.flatten() == pending[0] + later.flatten());
        assert(next + later.flatten() =~= buffered + pending.flatten());
        assert(all_nonempty(later)) by {
            assert forall|i: int| 0 <= i < later.len() implies (#[trigger] later[i]).len()
                > 0 by {
                assert(later[i] == pending[i + 1]);
            }
        }
        lemma_recv_delivers_head(message, tail, next, later);
        lemma_recv_loop_shift(next, later, 1);
        let inner = recv_from(next, later);
        let f = inner->Message_fetches as int;
        assert(later.skip(f) =~= pending.skip(f + 1));
        if f > 0 {
            // The chunks taken before the last one, seen from the start.
            assert(pending.take(f) =~= seq![pending[0]] + later.take(f - 1));
            lemma_flatten_cons(pending[0], later.take(f - 1));
        } else {
            assert(pending.take(0) =~= Seq::<Seq<u8>>::empty());
        }
    }
}

/// Flattening a list of chunks that starts with `head` gives `head`
/// followed by the rest, flattened.
proof fn lemma_flatten_cons(head: Seq<u8>, rest: Seq<Seq<u8>>)
    ensures
        (seq![head] + rest).flatten() == head + rest.flatten(),
{
    let all = seq![head] + rest;
    assert(all.first() == head);
    assert(all.drop_first() =~= rest);
}

/// Every element of `messages` is the encoding of one value.
pub open spec fn all_messages(messages: Seq<Seq<u8>>) -> bool {
    forall|i: int| 0 <= i < messages.len() ==> is_message(#[trigger] messages[i])
}

/// A run of receives that starts at the head of a stream of messages
/// delivers them one by one.
proof fn lemma_run_delivers(run: Run, chunks: Seq<Seq<u8>>, messages: Seq<Seq<u8>>)
    requires
        all_messages(messages),
        all_nonempty(chunks),
        run.fetches <= chunks.len(),
        run.buffered + chunks.skip(run.fetches as int).flatten() == messages.flatten(),
    ensures
        recv_run(run, chunks, messages.len()) matches Some(end) && end.frames == run.frames
            + messages && end.fetches <= chunks.len() && end.buffered + chunks.skip(
            end.fetches as int,
        ).flatten() == Seq::<u8>::empty(),
    decreases messages.len(),
{
    if messages.len() == 0 {
        assert(run.frames + messages =~= run.frames);
    } else {
        let head = messages[0];
        let later = messages.drop_first();
        let pending = chunks.skip(run.fetches as int);
        assert(is_message(head));
        assert(all_nonempty(pending)) by {
            assert forall|i: int| 0 <= i < pending.len() implies (#[trigger] pending[i]).len()
                > 0 by {
                assert(pending[i] == chunks[run.fetches + i]);
            }
        }
        lemma_recv_delivers_head(head, later.flatten(), run.buffered, pending);
        let got = recv_from(run.buffered, pending);
        let next = Run {
            frames: run.frames.push(head),
            buffered: got->Message_buffered,
            fetches: run.fetches + got->Message_fetches,
        };
        assert(pending.skip(got->Message_fetches as int) =~= chunks.skip(next.fetches as int));
        assert(all_messages(later)) by {
            assert forall|i: int| 0 <= i < later.len() implies is_message(
                #[trigger] later[i],
            ) by {
                assert(later[i] == messages[i + 1]);
            }
        }
        lemma_run_delivers(next, chunks, later);
        assert(run.frames.push(head) + later =~= run.frames + messages);
    }
}

/// Chunks that are not empty and hold no byte between them are no chunks.
proof fn lemma_nothing_pending(chunks: Seq<Seq<u8>>)
    requires
        all_nonempty(chunks),
        chunks.flatten().len() == 0,
    ensures
        chunks.len() == 0,
{
    if chunks.len() > 0 {
        assert(chunks.flatten() == chunks.first() + chunks.drop_first().flatten());
        assert(chunks[0].len() > 0);
    }
}

/// Chunking invariance. Take any messages, one after the other in a
/// stream, and cut the stream into chunks in any way. As many receives as
/// there are messages, made in a row on a reader that starts with an empty
/// buffer, deliver exactly these messages, in their order. They take every
/// chunk from the stream, each once, and leave the buffer empty.
pub proof fn chunking_invariance(messages: Seq<Seq<u8>>, chunks: Seq<Seq<u8>>)
    requires
        all_messages(messages),
        all_nonempty(chunks),
        chunks.flatten() == messages.flatten(),
    ensures
        recv_run(
            Run { frames: Seq::empty(), buffered: Seq::empty(), fetches: 0 },
            chunks,
            messages.len(),
        ) == Some(Run { frames: messages, buffered: Seq::empty(), fetches: chunks.len() }),
{
    let start = Run { frames: Seq::empty(), buffered: Seq::empty(), fetches: 0 };
    assert(chunks.skip(0) =~= chunks);
    assert(start.buffered + chunks.flatten() =~= chunks.flatten());
    lemma_run_delivers(start, chunks, messages);
    let end = recv_run(start, chunks, messages.len())->Some_0;
    let left = chunks.skip(end.fetches as int);
    assert((end.buffered + left.flatten()).len() == 0);
    assert(end.buffered =~= Seq::<u8>::empty());
    assert(all_nonempty(left)) by {
        assert forall|i: int| 0 <= i < left.len() implies (#[trigger] left[i]).len() > 0 by {
            assert(left[i] == chunks[end.fetches + i]);
        }
    }
    lemma_nothing_pending(left);
    assert(end.frames =~= messages);
}

/// Partial-message retention. With only the first `k` bytes of a message
/// buffered, an attempt neither fails nor drops a byte: it asks for more.
/// Once the other bytes have come, the receive delivers the message, after
/// that one fetch and no other, and nothing stays behind.
pub proof fn partial_message_retention(message: Seq<u8>, k: int)
    requires
        is_message(message),
        0 <= k < message.len(),
    ensures
        attempt(message.subrange(0, k)) == Step::NeedMore,
        after_attempt(message.subrange(0, k)) == message.subrange(0, k),
        recv_from(message.subrange(0, k), seq![message.subrange(k, message.len() as int)])
            == (Received::Message { frame: message, buffered: Seq::empty(), fetches: 1 }),
{
    let head = message.subrange(0, k);
    let tail = message.subrange(k, message.len() as int);
    let none = Seq::<u8>::empty();
    assert(head + tail =~= message);
    assert(message + none =~= message);
    assert(attempt(message + none) == Step::Deliver(message));
    assert(after_attempt(message + none) == none);
    assert(seq![tail].skip(1) =~= Seq::<Seq<u8>>::empty());
    assert(seq![tail][0] == tail);
    reveal_with_fuel(recv_loop, 2);
}

/// No cross-message leakage. When one chunk brings two whole messages, the
/// receive that fetched it delivers the first alone and leaves in the
/// buffer exactly the bytes of the second; the next receive delivers the
/// second without a fetch and leaves nothing.
pub proof fn no_cross_message_leakage(first: Seq<u8>, second: Seq<u8>)
    requires
        is_message(first),
        is_message(second),
    ensures
        recv_from(Seq::empty(), seq![first + second]) == (Received::Message {
            frame: first,
            buffered: second,
            fetches: 1,
        }),
        recv_from(second, Seq::empty()) == (Received::Message {
            frame: second,
            buffered: Seq::empty(),
            fetches: 0,
        }),
{
    let none = Seq::<u8>::empty();
    let chunk = first + second;
    assert(first.subrange(0, 0) =~= none);
    assert(attempt(first.subrange(0, 0)) == Step::NeedMore);
    assert(none + chunk =~= first + second);
    assert(attempt(first + second) == Step::Deliver(first));
    assert(after_attempt(first + second) == second);
    assert(second + none =~= second);
    assert(attempt(second + none) == Step::Deliver(second));
    assert(after_attempt(second + none) == none);
    assert(seq![chunk][0] == chunk);
    reveal_with_fuel(recv_loop, 2);
}

/// End of stream. A receive that needs more bytes while the stream has
/// none to give, or gives an empty chunk, ends in failure after that one
/// fetch: it does not end quietly, and the buffer keeps what it held.
pub proof fn end_of_stream_is_fatal(buffered: Seq<u8>, pending: Seq<Seq<u8>>)
    requires
        attempt(buffered) == Step::NeedMore,
        pending.len() == 0 || pending[0].len() == 0,
    ensures
        recv_from(buffered, pending) == (Received::Ended { buffered, fetches: 1 }),
{
}

/// The chunks of a stream that is held in memory, each as its bytes.
pub open spec fn chunk_views(chunks: &[Vec<u8>]) -> Seq<Seq<u8>> {
    Seq::new(chunks@.len(), |i: int| chunks@[i]@)
}

impl<R> RpcReader<R> {
    /// Receives one value from a stream that is held in memory and delivers
    /// `chunks`, one per fetch, and then ends. Returns the bytes of the
    /// value, or the error that ended the receive, and the number of
    /// fetches that were made. The byte source of the reader is not used.
    pub fn recv_chunks(&mut self, chunks: &[Vec<u8>]) -> (r: (Result<Vec<u8>, ReadError>, usize))
        requires
            chunks@.len() < usize::MAX,
        ensures
            final(self).source() == old(self).source(),
            match recv_from(old(self).buffered(), chunk_views(chunks)) {
                Received::Message { frame, buffered, fetches } => {
                    &&& r.0 matches Ok(bytes) && bytes@ == frame
                    &&& final(self).buffered() == buffered
                    &&& r.1 == fetches
                },
                Received::Rejected { buffered, fetches } => {
                    &&& r.0 matches Err(ReadError::RmpError(_))
                    &&& final(self).buffered() == buffered
                    &&& r.1 == fetches
                },
                Received::Ended { buffered, fetches } => {
                    &&& r.0 matches Err(ReadError::IOError(_))
                    &&& final(self).buffered() == buffered
                    &&& r.1 == fetches
                },
            },
    {
        let end: Vec<u8> = Vec::new();
        let mut taken: usize = 0;
        proof {
            assert(chunk_views(chunks).skip(0) =~= chunk_views(chunks));
        }
        loop
            invariant
                taken <= chunks@.len() < usize::MAX,
                end@.len() == 0,
                self.source() == old(self).source(),
                recv_loop(self.buffered(), chunk_views(chunks).skip(taken as int), taken as nat)
                    == recv_from(old(self).buffered(), chunk_views(chunks)),
            decreases chunks@.len() - taken,
        {
            let ghost pending = chunk_views(chunks).skip(taken as int);
            match self.recv() {
                Ok(Some(frame)) => {
                    return (Ok(frame), taken);
                },
                Ok(None) => {
                    // The value is not complete: fetch the next chunk.
                    let chunk = if taken < chunks.len() {
                        chunks[taken].as_slice()
                    } else {
                        end.as_slice()
                    };
                    proof {
                        if taken < chunks@.len() {
                            assert(pending[0] == chunk@);
                            assert(pending.skip(1) =~= chunk_views(chunks).skip(taken + 1));
                        }
                    }
                    match self.fill_buffer(Ok(chunk)) {
                        Ok(_) => {
                            taken += 1;
                        },
                        Err(e) => {
                            return (Err(e), taken + 1);
                        },
                    }
                },
                Err(e) => {
                    return (Err(e), taken);
                },
            }
        }
    }
}

} // verus!
