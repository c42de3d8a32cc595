//! Arrays that are decoded from asynchronous readers, from the call that starts a decoding to its
//! result.
//!
//! A decoding is the calls that make it up, in turn: each takes what the one before it returned.
use crate::async_read::{
    async_turn, async_view, decode_from_async_read_unbuffered,
    decode_from_async_read_unbuffered_with, decode_from_async_read_with_buffer, AsyncReadRequest,
};
use crate::decode::{push_step, starts, Decoder, DecoderStatus};
use crate::decoders::ArrayDecoder;
use crate::error::{AsyncReadError, UnexpectedEofError};
use crate::laws::array_readers::{lemma_array_end, lemma_array_push};
use crate::laws::arrays::array_starts_empty;
use crate::progress::{finishes_async_read, AsyncReadResult, Progress};
use vstd::prelude::*;

verus! {

/// What a read driver returns when it finishes a decoder that has taken the first `position` bytes
/// of `stream`.
proof fn lemma_async_array_finish<const N: usize, E>(
    stream: Seq<u8>,
    position: int,
    decoder: ArrayDecoder<N>,
    result: AsyncReadResult<ArrayDecoder<N>, E>,
)
    requires
        0 <= position <= N,
        position <= stream.len(),
        decoder.received() == stream.take(position),
        finishes_async_read(decoder, result),
    ensures
        position == N ==> (result matches Ok(array) && array@ == stream.take(N as int)),
        position < N ==> (result matches Err(AsyncReadError::Decode(_))),
{
    match result {
        Ok(array) => lemma_array_end(stream, position, decoder, Ok(array)),
        Err(AsyncReadError::Decode(error)) => lemma_array_end(
            stream,
            position,
            decoder,
            Err(error),
        ),
        Err(_) => {},
    }
}

spec fn async_array_calls<const N: usize, E>(
    capacity: nat,
    stream: Seq<u8>,
    requests: Seq<AsyncReadRequest<ArrayDecoder<N>>>,
    limits: Seq<usize>,
    reads: Seq<Result<usize, E>>,
    buffers: Seq<&[u8]>,
    nexts: Seq<Progress<AsyncReadRequest<ArrayDecoder<N>>, AsyncReadResult<ArrayDecoder<N>, E>>>,
    positions: Seq<int>,
    result: AsyncReadResult<ArrayDecoder<N>, E>,
) -> bool {
    &&& requests.len() == limits.len() == reads.len() == buffers.len() == nexts.len()
    &&& positions.len() == reads.len() + 1
    &&& positions[0] == 0
    &&& forall|i: int|
        0 <= i < reads.len() ==> call_ensures(
            AsyncReadRequest::<ArrayDecoder<N>>::limit,
            (&requests[i],),
            #[trigger] limits[i],
        )
    &&& forall|i: int|
        0 <= i < reads.len() ==> call_ensures(
            AsyncReadRequest::<ArrayDecoder<N>>::complete::<E>,
            (requests[i], reads[i], buffers[i]),
            #[trigger] nexts[i],
        )
    &&& forall|i: int|
        0 <= i < reads.len() ==> #[trigger] nexts[i] == if i == reads.len() - 1 {
            Progress::<
                AsyncReadRequest<ArrayDecoder<N>>,
                AsyncReadResult<ArrayDecoder<N>, E>,
            >::Done(result)
        } else {
            Progress::Continue(requests[i + 1])
        }
    &&& forall|i: int|
        0 <= i < reads.len() ==> match #[trigger] reads[i] {
            Ok(count) => if count <= limits[i] {
                &&& limits[i] <= buffers[i]@.len()
                &&& positions[i] + count <= stream.len()
                &&& buffers[i]@.take(count as int) == stream.subrange(
                    positions[i],
                    positions[i] + count,
                )
                &&& count == 0 ==> positions[i] == stream.len()
                &&& positions[i + 1] == positions[i] + count
            } else {
                positions[i + 1] == positions[i]
            },
            Err(_) => positions[i + 1] == positions[i],
        }
    &&& reads.len() > 0
    &&& requests[0].decoder().received() == Seq::<u8>::empty()
    &&& requests[0].capacity() == capacity
}

proof fn lemma_async_array_state<const N: usize, E>(
    capacity: nat,
    stream: Seq<u8>,
    requests: Seq<AsyncReadRequest<ArrayDecoder<N>>>,
    limits: Seq<usize>,
    reads: Seq<Result<usize, E>>,
    buffers: Seq<&[u8]>,
    nexts: Seq<Progress<AsyncReadRequest<ArrayDecoder<N>>, AsyncReadResult<ArrayDecoder<N>, E>>>,
    positions: Seq<int>,
    result: AsyncReadResult<ArrayDecoder<N>, E>,
    i: int,
)
    requires
        async_array_calls(
            capacity,
            stream,
            requests,
            limits,
            reads,
            buffers,
            nexts,
            positions,
            result,
        ),
        0 <= i < reads.len(),
    ensures
        0 <= positions[i] <= N,
        positions[i] <= stream.len(),
        requests[i].decoder().received() == stream.take(positions[i]),
        requests[i].decoder().limit() == N - positions[i],
        requests[i].capacity() == capacity,
        limits[i] == if N - positions[i] < capacity {
            N - positions[i]
        } else {
            capacity as int
        },
    decreases i,
{
    if i == 0 {
        assert(stream.take(0) =~= Seq::empty());
    } else {
        let before = i - 1;
        lemma_async_array_state(
            capacity,
            stream,
            requests,
            limits,
            reads,
            buffers,
            nexts,
            positions,
            result,
            before,
        );
        let next = nexts[before];
        assert(next == Progress::<
            AsyncReadRequest<ArrayDecoder<N>>,
            AsyncReadResult<ArrayDecoder<N>, E>,
        >::Continue(requests[i]));
        assert(positions[before + 1] == positions[i]);
        assert(reads[before] is Ok);
        let count = reads[before]->Ok_0;
        let bytes = buffers[before]@.take(count as int);
        let decoder = requests[before].decoder();
        let after = requests[i].decoder();
        let taken = choose|taken: int| #[trigger]
            push_step(decoder, bytes, taken, after, Ok(DecoderStatus::NeedsMore));
        assert(push_step(decoder, bytes, taken, after, Ok(DecoderStatus::NeedsMore)));
        lemma_array_push(
            stream,
            positions[before],
            decoder,
            bytes,
            taken,
            after,
            Ok(DecoderStatus::NeedsMore),
        );
    }
    assert(stream.take(positions[i]).len() == positions[i]);
    assert(call_ensures(AsyncReadRequest::<ArrayDecoder<N>>::limit, (&requests[i],), limits[i]));
}

proof fn lemma_async_array<const N: usize, E>(
    capacity: nat,
    stream: Seq<u8>,
    requests: Seq<AsyncReadRequest<ArrayDecoder<N>>>,
    limits: Seq<usize>,
    reads: Seq<Result<usize, E>>,
    buffers: Seq<&[u8]>,
    nexts: Seq<Progress<AsyncReadRequest<ArrayDecoder<N>>, AsyncReadResult<ArrayDecoder<N>, E>>>,
    positions: Seq<int>,
    result: AsyncReadResult<ArrayDecoder<N>, E>,
)
    requires
        async_array_calls(
            capacity,
            stream,
            requests,
            limits,
            reads,
            buffers,
            nexts,
            positions,
            result,
        ),
    ensures
        N > 0,
        capacity > 0,
        forall|i: int|
            0 <= i < reads.len() ==> #[trigger] limits[i] == if N - positions[i] < capacity {
                N - positions[i]
            } else {
                capacity as int
            },
        forall|i: int|
            0 <= i < reads.len() - 1 ==> ((#[trigger] reads[i]) matches Ok(count) && count
                <= limits[i]),
        match reads.last() {
            Err(error) => result == Err::<[u8; N], AsyncReadError<UnexpectedEofError, E>>(
                AsyncReadError::Read(error),
            ),
            Ok(count) => if count > limits.last() {
                result matches Err(AsyncReadError::ReadTooManyBytes)
            } else if N <= stream.len() {
                &&& result matches Ok(array) && array@ == stream.take(N as int)
                &&& positions.last() == N
            } else {
                &&& result matches Err(AsyncReadError::Decode(_))
                &&& positions.last() == stream.len()
            },
        },
{
    assert forall|i: int| 0 <= i < reads.len() implies #[trigger] limits[i] == if N - positions[i]
        < capacity {
        N - positions[i]
    } else {
        capacity as int
    } by {
        lemma_async_array_state(
            capacity,
            stream,
            requests,
            limits,
            reads,
            buffers,
            nexts,
            positions,
            result,
            i,
        );
    }
    assert forall|i: int| 0 <= i < reads.len() - 1 implies ((#[trigger] reads[i]) matches Ok(count)
        && count <= limits[i]) by {
        assert(nexts[i] is Continue);
        assert(call_ensures(
            AsyncReadRequest::<ArrayDecoder<N>>::limit,
            (&requests[i],),
            limits[i],
        ));
    }
    let last = reads.len() - 1;
    let decoder = requests[last].decoder();
    lemma_async_array_state(
        capacity,
        stream,
        requests,
        limits,
        reads,
        buffers,
        nexts,
        positions,
        result,
        last,
    );
    assert(positions[last + 1] == positions.last());
    assert(nexts[last] is Done);
    assert(call_ensures(
        AsyncReadRequest::<ArrayDecoder<N>>::limit,
        (&requests[last],),
        limits[last],
    ));
    if let Ok(count) = reads[last] {
        if count > limits[last] {
        } else if count == 0 {
            lemma_async_array_finish(stream, positions[last], decoder, result);
        } else {
            let bytes = buffers[last]@.take(count as int);
            let (taken, after, outcome) = choose|
                taken: int,
                after: ArrayDecoder<N>,
                outcome: Result<DecoderStatus, UnexpectedEofError>,
            | #[trigger]
                push_step(decoder, bytes, taken, after, outcome) && match outcome {
                    Err(error) => result == Err::<[u8; N], AsyncReadError<UnexpectedEofError, E>>(
                        AsyncReadError::Decode(error),
                    ),
                    Ok(DecoderStatus::NeedsMore) => (after.limit() == 0 || capacity == 0)
                        && finishes_async_read(after, result),
                    Ok(DecoderStatus::Ready) => finishes_async_read(after, result),
                };
            lemma_array_push(stream, positions[last], decoder, bytes, taken, after, outcome);
            assert(stream.take(positions[last] + taken).len() == positions[last] + taken);
            lemma_async_array_finish(stream, positions[last] + taken, after, result);
        }
    }
}

/// Decoding an array from an asynchronous reader gives the first bytes of the stream, and reads
/// exactly these. If the stream is too short it fails, and reads all of it. A read is for the bytes
/// that are still missing, up to the size of the buffer. A read that fails is the last one, and its
/// error the result; so is one that returns more bytes than it was for. Nothing is read for an
/// empty array or into an empty buffer.
///
/// The reader holds `stream`. A read puts bytes from where the one before it stopped into the
/// buffer, and none only at the end of the stream.
pub proof fn async_reader_gives_the_array<const N: usize, E>(
    buffer_len: usize,
    stream: Seq<u8>,
    first: Progress<AsyncReadRequest<ArrayDecoder<N>>, AsyncReadResult<ArrayDecoder<N>, E>>,
    requests: Seq<AsyncReadRequest<ArrayDecoder<N>>>,
    limits: Seq<usize>,
    reads: Seq<Result<usize, E>>,
    buffers: Seq<&[u8]>,
    nexts: Seq<Progress<AsyncReadRequest<ArrayDecoder<N>>, AsyncReadResult<ArrayDecoder<N>, E>>>,
    positions: Seq<int>,
    result: AsyncReadResult<ArrayDecoder<N>, E>,
)
    requires
        requests.len() == limits.len() == reads.len() == buffers.len() == nexts.len(),
        positions.len() == reads.len() + 1,
        positions[0] == 0,
        call_ensures(decode_from_async_read_with_buffer::<[u8; N], E>, (buffer_len,), first),
        first == if reads.len() == 0 {
            Progress::<
                AsyncReadRequest<ArrayDecoder<N>>,
                AsyncReadResult<ArrayDecoder<N>, E>,
            >::Done(result)
        } else {
            Progress::Continue(requests[0])
        },
        forall|i: int|
            0 <= i < reads.len() ==> call_ensures(
                AsyncReadRequest::<ArrayDecoder<N>>::limit,
                (&requests[i],),
                #[trigger] limits[i],
            ),
        forall|i: int|
            0 <= i < reads.len() ==> call_ensures(
                AsyncReadRequest::<ArrayDecoder<N>>::complete::<E>,
                (requests[i], reads[i], buffers[i]),
                #[trigger] nexts[i],
            ),
        forall|i: int|
            0 <= i < reads.len() ==> #[trigger] nexts[i] == if i == reads.len() - 1 {
                Progress::<
                    AsyncReadRequest<ArrayDecoder<N>>,
                    AsyncReadResult<ArrayDecoder<N>, E>,
                >::Done(result)
            } else {
                Progress::Continue(requests[i + 1])
            },
        forall|i: int|
            0 <= i < reads.len() ==> match #[trigger] reads[i] {
                Ok(count) => if count <= limits[i] {
                    &&& limits[i] <= buffers[i]@.len()
                    &&& positions[i] + count <= stream.len()
                    &&& buffers[i]@.take(count as int) == stream.subrange(
                        positions[i],
                        positions[i] + count,
                    )
                    &&& count == 0 ==> positions[i] == stream.len()
                    &&& positions[i + 1] == positions[i] + count
                } else {
                    positions[i + 1] == positions[i]
                },
                Err(_) => positions[i + 1] == positions[i],
            },
    ensures
        reads.len() == 0 <==> N == 0 || buffer_len == 0,
        forall|i: int|
            0 <= i < reads.len() ==> #[trigger] limits[i] == if N - positions[i] < buffer_len {
                N - positions[i]
            } else {
                buffer_len as int
            },
        forall|i: int|
            0 <= i < reads.len() - 1 ==> ((#[trigger] reads[i]) matches Ok(count) && count
                <= limits[i]),
        if reads.len() > 0 {
            match reads.last() {
                Err(error) => result == Err::<[u8; N], AsyncReadError<UnexpectedEofError, E>>(
                    AsyncReadError::Read(error),
                ),
                Ok(count) => if count > limits.last() {
                    result matches Err(AsyncReadError::ReadTooManyBytes)
                } else if N <= stream.len() {
                    &&& result matches Ok(array) && array@ == stream.take(N as int)
                    &&& positions.last() == N
                } else {
                    &&& result matches Err(AsyncReadError::Decode(_))
                    &&& positions.last() == stream.len()
                },
            }
        } else if N == 0 {
            result matches Ok(array) && array@ == Seq::<u8>::empty()
        } else {
            result matches Err(AsyncReadError::Decode(_))
        },
{
    let start = choose|start: ArrayDecoder<N>|
        starts::<[u8; N]>(start) && #[trigger] async_turn(
            start,
            buffer_len as nat,
            async_view(first),
        );
    array_starts_empty(start);
    assert(stream.take(0) =~= Seq::empty());
    if reads.len() == 0 {
        lemma_async_array_finish(stream, 0, start, result);
    } else {
        lemma_async_array(
            buffer_len as nat,
            stream,
            requests,
            limits,
            reads,
            buffers,
            nexts,
            positions,
            result,
        );
    }
}

/// With a buffer of `BUFFER_SIZE` bytes of its own, decoding an array from an asynchronous reader
/// does the same as with one of that size from the caller.
pub proof fn sized_async_reader_gives_the_array<const N: usize, E, const BUFFER_SIZE: usize>(
    stream: Seq<u8>,
    first: Progress<AsyncReadRequest<ArrayDecoder<N>>, AsyncReadResult<ArrayDecoder<N>, E>>,
    requests: Seq<AsyncReadRequest<ArrayDecoder<N>>>,
    limits: Seq<usize>,
    reads: Seq<Result<usize, E>>,
    buffers: Seq<&[u8]>,
    nexts: Seq<Progress<AsyncReadRequest<ArrayDecoder<N>>, AsyncReadResult<ArrayDecoder<N>, E>>>,
    positions: Seq<int>,
    result: AsyncReadResult<ArrayDecoder<N>, E>,
)
    requires
        requests.len() == limits.len() == reads.len() == buffers.len() == nexts.len(),
        positions.len() == reads.len() + 1,
        positions[0] == 0,
        call_ensures(decode_from_async_read_unbuffered_with::<[u8; N], E, BUFFER_SIZE>, (), first),
        first == if reads.len() == 0 {
            Progress::<
                AsyncReadRequest<ArrayDecoder<N>>,
                AsyncReadResult<ArrayDecoder<N>, E>,
            >::Done(result)
        } else {
            Progress::Continue(requests[0])
        },
        forall|i: int|
            0 <= i < reads.len() ==> call_ensures(
                AsyncReadRequest::<ArrayDecoder<N>>::limit,
                (&requests[i],),
                #[trigger] limits[i],
            ),
        forall|i: int|
            0 <= i < reads.len() ==> call_ensures(
                AsyncReadRequest::<ArrayDecoder<N>>::complete::<E>,
                (requests[i], reads[i], buffers[i]),
                #[trigger] nexts[i],
            ),
        forall|i: int|
            0 <= i < reads.len() ==> #[trigger] nexts[i] == if i == reads.len() - 1 {
                Progress::<
                    AsyncReadRequest<ArrayDecoder<N>>,
                    AsyncReadResult<ArrayDecoder<N>, E>,
                >::Done(result)
            } else {
                Progress::Continue(requests[i + 1])
            },
        forall|i: int|
            0 <= i < reads.len() ==> match #[trigger] reads[i] {
                Ok(count) => if count <= limits[i] {
                    &&& limits[i] <= buffers[i]@.len()
                    &&& positions[i] + count <= stream.len()
                    &&& buffers[i]@.take(count as int) == stream.subrange(
                        positions[i],
                        positions[i] + count,
                    )
                    &&& count == 0 ==> positions[i] == stream.len()
                    &&& positions[i + 1] == positions[i] + count
                } else {
                    positions[i + 1] == positions[i]
                },
                Err(_) => positions[i + 1] == positions[i],
            },
    ensures
        reads.len() == 0 <==> N == 0 || BUFFER_SIZE == 0,
        forall|i: int|
            0 <= i < reads.len() ==> #[trigger] limits[i] == if N - positions[i] < BUFFER_SIZE {
                N - positions[i]
            } else {
                BUFFER_SIZE as int
            },
        forall|i: int|
            0 <= i < reads.len() - 1 ==> ((#[trigger] reads[i]) matches Ok(count) && count
                <= limits[i]),
        if reads.len() > 0 {
            match reads.last() {
                Err(error) => result == Err::<[u8; N], AsyncReadError<UnexpectedEofError, E>>(
                    AsyncReadError::Read(error),
                ),
                Ok(count) => if count > limits.last() {
                    result matches Err(AsyncReadError::ReadTooManyBytes)
                } else if N <= stream.len() {
                    &&& result matches Ok(array) && array@ == stream.take(N as int)
                    &&& positions.last() == N
                } else {
                    &&& result matches Err(AsyncReadError::Decode(_))
                    &&& positions.last() == stream.len()
                },
            }
        } else if N == 0 {
            result matches Ok(array) && array@ == Seq::<u8>::empty()
        } else {
            result matches Err(AsyncReadError::Decode(_))
        },
{
    let start = choose|start: ArrayDecoder<N>|
        starts::<[u8; N]>(start) && #[trigger] async_turn(
            start,
            BUFFER_SIZE as nat,
            async_view(first),
        );
    array_starts_empty(start);
    assert(stream.take(0) =~= Seq::empty());
    if reads.len() == 0 {
        lemma_async_array_finish(stream, 0, start, result);
    } else {
        lemma_async_array(
            BUFFER_SIZE as nat,
            stream,
            requests,
            limits,
            reads,
            buffers,
            nexts,
            positions,
            result,
        );
    }
}

/// With the default buffer, decoding an array from an asynchronous reader does the same as with one
/// of 4096 bytes.
pub proof fn default_async_reader_gives_the_array<const N: usize, E>(
    stream: Seq<u8>,
    first: Progress<AsyncReadRequest<ArrayDecoder<N>>, AsyncReadResult<ArrayDecoder<N>, E>>,
    requests: Seq<AsyncReadRequest<ArrayDecoder<N>>>,
    limits: Seq<usize>,
    reads: Seq<Result<usize, E>>,
    buffers: Seq<&[u8]>,
    nexts: Seq<Progress<AsyncReadRequest<ArrayDecoder<N>>, AsyncReadResult<ArrayDecoder<N>, E>>>,
    positions: Seq<int>,
    result: AsyncReadResult<ArrayDecoder<N>, E>,
)
    requires
        requests.len() == limits.len() == reads.len() == buffers.len() == nexts.len(),
        positions.len() == reads.len() + 1,
        positions[0] == 0,
        call_ensures(decode_from_async_read_unbuffered::<[u8; N], E>, (), first),
        first == if reads.len() == 0 {
            Progress::<
                AsyncReadRequest<ArrayDecoder<N>>,
                AsyncReadResult<ArrayDecoder<N>, E>,
            >::Done(result)
        } else {
            Progress::Continue(requests[0])
        },
        forall|i: int|
            0 <= i < reads.len() ==> call_ensures(
                AsyncReadRequest::<ArrayDecoder<N>>::limit,
                (&requests[i],),
                #[trigger] limits[i],
            ),
        forall|i: int|
            0 <= i < reads.len() ==> call_ensures(
                AsyncReadRequest::<ArrayDecoder<N>>::complete::<E>,
                (requests[i], reads[i], buffers[i]),
                #[trigger] nexts[i],
            ),
        forall|i: int|
            0 <= i < reads.len() ==> #[trigger] nexts[i] == if i == reads.len() - 1 {
                Progress::<
                    AsyncReadRequest<ArrayDecoder<N>>,
                    AsyncReadResult<ArrayDecoder<N>, E>,
                >::Done(result)
            } else {
                Progress::Continue(requests[i + 1])
            },
        forall|i: int|
            0 <= i < reads.len() ==> match #[trigger] reads[i] {
                Ok(count) => if count <= limits[i] {
                    &&& limits[i] <= buffers[i]@.len()
                    &&& positions[i] + count <= stream.len()
                    &&& buffers[i]@.take(count as int) == stream.subrange(
                        positions[i],
                        positions[i] + count,
                    )
                    &&& count == 0 ==> positions[i] == stream.len()
                    &&& positions[i + 1] == positions[i] + count
                } else {
                    positions[i + 1] == positions[i]
                },
                Err(_) => positions[i + 1] == positions[i],
            },
    ensures
        reads.len() == 0 <==> N == 0,
        forall|i: int|
            0 <= i < reads.len() ==> #[trigger] limits[i] == if N - positions[i] < 4096 {
                N - positions[i]
            } else {
                4096
            },
        forall|i: int|
            0 <= i < reads.len() - 1 ==> ((#[trigger] reads[i]) matches Ok(count) && count
                <= limits[i]),
        if reads.len() > 0 {
            match reads.last() {
                Err(error) => result == Err::<[u8; N], AsyncReadError<UnexpectedEofError, E>>(
                    AsyncReadError::Read(error),
                ),
                Ok(count) => if count > limits.last() {
                    result matches Err(AsyncReadError::ReadTooManyBytes)
                } else if N <= stream.len() {
                    &&& result matches Ok(array) && array@ == stream.take(N as int)
                    &&& positions.last() == N
                } else {
                    &&& result matches Err(AsyncReadError::Decode(_))
                    &&& positions.last() == stream.len()
                },
            }
        } else if N == 0 {
            result matches Ok(array) && array@ == Seq::<u8>::empty()
        } else {
            result matches Err(AsyncReadError::Decode(_))
        },
{
    let start = choose|start: ArrayDecoder<N>|
        starts::<[u8; N]>(start) && #[trigger] async_turn(
            start,
            4096,
            async_view(first),
        );
    array_starts_empty(start);
    assert(stream.take(0) =~= Seq::empty());
    if reads.len() == 0 {
        lemma_async_array_finish(stream, 0, start, result);
    } else {
        lemma_async_array(
            4096,
            stream,
            requests,
            limits,
            reads,
            buffers,
            nexts,
            positions,
            result,
        );
    }
}

} // verus!
