//! Arrays that are decoded from readers, from the call that starts a decoding to its result.
//!
//! A decoding is the calls that make it up, in turn: each takes what the one before it returned.
use crate::buffered::{decode_from_read, BufferedDecode, BufferedStep};
use crate::decode::{push_step, starts, Decoder, DecoderStatus};
use crate::decoders::ArrayDecoder;
use crate::error::{IoError, ReadError, UnexpectedEofError};
use crate::laws::arrays::array_starts_empty;
use crate::progress::{finishes_read, Progress, ReadResult};
use crate::unbuffered::{
    decode_from_read_unbuffered, decode_from_read_unbuffered_with, unbuffered_turn,
    unbuffered_view, ReadRequest,
};
use vstd::prelude::*;

verus! {

/// What a push of the bytes of `stream` from `position` on does to a decoder that has taken those
/// before them.
pub(crate) proof fn lemma_array_push<const N: usize>(
    stream: Seq<u8>,
    position: int,
    decoder: ArrayDecoder<N>,
    bytes: Seq<u8>,
    taken: int,
    next: ArrayDecoder<N>,
    outcome: Result<DecoderStatus, UnexpectedEofError>,
)
    requires
        0 <= position <= N,
        position + bytes.len() <= stream.len(),
        decoder.received() == stream.take(position),
        bytes == stream.subrange(position, position + bytes.len()),
        push_step(decoder, bytes, taken, next, outcome),
    ensures
        next.received() == stream.take(position + taken),
        position + bytes.len() < N ==> taken == bytes.len() && outcome == Ok::<
            DecoderStatus,
            UnexpectedEofError,
        >(DecoderStatus::NeedsMore),
        position + bytes.len() >= N ==> position + taken == N && outcome == Ok::<
            DecoderStatus,
            UnexpectedEofError,
        >(DecoderStatus::Ready),
{
    assert(stream.take(position).len() == position);
    assert(stream.take(position) + bytes.take(taken) =~= stream.take(position + taken));
}

/// What finishing a decoder that has taken the first `position` bytes of `stream` gives.
pub(crate) proof fn lemma_array_end<const N: usize>(
    stream: Seq<u8>,
    position: int,
    decoder: ArrayDecoder<N>,
    result: Result<[u8; N], UnexpectedEofError>,
)
    requires
        0 <= position <= N,
        position <= stream.len(),
        decoder.received() == stream.take(position),
        decoder.ends(result),
    ensures
        position == N ==> (result matches Ok(array) && array@ == stream.take(N as int)),
        position < N ==> result is Err,
{
    assert(stream.take(position).len() == position);
    if let Ok(array) = result {
        assert(array@.len() == N);
    }
}

/// What a read driver returns when it finishes such a decoder.
proof fn lemma_array_finish<const N: usize, E>(
    stream: Seq<u8>,
    position: int,
    decoder: ArrayDecoder<N>,
    result: ReadResult<ArrayDecoder<N>, E>,
)
    requires
        0 <= position <= N,
        position <= stream.len(),
        decoder.received() == stream.take(position),
        finishes_read(decoder, result),
    ensures
        position == N ==> (result matches Ok(array) && array@ == stream.take(N as int)),
        position < N ==> (result matches Err(ReadError::Decode(_))),
{
    match result {
        Ok(array) => lemma_array_end(stream, position, decoder, Ok(array)),
        Err(ReadError::Decode(error)) => lemma_array_end(stream, position, decoder, Err(error)),
        Err(ReadError::Io(_)) => {},
    }
}

spec fn buffered_array_calls<const N: usize, E>(
    stream: Seq<u8>,
    decodes: Seq<BufferedDecode<ArrayDecoder<N>>>,
    fills: Seq<Result<&[u8], IoError<E>>>,
    steps: Seq<BufferedStep<ArrayDecoder<N>, E>>,
    positions: Seq<int>,
) -> bool {
    &&& decodes.len() == fills.len() == steps.len()
    &&& positions.len() == fills.len() + 1
    &&& fills.len() > 0
    &&& positions[0] == 0
    &&& call_ensures(decode_from_read::<[u8; N]>, (), decodes[0])
    &&& forall|i: int|
        0 <= i < fills.len() ==> call_ensures(
            BufferedDecode::<ArrayDecoder<N>>::filled::<E>,
            (decodes[i], fills[i]),
            #[trigger] steps[i],
        )
    &&& forall|i: int|
        0 <= i < fills.len() - 1 ==> (#[trigger] steps[i]).next == Progress::<
            BufferedDecode<ArrayDecoder<N>>,
            ReadResult<ArrayDecoder<N>, E>,
        >::Continue(decodes[i + 1])
    &&& forall|i: int|
        0 <= i < fills.len() ==> positions[i + 1] == positions[i] + match (
        #[trigger] steps[i]).consume {
            Some(amount) => amount as int,
            None => 0,
        }
    &&& forall|i: int|
        0 <= i < fills.len() ==> match #[trigger] fills[i] {
            Ok(bytes) => {
                &&& positions[i] + bytes@.len() <= stream.len()
                &&& bytes@ == stream.subrange(positions[i], positions[i] + bytes@.len())
                &&& bytes@.len() == 0 ==> positions[i] == stream.len()
            },
            Err(_) => true,
        }
}

proof fn lemma_buffered_array_state<const N: usize, E>(
    stream: Seq<u8>,
    decodes: Seq<BufferedDecode<ArrayDecoder<N>>>,
    fills: Seq<Result<&[u8], IoError<E>>>,
    steps: Seq<BufferedStep<ArrayDecoder<N>, E>>,
    positions: Seq<int>,
    i: int,
)
    requires
        buffered_array_calls(stream, decodes, fills, steps, positions),
        0 <= i < fills.len(),
    ensures
        0 <= positions[i] <= N,
        positions[i] <= stream.len(),
        decodes[i].decoder().received() == stream.take(positions[i]),
    decreases i,
{
    if i == 0 {
        array_starts_empty(decodes[0].decoder());
        assert(stream.take(0) =~= Seq::empty());
    } else {
        let before = i - 1;
        lemma_buffered_array_state(stream, decodes, fills, steps, positions, before);
        let step = steps[before];
        assert(step.next is Continue);
        assert(decodes[before + 1] == decodes[i]);
        assert(positions[before + 1] == positions[i]);
        if let Ok(bytes) = fills[before] {
            let decoder = decodes[before].decoder();
            let after = decodes[i].decoder();
            let taken = step.consume->0 as int;
            assert(push_step(decoder, bytes@, taken, after, Ok(DecoderStatus::NeedsMore)));
            lemma_array_push(
                stream,
                positions[before],
                decoder,
                bytes@,
                taken,
                after,
                Ok(DecoderStatus::NeedsMore),
            );
        }
    }
}

/// Decoding an array from a buffered reader gives the first bytes of the stream, and marks exactly
/// these as consumed. If the stream is too short it fails, and marks all of it. A fill that fails
/// other than by an interruption is the last one, and its error the result.
///
/// The reader holds `stream`. Its buffer begins where the bytes that are marked as consumed end,
/// and is empty only at the end of the stream.
pub proof fn buffered_reader_gives_the_array<const N: usize, E>(
    stream: Seq<u8>,
    decodes: Seq<BufferedDecode<ArrayDecoder<N>>>,
    fills: Seq<Result<&[u8], IoError<E>>>,
    steps: Seq<BufferedStep<ArrayDecoder<N>, E>>,
    positions: Seq<int>,
    result: ReadResult<ArrayDecoder<N>, E>,
)
    requires
        decodes.len() == fills.len() == steps.len(),
        positions.len() == fills.len() + 1,
        fills.len() > 0,
        positions[0] == 0,
        call_ensures(decode_from_read::<[u8; N]>, (), decodes[0]),
        forall|i: int|
            0 <= i < fills.len() ==> call_ensures(
                BufferedDecode::<ArrayDecoder<N>>::filled::<E>,
                (decodes[i], fills[i]),
                #[trigger] steps[i],
            ),
        forall|i: int|
            0 <= i < fills.len() - 1 ==> (#[trigger] steps[i]).next == Progress::<
                BufferedDecode<ArrayDecoder<N>>,
                ReadResult<ArrayDecoder<N>, E>,
            >::Continue(decodes[i + 1]),
        steps.last().next == Progress::<
            BufferedDecode<ArrayDecoder<N>>,
            ReadResult<ArrayDecoder<N>, E>,
        >::Done(result),
        forall|i: int|
            0 <= i < fills.len() ==> positions[i + 1] == positions[i] + match (
            #[trigger] steps[i]).consume {
                Some(amount) => amount as int,
                None => 0,
            },
        forall|i: int|
            0 <= i < fills.len() ==> match #[trigger] fills[i] {
                Ok(bytes) => {
                    &&& positions[i] + bytes@.len() <= stream.len()
                    &&& bytes@ == stream.subrange(positions[i], positions[i] + bytes@.len())
                    &&& bytes@.len() == 0 ==> positions[i] == stream.len()
                },
                Err(_) => true,
            },
    ensures
        match fills.last() {
            Err(failure) => failure.kind is Other && result == Err::<
                [u8; N],
                ReadError<UnexpectedEofError, E>,
            >(ReadError::Io(failure.error)),
            Ok(_) => if N <= stream.len() {
                &&& result matches Ok(array) && array@ == stream.take(N as int)
                &&& positions.last() == N
            } else {
                &&& result matches Err(ReadError::Decode(_))
                &&& positions.last() == stream.len()
            },
        },
        forall|i: int|
            0 <= i < fills.len() - 1 ==> ((#[trigger] fills[i]) matches Err(failure) ==>
                failure.kind is Interrupted),
{
    assert(buffered_array_calls(stream, decodes, fills, steps, positions));
    let last = fills.len() - 1;
    let step = steps[last];
    let decoder = decodes[last].decoder();
    lemma_buffered_array_state(stream, decodes, fills, steps, positions, last);
    assert(positions[last + 1] == positions.last());
    if let Ok(bytes) = fills[last] {
        if bytes@.len() == 0 {
            lemma_array_finish(stream, positions[last], decoder, result);
        } else {
            let (taken, after, outcome) = choose|
                taken: int,
                after: ArrayDecoder<N>,
                outcome: Result<DecoderStatus, UnexpectedEofError>,
            | #[trigger]
                push_step(decoder, bytes@, taken, after, outcome) && match outcome {
                    Err(error) => step.consume is None && result == Err::<
                        [u8; N],
                        ReadError<UnexpectedEofError, E>,
                    >(ReadError::Decode(error)),
                    Ok(DecoderStatus::NeedsMore) => false,
                    Ok(DecoderStatus::Ready) => step.consumed() == Some(taken) && finishes_read(
                        after,
                        result,
                    ),
                };
            lemma_array_push(stream, positions[last], decoder, bytes@, taken, after, outcome);
            lemma_array_finish(stream, positions[last] + taken, after, result);
        }
    }
    assert forall|i: int| 0 <= i < fills.len() - 1 implies ((#[trigger] fills[i]) matches Err(
        failure,
    ) ==> failure.kind is Interrupted) by {
        assert(steps[i].next is Continue);
    }
}

spec fn unbuffered_array_calls<const N: usize, E>(
    capacity: nat,
    stream: Seq<u8>,
    requests: Seq<ReadRequest<ArrayDecoder<N>>>,
    limits: Seq<usize>,
    reads: Seq<Result<&[u8], IoError<E>>>,
    nexts: Seq<Progress<ReadRequest<ArrayDecoder<N>>, ReadResult<ArrayDecoder<N>, E>>>,
    positions: Seq<int>,
    result: ReadResult<ArrayDecoder<N>, E>,
) -> bool {
    &&& requests.len() == limits.len() == reads.len() == nexts.len()
    &&& positions.len() == reads.len() + 1
    &&& reads.len() > 0
    &&& positions[0] == 0
    &&& requests[0].decoder().received() == Seq::<u8>::empty()
    &&& requests[0].capacity() == capacity
    &&& forall|i: int|
        0 <= i < reads.len() ==> call_ensures(
            ReadRequest::<ArrayDecoder<N>>::limit,
            (&requests[i],),
            #[trigger] limits[i],
        )
    &&& forall|i: int|
        0 <= i < reads.len() ==> call_ensures(
            ReadRequest::<ArrayDecoder<N>>::complete::<E>,
            (requests[i], reads[i]),
            #[trigger] nexts[i],
        )
    &&& forall|i: int|
        0 <= i < reads.len() ==> #[trigger] nexts[i] == if i == reads.len() - 1 {
            Progress::<ReadRequest<ArrayDecoder<N>>, ReadResult<ArrayDecoder<N>, E>>::Done(result)
        } else {
            Progress::Continue(requests[i + 1])
        }
    &&& forall|i: int|
        0 <= i < reads.len() ==> match #[trigger] reads[i] {
            Ok(bytes) => {
                &&& bytes@.len() <= limits[i]
                &&& positions[i] + bytes@.len() <= stream.len()
                &&& bytes@ == stream.subrange(positions[i], positions[i] + bytes@.len())
                &&& bytes@.len() == 0 ==> positions[i] == stream.len()
                &&& positions[i + 1] == positions[i] + bytes@.len()
            },
            Err(_) => positions[i + 1] == positions[i],
        }
}

proof fn lemma_unbuffered_array_state<const N: usize, E>(
    capacity: nat,
    stream: Seq<u8>,
    requests: Seq<ReadRequest<ArrayDecoder<N>>>,
    limits: Seq<usize>,
    reads: Seq<Result<&[u8], IoError<E>>>,
    nexts: Seq<Progress<ReadRequest<ArrayDecoder<N>>, ReadResult<ArrayDecoder<N>, E>>>,
    positions: Seq<int>,
    result: ReadResult<ArrayDecoder<N>, E>,
    i: int,
)
    requires
        unbuffered_array_calls(
            capacity,
            stream,
            requests,
            limits,
            reads,
            nexts,
            positions,
            result,
        ),
        0 <= i < reads.len(),
    ensures
        0 <= positions[i] <= N,
        positions[i] <= stream.len(),
        requests[i].decoder().received() == stream.take(positions[i]),
        requests[i].decoder().limit() == N - positions[i],
        requests[i].capacity() == capacity,
        limits[i] == if N - positions[i] < capacity {
            N - positions[i]
        } else {
            capacity as int
        },
    decreases i,
{
    if i == 0 {
        assert(stream.take(0) =~= Seq::empty());
    } else {
        let before = i - 1;
        lemma_unbuffered_array_state(
            capacity,
            stream,
            requests,
            limits,
            reads,
            nexts,
            positions,
            result,
            before,
        );
        let next = nexts[before];
        assert(next == Progress::<
            ReadRequest<ArrayDecoder<N>>,
            ReadResult<ArrayDecoder<N>, E>,
        >::Continue(requests[i]));
        assert(positions[before + 1] == positions[i]);
        if let Ok(bytes) = reads[before] {
            let decoder = requests[before].decoder();
            let after = requests[i].decoder();
            let taken = choose|taken: int| #[trigger]
                push_step(decoder, bytes@, taken, after, Ok(DecoderStatus::NeedsMore));
            assert(push_step(decoder, bytes@, taken, after, Ok(DecoderStatus::NeedsMore)));
            lemma_array_push(
                stream,
                positions[before],
                decoder,
                bytes@,
                taken,
                after,
                Ok(DecoderStatus::NeedsMore),
            );
        }
    }
    assert(stream.take(positions[i]).len() == positions[i]);
    assert(call_ensures(ReadRequest::<ArrayDecoder<N>>::limit, (&requests[i],), limits[i]));
}

proof fn lemma_unbuffered_array<const N: usize, E>(
    capacity: nat,
    stream: Seq<u8>,
    requests: Seq<ReadRequest<ArrayDecoder<N>>>,
    limits: Seq<usize>,
    reads: Seq<Result<&[u8], IoError<E>>>,
    nexts: Seq<Progress<ReadRequest<ArrayDecoder<N>>, ReadResult<ArrayDecoder<N>, E>>>,
    positions: Seq<int>,
    result: ReadResult<ArrayDecoder<N>, E>,
)
    requires
        unbuffered_array_calls(
            capacity,
            stream,
            requests,
            limits,
            reads,
            nexts,
            positions,
            result,
        ),
    ensures
        forall|i: int|
            0 <= i < reads.len() ==> #[trigger] limits[i] == if N - positions[i] < capacity {
                N - positions[i]
            } else {
                capacity as int
            },
        forall|i: int|
            0 <= i < reads.len() - 1 ==> ((#[trigger] reads[i]) matches Err(failure) ==>
                failure.kind is Interrupted),
        match reads.last() {
            Err(failure) => failure.kind is Other && result == Err::<
                [u8; N],
                ReadError<UnexpectedEofError, E>,
            >(ReadError::Io(failure.error)),
            Ok(_) => if N <= stream.len() {
                &&& result matches Ok(array) && array@ == stream.take(N as int)
                &&& positions.last() == N
            } else {
                &&& result matches Err(ReadError::Decode(_))
                &&& positions.last() == stream.len()
            },
        },
{
    assert forall|i: int| 0 <= i < reads.len() implies #[trigger] limits[i] == if N - positions[i]
        < capacity {
        N - positions[i]
    } else {
        capacity as int
    } by {
        lemma_unbuffered_array_state(
            capacity,
            stream,
            requests,
            limits,
            reads,
            nexts,
            positions,
            result,
            i,
        );
    }
    assert forall|i: int| 0 <= i < reads.len() - 1 implies ((#[trigger] reads[i]) matches Err(
        failure,
    ) ==> failure.kind is Interrupted) by {
        assert(nexts[i] is Continue);
    }
    let last = reads.len() - 1;
    let decoder = requests[last].decoder();
    lemma_unbuffered_array_state(
        capacity,
        stream,
        requests,
        limits,
        reads,
        nexts,
        positions,
        result,
        last,
    );
    assert(positions[last + 1] == positions.last());
    assert(nexts[last] is Done);
    if let Ok(bytes) = reads[last] {
        if bytes@.len() == 0 {
            lemma_array_finish(stream, positions[last], decoder, result);
        } else {
            let (taken, after, outcome) = choose|
                taken: int,
                after: ArrayDecoder<N>,
                outcome: Result<DecoderStatus, UnexpectedEofError>,
            | #[trigger]
                push_step(decoder, bytes@, taken, after, outcome) && match outcome {
                    Err(error) => result == Err::<[u8; N], ReadError<UnexpectedEofError, E>>(
                        ReadError::Decode(error),
                    ),
                    Ok(DecoderStatus::NeedsMore) => after.limit() == 0 && finishes_read(
                        after,
                        result,
                    ),
                    Ok(DecoderStatus::Ready) => finishes_read(after, result),
                };
            lemma_array_push(stream, positions[last], decoder, bytes@, taken, after, outcome);
            assert(stream.take(positions[last] + taken).len() == positions[last] + taken);
            lemma_array_finish(stream, positions[last] + taken, after, result);
        }
    }
}

/// Decoding an array from an unbuffered reader gives the first bytes of the stream, and reads
/// exactly these. If the stream is too short it fails, and reads all of it. A read is for the bytes
/// that are still missing, up to the size of the buffer. A read that fails other than by an
/// interruption is the last one, and its error the result.
///
/// The reader holds `stream`. A read returns bytes from where the one before it stopped, and none
/// only at the end of the stream.
pub proof fn unbuffered_reader_gives_the_array<const N: usize, E, const BUFFER_SIZE: usize>(
    stream: Seq<u8>,
    first: Progress<ReadRequest<ArrayDecoder<N>>, ReadResult<ArrayDecoder<N>, E>>,
    requests: Seq<ReadRequest<ArrayDecoder<N>>>,
    limits: Seq<usize>,
    reads: Seq<Result<&[u8], IoError<E>>>,
    nexts: Seq<Progress<ReadRequest<ArrayDecoder<N>>, ReadResult<ArrayDecoder<N>, E>>>,
    positions: Seq<int>,
    result: ReadResult<ArrayDecoder<N>, E>,
)
    requires
        requests.len() == limits.len() == reads.len() == nexts.len(),
        positions.len() == reads.len() + 1,
        positions[0] == 0,
        call_ensures(decode_from_read_unbuffered_with::<[u8; N], E, BUFFER_SIZE>, (), first),
        first == if reads.len() == 0 {
            Progress::<ReadRequest<ArrayDecoder<N>>, ReadResult<ArrayDecoder<N>, E>>::Done(result)
        } else {
            Progress::Continue(requests[0])
        },
        forall|i: int|
            0 <= i < reads.len() ==> call_ensures(
                ReadRequest::<ArrayDecoder<N>>::limit,
                (&requests[i],),
                #[trigger] limits[i],
            ),
        forall|i: int|
            0 <= i < reads.len() ==> call_ensures(
                ReadRequest::<ArrayDecoder<N>>::complete::<E>,
                (requests[i], reads[i]),
                #[trigger] nexts[i],
            ),
        forall|i: int|
            0 <= i < reads.len() ==> #[trigger] nexts[i] == if i == reads.len() - 1 {
                Progress::<ReadRequest<ArrayDecoder<N>>, ReadResult<ArrayDecoder<N>, E>>::Done(
                    result,
                )
            } else {
                Progress::Continue(requests[i + 1])
            },
        forall|i: int|
            0 <= i < reads.len() ==> match #[trigger] reads[i] {
                Ok(bytes) => {
                    &&& bytes@.len() <= limits[i]
                    &&& positions[i] + bytes@.len() <= stream.len()
                    &&& bytes@ == stream.subrange(positions[i], positions[i] + bytes@.len())
                    &&& bytes@.len() == 0 ==> positions[i] == stream.len()
                    &&& positions[i + 1] == positions[i] + bytes@.len()
                },
                Err(_) => positions[i + 1] == positions[i],
            },
    ensures
        N == 0 <==> reads.len() == 0,
        forall|i: int|
            0 <= i < reads.len() ==> #[trigger] limits[i] == if N - positions[i] < BUFFER_SIZE {
                N - positions[i]
            } else {
                BUFFER_SIZE as int
            },
        forall|i: int|
            0 <= i < reads.len() - 1 ==> ((#[trigger] reads[i]) matches Err(failure) ==>
                failure.kind is Interrupted),
        if reads.len() > 0 && reads.last() is Err {
            &&& reads.last()->Err_0.kind is Other
            &&& result == Err::<[u8; N], ReadError<UnexpectedEofError, E>>(
                ReadError::Io(reads.last()->Err_0.error),
            )
        } else if N <= stream.len() {
            &&& result matches Ok(array) && array@ == stream.take(N as int)
            &&& positions.last() == N
        } else {
            &&& result matches Err(ReadError::Decode(_))
            &&& positions.last() == stream.len()
        },
{
    let start = choose|start: ArrayDecoder<N>|
        starts::<[u8; N]>(start) && #[trigger] unbuffered_turn(start, unbuffered_view(first));
    array_starts_empty(start);
    assert(stream.take(0) =~= Seq::empty());
    if reads.len() == 0 {
        lemma_array_finish(stream, 0, start, result);
    } else {
        lemma_unbuffered_array(
            BUFFER_SIZE as nat,
            stream,
            requests,
            limits,
            reads,
            nexts,
            positions,
            result,
        );
    }
}

/// With the default buffer, decoding an array from an unbuffered reader does the same as with one
/// of 4096 bytes.
pub proof fn default_unbuffered_reader_gives_the_array<const N: usize, E>(
    stream: Seq<u8>,
    first: Progress<ReadRequest<ArrayDecoder<N>>, ReadResult<ArrayDecoder<N>, E>>,
    requests: Seq<ReadRequest<ArrayDecoder<N>>>,
    limits: Seq<usize>,
    reads: Seq<Result<&[u8], IoError<E>>>,
    nexts: Seq<Progress<ReadRequest<ArrayDecoder<N>>, ReadResult<ArrayDecoder<N>, E>>>,
    positions: Seq<int>,
    result: ReadResult<ArrayDecoder<N>, E>,
)
    requires
        requests.len() == limits.len() == reads.len() == nexts.len(),
        positions.len() == reads.len() + 1,
        positions[0] == 0,
        call_ensures(decode_from_read_unbuffered::<[u8; N], E>, (), first),
        first == if reads.len() == 0 {
            Progress::<ReadRequest<ArrayDecoder<N>>, ReadResult<ArrayDecoder<N>, E>>::Done(result)
        } else {
            Progress::Continue(requests[0])
        },
        forall|i: int|
            0 <= i < reads.len() ==> call_ensures(
                ReadRequest::<ArrayDecoder<N>>::limit,
                (&requests[i],),
                #[trigger] limits[i],
            ),
        forall|i: int|
            0 <= i < reads.len() ==> call_ensures(
                ReadRequest::<ArrayDecoder<N>>::complete::<E>,
                (requests[i], reads[i]),
                #[trigger] nexts[i],
            ),
        forall|i: int|
            0 <= i < reads.len() ==> #[trigger] nexts[i] == if i == reads.len() - 1 {
                Progress::<ReadRequest<ArrayDecoder<N>>, ReadResult<ArrayDecoder<N>, E>>::Done(
                    result,
                )
            } else {
                Progress::Continue(requests[i + 1])
            },
        forall|i: int|
            0 <= i < reads.len() ==> match #[trigger] reads[i] {
                Ok(bytes) => {
                    &&& bytes@.len() <= limits[i]
                    &&& positions[i] + bytes@.len() <= stream.len()
                    &&& bytes@ == stream.subrange(positions[i], positions[i] + bytes@.len())
                    &&& bytes@.len() == 0 ==> positions[i] == stream.len()
                    &&& positions[i + 1] == positions[i] + bytes@.len()
                },
                Err(_) => positions[i + 1] == positions[i],
            },
    ensures
        N == 0 <==> reads.len() == 0,
        forall|i: int|
            0 <= i < reads.len() ==> #[trigger] limits[i] == if N - positions[i] < 4096 {
                N - positions[i]
            } else {
                4096
            },
        forall|i: int|
            0 <= i < reads.len() - 1 ==> ((#[trigger] reads[i]) matches Err(failure) ==>
                failure.kind is Interrupted),
        if reads.len() > 0 && reads.last() is Err {
            &&& reads.last()->Err_0.kind is Other
            &&& result == Err::<[u8; N], ReadError<UnexpectedEofError, E>>(
                ReadError::Io(reads.last()->Err_0.error),
            )
        } else if N <= stream.len() {
            &&& result matches Ok(array) && array@ == stream.take(N as int)
            &&& positions.last() == N
        } else {
            &&& result matches Err(ReadError::Decode(_))
            &&& positions.last() == stream.len()
        },
{
    let start = choose|start: ArrayDecoder<N>|
        starts::<[u8; N]>(start) && #[trigger] unbuffered_turn(start, unbuffered_view(first));
    array_starts_empty(start);
    assert(stream.take(0) =~= Seq::empty());
    if reads.len() == 0 {
        lemma_array_finish(stream, 0, start, result);
    } else {
        lemma_unbuffered_array(
            4096,
            stream,
            requests,
            limits,
            reads,
            nexts,
            positions,
            result,
        );
    }
}

} // verus!
