//! A decoding from a reader gives what a call that decodes the same bytes from a slice gives.
//!
//! A decoding is the calls that make it up, in turn: each takes what the one before it returned.
use crate::async_read::{
    async_step, async_turn, async_view, decode_from_async_read_with_buffer, AsyncReadRequest,
};
use crate::buffered::{buffered_step, decode_from_read, BufferedDecode, BufferedStep};
use crate::decode::{starts, Decode, Decoder};
use crate::error::{AsyncReadError, IoError, ReadError};
use crate::laws::async_read::{
    as_read_result, async_chunks_of, async_decode, async_decode_decodes_stream, async_reads_from,
    async_run, AsyncRead,
};
use crate::laws::buffered::{amount, buffered_run, buffered_run_decodes_stream};
use crate::laws::chunks::streaming;
use crate::laws::slices::decides_as;
use crate::laws::streams::{
    all_if_ok, chunks_of, explains_stream, knows_the_end, reads_from,
};
use crate::laws::unbuffered::{
    unbuffered_decode, unbuffered_decode_decodes_stream, unbuffered_run,
};
use crate::progress::{read_view, AsyncReadResult, Progress, ReadResult};
use crate::slice::{decode_from_slice_unbounded, decodes, decodes_as};
use crate::unbuffered::{
    decode_from_read_unbuffered_with, read_size, unbuffered_step, unbuffered_turn, unbuffered_view,
    ReadRequest,
};
use vstd::prelude::*;

verus! {

/// What reads returned, with the bytes as sequences.
pub open spec fn read_views<E>(reads: Seq<Result<&[u8], IoError<E>>>) -> Seq<
    Result<Seq<u8>, IoError<E>>,
> {
    Seq::new(reads.len(), |i: int| read_view(reads[i]))
}

/// A result of a read driver is the one that decoding from a slice gives, and `consumed` bytes were
/// taken by a decoding that succeeds.
proof fn lemma_explained_by_slice<T: Decode, E>(
    start: T::Decoder,
    stream: Seq<u8>,
    consumed: int,
    result: ReadResult<T::Decoder, E>,
    taken: int,
    parsed: Result<T, <T::Decoder as Decoder>::Error>,
)
    requires
        starts::<T>(start),
        decides_as::<T>(stream),
        explains_stream(start, stream, consumed, result),
        decodes_as::<T>(stream, taken, parsed),
    ensures
        match result {
            Ok(value) => parsed == Ok::<T, <T::Decoder as Decoder>::Error>(value) && consumed
                == taken,
            Err(ReadError::Decode(error)) => parsed == Err::<T, <T::Decoder as Decoder>::Error>(
                error,
            ),
            Err(ReadError::Io(_)) => true,
        },
{
    match result {
        Ok(value) => {
            assert(decodes_as::<T>(stream, consumed, Ok(value)));
        },
        Err(ReadError::Decode(error)) => {
            let used = choose|used: int|
                consumed <= used && #[trigger] decodes(start, stream, used, Err(error));
            assert(decodes_as::<T>(stream, used, Err(error)));
        },
        Err(ReadError::Io(_)) => {},
    }
}

spec fn buffered_calls<D: Decoder, E>(
    decodes: Seq<BufferedDecode<D>>,
    fills: Seq<Result<&[u8], IoError<E>>>,
    steps: Seq<BufferedStep<D, E>>,
    positions: Seq<int>,
    result: ReadResult<D, E>,
) -> bool {
    &&& decodes.len() == fills.len() == steps.len()
    &&& positions.len() == fills.len() + 1
    &&& forall|i: int|
        0 <= i < fills.len() ==> call_ensures(
            BufferedDecode::<D>::filled::<E>,
            (decodes[i], fills[i]),
            #[trigger] steps[i],
        )
    &&& forall|i: int|
        0 <= i < fills.len() ==> (#[trigger] steps[i]).next == if i == fills.len() - 1 {
            Progress::<BufferedDecode<D>, ReadResult<D, E>>::Done(result)
        } else {
            Progress::Continue(decodes[i + 1])
        }
    &&& forall|i: int|
        0 <= i < fills.len() ==> positions[i + 1] == positions[i] + match (
        #[trigger] steps[i]).consume {
            Some(amount) => amount as int,
            None => 0,
        }
}

proof fn lemma_buffered_calls_run<D: Decoder, E>(
    decodes: Seq<BufferedDecode<D>>,
    fills: Seq<Result<&[u8], IoError<E>>>,
    steps: Seq<BufferedStep<D, E>>,
    positions: Seq<int>,
    result: ReadResult<D, E>,
    i: int,
)
    requires
        buffered_calls(decodes, fills, steps, positions, result),
        0 <= i < fills.len(),
    ensures
        buffered_run(
            decodes[i].decoder(),
            read_views(fills).skip(i),
            positions.last() - positions[i],
            result,
        ),
    decreases fills.len() - i,
{
    let views = read_views(fills).skip(i);
    let step = steps[i];
    assert(views[0] == read_view(fills[i]));
    assert(buffered_step(decodes[i].decoder(), views[0], step.consumed(), step.follows()));
    assert(amount(step.consumed()) == positions[i + 1] - positions[i]);
    if i < fills.len() - 1 {
        lemma_buffered_calls_run(decodes, fills, steps, positions, result, i + 1);
        assert(views.drop_first() =~= read_views(fills).skip(i + 1));
    } else {
        assert(positions[i + 1] == positions.last());
    }
}

/// Decoding from a buffered reader gives what decoding its stream from a slice gives, unless
/// reading fails, and marks as many bytes as consumed as that takes from the slice.
///
/// This holds of a decoder made for streams that knows where an object ends, where decoding the
/// stream has only one result.
pub proof fn buffered_reader_agrees_with_slice<T: Decode, E>(
    stream: Seq<u8>,
    decodes: Seq<BufferedDecode<T::Decoder>>,
    fills: Seq<Result<&[u8], IoError<E>>>,
    steps: Seq<BufferedStep<T::Decoder, E>>,
    positions: Seq<int>,
    result: ReadResult<T::Decoder, E>,
    bytes: &mut &[u8],
    parsed: Result<T, <T::Decoder as Decoder>::Error>,
)
    requires
        streaming::<T::Decoder>(),
        knows_the_end::<T::Decoder>(),
        decides_as::<T>(stream),
        decodes.len() == fills.len() == steps.len(),
        positions.len() == fills.len() + 1,
        fills.len() > 0,
        positions[0] == 0,
        reads_from(read_views(fills), stream),
        call_ensures(decode_from_read::<T>, (), decodes[0]),
        forall|i: int|
            0 <= i < fills.len() ==> call_ensures(
                BufferedDecode::<T::Decoder>::filled::<E>,
                (decodes[i], fills[i]),
                #[trigger] steps[i],
            ),
        forall|i: int|
            0 <= i < fills.len() ==> (#[trigger] steps[i]).next == if i == fills.len() - 1 {
                Progress::<BufferedDecode<T::Decoder>, ReadResult<T::Decoder, E>>::Done(result)
            } else {
                Progress::Continue(decodes[i + 1])
            },
        forall|i: int|
            0 <= i < fills.len() ==> positions[i + 1] == positions[i] + match (
            #[trigger] steps[i]).consume {
                Some(amount) => amount as int,
                None => 0,
            },
        old(bytes)@ == stream,
        call_ensures(decode_from_slice_unbounded::<T>, (bytes,), parsed),
    ensures
        match result {
            Ok(value) => parsed == Ok::<T, <T::Decoder as Decoder>::Error>(value) && final(bytes)@
                == stream.skip(positions.last()),
            Err(ReadError::Decode(error)) => parsed == Err::<T, <T::Decoder as Decoder>::Error>(
                error,
            ),
            Err(ReadError::Io(_)) => true,
        },
{
    let views = read_views(fills);
    let start = decodes[0].decoder();
    assert(buffered_calls(decodes, fills, steps, positions, result));
    lemma_buffered_calls_run(decodes, fills, steps, positions, result, 0);
    assert(views.skip(0) =~= views);
    buffered_run_decodes_stream(start, stream, views, positions.last(), result);
    lemma_explained_by_slice::<T, E>(
        start,
        stream,
        positions.last(),
        result,
        stream.len() - final(bytes)@.len(),
        parsed,
    );
}

spec fn unbuffered_calls<D: Decoder, E>(
    capacity: nat,
    requests: Seq<ReadRequest<D>>,
    reads: Seq<Result<&[u8], IoError<E>>>,
    nexts: Seq<Progress<ReadRequest<D>, ReadResult<D, E>>>,
    result: ReadResult<D, E>,
) -> bool {
    &&& requests.len() == reads.len() == nexts.len()
    &&& forall|i: int|
        0 <= i < reads.len() ==> {
            &&& (#[trigger] requests[i]).capacity() == capacity
            &&& reads[i] matches Ok(bytes) ==> bytes@.len() <= read_size(
                requests[i].decoder(),
                capacity,
            )
        }
    &&& forall|i: int|
        0 <= i < reads.len() ==> call_ensures(
            ReadRequest::<D>::complete::<E>,
            (requests[i], reads[i]),
            #[trigger] nexts[i],
        )
    &&& forall|i: int|
        0 <= i < reads.len() ==> #[trigger] nexts[i] == if i == reads.len() - 1 {
            Progress::<ReadRequest<D>, ReadResult<D, E>>::Done(result)
        } else {
            Progress::Continue(requests[i + 1])
        }
}

proof fn lemma_capacity_is_kept<D: Decoder, E>(
    requests: Seq<ReadRequest<D>>,
    reads: Seq<Result<&[u8], IoError<E>>>,
    nexts: Seq<Progress<ReadRequest<D>, ReadResult<D, E>>>,
    i: int,
)
    requires
        requests.len() == reads.len() == nexts.len(),
        forall|i: int|
            0 <= i < reads.len() ==> call_ensures(
                ReadRequest::<D>::complete::<E>,
                (requests[i], reads[i]),
                #[trigger] nexts[i],
            ),
        forall|i: int|
            0 <= i < reads.len() - 1 ==> #[trigger] nexts[i] == Progress::<
                ReadRequest<D>,
                ReadResult<D, E>,
            >::Continue(requests[i + 1]),
        0 <= i < reads.len(),
    ensures
        requests[i].capacity() == requests[0].capacity(),
    decreases i,
{
    if i > 0 {
        lemma_capacity_is_kept(requests, reads, nexts, i - 1);
        assert(nexts[i - 1] == Progress::<ReadRequest<D>, ReadResult<D, E>>::Continue(requests[i]));
    }
}

proof fn lemma_unbuffered_calls_run<D: Decoder, E>(
    capacity: nat,
    requests: Seq<ReadRequest<D>>,
    reads: Seq<Result<&[u8], IoError<E>>>,
    nexts: Seq<Progress<ReadRequest<D>, ReadResult<D, E>>>,
    result: ReadResult<D, E>,
    i: int,
)
    requires
        unbuffered_calls(capacity, requests, reads, nexts, result),
        0 <= i < reads.len(),
    ensures
        unbuffered_run(requests[i].decoder(), capacity, read_views(reads).skip(i), result),
    decreases reads.len() - i,
{
    let views = read_views(reads).skip(i);
    assert(views[0] == read_view(reads[i]));
    assert(unbuffered_step(requests[i].decoder(), views[0], unbuffered_view(nexts[i])));
    if i < reads.len() - 1 {
        lemma_unbuffered_calls_run(capacity, requests, reads, nexts, result, i + 1);
        assert(views.drop_first() =~= read_views(reads).skip(i + 1));
    }
}

/// Decoding from an unbuffered reader gives what decoding its stream from a slice gives, unless
/// reading fails, and reads as many bytes as that takes from the slice.
///
/// This holds of a decoder made for streams that knows where an object ends, where decoding the
/// stream has only one result.
pub proof fn unbuffered_reader_agrees_with_slice<T: Decode, E, const BUFFER_SIZE: usize>(
    stream: Seq<u8>,
    first: Progress<ReadRequest<T::Decoder>, ReadResult<T::Decoder, E>>,
    requests: Seq<ReadRequest<T::Decoder>>,
    limits: Seq<usize>,
    reads: Seq<Result<&[u8], IoError<E>>>,
    nexts: Seq<Progress<ReadRequest<T::Decoder>, ReadResult<T::Decoder, E>>>,
    result: ReadResult<T::Decoder, E>,
    bytes: &mut &[u8],
    parsed: Result<T, <T::Decoder as Decoder>::Error>,
)
    requires
        streaming::<T::Decoder>(),
        knows_the_end::<T::Decoder>(),
        forall|start: T::Decoder| #[trigger]
            call_ensures(T::decoder, (), start) ==> start.usable(),
        decides_as::<T>(stream),
        requests.len() == limits.len() == reads.len() == nexts.len(),
        reads_from(read_views(reads), stream),
        call_ensures(decode_from_read_unbuffered_with::<T, E, BUFFER_SIZE>, (), first),
        first == if reads.len() == 0 {
            Progress::<ReadRequest<T::Decoder>, ReadResult<T::Decoder, E>>::Done(result)
        } else {
            Progress::Continue(requests[0])
        },
        forall|i: int|
            0 <= i < reads.len() ==> call_ensures(
                ReadRequest::<T::Decoder>::limit,
                (&requests[i],),
                #[trigger] limits[i],
            ),
        forall|i: int|
            0 <= i < reads.len() ==> (#[trigger] reads[i] matches Ok(bytes) ==> bytes@.len()
                <= limits[i]),
        forall|i: int|
            0 <= i < reads.len() ==> call_ensures(
                ReadRequest::<T::Decoder>::complete::<E>,
                (requests[i], reads[i]),
                #[trigger] nexts[i],
            ),
        forall|i: int|
            0 <= i < reads.len() ==> #[trigger] nexts[i] == if i == reads.len() - 1 {
                Progress::<ReadRequest<T::Decoder>, ReadResult<T::Decoder, E>>::Done(result)
            } else {
                Progress::Continue(requests[i + 1])
            },
        old(bytes)@ == stream,
        call_ensures(decode_from_slice_unbounded::<T>, (bytes,), parsed),
    ensures
        match result {
            Ok(value) => parsed == Ok::<T, <T::Decoder as Decoder>::Error>(value) && final(bytes)@
                == stream.skip(chunks_of(read_views(reads)).flatten().len() as int),
            Err(ReadError::Decode(error)) => parsed == Err::<T, <T::Decoder as Decoder>::Error>(
                error,
            ),
            Err(ReadError::Io(_)) => true,
        },
{
    let views = read_views(reads);
    let capacity = BUFFER_SIZE as nat;
    let start = choose|start: T::Decoder|
        starts::<T>(start) && #[trigger] unbuffered_turn(start, unbuffered_view(first));
    if reads.len() > 0 {
        assert forall|i: int| 0 <= i < reads.len() implies {
            &&& (#[trigger] requests[i]).capacity() == capacity
            &&& reads[i] matches Ok(bytes) ==> bytes@.len() <= read_size(
                requests[i].decoder(),
                capacity,
            )
        } by {
            lemma_capacity_is_kept(requests, reads, nexts, i);
            assert(call_ensures(
                ReadRequest::<T::Decoder>::limit,
                (&requests[i],),
                limits[i],
            ));
            assert(reads[i] matches Ok(bytes) ==> bytes@.len() <= limits[i]);
        }
        lemma_unbuffered_calls_run(capacity, requests, reads, nexts, result, 0);
        assert(views.skip(0) =~= views);
    }
    assert(call_ensures(T::decoder, (), start));
    assert(unbuffered_decode(start, capacity, views, result));
    unbuffered_decode_decodes_stream(start, stream, capacity, views, result);
    lemma_explained_by_slice::<T, E>(
        start,
        stream,
        all_if_ok(chunks_of(views), result),
        result,
        stream.len() - final(bytes)@.len(),
        parsed,
    );
}

/// What asynchronous reads were lent and returned, with the buffers as sequences.
pub open spec fn async_read_views<E>(
    limits: Seq<usize>,
    reads: Seq<Result<usize, E>>,
    buffers: Seq<&[u8]>,
) -> Seq<AsyncRead<E>> {
    Seq::new(
        reads.len(),
        |i: int|
            AsyncRead { lent: limits[i] as nat, read: reads[i], buffer: buffers[i]@ },
    )
}

spec fn async_calls<D: Decoder, E>(
    capacity: nat,
    requests: Seq<AsyncReadRequest<D>>,
    limits: Seq<usize>,
    reads: Seq<Result<usize, E>>,
    buffers: Seq<&[u8]>,
    nexts: Seq<Progress<AsyncReadRequest<D>, AsyncReadResult<D, E>>>,
    result: AsyncReadResult<D, E>,
) -> bool {
    &&& requests.len() == limits.len() == reads.len() == buffers.len() == nexts.len()
    &&& forall|i: int|
        0 <= i < reads.len() ==> {
            &&& (#[trigger] requests[i]).capacity() == capacity
            &&& limits[i] == read_size(requests[i].decoder(), capacity)
            &&& limits[i] <= buffers[i]@.len()
        }
    &&& forall|i: int|
        0 <= i < reads.len() ==> call_ensures(
            AsyncReadRequest::<D>::complete::<E>,
            (requests[i], reads[i], buffers[i]),
            #[trigger] nexts[i],
        )
    &&& forall|i: int|
        0 <= i < reads.len() ==> #[trigger] nexts[i] == if i == reads.len() - 1 {
            Progress::<AsyncReadRequest<D>, AsyncReadResult<D, E>>::Done(result)
        } else {
            Progress::Continue(requests[i + 1])
        }
}

proof fn lemma_async_capacity_is_kept<D: Decoder, E>(
    requests: Seq<AsyncReadRequest<D>>,
    reads: Seq<Result<usize, E>>,
    buffers: Seq<&[u8]>,
    nexts: Seq<Progress<AsyncReadRequest<D>, AsyncReadResult<D, E>>>,
    i: int,
)
    requires
        requests.len() == reads.len() == buffers.len() == nexts.len(),
        forall|i: int|
            0 <= i < reads.len() ==> call_ensures(
                AsyncReadRequest::<D>::complete::<E>,
                (requests[i], reads[i], buffers[i]),
                #[trigger] nexts[i],
            ),
        forall|i: int|
            0 <= i < reads.len() - 1 ==> #[trigger] nexts[i] == Progress::<
                AsyncReadRequest<D>,
                AsyncReadResult<D, E>,
            >::Continue(requests[i + 1]),
        0 <= i < reads.len(),
    ensures
        requests[i].capacity() == requests[0].capacity(),
    decreases i,
{
    if i > 0 {
        lemma_async_capacity_is_kept(requests, reads, buffers, nexts, i - 1);
        assert(nexts[i - 1] == Progress::<
            AsyncReadRequest<D>,
            AsyncReadResult<D, E>,
        >::Continue(requests[i]));
    }
}

proof fn lemma_async_calls_run<D: Decoder, E>(
    capacity: nat,
    requests: Seq<AsyncReadRequest<D>>,
    limits: Seq<usize>,
    reads: Seq<Result<usize, E>>,
    buffers: Seq<&[u8]>,
    nexts: Seq<Progress<AsyncReadRequest<D>, AsyncReadResult<D, E>>>,
    result: AsyncReadResult<D, E>,
    i: int,
)
    requires
        async_calls(capacity, requests, limits, reads, buffers, nexts, result),
        0 <= i < reads.len(),
    ensures
        async_run(
            requests[i].decoder(),
            capacity,
            async_read_views(limits, reads, buffers).skip(i),
            result,
        ),
    decreases reads.len() - i,
{
    let views = async_read_views(limits, reads, buffers).skip(i);
    assert(views[0] == AsyncRead {
        lent: limits[i] as nat,
        read: reads[i],
        buffer: buffers[i]@,
    });
    assert(requests[i].capacity() == capacity);
    assert(async_step(
        requests[i].decoder(),
        capacity,
        views[0].read,
        views[0].buffer,
        async_view(nexts[i]),
    ));
    if i < reads.len() - 1 {
        lemma_async_calls_run(
            capacity,
            requests,
            limits,
            reads,
            buffers,
            nexts,
            result,
            i + 1,
        );
        assert(views.drop_first() =~= async_read_views(limits, reads, buffers).skip(i + 1));
    }
}

/// Decoding from an asynchronous reader, through a buffer that is not empty, gives what decoding
/// its stream from a slice gives, unless reading fails, and reads as many bytes as that takes from
/// the slice.
///
/// This holds of a decoder made for streams that knows where an object ends, where decoding the
/// stream has only one result.
pub proof fn async_reader_agrees_with_slice<T: Decode, E>(
    stream: Seq<u8>,
    buffer_len: usize,
    first: Progress<AsyncReadRequest<T::Decoder>, AsyncReadResult<T::Decoder, E>>,
    requests: Seq<AsyncReadRequest<T::Decoder>>,
    limits: Seq<usize>,
    reads: Seq<Result<usize, E>>,
    buffers: Seq<&[u8]>,
    nexts: Seq<Progress<AsyncReadRequest<T::Decoder>, AsyncReadResult<T::Decoder, E>>>,
    result: AsyncReadResult<T::Decoder, E>,
    bytes: &mut &[u8],
    parsed: Result<T, <T::Decoder as Decoder>::Error>,
)
    requires
        streaming::<T::Decoder>(),
        knows_the_end::<T::Decoder>(),
        forall|start: T::Decoder| #[trigger]
            call_ensures(T::decoder, (), start) ==> start.usable(),
        decides_as::<T>(stream),
        buffer_len > 0,
        requests.len() == limits.len() == reads.len() == buffers.len() == nexts.len(),
        async_reads_from(async_read_views(limits, reads, buffers), stream),
        call_ensures(decode_from_async_read_with_buffer::<T, E>, (buffer_len,), first),
        first == if reads.len() == 0 {
            Progress::<AsyncReadRequest<T::Decoder>, AsyncReadResult<T::Decoder, E>>::Done(result)
        } else {
            Progress::Continue(requests[0])
        },
        forall|i: int|
            0 <= i < reads.len() ==> call_ensures(
                AsyncReadRequest::<T::Decoder>::limit,
                (&requests[i],),
                #[trigger] limits[i],
            ),
        forall|i: int| 0 <= i < reads.len() ==> limits[i] <= (#[trigger] buffers[i])@.len(),
        forall|i: int|
            0 <= i < reads.len() ==> call_ensures(
                AsyncReadRequest::<T::Decoder>::complete::<E>,
                (requests[i], reads[i], buffers[i]),
                #[trigger] nexts[i],
            ),
        forall|i: int|
            0 <= i < reads.len() ==> #[trigger] nexts[i] == if i == reads.len() - 1 {
                Progress::<AsyncReadRequest<T::Decoder>, AsyncReadResult<T::Decoder, E>>::Done(
                    result,
                )
            } else {
                Progress::Continue(requests[i + 1])
            },
        old(bytes)@ == stream,
        call_ensures(decode_from_slice_unbounded::<T>, (bytes,), parsed),
    ensures
        match result {
            Ok(value) => parsed == Ok::<T, <T::Decoder as Decoder>::Error>(value) && final(bytes)@
                == stream.skip(
                async_chunks_of(async_read_views(limits, reads, buffers)).flatten().len() as int,
            ),
            Err(AsyncReadError::Decode(error)) => parsed == Err::<
                T,
                <T::Decoder as Decoder>::Error,
            >(error),
            Err(_) => true,
        },
{
    let views = async_read_views(limits, reads, buffers);
    let capacity = buffer_len as nat;
    let start = choose|start: T::Decoder|
        starts::<T>(start) && #[trigger] async_turn(start, capacity, async_view(first));
    if reads.len() > 0 {
        assert forall|i: int| 0 <= i < reads.len() implies {
            &&& (#[trigger] requests[i]).capacity() == capacity
            &&& limits[i] == read_size(requests[i].decoder(), capacity)
            &&& limits[i] <= buffers[i]@.len()
        } by {
            lemma_async_capacity_is_kept(requests, reads, buffers, nexts, i);
            assert(call_ensures(
                AsyncReadRequest::<T::Decoder>::limit,
                (&requests[i],),
                limits[i],
            ));
        }
        lemma_async_calls_run(capacity, requests, limits, reads, buffers, nexts, result, 0);
        assert(views.skip(0) =~= views);
    }
    assert(call_ensures(T::decoder, (), start));
    assert(async_decode(start, capacity, views, result));
    async_decode_decodes_stream(start, stream, capacity, views, result);
    lemma_explained_by_slice::<T, Option<E>>(
        start,
        stream,
        all_if_ok(async_chunks_of(views), result),
        as_read_result::<T::Decoder, E>(result),
        stream.len() - final(bytes)@.len(),
        parsed,
    );
}

} // verus!
