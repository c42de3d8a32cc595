//! What the steps of decoding from an asynchronous reader amount to.
use crate::async_read::{async_start, async_step, async_turn, async_view, AsyncReadRequest};
use crate::decode::{push_step, starts, Decode, Decoder, DecoderStatus};
use crate::error::{AsyncReadError, ReadError};
use crate::laws::chunks::{asks_until_ready, no_empty_chunk, streaming};
use crate::laws::decoder::{fails_unless_ready, insufficient_chunks_fail};
use crate::laws::streams::{
    all_if_ok, explains, explains_stream, knows_the_end, lemma_explains_end, lemma_explains_last,
    lemma_explains_more, lemma_explains_stream, lemma_ready_explains_stream,
};
use crate::progress::{finishes_async_read, AsyncReadResult, Progress, ReadResult};
use crate::unbuffered::read_size;
use vstd::prelude::*;

verus! {

/// An asynchronous read that was lent the first `lent` bytes of a buffer: what it returned, and the
/// buffer after it.
pub struct AsyncRead<E> {
    pub lent: nat,
    pub read: Result<usize, E>,
    pub buffer: Seq<u8>,
}

/// The bytes that asynchronous reads returned, as the chunks in which they arrived.
pub open spec fn async_chunks_of<E>(reads: Seq<AsyncRead<E>>) -> Seq<Seq<u8>>
    decreases reads.len(),
{
    if reads.len() == 0 {
        Seq::empty()
    } else {
        let rest = async_chunks_of(reads.drop_first());
        match reads[0].read {
            Ok(count) => if 0 < count <= reads[0].lent <= reads[0].buffer.len() {
                seq![reads[0].buffer.take(count as int)] + rest
            } else {
                rest
            },
            Err(_) => rest,
        }
    }
}

/// The last asynchronous read found the end of the input.
pub open spec fn async_at_end<E>(reads: Seq<AsyncRead<E>>) -> bool {
    reads.len() > 0 && reads.last().read == Ok::<usize, E>(0)
}

/// Asynchronous reads returned the bytes of `stream` from its front on, and did not find the end of
/// the input before its end.
pub open spec fn async_reads_from<E>(reads: Seq<AsyncRead<E>>, stream: Seq<u8>) -> bool {
    &&& async_chunks_of(reads).flatten().is_prefix_of(stream)
    &&& async_at_end(reads) ==> async_chunks_of(reads).flatten() == stream
}

/// An asynchronous read that fails is the last one, and `result` is its error. One that returns
/// more bytes than it was lent is the last one too, and `result` says so.
pub open spec fn async_failure_is_last<D: Decoder, E>(
    reads: Seq<AsyncRead<E>>,
    result: AsyncReadResult<D, E>,
) -> bool {
    forall|i: int|
        0 <= i < reads.len() ==> match (#[trigger] reads[i]).read {
            Err(error) => i == reads.len() - 1 && result == Err::<
                D::Output,
                AsyncReadError<D::Error, E>,
            >(AsyncReadError::Read(error)),
            Ok(count) => reads[i].lent < count ==> i == reads.len() - 1 && result == Err::<
                D::Output,
                AsyncReadError<D::Error, E>,
            >(AsyncReadError::ReadTooManyBytes),
        }
}

proof fn lemma_async_failure_is_last<D: Decoder, E>(
    reads: Seq<AsyncRead<E>>,
    result: AsyncReadResult<D, E>,
)
    requires
        reads.len() > 0,
        reads[0].read matches Ok(count) && count <= reads[0].lent,
        async_failure_is_last::<D, E>(reads.drop_first(), result),
    ensures
        async_failure_is_last::<D, E>(reads, result),
{
    assert forall|i: int| 0 <= i < reads.len() implies match (#[trigger] reads[i]).read {
        Err(error) => i == reads.len() - 1 && result == Err::<
            D::Output,
            AsyncReadError<D::Error, E>,
        >(AsyncReadError::Read(error)),
        Ok(count) => reads[i].lent < count ==> i == reads.len() - 1 && result == Err::<
            D::Output,
            AsyncReadError<D::Error, E>,
        >(AsyncReadError::ReadTooManyBytes),
    } by {
        if i > 0 {
            assert(reads[i] == reads.drop_first()[i - 1]);
        }
    }
}

/// When the reads return `reads` in turn, each lent as many bytes as there are to read, decoding
/// with `decoder` and a buffer of `capacity` bytes can give `result` after the last of them.
pub open spec fn async_run<D: Decoder, E>(
    decoder: D,
    capacity: nat,
    reads: Seq<AsyncRead<E>>,
    result: AsyncReadResult<D, E>,
) -> bool
    decreases reads.len(),
{
    &&& reads.len() > 0
    &&& reads[0].lent == read_size(decoder, capacity)
    &&& reads[0].buffer.len() >= reads[0].lent
    &&& exists|next: Progress<D, AsyncReadResult<D, E>>| #[trigger]
        async_step(decoder, capacity, reads[0].read, reads[0].buffer, next) && match next {
            Progress::Continue(after) => async_run(after, capacity, reads.drop_first(), result),
            Progress::Done(given) => reads.len() == 1 && given == result,
        }
}

/// Decoding from an asynchronous reader whose reads return `reads` in turn, beginning with the
/// decision whether to read at all, can give `result`.
pub open spec fn async_decode<D: Decoder, E>(
    decoder: D,
    capacity: nat,
    reads: Seq<AsyncRead<E>>,
    result: AsyncReadResult<D, E>,
) -> bool {
    if read_size(decoder, capacity) > 0 {
        async_run(decoder, capacity, reads, result)
    } else {
        reads.len() == 0 && finishes_async_read(decoder, result)
    }
}

/// The result of an asynchronous read driver as one of a read driver whose I/O errors are those of
/// the reads and, without a value, that of reading too many bytes.
pub open spec fn as_read_result<D: Decoder, E>(result: AsyncReadResult<D, E>) -> ReadResult<
    D,
    Option<E>,
> {
    match result {
        Ok(value) => Ok(value),
        Err(AsyncReadError::Decode(error)) => Err(ReadError::Decode(error)),
        Err(AsyncReadError::Read(error)) => Err(ReadError::Io(Some(error))),
        Err(AsyncReadError::ReadTooManyBytes) => Err(ReadError::Io(None)),
    }
}

/// How decoding goes on after a turn is an asynchronous decoding of its own.
proof fn lemma_async_turn_goes_on<D: Decoder, E>(
    decoder: D,
    capacity: nat,
    next: Progress<D, AsyncReadResult<D, E>>,
    reads: Seq<AsyncRead<E>>,
    result: AsyncReadResult<D, E>,
)
    requires
        async_turn(decoder, capacity, next),
        match next {
            Progress::Continue(after) => async_run(after, capacity, reads, result),
            Progress::Done(given) => reads.len() == 0 && given == result,
        },
    ensures
        async_decode(decoder, capacity, reads, result),
{
}

/// The chunks that asynchronous reads arrive in are not empty.
pub proof fn async_chunks_are_not_empty<E>(reads: Seq<AsyncRead<E>>)
    ensures
        no_empty_chunk(async_chunks_of(reads)),
    decreases reads.len(),
{
    if reads.len() > 0 {
        async_chunks_are_not_empty(reads.drop_first());
    }
}

/// An asynchronous reader is not read further than the decoder needs: when decoding succeeds, the
/// decoder has taken every byte that was read. The result is that of decoding the chunks that
/// were read. It is a read error exactly if the last read failed with it, and the error about too
/// many bytes exactly if the last read returned more than it was lent; such a read is the last one.
///
/// Tells whether the last chunk ended the decoding. With a decoder that asks for bytes until it is
/// ready, and a buffer that is not empty, that is so if anything was read, unless the last read
/// found the end of the input.
pub proof fn async_decode_takes_all<D: Decoder, E>(
    decoder: D,
    capacity: nat,
    reads: Seq<AsyncRead<E>>,
    result: AsyncReadResult<D, E>,
) -> (settled: bool)
    requires
        async_decode(decoder, capacity, reads, result),
    ensures
        explains(
            decoder,
            async_chunks_of(reads),
            settled,
            all_if_ok(async_chunks_of(reads), result),
            as_read_result::<D, E>(result),
        ),
        decoder.usable() && asks_until_ready::<D>() && capacity > 0 && reads.len() > 0 ==> settled
            == !async_at_end(reads),
        async_at_end(reads) || reads.len() == 0 ==> !settled,
        async_failure_is_last::<D, E>(reads, result),
        result matches Err(AsyncReadError::Read(error)) ==> reads.len() > 0 && reads.last().read
            == Err::<usize, E>(error),
        result matches Err(AsyncReadError::ReadTooManyBytes) ==> reads.len() > 0 && (
        reads.last().read matches Ok(count) && reads.last().lent < count),
    decreases reads.len(),
{
    let chunks = async_chunks_of(reads);
    let given = as_read_result::<D, E>(result);
    if read_size(decoder, capacity) > 0 {
        let rest = reads.drop_first();
        let next = choose|next: Progress<D, AsyncReadResult<D, E>>| #[trigger]
            async_step(decoder, capacity, reads[0].read, reads[0].buffer, next) && match next {
                Progress::Continue(after) => async_run(after, capacity, rest, result),
                Progress::Done(given) => reads.len() == 1 && given == result,
            };
        match reads[0].read {
            Err(_) => true,
            Ok(count) => {
                if count == 0 {
                    assert(rest.len() == 0);
                    assert(async_chunks_of(rest) =~= Seq::empty());
                    assert(chunks =~= Seq::empty());
                    assert(chunks.flatten() =~= Seq::empty());
                    lemma_explains_end(decoder, given);
                    false
                } else if count > reads[0].lent {
                    true
                } else {
                    let bytes = reads[0].buffer.take(count as int);
                    let (taken, after, outcome) = choose|
                        taken: int,
                        after: D,
                        outcome: Result<DecoderStatus, D::Error>,
                    | #[trigger]
                        push_step(decoder, bytes, taken, after, outcome) && match outcome {
                            Err(error) => next matches Progress::Done(
                                Err(AsyncReadError::Decode(reported)),
                            ) && reported == error,
                            Ok(DecoderStatus::NeedsMore) => async_turn(after, capacity, next),
                            Ok(DecoderStatus::Ready) => next matches Progress::Done(given)
                                && finishes_async_read(after, given),
                        };
                    assert(chunks =~= seq![bytes] + async_chunks_of(rest));
                    assert(chunks.drop_first() =~= async_chunks_of(rest));
                    assert(chunks.flatten() =~= bytes + async_chunks_of(rest).flatten());
                    if outcome == Ok::<DecoderStatus, D::Error>(DecoderStatus::NeedsMore) {
                        lemma_async_turn_goes_on(after, capacity, next, rest, result);
                        let settled = async_decode_takes_all(after, capacity, rest, result);
                        if rest.len() > 0 {
                            assert(rest.last() == reads.last());
                        }
                        lemma_async_failure_is_last::<D, E>(reads, result);
                        lemma_explains_more(
                            decoder,
                            bytes,
                            taken,
                            after,
                            async_chunks_of(rest),
                            settled,
                            all_if_ok(async_chunks_of(rest), result),
                            given,
                        );
                        settled
                    } else {
                        assert(rest.len() == 0);
                        assert(async_chunks_of(rest) =~= Seq::empty());
                        assert(chunks =~= seq![bytes]);
                        lemma_explains_last(decoder, bytes, taken, after, outcome, given);
                        true
                    }
                }
            },
        }
    } else {
        assert(chunks =~= Seq::empty());
        assert(chunks.flatten() =~= Seq::empty());
        lemma_explains_end(decoder, given);
        false
    }
}

/// Decoding from an asynchronous reader gives what decoding from a slice of the whole stream gives,
/// with a decoder made for streams, unless reading fails. Where the stream was not read to its end
/// the decoder has to know where an object ends, and the buffer must not be empty.
pub proof fn async_decode_decodes_stream<D: Decoder, E>(
    decoder: D,
    stream: Seq<u8>,
    capacity: nat,
    reads: Seq<AsyncRead<E>>,
    result: AsyncReadResult<D, E>,
)
    requires
        streaming::<D>(),
        async_chunks_of(reads).flatten() == stream || decoder.usable() && knows_the_end::<D>()
            && capacity > 0,
        async_reads_from(reads, stream),
        async_decode(decoder, capacity, reads, result),
    ensures
        explains_stream(
            decoder,
            stream,
            all_if_ok(async_chunks_of(reads), result),
            as_read_result::<D, E>(result),
        ),
{
    let chunks = async_chunks_of(reads);
    let settled = async_decode_takes_all(decoder, capacity, reads, result);
    async_chunks_are_not_empty(reads);
    if reads.len() == 0 && chunks.flatten() != stream {
        assert(chunks.flatten() =~= Seq::empty());
        assert(stream.len() == 0 ==> stream =~= chunks.flatten());
        lemma_ready_explains_stream(decoder, stream, as_read_result::<D, E>(result));
    } else {
        lemma_explains_stream(
            decoder,
            chunks,
            settled,
            stream,
            all_if_ok(chunks, result),
            as_read_result::<D, E>(result),
        );
    }
}

/// Decoding from an asynchronous reader fails on insufficient data: where a decoder that is not
/// ready meets the end of the input, or nothing is read for it because the buffer is empty, the
/// result is an error of the decoder.
pub proof fn async_decode_fails_at_end<D: Decoder, E>(
    decoder: D,
    capacity: nat,
    reads: Seq<AsyncRead<E>>,
    result: AsyncReadResult<D, E>,
)
    requires
        fails_unless_ready::<D>(),
        decoder.usable(),
        !decoder.ready(),
        async_at_end(reads) || reads.len() == 0,
        async_decode(decoder, capacity, reads, result),
    ensures
        result matches Err(AsyncReadError::Decode(_)),
{
    let chunks = async_chunks_of(reads);
    let _ = async_decode_takes_all(decoder, capacity, reads, result);
    if let Ok(value) = result {
        insufficient_chunks_fail(decoder, chunks, all_if_ok(chunks, result), Ok(value));
    }
}

/// With an empty buffer an asynchronous reader is never read: the decoder is finished at once.
pub proof fn empty_buffer_is_never_read<T: Decode, E>(
    next: Progress<AsyncReadRequest<T::Decoder>, AsyncReadResult<T::Decoder, E>>,
)
    requires
        async_start::<T, E>(0, next),
    ensures
        next matches Progress::Done(result) && exists|start: T::Decoder|
            starts::<T>(start) && #[trigger] finishes_async_read(start, result),
{
    let start = choose|start: T::Decoder|
        starts::<T>(start) && #[trigger] async_turn(start, 0, async_view(next));
    assert(read_size(start, 0) == 0);
}

} // verus!
