//! Streams that come from a reader.
use crate::decode::{push_step, Decoder, DecoderStatus};
use crate::error::{IoError, ReadError};
use crate::laws::chunks::{
    asks_until_ready, chunks_decode_as_one_slice, decides, decodes_chunks, no_empty_chunk,
    rests_when_ready, settled_chunks_decode_the_stream, settles, streaming,
};
use crate::progress::{finishes_read, ReadResult};
use crate::slice::decodes;
use vstd::prelude::*;

verus! {

/// The bytes that the reads returned, as the chunks in which they arrived.
pub open spec fn chunks_of<E>(reads: Seq<Result<Seq<u8>, IoError<E>>>) -> Seq<Seq<u8>>
    decreases reads.len(),
{
    if reads.len() == 0 {
        Seq::empty()
    } else {
        let rest = chunks_of(reads.drop_first());
        match reads[0] {
            Ok(bytes) => if bytes.len() > 0 {
                seq![bytes] + rest
            } else {
                rest
            },
            Err(_) => rest,
        }
    }
}

/// A read was interrupted.
pub open spec fn is_interrupted<E>(read: Result<Seq<u8>, IoError<E>>) -> bool {
    read matches Err(failure) && failure.kind is Interrupted
}

/// The last read found the end of the input.
pub open spec fn at_end<E>(reads: Seq<Result<Seq<u8>, IoError<E>>>) -> bool {
    reads.len() > 0 && (reads.last() matches Ok(bytes) && bytes.len() == 0)
}

/// The reads returned the bytes of `stream` from its front on, and did not find the end of the
/// input before its end.
pub open spec fn reads_from<E>(reads: Seq<Result<Seq<u8>, IoError<E>>>, stream: Seq<u8>) -> bool {
    &&& chunks_of(reads).flatten().is_prefix_of(stream)
    &&& at_end(reads) ==> chunks_of(reads).flatten() == stream
}

/// The decoder knows where an object ends: a push that ends the decoding is the same whatever
/// follows, a decoder that is ready stays as it is, and it asks for bytes for as long as it is not
/// ready.
pub open spec fn knows_the_end<D: Decoder>() -> bool {
    &&& settles::<D>()
    &&& rests_when_ready::<D>()
    &&& asks_until_ready::<D>()
}

/// The number of bytes in all of `chunks` if the decoding of them succeeds.
pub open spec fn all_if_ok<T, E>(chunks: Seq<Seq<u8>>, result: Result<T, E>) -> int {
    if result is Ok {
        chunks.flatten().len() as int
    } else {
        0
    }
}

/// Two read drivers give the same value, or the decoder fails with the same error.
pub open spec fn same_result<D: Decoder, E1, E2>(
    result1: ReadResult<D, E1>,
    result2: ReadResult<D, E2>,
) -> bool {
    match result1 {
        Ok(value) => result2 matches Ok(other) && other == value,
        Err(ReadError::Decode(error)) => result2 matches Err(ReadError::Decode(other)) && other
            == error,
        Err(ReadError::Io(_)) => false,
    }
}

/// A read that fails, other than by an interruption, is the last one, and `result` is its error.
pub open spec fn failure_is_last<D: Decoder, E>(
    reads: Seq<Result<Seq<u8>, IoError<E>>>,
    result: ReadResult<D, E>,
) -> bool {
    forall|i: int|
        0 <= i < reads.len() && (#[trigger] reads[i] matches Err(failure) && failure.kind is Other)
            ==> i == reads.len() - 1 && result == Err::<D::Output, ReadError<D::Error, E>>(
            ReadError::Io(reads[i]->Err_0.error),
        )
}

pub(crate) proof fn lemma_failure_is_last<D: Decoder, E>(
    reads: Seq<Result<Seq<u8>, IoError<E>>>,
    result: ReadResult<D, E>,
)
    requires
        reads.len() > 0,
        reads[0] is Ok || is_interrupted(reads[0]),
        failure_is_last::<D, E>(reads.drop_first(), result),
    ensures
        failure_is_last::<D, E>(reads, result),
{
    assert forall|i: int|
        0 <= i < reads.len() && (#[trigger] reads[i] matches Err(failure)
            && failure.kind is Other) implies i == reads.len() - 1 && result == Err::<
        D::Output,
        ReadError<D::Error, E>,
    >(ReadError::Io(reads[i]->Err_0.error)) by {
        assert(reads[i] == reads.drop_first()[i - 1]);
    }
}

/// What a result of a read driver says about the stream that arrived in `chunks`, of which the
/// reader was told that `consumed` bytes are consumed. If the decoding is `settled`, the last chunk
/// ended it, and otherwise the decoder was finished after that.
pub open spec fn explains<D: Decoder, E>(
    decoder: D,
    chunks: Seq<Seq<u8>>,
    settled: bool,
    consumed: int,
    result: ReadResult<D, E>,
) -> bool {
    match result {
        Ok(value) => decodes_chunks(decoder, chunks, settled, consumed, Ok(value)),
        Err(ReadError::Decode(error)) => exists|taken: int|
            consumed <= taken && #[trigger] decodes_chunks(
                decoder,
                chunks,
                settled,
                taken,
                Err(error),
            ),
        Err(ReadError::Io(_)) => true,
    }
}

pub(crate) proof fn lemma_explains_more<D: Decoder, E>(
    decoder: D,
    bytes: Seq<u8>,
    taken: int,
    after: D,
    chunks: Seq<Seq<u8>>,
    settled: bool,
    consumed: int,
    result: ReadResult<D, E>,
)
    requires
        push_step(decoder, bytes, taken, after, Ok(DecoderStatus::NeedsMore)),
        explains(after, chunks, settled, consumed, result),
    ensures
        explains(decoder, seq![bytes] + chunks, settled, taken + consumed, result),
{
    let all = seq![bytes] + chunks;
    assert(all[0] == bytes);
    assert(all.drop_first() =~= chunks);
    match result {
        Ok(value) => {
            assert(decodes_chunks(decoder, all, settled, taken + consumed, Ok(value)));
        },
        Err(ReadError::Decode(error)) => {
            let used = choose|used: int|
                consumed <= used && #[trigger] decodes_chunks(
                    after,
                    chunks,
                    settled,
                    used,
                    Err(error),
                );
            assert(decodes_chunks(decoder, all, settled, taken + used, Err(error)));
        },
        Err(ReadError::Io(_)) => {},
    }
}

pub(crate) proof fn lemma_explains_end<D: Decoder, E>(decoder: D, result: ReadResult<D, E>)
    requires
        finishes_read(decoder, result),
    ensures
        explains(decoder, Seq::empty(), false, 0, result),
{
    if let Err(ReadError::Decode(error)) = result {
        assert(decodes_chunks(decoder, Seq::empty(), false, 0, Err(error)));
    }
}

pub(crate) proof fn lemma_explains_last<D: Decoder, E>(
    decoder: D,
    bytes: Seq<u8>,
    taken: int,
    after: D,
    outcome: Result<DecoderStatus, D::Error>,
    result: ReadResult<D, E>,
)
    requires
        push_step(decoder, bytes, taken, after, outcome),
        match outcome {
            Err(error) => result == Err::<D::Output, ReadError<D::Error, E>>(
                ReadError::Decode(error),
            ),
            Ok(_) => finishes_read(after, result) && outcome == Ok::<DecoderStatus, D::Error>(
                DecoderStatus::Ready,
            ),
        },
    ensures
        explains(decoder, seq![bytes], true, if outcome is Ok { taken } else { 0 }, result),
{
    let all = seq![bytes];
    assert(all[0] == bytes);
    match result {
        Ok(value) => {
            assert(decodes_chunks(decoder, all, true, taken, Ok(value)));
        },
        Err(ReadError::Decode(error)) => {
            assert(decodes_chunks(decoder, all, true, taken, Err(error)));
        },
        Err(ReadError::Io(_)) => {},
    }
}

/// The chunks that reads arrive in are not empty.
pub proof fn chunks_are_not_empty<E>(reads: Seq<Result<Seq<u8>, IoError<E>>>)
    ensures
        no_empty_chunk(chunks_of(reads)),
    decreases reads.len(),
{
    if reads.len() > 0 {
        chunks_are_not_empty(reads.drop_first());
    }
}

/// What a result of a read driver says about the whole `stream` that the reader holds, of which it
/// was told that `consumed` bytes are consumed.
pub open spec fn explains_stream<D: Decoder, E>(
    decoder: D,
    stream: Seq<u8>,
    consumed: int,
    result: ReadResult<D, E>,
) -> bool {
    match result {
        Ok(value) => decodes(decoder, stream, consumed, Ok(value)),
        Err(ReadError::Decode(error)) => exists|taken: int|
            consumed <= taken && #[trigger] decodes(decoder, stream, taken, Err(error)),
        Err(ReadError::Io(_)) => true,
    }
}

pub(crate) proof fn lemma_explains_stream<D: Decoder, E>(
    decoder: D,
    chunks: Seq<Seq<u8>>,
    settled: bool,
    stream: Seq<u8>,
    consumed: int,
    result: ReadResult<D, E>,
)
    requires
        streaming::<D>(),
        no_empty_chunk(chunks),
        explains(decoder, chunks, settled, consumed, result),
        chunks.flatten().is_prefix_of(stream),
        chunks.flatten() == stream || settled && settles::<D>(),
    ensures
        explains_stream(decoder, stream, consumed, result),
{
    let whole = chunks.flatten() == stream;
    let unread = stream.skip(chunks.flatten().len() as int);
    assert(stream =~= chunks.flatten() + unread);
    match result {
        Ok(value) => {
            if whole {
                chunks_decode_as_one_slice(decoder, chunks, settled, consumed, Ok(value));
            } else {
                settled_chunks_decode_the_stream(decoder, chunks, unread, consumed, Ok(value));
            }
        },
        Err(ReadError::Decode(error)) => {
            let taken = choose|taken: int|
                consumed <= taken && #[trigger] decodes_chunks(
                    decoder,
                    chunks,
                    settled,
                    taken,
                    Err(error),
                );
            if whole {
                chunks_decode_as_one_slice(decoder, chunks, settled, taken, Err(error));
            } else {
                settled_chunks_decode_the_stream(decoder, chunks, unread, taken, Err(error));
            }
            assert(decodes(decoder, stream, taken, Err(error)));
        },
        Err(ReadError::Io(_)) => {},
    }
}

pub(crate) proof fn lemma_ready_explains_stream<D: Decoder, E>(
    decoder: D,
    stream: Seq<u8>,
    result: ReadResult<D, E>,
)
    requires
        rests_when_ready::<D>(),
        decoder.usable(),
        decoder.ready(),
        stream.len() > 0,
        finishes_read(decoder, result),
    ensures
        explains_stream(decoder, stream, 0, result),
{
    assert(push_step(decoder, stream, 0, decoder, Ok(DecoderStatus::Ready)));
    match result {
        Ok(value) => {
            assert(decodes(decoder, stream, 0, Ok(value)));
        },
        Err(ReadError::Decode(error)) => {
            assert(decodes(decoder, stream, 0, Err(error)));
        },
        Err(ReadError::Io(_)) => {},
    }
}

/// One stream has one result: two decodings of the same stream that do not fail to
/// read give the same result, when decoding the stream from a slice has only one.
pub proof fn one_stream_one_result<D: Decoder, E1, E2>(
    decoder: D,
    stream: Seq<u8>,
    consumed1: int,
    result1: ReadResult<D, E1>,
    consumed2: int,
    result2: ReadResult<D, E2>,
)
    requires
        decides(decoder, stream),
        explains_stream(decoder, stream, consumed1, result1),
        explains_stream(decoder, stream, consumed2, result2),
        !(result1 matches Err(ReadError::Io(_))),
        !(result2 matches Err(ReadError::Io(_))),
    ensures
        same_result::<D, E1, E2>(result1, result2),
        result1 is Ok ==> consumed1 == consumed2,
{
}

} // verus!
