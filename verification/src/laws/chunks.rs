//! Streams that arrive in chunks.
use crate::decode::{push_step, starts, Decode, Decoder, DecoderStatus};
use crate::error::{DecodeError, UnconsumedError};
use crate::slice::{decodes, decodes_as, without_leftovers};
use vstd::prelude::*;

verus! {

/// The decoder is made for streams: one that needs more has taken all it was given, and pushing
/// bytes in two parts is the same as pushing them at once.
pub open spec fn streaming<D: Decoder>() -> bool {
    &&& forall|decoder: D, bytes: Seq<u8>, consumed: int, next: D| #[trigger]
        push_step(decoder, bytes, consumed, next, Ok(DecoderStatus::NeedsMore)) ==> consumed
            == bytes.len()
    &&& forall|
        decoder: D,
        first: Seq<u8>,
        taken: int,
        between: D,
        second: Seq<u8>,
        consumed: int,
        next: D,
        outcome: Result<DecoderStatus, D::Error>,
    |
        #![trigger push_step(decoder, first, taken, between, Ok(DecoderStatus::NeedsMore)), push_step(between, second, consumed, next, outcome)]
        push_step(decoder, first, taken, between, Ok(DecoderStatus::NeedsMore)) && push_step(
            between,
            second,
            consumed,
            next,
            outcome,
        ) ==> push_step(decoder, first + second, taken + consumed, next, outcome)
}

/// Decoding `bytes` with `decoder` has only one result.
pub open spec fn decides<D: Decoder>(decoder: D, bytes: Seq<u8>) -> bool {
    forall|
        consumed1: int,
        result1: Result<D::Output, D::Error>,
        consumed2: int,
        result2: Result<D::Output, D::Error>,
    |
        #![trigger decodes(decoder, bytes, consumed1, result1), decodes(decoder, bytes, consumed2, result2)]
        decodes(decoder, bytes, consumed1, result1) && decodes(decoder, bytes, consumed2, result2)
            ==> consumed1 == consumed2 && result1 == result2
}

/// Decoding a stream that arrives in `chunks` with `decoder` can take `consumed` bytes in all and
/// give `result`. The decoder needs every one of the chunks.
///
/// If the decoding is `settled`, the push of the last chunk ends it: the decoder fails or is ready.
/// Otherwise the decoder still needs more after the last chunk, and is finished there.
pub open spec fn decodes_chunks<D: Decoder>(
    decoder: D,
    chunks: Seq<Seq<u8>>,
    settled: bool,
    consumed: int,
    result: Result<D::Output, D::Error>,
) -> bool
    decreases chunks.len(),
{
    if chunks.len() == 0 {
        !settled && consumed == 0 && decoder.ends(result)
    } else {
        exists|taken: int, next: D, outcome: Result<DecoderStatus, D::Error>|
            #[trigger] push_step(decoder, chunks[0], taken, next, outcome) && match outcome {
                Err(error) => settled && chunks.len() == 1 && consumed == taken && result == Err::<
                    D::Output,
                    D::Error,
                >(error),
                Ok(DecoderStatus::Ready) => settled && chunks.len() == 1 && consumed == taken
                    && next.ends(result),
                Ok(DecoderStatus::NeedsMore) => decodes_chunks(
                    next,
                    chunks.drop_first(),
                    settled,
                    consumed - taken,
                    result,
                ),
            }
    }
}

/// No chunk is empty.
pub open spec fn no_empty_chunk(chunks: Seq<Seq<u8>>) -> bool {
    forall|i: int| 0 <= i < chunks.len() ==> (#[trigger] chunks[i]).len() > 0
}

/// A push of all of `bytes` at once, of which `consumed` are taken, ends a decoding with `result`.
spec fn decodes_at_once<D: Decoder>(
    decoder: D,
    bytes: Seq<u8>,
    settled: bool,
    consumed: int,
    result: Result<D::Output, D::Error>,
) -> bool {
    exists|next: D, outcome: Result<DecoderStatus, D::Error>| #[trigger]
        push_step(decoder, bytes, consumed, next, outcome) && match outcome {
            Err(error) => settled && result == Err::<D::Output, D::Error>(error),
            Ok(DecoderStatus::Ready) => settled && next.ends(result),
            Ok(DecoderStatus::NeedsMore) => !settled && consumed == bytes.len() && next.ends(
                result,
            ),
        }
}

proof fn lemma_chunks_at_once<D: Decoder>(
    decoder: D,
    chunks: Seq<Seq<u8>>,
    settled: bool,
    consumed: int,
    result: Result<D::Output, D::Error>,
)
    requires
        streaming::<D>(),
        chunks.len() > 0,
        decodes_chunks(decoder, chunks, settled, consumed, result),
    ensures
        decodes_at_once(decoder, chunks.flatten(), settled, consumed, result),
    decreases chunks.len(),
{
    let rest = chunks.drop_first();
    let (taken, next, outcome) = choose|
        taken: int,
        next: D,
        outcome: Result<DecoderStatus, D::Error>,
    | #[trigger]
        push_step(decoder, chunks[0], taken, next, outcome) && match outcome {
            Err(error) => settled && chunks.len() == 1 && consumed == taken && result == Err::<
                D::Output,
                D::Error,
            >(error),
            Ok(DecoderStatus::Ready) => settled && chunks.len() == 1 && consumed == taken
                && next.ends(result),
            Ok(DecoderStatus::NeedsMore) => decodes_chunks(
                next,
                rest,
                settled,
                consumed - taken,
                result,
            ),
        };
    if chunks.len() == 1 {
        assert(rest.flatten() =~= Seq::<u8>::empty());
        assert(chunks.flatten() =~= chunks[0]);
        assert(push_step(decoder, chunks.flatten(), taken, next, outcome));
        if outcome == Ok::<DecoderStatus, D::Error>(DecoderStatus::NeedsMore) {
            assert(rest.len() == 0);
            assert(taken == chunks[0].len());
        }
    } else {
        lemma_chunks_at_once(next, rest, settled, consumed - taken, result);
        let (last, outcome2) = choose|last: D, outcome2: Result<DecoderStatus, D::Error>|
            #[trigger] push_step(next, rest.flatten(), consumed - taken, last, outcome2)
                && match outcome2 {
                Err(error) => settled && result == Err::<D::Output, D::Error>(error),
                Ok(DecoderStatus::Ready) => settled && last.ends(result),
                Ok(DecoderStatus::NeedsMore) => !settled && consumed - taken
                    == rest.flatten().len() && last.ends(result),
            };
        assert(push_step(
            decoder,
            chunks[0] + rest.flatten(),
            taken + (consumed - taken),
            last,
            outcome2,
        ));
        assert(chunks.flatten() =~= chunks[0] + rest.flatten());
    }
}

/// How a stream is cut into chunks makes no difference: with a decoder made for streams, what
/// decoding the chunks gives is what decoding the whole stream from one slice gives, and the same
/// bytes are taken.
pub proof fn chunks_decode_as_one_slice<D: Decoder>(
    decoder: D,
    chunks: Seq<Seq<u8>>,
    settled: bool,
    consumed: int,
    result: Result<D::Output, D::Error>,
)
    requires
        streaming::<D>(),
        no_empty_chunk(chunks),
        decodes_chunks(decoder, chunks, settled, consumed, result),
    ensures
        decodes(decoder, chunks.flatten(), consumed, result),
{
    let bytes = chunks.flatten();
    if chunks.len() == 0 {
        assert(bytes =~= Seq::<u8>::empty());
    } else {
        lemma_chunks_at_once(decoder, chunks, settled, consumed, result);
        assert(chunks[0].len() > 0);
        assert(bytes =~= chunks[0] + chunks.drop_first().flatten());
        let (next, outcome) = choose|next: D, outcome: Result<DecoderStatus, D::Error>| #[trigger]
            push_step(decoder, bytes, consumed, next, outcome) && match outcome {
                Err(error) => settled && result == Err::<D::Output, D::Error>(error),
                Ok(DecoderStatus::Ready) => settled && next.ends(result),
                Ok(DecoderStatus::NeedsMore) => !settled && consumed == bytes.len() && next.ends(
                    result,
                ),
            };
        if outcome == Ok::<DecoderStatus, D::Error>(DecoderStatus::NeedsMore) {
            assert(bytes.skip(consumed) =~= Seq::<u8>::empty());
            assert(decodes(next, bytes.skip(consumed), 0, result));
        }
    }
}

/// Two ways of cutting the same stream into chunks give the same result, when decoding the stream
/// has only one.
pub proof fn chunkings_agree<D: Decoder>(
    decoder: D,
    chunks1: Seq<Seq<u8>>,
    settled1: bool,
    consumed1: int,
    result1: Result<D::Output, D::Error>,
    chunks2: Seq<Seq<u8>>,
    settled2: bool,
    consumed2: int,
    result2: Result<D::Output, D::Error>,
)
    requires
        streaming::<D>(),
        decides(decoder, chunks1.flatten()),
        chunks1.flatten() == chunks2.flatten(),
        no_empty_chunk(chunks1),
        no_empty_chunk(chunks2),
        decodes_chunks(decoder, chunks1, settled1, consumed1, result1),
        decodes_chunks(decoder, chunks2, settled2, consumed2, result2),
    ensures
        consumed1 == consumed2,
        result1 == result2,
{
    chunks_decode_as_one_slice(decoder, chunks1, settled1, consumed1, result1);
    chunks_decode_as_one_slice(decoder, chunks2, settled2, consumed2, result2);
}

/// A push settles the matter: one after which the decoder is ready, or that fails, is the same
/// whatever follows the bytes.
pub open spec fn settles<D: Decoder>() -> bool {
    forall|
        decoder: D,
        bytes: Seq<u8>,
        consumed: int,
        next: D,
        outcome: Result<DecoderStatus, D::Error>,
        more: Seq<u8>,
    |
        #![trigger push_step(decoder, bytes, consumed, next, outcome), bytes + more]
        push_step(decoder, bytes, consumed, next, outcome) && outcome != Ok::<
            DecoderStatus,
            D::Error,
        >(DecoderStatus::NeedsMore) ==> push_step(decoder, bytes + more, consumed, next, outcome)
}

/// Pushing into a decoder that is ready leaves it as it was.
pub open spec fn rests_when_ready<D: Decoder>() -> bool {
    forall|decoder: D, bytes: Seq<u8>|
        decoder.usable() && decoder.ready() ==> #[trigger] push_step(
            decoder,
            bytes,
            0,
            decoder,
            Ok(DecoderStatus::Ready),
        )
}

/// The decoder asks for bytes for as long as it is not ready.
pub open spec fn asks_until_ready<D: Decoder>() -> bool {
    forall|decoder: D|
        #![trigger decoder.limit()]
        decoder.usable() ==> (decoder.limit() == 0 <==> decoder.ready())
}

/// What follows the chunks that settle a decoding makes no difference to it, when the decoder
/// settles the matter: it is that of a slice of the whole stream, of which `unread` is left.
pub proof fn settled_chunks_decode_the_stream<D: Decoder>(
    decoder: D,
    chunks: Seq<Seq<u8>>,
    unread: Seq<u8>,
    consumed: int,
    result: Result<D::Output, D::Error>,
)
    requires
        streaming::<D>(),
        settles::<D>(),
        no_empty_chunk(chunks),
        decodes_chunks(decoder, chunks, true, consumed, result),
    ensures
        decodes(decoder, chunks.flatten() + unread, consumed, result),
{
    let bytes = chunks.flatten();
    lemma_chunks_at_once(decoder, chunks, true, consumed, result);
    assert(chunks[0].len() > 0);
    assert(bytes =~= chunks[0] + chunks.drop_first().flatten());
    let (next, outcome) = choose|next: D, outcome: Result<DecoderStatus, D::Error>| #[trigger]
        push_step(decoder, bytes, consumed, next, outcome) && match outcome {
            Err(error) => result == Err::<D::Output, D::Error>(error),
            Ok(DecoderStatus::Ready) => next.ends(result),
            Ok(DecoderStatus::NeedsMore) => false,
        };
    assert(push_step(decoder, bytes + unread, consumed, next, outcome));
}

/// The decoder does not look ahead: when it is ready, that depends on no byte after those it took.
pub open spec fn no_lookahead<D: Decoder>() -> bool {
    forall|decoder: D, bytes: Seq<u8>, consumed: int, next: D, other: Seq<u8>|
        #![trigger push_step(decoder, bytes, consumed, next, Ok(DecoderStatus::Ready)), other.take(consumed)]
        push_step(decoder, bytes, consumed, next, Ok(DecoderStatus::Ready)) && consumed
            <= other.len() && other.take(consumed) == bytes.take(consumed) ==> push_step(
            decoder,
            other,
            consumed,
            next,
            Ok(DecoderStatus::Ready),
        )
}

/// Bytes that are not required to decode do not matter: when some are left over, the same object
/// is decoded whatever follows the bytes that it took, and also if nothing does.
pub proof fn unconsumed_bytes_do_not_matter<D: Decoder>(
    decoder: D,
    bytes: Seq<u8>,
    consumed: int,
    value: D::Output,
    other: Seq<u8>,
)
    requires
        streaming::<D>(),
        no_lookahead::<D>(),
        decodes(decoder, bytes, consumed, Ok(value)),
        consumed < bytes.len(),
        0 < other.len(),
        consumed <= other.len(),
        other.take(consumed) == bytes.take(consumed),
    ensures
        decodes(decoder, other, consumed, Ok(value)),
{
    let (taken, next, outcome) = choose|
        taken: int,
        next: D,
        outcome: Result<DecoderStatus, D::Error>,
    | #[trigger]
        push_step(decoder, bytes, taken, next, outcome) && match outcome {
            Err(error) => false,
            Ok(DecoderStatus::Ready) => consumed == taken && next.ends(Ok(value)),
            Ok(DecoderStatus::NeedsMore) => 0 < taken <= bytes.len() && decodes(
                next,
                bytes.skip(taken),
                consumed - taken,
                Ok(value),
            ),
        };
    if outcome == Ok::<DecoderStatus, D::Error>(DecoderStatus::NeedsMore) {
        assert(bytes.skip(taken).len() == 0);
    } else {
        assert(push_step(decoder, other, consumed, next, Ok(DecoderStatus::Ready)));
    }
}

/// One push of `bytes` takes all of them, and the decoder then has the object `value`.
pub open spec fn takes_whole<D: Decoder>(decoder: D, bytes: Seq<u8>, value: D::Output) -> bool {
    exists|next: D| #[trigger]
        push_step(decoder, bytes, bytes.len() as int, next, Ok(DecoderStatus::Ready)) && next.ends(
            Ok(value),
        )
}

/// Bytes after a whole object do not matter: they are left over, and the object is the same.
pub proof fn extra_bytes_are_left<D: Decoder>(
    decoder: D,
    bytes: Seq<u8>,
    value: D::Output,
    more: Seq<u8>,
)
    requires
        settles::<D>(),
        takes_whole(decoder, bytes, value),
        0 < (bytes + more).len(),
    ensures
        decodes(decoder, bytes + more, bytes.len() as int, Ok(value)),
{
    let next = choose|next: D| #[trigger]
        push_step(decoder, bytes, bytes.len() as int, next, Ok(DecoderStatus::Ready)) && next.ends(
            Ok(value),
        );
    assert(push_step(
        decoder,
        bytes + more,
        bytes.len() as int,
        next,
        Ok(DecoderStatus::Ready),
    ));
}

/// A slice must hold an object and nothing else: where `bytes` are a whole object, decoding a
/// slice with anything after them fails with the error about unconsumed bytes.
pub proof fn extra_bytes_are_refused<T: Decode>(
    bytes: Seq<u8>,
    value: T,
    more: Seq<u8>,
    consumed: int,
    parsed: Result<T, <T::Decoder as Decoder>::Error>,
)
    requires
        settles::<T::Decoder>(),
        forall|start: T::Decoder| #[trigger]
            starts::<T>(start) ==> takes_whole(start, bytes, value) && decides(start, bytes + more),
        0 < more.len(),
        decodes_as::<T>(bytes + more, consumed, parsed),
    ensures
        consumed == bytes.len(),
        parsed == Ok::<T, <T::Decoder as Decoder>::Error>(value),
        without_leftovers(parsed, (bytes + more).len() - consumed) == Err::<
            T,
            DecodeError<<T::Decoder as Decoder>::Error>,
        >(DecodeError::Unconsumed(UnconsumedError())),
{
    let start = choose|start: T::Decoder|
        starts::<T>(start) && #[trigger] decodes(start, bytes + more, consumed, parsed);
    extra_bytes_are_left(start, bytes, value, more);
}

} // verus!
