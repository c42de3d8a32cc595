//! What the steps of decoding from a buffered reader amount to.
use crate::buffered::buffered_step;
use crate::decode::{push_step, Decoder, DecoderStatus};
use crate::error::{ErrorKind, IoError, ReadError};
use crate::laws::chunks::{settles, streaming};
use crate::laws::decoder::{fails_unless_ready, insufficient_chunks_fail};
use crate::laws::streams::{
    at_end, chunks_are_not_empty, chunks_of, explains, explains_stream, failure_is_last,
    is_interrupted, lemma_explains_end, lemma_explains_last, lemma_explains_more,
    lemma_explains_stream, lemma_failure_is_last, reads_from,
};
use crate::progress::{finishes_read, Progress, ReadResult};
use vstd::prelude::*;

verus! {

/// The number of bytes that a step marks as consumed.
pub open spec fn amount(consume: Option<int>) -> int {
    match consume {
        Some(amount) => amount,
        None => 0,
    }
}

/// When the reader's buffer is filled with `fills` in turn, decoding from it with `decoder` can
/// mark `consumed` bytes in all as consumed and, after the last fill, give `result`.
pub open spec fn buffered_run<D: Decoder, E>(
    decoder: D,
    fills: Seq<Result<Seq<u8>, IoError<E>>>,
    consumed: int,
    result: ReadResult<D, E>,
) -> bool
    decreases fills.len(),
{
    fills.len() > 0 && exists|consume: Option<int>, next: Progress<D, ReadResult<D, E>>|
        #[trigger] buffered_step(decoder, fills[0], consume, next) && match next {
            Progress::Continue(after) => buffered_run(
                after,
                fills.drop_first(),
                consumed - amount(consume),
                result,
            ),
            Progress::Done(given) => fills.len() == 1 && consumed == amount(consume) && given
                == result,
        }
}

/// A buffered reader is told that exactly those bytes are consumed that the decoder took, and the
/// result is that of decoding the chunks it provided: unless the last fill found the end of the
/// input, the last chunk ended the decoding. If the result is an I/O error, it is that of the last
/// fill. If a fill fails other than by an interruption, it is the last and its error the result.
pub proof fn buffered_run_decodes_chunks<D: Decoder, E>(
    decoder: D,
    fills: Seq<Result<Seq<u8>, IoError<E>>>,
    consumed: int,
    result: ReadResult<D, E>,
)
    requires
        buffered_run(decoder, fills, consumed, result),
    ensures
        explains(decoder, chunks_of(fills), !at_end(fills), consumed, result),
        result matches Err(ReadError::Io(error)) ==> fills.last() == Err::<Seq<u8>, IoError<E>>(
            IoError { kind: ErrorKind::Other, error },
        ),
        failure_is_last::<D, E>(fills, result),
    decreases fills.len(),
{
    let rest = fills.drop_first();
    let (consume, next) = choose|consume: Option<int>, next: Progress<D, ReadResult<D, E>>|
        #[trigger] buffered_step(decoder, fills[0], consume, next) && match next {
            Progress::Continue(after) => buffered_run(
                after,
                rest,
                consumed - amount(consume),
                result,
            ),
            Progress::Done(given) => fills.len() == 1 && consumed == amount(consume) && given
                == result,
        };
    match next {
        Progress::Continue(after) => {
            buffered_run_decodes_chunks(after, rest, consumed - amount(consume), result);
            assert(rest.last() == fills.last());
            lemma_failure_is_last::<D, E>(fills, result);
            if let Ok(bytes) = fills[0] {
                let taken = consume->0;
                assert(push_step(decoder, bytes, taken, after, Ok(DecoderStatus::NeedsMore)));
                lemma_explains_more(
                    decoder,
                    bytes,
                    taken,
                    after,
                    chunks_of(rest),
                    !at_end(fills),
                    consumed - taken,
                    result,
                );
            }
        },
        Progress::Done(_) => {
            assert(chunks_of(rest) =~= Seq::empty());
            if let Ok(bytes) = fills[0] {
                if bytes.len() > 0 {
                    assert(chunks_of(fills) =~= seq![bytes]);
                    let (taken, after, outcome) = choose|
                        taken: int,
                        after: D,
                        outcome: Result<DecoderStatus, D::Error>,
                    | #[trigger]
                        push_step(decoder, bytes, taken, after, outcome) && match outcome {
                            Err(error) => consume is None && result == Err::<
                                D::Output,
                                ReadError<D::Error, E>,
                            >(ReadError::Decode(error)),
                            Ok(DecoderStatus::NeedsMore) => false,
                            Ok(DecoderStatus::Ready) => consume == Some(taken) && finishes_read(
                                after,
                                result,
                            ),
                        };
                    lemma_explains_last(decoder, bytes, taken, after, outcome, result);
                } else {
                    lemma_explains_end(decoder, result);
                }
            }
        },
    }
}

/// Decoding from a buffered reader gives what decoding from a slice of the whole stream gives, with
/// a decoder made for streams, unless reading fails. Where the reader did not provide the whole
/// stream the decoder has to settle the matter.
pub proof fn buffered_run_decodes_stream<D: Decoder, E>(
    decoder: D,
    stream: Seq<u8>,
    fills: Seq<Result<Seq<u8>, IoError<E>>>,
    consumed: int,
    result: ReadResult<D, E>,
)
    requires
        streaming::<D>(),
        chunks_of(fills).flatten() == stream || settles::<D>(),
        reads_from(fills, stream),
        buffered_run(decoder, fills, consumed, result),
    ensures
        explains_stream(decoder, stream, consumed, result),
{
    buffered_run_decodes_chunks(decoder, fills, consumed, result);
    chunks_are_not_empty(fills);
    lemma_explains_stream(decoder, chunks_of(fills), !at_end(fills), stream, consumed, result);
}

/// Decoding from a buffered reader fails on insufficient data: where a decoder that is not ready
/// meets the end of the input, the result is an error of the decoder.
pub proof fn buffered_run_fails_at_end<D: Decoder, E>(
    decoder: D,
    fills: Seq<Result<Seq<u8>, IoError<E>>>,
    consumed: int,
    result: ReadResult<D, E>,
)
    requires
        fails_unless_ready::<D>(),
        decoder.usable(),
        !decoder.ready(),
        at_end(fills),
        buffered_run(decoder, fills, consumed, result),
    ensures
        result matches Err(ReadError::Decode(_)),
{
    buffered_run_decodes_chunks(decoder, fills, consumed, result);
    if let Ok(value) = result {
        insufficient_chunks_fail(decoder, chunks_of(fills), consumed, Ok(value));
    }
}

/// An interruption makes no difference to a buffered reader: the fills may as well be without it.
pub proof fn buffered_run_retries<D: Decoder, E>(
    decoder: D,
    fills: Seq<Result<Seq<u8>, IoError<E>>>,
    i: int,
    interruption: Result<Seq<u8>, IoError<E>>,
    consumed: int,
    result: ReadResult<D, E>,
)
    requires
        is_interrupted(interruption),
        0 <= i < fills.len(),
    ensures
        buffered_run(decoder, fills, consumed, result) <==> buffered_run(
            decoder,
            fills.insert(i, interruption),
            consumed,
            result,
        ),
    decreases fills.len(),
{
    let longer = fills.insert(i, interruption);
    let rest = fills.drop_first();
    if i == 0 {
        assert(longer.drop_first() =~= fills);
        let again = Progress::<D, ReadResult<D, E>>::Continue(decoder);
        assert(buffered_step(decoder, longer[0], None, again));
        if buffered_run(decoder, longer, consumed, result) {
            let (consume, next) = choose|consume: Option<int>, next: Progress<D, ReadResult<D, E>>|
                #[trigger] buffered_step(decoder, longer[0], consume, next) && match next {
                    Progress::Continue(after) => buffered_run(
                        after,
                        longer.drop_first(),
                        consumed - amount(consume),
                        result,
                    ),
                    Progress::Done(given) => longer.len() == 1 && consumed == amount(consume)
                        && given == result,
                };
            assert(next == again);
            assert(buffered_run(decoder, fills, consumed, result));
        }
        if buffered_run(decoder, fills, consumed, result) {
            assert(buffered_run(decoder, longer.drop_first(), consumed - amount(None), result));
            assert(buffered_run(decoder, longer, consumed, result));
        }
    } else {
        assert(longer[0] == fills[0]);
        assert(longer.drop_first() =~= rest.insert(i - 1, interruption));
        if buffered_run(decoder, fills, consumed, result) {
            let (consume, next) = choose|consume: Option<int>, next: Progress<D, ReadResult<D, E>>|
                #[trigger] buffered_step(decoder, fills[0], consume, next) && match next {
                    Progress::Continue(after) => buffered_run(
                        after,
                        rest,
                        consumed - amount(consume),
                        result,
                    ),
                    Progress::Done(given) => fills.len() == 1 && consumed == amount(consume)
                        && given == result,
                };
            if let Progress::Continue(after) = next {
                buffered_run_retries(
                    after,
                    rest,
                    i - 1,
                    interruption,
                    consumed - amount(consume),
                    result,
                );
            }
            assert(buffered_step(decoder, longer[0], consume, next));
        }
        if buffered_run(decoder, longer, consumed, result) {
            let (consume, next) = choose|consume: Option<int>, next: Progress<D, ReadResult<D, E>>|
                #[trigger] buffered_step(decoder, longer[0], consume, next) && match next {
                    Progress::Continue(after) => buffered_run(
                        after,
                        longer.drop_first(),
                        consumed - amount(consume),
                        result,
                    ),
                    Progress::Done(given) => longer.len() == 1 && consumed == amount(consume)
                        && given == result,
                };
            if let Progress::Continue(after) = next {
                buffered_run_retries(
                    after,
                    rest,
                    i - 1,
                    interruption,
                    consumed - amount(consume),
                    result,
                );
            }
            assert(buffered_step(decoder, fills[0], consume, next));
        }
    }
}

} // verus!
