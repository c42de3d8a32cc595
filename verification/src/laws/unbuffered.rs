//! What the steps of decoding from an unbuffered reader amount to.
use crate::decode::{push_step, Decoder, DecoderStatus};
use crate::error::{ErrorKind, IoError, ReadError};
use crate::laws::chunks::{asks_until_ready, streaming};
use crate::laws::decoder::{fails_unless_ready, insufficient_chunks_fail};
use crate::laws::streams::{
    all_if_ok, at_end, chunks_are_not_empty, chunks_of, explains, explains_stream, failure_is_last,
    is_interrupted, knows_the_end, lemma_explains_end, lemma_explains_last, lemma_explains_more,
    lemma_explains_stream, lemma_failure_is_last, lemma_ready_explains_stream, reads_from,
};
use crate::progress::{finishes_read, Progress, ReadResult};
use crate::unbuffered::{read_size, unbuffered_step, unbuffered_turn};
use vstd::prelude::*;

verus! {

/// When the reads return `reads` in turn, each of as many bytes at most as it is to read into a
/// buffer of `capacity` bytes, decoding with `decoder` can give `result` after the last of them.
pub open spec fn unbuffered_run<D: Decoder, E>(
    decoder: D,
    capacity: nat,
    reads: Seq<Result<Seq<u8>, IoError<E>>>,
    result: ReadResult<D, E>,
) -> bool
    decreases reads.len(),
{
    &&& reads.len() > 0
    &&& reads[0] matches Ok(bytes) ==> bytes.len() <= read_size(decoder, capacity)
    &&& exists|next: Progress<D, ReadResult<D, E>>| #[trigger]
        unbuffered_step(decoder, reads[0], next) && match next {
            Progress::Continue(after) => unbuffered_run(
                after,
                capacity,
                reads.drop_first(),
                result,
            ),
            Progress::Done(given) => reads.len() == 1 && given == result,
        }
}

/// Decoding from an unbuffered reader whose reads return `reads` in turn, beginning with the
/// decision whether to read at all, can give `result`.
pub open spec fn unbuffered_decode<D: Decoder, E>(
    decoder: D,
    capacity: nat,
    reads: Seq<Result<Seq<u8>, IoError<E>>>,
    result: ReadResult<D, E>,
) -> bool {
    if decoder.limit() > 0 {
        unbuffered_run(decoder, capacity, reads, result)
    } else {
        reads.len() == 0 && finishes_read(decoder, result)
    }
}

/// How decoding goes on after a turn is an unbuffered decoding of its own.
proof fn lemma_turn_goes_on<D: Decoder, E>(
    decoder: D,
    capacity: nat,
    next: Progress<D, ReadResult<D, E>>,
    reads: Seq<Result<Seq<u8>, IoError<E>>>,
    result: ReadResult<D, E>,
)
    requires
        unbuffered_turn(decoder, next),
        match next {
            Progress::Continue(after) => unbuffered_run(after, capacity, reads, result),
            Progress::Done(given) => reads.len() == 0 && given == result,
        },
    ensures
        unbuffered_decode(decoder, capacity, reads, result),
{
}

/// An unbuffered reader is not read further than the decoder needs: when decoding succeeds, the
/// decoder has taken every byte that was read. The result is that of decoding the chunks that
/// were read. If it is an I/O error, it is that of the last read. If a read fails other than by an
/// interruption, it is the last and its error the result.
///
/// Tells whether the last chunk ended the decoding. With a decoder that asks for bytes until it is
/// ready that is so if anything was read, unless the last read found the end of the input.
pub proof fn unbuffered_decode_takes_all<D: Decoder, E>(
    decoder: D,
    capacity: nat,
    reads: Seq<Result<Seq<u8>, IoError<E>>>,
    result: ReadResult<D, E>,
) -> (settled: bool)
    requires
        unbuffered_decode(decoder, capacity, reads, result),
    ensures
        explains(
            decoder,
            chunks_of(reads),
            settled,
            all_if_ok(chunks_of(reads), result),
            result,
        ),
        decoder.usable() && asks_until_ready::<D>() && reads.len() > 0 ==> settled == !at_end(
            reads,
        ),
        at_end(reads) || reads.len() == 0 ==> !settled,
        failure_is_last::<D, E>(reads, result),
        result matches Err(ReadError::Io(error)) ==> reads.len() > 0 && reads.last() == Err::<
            Seq<u8>,
            IoError<E>,
        >(IoError { kind: ErrorKind::Other, error }),
    decreases reads.len(),
{
    let chunks = chunks_of(reads);
    if decoder.limit() > 0 {
        let rest = reads.drop_first();
        let next = choose|next: Progress<D, ReadResult<D, E>>| #[trigger]
            unbuffered_step(decoder, reads[0], next) && match next {
                Progress::Continue(after) => unbuffered_run(after, capacity, rest, result),
                Progress::Done(given) => reads.len() == 1 && given == result,
            };
        match reads[0] {
            Err(failure) => {
                if failure.kind is Interrupted {
                    let settled = unbuffered_decode_takes_all(decoder, capacity, rest, result);
                    assert(rest.last() == reads.last());
                    lemma_failure_is_last::<D, E>(reads, result);
                    settled
                } else {
                    true
                }
            },
            Ok(bytes) => {
                if bytes.len() == 0 {
                    assert(rest.len() == 0);
                    assert(chunks_of(rest) =~= Seq::empty());
                    assert(chunks =~= Seq::empty());
                    assert(chunks.flatten() =~= Seq::empty());
                    lemma_explains_end(decoder, result);
                    false
                } else {
                    let (taken, after, outcome) = choose|
                        taken: int,
                        after: D,
                        outcome: Result<DecoderStatus, D::Error>,
                    | #[trigger]
                        push_step(decoder, bytes, taken, after, outcome) && match outcome {
                            Err(error) => next matches Progress::Done(
                                Err(ReadError::Decode(reported)),
                            ) && reported == error,
                            Ok(DecoderStatus::NeedsMore) => unbuffered_turn(after, next),
                            Ok(DecoderStatus::Ready) => next matches Progress::Done(given)
                                && finishes_read(after, given),
                        };
                    assert(chunks =~= seq![bytes] + chunks_of(rest));
                    assert(chunks.drop_first() =~= chunks_of(rest));
                    assert(chunks.flatten() =~= bytes + chunks_of(rest).flatten());
                    if outcome == Ok::<DecoderStatus, D::Error>(DecoderStatus::NeedsMore) {
                        lemma_turn_goes_on(after, capacity, next, rest, result);
                        let settled = unbuffered_decode_takes_all(after, capacity, rest, result);
                        if rest.len() > 0 {
                            assert(rest.last() == reads.last());
                        }
                        lemma_failure_is_last::<D, E>(reads, result);
                        lemma_explains_more(
                            decoder,
                            bytes,
                            taken,
                            after,
                            chunks_of(rest),
                            settled,
                            all_if_ok(chunks_of(rest), result),
                            result,
                        );
                        settled
                    } else {
                        assert(chunks_of(rest) =~= Seq::empty());
                        assert(chunks =~= seq![bytes]);
                        lemma_explains_last(decoder, bytes, taken, after, outcome, result);
                        true
                    }
                }
            },
        }
    } else {
        assert(chunks =~= Seq::empty());
        assert(chunks.flatten() =~= Seq::empty());
        lemma_explains_end(decoder, result);
        false
    }
}

/// Decoding from an unbuffered reader gives what decoding from a slice of the whole stream gives,
/// with a decoder made for streams, unless reading fails. Where the stream was not read to its end
/// the decoder has to know where an object ends.
pub proof fn unbuffered_decode_decodes_stream<D: Decoder, E>(
    decoder: D,
    stream: Seq<u8>,
    capacity: nat,
    reads: Seq<Result<Seq<u8>, IoError<E>>>,
    result: ReadResult<D, E>,
)
    requires
        streaming::<D>(),
        chunks_of(reads).flatten() == stream || decoder.usable() && knows_the_end::<D>(),
        reads_from(reads, stream),
        unbuffered_decode(decoder, capacity, reads, result),
    ensures
        explains_stream(decoder, stream, all_if_ok(chunks_of(reads), result), result),
{
    let chunks = chunks_of(reads);
    let settled = unbuffered_decode_takes_all(decoder, capacity, reads, result);
    chunks_are_not_empty(reads);
    if reads.len() == 0 && chunks.flatten() != stream {
        assert(chunks.flatten() =~= Seq::empty());
        assert(stream.len() == 0 ==> stream =~= chunks.flatten());
        lemma_ready_explains_stream(decoder, stream, result);
    } else {
        lemma_explains_stream(
            decoder,
            chunks,
            settled,
            stream,
            all_if_ok(chunks, result),
            result,
        );
    }
}

/// Decoding from an unbuffered reader fails on insufficient data: where a decoder that is not ready
/// meets the end of the input, or nothing is read for it, the result is an error of the decoder.
pub proof fn unbuffered_decode_fails_at_end<D: Decoder, E>(
    decoder: D,
    capacity: nat,
    reads: Seq<Result<Seq<u8>, IoError<E>>>,
    result: ReadResult<D, E>,
)
    requires
        fails_unless_ready::<D>(),
        decoder.usable(),
        !decoder.ready(),
        at_end(reads) || reads.len() == 0,
        unbuffered_decode(decoder, capacity, reads, result),
    ensures
        result matches Err(ReadError::Decode(_)),
{
    let chunks = chunks_of(reads);
    let _ = unbuffered_decode_takes_all(decoder, capacity, reads, result);
    if let Ok(value) = result {
        insufficient_chunks_fail(decoder, chunks, all_if_ok(chunks, result), Ok(value));
    }
}

/// An interruption makes no difference to an unbuffered reader: the reads may as well be without
/// it.
pub proof fn unbuffered_run_retries<D: Decoder, E>(
    decoder: D,
    capacity: nat,
    reads: Seq<Result<Seq<u8>, IoError<E>>>,
    i: int,
    interruption: Result<Seq<u8>, IoError<E>>,
    result: ReadResult<D, E>,
)
    requires
        decoder.limit() > 0,
        is_interrupted(interruption),
        0 <= i < reads.len(),
    ensures
        unbuffered_run(decoder, capacity, reads, result) <==> unbuffered_run(
            decoder,
            capacity,
            reads.insert(i, interruption),
            result,
        ),
    decreases reads.len(),
{
    let longer = reads.insert(i, interruption);
    let rest = reads.drop_first();
    if i == 0 {
        assert(longer.drop_first() =~= reads);
        let again = Progress::<D, ReadResult<D, E>>::Continue(decoder);
        assert(unbuffered_step(decoder, longer[0], again));
    } else {
        assert(longer[0] == reads[0]);
        assert(longer.drop_first() =~= rest.insert(i - 1, interruption));
        if unbuffered_run(decoder, capacity, reads, result) {
            let next = choose|next: Progress<D, ReadResult<D, E>>| #[trigger]
                unbuffered_step(decoder, reads[0], next) && match next {
                    Progress::Continue(after) => unbuffered_run(after, capacity, rest, result),
                    Progress::Done(given) => reads.len() == 1 && given == result,
                };
            if let Progress::Continue(after) = next {
                unbuffered_run_retries(after, capacity, rest, i - 1, interruption, result);
            }
            assert(unbuffered_step(decoder, longer[0], next));
        }
        if unbuffered_run(decoder, capacity, longer, result) {
            let next = choose|next: Progress<D, ReadResult<D, E>>| #[trigger]
                unbuffered_step(decoder, longer[0], next) && match next {
                    Progress::Continue(after) => unbuffered_run(
                        after,
                        capacity,
                        longer.drop_first(),
                        result,
                    ),
                    Progress::Done(given) => longer.len() == 1 && given == result,
                };
            if let Progress::Continue(after) = next {
                unbuffered_run_retries(after, capacity, rest, i - 1, interruption, result);
            }
            assert(unbuffered_step(decoder, reads[0], next));
        }
    }
}

} // verus!
