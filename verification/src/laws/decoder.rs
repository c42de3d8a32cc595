//! Laws of decoders and of checking them.
use crate::check::{checks, checks_end, compares};
use crate::decode::{push_step, Decoder, DecoderStatus};
use crate::error::CheckError;
use crate::laws::chunks::{decides, decodes_chunks};
use crate::slice::decodes;
use vstd::prelude::*;

verus! {

/// Pushing `chunks` in turn, starting with `decoder`, can take `taken` bytes of each, return
/// `outcomes` and leave the decoder as `last`. No push fails but the last.
pub open spec fn pushes_in_turn<D: Decoder>(
    decoder: D,
    chunks: Seq<Seq<u8>>,
    taken: Seq<int>,
    outcomes: Seq<Result<DecoderStatus, D::Error>>,
    last: D,
) -> bool
    decreases chunks.len(),
{
    &&& chunks.len() == taken.len() == outcomes.len()
    &&& if chunks.len() == 0 {
        last == decoder
    } else {
        exists|next: D| #[trigger]
            push_step(decoder, chunks[0], taken[0], next, outcomes[0]) && (outcomes[0] is Err ==>
                chunks.len() == 1) && pushes_in_turn(
                next,
                chunks.drop_first(),
                taken.drop_first(),
                outcomes.drop_first(),
                last,
            )
    }
}

/// Once a decoder is ready it stays so: whatever is pushed into it, it says that it is ready and
/// takes nothing.
pub proof fn ready_stays_ready<D: Decoder>(
    decoder: D,
    chunks: Seq<Seq<u8>>,
    taken: Seq<int>,
    outcomes: Seq<Result<DecoderStatus, D::Error>>,
    last: D,
)
    requires
        decoder.ready(),
        pushes_in_turn(decoder, chunks, taken, outcomes, last),
    ensures
        last.ready(),
        forall|i: int|
            0 <= i < chunks.len() ==> #[trigger] taken[i] == 0 && outcomes[i] == Ok::<
                DecoderStatus,
                D::Error,
            >(DecoderStatus::Ready),
    decreases chunks.len(),
{
    if chunks.len() > 0 {
        let next = choose|next: D| #[trigger]
            push_step(decoder, chunks[0], taken[0], next, outcomes[0]) && (outcomes[0] is Err ==>
                chunks.len() == 1) && pushes_in_turn(
                next,
                chunks.drop_first(),
                taken.drop_first(),
                outcomes.drop_first(),
                last,
            );
        ready_stays_ready(
            next,
            chunks.drop_first(),
            taken.drop_first(),
            outcomes.drop_first(),
            last,
        );
        assert forall|i: int| 0 <= i < chunks.len() implies #[trigger] taken[i] == 0 && outcomes[i]
            == Ok::<DecoderStatus, D::Error>(DecoderStatus::Ready) by {
            if i > 0 {
                assert(taken[i] == taken.drop_first()[i - 1]);
                assert(outcomes[i] == outcomes.drop_first()[i - 1]);
            }
        }
    }
}

/// Pushing `bytes` into `decoder` can take every one of them and leave a decoder that needs more.
pub open spec fn takes_every_byte<D: Decoder>(decoder: D, bytes: Seq<u8>) -> bool
    decreases bytes.len(),
{
    exists|taken: int, next: D| #[trigger]
        push_step(decoder, bytes, taken, next, Ok(DecoderStatus::NeedsMore)) && (taken
            == bytes.len() || 0 < taken <= bytes.len() && takes_every_byte(
            next,
            bytes.skip(taken),
        ))
}

/// Finishing a decoder gives some result.
pub open spec fn can_be_finished<D: Decoder>() -> bool {
    forall|decoder: D| #[trigger]
        decoder.usable() ==> exists|result: Result<D::Output, D::Error>| #[trigger]
            decoder.ends(result)
}

/// Finishing a decoder that is not ready fails: it has been given too little data.
pub open spec fn fails_unless_ready<D: Decoder>() -> bool {
    forall|decoder: D, result: Result<D::Output, D::Error>|
        decoder.usable() && !decoder.ready() && #[trigger] decoder.ends(result) ==> result is Err
}

/// If the `outcome` of a check is that it passes, `bytes` decode to a value that compares equal to
/// the expected one. If the check finds another value they decode to that, and if the decoder
/// fails decoding them fails with the same error. If it needs more it took every byte.
pub open spec fn finds_what_decodes<D: Decoder>(
    decoder: D,
    bytes: Seq<u8>,
    expected: D::Output,
    outcome: Result<(), CheckError<D::Output, D::Error>>,
) -> bool where D::Output: Eq {
    match outcome {
        Ok(_) => exists|consumed: int, value: D::Output| #[trigger]
            decodes(decoder, bytes, consumed, Ok(value)) && compares(value, expected, true),
        Err(CheckError::Mismatch(value)) => compares(value, expected, false) && exists|
            consumed: int,
        | #[trigger]
            decodes(decoder, bytes, consumed, Ok(value)),
        Err(CheckError::Push(error)) => exists|consumed: int| #[trigger]
            decodes(decoder, bytes, consumed, Err(error)),
        Err(CheckError::End(error)) => exists|consumed: int| #[trigger]
            decodes(decoder, bytes, consumed, Err(error)),
        Err(CheckError::NeedsMore) => takes_every_byte(decoder, bytes),
    }
}

/// What a check finds about some bytes is what decoding them gives.
pub proof fn checks_find_what_decodes<D: Decoder>(
    decoder: D,
    bytes: Seq<u8>,
    expected: D::Output,
    outcome: Result<(), CheckError<D::Output, D::Error>>,
) where D::Output: Eq
    requires
        bytes.len() > 0,
        checks(decoder, bytes, expected, outcome),
    ensures
        finds_what_decodes(decoder, bytes, expected, outcome),
    decreases bytes.len(),
{
    let (taken, next, pushed) = choose|
        taken: int,
        next: D,
        pushed: Result<DecoderStatus, D::Error>,
    | #[trigger]
        push_step(decoder, bytes, taken, next, pushed) && match pushed {
            Err(error) => outcome == Err::<(), CheckError<D::Output, D::Error>>(
                CheckError::Push(error),
            ),
            Ok(DecoderStatus::Ready) => checks_end(next, expected, outcome),
            Ok(DecoderStatus::NeedsMore) => if taken == bytes.len() {
                outcome == Err::<(), CheckError<D::Output, D::Error>>(CheckError::NeedsMore)
            } else {
                0 < taken <= bytes.len() && checks(next, bytes.skip(taken), expected, outcome)
            },
        };
    match pushed {
        Err(error) => {
            assert(decodes(decoder, bytes, taken, Err(error)));
            assert(outcome->Err_0->Push_0 == error);
        },
        Ok(DecoderStatus::Ready) => {
            let ended = choose|ended: Result<D::Output, D::Error>| #[trigger]
                next.ends(ended) && match ended {
                    Err(error) => outcome == Err::<(), CheckError<D::Output, D::Error>>(
                        CheckError::End(error),
                    ),
                    Ok(value) => {
                        ||| outcome is Ok && compares(value, expected, true)
                        ||| outcome == Err::<(), CheckError<D::Output, D::Error>>(
                            CheckError::Mismatch(value),
                        ) && compares(value, expected, false)
                    },
                };
            match ended {
                Ok(value) => {
                    assert(decodes(decoder, bytes, taken, Ok(value)));
                    assert(outcome is Err ==> outcome->Err_0->Mismatch_0 == value);
                },
                Err(error) => {
                    assert(decodes(decoder, bytes, taken, Err(error)));
                    assert(outcome->Err_0->End_0 == error);
                },
            }
        },
        Ok(DecoderStatus::NeedsMore) => {
            if taken != bytes.len() {
                let rest = bytes.skip(taken);
                checks_find_what_decodes(next, rest, expected, outcome);
                match outcome {
                    Ok(_) => {
                        let (consumed, value) = choose|consumed: int, value: D::Output| #[trigger]
                            decodes(next, rest, consumed, Ok(value)) && compares(
                                value,
                                expected,
                                true,
                            );
                        assert(decodes(decoder, bytes, taken + consumed, Ok(value)));
                    },
                    Err(CheckError::Mismatch(value)) => {
                        let consumed = choose|consumed: int| #[trigger]
                            decodes(next, rest, consumed, Ok(value));
                        assert(decodes(decoder, bytes, taken + consumed, Ok(value)));
                    },
                    Err(CheckError::Push(error)) => {
                        let consumed = choose|consumed: int| #[trigger]
                            decodes(next, rest, consumed, Err(error));
                        assert(decodes(decoder, bytes, taken + consumed, Err(error)));
                    },
                    Err(CheckError::End(error)) => {
                        let consumed = choose|consumed: int| #[trigger]
                            decodes(next, rest, consumed, Err(error));
                        assert(decodes(decoder, bytes, taken + consumed, Err(error)));
                    },
                    Err(CheckError::NeedsMore) => {
                        assert(takes_every_byte(next, rest));
                    },
                }
            }
        },
    }
}

pub(crate) proof fn lemma_every_byte_decodes<D: Decoder>(decoder: D, bytes: Seq<u8>) -> (result:
    Result<D::Output, D::Error>)
    requires
        can_be_finished::<D>(),
        takes_every_byte(decoder, bytes),
        bytes.len() > 0,
    ensures
        decodes(decoder, bytes, bytes.len() as int, result),
        fails_unless_ready::<D>() ==> result is Err,
    decreases bytes.len(),
{
    let (taken, next) = choose|taken: int, next: D| #[trigger]
        push_step(decoder, bytes, taken, next, Ok(DecoderStatus::NeedsMore)) && (taken
            == bytes.len() || 0 < taken <= bytes.len() && takes_every_byte(
            next,
            bytes.skip(taken),
        ));
    let rest = bytes.skip(taken);
    let result = if taken == bytes.len() {
        assert(next.usable());
        choose|result: Result<D::Output, D::Error>| #[trigger] next.ends(result)
    } else {
        lemma_every_byte_decodes(next, rest)
    };
    assert(decodes(next, rest, bytes.len() - taken, result));
    result
}

/// Where a decoder takes every byte and needs more, and decoding them has only one result, nothing
/// is left over.
pub proof fn nothing_is_left_over<D: Decoder>(
    decoder: D,
    bytes: Seq<u8>,
    consumed: int,
    result: Result<D::Output, D::Error>,
)
    requires
        can_be_finished::<D>(),
        decides(decoder, bytes),
        takes_every_byte(decoder, bytes),
        decodes(decoder, bytes, consumed, result),
    ensures
        consumed == bytes.len(),
{
    if bytes.len() > 0 {
        let _ = lemma_every_byte_decodes(decoder, bytes);
    }
}

/// Decoding insufficient data fails: where a decoder takes every byte and needs more, and decoding
/// them has only one result, that is an error.
pub proof fn insufficient_data_fails<D: Decoder>(
    decoder: D,
    bytes: Seq<u8>,
    consumed: int,
    result: Result<D::Output, D::Error>,
)
    requires
        can_be_finished::<D>(),
        fails_unless_ready::<D>(),
        decides(decoder, bytes),
        decoder.usable(),
        takes_every_byte(decoder, bytes),
        decodes(decoder, bytes, consumed, result),
    ensures
        result is Err,
{
    if bytes.len() > 0 {
        let _ = lemma_every_byte_decodes(decoder, bytes);
    }
}

/// Decoding chunks that are too little data fails: where the decoder still needs more after the
/// last of them, the result is an error.
pub proof fn insufficient_chunks_fail<D: Decoder>(
    decoder: D,
    chunks: Seq<Seq<u8>>,
    consumed: int,
    result: Result<D::Output, D::Error>,
)
    requires
        fails_unless_ready::<D>(),
        decoder.usable(),
        !decoder.ready(),
        decodes_chunks(decoder, chunks, false, consumed, result),
    ensures
        result is Err,
    decreases chunks.len(),
{
    if chunks.len() > 0 {
        let (taken, next) = choose|taken: int, next: D| #[trigger]
            push_step(decoder, chunks[0], taken, next, Ok(DecoderStatus::NeedsMore))
                && decodes_chunks(next, chunks.drop_first(), false, consumed - taken, result);
        insufficient_chunks_fail(next, chunks.drop_first(), consumed - taken, result);
    }
}

/// Bytes that decode to a value, with some left over, pass the check that they do: the check finds
/// that value and compares it with the expected one.
pub proof fn leftovers_pass_the_check<D: Decoder>(
    decoder: D,
    bytes: Seq<u8>,
    consumed: int,
    value: D::Output,
    expected: D::Output,
    outcome: Result<(), CheckError<D::Output, D::Error>>,
) where D::Output: Eq
    requires
        can_be_finished::<D>(),
        decides(decoder, bytes),
        decodes(decoder, bytes, consumed, Ok(value)),
        consumed < bytes.len(),
        checks(decoder, bytes, expected, outcome),
    ensures
        match outcome {
            Ok(_) => compares(value, expected, true),
            Err(error) => compares(value, expected, false) && error == CheckError::<
                D::Output,
                D::Error,
            >::Mismatch(value),
        },
        !compares(value, expected, false) ==> outcome is Ok,
{
    if bytes.len() > 0 {
        checks_find_what_decodes(decoder, bytes, expected, outcome);
        if outcome matches Err(CheckError::NeedsMore) {
            nothing_is_left_over(decoder, bytes, consumed, Ok(value));
        }
    }
}

} // verus!
