//! Checking that bytes decode to an expected value.
use crate::decode::{push_step, starts, starts_usable, Decode, Decoder, DecoderStatus};
use crate::error::CheckError;
use vstd::prelude::*;

verus! {

/// Comparing `value` with `expected` can find that they are `equal`, or that they are not.
pub open spec fn compares<T: Eq>(value: T, expected: T, equal: bool) -> bool {
    call_ensures(<T as PartialEq>::eq, (&value, &expected), equal)
}

/// Finishing `decoder` and comparing what it gives with `expected` can have this `outcome`.
pub open spec fn checks_end<D: Decoder>(
    decoder: D,
    expected: D::Output,
    outcome: Result<(), CheckError<D::Output, D::Error>>,
) -> bool where D::Output: Eq {
    exists|ended: Result<D::Output, D::Error>| #[trigger]
        decoder.ends(ended) && match ended {
            Err(error) => outcome == Err::<(), CheckError<D::Output, D::Error>>(
                CheckError::End(error),
            ),
            Ok(value) => {
                ||| outcome is Ok && compares(value, expected, true)
                ||| outcome == Err::<(), CheckError<D::Output, D::Error>>(
                    CheckError::Mismatch(value),
                ) && compares(value, expected, false)
            },
        }
}

/// Checking that `decoder` produces `expected` from `bytes` can have this `outcome`.
///
/// The bytes are pushed, at least once, until the decoder fails or is ready. It must not need
/// more when none are left.
pub open spec fn checks<D: Decoder>(
    decoder: D,
    bytes: Seq<u8>,
    expected: D::Output,
    outcome: Result<(), CheckError<D::Output, D::Error>>,
) -> bool where D::Output: Eq
    decreases bytes.len(),
{
    exists|taken: int, next: D, pushed: Result<DecoderStatus, D::Error>| #[trigger]
        push_step(decoder, bytes, taken, next, pushed) && match pushed {
            Err(error) => outcome == Err::<(), CheckError<D::Output, D::Error>>(
                CheckError::Push(error),
            ),
            Ok(DecoderStatus::Ready) => checks_end(next, expected, outcome),
            Ok(DecoderStatus::NeedsMore) => if taken == bytes.len() {
                outcome == Err::<(), CheckError<D::Output, D::Error>>(CheckError::NeedsMore)
            } else {
                0 < taken <= bytes.len() && checks(next, bytes.skip(taken), expected, outcome)
            },
        }
}

/// Checks that the given bytes decode to the expected value.
///
/// This is intended for tests only.
pub fn check_decode<T: Decode + Eq>(bytes: &[u8], expected: &T) -> (outcome: Result<
    (),
    CheckError<T, <T::Decoder as Decoder>::Error>,
>)
    requires
        starts_usable::<T>(),
    ensures
        exists|start: T::Decoder|
            starts::<T>(start) && #[trigger] checks(
                start,
                bytes@,
                *expected,
                outcome,
            ),
{
    let decoder = T::decoder();
    assert(starts::<T>(decoder));
    check_decoder(decoder, bytes, expected)
}

/// Checks that the given `decoder` produces the expected value.
///
/// This is intended for tests only.
pub fn check_decoder<D: Decoder>(decoder: D, bytes: &[u8], expected: &D::Output) -> (outcome:
    Result<(), CheckError<D::Output, D::Error>>) where D::Output: Eq
    requires
        decoder.usable(),
    ensures
        checks(decoder, bytes@, *expected, outcome),
{
    let mut current = decoder;
    let mut rest: &[u8] = bytes;

    loop
        invariant_except_break
            current.usable(),
            forall|outcome: Result<(), CheckError<D::Output, D::Error>>| #[trigger]
                checks(current, rest@, *expected, outcome) ==> checks(
                    decoder,
                    bytes@,
                    *expected,
                    outcome,
                ),
        ensures
            current.usable(),
            forall|outcome: Result<(), CheckError<D::Output, D::Error>>| #[trigger]
                checks_end(current, *expected, outcome) ==> checks(
                    decoder,
                    bytes@,
                    *expected,
                    outcome,
                ),
        decreases rest@.len(),
    {
        let ghost before = current;
        let ghost pushed = rest@;
        let outcome = current.push_bytes(&mut rest);
        let ghost taken = pushed.len() - rest@.len();
        assert(push_step(before, pushed, taken, current, outcome));
        match outcome {
            Ok(status) => {
                if status.is_ready() {
                    assert forall|outcome: Result<(), CheckError<D::Output, D::Error>>| #[trigger]
                        checks_end(current, *expected, outcome) implies checks(
                        decoder,
                        bytes@,
                        *expected,
                        outcome,
                    ) by {
                        assert(checks(before, pushed, *expected, outcome));
                    }
                    break;
                }
                if rest.is_empty() {
                    assert(checks(before, pushed, *expected, Err(CheckError::NeedsMore)));
                    return Err(CheckError::NeedsMore);
                }
                assert forall|outcome: Result<(), CheckError<D::Output, D::Error>>| #[trigger]
                    checks(current, rest@, *expected, outcome) implies checks(
                    decoder,
                    bytes@,
                    *expected,
                    outcome,
                ) by {
                    assert(checks(before, pushed, *expected, outcome));
                }
            },
            Err(error) => {
                assert(checks(before, pushed, *expected, Err(CheckError::Push(error))));
                return Err(CheckError::Push(error));
            },
        }
    }

    let ended = current.end();
    match ended {
        Ok(result) => {
            let equal = result.eq(expected);
            assert(compares(result, *expected, equal));
            if equal {
                assert(checks_end(current, *expected, Ok(())));
                Ok(())
            } else {
                assert(checks_end(current, *expected, Err(CheckError::Mismatch(result))));
                Err(CheckError::Mismatch(result))
            }
        },
        Err(error) => {
            assert(checks_end(current, *expected, Err(CheckError::End(error))));
            Err(CheckError::End(error))
        },
    }
}

} // verus!
