//! Calls that check what bytes decode to.
use crate::check::{check_decode, check_decoder, checks, checks_end, compares};
use crate::decode::{push_step, starts, Decode, Decoder, DecoderStatus};
use crate::decoders::ArrayDecoder;
use crate::error::{CheckError, UnexpectedEofError};
use crate::laws::arrays::array_starts_empty;
use crate::laws::decoder::{
    can_be_finished, checks_find_what_decodes, lemma_every_byte_decodes,
};
use crate::laws::slices::decides_as;
use crate::slice::{decode_from_slice_unbounded, decodes, decodes_as};
use vstd::laws_eq::obeys_concrete_eq;
use vstd::prelude::*;

verus! {

/// Comparing decides equality, for a type whose `eq` does.
pub proof fn comparing_decides_equality<T: Eq>(value: T, expected: T, equal: bool)
    requires
        obeys_concrete_eq::<T>(),
        compares(value, expected, equal),
    ensures
        equal <==> value == expected,
{
    reveal(obeys_concrete_eq);
}

proof fn lemma_checks_by_pushes<D: Decoder>(
    decoder: D,
    bytes: Seq<u8>,
    expected: D::Output,
    outcome: Result<(), CheckError<D::Output, D::Error>>,
) -> (run: (Seq<D>, Seq<int>, Seq<Result<DecoderStatus, D::Error>>)) where D::Output: Eq
    requires
        checks(decoder, bytes, expected, outcome),
    ensures
        run.0.len() == run.1.len() == run.2.len() + 1,
        run.2.len() > 0,
        run.0[0] == decoder,
        run.1[0] == 0,
        forall|i: int|
            0 <= i < run.2.len() ==> {
                &&& 0 <= run.1[i] <= run.1[i + 1] <= bytes.len()
                &&& run.0[i].pushes(
                    bytes.skip(run.1[i]),
                    run.1[i + 1] - run.1[i],
                    &run.0[i + 1],
                    #[trigger] run.2[i],
                )
                &&& i < run.2.len() - 1 ==> run.2[i] == Ok::<DecoderStatus, D::Error>(
                    DecoderStatus::NeedsMore,
                ) && run.1[i + 1] < bytes.len()
            },
        match run.2.last() {
            Err(error) => outcome == Err::<(), CheckError<D::Output, D::Error>>(
                CheckError::Push(error),
            ),
            Ok(DecoderStatus::NeedsMore) => run.1.last() == bytes.len() && outcome == Err::<
                (),
                CheckError<D::Output, D::Error>,
            >(CheckError::NeedsMore),
            Ok(DecoderStatus::Ready) => checks_end(run.0.last(), expected, outcome),
        },
    decreases bytes.len(),
{
    let (taken, next, pushed) = choose|
        taken: int,
        next: D,
        pushed: Result<DecoderStatus, D::Error>,
    | #[trigger]
        push_step(decoder, bytes, taken, next, pushed) && match pushed {
            Err(error) => outcome == Err::<(), CheckError<D::Output, D::Error>>(
                CheckError::Push(error),
            ),
            Ok(DecoderStatus::Ready) => checks_end(next, expected, outcome),
            Ok(DecoderStatus::NeedsMore) => if taken == bytes.len() {
                outcome == Err::<(), CheckError<D::Output, D::Error>>(CheckError::NeedsMore)
            } else {
                0 < taken <= bytes.len() && checks(next, bytes.skip(taken), expected, outcome)
            },
        };
    assert(bytes.skip(0) =~= bytes);
    if pushed == Ok::<DecoderStatus, D::Error>(DecoderStatus::NeedsMore) && taken != bytes.len() {
        let rest = lemma_checks_by_pushes(next, bytes.skip(taken), expected, outcome);
        let cuts = seq![0int] + rest.1.map_values(|cut: int| taken + cut);
        let run = (seq![decoder] + rest.0, cuts, seq![pushed] + rest.2);
        assert forall|i: int| 0 <= i < run.2.len() implies {
            &&& 0 <= run.1[i] <= run.1[i + 1] <= bytes.len()
            &&& run.0[i].pushes(
                bytes.skip(run.1[i]),
                run.1[i + 1] - run.1[i],
                &run.0[i + 1],
                #[trigger] run.2[i],
            )
            &&& i < run.2.len() - 1 ==> run.2[i] == Ok::<DecoderStatus, D::Error>(
                DecoderStatus::NeedsMore,
            ) && run.1[i + 1] < bytes.len()
        } by {
            if i > 0 {
                assert(run.2[i] == rest.2[i - 1]);
                assert(run.0[i] == rest.0[i - 1]);
                assert(run.0[i + 1] == rest.0[i]);
                assert(run.1[i] == taken + rest.1[i - 1]);
                assert(run.1[i + 1] == taken + rest.1[i]);
                assert(bytes.skip(taken).skip(rest.1[i - 1]) =~= bytes.skip(run.1[i]));
            } else {
                assert(run.0[1] == rest.0[0]);
                assert(run.1[1] == taken + rest.1[0]);
            }
        }
        assert(run.0.last() == rest.0.last());
        assert(run.1.last() == taken + rest.1.last());
        assert(run.2.last() == rest.2.last());
        run
    } else {
        (seq![decoder, next], seq![0int, taken], seq![pushed])
    }
}

/// Checking a decoder pushes the bytes into it, in order and each once, until it is ready or
/// fails. A decoder that fails is reported, as is one that needs more when nothing is left. One
/// that is ready is finished: if that fails it is reported, and otherwise the check passes exactly
/// if the `eq` of the values says so.
///
/// Tells the decoders that the pushes lead through, how many bytes each of them has taken, and what
/// the pushes returned.
pub proof fn checked_bytes_are_pushed_in_order<D: Decoder>(
    decoder: D,
    bytes: &[u8],
    expected: &D::Output,
    outcome: Result<(), CheckError<D::Output, D::Error>>,
) -> (run: (Seq<D>, Seq<int>, Seq<Result<DecoderStatus, D::Error>>)) where D::Output: Eq
    requires
        call_ensures(check_decoder::<D>, (decoder, bytes, expected), outcome),
    ensures
        run.0.len() == run.1.len() == run.2.len() + 1,
        run.2.len() > 0,
        run.0[0] == decoder,
        run.1[0] == 0,
        forall|i: int|
            0 <= i < run.2.len() ==> {
                &&& 0 <= run.1[i] <= run.1[i + 1] <= bytes@.len()
                &&& run.0[i].pushes(
                    bytes@.skip(run.1[i]),
                    run.1[i + 1] - run.1[i],
                    &run.0[i + 1],
                    #[trigger] run.2[i],
                )
                &&& i < run.2.len() - 1 ==> run.2[i] == Ok::<DecoderStatus, D::Error>(
                    DecoderStatus::NeedsMore,
                ) && run.1[i + 1] < bytes@.len()
            },
        match run.2.last() {
            Err(error) => outcome == Err::<(), CheckError<D::Output, D::Error>>(
                CheckError::Push(error),
            ),
            Ok(DecoderStatus::NeedsMore) => run.1.last() == bytes@.len() && outcome == Err::<
                (),
                CheckError<D::Output, D::Error>,
            >(CheckError::NeedsMore),
            Ok(DecoderStatus::Ready) => match outcome {
                Ok(_) => exists|value: D::Output| #[trigger]
                    run.0.last().ends(Ok(value)) && call_ensures(
                        <D::Output as PartialEq>::eq,
                        (&value, expected),
                        true,
                    ),
                Err(CheckError::Mismatch(value)) => run.0.last().ends(Ok(value)) && call_ensures(
                    <D::Output as PartialEq>::eq,
                    (&value, expected),
                    false,
                ),
                Err(CheckError::End(error)) => run.0.last().ends(Err(error)),
                Err(_) => false,
            },
        },
{
    lemma_checks_by_pushes(decoder, bytes@, *expected, outcome)
}

proof fn lemma_check_starts<T: Decode + Eq>(
    bytes: &[u8],
    expected: &T,
    outcome: Result<(), CheckError<T, <T::Decoder as Decoder>::Error>>,
) -> (start: T::Decoder)
    requires
        call_ensures(check_decode::<T>, (bytes, expected), outcome),
    ensures
        call_ensures(T::decoder, (), start),
        checks(start, bytes@, *expected, outcome),
{
    choose|start: T::Decoder|
        starts::<T>(start) && #[trigger] checks(start, bytes@, *expected, outcome)
}

/// Checking an object checks a decoder of the object in the same way.
pub proof fn checked_object_is_pushed_in_order<T: Decode + Eq>(
    bytes: &[u8],
    expected: &T,
    outcome: Result<(), CheckError<T, <T::Decoder as Decoder>::Error>>,
) -> (run: (Seq<T::Decoder>, Seq<int>, Seq<Result<DecoderStatus, <T::Decoder as Decoder>::Error>>))
    requires
        call_ensures(check_decode::<T>, (bytes, expected), outcome),
    ensures
        run.0.len() == run.1.len() == run.2.len() + 1,
        run.2.len() > 0,
        call_ensures(T::decoder, (), run.0[0]),
        run.1[0] == 0,
        forall|i: int|
            0 <= i < run.2.len() ==> {
                &&& 0 <= run.1[i] <= run.1[i + 1] <= bytes@.len()
                &&& run.0[i].pushes(
                    bytes@.skip(run.1[i]),
                    run.1[i + 1] - run.1[i],
                    &run.0[i + 1],
                    #[trigger] run.2[i],
                )
                &&& i < run.2.len() - 1 ==> run.2[i] == Ok::<
                    DecoderStatus,
                    <T::Decoder as Decoder>::Error,
                >(DecoderStatus::NeedsMore) && run.1[i + 1] < bytes@.len()
            },
        match run.2.last() {
            Err(error) => outcome == Err::<(), CheckError<T, <T::Decoder as Decoder>::Error>>(
                CheckError::Push(error),
            ),
            Ok(DecoderStatus::NeedsMore) => run.1.last() == bytes@.len() && outcome == Err::<
                (),
                CheckError<T, <T::Decoder as Decoder>::Error>,
            >(CheckError::NeedsMore),
            Ok(DecoderStatus::Ready) => match outcome {
                Ok(_) => exists|value: T| #[trigger]
                    run.0.last().ends(Ok(value)) && call_ensures(
                        <T as PartialEq>::eq,
                        (&value, expected),
                        true,
                    ),
                Err(CheckError::Mismatch(value)) => run.0.last().ends(Ok(value)) && call_ensures(
                    <T as PartialEq>::eq,
                    (&value, expected),
                    false,
                ),
                Err(CheckError::End(error)) => run.0.last().ends(Err(error)),
                Err(_) => false,
            },
        },
{
    let start = lemma_check_starts::<T>(bytes, expected, outcome);
    lemma_checks_by_pushes(start, bytes@, *expected, outcome)
}

/// A check says what decoding says: for an object whose `eq` decides equality, and where decoding
/// the bytes has only one result, the check passes only if they decode to the expected object, and
/// reports any other object that they decode to, or the error with which decoding them fails. If it
/// needs more, decoding them leaves nothing over.
pub proof fn check_agrees_with_decoding<T: Decode + Eq>(
    bytes: &[u8],
    expected: &T,
    outcome: Result<(), CheckError<T, <T::Decoder as Decoder>::Error>>,
    front: &mut &[u8],
    parsed: Result<T, <T::Decoder as Decoder>::Error>,
)
    requires
        obeys_concrete_eq::<T>(),
        can_be_finished::<T::Decoder>(),
        decides_as::<T>(bytes@),
        0 < bytes@.len(),
        old(front)@ == bytes@,
        call_ensures(check_decode::<T>, (bytes, expected), outcome),
        call_ensures(decode_from_slice_unbounded::<T>, (front,), parsed),
    ensures
        match outcome {
            Ok(_) => parsed == Ok::<T, <T::Decoder as Decoder>::Error>(*expected),
            Err(CheckError::Mismatch(value)) => value != *expected && parsed == Ok::<
                T,
                <T::Decoder as Decoder>::Error,
            >(value),
            Err(CheckError::Push(error)) => parsed == Err::<T, <T::Decoder as Decoder>::Error>(
                error,
            ),
            Err(CheckError::End(error)) => parsed == Err::<T, <T::Decoder as Decoder>::Error>(
                error,
            ),
            Err(CheckError::NeedsMore) => final(front)@.len() == 0,
        },
{
    let start = lemma_check_starts::<T>(bytes, expected, outcome);
    checks_find_what_decodes(start, bytes@, *expected, outcome);
    match outcome {
        Ok(_) => {
            let (consumed, value) = choose|consumed: int, value: T| #[trigger]
                decodes(start, bytes@, consumed, Ok(value)) && compares(value, *expected, true);
            comparing_decides_equality(value, *expected, true);
            assert(decodes_as::<T>(bytes@, consumed, Ok(value)));
        },
        Err(CheckError::Mismatch(value)) => {
            let consumed = choose|consumed: int| #[trigger]
                decodes(start, bytes@, consumed, Ok(value));
            comparing_decides_equality(value, *expected, false);
            assert(decodes_as::<T>(bytes@, consumed, Ok(value)));
        },
        Err(CheckError::Push(error)) => {
            let consumed = choose|consumed: int| #[trigger]
                decodes(start, bytes@, consumed, Err(error));
            assert(decodes_as::<T>(bytes@, consumed, Err(error)));
        },
        Err(CheckError::End(error)) => {
            let consumed = choose|consumed: int| #[trigger]
                decodes(start, bytes@, consumed, Err(error));
            assert(decodes_as::<T>(bytes@, consumed, Err(error)));
        },
        Err(CheckError::NeedsMore) => {
            let result = lemma_every_byte_decodes(start, bytes@);
            assert(decodes_as::<T>(bytes@, bytes@.len() as int, result));
        },
    }
}

/// Checking that bytes decode to an array compares the first of them with it: the check passes or
/// finds another array as the `eq` of arrays says. Too few bytes are reported.
pub proof fn check_compares_the_array<const N: usize>(
    bytes: &[u8],
    expected: &[u8; N],
    outcome: Result<(), CheckError<[u8; N], UnexpectedEofError>>,
)
    requires
        call_ensures(check_decode::<[u8; N]>, (bytes, expected), outcome),
    ensures
        bytes@.len() < N ==> (outcome matches Err(CheckError::NeedsMore)),
        bytes@.len() >= N ==> match outcome {
            Ok(_) => exists|array: [u8; N]|
                array@ == bytes@.take(N as int) && #[trigger] compares(array, *expected, true),
            Err(CheckError::Mismatch(array)) => array@ == bytes@.take(N as int) && compares(
                array,
                *expected,
                false,
            ),
            Err(_) => false,
        },
        bytes@.len() >= N && obeys_concrete_eq::<[u8; N]>() ==> (outcome is Ok <==> expected@
            == bytes@.take(N as int)),
{
    let start = lemma_check_starts::<[u8; N]>(bytes, expected, outcome);
    array_starts_empty(start);
    let (taken, next, pushed) = choose|
        taken: int,
        next: ArrayDecoder<N>,
        pushed: Result<DecoderStatus, UnexpectedEofError>,
    | #[trigger]
        push_step(start, bytes@, taken, next, pushed) && match pushed {
            Err(error) => outcome == Err::<(), CheckError<[u8; N], UnexpectedEofError>>(
                CheckError::Push(error),
            ),
            Ok(DecoderStatus::Ready) => checks_end(next, *expected, outcome),
            Ok(DecoderStatus::NeedsMore) => if taken == bytes@.len() {
                outcome == Err::<(), CheckError<[u8; N], UnexpectedEofError>>(
                    CheckError::NeedsMore,
                )
            } else {
                0 < taken <= bytes@.len() && checks(next, bytes@.skip(taken), *expected, outcome)
            },
        };
    assert(start.received() + bytes@.take(taken) =~= bytes@.take(taken));
    if bytes@.len() >= N {
        let ended = choose|ended: Result<[u8; N], UnexpectedEofError>| #[trigger]
            next.ends(ended) && match ended {
                Err(error) => outcome == Err::<(), CheckError<[u8; N], UnexpectedEofError>>(
                    CheckError::End(error),
                ),
                Ok(array) => {
                    ||| outcome is Ok && compares(array, *expected, true)
                    ||| outcome == Err::<(), CheckError<[u8; N], UnexpectedEofError>>(
                        CheckError::Mismatch(array),
                    ) && compares(array, *expected, false)
                },
            };
        assert(next.received().len() == N);
        let array = ended->Ok_0;
        if obeys_concrete_eq::<[u8; N]>() {
            comparing_decides_equality(array, *expected, outcome is Ok);
            if expected@ == bytes@.take(N as int) {
                assert(array =~= *expected);
            }
        }
    }
}

} // verus!
