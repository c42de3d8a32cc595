//! Calls that decode from slices.
use crate::decode::{push_step, starts, Decode, Decoder, DecoderStatus};
use crate::error::DecodeError;
use crate::laws::chunks::{decides, takes_whole};
use crate::slice::{
    decode_from_slice, decode_from_slice_unbounded, decodes, decodes_as, without_leftovers,
};
use vstd::prelude::*;

verus! {

proof fn lemma_decodes_by_pushes<D: Decoder>(
    decoder: D,
    bytes: Seq<u8>,
    consumed: int,
    result: Result<D::Output, D::Error>,
) -> (run: (Seq<D>, Seq<int>, Seq<Result<DecoderStatus, D::Error>>))
    requires
        decodes(decoder, bytes, consumed, result),
    ensures
        run.0.len() == run.1.len() == run.2.len() + 1,
        run.0[0] == decoder,
        run.1[0] == 0,
        run.1.last() == consumed,
        forall|i: int|
            0 <= i < run.2.len() ==> {
                &&& 0 <= run.1[i] < bytes.len()
                &&& run.1[i] <= run.1[i + 1] <= bytes.len()
                &&& run.0[i].pushes(
                    bytes.skip(run.1[i]),
                    run.1[i + 1] - run.1[i],
                    &run.0[i + 1],
                    #[trigger] run.2[i],
                )
                &&& i < run.2.len() - 1 ==> run.2[i] == Ok::<DecoderStatus, D::Error>(
                    DecoderStatus::NeedsMore,
                )
            },
        run.2.len() == 0 || run.2.last() == Ok::<DecoderStatus, D::Error>(DecoderStatus::NeedsMore)
            ==> consumed == bytes.len(),
        if run.2.len() > 0 && run.2.last() is Err {
            result == Err::<D::Output, D::Error>(run.2.last()->Err_0)
        } else {
            run.0.last().ends(result)
        },
    decreases bytes.len(),
{
    if bytes.len() == 0 {
        (seq![decoder], seq![0int], Seq::empty())
    } else {
        let (taken, next, outcome) = choose|
            taken: int,
            next: D,
            outcome: Result<DecoderStatus, D::Error>,
        | #[trigger]
            push_step(decoder, bytes, taken, next, outcome) && match outcome {
                Err(error) => consumed == taken && result == Err::<D::Output, D::Error>(error),
                Ok(DecoderStatus::Ready) => consumed == taken && next.ends(result),
                Ok(DecoderStatus::NeedsMore) => 0 < taken <= bytes.len() && decodes(
                    next,
                    bytes.skip(taken),
                    consumed - taken,
                    result,
                ),
            };
        assert(bytes.skip(0) =~= bytes);
        if outcome == Ok::<DecoderStatus, D::Error>(DecoderStatus::NeedsMore) {
            let rest = lemma_decodes_by_pushes(next, bytes.skip(taken), consumed - taken, result);
            let cuts = seq![0int] + rest.1.map_values(|cut: int| taken + cut);
            let run = (seq![decoder] + rest.0, cuts, seq![outcome] + rest.2);
            assert forall|i: int| 0 <= i < run.2.len() implies {
                &&& 0 <= run.1[i] < bytes.len()
                &&& run.1[i] <= run.1[i + 1] <= bytes.len()
                &&& run.0[i].pushes(
                    bytes.skip(run.1[i]),
                    run.1[i + 1] - run.1[i],
                    &run.0[i + 1],
                    #[trigger] run.2[i],
                )
                &&& i < run.2.len() - 1 ==> run.2[i] == Ok::<DecoderStatus, D::Error>(
                    DecoderStatus::NeedsMore,
                )
            } by {
                if i > 0 {
                    assert(run.2[i] == rest.2[i - 1]);
                    assert(run.0[i] == rest.0[i - 1]);
                    assert(run.0[i + 1] == rest.0[i]);
                    assert(run.1[i] == taken + rest.1[i - 1]);
                    assert(run.1[i + 1] == taken + rest.1[i]);
                    assert(bytes.skip(taken).skip(rest.1[i - 1]) =~= bytes.skip(run.1[i]));
                } else {
                    assert(run.0[1] == rest.0[0]);
                    assert(run.1[1] == taken + rest.1[0]);
                }
            }
            assert(run.0.last() == rest.0.last());
            assert(run.1.last() == taken + rest.1.last());
            assert(rest.2.len() > 0 ==> run.2.last() == rest.2.last());
            run
        } else {
            (seq![decoder, next], seq![0int, taken], seq![outcome])
        }
    }
}

/// Decoding from the front of a slice pushes the bytes of the slice, in order and each once, into
/// one decoder of the object until that is ready, fails, or nothing is left. A decoder that fails
/// gives its error; otherwise the result is what finishing that decoder gives. What it did not take
/// is `left`.
///
/// Tells the decoders that the pushes lead through, how many bytes each of them has taken, and what
/// the pushes returned.
pub proof fn unbounded_slice_is_pushed_in_order<T: Decode>(
    bytes: &mut &[u8],
    left: Seq<u8>,
    result: Result<T, <T::Decoder as Decoder>::Error>,
) -> (run: (
    Seq<T::Decoder>,
    Seq<int>,
    Seq<Result<DecoderStatus, <T::Decoder as Decoder>::Error>>,
))
    requires
        call_ensures(decode_from_slice_unbounded::<T>, (bytes,), result),
        left == final(bytes)@,
    ensures
        run.0.len() == run.1.len() == run.2.len() + 1,
        call_ensures(T::decoder, (), run.0[0]),
        run.1[0] == 0,
        forall|i: int|
            0 <= i < run.2.len() ==> {
                &&& 0 <= run.1[i] < old(bytes)@.len()
                &&& run.1[i] <= run.1[i + 1] <= old(bytes)@.len()
                &&& run.0[i].pushes(
                    old(bytes)@.skip(run.1[i]),
                    run.1[i + 1] - run.1[i],
                    &run.0[i + 1],
                    #[trigger] run.2[i],
                )
                &&& i < run.2.len() - 1 ==> run.2[i] == Ok::<
                    DecoderStatus,
                    <T::Decoder as Decoder>::Error,
                >(DecoderStatus::NeedsMore)
            },
        run.2.len() == 0 || run.2.last() == Ok::<DecoderStatus, <T::Decoder as Decoder>::Error>(
            DecoderStatus::NeedsMore,
        ) ==> run.1.last() == old(bytes)@.len(),
        if run.2.len() > 0 && run.2.last() is Err {
            result == Err::<T, <T::Decoder as Decoder>::Error>(run.2.last()->Err_0)
        } else {
            run.0.last().ends(result)
        },
        left == old(bytes)@.skip(run.1.last()),
{
    let consumed = old(bytes)@.len() - left.len();
    let start = choose|start: T::Decoder|
        starts::<T>(start) && #[trigger] decodes(start, old(bytes)@, consumed, result);
    lemma_decodes_by_pushes(start, old(bytes)@, consumed, result)
}

/// Decoding a whole slice pushes its bytes in the same way. Where finishing the decoder gives an
/// object, all bytes must have been taken.
pub proof fn slice_is_pushed_in_order<T: Decode>(
    bytes: &[u8],
    result: Result<T, DecodeError<<T::Decoder as Decoder>::Error>>,
) -> (run: (
    Seq<T::Decoder>,
    Seq<int>,
    Seq<Result<DecoderStatus, <T::Decoder as Decoder>::Error>>,
))
    requires
        call_ensures(decode_from_slice::<T>, (bytes,), result),
    ensures
        run.0.len() == run.1.len() == run.2.len() + 1,
        call_ensures(T::decoder, (), run.0[0]),
        run.1[0] == 0,
        forall|i: int|
            0 <= i < run.2.len() ==> {
                &&& 0 <= run.1[i] < bytes@.len()
                &&& run.1[i] <= run.1[i + 1] <= bytes@.len()
                &&& run.0[i].pushes(
                    bytes@.skip(run.1[i]),
                    run.1[i + 1] - run.1[i],
                    &run.0[i + 1],
                    #[trigger] run.2[i],
                )
                &&& i < run.2.len() - 1 ==> run.2[i] == Ok::<
                    DecoderStatus,
                    <T::Decoder as Decoder>::Error,
                >(DecoderStatus::NeedsMore)
            },
        run.2.len() == 0 || run.2.last() == Ok::<DecoderStatus, <T::Decoder as Decoder>::Error>(
            DecoderStatus::NeedsMore,
        ) ==> run.1.last() == bytes@.len(),
        match result {
            Ok(value) => {
                &&& run.2.len() > 0 ==> run.2.last() is Ok
                &&& run.0.last().ends(Ok(value))
                &&& run.1.last() == bytes@.len()
            },
            Err(DecodeError::Parse(error)) => if run.2.len() > 0 && run.2.last() is Err {
                run.2.last()->Err_0 == error
            } else {
                run.0.last().ends(Err(error))
            },
            Err(DecodeError::Unconsumed(_)) => {
                &&& run.2.len() > 0 && run.2.last() is Ok
                &&& exists|value: T| #[trigger] run.0.last().ends(Ok(value))
                &&& run.1.last() < bytes@.len()
            },
        },
{
    let (consumed, parsed) = choose|
        consumed: int,
        parsed: Result<T, <T::Decoder as Decoder>::Error>,
    |
        {
            &&& #[trigger] decodes_as::<T>(bytes@, consumed, parsed)
            &&& result == without_leftovers(parsed, bytes@.len() - consumed)
        };
    let start = choose|start: T::Decoder|
        starts::<T>(start) && #[trigger] decodes(start, bytes@, consumed, parsed);
    let run = lemma_decodes_by_pushes(start, bytes@, consumed, parsed);
    if let Ok(value) = parsed {
        assert(run.0.last().ends(Ok(value)));
    }
    run
}

/// Decoding a slice that holds a whole object, and nothing else, gives that object.
pub proof fn whole_object_is_decoded<T: Decode>(
    bytes: &[u8],
    value: T,
    result: Result<T, DecodeError<<T::Decoder as Decoder>::Error>>,
)
    requires
        0 < bytes@.len(),
        forall|start: T::Decoder| #[trigger]
            call_ensures(T::decoder, (), start) ==> takes_whole(start, bytes@, value) && decides(
                start,
                bytes@,
            ),
        call_ensures(decode_from_slice::<T>, (bytes,), result),
    ensures
        result == Ok::<T, DecodeError<<T::Decoder as Decoder>::Error>>(value),
{
    let (consumed, parsed) = choose|
        consumed: int,
        parsed: Result<T, <T::Decoder as Decoder>::Error>,
    |
        {
            &&& #[trigger] decodes_as::<T>(bytes@, consumed, parsed)
            &&& result == without_leftovers(parsed, bytes@.len() - consumed)
        };
    let start = choose|start: T::Decoder|
        starts::<T>(start) && #[trigger] decodes(start, bytes@, consumed, parsed);
    assert(call_ensures(T::decoder, (), start));
    assert(decodes(start, bytes@, bytes@.len() as int, Ok(value)));
}

/// Decoding a whole slice and decoding from its front are one: where decoding a slice has only one
/// result, the whole slice gives the object if nothing is left behind it, the error about
/// unconsumed bytes if something is, and the decoder's error if that fails.
pub proof fn slice_is_unbounded_without_leftovers<T: Decode>(
    bytes: &[u8],
    result: Result<T, DecodeError<<T::Decoder as Decoder>::Error>>,
    front: &mut &[u8],
    parsed: Result<T, <T::Decoder as Decoder>::Error>,
)
    requires
        decides_as::<T>(bytes@),
        old(front)@ == bytes@,
        call_ensures(decode_from_slice::<T>, (bytes,), result),
        call_ensures(decode_from_slice_unbounded::<T>, (front,), parsed),
    ensures
        match parsed {
            Ok(value) => if final(front)@.len() == 0 {
                result == Ok::<T, DecodeError<<T::Decoder as Decoder>::Error>>(value)
            } else {
                result matches Err(DecodeError::Unconsumed(_))
            },
            Err(error) => result == Err::<T, DecodeError<<T::Decoder as Decoder>::Error>>(
                DecodeError::Parse(error),
            ),
        },
{
}

/// Decoding a `T` from the front of `bytes` has only one result.
pub open spec fn decides_as<T: Decode>(bytes: Seq<u8>) -> bool {
    forall|
        consumed1: int,
        result1: Result<T, <T::Decoder as Decoder>::Error>,
        consumed2: int,
        result2: Result<T, <T::Decoder as Decoder>::Error>,
    |
        #![trigger decodes_as::<T>(bytes, consumed1, result1), decodes_as::<T>(bytes, consumed2, result2)]
        decodes_as::<T>(bytes, consumed1, result1) && decodes_as::<T>(bytes, consumed2, result2)
            ==> consumed1 == consumed2 && result1 == result2
}

} // verus!
