//! Decoding from byte slices.
use crate::decode::{push_step, starts, starts_usable, Decode, Decoder, DecoderStatus};
use crate::error::{DecodeError, UnconsumedError};
use vstd::prelude::*;

verus! {

/// Decoding the slice `bytes` with `decoder` can take the first `consumed` bytes and give
/// `result`.
///
/// The bytes are pushed until the decoder fails, is ready, or none are left; unless it failed the
/// decoder is then finished.
pub open spec fn decodes<D: Decoder>(
    decoder: D,
    bytes: Seq<u8>,
    consumed: int,
    result: Result<D::Output, D::Error>,
) -> bool
    decreases bytes.len(),
{
    if bytes.len() == 0 {
        consumed == 0 && decoder.ends(result)
    } else {
        exists|taken: int, next: D, outcome: Result<DecoderStatus, D::Error>|
            #[trigger] push_step(decoder, bytes, taken, next, outcome) && match outcome {
                Err(error) => consumed == taken && result == Err::<D::Output, D::Error>(error),
                Ok(DecoderStatus::Ready) => consumed == taken && next.ends(result),
                Ok(DecoderStatus::NeedsMore) => 0 < taken <= bytes.len() && decodes(
                    next,
                    bytes.skip(taken),
                    consumed - taken,
                    result,
                ),
            }
    }
}

/// A decoding of `rest` with `next` makes one of `bytes` with `decoder`, to which `done` bytes are
/// added.
spec fn continues<D: Decoder>(
    decoder: D,
    bytes: Seq<u8>,
    done: int,
    next: D,
    rest: Seq<u8>,
) -> bool {
    forall|consumed: int, result: Result<D::Output, D::Error>| #[trigger]
        decodes(next, rest, consumed, result) ==> decodes(decoder, bytes, done + consumed, result)
}

/// Whatever `last` can finish with is a result of decoding `bytes` with `decoder` that takes the
/// first `consumed` of them.
spec fn finishes<D: Decoder>(decoder: D, bytes: Seq<u8>, consumed: int, last: D) -> bool {
    forall|result: Result<D::Output, D::Error>| #[trigger]
        last.ends(result) ==> decodes(decoder, bytes, consumed, result)
}

/// Decoding a `T` from the front of `bytes` can take the first `consumed` bytes and give
/// `result`.
pub open spec fn decodes_as<T: Decode>(
    bytes: Seq<u8>,
    consumed: int,
    result: Result<T, <T::Decoder as Decoder>::Error>,
) -> bool {
    exists|start: T::Decoder|
        starts::<T>(start) && #[trigger] decodes(start, bytes, consumed, result)
}

/// What decoding a whole slice gives, when decoding from its front gives `parsed` and leaves
/// `left` bytes.
pub open spec fn without_leftovers<T, E>(parsed: Result<T, E>, left: int) -> Result<
    T,
    DecodeError<E>,
> {
    match parsed {
        Err(error) => Err(DecodeError::Parse(error)),
        Ok(data) => if left == 0 {
            Ok(data)
        } else {
            Err(DecodeError::Unconsumed(UnconsumedError()))
        },
    }
}

/// Decodes an object from a byte slice.
///
/// Returns an error if the decoder encounters an error while parsing the data, including
/// insufficient data. This function also errors if the provided slice is not completely consumed
/// during decode.
pub fn decode_from_slice<T: Decode>(bytes: &[u8]) -> (result: Result<
    T,
    DecodeError<<T::Decoder as Decoder>::Error>,
>)
    requires
        starts_usable::<T>(),
    ensures
        exists|consumed: int, parsed: Result<T, <T::Decoder as Decoder>::Error>|
            {
                &&& #[trigger] decodes_as::<T>(bytes@, consumed, parsed)
                &&& result == without_leftovers(parsed, bytes@.len() - consumed)
            },
{
    let mut remaining: &[u8] = bytes;
    match decode_from_slice_unbounded::<T>(&mut remaining) {
        Err(error) => Err(DecodeError::Parse(error)),
        Ok(data) => {
            if remaining.is_empty() {
                Ok(data)
            } else {
                Err(DecodeError::Unconsumed(UnconsumedError()))
            }
        },
    }
}

/// Decodes an object from an unbounded byte slice.
///
/// Unlike [`decode_from_slice`], this function will not error if the slice contains additional
/// bytes that are not required to decode. Furthermore, the byte slice reference provided to this
/// function will be updated based on the consumed data, returning the unconsumed bytes.
///
/// Returns an error if the decoder encounters an error while parsing the data, including
/// insufficient data.
pub fn decode_from_slice_unbounded<T>(bytes: &mut &[u8]) -> (result: Result<
    T,
    <T::Decoder as Decoder>::Error,
>) where T: Decode
    requires
        starts_usable::<T>(),
    ensures
        final(bytes)@.len() <= old(bytes)@.len(),
        final(bytes)@ == old(bytes)@.skip(old(bytes)@.len() - final(bytes)@.len()),
        decodes_as::<T>(old(bytes)@, old(bytes)@.len() - final(bytes)@.len(), result),
{
    let mut decoder = T::decoder();
    assert(starts::<T>(decoder));
    let ghost start = decoder;
    let ghost input = bytes@;

    while !bytes.is_empty()
        invariant_except_break
            decoder.usable(),
            continues(start, input, input.len() - bytes@.len(), decoder, bytes@),
        invariant
            starts::<T>(start),
            input == old(bytes)@,
            bytes@.len() <= input.len(),
            bytes@ == input.skip(input.len() - bytes@.len()),
        ensures
            decoder.usable(),
            finishes(start, input, input.len() - bytes@.len(), decoder) || (bytes@.len() == 0
                && continues(start, input, input.len() - bytes@.len(), decoder, bytes@)),
        decreases bytes@.len(),
    {
        let ghost before = decoder;
        let ghost pushed = bytes@;
        let outcome = decoder.push_bytes(bytes);
        let ghost taken = pushed.len() - bytes@.len();
        assert(push_step(before, pushed, taken, decoder, outcome));
        match outcome {
            Ok(status) => {
                if status.is_ready() {
                    assert forall|result: Result<T, <T::Decoder as Decoder>::Error>| #[trigger]
                        decoder.ends(result) implies decodes(
                        start,
                        input,
                        input.len() - bytes@.len(),
                        result,
                    ) by {
                        assert(decodes(before, pushed, taken, result));
                    }
                    break;
                }
                assert forall|consumed: int, result: Result<T, <T::Decoder as Decoder>::Error>|
                    #[trigger] decodes(decoder, bytes@, consumed, result) implies decodes(
                    start,
                    input,
                    input.len() - bytes@.len() + consumed,
                    result,
                ) by {
                    assert(decodes(before, pushed, taken + consumed, result));
                }
            },
            Err(error) => {
                assert(decodes(before, pushed, taken, Err(error)));
                return Err(error);
            },
        }
    }
    let result = decoder.end();
    assert(bytes@.len() == 0 ==> decodes(decoder, bytes@, 0, result));
    result
}

} // verus!
