//! Arrays that are decoded from slices, and the decoder that takes them.
use crate::async_read::{
    decode_from_async_read_unbuffered, decode_from_async_read_unbuffered_with,
    decode_from_async_read_with_buffer,
};
use crate::buffered::decode_from_read;
use crate::check::check_decode;
use crate::decode::{starts, Decoder, DecoderStatus};
use crate::decoders::{
    array_decoder_takes_no_more, array_decoder_takes_the_front, ArrayDecoder,
};
use crate::error::{DecodeError, UnexpectedEofError};
use crate::laws::slices::decides_as;
use crate::slice::{
    decode_from_slice, decode_from_slice_unbounded, decodes, decodes_as, without_leftovers,
};
use crate::unbuffered::{decode_from_read_unbuffered, decode_from_read_unbuffered_with};
use vstd::prelude::*;

verus! {

/// The decoder that decoding an array starts with has taken nothing yet.
pub proof fn array_starts_empty<const N: usize>(decoder: ArrayDecoder<N>)
    requires
        starts::<[u8; N]>(decoder),
    ensures
        decoder.usable(),
        decoder.received() == Seq::<u8>::empty(),
        decoder.limit() == N,
        decoder.ready() <==> N == 0,
{
}

/// Decoding an array from a slice gives the bytes of the slice where there are exactly as many as
/// the array has room for. Too few of them are a parse error, and too many are unconsumed bytes.
pub proof fn slice_gives_the_array<const N: usize>(
    bytes: &[u8],
    result: Result<[u8; N], DecodeError<UnexpectedEofError>>,
)
    requires
        call_ensures(decode_from_slice::<[u8; N]>, (bytes,), result),
    ensures
        bytes@.len() == N ==> (result matches Ok(array) && array@ == bytes@),
        bytes@.len() < N ==> (result matches Err(DecodeError::Parse(_))),
        bytes@.len() > N ==> (result matches Err(DecodeError::Unconsumed(_))),
{
    let (consumed, parsed) = choose|consumed: int, parsed: Result<[u8; N], UnexpectedEofError>|
        {
            &&& #[trigger] decodes_as::<[u8; N]>(bytes@, consumed, parsed)
            &&& result == without_leftovers(parsed, bytes@.len() - consumed)
        };
    decodes_as_takes_the_front::<N>(bytes@, consumed, parsed);
    assert(bytes@.len() == N ==> bytes@.take(N as int) =~= bytes@);
}

/// Decoding an array from the front of `bytes` takes as many bytes as the array has room for and
/// gives them, or takes all there are and fails if they are too few.
pub proof fn decodes_as_takes_the_front<const N: usize>(
    bytes: Seq<u8>,
    consumed: int,
    parsed: Result<[u8; N], UnexpectedEofError>,
)
    requires
        decodes_as::<[u8; N]>(bytes, consumed, parsed),
    ensures
        N <= bytes.len() ==> consumed == N && (parsed matches Ok(array) && array@ == bytes.take(
            N as int,
        )),
        N > bytes.len() ==> consumed == bytes.len() && parsed is Err,
{
    let start = choose|start: ArrayDecoder<N>|
        starts::<[u8; N]>(start) && #[trigger] decodes(start, bytes, consumed, parsed);
    array_starts_empty(start);
    array_decoder_takes_the_front(start, bytes, consumed, parsed);
    assert(N <= bytes.len() ==> start.received() + bytes.take(N as int) =~= bytes.take(N as int));
}

/// Decoding an array from the front of a slice gives its first bytes and leaves the others. If
/// there are too few it fails, and none are left.
pub proof fn unbounded_slice_gives_the_array<const N: usize>(
    bytes: &mut &[u8],
    result: Result<[u8; N], UnexpectedEofError>,
)
    requires
        call_ensures(decode_from_slice_unbounded::<[u8; N]>, (bytes,), result),
    ensures
        N <= old(bytes)@.len() ==> (result matches Ok(array) && array@ == old(bytes)@.take(
            N as int,
        )) && final(bytes)@ == old(bytes)@.skip(N as int),
        N > old(bytes)@.len() ==> result is Err && final(bytes)@.len() == 0,
{
    decodes_as_takes_the_front::<N>(
        old(bytes)@,
        old(bytes)@.len() - final(bytes)@.len(),
        result,
    );
}

/// Decoding an array from the front of a slice has only one result.
pub proof fn arrays_decide<const N: usize>(bytes: Seq<u8>)
    ensures
        decides_as::<[u8; N]>(bytes),
{
    assert forall|
        consumed1: int,
        result1: Result<[u8; N], UnexpectedEofError>,
        consumed2: int,
        result2: Result<[u8; N], UnexpectedEofError>,
    |
        #![trigger decodes_as::<[u8; N]>(bytes, consumed1, result1), decodes_as::<[u8; N]>(bytes, consumed2, result2)]
        decodes_as::<[u8; N]>(bytes, consumed1, result1) && decodes_as::<[u8; N]>(
            bytes,
            consumed2,
            result2,
        ) implies consumed1 == consumed2 && result1 == result2 by {
        decodes_as_takes_the_front::<N>(bytes, consumed1, result1);
        decodes_as_takes_the_front::<N>(bytes, consumed2, result2);
        if result1 is Ok {
            assert(result1->Ok_0 =~= result2->Ok_0);
        } else {
            assert(result1->Err_0 == result2->Err_0);
        }
    }
}

/// A push into an array decoder takes the bytes that are missing, or all if there are fewer, and
/// adds them to those it has. The decoder is ready exactly if it has as many as the array.
pub proof fn array_push_takes_what_is_missing<const N: usize>(
    decoder: &mut ArrayDecoder<N>,
    bytes: &mut &[u8],
    outcome: Result<DecoderStatus, UnexpectedEofError>,
)
    requires
        call_ensures(ArrayDecoder::<N>::push_bytes, (decoder, bytes), outcome),
    ensures
        old(decoder).received() + old(bytes)@ == final(decoder).received() + final(bytes)@,
        final(bytes)@.len() == 0 || final(decoder).received().len() == N,
        outcome == Ok::<DecoderStatus, UnexpectedEofError>(
            if final(decoder).received().len() == N {
                DecoderStatus::Ready
            } else {
                DecoderStatus::NeedsMore
            },
        ),
{
}

/// Finishing an array decoder gives the bytes that it has, if they are as many as the array has.
pub proof fn array_end_gives_what_was_taken<const N: usize>(
    decoder: ArrayDecoder<N>,
    result: Result<[u8; N], UnexpectedEofError>,
)
    requires
        call_ensures(ArrayDecoder::<N>::end, (decoder,), result),
    ensures
        result is Ok <==> decoder.received().len() == N,
        result matches Ok(array) ==> array@ == decoder.received(),
{
    if let Ok(array) = result {
        assert(array@.len() == N);
    }
}

/// An array decoder asks for the bytes that are missing.
pub proof fn array_limit_is_what_is_missing<const N: usize>(decoder: ArrayDecoder<N>, limit: usize)
    requires
        decoder.usable(),
        call_ensures(ArrayDecoder::<N>::read_limit, (&decoder,), limit),
    ensures
        limit + decoder.received().len() == N,
{
    array_decoder_takes_no_more(decoder);
}

/// Decoding an array can be started in every way, and from any slice.
pub proof fn arrays_can_be_decoded<const N: usize, E, const BUFFER_SIZE: usize>(
    bytes: &[u8],
    front: &mut &[u8],
    expected: &[u8; N],
    buffer_len: usize,
)
    ensures
        call_requires(decode_from_slice::<[u8; N]>, (bytes,)),
        call_requires(decode_from_slice_unbounded::<[u8; N]>, (front,)),
        call_requires(decode_from_read::<[u8; N]>, ()),
        call_requires(decode_from_read_unbuffered::<[u8; N], E>, ()),
        call_requires(decode_from_read_unbuffered_with::<[u8; N], E, BUFFER_SIZE>, ()),
        call_requires(decode_from_async_read_with_buffer::<[u8; N], E>, (buffer_len,)),
        call_requires(decode_from_async_read_unbuffered::<[u8; N], E>, ()),
        call_requires(decode_from_async_read_unbuffered_with::<[u8; N], E, BUFFER_SIZE>, ()),
        call_requires(check_decode::<[u8; N]>, (bytes, expected)),
{
}

} // verus!
