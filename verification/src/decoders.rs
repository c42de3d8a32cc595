//! Decoders for basic objects.
use crate::decode::{push_step, Decode, Decoder, DecoderStatus};
use crate::error::UnexpectedEofError;
use crate::laws::chunks::{decides, no_lookahead, streaming, takes_whole};
use crate::laws::decoder::{can_be_finished, fails_unless_ready};
use crate::laws::streams::knows_the_end;
use crate::slice::decodes;
use vstd::prelude::*;
use vstd::slice::slice_subrange;

verus! {

/// A decoder that expects exactly `N` bytes and returns them as an array.
pub struct ArrayDecoder<const N: usize> {
    buffer: [u8; N],
    filled: usize,
}

impl<const N: usize> ArrayDecoder<N> {
    /// The bytes that the decoder has taken so far.
    pub closed spec fn received(&self) -> Seq<u8> {
        self.buffer@.take(self.filled as int)
    }

    /// The decoder has taken no more bytes than it expects.
    #[verifier::type_invariant]
    pub closed spec fn well_formed(&self) -> bool {
        self.filled <= N
    }
}

impl<const N: usize> Default for ArrayDecoder<N> {
    fn default() -> (decoder: Self)
        ensures
            decoder.usable(),
            decoder.received() == Seq::<u8>::empty(),
    {
        ArrayDecoder { buffer: [0u8;N], filled: 0 }
    }
}

impl<const N: usize> Decoder for ArrayDecoder<N> {
    type Output = [u8; N];

    type Error = UnexpectedEofError;

    open spec fn usable(&self) -> bool {
        self.well_formed()
    }

    open spec fn ready(&self) -> bool {
        self.received().len() == N
    }

    open spec fn limit(&self) -> nat {
        (N - self.received().len()) as nat
    }

    /// The decoder takes what it still expects, and is ready once it has taken all of it.
    open spec fn pushes(
        &self,
        bytes: Seq<u8>,
        consumed: int,
        next: &Self,
        outcome: Result<DecoderStatus, UnexpectedEofError>,
    ) -> bool {
        let expected = N - self.received().len();
        &&& next.received() == self.received() + bytes.take(consumed)
        &&& if bytes.len() < expected {
            consumed == bytes.len() && outcome == Ok::<DecoderStatus, UnexpectedEofError>(
                DecoderStatus::NeedsMore,
            )
        } else {
            consumed == expected && outcome == Ok::<DecoderStatus, UnexpectedEofError>(
                DecoderStatus::Ready,
            )
        }
    }

    open spec fn ends(&self, result: Result<[u8; N], UnexpectedEofError>) -> bool {
        match result {
            Ok(array) => array@ == self.received(),
            Err(_) => self.received().len() != N,
        }
    }

    fn push_bytes(&mut self, bytes: &mut &[u8]) -> Result<DecoderStatus, UnexpectedEofError> {
        proof {
            use_type_invariant(&*self);
        }
        let expected: usize = N - self.filled;
        let available: usize = bytes.len();
        let count: usize = if available < expected {
            available
        } else {
            expected
        };
        let mut copied: usize = 0;
        while copied < count
            invariant
                copied <= count <= bytes@.len(),
                old(self).filled + count <= N,
                self.filled == old(self).filled + copied,
                bytes@ == old(bytes)@,
                self.received() == old(self).received() + bytes@.take(copied as int),
            decreases count - copied,
        {
            let ghost before = self.received();
            let byte: u8 = bytes[copied];
            self.buffer[self.filled] = byte;
            self.filled = self.filled + 1;
            assert(self.received() == before.push(byte));
            assert(bytes@.take(copied + 1) == bytes@.take(copied as int).push(byte));
            copied = copied + 1;
        }
        *bytes = slice_subrange(*bytes, count, available);
        if self.filled < N {
            Ok(DecoderStatus::NeedsMore)
        } else {
            Ok(DecoderStatus::Ready)
        }
    }

    fn end(self) -> Result<[u8; N], UnexpectedEofError> {
        proof {
            use_type_invariant(&self);
        }
        if self.filled == N {
            assert(self.received() == self.buffer@);
            Ok(self.buffer)
        } else {
            Err(UnexpectedEofError())
        }
    }

    fn read_limit(&self) -> usize {
        proof {
            use_type_invariant(self);
        }
        N - self.filled
    }
}

impl<const N: usize> Decode for [u8; N] {
    type Decoder = ArrayDecoder<N>;
}

/// An array decoder takes no more bytes than it expects.
pub proof fn array_decoder_takes_no_more<const N: usize>(decoder: ArrayDecoder<N>)
    requires
        decoder.usable(),
    ensures
        decoder.received().len() <= N,
{
}

/// An array decoder is made for streams.
pub proof fn array_decoder_is_streaming<const N: usize>()
    ensures
        streaming::<ArrayDecoder<N>>(),
{
    assert forall|
        decoder: ArrayDecoder<N>,
        first: Seq<u8>,
        taken: int,
        between: ArrayDecoder<N>,
        second: Seq<u8>,
        consumed: int,
        next: ArrayDecoder<N>,
        outcome: Result<DecoderStatus, UnexpectedEofError>,
    |
        #![trigger push_step(decoder, first, taken, between, Ok(DecoderStatus::NeedsMore)), push_step(between, second, consumed, next, outcome)]
        push_step(decoder, first, taken, between, Ok(DecoderStatus::NeedsMore)) && push_step(
            between,
            second,
            consumed,
            next,
            outcome,
        ) implies push_step(decoder, first + second, taken + consumed, next, outcome) by {
        assert((first + second).take(taken + consumed) =~= first + second.take(consumed));
        assert(first.take(taken) =~= first);
        assert(next.received() =~= decoder.received() + (first + second).take(taken + consumed));
    }
}

/// An array decoder does not look ahead.
pub proof fn array_decoder_has_no_lookahead<const N: usize>()
    ensures
        no_lookahead::<ArrayDecoder<N>>(),
{
}

/// An array decoder knows where the array ends.
pub proof fn array_decoder_knows_the_end<const N: usize>()
    ensures
        knows_the_end::<ArrayDecoder<N>>(),
{
    assert forall|
        decoder: ArrayDecoder<N>,
        bytes: Seq<u8>,
        consumed: int,
        next: ArrayDecoder<N>,
        outcome: Result<DecoderStatus, UnexpectedEofError>,
        more: Seq<u8>,
    |
        #![trigger push_step(decoder, bytes, consumed, next, outcome), bytes + more]
        push_step(decoder, bytes, consumed, next, outcome) && outcome != Ok::<
            DecoderStatus,
            UnexpectedEofError,
        >(DecoderStatus::NeedsMore) implies push_step(
        decoder,
        bytes + more,
        consumed,
        next,
        outcome,
    ) by {
        assert((bytes + more).take(consumed) =~= bytes.take(consumed));
    }
    assert forall|decoder: ArrayDecoder<N>, bytes: Seq<u8>|
        decoder.usable() && decoder.ready() implies #[trigger] push_step(
        decoder,
        bytes,
        0,
        decoder,
        Ok(DecoderStatus::Ready),
    ) by {
        assert(decoder.received() + bytes.take(0) =~= decoder.received());
    }
}

/// An array decoder can be finished.
pub proof fn array_decoder_can_be_finished<const N: usize>()
    ensures
        can_be_finished::<ArrayDecoder<N>>(),
{
    assert forall|decoder: ArrayDecoder<N>| #[trigger] decoder.usable() implies exists|
        result: Result<[u8; N], UnexpectedEofError>,
    | #[trigger] decoder.ends(result) by {
        if decoder.received().len() == N {
            assert(decoder.buffer@ =~= decoder.received());
            assert(decoder.ends(Ok(decoder.buffer)));
        } else {
            assert(decoder.ends(Err(UnexpectedEofError())));
        }
    }
}

/// An array decoder fails on insufficient data.
pub proof fn array_decoder_fails_unless_ready<const N: usize>()
    ensures
        fails_unless_ready::<ArrayDecoder<N>>(),
{
    assert forall|decoder: ArrayDecoder<N>, result: Result<[u8; N], UnexpectedEofError>|
        decoder.usable() && !decoder.ready() && #[trigger] decoder.ends(
            result,
        ) implies result is Err by {
        if let Ok(array) = result {
            assert(array@.len() == N);
        }
    }
}

/// An array decoder takes the bytes that are still missing whole.
pub proof fn array_decoder_takes_whole<const N: usize>(
    decoder: ArrayDecoder<N>,
    bytes: Seq<u8>,
    value: [u8; N],
)
    requires
        decoder.usable(),
        decoder.received() + bytes == value@,
    ensures
        takes_whole(decoder, bytes, value),
{
    let next = ArrayDecoder { buffer: value, filled: N };
    assert(value@.len() == N);
    assert(bytes.take(bytes.len() as int) =~= bytes);
    assert(next.received() =~= value@);
    assert(push_step(decoder, bytes, bytes.len() as int, next, Ok(DecoderStatus::Ready)));
    assert(next.ends(Ok(value)));
}

/// Decoding an array from a slice takes the bytes that are still missing and returns all of them,
/// or takes what there is and fails if that is too little.
pub proof fn array_decoder_takes_the_front<const N: usize>(
    decoder: ArrayDecoder<N>,
    bytes: Seq<u8>,
    consumed: int,
    result: Result<[u8; N], UnexpectedEofError>,
)
    requires
        decoder.usable(),
        decodes(decoder, bytes, consumed, result),
    ensures
        ({
            let missing = N - decoder.received().len();
            if missing <= bytes.len() {
                &&& consumed == missing
                &&& result matches Ok(array) && array@ == decoder.received() + bytes.take(missing)
            } else {
                &&& consumed == bytes.len()
                &&& result is Err
            }
        }),
{
    let missing = N - decoder.received().len();
    if let Ok(array) = result {
        assert(array@.len() == N);
    }
    if bytes.len() == 0 {
        assert(decoder.received() + bytes.take(0) =~= decoder.received());
    } else {
        let (taken, next, outcome) = choose|
            taken: int,
            next: ArrayDecoder<N>,
            outcome: Result<DecoderStatus, UnexpectedEofError>,
        | #[trigger]
            push_step(decoder, bytes, taken, next, outcome) && match outcome {
                Err(error) => consumed == taken && result == Err::<[u8; N], UnexpectedEofError>(
                    error,
                ),
                Ok(DecoderStatus::Ready) => consumed == taken && next.ends(result),
                Ok(DecoderStatus::NeedsMore) => 0 < taken <= bytes.len() && decodes(
                    next,
                    bytes.skip(taken),
                    consumed - taken,
                    result,
                ),
            };
        if outcome == Ok::<DecoderStatus, UnexpectedEofError>(DecoderStatus::NeedsMore) {
            assert(bytes.skip(taken).len() == 0);
            assert(next.ends(result));
        }
    }
}

/// Decoding an array has only one result.
pub proof fn array_decoder_decides<const N: usize>(decoder: ArrayDecoder<N>, bytes: Seq<u8>)
    requires
        decoder.usable(),
    ensures
        decides(decoder, bytes),
{
    assert forall|
        consumed1: int,
        result1: Result<[u8; N], UnexpectedEofError>,
        consumed2: int,
        result2: Result<[u8; N], UnexpectedEofError>,
    |
        #![trigger decodes(decoder, bytes, consumed1, result1), decodes(decoder, bytes, consumed2, result2)]
        decodes(decoder, bytes, consumed1, result1) && decodes(
            decoder,
            bytes,
            consumed2,
            result2,
        ) implies consumed1 == consumed2 && result1 == result2 by {
        array_decoder_takes_the_front(decoder, bytes, consumed1, result1);
        array_decoder_takes_the_front(decoder, bytes, consumed2, result2);
        if result1 is Ok {
            assert(result1->Ok_0 =~= result2->Ok_0);
        } else {
            assert(result1->Err_0 == result2->Err_0);
        }
    }
}

} // verus!
