//! The decoding traits.
use vstd::prelude::*;

verus! {

/// An object which can be consensus-decoded using a push decoder.
///
/// To decode something, create a [`Self::Decoder`], push byte slices into it with
/// [`Decoder::push_bytes`], then call [`Decoder::end`] to get the result.
pub trait Decode: Sized {
    /// Associated decoder for the type.
    type Decoder: Decoder<Output = Self> + Default;

    /// Constructs a "default decoder" for the type.
    fn decoder() -> (decoder: Self::Decoder)
        default_ensures
            call_ensures(<Self::Decoder as Default>::default, (), decoder),
    {
        <Self::Decoder as Default>::default()
    }
}

/// A decoding of a `T` can start with `decoder`.
pub open spec fn starts<T: Decode>(decoder: T::Decoder) -> bool {
    call_ensures(T::decoder, (), decoder)
}

/// The decoders that a decoding of a `T` can start with may be used.
pub open spec fn starts_usable<T: Decode>() -> bool {
    forall|decoder: T::Decoder| #[trigger] starts::<T>(decoder) ==> decoder.usable()
}

/// A push decoder for a consensus-decodable object.
///
/// What a particular decoder does is given by its spec functions: [`Decoder::pushes`] relates a
/// decoder to the decoders that a push can turn it into, [`Decoder::ends`] to the results that it
/// can finish with. Their defaults claim nothing that could be proved, so a verified decoder
/// gives its own. [`orderly_push`] is what every decoder keeps to.
pub trait Decoder: Sized {
    /// The type that this decoder produces when decoding is complete.
    type Output;

    /// The error type that this decoder can produce.
    type Error;

    /// No call of `push_bytes` has failed yet, so the decoder may still be used.
    open spec fn usable(&self) -> bool {
        true
    }

    /// The decoder is complete: it takes no more bytes.
    open spec fn ready(&self) -> bool {
        arbitrary()
    }

    /// The most bytes that the decoder can take without reading past the end of the object. A push
    /// of no more than that is taken whole, unless it fails.
    open spec fn limit(&self) -> nat {
        arbitrary()
    }

    /// Whether pushing `bytes` into this decoder may consume the first `consumed` of them, leave
    /// the decoder as `next` and return `outcome`.
    open spec fn pushes(
        &self,
        bytes: Seq<u8>,
        consumed: int,
        next: &Self,
        outcome: Result<DecoderStatus, Self::Error>,
    ) -> bool {
        arbitrary()
    }

    /// Whether finishing this decoder may return `result`.
    open spec fn ends(&self, result: Result<Self::Output, Self::Error>) -> bool {
        arbitrary()
    }

    /// Pushes bytes into the decoder, consuming as much as possible.
    ///
    /// The slice reference is advanced to the unconsumed portion. Returns
    /// `Ok(DecoderStatus::NeedsMore)` if more bytes are needed to complete decoding,
    /// `Ok(DecoderStatus::Ready)` if the decoder is ready to finalize with [`Self::end`], or
    /// `Err(error)` if parsing failed.
    ///
    /// Once the decoder has returned `Ok(DecoderStatus::Ready)`, further calls return it again
    /// without consuming bytes. A decoder must not be used again after this method failed.
    #[must_use]
    fn push_bytes(&mut self, bytes: &mut &[u8]) -> (outcome: Result<DecoderStatus, Self::Error>)
        requires
            old(self).usable(),
        ensures
            old(self).pushes(
                old(bytes)@,
                old(bytes)@.len() - final(bytes)@.len(),
                &*final(self),
                outcome,
            ),
            orderly_push(
                old(bytes)@.len(),
                old(bytes)@.len() - final(bytes)@.len(),
                outcome,
                old(self).ready(),
                old(self).limit(),
                final(self).usable(),
                final(self).ready(),
            ),
            final(bytes)@ == old(bytes)@.skip(old(bytes)@.len() - final(bytes)@.len()),
    ;

    /// Completes the decoding process and returns the final result.
    ///
    /// This consumes the decoder and should be called when no more input data is available. It
    /// fails if the decoder has not received sufficient data, or if the accumulated data is
    /// invalid when considered as a complete object.
    #[must_use]
    fn end(self) -> (result: Result<Self::Output, Self::Error>)
        requires
            self.usable(),
        ensures
            self.ends(result),
    ;

    /// Returns the maximum number of bytes this decoder can consume without over-reading, and 0
    /// if it is complete.
    fn read_limit(&self) -> (limit: usize)
        ensures
            limit == self.limit(),
            self.ready() ==> limit == 0,
    ;
}

/// What every decoder keeps to when `available` bytes are pushed into it, of which it takes
/// `consumed`.
///
/// - It takes no more bytes than there are, and stays usable unless it fails.
/// - It says whether it is complete, and a complete decoder takes nothing and says so again.
/// - If it needs more it has made progress, unless there was nothing to take.
/// - It takes all bytes when there are no more than its read limit allows.
pub open spec fn orderly_push<E>(
    available: nat,
    consumed: int,
    outcome: Result<DecoderStatus, E>,
    was_ready: bool,
    limit: nat,
    now_usable: bool,
    now_ready: bool,
) -> bool {
    &&& 0 <= consumed <= available
    &&& outcome is Ok ==> now_usable
    &&& outcome matches Ok(status) ==> now_ready == (status is Ready)
    &&& was_ready ==> outcome == Ok::<DecoderStatus, E>(DecoderStatus::Ready) && consumed == 0
    &&& outcome matches Ok(DecoderStatus::NeedsMore) ==> (available > 0 ==> consumed > 0)
    &&& outcome is Ok && available <= limit ==> consumed == available
}

/// Pushing `bytes` into `decoder` can take the first `consumed` of them, leave the decoder as
/// `next` and return `outcome`.
pub open spec fn push_step<D: Decoder>(
    decoder: D,
    bytes: Seq<u8>,
    consumed: int,
    next: D,
    outcome: Result<DecoderStatus, D::Error>,
) -> bool {
    &&& decoder.pushes(bytes, consumed, &next, outcome)
    &&& orderly_push(
        bytes.len(),
        consumed,
        outcome,
        decoder.ready(),
        decoder.limit(),
        next.usable(),
        next.ready(),
    )
}

/// Indicates whether a decoder needs more data or is ready to finalize.
#[derive(Debug, Copy, Clone, PartialEq, Eq, Structural)]
pub enum DecoderStatus {
    /// The decoder needs more data to complete decoding.
    NeedsMore,
    /// The decoder has accumulated sufficient data and is ready to finalize.
    Ready,
}

impl DecoderStatus {
    /// Returns `true` if the decoder needs more data to continue.
    pub fn needs_more(&self) -> (yes: bool)
        ensures
            yes == (*self is NeedsMore),
    {
        matches!(self, Self::NeedsMore)
    }

    /// Returns `true` if ready to produce decoded value with [`Decoder::end`].
    pub fn is_ready(&self) -> (yes: bool)
        ensures
            yes == (*self is Ready),
    {
        matches!(self, Self::Ready)
    }
}

} // verus!
