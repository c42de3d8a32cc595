//! Decoding from an asynchronous reader.
use crate::decode::{push_step, starts, starts_usable, Decode, Decoder, DecoderStatus};
use crate::error::AsyncReadError;
use crate::progress::{finish_async_read, finishes_async_read, AsyncReadResult, Progress};
use crate::unbuffered::{read_size, DEFAULT_BUFFER_SIZE};
use vstd::prelude::*;

verus! {

/// A decoding that waits for an asynchronous read.
pub struct AsyncReadRequest<D: Decoder> {
    decoder: D,
    capacity: usize,
    limit: usize,
}

/// How decoding with `decoder` and a buffer of `capacity` bytes goes on before a read: where there
/// is nothing left to read, or no room to read into, the decoder is finished.
pub open spec fn async_turn<D: Decoder, E>(
    decoder: D,
    capacity: nat,
    next: Progress<D, AsyncReadResult<D, E>>,
) -> bool {
    if read_size(decoder, capacity) > 0 {
        next matches Progress::Continue(after) && after == decoder
    } else {
        next matches Progress::Done(result) && finishes_async_read(decoder, result)
    }
}

/// When a read into the front of `buffer` returned `read`, decoding with `decoder` and a buffer of
/// `capacity` bytes can go on with `next`.
///
/// - A failed read ends the decoding, as does one that reports more bytes than it was to read.
/// - A read of no bytes is the end of the input, at which the decoder is finished.
/// - Otherwise the decoder takes the bytes. A decoder that fails ends the decoding, and one that
///   is ready is finished.
pub open spec fn async_step<D: Decoder, E>(
    decoder: D,
    capacity: nat,
    read: Result<usize, E>,
    buffer: Seq<u8>,
    next: Progress<D, AsyncReadResult<D, E>>,
) -> bool {
    match read {
        Err(error) => next matches Progress::Done(Err(AsyncReadError::Read(reported))) && reported
            == error,
        Ok(count) => if count > read_size(decoder, capacity) {
            next matches Progress::Done(Err(AsyncReadError::ReadTooManyBytes))
        } else if count == 0 {
            next matches Progress::Done(result) && finishes_async_read(decoder, result)
        } else {
            exists|taken: int, after: D, outcome: Result<DecoderStatus, D::Error>| #[trigger]
                push_step(decoder, buffer.take(count as int), taken, after, outcome)
                    && match outcome {
                    Err(error) => next matches Progress::Done(Err(AsyncReadError::Decode(reported)))
                        && reported == error,
                    Ok(DecoderStatus::NeedsMore) => async_turn(after, capacity, next),
                    Ok(DecoderStatus::Ready) => next matches Progress::Done(result)
                        && finishes_async_read(after, result),
                }
        },
    }
}

/// How decoding goes on, with the decoder for the state.
pub open spec fn async_view<D: Decoder, E>(
    next: Progress<AsyncReadRequest<D>, AsyncReadResult<D, E>>,
) -> Progress<D, AsyncReadResult<D, E>> {
    match next {
        Progress::Continue(request) => Progress::Continue(request.decoder()),
        Progress::Done(result) => Progress::Done(result),
    }
}

/// The request that decoding goes on with, if there is one, is for a buffer of `capacity` bytes.
pub open spec fn keeps_async_capacity<D: Decoder, E>(
    next: Progress<AsyncReadRequest<D>, AsyncReadResult<D, E>>,
    capacity: nat,
) -> bool {
    next matches Progress::Continue(request) ==> request.capacity() == capacity
}

impl<D: Decoder> AsyncReadRequest<D> {
    /// The decoder that takes the bytes.
    pub closed spec fn decoder(self) -> D {
        self.decoder
    }

    /// The size of the buffer.
    pub closed spec fn capacity(self) -> nat {
        self.capacity as nat
    }

    #[verifier::type_invariant]
    spec fn well_formed(self) -> bool {
        &&& self.decoder.usable()
        &&& self.limit == read_size(self.decoder, self.capacity as nat)
        &&& self.limit > 0
    }

    /// Asks for a read, unless there is nothing left to read or no room to read into.
    fn turn<E>(decoder: D, capacity: usize) -> (next: Progress<Self, AsyncReadResult<D, E>>)
        requires
            decoder.usable(),
        ensures
            async_turn(decoder, capacity as nat, async_view(next)),
            keeps_async_capacity(next, capacity as nat),
    {
        let read_limit: usize = decoder.read_limit();
        let limit: usize = if read_limit < capacity {
            read_limit
        } else {
            capacity
        };
        if limit > 0 {
            Progress::Continue(AsyncReadRequest { decoder, capacity, limit })
        } else {
            // No progress is possible, so treat it like EOF and let the decoder finalize (or error).
            Progress::Done(finish_async_read(decoder))
        }
    }

    /// The number of bytes to read at most, which is never 0.
    pub fn limit(&self) -> (limit: usize)
        ensures
            limit == read_size(self.decoder(), self.capacity()),
            limit > 0,
    {
        proof {
            use_type_invariant(self);
        }
        self.limit
    }

    /// Takes what the read returned and the buffer that it read into, and tells what to do next.
    pub fn complete<E>(self, read: Result<usize, E>, buffer: &[u8]) -> (next: Progress<
        Self,
        AsyncReadResult<D, E>,
    >)
        requires
            buffer@.len() >= read_size(self.decoder(), self.capacity()),
        ensures
            async_step(self.decoder(), self.capacity(), read, buffer@, async_view(next)),
            keeps_async_capacity(next, self.capacity()),
    {
        proof {
            use_type_invariant(&self);
        }
        let mut decoder = self.decoder;
        let bytes_read: usize = match read {
            Ok(bytes_read) => bytes_read,
            Err(error) => {
                return Progress::Done(Err(AsyncReadError::Read(error)));
            },
        };

        if bytes_read > self.limit {
            return Progress::Done(Err(AsyncReadError::ReadTooManyBytes));
        }
        if bytes_read == 0 {
            // EOF, but still try to finalize the decoder.
            return Progress::Done(finish_async_read(decoder));
        }
        let mut input: &[u8] = vstd::slice::slice_subrange(buffer, 0, bytes_read);
        let ghost bytes = input@;
        assert(bytes == buffer@.take(bytes_read as int));
        let outcome = decoder.push_bytes(&mut input);
        assert(push_step(self.decoder, bytes, bytes.len() - input@.len(), decoder, outcome));
        match outcome {
            Err(error) => Progress::Done(Err(AsyncReadError::Decode(error))),
            Ok(status) => {
                assert(input@.len() == 0);
                if status.is_ready() {
                    Progress::Done(finish_async_read(decoder))
                } else {
                    AsyncReadRequest::turn(decoder, self.capacity)
                }
            },
        }
    }
}

/// Decoding a `T` from an asynchronous reader with a buffer of `capacity` bytes can start with
/// `next`.
pub open spec fn async_start<T: Decode, E>(
    capacity: nat,
    next: Progress<AsyncReadRequest<T::Decoder>, AsyncReadResult<T::Decoder, E>>,
) -> bool {
    &&& exists|start: T::Decoder|
        starts::<T>(start) && #[trigger] async_turn(
            start,
            capacity,
            async_view(next),
        )
    &&& keeps_async_capacity(next, capacity)
}

/// Decodes an object from an asynchronous reader through a buffer of `buffer_len` bytes, which the
/// caller provides.
///
/// A read is only asked for with room for at least one byte. An empty buffer is treated as the
/// end of the input, and the decoder is finished without a read.
pub fn decode_from_async_read_with_buffer<T: Decode, E>(buffer_len: usize) -> (next: Progress<
    AsyncReadRequest<T::Decoder>,
    AsyncReadResult<T::Decoder, E>,
>)
    requires
        starts_usable::<T>(),
    ensures
        async_start::<T, E>(buffer_len as nat, next),
{
    let decoder = T::decoder();
    assert(starts::<T>(decoder));
    AsyncReadRequest::turn(decoder, buffer_len)
}

/// Decodes an object from an asynchronous reader through a buffer of [`DEFAULT_BUFFER_SIZE`]
/// bytes.
pub fn decode_from_async_read_unbuffered<T: Decode, E>() -> (next: Progress<
    AsyncReadRequest<T::Decoder>,
    AsyncReadResult<T::Decoder, E>,
>)
    requires
        starts_usable::<T>(),
    ensures
        async_start::<T, E>(4096, next),
{
    decode_from_async_read_unbuffered_with::<T, E, DEFAULT_BUFFER_SIZE>()
}

/// Decodes an object from an asynchronous reader through a buffer of a custom size.
pub fn decode_from_async_read_unbuffered_with<T: Decode, E, const BUFFER_SIZE: usize>() -> (next:
    Progress<AsyncReadRequest<T::Decoder>, AsyncReadResult<T::Decoder, E>>)
    requires
        starts_usable::<T>(),
    ensures
        async_start::<T, E>(BUFFER_SIZE as nat, next),
{
    decode_from_async_read_with_buffer::<T, E>(BUFFER_SIZE)
}

} // verus!
