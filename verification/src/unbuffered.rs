//! Decoding from an unbuffered reader, through a buffer of a fixed size.
use crate::decode::{push_step, starts, starts_usable, Decode, Decoder, DecoderStatus};
use crate::error::{ErrorKind, IoError, ReadError};
use crate::progress::{finish_read, finishes_read, read_view, Progress, ReadResult};
use vstd::prelude::*;

verus! {

/// The size of the buffer where the caller does not choose one.
pub const DEFAULT_BUFFER_SIZE: usize = 4096;

/// The number of bytes to ask for: no more than `decoder` can take without reading past the end of
/// the object, and no more than a buffer of `capacity` bytes has room for.
pub open spec fn read_size<D: Decoder>(decoder: D, capacity: nat) -> nat {
    if decoder.limit() < capacity {
        decoder.limit()
    } else {
        capacity
    }
}

/// A decoding that waits for a read.
pub struct ReadRequest<D: Decoder> {
    decoder: D,
    capacity: usize,
    limit: usize,
}

/// How decoding with `decoder` goes on before a read: a decoder with nothing left to read is
/// finished.
pub open spec fn unbuffered_turn<D: Decoder, E>(
    decoder: D,
    next: Progress<D, ReadResult<D, E>>,
) -> bool {
    if decoder.limit() > 0 {
        next matches Progress::Continue(after) && after == decoder
    } else {
        next matches Progress::Done(result) && finishes_read(decoder, result)
    }
}

/// When a read returned `read`, decoding with `decoder` can go on with `next`.
///
/// - An interrupted read is tried again, and another failed read ends the decoding.
/// - A read of no bytes is the end of the input, at which the decoder is finished.
/// - Otherwise the decoder takes the bytes. A decoder that fails ends the decoding, and one that
///   is ready is finished.
pub open spec fn unbuffered_step<D: Decoder, E>(
    decoder: D,
    read: Result<Seq<u8>, IoError<E>>,
    next: Progress<D, ReadResult<D, E>>,
) -> bool {
    match read {
        Err(failure) => match failure.kind {
            ErrorKind::Interrupted => unbuffered_turn(decoder, next),
            ErrorKind::Other => next matches Progress::Done(Err(ReadError::Io(error))) && error
                == failure.error,
        },
        Ok(bytes) => if bytes.len() == 0 {
            next matches Progress::Done(result) && finishes_read(decoder, result)
        } else {
            exists|taken: int, after: D, outcome: Result<DecoderStatus, D::Error>| #[trigger]
                push_step(decoder, bytes, taken, after, outcome) && match outcome {
                    Err(error) => next matches Progress::Done(Err(ReadError::Decode(reported)))
                        && reported == error,
                    Ok(DecoderStatus::NeedsMore) => unbuffered_turn(after, next),
                    Ok(DecoderStatus::Ready) => next matches Progress::Done(result)
                        && finishes_read(after, result),
                }
        },
    }
}

/// How decoding goes on, with the decoder for the state.
pub open spec fn unbuffered_view<D: Decoder, E>(
    next: Progress<ReadRequest<D>, ReadResult<D, E>>,
) -> Progress<D, ReadResult<D, E>> {
    match next {
        Progress::Continue(request) => Progress::Continue(request.decoder()),
        Progress::Done(result) => Progress::Done(result),
    }
}

/// The request that decoding goes on with, if there is one, is for a buffer of `capacity` bytes.
pub open spec fn keeps_capacity<D: Decoder, E>(
    next: Progress<ReadRequest<D>, ReadResult<D, E>>,
    capacity: nat,
) -> bool {
    next matches Progress::Continue(request) ==> request.capacity() == capacity
}

impl<D: Decoder> ReadRequest<D> {
    /// The decoder that takes the bytes.
    pub closed spec fn decoder(self) -> D {
        self.decoder
    }

    /// The size of the buffer.
    pub closed spec fn capacity(self) -> nat {
        self.capacity as nat
    }

    #[verifier::type_invariant]
    spec fn well_formed(self) -> bool {
        &&& self.decoder.usable()
        &&& self.decoder.limit() > 0
        &&& self.limit == read_size(self.decoder, self.capacity as nat)
    }

    /// Asks for a read, unless the decoder has nothing left to read.
    fn turn<E>(decoder: D, capacity: usize) -> (next: Progress<Self, ReadResult<D, E>>)
        requires
            decoder.usable(),
        ensures
            unbuffered_turn(decoder, unbuffered_view(next)),
            keeps_capacity(next, capacity as nat),
    {
        let read_limit: usize = decoder.read_limit();
        if read_limit > 0 {
            // Only read what we need, up to buffer size.
            let limit: usize = if read_limit < capacity {
                read_limit
            } else {
                capacity
            };
            Progress::Continue(ReadRequest { decoder, capacity, limit })
        } else {
            Progress::Done(finish_read(decoder))
        }
    }

    /// The number of bytes to read at most.
    pub fn limit(&self) -> (limit: usize)
        ensures
            limit == read_size(self.decoder(), self.capacity()),
            self.decoder().limit() > 0,
    {
        proof {
            use_type_invariant(self);
        }
        self.limit
    }

    /// Takes what the read returned, and tells what to do next. After an interruption that is to
    /// ask again.
    pub fn complete<E>(self, read: Result<&[u8], IoError<E>>) -> (next: Progress<
        Self,
        ReadResult<D, E>,
    >)
        requires
            read matches Ok(bytes) ==> bytes@.len() <= read_size(self.decoder(), self.capacity()),
        ensures
            unbuffered_step(self.decoder(), read_view(read), unbuffered_view(next)),
            keeps_capacity(next, self.capacity()),
            self.decoder().limit() > 0,
            read matches Err(failure) && failure.kind is Interrupted ==> (next matches
                Progress::Continue(request) && request.decoder() == self.decoder()),
    {
        proof {
            use_type_invariant(&self);
        }
        let mut decoder = self.decoder;
        match read {
            Err(failure) => match failure.kind {
                // Auto retry read for non-fatal error.
                ErrorKind::Interrupted => ReadRequest::turn(decoder, self.capacity),
                ErrorKind::Other => Progress::Done(Err(ReadError::Io(failure.error))),
            },
            Ok(bytes) => {
                if bytes.is_empty() {
                    // EOF, but still try to finalize the decoder.
                    return Progress::Done(finish_read(decoder));
                }
                let mut input: &[u8] = bytes;
                let outcome = decoder.push_bytes(&mut input);
                assert(push_step(
                    self.decoder,
                    bytes@,
                    bytes@.len() - input@.len(),
                    decoder,
                    outcome,
                ));
                match outcome {
                    Err(error) => Progress::Done(Err(ReadError::Decode(error))),
                    Ok(status) => {
                        assert(input@.len() == 0);
                        if status.is_ready() {
                            Progress::Done(finish_read(decoder))
                        } else {
                            ReadRequest::turn(decoder, self.capacity)
                        }
                    },
                }
            },
        }
    }
}

/// Decoding a `T` from an unbuffered reader with a buffer of `capacity` bytes can start with
/// `next`.
pub open spec fn unbuffered_start<T: Decode, E>(
    capacity: nat,
    next: Progress<ReadRequest<T::Decoder>, ReadResult<T::Decoder, E>>,
) -> bool {
    &&& exists|start: T::Decoder|
        starts::<T>(start) && #[trigger] unbuffered_turn(
            start,
            unbuffered_view(next),
        )
    &&& keeps_capacity(next, capacity)
}

/// Decodes an object from an unbuffered reader using a fixed-size buffer.
///
/// Uses a buffer of [`DEFAULT_BUFFER_SIZE`] bytes. For different buffer sizes, use
/// [`decode_from_read_unbuffered_with`].
pub fn decode_from_read_unbuffered<T: Decode, E>() -> (next: Progress<
    ReadRequest<T::Decoder>,
    ReadResult<T::Decoder, E>,
>)
    requires
        starts_usable::<T>(),
    ensures
        unbuffered_start::<T, E>(4096, next),
{
    decode_from_read_unbuffered_with::<T, E, DEFAULT_BUFFER_SIZE>()
}

/// Decodes an object from an unbuffered reader using a custom-sized buffer.
///
/// The `BUFFER_SIZE` parameter is the size of the intermediate buffer that is used for reading.
pub fn decode_from_read_unbuffered_with<T: Decode, E, const BUFFER_SIZE: usize>() -> (next:
    Progress<ReadRequest<T::Decoder>, ReadResult<T::Decoder, E>>)
    requires
        starts_usable::<T>(),
    ensures
        unbuffered_start::<T, E>(BUFFER_SIZE as nat, next),
{
    let decoder = T::decoder();
    assert(starts::<T>(decoder));
    ReadRequest::turn(decoder, BUFFER_SIZE)
}

} // verus!
