//! Decoding from a buffered reader.
use crate::decode::{push_step, starts, starts_usable, Decode, Decoder, DecoderStatus};
use crate::error::{ErrorKind, IoError, ReadError};
use crate::progress::{finish_read, finishes_read, read_view, Progress, ReadResult};
use vstd::prelude::*;

verus! {

/// A decoding that waits for the contents of a reader's buffer.
pub struct BufferedDecode<D: Decoder> {
    decoder: D,
}

/// What to do after the contents of a reader's buffer were handed to a [`BufferedDecode`].
pub struct BufferedStep<D: Decoder, E> {
    /// The number of bytes to mark as consumed, if the decoder took the buffer's contents.
    pub consume: Option<usize>,
    /// How decoding goes on, once the bytes are marked.
    pub next: Progress<BufferedDecode<D>, ReadResult<D, E>>,
}

impl<D: Decoder, E> BufferedStep<D, E> {
    /// The number of bytes to mark as consumed.
    pub open spec fn consumed(self) -> Option<int> {
        match self.consume {
            Some(amount) => Some(amount as int),
            None => None,
        }
    }

    /// How decoding goes on, with the decoder for the state.
    pub open spec fn follows(self) -> Progress<D, ReadResult<D, E>> {
        match self.next {
            Progress::Continue(decode) => Progress::Continue(decode.decoder()),
            Progress::Done(result) => Progress::Done(result),
        }
    }
}

/// When filling the buffer returned `fill`, decoding from it with `decoder` can mark `consume`
/// bytes as consumed and go on with `next`.
///
/// - An interrupted read is tried again, and another failed read ends the decoding.
/// - An empty buffer is the end of the input, at which the decoder is finished.
/// - Otherwise the decoder takes what it can from the buffer. What it took is marked as consumed
///   unless it failed, and a decoder that is ready is finished.
pub open spec fn buffered_step<D: Decoder, E>(
    decoder: D,
    fill: Result<Seq<u8>, IoError<E>>,
    consume: Option<int>,
    next: Progress<D, ReadResult<D, E>>,
) -> bool {
    match fill {
        Err(failure) => consume is None && match failure.kind {
            ErrorKind::Interrupted => next matches Progress::Continue(after) && after == decoder,
            ErrorKind::Other => next matches Progress::Done(Err(ReadError::Io(error))) && error
                == failure.error,
        },
        Ok(buffer) => if buffer.len() == 0 {
            consume is None && (next matches Progress::Done(result) && finishes_read(
                decoder,
                result,
            ))
        } else {
            exists|taken: int, after: D, outcome: Result<DecoderStatus, D::Error>| #[trigger]
                push_step(decoder, buffer, taken, after, outcome) && match outcome {
                    Err(error) => consume is None && (next matches Progress::Done(
                        Err(ReadError::Decode(reported)),
                    ) && reported == error),
                    Ok(DecoderStatus::NeedsMore) => consume == Some(taken) && (
                    next matches Progress::Continue(decoder) && decoder == after),
                    Ok(DecoderStatus::Ready) => consume == Some(taken) && (
                    next matches Progress::Done(result) && finishes_read(after, result)),
                }
        },
    }
}

impl<D: Decoder> BufferedDecode<D> {
    /// The decoder that takes the bytes.
    pub closed spec fn decoder(self) -> D {
        self.decoder
    }

    #[verifier::type_invariant]
    spec fn well_formed(self) -> bool {
        self.decoder.usable()
    }

    /// Takes what filling the reader's buffer returned, and tells what to do next.
    pub fn filled<E>(self, fill: Result<&[u8], IoError<E>>) -> (step: BufferedStep<D, E>)
        ensures
            buffered_step(self.decoder(), read_view(fill), step.consumed(), step.follows()),
    {
        proof {
            use_type_invariant(&self);
        }
        let mut decoder = self.decoder;
        let mut buffer: &[u8] = match fill {
            Ok(buffer) => buffer,
            Err(failure) => {
                return match failure.kind {
                    // Auto retry read for non-fatal error.
                    ErrorKind::Interrupted => BufferedStep {
                        consume: None,
                        next: Progress::Continue(BufferedDecode { decoder }),
                    },
                    ErrorKind::Other => BufferedStep {
                        consume: None,
                        next: Progress::Done(Err(ReadError::Io(failure.error))),
                    },
                };
            },
        };

        if buffer.is_empty() {
            // EOF, but still try to finalize the decoder.
            return BufferedStep { consume: None, next: Progress::Done(finish_read(decoder)) };
        }
        let ghost contents = buffer@;
        let available: usize = buffer.len();
        let outcome = decoder.push_bytes(&mut buffer);
        let ghost taken = contents.len() - buffer@.len();
        assert(push_step(self.decoder, contents, taken, decoder, outcome));
        match outcome {
            Err(error) => BufferedStep {
                consume: None,
                next: Progress::Done(Err(ReadError::Decode(error))),
            },
            Ok(status) => {
                let consumed: usize = available - buffer.len();
                if status.is_ready() {
                    BufferedStep {
                        consume: Some(consumed),
                        next: Progress::Done(finish_read(decoder)),
                    }
                } else {
                    BufferedStep {
                        consume: Some(consumed),
                        next: Progress::Continue(BufferedDecode { decoder }),
                    }
                }
            },
        }
    }
}

/// Decodes an object from a buffered reader.
///
/// The returned [`BufferedDecode`] waits for the contents of the reader's buffer.
pub fn decode_from_read<T: Decode>() -> (decode: BufferedDecode<T::Decoder>)
    requires
        starts_usable::<T>(),
    ensures
        starts::<T>(decode.decoder()),
{
    let decoder = T::decoder();
    assert(starts::<T>(decoder));
    BufferedDecode { decoder }
}

} // verus!
