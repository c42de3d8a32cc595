//! What the drivers of the different kinds of reader have in common.
//!
//! A reader is never called from here. A driver hands out what has to be read and takes what the
//! read returned, so that the caller performs the reads in whichever way its reader needs.
use crate::decode::Decoder;
use crate::error::{AsyncReadError, IoError, ReadError};
use vstd::prelude::*;

verus! {

/// How decoding goes on after a step.
pub enum Progress<S, R> {
    /// There is more to read, which continues from this state.
    Continue(S),
    /// Decoding is over, with this result.
    Done(R),
}

/// What decoding from a reader returns.
pub type ReadResult<D, E> = Result<
    <D as Decoder>::Output,
    ReadError<<D as Decoder>::Error, E>,
>;

/// What decoding from an asynchronous reader returns.
pub type AsyncReadResult<D, E> = Result<
    <D as Decoder>::Output,
    AsyncReadError<<D as Decoder>::Error, E>,
>;

/// What a read returned, with the bytes as a sequence.
pub open spec fn read_view<E>(read: Result<&[u8], IoError<E>>) -> Result<Seq<u8>, IoError<E>> {
    match read {
        Ok(bytes) => Ok(bytes@),
        Err(error) => Err(error),
    }
}

/// Finishing `decoder` can give `result` to the caller of a read driver.
pub open spec fn finishes_read<D: Decoder, E>(decoder: D, result: ReadResult<D, E>) -> bool {
    match result {
        Ok(value) => decoder.ends(Ok(value)),
        Err(ReadError::Decode(error)) => decoder.ends(Err(error)),
        Err(ReadError::Io(_)) => false,
    }
}

/// Finishing `decoder` can give `result` to the caller of an asynchronous read driver.
pub open spec fn finishes_async_read<D: Decoder, E>(
    decoder: D,
    result: AsyncReadResult<D, E>,
) -> bool {
    match result {
        Ok(value) => decoder.ends(Ok(value)),
        Err(AsyncReadError::Decode(error)) => decoder.ends(Err(error)),
        Err(_) => false,
    }
}

/// Finishes `decoder` for the caller of a read driver.
pub(crate) fn finish_read<D: Decoder, E>(decoder: D) -> (result: ReadResult<D, E>)
    requires
        decoder.usable(),
    ensures
        finishes_read(decoder, result),
{
    match decoder.end() {
        Ok(value) => Ok(value),
        Err(error) => Err(ReadError::Decode(error)),
    }
}

/// Finishes `decoder` for the caller of an asynchronous read driver.
pub(crate) fn finish_async_read<D: Decoder, E>(decoder: D) -> (result: AsyncReadResult<D, E>)
    requires
        decoder.usable(),
    ensures
        finishes_async_read(decoder, result),
{
    match decoder.end() {
        Ok(value) => Ok(value),
        Err(error) => Err(AsyncReadError::Decode(error)),
    }
}

} // verus!
