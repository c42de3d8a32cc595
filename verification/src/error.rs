//! Error types of the decode drivers.
use vstd::prelude::*;

verus! {

/// Input bytes are left over after an object was decoded.
#[derive(Debug, Copy, Clone, PartialEq, Eq)]
pub struct UnconsumedError();

/// The input ended before an object was complete.
#[derive(Debug, Copy, Clone, PartialEq, Eq)]
pub struct UnexpectedEofError();

/// Failure to decode an object from a byte slice.
#[derive(Debug, PartialEq, Eq)]
pub enum DecodeError<E> {
    /// The decoder rejected the bytes, or there were too few of them.
    Parse(E),
    /// The object is complete but bytes are left over.
    Unconsumed(UnconsumedError),
}

/// The kinds of I/O failure that a read driver tells apart.
#[derive(Debug, Copy, Clone, PartialEq, Eq, Structural)]
pub enum ErrorKind {
    /// The read was interrupted before it transferred a byte and can be tried again.
    Interrupted,
    /// Any other failure.
    Other,
}

/// A failed read: what the reader reported, and of which kind it is.
#[derive(Debug, PartialEq, Eq)]
pub struct IoError<E> {
    /// The kind of the failure.
    pub kind: ErrorKind,
    /// The error as the reader reported it.
    pub error: E,
}

/// Failure to decode an object from a reader.
#[derive(Debug, PartialEq, Eq)]
pub enum ReadError<D, E> {
    /// Reading failed.
    Io(E),
    /// The decoder rejected the bytes, or there were too few of them.
    Decode(D),
}

/// Failure to decode an object from an asynchronous reader.
#[derive(Debug, PartialEq, Eq)]
pub enum AsyncReadError<D, E> {
    /// Reading failed.
    Read(E),
    /// The decoder rejected the bytes, or there were too few of them.
    Decode(D),
    /// The reader reports more bytes than the buffer it was given has room for.
    ReadTooManyBytes,
}

/// The way in which a decoder failed to produce an expected value.
#[derive(Debug, PartialEq, Eq)]
pub enum CheckError<T, E> {
    /// The decoder rejected the bytes.
    Push(E),
    /// The decoder needs more data but no bytes remain.
    NeedsMore,
    /// The decoder took the bytes but could not be finalized.
    End(E),
    /// The decoder produced this other value.
    Mismatch(T),
}

} // verus!
