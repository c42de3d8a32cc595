//! Consensus decoding: push decoders, and drivers that feed them from slices and readers.
//!
//! A [`Decoder`] takes bytes as they come and produces an object at the end. The functions named
//! `decode_from_...` run a decoder over an input. Those for readers perform no I/O themselves:
//! they ask for a read and take what it returned, see [`Progress`].

pub mod async_read;
pub mod buffered;
pub mod check;
pub mod decode;
pub mod decoders;
pub mod error;
pub mod laws;
pub mod progress;
pub mod slice;
pub mod unbuffered;

pub use crate::async_read::{
    decode_from_async_read_unbuffered, decode_from_async_read_unbuffered_with,
    decode_from_async_read_with_buffer, AsyncReadRequest,
};
pub use crate::buffered::{decode_from_read, BufferedDecode, BufferedStep};
pub use crate::check::{check_decode, check_decoder};
pub use crate::decode::{Decode, Decoder, DecoderStatus};
pub use crate::decoders::ArrayDecoder;
pub use crate::error::{
    AsyncReadError, CheckError, DecodeError, ErrorKind, IoError, ReadError, UnconsumedError,
    UnexpectedEofError,
};
pub use crate::progress::{AsyncReadResult, Progress, ReadResult};
pub use crate::slice::{decode_from_slice, decode_from_slice_unbounded};
pub use crate::unbuffered::{
    decode_from_read_unbuffered, decode_from_read_unbuffered_with, ReadRequest,
    DEFAULT_BUFFER_SIZE,
};
