//! Laws of the library as a whole.
//!
//! - [`arrays`], [`array_readers`], [`array_async`]: what decoding an array gives, in terms of the
//!   bytes of the input alone.
//! - [`slices`], [`checks`], [`reader_steps`]: what the calls do, for any decoder.
//! - [`agreement`], [`reader_calls`]: that slices and all kinds of reader give the same.
//! - The others: what these rest on.
pub mod agreement;
pub mod array_async;
pub mod array_readers;
pub mod arrays;
pub mod async_read;
pub mod buffered;
pub mod checks;
pub mod chunks;
pub mod decoder;
pub mod reader_calls;
pub mod reader_steps;
pub mod slices;
pub mod streams;
pub mod unbuffered;
