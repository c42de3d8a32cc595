//! Tests for decoding from asynchronous readers.
//!
//! These tests use a no-op waker and a trivial `block_on`.

use std::convert::Infallible;
use std::future::{poll_fn, Future};
use std::sync::Arc;
use std::task::{Context, Poll, Wake, Waker};

use bitcoin_consensus_encoding::{
    decode_from_async_read_unbuffered, decode_from_async_read_unbuffered_with,
    decode_from_async_read_with_buffer, ArrayDecoder, AsyncReadError, AsyncReadRequest,
    AsyncReadResult, Decode, Decoder, DecoderStatus, Progress, UnexpectedEofError,
    DEFAULT_BUFFER_SIZE,
};

struct NoopWake;

impl Wake for NoopWake {
    fn wake(self: Arc<Self>) {}
}

/// Drives a future to completion by busy-polling with a no-op waker.
fn block_on<F: Future>(future: F) -> F::Output {
    let waker = Waker::from(Arc::new(NoopWake));
    let mut cx = Context::from_waker(&waker);
    let mut future = Box::pin(future);
    loop {
        if let Poll::Ready(output) = future.as_mut().poll(&mut cx) {
            return output;
        }
    }
}

/// Performs the reads that a decoding asks for.
async fn perform<D, R, E>(
    mut next: Progress<AsyncReadRequest<D>, AsyncReadResult<D, E>>,
    mut poll_read: R,
    buffer: &mut [u8],
) -> AsyncReadResult<D, E>
where
    D: Decoder,
    R: FnMut(&mut Context<'_>, &mut [u8]) -> Poll<Result<usize, E>>,
{
    loop {
        match next {
            Progress::Done(result) => return result,
            Progress::Continue(request) => {
                let dst = &mut buffer[..request.limit()];
                assert!(!dst.is_empty());
                let read = poll_fn(|cx| poll_read(cx, dst)).await;
                next = request.complete(read, buffer);
            }
        }
    }
}

/// Decodes through `buffer`.
fn decode_with_buffer<T, R, E>(
    poll_read: R,
    buffer: &mut [u8],
) -> Result<T, AsyncReadError<<T::Decoder as Decoder>::Error, E>>
where
    T: Decode,
    R: FnMut(&mut Context<'_>, &mut [u8]) -> Poll<Result<usize, E>>,
{
    let start = decode_from_async_read_with_buffer::<T, E>(buffer.len());
    block_on(perform(start, poll_read, buffer))
}

#[derive(Debug, PartialEq)]
struct Bar([u8; 4]);

#[derive(Default)]
struct BarDecoder(ArrayDecoder<4>);

impl Decoder for BarDecoder {
    type Output = Bar;
    type Error = UnexpectedEofError;

    fn push_bytes(&mut self, bytes: &mut &[u8]) -> Result<DecoderStatus, Self::Error> {
        self.0.push_bytes(bytes)
    }
    fn end(self) -> Result<Self::Output, Self::Error> {
        self.0.end().map(Bar)
    }
    fn read_limit(&self) -> usize {
        self.0.read_limit()
    }
}

impl Decode for Bar {
    type Decoder = BarDecoder;
}

fn slice_reader(
    data: &[u8],
) -> impl FnMut(&mut Context<'_>, &mut [u8]) -> Poll<Result<usize, Infallible>> + '_ {
    let mut pos = 0;
    move |_cx, dst: &mut [u8]| {
        let n = (data.len() - pos).min(dst.len());
        dst[..n].copy_from_slice(&data[pos..pos + n]);
        pos += n;
        Poll::Ready(Ok(n))
    }
}

#[test]
fn decode_from_async_read_with_buffer_works() {
    let data = [0xde, 0xad, 0xbe, 0xef];
    let mut buffer = [0u8; 64];
    let bar: Result<Bar, AsyncReadError<UnexpectedEofError, Infallible>> =
        decode_with_buffer(slice_reader(&data), &mut buffer);
    assert_eq!(bar.unwrap(), Bar([0xde, 0xad, 0xbe, 0xef]));
}

#[test]
fn decode_from_async_read_unbuffered_works() {
    let data = [0x01, 0x02, 0x03, 0x04];
    let mut buffer = [0u8; DEFAULT_BUFFER_SIZE];
    let bar: Result<Bar, AsyncReadError<UnexpectedEofError, Infallible>> = block_on(perform(
        decode_from_async_read_unbuffered::<Bar, Infallible>(),
        slice_reader(&data),
        &mut buffer,
    ));
    assert_eq!(bar.unwrap(), Bar([0x01, 0x02, 0x03, 0x04]));
}

#[test]
fn decode_from_async_read_small_buffer_streams() {
    // 1-byte buffer forces multiple read+push iterations.
    let data = [0x11, 0x22, 0x33, 0x44];
    let mut buffer = [0u8; 1];
    let bar: Result<Bar, AsyncReadError<UnexpectedEofError, Infallible>> =
        decode_with_buffer(slice_reader(&data), &mut buffer);
    assert_eq!(bar.unwrap(), Bar([0x11, 0x22, 0x33, 0x44]));
}

#[test]
fn decode_from_async_read_pending_then_ready() {
    let data = [0xaa, 0xbb, 0xcc, 0xdd];
    let mut buffer = [0u8; 64];
    let mut pos = 0;
    let mut pend = true;
    let bar: Result<Bar, AsyncReadError<UnexpectedEofError, Infallible>> = decode_with_buffer(
        |_cx: &mut Context<'_>, dst: &mut [u8]| {
            if pend {
                pend = false;
                return Poll::Pending;
            }
            pend = true;
            let n = (data.len() - pos).min(dst.len());
            dst[..n].copy_from_slice(&data[pos..pos + n]);
            pos += n;
            Poll::Ready(Ok(n))
        },
        &mut buffer,
    );
    assert_eq!(bar.unwrap(), Bar([0xaa, 0xbb, 0xcc, 0xdd]));
}

#[test]
fn decode_from_async_read_eof_before_complete_errors() {
    // Only 2 of 4 bytes available, then EOF (Ok(0)).
    let data = [0x01, 0x02];
    let mut buffer = [0u8; 64];
    let result: Result<Bar, AsyncReadError<UnexpectedEofError, Infallible>> =
        decode_with_buffer(slice_reader(&data), &mut buffer);
    assert!(matches!(result, Err(AsyncReadError::Decode(_))));
}

#[test]
fn decode_from_async_read_empty_buffer_does_not_call_callback() {
    // An empty buffer means no progress is possible, so the callback must never be invoked and the
    // decoder is finalized as EOF (which errors for a non-empty type).
    let mut buffer = [0u8; 0];
    let mut called = false;
    let result: Result<Bar, AsyncReadError<UnexpectedEofError, Infallible>> = decode_with_buffer(
        |_cx: &mut Context<'_>, _dst: &mut [u8]| {
            called = true;
            Poll::Ready(Ok(0))
        },
        &mut buffer,
    );
    assert!(!called, "callback must not be called with an empty buffer");
    assert!(matches!(result, Err(AsyncReadError::Decode(_))));
}

#[test]
fn decode_from_async_read_propagates_read_error() {
    let mut buffer = [0u8; 64];
    let result: Result<Bar, AsyncReadError<UnexpectedEofError, &str>> = decode_with_buffer(
        |_cx: &mut Context<'_>, _dst: &mut [u8]| Poll::Ready(Err("io fail")),
        &mut buffer,
    );
    assert_eq!(result, Err(AsyncReadError::Read("io fail")));
}

#[test]
fn decode_from_async_read_too_many_bytes_errors() {
    let mut buffer = [0u8; 4];
    let result: Result<Bar, AsyncReadError<UnexpectedEofError, Infallible>> = decode_with_buffer(
        |_cx: &mut Context<'_>, dst: &mut [u8]| Poll::Ready(Ok(dst.len() + 1)),
        &mut buffer,
    );
    assert_eq!(result, Err(AsyncReadError::ReadTooManyBytes));
}

#[test]
fn async_requests_are_bounded_by_decoder_and_buffer() {
    match decode_from_async_read_unbuffered_with::<Bar, Infallible, 3>() {
        Progress::Continue(request) => assert_eq!(request.limit(), 3),
        Progress::Done(_) => panic!("a read is needed"),
    }
    match decode_from_async_read_unbuffered_with::<Bar, Infallible, 9>() {
        Progress::Continue(request) => {
            assert_eq!(request.limit(), 4);
            match request.complete::<Infallible>(Ok(3), &[1, 2, 3, 9, 9, 9, 9, 9, 9]) {
                Progress::Continue(request) => assert_eq!(request.limit(), 1),
                Progress::Done(_) => panic!("another read is needed"),
            }
        }
        Progress::Done(_) => panic!("a read is needed"),
    }
}

#[test]
fn async_read_ignores_the_buffer_behind_what_was_read() {
    let mut reads = 0;
    let mut buffer = [0xffu8; 8];
    let bar: Result<Bar, AsyncReadError<UnexpectedEofError, Infallible>> = decode_with_buffer(
        |_cx: &mut Context<'_>, dst: &mut [u8]| {
            reads += 1;
            dst[0] = reads;
            Poll::Ready(Ok(1))
        },
        &mut buffer,
    );
    assert_eq!(bar, Ok(Bar([1, 2, 3, 4])));
    assert_eq!(reads, 4);
}

#[test]
fn complete_decoder_is_not_read_for() {
    let mut called = false;
    let empty = decode_with_buffer::<[u8; 0], _, Infallible>(
        |_cx: &mut Context<'_>, _dst: &mut [u8]| {
            called = true;
            Poll::Ready(Ok(0))
        },
        &mut [0u8; 8],
    );
    assert_eq!(empty, Ok([]));
    assert!(!called);
}

#[test]
fn async_buffer_size_makes_no_difference() {
    let data = [1, 2, 3, 4, 5, 6];
    for size in 1..=6 {
        let mut buffer = vec![0u8; size];
        let mut reader = slice_reader(&data);
        let mut total = 0;
        let bar: Result<Bar, AsyncReadError<UnexpectedEofError, Infallible>> = decode_with_buffer(
            |cx: &mut Context<'_>, dst: &mut [u8]| {
                let read = reader(cx, dst);
                if let Poll::Ready(Ok(n)) = read {
                    total += n;
                }
                read
            },
            &mut buffer,
        );
        assert_eq!(bar, Ok(Bar([1, 2, 3, 4])));
        assert_eq!(total, 4);
    }
}

#[test]
fn async_read_of_one_byte_too_many_errors() {
    match decode_from_async_read_with_buffer::<Bar, &str>(3) {
        Progress::Continue(request) => {
            assert_eq!(request.limit(), 3);
            match request.complete::<&str>(Ok(4), &[1, 2, 3, 4]) {
                Progress::Done(result) => assert_eq!(result, Err(AsyncReadError::ReadTooManyBytes)),
                Progress::Continue(_) => panic!("the read returned too many bytes"),
            }
        }
        Progress::Done(_) => panic!("a read is needed"),
    }
}

#[test]
fn async_insufficient_data_errors() {
    let data = [1, 2, 3];
    for end in 0..=3 {
        for size in 0..=4 {
            let mut buffer = vec![0u8; size];
            let bar: Result<Bar, AsyncReadError<UnexpectedEofError, Infallible>> =
                decode_with_buffer(slice_reader(&data[..end]), &mut buffer);
            assert_eq!(bar, Err(AsyncReadError::Decode(UnexpectedEofError())));
        }
    }
}
