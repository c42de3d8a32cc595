//! The calls that a decoding from a reader is made of, for any decoder.
use crate::async_read::{
    async_turn, async_view, decode_from_async_read_unbuffered,
    decode_from_async_read_unbuffered_with, decode_from_async_read_with_buffer, AsyncReadRequest,
};
use crate::buffered::{decode_from_read, BufferedDecode, BufferedStep};
use crate::decode::{push_step, starts, Decode, Decoder, DecoderStatus};
use crate::error::{AsyncReadError, IoError, ReadError};
use crate::progress::{
    finishes_async_read, finishes_read, AsyncReadResult, Progress, ReadResult,
};
use crate::unbuffered::{
    decode_from_read_unbuffered, decode_from_read_unbuffered_with, unbuffered_turn,
    unbuffered_view, ReadRequest,
};
use vstd::prelude::*;

verus! {

/// A decoding starts with nothing but a decoder of the object.
pub proof fn starts_are_fresh<T: Decode>(decoder: T::Decoder)
    requires
        starts::<T>(decoder),
    ensures
        call_ensures(T::decoder, (), decoder),
{
}

/// The status of a decoder is one of two, and each predicate tells one of them.
pub proof fn status_is_one_of_two(status: DecoderStatus, more: bool, ready: bool)
    requires
        call_ensures(DecoderStatus::needs_more, (&status,), more),
        call_ensures(DecoderStatus::is_ready, (&status,), ready),
    ensures
        more != ready,
        more <==> status == DecoderStatus::NeedsMore,
{
}

/// Decoding from a buffered reader starts with a decoder of the object, into which nothing has
/// been pushed.
pub proof fn buffered_start_is_fresh<T: Decode>(decode: BufferedDecode<T::Decoder>)
    requires
        call_ensures(decode_from_read::<T>, (), decode),
    ensures
        call_ensures(T::decoder, (), decode.decoder()),
{
}

/// A buffered reader that could not fill its buffer is asked again if it was interrupted, with
/// nothing changed. Otherwise its error is the result. Nothing is marked as consumed.
pub proof fn failed_fill_marks_nothing<D: Decoder, E>(
    decode: BufferedDecode<D>,
    failure: IoError<E>,
    step: BufferedStep<D, E>,
)
    requires
        call_ensures(BufferedDecode::<D>::filled::<E>, (decode, Err(failure)), step),
    ensures
        step.consume is None,
        failure.kind is Interrupted ==> (step.next matches Progress::Continue(again)
            && again.decoder() == decode.decoder()),
        failure.kind is Other ==> step.next == Progress::<
            BufferedDecode<D>,
            ReadResult<D, E>,
        >::Done(Err(ReadError::Io(failure.error))),
{
}

/// An empty buffer ends the decoding: the result is what finishing the decoder gives.
pub proof fn empty_fill_finishes<D: Decoder, E>(
    decode: BufferedDecode<D>,
    bytes: &[u8],
    step: BufferedStep<D, E>,
)
    requires
        bytes@.len() == 0,
        call_ensures(BufferedDecode::<D>::filled::<E>, (decode, Ok(bytes)), step),
    ensures
        step.consume is None,
        step.next matches Progress::Done(result) && match result {
            Ok(value) => decode.decoder().ends(Ok(value)),
            Err(ReadError::Decode(error)) => decode.decoder().ends(Err(error)),
            Err(ReadError::Io(_)) => false,
        },
{
}

/// The buffer is pushed into the decoder as it is, and what the push took is marked as consumed. A
/// push that fails marks nothing and its error is the result; after any other the decoder waits for
/// more, or is finished if it is ready.
///
/// Tells how many bytes the push took, the decoder after it, and what it returned.
pub proof fn fill_is_pushed<D: Decoder, E>(
    decode: BufferedDecode<D>,
    bytes: &[u8],
    step: BufferedStep<D, E>,
) -> (push: (int, D, Result<DecoderStatus, D::Error>))
    requires
        bytes@.len() > 0,
        call_ensures(BufferedDecode::<D>::filled::<E>, (decode, Ok(bytes)), step),
    ensures
        decode.decoder().pushes(bytes@, push.0, &push.1, push.2),
        0 <= push.0 <= bytes@.len(),
        match push.2 {
            Err(error) => step.consume is None && step.next == Progress::<
                BufferedDecode<D>,
                ReadResult<D, E>,
            >::Done(Err(ReadError::Decode(error))),
            Ok(DecoderStatus::NeedsMore) => {
                &&& step.consume matches Some(amount) && amount == push.0
                &&& step.next matches Progress::Continue(again) && again.decoder() == push.1
            },
            Ok(DecoderStatus::Ready) => {
                &&& step.consume matches Some(amount) && amount == push.0
                &&& step.next matches Progress::Done(result) && match result {
                    Ok(value) => push.1.ends(Ok(value)),
                    Err(ReadError::Decode(error)) => push.1.ends(Err(error)),
                    Err(ReadError::Io(_)) => false,
                }
            },
        },
{
    let (consume, next) = (step.consumed(), step.follows());
    let (taken, after, outcome) = choose|
        taken: int,
        after: D,
        outcome: Result<DecoderStatus, D::Error>,
    | #[trigger]
        push_step(decode.decoder(), bytes@, taken, after, outcome) && match outcome {
            Err(error) => consume is None && (next matches Progress::Done(
                Err(ReadError::Decode(reported)),
            ) && reported == error),
            Ok(DecoderStatus::NeedsMore) => consume == Some(taken) && (
            next matches Progress::Continue(decoder) && decoder == after),
            Ok(DecoderStatus::Ready) => consume == Some(taken) && (next matches Progress::Done(
                result,
            ) && finishes_read(after, result)),
        };
    (taken, after, outcome)
}

/// Decoding from an unbuffered reader starts with a decoder of the object, into which nothing has
/// been pushed. Something is read if that decoder asks for bytes, and otherwise it is finished.
///
/// Tells the decoder.
pub proof fn unbuffered_start_is_fresh<T: Decode, E, const BUFFER_SIZE: usize>(
    first: Progress<ReadRequest<T::Decoder>, ReadResult<T::Decoder, E>>,
) -> (start: T::Decoder)
    requires
        call_ensures(decode_from_read_unbuffered_with::<T, E, BUFFER_SIZE>, (), first),
    ensures
        call_ensures(T::decoder, (), start),
        if start.limit() > 0 {
            first matches Progress::Continue(request) && request.decoder() == start
                && request.capacity() == BUFFER_SIZE
        } else {
            first matches Progress::Done(result) && match result {
                Ok(value) => start.ends(Ok(value)),
                Err(ReadError::Decode(error)) => start.ends(Err(error)),
                Err(ReadError::Io(_)) => false,
            }
        },
{
    choose|start: T::Decoder|
        starts::<T>(start) && #[trigger] unbuffered_turn(start, unbuffered_view(first))
}

/// The same holds with the default buffer, which has 4096 bytes.
pub proof fn default_unbuffered_start_is_fresh<T: Decode, E>(
    first: Progress<ReadRequest<T::Decoder>, ReadResult<T::Decoder, E>>,
) -> (start: T::Decoder)
    requires
        call_ensures(decode_from_read_unbuffered::<T, E>, (), first),
    ensures
        call_ensures(T::decoder, (), start),
        if start.limit() > 0 {
            first matches Progress::Continue(request) && request.decoder() == start
                && request.capacity() == 4096
        } else {
            first matches Progress::Done(result) && match result {
                Ok(value) => start.ends(Ok(value)),
                Err(ReadError::Decode(error)) => start.ends(Err(error)),
                Err(ReadError::Io(_)) => false,
            }
        },
{
    choose|start: T::Decoder|
        starts::<T>(start) && #[trigger] unbuffered_turn(start, unbuffered_view(first))
}

/// A read is for as many bytes as the decoder asks for, up to the size of the buffer. It asks for
/// some.
pub proof fn unbuffered_read_is_for_what_is_asked<D: Decoder>(request: ReadRequest<D>, limit: usize)
    requires
        call_ensures(ReadRequest::<D>::limit, (&request,), limit),
    ensures
        request.decoder().limit() > 0,
        limit <= request.decoder().limit(),
        limit <= request.capacity(),
        limit == request.decoder().limit() || limit == request.capacity(),
{
}

/// A read that was interrupted is asked for again, with nothing changed. The error of any other
/// failed read is the result.
pub proof fn failed_read_changes_nothing<D: Decoder, E>(
    request: ReadRequest<D>,
    failure: IoError<E>,
    next: Progress<ReadRequest<D>, ReadResult<D, E>>,
)
    requires
        call_ensures(ReadRequest::<D>::complete::<E>, (request, Err(failure)), next),
    ensures
        failure.kind is Interrupted ==> (next matches Progress::Continue(again) && again.decoder()
            == request.decoder() && again.capacity() == request.capacity()),
        failure.kind is Other ==> next == Progress::<ReadRequest<D>, ReadResult<D, E>>::Done(
            Err(ReadError::Io(failure.error)),
        ),
{
}

/// A read of no bytes ends the decoding: the result is what finishing the decoder gives.
pub proof fn empty_read_finishes<D: Decoder, E>(
    request: ReadRequest<D>,
    bytes: &[u8],
    next: Progress<ReadRequest<D>, ReadResult<D, E>>,
)
    requires
        bytes@.len() == 0,
        call_ensures(ReadRequest::<D>::complete::<E>, (request, Ok(bytes)), next),
    ensures
        next matches Progress::Done(result) && match result {
            Ok(value) => request.decoder().ends(Ok(value)),
            Err(ReadError::Decode(error)) => request.decoder().ends(Err(error)),
            Err(ReadError::Io(_)) => false,
        },
{
}

/// The bytes that were read are pushed into the decoder as they are. If the push fails its error is
/// the result. After any other push more is read if the decoder is not ready and asks for bytes,
/// and otherwise it is finished.
///
/// Tells how many bytes the push took, the decoder after it, and what it returned.
pub proof fn read_is_pushed<D: Decoder, E>(
    request: ReadRequest<D>,
    bytes: &[u8],
    next: Progress<ReadRequest<D>, ReadResult<D, E>>,
) -> (push: (int, D, Result<DecoderStatus, D::Error>))
    requires
        bytes@.len() > 0,
        call_ensures(ReadRequest::<D>::complete::<E>, (request, Ok(bytes)), next),
    ensures
        request.decoder().pushes(bytes@, push.0, &push.1, push.2),
        match push.2 {
            Err(error) => next == Progress::<ReadRequest<D>, ReadResult<D, E>>::Done(
                Err(ReadError::Decode(error)),
            ),
            Ok(status) => if status == DecoderStatus::NeedsMore && push.1.limit() > 0 {
                next matches Progress::Continue(again) && again.decoder() == push.1
                    && again.capacity() == request.capacity()
            } else {
                next matches Progress::Done(result) && match result {
                    Ok(value) => push.1.ends(Ok(value)),
                    Err(ReadError::Decode(error)) => push.1.ends(Err(error)),
                    Err(ReadError::Io(_)) => false,
                }
            },
        },
{
    let view = unbuffered_view(next);
    let (taken, after, outcome) = choose|
        taken: int,
        after: D,
        outcome: Result<DecoderStatus, D::Error>,
    | #[trigger]
        push_step(request.decoder(), bytes@, taken, after, outcome) && match outcome {
            Err(error) => view matches Progress::Done(Err(ReadError::Decode(reported))) && reported
                == error,
            Ok(DecoderStatus::NeedsMore) => unbuffered_turn(after, view),
            Ok(DecoderStatus::Ready) => view matches Progress::Done(result) && finishes_read(
                after,
                result,
            ),
        };
    (taken, after, outcome)
}

/// Decoding from an asynchronous reader starts with a decoder of the object, into which nothing has
/// been pushed. Something is read if that decoder asks for bytes and the buffer is not empty, and
/// otherwise the decoder is finished.
///
/// Tells the decoder.
pub proof fn async_start_is_fresh<T: Decode, E>(
    buffer_len: usize,
    first: Progress<AsyncReadRequest<T::Decoder>, AsyncReadResult<T::Decoder, E>>,
) -> (start: T::Decoder)
    requires
        call_ensures(decode_from_async_read_with_buffer::<T, E>, (buffer_len,), first),
    ensures
        call_ensures(T::decoder, (), start),
        if start.limit() > 0 && buffer_len as nat > 0 {
            first matches Progress::Continue(request) && request.decoder() == start
                && request.capacity() == buffer_len
        } else {
            first matches Progress::Done(result) && match result {
                Ok(value) => start.ends(Ok(value)),
                Err(AsyncReadError::Decode(error)) => start.ends(Err(error)),
                Err(_) => false,
            }
        },
{
    choose|start: T::Decoder|
        starts::<T>(start) && #[trigger] async_turn(
            start,
            buffer_len as nat,
            async_view(first),
        )
}

/// The same holds with a buffer of `BUFFER_SIZE` bytes.
pub proof fn sized_async_start_is_fresh<T: Decode, E, const BUFFER_SIZE: usize>(
    first: Progress<AsyncReadRequest<T::Decoder>, AsyncReadResult<T::Decoder, E>>,
) -> (start: T::Decoder)
    requires
        call_ensures(decode_from_async_read_unbuffered_with::<T, E, BUFFER_SIZE>, (), first),
    ensures
        call_ensures(T::decoder, (), start),
        if start.limit() > 0 && BUFFER_SIZE as nat > 0 {
            first matches Progress::Continue(request) && request.decoder() == start
                && request.capacity() == BUFFER_SIZE
        } else {
            first matches Progress::Done(result) && match result {
                Ok(value) => start.ends(Ok(value)),
                Err(AsyncReadError::Decode(error)) => start.ends(Err(error)),
                Err(_) => false,
            }
        },
{
    choose|start: T::Decoder|
        starts::<T>(start) && #[trigger] async_turn(
            start,
            BUFFER_SIZE as nat,
            async_view(first),
        )
}

/// The same holds with the default buffer, which has 4096 bytes.
pub proof fn default_async_start_is_fresh<T: Decode, E>(
    first: Progress<AsyncReadRequest<T::Decoder>, AsyncReadResult<T::Decoder, E>>,
) -> (start: T::Decoder)
    requires
        call_ensures(decode_from_async_read_unbuffered::<T, E>, (), first),
    ensures
        call_ensures(T::decoder, (), start),
        if start.limit() > 0 {
            first matches Progress::Continue(request) && request.decoder() == start
                && request.capacity() == 4096
        } else {
            first matches Progress::Done(result) && match result {
                Ok(value) => start.ends(Ok(value)),
                Err(AsyncReadError::Decode(error)) => start.ends(Err(error)),
                Err(_) => false,
            }
        },
{
    choose|start: T::Decoder|
        starts::<T>(start) && #[trigger] async_turn(
            start,
            4096,
            async_view(first),
        )
}

/// An asynchronous read is for as many bytes as the decoder asks for, up to the size of the buffer,
/// and for at least one.
pub proof fn async_read_is_for_what_is_asked<D: Decoder>(
    request: AsyncReadRequest<D>,
    limit: usize,
)
    requires
        call_ensures(AsyncReadRequest::<D>::limit, (&request,), limit),
    ensures
        0 < limit <= request.decoder().limit(),
        limit <= request.capacity(),
        limit == request.decoder().limit() || limit == request.capacity(),
{
}

/// The error of a failed asynchronous read is the result.
pub proof fn failed_async_read_is_reported<D: Decoder, E>(
    request: AsyncReadRequest<D>,
    error: E,
    buffer: &[u8],
    next: Progress<AsyncReadRequest<D>, AsyncReadResult<D, E>>,
)
    requires
        call_ensures(AsyncReadRequest::<D>::complete::<E>, (request, Err(error), buffer), next),
    ensures
        next == Progress::<AsyncReadRequest<D>, AsyncReadResult<D, E>>::Done(
            Err(AsyncReadError::Read(error)),
        ),
{
}

/// An asynchronous read that returns more bytes than it was for is reported, and no other is.
pub proof fn too_many_bytes_are_reported<D: Decoder, E>(
    request: AsyncReadRequest<D>,
    limit: usize,
    count: usize,
    buffer: &[u8],
    next: Progress<AsyncReadRequest<D>, AsyncReadResult<D, E>>,
)
    requires
        call_ensures(AsyncReadRequest::<D>::limit, (&request,), limit),
        call_ensures(AsyncReadRequest::<D>::complete::<E>, (request, Ok(count), buffer), next),
    ensures
        limit < count <==> next matches Progress::Done(Err(AsyncReadError::ReadTooManyBytes)),
{
}

/// An asynchronous read of no bytes ends the decoding: the result is what finishing the decoder
/// gives.
pub proof fn empty_async_read_finishes<D: Decoder, E>(
    request: AsyncReadRequest<D>,
    buffer: &[u8],
    next: Progress<AsyncReadRequest<D>, AsyncReadResult<D, E>>,
)
    requires
        call_ensures(AsyncReadRequest::<D>::complete::<E>, (request, Ok(0), buffer), next),
    ensures
        next matches Progress::Done(result) && match result {
            Ok(value) => request.decoder().ends(Ok(value)),
            Err(AsyncReadError::Decode(error)) => request.decoder().ends(Err(error)),
            Err(_) => false,
        },
{
}

/// The bytes that were read asynchronously, and nothing of the buffer behind them, are pushed into
/// the decoder as they are. If the push fails its error is the result. After any other push more is
/// read if the decoder is not ready, asks for bytes and the buffer is not empty, and otherwise it
/// is finished.
///
/// Tells how many bytes the push took, the decoder after it, and what it returned.
pub proof fn async_read_is_pushed<D: Decoder, E>(
    request: AsyncReadRequest<D>,
    limit: usize,
    count: usize,
    buffer: &[u8],
    next: Progress<AsyncReadRequest<D>, AsyncReadResult<D, E>>,
) -> (push: (int, D, Result<DecoderStatus, D::Error>))
    requires
        0 < count <= limit,
        call_ensures(AsyncReadRequest::<D>::limit, (&request,), limit),
        call_ensures(AsyncReadRequest::<D>::complete::<E>, (request, Ok(count), buffer), next),
    ensures
        request.decoder().pushes(buffer@.take(count as int), push.0, &push.1, push.2),
        match push.2 {
            Err(error) => next == Progress::<AsyncReadRequest<D>, AsyncReadResult<D, E>>::Done(
                Err(AsyncReadError::Decode(error)),
            ),
            Ok(status) => if status == DecoderStatus::NeedsMore && push.1.limit() > 0
                && request.capacity() > 0 {
                next matches Progress::Continue(again) && again.decoder() == push.1
                    && again.capacity() == request.capacity()
            } else {
                next matches Progress::Done(result) && match result {
                    Ok(value) => push.1.ends(Ok(value)),
                    Err(AsyncReadError::Decode(error)) => push.1.ends(Err(error)),
                    Err(_) => false,
                }
            },
        },
{
    let view = async_view(next);
    let bytes = buffer@.take(count as int);
    let (taken, after, outcome) = choose|
        taken: int,
        after: D,
        outcome: Result<DecoderStatus, D::Error>,
    | #[trigger]
        push_step(request.decoder(), bytes, taken, after, outcome) && match outcome {
            Err(error) => view matches Progress::Done(Err(AsyncReadError::Decode(reported)))
                && reported == error,
            Ok(DecoderStatus::NeedsMore) => async_turn(after, request.capacity(), view),
            Ok(DecoderStatus::Ready) => view matches Progress::Done(result)
                && finishes_async_read(after, result),
        };
    (taken, after, outcome)
}

} // verus!
