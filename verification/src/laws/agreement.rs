//! The kind of reader, and the size of its buffer, make no difference.
use crate::decode::Decoder;
use crate::error::{IoError, ReadError};
use crate::laws::async_read::{
    as_read_result, async_chunks_of, async_decode, async_decode_decodes_stream, async_reads_from,
    AsyncRead,
};
use crate::laws::buffered::{buffered_run, buffered_run_decodes_stream};
use crate::laws::chunks::{decides, streaming};
use crate::laws::streams::{
    all_if_ok, chunks_of, knows_the_end, one_stream_one_result, reads_from, same_result,
};
use crate::laws::unbuffered::{unbuffered_decode, unbuffered_decode_decodes_stream};
use crate::progress::{AsyncReadResult, ReadResult};
use vstd::prelude::*;

verus! {

/// A buffered and an unbuffered reader of one stream give the same result, unless reading fails,
/// and on success the same number of bytes is taken: the buffered reader is told that as many are
/// consumed as were read from the unbuffered one.
pub proof fn buffered_and_unbuffered_agree<D: Decoder, E1, E2>(
    decoder: D,
    stream: Seq<u8>,
    fills: Seq<Result<Seq<u8>, IoError<E1>>>,
    consumed: int,
    result1: ReadResult<D, E1>,
    capacity: nat,
    reads: Seq<Result<Seq<u8>, IoError<E2>>>,
    result2: ReadResult<D, E2>,
)
    requires
        streaming::<D>(),
        knows_the_end::<D>(),
        decoder.usable(),
        decides(decoder, stream),
        reads_from(fills, stream),
        buffered_run(decoder, fills, consumed, result1),
        reads_from(reads, stream),
        unbuffered_decode(decoder, capacity, reads, result2),
        !(result1 matches Err(ReadError::Io(_))),
        !(result2 matches Err(ReadError::Io(_))),
    ensures
        same_result::<D, E1, E2>(result1, result2),
        result1 is Ok ==> consumed == chunks_of(reads).flatten().len(),
{
    buffered_run_decodes_stream(decoder, stream, fills, consumed, result1);
    unbuffered_decode_decodes_stream(decoder, stream, capacity, reads, result2);
    one_stream_one_result::<D, E1, E2>(
        decoder,
        stream,
        consumed,
        result1,
        all_if_ok(chunks_of(reads), result2),
        result2,
    );
}

/// A buffered reader and an asynchronous reader with a buffer that is not empty give the same
/// result on one stream, unless reading fails, and on success the same number of bytes is taken.
pub proof fn buffered_and_async_agree<D: Decoder, E1, E2>(
    decoder: D,
    stream: Seq<u8>,
    fills: Seq<Result<Seq<u8>, IoError<E1>>>,
    consumed: int,
    result1: ReadResult<D, E1>,
    capacity: nat,
    reads: Seq<AsyncRead<E2>>,
    result2: AsyncReadResult<D, E2>,
)
    requires
        streaming::<D>(),
        knows_the_end::<D>(),
        decoder.usable(),
        decides(decoder, stream),
        reads_from(fills, stream),
        buffered_run(decoder, fills, consumed, result1),
        capacity > 0,
        async_reads_from(reads, stream),
        async_decode(decoder, capacity, reads, result2),
        !(result1 matches Err(ReadError::Io(_))),
        result2 is Ok || result2->Err_0 is Decode,
    ensures
        same_result::<D, E1, Option<E2>>(result1, as_read_result::<D, E2>(result2)),
        result1 is Ok ==> consumed == async_chunks_of(reads).flatten().len(),
{
    buffered_run_decodes_stream(decoder, stream, fills, consumed, result1);
    async_decode_decodes_stream(decoder, stream, capacity, reads, result2);
    one_stream_one_result::<D, E1, Option<E2>>(
        decoder,
        stream,
        consumed,
        result1,
        all_if_ok(async_chunks_of(reads), result2),
        as_read_result::<D, E2>(result2),
    );
}

/// The size of the buffer of an unbuffered reader makes no difference: with buffers of two sizes
/// one stream gives the same result, unless reading fails, and on success as many bytes are read.
pub proof fn unbuffered_sizes_agree<D: Decoder, E1, E2>(
    decoder: D,
    stream: Seq<u8>,
    capacity1: nat,
    reads1: Seq<Result<Seq<u8>, IoError<E1>>>,
    result1: ReadResult<D, E1>,
    capacity2: nat,
    reads2: Seq<Result<Seq<u8>, IoError<E2>>>,
    result2: ReadResult<D, E2>,
)
    requires
        streaming::<D>(),
        knows_the_end::<D>(),
        decoder.usable(),
        decides(decoder, stream),
        reads_from(reads1, stream),
        unbuffered_decode(decoder, capacity1, reads1, result1),
        reads_from(reads2, stream),
        unbuffered_decode(decoder, capacity2, reads2, result2),
        !(result1 matches Err(ReadError::Io(_))),
        !(result2 matches Err(ReadError::Io(_))),
    ensures
        same_result::<D, E1, E2>(result1, result2),
        result1 is Ok ==> chunks_of(reads1).flatten() == chunks_of(reads2).flatten(),
{
    unbuffered_decode_decodes_stream(decoder, stream, capacity1, reads1, result1);
    unbuffered_decode_decodes_stream(decoder, stream, capacity2, reads2, result2);
    one_stream_one_result::<D, E1, E2>(
        decoder,
        stream,
        all_if_ok(chunks_of(reads1), result1),
        result1,
        all_if_ok(chunks_of(reads2), result2),
        result2,
    );
}

/// An asynchronous reader with a buffer that is not empty and an unbuffered reader of one stream
/// give the same result, unless reading fails, and on success as many bytes are read.
pub proof fn async_and_unbuffered_agree<D: Decoder, E1, E2>(
    decoder: D,
    stream: Seq<u8>,
    capacity1: nat,
    reads1: Seq<AsyncRead<E1>>,
    result1: AsyncReadResult<D, E1>,
    capacity2: nat,
    reads2: Seq<Result<Seq<u8>, IoError<E2>>>,
    result2: ReadResult<D, E2>,
)
    requires
        streaming::<D>(),
        knows_the_end::<D>(),
        decoder.usable(),
        decides(decoder, stream),
        capacity1 > 0,
        async_reads_from(reads1, stream),
        async_decode(decoder, capacity1, reads1, result1),
        reads_from(reads2, stream),
        unbuffered_decode(decoder, capacity2, reads2, result2),
        result1 is Ok || result1->Err_0 is Decode,
        !(result2 matches Err(ReadError::Io(_))),
    ensures
        same_result::<D, Option<E1>, E2>(as_read_result::<D, E1>(result1), result2),
        result1 is Ok ==> async_chunks_of(reads1).flatten() == chunks_of(reads2).flatten(),
{
    async_decode_decodes_stream(decoder, stream, capacity1, reads1, result1);
    unbuffered_decode_decodes_stream(decoder, stream, capacity2, reads2, result2);
    one_stream_one_result::<D, Option<E1>, E2>(
        decoder,
        stream,
        all_if_ok(async_chunks_of(reads1), result1),
        as_read_result::<D, E1>(result1),
        all_if_ok(chunks_of(reads2), result2),
        result2,
    );
}

/// The size of the buffer of an asynchronous reader makes no difference, as long as it is not
/// empty: with buffers of two sizes one stream gives the same result, unless reading fails, and on
/// success as many bytes are read.
pub proof fn async_sizes_agree<D: Decoder, E1, E2>(
    decoder: D,
    stream: Seq<u8>,
    capacity1: nat,
    reads1: Seq<AsyncRead<E1>>,
    result1: AsyncReadResult<D, E1>,
    capacity2: nat,
    reads2: Seq<AsyncRead<E2>>,
    result2: AsyncReadResult<D, E2>,
)
    requires
        streaming::<D>(),
        knows_the_end::<D>(),
        decoder.usable(),
        decides(decoder, stream),
        capacity1 > 0,
        async_reads_from(reads1, stream),
        async_decode(decoder, capacity1, reads1, result1),
        capacity2 > 0,
        async_reads_from(reads2, stream),
        async_decode(decoder, capacity2, reads2, result2),
        result1 is Ok || result1->Err_0 is Decode,
        result2 is Ok || result2->Err_0 is Decode,
    ensures
        same_result::<D, Option<E1>, Option<E2>>(
            as_read_result::<D, E1>(result1),
            as_read_result::<D, E2>(result2),
        ),
        result1 is Ok ==> async_chunks_of(reads1).flatten() == async_chunks_of(reads2).flatten(),
{
    async_decode_decodes_stream(decoder, stream, capacity1, reads1, result1);
    async_decode_decodes_stream(decoder, stream, capacity2, reads2, result2);
    one_stream_one_result::<D, Option<E1>, Option<E2>>(
        decoder,
        stream,
        all_if_ok(async_chunks_of(reads1), result1),
        as_read_result::<D, E1>(result1),
        all_if_ok(async_chunks_of(reads2), result2),
        as_read_result::<D, E2>(result2),
    );
}

} // verus!
