//! Tests for decoding from buffered and unbuffered readers.

use bitcoin_consensus_encoding::{
    decode_from_read, decode_from_read_unbuffered, decode_from_read_unbuffered_with,
    decode_from_slice_unbounded, BufferedDecode, Decode, Decoder, DecoderStatus, ErrorKind,
    IoError, Progress, ReadError, ReadRequest, ReadResult, UnexpectedEofError,
    DEFAULT_BUFFER_SIZE,
};

type Reads<'a> = Vec<Result<&'a [u8], IoError<&'static str>>>;

fn interrupted<'a>() -> Result<&'a [u8], IoError<&'static str>> {
    Err(IoError { kind: ErrorKind::Interrupted, error: "again" })
}

fn broken<'a>() -> Result<&'a [u8], IoError<&'static str>> {
    Err(IoError { kind: ErrorKind::Other, error: "broken" })
}

/// Fills the buffer with each of `fills` and returns what was marked as consumed, and the result.
fn run_buffered<T: Decode>(fills: Reads<'_>) -> (Vec<usize>, ReadResult<T::Decoder, &'static str>) {
    let mut decode: BufferedDecode<T::Decoder> = decode_from_read::<T>();
    let mut consumed = Vec::new();
    let total = fills.len();
    for (i, fill) in fills.into_iter().enumerate() {
        let step = decode.filled(fill);
        consumed.extend(step.consume);
        match step.next {
            Progress::Continue(next) => decode = next,
            Progress::Done(result) => {
                assert_eq!(i + 1, total);
                return (consumed, result);
            }
        }
    }
    panic!("more fills are needed");
}

/// Performs `reads` one after the other and returns what was asked for, and the result.
fn run_unbuffered<D: Decoder>(
    start: Progress<ReadRequest<D>, ReadResult<D, &'static str>>,
    reads: Reads<'_>,
) -> (Vec<usize>, ReadResult<D, &'static str>) {
    let mut next = start;
    let mut limits = Vec::new();
    let mut reads = reads.into_iter();
    loop {
        match next {
            Progress::Done(result) => {
                assert!(reads.next().is_none());
                return (limits, result);
            }
            Progress::Continue(request) => {
                limits.push(request.limit());
                let read = reads.next().unwrap();
                if let Ok(bytes) = &read {
                    assert!(bytes.len() <= request.limit());
                }
                next = request.complete(read);
            }
        }
    }
}

#[derive(Debug, PartialEq)]
struct Nothing;

/// Rejects every byte.
#[derive(Default)]
struct Picky;

impl Decoder for Picky {
    type Output = Nothing;
    type Error = u8;

    fn push_bytes(&mut self, bytes: &mut &[u8]) -> Result<DecoderStatus, u8> {
        match bytes.first() {
            Some(byte) => Err(*byte),
            None => Ok(DecoderStatus::NeedsMore),
        }
    }
    fn end(self) -> Result<Nothing, u8> {
        Err(0)
    }
    fn read_limit(&self) -> usize {
        1
    }
}

impl Decode for Nothing {
    type Decoder = Picky;
}

#[test]
fn buffered_marks_what_the_decoder_took() {
    let (consumed, result) = run_buffered::<[u8; 4]>(vec![Ok(&[1, 2]), Ok(&[3, 4, 5, 6])]);
    assert_eq!(consumed, vec![2, 2]);
    assert_eq!(result, Ok([1, 2, 3, 4]));
}

#[test]
fn buffered_end_of_input_finishes_the_decoder() {
    let (consumed, result) = run_buffered::<[u8; 4]>(vec![Ok(&[1, 2]), Ok(&[])]);
    assert_eq!(consumed, vec![2]);
    assert_eq!(result, Err(ReadError::Decode(UnexpectedEofError())));
    let (consumed, result) = run_buffered::<[u8; 0]>(vec![Ok(&[])]);
    assert!(consumed.is_empty());
    assert_eq!(result, Ok([]));
}

#[test]
fn buffered_retries_interrupted_fills() {
    let fills = vec![interrupted(), Ok(&[1][..]), interrupted(), interrupted(), Ok(&[2, 3][..])];
    let (consumed, result) = run_buffered::<[u8; 2]>(fills);
    assert_eq!(consumed, vec![1, 1]);
    assert_eq!(result, Ok([1, 2]));
}

#[test]
fn buffered_reports_io_errors() {
    let (consumed, result) = run_buffered::<[u8; 2]>(vec![Ok(&[1]), broken()]);
    assert_eq!(consumed, vec![1]);
    assert_eq!(result, Err(ReadError::Io("broken")));
}

#[test]
fn buffered_marks_nothing_when_the_decoder_fails() {
    let (consumed, result) = run_buffered::<Nothing>(vec![Ok(&[9, 8])]);
    assert!(consumed.is_empty());
    assert_eq!(result, Err(ReadError::Decode(9)));
}

#[test]
fn unbuffered_asks_for_what_the_decoder_needs() {
    let (limits, result) = run_unbuffered(
        decode_from_read_unbuffered::<[u8; 4], _>(),
        vec![Ok(&[1]), Ok(&[2, 3]), Ok(&[4])],
    );
    assert_eq!(limits, vec![4, 3, 1]);
    assert_eq!(result, Ok([1, 2, 3, 4]));
}

#[test]
fn unbuffered_asks_for_no_more_than_the_buffer_holds() {
    let (limits, result) = run_unbuffered(
        decode_from_read_unbuffered_with::<[u8; 5], _, 2>(),
        vec![Ok(&[1, 2]), Ok(&[3, 4]), Ok(&[5])],
    );
    assert_eq!(limits, vec![2, 2, 1]);
    assert_eq!(result, Ok([1, 2, 3, 4, 5]));
}

#[test]
fn unbuffered_default_buffer_size() {
    assert_eq!(DEFAULT_BUFFER_SIZE, 4096);
    match decode_from_read_unbuffered::<[u8; 5000], &str>() {
        Progress::Continue(request) => assert_eq!(request.limit(), 4096),
        Progress::Done(_) => panic!("a read is needed"),
    }
}

#[test]
fn unbuffered_end_of_input_finishes_the_decoder() {
    let (limits, result) = run_unbuffered(
        decode_from_read_unbuffered::<[u8; 4], _>(),
        vec![Ok(&[1, 2, 3]), Ok(&[])],
    );
    assert_eq!(limits, vec![4, 1]);
    assert_eq!(result, Err(ReadError::Decode(UnexpectedEofError())));
}

#[test]
fn unbuffered_empty_buffer_reads_nothing() {
    let (limits, result) =
        run_unbuffered(decode_from_read_unbuffered_with::<[u8; 4], _, 0>(), vec![Ok(&[])]);
    assert_eq!(limits, vec![0]);
    assert_eq!(result, Err(ReadError::Decode(UnexpectedEofError())));
}

#[test]
fn unbuffered_complete_decoder_is_not_read_for() {
    let (limits, result) = run_unbuffered(decode_from_read_unbuffered::<[u8; 0], _>(), vec![]);
    assert!(limits.is_empty());
    assert_eq!(result, Ok([]));
}

#[test]
fn unbuffered_retries_interrupted_reads() {
    let reads = vec![interrupted(), Ok(&[1][..]), interrupted(), Ok(&[2][..])];
    let (limits, result) = run_unbuffered(decode_from_read_unbuffered::<[u8; 2], _>(), reads);
    assert_eq!(limits, vec![2, 2, 1, 1]);
    assert_eq!(result, Ok([1, 2]));
}

#[test]
fn unbuffered_reports_io_errors() {
    let (_, result) =
        run_unbuffered(decode_from_read_unbuffered::<[u8; 2], _>(), vec![Ok(&[1]), broken()]);
    assert_eq!(result, Err(ReadError::Io("broken")));
}

#[test]
fn unbuffered_reports_decoder_errors() {
    let (limits, result) = run_unbuffered(decode_from_read_unbuffered::<Nothing, _>(), vec![Ok(&[9])]);
    assert_eq!(limits, vec![1]);
    assert_eq!(result, Err(ReadError::Decode(9)));
}

#[test]
fn readers_agree_with_slices() {
    let stream = [1u8, 2, 3, 4, 5, 6];
    let mut bytes: &[u8] = &stream;
    let expected = decode_from_slice_unbounded::<[u8; 6]>(&mut bytes).unwrap();
    for size in 1..=6 {
        let chunks = |stream: &'static [u8]| -> Reads<'static> {
            stream.chunks(size).map(Ok).collect()
        };
        let (consumed, buffered) = run_buffered::<[u8; 6]>(chunks(&[1, 2, 3, 4, 5, 6]));
        assert_eq!(consumed.iter().sum::<usize>(), 6);
        assert_eq!(buffered, Ok(expected));
        let (_, unbuffered) = run_unbuffered(
            decode_from_read_unbuffered::<[u8; 6], _>(),
            chunks(&[1, 2, 3, 4, 5, 6]),
        );
        assert_eq!(unbuffered, Ok(expected));
    }
}

#[test]
fn readers_of_a_longer_stream_agree() {
    let stream = [1u8, 2, 3, 4, 5, 6];
    let mut bytes: &[u8] = &stream;
    let expected = decode_from_slice_unbounded::<[u8; 4]>(&mut bytes).unwrap();
    assert_eq!(bytes, &[5, 6]);

    let (consumed, buffered) = run_buffered::<[u8; 4]>(vec![Ok(&stream)]);
    assert_eq!(consumed, vec![4]);
    assert_eq!(buffered, Ok(expected));

    let (limits, unbuffered) =
        run_unbuffered(decode_from_read_unbuffered::<[u8; 4], _>(), vec![Ok(&stream[..4])]);
    assert_eq!(limits, vec![4]);
    assert_eq!(unbuffered, Ok(expected));
}

#[test]
fn unbuffered_buffer_size_makes_no_difference() {
    let stream = [1u8, 2, 3, 4, 5, 6];
    let (limits, one) = run_unbuffered(
        decode_from_read_unbuffered_with::<[u8; 4], _, 1>(),
        vec![Ok(&stream[..1]), Ok(&stream[1..2]), Ok(&stream[2..3]), Ok(&stream[3..4])],
    );
    assert_eq!(limits, vec![1, 1, 1, 1]);
    let (limits, three) = run_unbuffered(
        decode_from_read_unbuffered_with::<[u8; 4], _, 3>(),
        vec![Ok(&stream[..3]), Ok(&stream[3..4])],
    );
    assert_eq!(limits, vec![3, 1]);
    assert_eq!(one, Ok([1, 2, 3, 4]));
    assert_eq!(one, three);

    let (_, one) = run_unbuffered(
        decode_from_read_unbuffered_with::<[u8; 4], _, 1>(),
        vec![Ok(&stream[..1]), Ok(&stream[1..2]), Ok(&[])],
    );
    let (_, three) = run_unbuffered(
        decode_from_read_unbuffered_with::<[u8; 4], _, 3>(),
        vec![Ok(&stream[..2]), Ok(&[])],
    );
    assert_eq!(one, Err(ReadError::Decode(UnexpectedEofError())));
    assert_eq!(one, three);
}

#[test]
fn complete_decoder_leaves_the_stream_unread() {
    let stream = [1u8, 2, 3];
    let mut bytes: &[u8] = &stream;
    assert_eq!(decode_from_slice_unbounded::<[u8; 0]>(&mut bytes), Ok([]));
    assert_eq!(bytes, &stream);
    let (consumed, buffered) = run_buffered::<[u8; 0]>(vec![Ok(&stream)]);
    assert_eq!(consumed, vec![0]);
    assert_eq!(buffered, Ok([]));
    let (limits, unbuffered) = run_unbuffered(decode_from_read_unbuffered::<[u8; 0], _>(), vec![]);
    assert!(limits.is_empty());
    assert_eq!(unbuffered, Ok([]));
}

#[test]
fn insufficient_data_fails_with_every_reader() {
    let stream = [1u8, 2, 3, 4];
    for end in 0..4 {
        let mut bytes: &[u8] = &stream[..end];
        assert_eq!(decode_from_slice_unbounded::<[u8; 4]>(&mut bytes), Err(UnexpectedEofError()));

        let reads = || -> Reads<'_> {
            let mut reads: Reads<'_> = stream[..end].chunks(4).map(Ok).collect();
            reads.push(Ok(&[]));
            reads
        };
        let (consumed, buffered) = run_buffered::<[u8; 4]>(reads());
        assert_eq!(consumed.iter().sum::<usize>(), end);
        assert_eq!(buffered, Err(ReadError::Decode(UnexpectedEofError())));
        let (_, unbuffered) = run_unbuffered(decode_from_read_unbuffered::<[u8; 4], _>(), reads());
        assert_eq!(unbuffered, Err(ReadError::Decode(UnexpectedEofError())));
    }
}
