//! Tests for decoding from byte slices.

use bitcoin_consensus_encoding::{
    decode_from_slice, decode_from_slice_unbounded, ArrayDecoder, Decode, DecodeError, Decoder,
    DecoderStatus, UnconsumedError, UnexpectedEofError,
};

struct Foo([u8; 4]);

#[derive(Default)]
struct FooDecoder(ArrayDecoder<4>);

impl Decoder for FooDecoder {
    type Output = Foo;
    type Error = UnexpectedEofError;

    fn push_bytes(&mut self, bytes: &mut &[u8]) -> Result<DecoderStatus, Self::Error> {
        self.0.push_bytes(bytes)
    }
    fn end(self) -> Result<Self::Output, Self::Error> {
        self.0.end().map(Foo)
    }
    fn read_limit(&self) -> usize {
        self.0.read_limit()
    }
}

impl Decode for Foo {
    type Decoder = FooDecoder;
}

#[derive(Debug, PartialEq)]
struct Evens(Vec<u8>);

/// Takes an even byte at a time and rejects an odd one; ready after three.
#[derive(Default)]
struct EvensDecoder(Vec<u8>);

impl Decoder for EvensDecoder {
    type Output = Evens;
    type Error = u8;

    fn push_bytes(&mut self, bytes: &mut &[u8]) -> Result<DecoderStatus, u8> {
        if self.0.len() < 3 && !bytes.is_empty() {
            let byte = bytes[0];
            *bytes = &bytes[1..];
            if byte % 2 != 0 {
                return Err(byte);
            }
            self.0.push(byte);
        }
        Ok(if self.0.len() < 3 { DecoderStatus::NeedsMore } else { DecoderStatus::Ready })
    }
    fn end(self) -> Result<Evens, u8> {
        if self.0.len() < 3 {
            Err(0)
        } else {
            Ok(Evens(self.0))
        }
    }
    fn read_limit(&self) -> usize {
        usize::from(self.0.len() < 3)
    }
}

impl Decode for Evens {
    type Decoder = EvensDecoder;
}

#[test]
fn status_predicates() {
    assert!(DecoderStatus::NeedsMore.needs_more());
    assert!(!DecoderStatus::NeedsMore.is_ready());
    assert!(DecoderStatus::Ready.is_ready());
    assert!(!DecoderStatus::Ready.needs_more());
}

#[test]
fn decodes_a_whole_slice() {
    let foo: Result<Foo, _> = decode_from_slice(&[0xde, 0xad, 0xbe, 0xef]);
    assert_eq!(foo.ok().map(|foo| foo.0), Some([0xde, 0xad, 0xbe, 0xef]));
}

#[test]
fn leftover_bytes_are_an_error() {
    let array: Result<[u8; 4], _> = decode_from_slice(&[1, 2, 3, 4, 5]);
    assert_eq!(array, Err(DecodeError::Unconsumed(UnconsumedError())));
}

#[test]
fn missing_bytes_are_an_error() {
    let array: Result<[u8; 4], _> = decode_from_slice(&[1, 2, 3]);
    assert_eq!(array, Err(DecodeError::Parse(UnexpectedEofError())));
    let array: Result<[u8; 4], _> = decode_from_slice(&[]);
    assert_eq!(array, Err(DecodeError::Parse(UnexpectedEofError())));
}

#[test]
fn empty_object_from_empty_slice() {
    let array: Result<[u8; 0], _> = decode_from_slice(&[]);
    assert_eq!(array, Ok([]));
    let array: Result<[u8; 0], _> = decode_from_slice(&[7]);
    assert_eq!(array, Err(DecodeError::Unconsumed(UnconsumedError())));
}

#[test]
fn unbounded_returns_the_unconsumed_bytes() {
    let mut bytes: &[u8] = &[1, 2, 3, 4, 5, 6, 7];
    assert_eq!(decode_from_slice_unbounded::<[u8; 4]>(&mut bytes), Ok([1, 2, 3, 4]));
    assert_eq!(bytes, &[5, 6, 7]);
    assert_eq!(decode_from_slice_unbounded::<[u8; 4]>(&mut bytes), Err(UnexpectedEofError()));
    assert!(bytes.is_empty());
}

#[test]
fn pushes_until_the_decoder_is_ready() {
    let mut bytes: &[u8] = &[2, 4, 6, 8];
    assert_eq!(decode_from_slice_unbounded::<Evens>(&mut bytes), Ok(Evens(vec![2, 4, 6])));
    assert_eq!(bytes, &[8]);
}

#[test]
fn push_error_stops_the_decoding() {
    let mut bytes: &[u8] = &[2, 5, 6, 8];
    assert_eq!(decode_from_slice_unbounded::<Evens>(&mut bytes), Err(5));
    assert_eq!(bytes, &[6, 8]);
    assert_eq!(decode_from_slice::<Evens>(&[2, 5, 6, 8]), Err(DecodeError::Parse(5)));
}

#[test]
fn ready_decoder_stays_ready() {
    let mut decoder = ArrayDecoder::<2>::default();
    let mut bytes: &[u8] = &[1];
    assert_eq!(decoder.read_limit(), 2);
    assert_eq!(decoder.push_bytes(&mut bytes), Ok(DecoderStatus::NeedsMore));
    assert_eq!(decoder.read_limit(), 1);
    let mut bytes: &[u8] = &[2, 3, 4];
    assert_eq!(decoder.push_bytes(&mut bytes), Ok(DecoderStatus::Ready));
    assert_eq!(bytes, &[3, 4]);
    assert_eq!(decoder.read_limit(), 0);
    assert_eq!(decoder.push_bytes(&mut bytes), Ok(DecoderStatus::Ready));
    assert_eq!(decoder.push_bytes(&mut bytes), Ok(DecoderStatus::Ready));
    assert_eq!(bytes, &[3, 4]);
    assert_eq!(decoder.end(), Ok([1, 2]));
}

#[test]
fn bytes_behind_the_object_do_not_matter() {
    for tail in [&[][..], &[9][..], &[9, 8, 7, 6, 5][..]] {
        let mut input = vec![1u8, 2, 3];
        input.extend_from_slice(tail);
        let mut bytes: &[u8] = &input;
        assert_eq!(decode_from_slice_unbounded::<[u8; 3]>(&mut bytes), Ok([1, 2, 3]));
        assert_eq!(bytes, tail);
    }
}

#[test]
fn every_extension_of_an_object_is_refused() {
    let bytes = [1u8, 2, 3, 4, 5, 6, 7];
    assert_eq!(decode_from_slice::<[u8; 4]>(&bytes[..4]), Ok([1, 2, 3, 4]));
    for end in 5..=7 {
        let array: Result<[u8; 4], _> = decode_from_slice(&bytes[..end]);
        assert_eq!(array, Err(DecodeError::Unconsumed(UnconsumedError())));
        let mut rest: &[u8] = &bytes[..end];
        assert_eq!(decode_from_slice_unbounded::<[u8; 4]>(&mut rest), Ok([1, 2, 3, 4]));
        assert_eq!(rest, &bytes[4..end]);
    }
}
