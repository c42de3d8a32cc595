//! Tests for checking decoders.

use bitcoin_consensus_encoding::{
    check_decode, check_decoder, decode_from_slice_unbounded, ArrayDecoder, CheckError, Decode,
    Decoder, DecoderStatus, UnexpectedEofError,
};

#[derive(Debug, PartialEq, Eq)]
struct Letter(char);

/// Takes one byte up to `0x7f`, and cannot be finished with a zero.
#[derive(Default)]
struct Ascii(Option<u8>);

impl Decoder for Ascii {
    type Output = Letter;
    type Error = &'static str;

    fn push_bytes(&mut self, bytes: &mut &[u8]) -> Result<DecoderStatus, Self::Error> {
        if self.0.is_none() && !bytes.is_empty() {
            let byte = bytes[0];
            *bytes = &bytes[1..];
            if byte > 0x7f {
                return Err("not ascii");
            }
            self.0 = Some(byte);
        }
        Ok(if self.0.is_none() { DecoderStatus::NeedsMore } else { DecoderStatus::Ready })
    }
    fn end(self) -> Result<Letter, Self::Error> {
        match self.0 {
            None => Err("missing"),
            Some(0) => Err("zero"),
            Some(byte) => Ok(Letter(char::from(byte))),
        }
    }
    fn read_limit(&self) -> usize {
        usize::from(self.0.is_none())
    }
}

impl Decode for Letter {
    type Decoder = Ascii;
}

#[test]
fn check_passes_on_the_expected_value() {
    assert_eq!(check_decode(b"a", &Letter('a')), Ok(()));
    assert_eq!(check_decode(&[1, 2, 3], &[1, 2, 3]), Ok(()));
    assert_eq!(check_decoder(ArrayDecoder::<2>::default(), &[1, 2], &[1, 2]), Ok(()));
}

#[test]
fn check_ignores_leftover_bytes() {
    assert_eq!(check_decode(&[1, 2, 3], &[1, 2]), Ok(()));
}

#[test]
fn check_pushes_even_without_bytes() {
    assert_eq!(check_decode(&[], &[0u8; 0]), Ok(()));
    assert_eq!(check_decode(&[], &Letter('a')), Err(CheckError::NeedsMore));
}

#[test]
fn check_reports_another_value() {
    assert_eq!(check_decode(b"b", &Letter('a')), Err(CheckError::Mismatch(Letter('b'))));
}

#[test]
fn check_reports_missing_bytes() {
    let outcome: Result<(), CheckError<[u8; 2], UnexpectedEofError>> =
        check_decode(&[1], &[1, 2]);
    assert_eq!(outcome, Err(CheckError::NeedsMore));
}

#[test]
fn check_reports_a_failed_push() {
    assert_eq!(check_decode(&[0xff], &Letter('a')), Err(CheckError::Push("not ascii")));
}

#[test]
fn check_reports_a_failed_end() {
    assert_eq!(check_decode(&[0], &Letter('a')), Err(CheckError::End("zero")));
}

#[test]
fn checks_find_what_decoding_gives() {
    for input in [&b"a"[..], &b"b!"[..], &[0xff][..], &[0][..]] {
        let mut bytes = input;
        let decoded = decode_from_slice_unbounded::<Letter>(&mut bytes);
        match check_decode(input, &Letter('a')) {
            Ok(()) => assert_eq!(decoded, Ok(Letter('a'))),
            Err(CheckError::Mismatch(letter)) => assert_eq!(decoded, Ok(letter)),
            Err(CheckError::Push(error)) | Err(CheckError::End(error)) => {
                assert_eq!(decoded, Err(error))
            }
            Err(CheckError::NeedsMore) => panic!("there are enough bytes"),
        }
    }
}

#[test]
fn check_needs_more_only_where_nothing_is_left_over() {
    let input = [1u8, 2, 3, 4, 5];
    for end in 0..=5 {
        let mut bytes: &[u8] = &input[..end];
        let decoded = decode_from_slice_unbounded::<[u8; 3]>(&mut bytes);
        let outcome = check_decode(&input[..end], &[1u8, 2, 3]);
        if end < 3 {
            assert_eq!(outcome, Err(CheckError::NeedsMore));
            assert_eq!(decoded, Err(UnexpectedEofError()));
            assert!(bytes.is_empty());
        } else {
            assert_eq!(outcome, Ok(()));
            assert_eq!(decoded, Ok([1, 2, 3]));
        }
    }
}
