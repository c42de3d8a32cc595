# Consensus decoding

Push decoders for consensus-encoded objects, and drivers that feed them from byte slices, buffered
and unbuffered readers, and asynchronous readers. Written and proved in Verus.

- `src/decode.rs`: the traits `Decode` and `Decoder`. A decoder says what it does through its spec
  functions; `orderly_push` is what every decoder keeps to.
- `src/slice.rs`, `src/check.rs`: decoding from slices, and checking what they decode to.
- `src/buffered.rs`, `src/unbuffered.rs`, `src/async_read.rs`: decoding from readers. These drivers
  perform no I/O. They ask for a read and take what it returned.
- `src/decoders.rs`: a decoder for byte arrays.
- `src/laws/`: laws of the library as a whole. The main one is that it makes no difference to the
  result which reader a stream comes from, how it is cut into chunks, how large the buffer is, or
  how much of the stream the reader provides beyond the object (`src/laws/agreement.rs`). It holds
  of decoders made for streams that know where an object ends and have one result for a stream;
  `src/decoders.rs` shows that array decoders do.
- `app/`: performs the reads, with `std::io` readers and poll callbacks.
