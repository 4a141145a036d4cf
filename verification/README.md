# minicbor-embedded-io

Incremental CBOR reading and writing for byte sources and sinks that deliver
data piece by piece, built on `minicbor`.

Layout:

- `src/` is the verified library (Verus):
  - `header.rs` reads array and map heads, against a model of CBOR heads;
  - `reader.rs` is the read buffer that feeds a decoder one item at a time,
    and the decisions taken while reading the items of arrays and maps;
  - `reader/direct.rs` is the reader for sources that lend out chunks of
    their own memory;
  - `writer.rs` is the cursor an encoder writes into.
- `app/` holds the asynchronous front ends: they own the `embedded-io-async`
  sources and sinks, call the decoder and encoder, and perform the steps the
  library decides on.
- `tests/` exercises the library with concrete inputs.
