# abus

A D-Bus library whose protocol logic is written in Verus and proved against
its specification.

- `src/object_path.rs`: object paths, their validation and the namespace relation.
- `src/wire.rs`: the message format over byte sequences: decoding and encoding.
- `src/message.rs`: message types, decoding from and encoding to bytes.
- `src/roundtrip.rs`: decoding what encoding wrote gives the message back.
- `src/codec.rs`: framing messages in a `bytes::BytesMut` stream buffer.
- `src/connection.rs`: the `EXTERNAL` authentication handshake, as decisions per line,
  and what a whole conversation of lines writes and how it ends.
- `src/endianness.rs`, `src/utils.rs`: byte order, hexadecimal text, identifiers.
- `app/`: `abusctl`, which connects to the system bus, runs the handshake
  and sends `Hello`.
