# photon

HTTP/1.1, HTTP/2, WebSocket and QUIC protocol logic, written in Verus with
machine-checked contracts.

## Layout

- `src/` is the verified library: frame codecs and settings (`http2::frame`),
  the HTTP/2 session state machine (`http2::session`, `http2::recv`,
  `http2::send`), HTTP/1 message parsing and head formatting (`http1`),
  WebSocket frames (`websocket`), QUIC varints, frame shapes and the walk
  over the packets of a datagram (`quic`),
  and the laws that tie writing and reading together (`http1::readback`,
  `http2::delivery`, and the round-trip lemmas next to each codec).
- `app/` is ordinary Rust around the library: sockets (TCP, and UDP for
  QUIC), TLS, the tokio runtime and the async read and write loops that drive the library's
  state machines.
- `tests/` runs the library on concrete inputs.

## Outside crates

HPACK coding (Huffman codes and the indexing tables) is done by the
`httlib-hpack` crate. `src/http2/hpack.rs` checks the framing of each field
representation itself and states what the crate's decoder and encoder give
over a model of the tables: the static table of RFC 7541, the dynamic table
as a sequence of entries with its size limit, and eviction. The Huffman
coding itself is left as a named function of its input.

HTTP/2 streams are kept in a `dashmap::DashMap`; SHA-1 and base64 (for the
WebSocket handshake) come from `sha1` and `base64`, the handshake key from
`rand`.
