# tonic-debug

Debugging and diagnostics for gRPC servers, with its core verified in Verus.

- `src/` is the verified library:
  - `wire.rs`: base-128 varints and little-endian fixed-width integers;
  - `inspect.rs`: schema-less protobuf decoding (`decode_protobuf`) and its laws;
  - `framing.rs`: gRPC length-prefixed frames (`parse_grpc_frames`);
  - `render.rs`, `hexdump.rs`, `text.rs`: the human-readable renderings;
  - `otel.rs`: gRPC method paths; `service.rs`, `body.rs`, `layer.rs`:
    the middleware's configuration and the rules it logs by;
  - `connection.rs`: shared connection counters.
- `app/` holds the tower layers and services, the streaming body wrapper, the
  connection guard and the span attributes, which log through `tracing`.
- `tests/` exercises the library.
