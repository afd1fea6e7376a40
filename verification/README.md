# ovata_infer_protocol

The contract between a caller and an inference provider: request and response shapes, the
messages envelope, the frame codec and the provider interface, verified with Verus.

| File | Contents |
|---|---|
| `src/request.rs` | `InferenceRequest`, JSON, behind its length on a byte stream |
| `src/response.rs` | `Frame`, `[tag][length][payload]`, and the tag constants |
| `src/envelope.rs` | the structured alternative to a plain-string prompt |
| `src/health.rs` | `Health`, the report that answers `health_only` |
| `src/provider.rs` | `Provider`, `FrameSink`, and serving one request |
| `src/parts.rs`, `src/record.rs` | a message's JSON text cut into fields, and the rules for reading them |
| `src/place.rs` | the words in which a fault in a JSON text is told |
| `src/wire.rs` | little-endian integers and UTF-8 |
| `src/json.rs` | the model of JSON, and what is taken on trust of `serde_json` |
| `app/` | the C ABI of a provider library, and types with `serde` and `Error` impls |

Each function states what it returns over spec functions of its module. What holds across
functions stands beside them as public proof functions: what is encoded is decoded, what is
cut off is incomplete, what is unknown is passed over, what is absent has its default.

`PROTOCOL_VERSION` is separate from the crate's version. It changes only with the wire format;
a new request field with a default, or a new frame that older clients can pass over, leaves it
as it is. The dependencies are `serde` and `serde_json`, and stay so.
