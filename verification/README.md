# rust_sse

Server-sent events (`text/event-stream`) in Verus: an incremental parser for
byte chunks cut anywhere, the formatter for the text form of an event, and the
protocol bridge around them (SSE, WebSocket, gRPC).

- `src/` is the verified library.
  - `parser.rs`: the incremental parser; its behaviour is the fold `feed` of a
    byte-level `step`, and the laws there show that chunk boundaries do not
    change the events and that `\n`, `\r` and `\r\n` end lines alike.
  - `event.rs`: the event type and its text form.
  - `roundtrip.rs`: the text form of an event, read back by the parser, gives
    the event again.
  - `text.rs`: decimal numbers, Unicode whitespace, lossy UTF-8 decoding.
  - `bridge/`: the bridged event format and the decisions of a bridge run.
  - `sinks.rs`, `sources.rs`: what sinks send (with a JSON string escape
    proved to decode back to its input) and what sources decide.
  - `multicast.rs`: the subscriber registry of a fan-out and the source of
    subscriber ids.
  - `client.rs`: the client's decisions: the request URL, the
    `Last-Event-ID` header value, reconnection, and the event id to resume
    after.
- `app/` is the asynchronous runtime: the reqwest client, the bridge loop,
  broadcast and fan-out channels, WebSocket and gRPC plumbing, and the axum
  integration. The decisions on events, errors and outcomes are the
  library's; `app/` keeps what reads live state (whether a channel or a sink
  is closed, the running flag) and the backoff delay, which grows by a
  floating-point factor.
- `tests/` runs the library on concrete inputs.
