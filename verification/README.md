# sozu_http

The HTTP/1.x message parsers of a reverse proxy, with their behaviour stated
in Verus contracts and proved.

- `src/grammar.rs`: the streaming grammar of request lines, status lines,
  header lines, CRLF and chunk size lines; each parser answers `Done`,
  `Incomplete` or `Error` on the bytes it is given.
- `src/prefix.rs`: a parser that settled (`Done` or `Error`) on some bytes
  answers the same whatever bytes follow them.
- `src/request.rs`, `src/header.rs`: the request head state machine, from the
  request line to the state of a complete head (host, body length).
- `src/response.rs`, `src/chunk.rs`, `src/header_value.rs`: the response head
  state machine and the progress through a chunked body.
- `src/response_stream.rs`, `src/buffer.rs`: parsing a response out of a
  buffer and queueing what to send of it (the proxy's own headers, the sticky
  session cookie, the forwarded and the dropped bytes).
- `src/http_utils.rs`, `src/aggregator.rs`: the messages and counters used by
  end-to-end runs, and what the parsers read of those messages.
- `app/`: plain TCP mock clients and backends for end-to-end runs.

Public proof functions named `law_*` state the properties that hold across
calls: resuming a parse, accounting of every parsed byte in the output queue,
error states being final, and the messages of `http_utils` being read back as
what they say.
