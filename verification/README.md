# vial request handling, verified

The request side of a small HTTP framework, written in Verus.

- `src/span.rs` — `Span`, a `(start, end)` pair into the raw request, and the
  text it designates (`span_text`: empty, the covered UTF-8, or `"?"`).
- `src/request.rs` — `Request`: path (with and without the query string),
  method, body, headers (case-insensitive lookup, repeated headers joined by
  `", "`), URL arguments, form values, query values, cookies, preferred
  compression.
- `src/form.rs` — decoding of `x-www-form-urlencoded` bodies.
- `src/str_map.rs` — the string map behind arguments and form values.
- `src/cookies.rs`, `src/compression.rs` — the calls into `basic_cookies`,
  `http` and `fly_accept_encoding`.
- `src/laws.rs` — properties that span several operations.
- `app/` — reading raw requests from readers and sockets, socket address
  conversion, JSON bodies (`serde_json`), and the debug view of a request.
