# chat_proxy

The logic of a small chat gateway, verified with Verus. A client posts
`{"message": .., "thread_id": ..}` to `POST /chat`; the gateway forwards the
conversation to an upstream completion service (`STUB_URL`) and streams the
reply back as server-sent events, optionally keeping threads in Postgres.

`src/` is the verified library:

- `text`, `numeral`: character operations (whitespace trimming, ASCII case,
  search) and decimal/hexadecimal numerals as the standard library writes and
  reads them.
- `url`: splitting the upstream URL into host, port and path.
- `connection`: one client connection as a state machine (head, body of
  exactly `Content-Length` bytes, dispatch, keep-alive or close).
- `request`: the request line, the `Content-Length`/`Connection` headers, routing.
- `response`: the reply heads, the request head sent upstream, reading the
  upstream's status line and head.
- `chunked`: chunk frames and chunk-size lines of chunked transfer coding,
  and the reading of a whole chunked body.
- `json`: the JSON body sent upstream.
- `chat`: the chat exchange as a state machine from outcomes to next actions.

`app/` holds the three servers around it (`http` on std networking, `actix`,
`axum`), which do the network and database work that the flow asks for.
