# http_server

A tiny HTTP/1.1 server library whose logic is verified with Verus.

- `src/http/`: request parsing (`request.rs`), headers, query strings,
  methods, status codes and responses. `Request::try_from` is specified by
  `parse_request`, a spec function over the received bytes.
- `src/server.rs`: the `Handler` trait and the decisions taken after each read
  from a connection (`after_read`, `reply_to`).
- `src/example/`: the example website and the example items API;
  `src/app_handler.rs` and `src/website_handler.rs` route between them.
- `src/text.rs`: character-level helpers (trimming, comparison, numbers).
- `app/main.rs`: sockets, threads and the items file; it runs the example
  apps on ports 8081 (API) and 80 (website).
