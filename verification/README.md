# aquatic_http

The socket worker of an HTTP BitTorrent tracker, as a library whose behaviour is
stated in contracts and proved with [Verus](https://github.com/verus-lang/verus).

A socket worker reads announce and scrape requests from its connections, passes
them on to the swarm workers that keep the peers of the torrents, and writes the
answers. The library decides each step; sockets, channels and timers are in `app/`.

## Layout

- `src/request.rs`: reading a request from the bytes received, and the address of
  the peer from the headers that a reverse proxy sets
- `src/connection.rs`: what happens on one connection, from reading to closing
- `src/scrape.rs`, `src/files.rs`: dividing a scrape request among the swarm
  workers and merging their answers
- `src/response.rs`: responses as bencoded HTTP messages
- `src/registry.rs`, `src/common.rs`: the requests that wait for an answer, and the
  messages to and from swarm workers
- `src/table.rs`, `src/worker.rs`: open connections and listening sockets
- `src/address.rs`, `src/text.rs`, `src/error.rs`, `src/config.rs`,
  `src/protocol.rs`, `src/http.rs`, `src/access_list.rs`: addresses, text, errors,
  settings and what the library has from other crates
- `tests/`: tests of the library
- `app/`: the worker itself, on top of glommio

## What is trusted

The HTTP head is parsed by `httparse`, the query of a tracker request and the
bencoded bodies are those of `aquatic_http_protocol`, numbers are written by
`itoa`, open connections are kept in a `slotmap`, the access list is that of
`aquatic_common`, and header values are decoded by `std::str::from_utf8`. Each call stands in a function marked
`#[verifier::external_body]`, whose doc comment says what is claimed of it.
