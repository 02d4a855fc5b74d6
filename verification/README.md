# snap7

A Siemens S7 protocol stack whose logic is verified with Verus.

`src/` is the verified library:

- `proto/` — the wire codecs: TPKT, COTP, the S7 header and its parameter
  blocks (read/write variables, SZL, clock, negotiation), and S7CommPlus
  frames, data areas, VLQ integers and HMAC integrity blocks. Each codec states
  the bytes it writes and what decoding gives, and the round trips are proved.
- `client/` — the client's decisions: connection setup, how multi-variable
  requests are cut into PDUs, how answers and PLC errors are read, block and
  SZL parsing, uploads and downloads, the S7CommPlus session, the pool's
  bookkeeping, and datagram buffering.
- `server/` — the simulated PLC: its data store (memory, areas, locks, events,
  CPU state, clock), its connection setup and its answer to every request,
  and what a client of this library reads back from those answers.
- `partner/` — BSend/BRecv fragmentation, framing and acknowledgement.
- `gateway/` — the OPC-UA gateway's configuration, tag registry, value
  conversions, write checks and poll plans.
- `tag.rs`, `types.rs`, `text.rs`, `ascii.rs`, `wire.rs` — tag addresses, PLC
  data types, and the byte and text helpers the rest is built on.

`tests/` runs the library on concrete values. `app/` holds the I/O: async
clients over TCP, TLS and UDP, the server loop, the partner loops, the
connection pool, and serde copies of the gateway configuration.
