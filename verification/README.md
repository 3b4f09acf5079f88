# ogurpchik

Authenticated two-party Cap'n Proto RPC over local transports: TCP, Unix sockets, named pipes and
sockets between a host and its virtual machines.

The library under `src/` is verified with Verus. It holds the decisions and formats, and does no
input or output of its own:

- `rpc::frame` says what a message is on the wire and proves that streams of messages read back.
- `rpc::inbound` reads messages off a stream, however it is cut up; `rpc::stream` reads a whole one,
  as the reader of `capnp` does.
- `rpc::batch` gathers messages for vectored writes, byte for byte their frames.
- `rpc::network` decides when to write and what to acknowledge; `rpc::session` how a session ends.
- `auth` holds the handshake: packets, the decisions of both sides and the course they take, how a
  process is verified, and the connection limit.
- `error` holds errors and the text that carries them across the wire.
- `net` holds what is known of transports, pipes, machines and their identifiers.

What the proofs rest on beyond Verus are the items marked `external_body`, `assume_specification`
and `uninterp`. Each says which outside function it stands for and what it claims of it.

`app/` is the ordinary Rust around the library: connections, timeouts, operating system calls and
the traits of `capnp-rpc`. `tests/` runs the library against the real crates.
