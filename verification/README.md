# comm

The guts of a point-to-point network protocol that multiplexes channels and
rendezvous over TCP or Unix streams, and pools connections for reuse.

- `src/` is the verified library. It makes every decision of the protocol and
  does no I/O:
  - `handshake`: the bytes that open a connection, and how they are read;
  - `frame`: length-prefixed frames;
  - `channel`: the two ends of a channel, as state machines;
  - `pool` and `connect`: idle connections, and when a channel reuses one;
  - `wire`: what a connection carries over its life, byte by byte;
  - `addr`: addresses; `big_endian`: numbers as bytes.
- `app/` performs the I/O with `tokio` and `futures`, and serializes messages
  with `bincode`.
- `tests/` runs the library.

Proof functions whose names begin with `law_` state what holds across calls: a
handshake is received as it was sent, and nothing else is; a channel delivers
its items in order and is hung up once, and ends once where a fuse remembers the
end, as the one in `app/` does; a connection serves one channel at a time and is
reused without a byte of the next channel being lost; the pool is first in,
first out.

What is taken on trust is what the calls into `tokio`'s length-delimited codec
and into `uuid` do; their contracts stand at the functions that make them, in
`frame` and `handshake`. Beyond that, what is said of the pool holds for
addresses that are fit to be keys of a hash map.
