//! The guts of the `comm` network protocol: how connections are recognised,
//! how a channel is set up, carried and torn down, and how idle connections
//! are pooled for reuse.
//!
//! The library decides; it does no I/O. Everything that goes over a connection
//! is handed to the caller as bytes or messages, and everything that comes back
//! is handed in.
//!
//! A connection begins with a simple handshake that identifies the type of
//! traffic: the eight bytes of [`handshake::PROTOCOL_MAGIC`], then one byte
//! for the [`handshake::TrafficType`]. A rendezvous connection continues with
//! the 64-bit identifier of the sending node in big-endian order, and is free
//! for other protocols after that. A channel connection carries length-prefixed
//! frames ([`frame`]). The first of them holds the UUID of the desired endpoint,
//! the others hold the messages of the channel ([`channel`]). Once the channel
//! has been hung up, the connection can wait in a pool ([`pool`]) for another
//! channel, which needs no more of a handshake than the frame with its UUID
//! ([`connect`]). What all of this puts on a connection over its life is laid out
//! in [`wire`].
pub mod addr;
pub mod big_endian;
pub mod channel;
pub mod connect;
pub mod frame;
pub mod handshake;
pub mod pool;
pub mod wire;
