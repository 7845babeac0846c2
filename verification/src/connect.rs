//! How a channel gets its connection.
use std::hash::Hash;

use vstd::prelude::*;
use vstd::std_specs::hash::obeys_key_model;

use crate::handshake::{send_channel_handshake, send_channel_request};
use crate::pool::BasicPool;

verus! {

/// What to do to open a channel.
pub enum ConnectPlan<F> {
    /// Send `request` as a frame over the idle connection `conn`.
    Reuse { conn: F, request: [u8; 16] },
    /// Open a new connection and write `handshake` to it; from then on it
    /// carries frames.
    Dial { handshake: Vec<u8> },
}

/// Decides how to open the channel `uuid` to the endpoint at `addr`. An idle
/// connection to that address is taken out of `pool`, if there is a pool and it
/// has one, and reused, by an abbreviated handshake that consists of only the
/// request for the channel. Otherwise a new connection begins with a whole
/// handshake.
pub fn connect_channel<A: Eq + Hash, F>(
    pool: Option<&mut BasicPool<A, F>>,
    addr: A,
    uuid: u128,
) -> (plan: ConnectPlan<F>)
    ensures
        pool is None ==> plan is Dial,
        pool matches Some(pooled) ==> (obeys_key_model::<A>() ==> {
            &&& final(pooled)@ == crate::pool::after_get(pooled@, addr)
            &&& match crate::pool::taken(pooled@, addr) {
                Some(idle) => plan matches ConnectPlan::Reuse { conn, .. } && conn == idle,
                None => plan is Dial,
            }
        }),
        plan matches ConnectPlan::Reuse { request, .. } ==> request@
            == crate::handshake::channel_request(uuid),
        plan matches ConnectPlan::Dial { handshake } ==> handshake@
            == crate::handshake::channel_handshake(uuid),
        pool matches Some(pooled) ==> (obeys_key_model::<A>() ==> if pooled@.contains_key(addr)
            && pooled@[addr].len() > 0 {
            &&& plan matches ConnectPlan::Reuse { conn, .. } && conn == pooled@[addr][0]
            &&& final(pooled)@ == pooled@.insert(
                addr,
                pooled@[addr].subrange(1, pooled@[addr].len() as int),
            )
        } else {
            &&& plan is Dial
            &&& final(pooled)@ == pooled@.insert(addr, Seq::empty())
        }),
        plan matches ConnectPlan::Reuse { request, .. } ==> (forall|j: int|
            0 <= j < 16 ==> (#[trigger] request@[j]) as int == (uuid as int
                / vstd::arithmetic::power::pow(256, (15 - j) as nat)) % 256),
        plan matches ConnectPlan::Dial { handshake } ==> {
            &&& handshake@.len() == 29
            &&& forall|i: int|
                0 <= i < 8 ==> #[trigger] handshake@[i] == crate::handshake::PROTOCOL_MAGIC@[i]
            &&& handshake@[8] == 0
            &&& handshake@[9] == 0 && handshake@[10] == 0 && handshake@[11] == 0 && handshake@[12]
                == 16
            &&& forall|j: int|
            13 <= j < 29 ==> (#[trigger] handshake@[j]) as int == (uuid as int
                / vstd::arithmetic::power::pow(256, (28 - j) as nat)) % 256
        },
{
    let pooled: Option<F> = match pool {
        Some(pool) => pool.get(addr),
        None => None,
    };
    match pooled {
        Some(conn) => ConnectPlan::Reuse { conn, request: send_channel_request(uuid) },
        None => ConnectPlan::Dial { handshake: send_channel_handshake(uuid) },
    }
}

/// While a channel is open over a connection, no other channel gets it, be it to
/// the same address or to another. The channel's connection was either idle, in a
/// pool with none idle twice, or new, and so not in the pool; until it is given
/// back, nothing that is done with the pool in between makes the pool offer it.
/// (That none is idle twice holds in every state that a pool reaches from empty:
/// see [`crate::pool::law_reachable_pool_has_no_duplicates`].)
pub proof fn law_open_channels_have_their_own_connections<A, F>(
    pool: Map<A, Seq<F>>,
    addr: A,
    conn: F,
    steps: Seq<crate::pool::PoolUse<A, F>>,
    other: A,
)
    requires
        crate::pool::no_duplicates(pool),
        match crate::pool::taken(pool, addr) {
            Some(idle) => conn == idle,
            None => !crate::pool::is_idle(pool, conn),
        },
        !crate::pool::gives_back(steps, conn),
    ensures
        crate::pool::taken(
            crate::pool::after_uses(crate::pool::after_get(pool, addr), steps),
            other,
        ) != Some(conn),
{
    let left = crate::pool::after_get(pool, addr);
    crate::pool::law_taken_connection_leaves_the_pool(pool, addr);
    if crate::pool::taken(pool, addr) is None {
        assert forall|a: A| !(#[trigger] crate::pool::idle(left, a)).contains(conn) by {
            assert(!crate::pool::idle(pool, a).contains(conn));
        }
    }
    crate::pool::law_connection_serves_one_channel_at_a_time(left, steps, conn, other);
}

/// The bytes that open the channel `uuid` on a connection that is `reused`, or
/// on a new one.
pub open spec fn opening_bytes(reused: bool, uuid: u128) -> Seq<u8> {
    if reused {
        crate::frame::framed(crate::handshake::channel_request(uuid))
    } else {
        crate::handshake::channel_handshake(uuid)
    }
}

/// The handshake on a reused connection is the whole handshake without its
/// preamble.
pub proof fn law_abbreviated_handshake(uuid: u128)
    ensures
        opening_bytes(false, uuid) == crate::handshake::preamble(
            crate::handshake::TrafficType::Channel,
        ) + opening_bytes(true, uuid),
{
}

/// What opens a channel on a reused connection, byte by byte: the length of a
/// UUID in four bytes, and the digits of the UUID. On a new connection, the magic
/// number and the traffic type come before that.
pub proof fn law_opening_bytes_layout(uuid: u128)
    ensures
        opening_bytes(true, uuid).len() == 20,
        opening_bytes(true, uuid)[0] == 0 && opening_bytes(true, uuid)[1] == 0 && opening_bytes(
            true,
            uuid,
        )[2] == 0 && opening_bytes(true, uuid)[3] == 16,
        forall|j: int|
            4 <= j < 20 ==> (#[trigger] opening_bytes(true, uuid)[j]) as int == (uuid as int
                / vstd::arithmetic::power::pow(256, (19 - j) as nat)) % 256,
        opening_bytes(false, uuid).len() == 29,
        opening_bytes(false, uuid).take(8) == crate::handshake::PROTOCOL_MAGIC@,
        opening_bytes(false, uuid)[8] == 0,
        opening_bytes(false, uuid).skip(9) == opening_bytes(true, uuid),
{
    let request = crate::handshake::channel_request(uuid);
    let frame = opening_bytes(true, uuid);
    crate::handshake::law_channel_request_layout(uuid);
    crate::handshake::law_channel_handshake_layout(uuid);
    crate::frame::law_frame_layout(request);
    assert forall|j: int| 4 <= j < 20 implies (#[trigger] frame[j]) as int == (uuid as int
        / vstd::arithmetic::power::pow(256, (19 - j) as nat)) % 256 by {
        assert(frame.skip(4)[j - 4] == frame[j]);
        assert(request[j - 4] == frame[j]);
    }
    assert(opening_bytes(false, uuid).take(8) =~= crate::handshake::PROTOCOL_MAGIC@);
    assert(opening_bytes(false, uuid).skip(9) =~= frame);
}

/// The receiver of an abbreviated handshake, which expects a frame with the UUID
/// of a channel, learns which channel was asked for, and is left with what
/// follows the handshake.
pub proof fn law_abbreviated_handshake_is_received(uuid: u128, rest: Seq<u8>)
    ensures
        !crate::frame::announces_more_than(
            opening_bytes(true, uuid) + rest,
            crate::frame::MAX_FRAME_LENGTH as nat,
        ),
        crate::frame::holds_frame(opening_bytes(true, uuid) + rest),
        crate::frame::frame_payload(opening_bytes(true, uuid) + rest).len() == 16,
        crate::big_endian::be_value(
            crate::frame::frame_payload(opening_bytes(true, uuid) + rest),
        ) == uuid as nat,
        crate::frame::after_frame(opening_bytes(true, uuid) + rest) == rest,
{
    crate::handshake::law_channel_request_is_read_back(uuid);
    crate::frame::law_frame_is_read_back(crate::handshake::channel_request(uuid), rest);
}

} // verus!
