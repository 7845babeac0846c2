//! The handshakes that open a connection.
use vstd::prelude::*;
use vstd::slice::{slice_subrange, slice_to_vec};

use crate::big_endian::{u64_from_be_bytes, u64_to_be_bytes};
use crate::frame::{decode_frame, encode_frame};

verus! {

/// A magic number that is sent along at the beginning of each network
/// connection. The intent is to make it easy to sniff out `comm` traffic when
/// multiple protocols are multiplexed on the same port.
pub const PROTOCOL_MAGIC: [u8; 8] = [0x5f, 0x65, 0x44, 0x90, 0xaf, 0x4b, 0x3c, 0xfc];

/// Whether `bytes` begins with the magic number.
pub open spec fn begins_with_magic(bytes: Seq<u8>) -> bool {
    bytes.len() >= 8 && bytes.take(8) == PROTOCOL_MAGIC@
}

/// Reports whether the connection handshake is `comm` traffic by sniffing out
/// whether the first bytes of `buf` match [`PROTOCOL_MAGIC`].
pub fn match_handshake(buf: &[u8]) -> (res: bool)
    ensures
        res == begins_with_magic(buf@),
        res <==> buf@.len() >= 8 && (forall|i: int|
            0 <= i < 8 ==> #[trigger] buf@[i] == PROTOCOL_MAGIC@[i]),
{
    if buf.len() < 8 {
        return false;
    }
    let magic: [u8; 8] = PROTOCOL_MAGIC;
    let mut i: usize = 0;
    while i < 8
        invariant
            i <= 8 <= buf@.len(),
            magic == PROTOCOL_MAGIC,
            forall|j: int| 0 <= j < i ==> buf@[j] == PROTOCOL_MAGIC@[j],
        decreases 8 - i,
    {
        if buf[i] != magic[i] {
            assert(buf@.take(8)[i as int] != PROTOCOL_MAGIC@[i as int]);
            return false;
        }
        i = i + 1;
    }
    assert(buf@.take(8) =~= PROTOCOL_MAGIC@);
    proof {
        law_magic_is_the_prefix(buf@, Seq::empty());
    }
    true
}

/// The type of traffic that a connection carries.
#[derive(Clone, Copy, Debug, PartialEq, Eq, Structural)]
pub enum TrafficType {
    /// Messages for MPSC and broadcast channels.
    Channel,
    /// A single rendezvous between two nodes.
    Rendezvous,
}

/// A byte that stands for no traffic type.
#[derive(Clone, Copy, Debug, PartialEq, Eq, Structural)]
pub struct UnknownTrafficType {
    /// The byte.
    pub number: u8,
}

impl TrafficType {
    /// The byte that stands for the traffic type in a handshake.
    pub open spec fn number(self) -> u8 {
        match self {
            TrafficType::Channel => 0,
            TrafficType::Rendezvous => 1,
        }
    }

    /// The byte that stands for the traffic type in a handshake.
    pub fn into_u8(self) -> (number: u8)
        ensures
            number == self.number(),
            self is Channel ==> number == 0,
            self is Rendezvous ==> number == 1,
    {
        match self {
            TrafficType::Channel => 0,
            TrafficType::Rendezvous => 1,
        }
    }

    /// The traffic type that `number` stands for, if there is one.
    pub fn try_from_u8(number: u8) -> (res: Result<TrafficType, UnknownTrafficType>)
        ensures
            res is Ok <==> number <= 1,
            res matches Ok(traffic) ==> traffic.number() == number,
            res matches Err(err) ==> err.number == number,
            number == 0 ==> res == Ok::<TrafficType, UnknownTrafficType>(TrafficType::Channel),
            number == 1 ==> res == Ok::<TrafficType, UnknownTrafficType>(TrafficType::Rendezvous),
    {
        match number {
            0 => Ok(TrafficType::Channel),
            1 => Ok(TrafficType::Rendezvous),
            _ => Err(UnknownTrafficType { number }),
        }
    }
}

/// Declares `uuid::Error`, the error of `uuid`'s constructors. Nothing is claimed
/// of it.
#[verifier::external_type_specification]
#[verifier::external_body]
pub struct ExUuidError(uuid::Error);

/// `Uuid::as_bytes` of `uuid`, on the UUID that `Uuid::from_u128` makes of
/// `uuid`: the sixteen bytes of the number, most significant byte first.
#[verifier::external_body]
fn uuid_as_bytes(uuid: u128) -> (bytes: [u8; 16])
    ensures
        bytes@ == crate::big_endian::be_bytes(16, uuid as nat),
{
    *uuid::Uuid::from_u128(uuid).as_bytes()
}

/// `Uuid::from_slice` of `uuid`, with the UUID it makes taken as a number by
/// `Uuid::as_u128`: sixteen bytes are read as a number, most significant byte
/// first, and any other count of bytes is refused.
#[verifier::external_body]
fn uuid_from_slice(bytes: &[u8]) -> (res: Result<u128, uuid::Error>)
    ensures
        res is Ok <==> bytes@.len() == 16,
        res matches Ok(uuid) ==> uuid as nat == crate::big_endian::be_value(bytes@),
{
    uuid::Uuid::from_slice(bytes).map(|uuid| uuid.as_u128())
}

/// The payload of the frame that asks for the channel `uuid`: the bytes of that
/// UUID.
pub open spec fn channel_request(uuid: u128) -> Seq<u8> {
    crate::big_endian::be_bytes(16, uuid as nat)
}

/// What every connection begins with: the magic number, then the byte of its
/// traffic type.
pub open spec fn preamble(traffic: TrafficType) -> Seq<u8> {
    PROTOCOL_MAGIC@.push(traffic.number())
}

/// The whole handshake of a new channel connection for the channel `uuid`.
pub open spec fn channel_handshake(uuid: u128) -> Seq<u8> {
    preamble(TrafficType::Channel) + crate::frame::framed(channel_request(uuid))
}

/// The whole handshake of a rendezvous connection from the node `id`.
pub open spec fn rendezvous_handshake(id: u64) -> Seq<u8> {
    preamble(TrafficType::Rendezvous) + crate::big_endian::be_bytes(8, id as nat)
}

/// Writes out what a connection of the given traffic type begins with.
fn begin_handshake(traffic: TrafficType) -> (bytes: Vec<u8>)
    ensures
        bytes@ == preamble(traffic),
{
    let magic: [u8; 8] = PROTOCOL_MAGIC;
    let mut bytes: Vec<u8> = Vec::new();
    bytes.extend_from_slice(&magic);
    bytes.push(traffic.into_u8());
    assert(bytes@ =~= preamble(traffic));
    bytes
}

/// Returns the payload of the frame that asks for the channel `uuid`. On a
/// connection that an earlier channel hung up, this frame is all of the
/// handshake.
pub fn send_channel_request(uuid: u128) -> (payload: [u8; 16])
    ensures
        payload@ == channel_request(uuid),
        forall|j: int|
            0 <= j < 16 ==> (#[trigger] payload@[j]) as int == (uuid as int
                / vstd::arithmetic::power::pow(256, (15 - j) as nat)) % 256,
{
    proof {
        law_channel_request_layout(uuid);
    }
    uuid_as_bytes(uuid)
}

/// Returns the bytes that open a new connection for the channel `uuid`. After
/// them, the connection carries frames.
pub fn send_channel_handshake(uuid: u128) -> (bytes: Vec<u8>)
    ensures
        bytes@ == channel_handshake(uuid),
        bytes@.len() == 29,
        forall|i: int| 0 <= i < 8 ==> #[trigger] bytes@[i] == PROTOCOL_MAGIC@[i],
        bytes@[8] == 0,
        bytes@[9] == 0 && bytes@[10] == 0 && bytes@[11] == 0 && bytes@[12] == 16,
        forall|j: int|
            13 <= j < 29 ==> (#[trigger] bytes@[j]) as int == (uuid as int
                / vstd::arithmetic::power::pow(256, (28 - j) as nat)) % 256,
{
    proof {
        law_channel_handshake_layout(uuid);
    }
    let mut bytes: Vec<u8> = begin_handshake(TrafficType::Channel);
    let request: [u8; 16] = send_channel_request(uuid);
    let frame: Vec<u8> = encode_frame(&request).unwrap();
    bytes.extend_from_slice(&frame);
    assert(bytes@ =~= channel_handshake(uuid));
    bytes
}

/// Returns the bytes that open a rendezvous connection from the node `id`.
/// After them, the connection is free for any other protocol.
pub fn send_rendezvous_handshake(id: u64) -> (bytes: Vec<u8>)
    ensures
        bytes@ == rendezvous_handshake(id),
        bytes@.len() == 17,
        forall|i: int| 0 <= i < 8 ==> #[trigger] bytes@[i] == PROTOCOL_MAGIC@[i],
        bytes@[8] == 1,
        forall|j: int|
            9 <= j < 17 ==> (#[trigger] bytes@[j]) as int == (id as int
                / vstd::arithmetic::power::pow(256, (16 - j) as nat)) % 256,
{
    proof {
        law_rendezvous_handshake_layout(id);
    }
    let mut bytes: Vec<u8> = begin_handshake(TrafficType::Rendezvous);
    let number: [u8; 8] = u64_to_be_bytes(id);
    bytes.extend_from_slice(&number);
    assert(bytes@ =~= rendezvous_handshake(id));
    bytes
}

/// A completed handshake: what was asked for, and the connection it came over.
/// A channel connection carries frames from here on (`F`), a rendezvous
/// connection is handed back as it is (`C`).
pub enum RecvHandshake<C, F> {
    /// A channel connection, with the UUID of the channel.
    Channel(u128, F),
    /// A rendezvous connection, with the identifier of the node at the other
    /// end.
    Rendezvous(u64, C),
}

/// Reads the traffic type off the first nine bytes of a connection. A channel
/// connection continues with a frame, for [`recv_channel_handshake`]; a
/// rendezvous connection with eight more bytes, for
/// [`recv_rendezvous_handshake`].
///
/// The bytes have to begin with the magic number, as [`match_handshake`]
/// reports, and to end with the byte of a traffic type, as
/// [`TrafficType::try_from_u8`] reports.
pub fn recv_handshake(buf: &[u8; 9]) -> (traffic: TrafficType)
    requires
        begins_with_magic(buf@),
        buf@[8] <= 1,
    ensures
        traffic.number() == buf@[8],
        traffic is Channel <==> buf@[8] == 0,
        traffic is Rendezvous <==> buf@[8] == 1,
{
    TrafficType::try_from_u8(buf[8]).unwrap()
}

/// Completes the handshake of a channel connection: `payload` is what the first
/// frame on `conn` carried, and has to be as long as a UUID.
pub fn recv_channel_handshake<C, F>(payload: &[u8], conn: F) -> (res: RecvHandshake<C, F>)
    requires
        payload@.len() == 16,
    ensures
        res matches RecvHandshake::Channel(uuid, framed) && framed == conn && uuid as nat
            == crate::big_endian::be_value(payload@),
        res matches RecvHandshake::Channel(uuid, _) && (forall|j: int|
            0 <= j < 16 ==> (#[trigger] payload@[j]) as int == (uuid as int
                / vstd::arithmetic::power::pow(256, (15 - j) as nat)) % 256),
{
    let uuid: u128 = uuid_from_slice(payload).unwrap();
    proof {
        crate::big_endian::law_bytes_of_value(payload@);
        crate::big_endian::law_bytes_are_digits(16, uuid as nat);
    }
    RecvHandshake::Channel(uuid, conn)
}

/// Completes the handshake of a rendezvous connection: `buf` is what followed
/// the first nine bytes on `conn`.
pub fn recv_rendezvous_handshake<C, F>(buf: [u8; 8], conn: C) -> (res: RecvHandshake<C, F>)
    ensures
        res matches RecvHandshake::Rendezvous(id, raw) && raw == conn && id as nat
            == crate::big_endian::be_value(buf@),
        res matches RecvHandshake::Rendezvous(id, _) && (forall|j: int|
            0 <= j < 8 ==> (#[trigger] buf@[j]) as int == (id as int
                / vstd::arithmetic::power::pow(256, (7 - j) as nat)) % 256),
{
    let id: u64 = u64_from_be_bytes(buf);
    RecvHandshake::Rendezvous(id, conn)
}

/// What a receiver makes of a connection over which `stream` arrives: it reads
/// the first nine bytes, then the frame or the eight bytes that the traffic type
/// calls for. The connection that it is left with is given as the bytes that
/// are still to be read from it. There is no result where the receiver waits
/// for more bytes or gives up.
pub open spec fn received(stream: Seq<u8>) -> Option<RecvHandshake<Seq<u8>, Seq<u8>>> {
    let rest = stream.skip(9);
    if stream.len() < 9 || !begins_with_magic(stream) {
        None
    } else if stream[8] == TrafficType::Channel.number() {
        if !crate::frame::announces_more_than(rest, crate::frame::MAX_FRAME_LENGTH as nat)
            && crate::frame::holds_frame(rest) && crate::frame::frame_payload(rest).len() == 16 {
            Some(
                RecvHandshake::Channel(
                    crate::big_endian::be_value(crate::frame::frame_payload(rest)) as u128,
                    crate::frame::after_frame(rest),
                ),
            )
        } else {
            None
        }
    } else if stream[8] == TrafficType::Rendezvous.number() {
        if rest.len() >= 8 {
            Some(
                RecvHandshake::Rendezvous(
                    crate::big_endian::be_value(rest.take(8)) as u64,
                    rest.skip(8),
                ),
            )
        } else {
            None
        }
    } else {
        None
    }
}

/// Whether a receiver gives up on a connection over which `stream` arrives: it
/// does not begin with the magic number, or has no traffic type behind it, or
/// asks for a channel by a frame that is refused or not as long as a UUID.
pub open spec fn refused(stream: Seq<u8>) -> bool {
    let rest = stream.skip(9);
    ||| stream.len() >= 8 && !begins_with_magic(stream)
    ||| stream.len() >= 9 && stream[8] > 1
    ||| stream.len() >= 9 && stream[8] == TrafficType::Channel.number()
        && crate::frame::announces_more_than(rest, crate::frame::MAX_FRAME_LENGTH as nat)
    ||| stream.len() >= 9 && stream[8] == TrafficType::Channel.number()
        && crate::frame::holds_frame(rest) && crate::frame::frame_payload(rest).len() != 16
}

/// Whether a receiver waits for more of a connection over which `stream` has
/// arrived so far: it needs the magic number and the traffic type, then a whole
/// frame or eight bytes.
pub open spec fn awaited(stream: Seq<u8>) -> bool {
    let rest = stream.skip(9);
    ||| stream.len() < 8
    ||| stream.len() < 9 && begins_with_magic(stream)
    ||| stream.len() >= 9 && begins_with_magic(stream) && stream[8]
        == TrafficType::Channel.number() && !crate::frame::announces_more_than(
        rest,
        crate::frame::MAX_FRAME_LENGTH as nat,
    ) && !crate::frame::holds_frame(rest)
    ||| stream.len() >= 9 && begins_with_magic(stream) && stream[8]
        == TrafficType::Rendezvous.number() && rest.len() < 8
}

/// A completed handshake, with the bytes that are still to be read from its
/// connection taken by their view.
pub open spec fn unread(handshake: RecvHandshake<Vec<u8>, Vec<u8>>) -> RecvHandshake<
    Seq<u8>,
    Seq<u8>,
> {
    match handshake {
        RecvHandshake::Channel(uuid, rest) => RecvHandshake::Channel(uuid, rest@),
        RecvHandshake::Rendezvous(id, rest) => RecvHandshake::Rendezvous(id, rest@),
    }
}

/// Reads a whole handshake from `stream`, the bytes that have arrived on a
/// connection so far. The bytes after the handshake stand for the connection.
///
/// There is no handshake as long as it has not arrived whole ([`awaited`]), nor
/// where a receiver has to give up ([`refused`]).
pub fn receive_handshake(stream: &[u8]) -> (res: Option<RecvHandshake<Vec<u8>, Vec<u8>>>)
    ensures
        res is Some <==> received(stream@) is Some,
        res matches Some(handshake) ==> received(stream@) == Some(unread(handshake)),
        res is None <==> awaited(stream@) || refused(stream@),
        res matches Some(RecvHandshake::Channel(uuid, rest)) ==> {
            &&& stream@.len() >= 29
            &&& forall|i: int| 0 <= i < 8 ==> #[trigger] stream@[i] == PROTOCOL_MAGIC@[i]
            &&& stream@[8] == 0
            &&& stream@[9] == 0 && stream@[10] == 0 && stream@[11] == 0 && stream@[12] == 16
            &&& forall|j: int|
            13 <= j < 29 ==> (#[trigger] stream@[j]) as int == (uuid as int
                / vstd::arithmetic::power::pow(256, (28 - j) as nat)) % 256
            &&& rest@ == stream@.subrange(29, stream@.len() as int)
        },
        res matches Some(RecvHandshake::Rendezvous(id, rest)) ==> {
            &&& stream@.len() >= 17
            &&& forall|i: int| 0 <= i < 8 ==> #[trigger] stream@[i] == PROTOCOL_MAGIC@[i]
            &&& stream@[8] == 1
            &&& forall|j: int|
            9 <= j < 17 ==> (#[trigger] stream@[j]) as int == (id as int
                / vstd::arithmetic::power::pow(256, (16 - j) as nat)) % 256
            &&& rest@ == stream@.subrange(17, stream@.len() as int)
        },
        res is None ==> {
            ||| stream@.len() < 17
            ||| exists|i: int| 0 <= i < 8 && #[trigger] stream@[i] != PROTOCOL_MAGIC@[i]
            ||| stream@[8] > 1
            ||| stream@[8] == 0 && (stream@.len() < 29 || stream@[9] != 0 || stream@[10] != 0
                || stream@[11] != 0 || stream@[12] != 16)
        },
{
    proof {
        law_what_is_received(stream@);
    }
    if stream.len() < 9 || !match_handshake(stream) || stream[8] > 1 {
        return None;
    }
    let buf: [u8; 9] = [
        stream[0],
        stream[1],
        stream[2],
        stream[3],
        stream[4],
        stream[5],
        stream[6],
        stream[7],
        stream[8],
    ];
    assert(buf@.take(8) =~= stream@.take(8));
    let rest: &[u8] = slice_subrange(stream, 9, stream.len());
    assert(rest@ =~= stream@.skip(9));
    match recv_handshake(&buf) {
        TrafficType::Channel => match decode_frame(rest) {
            Ok(Some(frame)) => if frame.payload.len() == 16 {
                Some(recv_channel_handshake(&frame.payload, frame.rest))
            } else {
                None
            },
            _ => None,
        },
        TrafficType::Rendezvous => {
            if rest.len() < 8 {
                return None;
            }
            let number: [u8; 8] = [
                rest[0],
                rest[1],
                rest[2],
                rest[3],
                rest[4],
                rest[5],
                rest[6],
                rest[7],
            ];
            assert(number@ =~= rest@.take(8));
            let after: Vec<u8> = slice_to_vec(slice_subrange(rest, 8, rest.len()));
            assert(after@ =~= rest@.skip(8));
            Some(recv_rendezvous_handshake(number, after))
        },
    }
}

/// Every handshake is recognised as `comm` traffic, whatever comes after it.
pub proof fn law_handshakes_are_recognised(uuid: u128, id: u64, rest: Seq<u8>)
    ensures
        begins_with_magic(channel_handshake(uuid) + rest),
        begins_with_magic(rendezvous_handshake(id) + rest),
{
    assert((channel_handshake(uuid) + rest).take(8) =~= PROTOCOL_MAGIC@);
    assert((rendezvous_handshake(id) + rest).take(8) =~= PROTOCOL_MAGIC@);
}

/// Each traffic type has a byte of its own.
pub proof fn law_traffic_types_are_told_apart(one: TrafficType, other: TrafficType)
    ensures
        one.number() == other.number() <==> one == other,
        one.number() <= 1,
{
}

/// The frame that asks for a channel is as long as a UUID, and the channel is
/// read back from it.
pub proof fn law_channel_request_is_read_back(uuid: u128)
    ensures
        channel_request(uuid).len() == 16,
        crate::big_endian::be_value(channel_request(uuid)) == uuid as nat,
{
    crate::big_endian::lemma_limits();
    crate::big_endian::law_value_of_bytes(16, uuid as nat);
}

/// The receiver of a channel handshake learns which channel was asked for, and
/// is left with a connection from which exactly the handshake has been read.
pub proof fn law_channel_handshake_is_received(uuid: u128, rest: Seq<u8>)
    ensures
        received(channel_handshake(uuid) + rest) == Some(
            RecvHandshake::<Seq<u8>, Seq<u8>>::Channel(uuid, rest),
        ),
{
    let stream = channel_handshake(uuid) + rest;
    law_channel_request_is_read_back(uuid);
    law_handshakes_are_recognised(uuid, 0, rest);
    crate::frame::law_frame_is_read_back(channel_request(uuid), rest);
    assert(stream.skip(9) =~= crate::frame::framed(channel_request(uuid)) + rest);
}

/// The receiver of a rendezvous handshake learns which node sent it, and is left
/// with a connection from which exactly the handshake has been read.
pub proof fn law_rendezvous_handshake_is_received(id: u64, rest: Seq<u8>)
    ensures
        received(rendezvous_handshake(id) + rest) == Some(
            RecvHandshake::<Seq<u8>, Seq<u8>>::Rendezvous(id, rest),
        ),
{
    let stream = rendezvous_handshake(id) + rest;
    let number = crate::big_endian::be_bytes(8, id as nat);
    crate::big_endian::lemma_limits();
    crate::big_endian::law_value_of_bytes(8, id as nat);
    law_handshakes_are_recognised(0, id, rest);
    assert(stream.skip(9) =~= number + rest);
    assert((number + rest).take(8) =~= number);
    assert((number + rest).skip(8) =~= rest);
}

/// A receiver completes a handshake on nothing but a handshake.
pub proof fn law_only_handshakes_are_received(stream: Seq<u8>)
    ensures
        received(stream) matches Some(RecvHandshake::Channel(uuid, rest)) ==> stream
            == channel_handshake(uuid) + rest,
        received(stream) matches Some(RecvHandshake::Rendezvous(id, rest)) ==> stream
            == rendezvous_handshake(id) + rest,
{
    let after = stream.skip(9);
    crate::big_endian::lemma_limits();
    if let Some(handshake) = received(stream) {
        assert(stream =~= stream.take(8).push(stream[8]) + after);
        match handshake {
            RecvHandshake::Channel(uuid, rest) => {
                crate::frame::law_frame_is_determined(after);
                crate::big_endian::law_bytes_of_value(crate::frame::frame_payload(after));
                assert(stream =~= channel_handshake(uuid) + rest);
            },
            RecvHandshake::Rendezvous(id, rest) => {
                crate::big_endian::law_bytes_of_value(after.take(8));
                assert(after =~= after.take(8) + rest);
                assert(stream =~= rendezvous_handshake(id) + rest);
            },
        }
    }
}

/// Bytes begin with the magic number exactly if they are that number and
/// something after it, byte by byte.
pub proof fn law_magic_is_the_prefix(bytes: Seq<u8>, rest: Seq<u8>)
    ensures
        PROTOCOL_MAGIC@ == seq![0x5fu8, 0x65, 0x44, 0x90, 0xaf, 0x4b, 0x3c, 0xfc],
        begins_with_magic(PROTOCOL_MAGIC@ + rest),
        begins_with_magic(bytes) ==> bytes == PROTOCOL_MAGIC@ + bytes.skip(8),
        begins_with_magic(bytes) <==> bytes.len() >= 8 && (forall|i: int|
            0 <= i < 8 ==> #[trigger] bytes[i] == PROTOCOL_MAGIC@[i]),
{
    assert(PROTOCOL_MAGIC@ =~= seq![0x5fu8, 0x65, 0x44, 0x90, 0xaf, 0x4b, 0x3c, 0xfc]);
    assert((PROTOCOL_MAGIC@ + rest).take(8) =~= PROTOCOL_MAGIC@);
    if bytes.len() >= 8 {
        assert(bytes =~= bytes.take(8) + bytes.skip(8));
        if begins_with_magic(bytes) {
            assert forall|i: int| 0 <= i < 8 implies #[trigger] bytes[i] == PROTOCOL_MAGIC@[i] by {
                assert(bytes.take(8)[i] == bytes[i]);
            }
        } else if forall|i: int| 0 <= i < 8 ==> #[trigger] bytes[i] == PROTOCOL_MAGIC@[i] {
            assert(bytes.take(8) =~= PROTOCOL_MAGIC@);
        }
    }
}

/// What a connection begins with is the magic number and the byte of its traffic
/// type: nought for a channel, one for a rendezvous.
pub proof fn law_preamble_layout(traffic: TrafficType)
    ensures
        preamble(traffic).len() == 9,
        preamble(traffic).take(8) == PROTOCOL_MAGIC@,
        preamble(traffic)[8] == traffic.number(),
        traffic is Channel ==> traffic.number() == 0,
        traffic is Rendezvous ==> traffic.number() == 1,
{
    assert(preamble(traffic).take(8) =~= PROTOCOL_MAGIC@);
}

/// The request for a channel is the digits of its UUID, the last byte counting
/// ones.
pub proof fn law_channel_request_layout(uuid: u128)
    ensures
        channel_request(uuid).len() == 16,
        forall|j: int|
            0 <= j < 16 ==> (#[trigger] channel_request(uuid)[j]) as int == (uuid as int
                / vstd::arithmetic::power::pow(256, (15 - j) as nat)) % 256,
{
    crate::big_endian::law_bytes_are_digits(16, uuid as nat);
}

/// The handshake of a channel connection, byte by byte: the magic number, the
/// traffic type, the length of a UUID in four bytes, and the digits of the UUID.
pub proof fn law_channel_handshake_layout(uuid: u128)
    ensures
        channel_handshake(uuid).len() == 29,
        forall|i: int| 0 <= i < 8 ==> #[trigger] channel_handshake(uuid)[i] == PROTOCOL_MAGIC@[i],
        channel_handshake(uuid)[8] == 0,
        channel_handshake(uuid)[9] == 0 && channel_handshake(uuid)[10] == 0 && channel_handshake(
            uuid,
        )[11] == 0 && channel_handshake(uuid)[12] == 16,
        forall|j: int|
            13 <= j < 29 ==> (#[trigger] channel_handshake(uuid)[j]) as int == (uuid as int
                / vstd::arithmetic::power::pow(256, (28 - j) as nat)) % 256,
{
    let request = channel_request(uuid);
    let frame = crate::frame::framed(request);
    law_channel_request_layout(uuid);
    crate::frame::law_frame_layout(request);
    assert forall|j: int| 13 <= j < 29 implies (#[trigger] channel_handshake(uuid)[j]) as int == (
    uuid as int / vstd::arithmetic::power::pow(256, (28 - j) as nat)) % 256 by {
        assert(channel_handshake(uuid)[j] == frame[j - 9]);
        assert(frame.skip(4)[j - 13] == frame[j - 9]);
        assert(request[j - 13] == channel_handshake(uuid)[j]);
    }
}

/// The handshake of a rendezvous connection, byte by byte: the magic number, the
/// traffic type, and the digits of the node's identifier, the last byte counting
/// ones.
pub proof fn law_rendezvous_handshake_layout(id: u64)
    ensures
        rendezvous_handshake(id).len() == 17,
        forall|i: int|
            0 <= i < 8 ==> #[trigger] rendezvous_handshake(id)[i] == PROTOCOL_MAGIC@[i],
        rendezvous_handshake(id)[8] == 1,
        forall|j: int|
            9 <= j < 17 ==> (#[trigger] rendezvous_handshake(id)[j]) as int == (id as int
                / vstd::arithmetic::power::pow(256, (16 - j) as nat)) % 256,
{
    let number = crate::big_endian::be_bytes(8, id as nat);
    crate::big_endian::law_bytes_are_digits(8, id as nat);
    assert forall|j: int| 9 <= j < 17 implies (#[trigger] rendezvous_handshake(id)[j]) as int == (
    id as int / vstd::arithmetic::power::pow(256, (16 - j) as nat)) % 256 by {
        assert(number[j - 9] == rendezvous_handshake(id)[j]);
    }
}

/// The identifier that stands behind the preamble of a rendezvous handshake is
/// the sender's, and so is the UUID behind the preamble and the length in a
/// channel handshake.
pub proof fn law_identifiers_are_read_back(id: u64, uuid: u128)
    ensures
        rendezvous_handshake(id).take(9) == preamble(TrafficType::Rendezvous),
        crate::big_endian::be_value(rendezvous_handshake(id).skip(9)) == id as nat,
        channel_handshake(uuid).take(9) == preamble(TrafficType::Channel),
        crate::big_endian::be_value(channel_handshake(uuid).skip(13)) == uuid as nat,
{
    law_rendezvous_handshake_layout(id);
    law_channel_handshake_layout(uuid);
    law_channel_request_is_read_back(uuid);
    crate::frame::law_frame_layout(channel_request(uuid));
    crate::big_endian::lemma_limits();
    crate::big_endian::law_value_of_bytes(8, id as nat);
    assert(rendezvous_handshake(id).take(9) =~= preamble(TrafficType::Rendezvous));
    assert(rendezvous_handshake(id).skip(9) =~= crate::big_endian::be_bytes(8, id as nat));
    assert(channel_handshake(uuid).take(9) =~= preamble(TrafficType::Channel));
    assert(channel_handshake(uuid).skip(13) =~= crate::frame::framed(channel_request(uuid)).skip(4));
}

/// What is received of a stream, byte by byte: a channel's UUID behind the magic
/// number, nought, and the length of a UUID in four bytes; a node's identifier
/// behind the magic number and one; and nothing of any other stream. All that
/// stands behind these is left to be read.
pub proof fn law_what_is_received(stream: Seq<u8>)
    ensures
        received(stream) matches Some(RecvHandshake::Channel(uuid, rest)) ==> {
            &&& stream.len() >= 29
            &&& forall|i: int| 0 <= i < 8 ==> #[trigger] stream[i] == PROTOCOL_MAGIC@[i]
            &&& stream[8] == 0
            &&& stream[9] == 0 && stream[10] == 0 && stream[11] == 0 && stream[12] == 16
            &&& forall|j: int|
            13 <= j < 29 ==> (#[trigger] stream[j]) as int == (uuid as int
                / vstd::arithmetic::power::pow(256, (28 - j) as nat)) % 256
            &&& rest == stream.subrange(29, stream.len() as int)
        },
        received(stream) matches Some(RecvHandshake::Rendezvous(id, rest)) ==> {
            &&& stream.len() >= 17
            &&& forall|i: int| 0 <= i < 8 ==> #[trigger] stream[i] == PROTOCOL_MAGIC@[i]
            &&& stream[8] == 1
            &&& forall|j: int|
            9 <= j < 17 ==> (#[trigger] stream[j]) as int == (id as int
                / vstd::arithmetic::power::pow(256, (16 - j) as nat)) % 256
            &&& rest == stream.subrange(17, stream.len() as int)
        },
        received(stream) is None ==> {
            ||| stream.len() < 17
            ||| exists|i: int| 0 <= i < 8 && #[trigger] stream[i] != PROTOCOL_MAGIC@[i]
            ||| stream[8] > 1
            ||| stream[8] == 0 && (stream.len() < 29 || stream[9] != 0 || stream[10] != 0
                || stream[11] != 0 || stream[12] != 16)
        },
{
    law_only_handshakes_are_received(stream);
    law_magic_is_the_prefix(stream, Seq::empty());
    match received(stream) {
        Some(RecvHandshake::Channel(uuid, rest)) => {
            let sent = channel_handshake(uuid);
            law_channel_handshake_layout(uuid);
            assert(stream == sent + rest);
            assert forall|j: int| 13 <= j < 29 implies (#[trigger] stream[j]) as int == (
            uuid as int / vstd::arithmetic::power::pow(256, (28 - j) as nat)) % 256 by {
                assert(stream[j] == sent[j]);
            }
            assert(rest =~= stream.subrange(29, stream.len() as int));
        },
        Some(RecvHandshake::Rendezvous(id, rest)) => {
            let sent = rendezvous_handshake(id);
            law_rendezvous_handshake_layout(id);
            assert(stream == sent + rest);
            assert forall|j: int| 9 <= j < 17 implies (#[trigger] stream[j]) as int == (
            id as int / vstd::arithmetic::power::pow(256, (16 - j) as nat)) % 256 by {
                assert(stream[j] == sent[j]);
            }
            assert(rest =~= stream.subrange(17, stream.len() as int));
        },
        None => {
            if stream.len() >= 13 {
                let rest = stream.skip(9);
                crate::frame::law_frame_reading(rest, crate::frame::MAX_FRAME_LENGTH as nat);
                assert(rest[0] == stream[9] && rest[1] == stream[10] && rest[2] == stream[11]
                    && rest[3] == stream[12]);
            }
        },
    }
}

/// Why a receiver waits or gives up, byte by byte, with the length that the four
/// bytes behind the preamble of a channel connection add up to.
pub proof fn law_what_is_awaited_or_refused(stream: Seq<u8>)
    ensures
        ({
            let n = 0x100_0000 * stream[9] + 0x1_0000 * stream[10] + 0x100 * stream[11]
                + stream[12];
            let magic = forall|i: int| 0 <= i < 8 ==> #[trigger] stream[i] == PROTOCOL_MAGIC@[i];
            &&& awaited(stream) <==> {
                ||| stream.len() < 8
                ||| stream.len() == 8 && magic
                ||| stream.len() >= 9 && magic && stream[8] == 0 && (stream.len() < 13 || (n
                    <= 0x4000_0000 && stream.len() < 13 + n))
                ||| stream.len() >= 9 && magic && stream[8] == 1 && stream.len() < 17
            }
            &&& refused(stream) <==> {
                ||| stream.len() >= 8 && !magic
                ||| stream.len() >= 9 && stream[8] > 1
                ||| stream.len() >= 13 && stream[8] == 0 && (n > 0x4000_0000 || (n != 16
                    && stream.len() >= 13 + n))
            }
        }),
{
    law_magic_is_the_prefix(stream, Seq::empty());
    if stream.len() >= 9 {
        let rest = stream.skip(9);
        crate::frame::law_frame_reading(rest, crate::frame::MAX_FRAME_LENGTH as nat);
        if stream.len() >= 13 {
            assert(rest[0] == stream[9] && rest[1] == stream[10] && rest[2] == stream[11]
                && rest[3] == stream[12]);
        }
    }
}

/// A receiver has a handshake, or waits for more, or gives up, and never two of
/// these.
pub proof fn law_handshake_is_received_awaited_or_refused(stream: Seq<u8>)
    ensures
        received(stream) is Some <==> !awaited(stream) && !refused(stream),
        !(awaited(stream) && refused(stream)),
{
}

/// A receiver that gives up has reason to: no bytes that may yet arrive make a
/// handshake of what has arrived.
pub proof fn law_refusal_is_final(stream: Seq<u8>, more: Seq<u8>)
    requires
        refused(stream),
    ensures
        refused(stream + more),
        received(stream + more) is None,
{
    let all = stream + more;
    assert(all.take(8) =~= stream.take(8));
    if stream.len() >= 9 {
        let rest = stream.skip(9);
        assert(all.skip(9) =~= rest + more);
        if rest.len() >= 4 {
            assert((rest + more).take(4) =~= rest.take(4));
        }
    }
}

/// What has been received of a connection is not changed by what arrives later:
/// it only adds to what is still to be read.
pub proof fn law_received_handshake_is_final(stream: Seq<u8>, more: Seq<u8>)
    ensures
        received(stream) matches Some(RecvHandshake::Channel(uuid, rest)) ==> received(
            stream + more,
        ) == Some(RecvHandshake::<Seq<u8>, Seq<u8>>::Channel(uuid, rest + more)),
        received(stream) matches Some(RecvHandshake::Rendezvous(id, rest)) ==> received(
            stream + more,
        ) == Some(RecvHandshake::<Seq<u8>, Seq<u8>>::Rendezvous(id, rest + more)),
{
    law_only_handshakes_are_received(stream);
    match received(stream) {
        Some(RecvHandshake::Channel(uuid, rest)) => {
            assert(stream + more =~= channel_handshake(uuid) + (rest + more));
            law_channel_handshake_is_received(uuid, rest + more);
        },
        Some(RecvHandshake::Rendezvous(id, rest)) => {
            assert(stream + more =~= rendezvous_handshake(id) + (rest + more));
            law_rendezvous_handshake_is_received(id, rest + more);
        },
        None => {},
    }
}

} // verus!
