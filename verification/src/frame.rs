//! Length-prefixed frames: the chunks of bytes that a channel connection
//! carries once its traffic type is known.
use vstd::prelude::*;


verus! {

/// The largest payload that a frame may carry: 1 GiB.
pub const MAX_FRAME_LENGTH: usize = 0x4000_0000;

/// Why bytes cannot be framed, or cannot be a frame.
#[derive(Clone, Copy, Debug, PartialEq, Eq, Structural)]
pub enum FrameError {
    /// The payload is longer than [`MAX_FRAME_LENGTH`].
    TooBig,
}

/// A frame that was cut off the front of the bytes received so far.
#[derive(Clone, Debug, PartialEq, Eq)]
pub struct Frame {
    /// What the frame carries.
    pub payload: Vec<u8>,
    /// What follows the frame.
    pub rest: Vec<u8>,
}

/// The bytes that carry `payload`: its length in four bytes, most significant
/// byte first, then the payload itself.
pub open spec fn framed(payload: Seq<u8>) -> Seq<u8> {
    crate::big_endian::be_bytes(4, payload.len()) + payload
}

/// The payload length that the first four bytes of `bytes` announce.
pub open spec fn announced_length(bytes: Seq<u8>) -> nat {
    crate::big_endian::be_value(bytes.take(4))
}

/// Whether `bytes` announces a payload of more than `max` bytes.
pub open spec fn announces_more_than(bytes: Seq<u8>, max: nat) -> bool {
    bytes.len() >= 4 && announced_length(bytes) > max
}

/// Whether `bytes` begins with a frame that has arrived whole.
pub open spec fn holds_frame(bytes: Seq<u8>) -> bool {
    bytes.len() >= 4 && bytes.len() >= 4 + announced_length(bytes)
}

/// The payload of the frame that `bytes` begins with.
pub open spec fn frame_payload(bytes: Seq<u8>) -> Seq<u8> {
    bytes.subrange(4, 4 + announced_length(bytes) as int)
}

/// What follows the frame that `bytes` begins with.
pub open spec fn after_frame(bytes: Seq<u8>) -> Seq<u8> {
    bytes.skip(4 + announced_length(bytes) as int)
}

/// Declares `std::io::Error`, the error of `tokio`'s codecs. Nothing is claimed
/// of it.
#[verifier::external_type_specification]
#[verifier::external_body]
pub struct ExIoError(std::io::Error);

/// `LengthDelimitedCodec::encode` of `tokio`, on a codec with that crate's
/// defaults but for the maximum frame length: it refuses a payload that is
/// longer than the maximum, and otherwise writes the payload behind its length
/// in four big-endian bytes. The maximum has to fit into those four bytes.
#[verifier::external_body]
fn length_delimited_encode(max_frame_length: usize, payload: &[u8]) -> (res: Result<
    Vec<u8>,
    std::io::Error,
>)
    requires
        max_frame_length <= 0xffff_ffff,
    ensures
        res is Ok <==> payload@.len() <= max_frame_length,
        res matches Ok(bytes) ==> bytes@ == framed(payload@),
{
    let mut codec = tokio::codec::LengthDelimitedCodec::new();
    codec.set_max_frame_length(max_frame_length);
    let mut bytes = Default::default();
    tokio::codec::Encoder::encode(&mut codec, payload.into(), &mut bytes)?;
    Ok(bytes.to_vec())
}

/// `LengthDelimitedCodec::decode` of `tokio`, on a fresh codec with that crate's
/// defaults but for the maximum frame length: it refuses bytes that announce a
/// payload longer than the maximum, finds no frame where one has not arrived
/// whole, and otherwise cuts the frame off the front of the bytes.
#[verifier::external_body]
fn length_delimited_decode(max_frame_length: usize, bytes: &[u8]) -> (res: Result<
    Option<Frame>,
    std::io::Error,
>)
    ensures
        res is Err <==> announces_more_than(bytes@, max_frame_length as nat),
        res matches Ok(frame) ==> (frame is Some <==> holds_frame(bytes@)),
        res matches Ok(Some(frame)) ==> frame.payload@ == frame_payload(bytes@) && frame.rest@
            == after_frame(bytes@),
{
    let mut codec = tokio::codec::LengthDelimitedCodec::new();
    codec.set_max_frame_length(max_frame_length);
    let mut rest = bytes.into();
    let payload = tokio::codec::Decoder::decode(&mut codec, &mut rest)?;
    Ok(payload.map(|payload| Frame { payload: payload.to_vec(), rest: rest.to_vec() }))
}

/// Frames `payload`. A payload of more than [`MAX_FRAME_LENGTH`] bytes is
/// refused.
pub fn encode_frame(payload: &[u8]) -> (res: Result<Vec<u8>, FrameError>)
    ensures
        res == Err::<Vec<u8>, FrameError>(FrameError::TooBig) <==> payload@.len()
            > MAX_FRAME_LENGTH,
        res is Ok <==> payload@.len() <= MAX_FRAME_LENGTH,
        res matches Ok(bytes) ==> bytes@ == framed(payload@),
        res is Ok <==> payload@.len() <= 0x4000_0000,
        res matches Ok(bytes) ==> bytes@.len() == payload@.len() + 4 && bytes@.skip(4) == payload@
            && 0x100_0000 * bytes@[0] + 0x1_0000 * bytes@[1] + 0x100 * bytes@[2] + bytes@[3]
            == payload@.len(),
{
    proof {
        if payload@.len() <= MAX_FRAME_LENGTH {
            law_frame_layout(payload@);
        }
    }
    match length_delimited_encode(MAX_FRAME_LENGTH, payload) {
        Ok(bytes) => Ok(bytes),
        Err(_) => Err(FrameError::TooBig),
    }
}

/// Looks for a frame at the front of `bytes`, the bytes received so far. There
/// is none as long as the frame has not arrived whole; bytes that announce a
/// payload of more than [`MAX_FRAME_LENGTH`] bytes are refused.
pub fn decode_frame(bytes: &[u8]) -> (res: Result<Option<Frame>, FrameError>)
    ensures
        res == Err::<Option<Frame>, FrameError>(FrameError::TooBig) <==> announces_more_than(
            bytes@,
            MAX_FRAME_LENGTH as nat,
        ),
        res is Ok <==> !announces_more_than(bytes@, MAX_FRAME_LENGTH as nat),
        res matches Ok(frame) ==> (frame is Some <==> holds_frame(bytes@)),
        res matches Ok(Some(frame)) ==> frame.payload@ == frame_payload(bytes@) && frame.rest@
            == after_frame(bytes@),
        bytes@.len() < 4 ==> res matches Ok(None),
        bytes@.len() >= 4 ==> {
            let n = 0x100_0000 * bytes@[0] + 0x1_0000 * bytes@[1] + 0x100 * bytes@[2] + bytes@[3];
            match res {
                Err(FrameError::TooBig) => n > 0x4000_0000,
                Ok(None) => n <= 0x4000_0000 && bytes@.len() < 4 + n,
                Ok(Some(frame)) => n <= 0x4000_0000 && bytes@.len() >= 4 + n && frame.payload@
                    == bytes@.subrange(4, 4 + n) && frame.rest@ == bytes@.subrange(
                    4 + n,
                    bytes@.len() as int,
                ),
            }
        },
{
    proof {
        law_frame_reading(bytes@, MAX_FRAME_LENGTH as nat);
    }
    match length_delimited_decode(MAX_FRAME_LENGTH, bytes) {
        Ok(frame) => Ok(frame),
        Err(_) => Err(FrameError::TooBig),
    }
}

/// A frame is four bytes, which add up to the length of the payload with the
/// first of them counting most, and then the payload.
pub proof fn law_frame_layout(payload: Seq<u8>)
    requires
        payload.len() < 0x1_0000_0000,
    ensures
        framed(payload).len() == payload.len() + 4,
        framed(payload).skip(4) == payload,
        0x100_0000 * framed(payload)[0] + 0x1_0000 * framed(payload)[1] + 0x100 * framed(payload)[2]
            + framed(payload)[3] == payload.len(),
{
    let head = crate::big_endian::be_bytes(4, payload.len());
    reveal_with_fuel(crate::big_endian::be_bytes, 5);
    assert(head.len() == 4);
    assert(framed(payload).skip(4) =~= payload);
    assert(framed(payload).take(4) =~= head);
    assert(framed(payload)[0] == head[0] && framed(payload)[1] == head[1] && framed(payload)[2]
        == head[2] && framed(payload)[3] == head[3]);
}

/// What is read of bytes goes by the length that the first four of them add up
/// to: more than the maximum is refused, a frame is there once that many bytes
/// follow, and these are its payload.
pub proof fn law_frame_reading(bytes: Seq<u8>, max: nat)
    ensures
        bytes.len() < 4 ==> !announces_more_than(bytes, max) && !holds_frame(bytes),
        bytes.len() >= 4 ==> {
            let n = 0x100_0000 * bytes[0] + 0x1_0000 * bytes[1] + 0x100 * bytes[2] + bytes[3];
            &&& announced_length(bytes) == n
            &&& announces_more_than(bytes, max) <==> n > max
            &&& holds_frame(bytes) <==> bytes.len() >= 4 + n
            &&& holds_frame(bytes) ==> frame_payload(bytes) == bytes.subrange(4, 4 + n)
                && after_frame(bytes) == bytes.subrange(4 + n, bytes.len() as int)
        },
        MAX_FRAME_LENGTH == 0x4000_0000,
{
    if bytes.len() >= 4 {
        let head = bytes.take(4);
        reveal_with_fuel(crate::big_endian::be_value, 5);
        assert(head.drop_last() =~= bytes.take(3));
        assert(bytes.take(3).drop_last() =~= bytes.take(2));
        assert(bytes.take(2).drop_last() =~= bytes.take(1));
        assert(bytes.take(1).drop_last() =~= bytes.take(0));
        assert(head.last() == bytes[3] && bytes.take(3).last() == bytes[2] && bytes.take(2).last()
            == bytes[1] && bytes.take(1).last() == bytes[0]);
    }
}

proof fn lemma_announced(payload: Seq<u8>, tail: Seq<u8>)
    requires
        payload.len() <= MAX_FRAME_LENGTH,
    ensures
        framed(payload).len() == 4 + payload.len(),
        announced_length(framed(payload) + tail) == payload.len(),
{
    crate::big_endian::lemma_limits();
    crate::big_endian::law_value_of_bytes(4, payload.len());
    assert((framed(payload) + tail).take(4) =~= crate::big_endian::be_bytes(4, payload.len()));
}

/// A payload that may be framed is read back from its frame, together with
/// whatever follows the frame.
pub proof fn law_frame_is_read_back(payload: Seq<u8>, rest: Seq<u8>)
    requires
        payload.len() <= MAX_FRAME_LENGTH,
    ensures
        !announces_more_than(framed(payload) + rest, MAX_FRAME_LENGTH as nat),
        holds_frame(framed(payload) + rest),
        frame_payload(framed(payload) + rest) == payload,
        after_frame(framed(payload) + rest) == rest,
{
    lemma_announced(payload, rest);
    assert(frame_payload(framed(payload) + rest) =~= payload);
    assert(after_frame(framed(payload) + rest) =~= rest);
}

/// Nothing is read from a frame of which the end has yet to arrive, and it is
/// not refused.
pub proof fn law_partial_frame_is_awaited(payload: Seq<u8>, arrived: int)
    requires
        payload.len() <= MAX_FRAME_LENGTH,
        0 <= arrived < framed(payload).len(),
    ensures
        !announces_more_than(framed(payload).take(arrived), MAX_FRAME_LENGTH as nat),
        !holds_frame(framed(payload).take(arrived)),
{
    let whole = framed(payload);
    lemma_announced(payload, Seq::empty());
    assert(whole + Seq::<u8>::empty() =~= whole);
    if arrived >= 4 {
        assert(whole.take(arrived).take(4) =~= whole.take(4));
    }
}

/// Bytes in which a frame has arrived whole are the frame of the payload that
/// is read from them, and what is left over.
pub proof fn law_frame_is_determined(bytes: Seq<u8>)
    requires
        holds_frame(bytes),
    ensures
        bytes == framed(frame_payload(bytes)) + after_frame(bytes),
{
    crate::big_endian::law_bytes_of_value(bytes.take(4));
    assert(bytes =~= framed(frame_payload(bytes)) + after_frame(bytes));
}

} // verus!
