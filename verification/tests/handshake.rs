use comm::big_endian::{u64_from_be_bytes, u64_to_be_bytes};
use comm::frame::{decode_frame, encode_frame, Frame, FrameError, MAX_FRAME_LENGTH};
use comm::handshake::{
    match_handshake, receive_handshake, recv_channel_handshake, recv_handshake, recv_rendezvous_handshake,
    send_channel_handshake, send_channel_request, send_rendezvous_handshake, RecvHandshake,
    TrafficType, UnknownTrafficType, PROTOCOL_MAGIC,
};
use uuid::Uuid;

const ID: u64 = 0x0102_0304_0506_0708;
const UUID: u128 = 0x0011_2233_4455_6677_8899_aabb_ccdd_eeff;

fn preamble(bytes: &[u8]) -> [u8; 9] {
    let mut buf = [0; 9];
    buf.copy_from_slice(&bytes[..9]);
    buf
}

#[test]
fn magic_is_matched_at_the_front() {
    assert_eq!(PROTOCOL_MAGIC, [0x5f, 0x65, 0x44, 0x90, 0xaf, 0x4b, 0x3c, 0xfc]);
    assert!(match_handshake(&PROTOCOL_MAGIC));
    let mut longer = PROTOCOL_MAGIC.to_vec();
    longer.extend_from_slice(b"anything");
    assert!(match_handshake(&longer));
}

#[test]
fn other_traffic_is_not_matched() {
    assert!(!match_handshake(&[]));
    assert!(!match_handshake(&PROTOCOL_MAGIC[..7]));
    assert!(!match_handshake(b"GET / HTTP/1.1"));
    for i in 0..8 {
        let mut buf = PROTOCOL_MAGIC;
        buf[i] ^= 1;
        assert!(!match_handshake(&buf));
    }
}

#[test]
fn traffic_types_are_numbered() {
    assert_eq!(TrafficType::Channel.into_u8(), 0);
    assert_eq!(TrafficType::Rendezvous.into_u8(), 1);
    assert_eq!(TrafficType::try_from_u8(0), Ok(TrafficType::Channel));
    assert_eq!(TrafficType::try_from_u8(1), Ok(TrafficType::Rendezvous));
    for number in 2..=255 {
        assert_eq!(TrafficType::try_from_u8(number), Err(UnknownTrafficType { number }));
    }
}

#[test]
fn numbers_are_big_endian() {
    assert_eq!(u64_to_be_bytes(ID), [1, 2, 3, 4, 5, 6, 7, 8]);
    assert_eq!(u64_from_be_bytes([1, 2, 3, 4, 5, 6, 7, 8]), ID);
    for value in [0, 1, 255, 256, 1 << 63, u64::MAX] {
        assert_eq!(u64_to_be_bytes(value), value.to_be_bytes());
        assert_eq!(u64_from_be_bytes(value.to_be_bytes()), value);
    }
}

#[test]
fn frame_has_a_length_prefix() {
    assert_eq!(encode_frame(b"abc"), Ok(vec![0, 0, 0, 3, b'a', b'b', b'c']));
    assert_eq!(encode_frame(b""), Ok(vec![0, 0, 0, 0]));
    let long = vec![7; 0x1_0203];
    let frame = encode_frame(&long).unwrap();
    assert_eq!(&frame[..4], &[0, 1, 2, 3]);
    assert_eq!(&frame[4..], &long[..]);
}

#[test]
fn payload_above_the_limit_is_refused() {
    assert_eq!(MAX_FRAME_LENGTH, 1 << 30);
    let payload = vec![0; MAX_FRAME_LENGTH + 1];
    assert_eq!(encode_frame(&payload), Err(FrameError::TooBig));
}

#[test]
fn frame_is_read_back_with_what_follows() {
    let mut bytes = encode_frame(b"abc").unwrap();
    bytes.extend_from_slice(b"next");
    assert_eq!(
        decode_frame(&bytes),
        Ok(Some(Frame { payload: b"abc".to_vec(), rest: b"next".to_vec() }))
    );
    assert_eq!(decode_frame(&[0, 0, 0, 0]), Ok(Some(Frame { payload: vec![], rest: vec![] })));
}

#[test]
fn partial_frame_is_awaited() {
    let bytes = encode_frame(b"abc").unwrap();
    for arrived in 0..bytes.len() {
        assert_eq!(decode_frame(&bytes[..arrived]), Ok(None));
    }
}

#[test]
fn announced_length_above_the_limit_is_refused() {
    assert_eq!(decode_frame(&[0x40, 0, 0, 1]), Err(FrameError::TooBig));
    assert_eq!(decode_frame(&[0xff, 0xff, 0xff, 0xff, 1]), Err(FrameError::TooBig));
    assert_eq!(decode_frame(&[0xff, 0xff, 0xff]), Ok(None));
}

#[test]
fn channel_request_is_the_uuid() {
    let request = send_channel_request(UUID);
    assert_eq!(
        request,
        [
            0x00, 0x11, 0x22, 0x33, 0x44, 0x55, 0x66, 0x77, 0x88, 0x99, 0xaa, 0xbb, 0xcc, 0xdd,
            0xee, 0xff
        ]
    );
    let uuid = Uuid::from_bytes(request);
    assert_eq!(uuid.to_string(), "00112233-4455-6677-8899-aabbccddeeff");
    assert_eq!(uuid.as_u128(), UUID);
}

#[test]
fn channel_handshake_layout() {
    let bytes = send_channel_handshake(UUID);
    let mut expected = PROTOCOL_MAGIC.to_vec();
    expected.push(0);
    expected.extend_from_slice(&[0, 0, 0, 16]);
    expected.extend_from_slice(Uuid::from_u128(UUID).as_bytes());
    assert_eq!(bytes, expected);
    assert!(match_handshake(&bytes));
}

#[test]
fn rendezvous_handshake_layout() {
    let bytes = send_rendezvous_handshake(ID);
    let mut expected = PROTOCOL_MAGIC.to_vec();
    expected.extend_from_slice(&[1, 1, 2, 3, 4, 5, 6, 7, 8]);
    assert_eq!(bytes, expected);
    assert!(match_handshake(&bytes));
}

#[test]
fn channel_handshake_is_received() {
    for uuid in [0, 1, UUID, u128::MAX] {
        let mut stream = send_channel_handshake(uuid);
        stream.extend_from_slice(b"what follows");
        assert_eq!(recv_handshake(&preamble(&stream)), TrafficType::Channel);
        let frame = decode_frame(&stream[9..]).unwrap().unwrap();
        assert_eq!(frame.rest, b"what follows");
        match recv_channel_handshake::<(), &str>(&frame.payload, "conn") {
            RecvHandshake::Channel(received, conn) => {
                assert_eq!(received, uuid);
                assert_eq!(conn, "conn");
            }
            RecvHandshake::Rendezvous(..) => panic!("not a rendezvous"),
        }
    }
}

#[test]
fn rendezvous_handshake_is_received() {
    for id in [0, 1, ID, u64::MAX] {
        let stream = send_rendezvous_handshake(id);
        assert_eq!(stream.len(), 17);
        assert_eq!(recv_handshake(&preamble(&stream)), TrafficType::Rendezvous);
        let mut buf = [0; 8];
        buf.copy_from_slice(&stream[9..]);
        match recv_rendezvous_handshake::<&str, ()>(buf, "conn") {
            RecvHandshake::Rendezvous(received, conn) => {
                assert_eq!(received, id);
                assert_eq!(conn, "conn");
            }
            RecvHandshake::Channel(..) => panic!("not a channel"),
        }
    }
}

#[test]
fn whole_handshake_is_read_off_the_bytes() {
    let mut stream = send_channel_handshake(UUID);
    stream.extend_from_slice(b"rest");
    match receive_handshake(&stream) {
        Some(RecvHandshake::Channel(uuid, rest)) => {
            assert_eq!(uuid, UUID);
            assert_eq!(rest, b"rest");
        }
        _ => panic!("a channel was asked for"),
    }
    let mut stream = send_rendezvous_handshake(ID);
    stream.extend_from_slice(b"rest");
    match receive_handshake(&stream) {
        Some(RecvHandshake::Rendezvous(id, rest)) => {
            assert_eq!(id, ID);
            assert_eq!(rest, b"rest");
        }
        _ => panic!("a rendezvous was asked for"),
    }
}

#[test]
fn nothing_but_a_whole_handshake_is_received() {
    for whole in [send_channel_handshake(UUID), send_rendezvous_handshake(ID)] {
        assert!(receive_handshake(&whole).is_some());
        for arrived in 0..whole.len() {
            assert!(receive_handshake(&whole[..arrived]).is_none());
        }
        for i in 0..9 {
            let mut other = whole.clone();
            other[i] ^= 0x80;
            assert!(receive_handshake(&other).is_none());
        }
    }
    let mut short = PROTOCOL_MAGIC.to_vec();
    short.push(0);
    short.extend(encode_frame(b"not a uuid").unwrap());
    assert!(receive_handshake(&short).is_none());
    let mut refused = PROTOCOL_MAGIC.to_vec();
    refused.extend_from_slice(&[0, 0x40, 0, 0, 1]);
    assert!(receive_handshake(&refused).is_none());
}

#[test]
fn reused_connection_on_the_wire() {
    // One channel with two messages, the second of them its hangup, then the
    // request for another channel and what that one sends.
    let mut wire = send_channel_handshake(UUID);
    wire.extend(encode_frame(b"item").unwrap());
    wire.extend(encode_frame(b"hangup").unwrap());
    wire.extend(encode_frame(&send_channel_request(7)).unwrap());
    wire.extend_from_slice(b"rest");

    let after = match receive_handshake(&wire) {
        Some(RecvHandshake::Channel(UUID, after)) => after,
        _ => panic!("a channel was asked for"),
    };
    let item = decode_frame(&after).unwrap().unwrap();
    assert_eq!(item.payload, b"item");
    let hangup = decode_frame(&item.rest).unwrap().unwrap();
    assert_eq!(hangup.payload, b"hangup");
    let request = decode_frame(&hangup.rest).unwrap().unwrap();
    assert_eq!(request.rest, b"rest");
    match recv_channel_handshake::<(), ()>(&request.payload, ()) {
        RecvHandshake::Channel(uuid, ()) => assert_eq!(uuid, 7),
        RecvHandshake::Rendezvous(..) => panic!("not a rendezvous"),
    }
}

#[test]
fn refusal_is_final() {
    let mut no_magic = b"GET / HT".to_vec();
    let mut no_type = PROTOCOL_MAGIC.to_vec();
    no_type.push(2);
    let mut too_big = PROTOCOL_MAGIC.to_vec();
    too_big.extend_from_slice(&[0, 0x40, 0, 0, 1]);
    let mut no_uuid = PROTOCOL_MAGIC.to_vec();
    no_uuid.extend_from_slice(&[0, 0, 0, 0, 1, 7]);
    for stream in [&mut no_magic, &mut no_type, &mut too_big, &mut no_uuid] {
        for _ in 0..64 {
            assert!(receive_handshake(stream).is_none());
            stream.push(1);
        }
    }
}
