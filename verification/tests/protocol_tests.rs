use bytes::BytesMut;
use metalbond::codec::{FrameError, GeneratedMessage, MetalBondCodec, MAX_MESSAGE_LEN};
use metalbond::pb;
use metalbond::pb::Message;
use metalbond::types::{MessageType, Vni};

#[test]
fn test_hello_message_serialization() {
    let mut codec = MetalBondCodec {};
    let mut buffer = BytesMut::new();

    let hello = pb::Hello { keepalive_interval: 30, is_server: true };
    let msg = GeneratedMessage::Hello(hello);

    codec.encode(msg, &mut buffer).unwrap();

    // Should have header + encoded message
    assert!(buffer.len() > 4);

    assert_eq!(buffer[0], 1); // Version
    assert_eq!(buffer[3], MessageType::Hello.code());

    let decoded = codec.decode(&mut buffer).unwrap().unwrap();

    match decoded {
        GeneratedMessage::Hello(hello) => {
            assert_eq!(hello.keepalive_interval, 30);
            assert!(hello.is_server);
        }
        _ => panic!("Wrong message type decoded"),
    }

    // Buffer should be empty after decode
    assert_eq!(buffer.len(), 0);
}

#[test]
fn test_subscription_message_serialization() {
    let mut codec = MetalBondCodec {};
    let mut buffer = BytesMut::new();

    let vni: Vni = 100;
    let subscription = pb::Subscription { vni };
    let msg = GeneratedMessage::Subscribe(subscription);

    codec.encode(msg, &mut buffer).unwrap();

    assert_eq!(buffer[0], 1); // Version
    assert_eq!(buffer[3], MessageType::Subscribe.code());

    let decoded = codec.decode(&mut buffer).unwrap().unwrap();

    match decoded {
        GeneratedMessage::Subscribe(sub) => {
            assert_eq!(sub.vni, vni);
        }
        _ => panic!("Wrong message type decoded"),
    }
}

#[test]
fn test_update_message_serialization() {
    let mut codec = MetalBondCodec {};
    let mut buffer = BytesMut::new();

    let update = pb::Update {
        action: i32::from(pb::Action::Add),
        vni: 100,
        destination: Some(pb::Destination {
            ip_version: i32::from(pb::IpVersion::IPv4),
            prefix: vec![192, 168, 1, 0],
            prefix_length: 24,
        }),
        next_hop: Some(pb::NextHop {
            target_address: vec![10, 0, 0, 1],
            target_vni: 200,
            hop_type: i32::from(pb::NextHopType::Standard),
            nat_port_range_from: 0,
            nat_port_range_to: 0,
        }),
    };

    let msg = GeneratedMessage::Update(update);

    codec.encode(msg, &mut buffer).unwrap();

    assert_eq!(buffer[0], 1); // Version
    assert_eq!(buffer[3], MessageType::Update.code());

    let decoded = codec.decode(&mut buffer).unwrap().unwrap();

    match decoded {
        GeneratedMessage::Update(update) => {
            assert_eq!(update.action, i32::from(pb::Action::Add));
            assert_eq!(update.vni, 100);

            let dest = update.destination.unwrap();
            assert_eq!(dest.ip_version, i32::from(pb::IpVersion::IPv4));
            assert_eq!(dest.prefix, vec![192, 168, 1, 0]);
            assert_eq!(dest.prefix_length, 24);

            let nh = update.next_hop.unwrap();
            assert_eq!(nh.target_address, vec![10, 0, 0, 1]);
            assert_eq!(nh.target_vni, 200);
            assert_eq!(nh.hop_type, i32::from(pb::NextHopType::Standard));
        }
        _ => panic!("Wrong message type decoded"),
    }
}

#[test]
fn test_keepalive_message_serialization() {
    let mut codec = MetalBondCodec {};
    let mut buffer = BytesMut::new();

    let msg = GeneratedMessage::Keepalive;

    codec.encode(msg, &mut buffer).unwrap();

    assert_eq!(buffer[0], 1); // Version
    assert_eq!(buffer[1], 0); // Length (upper byte)
    assert_eq!(buffer[2], 0); // Length (lower byte)
    assert_eq!(buffer[3], MessageType::Keepalive.code());

    let decoded = codec.decode(&mut buffer).unwrap().unwrap();

    match decoded {
        GeneratedMessage::Keepalive => {}
        _ => panic!("Wrong message type decoded"),
    }
}

#[test]
fn test_malformed_message_handling() {
    let mut codec = MetalBondCodec {};

    // Invalid message type test
    let mut buffer = BytesMut::new();
    buffer.extend_from_slice(&[1, 0, 0, 99]); // Version 1, len 0, invalid type 99

    let result = codec.decode(&mut buffer);
    assert!(result.is_err());

    // Invalid protocol version test
    let mut buffer = BytesMut::new();
    buffer.extend_from_slice(&[99, 0, 0, 1]); // Version 99, len 0, type Hello

    let result = codec.decode(&mut buffer);
    assert!(result.is_err());
}

#[test]
fn test_incomplete_message_handling() {
    let mut codec = MetalBondCodec {};

    // Header only, no payload
    let mut buffer = BytesMut::new();
    buffer.extend_from_slice(&[1, 0, 4, 1]); // Version 1, len 4, type Hello

    let result = codec.decode(&mut buffer);
    assert!(result.unwrap().is_none());

    // Incomplete header
    let mut buffer = BytesMut::new();
    buffer.extend_from_slice(&[1, 0]); // Only 2 bytes

    let result = codec.decode(&mut buffer);
    assert!(result.unwrap().is_none());
}

fn decode_one(bytes: &[u8]) -> (Result<Option<GeneratedMessage>, FrameError>, usize) {
    let mut buffer = BytesMut::new();
    buffer.extend_from_slice(bytes);
    let result = MetalBondCodec {}.decode(&mut buffer);
    (result, buffer.len())
}

#[test]
fn frame_errors_and_what_they_leave() {
    let (result, left) = decode_one(&[1, 0, 0, 99, 7]);
    assert_eq!(result.unwrap_err(), FrameError::MessageType(99));
    assert_eq!(left, 1);
    let (result, left) = decode_one(&[2, 0, 0, 1, 7]);
    assert_eq!(result.unwrap_err(), FrameError::Version(2));
    assert_eq!(left, 5);
    // A field of a Hello that ends too early.
    let (result, left) = decode_one(&[1, 0, 1, 1, 8, 7]);
    assert_eq!(result.unwrap_err(), FrameError::Malformed);
    assert_eq!(left, 1);
    let (result, left) = decode_one(&[1, 1, 0, 1, 0, 0]);
    assert!(result.unwrap().is_none());
    assert_eq!(left, 6);
}

#[test]
fn exact_bytes_of_messages() {
    assert_eq!(pb::Hello { keepalive_interval: 30, is_server: true }.encode_to_vec(), vec![8, 30, 16, 1]);
    assert_eq!(pb::Hello { keepalive_interval: 0, is_server: false }.encode_to_vec(), Vec::<u8>::new());
    assert_eq!(pb::Subscription { vni: 300 }.encode_to_vec(), vec![8, 0xac, 2]);
    assert_eq!(pb::Subscription { vni: u32::MAX }.encode_to_vec(), vec![8, 255, 255, 255, 255, 15]);
    let update = pb::Update {
        action: 1,
        vni: 100,
        destination: Some(pb::Destination { ip_version: 0, prefix: vec![10, 0, 0, 0], prefix_length: 8 }),
        next_hop: Some(pb::NextHop {
            target_address: vec![],
            target_vni: 0,
            hop_type: 0,
            nat_port_range_from: 0,
            nat_port_range_to: 0,
        }),
    };
    assert_eq!(
        update.encode_to_vec(),
        vec![8, 1, 16, 100, 26, 8, 18, 4, 10, 0, 0, 0, 24, 8, 34, 0]
    );
    // A negative enumeration value takes ten bytes.
    let odd = pb::Update { action: -1, vni: 0, destination: None, next_hop: None };
    assert_eq!(odd.encode_to_vec(), vec![8, 255, 255, 255, 255, 255, 255, 255, 255, 255, 1]);
    let back: pb::Update = pb::decode(&odd.encode_to_vec()).unwrap();
    assert_eq!(back.action, -1);
    assert!(back.destination.is_none());
}

#[test]
fn decoding_as_protobuf_does() {
    // The last value of a field counts, and fields may come in any order.
    let hello: pb::Hello = pb::decode(&[16, 0, 8, 1, 16, 5, 8, 2]).unwrap();
    assert_eq!(hello, pb::Hello { keepalive_interval: 2, is_server: true });
    // A value of more than 32 bits keeps the last ones.
    let sub: pb::Subscription = pb::decode(&[8, 0x81, 0x80, 0x80, 0x80, 0x10]).unwrap();
    assert_eq!(sub.vni, 1);
    // Unknown fields are passed over: a number, eight bytes, a string, four bytes, a group.
    let bytes = [24, 7, 33, 1, 2, 3, 4, 5, 6, 7, 8, 42, 2, 9, 9, 53, 1, 2, 3, 4, 59, 24, 1, 60, 8, 9];
    let sub: pb::Subscription = pb::decode(&bytes).unwrap();
    assert_eq!(sub.vni, 9);
    // A field with the wrong wire type, a field number of zero, a value cut short.
    assert!(pb::decode::<pb::Subscription>(&[10, 0]).is_err());
    assert!(pb::decode::<pb::Subscription>(&[0, 1]).is_err());
    assert!(pb::decode::<pb::Subscription>(&[8]).is_err());
    assert!(pb::decode::<pb::Subscription>(&[8, 0x80]).is_err());
    // A varint of more than 64 bits.
    assert!(pb::decode::<pb::Subscription>(&[8, 255, 255, 255, 255, 255, 255, 255, 255, 255, 2]).is_err());
    // Parts of a submessage are put together; bytes are replaced.
    let update: pb::Update = pb::decode(&[26, 4, 18, 2, 1, 2, 26, 2, 24, 9, 26, 3, 18, 1, 7]).unwrap();
    let dest = update.destination.unwrap();
    assert_eq!(dest.prefix, vec![7]);
    assert_eq!(dest.prefix_length, 9);
    // A submessage that is longer than what is there, and one that is cut inside.
    assert!(pb::decode::<pb::Update>(&[26, 5, 24, 9]).is_err());
    assert!(pb::decode::<pb::Update>(&[26, 1, 24, 9]).is_err());
    // Unknown fields in a submessage are passed over too.
    let update: pb::Update = pb::decode(&[34, 6, 16, 5, 58, 2, 1, 1]).unwrap();
    assert_eq!(update.next_hop.unwrap().target_vni, 5);
}

#[test]
fn groups_in_a_submessage_nest_one_level_less() {
    // `depth` groups, each in the one before.
    let nested = |depth: usize| {
        let mut bytes = vec![59u8; depth];
        bytes.extend(vec![60u8; depth]);
        bytes
    };
    let inside = |bytes: &[u8]| {
        let mut out = vec![26u8];
        let len = bytes.len();
        out.push((len % 128 + 128) as u8);
        out.push((len / 128) as u8);
        out.extend_from_slice(bytes);
        out
    };
    assert!(pb::decode::<pb::Update>(&nested(100)).is_ok());
    assert!(pb::decode::<pb::Update>(&nested(101)).is_err());
    assert!(pb::decode::<pb::Update>(&inside(&nested(99))).is_ok());
    assert!(pb::decode::<pb::Update>(&inside(&nested(100))).is_err());
}

fn update_with_prefix(len: usize) -> GeneratedMessage {
    GeneratedMessage::Update(pb::Update {
        action: 0,
        vni: 0,
        destination: Some(pb::Destination { ip_version: 0, prefix: vec![7; len], prefix_length: 0 }),
        next_hop: None,
    })
}

#[test]
fn the_longest_message() {
    let mut codec = MetalBondCodec {};
    let mut buffer = BytesMut::new();
    buffer.extend_from_slice(&[5]);
    // Six bytes of keys and lengths come before the prefix.
    codec.encode(update_with_prefix(MAX_MESSAGE_LEN - 6), &mut buffer).unwrap();
    assert_eq!(buffer.len(), 1 + 4 + MAX_MESSAGE_LEN);
    assert_eq!(buffer[2], 4);
    assert_eq!(buffer[3], 164);
    let result = codec.encode(update_with_prefix(MAX_MESSAGE_LEN - 5), &mut buffer);
    assert_eq!(result, Err(FrameError::TooLong(1189)));
    assert_eq!(buffer.len(), 1 + 4 + MAX_MESSAGE_LEN);
}

#[test]
fn a_stream_of_frames() {
    let mut codec = MetalBondCodec {};
    let mut stream = BytesMut::new();
    codec.encode(GeneratedMessage::Hello(pb::Hello { keepalive_interval: 5, is_server: false }), &mut stream).unwrap();
    codec.encode(GeneratedMessage::Unsubscribe(pb::Subscription { vni: 9 }), &mut stream).unwrap();
    codec.encode(GeneratedMessage::Keepalive, &mut stream).unwrap();
    let bytes = stream.to_vec();

    // Byte by byte, every message comes when its last byte does.
    let mut buffer = BytesMut::new();
    let mut kinds = Vec::new();
    for (i, byte) in bytes.iter().enumerate() {
        buffer.extend_from_slice(&[*byte]);
        if let Some(message) = codec.decode(&mut buffer).unwrap() {
            kinds.push((i, message.into_typed_bytes().unwrap().0));
        }
    }
    assert_eq!(
        kinds,
        vec![(5, MessageType::Hello), (11, MessageType::Unsubscribe), (15, MessageType::Keepalive)]
    );
    assert!(buffer.is_empty());
}

#[test]
fn messages_by_kind() {
    let (kind, bytes) = GeneratedMessage::Subscribe(pb::Subscription { vni: 1 }).into_typed_bytes().unwrap();
    assert_eq!(kind, MessageType::Subscribe);
    assert_eq!(bytes, vec![8, 1]);
    assert!(matches!(
        GeneratedMessage::from_bytes(MessageType::Unsubscribe, &bytes),
        Ok(GeneratedMessage::Unsubscribe(pb::Subscription { vni: 1 }))
    ));
    // What comes with a keepalive does not matter.
    assert!(matches!(
        GeneratedMessage::from_bytes(MessageType::Keepalive, &[255]),
        Ok(GeneratedMessage::Keepalive)
    ));
    assert!(GeneratedMessage::from_bytes(MessageType::Hello, &[255]).is_err());
}
