use glia::netting::client_id::ClientId;
use glia::netting::message::{
    NettingMessage, NettingMessageKind, NettingMessageKindParseError, NettingMessageParseError,
    CHUNK_LEN, MAX_KNOWN_PACKET_LEN,
};

type Kind = NettingMessageKind<Vec<u8>, u8>;
type Message = NettingMessage<Vec<u8>, u8>;

fn id() -> ClientId {
    ClientId::from_bytes(&[1, 2, 3, 4, 5, 6, 7, 8, 9]).unwrap()
}

#[test]
fn the_discriminant_is_the_last_byte() {
    assert_eq!(Kind::Noop.into_bytes(), vec![0]);
    assert_eq!(Kind::Handshake.into_bytes(), vec![1]);
    assert_eq!(Kind::NewConnection.into_bytes(), vec![2]);
    assert_eq!(Kind::DroppedConnection { client_id: id() }.into_bytes(), vec![3]);
    assert_eq!(Kind::WorldTransfer(Box::new(vec![7, 8])).into_bytes(), vec![7, 8, 4]);
    assert_eq!(Kind::User(1).into_bytes(), vec![5]);
    assert_eq!(Kind::NakedLogString("héy".to_string()).into_bytes(), vec![b'h', 0xc3, 0xa9, b'y', 6]);
    assert_eq!(Kind::WorldSyncStart.into_bytes(), vec![7]);
    assert_eq!(Kind::WorldSyncEnd.into_bytes(), vec![8]);
    assert_eq!(Kind::FrameSync(258).into_bytes(), vec![0, 0, 0, 0, 0, 0, 1, 2, 9]);
}

#[test]
fn kinds_read_back() {
    assert!(matches!(Kind::parse(vec![0]), Ok(NettingMessageKind::Noop)));
    assert!(matches!(Kind::parse(vec![1]), Ok(NettingMessageKind::Handshake)));
    assert!(matches!(Kind::parse(vec![2]), Ok(NettingMessageKind::NewConnection)));
    assert!(matches!(Kind::parse(vec![7]), Ok(NettingMessageKind::WorldSyncStart)));
    assert!(matches!(Kind::parse(vec![8]), Ok(NettingMessageKind::WorldSyncEnd)));
    match Kind::parse(Kind::NakedLogString("grüße".to_string()).into_bytes()) {
        Ok(NettingMessageKind::NakedLogString(s)) => assert_eq!(s, "grüße"),
        _ => panic!("a log string"),
    }
    match Kind::parse(Kind::WorldTransfer(Box::new(vec![1, 2, 3])).into_bytes()) {
        Ok(NettingMessageKind::WorldTransfer(w)) => assert_eq!(*w, vec![1, 2, 3]),
        _ => panic!("a world"),
    }
    match Kind::parse(Kind::FrameSync(u64::MAX - 5).into_bytes()) {
        Ok(NettingMessageKind::FrameSync(f)) => assert_eq!(f, u64::MAX - 5),
        _ => panic!("a frame sync"),
    }
    match Kind::parse(vec![1, 2, 3, 4, 5, 6, 7, 8, 9, 3]) {
        Ok(NettingMessageKind::DroppedConnection { client_id }) => assert!(client_id == id()),
        _ => panic!("a dropped connection"),
    }
}

#[test]
fn a_frame_sync_of_another_length_is_partial() {
    match Kind::parse(vec![1, 2, 9]) {
        Err(NettingMessageKindParseError::PartialMessage { expected_len, bytes }) => {
            assert_eq!(expected_len, 9);
            assert_eq!(bytes, vec![1, 2, 9]);
        },
        _ => panic!("partial"),
    }
}

#[test]
fn what_cannot_be_read_is_told_apart() {
    assert!(!Kind::is_readable(&vec![]));
    assert!(!Kind::is_readable(&vec![5]));
    assert!(!Kind::is_readable(&vec![10]));
    assert!(!Kind::is_readable(&vec![3]));
    assert!(!Kind::is_readable(&vec![0xff, 6]));
    assert!(Kind::is_readable(&vec![0xc3, 0xa9, 6]));
    assert!(Kind::is_readable(&vec![6]));
}

#[test]
fn a_world_is_resolved_after_it_is_decoded() {
    let kind: Kind = NettingMessageKind::WorldTransfer(Box::new(vec![1, 2]));
    match kind.resolve_world(Some("world")) {
        Ok(NettingMessageKind::WorldTransfer(w)) => assert_eq!(*w, "world"),
        _ => panic!("a world"),
    }
    let kind: Kind = NettingMessageKind::WorldTransfer(Box::new(vec![1, 2]));
    match kind.resolve_world::<&str>(None) {
        Err(NettingMessageKindParseError::BadWorld(bytes)) => assert_eq!(bytes, vec![1, 2]),
        _ => panic!("a bad world"),
    }
    let kind: Kind = NettingMessageKind::FrameSync(4);
    assert!(matches!(kind.resolve_world::<&str>(None), Ok(NettingMessageKind::FrameSync(4))));
}

#[test]
fn a_world_is_replaced_by_its_bytes() {
    let kind: NettingMessageKind<&str, u8> = NettingMessageKind::WorldTransfer(Box::new("world"));
    match kind.encode_world(vec![9, 9]) {
        NettingMessageKind::WorldTransfer(w) => assert_eq!(*w, vec![9, 9]),
        _ => panic!("a world"),
    }
}

#[test]
fn a_short_message_takes_one_packet() {
    let msg: Message = NettingMessageKind::NakedLogString("hi".to_string()).with_id(0x0a0b);
    let packets = msg.into_known_packet_bytes();
    assert_eq!(packets.len(), 1);
    assert_eq!(
        packets[0],
        vec![0, 0, 0, 0, 0, 0, 0, 3, 0, 0, 0, 0, 0, 0, 0x0a, 0x0b, 0, b'h', b'i', 6]
    );
    match Message::parse(packets[0].clone()) {
        Ok(m) => {
            assert_eq!(m.message_id, 0x0a0b);
            assert!(matches!(m.kind, NettingMessageKind::NakedLogString(s) if s == "hi"));
        },
        _ => panic!("a whole message"),
    }
}

#[test]
fn a_long_message_takes_several_packets() {
    let world = vec![3u8; 2 * CHUNK_LEN];
    let msg: Message = NettingMessageKind::WorldTransfer(Box::new(world)).with_id(5);
    let packets = msg.into_known_packet_bytes();
    assert_eq!(packets.len(), 3);
    assert_eq!(packets[0].len(), MAX_KNOWN_PACKET_LEN);
    assert_eq!(packets[1].len(), MAX_KNOWN_PACKET_LEN);
    assert_eq!(packets[2].len(), 18);
    for (i, p) in packets.iter().enumerate() {
        assert_eq!(p[16], i as u8);
        match Message::parse(p.clone()) {
            Err(NettingMessageParseError::PartialMessage { message_id, expected_len, msg }) => {
                assert_eq!(message_id, 5);
                assert_eq!(expected_len, 2 * CHUNK_LEN as u64 + 1);
                assert_eq!(msg.packet_index, i as u8);
                assert_eq!(msg.bytes, p[17..].to_vec());
            },
            _ => panic!("a part"),
        }
    }
}

#[test]
fn a_message_is_stamped_and_attributed() {
    let before = glia::clock::now().millis() as u64;
    let msg: Message = NettingMessageKind::Noop.to_msg();
    let after = glia::clock::now().millis() as u64;
    assert!(before <= msg.message_id && msg.message_id <= after);
    let inbound = msg.to_inbound(id());
    assert!(inbound.sender_id == id());
}

#[test]
fn packets_that_are_cut_short_are_told_apart() {
    assert!(!Message::is_readable(&vec![0; 16]));
    assert!(!Message::is_readable(&vec![0; 17]));
    let mut packet = vec![0u8; 17];
    packet[7] = 5;
    assert!(Message::is_readable(&packet));
}

#[test]
fn a_message_fits_up_to_its_limit() {
    let fits = |len: usize| {
        let msg: Message = NettingMessageKind::WorldTransfer(Box::new(vec![0u8; len])).with_id(1);
        msg.fits()
    };
    assert!(fits(0));
    assert!(fits(255 * CHUNK_LEN - 1));
    assert!(!fits(255 * CHUNK_LEN));
    let most: Message =
        NettingMessageKind::WorldTransfer(Box::new(vec![0u8; 255 * CHUNK_LEN - 1])).with_id(1);
    let packets = most.into_known_packet_bytes();
    assert_eq!(packets.len(), 255);
    assert_eq!(packets[254][16], 254);
    let log: Message = NettingMessageKind::NakedLogString("hi".to_string()).with_id(1);
    assert!(log.fits());
}

#[test]
fn whole_kinds_are_told_apart() {
    assert!(Kind::is_whole(&vec![0]));
    assert!(Kind::is_whole(&vec![0, 0, 0, 0, 0, 0, 0, 7, 9]));
    assert!(!Kind::is_whole(&vec![0, 7, 9]));
    assert!(!Kind::is_whole(&vec![]));
    assert!(!Kind::is_whole(&vec![0xff, 6]));
    assert!(!Kind::is_whole(&vec![5]));
}
