use glia::netting::client_id::{ClientId, PeerAddr};
use glia::netting::collater::{message_of_payload, Collated, Collater, Landed, PartialCache};
use glia::netting::message::{NettingMessage, NettingMessageKind, CHUNK_LEN};
use glia::netting::outbox::{Outbox, SendOutcome};
use glia::netting::parceler::Parceler;
use glia::netting::synapse::OutboundSynapseTransmissionKind;

type Message = NettingMessage<Vec<u8>, u8>;

fn addr(port: u16) -> PeerAddr {
    PeerAddr::V4 { bits: 0x7f00_0001, port }
}

fn world() -> Vec<u8> {
    (0..2 * CHUNK_LEN + 100).map(|i| (i % 251) as u8).collect()
}

fn packets(id: u64) -> Vec<Vec<u8>> {
    let msg: Message = NettingMessageKind::WorldTransfer(Box::new(world())).with_id(id);
    msg.into_known_packet_bytes()
}

fn payload() -> Vec<u8> {
    let mut p = world();
    p.push(4);
    p
}

#[test]
fn a_whole_packet_is_its_message() {
    let mut cache = PartialCache::new();
    let msg: Message = NettingMessageKind::FrameSync(77).with_id(3);
    let packet = msg.into_known_packet_bytes().remove(0);
    match cache.collate::<u8>(addr(1), packet) {
        Collated::Message(m) => {
            assert_eq!(m.message_id, 3);
            assert!(matches!(m.kind, NettingMessageKind::FrameSync(77)));
        },
        _ => panic!("a message"),
    }
}

#[test]
fn packets_make_up_the_message_in_any_order() {
    for order in [[0usize, 1, 2], [2, 1, 0], [1, 2, 0], [2, 0, 1]] {
        let mut cache = PartialCache::new();
        let all = packets(9);
        assert!(matches!(cache.collate::<u8>(addr(1), all[order[0]].clone()), Collated::Held));
        assert!(matches!(cache.collate::<u8>(addr(1), all[order[1]].clone()), Collated::Held));
        match cache.collate::<u8>(addr(1), all[order[2]].clone()) {
            Collated::Assembled { message_id, payload: joined } => {
                assert_eq!(message_id, 9);
                assert_eq!(joined, payload());
            },
            _ => panic!("assembled"),
        }
    }
}

#[test]
fn repeated_packets_change_nothing() {
    let mut cache = PartialCache::new();
    let all = packets(9);
    for _ in 0..3 {
        assert!(matches!(cache.collate::<u8>(addr(1), all[0].clone()), Collated::Held));
        assert!(matches!(cache.collate::<u8>(addr(1), all[2].clone()), Collated::Held));
    }
    assert!(matches!(cache.collate::<u8>(addr(1), all[1].clone()), Collated::Assembled { .. }));
}

#[test]
fn messages_are_kept_apart() {
    let mut cache = PartialCache::new();
    let a = packets(1);
    let b = packets(2);
    assert!(matches!(cache.collate::<u8>(addr(1), a[0].clone()), Collated::Held));
    assert!(matches!(cache.collate::<u8>(addr(1), b[1].clone()), Collated::Held));
    assert!(matches!(cache.collate::<u8>(addr(2), a[1].clone()), Collated::Held));
    assert!(matches!(cache.collate::<u8>(addr(1), a[1].clone()), Collated::Held));
    assert!(matches!(
        cache.collate::<u8>(addr(1), a[2].clone()),
        Collated::Assembled { message_id: 1, .. }
    ));
    assert!(matches!(cache.collate::<u8>(addr(1), b[0].clone()), Collated::Held));
}

#[test]
fn an_assembled_payload_is_read() {
    let msg: Message = message_of_payload(4, payload());
    assert_eq!(msg.message_id, 4);
    match msg.kind {
        NettingMessageKind::WorldTransfer(w) => assert_eq!(*w, world()),
        _ => panic!("a world"),
    }
}

#[test]
fn messages_are_handed_on_in_order() {
    let mut c: Collater<Vec<u8>, u8> = Collater::init();
    let me = ClientId::from_bytes(&[0; 9]).unwrap();
    c.deliver(NettingMessageKind::FrameSync(1).with_id(1), me);
    c.deliver(NettingMessageKind::FrameSync(2).with_id(2), me);
    assert_eq!(c.unsent.take_next().unwrap().msg.message_id, 1);
    assert_eq!(c.unsent.take_next().unwrap().msg.message_id, 2);
    assert!(c.unsent.take_next().is_none());
}

#[test]
fn an_outbox_gives_back_what_found_no_room() {
    let mut o: Outbox<u32> = Outbox::new();
    o.push(1);
    o.push(2);
    let v = o.take_next().unwrap();
    assert!(!o.settle(SendOutcome::Full(v)));
    assert_eq!(o.take_next(), Some(1));
    assert!(o.settle(SendOutcome::Sent));
    assert_eq!(o.take_next(), Some(2));
    assert!(o.settle(SendOutcome::Closed));
    assert_eq!(o.take_next(), None);
}

#[test]
fn a_message_is_parcelled_in_order() {
    let mut p = Parceler::init();
    let target = ClientId::from_bytes(&[7; 9]).unwrap();
    let msg: Message = NettingMessageKind::WorldTransfer(Box::new(world())).with_id(9);
    p.parcel(msg, Some(target));
    for expected in packets(9) {
        let osynt = p.unsent.take_next().unwrap();
        assert!(matches!(osynt.kind, OutboundSynapseTransmissionKind::KnownPacket));
        assert_eq!(osynt.bytes, expected);
        assert!(osynt.maybe_target == Some(target));
    }
    assert!(p.unsent.take_next().is_none());
}

#[test]
fn a_collater_lands_a_message_once() {
    let mut c: Collater<Vec<u8>, u8> = Collater::init();
    let all = packets(9);
    for i in [2usize, 0, 0, 2, 2] {
        assert!(matches!(c.on_packet(addr(1), all[i].clone()), Landed::Held));
    }
    match c.on_packet(addr(1), all[1].clone()) {
        Landed::Message(m) => {
            assert_eq!(m.message_id, 9);
            assert!(matches!(m.kind, NettingMessageKind::WorldTransfer(w) if *w == world()));
        },
        _ => panic!("a message"),
    }
    assert!(matches!(c.on_packet(addr(1), all[1].clone()), Landed::Held));
    let whole: Message = NettingMessageKind::FrameSync(7).with_id(1);
    let whole = whole.into_known_packet_bytes().remove(0);
    assert!(matches!(c.on_packet(addr(2), whole), Landed::Message(m) if m.message_id == 1));
}

#[test]
fn a_collater_tells_what_cannot_be_read() {
    let mut c: Collater<Vec<u8>, u8> = Collater::init();
    assert!(matches!(c.on_packet(addr(1), vec![0; 16]), Landed::Unreadable));
    let part = |index: u8, byte: u8| {
        vec![0, 0, 0, 0, 0, 0, 0, 2, 0, 0, 0, 0, 0, 0, 0, 5, index, byte]
    };
    assert!(matches!(c.on_packet(addr(1), part(0, 1)), Landed::Held));
    assert!(matches!(c.on_packet(addr(1), part(1, 200)), Landed::Unreadable));
    assert!(matches!(c.on_packet(addr(1), part(1, 2)), Landed::Held));
    match c.on_packet(addr(1), part(0, 1)) {
        Landed::Message(m) => assert!(matches!(m.kind, NettingMessageKind::NewConnection)),
        _ => panic!("a message"),
    }
}
