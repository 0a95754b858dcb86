use glia::clock::Timestamp;
use glia::netting::client_id::{ClientId, PeerAddr};
use glia::netting::connman::{takes_more, ConnectionManager, Effect, Fault, Verdict};
use glia::netting::peer::{HandshakeSecret, PeerKey};
use glia::netting::synapse::{
    ack_datagram, OutboundSynapseTransmission, OutboundSynapseTransmissionKind,
};

fn local(port: u16) -> PeerAddr {
    PeerAddr::V4 { bits: 0x7f00_0001, port }
}

fn id(last: u8) -> ClientId {
    ClientId::from_bytes(&[0, 1, 2, 3, 4, 5, 6, 7, last]).unwrap()
}

fn at(millis: u32) -> Timestamp {
    Timestamp { seconds: 1_000 + (millis / 1000) as i64, nanos: (millis % 1000) * 1_000_000 }
}

fn known(bytes: &[u8]) -> OutboundSynapseTransmission {
    OutboundSynapseTransmission {
        kind: OutboundSynapseTransmissionKind::KnownPacket,
        bytes: bytes.to_vec(),
        maybe_target: None,
    }
}

/// The datagram that waits in a slot of the first peer.
fn pending(m: &ConnectionManager, slot: usize) -> Vec<u8> {
    let (len, bytes) = &m.connections.connections[0].2.active_messages[slot];
    bytes[..*len].to_vec()
}

fn accepted(v: Verdict) -> Vec<Effect> {
    match v {
        Verdict::Accepted(effects) => effects,
        Verdict::Ignored => panic!("ignored"),
        Verdict::Faulty(f) => panic!("{:?}", f),
    }
}

/// Two clients after their handshake: one at port 1, the other at port 2.
fn connected() -> (ConnectionManager, ConnectionManager) {
    let mut a = ConnectionManager::init(id(1), local(1));
    let mut b = ConnectionManager::init(id(2), local(2));
    assert_eq!(a.on_outbound(OutboundSynapseTransmission::handshake_to(local(2))), 0);
    let open = pending(&a, 1);
    let effects = accepted(b.on_datagram_at(&open, local(1), &at(0)));
    assert_eq!(effects.len(), 3);
    assert!(matches!(effects[0], Effect::Ack { transmission_number: 1, addr } if addr == local(1)));
    assert!(matches!(effects[2], Effect::Announce(peer) if peer == id(1)));
    let mut response = None;
    for effect in effects {
        if let Effect::Outbound(osynt) = effect {
            assert!(osynt.maybe_target == Some(id(1)));
            response = Some(osynt);
        }
    }
    assert_eq!(b.on_outbound(response.unwrap()), 1);
    let answer = pending(&b, 1);
    let effects = accepted(a.on_datagram_at(&answer, local(2), &at(1)));
    assert_eq!(effects.len(), 2);
    assert!(matches!(effects[0], Effect::Announce(peer) if peer == id(2)));
    assert!(matches!(effects[1], Effect::Ack { transmission_number: 1, addr } if addr == local(2)));
    (a, b)
}

#[test]
fn a_manager_knows_itself() {
    let m = ConnectionManager::init(id(1), local(7));
    assert!(m.own_client_id() == id(1));
    assert_eq!(m.own_socket_address(), local(7));
    assert!(!m.readable && !m.writable);
    assert!(m.connections.connections.is_empty());
}

#[test]
fn a_handshake_connects_both_ends() {
    let (a, b) = connected();
    for m in [&a, &b] {
        assert!(matches!(m.connections.connections[0].2.exchanged_key, Some(PeerKey::Exchanged(_))));
        assert!(m.connections.connections[0].1.is_none());
    }
}

#[test]
fn an_opening_has_its_layout() {
    let mut a = ConnectionManager::init(id(1), local(1));
    a.on_outbound(OutboundSynapseTransmission::handshake_to(local(2)));
    let open = pending(&a, 1);
    assert_eq!(open.len(), 2 + 14 + 65);
    assert_eq!(open[..2], [0, 1]);
    assert_eq!(open[2..7], *b"hello");
    assert_eq!(open[7..16], [0, 1, 2, 3, 4, 5, 6, 7, 1]);
    assert!(matches!(a.connections.connections[0].2.exchanged_key, Some(PeerKey::Inflight(_))));
}

#[test]
fn a_second_opening_is_not_sent() {
    let mut a = ConnectionManager::init(id(1), local(1));
    a.on_outbound(OutboundSynapseTransmission::handshake_to(local(2)));
    a.on_outbound(OutboundSynapseTransmission::handshake_to(local(2)));
    assert_eq!(a.connections.connections[0].2.next_transmission_number, 1);
}

#[test]
fn a_packet_is_delivered_to_the_other_end() {
    let (mut a, mut b) = connected();
    assert_eq!(a.on_outbound(known(b"a packet")), 1);
    let dg = pending(&a, 2);
    assert_eq!(dg[..2], [96, 2]);
    let effects = accepted(b.on_datagram_at(&dg, local(1), &at(10)));
    assert_eq!(effects.len(), 2);
    match &effects[0] {
        Effect::Deliver(d) => {
            assert_eq!(d.decrypted_bytes, b"a packet".to_vec());
            assert_eq!(d.addr, local(1));
            assert!(d.client_id == id(1));
        },
        _ => panic!("delivered"),
    }
    assert!(matches!(effects[1], Effect::Ack { transmission_number: 2, .. }));
}

#[test]
fn a_repeated_packet_is_ignored_for_a_while() {
    let (mut a, mut b) = connected();
    a.on_outbound(known(b"a packet"));
    let dg = pending(&a, 2);
    accepted(b.on_datagram_at(&dg, local(1), &at(10)));
    assert!(matches!(b.on_datagram_at(&dg, local(1), &at(60)), Verdict::Ignored));
    assert!(matches!(b.on_datagram_at(&dg, local(1), &at(110)), Verdict::Ignored));
    accepted(b.on_datagram_at(&dg, local(1), &at(111)));
}

#[test]
fn a_repeated_handshake_is_ignored() {
    let mut a = ConnectionManager::init(id(1), local(1));
    let mut b = ConnectionManager::init(id(2), local(2));
    a.on_outbound(OutboundSynapseTransmission::handshake_to(local(2)));
    let open = pending(&a, 1);
    accepted(b.on_datagram_at(&open, local(1), &at(0)));
    assert!(matches!(b.on_datagram_at(&open, local(1), &at(50)), Verdict::Ignored));
    assert!(matches!(b.on_datagram_at(&open, local(1), &at(5_000)), Verdict::Ignored));
}

#[test]
fn an_acknowledgement_stops_the_resending() {
    let (mut a, _) = connected();
    a.on_outbound(known(b"a packet"));
    assert!(!pending(&a, 2).is_empty());
    assert!(accepted(a.on_datagram_at(&ack_datagram(2), local(2), &at(10))).is_empty());
    assert!(pending(&a, 2).is_empty());
    assert!(matches!(a.on_datagram_at(&ack_datagram(2), local(9), &at(10)), Verdict::Ignored));
}

#[test]
fn strangers_are_ignored() {
    let (mut a, mut b) = connected();
    a.on_outbound(known(b"a packet"));
    let dg = pending(&a, 2);
    assert!(matches!(b.on_datagram_at(&dg, local(9), &at(10)), Verdict::Ignored));
    let mut broken = dg.clone();
    let last = broken.len() - 1;
    broken[last] ^= 1;
    assert!(matches!(b.on_datagram_at(&broken, local(1), &at(10)), Verdict::Ignored));
    assert!(matches!(b.on_datagram_at(&[96, 5, 1, 2], local(1), &at(10)), Verdict::Ignored));
}

#[test]
fn answers_nobody_waits_for_are_ignored() {
    let mut a = ConnectionManager::init(id(1), local(1));
    let answer = [&[32u8, 1][..], &[0u8; 8][..], &[4u8; 65][..]].concat();
    assert!(matches!(a.on_datagram_at(&answer, local(2), &at(0)), Verdict::Ignored));
    assert!(matches!(a.on_datagram_at(&[32, 1, 0, 0], local(2), &at(0)), Verdict::Ignored));
    let cut = [32u8, 1, 0, 0, 0, 0, 0, 0, 0, 9, 1];
    assert!(matches!(a.on_datagram_at(&cut, local(2), &at(0)), Verdict::Ignored));
}

#[test]
fn an_answer_that_proves_nothing_is_ignored() {
    let mut a = ConnectionManager::init(id(1), local(1));
    a.on_outbound(OutboundSynapseTransmission::handshake_to(local(2)));
    let (_, point) = HandshakeSecret::generate();
    let mut answer = vec![32u8, 1, 0, 0, 0, 0, 0, 0, 0, 54];
    answer.extend(vec![7u8; 54]);
    answer.extend(point);
    assert!(matches!(a.on_datagram_at(&answer, local(2), &at(0)), Verdict::Ignored));
    assert!(matches!(a.connections.connections[0].2.exchanged_key, Some(PeerKey::Inflight(_))));
}

#[test]
fn faults_are_told_apart() {
    let mut a = ConnectionManager::init(id(1), local(1));
    assert!(matches!(a.on_datagram_at(&[], local(2), &at(0)), Verdict::Faulty(Fault::Malformed)));
    assert!(matches!(a.on_datagram_at(&[200, 1], local(2), &at(0)), Verdict::Faulty(Fault::Malformed)));
    assert!(matches!(
        a.on_datagram_at(&[128, 1], local(2), &at(0)),
        Verdict::Faulty(Fault::PeerDiscovery)
    ));
    let overlong = [32u8, 1, 255, 255, 255, 255, 255, 255, 255, 255];
    assert!(matches!(
        a.on_datagram_at(&overlong, local(2), &at(0)),
        Verdict::Faulty(Fault::BadLength)
    ));
    let mut open = vec![0u8, 1];
    open.extend(b"hello");
    open.extend([1u8; 9]);
    open.extend([4u8; 65]);
    assert!(matches!(
        a.on_datagram_at(&open, local(2), &at(0)),
        Verdict::Faulty(Fault::BadPublicKey)
    ));
    assert!(matches!(a.on_datagram_at(&[0, 2, 1, 2, 3], local(3), &at(0)), Verdict::Ignored));
    assert_eq!(a.connections.connections.len(), 2);
}

#[test]
fn a_bad_point_in_an_answer_is_a_fault() {
    let mut a = ConnectionManager::init(id(1), local(1));
    a.on_outbound(OutboundSynapseTransmission::handshake_to(local(2)));
    let mut answer = vec![32u8, 1, 0, 0, 0, 0, 0, 0, 0, 0];
    answer.extend([4u8; 65]);
    assert!(matches!(
        a.on_datagram_at(&answer, local(2), &at(0)),
        Verdict::Faulty(Fault::BadPublicKey)
    ));
}

#[test]
fn the_clock_is_read_for_a_datagram() {
    let (mut a, mut b) = connected();
    a.on_outbound(known(b"x"));
    let dg = pending(&a, 2);
    accepted(b.on_datagram(&dg, local(1)));
    assert!(b.connections.connections[0].2.recent_received_messages[2].0.seconds > 1_500_000_000);
}

#[test]
fn every_peer_gets_a_broadcast() {
    let mut m = ConnectionManager::init(id(1), local(1));
    m.on_outbound(OutboundSynapseTransmission::handshake_to(local(2)));
    m.on_outbound(OutboundSynapseTransmission::handshake_to(local(3)));
    let n = m.on_outbound(OutboundSynapseTransmission {
        kind: OutboundSynapseTransmissionKind::HandshakeResponse,
        bytes: vec![7],
        maybe_target: Some(id(2)),
    });
    assert_eq!(n, 2);
    for c in &m.connections.connections {
        assert_eq!(c.2.active_messages[2].0, 3);
        assert_eq!(c.2.active_messages[2].1[..3], [32, 2, 7]);
    }
}

#[test]
fn what_fits_can_be_broadcast() {
    let (a, _) = connected();
    assert!(a.can_broadcast(true, 65_535 - 42));
    assert!(!a.can_broadcast(true, 65_535 - 41));
    assert!(a.can_broadcast(false, 100_000));
    let alone = ConnectionManager::init(id(1), local(1));
    assert!(alone.can_broadcast(true, 100_000));
}

#[test]
fn readiness_lasts_until_it_blocks() {
    let mut m = ConnectionManager::init(id(1), local(1));
    m.on_ready(true, false);
    m.on_ready(false, true);
    assert!(m.readable && m.writable);
    m.on_read_blocked();
    assert!(!m.readable && m.writable);
    m.on_write_blocked();
    assert!(!m.writable);
}

#[test]
fn sending_gives_way_to_the_socket() {
    assert!(takes_more(&at(0), &at(50), 20));
    assert!(!takes_more(&at(0), &at(51), 0));
    assert!(!takes_more(&at(0), &at(0), 21));
}
