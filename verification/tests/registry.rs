use glia::clock::Timestamp;
use glia::netting::client_id::{ClientId, PeerAddr, PeerRegistryEntry};
use glia::netting::registry::{PeerRegistry, RoutedEffect, RoutedTransmission, RoutedVerdict};
use glia::netting::synapse::SynapseTransmissionKind;

fn local(port: u16) -> PeerAddr {
    PeerAddr::V4 { bits: 0x7f00_0001, port }
}

fn id(last: u8) -> ClientId {
    ClientId::from_bytes(&[0, 1, 2, 3, 4, 5, 6, 7, last]).unwrap()
}

fn at(millis: u32) -> Timestamp {
    Timestamp { seconds: 1_000, nanos: millis * 1_000_000 }
}

fn registry(n: u8) -> PeerRegistry {
    PeerRegistry::new(PeerRegistryEntry { client_id: id(n), local_addr: local(n as u16) })
}

fn routed(kind: SynapseTransmissionKind, bytes: &[u8], to: Option<u16>) -> RoutedTransmission {
    RoutedTransmission { kind, bytes: bytes.to_vec(), maybe_target_address: to.map(local) }
}

fn slot(r: &PeerRegistry, peer: usize, n: usize) -> Vec<u8> {
    let (len, bytes) = &r.manager.connections.connections[peer].2.active_messages[n];
    bytes[..*len].to_vec()
}

fn connected() -> (PeerRegistry, PeerRegistry) {
    let mut a = registry(1);
    let mut b = registry(2);
    assert_eq!(a.send(routed(SynapseTransmissionKind::HandshakeInitiate, &[], Some(2))), 0);
    let open = slot(&a, 0, 1);
    let RoutedVerdict::Accepted(effects) = b.on_datagram_at(&open, local(1), &at(0)) else {
        panic!("accepted");
    };
    for effect in effects {
        match effect {
            RoutedEffect::Outbound(o) => {
                assert_eq!(o.kind, SynapseTransmissionKind::HandshakeResponse);
                assert_eq!(o.maybe_target_address, Some(local(1)));
                b.send(o);
            },
            RoutedEffect::Connected(peer) => b.peer_connected(peer.client_id, peer.local_addr),
            _ => {},
        }
    }
    let answer = slot(&b, 0, 1);
    assert!(matches!(a.on_datagram_at(&answer, local(2), &at(1)), RoutedVerdict::Accepted(_)));
    (a, b)
}

#[test]
fn a_registry_lists_its_siblings() {
    let (_, b) = connected();
    assert!(b.me.client_id == id(2));
    assert_eq!(b.siblings.len(), 1);
    assert!(b.siblings[0].client_id == id(1));
    assert_eq!(b.siblings[0].local_addr, local(1));
}

#[test]
fn a_sealed_datagram_is_taken_once() {
    let (mut a, mut b) = connected();
    assert_eq!(a.send(routed(SynapseTransmissionKind::KnownPacket, b"text", Some(2))), 0);
    let dg = slot(&a, 0, 2);
    match b.on_datagram_at(&dg, local(1), &at(10)) {
        RoutedVerdict::Accepted(effects) => {
            assert!(matches!(&effects[0], RoutedEffect::Deliver(d) if d.decrypted_bytes == b"text"));
            assert!(matches!(effects[1], RoutedEffect::Ack { transmission_number: 2, .. }));
        },
        _ => panic!("accepted"),
    }
    assert!(matches!(b.on_datagram_at(&dg, local(1), &at(50)), RoutedVerdict::Ignored));
    assert!(matches!(b.on_datagram_at(&dg, local(7), &at(50)), RoutedVerdict::Ignored));
    assert!(matches!(b.on_datagram(&dg, local(1)), RoutedVerdict::Accepted(_)));
}

#[test]
fn transmissions_are_routed_by_address() {
    let mut a = registry(1);
    assert_eq!(a.send(routed(SynapseTransmissionKind::HandshakeInitiate, &[], None)), 0);
    assert!(a.manager.connections.connections.is_empty());
    a.send(routed(SynapseTransmissionKind::HandshakeInitiate, &[], Some(2)));
    a.send(routed(SynapseTransmissionKind::HandshakeInitiate, &[], Some(3)));
    assert_eq!(a.send(routed(SynapseTransmissionKind::HandshakeResponse, &[5], Some(3))), 0);
    assert_eq!(slot(&a, 1, 2), vec![32, 2, 5]);
    assert!(slot(&a, 0, 2).is_empty());
    assert_eq!(a.send(routed(SynapseTransmissionKind::HandshakeResponse, &[5], Some(9))), 0);
    assert_eq!(a.manager.connections.connections.len(), 2);
    assert_eq!(a.send(routed(SynapseTransmissionKind::Ack, &[6], None)), 2);
    assert_eq!(slot(&a, 0, 2), vec![64, 2, 6]);
    assert_eq!(slot(&a, 1, 3), vec![64, 3, 6]);
}
