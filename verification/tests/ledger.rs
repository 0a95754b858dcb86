use glia::netting::client_id::PeerAddr;
use glia::netting::ledger::{
    pending_bytes, slot_sent, PeerConnectionLedger, PeerConnectionMessageIter,
};
use glia::netting::peer::{HandshakeSecret, PeerConnectionData, PeerKey};

/// 127.0.0.1 with the given port.
fn local(port: u16) -> PeerAddr {
    PeerAddr::V4 { bits: 0x7f00_0001, port }
}

#[test]
fn iterator_works() {
    let mut backing_vec = vec![(local(5000), None, PeerConnectionData::default())];
    let mut iter = PeerConnectionMessageIter { backing_container: &mut backing_vec, primary_idx: 0, secondary_idx: 0 };

    for _ in 0..iter.backing_container[0].2.active_messages.len() {
        let value = iter.next();
        assert!(value.is_some(), "should be some");
    }

    let value = iter.next();
    assert!(value.is_none(), "should be none");
}

fn id(last: u8) -> glia::netting::client_id::ClientId {
    glia::netting::client_id::ClientId::from_bytes(&[0, 1, 2, 3, 4, 5, 6, 7, last]).unwrap()
}

fn exchanged(peer: glia::netting::client_id::ClientId) -> PeerKey {
    let (a, _) = HandshakeSecret::generate();
    let (_, point) = HandshakeSecret::generate();
    PeerKey::exchanged_from_shared_secret_and_raw_peer(a.agree(&point).unwrap(), peer)
}

#[test]
fn peers_are_found_by_address() {
    let mut l = PeerConnectionLedger::default();
    assert!(l.idx_for_addr(local(1)).is_none());
    assert_eq!(l.idx_for_addr_or_init(local(1)), 0);
    assert_eq!(l.idx_for_addr_or_init(local(2)), 1);
    assert_eq!(l.idx_for_addr_or_init(local(1)), 0);
    assert_eq!(l.idx_for_addr(local(2)), Some(1));
    assert_eq!(l.connections.len(), 2);
    assert!(l.addr_get(local(3)).is_none());
    assert!(l.addr_get(local(2)).is_some());
    assert!(l.get_or_init(local(3)).exchanged_key.is_none());
    assert_eq!(l.connections.len(), 3);
}

#[test]
fn an_exchanged_key_names_the_peer() {
    let mut l = PeerConnectionLedger::default();
    let (secret, _) = HandshakeSecret::generate();
    l.set_key(local(1), PeerKey::Inflight(secret));
    assert!(l.idx_for_id(id(1)).is_none());
    assert!(l.addr_get(local(1)).unwrap().exchanged_key.is_some());
    l.set_key(local(2), exchanged(id(1)));
    assert_eq!(l.idx_for_id(id(1)), Some(1));
    assert!(l.id_get(id(1)).is_some());
    assert!(l.id_get(id(2)).is_none());
    l.id_get_mut(id(1)).unwrap().write_synapse_transmission(false, 32, &[1]);
    assert_eq!(l.connections[1].2.active_messages[1].0, 3);
    l.addr_get_mut(local(1)).unwrap().write_synapse_transmission(false, 32, &[1, 2]);
    assert_eq!(l.connections[0].2.active_messages[1].0, 4);
    l.get_or_init_mut(local(9)).alloc_transmission_number();
    assert_eq!(l.connections[2].2.next_transmission_number, 1);
}

#[test]
fn a_walk_sends_every_message_once() {
    let mut l = PeerConnectionLedger::default();
    l.get_or_init_mut(local(1)).write_synapse_transmission(false, 32, &[1]);
    l.get_or_init_mut(local(1)).write_synapse_transmission(false, 64, &[2]);
    l.get_or_init_mut(local(2)).write_synapse_transmission(false, 96, &[3]);
    let mut sent = Vec::new();
    let mut walk = l.addr_data_iter_mut();
    while let Some((addr, slot, number)) = walk.next_pending() {
        sent.push((addr, pending_bytes(slot).to_vec(), number));
        slot_sent(slot);
    }
    assert_eq!(
        sent,
        vec![
            (local(1), vec![32, 1, 1], 1),
            (local(1), vec![64, 2, 2], 2),
            (local(2), vec![96, 1, 3], 1),
        ]
    );
    assert_eq!(l.connections[0].2.active_messages[1].0, 3);
    assert_eq!(l.connections[0].2.active_messages[2].0, 0);
    assert_eq!(l.connections[1].2.active_messages[1].0, 3);
}

#[test]
fn a_walk_passes_every_slot_of_every_peer() {
    let mut l = PeerConnectionLedger::default();
    l.idx_for_addr_or_init(local(1));
    l.idx_for_addr_or_init(local(2));
    let mut walk = l.addr_data_iter_mut();
    for i in 0..512usize {
        let (addr, _, number) = walk.next().unwrap();
        assert_eq!(addr, local(1 + (i / 256) as u16));
        assert_eq!(number, i % 256);
    }
    assert!(walk.next().is_none());
    assert!(walk.next().is_none());
}
