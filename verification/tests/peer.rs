use glia::clock::Timestamp;
use glia::crypto::{NONCE_LEN, POINT_LEN, TAG_LEN};
use glia::netting::client_id::ClientId;
use glia::netting::handshake::{answering, opening};
use glia::netting::peer::{greet, greeted_by, HandshakeSecret, PeerConnectionData, PeerKey};
use glia::netting::synapse::{SynapseTransmission, SynapseTransmissionKind};

fn id(last: u8) -> ClientId {
    ClientId::from_bytes(&[0, 1, 2, 3, 4, 5, 6, 7, last]).unwrap()
}

fn at(nanos: u32) -> Timestamp {
    Timestamp { seconds: 1_000, nanos }
}

fn shared_pair() -> (Vec<u8>, Vec<u8>) {
    let (a, a_point) = HandshakeSecret::generate();
    let (b, b_point) = HandshakeSecret::generate();
    (a.agree(&b_point).unwrap(), b.agree(&a_point).unwrap())
}

#[test]
fn a_greeting_names_who_greets() {
    let text = greet(id(9));
    assert_eq!(text, b"hello\x00\x01\x02\x03\x04\x05\x06\x07\x09".to_vec());
    assert!(greeted_by(&text) == Some(id(9)));
    assert!(greeted_by(b"hello").is_none());
    assert!(greeted_by(b"jello\x00\x01\x02\x03\x04\x05\x06\x07\x09").is_none());
}

#[test]
fn both_ends_agree_on_a_secret() {
    let (a, b) = shared_pair();
    assert_eq!(a, b);
    assert_eq!(a.len(), 32);
    let (c, _) = shared_pair();
    assert_ne!(a, c);
}

#[test]
fn points_are_uncompressed_and_fresh() {
    let (secret, point) = HandshakeSecret::generate();
    assert_eq!(point.len(), POINT_LEN);
    assert_eq!(point[0], 4);
    assert_eq!(secret.public(), point);
    let (_, other) = HandshakeSecret::generate();
    assert_ne!(point, other);
}

#[test]
fn bytes_that_are_no_point_are_refused() {
    let (secret, point) = HandshakeSecret::generate();
    assert!(secret.agree(&[]).is_none());
    assert!(secret.agree(&[4; 65]).is_none());
    assert!(secret.agree(&point[..64]).is_none());
}

#[test]
fn what_one_end_seals_the_other_opens() {
    let (a, b) = shared_pair();
    let ours = PeerKey::exchanged_from_shared_secret_and_raw_peer(a, id(2));
    let theirs = PeerKey::exchanged_from_shared_secret_and_raw_peer(b, id(1));
    let mut buffer = vec![0u8; 100];
    let written = ours.aead_encrypt(b"some text", &mut buffer);
    assert_eq!(written, NONCE_LEN + 9 + TAG_LEN);
    assert!(buffer[written..].iter().all(|b| *b == 0));
    assert!(!buffer[..written].windows(9).any(|w| w == b"some text"));
    let (from, text) = theirs.aead_decrypt(&buffer[..written]).unwrap();
    assert!(from == id(1));
    assert_eq!(text, b"some text".to_vec());
}

#[test]
fn a_fixed_nonce_leads_the_sealed_text() {
    let (a, _) = shared_pair();
    let key = PeerKey::exchanged_from_shared_secret_and_raw_peer(a, id(2));
    let nonce = [7u8; 24];
    let mut one = vec![0u8; 60];
    let mut two = vec![0u8; 60];
    let n = key.fixed_nonce_aead_encrypt(&nonce, b"abc", &mut one);
    assert_eq!(n, 43);
    assert_eq!(one[..24], nonce);
    key.fixed_nonce_aead_encrypt(&nonce, b"abc", &mut two);
    assert_eq!(one, two);
}

#[test]
fn a_broken_seal_does_not_open() {
    let (a, b) = shared_pair();
    let key = PeerKey::exchanged_from_shared_secret_and_raw_peer(a, id(2));
    let other = PeerKey::exchanged_from_shared_secret_and_raw_peer(b, id(2));
    let mut buffer = vec![0u8; 60];
    let n = key.aead_encrypt(b"abc", &mut buffer);
    buffer[n - 1] ^= 1;
    assert!(other.aead_decrypt(&buffer[..n]).is_none());
    assert!(other.aead_decrypt(&buffer[..23]).is_none());
    let (c, _) = shared_pair();
    let stranger = PeerKey::exchanged_from_shared_secret_and_raw_peer(c, id(2));
    buffer[n - 1] ^= 1;
    assert!(stranger.aead_decrypt(&buffer[..n]).is_none());
    assert!(other.aead_decrypt(&buffer[..n]).is_some());
}

#[test]
fn nothing_is_sealed_before_the_exchange() {
    let (secret, _) = HandshakeSecret::generate();
    let key = PeerKey::Inflight(secret);
    let mut buffer = vec![5u8; 60];
    assert_eq!(key.aead_encrypt(b"abc", &mut buffer), 0);
    assert_eq!(buffer, vec![5u8; 60]);
    assert!(key.aead_decrypt(&[0; 60]).is_none());
}

#[test]
fn a_sealed_greeting_proves_the_peer() {
    let (a, b) = shared_pair();
    let answerer = PeerKey::exchanged_from_shared_secret_and_raw_peer(a, id(1));
    let mut buffer = vec![0u8; 100];
    let n = answerer.aead_encrypt(&greet(id(2)), &mut buffer);
    let (peer, key) =
        PeerKey::exchanged_from_shared_secret_and_encrypted_handshake(b.clone(), &buffer[..n]).unwrap();
    assert!(peer == id(2));
    assert!(matches!(key, PeerKey::Exchanged(_)));
    let m = answerer.aead_encrypt(b"no greeting", &mut buffer);
    assert!(PeerKey::exchanged_from_shared_secret_and_encrypted_handshake(b, &buffer[..m]).is_none());
}

#[test]
fn handshake_payloads_have_their_layout() {
    let (secret, point) = HandshakeSecret::generate();
    let open = opening(id(3), &point);
    assert_eq!(open.len(), 14 + POINT_LEN);
    assert_eq!(open[..5], *b"hello");
    assert_eq!(open[14..], point[..]);
    let (other, other_point) = HandshakeSecret::generate();
    let key = PeerKey::exchanged_from_shared_secret_and_raw_peer(other.agree(&point).unwrap(), id(3));
    let answer = answering(&key, &[1u8; 24], id(4), &other_point);
    assert_eq!(answer.len(), 8 + 54 + POINT_LEN);
    assert_eq!(answer[..8], [0, 0, 0, 0, 0, 0, 0, 54]);
    assert_eq!(answer[62..], other_point[..]);
    let shared = secret.agree(&answer[62..]).unwrap();
    let (peer, _) =
        PeerKey::exchanged_from_shared_secret_and_encrypted_handshake(shared, &answer[8..62]).unwrap();
    assert!(peer == id(4));
}

#[test]
fn a_fresh_connection_is_empty() {
    let c = PeerConnectionData::created_at(&at(500_000_000));
    assert!(c.exchanged_key.is_none());
    assert_eq!(c.active_messages.len(), 256);
    assert!(c.active_messages.iter().all(|m| m.0 == 0 && m.1.len() == 65_535));
    assert_eq!(c.recent_received_messages.len(), 256);
    assert_eq!(c.recent_received_messages[0].0, at(200_000_000));
    assert!(c.recent_received_messages[255].1.is_empty());
    assert_eq!(c.next_transmission_number, 0);
}

#[test]
fn transmission_numbers_wrap() {
    let mut c = PeerConnectionData::default();
    assert_eq!(c.alloc_transmission_number(), 1);
    for _ in 0..254 {
        c.alloc_transmission_number();
    }
    assert_eq!(c.next_transmission_number, 255);
    assert_eq!(c.alloc_transmission_number(), 0);
}

#[test]
fn repetitions_are_debounced() {
    let mut c = PeerConnectionData::created_at(&at(0));
    assert!(!c.recently_received_at(3, vec![1], &at(0)));
    assert!(c.recently_received_at(3, vec![1], &at(100_000_000)));
    assert!(!c.recently_received_at(3, vec![1], &at(100_000_001)));
    assert!(!c.recently_received_at(3, vec![2], &at(100_000_002)));
    assert!(!c.recently_received_at(4, vec![2], &at(100_000_002)));
}

#[test]
fn repetitions_are_debounced_by_the_clock() {
    let mut c = PeerConnectionData::default();
    let isynt = SynapseTransmission {
        kind: SynapseTransmissionKind::KnownPacket,
        transmission_number: 9,
        bytes: vec![],
    };
    assert!(!c.recently_received(&isynt, vec![7]));
    assert!(!c.recently_received(&isynt, vec![8]));
}

#[test]
fn a_clear_transmission_is_written_as_it_is() {
    let mut c = PeerConnectionData::default();
    c.write_synapse_transmission(false, 32, &[9, 8, 7]);
    assert_eq!(c.active_messages[1].0, 5);
    assert_eq!(c.active_messages[1].1[..6], [32, 1, 9, 8, 7, 0]);
    c.write_synapse_transmission(false, 32, &vec![1u8; 70_000]);
    assert_eq!(c.active_messages[2].0, 65_535);
}

#[test]
fn a_sealed_transmission_waits_for_a_key() {
    let mut c = PeerConnectionData::default();
    c.write_synapse_transmission(true, 96, &[9]);
    assert_eq!(c.active_messages[1].0, 0);
    assert_eq!(c.active_messages[1].1[..2], [96, 1]);
    let (secret, _) = HandshakeSecret::generate();
    c.exchanged_key = Some(PeerKey::Inflight(secret));
    c.write_synapse_transmission(true, 96, &[9]);
    assert_eq!(c.active_messages[2].0, 2);
    assert!(c.decrypt(&[0; 50]).is_none());
    let (a, b) = shared_pair();
    c.exchanged_key = Some(PeerKey::exchanged_from_shared_secret_and_raw_peer(a, id(5)));
    c.write_synapse_transmission(true, 96, &[9]);
    assert_eq!(c.active_messages[3].0, 2 + 24 + 1 + 16);
    let mut there = PeerConnectionData::default();
    there.exchanged_key = Some(PeerKey::exchanged_from_shared_secret_and_raw_peer(b, id(6)));
    let sent = &c.active_messages[3].1[2..43];
    let (from, text) = there.decrypt(sent).unwrap();
    assert!(from == id(6));
    assert_eq!(text, vec![9]);
}

#[test]
fn an_acknowledged_slot_is_free() {
    let mut c = PeerConnectionData::default();
    c.write_synapse_transmission(false, 32, &[9, 8, 7]);
    c.write_synapse_transmission(false, 32, &[6]);
    c.acknowledge(1);
    assert_eq!(c.active_messages[1].0, 0);
    assert_eq!(c.active_messages[2].0, 3);
}
