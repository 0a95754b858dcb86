use glia::clock;
use glia::netting::client_id::{ClientId, CLIENT_ID_LEN};

#[test]
fn an_id_is_its_stamp_and_chance() {
    let id = ClientId::stamped(0x0102_0304_0506_0708, 0xfe);
    assert_eq!(id.to_bytes(), vec![1, 2, 3, 4, 5, 6, 7, 8, 0xfe]);
}

#[test]
fn a_stamp_before_the_epoch_is_sent_in_twos_complement() {
    let id = ClientId::stamped(-1, 0);
    assert_eq!(id.to_bytes(), vec![255, 255, 255, 255, 255, 255, 255, 255, 0]);
}

#[test]
fn a_fresh_id_is_of_now() {
    let before = clock::now().millis();
    let id = ClientId::gen();
    let after = clock::now().millis();
    let bytes = id.to_bytes();
    assert_eq!(bytes.len(), CLIENT_ID_LEN);
    let stamp = i64::from_be_bytes([
        bytes[0], bytes[1], bytes[2], bytes[3], bytes[4], bytes[5], bytes[6], bytes[7],
    ]);
    assert!(before <= stamp && stamp <= after);
}

#[test]
fn chance_differs_between_ids() {
    let mut seen = Vec::new();
    for _ in 0..200 {
        let last = ClientId::gen().to_bytes()[8];
        if !seen.contains(&last) {
            seen.push(last);
        }
    }
    assert!(seen.len() > 10);
}

#[test]
fn only_nine_bytes_are_an_id() {
    assert!(ClientId::from_bytes(&[1; 8]).is_none());
    assert!(ClientId::from_bytes(&[1; 10]).is_none());
    let id = ClientId::from_bytes(&[1, 2, 3, 4, 5, 6, 7, 8, 9]).unwrap();
    assert_eq!(id.to_bytes(), vec![1, 2, 3, 4, 5, 6, 7, 8, 9]);
    assert!(id == ClientId::from_bytes(&[1, 2, 3, 4, 5, 6, 7, 8, 9]).unwrap());
    assert!(id != ClientId::from_bytes(&[1, 2, 3, 4, 5, 6, 7, 8, 8]).unwrap());
}

#[test]
fn ids_rank_as_their_bytes() {
    let a = ClientId::from_bytes(&[0, 0, 0, 0, 0, 0, 0, 1, 255]).unwrap();
    let b = ClientId::from_bytes(&[0, 0, 0, 0, 0, 0, 0, 2, 0]).unwrap();
    assert!(a.ranks_before(&b));
    assert!(!b.ranks_before(&a));
    assert!(!a.ranks_before(&a));
    assert!(a.to_bytes() < b.to_bytes());
}
