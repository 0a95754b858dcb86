//! The two payloads of a handshake.
//!
//! ```text
//! initiate: [5 bytes; hello][9 bytes; client id][remainder; public point]
//! response: [8 bytes; len][len bytes; sealed greeting][remainder; public point]
//! ```

use vstd::prelude::*;

use super::client_id::{id_is_its_bytes, id_with_bytes, ClientId};
use super::peer::{
    exchanged, greet, greeting_from, greeting_is_recognised, is_greeting, opened_text, sealed_text,
    KeyModel, PeerKey, GREETING_LEN,
};
use crate::crypto::{hkdf_key, p256_agreement, NONCE_LEN};
use crate::wire::{self, be_bytes, be_value};

verus! {

/// Bytes of a greeting with a client's id.
pub const INTRODUCTION_LEN: usize = 14;

/// Bytes of a sealed greeting, its nonce among them.
pub const SEALED_INTRODUCTION_LEN: usize = 54;

/// The payload that opens a handshake.
pub open spec fn initiate_bytes(own: ClientId, point: Seq<u8>) -> Seq<u8> {
    greeting_from(own) + point
}

/// The client that opens a handshake.
pub open spec fn initiate_peer(payload: Seq<u8>) -> ClientId {
    id_with_bytes(payload.subrange(GREETING_LEN as int, INTRODUCTION_LEN as int))
}

/// The public point of the client that opens a handshake.
pub open spec fn initiate_point(payload: Seq<u8>) -> Seq<u8> {
    payload.subrange(INTRODUCTION_LEN as int, payload.len() as int)
}

/// What opens a handshake names who sent it and its public point.
pub proof fn initiate_is_read_back(own: ClientId, point: Seq<u8>)
    ensures
        initiate_bytes(own, point).len() == INTRODUCTION_LEN + point.len(),
        initiate_peer(initiate_bytes(own, point)) == own,
        initiate_point(initiate_bytes(own, point)) == point,
{
    own.nine_bytes();
    let all = initiate_bytes(own, point);
    assert(all.subrange(5, 14) =~= own.bytes());
    assert(all.subrange(14, all.len() as int) =~= point);
    id_is_its_bytes(own);
}

/// Writes the payload that opens a handshake.
pub fn opening(own: ClientId, point: &[u8]) -> (payload: Vec<u8>)
    ensures
        payload@ == initiate_bytes(own, point@),
{
    let mut payload = greet(own);
    wire::push_all(&mut payload, point);
    payload
}

/// The payload that answers a handshake.
pub open spec fn response_bytes(
    key: KeyModel,
    nonce: Seq<u8>,
    own: ClientId,
    point: Seq<u8>,
) -> Seq<u8> {
    let sealed = sealed_text(key, nonce, greeting_from(own));
    be_bytes(sealed.len() as u64) + sealed + point
}

/// Whether an answer holds as much sealed text as it announces.
pub open spec fn response_is_whole(payload: Seq<u8>) -> bool {
    payload.len() >= 8 && 8 + be_value(payload) <= payload.len()
}

/// The sealed greeting of an answer.
pub open spec fn response_sealed(payload: Seq<u8>) -> Seq<u8> {
    payload.subrange(8, 8 + be_value(payload))
}

/// The public point of an answer.
pub open spec fn response_point(payload: Seq<u8>) -> Seq<u8> {
    payload.subrange(8 + be_value(payload), payload.len() as int)
}

/// Who answers the owner of a secret scalar, and the key that both now share;
/// `None` where the answer proves nothing.
pub open spec fn response_answer(scalar: Seq<u8>, payload: Seq<u8>) -> Option<
    (ClientId, KeyModel),
> {
    let shared = p256_agreement(scalar, response_point(payload));
    match opened_text(hkdf_key(shared), response_sealed(payload)) {
        Some(text) => if is_greeting(text) {
            let id = id_with_bytes(text.subrange(GREETING_LEN as int, text.len() as int));
            Some((id, exchanged(shared, id)))
        } else {
            None
        },
        None => None,
    }
}

/// An answer is taken apart into what it was made of, and the owner of a
/// scalar that agrees on the same secret learns from it who answered and has
/// the same key.
pub proof fn response_is_read_back(
    shared: Seq<u8>,
    peer: ClientId,
    nonce: Seq<u8>,
    own: ClientId,
    point: Seq<u8>,
    scalar: Seq<u8>,
)
    requires
        sealed_text(exchanged(shared, peer), nonce, greeting_from(own)).len()
            == SEALED_INTRODUCTION_LEN,
        opened_text(
            hkdf_key(shared),
            sealed_text(exchanged(shared, peer), nonce, greeting_from(own)),
        ) == Some(greeting_from(own)),
        p256_agreement(scalar, point) == shared,
    ensures
        response_is_whole(response_bytes(exchanged(shared, peer), nonce, own, point)),
        response_point(response_bytes(exchanged(shared, peer), nonce, own, point)) == point,
        response_answer(scalar, response_bytes(exchanged(shared, peer), nonce, own, point))
            == Some((own, exchanged(shared, own))),
{
    let sealed = sealed_text(exchanged(shared, peer), nonce, greeting_from(own));
    let all = response_bytes(exchanged(shared, peer), nonce, own, point);
    wire::be_read_of_write(SEALED_INTRODUCTION_LEN as u64);
    assert(be_bytes(SEALED_INTRODUCTION_LEN as u64).len() == 8);
    assert(be_value(all) == be_value(be_bytes(SEALED_INTRODUCTION_LEN as u64)));
    assert(response_sealed(all) =~= sealed);
    assert(response_point(all) =~= point);
    greeting_is_recognised(own);
    id_is_its_bytes(own);
}

/// Writes the payload that answers a handshake.
pub fn answering(key: &PeerKey, nonce: &[u8], own: ClientId, point: &[u8]) -> (payload: Vec<u8>)
    requires
        key@ is Exchanged,
        nonce@.len() == NONCE_LEN,
    ensures
        payload@ == response_bytes(key@, nonce@, own, point@),
        sealed_text(key@, nonce@, greeting_from(own)).len() == SEALED_INTRODUCTION_LEN,
        opened_text(key@->key, sealed_text(key@, nonce@, greeting_from(own))) == Some(
            greeting_from(own),
        ),
{
    let introduction = greet(own);
    proof {
        own.nine_bytes();
    }
    let mut sealed: Vec<u8> = vec![0u8; SEALED_INTRODUCTION_LEN];
    let written = key.fixed_nonce_aead_encrypt(
        nonce,
        introduction.as_slice(),
        sealed.as_mut_slice(),
    );
    assert(sealed@ =~= sealed_text(key@, nonce@, greeting_from(own)));
    let mut payload: Vec<u8> = Vec::new();
    wire::push_be_u64(&mut payload, written as u64);
    wire::push_all(&mut payload, sealed.as_slice());
    wire::push_all(&mut payload, point);
    assert(payload@ =~= response_bytes(key@, nonce@, own, point@));
    payload
}

/// An opening is `hello`, who opens, and the public point, byte by byte.
pub proof fn an_opening_is_hello_the_id_and_the_point(own: ClientId, point: Seq<u8>)
    ensures
        initiate_bytes(own, point) == seq![104u8, 101u8, 108u8, 108u8, 111u8] + own.bytes()
            + point,
{
}

/// An opening names whoever's nine bytes stand behind the first five, and what
/// is left behind them is the point.
pub proof fn an_opening_names_its_sender(payload: Seq<u8>, id: ClientId)
    requires
        payload.len() >= 14,
        payload.subrange(5, 14) == id.bytes(),
    ensures
        initiate_peer(payload) == id,
        initiate_point(payload) == payload.skip(14),
{
    id_is_its_bytes(id);
    assert(initiate_point(payload) =~= payload.skip(14));
}

/// An answer is the length of the sealed greeting in eight bytes, the sealed
/// greeting, and the public point; as much as the length says is sealed, and
/// the point is what is left.
pub proof fn an_answer_is_taken_apart_by_its_length(sealed: Seq<u8>, point: Seq<u8>)
    requires
        sealed.len() <= u64::MAX,
    ensures
        ({
            let payload = be_bytes(sealed.len() as u64) + sealed + point;
            &&& response_is_whole(payload)
            &&& response_sealed(payload) == sealed
            &&& response_point(payload) == point
            &&& forall|cut: int|
                0 <= cut < 8 + sealed.len() ==> !response_is_whole(#[trigger] payload.take(cut))
        }),
{
    let payload = be_bytes(sealed.len() as u64) + sealed + point;
    wire::be_read_of_write(sealed.len() as u64);
    let head = be_bytes(sealed.len() as u64);
    assert(head.len() == 8);
    assert(be_value(payload) == be_value(head));
    assert(response_sealed(payload) =~= sealed);
    assert(response_point(payload) =~= point);
    assert forall|cut: int| 0 <= cut < 8 + sealed.len() implies !response_is_whole(
        #[trigger] payload.take(cut),
    ) by {
        if cut >= 8 {
            assert(be_value(payload.take(cut)) == be_value(payload));
        }
    }
}

/// An answer proves who it is from exactly where its seal opens, under the key
/// that the two points agree on, to `hello` and an id; the key is then the
/// answerer's.
pub proof fn an_answer_proves_who_it_is_from(
    scalar: Seq<u8>,
    sealed: Seq<u8>,
    point: Seq<u8>,
    id: ClientId,
)
    requires
        sealed.len() <= u64::MAX,
    ensures
        ({
            let payload = be_bytes(sealed.len() as u64) + sealed + point;
            let shared = p256_agreement(scalar, point);
            let text = opened_text(hkdf_key(shared), sealed);
            &&& text == Some(seq![104u8, 101u8, 108u8, 108u8, 111u8] + id.bytes())
                ==> response_answer(scalar, payload) == Some(
                (
                    id,
                    KeyModel::Exchanged { peer_id: id, secret: shared, key: hkdf_key(shared) },
                ),
            )
            &&& text is None ==> response_answer(scalar, payload) is None
            &&& text matches Some(t) ==> t.len() != 14 || t.take(5) != seq![
                104u8,
                101u8,
                108u8,
                108u8,
                111u8,
            ] ==> response_answer(scalar, payload) is None
        }),
{
    let payload = be_bytes(sealed.len() as u64) + sealed + point;
    an_answer_is_taken_apart_by_its_length(sealed, point);
    let shared = p256_agreement(scalar, point);
    greeting_is_recognised(id);
    id_is_its_bytes(id);
    if let Some(t) = opened_text(hkdf_key(shared), sealed) {
        if t.len() == 14 {
            assert(t.take(5) =~= t.subrange(0, 5));
        }
    }
}

} // verus!
