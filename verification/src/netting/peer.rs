//! One peer: the key that is shared with it, and the transmissions to and from
//! it that are still of interest.

use vstd::prelude::*;

use super::client_id::{ClientId, CLIENT_ID_LEN};
use super::message::MAX_UDP_DG_SIZE;
use super::synapse::SynapseTransmission;
use crate::clock::{self, Timestamp};
use crate::crypto::{
    self, hkdf_key, opt_view, p256_agreement, p256_point, p256_public, xchacha_open, xchacha_seal,
    KEY_LEN, MAX_SEALED_LEN, NONCE_LEN, POINT_LEN, TAG_LEN,
};
use crate::wire;

verus! {

/// Transmissions that can be under way to one peer at a time.
pub const MAX_ACTIVE_MESSAGES: usize = 256;

/// Bytes of the greeting.
pub const GREETING_LEN: usize = 5;

/// A transmission is a repetition only within this many nanoseconds.
pub const DEBOUNCE_NANOS: i128 = 100_000_000;

/// The bytes `hello`, which open every handshake.
pub open spec fn greeting() -> Seq<u8> {
    seq![104u8, 101u8, 108u8, 108u8, 111u8]
}

/// The greeting's bytes.
pub fn greeting_bytes() -> (bytes: Vec<u8>)
    ensures
        bytes@ == greeting(),
{
    let bytes: Vec<u8> = vec![104, 101, 108, 108, 111];
    assert(bytes@ =~= greeting());
    bytes
}

/// A greeting, then the id of the client that greets.
pub open spec fn greeting_from(id: ClientId) -> Seq<u8> {
    greeting() + id.bytes()
}

/// Whether a text is a greeting with a client's id and nothing else.
pub open spec fn is_greeting(text: Seq<u8>) -> bool {
    text.len() == GREETING_LEN + CLIENT_ID_LEN && text.subrange(0, GREETING_LEN as int)
        == greeting()
}

/// A greeting is recognised, and names who greets.
pub proof fn greeting_is_recognised(id: ClientId)
    ensures
        is_greeting(greeting_from(id)),
        greeting_from(id).subrange(GREETING_LEN as int, greeting_from(id).len() as int)
            == id.bytes(),
{
    id.nine_bytes();
    assert(greeting_from(id).subrange(0, 5) =~= greeting());
    assert(greeting_from(id).subrange(5, 14) =~= id.bytes());
}

/// The greeting of a client.
pub fn greet(id: ClientId) -> (text: Vec<u8>)
    ensures
        text@ == greeting_from(id),
{
    let mut text = greeting_bytes();
    let bytes = id.to_bytes();
    wire::push_all(&mut text, bytes.as_slice());
    text
}

/// The client that greets; `None` where the text is no greeting.
pub fn greeted_by(text: &[u8]) -> (id: Option<ClientId>)
    ensures
        id is Some <==> is_greeting(text@),
        id matches Some(i) ==> i.bytes() == text@.subrange(
            GREETING_LEN as int,
            text@.len() as int,
        ),
{
    if text.len() != GREETING_LEN + CLIENT_ID_LEN {
        return None;
    }
    let head = wire::copy_range(text, 0, GREETING_LEN);
    let expected = greeting_bytes();
    if !wire::same_bytes(head.as_slice(), expected.as_slice()) {
        return None;
    }
    let id = wire::copy_range(text, GREETING_LEN, text.len());
    ClientId::from_bytes(id.as_slice())
}

/// The key that is shared with a peer, as plain values.
pub enum KeyModel {
    Inflight(Seq<u8>),
    Exchanged { peer_id: ClientId, secret: Seq<u8>, key: Seq<u8> },
}

/// The exchanged key of a shared secret.
pub open spec fn exchanged(secret: Seq<u8>, peer_id: ClientId) -> KeyModel {
    KeyModel::Exchanged { peer_id, secret, key: hkdf_key(secret) }
}

/// What a text becomes on its way to the peer: nonce and sealed text, or
/// nothing before the key is exchanged.
pub open spec fn sealed_text(key: KeyModel, nonce: Seq<u8>, text: Seq<u8>) -> Seq<u8> {
    match key {
        KeyModel::Inflight(_) => Seq::empty(),
        KeyModel::Exchanged { peer_id, secret, key } => nonce + xchacha_seal(key, nonce, text),
    }
}

/// The text under a nonce and a seal; `None` where a nonce is missing or the
/// seal does not hold.
pub open spec fn opened_text(key: Seq<u8>, sealed: Seq<u8>) -> Option<Seq<u8>> {
    if sealed.len() < NONCE_LEN {
        None
    } else {
        xchacha_open(
            key,
            sealed.subrange(0, NONCE_LEN as int),
            sealed.subrange(NONCE_LEN as int, sealed.len() as int),
        )
    }
}

/// `buffer` with `bytes` written over its start.
pub open spec fn overlaid(buffer: Seq<u8>, bytes: Seq<u8>) -> Seq<u8> {
    bytes + buffer.subrange(bytes.len() as int, buffer.len() as int)
}

/// Writes `bytes` over the start of `buffer`.
fn overlay(buffer: &mut [u8], bytes: &[u8])
    requires
        bytes@.len() <= old(buffer)@.len(),
    ensures
        final(buffer)@ == overlaid(old(buffer)@, bytes@),
{
    let ghost before = buffer@;
    let mut i: usize = 0;
    while i < bytes.len()
        invariant
            i <= bytes@.len() <= before.len(),
            buffer@.len() == before.len(),
            forall|j: int| 0 <= j < i ==> buffer@[j] == bytes@[j],
            forall|j: int| i <= j < before.len() ==> buffer@[j] == before[j],
        decreases bytes@.len() - i,
    {
        buffer[i] = bytes[i];
        i += 1;
    }
    assert(buffer@ =~= overlaid(before, bytes@));
}

/// The secret of a handshake that was opened and is unanswered.
pub struct HandshakeSecret {
    scalar: Vec<u8>,
}

impl HandshakeSecret {
    /// The secret scalar.
    pub closed spec fn scalar(self) -> Seq<u8> {
        self.scalar@
    }

    #[verifier::type_invariant]
    spec fn has_public_point(self) -> bool {
        p256_public(self.scalar@) is Some
    }

    /// A fresh secret, with its public point.
    pub fn generate() -> (minted: (Self, Vec<u8>))
        ensures
            p256_public(minted.0.scalar()) == Some(minted.1@),
            minted.1@.len() == POINT_LEN,
            p256_point(minted.1@),
    {
        let secret = HandshakeSecret { scalar: crypto::random_scalar() };
        let point = secret.public();
        (secret, point)
    }

    /// The public point of the secret.
    pub fn public(&self) -> (point: Vec<u8>)
        ensures
            p256_public(self.scalar()) == Some(point@),
            point@.len() == POINT_LEN,
            p256_point(point@),
    {
        proof {
            use_type_invariant(self);
        }
        match crypto::public_point(self.scalar.as_slice()) {
            Some(point) => point,
            None => Vec::new(),
        }
    }

    /// The secret that is shared with the owner of a public point; `None`
    /// where the bytes are no point. The owner of the point agrees on the same
    /// secret from this one's public point.
    pub fn agree(&self, point: &[u8]) -> (shared: Option<Vec<u8>>)
        ensures
            shared is Some <==> p256_point(point@),
            shared matches Some(s) ==> {
                &&& s@ == p256_agreement(self.scalar(), point@)
                &&& s@.len() == KEY_LEN
                &&& forall|other: Seq<u8>| #[trigger]
                    p256_public(other) == Some(point@) ==> s@ == p256_agreement(
                        other,
                        p256_public(self.scalar())->0,
                    )
            },
    {
        proof {
            use_type_invariant(self);
        }
        if crypto::is_point(point) {
            Some(crypto::agree(self.scalar.as_slice(), point))
        } else {
            None
        }
    }
}

/// The secret that is agreed with a peer, and the sealing key that is derived
/// from it.
pub struct SessionKey {
    peer_id: ClientId,
    secret: Vec<u8>,
    key: Vec<u8>,
}

impl SessionKey {
    /// The peer at the other end.
    pub closed spec fn peer(self) -> ClientId {
        self.peer_id
    }

    /// The agreed secret.
    pub closed spec fn shared(self) -> Seq<u8> {
        self.secret@
    }

    /// The key that texts are sealed under.
    pub closed spec fn sealing_key(self) -> Seq<u8> {
        self.key@
    }

    /// The peer at the other end.
    pub fn peer_id(&self) -> (id: ClientId)
        ensures
            id == self.peer(),
    {
        self.peer_id
    }

    #[verifier::type_invariant]
    spec fn is_derived(self) -> bool {
        &&& self.key@.len() == KEY_LEN
        &&& self.key@ == hkdf_key(self.secret@)
    }
}

/// The state of the key exchange with a peer.
pub enum PeerKey {
    Inflight(HandshakeSecret),
    Exchanged(SessionKey),
}

impl View for PeerKey {
    type V = KeyModel;

    open spec fn view(&self) -> KeyModel {
        match *self {
            PeerKey::Inflight(secret) => KeyModel::Inflight(secret.scalar()),
            PeerKey::Exchanged(session) => KeyModel::Exchanged {
                peer_id: session.peer(),
                secret: session.shared(),
                key: session.sealing_key(),
            },
        }
    }
}

impl PeerKey {
    /// The key of a shared secret, for a peer whose id came in the clear.
    pub fn exchanged_from_shared_secret_and_raw_peer(
        shared_secret: Vec<u8>,
        peer_id: ClientId,
    ) -> (k: Self)
        requires
            shared_secret@.len() == KEY_LEN,
        ensures
            k@ == exchanged(shared_secret@, peer_id),
    {
        let key = crypto::derive_key(shared_secret.as_slice());
        PeerKey::Exchanged(SessionKey { peer_id, secret: shared_secret, key })
    }

    /// The key of a shared secret, for a peer that proves it with a sealed
    /// greeting; `None` where the seal does not hold or hides no greeting.
    pub fn exchanged_from_shared_secret_and_encrypted_handshake(
        shared_secret: Vec<u8>,
        encrypted_handshake: &[u8],
    ) -> (k: Option<(ClientId, Self)>)
        requires
            shared_secret@.len() == KEY_LEN,
            encrypted_handshake@.len() <= MAX_SEALED_LEN,
        ensures
            k is Some <==> (opened_text(hkdf_key(shared_secret@), encrypted_handshake@) is Some
                && is_greeting(opened_text(hkdf_key(shared_secret@), encrypted_handshake@)->0)),
            k matches Some((id, key)) ==> {
                let text = opened_text(hkdf_key(shared_secret@), encrypted_handshake@)->0;
                &&& id.bytes() == text.subrange(GREETING_LEN as int, text.len() as int)
                &&& key@ == exchanged(shared_secret@, id)
            },
    {
        let key = crypto::derive_key(shared_secret.as_slice());
        match Self::fixed_key_aead_decrypt(key.as_slice(), encrypted_handshake) {
            None => None,
            Some(text) => match greeted_by(text.as_slice()) {
                None => None,
                Some(peer_id) => Some(
                    (
                        peer_id,
                        PeerKey::Exchanged(SessionKey { peer_id, secret: shared_secret, key }),
                    ),
                ),
            },
        }
    }

    /// Seals a text under the given nonce and writes both to the start of the
    /// buffer. Returns how much was written, which is nothing before the key
    /// is exchanged. Whoever holds the same key opens what was written to the
    /// text.
    pub fn fixed_nonce_aead_encrypt(
        &self,
        aead_nonce: &[u8],
        cleartext: &[u8],
        buffer: &mut [u8],
    ) -> (written: usize)
        requires
            self@ is Exchanged ==> {
                &&& aead_nonce@.len() == NONCE_LEN
                &&& cleartext@.len() <= MAX_SEALED_LEN
                &&& NONCE_LEN + TAG_LEN + cleartext@.len() <= old(buffer)@.len()
            },
        ensures
            written == sealed_text(self@, aead_nonce@, cleartext@).len(),
            final(buffer)@ == overlaid(
                old(buffer)@,
                sealed_text(self@, aead_nonce@, cleartext@),
            ),
            self@ is Exchanged ==> {
                &&& written == NONCE_LEN + TAG_LEN + cleartext@.len()
                &&& opened_text(
                    self@->key,
                    sealed_text(self@, aead_nonce@, cleartext@),
                ) == Some(cleartext@)
            },
    {
        match self {
            PeerKey::Inflight(_) => {
                assert(self@ is Inflight);
                assert(buffer@ =~= overlaid(buffer@, Seq::<u8>::empty()));
                0
            },
            PeerKey::Exchanged(session) => {
                proof {
                    use_type_invariant(session);
                }
                let sealed = crypto::seal(session.key.as_slice(), aead_nonce, cleartext);
                let mut written: Vec<u8> = Vec::new();
                wire::push_all(&mut written, aead_nonce);
                wire::push_all(&mut written, sealed.as_slice());
                proof {
                    let all = sealed_text(self@, aead_nonce@, cleartext@);
                    assert(written@ =~= all);
                    assert(all.subrange(0, 24) =~= aead_nonce@);
                    assert(all.subrange(24, all.len() as int) =~= sealed@);
                }
                overlay(buffer, written.as_slice());
                written.len()
            },
        }
    }

    /// Seals a text under a fresh nonce, as `fixed_nonce_aead_encrypt` does.
    pub fn aead_encrypt(&self, cleartext: &[u8], buffer: &mut [u8]) -> (written: usize)
        requires
            self@ is Exchanged ==> {
                &&& cleartext@.len() <= MAX_SEALED_LEN
                &&& NONCE_LEN + TAG_LEN + cleartext@.len() <= old(buffer)@.len()
            },
        ensures
            exists|nonce: Seq<u8>|
                {
                    &&& nonce.len() == NONCE_LEN
                    &&& written == (#[trigger] sealed_text(self@, nonce, cleartext@)).len()
                    &&& final(buffer)@ == overlaid(
                        old(buffer)@,
                        sealed_text(self@, nonce, cleartext@),
                    )
                    &&& self@ is Exchanged ==> opened_text(
                        self@->key,
                        sealed_text(self@, nonce, cleartext@),
                    ) == Some(cleartext@)
                },
            self@ is Exchanged ==> written == NONCE_LEN + TAG_LEN + cleartext@.len(),
    {
        let nonce = crypto::random_nonce();
        let written = self.fixed_nonce_aead_encrypt(nonce.as_slice(), cleartext, buffer);
        assert(nonce@.len() == NONCE_LEN && written == sealed_text(
            self@,
            nonce@,
            cleartext@,
        ).len());
        written
    }

    /// Opens a nonce and a sealed text.
    pub fn fixed_key_aead_decrypt(key: &[u8], ciphertext: &[u8]) -> (text: Option<Vec<u8>>)
        requires
            key@.len() == KEY_LEN,
            ciphertext@.len() <= MAX_SEALED_LEN,
        ensures
            opt_view(text) == opened_text(key@, ciphertext@),
    {
        if ciphertext.len() < NONCE_LEN {
            return None;
        }
        let nonce = wire::copy_range(ciphertext, 0, NONCE_LEN);
        let sealed = wire::copy_range(ciphertext, NONCE_LEN, ciphertext.len());
        crypto::open_sealed(key, nonce.as_slice(), sealed.as_slice())
    }

    /// Opens what the peer sealed, and says which peer it is; `None` before
    /// the key is exchanged or where the seal does not hold.
    pub fn aead_decrypt(&self, ciphertext: &[u8]) -> (out: Option<(ClientId, Vec<u8>)>)
        requires
            ciphertext@.len() <= MAX_SEALED_LEN,
        ensures
            match (self@, out) {
                (KeyModel::Inflight(_), o) => o is None,
                (KeyModel::Exchanged { peer_id, secret, key }, Some((id, text))) => {
                    &&& id == peer_id
                    &&& opened_text(key, ciphertext@) == Some(text@)
                },
                (KeyModel::Exchanged { peer_id, secret, key }, None) => opened_text(
                    key,
                    ciphertext@,
                ) is None,
            },
    {
        match self {
            PeerKey::Inflight(_) => None,
            PeerKey::Exchanged(session) => {
                proof {
                    use_type_invariant(session);
                }
                match Self::fixed_key_aead_decrypt(session.key.as_slice(), ciphertext) {
                    Some(text) => Some((session.peer_id, text)),
                    None => None,
                }
            },
        }
    }
}

/// One peer's connection, as plain values.
pub struct ConnModel {
    pub key: Option<KeyModel>,
    /// By transmission number: how much of the buffer is to be sent, and the
    /// buffer.
    pub active: Seq<(usize, Seq<u8>)>,
    /// By transmission number: when something was last received under it, and
    /// the digest of that.
    pub recents: Seq<(int, Seq<u8>)>,
    pub next: u8,
}

impl ConnModel {
    /// Every number has its slot, and every slot a full buffer.
    pub open spec fn wf(self) -> bool {
        &&& self.active.len() == MAX_ACTIVE_MESSAGES
        &&& self.recents.len() == MAX_ACTIVE_MESSAGES
        &&& forall|i: int|
            0 <= i < self.active.len() ==> (#[trigger] self.active[i]).0 <= MAX_UDP_DG_SIZE
                && self.active[i].1.len() == MAX_UDP_DG_SIZE
    }

    /// What is to be sent under a number; nothing where the slot is free.
    pub open spec fn pending(self, number: int) -> Seq<u8> {
        self.active[number].1.subrange(0, self.active[number].0 as int)
    }

    /// The number of the next transmission.
    pub open spec fn number_after(self) -> u8 {
        ((self.next + 1) % 256) as u8
    }

    /// Whether something is a repetition: the same digest under the same
    /// number within the debounce period.
    pub open spec fn heard(self, number: int, checksum: Seq<u8>, now: int) -> bool {
        now - self.recents[number].0 <= DEBOUNCE_NANOS && self.recents[number].1 == checksum
    }

    /// The connection after something was received: what is no repetition is
    /// remembered.
    pub open spec fn hearing(self, number: int, checksum: Seq<u8>, now: int) -> ConnModel {
        if self.heard(number, checksum, now) {
            self
        } else {
            ConnModel { recents: self.recents.update(number, (now, checksum)), ..self }
        }
    }

    /// What follows the two leading bytes of a transmission.
    pub open spec fn body(self, encrypted: bool, bytes: Seq<u8>, nonce: Seq<u8>) -> Seq<u8> {
        if !encrypted {
            if bytes.len() <= MAX_UDP_DG_SIZE - 2 {
                bytes
            } else {
                bytes.subrange(0, MAX_UDP_DG_SIZE - 2)
            }
        } else {
            match self.key {
                Some(k) => sealed_text(k, nonce, bytes),
                None => Seq::empty(),
            }
        }
    }

    /// Whether the peer opens sealed bytes to a text, once the key is
    /// exchanged.
    pub open spec fn opens_to(self, sealed: Seq<u8>, text: Seq<u8>) -> bool {
        self.key matches Some(KeyModel::Exchanged { peer_id, secret, key }) ==> opened_text(
            key,
            sealed,
        ) == Some(text)
    }

    /// The connection after a transmission was written to the slot of the next
    /// number. What is to be encrypted without a key only leaves its leading
    /// bytes in the slot, whose length stays.
    pub open spec fn written(
        self,
        encrypted: bool,
        discriminant: u8,
        bytes: Seq<u8>,
        nonce: Seq<u8>,
    ) -> ConnModel {
        let n = self.number_after();
        let all = seq![discriminant, n] + self.body(encrypted, bytes, nonce);
        let len: usize = if encrypted && self.key is None {
            self.active[n as int].0
        } else {
            all.len() as usize
        };
        ConnModel {
            next: n,
            active: self.active.update(n as int, (len, overlaid(self.active[n as int].1, all))),
            ..self
        }
    }

    /// Whether a transmission, once written, waits to be sent as a whole; one
    /// that is to be encrypted without a key does not.
    pub open spec fn awaits(
        self,
        encrypted: bool,
        discriminant: u8,
        bytes: Seq<u8>,
        nonce: Seq<u8>,
    ) -> bool {
        let n = self.number_after();
        encrypted && self.key is None || self.written(
            encrypted,
            discriminant,
            bytes,
            nonce,
        ).pending(n as int) == seq![discriminant, n] + self.body(encrypted, bytes, nonce)
    }

    /// The connection after a transmission was acknowledged.
    pub open spec fn acked(self, number: int) -> ConnModel {
        ConnModel { active: self.active.update(number, (0usize, self.active[number].1)), ..self }
    }
}

/// Whether a transmission fits the buffer of its slot once it is sealed.
pub open spec fn fits_slot(key: Option<KeyModel>, encrypted: bool, len: nat) -> bool {
    encrypted && key is Some && key->0 is Exchanged ==> 2 + NONCE_LEN + TAG_LEN + len
        <= MAX_UDP_DG_SIZE
}

/// A peer's connection.
pub struct PeerConnectionData {
    pub exchanged_key: Option<PeerKey>,
    pub active_messages: Vec<(usize, Vec<u8>)>,
    pub recent_received_messages: Vec<(Timestamp, Vec<u8>)>,
    pub next_transmission_number: u8,
}

/// The key of a connection, by its view.
pub open spec fn key_view(key: Option<PeerKey>) -> Option<KeyModel> {
    match key {
        Some(k) => Some(k@),
        None => None,
    }
}

impl View for PeerConnectionData {
    type V = ConnModel;

    open spec fn view(&self) -> ConnModel {
        ConnModel {
            key: key_view(self.exchanged_key),
            active: Seq::new(
                self.active_messages@.len(),
                |i: int| (self.active_messages@[i].0, self.active_messages@[i].1@),
            ),
            recents: Seq::new(
                self.recent_received_messages@.len(),
                |i: int|
                    (
                        self.recent_received_messages@[i].0.instant(),
                        self.recent_received_messages@[i].1@,
                    ),
            ),
            next: self.next_transmission_number,
        }
    }
}

/// A connection without a key, on which nothing was sent or received. Its
/// record of what was received lies just before the debounce period.
pub open spec fn fresh_connection(now: int) -> ConnModel {
    ConnModel {
        key: None,
        active: Seq::new(
            MAX_ACTIVE_MESSAGES as nat,
            |i: int| (0usize, Seq::new(MAX_UDP_DG_SIZE as nat, |j: int| 0u8)),
        ),
        recents: Seq::new(
            MAX_ACTIVE_MESSAGES as nat,
            |i: int| (now - 300_000_000, Seq::<u8>::empty()),
        ),
        next: 0,
    }
}

impl Default for PeerConnectionData {
    fn default() -> (c: Self)
        ensures
            c@.wf(),
            exists|t: Timestamp| t.wf() && c@ == fresh_connection(#[trigger] t.instant()),
    {
        let now = clock::now();
        let c = Self::created_at(&now);
        assert(now.wf() && c@ == fresh_connection(now.instant()));
        c
    }
}

impl PeerConnectionData {
    /// A new connection.
    pub fn created_at(now: &Timestamp) -> (c: Self)
        requires
            now.wf(),
        ensures
            c@ == fresh_connection(now.instant()),
            c@.wf(),
    {
        let reference = now.before(300);
        let mut active: Vec<(usize, Vec<u8>)> = Vec::new();
        let mut recents: Vec<(Timestamp, Vec<u8>)> = Vec::new();
        let mut i: usize = 0;
        let ghost blank = Seq::new(MAX_UDP_DG_SIZE as nat, |j: int| 0u8);
        while i < MAX_ACTIVE_MESSAGES
            invariant
                i <= MAX_ACTIVE_MESSAGES,
                blank == Seq::new(MAX_UDP_DG_SIZE as nat, |j: int| 0u8),
                active@.len() == i,
                recents@.len() == i,
                forall|j: int|
                    0 <= j < i ==> (#[trigger] active@[j]).0 == 0 && active@[j].1@ == blank,
                forall|j: int|
                    0 <= j < i ==> (#[trigger] recents@[j]).0 == reference && recents@[j].1@
                        == Seq::<u8>::empty(),
            decreases MAX_ACTIVE_MESSAGES - i,
        {
            let buffer: Vec<u8> = vec![0u8; MAX_UDP_DG_SIZE];
            assert(buffer@ =~= blank);
            active.push((0, buffer));
            recents.push((reference, Vec::new()));
            i += 1;
        }
        let c = PeerConnectionData {
            exchanged_key: None,
            active_messages: active,
            recent_received_messages: recents,
            next_transmission_number: 0,
        };
        assert(c@.active =~= fresh_connection(now.instant()).active);
        assert(c@.recents =~= fresh_connection(now.instant()).recents);
        c
    }

    /// Takes the next transmission number. After 255 comes 0.
    pub fn alloc_transmission_number(&mut self) -> (number: u8)
        ensures
            number == old(self)@.number_after(),
            final(self)@ == (ConnModel { next: number, ..old(self)@ }),
            final(self).exchanged_key == old(self).exchanged_key,
            final(self).active_messages == old(self).active_messages,
            final(self).recent_received_messages == old(self).recent_received_messages,
            final(self).next_transmission_number == number,
    {
        self.next_transmission_number =
        if self.next_transmission_number == 255 {
            0
        } else {
            self.next_transmission_number + 1
        };
        self.next_transmission_number
    }

    /// Whether a transmission repeats one that was just received, at the given
    /// instant. What is no repetition is remembered.
    pub fn recently_received_at(
        &mut self,
        number: usize,
        checksum: Vec<u8>,
        now: &Timestamp,
    ) -> (heard: bool)
        requires
            old(self)@.wf(),
            number < MAX_ACTIVE_MESSAGES,
        ensures
            heard == old(self)@.heard(number as int, checksum@, now.instant()),
            final(self)@ == old(self)@.hearing(number as int, checksum@, now.instant()),
            final(self)@.wf(),
            final(self).exchanged_key == old(self).exchanged_key,
    {
        let ghost before = self@;
        let elapsed = now.since(&self.recent_received_messages[number].0);
        let is_mismatch = elapsed > DEBOUNCE_NANOS || !wire::same_bytes(
            self.recent_received_messages[number].1.as_slice(),
            checksum.as_slice(),
        );
        assert(before.recents[number as int] == (
            self.recent_received_messages@[number as int].0.instant(),
            self.recent_received_messages@[number as int].1@,
        ));
        if is_mismatch {
            self.recent_received_messages[number] = (*now, checksum);
            assert(self@.recents =~= before.recents.update(
                number as int,
                (now.instant(), checksum@),
            ));
            assert(self@.active =~= before.active);
        }
        !is_mismatch
    }

    /// Whether a transmission repeats one that was just received. What is no
    /// repetition is remembered.
    pub fn recently_received(&mut self, isynt: &SynapseTransmission, checksum: Vec<u8>) -> (heard:
        bool)
        requires
            old(self)@.wf(),
            isynt.transmission_number < MAX_ACTIVE_MESSAGES,
        ensures
            exists|t: Timestamp|
                {
                    &&& t.wf()
                    &&& heard == old(self)@.heard(
                        isynt.transmission_number as int,
                        checksum@,
                        #[trigger] t.instant(),
                    )
                    &&& final(self)@ == old(self)@.hearing(
                        isynt.transmission_number as int,
                        checksum@,
                        t.instant(),
                    )
                },
            final(self)@.wf(),
    {
        let now = clock::now();
        let ghost before = self@;
        let ghost sum = checksum@;
        let heard = self.recently_received_at(isynt.transmission_number, checksum, &now);
        assert(now.wf() && heard == before.heard(
            isynt.transmission_number as int,
            sum,
            now.instant(),
        ));
        heard
    }

    /// Writes a transmission to the slot of the next number, sealed under the
    /// given nonce where it is to be encrypted.
    pub fn write_with_nonce(
        &mut self,
        encrypted: bool,
        discriminant: u8,
        bytes: &[u8],
        nonce: &[u8],
    )
        requires
            old(self)@.wf(),
            encrypted ==> nonce@.len() == NONCE_LEN,
            fits_slot(old(self)@.key, encrypted, bytes@.len()),
        ensures
            final(self)@ == old(self)@.written(encrypted, discriminant, bytes@, nonce@),
            final(self)@.wf(),
            final(self).exchanged_key == old(self).exchanged_key,
            encrypted ==> old(self)@.opens_to(old(self)@.body(true, bytes@, nonce@), bytes@),
            old(self)@.awaits(encrypted, discriminant, bytes@, nonce@),
    {
        let ghost before = self@;
        let number = self.alloc_transmission_number();
        let slot: usize = number as usize;
        let ghost buffer = before.active[number as int].1;
        assert(self.active_messages@[slot as int].1@ == buffer);
        assert(before.active[number as int].0 <= MAX_UDP_DG_SIZE);
        let ghost all = seq![discriminant, number] + before.body(encrypted, bytes@, nonce@);
        self.active_messages[slot].1[0] = discriminant;
        self.active_messages[slot].1[1] = number;
        let written: usize = if encrypted {
            match &self.exchanged_key {
                None => {
                    proof {
                        assert(all =~= seq![discriminant, number]);
                        assert(self.active_messages@[slot as int].1@ =~= overlaid(buffer, all));
                        assert(self@.active =~= before.active.update(
                            number as int,
                            (before.active[number as int].0, overlaid(buffer, all)),
                        ));
                        assert(self@.recents =~= before.recents);
                    }
                    return ;
                },
                Some(k) => {
                    let (_, rest) = self.active_messages[slot].1.as_mut_slice().split_at_mut(2);
                    k.fixed_nonce_aead_encrypt(nonce, bytes, rest) + 2
                },
            }
        } else {
            let count: usize = if bytes.len() <= MAX_UDP_DG_SIZE - 2 {
                bytes.len()
            } else {
                MAX_UDP_DG_SIZE - 2
            };
            let copied = wire::copy_range(bytes, 0, count);
            assert(bytes@.subrange(0, bytes@.len() as int) =~= bytes@);
            let (_, rest) = self.active_messages[slot].1.as_mut_slice().split_at_mut(2);
            overlay(rest, copied.as_slice());
            count + 2
        };
        assert(self.active_messages@[slot as int].1@ =~= overlaid(buffer, all));
        self.active_messages[slot].0 = written;
        proof {
            assert(self@.active =~= before.active.update(
                number as int,
                (written, overlaid(buffer, all)),
            ));
            assert(self@.recents =~= before.recents);
            assert(self@.pending(number as int) =~= all);
        }
    }

    /// Writes a transmission to the slot of the next number, sealed under a
    /// fresh nonce where it is to be encrypted.
    pub fn write_synapse_transmission(&mut self, encrypted: bool, discriminant: u8, bytes: &[u8])
        requires
            old(self)@.wf(),
            fits_slot(old(self)@.key, encrypted, bytes@.len()),
        ensures
            exists|nonce: Seq<u8>|
                {
                    &&& encrypted ==> nonce.len() == NONCE_LEN
                    &&& final(self)@ == #[trigger] old(self)@.written(
                        encrypted,
                        discriminant,
                        bytes@,
                        nonce,
                    )
                    &&& encrypted ==> old(self)@.opens_to(
                        old(self)@.body(true, bytes@, nonce),
                        bytes@,
                    )
                    &&& old(self)@.awaits(encrypted, discriminant, bytes@, nonce)
                },
            final(self)@.wf(),
            final(self).exchanged_key == old(self).exchanged_key,
    {
        let nonce = if encrypted {
            crypto::random_nonce()
        } else {
            Vec::new()
        };
        let ghost before = self@;
        self.write_with_nonce(encrypted, discriminant, bytes, nonce.as_slice());
        assert(self@ == before.written(encrypted, discriminant, bytes@, nonce@));
    }

    /// Opens what the peer sealed; `None` without an exchanged key or where
    /// the seal does not hold.
    pub fn decrypt(&self, bytes: &[u8]) -> (out: Option<(ClientId, Vec<u8>)>)
        requires
            bytes@.len() <= MAX_SEALED_LEN,
        ensures
            match (self@.key, out) {
                (Some(KeyModel::Exchanged { peer_id, secret, key }), Some((id, text))) => {
                    &&& id == peer_id
                    &&& opened_text(key, bytes@) == Some(text@)
                },
                (Some(KeyModel::Exchanged { peer_id, secret, key }), None) => opened_text(
                    key,
                    bytes@,
                ) is None,
                (_, o) => o is None,
            },
    {
        match &self.exchanged_key {
            None => None,
            Some(k) => k.aead_decrypt(bytes),
        }
    }

    /// Frees the slot of a transmission that the peer acknowledged.
    pub fn acknowledge(&mut self, number: usize)
        requires
            old(self)@.wf(),
            number < MAX_ACTIVE_MESSAGES,
        ensures
            final(self)@ == old(self)@.acked(number as int),
            final(self)@.wf(),
            final(self).exchanged_key == old(self).exchanged_key,
    {
        let ghost before = self@;
        self.active_messages[number].0 = 0;
        assert(self@.active =~= before.acked(number as int).active);
        assert(self@.recents =~= before.recents);
    }
}

/// A new connection has heard nothing: whatever comes first, under whatever
/// number, is no repetition. It has no key, and nothing waits to be sent.
pub proof fn a_new_connection_has_heard_nothing(now: int, number: int, checksum: Seq<u8>)
    requires
        0 <= number < 256,
    ensures
        !fresh_connection(now).heard(number, checksum, now),
        fresh_connection(now).key is None,
        fresh_connection(now).active[number].0 == 0,
        fresh_connection(now).pending(number) == Seq::<u8>::empty(),
        fresh_connection(now).next == 0,
        fresh_connection(now).active.len() == 256,
        fresh_connection(now).recents.len() == 256,
        fresh_connection(now).wf(),
{
}

/// What was heard for the first time is a repetition for a tenth of a second
/// when it comes again under its number, and nothing else is under that number.
/// A repetition does not make that period longer, other numbers are not
/// affected, nor is what waits to be sent.
pub proof fn a_repetition_is_the_same_again(
    conn: ConnModel,
    number: int,
    checksum: Seq<u8>,
    now: int,
    later: int,
    other: Seq<u8>,
)
    requires
        0 <= number < conn.recents.len(),
    ensures
        conn.heard(number, checksum, now) ==> conn.hearing(number, checksum, now) == conn,
        !conn.heard(number, checksum, now) ==> (conn.hearing(number, checksum, now).heard(
            number,
            other,
            later,
        ) <==> other == checksum && later - now <= 100_000_000),
        forall|n: int|
            0 <= n < conn.recents.len() && n != number ==> (#[trigger] conn.hearing(
                number,
                checksum,
                now,
            ).recents[n]) == conn.recents[n],
        conn.hearing(number, checksum, now).recents.len() == conn.recents.len(),
        conn.hearing(number, checksum, now).active == conn.active,
        conn.hearing(number, checksum, now).key == conn.key,
        conn.hearing(number, checksum, now).next == conn.next,
        conn.heard(number, checksum, now) <==> conn.recents[number].1 == checksum && now
            - conn.recents[number].0 <= 100_000_000,
{
}

/// Transmissions are numbered in turn, from 255 on to 0. What is sent in the
/// clear waits under the next number behind its two leading bytes, byte by
/// byte; other numbers are not affected, nor is what was heard.
pub proof fn what_is_written_waits_under_the_next_number(
    conn: ConnModel,
    discriminant: u8,
    bytes: Seq<u8>,
    nonce: Seq<u8>,
)
    requires
        conn.wf(),
        bytes.len() <= 65_533,
    ensures
        ({
            let n: int = if conn.next == 255 {
                0
            } else {
                conn.next + 1
            };
            let after = conn.written(false, discriminant, bytes, nonce);
            &&& after.next == n
            &&& after.active[n].0 == 2 + bytes.len()
            &&& after.pending(n) == seq![discriminant, n as u8] + bytes
            &&& forall|k: int|
                0 <= k < 256 && k != n ==> #[trigger] after.active[k] == conn.active[k]
            &&& after.recents == conn.recents
            &&& after.key == conn.key
            &&& after.wf()
        }),
{
    let n = conn.number_after();
    let after = conn.written(false, discriminant, bytes, nonce);
    assert(conn.active[n as int].1.len() == 65_535);
    assert(after.pending(n as int) =~= seq![discriminant, n] + bytes);
}

/// What is sent sealed waits under the next number too: its leading bytes, the
/// nonce, and the text sealed under the peer's key and that nonce. Before a key
/// is exchanged nothing of the text is written.
pub proof fn what_is_sealed_waits_under_the_next_number(
    conn: ConnModel,
    discriminant: u8,
    bytes: Seq<u8>,
    nonce: Seq<u8>,
)
    requires
        conn.wf(),
    ensures
        ({
            let n: int = if conn.next == 255 {
                0
            } else {
                conn.next + 1
            };
            let after = conn.written(true, discriminant, bytes, nonce);
            &&& after.next == n
            &&& forall|k: int|
                0 <= k < 256 && k != n ==> #[trigger] after.active[k] == conn.active[k]
            &&& after.recents == conn.recents
            &&& after.key == conn.key
            &&& conn.key is None ==> after.active[n].0 == conn.active[n].0
            &&& conn.key is Some && conn.key->0 is Inflight ==> after.pending(n) == seq![
                discriminant,
                n as u8,
            ]
            &&& conn.key is Some && conn.key->0 is Exchanged && 2 + nonce.len() + xchacha_seal(
                conn.key->0->key,
                nonce,
                bytes,
            ).len() <= 65_535 ==> after.pending(n) == seq![discriminant, n as u8] + nonce
                + xchacha_seal(conn.key->0->key, nonce, bytes)
        }),
{
    let n = conn.number_after();
    let after = conn.written(true, discriminant, bytes, nonce);
    let lead = seq![discriminant, n];
    assert(conn.active[n as int].1.len() == 65_535);
    if conn.key is Some && conn.key->0 is Inflight {
        assert(after.pending(n as int) =~= lead);
    } else if conn.key is Some && 2 + nonce.len() + xchacha_seal(
        conn.key->0->key,
        nonce,
        bytes,
    ).len() <= 65_535 {
        assert(after.pending(n as int) =~= lead + nonce + xchacha_seal(
            conn.key->0->key,
            nonce,
            bytes,
        ));
    }
}

/// An acknowledged number is free again: nothing waits under it, and all else
/// is as it was.
pub proof fn an_acknowledged_number_is_free(conn: ConnModel, number: int)
    requires
        conn.wf(),
        0 <= number < 256,
    ensures
        conn.acked(number).active[number].0 == 0,
        conn.acked(number).pending(number) == Seq::<u8>::empty(),
        forall|k: int|
            0 <= k < 256 && k != number ==> #[trigger] conn.acked(number).active[k]
                == conn.active[k],
        conn.acked(number).recents == conn.recents,
        conn.acked(number).key == conn.key,
        conn.acked(number).next == conn.next,
        conn.acked(number).wf(),
{
}

/// A sealed text is its nonce of 24 bytes, then the text sealed under it; it
/// opens to what the seal opens to, and to nothing where the nonce is cut off.
pub proof fn a_nonce_leads_what_is_sealed(
    secret: Seq<u8>,
    peer: ClientId,
    nonce: Seq<u8>,
    text: Seq<u8>,
)
    requires
        nonce.len() == 24,
    ensures
        sealed_text(exchanged(secret, peer), nonce, text) == nonce + xchacha_seal(
            hkdf_key(secret),
            nonce,
            text,
        ),
        opened_text(hkdf_key(secret), sealed_text(exchanged(secret, peer), nonce, text))
            == xchacha_open(hkdf_key(secret), nonce, xchacha_seal(hkdf_key(secret), nonce, text)),
        forall|cut: int|
            0 <= cut < 24 ==> opened_text(hkdf_key(secret), #[trigger] nonce.take(cut)) is None,
        exchanged(secret, peer)->peer_id == peer,
        exchanged(secret, peer)->secret == secret,
{
    let seal = xchacha_seal(hkdf_key(secret), nonce, text);
    let all = nonce + seal;
    assert(all.subrange(0, 24) =~= nonce);
    assert(all.subrange(24, all.len() as int) =~= seal);
}

/// A greeting is the word `hello`, then the nine bytes of an id, and nothing
/// else is one.
pub proof fn a_greeting_is_hello_and_an_id(text: Seq<u8>, id: ClientId)
    ensures
        greeting_from(id) == seq!['h' as u8, 'e' as u8, 'l' as u8, 'l' as u8, 'o' as u8]
            + id.bytes(),
        is_greeting(text) <==> text.len() == 14 && text[0] == 'h' as u8 && text[1] == 'e' as u8
            && text[2] == 'l' as u8 && text[3] == 'l' as u8 && text[4] == 'o' as u8,
{
    id.nine_bytes();
    if text.len() == 14 && text[0] == 'h' as u8 && text[1] == 'e' as u8 && text[2] == 'l' as u8
        && text[3] == 'l' as u8 && text[4] == 'o' as u8 {
        assert(text.subrange(0, 5) =~= greeting());
    }
    if is_greeting(text) {
        assert(text.subrange(0, 5)[0] == text[0]);
        assert(text.subrange(0, 5)[1] == text[1]);
        assert(text.subrange(0, 5)[2] == text[2]);
        assert(text.subrange(0, 5)[3] == text[3]);
        assert(text.subrange(0, 5)[4] == text[4]);
    }
}

/// What fits a slot: anything that is not sealed or has no key to be sealed
/// under, and else what leaves room in a datagram for the leading bytes, the
/// nonce and the tag.
pub proof fn what_fits_a_slot(key: Option<KeyModel>, encrypted: bool, len: nat)
    ensures
        !encrypted ==> fits_slot(key, encrypted, len),
        key is None || key->0 is Inflight ==> fits_slot(key, encrypted, len),
        encrypted && key is Some && key->0 is Exchanged ==> (fits_slot(key, encrypted, len) <==> len
            <= 65_493),
{
}

/// What is too long for a datagram is sent in the clear as far as it fits.
pub proof fn what_is_too_long_is_cut(
    conn: ConnModel,
    discriminant: u8,
    bytes: Seq<u8>,
    nonce: Seq<u8>,
)
    requires
        conn.wf(),
        bytes.len() > 65_533,
    ensures
        conn.written(false, discriminant, bytes, nonce) == conn.written(
            false,
            discriminant,
            bytes.take(65_533),
            nonce,
        ),
{
    assert(bytes.take(65_533) =~= bytes.subrange(0, 65_533));
}

} // verus!
