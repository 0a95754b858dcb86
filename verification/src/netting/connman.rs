//! The connection manager: what a datagram, an outbound transmission and a
//! writable socket do to the connections, and what is to be done about them.

use vstd::prelude::*;

use super::client_id::{id_is_its_bytes, ClientId, PeerAddr};
use super::handshake::{
    self, an_answer_is_taken_apart_by_its_length, an_answer_proves_who_it_is_from, initiate_bytes,
    initiate_is_read_back, initiate_peer, initiate_point, response_answer, response_bytes,
    response_is_read_back, response_is_whole, response_point, response_sealed, INTRODUCTION_LEN,
};
use super::ledger::{
    a_peer_has_an_index, added_peer_is_found, found_at, index_of, no_peer_at, peers_wf,
    replacing_keeps_places, with_connection, with_peer, Peer, PeerConnectionLedger,
};
use super::message::MAX_UDP_DG_SIZE;
use super::peer::{
    a_new_connection_has_heard_nothing, exchanged, fits_slot, fresh_connection, opened_text,
    what_is_sealed_waits_under_the_next_number, what_is_written_waits_under_the_next_number,
    ConnModel, HandshakeSecret, KeyModel, PeerKey, DEBOUNCE_NANOS, GREETING_LEN,
};
use super::synapse::{
    ack_bytes, ack_is_read_back, sealed_kind, AttributedInboundBytes, OutboundSynapseTransmission,
    OutboundSynapseTransmissionKind, SynapseTransmission, SynapseTransmissionKind,
};
use crate::clock::{self, Timestamp};
use crate::crypto::{
    self, hkdf_key, p256_agreement, p256_point, p256_public, sha256, xchacha_open, xchacha_seal,
    NONCE_LEN, TAG_LEN,
};
use crate::wire::{self, be_bytes, be_value};

verus! {

/// Why a datagram cannot be handled at all.
#[derive(Debug, Clone, Copy, PartialEq, Eq, Structural)]
pub enum Fault {
    /// The datagram cannot be taken apart.
    Malformed,
    /// An answer announces more bytes than a length can count.
    BadLength,
    /// The bytes of a peer's public key are no point.
    BadPublicKey,
    /// Peer discovery is not served.
    PeerDiscovery,
}

/// What is to be done about a datagram, in this order. Once one of the things
/// to do cannot be done, those behind it are left.
pub enum Effect {
    /// Acknowledge the transmission to the peer.
    Ack { transmission_number: usize, addr: PeerAddr },
    /// Send a transmission.
    Outbound(OutboundSynapseTransmission),
    /// Tell that a peer is connected.
    Announce(ClientId),
    /// Hand on what the peer sent.
    Deliver(AttributedInboundBytes),
}

/// Something to be done, as plain values.
pub enum EffectModel {
    Ack { transmission_number: int, addr: PeerAddr },
    Outbound {
        kind: OutboundSynapseTransmissionKind,
        bytes: Seq<u8>,
        maybe_target: Option<ClientId>,
    },
    Announce(ClientId),
    Deliver { decrypted_bytes: Seq<u8>, addr: PeerAddr, client_id: ClientId },
}

impl View for Effect {
    type V = EffectModel;

    open spec fn view(&self) -> EffectModel {
        match *self {
            Effect::Ack { transmission_number, addr } => EffectModel::Ack {
                transmission_number: transmission_number as int,
                addr,
            },
            Effect::Outbound(o) => EffectModel::Outbound {
                kind: o.kind,
                bytes: o.bytes@,
                maybe_target: o.maybe_target,
            },
            Effect::Announce(id) => EffectModel::Announce(id),
            Effect::Deliver(d) => EffectModel::Deliver {
                decrypted_bytes: d.decrypted_bytes@,
                addr: d.addr,
                client_id: d.client_id,
            },
        }
    }
}

/// What becomes of a datagram.
pub enum Verdict {
    /// It is dropped.
    Ignored,
    /// It cannot be handled.
    Faulty(Fault),
    /// It is taken, and this is to be done.
    Accepted(Vec<Effect>),
}

/// What becomes of a datagram, as plain values.
pub enum VerdictModel {
    Ignored,
    Faulty(Fault),
    Accepted(Seq<EffectModel>),
}

impl View for Verdict {
    type V = VerdictModel;

    open spec fn view(&self) -> VerdictModel {
        match *self {
            Verdict::Ignored => VerdictModel::Ignored,
            Verdict::Faulty(fault) => VerdictModel::Faulty(fault),
            Verdict::Accepted(effects) => VerdictModel::Accepted(
                Seq::new(effects@.len(), |i: int| effects@[i]@),
            ),
        }
    }
}

/// A datagram on arrival: its bytes, who sent it and when it came.
pub struct Arrival {
    pub datagram: Seq<u8>,
    pub addr: PeerAddr,
    pub now: int,
}

impl Arrival {
    /// The transmission number.
    pub open spec fn number(self) -> int {
        SynapseTransmission::number_of(self.datagram)
    }

    /// What the datagram carries.
    pub open spec fn payload(self) -> Seq<u8> {
        SynapseTransmission::payload_of(self.datagram)
    }

    /// The acknowledgement of the datagram.
    pub open spec fn ack(self) -> EffectModel {
        EffectModel::Ack { transmission_number: self.number(), addr: self.addr }
    }
}

/// A connection with its key replaced.
pub open spec fn keyed(conn: ConnModel, key: KeyModel) -> ConnModel {
    ConnModel { key: Some(key), ..conn }
}

/// The answer to an opened handshake whose point is good: the key is exchanged
/// at once, and the peer gets what it needs to derive the same.
pub open spec fn answered(
    peers: Seq<Peer>,
    index: int,
    own: ClientId,
    payload: Seq<u8>,
    ack: EffectModel,
    scalar: Seq<u8>,
    nonce: Seq<u8>,
) -> (Seq<Peer>, VerdictModel) {
    let peer = initiate_peer(payload);
    let key = exchanged(p256_agreement(scalar, initiate_point(payload)), peer);
    (
        with_connection(peers, index, keyed(peers[index].2, key)),
        VerdictModel::Accepted(
            seq![
                ack,
                EffectModel::Outbound {
                    kind: OutboundSynapseTransmissionKind::HandshakeResponse,
                    bytes: response_bytes(key, nonce, own, p256_public(scalar)->0),
                    maybe_target: Some(peer),
                },
                EffectModel::Announce(peer),
            ],
        ),
    )
}

/// Whether the answer to an opened handshake convinces whoever opened it: the
/// owner of the opening point's scalar learns who answered and has the same
/// key.
pub open spec fn convinces(
    payload: Seq<u8>,
    own: ClientId,
    scalar: Seq<u8>,
    nonce: Seq<u8>,
) -> bool {
    let shared = p256_agreement(scalar, initiate_point(payload));
    let answer = response_bytes(
        exchanged(shared, initiate_peer(payload)),
        nonce,
        own,
        p256_public(scalar)->0,
    );
    forall|other: Seq<u8>| #[trigger]
        p256_public(other) == Some(initiate_point(payload)) ==> {
            &&& response_is_whole(answer)
            &&& p256_point(response_point(answer))
            &&& response_answer(other, answer) == Some((own, exchanged(shared, own)))
        }
}

/// A handshake is opened. It is taken from a peer without a key, once.
pub open spec fn on_initiate(
    peers: Seq<Peer>,
    own: ClientId,
    arrival: Arrival,
    scalar: Seq<u8>,
    nonce: Seq<u8>,
) -> (Seq<Peer>, VerdictModel) {
    let added = with_peer(peers, arrival.addr, arrival.now);
    let index = index_of(added, arrival.addr)->0;
    let conn = added[index].2;
    let sum = sha256(arrival.datagram);
    let noted = with_connection(added, index, conn.hearing(arrival.number(), sum, arrival.now));
    if conn.heard(arrival.number(), sum, arrival.now) || conn.key is Some
        || arrival.payload().len() < INTRODUCTION_LEN {
        (noted, VerdictModel::Ignored)
    } else if !p256_point(initiate_point(arrival.payload())) {
        (noted, VerdictModel::Faulty(Fault::BadPublicKey))
    } else {
        answered(noted, index, own, arrival.payload(), arrival.ack(), scalar, nonce)
    }
}

/// A handshake is answered. The answer is taken by whoever opened the
/// handshake, once.
pub open spec fn on_response(peers: Seq<Peer>, arrival: Arrival) -> (Seq<Peer>, VerdictModel) {
    let payload = arrival.payload();
    if payload.len() < 8 {
        (peers, VerdictModel::Ignored)
    } else if 8 + be_value(payload) > u64::MAX {
        (peers, VerdictModel::Faulty(Fault::BadLength))
    } else if !response_is_whole(payload) {
        (peers, VerdictModel::Ignored)
    } else {
        match index_of(peers, arrival.addr) {
            None => (peers, VerdictModel::Ignored),
            Some(index) => {
                let conn = peers[index].2;
                let sum = sha256(arrival.datagram);
                let heard = conn.hearing(arrival.number(), sum, arrival.now);
                let noted = with_connection(peers, index, heard);
                if conn.heard(arrival.number(), sum, arrival.now) {
                    (noted, VerdictModel::Ignored)
                } else {
                    match conn.key {
                        Some(KeyModel::Inflight(scalar)) => if !p256_point(
                            response_point(payload),
                        ) {
                            (noted, VerdictModel::Faulty(Fault::BadPublicKey))
                        } else {
                            match response_answer(scalar, payload) {
                                None => (noted, VerdictModel::Ignored),
                                Some((peer, key)) => (
                                    with_connection(noted, index, keyed(heard, key)),
                                    VerdictModel::Accepted(
                                        seq![EffectModel::Announce(peer), arrival.ack()],
                                    ),
                                ),
                            }
                        },
                        _ => (noted, VerdictModel::Ignored),
                    }
                }
            },
        }
    }
}

/// A transmission is acknowledged: it is not sent again.
pub open spec fn on_ack(peers: Seq<Peer>, arrival: Arrival) -> (Seq<Peer>, VerdictModel) {
    match index_of(peers, arrival.addr) {
        None => (peers, VerdictModel::Ignored),
        Some(index) => (
            with_connection(peers, index, peers[index].2.acked(arrival.number())),
            VerdictModel::Accepted(Seq::empty()),
        ),
    }
}

/// A sealed packet comes in. It is handed on where the seal holds and the text
/// under it is no repetition.
pub open spec fn on_known(peers: Seq<Peer>, arrival: Arrival) -> (Seq<Peer>, VerdictModel) {
    match index_of(peers, arrival.addr) {
        None => (peers, VerdictModel::Ignored),
        Some(index) => {
            let conn = peers[index].2;
            match conn.key {
                Some(KeyModel::Exchanged { peer_id, secret, key }) => {
                    match opened_text(key, arrival.payload()) {
                        None => (peers, VerdictModel::Ignored),
                        Some(text) => {
                            let sum = sha256(text);
                            let noted = with_connection(
                                peers,
                                index,
                                conn.hearing(arrival.number(), sum, arrival.now),
                            );
                            if conn.heard(arrival.number(), sum, arrival.now) {
                                (noted, VerdictModel::Ignored)
                            } else {
                                (
                                    noted,
                                    VerdictModel::Accepted(
                                        seq![
                                            EffectModel::Deliver {
                                                decrypted_bytes: text,
                                                addr: arrival.addr,
                                                client_id: peer_id,
                                            },
                                            arrival.ack(),
                                        ],
                                    ),
                                )
                            }
                        },
                    }
                },
                _ => (peers, VerdictModel::Ignored),
            }
        },
    }
}

/// A datagram comes in. The scalar and the nonce are those that an answer to a
/// handshake would be made with.
pub open spec fn receive(
    peers: Seq<Peer>,
    own: ClientId,
    arrival: Arrival,
    scalar: Seq<u8>,
    nonce: Seq<u8>,
) -> (Seq<Peer>, VerdictModel) {
    if !SynapseTransmission::well_formed(arrival.datagram) {
        (peers, VerdictModel::Faulty(Fault::Malformed))
    } else {
        match arrival.datagram[0] / 32 {
            0 => on_initiate(peers, own, arrival, scalar, nonce),
            1 => on_response(peers, arrival),
            2 => on_ack(peers, arrival),
            3 => on_known(peers, arrival),
            _ => (peers, VerdictModel::Faulty(Fault::PeerDiscovery)),
        }
    }
}

/// The connections of one client, and whether its socket is ready.
pub struct ConnectionManager {
    pub own_cid: ClientId,
    pub own_addr: PeerAddr,
    pub connections: PeerConnectionLedger,
    pub readable: bool,
    pub writable: bool,
}

impl ConnectionManager {
    /// The peers' records are well formed.
    pub open spec fn wf(self) -> bool {
        peers_wf(self.connections@)
    }

    /// A client without connections, whose socket is not ready yet.
    pub fn init(own_cid: ClientId, own_addr: PeerAddr) -> (m: Self)
        ensures
            m.wf(),
            m.own_cid == own_cid,
            m.own_addr == own_addr,
            m.connections@ == Seq::<Peer>::empty(),
            !m.readable,
            !m.writable,
    {
        ConnectionManager {
            own_cid,
            own_addr,
            connections: PeerConnectionLedger::default(),
            readable: false,
            writable: false,
        }
    }

    /// The client's own id.
    pub fn own_client_id(&self) -> (id: ClientId)
        ensures
            id == self.own_cid,
    {
        self.own_cid
    }

    /// The client's own address.
    pub fn own_socket_address(&self) -> (addr: PeerAddr)
        ensures
            addr == self.own_addr,
    {
        self.own_addr
    }

    /// The manager with other connections.
    pub open spec fn with_peers_of(self, other: Self) -> bool {
        &&& self.own_cid == other.own_cid
        &&& self.own_addr == other.own_addr
        &&& self.readable == other.readable
        &&& self.writable == other.writable
    }

    /// Answers an opened handshake with the given secret and nonce. Whoever
    /// owns the scalar of the opened handshake's point learns from the answer
    /// who answered, and derives the same key.
    pub fn answer_handshake(
        &mut self,
        idx: usize,
        isynt: &SynapseTransmission,
        addr: PeerAddr,
        secret: HandshakeSecret,
        nonce: &[u8],
    ) -> (verdict: Verdict)
        requires
            old(self).wf(),
            idx < old(self).connections@.len(),
            isynt.bytes@.len() >= INTRODUCTION_LEN,
            nonce@.len() == NONCE_LEN,
        ensures
            final(self).wf(),
            final(self).with_peers_of(*old(self)),
            (final(self).connections@, verdict@) == if p256_point(initiate_point(isynt.bytes@)) {
                answered(
                    old(self).connections@,
                    idx as int,
                    old(self).own_cid,
                    isynt.bytes@,
                    EffectModel::Ack {
                        transmission_number: isynt.transmission_number as int,
                        addr,
                    },
                    secret.scalar(),
                    nonce@,
                )
            } else {
                (old(self).connections@, VerdictModel::Faulty(Fault::BadPublicKey))
            },
            p256_point(initiate_point(isynt.bytes@)) ==> convinces(
                isynt.bytes@,
                old(self).own_cid,
                secret.scalar(),
                nonce@,
            ),
    {
        let ghost before = self.connections@;
        let payload = isynt.bytes.as_slice();
        let id_bytes = wire::copy_range(payload, GREETING_LEN, INTRODUCTION_LEN);
        let peer_point = wire::copy_range(payload, INTRODUCTION_LEN, payload.len());
        let peer = match ClientId::from_bytes(id_bytes.as_slice()) {
            Some(id) => id,
            None => self.own_cid,
        };
        proof {
            id_is_its_bytes(peer);
        }
        let shared = match secret.agree(peer_point.as_slice()) {
            None => {
                return Verdict::Faulty(Fault::BadPublicKey);
            },
            Some(shared) => shared,
        };
        let own_point = secret.public();
        let ghost agreed = shared@;
        let key = PeerKey::exchanged_from_shared_secret_and_raw_peer(shared, peer);
        let bytes = handshake::answering(&key, nonce, self.own_cid, own_point.as_slice());
        proof {
            assert forall|other: Seq<u8>| #[trigger]
                p256_public(other) == Some(peer_point@) implies response_answer(other, bytes@)
                == Some((self.own_cid, exchanged(agreed, self.own_cid))) && response_is_whole(
                bytes@,
            ) && response_point(bytes@) == own_point@ by {
                response_is_read_back(agreed, peer, nonce@, self.own_cid, own_point@, other);
            }
            replacing_keeps_places(before, idx as int, keyed(before[idx as int].2, key@));
        }
        let conn = self.connections.at_mut(idx);
        conn.exchanged_key = Some(key);
        let mut effects: Vec<Effect> = Vec::new();
        effects.push(Effect::Ack { transmission_number: isynt.transmission_number, addr });
        effects.push(
            Effect::Outbound(
                OutboundSynapseTransmission {
                    kind: OutboundSynapseTransmissionKind::HandshakeResponse,
                    bytes,
                    maybe_target: Some(peer),
                },
            ),
        );
        effects.push(Effect::Announce(peer));
        let verdict = Verdict::Accepted(effects);
        proof {
            let ack = EffectModel::Ack {
                transmission_number: isynt.transmission_number as int,
                addr,
            };
            let expected = answered(
                before,
                idx as int,
                self.own_cid,
                isynt.bytes@,
                ack,
                secret.scalar(),
                nonce@,
            );
            assert(verdict@->Accepted_0 =~= expected.1->Accepted_0);
        }
        verdict
    }

    /// A handshake is opened by a peer.
    fn handle_initiate(
        &mut self,
        dg: &[u8],
        isynt: &SynapseTransmission,
        addr: PeerAddr,
        now: &Timestamp,
    ) -> (verdict: Verdict)
        requires
            old(self).wf(),
            now.wf(),
            isynt.transmission_number == SynapseTransmission::number_of(dg@),
            isynt.transmission_number < 256,
            isynt.bytes@ == SynapseTransmission::payload_of(dg@),
        ensures
            final(self).wf(),
            final(self).with_peers_of(*old(self)),
            exists|scalar: Seq<u8>, nonce: Seq<u8>|
                {
                    &&& nonce.len() == NONCE_LEN
                    &&& (final(self).connections@, verdict@) == #[trigger] on_initiate(
                        old(self).connections@,
                        old(self).own_cid,
                        (Arrival { datagram: dg@, addr, now: now.instant() }),
                        scalar,
                        nonce,
                    )
                    &&& verdict is Accepted ==> convinces(
                        isynt.bytes@,
                        old(self).own_cid,
                        scalar,
                        nonce,
                    )
                },
    {
        let ghost arrival = Arrival { datagram: dg@, addr, now: now.instant() };
        let ghost before = self.connections@;
        let ghost own = self.own_cid;
        let ghost blank = Seq::new(24, |i: int| 0u8);
        let checksum = crypto::digest(dg);
        let ghost sum = checksum@;
        let idx = self.connections.idx_for_addr_or_init_at(addr, now);
        let ghost added = self.connections@;
        let conn = self.connections.at_mut(idx);
        let heard = conn.recently_received_at(isynt.transmission_number, checksum, now);
        let has_key = conn.exchanged_key.is_some();
        proof {
            let noted = added[idx as int].2.hearing(arrival.number(), sum, arrival.now);
            replacing_keeps_places(added, idx as int, noted);
        }
        if heard || has_key || isynt.bytes.len() < INTRODUCTION_LEN {
            assert((self.connections@, VerdictModel::Ignored) == on_initiate(
                before,
                own,
                arrival,
                Seq::empty(),
                blank,
            ));
            return Verdict::Ignored;
        }
        let (secret, _) = HandshakeSecret::generate();
        let nonce = crypto::random_nonce();
        let ghost scalar = secret.scalar();
        let verdict = self.answer_handshake(idx, isynt, addr, secret, nonce.as_slice());
        assert((self.connections@, verdict@) == on_initiate(before, own, arrival, scalar, nonce@));
        verdict
    }

    /// A handshake is answered by a peer.
    fn handle_response(
        &mut self,
        dg: &[u8],
        isynt: &SynapseTransmission,
        addr: PeerAddr,
        now: &Timestamp,
    ) -> (verdict: Verdict)
        requires
            old(self).wf(),
            dg@.len() <= MAX_UDP_DG_SIZE,
            isynt.transmission_number == SynapseTransmission::number_of(dg@),
            isynt.transmission_number < 256,
            isynt.bytes@ == SynapseTransmission::payload_of(dg@),
            isynt.bytes@.len() <= dg@.len(),
        ensures
            final(self).wf(),
            final(self).with_peers_of(*old(self)),
            (final(self).connections@, verdict@) == on_response(
                old(self).connections@,
                (Arrival { datagram: dg@, addr, now: now.instant() }),
            ),
    {
        let ghost arrival = Arrival { datagram: dg@, addr, now: now.instant() };
        let ghost before = self.connections@;
        let payload = isynt.bytes.as_slice();
        if payload.len() < 8 {
            return Verdict::Ignored;
        }
        let mlen: u64 = wire::read_be_u64(payload, 0);
        assert(payload@.subrange(0, 8)[0] == payload@[0]);
        if mlen > u64::MAX - 8 {
            return Verdict::Faulty(Fault::BadLength);
        }
        if (payload.len() as u64) < 8 + mlen {
            return Verdict::Ignored;
        }
        let sealed_end: usize = (8 + mlen) as usize;
        let sealed = wire::copy_range(payload, 8, sealed_end);
        let peer_point = wire::copy_range(payload, sealed_end, payload.len());
        assert(sealed@ == response_sealed(payload@));
        assert(peer_point@ == response_point(payload@));
        let idx = match self.connections.idx_for_addr(addr) {
            None => {
                return Verdict::Ignored;
            },
            Some(idx) => idx,
        };
        let checksum = crypto::digest(dg);
        let ghost sum = checksum@;
        let conn = self.connections.at_mut(idx);
        let ghost old_conn = conn@;
        let heard = conn.recently_received_at(isynt.transmission_number, checksum, now);
        proof {
            replacing_keeps_places(
                before,
                idx as int,
                old_conn.hearing(arrival.number(), sum, arrival.now),
            );
        }
        if heard {
            return Verdict::Ignored;
        }
        let agreed = match &conn.exchanged_key {
            Some(PeerKey::Inflight(own_secret)) => own_secret.agree(peer_point.as_slice()),
            _ => {
                return Verdict::Ignored;
            },
        };
        let shared = match agreed {
            None => {
                return Verdict::Faulty(Fault::BadPublicKey);
            },
            Some(shared) => shared,
        };
        match PeerKey::exchanged_from_shared_secret_and_encrypted_handshake(
            shared,
            sealed.as_slice(),
        ) {
            None => Verdict::Ignored,
            Some((peer, key)) => {
                let ghost noted = conn@;
                proof {
                    id_is_its_bytes(peer);
                    replacing_keeps_places(before, idx as int, keyed(noted, key@));
                }
                conn.exchanged_key = Some(key);
                let mut effects: Vec<Effect> = Vec::new();
                effects.push(Effect::Announce(peer));
                effects.push(Effect::Ack { transmission_number: isynt.transmission_number, addr });
                let verdict = Verdict::Accepted(effects);
                proof {
                    let expected = on_response(before, arrival);
                    assert(verdict@->Accepted_0 =~= expected.1->Accepted_0);
                    assert(self.connections@ =~= expected.0);
                }
                verdict
            },
        }
    }

    /// A transmission is acknowledged by a peer.
    fn handle_ack(&mut self, number: usize, addr: PeerAddr) -> (verdict: Verdict)
        requires
            old(self).wf(),
            number < 256,
        ensures
            final(self).wf(),
            final(self).with_peers_of(*old(self)),
            forall|arrival: Arrival|
                arrival.addr == addr && arrival.number() == number ==> (
                    final(self).connections@,
                    verdict@,
                ) == #[trigger] on_ack(old(self).connections@, arrival),
    {
        let ghost before = self.connections@;
        match self.connections.idx_for_addr(addr) {
            None => Verdict::Ignored,
            Some(idx) => {
                proof {
                    replacing_keeps_places(
                        before,
                        idx as int,
                        before[idx as int].2.acked(number as int),
                    );
                }
                let conn = self.connections.at_mut(idx);
                conn.acknowledge(number);
                let verdict = Verdict::Accepted(Vec::new());
                assert(verdict@->Accepted_0 =~= Seq::<EffectModel>::empty());
                verdict
            },
        }
    }

    /// A sealed packet comes from a peer.
    fn handle_known(
        &mut self,
        isynt: &SynapseTransmission,
        addr: PeerAddr,
        now: &Timestamp,
        dg: &[u8],
    ) -> (verdict: Verdict)
        requires
            old(self).wf(),
            dg@.len() <= MAX_UDP_DG_SIZE,
            isynt.transmission_number == SynapseTransmission::number_of(dg@),
            isynt.transmission_number < 256,
            isynt.bytes@ == SynapseTransmission::payload_of(dg@),
            isynt.bytes@.len() <= dg@.len(),
        ensures
            final(self).wf(),
            final(self).with_peers_of(*old(self)),
            (final(self).connections@, verdict@) == on_known(
                old(self).connections@,
                (Arrival { datagram: dg@, addr, now: now.instant() }),
            ),
    {
        let ghost arrival = Arrival { datagram: dg@, addr, now: now.instant() };
        let ghost before = self.connections@;
        let idx = match self.connections.idx_for_addr(addr) {
            None => {
                return Verdict::Ignored;
            },
            Some(idx) => idx,
        };
        let conn = self.connections.at_mut(idx);
        let ghost old_conn = conn@;
        assert(with_connection(before, idx as int, old_conn) =~= before);
        let (client_id, decrypted_bytes) = match conn.decrypt(isynt.bytes.as_slice()) {
            None => {
                return Verdict::Ignored;
            },
            Some(opened) => opened,
        };
        let checksum = crypto::digest(decrypted_bytes.as_slice());
        let ghost sum = checksum@;
        let heard = conn.recently_received_at(isynt.transmission_number, checksum, now);
        proof {
            replacing_keeps_places(
                before,
                idx as int,
                old_conn.hearing(arrival.number(), sum, arrival.now),
            );
        }
        if heard {
            return Verdict::Ignored;
        }
        let mut effects: Vec<Effect> = Vec::new();
        effects.push(Effect::Deliver(AttributedInboundBytes { decrypted_bytes, addr, client_id }));
        effects.push(Effect::Ack { transmission_number: isynt.transmission_number, addr });
        let verdict = Verdict::Accepted(effects);
        assert(verdict@->Accepted_0 =~= on_known(before, arrival).1->Accepted_0);
        verdict
    }

    /// A datagram comes in at the given instant.
    pub fn on_datagram_at(&mut self, dg: &[u8], addr: PeerAddr, now: &Timestamp) -> (verdict:
        Verdict)
        requires
            old(self).wf(),
            dg@.len() <= MAX_UDP_DG_SIZE,
            now.wf(),
        ensures
            final(self).wf(),
            final(self).with_peers_of(*old(self)),
            exists|scalar: Seq<u8>, nonce: Seq<u8>|
                {
                    &&& nonce.len() == NONCE_LEN
                    &&& (final(self).connections@, verdict@) == #[trigger] receive(
                        old(self).connections@,
                        old(self).own_cid,
                        (Arrival { datagram: dg@, addr, now: now.instant() }),
                        scalar,
                        nonce,
                    )
                    &&& verdict is Accepted && dg@[0] / 32 == 0 ==> convinces(
                        SynapseTransmission::payload_of(dg@),
                        old(self).own_cid,
                        scalar,
                        nonce,
                    )
                },
    {
        let ghost arrival = Arrival { datagram: dg@, addr, now: now.instant() };
        let ghost before = self.connections@;
        let ghost own = self.own_cid;
        let ghost blank = Seq::new(24, |i: int| 0u8);
        if !SynapseTransmission::is_well_formed(dg) {
            assert((self.connections@, VerdictModel::Faulty(Fault::Malformed)) == receive(
                before,
                own,
                arrival,
                Seq::empty(),
                blank,
            ));
            return Verdict::Faulty(Fault::Malformed);
        }
        let isynt = SynapseTransmission::parse_datagram(dg);
        let verdict = match isynt.kind {
            SynapseTransmissionKind::HandshakeInitiate => {
                let verdict = self.handle_initiate(dg, &isynt, addr, now);
                proof {
                    let (scalar, nonce) = choose|scalar: Seq<u8>, nonce: Seq<u8>|
                        {
                            &&& nonce.len() == NONCE_LEN
                            &&& (self.connections@, verdict@) == #[trigger] on_initiate(
                                before,
                                own,
                                arrival,
                                scalar,
                                nonce,
                            )
                            &&& verdict is Accepted ==> convinces(
                                isynt.bytes@,
                                own,
                                scalar,
                                nonce,
                            )
                        };
                    assert((self.connections@, verdict@) == receive(
                        before,
                        own,
                        arrival,
                        scalar,
                        nonce,
                    ));
                }
                return verdict;
            },
            SynapseTransmissionKind::HandshakeResponse => self.handle_response(
                dg,
                &isynt,
                addr,
                now,
            ),
            SynapseTransmissionKind::Ack => {
                let verdict = self.handle_ack(isynt.transmission_number, addr);
                assert((self.connections@, verdict@) == on_ack(before, arrival));
                verdict
            },
            SynapseTransmissionKind::KnownPacket => self.handle_known(&isynt, addr, now, dg),
            SynapseTransmissionKind::PeerDiscovery => Verdict::Faulty(Fault::PeerDiscovery),
        };
        assert((self.connections@, verdict@) == receive(before, own, arrival, Seq::empty(), blank));
        verdict
    }

    /// A datagram comes in.
    pub fn on_datagram(&mut self, dg: &[u8], addr: PeerAddr) -> (verdict: Verdict)
        requires
            old(self).wf(),
            dg@.len() <= MAX_UDP_DG_SIZE,
        ensures
            final(self).wf(),
            final(self).with_peers_of(*old(self)),
            exists|t: Timestamp, scalar: Seq<u8>, nonce: Seq<u8>|
                {
                    &&& t.wf()
                    &&& nonce.len() == NONCE_LEN
                    &&& (final(self).connections@, verdict@) == #[trigger] receive(
                        old(self).connections@,
                        old(self).own_cid,
                        (Arrival { datagram: dg@, addr, now: t.instant() }),
                        scalar,
                        nonce,
                    )
                    &&& verdict is Accepted && dg@[0] / 32 == 0 ==> convinces(
                        SynapseTransmission::payload_of(dg@),
                        old(self).own_cid,
                        scalar,
                        nonce,
                    )
                },
    {
        let now = clock::now();
        self.on_datagram_at(dg, addr, &now)
    }

    /// The socket reported itself ready. It stays so until it would block.
    pub fn on_ready(&mut self, readable: bool, writable: bool)
        ensures
            *final(self) == (ConnectionManager {
                readable: old(self).readable || readable,
                writable: old(self).writable || writable,
                ..*old(self)
            }),
    {
        if readable {
            self.readable = true;
        }
        if writable {
            self.writable = true;
        }
    }

    /// Reading from the socket would have blocked.
    pub fn on_read_blocked(&mut self)
        ensures
            *final(self) == (ConnectionManager { readable: false, ..*old(self) }),
    {
        self.readable = false;
    }

    /// Writing to the socket would have blocked.
    pub fn on_write_blocked(&mut self)
        ensures
            *final(self) == (ConnectionManager { writable: false, ..*old(self) }),
    {
        self.writable = false;
    }

    /// Opens a handshake with the peer at an index, under the given secret.
    pub fn open_with(&mut self, idx: usize, secret: HandshakeSecret)
        requires
            old(self).wf(),
            idx < old(self).connections@.len(),
        ensures
            final(self).wf(),
            final(self).with_peers_of(*old(self)),
            final(self).connections@ == with_connection(
                old(self).connections@,
                idx as int,
                opened(old(self).connections@[idx as int].2, old(self).own_cid, secret.scalar()),
            ),
    {
        let ghost before = self.connections@;
        let ghost scalar = secret.scalar();
        let point = secret.public();
        let bytes = handshake::opening(self.own_cid, point.as_slice());
        let discriminant = SynapseTransmissionKind::HandshakeInitiate.to_discriminant();
        let conn = self.connections.at_mut(idx);
        let ghost old_conn = conn@;
        conn.exchanged_key = Some(PeerKey::Inflight(secret));
        assert(conn@ == keyed(old_conn, KeyModel::Inflight(scalar)));
        conn.write_with_nonce(false, discriminant, bytes.as_slice(), &[]);
        proof {
            replacing_keeps_places(before, idx as int, conn@);
        }
    }

    /// Opens a handshake with an address, unless one is under way or done.
    pub fn open_connection(&mut self, addr: PeerAddr)
        requires
            old(self).wf(),
        ensures
            final(self).wf(),
            final(self).with_peers_of(*old(self)),
            exists|t: Timestamp, scalar: Seq<u8>|
                {
                    &&& t.wf()
                    &&& opens(old(self).connections@, addr) ==> p256_public(scalar) is Some
                    &&& final(self).connections@ == #[trigger] opening_to(
                        old(self).connections@,
                        old(self).own_cid,
                        addr,
                        t.instant(),
                        scalar,
                    )
                },
    {
        let ghost before = self.connections@;
        let ghost own = self.own_cid;
        let now = clock::now();
        let idx = self.connections.idx_for_addr_or_init_at(addr, &now);
        let ghost added = self.connections@;
        let ghost mut scalar = Seq::<u8>::empty();
        proof {
            added_peer_is_found(before, addr, now.instant());
            assert(added[idx as int].2.key is Some <==> !opens(before, addr));
        }
        if self.connections.connections[idx].2.exchanged_key.is_none() {
            let (secret, _) = HandshakeSecret::generate();
            proof {
                scalar = secret.scalar();
            }
            self.open_with(idx, secret);
        }
        assert(self.connections@ == opening_to(before, own, addr, now.instant(), scalar));
    }

    /// Whether a transmission can be written to every peer: one that is sealed
    /// must still fit a datagram.
    pub fn can_broadcast(&self, sealed: bool, len: usize) -> (ok: bool)
        ensures
            ok == fits_all(self.connections@, sealed, len as nat),
    {
        if !sealed || len <= MAX_UDP_DG_SIZE - (2 + NONCE_LEN + TAG_LEN) {
            return true;
        }
        let mut i: usize = 0;
        while i < self.connections.connections.len()
            invariant
                i <= self.connections.connections@.len(),
                sealed,
                len > MAX_UDP_DG_SIZE - (2 + NONCE_LEN + TAG_LEN),
                forall|j: int|
                    0 <= j < i ==> fits_slot(
                        (#[trigger] self.connections@[j]).2.key,
                        true,
                        len as nat,
                    ),
            decreases self.connections.connections@.len() - i,
        {
            if let Some(PeerKey::Exchanged(_)) = &self.connections.connections[i].2.exchanged_key {
                assert(!fits_slot(self.connections@[i as int].2.key, true, len as nat));
                return false;
            }
            i += 1;
        }
        true
    }

    /// Writes a transmission to every peer. Returns how many there are.
    pub fn broadcast(&mut self, sealed: bool, discriminant: u8, bytes: &[u8]) -> (written: usize)
        requires
            old(self).wf(),
            fits_all(old(self).connections@, sealed, bytes@.len()),
        ensures
            final(self).wf(),
            final(self).with_peers_of(*old(self)),
            written == old(self).connections@.len(),
            final(self).connections@.len() == old(self).connections@.len(),
            forall|i: int|
                0 <= i < old(self).connections@.len() ==> sent_to(
                    old(self).connections@[i],
                    #[trigger] final(self).connections@[i],
                    sealed,
                    discriminant,
                    bytes@,
                ),
    {
        let ghost before = self.connections@;
        let ghost start = *self;
        let count = self.connections.connections.len();
        let mut i: usize = 0;
        while i < count
            invariant
                i <= count == before.len(),
                self.wf(),
                self.with_peers_of(start),
                fits_all(before, sealed, bytes@.len()),
                self.connections@.len() == before.len(),
                forall|j: int|
                    0 <= j < i ==> sent_to(
                        before[j],
                        #[trigger] self.connections@[j],
                        sealed,
                        discriminant,
                        bytes@,
                    ),
                forall|j: int|
                    i <= j < before.len() ==> #[trigger] self.connections@[j] == before[j],
            decreases count - i,
        {
            let ghost here = self.connections@;
            assert(here[i as int] == before[i as int]);
            assert(fits_slot(before[i as int].2.key, sealed, bytes@.len()));
            let conn = self.connections.at_mut(i);
            conn.write_synapse_transmission(sealed, discriminant, bytes);
            proof {
                replacing_keeps_places(here, i as int, conn@);
            }
            i += 1;
        }
        count
    }

    /// Sends a transmission. Returns how many peers it was written to; opening
    /// a handshake is not counted.
    pub fn on_outbound(&mut self, osynt: OutboundSynapseTransmission) -> (written: usize)
        requires
            old(self).wf(),
            fits_all(old(self).connections@, sealed_kind(osynt.kind.seen_as()), osynt.bytes@.len()),
        ensures
            final(self).wf(),
            final(self).with_peers_of(*old(self)),
            match osynt.kind {
                OutboundSynapseTransmissionKind::HandshakeInitiate(addr) => {
                    &&& written == 0
                    &&& exists|t: Timestamp, scalar: Seq<u8>|
                        {
                            &&& t.wf()
                            &&& opens(old(self).connections@, addr) ==> p256_public(
                                scalar,
                            ) is Some
                            &&& final(self).connections@ == #[trigger] opening_to(
                                old(self).connections@,
                                old(self).own_cid,
                                addr,
                                t.instant(),
                                scalar,
                            )
                        }
                },
                _ => {
                    &&& written == old(self).connections@.len()
                    &&& final(self).connections@.len() == old(self).connections@.len()
                    &&& forall|i: int|
                        0 <= i < old(self).connections@.len() ==> sent_to(
                            old(self).connections@[i],
                            #[trigger] final(self).connections@[i],
                            sealed_kind(osynt.kind.seen_as()),
                            (osynt.kind.seen_as().number() * 32) as u8,
                            osynt.bytes@,
                        )
                },
            },
    {
        match osynt.kind {
            OutboundSynapseTransmissionKind::HandshakeInitiate(addr) => {
                self.open_connection(addr);
                0
            },
            _ => self.broadcast(
                osynt.kind.is_sealed(),
                osynt.kind.to_discriminant(),
                osynt.bytes.as_slice(),
            ),
        }
    }
}

/// A connection once a handshake is opened on it: the secret is in flight, and
/// the opening waits to be sent, in the clear.
pub open spec fn opened(conn: ConnModel, own: ClientId, scalar: Seq<u8>) -> ConnModel {
    keyed(conn, KeyModel::Inflight(scalar)).written(
        false,
        0,
        initiate_bytes(own, p256_public(scalar)->0),
        Seq::empty(),
    )
}

/// Whether asking for a connection to an address opens a handshake: no key is
/// exchanged or in flight.
pub open spec fn opens(peers: Seq<Peer>, addr: PeerAddr) -> bool {
    match index_of(peers, addr) {
        Some(index) => peers[index].2.key is None,
        None => true,
    }
}

/// The peers once a connection to an address was asked for.
pub open spec fn opening_to(
    peers: Seq<Peer>,
    own: ClientId,
    addr: PeerAddr,
    now: int,
    scalar: Seq<u8>,
) -> Seq<Peer> {
    let added = with_peer(peers, addr, now);
    let index = index_of(added, addr)->0;
    if added[index].2.key is Some {
        added
    } else {
        with_connection(added, index, opened(added[index].2, own, scalar))
    }
}

/// Whether a transmission fits the slots of all peers.
pub open spec fn fits_all(peers: Seq<Peer>, sealed: bool, len: nat) -> bool {
    forall|i: int|
        0 <= i < peers.len() ==> fits_slot((#[trigger] peers[i]).2.key, sealed, len)
}

/// Whether a transmission was written to a peer. What is sealed opens to what
/// was sent.
pub open spec fn sent_to(
    before: Peer,
    after: Peer,
    sealed: bool,
    discriminant: u8,
    bytes: Seq<u8>,
) -> bool {
    &&& after.0 == before.0
    &&& after.1 == before.1
    &&& exists|nonce: Seq<u8>|
        {
            &&& sealed ==> nonce.len() == NONCE_LEN
            &&& after.2 == #[trigger] before.2.written(sealed, discriminant, bytes, nonce)
            &&& sealed ==> before.2.opens_to(before.2.body(true, bytes, nonce), bytes)
            &&& before.2.awaits(sealed, discriminant, bytes, nonce)
        }
}

/// How long the manager takes transmissions to send before it turns to the
/// socket again.
pub const OUTBOUND_SLICE_NANOS: i128 = 50_000_000;

/// How many writes it makes at least before it turns to the socket again.
pub const OUTBOUND_BATCH: usize = 20;

/// Whether another transmission is taken: no more than 50 milliseconds have
/// passed, and no more than 20 writes were made.
pub fn takes_more(start: &Timestamp, now: &Timestamp, written: usize) -> (more: bool)
    ensures
        more <==> now.instant() - start.instant() <= 50_000_000 && written <= 20,
{
    now.since(start) <= OUTBOUND_SLICE_NANOS && written <= OUTBOUND_BATCH
}

/// A datagram that was taken is not taken again within the debounce period, and
/// changes nothing when it comes again.
pub proof fn repetition_is_ignored(
    peers: Seq<Peer>,
    own: ClientId,
    arrival: Arrival,
    scalar: Seq<u8>,
    nonce: Seq<u8>,
    again: int,
    other_scalar: Seq<u8>,
    other_nonce: Seq<u8>,
)
    requires
        peers_wf(peers),
        receive(peers, own, arrival, scalar, nonce).1 is Accepted,
        arrival.datagram[0] / 32 != SynapseTransmissionKind::Ack.number(),
        arrival.now <= again <= arrival.now + DEBOUNCE_NANOS,
    ensures
        receive(
            receive(peers, own, arrival, scalar, nonce).0,
            own,
            (Arrival { now: again, ..arrival }),
            other_scalar,
            other_nonce,
        ) == (receive(peers, own, arrival, scalar, nonce).0, VerdictModel::Ignored),
{
    let after = receive(peers, own, arrival, scalar, nonce).0;
    let later = Arrival { now: again, ..arrival };
    let addr = arrival.addr;
    let added = if arrival.datagram[0] / 32 == 0 {
        with_peer(peers, addr, arrival.now)
    } else {
        peers
    };
    added_peer_is_found(peers, addr, arrival.now);
    let index = index_of(added, addr)->0;
    assert(!no_peer_at(added, addr)) by {
        if arrival.datagram[0] / 32 == 0 && no_peer_at(peers, addr) {
            assert(added[peers.len() as int].0 == addr);
        }
    }
    a_peer_has_an_index(added, addr);
    assert(added[index].2.wf()) by {
        if index == peers.len() {
            assert(added[index].2 == fresh_connection(arrival.now));
        }
    }
    replacing_keeps_places(added, index, after[index].2);
    assert(after =~= with_connection(added, index, after[index].2));
    assert(after[index].2.recents[arrival.number()].0 == arrival.now);
    if arrival.datagram[0] / 32 == 0 {
        assert(!no_peer_at(after, addr)) by {
            assert(after[index].0 == addr);
        }
        assert(with_peer(after, addr, again) == after);
        assert(after[index].2.heard(arrival.number(), sha256(arrival.datagram), again));
    }
    assert(with_connection(after, index, after[index].2) =~= after);
}

/// A datagram changes nothing for peers at other addresses.
pub proof fn other_peers_are_untouched(
    peers: Seq<Peer>,
    own: ClientId,
    arrival: Arrival,
    scalar: Seq<u8>,
    nonce: Seq<u8>,
    index: int,
)
    requires
        0 <= index < peers.len(),
        peers[index].0 != arrival.addr,
    ensures
        receive(peers, own, arrival, scalar, nonce).0.len() >= peers.len(),
        receive(peers, own, arrival, scalar, nonce).0[index] == peers[index],
{
    added_peer_is_found(peers, arrival.addr, arrival.now);
    let added = with_peer(peers, arrival.addr, arrival.now);
    if !no_peer_at(peers, arrival.addr) {
        a_peer_has_an_index(peers, arrival.addr);
    }
    assert(!no_peer_at(added, arrival.addr)) by {
        if no_peer_at(peers, arrival.addr) {
            assert(added[peers.len() as int].0 == arrival.addr);
        }
    }
    a_peer_has_an_index(added, arrival.addr);
}

/// Whoever opened a handshake completes it with an answer that convinces: it
/// then holds the same secret and key as the one who answered, and each knows
/// the other's id.
pub proof fn handshake_completes(
    peers: Seq<Peer>,
    arrival: Arrival,
    own: ClientId,
    scalar: Seq<u8>,
    answerer: ClientId,
    answer_scalar: Seq<u8>,
    nonce: Seq<u8>,
)
    requires
        index_of(peers, arrival.addr) is Some,
        peers[index_of(peers, arrival.addr)->0].2.key == Some(KeyModel::Inflight(scalar)),
        p256_public(scalar) is Some,
        convinces(
            initiate_bytes(own, p256_public(scalar)->0),
            answerer,
            answer_scalar,
            nonce,
        ),
        ({
            let shared = p256_agreement(answer_scalar, p256_public(scalar)->0);
            &&& SynapseTransmission::well_formed(arrival.datagram)
            &&& arrival.datagram[0] / 32 == SynapseTransmissionKind::HandshakeResponse.number()
            &&& arrival.payload() == response_bytes(
                exchanged(shared, own),
                nonce,
                answerer,
                p256_public(answer_scalar)->0,
            )
            &&& arrival.payload().len() <= MAX_UDP_DG_SIZE
            &&& !peers[index_of(peers, arrival.addr)->0].2.heard(
                arrival.number(),
                sha256(arrival.datagram),
                arrival.now,
            )
        }),
    ensures
        ({
            let shared = p256_agreement(answer_scalar, p256_public(scalar)->0);
            let index = index_of(peers, arrival.addr)->0;
            let (after, verdict) = on_response(peers, arrival);
            &&& after[index].2.key == Some(exchanged(shared, answerer))
            &&& verdict == VerdictModel::Accepted(
                seq![EffectModel::Announce(answerer), arrival.ack()],
            )
        }),
{
    a_peer_has_an_index(peers, arrival.addr);
    initiate_is_read_back(own, p256_public(scalar)->0);
    assert(p256_public(scalar) == Some(p256_public(scalar)->0));
    assert(response_is_whole(arrival.payload()));
}

/// A packet that was sealed for a peer is handed on by that peer, unless it is
/// a repetition.
pub proof fn sealed_packet_is_delivered(
    conn: ConnModel,
    bytes: Seq<u8>,
    nonce: Seq<u8>,
    peers: Seq<Peer>,
    arrival: Arrival,
)
    requires
        conn.key is Some,
        conn.key->0 is Exchanged,
        conn.opens_to(conn.body(true, bytes, nonce), bytes),
        conn.awaits(true, 96, bytes, nonce),
        arrival.datagram == conn.written(true, 96, bytes, nonce).pending(
            conn.number_after() as int,
        ),
        index_of(peers, arrival.addr) is Some,
        ({
            let there = peers[index_of(peers, arrival.addr)->0].2;
            &&& there.key is Some
            &&& there.key->0 is Exchanged
            &&& there.key->0->key == conn.key->0->key
            &&& !there.heard(conn.number_after() as int, sha256(bytes), arrival.now)
        }),
    ensures
        forall|own: ClientId, scalar: Seq<u8>, other_nonce: Seq<u8>|
            (#[trigger] receive(peers, own, arrival, scalar, other_nonce)).1
                == VerdictModel::Accepted(
                seq![
                    EffectModel::Deliver {
                        decrypted_bytes: bytes,
                        addr: arrival.addr,
                        client_id: peers[index_of(peers, arrival.addr)->0].2.key->0->peer_id,
                    },
                    arrival.ack(),
                ],
            ),
{
    let body = conn.body(true, bytes, nonce);
    assert(arrival.datagram == seq![96u8, conn.number_after()] + body);
    assert(arrival.payload() =~= body);
}

/// The acknowledgement of a transmission frees its slot at the sender and no
/// other.
pub proof fn acknowledgement_frees_the_slot(
    peers: Seq<Peer>,
    own: ClientId,
    number: usize,
    addr: PeerAddr,
    now: int,
)
    requires
        number < 256,
        peers_wf(peers),
        index_of(peers, addr) is Some,
    ensures
        ({
            let index = index_of(peers, addr)->0;
            let arrival = Arrival { datagram: ack_bytes(number), addr, now };
            let after = receive(peers, own, arrival, Seq::empty(), Seq::empty()).0;
            &&& after[index].2.pending(number as int) == Seq::<u8>::empty()
            &&& forall|i: int|
                0 <= i < 256 && i != number ==> #[trigger] after[index].2.active[i]
                    == peers[index].2.active[i]
        }),
{
    a_peer_has_an_index(peers, addr);
    ack_is_read_back(number);
    assert(peers[index_of(peers, addr)->0].2.wf());
}

/// A good opening is taken, however many peers there are and wherever its
/// sender stands among them: from an address that is new or has no key yet,
/// and that did not just send the same, an opening that names its sender and
/// carries a point is acknowledged and answered, the sender is announced, and
/// the key is exchanged with it. No other peer changes.
pub proof fn a_good_opening_is_taken(
    peers: Seq<Peer>,
    own: ClientId,
    arrival: Arrival,
    scalar: Seq<u8>,
    nonce: Seq<u8>,
    id: ClientId,
) -> (at: int)
    requires
        arrival.datagram.len() >= 16,
        arrival.datagram[0] < 32,
        arrival.datagram.subrange(7, 16) == id.bytes(),
        p256_point(arrival.datagram.skip(16)),
        forall|i: int|
            0 <= i < peers.len() && (#[trigger] peers[i]).0 == arrival.addr ==> {
                &&& peers[i].2.key is None
                &&& peers[i].2.recents.len() == 256
                &&& peers[i].2.recents[arrival.datagram[1] as int].1 != sha256(arrival.datagram)
                    || arrival.now - peers[i].2.recents[arrival.datagram[1] as int].0 > 100_000_000
            },
    ensures
        ({
            let (after, verdict) = receive(peers, own, arrival, scalar, nonce);
            let shared = p256_agreement(scalar, arrival.datagram.skip(16));
            let seal = nonce + xchacha_seal(
                hkdf_key(shared),
                nonce,
                seq![104u8, 101u8, 108u8, 108u8, 111u8] + own.bytes(),
            );
            &&& verdict == VerdictModel::Accepted(
                seq![
                    EffectModel::Ack {
                        transmission_number: arrival.datagram[1] as int,
                        addr: arrival.addr,
                    },
                    EffectModel::Outbound {
                        kind: OutboundSynapseTransmissionKind::HandshakeResponse,
                        bytes: be_bytes(seal.len() as u64) + seal + p256_public(scalar)->0,
                        maybe_target: Some(id),
                    },
                    EffectModel::Announce(id),
                ],
            )
            &&& 0 <= at < after.len()
            &&& after[at].0 == arrival.addr
            &&& after[at].2.key == Some(
                KeyModel::Exchanged { peer_id: id, secret: shared, key: hkdf_key(shared) },
            )
            &&& after[at].2.recents[arrival.datagram[1] as int] == (
                arrival.now,
                sha256(arrival.datagram),
            )
            &&& at < peers.len() ==> {
                &&& after.len() == peers.len()
                &&& peers[at].0 == arrival.addr
                &&& after[at].1 == peers[at].1
                &&& after[at].2.active == peers[at].2.active
                &&& after[at].2.next == peers[at].2.next
                &&& forall|k: int|
                    0 <= k < 256 && k != arrival.datagram[1] ==> #[trigger] after[at].2.recents[k]
                        == peers[at].2.recents[k]
            }
            &&& at >= peers.len() ==> {
                &&& at == peers.len()
                &&& after.len() == peers.len() + 1
                &&& after[at].1 is None
                &&& after[at].2.next == 0
                &&& forall|k: int| 0 <= k < 256 ==> (#[trigger] after[at].2.active[k]).0 == 0
            }
            &&& forall|j: int|
                0 <= j < peers.len() && j != at ==> #[trigger] after[j] == peers[j]
        }),
{
    added_peer_is_found(peers, arrival.addr, arrival.now);
    let added = with_peer(peers, arrival.addr, arrival.now);
    let at = index_of(added, arrival.addr)->0;
    if !no_peer_at(peers, arrival.addr) {
        a_peer_has_an_index(peers, arrival.addr);
        assert(peers[at].0 == arrival.addr);
    } else {
        assert(added[at].2 == fresh_connection(arrival.now));
    }
    let payload = arrival.datagram.subrange(2, arrival.datagram.len() as int);
    assert(payload.subrange(5, 14) =~= arrival.datagram.subrange(7, 16));
    assert(payload.subrange(14, payload.len() as int) =~= arrival.datagram.skip(16));
    id_is_its_bytes(id);
    at
}

/// An opening that is not good is not taken: one that is too short, one from a
/// peer with a key, exchanged or in flight, and one that came just before are
/// dropped, and one without a point is faulty. None changes a key.
pub proof fn other_openings_are_not_taken(
    peers: Seq<Peer>,
    own: ClientId,
    arrival: Arrival,
    scalar: Seq<u8>,
    nonce: Seq<u8>,
    at: int,
)
    requires
        arrival.datagram.len() >= 2,
        arrival.datagram[0] < 32,
        0 <= at < peers.len(),
        peers[at].0 == arrival.addr,
        forall|j: int| 0 <= j < at ==> (#[trigger] peers[j]).0 != arrival.addr,
    ensures
        ({
            let (after, verdict) = receive(peers, own, arrival, scalar, nonce);
            let (then, sum) = peers[at].2.recents[arrival.datagram[1] as int];
            let again = sum == sha256(arrival.datagram) && arrival.now - then <= 100_000_000;
            &&& arrival.datagram.len() < 16 || peers[at].2.key is Some || again ==> verdict
                == VerdictModel::Ignored
            &&& arrival.datagram.len() >= 16 && peers[at].2.key is None && !again && !p256_point(
                arrival.datagram.skip(16),
            ) ==> verdict == VerdictModel::Faulty(Fault::BadPublicKey)
            &&& !(verdict is Accepted) ==> after[at].2.key == peers[at].2.key && after[at].2.active
                == peers[at].2.active && after.len() == peers.len()
            &&& again ==> after == peers
        }),
{
    found_at(peers, arrival.addr, at);
    assert(!no_peer_at(peers, arrival.addr));
    let payload = arrival.datagram.subrange(2, arrival.datagram.len() as int);
    if payload.len() >= 14 {
        assert(payload.subrange(14, payload.len() as int) =~= arrival.datagram.skip(16));
    }
    assert(with_connection(peers, at, peers[at].2) =~= peers);
}

/// A good answer is taken, wherever its sender stands among the peers: one that
/// holds as much sealed text as it announces and a point, and whose seal opens
/// under what the two agree on to `hello` and an id, completes a handshake that
/// is in flight. The answerer is announced, the answer acknowledged, and the key
/// exchanged with the answerer. No other peer changes.
pub proof fn a_good_answer_is_taken(
    peers: Seq<Peer>,
    own: ClientId,
    arrival: Arrival,
    scalar: Seq<u8>,
    nonce: Seq<u8>,
    at: int,
    secret: Seq<u8>,
    sealed: Seq<u8>,
    point: Seq<u8>,
    id: ClientId,
)
    requires
        arrival.datagram.len() >= 2,
        32 <= arrival.datagram[0] < 64,
        arrival.datagram.skip(2) == be_bytes(sealed.len() as u64) + sealed + point,
        sealed.len() <= 65_535,
        0 <= at < peers.len(),
        peers[at].0 == arrival.addr,
        forall|j: int| 0 <= j < at ==> (#[trigger] peers[j]).0 != arrival.addr,
        peers[at].2.recents.len() == 256,
        peers[at].2.recents[arrival.datagram[1] as int].1 != sha256(arrival.datagram) || arrival.now
            - peers[at].2.recents[arrival.datagram[1] as int].0 > 100_000_000,
        peers[at].2.key == Some(KeyModel::Inflight(secret)),
        p256_point(point),
        sealed.len() >= 24,
        xchacha_open(
            hkdf_key(p256_agreement(secret, point)),
            sealed.subrange(0, 24),
            sealed.subrange(24, sealed.len() as int),
        ) == Some(seq![104u8, 101u8, 108u8, 108u8, 111u8] + id.bytes()),
    ensures
        ({
            let (after, verdict) = receive(peers, own, arrival, scalar, nonce);
            let shared = p256_agreement(secret, point);
            &&& verdict == VerdictModel::Accepted(
                seq![
                    EffectModel::Announce(id),
                    EffectModel::Ack {
                        transmission_number: arrival.datagram[1] as int,
                        addr: arrival.addr,
                    },
                ],
            )
            &&& after.len() == peers.len()
            &&& after[at].0 == arrival.addr
            &&& after[at].2.key == Some(
                KeyModel::Exchanged { peer_id: id, secret: shared, key: hkdf_key(shared) },
            )
            &&& after[at].1 == peers[at].1
            &&& after[at].2.active == peers[at].2.active
            &&& after[at].2.next == peers[at].2.next
            &&& after[at].2.recents == peers[at].2.recents.update(
                arrival.datagram[1] as int,
                (arrival.now, sha256(arrival.datagram)),
            )
            &&& forall|j: int|
                0 <= j < peers.len() && j != at ==> #[trigger] after[j] == peers[j]
        }),
{
    found_at(peers, arrival.addr, at);
    assert(!no_peer_at(peers, arrival.addr));
    let payload = arrival.datagram.subrange(2, arrival.datagram.len() as int);
    assert(payload =~= arrival.datagram.skip(2));
    an_answer_is_taken_apart_by_its_length(sealed, point);
    an_answer_proves_who_it_is_from(secret, sealed, point, id);
}

/// An answer that is not good is not taken: one that is cut off, one from an
/// address without a handshake in flight, and one whose seal does not open to a
/// greeting are dropped; one that announces too much to count or that carries
/// no point is faulty. None changes a key.
pub proof fn other_answers_are_not_taken(
    peers: Seq<Peer>,
    own: ClientId,
    arrival: Arrival,
    scalar: Seq<u8>,
    nonce: Seq<u8>,
    at: int,
)
    requires
        2 <= arrival.datagram.len() <= 65_535,
        32 <= arrival.datagram[0] < 64,
        0 <= at < peers.len(),
        peers[at].0 == arrival.addr,
        forall|j: int| 0 <= j < at ==> (#[trigger] peers[j]).0 != arrival.addr,
    ensures
        ({
            let (after, verdict) = receive(peers, own, arrival, scalar, nonce);
            let rest = arrival.datagram.skip(2);
            &&& rest.len() < 8 ==> verdict == VerdictModel::Ignored
            &&& rest.len() >= 8 && be_value(rest) > u64::MAX - 8 ==> verdict
                == VerdictModel::Faulty(Fault::BadLength)
            &&& rest.len() >= 8 && rest.len() - 8 < be_value(rest) <= u64::MAX - 8 ==> verdict
                == VerdictModel::Ignored
            &&& !(peers[at].2.key is Some && peers[at].2.key->0 is Inflight) ==> !(
            verdict is Accepted)
            &&& rest.len() >= 8 && rest.len() - 8 >= be_value(rest) ==> {
                let (then, sum) = peers[at].2.recents[arrival.datagram[1] as int];
                let again = sum == sha256(arrival.datagram) && arrival.now - then <= 100_000_000;
                let point = rest.skip(8 + be_value(rest));
                let in_flight = peers[at].2.key is Some && peers[at].2.key->0 is Inflight;
                let text = opened_text(
                    hkdf_key(p256_agreement(peers[at].2.key->0->Inflight_0, point)),
                    rest.subrange(8, 8 + be_value(rest)),
                );
                &&& again ==> verdict == VerdictModel::Ignored && after == peers
                &&& !in_flight ==> verdict == VerdictModel::Ignored
                &&& !again && in_flight && !p256_point(point) ==> verdict == VerdictModel::Faulty(
                    Fault::BadPublicKey,
                )
                &&& p256_point(point) && (text is None || (text->0).len() != 14 || (text->0).take(5)
                    != seq![104u8, 101u8, 108u8, 108u8, 111u8]) ==> verdict
                    == VerdictModel::Ignored
            }
            &&& !(verdict is Accepted) ==> after.len() == peers.len() && after[at].2.key
                == peers[at].2.key
        }),
{
    found_at(peers, arrival.addr, at);
    assert(!no_peer_at(peers, arrival.addr));
    let payload = arrival.datagram.subrange(2, arrival.datagram.len() as int);
    let rest = arrival.datagram.skip(2);
    assert(payload =~= rest);
    assert(with_connection(peers, at, peers[at].2) =~= peers);
    if rest.len() >= 8 && rest.len() - 8 >= be_value(rest) {
        let point = rest.skip(8 + be_value(rest));
        assert(response_point(payload) =~= point);
        if let Some(text) = opened_text(
            hkdf_key(p256_agreement(peers[at].2.key->0->Inflight_0, point)),
            response_sealed(payload),
        ) {
            if text.len() == 14 {
                assert(text.take(5) =~= text.subrange(0, 5));
            }
        }
    }
}

/// A sealed packet whose seal opens under the key of its sender, and that is no
/// repetition, is handed on with its text and its sender's id and acknowledged,
/// wherever the sender stands among the peers. One whose seal does not open, or
/// from a peer without an exchanged key, or whose text came under its number
/// just before, is dropped.
pub proof fn what_opens_is_handed_on(
    peers: Seq<Peer>,
    own: ClientId,
    arrival: Arrival,
    scalar: Seq<u8>,
    nonce: Seq<u8>,
    at: int,
)
    requires
        arrival.datagram.len() >= 2,
        96 <= arrival.datagram[0] < 128,
        0 <= at < peers.len(),
        peers[at].0 == arrival.addr,
        forall|j: int| 0 <= j < at ==> (#[trigger] peers[j]).0 != arrival.addr,
    ensures
        ({
            let (after, verdict) = receive(peers, own, arrival, scalar, nonce);
            let (then, sum) = peers[at].2.recents[arrival.datagram[1] as int];
            let opened = xchacha_open(
                peers[at].2.key->0->key,
                arrival.datagram.subrange(2, 26),
                arrival.datagram.skip(26),
            );
            let has_key = peers[at].2.key is Some && peers[at].2.key->0 is Exchanged;
            &&& has_key && arrival.datagram.len() >= 26 && opened is Some && !(sum == sha256(
                opened->0,
            ) && arrival.now - then <= 100_000_000) ==> verdict == VerdictModel::Accepted(
                seq![
                    EffectModel::Deliver {
                        decrypted_bytes: opened->0,
                        addr: arrival.addr,
                        client_id: peers[at].2.key->0->peer_id,
                    },
                    EffectModel::Ack {
                        transmission_number: arrival.datagram[1] as int,
                        addr: arrival.addr,
                    },
                ],
            ) && after[at].2.recents == peers[at].2.recents.update(
                arrival.datagram[1] as int,
                (arrival.now, sha256(opened->0)),
            )
            &&& has_key && opened is Some && sum == sha256(opened->0) && arrival.now - then
                <= 100_000_000 ==> verdict == VerdictModel::Ignored && after == peers
            &&& !has_key || arrival.datagram.len() < 26 || opened is None ==> verdict
                == VerdictModel::Ignored && after == peers
            &&& after.len() == peers.len() && after[at].2.key == peers[at].2.key
            &&& after[at].0 == arrival.addr && after[at].1 == peers[at].1
            &&& after[at].2.active == peers[at].2.active && after[at].2.next == peers[at].2.next
            &&& forall|j: int|
                0 <= j < peers.len() && j != at ==> #[trigger] after[j] == peers[j]
        }),
{
    found_at(peers, arrival.addr, at);
    assert(!no_peer_at(peers, arrival.addr));
    let payload = arrival.datagram.subrange(2, arrival.datagram.len() as int);
    if arrival.datagram.len() >= 26 {
        assert(payload.subrange(0, 24) =~= arrival.datagram.subrange(2, 26));
        assert(payload.subrange(24, payload.len() as int) =~= arrival.datagram.skip(26));
    }
    assert(with_connection(peers, at, peers[at].2) =~= peers);
}

/// An acknowledgement of a number, with or without further bytes behind it,
/// frees that number at its sender's address and asks for nothing; one that is
/// cut off frees the number zero. Nothing else changes.
pub proof fn an_acknowledgement_frees_its_number(
    peers: Seq<Peer>,
    own: ClientId,
    arrival: Arrival,
    scalar: Seq<u8>,
    nonce: Seq<u8>,
    at: int,
)
    requires
        arrival.datagram.len() >= 1,
        64 <= arrival.datagram[0] < 96,
        0 <= at < peers.len(),
        peers[at].0 == arrival.addr,
        forall|j: int| 0 <= j < at ==> (#[trigger] peers[j]).0 != arrival.addr,
        peers[at].2.active.len() == 256,
    ensures
        ({
            let (after, verdict) = receive(peers, own, arrival, scalar, nonce);
            let number: int = if arrival.datagram.len() == 1 {
                0
            } else {
                arrival.datagram[1] as int
            };
            &&& verdict == VerdictModel::Accepted(Seq::empty())
            &&& after.len() == peers.len()
            &&& after[at].0 == arrival.addr && after[at].1 == peers[at].1
            &&& after[at].2.active[number].0 == 0
            &&& forall|k: int|
                0 <= k < 256 && k != number ==> #[trigger] after[at].2.active[k]
                    == peers[at].2.active[k]
            &&& after[at].2.next == peers[at].2.next
            &&& after[at].2.key == peers[at].2.key
            &&& after[at].2.recents == peers[at].2.recents
            &&& forall|j: int|
                0 <= j < peers.len() && j != at ==> #[trigger] after[j] == peers[j]
        }),
{
    found_at(peers, arrival.addr, at);
    assert(!no_peer_at(peers, arrival.addr));
}

/// From an address that no peer has, only an opening changes anything; an
/// answer, an acknowledgement or a sealed packet is dropped. What cannot be
/// taken apart and peer discovery are faulty, whoever sends them.
pub proof fn strangers_can_only_open(
    peers: Seq<Peer>,
    own: ClientId,
    arrival: Arrival,
    scalar: Seq<u8>,
    nonce: Seq<u8>,
)
    ensures
        ({
            let dg = arrival.datagram;
            let done = receive(peers, own, arrival, scalar, nonce);
            let stranger = forall|j: int|
                0 <= j < peers.len() ==> (#[trigger] peers[j]).0 != arrival.addr;
            &&& dg.len() == 0 || dg[0] >= 160 || (dg.len() == 1 && !(64 <= dg[0] < 96)) ==> done
                == (peers, VerdictModel::Faulty(Fault::Malformed))
            &&& dg.len() >= 2 && 128 <= dg[0] < 160 ==> done == (
                peers,
                VerdictModel::Faulty(Fault::PeerDiscovery),
            )
            &&& stranger && dg.len() >= 1 && 64 <= dg[0] < 96 ==> done == (
                peers,
                VerdictModel::Ignored,
            )
            &&& stranger && dg.len() >= 2 && 96 <= dg[0] < 128 ==> done == (
                peers,
                VerdictModel::Ignored,
            )
            &&& stranger && dg.len() >= 2 && 32 <= dg[0] < 64 ==> done.0 == peers && !(
            done.1 is Accepted)
            &&& stranger && 2 <= dg.len() < 16 && dg[0] < 32 ==> done.1 == VerdictModel::Ignored
                && done.0.len() == peers.len() + 1 && done.0.last().0 == arrival.addr
                && done.0.last().2.key is None
            &&& stranger && dg.len() >= 16 && dg[0] < 32 && !p256_point(dg.skip(16)) ==> done.1
                == VerdictModel::Faulty(Fault::BadPublicKey) && done.0.len() == peers.len() + 1
                && done.0.last().0 == arrival.addr && done.0.last().2.key is None
        }),
{
    let dg = arrival.datagram;
    if forall|j: int| 0 <= j < peers.len() ==> (#[trigger] peers[j]).0 != arrival.addr {
        assert(no_peer_at(peers, arrival.addr));
        added_peer_is_found(peers, arrival.addr, arrival.now);
        if dg.len() >= 16 {
            let payload = dg.subrange(2, dg.len() as int);
            assert(payload.subrange(14, payload.len() as int) =~= dg.skip(16));
        }
    }
}

/// Asking for a connection to an address that is new or has no key puts a
/// secret in flight there, and its opening waits to be sent in the clear under
/// the next number; one with a key is left as it is. No other peer changes.
pub proof fn an_opening_is_put_in_flight(
    peers: Seq<Peer>,
    own: ClientId,
    addr: PeerAddr,
    now: int,
    scalar: Seq<u8>,
) -> (at: int)
    requires
        peers_wf(peers),
        (p256_public(scalar)->0).len() <= 1000,
    ensures
        ({
            let after = opening_to(peers, own, addr, now, scalar);
            &&& 0 <= at < after.len()
            &&& after[at].0 == addr
            &&& at < peers.len() ==> after.len() == peers.len() && peers[at].0 == addr
            &&& at >= peers.len() ==> at == peers.len() && after.len() == peers.len() + 1
                && after[at].2.next == 1
            &&& at < peers.len() && peers[at].2.key is Some ==> after == peers
            &&& at >= peers.len() || peers[at].2.key is None ==> {
                &&& after[at].2.key == Some(KeyModel::Inflight(scalar))
                &&& after[at].2.pending(after[at].2.next as int) == seq![0u8, after[at].2.next]
                    + seq![104u8, 101u8, 108u8, 108u8, 111u8] + own.bytes() + p256_public(scalar)->0
            }
            &&& at < peers.len() && peers[at].2.key is None ==> {
                &&& after[at].2.next == (if peers[at].2.next == 255 {
                    0
                } else {
                    peers[at].2.next + 1
                })
                &&& after[at].1 == peers[at].1
                &&& after[at].2.recents == peers[at].2.recents
                &&& forall|k: int|
                    0 <= k < 256 && k != after[at].2.next ==> #[trigger] after[at].2.active[k]
                        == peers[at].2.active[k]
            }
            &&& forall|j: int|
                0 <= j < peers.len() && j != at ==> #[trigger] after[j] == peers[j]
        }),
{
    added_peer_is_found(peers, addr, now);
    let added = with_peer(peers, addr, now);
    let at = index_of(added, addr)->0;
    if !no_peer_at(peers, addr) {
        a_peer_has_an_index(peers, addr);
        assert(peers[at].2.wf());
    } else {
        assert(added[at].2 == fresh_connection(now));
        a_new_connection_has_heard_nothing(now, 0, Seq::empty());
    }
    if added[at].2.key is None {
        let conn = keyed(added[at].2, KeyModel::Inflight(scalar));
        let bytes = initiate_bytes(own, p256_public(scalar)->0);
        own.nine_bytes();
        assert(conn.wf()) by {
            assert(added[at].2.wf());
        }
        what_is_written_waits_under_the_next_number(conn, 0, bytes, Seq::empty());
        let n = conn.number_after();
        assert(seq![0u8, n] + bytes =~= seq![0u8, n] + seq![104u8, 101u8, 108u8, 108u8, 111u8]
            + own.bytes() + p256_public(scalar)->0);
    }
    at
}

/// A peer that a transmission was written to has it waiting under the next
/// number: in the clear as it is, sealed so that it opens to what was sent.
/// Where it is, who it is, its key and its other numbers stay.
pub proof fn what_was_sent_waits_to_be_sent(
    before: Peer,
    after: Peer,
    sealed: bool,
    discriminant: u8,
    bytes: Seq<u8>,
)
    requires
        before.2.wf(),
        bytes.len() <= 65_533,
        sent_to(before, after, sealed, discriminant, bytes),
    ensures
        after.0 == before.0,
        after.1 == before.1,
        after.2.key == before.2.key,
        after.2.recents == before.2.recents,
        after.2.next == (if before.2.next == 255 {
            0
        } else {
            before.2.next + 1
        }),
        forall|k: int|
            0 <= k < 256 && k != after.2.next ==> #[trigger] after.2.active[k]
                == before.2.active[k],
        !sealed ==> after.2.pending(after.2.next as int) == seq![discriminant, after.2.next]
            + bytes,
        sealed && before.2.key is None ==> after.2.active[after.2.next as int].0
            == before.2.active[after.2.next as int].0,
        sealed && before.2.key is Some && before.2.key->0 is Exchanged ==> {
            let sent = after.2.pending(after.2.next as int);
            &&& sent.len() >= 26
            &&& sent[0] == discriminant
            &&& sent[1] == after.2.next
            &&& xchacha_open(
                before.2.key->0->key,
                sent.subrange(2, 26),
                sent.skip(26),
            ) == Some(bytes)
        },
{
    let nonce = choose|nonce: Seq<u8>|
        {
            &&& sealed ==> nonce.len() == NONCE_LEN
            &&& after.2 == #[trigger] before.2.written(sealed, discriminant, bytes, nonce)
            &&& sealed ==> before.2.opens_to(before.2.body(true, bytes, nonce), bytes)
            &&& before.2.awaits(sealed, discriminant, bytes, nonce)
        };
    if !sealed {
        what_is_written_waits_under_the_next_number(before.2, discriminant, bytes, nonce);
    } else {
        what_is_sealed_waits_under_the_next_number(before.2, discriminant, bytes, nonce);
        if before.2.key is Some && before.2.key->0 is Exchanged {
            let body = before.2.body(true, bytes, nonce);
            let sent = after.2.pending(after.2.next as int);
            assert(sent == seq![discriminant, after.2.next] + body);
            assert(body.subrange(0, 24) =~= sent.subrange(2, 26));
            assert(body.subrange(24, body.len() as int) =~= sent.skip(26));
        }
    }
}

impl ConnectionManager {
    /// Managers that differ in their connections alone have the same id and
    /// address, and a socket in the same state.
    pub proof fn only_connections_differ(self, other: Self)
        requires
            self.with_peers_of(other),
        ensures
            self == (ConnectionManager { connections: self.connections, ..other }),
    {
    }
}

/// A transmission fits every peer's slot where it is not sealed, or is short
/// enough to be, or no peer has a key to seal it under; and only there.
pub proof fn what_fits_every_slot(peers: Seq<Peer>, sealed: bool, len: nat)
    ensures
        fits_all(peers, sealed, len) <==> !sealed || len <= 65_493 || forall|i: int|
            0 <= i < peers.len() ==> !((#[trigger] peers[i]).2.key is Some
                && peers[i].2.key->0 is Exchanged),
{
    if sealed && len > 65_493 && fits_all(peers, sealed, len) {
        assert forall|i: int| 0 <= i < peers.len() implies !((#[trigger] peers[i]).2.key is Some
            && peers[i].2.key->0 is Exchanged) by {
            assert(fits_slot(peers[i].2.key, sealed, len));
        }
    }
}

} // verus!
