//! The registry of peers: the connections of one client together with the
//! peers that it is connected to, and transmissions that are routed by
//! address.

use vstd::prelude::*;

use super::client_id::{ClientId, PeerAddr, PeerRegistryEntry};
use super::connman::{
    a_good_answer_is_taken, a_good_opening_is_taken, convinces, fits_all, opening_to, opens,
    receive, repetition_is_ignored, sent_to, Arrival, ConnectionManager, Effect, EffectModel,
    Fault, Verdict, VerdictModel,
};
use super::handshake::{initiate_peer, initiate_point, response_bytes};
use super::ledger::{
    a_peer_has_an_index, found_at, index_of, no_peer_at, peers_wf, replacing_keeps_places,
    with_connection, Peer,
};
use super::message::MAX_UDP_DG_SIZE;
use super::peer::{exchanged, fits_slot, opened_text, KeyModel, DEBOUNCE_NANOS};
use super::synapse::{
    sealed_kind, AttributedInboundBytes, OutboundSynapseTransmissionKind, SynapseTransmission,
    SynapseTransmissionKind,
};
use crate::clock::{self, Timestamp};
use crate::crypto::{
    self, hkdf_key, p256_agreement, p256_point, p256_public, sha256, xchacha_open, xchacha_seal,
    NONCE_LEN,
};
use crate::wire::be_bytes;

verus! {

/// A transmission to be sent: to one address, or to every peer.
pub struct RoutedTransmission {
    pub kind: SynapseTransmissionKind,
    pub bytes: Vec<u8>,
    pub maybe_target_address: Option<PeerAddr>,
}

/// What is to be done about a datagram, in this order.
pub enum RoutedEffect {
    /// Acknowledge the transmission to the peer.
    Ack { transmission_number: usize, addr: PeerAddr },
    /// Send a transmission.
    Outbound(RoutedTransmission),
    /// Note that a peer is connected.
    Connected(PeerRegistryEntry),
    /// Hand on what the peer sent.
    Deliver(AttributedInboundBytes),
}

/// Something to be done, as plain values.
pub enum RoutedEffectModel {
    Ack { transmission_number: int, addr: PeerAddr },
    Outbound {
        kind: SynapseTransmissionKind,
        bytes: Seq<u8>,
        maybe_target_address: Option<PeerAddr>,
    },
    Connected { client_id: ClientId, local_addr: PeerAddr },
    Deliver { decrypted_bytes: Seq<u8>, addr: PeerAddr, client_id: ClientId },
}

impl View for RoutedEffect {
    type V = RoutedEffectModel;

    open spec fn view(&self) -> RoutedEffectModel {
        match *self {
            RoutedEffect::Ack { transmission_number, addr } => RoutedEffectModel::Ack {
                transmission_number: transmission_number as int,
                addr,
            },
            RoutedEffect::Outbound(o) => RoutedEffectModel::Outbound {
                kind: o.kind,
                bytes: o.bytes@,
                maybe_target_address: o.maybe_target_address,
            },
            RoutedEffect::Connected(entry) => RoutedEffectModel::Connected {
                client_id: entry.client_id,
                local_addr: entry.local_addr,
            },
            RoutedEffect::Deliver(d) => RoutedEffectModel::Deliver {
                decrypted_bytes: d.decrypted_bytes@,
                addr: d.addr,
                client_id: d.client_id,
            },
        }
    }
}

/// What becomes of a datagram.
pub enum RoutedVerdict {
    /// It is dropped.
    Ignored,
    /// It cannot be handled.
    Faulty(Fault),
    /// It is taken, and this is to be done.
    Accepted(Vec<RoutedEffect>),
}

/// What becomes of a datagram, as plain values.
pub enum RoutedVerdictModel {
    Ignored,
    Faulty(Fault),
    Accepted(Seq<RoutedEffectModel>),
}

impl View for RoutedVerdict {
    type V = RoutedVerdictModel;

    open spec fn view(&self) -> RoutedVerdictModel {
        match *self {
            RoutedVerdict::Ignored => RoutedVerdictModel::Ignored,
            RoutedVerdict::Faulty(fault) => RoutedVerdictModel::Faulty(fault),
            RoutedVerdict::Accepted(effects) => RoutedVerdictModel::Accepted(
                Seq::new(effects@.len(), |i: int| effects@[i]@),
            ),
        }
    }
}

/// Something to be done about a datagram from an address: an answer goes to
/// that address, and a peer is connected there.
pub open spec fn routed_effect(effect: EffectModel, addr: PeerAddr) -> RoutedEffectModel {
    match effect {
        EffectModel::Ack { transmission_number, addr } => RoutedEffectModel::Ack {
            transmission_number,
            addr,
        },
        EffectModel::Outbound { kind, bytes, maybe_target } => RoutedEffectModel::Outbound {
            kind: kind.seen_as(),
            bytes,
            maybe_target_address: Some(addr),
        },
        EffectModel::Announce(client_id) => RoutedEffectModel::Connected {
            client_id,
            local_addr: addr,
        },
        EffectModel::Deliver { decrypted_bytes, addr, client_id } => RoutedEffectModel::Deliver {
            decrypted_bytes,
            addr,
            client_id,
        },
    }
}

/// What becomes of a datagram from an address.
pub open spec fn routed(verdict: VerdictModel, addr: PeerAddr) -> RoutedVerdictModel {
    match verdict {
        VerdictModel::Ignored => RoutedVerdictModel::Ignored,
        VerdictModel::Faulty(fault) => RoutedVerdictModel::Faulty(fault),
        VerdictModel::Accepted(effects) => RoutedVerdictModel::Accepted(
            Seq::new(effects.len(), |i: int| routed_effect(effects[i], addr)),
        ),
    }
}

/// Routes something to be done about a datagram from an address.
fn route_effect(effect: Effect, addr: PeerAddr) -> (out: RoutedEffect)
    ensures
        out@ == routed_effect(effect@, addr),
{
    match effect {
        Effect::Ack { transmission_number, addr } => RoutedEffect::Ack {
            transmission_number,
            addr,
        },
        Effect::Outbound(o) => {
            let kind = match o.kind {
                OutboundSynapseTransmissionKind::HandshakeInitiate(_) =>
                    SynapseTransmissionKind::HandshakeInitiate,
                OutboundSynapseTransmissionKind::HandshakeResponse =>
                    SynapseTransmissionKind::HandshakeResponse,
                OutboundSynapseTransmissionKind::Ack { .. } => SynapseTransmissionKind::Ack,
                OutboundSynapseTransmissionKind::KnownPacket =>
                    SynapseTransmissionKind::KnownPacket,
                OutboundSynapseTransmissionKind::PeerDiscovery =>
                    SynapseTransmissionKind::PeerDiscovery,
            };
            RoutedEffect::Outbound(
                RoutedTransmission { kind, bytes: o.bytes, maybe_target_address: Some(addr) },
            )
        },
        Effect::Announce(client_id) => RoutedEffect::Connected(
            PeerRegistryEntry { client_id, local_addr: addr },
        ),
        Effect::Deliver(d) => RoutedEffect::Deliver(d),
    }
}

/// Routes what becomes of a datagram from an address.
fn route(verdict: Verdict, addr: PeerAddr) -> (out: RoutedVerdict)
    ensures
        out@ == routed(verdict@, addr),
{
    match verdict {
        Verdict::Ignored => RoutedVerdict::Ignored,
        Verdict::Faulty(fault) => RoutedVerdict::Faulty(fault),
        Verdict::Accepted(effects) => {
            let ghost all = effects@;
            let mut rest = effects;
            let mut done: Vec<RoutedEffect> = Vec::new();
            while rest.len() > 0
                invariant
                    done@.len() + rest@.len() == all.len(),
                    rest@ == all.subrange(done@.len() as int, all.len() as int),
                    forall|i: int|
                        0 <= i < done@.len() ==> (#[trigger] done@[i])@ == routed_effect(
                            all[i]@,
                            addr,
                        ),
                decreases rest@.len(),
            {
                let effect = rest.remove(0);
                done.push(route_effect(effect, addr));
                assert(rest@ =~= all.subrange(done@.len() as int, all.len() as int));
            }
            let out = RoutedVerdict::Accepted(done);
            assert(out@->Accepted_0 =~= routed(verdict@, addr)->Accepted_0);
            out
        },
    }
}

/// A sealed packet comes in. It is handed on where the datagram is no
/// repetition and its seal holds.
pub open spec fn on_sealed(peers: Seq<Peer>, arrival: Arrival) -> (Seq<Peer>, VerdictModel) {
    match index_of(peers, arrival.addr) {
        None => (peers, VerdictModel::Ignored),
        Some(index) => {
            let conn = peers[index].2;
            let sum = sha256(arrival.datagram);
            let noted = with_connection(
                peers,
                index,
                conn.hearing(arrival.number(), sum, arrival.now),
            );
            match conn.key {
                Some(KeyModel::Exchanged { peer_id, secret, key }) => {
                    match opened_text(key, arrival.payload()) {
                        Some(text) => if conn.heard(arrival.number(), sum, arrival.now) {
                            (noted, VerdictModel::Ignored)
                        } else {
                            (
                                noted,
                                VerdictModel::Accepted(
                                    seq![
                                        EffectModel::Deliver {
                                            decrypted_bytes: text,
                                            addr: arrival.addr,
                                            client_id: peer_id,
                                        },
                                        arrival.ack(),
                                    ],
                                ),
                            )
                        },
                        None => (noted, VerdictModel::Ignored),
                    }
                },
                _ => (noted, VerdictModel::Ignored),
            }
        },
    }
}

/// A datagram comes in. The scalar and the nonce are those that an answer to a
/// handshake would be made with; the answer goes to where the datagram came
/// from.
pub open spec fn register(
    peers: Seq<Peer>,
    own: ClientId,
    arrival: Arrival,
    scalar: Seq<u8>,
    nonce: Seq<u8>,
) -> (Seq<Peer>, RoutedVerdictModel) {
    let (after, verdict) = if SynapseTransmission::well_formed(arrival.datagram)
        && arrival.datagram[0] / 32 == SynapseTransmissionKind::KnownPacket.number() {
        on_sealed(peers, arrival)
    } else {
        receive(peers, own, arrival, scalar, nonce)
    };
    (after, routed(verdict, arrival.addr))
}

/// A datagram that the registry took is not taken again within the debounce
/// period, and changes nothing when it comes again.
pub proof fn registered_repetition_is_ignored(
    peers: Seq<Peer>,
    own: ClientId,
    arrival: Arrival,
    scalar: Seq<u8>,
    nonce: Seq<u8>,
    again: int,
    other_scalar: Seq<u8>,
    other_nonce: Seq<u8>,
)
    requires
        peers_wf(peers),
        register(peers, own, arrival, scalar, nonce).1 is Accepted,
        arrival.datagram[0] / 32 != SynapseTransmissionKind::Ack.number(),
        arrival.now <= again <= arrival.now + DEBOUNCE_NANOS,
    ensures
        register(
            register(peers, own, arrival, scalar, nonce).0,
            own,
            (Arrival { now: again, ..arrival }),
            other_scalar,
            other_nonce,
        ) == (register(peers, own, arrival, scalar, nonce).0, RoutedVerdictModel::Ignored),
{
    let after = register(peers, own, arrival, scalar, nonce).0;
    if SynapseTransmission::well_formed(arrival.datagram) && arrival.datagram[0] / 32
        == SynapseTransmissionKind::KnownPacket.number() {
        a_peer_has_an_index(peers, arrival.addr);
        let index = index_of(peers, arrival.addr)->0;
        assert(peers[index].2.wf());
        replacing_keeps_places(peers, index, after[index].2);
        assert(after =~= with_connection(peers, index, after[index].2));
        assert(after[index].2.recents[arrival.number()] == (arrival.now, sha256(arrival.datagram)));
        assert(with_connection(after, index, after[index].2) =~= after);
    } else {
        repetition_is_ignored(
            peers,
            own,
            arrival,
            scalar,
            nonce,
            again,
            other_scalar,
            other_nonce,
        );
    }
}

/// The answer to an opened handshake goes to the address that it was opened
/// from, and the peer is connected there.
pub proof fn answers_go_to_the_sender(
    peers: Seq<Peer>,
    own: ClientId,
    arrival: Arrival,
    scalar: Seq<u8>,
    nonce: Seq<u8>,
)
    requires
        register(peers, own, arrival, scalar, nonce).1 is Accepted,
        arrival.datagram[0] / 32 == SynapseTransmissionKind::HandshakeInitiate.number(),
    ensures
        ({
            let effects = register(peers, own, arrival, scalar, nonce).1->Accepted_0;
            let peer = initiate_peer(arrival.payload());
            let shared = p256_agreement(scalar, initiate_point(arrival.payload()));
            effects == seq![
                RoutedEffectModel::Ack {
                    transmission_number: arrival.number(),
                    addr: arrival.addr,
                },
                RoutedEffectModel::Outbound {
                    kind: SynapseTransmissionKind::HandshakeResponse,
                    bytes: response_bytes(
                        exchanged(shared, peer),
                        nonce,
                        own,
                        p256_public(scalar)->0,
                    ),
                    maybe_target_address: Some(arrival.addr),
                },
                RoutedEffectModel::Connected { client_id: peer, local_addr: arrival.addr },
            ]
        }),
{
}

/// A client, its connections, and the peers that it is connected to.
pub struct PeerRegistry {
    pub me: PeerRegistryEntry,
    pub siblings: Vec<PeerRegistryEntry>,
    pub manager: ConnectionManager,
}

impl PeerRegistry {
    /// The peers' records are well formed.
    pub open spec fn wf(self) -> bool {
        self.manager.wf()
    }

    /// The peers' records.
    pub open spec fn peers(self) -> Seq<Peer> {
        self.manager.connections@
    }

    /// Whether only the peers' records differ.
    pub open spec fn with_peers_of(self, other: Self) -> bool {
        &&& self.me == other.me
        &&& self.siblings == other.siblings
        &&& self.manager.with_peers_of(other.manager)
    }

    /// A client without connections.
    pub fn new(me: PeerRegistryEntry) -> (r: Self)
        ensures
            r.wf(),
            r.me == me,
            r.siblings@ == Seq::<PeerRegistryEntry>::empty(),
            r.peers() == Seq::<Peer>::empty(),
            r.manager.own_cid == me.client_id,
            r.manager.own_addr == me.local_addr,
    {
        let manager = ConnectionManager::init(me.client_id, me.local_addr);
        PeerRegistry { me, siblings: Vec::new(), manager }
    }

    /// A peer is connected: it is listed behind those that came before it.
    pub fn peer_connected(&mut self, client_id: ClientId, local_addr: PeerAddr)
        ensures
            final(self).siblings@ == old(self).siblings@.push(
                PeerRegistryEntry { client_id, local_addr },
            ),
            final(self).me == old(self).me,
            final(self).manager == old(self).manager,
    {
        self.siblings.push(PeerRegistryEntry { client_id, local_addr });
    }

    /// A sealed packet comes from a peer.
    fn handle_sealed(
        &mut self,
        dg: &[u8],
        isynt: &SynapseTransmission,
        addr: PeerAddr,
        now: &Timestamp,
    ) -> (verdict: Verdict)
        requires
            old(self).wf(),
            dg@.len() <= MAX_UDP_DG_SIZE,
            isynt.transmission_number == SynapseTransmission::number_of(dg@),
            isynt.transmission_number < 256,
            isynt.bytes@ == SynapseTransmission::payload_of(dg@),
            isynt.bytes@.len() <= dg@.len(),
        ensures
            final(self).wf(),
            final(self).with_peers_of(*old(self)),
            (final(self).peers(), verdict@) == on_sealed(
                old(self).peers(),
                (Arrival { datagram: dg@, addr, now: now.instant() }),
            ),
    {
        let ghost arrival = Arrival { datagram: dg@, addr, now: now.instant() };
        let ghost before = self.peers();
        let idx = match self.manager.connections.idx_for_addr(addr) {
            None => {
                return Verdict::Ignored;
            },
            Some(idx) => idx,
        };
        let checksum = crypto::digest(dg);
        let ghost sum = checksum@;
        let conn = self.manager.connections.at_mut(idx);
        proof {
            replacing_keeps_places(
                before,
                idx as int,
                conn@.hearing(arrival.number(), sum, arrival.now),
            );
        }
        let heard = conn.recently_received_at(isynt.transmission_number, checksum, now);
        if heard {
            return Verdict::Ignored;
        }
        match conn.decrypt(isynt.bytes.as_slice()) {
            None => Verdict::Ignored,
            Some((client_id, decrypted_bytes)) => {
                let mut effects: Vec<Effect> = Vec::new();
                effects.push(
                    Effect::Deliver(AttributedInboundBytes { decrypted_bytes, addr, client_id }),
                );
                effects.push(Effect::Ack { transmission_number: isynt.transmission_number, addr });
                let verdict = Verdict::Accepted(effects);
                assert(verdict@->Accepted_0 =~= on_sealed(before, arrival).1->Accepted_0);
                verdict
            },
        }
    }

    /// A datagram comes in at the given instant.
    pub fn on_datagram_at(&mut self, dg: &[u8], addr: PeerAddr, now: &Timestamp) -> (verdict:
        RoutedVerdict)
        requires
            old(self).wf(),
            dg@.len() <= MAX_UDP_DG_SIZE,
            now.wf(),
        ensures
            final(self).wf(),
            final(self).with_peers_of(*old(self)),
            exists|scalar: Seq<u8>, nonce: Seq<u8>|
                {
                    &&& nonce.len() == NONCE_LEN
                    &&& (final(self).peers(), verdict@) == #[trigger] register(
                        old(self).peers(),
                        old(self).manager.own_cid,
                        (Arrival { datagram: dg@, addr, now: now.instant() }),
                        scalar,
                        nonce,
                    )
                    &&& verdict is Accepted && dg@[0] / 32 == 0 ==> convinces(
                        SynapseTransmission::payload_of(dg@),
                        old(self).manager.own_cid,
                        scalar,
                        nonce,
                    )
                },
    {
        let ghost arrival = Arrival { datagram: dg@, addr, now: now.instant() };
        let ghost before = self.peers();
        let ghost own = self.manager.own_cid;
        if SynapseTransmission::is_well_formed(dg) {
            let isynt = SynapseTransmission::parse_datagram(dg);
            if let SynapseTransmissionKind::KnownPacket = isynt.kind {
                let verdict = route(self.handle_sealed(dg, &isynt, addr, now), addr);
                assert((self.peers(), verdict@) == register(
                    before,
                    own,
                    arrival,
                    Seq::empty(),
                    Seq::new(24, |i: int| 0u8),
                ));
                return verdict;
            }
        }
        let unrouted = self.manager.on_datagram_at(dg, addr, now);
        let ghost model = unrouted@;
        let verdict = route(unrouted, addr);
        proof {
            let (scalar, nonce) = choose|scalar: Seq<u8>, nonce: Seq<u8>|
                {
                    &&& nonce.len() == NONCE_LEN
                    &&& (self.peers(), model) == #[trigger] receive(
                        before,
                        own,
                        arrival,
                        scalar,
                        nonce,
                    )
                    &&& model is Accepted && dg@[0] / 32 == 0 ==> convinces(
                        SynapseTransmission::payload_of(dg@),
                        own,
                        scalar,
                        nonce,
                    )
                };
            assert((self.peers(), verdict@) == register(before, own, arrival, scalar, nonce));
        }
        verdict
    }

    /// A datagram comes in.
    pub fn on_datagram(&mut self, dg: &[u8], addr: PeerAddr) -> (verdict: RoutedVerdict)
        requires
            old(self).wf(),
            dg@.len() <= MAX_UDP_DG_SIZE,
        ensures
            final(self).wf(),
            final(self).with_peers_of(*old(self)),
            exists|t: Timestamp, scalar: Seq<u8>, nonce: Seq<u8>|
                {
                    &&& t.wf()
                    &&& nonce.len() == NONCE_LEN
                    &&& (final(self).peers(), verdict@) == #[trigger] register(
                        old(self).peers(),
                        old(self).manager.own_cid,
                        (Arrival { datagram: dg@, addr, now: t.instant() }),
                        scalar,
                        nonce,
                    )
                    &&& verdict is Accepted && dg@[0] / 32 == 0 ==> convinces(
                        SynapseTransmission::payload_of(dg@),
                        old(self).manager.own_cid,
                        scalar,
                        nonce,
                    )
                },
    {
        let now = clock::now();
        self.on_datagram_at(dg, addr, &now)
    }

    /// Sends a transmission. One for an address goes there alone, and nowhere
    /// where the address is unknown; one without an address goes to every
    /// peer. A handshake is opened only with an address. Returns how many
    /// peers a transmission without an address was written to.
    pub fn send(&mut self, osynt: RoutedTransmission) -> (written: usize)
        requires
            old(self).wf(),
            routed_fits(
                old(self).peers(),
                osynt.kind,
                osynt.maybe_target_address,
                osynt.bytes@.len(),
            ),
        ensures
            final(self).wf(),
            final(self).with_peers_of(*old(self)),
            match (osynt.kind, osynt.maybe_target_address) {
                (SynapseTransmissionKind::HandshakeInitiate, None) => {
                    &&& written == 0
                    &&& final(self).peers() == old(self).peers()
                },
                (SynapseTransmissionKind::HandshakeInitiate, Some(addr)) => {
                    &&& written == 0
                    &&& exists|t: Timestamp, scalar: Seq<u8>|
                        {
                            &&& t.wf()
                            &&& opens(old(self).peers(), addr) ==> p256_public(scalar) is Some
                            &&& final(self).peers() == #[trigger] opening_to(
                                old(self).peers(),
                                old(self).manager.own_cid,
                                addr,
                                t.instant(),
                                scalar,
                            )
                        }
                },
                (kind, Some(addr)) => {
                    &&& written == 0
                    &&& match index_of(old(self).peers(), addr) {
                        None => final(self).peers() == old(self).peers(),
                        Some(index) => {
                            &&& sent_to(
                                old(self).peers()[index],
                                final(self).peers()[index],
                                sealed_kind(kind),
                                (kind.number() * 32) as u8,
                                osynt.bytes@,
                            )
                            &&& final(self).peers() == old(self).peers().update(
                                index,
                                final(self).peers()[index],
                            )
                        },
                    }
                },
                (kind, None) => {
                    &&& written == old(self).peers().len()
                    &&& final(self).peers().len() == old(self).peers().len()
                    &&& forall|i: int|
                        0 <= i < old(self).peers().len() ==> sent_to(
                            old(self).peers()[i],
                            #[trigger] final(self).peers()[i],
                            sealed_kind(kind),
                            (kind.number() * 32) as u8,
                            osynt.bytes@,
                        )
                },
            },
    {
        let ghost before = self.peers();
        let discriminant = osynt.kind.to_discriminant();
        let sealed = match osynt.kind {
            SynapseTransmissionKind::HandshakeInitiate => {
                if let Some(addr) = osynt.maybe_target_address {
                    self.manager.open_connection(addr);
                }
                return 0;
            },
            SynapseTransmissionKind::KnownPacket => true,
            SynapseTransmissionKind::PeerDiscovery => true,
            _ => false,
        };
        match osynt.maybe_target_address {
            None => self.manager.broadcast(sealed, discriminant, osynt.bytes.as_slice()),
            Some(addr) => {
                if let Some(idx) = self.manager.connections.idx_for_addr(addr) {
                    let conn = self.manager.connections.at_mut(idx);
                    conn.write_synapse_transmission(sealed, discriminant, osynt.bytes.as_slice());
                    proof {
                        replacing_keeps_places(before, idx as int, conn@);
                    }
                }
                0
            },
        }
    }
}

/// Whether a transmission fits the slots of the peers that it goes to.
pub open spec fn routed_fits(
    peers: Seq<Peer>,
    kind: SynapseTransmissionKind,
    target: Option<PeerAddr>,
    len: nat,
) -> bool {
    match target {
        None => fits_all(peers, sealed_kind(kind), len),
        Some(addr) => match index_of(peers, addr) {
            None => true,
            Some(index) => fits_slot(peers[index].2.key, sealed_kind(kind), len),
        },
    }
}

/// The registry takes a good opening from whichever address it comes, however
/// many peers there are: it acknowledges and answers to that address, lists the
/// sender as connected there, and has the key exchanged with it.
pub proof fn a_good_opening_is_registered(
    peers: Seq<Peer>,
    own: ClientId,
    arrival: Arrival,
    scalar: Seq<u8>,
    nonce: Seq<u8>,
    id: ClientId,
) -> (at: int)
    requires
        arrival.datagram.len() >= 16,
        arrival.datagram[0] < 32,
        arrival.datagram.subrange(7, 16) == id.bytes(),
        p256_point(arrival.datagram.skip(16)),
        forall|i: int|
            0 <= i < peers.len() && (#[trigger] peers[i]).0 == arrival.addr ==> {
                &&& peers[i].2.key is None
                &&& peers[i].2.recents.len() == 256
                &&& peers[i].2.recents[arrival.datagram[1] as int].1 != sha256(arrival.datagram)
                    || arrival.now - peers[i].2.recents[arrival.datagram[1] as int].0 > 100_000_000
            },
    ensures
        ({
            let (after, verdict) = register(peers, own, arrival, scalar, nonce);
            let shared = p256_agreement(scalar, arrival.datagram.skip(16));
            let seal = nonce + xchacha_seal(
                hkdf_key(shared),
                nonce,
                seq![104u8, 101u8, 108u8, 108u8, 111u8] + own.bytes(),
            );
            &&& verdict == RoutedVerdictModel::Accepted(
                seq![
                    RoutedEffectModel::Ack {
                        transmission_number: arrival.datagram[1] as int,
                        addr: arrival.addr,
                    },
                    RoutedEffectModel::Outbound {
                        kind: SynapseTransmissionKind::HandshakeResponse,
                        bytes: be_bytes(seal.len() as u64) + seal + p256_public(scalar)->0,
                        maybe_target_address: Some(arrival.addr),
                    },
                    RoutedEffectModel::Connected { client_id: id, local_addr: arrival.addr },
                ],
            )
            &&& 0 <= at < after.len()
            &&& after[at].0 == arrival.addr
            &&& after[at].2.key == Some(
                KeyModel::Exchanged { peer_id: id, secret: shared, key: hkdf_key(shared) },
            )
            &&& forall|j: int|
                0 <= j < peers.len() && j != at ==> #[trigger] after[j] == peers[j]
        }),
{
    let at = a_good_opening_is_taken(peers, own, arrival, scalar, nonce, id);
    let effects = receive(peers, own, arrival, scalar, nonce).1->Accepted_0;
    let shared = p256_agreement(scalar, arrival.datagram.skip(16));
    let seal = nonce + xchacha_seal(
        hkdf_key(shared),
        nonce,
        seq![104u8, 101u8, 108u8, 108u8, 111u8] + own.bytes(),
    );
    assert(routed(VerdictModel::Accepted(effects), arrival.addr)->Accepted_0 =~= seq![
        RoutedEffectModel::Ack {
            transmission_number: arrival.datagram[1] as int,
            addr: arrival.addr,
        },
        RoutedEffectModel::Outbound {
            kind: SynapseTransmissionKind::HandshakeResponse,
            bytes: be_bytes(seal.len() as u64) + seal + p256_public(scalar)->0,
            maybe_target_address: Some(arrival.addr),
        },
        RoutedEffectModel::Connected { client_id: id, local_addr: arrival.addr },
    ]);
    at
}

/// The registry takes a good answer to a handshake in flight: the answerer is
/// listed as connected at the address that the answer came from, the answer is
/// acknowledged, and the key is exchanged with the answerer.
pub proof fn a_good_answer_is_registered(
    peers: Seq<Peer>,
    own: ClientId,
    arrival: Arrival,
    scalar: Seq<u8>,
    nonce: Seq<u8>,
    at: int,
    secret: Seq<u8>,
    sealed: Seq<u8>,
    point: Seq<u8>,
    id: ClientId,
)
    requires
        arrival.datagram.len() >= 2,
        32 <= arrival.datagram[0] < 64,
        arrival.datagram.skip(2) == be_bytes(sealed.len() as u64) + sealed + point,
        24 <= sealed.len() <= 65_535,
        0 <= at < peers.len(),
        peers[at].0 == arrival.addr,
        forall|j: int| 0 <= j < at ==> (#[trigger] peers[j]).0 != arrival.addr,
        peers[at].2.recents.len() == 256,
        peers[at].2.recents[arrival.datagram[1] as int].1 != sha256(arrival.datagram) || arrival.now
            - peers[at].2.recents[arrival.datagram[1] as int].0 > 100_000_000,
        peers[at].2.key == Some(KeyModel::Inflight(secret)),
        p256_point(point),
        xchacha_open(
            hkdf_key(p256_agreement(secret, point)),
            sealed.subrange(0, 24),
            sealed.subrange(24, sealed.len() as int),
        ) == Some(seq![104u8, 101u8, 108u8, 108u8, 111u8] + id.bytes()),
    ensures
        ({
            let (after, verdict) = register(peers, own, arrival, scalar, nonce);
            let shared = p256_agreement(secret, point);
            &&& verdict == RoutedVerdictModel::Accepted(
                seq![
                    RoutedEffectModel::Connected { client_id: id, local_addr: arrival.addr },
                    RoutedEffectModel::Ack {
                        transmission_number: arrival.datagram[1] as int,
                        addr: arrival.addr,
                    },
                ],
            )
            &&& after[at].2.key == Some(
                KeyModel::Exchanged { peer_id: id, secret: shared, key: hkdf_key(shared) },
            )
        }),
{
    a_good_answer_is_taken(
        peers,
        own,
        arrival,
        scalar,
        nonce,
        at,
        secret,
        sealed,
        point,
        id,
    );
    let effects = receive(peers, own, arrival, scalar, nonce).1->Accepted_0;
    assert(routed(VerdictModel::Accepted(effects), arrival.addr)->Accepted_0 =~= seq![
        RoutedEffectModel::Connected { client_id: id, local_addr: arrival.addr },
        RoutedEffectModel::Ack {
            transmission_number: arrival.datagram[1] as int,
            addr: arrival.addr,
        },
    ]);
}

/// A sealed packet whose seal opens under the key of its sender, in a datagram
/// that did not just come, is handed on with its text and its sender's id and
/// acknowledged, wherever the sender stands among the peers. One whose seal does
/// not open, or from a peer without an exchanged key, or whose datagram came
/// just before, is dropped; of a stranger too.
pub proof fn what_opens_is_registered(
    peers: Seq<Peer>,
    own: ClientId,
    arrival: Arrival,
    scalar: Seq<u8>,
    nonce: Seq<u8>,
    at: int,
)
    requires
        arrival.datagram.len() >= 2,
        96 <= arrival.datagram[0] < 128,
        0 <= at < peers.len(),
        peers[at].0 == arrival.addr,
        forall|j: int| 0 <= j < at ==> (#[trigger] peers[j]).0 != arrival.addr,
        peers[at].2.recents.len() == 256,
    ensures
        ({
            let (after, verdict) = register(peers, own, arrival, scalar, nonce);
            let (then, sum) = peers[at].2.recents[arrival.datagram[1] as int];
            let again = sum == sha256(arrival.datagram) && arrival.now - then <= 100_000_000;
            let opened = xchacha_open(
                peers[at].2.key->0->key,
                arrival.datagram.subrange(2, 26),
                arrival.datagram.skip(26),
            );
            let has_key = peers[at].2.key is Some && peers[at].2.key->0 is Exchanged;
            &&& has_key && arrival.datagram.len() >= 26 && opened is Some && !again ==> verdict
                == RoutedVerdictModel::Accepted(
                seq![
                    RoutedEffectModel::Deliver {
                        decrypted_bytes: opened->0,
                        addr: arrival.addr,
                        client_id: peers[at].2.key->0->peer_id,
                    },
                    RoutedEffectModel::Ack {
                        transmission_number: arrival.datagram[1] as int,
                        addr: arrival.addr,
                    },
                ],
            )
            &&& again || !has_key || arrival.datagram.len() < 26 || opened is None ==> verdict
                == RoutedVerdictModel::Ignored
            &&& again ==> after == peers
            &&& !again ==> after[at].2.recents == peers[at].2.recents.update(
                arrival.datagram[1] as int,
                (arrival.now, sha256(arrival.datagram)),
            )
            &&& after.len() == peers.len() && after[at].2.key == peers[at].2.key
            &&& after[at].2.active == peers[at].2.active
            &&& forall|j: int|
                0 <= j < peers.len() && j != at ==> #[trigger] after[j] == peers[j]
        }),
{
    found_at(peers, arrival.addr, at);
    assert(!no_peer_at(peers, arrival.addr));
    let payload = arrival.datagram.subrange(2, arrival.datagram.len() as int);
    let verdict = register(peers, own, arrival, scalar, nonce).1;
    if arrival.datagram.len() >= 26 {
        assert(payload.subrange(0, 24) =~= arrival.datagram.subrange(2, 26));
        assert(payload.subrange(24, payload.len() as int) =~= arrival.datagram.skip(26));
    }
    if let RoutedVerdictModel::Accepted(effects) = verdict {
        let text = opened_text(peers[at].2.key->0->key, payload)->0;
        assert(effects =~= seq![
            RoutedEffectModel::Deliver {
                decrypted_bytes: text,
                addr: arrival.addr,
                client_id: peers[at].2.key->0->peer_id,
            },
            RoutedEffectModel::Ack {
                transmission_number: arrival.datagram[1] as int,
                addr: arrival.addr,
            },
        ]);
    }
    assert(with_connection(peers, at, peers[at].2) =~= peers);
}

/// Whatever is not sealed, the registry makes of a datagram what the connection
/// manager makes of it, one thing to do for each.
pub proof fn the_rest_is_handled_alike(
    peers: Seq<Peer>,
    own: ClientId,
    arrival: Arrival,
    scalar: Seq<u8>,
    nonce: Seq<u8>,
)
    requires
        arrival.datagram.len() < 2 || !(96 <= arrival.datagram[0] < 128),
    ensures
        ({
            let (after, verdict) = register(peers, own, arrival, scalar, nonce);
            let (same, plain) = receive(peers, own, arrival, scalar, nonce);
            &&& after == same
            &&& verdict is Ignored <==> plain is Ignored
            &&& verdict is Faulty <==> plain is Faulty
            &&& plain matches VerdictModel::Faulty(fault) ==> verdict
                == RoutedVerdictModel::Faulty(fault)
            &&& plain matches VerdictModel::Accepted(effects) ==> verdict is Accepted
                && verdict->Accepted_0.len() == effects.len()
        }),
{
}

impl PeerRegistry {
    /// Registries that differ in their peers' records alone are of the same
    /// client, list the same peers, and have a socket in the same state.
    pub proof fn only_records_differ(self, other: Self)
        requires
            self.with_peers_of(other),
        ensures
            self.me == other.me,
            self.siblings == other.siblings,
            self.manager.own_cid == other.manager.own_cid,
            self.manager.own_addr == other.manager.own_addr,
            self.manager.readable == other.manager.readable,
            self.manager.writable == other.manager.writable,
            self.peers() == self.manager.connections@,
    {
    }
}

} // verus!
