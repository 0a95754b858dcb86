//! The connections to all peers, by address.

use vstd::prelude::*;
use vstd::slice::slice_subrange;

use super::client_id::{ClientId, PeerAddr};
use super::peer::{
    fresh_connection, ConnModel, KeyModel, PeerConnectionData, PeerKey, MAX_ACTIVE_MESSAGES,
};
use super::synapse::SynapseTransmissionKind;
use crate::clock::{self, Timestamp};

verus! {

/// One peer: where it is, who it is once that is known, and its connection.
pub type Peer = (PeerAddr, Option<ClientId>, ConnModel);

/// Whether the first peer at an address has the given index.
pub open spec fn is_at(peers: Seq<Peer>, addr: PeerAddr, index: int) -> bool {
    &&& 0 <= index < peers.len()
    &&& peers[index].0 == addr
    &&& forall|j: int| 0 <= j < index ==> (#[trigger] peers[j]).0 != addr
}

/// Whether no peer has the address.
pub open spec fn no_peer_at(peers: Seq<Peer>, addr: PeerAddr) -> bool {
    forall|j: int| 0 <= j < peers.len() ==> (#[trigger] peers[j]).0 != addr
}

/// The index of the peer at an address.
pub open spec fn index_of(peers: Seq<Peer>, addr: PeerAddr) -> Option<int> {
    if no_peer_at(peers, addr) {
        None
    } else {
        Some(choose|i: int| is_at(peers, addr, i))
    }
}

/// The index of a peer is where the peer is.
pub proof fn found_at(peers: Seq<Peer>, addr: PeerAddr, index: int)
    requires
        is_at(peers, addr, index),
    ensures
        index_of(peers, addr) == Some(index),
{
    let i = choose|i: int| is_at(peers, addr, i);
    assert(is_at(peers, addr, i));
    assert(peers[index].0 == addr && peers[i].0 == addr);
}

/// The peers once an address is among them: a new one has no key yet.
pub open spec fn with_peer(peers: Seq<Peer>, addr: PeerAddr, now: int) -> Seq<Peer> {
    if no_peer_at(peers, addr) {
        peers.push((addr, None, fresh_connection(now)))
    } else {
        peers
    }
}

/// After an address was added it has an index; every other peer stays.
pub proof fn added_peer_is_found(peers: Seq<Peer>, addr: PeerAddr, now: int)
    ensures
        index_of(with_peer(peers, addr, now), addr) == Some(
            match index_of(peers, addr) {
                Some(i) => i,
                None => peers.len() as int,
            },
        ),
        forall|other: PeerAddr|
            other != addr ==> #[trigger] index_of(with_peer(peers, addr, now), other) == index_of(
                peers,
                other,
            ),
        with_peer(peers, addr, now).len() >= peers.len(),
        forall|j: int|
            0 <= j < peers.len() ==> #[trigger] with_peer(peers, addr, now)[j] == peers[j],
{
    let after = with_peer(peers, addr, now);
    if no_peer_at(peers, addr) {
        assert(is_at(after, addr, peers.len() as int));
        found_at(after, addr, peers.len() as int);
        assert forall|other: PeerAddr| other != addr implies #[trigger] index_of(after, other)
            == index_of(peers, other) by {
            if no_peer_at(peers, other) {
                assert(no_peer_at(after, other));
            } else {
                a_peer_has_an_index(peers, other);
                let i = index_of(peers, other)->0;
                assert(is_at(after, other, i));
                found_at(after, other, i);
            }
        }
    } else {
        a_peer_has_an_index(peers, addr);
    }
}

/// An address among the peers has an index, and the peer is there.
pub proof fn a_peer_has_an_index(peers: Seq<Peer>, addr: PeerAddr)
    requires
        !no_peer_at(peers, addr),
    ensures
        index_of(peers, addr) is Some,
        is_at(peers, addr, index_of(peers, addr)->0),
{
    let k = choose|k: int| 0 <= k < peers.len() && (#[trigger] peers[k]).0 == addr;
    least_index(peers, addr, k);
}

proof fn least_index(peers: Seq<Peer>, addr: PeerAddr, bound: int)
    requires
        0 <= bound < peers.len(),
        peers[bound].0 == addr,
    ensures
        exists|i: int| is_at(peers, addr, i),
    decreases bound,
{
    if forall|j: int| 0 <= j < bound ==> (#[trigger] peers[j]).0 != addr {
        assert(is_at(peers, addr, bound));
    } else {
        let j = choose|j: int| 0 <= j < bound && (#[trigger] peers[j]).0 == addr;
        least_index(peers, addr, j);
    }
}

/// Whether the first peer with an id has the given index.
pub open spec fn is_with_id(peers: Seq<Peer>, id: ClientId, index: int) -> bool {
    &&& 0 <= index < peers.len()
    &&& peers[index].1 == Some(id)
    &&& forall|j: int| 0 <= j < index ==> (#[trigger] peers[j]).1 != Some(id)
}

/// Whether no peer has the id.
pub open spec fn no_peer_with_id(peers: Seq<Peer>, id: ClientId) -> bool {
    forall|j: int| 0 <= j < peers.len() ==> (#[trigger] peers[j]).1 != Some(id)
}

/// No two peers share an address, and every connection is well formed.
pub open spec fn peers_wf(peers: Seq<Peer>) -> bool {
    &&& forall|i: int| 0 <= i < peers.len() ==> (#[trigger] peers[i]).2.wf()
    &&& forall|i: int, j: int|
        0 <= i < j < peers.len() ==> (#[trigger] peers[i]).0 != (#[trigger] peers[j]).0
}

/// The peers with the connection at an index replaced.
pub open spec fn with_connection(peers: Seq<Peer>, index: int, conn: ConnModel) -> Seq<Peer> {
    peers.update(index, (peers[index].0, peers[index].1, conn))
}

/// Replacing a connection keeps where every peer is.
pub proof fn replacing_keeps_places(peers: Seq<Peer>, index: int, conn: ConnModel)
    requires
        0 <= index < peers.len(),
    ensures
        forall|addr: PeerAddr| #[trigger]
            index_of(with_connection(peers, index, conn), addr) == index_of(peers, addr),
        peers_wf(peers) && conn.wf() ==> peers_wf(with_connection(peers, index, conn)),
{
    let after = with_connection(peers, index, conn);
    assert forall|addr: PeerAddr| #[trigger] index_of(after, addr) == index_of(peers, addr) by {
        if no_peer_at(peers, addr) {
            assert(no_peer_at(after, addr));
        } else {
            a_peer_has_an_index(peers, addr);
            let i = index_of(peers, addr)->0;
            assert(is_at(after, addr, i)) by {
                assert forall|j: int| 0 <= j < i implies (#[trigger] after[j]).0 != addr by {
                    assert(peers[j].0 != addr);
                }
            }
            found_at(after, addr, i);
        }
    }
}

/// The peers once a key is set for an address. An exchanged key names the
/// peer; one that is in flight leaves the name as it was.
pub open spec fn with_key(peers: Seq<Peer>, index: int, key: KeyModel) -> Seq<Peer> {
    let (addr, id, conn) = peers[index];
    let named = match key {
        KeyModel::Inflight(_) => id,
        KeyModel::Exchanged { peer_id, secret, key } => Some(peer_id),
    };
    peers.update(index, (addr, named, ConnModel { key: Some(key), ..conn }))
}

/// One peer's record, as plain values.
pub open spec fn peer_view(entry: (PeerAddr, Option<ClientId>, PeerConnectionData)) -> Peer {
    (entry.0, entry.1, entry.2@)
}

/// All peers' records, as plain values.
pub open spec fn peers_view(
    entries: Seq<(PeerAddr, Option<ClientId>, PeerConnectionData)>,
) -> Seq<Peer> {
    Seq::new(entries.len(), |i: int| peer_view(entries[i]))
}

/// All connections, in the order in which they came up.
pub struct PeerConnectionLedger {
    pub connections: Vec<(PeerAddr, Option<ClientId>, PeerConnectionData)>,
}

impl View for PeerConnectionLedger {
    type V = Seq<Peer>;

    open spec fn view(&self) -> Seq<Peer> {
        peers_view(self.connections@)
    }
}

impl Default for PeerConnectionLedger {
    fn default() -> (ledger: Self)
        ensures
            ledger@ == Seq::<Peer>::empty(),
    {
        let ledger = PeerConnectionLedger { connections: Vec::new() };
        assert(ledger@ =~= Seq::<Peer>::empty());
        ledger
    }
}

impl PeerConnectionLedger {
    /// Where the peer with an address stands.
    pub fn idx_for_addr(&self, addr: PeerAddr) -> (idx: Option<usize>)
        ensures
            match (idx, index_of(self@, addr)) {
                (Some(i), Some(k)) => i == k && is_at(self@, addr, k),
                (None, None) => no_peer_at(self@, addr),
                _ => false,
            },
    {
        let mut i: usize = 0;
        while i < self.connections.len()
            invariant
                i <= self.connections@.len(),
                forall|j: int| 0 <= j < i ==> (#[trigger] self@[j]).0 != addr,
            decreases self.connections@.len() - i,
        {
            assert(self@[i as int] == peer_view(self.connections@[i as int]));
            if self.connections[i].0 == addr {
                proof {
                    found_at(self@, addr, i as int);
                }
                return Some(i);
            }
            i += 1;
        }
        assert(no_peer_at(self@, addr));
        None
    }

    /// Where the first peer with an id stands.
    pub fn idx_for_id(&self, id: ClientId) -> (idx: Option<usize>)
        ensures
            match idx {
                Some(i) => is_with_id(self@, id, i as int),
                None => no_peer_with_id(self@, id),
            },
    {
        let mut i: usize = 0;
        while i < self.connections.len()
            invariant
                i <= self.connections@.len(),
                forall|j: int| 0 <= j < i ==> (#[trigger] self@[j]).1 != Some(id),
            decreases self.connections@.len() - i,
        {
            assert(self@[i as int] == peer_view(self.connections@[i as int]));
            if let Some(known) = self.connections[i].1 {
                if known == id {
                    return Some(i);
                }
            }
            i += 1;
        }
        None
    }

    /// Where the peer with an address stands; it is added at the end where the
    /// address is new, its record dated to the given instant.
    pub fn idx_for_addr_or_init_at(&mut self, addr: PeerAddr, now: &Timestamp) -> (idx: usize)
        requires
            now.wf(),
        ensures
            final(self)@ == with_peer(old(self)@, addr, now.instant()),
            index_of(final(self)@, addr) == Some(idx as int),
            is_at(final(self)@, addr, idx as int),
            peers_wf(old(self)@) ==> peers_wf(final(self)@),
    {
        let ghost before = self@;
        match self.idx_for_addr(addr) {
            Some(i) => i,
            None => {
                let idx = self.connections.len();
                self.connections.push((addr, None, PeerConnectionData::created_at(now)));
                proof {
                    assert(self@ =~= with_peer(before, addr, now.instant()));
                    added_peer_is_found(before, addr, now.instant());
                    assert(is_at(self@, addr, idx as int));
                }
                idx
            },
        }
    }

    /// Where the peer with an address stands; it is added at the end where the
    /// address is new.
    pub fn idx_for_addr_or_init(&mut self, addr: PeerAddr) -> (idx: usize)
        ensures
            exists|t: Timestamp|
                t.wf() && final(self)@ == with_peer(old(self)@, addr, #[trigger] t.instant()),
            index_of(final(self)@, addr) == Some(idx as int),
            is_at(final(self)@, addr, idx as int),
            peers_wf(old(self)@) ==> peers_wf(final(self)@),
    {
        let now = clock::now();
        let ghost before = self@;
        let idx = self.idx_for_addr_or_init_at(addr, &now);
        assert(now.wf() && self@ == with_peer(before, addr, now.instant()));
        idx
    }

    /// The connection at an index, to be changed in place.
    pub fn at_mut(&mut self, idx: usize) -> (conn: &mut PeerConnectionData)
        requires
            idx < old(self)@.len(),
        ensures
            conn@ == old(self)@[idx as int].2,
            final(self)@ == with_connection(old(self)@, idx as int, final(conn)@),
    {
        &mut self.connections[idx].2
    }

    /// The connection to an address.
    pub fn addr_get(&self, addr: PeerAddr) -> (conn: Option<&PeerConnectionData>)
        ensures
            match (conn, index_of(self@, addr)) {
                (Some(c), Some(k)) => is_at(self@, addr, k) && c@ == self@[k].2,
                (None, None) => true,
                _ => false,
            },
    {
        match self.idx_for_addr(addr) {
            Some(i) => Some(&self.connections[i].2),
            None => None,
        }
    }

    /// The connection to the first peer with an id.
    pub fn id_get(&self, id: ClientId) -> (conn: Option<&PeerConnectionData>)
        ensures
            match conn {
                Some(c) => exists|k: int| #[trigger] is_with_id(self@, id, k) && c@ == self@[k].2,
                None => no_peer_with_id(self@, id),
            },
    {
        match self.idx_for_id(id) {
            Some(i) => {
                assert(is_with_id(self@, id, i as int));
                Some(&self.connections[i].2)
            },
            None => None,
        }
    }

    /// The connection to an address, to be changed in place.
    pub fn addr_get_mut(&mut self, addr: PeerAddr) -> (conn: Option<&mut PeerConnectionData>)
        ensures
            match (conn, index_of(old(self)@, addr)) {
                (Some(c), Some(k)) => {
                    &&& is_at(old(self)@, addr, k)
                    &&& c@ == old(self)@[k].2
                    &&& final(self)@ == with_connection(old(self)@, k, final(c)@)
                },
                (None, None) => final(self)@ == old(self)@,
                _ => false,
            },
    {
        match self.idx_for_addr(addr) {
            Some(i) => Some(&mut self.connections[i].2),
            None => None,
        }
    }

    /// The connection to the first peer with an id, to be changed in place.
    pub fn id_get_mut(&mut self, id: ClientId) -> (conn: Option<&mut PeerConnectionData>)
        ensures
            match conn {
                Some(c) => exists|k: int|
                    {
                        &&& #[trigger] is_with_id(old(self)@, id, k)
                        &&& c@ == old(self)@[k].2
                        &&& final(self)@ == with_connection(old(self)@, k, final(c)@)
                    },
                None => no_peer_with_id(old(self)@, id) && final(self)@ == old(self)@,
            },
    {
        match self.idx_for_id(id) {
            Some(i) => {
                assert(is_with_id(self@, id, i as int));
                Some(&mut self.connections[i].2)
            },
            None => None,
        }
    }

    /// The connection to an address, which is added where it is new.
    pub fn get_or_init(&mut self, addr: PeerAddr) -> (conn: &PeerConnectionData)
        ensures
            exists|t: Timestamp|
                t.wf() && final(self)@ == with_peer(old(self)@, addr, #[trigger] t.instant()),
            index_of(final(self)@, addr) is Some,
            conn@ == final(self)@[index_of(final(self)@, addr)->0].2,
            peers_wf(old(self)@) ==> peers_wf(final(self)@),
    {
        let idx = self.idx_for_addr_or_init(addr);
        &self.connections[idx].2
    }

    /// The connection to an address, which is added where it is new, to be
    /// changed in place.
    pub fn get_or_init_mut(&mut self, addr: PeerAddr) -> (conn: &mut PeerConnectionData)
        ensures
            exists|t: Timestamp|
                {
                    let added = with_peer(old(self)@, addr, #[trigger] t.instant());
                    &&& t.wf()
                    &&& index_of(added, addr) is Some
                    &&& conn@ == added[index_of(added, addr)->0].2
                    &&& final(self)@ == with_connection(
                        added,
                        index_of(added, addr)->0,
                        final(conn)@,
                    )
                },
    {
        let idx = self.idx_for_addr_or_init(addr);
        &mut self.connections[idx].2
    }

    /// Sets the key for an address, which is added where it is new.
    pub fn set_key(&mut self, addr: PeerAddr, k: PeerKey)
        ensures
            exists|t: Timestamp|
                {
                    let added = with_peer(old(self)@, addr, #[trigger] t.instant());
                    &&& t.wf()
                    &&& index_of(added, addr) is Some
                    &&& final(self)@ == with_key(added, index_of(added, addr)->0, k@)
                },
    {
        let idx = self.idx_for_addr_or_init(addr);
        let ghost added = self@;
        self.set_key_at(idx, k);
        assert(self@ == with_key(added, index_of(added, addr)->0, k@));
    }

    /// A walk over the message slots of all peers. What it changes is changed
    /// in the ledger.
    pub fn addr_data_iter_mut(&mut self) -> (iter: PeerConnectionMessageIter<'_>)
        requires
            peers_wf(old(self)@),
        ensures
            iter.wf(),
            iter.position() == 0,
            iter.peers() == old(self)@,
            final(self)@ == peers_view(final(iter.backing_container)@),
    {
        proof {
            assert forall|i: int| 0 <= i < self.connections@.len() implies (
            #[trigger] self.connections@[i]).2.active_messages@.len() == MAX_ACTIVE_MESSAGES by {
                assert(self@[i].2.wf());
            }
        }
        PeerConnectionMessageIter {
            backing_container: &mut self.connections,
            primary_idx: 0,
            secondary_idx: 0,
        }
    }

    /// Sets the key of the peer at an index.
    pub fn set_key_at(&mut self, idx: usize, k: PeerKey)
        requires
            idx < old(self)@.len(),
        ensures
            final(self)@ == with_key(old(self)@, idx as int, k@),
    {
        let ghost before = self@;
        let ghost key = k@;
        match &k {
            PeerKey::Inflight(_) => {},
            PeerKey::Exchanged(session) => {
                self.connections[idx].1 = Some(session.peer_id());
            },
        }
        self.connections[idx].2.exchanged_key = Some(k);
        proof {
            assert(self@[idx as int] == with_key(before, idx as int, key)[idx as int]);
            assert(self@ =~= with_key(before, idx as int, key));
        }
    }
}

/// The number of message slots of all peers together.
pub open spec fn slot_count(peers: Seq<Peer>) -> int {
    peers.len() * MAX_ACTIVE_MESSAGES
}

/// One message slot of one peer, to be changed in place.
fn slot_mut(
    entries: &mut Vec<(PeerAddr, Option<ClientId>, PeerConnectionData)>,
    index: usize,
    number: usize,
) -> (slot: &mut (usize, Vec<u8>))
    requires
        index < old(entries)@.len(),
        number < old(entries)@[index as int].2.active_messages@.len(),
    ensures
        (slot.0, slot.1@) == peers_view(old(entries)@)[index as int].2.active[number as int],
        peers_view(final(entries)@) == with_slot(
            peers_view(old(entries)@),
            index as int,
            number as int,
            (final(slot).0, final(slot).1@),
        ),
        final(entries)@.len() == old(entries)@.len(),
        forall|i: int|
            0 <= i < old(entries)@.len() ==> (
            #[trigger] final(entries)@[i]).2.active_messages@.len() == old(
                entries,
            )@[i].2.active_messages@.len(),
{
    proof {
        let before = entries@;
        let (i, n) = (index as int, number as int);
        assert forall|after: Seq<(PeerAddr, Option<ClientId>, PeerConnectionData)>|
            after == before.update(i, after[i]) && after[i].0 == before[i].0 && after[i].1
                == before[i].1 && after[i].2 == (PeerConnectionData {
                active_messages: after[i].2.active_messages,
                ..before[i].2
            }) && after[i].2.active_messages@ == before[i].2.active_messages@.update(
                n,
                after[i].2.active_messages@[n],
            ) implies #[trigger] peers_view(after) == with_slot(
            peers_view(before),
            i,
            n,
            (after[i].2.active_messages@[n].0, after[i].2.active_messages@[n].1@),
        ) by {
            let expected = with_slot(
                peers_view(before),
                i,
                n,
                (after[i].2.active_messages@[n].0, after[i].2.active_messages@[n].1@),
            );
            assert(after[i].2@.active =~= expected[i].2.active);
            assert(after[i].2@.recents =~= expected[i].2.recents);
            assert(peers_view(after) =~= expected);
        }
    }
    &mut entries[index].2.active_messages[number]
}

/// Walks the message slots of all peers: those of the first peer by their
/// number, then those of the second, and so on.
pub struct PeerConnectionMessageIter<'a> {
    pub backing_container: &'a mut Vec<(PeerAddr, Option<ClientId>, PeerConnectionData)>,
    pub primary_idx: usize,
    pub secondary_idx: usize,
}

impl<'a> PeerConnectionMessageIter<'a> {
    /// The peers, as the walk leaves them so far.
    pub open spec fn peers(self) -> Seq<Peer> {
        peers_view(self.backing_container@)
    }

    /// How many slots the walk has passed.
    pub open spec fn position(self) -> int {
        self.primary_idx * MAX_ACTIVE_MESSAGES + self.secondary_idx
    }

    /// The walk stands at a slot, or behind the last one.
    pub open spec fn wf(self) -> bool {
        &&& self.primary_idx <= self.backing_container@.len()
        &&& self.secondary_idx < MAX_ACTIVE_MESSAGES
        &&& self.primary_idx == self.backing_container@.len() ==> self.secondary_idx == 0
        &&& forall|i: int|
            0 <= i < self.backing_container@.len() ==> (
            #[trigger] self.backing_container@[i]).2.active_messages@.len() == MAX_ACTIVE_MESSAGES
    }

    /// The next slot: the peer's address, the slot's length and buffer, and
    /// its number; `None` behind the last slot.
    pub fn next(&mut self) -> (slot: Option<(PeerAddr, &mut (usize, Vec<u8>), usize)>)
        requires
            old(self).wf(),
        ensures
            slot is Some <==> old(self).position() < slot_count(old(self).peers()),
            final(self).wf(),
            match slot {
                Some((addr, s, number)) => {
                    let p = old(self).position() / MAX_ACTIVE_MESSAGES as int;
                    &&& final(self).position() == old(self).position() + 1
                    &&& number == old(self).position() % MAX_ACTIVE_MESSAGES as int
                    &&& addr == old(self).peers()[p].0
                    &&& (s.0, s.1@) == old(self).peers()[p].2.active[number as int]
                    &&& final(self).peers() == with_slot(
                        old(self).peers(),
                        p,
                        number as int,
                        (final(s).0, final(s).1@),
                    )
                },
                None => *final(self) == *old(self),
            },
            *final(final(self).backing_container) == *final(old(self).backing_container),
            final(self).backing_container@.len() == old(self).backing_container@.len(),
    {
        if self.primary_idx >= self.backing_container.len() {
            return None;
        }
        let target_connection = self.primary_idx;
        let target_message = self.secondary_idx;
        self.secondary_idx = self.secondary_idx + 1;
        if self.secondary_idx >= self.backing_container[self.primary_idx].2.active_messages.len() {
            self.primary_idx = self.primary_idx + 1;
            self.secondary_idx = 0;
        }
        let addr = self.backing_container[target_connection].0;
        let slot = slot_mut(self.backing_container, target_connection, target_message);
        Some((addr, slot, target_message))
    }
}

impl<'a> PeerConnectionMessageIter<'a> {
    /// The next slot that holds a message to be sent; `None` where no slot
    /// ahead does.
    pub fn next_pending(&mut self) -> (slot: Option<(PeerAddr, &mut (usize, Vec<u8>), usize)>)
        requires
            old(self).wf(),
        ensures
            final(self).wf(),
            match slot {
                Some((addr, s, number)) => {
                    let at = final(self).position() - 1;
                    let p = at / MAX_ACTIVE_MESSAGES as int;
                    &&& old(self).position() <= at
                    &&& number == at % MAX_ACTIVE_MESSAGES as int
                    &&& addr == old(self).peers()[p].0
                    &&& (s.0, s.1@) == old(self).peers()[p].2.active[number as int]
                    &&& s.0 != 0
                    &&& sends_from(old(self).peers(), old(self).position()) == seq![
                        (addr, s.1@.subrange(0, s.0 as int)),
                    ] + sends_from(old(self).peers(), at + 1)
                    &&& final(self).peers() == with_slot(
                        old(self).peers(),
                        p,
                        number as int,
                        (final(s).0, final(s).1@),
                    )
                },
                None => {
                    &&& sends_from(old(self).peers(), old(self).position()).len() == 0
                    &&& final(self).peers() == old(self).peers()
                },
            },
            *final(final(self).backing_container) == *final(old(self).backing_container),
    {
        let ghost before = *self;
        let ghost start = self.position();
        while self.primary_idx < self.backing_container.len()
            && self.backing_container[self.primary_idx].2.active_messages[self.secondary_idx].0 == 0
            invariant
                self.wf(),
                before.wf(),
                start == before.position() <= self.position(),
                self.peers() == before.peers(),
                sends_from(before.peers(), start) == sends_from(before.peers(), self.position()),
                *final(self.backing_container) == *final(before.backing_container),
            decreases slot_count(before.peers()) - self.position(),
        {
            let ghost here = self.peers();
            let ghost (p, n) = (self.primary_idx as int, self.secondary_idx as int);
            assert(here[p].2.active[n].0 == 0);
            let _ = self.next();
            assert(with_slot(here, p, n, here[p].2.active[n]) =~= here) by {
                assert(here[p].2.active.update(n, here[p].2.active[n]) =~= here[p].2.active);
            }
        }
        self.next()
    }
}

/// What a walk from a position on sends, in order: of each slot that holds a
/// message, to whom it goes and its bytes.
pub open spec fn sends_from(peers: Seq<Peer>, position: int) -> Seq<(PeerAddr, Seq<u8>)>
    decreases slot_count(peers) - position,
{
    if position < 0 || position >= slot_count(peers) {
        Seq::empty()
    } else {
        let peer = peers[position / MAX_ACTIVE_MESSAGES as int];
        let number = position % MAX_ACTIVE_MESSAGES as int;
        let rest = sends_from(peers, position + 1);
        if peer.2.active[number].0 == 0 {
            rest
        } else {
            seq![(peer.0, peer.2.pending(number))] + rest
        }
    }
}

/// A walk over all slots sends the message of every slot that holds one.
pub proof fn every_message_is_sent(peers: Seq<Peer>, index: int, number: int)
    requires
        0 <= index < peers.len(),
        0 <= number < MAX_ACTIVE_MESSAGES,
        peers[index].2.active[number].0 != 0,
    ensures
        sends_from(peers, 0).contains((peers[index].0, peers[index].2.pending(number))),
{
    sent_from(peers, 0, index * MAX_ACTIVE_MESSAGES + number);
}

proof fn sent_from(peers: Seq<Peer>, from: int, at: int)
    requires
        0 <= from <= at < slot_count(peers),
        peers[at / MAX_ACTIVE_MESSAGES as int].2.active[at % MAX_ACTIVE_MESSAGES as int].0 != 0,
    ensures
        sends_from(peers, from).contains(
            (
                peers[at / MAX_ACTIVE_MESSAGES as int].0,
                peers[at / MAX_ACTIVE_MESSAGES as int].2.pending(at % MAX_ACTIVE_MESSAGES as int),
            ),
        ),
    decreases at - from,
{
    let sent = (
        peers[at / MAX_ACTIVE_MESSAGES as int].0,
        peers[at / MAX_ACTIVE_MESSAGES as int].2.pending(at % MAX_ACTIVE_MESSAGES as int),
    );
    let all = sends_from(peers, from);
    if from == at {
        assert(all[0] == sent);
    } else {
        sent_from(peers, from + 1, at);
        let rest = sends_from(peers, from + 1);
        let k = choose|k: int| 0 <= k < rest.len() && rest[k] == sent;
        assert(all[k + (all.len() - rest.len())] == sent);
    }
}

/// The bytes of a slot that are to be sent.
pub fn pending_bytes(slot: &(usize, Vec<u8>)) -> (bytes: &[u8])
    requires
        slot.0 <= slot.1@.len(),
    ensures
        bytes@ == slot.1@.subrange(0, slot.0 as int),
{
    slice_subrange(slot.1.as_slice(), 0, slot.0)
}

/// A slot was sent. An acknowledgement is sent once; everything else stays
/// until it is acknowledged.
pub fn slot_sent(slot: &mut (usize, Vec<u8>))
    requires
        old(slot).1@.len() > 0,
    ensures
        final(slot).1 == old(slot).1,
        final(slot).0 == (if old(slot).1@[0] == SynapseTransmissionKind::Ack.number() * 32 {
            0
        } else {
            old(slot).0 as int
        }),
{
    if slot.1[0] == SynapseTransmissionKind::Ack.to_discriminant() {
        slot.0 = 0;
    }
}

/// The peers with one message slot replaced.
pub open spec fn with_slot(
    peers: Seq<Peer>,
    index: int,
    number: int,
    slot: (usize, Seq<u8>),
) -> Seq<Peer> {
    let conn = peers[index].2;
    with_connection(
        peers,
        index,
        ConnModel { active: conn.active.update(number, slot), ..conn },
    )
}

/// The index of an address is that of the first peer there, wherever it stands
/// and whoever the others are; an address that no peer has is without one.
pub proof fn the_first_peer_at_an_address_is_found(peers: Seq<Peer>, addr: PeerAddr)
    ensures
        index_of(peers, addr) is Some <==> exists|i: int|
            0 <= i < peers.len() && (#[trigger] peers[i]).0 == addr,
        index_of(peers, addr) matches Some(index) ==> 0 <= index < peers.len()
            && peers[index].0 == addr && forall|j: int|
            0 <= j < index ==> (#[trigger] peers[j]).0 != addr,
{
    if !no_peer_at(peers, addr) {
        a_peer_has_an_index(peers, addr);
    }
}

/// A new address is added behind all peers, once, and without a name or a key;
/// a known one adds nothing.
pub proof fn an_address_is_added_once(peers: Seq<Peer>, addr: PeerAddr, now: int, later: int)
    ensures
        (forall|i: int| 0 <= i < peers.len() ==> (#[trigger] peers[i]).0 != addr) ==> {
            let after = with_peer(peers, addr, now);
            &&& after.len() == peers.len() + 1
            &&& after.take(peers.len() as int) == peers
            &&& after.last().0 == addr
            &&& after.last().1 is None
            &&& after.last().2.key is None
        },
        (exists|i: int| 0 <= i < peers.len() && (#[trigger] peers[i]).0 == addr) ==> with_peer(
            peers,
            addr,
            now,
        ) == peers,
        with_peer(with_peer(peers, addr, now), addr, later) == with_peer(peers, addr, now),
{
    if no_peer_at(peers, addr) {
        let after = with_peer(peers, addr, now);
        assert(after.take(peers.len() as int) =~= peers);
        assert(after[peers.len() as int].0 == addr);
        assert(!no_peer_at(after, addr));
    }
}

/// A key is set for the peer at an index and for no other. An exchanged one
/// names the peer by the id that it was exchanged with; one in flight does not
/// change the name. What was sent and heard stays.
pub proof fn a_key_is_set_for_its_peer(peers: Seq<Peer>, index: int, key: KeyModel)
    requires
        0 <= index < peers.len(),
    ensures
        with_key(peers, index, key).len() == peers.len(),
        with_key(peers, index, key)[index].0 == peers[index].0,
        with_key(peers, index, key)[index].2.key == Some(key),
        with_key(peers, index, key)[index].2.active == peers[index].2.active,
        with_key(peers, index, key)[index].2.recents == peers[index].2.recents,
        with_key(peers, index, key)[index].2.next == peers[index].2.next,
        key is Exchanged ==> with_key(peers, index, key)[index].1 == Some(key->peer_id),
        key is Inflight ==> with_key(peers, index, key)[index].1 == peers[index].1,
        forall|j: int|
            0 <= j < peers.len() && j != index ==> #[trigger] with_key(peers, index, key)[j]
                == peers[j],
{
}

/// Replacing a connection or a slot changes that one and nothing else.
pub proof fn only_what_is_replaced_changes(
    peers: Seq<Peer>,
    index: int,
    conn: ConnModel,
    number: int,
    slot: (usize, Seq<u8>),
)
    requires
        0 <= index < peers.len(),
        0 <= number < peers[index].2.active.len(),
    ensures
        with_connection(peers, index, conn).len() == peers.len(),
        with_connection(peers, index, conn)[index] == (peers[index].0, peers[index].1, conn),
        forall|j: int|
            0 <= j < peers.len() && j != index ==> #[trigger] with_connection(peers, index, conn)[j]
                == peers[j],
        with_slot(peers, index, number, slot).len() == peers.len(),
        with_slot(peers, index, number, slot)[index].2.active[number] == slot,
        forall|k: int|
            0 <= k < peers[index].2.active.len() && k != number ==> #[trigger] with_slot(
                peers,
                index,
                number,
                slot,
            )[index].2.active[k] == peers[index].2.active[k],
        with_slot(peers, index, number, slot)[index].2.key == peers[index].2.key,
        with_slot(peers, index, number, slot)[index].2.recents == peers[index].2.recents,
        with_slot(peers, index, number, slot)[index].2.next == peers[index].2.next,
        forall|j: int|
            0 <= j < peers.len() && j != index ==> #[trigger] with_slot(
                peers,
                index,
                number,
                slot,
            )[j] == peers[j],
{
}

/// A walk goes slot by slot, 256 of them for each peer: a slot that holds a
/// message sends its bytes to that peer's address before all slots behind it,
/// a free one sends nothing, and behind the last slot of the last peer nothing
/// is left.
pub proof fn a_walk_goes_slot_by_slot(peers: Seq<Peer>, index: int, number: int)
    requires
        0 <= index < peers.len(),
        0 <= number < 256,
    ensures
        peers[index].2.active[number].0 == 0 ==> sends_from(peers, 256 * index + number)
            == sends_from(peers, 256 * index + number + 1),
        peers[index].2.active[number].0 != 0 ==> sends_from(peers, 256 * index + number).len()
            == sends_from(peers, 256 * index + number + 1).len() + 1 && sends_from(
            peers,
            256 * index + number,
        ).first() == (
            peers[index].0,
            peers[index].2.active[number].1.subrange(
                0,
                peers[index].2.active[number].0 as int,
            ),
        ) && sends_from(peers, 256 * index + number).drop_first() == sends_from(
            peers,
            256 * index + number + 1,
        ),
        sends_from(peers, 256 * peers.len() as int).len() == 0,
{
    let at = 256 * index + number;
    assert(at / 256 == index && at % 256 == number);
    assert(0 <= at < slot_count(peers));
    if peers[index].2.active[number].0 != 0 {
        let all = sends_from(peers, at);
        let rest = sends_from(peers, at + 1);
        assert(all == seq![(peers[index].0, peers[index].2.pending(number))] + rest);
        assert(all.drop_first() =~= rest);
    }
}

/// A peer is found by its id where it is the first that has it, and not found
/// where none has.
pub proof fn the_first_peer_with_an_id_is_found(peers: Seq<Peer>, id: ClientId, index: int)
    ensures
        is_with_id(peers, id, index) <==> 0 <= index < peers.len() && peers[index].1 == Some(id)
            && forall|j: int| 0 <= j < index ==> (#[trigger] peers[j]).1 != Some(id),
        no_peer_with_id(peers, id) <==> !exists|j: int|
            0 <= j < peers.len() && (#[trigger] peers[j]).1 == Some(id),
        is_with_id(peers, id, index) ==> !no_peer_with_id(peers, id),
        slot_count(peers) == 256 * peers.len(),
{
}

impl<'a> PeerConnectionMessageIter<'a> {
    /// A walk stands at one slot of one peer, 256 slots a peer.
    pub proof fn a_walk_stands_at_one_slot(self, other: Self)
        requires
            self.wf(),
            other.wf(),
        ensures
            self.position() == 256 * self.primary_idx + self.secondary_idx,
            self.position() == other.position() ==> self.primary_idx == other.primary_idx
                && self.secondary_idx == other.secondary_idx,
    {
    }
}

} // verus!
