//! Puts the packets of a message back together, in whatever order they land.

use vstd::prelude::*;

use super::client_id::{ClientId, PeerAddr};
use super::message::{
    a_header_is_read, chunk, fits_packets, kind_bytes, kind_is_read_back, kind_of, kind_readable,
    packet, packet_body, packet_count, packet_id, packet_is_read_back, packet_is_whole,
    packet_readable, partial_len, InboundNettingMessage, KindModel, NettingMessage,
    NettingMessageBytesWithOrdering, NettingMessageKind, NettingMessageParseError,
};
use super::outbox::Outbox;
use crate::wire;

verus! {

/// The parts with an index below `n`, one after the other.
pub open spec fn join_upto(parts: Map<u8, Seq<u8>>, n: nat) -> Seq<u8>
    decreases n,
{
    if n == 0 {
        Seq::empty()
    } else {
        let before = join_upto(parts, (n - 1) as nat);
        if parts.dom().contains((n - 1) as u8) {
            before + parts[(n - 1) as u8]
        } else {
            before
        }
    }
}

/// The parts of a message in the order of their indices.
pub open spec fn join(parts: Map<u8, Seq<u8>>) -> Seq<u8> {
    join_upto(parts, 256)
}

/// The parts after one more has landed. The first under an index stays.
pub open spec fn with_part(parts: Map<u8, Seq<u8>>, index: u8, bytes: Seq<u8>) -> Map<
    u8,
    Seq<u8>,
> {
    if parts.dom().contains(index) {
        parts
    } else {
        parts.insert(index, bytes)
    }
}

/// What a packet that is no whole message does to the parts that are held with
/// it: it is filed, and once the parts make up the announced length, they leave
/// and are joined.
pub open spec fn landing(parts: Map<u8, Seq<u8>>, packet: Seq<u8>) -> (
    Map<u8, Seq<u8>>,
    Option<Seq<u8>>,
) {
    let filed = with_part(parts, packet[16], packet_body(packet));
    if join(filed).len() == partial_len(packet) {
        (Map::empty(), Some(join(filed)))
    } else {
        (filed, None)
    }
}

/// What a readable packet does to the parts that are held with it, and the
/// message that lands with it: the packet itself, or the one that it completes.
pub open spec fn taking<A>(parts: Map<u8, Seq<u8>>, packet: Seq<u8>) -> (
    Map<u8, Seq<u8>>,
    Option<(u64, KindModel<A>)>,
) {
    let id = packet_id(packet) as u64;
    if packet_is_whole::<A>(packet) {
        (parts, Some((id, kind_of::<A>(packet_body(packet))->0)))
    } else {
        let (held, made_up) = landing(parts, packet);
        match made_up {
            Some(payload) => if kind_readable(payload) && kind_of::<A>(payload) is Some {
                (held, Some((id, kind_of::<A>(payload)->0)))
            } else {
                (held, None)
            },
            None => (held, None),
        }
    }
}

/// What parts are kept under: the sender, the message's id and its length.
pub type PartKey = (PeerAddr, u64, u64);

/// A message of which parts have landed.
pub struct PartialMessage {
    addr: PeerAddr,
    message_id: u64,
    expected_len: u64,
    parts: Vec<NettingMessageBytesWithOrdering>,
}

spec fn rising(parts: Seq<NettingMessageBytesWithOrdering>) -> bool {
    forall|i: int, j: int|
        0 <= i < j < parts.len() ==> parts[i].packet_index < parts[j].packet_index
}

spec fn has_index(parts: Seq<NettingMessageBytesWithOrdering>, index: u8) -> bool {
    exists|i: int| 0 <= i < parts.len() && #[trigger] parts[i].packet_index == index
}

spec fn position(parts: Seq<NettingMessageBytesWithOrdering>, index: u8) -> int {
    choose|i: int| 0 <= i < parts.len() && #[trigger] parts[i].packet_index == index
}

/// Parts by their index.
spec fn by_index(parts: Seq<NettingMessageBytesWithOrdering>) -> Map<u8, Seq<u8>> {
    Map::new(|k: u8| has_index(parts, k), |k: u8| parts[position(parts, k)].bytes@)
}

/// Parts one after the other.
spec fn concat(parts: Seq<NettingMessageBytesWithOrdering>) -> Seq<u8>
    decreases parts.len(),
{
    if parts.len() == 0 {
        Seq::empty()
    } else {
        concat(parts.drop_last()) + parts.last().bytes@
    }
}

proof fn lookup(parts: Seq<NettingMessageBytesWithOrdering>, i: int)
    requires
        rising(parts),
        0 <= i < parts.len(),
    ensures
        by_index(parts).dom().contains(parts[i].packet_index),
        by_index(parts)[parts[i].packet_index] == parts[i].bytes@,
{
    let k = parts[i].packet_index;
    assert(has_index(parts, k));
    let p = position(parts, k);
    if p < i {
        assert(parts[p].packet_index < parts[i].packet_index);
    } else if i < p {
        assert(parts[i].packet_index < parts[p].packet_index);
    }
}

/// Rising parts, one after the other, are the join of the parts by index.
proof fn concat_is_join(parts: Seq<NettingMessageBytesWithOrdering>, n: nat, k: int)
    requires
        rising(parts),
        n <= 256,
        0 <= k <= parts.len(),
        forall|j: int| 0 <= j < k ==> (#[trigger] parts[j]).packet_index < n,
        forall|j: int| k <= j < parts.len() ==> (#[trigger] parts[j]).packet_index >= n,
    ensures
        join_upto(by_index(parts), n) == concat(parts.subrange(0, k)),
    decreases n,
{
    let m = by_index(parts);
    if n == 0 {
        if k > 0 {
            assert(parts[0].packet_index < n);
        }
    } else {
        let last = (n - 1) as u8;
        if k > 0 && parts[k - 1].packet_index == last {
            assert forall|j: int| 0 <= j < k - 1 implies (#[trigger] parts[j]).packet_index < n
                - 1 by {
                assert(parts[j].packet_index < parts[k - 1].packet_index);
            }
            concat_is_join(parts, (n - 1) as nat, k - 1);
            lookup(parts, k - 1);
            assert(parts.subrange(0, k).drop_last() =~= parts.subrange(0, k - 1));
        } else {
            assert forall|j: int| 0 <= j < k implies (#[trigger] parts[j]).packet_index < n - 1 by {
                if parts[j].packet_index == last {
                    if j < k - 1 {
                        assert(parts[j].packet_index < parts[k - 1].packet_index);
                        assert(parts[k - 1].packet_index < n);
                    }
                }
            }
            concat_is_join(parts, (n - 1) as nat, k);
            if m.dom().contains(last) {
                let p = position(parts, last);
                if p < k {
                    assert(parts[p].packet_index < n - 1);
                } else {
                    assert(parts[p].packet_index >= n);
                }
            }
        }
    }
}

proof fn whole_concat_is_join(parts: Seq<NettingMessageBytesWithOrdering>)
    requires
        rising(parts),
    ensures
        join(by_index(parts)) == concat(parts),
{
    concat_is_join(parts, 256, parts.len() as int);
    assert(parts.subrange(0, parts.len() as int) =~= parts);
}

/// Files a part under its index, unless the index is taken.
fn file_part(
    parts: &mut Vec<NettingMessageBytesWithOrdering>,
    part: NettingMessageBytesWithOrdering,
)
    requires
        rising(old(parts)@),
    ensures
        rising(final(parts)@),
        by_index(final(parts)@) == with_part(
            by_index(old(parts)@),
            part.packet_index,
            part.bytes@,
        ),
{
    let ghost before = parts@;
    let ghost index = part.packet_index;
    let ghost bytes = part.bytes@;
    let mut at: usize = 0;
    while at < parts.len() && parts[at].packet_index < part.packet_index
        invariant
            parts@ == before,
            part.packet_index == index,
            at <= before.len(),
            forall|j: int| 0 <= j < at ==> (#[trigger] before[j]).packet_index < index,
        decreases before.len() - at,
    {
        at += 1;
    }
    if at < parts.len() && parts[at].packet_index == part.packet_index {
        proof {
            lookup(before, at as int);
        }
        return;
    }
    proof {
        if has_index(before, index) {
            let p = position(before, index);
            if p < at {
                assert(before[p].packet_index < index);
            } else if p > at {
                assert(before[at as int].packet_index < before[p].packet_index);
            }
        }
    }
    parts.insert(at, part);
    proof {
        let after = parts@;
        assert forall|i: int, j: int| 0 <= i < j < after.len() implies after[i].packet_index
            < after[j].packet_index by {
            if j == at {
                assert(after[i] == before[i]);
            } else if i == at {
                assert(after[j] == before[j - 1]);
                if j - 1 > at {
                    assert(before[at as int].packet_index < before[j - 1].packet_index);
                }
            } else {
                let i0 = if i < at {
                    i
                } else {
                    i - 1
                };
                let j0 = if j < at {
                    j
                } else {
                    j - 1
                };
                assert(after[i] == before[i0]);
                assert(after[j] == before[j0]);
            }
        }
        let target = with_part(by_index(before), index, bytes);
        assert forall|k: u8| has_index(after, k) == #[trigger] target.dom().contains(k) && (
        has_index(after, k) ==> after[position(after, k)].bytes@ == target[k]) by {
            if k == index {
                assert(after[at as int].packet_index == index);
                lookup(after, at as int);
            } else if has_index(before, k) {
                let p = position(before, k);
                let q = if p < at {
                    p
                } else {
                    p + 1
                };
                assert(after[q] == before[p]);
                lookup(before, p);
                lookup(after, q);
            } else if has_index(after, k) {
                let q = position(after, k);
                assert(q != at);
                let p = if q < at {
                    q
                } else {
                    q - 1
                };
                assert(before[p].packet_index == k);
            }
        }
        assert(by_index(after).dom() =~= target.dom());
        assert forall|k: u8| #[trigger] by_index(after).dom().contains(k) implies by_index(after)[k]
            == target[k] by {
            assert(target.dom().contains(k));
        }
        assert(by_index(after) =~= target);
    }
}

/// How many bytes the parts hold.
fn loaded_bytes(parts: &Vec<NettingMessageBytesWithOrdering>) -> (total: u128)
    ensures
        total == concat(parts@).len(),
{
    let mut total: u128 = 0;
    let mut i: usize = 0;
    while i < parts.len()
        invariant
            i <= parts@.len(),
            total == concat(parts@.subrange(0, i as int)).len(),
            total <= i * 0xFFFF_FFFF_FFFF_FFFF,
        decreases parts@.len() - i,
    {
        total = total + parts[i].bytes.len() as u128;
        i += 1;
        assert(parts@.subrange(0, i as int).drop_last() =~= parts@.subrange(0, i - 1));
    }
    assert(parts@.subrange(0, i as int) =~= parts@);
    total
}

/// The bytes of the parts, one after the other.
fn combined_bytes(parts: &Vec<NettingMessageBytesWithOrdering>) -> (bytes: Vec<u8>)
    ensures
        bytes@ == concat(parts@),
{
    let mut bytes: Vec<u8> = Vec::new();
    let mut i: usize = 0;
    while i < parts.len()
        invariant
            i <= parts@.len(),
            bytes@ == concat(parts@.subrange(0, i as int)),
        decreases parts@.len() - i,
    {
        wire::push_all(&mut bytes, parts[i].bytes.as_slice());
        i += 1;
        assert(parts@.subrange(0, i as int).drop_last() =~= parts@.subrange(0, i - 1));
    }
    assert(parts@.subrange(0, i as int) =~= parts@);
    bytes
}

impl PartialMessage {
    spec fn key(self) -> PartKey {
        (self.addr, self.message_id, self.expected_len)
    }
}

spec fn keys_differ(entries: Seq<PartialMessage>) -> bool {
    forall|i: int, j: int| 0 <= i < j < entries.len() ==> entries[i].key() != entries[j].key()
}

spec fn has_key(entries: Seq<PartialMessage>, key: PartKey) -> bool {
    exists|i: int| 0 <= i < entries.len() && #[trigger] entries[i].key() == key
}

spec fn entry_of(entries: Seq<PartialMessage>, key: PartKey) -> int {
    choose|i: int| 0 <= i < entries.len() && #[trigger] entries[i].key() == key
}

/// What came of a packet.
pub enum Collated<A> {
    /// The packet was the whole message.
    Message(NettingMessage<Vec<u8>, A>),
    /// The packet was the last part of this message.
    Assembled { message_id: u64, payload: Vec<u8> },
    /// Parts are still missing.
    Held,
}

/// The parts of unfinished messages.
pub struct PartialCache {
    cached_partials: Vec<PartialMessage>,
}

/// The key under which a packet's part is kept.
pub open spec fn part_key(addr: PeerAddr, packet: Seq<u8>) -> PartKey {
    (addr, packet_id(packet) as u64, partial_len(packet) as u64)
}

impl PartialCache {
    /// Each message is kept once, each index of it once.
    pub closed spec fn wf(self) -> bool {
        &&& keys_differ(self.cached_partials@)
        &&& forall|i: int|
            0 <= i < self.cached_partials@.len() ==> rising(
                (#[trigger] self.cached_partials@[i]).parts@,
            )
    }

    /// The parts that are held under a key, by their index.
    pub closed spec fn held(self, key: PartKey) -> Map<u8, Seq<u8>> {
        if has_key(self.cached_partials@, key) {
            by_index(self.cached_partials@[entry_of(self.cached_partials@, key)].parts@)
        } else {
            Map::empty()
        }
    }

    /// A cache that holds nothing.
    pub fn new() -> (c: Self)
        ensures
            c.wf(),
            forall|key: PartKey| #[trigger] c.held(key) == Map::<u8, Seq<u8>>::empty(),
    {
        PartialCache { cached_partials: Vec::new() }
    }

    proof fn held_at(self, i: int)
        requires
            self.wf(),
            0 <= i < self.cached_partials@.len(),
        ensures
            self.held(self.cached_partials@[i].key()) == by_index(self.cached_partials@[i].parts@),
    {
        let e = self.cached_partials@;
        assert(has_key(e, e[i].key()));
        let p = entry_of(e, e[i].key());
        if p < i {
            assert(e[p].key() != e[i].key());
        } else if i < p {
            assert(e[i].key() != e[p].key());
        }
    }

    /// The entry for a key, made if there is none.
    fn entry(&mut self, addr: PeerAddr, message_id: u64, expected_len: u64) -> (at: usize)
        requires
            old(self).wf(),
        ensures
            final(self).wf(),
            at < final(self).cached_partials@.len(),
            final(self).cached_partials@[at as int].key() == (addr, message_id, expected_len),
            forall|key: PartKey| #[trigger] final(self).held(key) == old(self).held(key),
    {
        let ghost key: PartKey = (addr, message_id, expected_len);
        let mut i: usize = 0;
        while i < self.cached_partials.len()
            invariant
                *self == *old(self),
                self.wf(),
                i <= self.cached_partials@.len(),
                key == (addr, message_id, expected_len),
                forall|j: int| 0 <= j < i ==> (#[trigger] self.cached_partials@[j]).key() != key,
            decreases self.cached_partials@.len() - i,
        {
            let e = &self.cached_partials[i];
            if e.addr == addr && e.message_id == message_id && e.expected_len == expected_len {
                return i;
            }
            i += 1;
        }
        let ghost before = self.cached_partials@;
        self.cached_partials.push(
            PartialMessage { addr, message_id, expected_len, parts: Vec::new() },
        );
        proof {
            let after = self.cached_partials@;
            assert forall|i: int, j: int| 0 <= i < j < after.len() implies after[i].key()
                != after[j].key() by {
                if j < before.len() {
                    assert(before[i].key() != before[j].key());
                }
            }
            assert forall|i: int| 0 <= i < after.len() implies rising(
                (#[trigger] after[i]).parts@,
            ) by {
                if i < before.len() {
                    assert(after[i] == before[i]);
                }
            }
            assert forall|k: PartKey| #[trigger] self.held(k) == old(self).held(k) by {
                if has_key(before, k) {
                    let p = entry_of(before, k);
                    assert(after[p] == before[p]);
                    old(self).held_at(p);
                    self.held_at(p);
                } else if has_key(after, k) {
                    let p = entry_of(after, k);
                    assert(p == before.len()) by {
                        if p < before.len() {
                            assert(before[p].key() == k);
                        }
                    }
                    assert(by_index(after[p].parts@) =~= Map::empty());
                }
            }
        }
        self.cached_partials.len() - 1
    }

    /// Takes in a packet from `addr`.
    ///
    /// A packet that is a whole message is that message. Any other is filed
    /// under its index; when the parts that are held make up the announced
    /// length, they leave the cache and are joined in the order of their
    /// indices.
    pub fn collate<A>(&mut self, addr: PeerAddr, bytes: Vec<u8>) -> (out: Collated<A>)
        requires
            old(self).wf(),
            packet_readable(bytes@),
        ensures
            final(self).wf(),
            forall|key: PartKey|
                key != part_key(addr, bytes@) ==> #[trigger] final(self).held(key) == old(
                    self,
                ).held(key),
            ({
                let key = part_key(addr, bytes@);
                let landed = landing(old(self).held(key), bytes@);
                match out {
                    Collated::Message(msg) => {
                        &&& packet_is_whole::<A>(bytes@)
                        &&& msg.message_id == packet_id(bytes@)
                        &&& kind_of::<A>(packet_body(bytes@)) == Some(msg.kind@)
                        &&& final(self).held(key) == old(self).held(key)
                    },
                    Collated::Assembled { message_id, payload } => {
                        &&& !packet_is_whole::<A>(bytes@)
                        &&& message_id == packet_id(bytes@)
                        &&& landed == (final(self).held(key), Some(payload@))
                    },
                    Collated::Held => {
                        &&& !packet_is_whole::<A>(bytes@)
                        &&& landed == (final(self).held(key), None::<Seq<u8>>)
                    },
                }
            }),
    {
        let ghost key = part_key(addr, bytes@);
        let ghost packet = bytes@;
        match NettingMessage::<Vec<u8>, A>::parse(bytes) {
            Ok(msg) => Collated::Message(msg),
            Err(NettingMessageParseError::BadWorld(_)) => Collated::Held,
            Err(
                NettingMessageParseError::PartialMessage { message_id, expected_len, msg: part },
            ) => {
                let at = self.entry(addr, message_id, expected_len);
                let ghost mid = *self;
                let ghost before = self.cached_partials@;
                proof {
                    mid.held_at(at as int);
                    assert(mid.held(key) == old(self).held(key));
                }
                file_part(&mut self.cached_partials[at].parts, part);
                let ghost filed = self.cached_partials@;
                proof {
                    assert forall|i: int, j: int| 0 <= i < j < filed.len() implies filed[i].key()
                        != filed[j].key() by {
                        assert(filed[i].key() == before[i].key());
                        assert(filed[j].key() == before[j].key());
                    }
                    assert forall|i: int| 0 <= i < filed.len() implies rising(
                        (#[trigger] filed[i]).parts@,
                    ) by {
                        if i != at {
                            assert(filed[i] == before[i]);
                        }
                    }
                    self.held_at(at as int);
                    whole_concat_is_join(filed[at as int].parts@);
                    assert forall|k: PartKey| k != key implies #[trigger] self.held(k) == old(
                        self,
                    ).held(k) by {
                        assert(mid.held(k) == old(self).held(k));
                        if has_key(before, k) {
                            let p = entry_of(before, k);
                            assert(p != at);
                            assert(filed[p] == before[p]);
                            mid.held_at(p);
                            self.held_at(p);
                        } else if has_key(filed, k) {
                            let p = entry_of(filed, k);
                            assert(before[p].key() == k);
                        }
                    }
                }
                if loaded_bytes(&self.cached_partials[at].parts) == expected_len as u128 {
                    let payload = combined_bytes(&self.cached_partials[at].parts);
                    let ghost with_filed = *self;
                    self.cached_partials.remove(at);
                    proof {
                        let after = self.cached_partials@;
                        assert forall|i: int, j: int|
                            0 <= i < j < after.len() implies after[i].key() != after[j].key() by {
                            let i0 = if i < at {
                                i
                            } else {
                                i + 1
                            };
                            let j0 = if j < at {
                                j
                            } else {
                                j + 1
                            };
                            assert(after[i] == filed[i0]);
                            assert(after[j] == filed[j0]);
                        }
                        assert forall|i: int| 0 <= i < after.len() implies rising(
                            (#[trigger] after[i]).parts@,
                        ) by {
                            let i0 = if i < at {
                                i
                            } else {
                                i + 1
                            };
                            assert(after[i] == filed[i0]);
                        }
                        assert(!has_key(after, key)) by {
                            if has_key(after, key) {
                                let q = entry_of(after, key);
                                let q0 = if q < at {
                                    q
                                } else {
                                    q + 1
                                };
                                assert(after[q] == filed[q0]);
                                assert(filed[q0].key() == filed[at as int].key());
                            }
                        }
                        assert forall|k: PartKey| k != key implies #[trigger] self.held(k)
                            == with_filed.held(k) by {
                            if has_key(filed, k) {
                                let p = entry_of(filed, k);
                                let q = if p < at {
                                    p
                                } else {
                                    p - 1
                                };
                                assert(after[q] == filed[p]);
                                with_filed.held_at(p);
                                self.held_at(q);
                            } else if has_key(after, k) {
                                let q = entry_of(after, k);
                                let p = if q < at {
                                    q
                                } else {
                                    q + 1
                                };
                                assert(filed[p].key() == k);
                            }
                        }
                    }
                    Collated::Assembled { message_id, payload }
                } else {
                    Collated::Held
                }
            },
        }
    }
}

/// What the collater makes of a packet.
pub enum Landed<A> {
    /// A message has landed whole.
    Message(NettingMessage<Vec<u8>, A>),
    /// Parts are still missing.
    Held,
    /// The packet, or the message that its parts make up, cannot be read.
    Unreadable,
}

impl<A> View for Landed<A> {
    type V = Option<(u64, KindModel<A>)>;

    /// The message that has landed.
    open spec fn view(&self) -> Option<(u64, KindModel<A>)> {
        match *self {
            Landed::Message(msg) => Some((msg.message_id, msg.kind@)),
            _ => None,
        }
    }
}

/// The collater's state: the parts of unfinished messages, and the messages
/// that are still to be handed on.
pub struct Collater<W, A> {
    pub partials: PartialCache,
    pub unsent: Outbox<InboundNettingMessage<W, A>>,
}

impl<W, A> Collater<W, A> {
    /// A collater that holds nothing.
    pub fn init() -> (c: Self)
        ensures
            c.partials.wf(),
            forall|key: PartKey| #[trigger] c.partials.held(key) == Map::<u8, Seq<u8>>::empty(),
            c.unsent@ == Seq::<InboundNettingMessage<W, A>>::empty(),
    {
        Collater { partials: PartialCache::new(), unsent: Outbox::new() }
    }

    /// Takes in a packet from `addr`: it is a message, or the last part of
    /// one, or is held. What cannot be read leaves everything as it is, but
    /// for parts that make up an unreadable message: those leave.
    pub fn on_packet(&mut self, addr: PeerAddr, bytes: Vec<u8>) -> (landed: Landed<A>)
        requires
            old(self).partials.wf(),
        ensures
            final(self).partials.wf(),
            final(self).unsent == old(self).unsent,
            forall|key: PartKey|
                key != part_key(addr, bytes@) ==> #[trigger] final(self).partials.held(key) == old(
                    self,
                ).partials.held(key),
            ({
                let key = part_key(addr, bytes@);
                let before = old(self).partials.held(key);
                let after = final(self).partials.held(key);
                if !packet_readable(bytes@) {
                    after == before
                } else {
                    (after, landed@) == taking::<A>(before, bytes@)
                }
            }),
            landed is Unreadable <==> {
                ||| !packet_readable(bytes@)
                ||| {
                    &&& !packet_is_whole::<A>(bytes@)
                    &&& landing(
                        old(self).partials.held(part_key(addr, bytes@)),
                        bytes@,
                    ).1 matches Some(payload)
                    &&& !(kind_readable(payload) && kind_of::<A>(payload) is Some)
                }
            },
    {
        if !NettingMessage::<Vec<u8>, A>::is_readable(&bytes) {
            return Landed::Unreadable;
        }
        match self.partials.collate(addr, bytes) {
            Collated::Message(msg) => Landed::Message(msg),
            Collated::Held => Landed::Held,
            Collated::Assembled { message_id, payload } => {
                if NettingMessageKind::<Vec<u8>, A>::is_whole(&payload) {
                    Landed::Message(message_of_payload(message_id, payload))
                } else {
                    Landed::Unreadable
                }
            },
        }
    }

    /// Queues a message from a client to be handed on.
    pub fn deliver(&mut self, msg: NettingMessage<W, A>, client_id: ClientId)
        ensures
            final(self).partials == old(self).partials,
            final(self).unsent@ == old(self).unsent@.push(
                (InboundNettingMessage { sender_id: client_id, msg }),
            ),
    {
        self.unsent.push(msg.to_inbound(client_id));
    }
}

/// The message of an assembled payload, which is readable and no frame sync of
/// another length.
pub fn message_of_payload<A>(message_id: u64, payload: Vec<u8>) -> (msg: NettingMessage<Vec<u8>, A>)
    requires
        kind_readable(payload@),
        kind_of::<A>(payload@) is Some,
    ensures
        msg.message_id == message_id,
        kind_of::<A>(payload@) == Some(msg.kind@),
{
    let kind = NettingMessageKind::<Vec<u8>, A>::parse(payload);
    NettingMessage { message_id, kind: kind.unwrap() }
}

/// The parts of a message whose packets have landed, in the order `order`, by
/// their index.
pub open spec fn filed(message_id: u64, payload: Seq<u8>, order: Seq<int>) -> Map<u8, Seq<u8>>
    decreases order.len(),
{
    if order.len() == 0 {
        Map::empty()
    } else {
        let landed = packet(message_id, payload, order.last());
        with_part(
            filed(message_id, payload, order.drop_last()),
            landed[16],
            packet_body(landed),
        )
    }
}

spec fn shares(payload: Seq<u8>, landed: Set<int>) -> Map<u8, Seq<u8>> {
    Map::new(|k: u8| landed.contains(k as int), |k: u8| chunk(payload, k as int))
}

spec fn prefix_len(payload: Seq<u8>, n: int) -> int {
    if n * 32750 <= payload.len() {
        n * 32750
    } else {
        payload.len() as int
    }
}

spec fn all_below(landed: Set<int>, n: int, count: int) -> bool {
    forall|k: int| 0 <= k < n && k < count ==> #[trigger] landed.contains(k)
}

proof fn join_of_shares(payload: Seq<u8>, landed: Set<int>, n: nat)
    requires
        fits_packets(payload.len()),
        n <= 256,
        forall|k: int| #[trigger] landed.contains(k) ==> 0 <= k < packet_count(payload.len()),
    ensures
        join_upto(shares(payload, landed), n).len() <= prefix_len(payload, n as int),
        join_upto(shares(payload, landed), n).len() == prefix_len(payload, n as int) <==> all_below(
            landed,
            n as int,
            packet_count(payload.len()) as int,
        ),
        all_below(landed, n as int, packet_count(payload.len()) as int) ==> join_upto(
            shares(payload, landed),
            n,
        ) == payload.subrange(0, prefix_len(payload, n as int)),
    decreases n,
{
    let m = shares(payload, landed);
    let count = packet_count(payload.len()) as int;
    if n == 0 {
        assert(join_upto(m, 0) =~= payload.subrange(0, 0));
    } else {
        join_of_shares(payload, landed, (n - 1) as nat);
        let k = n - 1;
        assert(m.dom().contains(k as u8) == landed.contains(k));
        if k < count {
            assert(chunk(payload, k).len() == prefix_len(payload, n as int) - prefix_len(
                payload,
                k,
            ));
            assert(chunk(payload, k).len() > 0);
            if landed.contains(k) {
                assert(all_below(landed, n as int, count) <==> all_below(landed, k, count)) by {
                    if all_below(landed, k, count) {
                        assert forall|j: int| 0 <= j < n && j < count implies #[trigger]
                            landed.contains(j) by {
                            if j < k {
                                assert(landed.contains(j));
                            }
                        }
                    }
                }
                if all_below(landed, n as int, count) {
                    assert(join_upto(m, n) =~= payload.subrange(
                        0,
                        prefix_len(payload, n as int),
                    ));
                }
            } else {
                assert(!all_below(landed, n as int, count));
            }
        } else {
            assert(!landed.contains(k));
            assert(prefix_len(payload, n as int) == prefix_len(payload, k));
            assert(all_below(landed, n as int, count) <==> all_below(landed, k, count));
        }
    }
}

proof fn filed_is_shares(message_id: u64, payload: Seq<u8>, order: Seq<int>)
    requires
        fits_packets(payload.len()),
        forall|j: int|
            0 <= j < order.len() ==> 0 <= #[trigger] order[j] < packet_count(payload.len()),
    ensures
        filed(message_id, payload, order) == shares(payload, order.to_set()),
    decreases order.len(),
{
    broadcast use vstd::seq_lib::group_to_multiset_ensures;

    if order.len() == 0 {
        assert(filed(message_id, payload, order) =~= shares(payload, order.to_set()));
    } else {
        let init = order.drop_last();
        let last = order.last();
        filed_is_shares(message_id, payload, init);
        packet_is_read_back(message_id, payload, last);
        assert forall|k: int| order.to_set().contains(k) <==> (init.to_set().contains(k) || k
            == last) by {
            if order.contains(k) && k != last {
                let j = choose|j: int| 0 <= j < order.len() && order[j] == k;
                assert(init[j] == k);
            }
            if init.contains(k) {
                let j = choose|j: int| 0 <= j < init.len() && init[j] == k;
                assert(order[j] == k);
            }
            if k == last {
                assert(order[order.len() - 1] == k);
            }
        }
        assert(filed(message_id, payload, order) =~= shares(payload, order.to_set()));
    }
}

/// In whatever order its packets land, and however often, a message that takes
/// several packets is complete exactly when each of them has landed; joined,
/// the parts are then the message. Until then every packet is held as a part.
pub proof fn any_order_makes_up_the_message<A>(message_id: u64, payload: Seq<u8>, order: Seq<int>)
    requires
        fits_packets(payload.len()),
        packet_count(payload.len()) > 1,
        forall|j: int|
            0 <= j < order.len() ==> 0 <= #[trigger] order[j] < packet_count(payload.len()),
    ensures
        forall|i: int|
            0 <= i < packet_count(payload.len()) ==> {
                let p = #[trigger] packet(message_id, payload, i);
                &&& packet_readable(p)
                &&& !packet_is_whole::<A>(p)
                &&& packet_id(p) == message_id
                &&& partial_len(p) == payload.len()
            },
        join(filed(message_id, payload, order)).len() == payload.len() <==> (forall|i: int|
            0 <= i < packet_count(payload.len()) ==> #[trigger] order.contains(i)),
        (forall|i: int| 0 <= i < packet_count(payload.len()) ==> #[trigger] order.contains(i))
            ==> join(filed(message_id, payload, order)) == payload,
{
    let count = packet_count(payload.len()) as int;
    assert forall|i: int| 0 <= i < count implies {
        let p = #[trigger] packet(message_id, payload, i);
        &&& packet_readable(p)
        &&& !packet_is_whole::<A>(p)
        &&& packet_id(p) == message_id
        &&& partial_len(p) == payload.len()
    } by {
        packet_is_read_back(message_id, payload, i);
        assert(chunk(payload, i).len() < payload.len());
    }
    filed_is_shares(message_id, payload, order);
    let landed = order.to_set();
    assert forall|k: int| #[trigger] landed.contains(k) implies 0 <= k < count by {
        let j = choose|j: int| 0 <= j < order.len() && order[j] == k;
        assert(order[j] == k);
    }
    join_of_shares(payload, landed, 256);
    assert(payload.subrange(0, payload.len() as int) =~= payload);
    assert(prefix_len(payload, 256) == payload.len());
    if all_below(landed, 256, count) {
        assert forall|i: int| 0 <= i < count implies #[trigger] order.contains(i) by {
            packet_is_read_back(message_id, payload, i);
            assert(landed.contains(i));
        }
    }
    if forall|i: int| 0 <= i < count ==> #[trigger] order.contains(i) {
        assert forall|k: int| 0 <= k < 256 && k < count implies #[trigger] landed.contains(k) by {
            assert(order.contains(k));
        }
    }
}

/// The parts that are held and the payloads that were made up, in order, after
/// a run of packets that are kept together.
pub open spec fn after_run(packets: Seq<Seq<u8>>) -> (Map<u8, Seq<u8>>, Seq<Seq<u8>>)
    decreases packets.len(),
{
    if packets.len() == 0 {
        (Map::empty(), Seq::empty())
    } else {
        let before = after_run(packets.drop_last());
        let landed = landing(before.0, packets.last());
        match landed.1 {
            Some(payload) => (landed.0, before.1.push(payload)),
            None => (landed.0, before.1),
        }
    }
}

/// The packets of a message in the order in which they land.
pub open spec fn arriving(message_id: u64, payload: Seq<u8>, order: Seq<int>) -> Seq<Seq<u8>> {
    Seq::new(order.len(), |j: int| packet(message_id, payload, order[j]))
}

/// While a packet of a message is missing, nothing is made up, and what has
/// landed is held.
pub proof fn nothing_is_made_up_early(
    message_id: u64,
    payload: Seq<u8>,
    order: Seq<int>,
    missing: int,
)
    requires
        fits_packets(payload.len()),
        packet_count(payload.len()) > 1,
        forall|j: int|
            0 <= j < order.len() ==> 0 <= #[trigger] order[j] < packet_count(payload.len()),
        0 <= missing < packet_count(payload.len()),
        !order.contains(missing),
    ensures
        after_run(arriving(message_id, payload, order)) == (
            filed(message_id, payload, order),
            Seq::<Seq<u8>>::empty(),
        ),
    decreases order.len(),
{
    let packets = arriving(message_id, payload, order);
    if order.len() > 0 {
        let init = order.drop_last();
        assert forall|j: int| 0 <= j < init.len() implies 0 <= #[trigger] init[j] < packet_count(
            payload.len(),
        ) by {
            assert(init[j] == order[j]);
        }
        assert(!init.contains(missing)) by {
            if init.contains(missing) {
                let j = choose|j: int| 0 <= j < init.len() && init[j] == missing;
                assert(order[j] == missing);
            }
        }
        nothing_is_made_up_early(message_id, payload, init, missing);
        assert(packets.drop_last() =~= arriving(message_id, payload, init));
        any_order_makes_up_the_message::<()>(message_id, payload, order);
        assert(0 <= order[order.len() - 1] < packet_count(payload.len()));
        assert(packets.last() == packet(message_id, payload, order.last()));
        assert(join(filed(message_id, payload, order)).len() != payload.len());
    }
}

/// In whatever order the packets of a message land, and however often each does
/// before the last missing one, the message is made up once, when the last
/// missing one lands, and nothing of it stays behind. Of every kind but a
/// dropped connection and a user's action, it reads as what was sent.
pub proof fn packets_make_up_the_message_once<A>(
    kind: KindModel<A>,
    message_id: u64,
    order: Seq<int>,
)
    requires
        !(kind is DroppedConnection),
        !(kind is User),
        fits_packets(kind_bytes(kind).len()),
        packet_count(kind_bytes(kind).len()) > 1,
        forall|j: int|
            0 <= j < order.len() ==> 0 <= #[trigger] order[j] < packet_count(
                kind_bytes(kind).len(),
            ),
        forall|i: int|
            0 <= i < packet_count(kind_bytes(kind).len()) ==> #[trigger] order.contains(i),
        !order.drop_last().contains(order.last()),
    ensures
        after_run(arriving(message_id, kind_bytes(kind), order)) == (
            Map::<u8, Seq<u8>>::empty(),
            seq![kind_bytes(kind)],
        ),
        forall|n: int|
            0 <= n < order.len() ==> (#[trigger] after_run(
                arriving(message_id, kind_bytes(kind), order.take(n)),
            )).1 == Seq::<Seq<u8>>::empty(),
        kind_readable(kind_bytes(kind)),
        kind_of::<A>(kind_bytes(kind)) == Some(kind),
{
    let payload = kind_bytes(kind);
    kind_is_read_back(kind);
    assert(order.contains(0));
    let last = order.last();
    assert(0 <= order[order.len() - 1] < packet_count(payload.len()));
    assert forall|n: int| 0 <= n < order.len() implies (#[trigger] after_run(
        arriving(message_id, payload, order.take(n)),
    )).1 == Seq::<Seq<u8>>::empty() by {
        let front = order.take(n);
        assert forall|j: int| 0 <= j < front.len() implies 0 <= #[trigger] front[j] < packet_count(
            payload.len(),
        ) by {
            assert(front[j] == order[j]);
        }
        assert(!front.contains(last)) by {
            if front.contains(last) {
                let j = choose|j: int| 0 <= j < front.len() && front[j] == last;
                assert(order.drop_last()[j] == last);
            }
        }
        nothing_is_made_up_early(message_id, payload, front, last);
    }
    let init = order.drop_last();
    assert forall|j: int| 0 <= j < init.len() implies 0 <= #[trigger] init[j] < packet_count(
        payload.len(),
    ) by {
        assert(init[j] == order[j]);
    }
    nothing_is_made_up_early(message_id, payload, init, last);
    let packets = arriving(message_id, payload, order);
    assert(packets.drop_last() =~= arriving(message_id, payload, init));
    assert(packets.last() == packet(message_id, payload, last));
    any_order_makes_up_the_message::<A>(message_id, payload, order);
    assert(after_run(packets).1 =~= seq![payload]);
}

/// The packets, out of all that arrive, that are kept under a key.
pub open spec fn kept_under(key: PartKey, arrivals: Seq<(PeerAddr, Seq<u8>)>) -> Seq<Seq<u8>>
    decreases arrivals.len(),
{
    if arrivals.len() == 0 {
        Seq::empty()
    } else {
        let before = kept_under(key, arrivals.drop_last());
        let (addr, packet) = arrivals.last();
        if part_key(addr, packet) == key {
            before.push(packet)
        } else {
            before
        }
    }
}

/// The parts that are held under a key, and the messages that have landed under
/// it, in order, after all that arrived.
pub open spec fn after_arrivals<A>(key: PartKey, arrivals: Seq<(PeerAddr, Seq<u8>)>) -> (
    Map<u8, Seq<u8>>,
    Seq<(u64, KindModel<A>)>,
)
    decreases arrivals.len(),
{
    if arrivals.len() == 0 {
        (Map::empty(), Seq::empty())
    } else {
        let before = after_arrivals::<A>(key, arrivals.drop_last());
        let (addr, packet) = arrivals.last();
        if part_key(addr, packet) == key {
            let (held, message) = taking::<A>(before.0, packet);
            match message {
                Some(m) => (held, before.1.push(m)),
                None => (held, before.1),
            }
        } else {
            before
        }
    }
}

/// The messages that payloads stand for, all under one id.
pub open spec fn messages_of<A>(message_id: u64, payloads: Seq<Seq<u8>>) -> Seq<
    (u64, KindModel<A>),
> {
    Seq::new(payloads.len(), |i: int| (message_id, kind_of::<A>(payloads[i])->0))
}

proof fn arrivals_are_a_run<A>(
    key: PartKey,
    arrivals: Seq<(PeerAddr, Seq<u8>)>,
    message_id: u64,
    payload: Seq<u8>,
    order: Seq<int>,
)
    requires
        fits_packets(payload.len()),
        packet_count(payload.len()) > 1,
        forall|j: int|
            0 <= j < order.len() ==> 0 <= #[trigger] order[j] < packet_count(payload.len()),
        kept_under(key, arrivals) == arriving(message_id, payload, order),
        forall|n: int|
            0 <= n < order.len() ==> (#[trigger] after_run(
                arriving(message_id, payload, order.take(n)),
            )).1 == Seq::<Seq<u8>>::empty(),
        order.len() > 0 ==> after_run(arriving(message_id, payload, order)).1 == Seq::<
            Seq<u8>,
        >::empty() || after_run(arriving(message_id, payload, order)).1 == seq![payload],
        kind_readable(payload),
        kind_of::<A>(payload) is Some,
    ensures
        after_arrivals::<A>(key, arrivals).0 == after_run(arriving(message_id, payload, order)).0,
        after_arrivals::<A>(key, arrivals).1 == messages_of::<A>(
            message_id,
            after_run(arriving(message_id, payload, order)).1,
        ),
    decreases arrivals.len(),
{
    let packets = arriving(message_id, payload, order);
    if arrivals.len() == 0 {
        assert(packets.len() == 0);
        assert(after_arrivals::<A>(key, arrivals).1 =~= messages_of::<A>(
            message_id,
            after_run(packets).1,
        ));
    } else {
        let (addr, last) = arrivals.last();
        let rest = arrivals.drop_last();
        if part_key(addr, last) != key {
            arrivals_are_a_run::<A>(key, rest, message_id, payload, order);
        } else {
            let init = order.drop_last();
            assert(packets.last() == last);
            assert(kept_under(key, rest) =~= packets.drop_last());
            assert(packets.drop_last() =~= arriving(message_id, payload, init));
            assert(order.take(order.len() - 1) =~= init);
            assert forall|j: int| 0 <= j < init.len() implies 0 <= #[trigger] init[j]
                < packet_count(payload.len()) by {
                assert(init[j] == order[j]);
            }
            assert forall|n: int| 0 <= n < init.len() implies (#[trigger] after_run(
                arriving(message_id, payload, init.take(n)),
            )).1 == Seq::<Seq<u8>>::empty() by {
                assert(init.take(n) =~= order.take(n));
            }
            arrivals_are_a_run::<A>(key, rest, message_id, payload, init);
            any_order_makes_up_the_message::<A>(message_id, payload, order);
            assert(0 <= order[order.len() - 1] < packet_count(payload.len()));
            assert(last == packet(message_id, payload, order.last()));
            let before = after_run(packets.drop_last());
            let landed = landing(before.0, last);
            if landed.1 is Some {
                assert(after_run(packets).1 == before.1.push(landed.1->0));
                assert(after_run(packets).1.len() == 1);
                assert(after_run(packets).1[0] == landed.1->0);
            }
            assert(after_arrivals::<A>(key, arrivals).1 =~= messages_of::<A>(
                message_id,
                after_run(packets).1,
            ));
        }
    }
}

/// Out of all that arrives, in whatever order the packets of a message come from
/// their sender and however often each does before the last missing one, the
/// message lands exactly once, as it was sent, and nothing of it stays behind.
/// This holds of every kind but a dropped connection and a user's action.
pub proof fn a_message_lands_once<A>(
    kind: KindModel<A>,
    message_id: u64,
    order: Seq<int>,
    addr: PeerAddr,
    arrivals: Seq<(PeerAddr, Seq<u8>)>,
)
    requires
        !(kind is DroppedConnection),
        !(kind is User),
        fits_packets(kind_bytes(kind).len()),
        packet_count(kind_bytes(kind).len()) > 1,
        forall|j: int|
            0 <= j < order.len() ==> 0 <= #[trigger] order[j] < packet_count(
                kind_bytes(kind).len(),
            ),
        forall|i: int|
            0 <= i < packet_count(kind_bytes(kind).len()) ==> #[trigger] order.contains(i),
        !order.drop_last().contains(order.last()),
        kept_under((addr, message_id, kind_bytes(kind).len() as u64), arrivals) == arriving(
            message_id,
            kind_bytes(kind),
            order,
        ),
    ensures
        after_arrivals::<A>((addr, message_id, kind_bytes(kind).len() as u64), arrivals) == (
            Map::<u8, Seq<u8>>::empty(),
            seq![(message_id, kind)],
        ),
        forall|i: int|
            0 <= i < packet_count(kind_bytes(kind).len()) ==> {
                let p = #[trigger] packet(message_id, kind_bytes(kind), i);
                packet_readable(p) && part_key(addr, p) == (
                    addr,
                    message_id,
                    kind_bytes(kind).len() as u64,
                )
            },
{
    let payload = kind_bytes(kind);
    let key: PartKey = (addr, message_id, payload.len() as u64);
    packets_make_up_the_message_once(kind, message_id, order);
    any_order_makes_up_the_message::<A>(message_id, payload, order);
    arrivals_are_a_run::<A>(key, arrivals, message_id, payload, order);
    assert(after_arrivals::<A>(key, arrivals).1 =~= seq![(message_id, kind)]);
}

/// A message that takes one packet is that packet: whole, and read as what was
/// sent.
pub proof fn one_packet_is_the_message<A>(message_id: u64, payload: Seq<u8>)
    requires
        packet_count(payload.len()) == 1,
        kind_readable(payload),
        kind_of::<A>(payload) is Some,
    ensures
        packet_readable(packet(message_id, payload, 0)),
        packet_is_whole::<A>(packet(message_id, payload, 0)),
        packet_id(packet(message_id, payload, 0)) == message_id,
        packet_body(packet(message_id, payload, 0)) == payload,
{
    packet_is_read_back(message_id, payload, 0);
    assert(chunk(payload, 0) =~= payload);
}

/// A message arrives as it was sent, in however many packets and in whatever
/// order they land: of every kind but a dropped connection and a user's action.
pub proof fn message_arrives_as_sent<A>(kind: KindModel<A>, message_id: u64, order: Seq<int>)
    requires
        !(kind is DroppedConnection),
        !(kind is User),
        fits_packets(kind_bytes(kind).len()),
        forall|j: int|
            0 <= j < order.len() ==> 0 <= #[trigger] order[j] < packet_count(
                kind_bytes(kind).len(),
            ),
        forall|i: int|
            0 <= i < packet_count(kind_bytes(kind).len()) ==> #[trigger] order.contains(i),
    ensures
        packet_count(kind_bytes(kind).len()) == 1 ==> {
            let p = packet(message_id, kind_bytes(kind), 0);
            &&& packet_readable(p)
            &&& packet_is_whole::<A>(p)
            &&& packet_id(p) == message_id
            &&& kind_of::<A>(packet_body(p)) == Some(kind)
        },
        packet_count(kind_bytes(kind).len()) > 1 ==> {
            let payload = join(filed(message_id, kind_bytes(kind), order));
            &&& payload.len() == kind_bytes(kind).len()
            &&& kind_readable(payload)
            &&& kind_of::<A>(payload) == Some(kind)
        },
{
    kind_is_read_back(kind);
    if packet_count(kind_bytes(kind).len()) == 1 {
        one_packet_is_the_message::<A>(message_id, kind_bytes(kind));
    } else if packet_count(kind_bytes(kind).len()) > 1 {
        any_order_makes_up_the_message::<A>(message_id, kind_bytes(kind), order);
    }
}

/// Parts are joined by their index, whichever came first: what is joined is all
/// parts one after the other from the lowest index to the highest, and an index
/// without a part adds nothing.
pub proof fn parts_are_joined_by_index(parts: Map<u8, Seq<u8>>)
    ensures
        join(parts) == Seq::new(
            256,
            |i: int|
                if parts.dom().contains(i as u8) {
                    parts[i as u8]
                } else {
                    Seq::<u8>::empty()
                },
        ).flatten(),
{
    parts_below_are_joined_by_index(parts, 256);
}

proof fn parts_below_are_joined_by_index(parts: Map<u8, Seq<u8>>, n: nat)
    ensures
        join_upto(parts, n) == Seq::new(
            n,
            |i: int|
                if parts.dom().contains(i as u8) {
                    parts[i as u8]
                } else {
                    Seq::<u8>::empty()
                },
        ).flatten(),
    decreases n,
{
    let part = |i: int|
        if parts.dom().contains(i as u8) {
            parts[i as u8]
        } else {
            Seq::<u8>::empty()
        };
    if n == 0 {
        assert(Seq::new(0, part).flatten() =~= Seq::<u8>::empty());
    } else {
        parts_below_are_joined_by_index(parts, (n - 1) as nat);
        let init = Seq::new((n - 1) as nat, part);
        assert(Seq::new(n, part) =~= init.push(part(n - 1)));
        init.lemma_flatten_push(part(n - 1));
        assert(join_upto(parts, n) =~= init.flatten() + part(n - 1));
    }
}

/// The first part under an index stays, and every other index keeps its part.
pub proof fn the_first_part_stays(parts: Map<u8, Seq<u8>>, index: u8, bytes: Seq<u8>)
    ensures
        parts.dom().contains(index) ==> with_part(parts, index, bytes) == parts,
        !parts.dom().contains(index) ==> with_part(parts, index, bytes) == parts.insert(
            index,
            bytes,
        ),
{
}

/// A part is taken in at its index. While the parts together are not as long as
/// is announced they are held; once they are, they leave, joined.
pub proof fn parts_leave_once_they_are_complete(parts: Map<u8, Seq<u8>>, packet: Seq<u8>)
    requires
        packet.len() >= 17,
    ensures
        ({
            let all = if parts.dom().contains(packet[16]) {
                parts
            } else {
                parts.insert(packet[16], packet.skip(17))
            };
            let done = landing(parts, packet);
            &&& join(all).len() == partial_len(packet) ==> done.0 == Map::<u8, Seq<u8>>::empty()
                && done.1 == Some(join(all))
            &&& join(all).len() != partial_len(packet) ==> done.0 == all && done.1 is None
        }),
{
    assert(packet.skip(17) =~= packet_body(packet));
}

/// What a packet lands: a packet that is a whole message lands it and touches
/// no parts; any other lands a message only where it completes one that can be
/// read. Every message has the id of the packet that it landed with.
pub proof fn a_whole_packet_lands_at_once<A>(
    parts: Map<u8, Seq<u8>>,
    message_id: u64,
    body: Seq<u8>,
    place: u8,
)
    requires
        body.len() <= u64::MAX,
        kind_of::<A>(body) is Some,
    ensures
        ({
            let packet = wire::be_bytes(body.len() as u64) + wire::be_bytes(message_id) + seq![
                place,
            ] + body;
            taking::<A>(parts, packet) == (parts, Some((message_id, kind_of::<A>(body)->0)))
        }),
{
    a_header_is_read::<A>(body.len() as u64, message_id, place, body);
}

/// What a packet that is no whole message lands is what its parts make up,
/// under the packet's id; parts that make up nothing that can be read are gone.
pub proof fn a_part_lands_what_it_completes<A>(parts: Map<u8, Seq<u8>>, packet: Seq<u8>)
    requires
        !packet_is_whole::<A>(packet),
    ensures
        ({
            let (held, made_up) = landing(parts, packet);
            let done = taking::<A>(parts, packet);
            &&& done.0 == held
            &&& made_up is None ==> done.1 is None
            &&& made_up matches Some(payload) ==> {
                &&& kind_readable(payload) && kind_of::<A>(payload) is Some ==> done.1 == Some(
                    (packet_id(packet) as u64, kind_of::<A>(payload)->0),
                )
                &&& !(kind_readable(payload) && kind_of::<A>(payload) is Some) ==> done.1 is None
            }
        }),
{
}

/// Parts are kept together that come from one address under one message id and
/// one length, and only those.
pub proof fn parts_are_kept_by_sender_id_and_length(
    addr: PeerAddr,
    other: PeerAddr,
    p: Seq<u8>,
    q: Seq<u8>,
)
    requires
        0 <= packet_id(p) <= u64::MAX,
        0 <= packet_id(q) <= u64::MAX,
        0 <= partial_len(p) <= u64::MAX,
        0 <= partial_len(q) <= u64::MAX,
    ensures
        part_key(addr, p) == part_key(other, q) <==> addr == other && packet_id(p) == packet_id(q)
            && partial_len(p) == partial_len(q),
{
}

} // verus!
