//! Who a peer is and where it is reached.

use vstd::prelude::*;

use crate::clock::{self, Timestamp};
use crate::wire;

verus! {

/// Bytes of a client id.
pub const CLIENT_ID_LEN: usize = 9;

/// A client's name on the mesh: the millisecond of its creation in network
/// order, then one byte of chance.
#[derive(Debug, Clone, Copy, Eq, Hash)]
pub struct ClientId([u8; 9]);

impl PartialEq for ClientId {
    fn eq(&self, other: &Self) -> (same: bool) {
        let mut i: usize = 0;
        while i < 9
            invariant
                i <= 9,
                forall|j: int| 0 <= j < i ==> self.0[j] == other.0[j],
            decreases 9 - i,
        {
            if self.0[i] != other.0[i] {
                return false;
            }
            i += 1;
        }
        assert(self.0 =~= other.0);
        true
    }
}

impl vstd::std_specs::cmp::PartialEqSpecImpl for ClientId {
    open spec fn obeys_eq_spec() -> bool {
        true
    }

    open spec fn eq_spec(&self, other: &Self) -> bool {
        *self == *other
    }
}

/// The 64 bits of a signed millisecond count.
pub open spec fn stamp_bits(millis: i64) -> u64 {
    if millis >= 0 {
        millis as u64
    } else {
        (millis + 0x1_0000_0000_0000_0000) as u64
    }
}

/// The order of byte strings of one length: the first difference decides.
pub open spec fn bytes_before(a: Seq<u8>, b: Seq<u8>) -> bool {
    exists|k: int|
        0 <= k < a.len() && a[k] < b[k] && forall|j: int| 0 <= j < k ==> #[trigger] a[j] == b[j]
}

/// The id with the given nine bytes.
pub open spec fn id_with_bytes(bytes: Seq<u8>) -> ClientId {
    choose|id: ClientId| id.bytes() == bytes
}

/// An id is the one with its bytes.
pub proof fn id_is_its_bytes(id: ClientId)
    ensures
        id_with_bytes(id.bytes()) == id,
{
    ClientId::same_bytes_same_id(id_with_bytes(id.bytes()), id);
}

/// `rand::random::<u8>`.
///
/// Trusted: nothing. The byte rests on chance.
#[verifier::external_body]
fn random_byte() -> (byte: u8) {
    rand::random::<u8>()
}

impl ClientId {
    /// The nine bytes, as they are sent.
    pub closed spec fn bytes(self) -> Seq<u8> {
        self.0@
    }

    /// The number that the bytes spell; ids are ranked by it.
    pub open spec fn ordinal(self) -> int {
        wire::be_value(self.bytes()) * 256 + self.bytes()[8]
    }

    /// An id is nine bytes long.
    pub broadcast proof fn nine_bytes(self)
        ensures
            #[trigger] self.bytes().len() == 9,
    {
    }

    /// Ids with the same bytes are the same id.
    pub proof fn same_bytes_same_id(a: ClientId, b: ClientId)
        requires
            a.bytes() == b.bytes(),
        ensures
            a == b,
    {
        assert(a.0 =~= b.0) by {
            assert forall|i: int| 0 <= i < 9 implies a.0[i] == b.0[i] by {
                assert(a.0@[i] == b.0@[i]);
            }
        }
    }

    /// Ranking ids by number is ranking them by their bytes, and only one id
    /// has a given number.
    pub proof fn ordinal_ranks_as_bytes(a: ClientId, b: ClientId)
        ensures
            bytes_before(a.bytes(), b.bytes()) <==> a.ordinal() < b.ordinal(),
            a.ordinal() == b.ordinal() ==> a == b,
    {
        let (x, y) = (a.bytes(), b.bytes());
        a.nine_bytes();
        b.nine_bytes();
        if bytes_before(x, y) {
            let k = choose|k: int|
                0 <= k < x.len() && x[k] < y[k] && forall|j: int|
                    0 <= j < k ==> #[trigger] x[j] == y[j];
            assert(0 <= k < 9);
            assert(k > 0 ==> x[0] == y[0]);
            assert(k > 1 ==> x[1] == y[1]);
            assert(k > 2 ==> x[2] == y[2]);
            assert(k > 3 ==> x[3] == y[3]);
            assert(k > 4 ==> x[4] == y[4]);
            assert(k > 5 ==> x[5] == y[5]);
            assert(k > 6 ==> x[6] == y[6]);
            assert(k > 7 ==> x[7] == y[7]);
        }
        if a.ordinal() <= b.ordinal() {
            if x[0] != y[0] {
                assert(x[0] < y[0]);
            } else if x[1] != y[1] {
                assert(x[1] < y[1]);
            } else if x[2] != y[2] {
                assert(x[2] < y[2]);
            } else if x[3] != y[3] {
                assert(x[3] < y[3]);
            } else if x[4] != y[4] {
                assert(x[4] < y[4]);
            } else if x[5] != y[5] {
                assert(x[5] < y[5]);
            } else if x[6] != y[6] {
                assert(x[6] < y[6]);
            } else if x[7] != y[7] {
                assert(x[7] < y[7]);
            } else if x[8] != y[8] {
                assert(x[8] < y[8]);
            } else {
                assert(x =~= y);
                Self::same_bytes_same_id(a, b);
            }
        }
    }

    /// The id for a creation time in milliseconds and a byte of chance.
    pub fn stamped(millis: i64, chaos: u8) -> (id: ClientId)
        ensures
            id.bytes() == wire::be_bytes(stamp_bits(millis)).push(chaos),
    {
        let bits: u64 = if millis >= 0 {
            millis as u64
        } else {
            (millis as i128 + 0x1_0000_0000_0000_0000) as u64
        };
        let mut b: Vec<u8> = Vec::new();
        wire::push_be_u64(&mut b, bits);
        assert(b@ =~= wire::be_bytes(bits));
        let id = ClientId([b[0], b[1], b[2], b[3], b[4], b[5], b[6], b[7], chaos]);
        assert(id.0@ =~= wire::be_bytes(bits).push(chaos));
        id
    }

    /// A new id from the clock and a byte of chance.
    ///
    /// Uniqueness is not promised: two clients share a name when they are
    /// created in one millisecond and draw the same byte.
    pub fn gen() -> (id: ClientId)
        ensures
            exists|t: Timestamp, chaos: u8|
                t.wf() && t.seconds >= 0 && id.bytes() == #[trigger] wire::be_bytes(
                    t.as_millis() as u64,
                ).push(chaos),
    {
        let now = clock::now();
        let chaos = random_byte();
        let id = Self::stamped(now.millis(), chaos);
        assert(id.bytes() == wire::be_bytes(now.as_millis() as u64).push(chaos));
        id
    }

    /// The bytes of the id, in order.
    pub fn to_bytes(&self) -> (bytes: Vec<u8>)
        ensures
            bytes@ == self.bytes(),
    {
        let mut bytes: Vec<u8> = Vec::new();
        let mut i: usize = 0;
        while i < 9
            invariant
                i <= 9,
                bytes@ =~= self.0@.subrange(0, i as int),
            decreases 9 - i,
        {
            bytes.push(self.0[i]);
            i += 1;
        }
        assert(bytes@ =~= self.0@);
        bytes
    }

    /// The id with the given bytes; `None` unless there are nine of them.
    pub fn from_bytes(bytes: &[u8]) -> (id: Option<ClientId>)
        ensures
            id is Some <==> bytes@.len() == CLIENT_ID_LEN,
            id matches Some(i) ==> i.bytes() == bytes@,
    {
        if bytes.len() != CLIENT_ID_LEN {
            return None;
        }
        let id = ClientId(
            [
                bytes[0],
                bytes[1],
                bytes[2],
                bytes[3],
                bytes[4],
                bytes[5],
                bytes[6],
                bytes[7],
                bytes[8],
            ],
        );
        assert(id.0@ =~= bytes@);
        Some(id)
    }

    /// Whether `self` is ranked before `other`.
    pub fn ranks_before(&self, other: &ClientId) -> (before: bool)
        ensures
            before == (self.ordinal() < other.ordinal()),
    {
        let a = self.to_bytes();
        let b = other.to_bytes();
        proof {
            self.nine_bytes();
            other.nine_bytes();
            assert(a@.subrange(0, 8) =~= self.bytes().subrange(0, 8));
        }
        let high_a = wire::read_be_u64(a.as_slice(), 0);
        let high_b = wire::read_be_u64(b.as_slice(), 0);
        high_a < high_b || (high_a == high_b && a[8] < b[8])
    }
}

/// The address of a peer's socket: an IPv4 or IPv6 address by its bits, and
/// what else tells two sockets apart.
#[derive(Debug, Clone, Copy, PartialEq, Eq, Structural, Hash)]
pub enum PeerAddr {
    V4 { bits: u32, port: u16 },
    V6 { segments: u128, port: u16, flowinfo: u32, scope_id: u32 },
}

/// What a registry knows of a client: its id and its address.
pub struct PeerRegistryEntry {
    pub client_id: ClientId,
    pub local_addr: PeerAddr,
}

/// The raw id under which a receiver's progress is reconciled.
pub struct RecvReconciliationState {
    pub client_id: [u8; 9],
}

/// Ids are ranked byte by byte: the first byte in which they differ decides,
/// and ids that differ in none are one.
pub proof fn the_first_differing_byte_ranks(a: ClientId, b: ClientId, k: int)
    requires
        0 <= k < 9,
        forall|j: int| 0 <= j < k ==> #[trigger] a.bytes()[j] == b.bytes()[j],
    ensures
        a.bytes()[k] < b.bytes()[k] ==> a.ordinal() < b.ordinal(),
        k == 8 && a.bytes()[8] == b.bytes()[8] ==> a == b,
        a.bytes().len() == 9,
{
    a.nine_bytes();
    b.nine_bytes();
    ClientId::ordinal_ranks_as_bytes(a, b);
    if a.bytes()[k] < b.bytes()[k] {
        assert(bytes_before(a.bytes(), b.bytes()));
    }
    if k == 8 && a.bytes()[8] == b.bytes()[8] {
        assert(a.bytes() =~= b.bytes());
        ClientId::same_bytes_same_id(a, b);
    }
}

/// A creation time is stamped as it is, and one before 1970 as its complement
/// to two to the 64: times that follow each other have stamps that do.
pub proof fn stamps_follow_the_clock(millis: i64)
    ensures
        millis >= 0 ==> stamp_bits(millis) == millis,
        millis < 0 ==> stamp_bits(millis) == millis + 0x1_0000_0000_0000_0000,
        millis < i64::MAX && millis != -1 ==> stamp_bits((millis + 1) as i64) == stamp_bits(millis)
            + 1,
{
}

/// Nine bytes name one id, and it has them.
pub proof fn nine_bytes_name_an_id(id: ClientId, bytes: Seq<u8>)
    requires
        id.bytes() == bytes,
    ensures
        id_with_bytes(bytes) == id,
        bytes.len() == 9,
{
    id_is_its_bytes(id);
    id.nine_bytes();
}

} // verus!
