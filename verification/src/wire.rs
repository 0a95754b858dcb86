//! Big-endian integers, byte comparison and UTF-8 text as they appear on the wire.

use vstd::prelude::*;
use vstd::string::*;
use vstd::utf8::*;

verus! {

/// The eight bytes of `n` in network (big-endian) order.
pub open spec fn be_bytes(n: u64) -> Seq<u8> {
    seq![
        (n / 0x100_0000_0000_0000) as u8,
        (n / 0x1_0000_0000_0000 % 256) as u8,
        (n / 0x100_0000_0000 % 256) as u8,
        (n / 0x1_0000_0000 % 256) as u8,
        (n / 0x100_0000 % 256) as u8,
        (n / 0x1_0000 % 256) as u8,
        (n / 0x100 % 256) as u8,
        (n % 256) as u8,
    ]
}

/// The number that the first eight bytes of `s` spell in network order.
pub open spec fn be_value(s: Seq<u8>) -> int {
    s[0] * 0x100_0000_0000_0000 + s[1] * 0x1_0000_0000_0000 + s[2] * 0x100_0000_0000 + s[3]
        * 0x1_0000_0000 + s[4] * 0x100_0000 + s[5] * 0x1_0000 + s[6] * 0x100 + s[7]
}

/// Writing a number and reading it back gives the number.
pub proof fn be_read_of_write(n: u64)
    ensures
        be_value(be_bytes(n)) == n,
        be_bytes(n).len() == 8,
{
    assert(((n / 0x100_0000_0000_0000) as u8) * 0x100_0000_0000_0000 + ((n / 0x1_0000_0000_0000
        % 256) as u8) * 0x1_0000_0000_0000 + ((n / 0x100_0000_0000 % 256) as u8) * 0x100_0000_0000
        + ((n / 0x1_0000_0000 % 256) as u8) * 0x1_0000_0000 + ((n / 0x100_0000 % 256) as u8)
        * 0x100_0000 + ((n / 0x1_0000 % 256) as u8) * 0x1_0000 + ((n / 0x100 % 256) as u8) * 0x100
        + ((n % 256) as u8) == n) by (bit_vector);
}

/// Reading eight bytes and writing the number gives the bytes back.
pub proof fn be_write_of_read(s: Seq<u8>)
    requires
        s.len() == 8,
    ensures
        0 <= be_value(s) <= u64::MAX,
        be_bytes(be_value(s) as u64) == s,
{
    let n = be_value(s) as u64;
    let (a, b, c, d, e, f, g, h) = (s[0], s[1], s[2], s[3], s[4], s[5], s[6], s[7]);
    assert((n / 0x100_0000_0000_0000) as u8 == a && (n / 0x1_0000_0000_0000 % 256) as u8 == b && (n
        / 0x100_0000_0000 % 256) as u8 == c && (n / 0x1_0000_0000 % 256) as u8 == d && (n
        / 0x100_0000 % 256) as u8 == e && (n / 0x1_0000 % 256) as u8 == f && (n / 0x100 % 256) as u8
        == g && (n % 256) as u8 == h) by (bit_vector)
        requires
            n == a * 0x100_0000_0000_0000 + b * 0x1_0000_0000_0000 + c * 0x100_0000_0000 + d
                * 0x1_0000_0000 + e * 0x100_0000 + f * 0x1_0000 + g * 0x100 + h,
    ;
    assert(be_bytes(n) =~= s);
}

/// Appends the big-endian bytes of `n`.
pub fn push_be_u64(out: &mut Vec<u8>, n: u64)
    ensures
        final(out)@ == old(out)@ + be_bytes(n),
{
    out.push((n / 0x100_0000_0000_0000) as u8);
    out.push((n / 0x1_0000_0000_0000 % 256) as u8);
    out.push((n / 0x100_0000_0000 % 256) as u8);
    out.push((n / 0x1_0000_0000 % 256) as u8);
    out.push((n / 0x100_0000 % 256) as u8);
    out.push((n / 0x1_0000 % 256) as u8);
    out.push((n / 0x100 % 256) as u8);
    out.push((n % 256) as u8);
    assert(out@ =~= old(out)@ + be_bytes(n));
}

/// Reads the big-endian number in the eight bytes that start at `at`.
pub fn read_be_u64(bytes: &[u8], at: usize) -> (n: u64)
    requires
        at + 8 <= bytes@.len(),
    ensures
        n == be_value(bytes@.subrange(at as int, at + 8)),
{
    (bytes[at] as u64) * 0x100_0000_0000_0000 + (bytes[at + 1] as u64) * 0x1_0000_0000_0000 + (
    bytes[at + 2] as u64) * 0x100_0000_0000 + (bytes[at + 3] as u64) * 0x1_0000_0000 + (bytes[at
        + 4] as u64) * 0x100_0000 + (bytes[at + 5] as u64) * 0x1_0000 + (bytes[at + 6] as u64)
        * 0x100 + (bytes[at + 7] as u64)
}

/// Appends `bytes[from..to]`.
pub fn push_range(out: &mut Vec<u8>, bytes: &[u8], from: usize, to: usize)
    requires
        from <= to <= bytes@.len(),
    ensures
        final(out)@ == old(out)@ + bytes@.subrange(from as int, to as int),
{
    let mut i: usize = from;
    while i < to
        invariant
            from <= i <= to <= bytes@.len(),
            out@ == old(out)@ + bytes@.subrange(from as int, i as int),
        decreases to - i,
    {
        out.push(bytes[i]);
        i += 1;
        assert(out@ =~= old(out)@ + bytes@.subrange(from as int, i as int));
    }
    assert(out@ =~= old(out)@ + bytes@.subrange(from as int, to as int));
}

/// Appends all of `bytes`.
pub fn push_all(out: &mut Vec<u8>, bytes: &[u8])
    ensures
        final(out)@ == old(out)@ + bytes@,
{
    push_range(out, bytes, 0, bytes.len());
    assert(bytes@.subrange(0, bytes@.len() as int) =~= bytes@);
}

/// A copy of `bytes[from..to]`.
pub fn copy_range(bytes: &[u8], from: usize, to: usize) -> (out: Vec<u8>)
    requires
        from <= to <= bytes@.len(),
    ensures
        out@ == bytes@.subrange(from as int, to as int),
{
    let mut out: Vec<u8> = Vec::new();
    push_range(&mut out, bytes, from, to);
    assert(out@ =~= bytes@.subrange(from as int, to as int));
    out
}

/// Whether the two byte strings are the same.
pub fn same_bytes(a: &[u8], b: &[u8]) -> (same: bool)
    ensures
        same == (a@ == b@),
{
    if a.len() != b.len() {
        return false;
    }
    let mut i: usize = 0;
    while i < a.len()
        invariant
            i <= a@.len(),
            a@.len() == b@.len(),
            forall|j: int| 0 <= j < i ==> a@[j] == b@[j],
        decreases a@.len() - i,
    {
        if a[i] != b[i] {
            return false;
        }
        i += 1;
    }
    assert(a@ =~= b@);
    true
}

/// `String::from_utf8`, with the rejected bytes dropped.
///
/// Trusted: the conversion succeeds exactly on valid UTF-8, and the string
/// then holds the characters that the bytes encode.
#[verifier::external_body]
pub(crate) fn string_from_utf8(bytes: Vec<u8>) -> (text: Option<String>)
    ensures
        text is Some <==> valid_utf8(bytes@),
        text matches Some(t) ==> t@ == decode_utf8(bytes@),
{
    String::from_utf8(bytes).ok()
}

/// The most significant byte comes first: what a number's bytes leave behind
/// each byte is the rest of the number, and bytes that differ first in an
/// earlier place differ by more than all places behind it can make up.
pub proof fn the_highest_byte_comes_first(n: u64, a: Seq<u8>, b: Seq<u8>, k: int)
    requires
        a.len() == 8,
        b.len() == 8,
        0 <= k < 8,
        forall|j: int| 0 <= j < k ==> a[j] == b[j],
        a[k] < b[k],
    ensures
        be_value(a) < be_value(b),
        be_bytes(n).len() == 8,
        be_bytes(n)[7] == n % 256,
        n < 256 ==> be_bytes(n).take(7) == seq![0u8, 0u8, 0u8, 0u8, 0u8, 0u8, 0u8],
        be_value(be_bytes(n)) == n,
        be_value(a.take(7).insert(0, 0u8)) == be_value(a) / 256,
{
    be_read_of_write(n);
    assert(n < 256 ==> be_bytes(n).take(7) =~= seq![0u8, 0u8, 0u8, 0u8, 0u8, 0u8, 0u8]);
    let shifted = a.take(7).insert(0, 0u8);
    assert(shifted[0] == 0);
    assert(shifted[1] == a[0] && shifted[2] == a[1] && shifted[3] == a[2] && shifted[4] == a[3]);
    assert(shifted[5] == a[4] && shifted[6] == a[5] && shifted[7] == a[6]);
    assert(k > 0 ==> a[0] == b[0]);
    assert(k > 1 ==> a[1] == b[1]);
    assert(k > 2 ==> a[2] == b[2]);
    assert(k > 3 ==> a[3] == b[3]);
    assert(k > 4 ==> a[4] == b[4]);
    assert(k > 5 ==> a[5] == b[5]);
    assert(k > 6 ==> a[6] == b[6]);
}

} // verus!
