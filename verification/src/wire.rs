//! Little-endian integer fields and the page checksum, as pure functions on
//! byte sequences with executable readers proved against them.

use vstd::prelude::*;

verus! {

/// The little-endian 16-bit field at offset `i` of `s`.
pub open spec fn le16(s: Seq<u8>, i: int) -> u16
    recommends
        0 <= i,
        i + 2 <= s.len(),
{
    (s[i] as u16) | ((s[i + 1] as u16) << 8)
}

/// The little-endian 32-bit field at offset `i` of `s`.
pub open spec fn le32(s: Seq<u8>, i: int) -> u32
    recommends
        0 <= i,
        i + 4 <= s.len(),
{
    (s[i] as u32) | ((s[i + 1] as u32) << 8) | ((s[i + 2] as u32) << 16) | ((s[i + 3] as u32)
        << 24)
}

/// The little-endian 64-bit field at offset `i` of `s`.
pub open spec fn le64(s: Seq<u8>, i: int) -> u64
    recommends
        0 <= i,
        i + 8 <= s.len(),
{
    (le32(s, i) as u64) | ((le32(s, i + 4) as u64) << 32)
}

/// The four bytes of `x` in big-endian order. Big-endian keys make
/// byte-lexicographic order agree with numeric order.
pub open spec fn be32_bytes(x: u32) -> Seq<u8> {
    seq![((x >> 24) & 0xff) as u8, ((x >> 16) & 0xff) as u8, ((x >> 8) & 0xff) as u8, (
    x & 0xff) as u8]
}

/// The sum of the bytes of `s`, the page checksum function.
pub open spec fn byte_sum(s: Seq<u8>) -> int
    decreases s.len(),
{
    if s.len() == 0 {
        0
    } else {
        byte_sum(s.drop_last()) + s.last()
    }
}

pub proof fn lemma_byte_sum_bound(s: Seq<u8>)
    ensures
        0 <= byte_sum(s) <= 255 * s.len(),
    decreases s.len(),
{
    if s.len() > 0 {
        lemma_byte_sum_bound(s.drop_last());
    }
}

/// Changing exactly one byte changes the byte sum by exactly the difference
/// of the old and new byte.
pub proof fn lemma_byte_sum_one_change(s1: Seq<u8>, s2: Seq<u8>, k: int)
    requires
        s1.len() == s2.len(),
        0 <= k < s1.len(),
        forall|j: int| 0 <= j < s1.len() && j != k ==> s1[j] == s2[j],
    ensures
        byte_sum(s2) - byte_sum(s1) == s2[k] - s1[k],
    decreases s1.len(),
{
    if k == s1.len() - 1 {
        assert(s1.drop_last() =~= s2.drop_last());
    } else {
        lemma_byte_sum_one_change(s1.drop_last(), s2.drop_last(), k);
    }
}

pub fn read_le16(v: &Vec<u8>, i: usize) -> (r: u16)
    requires
        i + 2 <= v@.len(),
    ensures
        r == le16(v@, i as int),
{
    // binding the length as a usize teaches the verifier that the
    // requested offsets cannot overflow one
    let _n: usize = v.len();
    (v[i] as u16) | ((v[i + 1] as u16) << 8)
}

pub fn read_le32(v: &Vec<u8>, i: usize) -> (r: u32)
    requires
        i + 4 <= v@.len(),
    ensures
        r == le32(v@, i as int),
{
    let _n: usize = v.len();
    (v[i] as u32) | ((v[i + 1] as u32) << 8) | ((v[i + 2] as u32) << 16) | ((v[i + 3] as u32)
        << 24)
}

pub fn read_le64(v: &Vec<u8>, i: usize) -> (r: u64)
    requires
        i + 8 <= v@.len(),
    ensures
        r == le64(v@, i as int),
{
    let _n: usize = v.len();
    let lo = read_le32(v, i);
    let hi = read_le32(v, i + 4);
    (lo as u64) | ((hi as u64) << 32)
}

/// Sums `v[start..end]`; the range is short enough that a `u32` cannot
/// overflow.
pub fn sum_bytes_range(v: &Vec<u8>, start: usize, end: usize) -> (r: u32)
    requires
        start <= end <= v@.len(),
        end - start <= 0x10000,
    ensures
        r == byte_sum(v@.subrange(start as int, end as int)),
{
    let mut acc: u32 = 0;
    let mut i: usize = start;
    proof {
        assert(v@.subrange(start as int, start as int) =~= Seq::<u8>::empty());
    }
    while i < end
        invariant
            start <= i <= end <= v@.len(),
            end - start <= 0x10000,
            acc == byte_sum(v@.subrange(start as int, i as int)),
            acc <= 255 * (i - start),
        decreases end - i,
    {
        proof {
            assert(v@.subrange(start as int, i + 1).drop_last() =~= v@.subrange(
                start as int,
                i as int,
            ));
            assert(v@.subrange(start as int, i + 1).last() == v@[i as int]);
        }
        acc = acc + (v[i] as u32);
        i = i + 1;
    }
    acc
}

/// Copies `v[start..end]` into a fresh vector.
pub fn copy_range(v: &Vec<u8>, start: usize, end: usize) -> (r: Vec<u8>)
    requires
        start <= end <= v@.len(),
    ensures
        r@ == v@.subrange(start as int, end as int),
{
    let mut out: Vec<u8> = Vec::new();
    let mut i: usize = start;
    while i < end
        invariant
            start <= i <= end <= v@.len(),
            out@ =~= v@.subrange(start as int, i as int),
        decreases end - i,
    {
        out.push(v[i]);
        i = i + 1;
    }
    proof {
        assert(out@ =~= v@.subrange(start as int, end as int));
    }
    out
}

/// Byte-vector equality, proved against sequence equality.
pub fn bytes_eq(a: &Vec<u8>, b: &Vec<u8>) -> (r: bool)
    ensures
        r == (a@ == b@),
{
    let alen: usize = a.len();
    let blen: usize = b.len();
    if alen != blen {
        proof {
            assert(a@ != b@);
        }
        return false;
    }
    let mut i: usize = 0;
    while i < alen
        invariant
            i <= alen,
            alen == a@.len() == b@.len(),
            forall|j: int| 0 <= j < i ==> a@[j] == b@[j],
        decreases alen - i,
    {
        if a[i] != b[i] {
            proof {
                assert(a@ != b@);
            }
            return false;
        }
        i = i + 1;
    }
    proof {
        assert(a@ =~= b@);
    }
    true
}

/// The big-endian bytes of `x`, for building long-value keys.
pub fn be32_vec(x: u32) -> (r: Vec<u8>)
    ensures
        r@ == be32_bytes(x),
{
    let mut out: Vec<u8> = Vec::new();
    out.push(((x >> 24) & 0xff) as u8);
    out.push(((x >> 16) & 0xff) as u8);
    out.push(((x >> 8) & 0xff) as u8);
    out.push((x & 0xff) as u8);
    proof {
        assert(out@ =~= be32_bytes(x));
    }
    out
}

} // verus!
