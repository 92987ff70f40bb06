//! B-tree traversal: each table, the catalog, and each long-value store is
//! an independent tree rooted at a page number.
//!
//! Full traversal descends branch pages into their children left to right
//! and concatenates the leaf entries, which yields the leaves in ascending
//! key order; ordinal access indexes that sequence. Point lookup descends
//! along branch keys instead. A depth ceiling bounds every descent, so a
//! cyclic or corrupt tree ends in [`Error::Corrupt`] instead of an
//! unbounded recursion.

use crate::error::Error;
use crate::wire::{byte_sum, le32};
use crate::page::{
    branch_entries_view, key_lt, key_lt_exec, leaf_entries_view, parse_page, spec_parse_page,
    BranchEntry, LeafEntry, Page, PageM,
};
use vstd::prelude::*;

verus! {

/// Ceiling on B-tree depth; deeper descents are treated as corrupt.
pub const MAX_TREE_DEPTH: u32 = 32;

/// The leaf entries of the tree rooted at page `pn`, in left-to-right
/// order, or the first error the descent meets.
pub open spec fn spec_leaves(data: Seq<u8>, ps: int, pn: int, depth: int) -> Result<
    Seq<(Seq<u8>, Seq<u8>)>,
    Error,
>
    decreases depth, 1int, 0int,
{
    if depth <= 0 {
        Err(Error::Corrupt)
    } else {
        match spec_parse_page(data, ps, pn) {
            Err(e) => Err(e),
            Ok(PageM::Leaf(es)) => Ok(es),
            Ok(PageM::Branch(cs)) => spec_leaves_children(data, ps, cs, 0, depth),
        }
    }
}

/// The concatenated leaf entries of the children `cs[i..]`.
pub open spec fn spec_leaves_children(
    data: Seq<u8>,
    ps: int,
    cs: Seq<(Seq<u8>, u32)>,
    i: int,
    depth: int,
) -> Result<Seq<(Seq<u8>, Seq<u8>)>, Error>
    decreases depth, 0int, cs.len() - i,
{
    if depth <= 0 {
        Err(Error::Corrupt)
    } else if i < 0 || i >= cs.len() {
        Ok(Seq::empty())
    } else {
        match spec_leaves(data, ps, cs[i].1 as int, depth - 1) {
            Err(e) => Err(e),
            Ok(first) => match spec_leaves_children(data, ps, cs, i + 1, depth) {
                Err(e) => Err(e),
                Ok(rest) => Ok(first + rest),
            },
        }
    }
}

/// The view of a fallible leaf-collection result.
pub open spec fn leaves_res_view(r: Result<Vec<LeafEntry>, Error>) -> Result<
    Seq<(Seq<u8>, Seq<u8>)>,
    Error,
> {
    match r {
        Ok(v) => Ok(leaf_entries_view(v@)),
        Err(e) => Err(e),
    }
}

/// Collects the leaf entries of the tree rooted at `pn`, left to right.
pub fn collect_leaves(data: &Vec<u8>, ps: usize, page_count: u32, pn: u32, depth: u32) -> (r:
    Result<Vec<LeafEntry>, Error>)
    requires
        data@.len() == (page_count as int) * (ps as int),
        16 <= ps <= 32768,
    ensures
        leaves_res_view(r) == spec_leaves(data@, ps as int, pn as int, depth as int),
    decreases depth, 1int, 0int,
{
    if depth == 0 {
        return Err(Error::Corrupt);
    }
    match parse_page(data, ps, page_count, pn) {
        Err(e) => Err(e),
        Ok(Page::Leaf(es)) => Ok(es),
        Ok(Page::Branch(cs)) => collect_leaves_children(data, ps, page_count, &cs, 0, depth),
    }
}

fn collect_leaves_children(
    data: &Vec<u8>,
    ps: usize,
    page_count: u32,
    cs: &Vec<BranchEntry>,
    i: usize,
    depth: u32,
) -> (r: Result<Vec<LeafEntry>, Error>)
    requires
        data@.len() == (page_count as int) * (ps as int),
        16 <= ps <= 32768,
        i <= cs@.len(),
        depth >= 1,
    ensures
        leaves_res_view(r) == spec_leaves_children(
            data@,
            ps as int,
            branch_entries_view(cs@),
            i as int,
            depth as int,
        ),
    decreases depth, 0int, cs@.len() - i,
{
    let ghost csm = branch_entries_view(cs@);
    if i == cs.len() {
        let v: Vec<LeafEntry> = Vec::new();
        proof {
            assert(leaf_entries_view(v@) =~= Seq::<(Seq<u8>, Seq<u8>)>::empty());
        }
        return Ok(v);
    }
    proof {
        assert(csm[i as int].1 == cs@[i as int].child);
    }
    match collect_leaves(data, ps, page_count, cs[i].child, depth - 1) {
        Err(e) => Err(e),
        Ok(mut first) => {
            match collect_leaves_children(data, ps, page_count, cs, i + 1, depth) {
                Err(e) => Err(e),
                Ok(mut rest) => {
                    proof {
                        assert(leaf_entries_view(first@ + rest@) =~= leaf_entries_view(first@)
                            + leaf_entries_view(rest@));
                    }
                    first.append(&mut rest);
                    Ok(first)
                },
            }
        },
    }
}

/// The leaf entries of the tree rooted at `pn`, additionally validated to
/// ascend strictly by key across the whole traversal, page boundaries
/// included; an order violation is a structural corruption.
pub open spec fn spec_leaves_sorted(data: Seq<u8>, ps: int, pn: int, depth: int) -> Result<
    Seq<(Seq<u8>, Seq<u8>)>,
    Error,
> {
    match spec_leaves(data, ps, pn, depth) {
        Err(e) => Err(e),
        Ok(ls) => if crate::page::leaf_sorted(ls) {
            Ok(ls)
        } else {
            Err(Error::Corrupt)
        },
    }
}

/// Collects the leaf entries of the tree rooted at `pn` and validates
/// their overall key order, as [`spec_leaves_sorted`] describes.
pub fn collect_leaves_sorted(data: &Vec<u8>, ps: usize, page_count: u32, pn: u32, depth: u32) -> (r:
    Result<Vec<LeafEntry>, Error>)
    requires
        data@.len() == (page_count as int) * (ps as int),
        16 <= ps <= 32768,
    ensures
        leaves_res_view(r) == spec_leaves_sorted(data@, ps as int, pn as int, depth as int),
{
    match collect_leaves(data, ps, page_count, pn, depth) {
        Err(e) => Err(e),
        Ok(ls) => {
            if crate::page::leaf_sorted_exec(&ls) {
                Ok(ls)
            } else {
                Err(Error::Corrupt)
            }
        },
    }
}

/// The first leaf entry of `es[i..]` whose key is exactly `key`.
pub open spec fn spec_leaf_find(es: Seq<(Seq<u8>, Seq<u8>)>, key: Seq<u8>, i: int) -> Option<
    Seq<u8>,
>
    decreases es.len() - i,
{
    if i < 0 || i >= es.len() {
        None
    } else if es[i].0 == key {
        Some(es[i].1)
    } else {
        spec_leaf_find(es, key, i + 1)
    }
}

/// The child a descent picks in a branch page: the first entry whose key
/// is at or above the search key — its subtree covers the gap below that
/// key — and the rightmost child once the search key lies above every
/// branch key.
pub open spec fn spec_branch_pick(cs: Seq<(Seq<u8>, u32)>, key: Seq<u8>, i: int) -> int
    decreases cs.len() - i,
{
    if i < 0 || i >= cs.len() {
        cs.len() - 1
    } else if !key_lt(cs[i].0, key) {
        i
    } else {
        spec_branch_pick(cs, key, i + 1)
    }
}

/// Point lookup by key: a standard descent from the root, entering the
/// child [`spec_branch_pick`] names until a leaf is reached, then an exact
/// match among the leaf's entries. The depth bound turns a cyclic or
/// over-deep tree into `Corrupt`.
pub open spec fn spec_lookup(data: Seq<u8>, ps: int, pn: int, key: Seq<u8>, depth: int) -> Result<
    Option<Seq<u8>>,
    Error,
>
    decreases depth,
{
    if depth <= 0 {
        Err(Error::Corrupt)
    } else {
        match spec_parse_page(data, ps, pn) {
            Err(e) => Err(e),
            Ok(PageM::Leaf(es)) => Ok(spec_leaf_find(es, key, 0)),
            Ok(PageM::Branch(cs)) => {
                if cs.len() == 0 {
                    Ok(None)
                } else {
                    spec_lookup(data, ps, cs[spec_branch_pick(cs, key, 0)].1 as int, key, depth - 1)
                }
            },
        }
    }
}

/// Executable twin of [`spec_lookup`].
#[verifier::loop_isolation(false)]
pub fn lookup(data: &Vec<u8>, ps: usize, page_count: u32, pn: u32, key: &Vec<u8>, depth: u32) -> (r:
    Result<Option<Vec<u8>>, Error>)
    requires
        data@.len() == (page_count as int) * (ps as int),
        16 <= ps <= 32768,
    ensures
        ({
            let spec = spec_lookup(data@, ps as int, pn as int, key@, depth as int);
            match r {
                Ok(Some(v)) => spec == Ok::<Option<Seq<u8>>, Error>(Some(v@)),
                Ok(None) => spec == Ok::<Option<Seq<u8>>, Error>(None),
                Err(e) => spec == Err::<Option<Seq<u8>>, Error>(e),
            }
        }),
    decreases depth,
{
    if depth == 0 {
        return Err(Error::Corrupt);
    }
    match parse_page(data, ps, page_count, pn) {
        Err(e) => Err(e),
        Ok(Page::Leaf(es)) => {
            let ghost esm = leaf_entries_view(es@);
            let n: usize = es.len();
            let mut i: usize = 0;
            while i < n
                invariant
                    i <= n,
                    spec_leaf_find(esm, key@, 0) == spec_leaf_find(esm, key@, i as int),
                decreases n - i,
            {
                proof {
                    assert(esm[i as int] == es@[i as int]@);
                }
                if crate::wire::bytes_eq(&es[i].key, key) {
                    let dlen: usize = es[i].data.len();
                    let d = crate::wire::copy_range(&es[i].data, 0, dlen);
                    proof {
                        assert(d@ =~= esm[i as int].1);
                    }
                    return Ok(Some(d));
                }
                i = i + 1;
            }
            Ok(None)
        },
        Ok(Page::Branch(cs)) => {
            let ghost csm = branch_entries_view(cs@);
            let n: usize = cs.len();
            if n == 0 {
                return Ok(None);
            }
            let mut i: usize = 0;
            let mut pick: usize = n - 1;
            let mut found: bool = false;
            while i < n && !found
                invariant
                    i <= n,
                    n >= 1,
                    !found ==> pick == n - 1 && spec_branch_pick(csm, key@, 0) == spec_branch_pick(
                        csm,
                        key@,
                        i as int,
                    ),
                    found ==> pick < n && pick == spec_branch_pick(csm, key@, 0),
                decreases n - i + (if found { 0int } else { 1int }),
            {
                proof {
                    assert(csm[i as int] == cs@[i as int]@);
                }
                if !key_lt_exec(&cs[i].key, key) {
                    pick = i;
                    found = true;
                } else {
                    i = i + 1;
                }
            }
            proof {
                assert(csm[pick as int] == cs@[pick as int]@);
            }
            lookup(data, ps, page_count, cs[pick].child, key, depth - 1)
        },
    }
}

/// Flipping any byte inside a page's checksummed region makes that page
/// parse as corrupt: the stored checksum sits outside the region and no
/// longer matches the changed sum.
pub proof fn lemma_corruption_detected(data: Seq<u8>, data2: Seq<u8>, ps: int, pn: int, k: int)
    requires
        spec_parse_page(data, ps, pn) is Ok,
        data2.len() == data.len(),
        pn * ps + 8 <= k < (pn + 1) * ps,
        forall|j: int| 0 <= j < data.len() && j != k ==> data[j] == data2[j],
        data2[k] != data[k],
    ensures
        spec_parse_page(data2, ps, pn) == Err::<PageM, Error>(Error::Corrupt),
{
    let base = pn * ps;
    assert(pn >= 1 && (pn + 1) * ps <= data.len());
    assert((pn + 1) * ps == base + ps && base >= 0 && ps > 8) by (nonlinear_arith)
        requires
            base == pn * ps,
            pn >= 1,
            base + 8 <= k < (pn + 1) * ps,
    ;
    let p1 = data.subrange(base, base + ps);
    let p2 = data2.subrange(base, base + ps);
    assert(p1.len() == ps && p2.len() == ps);
    assert(le32(p2, 0) == le32(p1, 0)) by {
        assert(p1[0] == p2[0] && p1[1] == p2[1] && p1[2] == p2[2] && p1[3] == p2[3]);
    }
    let s1 = p1.skip(8);
    let s2 = p2.skip(8);
    let j0 = k - base - 8;
    assert forall|j: int| 0 <= j < s1.len() && j != j0 implies s1[j] == s2[j] by {
        assert(s1[j] == data[base + 8 + j]);
        assert(s2[j] == data2[base + 8 + j]);
    }
    assert(s1[j0] == data[k] && s2[j0] == data2[k]);
    crate::wire::lemma_byte_sum_one_change(s1, s2, j0);
    assert(byte_sum(s2) != byte_sum(s1));
    assert(le32(p1, 0) == byte_sum(s1));
    assert(le32(p2, 0) != byte_sum(s2));
}

/// A traversal rooted at a corrupted page fails with `Corrupt` instead of
/// returning values.
pub proof fn lemma_corruption_stops_traversal(
    data: Seq<u8>,
    data2: Seq<u8>,
    ps: int,
    pn: int,
    k: int,
    depth: int,
)
    requires
        spec_parse_page(data, ps, pn) is Ok,
        data2.len() == data.len(),
        pn * ps + 8 <= k < (pn + 1) * ps,
        forall|j: int| 0 <= j < data.len() && j != k ==> data[j] == data2[j],
        data2[k] != data[k],
    ensures
        spec_leaves(data2, ps, pn, depth) == Err::<Seq<(Seq<u8>, Seq<u8>)>, Error>(Error::Corrupt),
{
    lemma_corruption_detected(data, data2, ps, pn, k);
}

} // verus!
