//! Fixed-size pages: the checksummed block layout and its parser.
//!
//! Every page begins with a header: a checksum of the rest of the page, the
//! page's own number, a leaf/branch flag, and an entry count. A leaf page
//! holds ordered `(key, record-bytes)` pairs; a branch page holds ordered
//! `(key, child-page-number)` pairs. Keys compare as unsigned bytes,
//! lexicographically. A page whose checksum, self-reference, flag, entry
//! encoding or key order is off parses to [`Error::Corrupt`].

use crate::error::Error;
use crate::wire::{byte_sum, copy_range, le16, le32, read_le16, read_le32, sum_bytes_range};
use vstd::prelude::*;

verus! {

/// Flag byte of a leaf page.
pub const PAGE_FLAG_LEAF: u8 = 1;

/// Flag byte of a branch page.
pub const PAGE_FLAG_BRANCH: u8 = 2;

/// Strict lexicographic order on keys, compared as unsigned bytes.
pub open spec fn key_lt(a: Seq<u8>, b: Seq<u8>) -> bool
    decreases a.len(),
{
    if b.len() == 0 {
        false
    } else if a.len() == 0 {
        true
    } else if a[0] < b[0] {
        true
    } else if a[0] > b[0] {
        false
    } else {
        key_lt(a.drop_first(), b.drop_first())
    }
}

fn key_lt_from(a: &Vec<u8>, b: &Vec<u8>, i: usize) -> (r: bool)
    requires
        i <= a@.len(),
        i <= b@.len(),
    ensures
        r == key_lt(a@.skip(i as int), b@.skip(i as int)),
    decreases a@.len() - i,
{
    let alen: usize = a.len();
    let blen: usize = b.len();
    if i == blen {
        false
    } else if i == alen {
        true
    } else if a[i] < b[i] {
        true
    } else if a[i] > b[i] {
        false
    } else {
        let r = key_lt_from(a, b, i + 1);
        proof {
            assert(a@.skip(i as int).drop_first() =~= a@.skip(i + 1));
            assert(b@.skip(i as int).drop_first() =~= b@.skip(i + 1));
        }
        r
    }
}

/// Executable strict key order.
pub fn key_lt_exec(a: &Vec<u8>, b: &Vec<u8>) -> (r: bool)
    ensures
        r == key_lt(a@, b@),
{
    let r = key_lt_from(a, b, 0);
    proof {
        assert(a@.skip(0) =~= a@);
        assert(b@.skip(0) =~= b@);
    }
    r
}

/// The strict key order is irreflexive: no key sorts below itself.
pub proof fn lemma_key_lt_irrefl(a: Seq<u8>)
    ensures
        !key_lt(a, a),
    decreases a.len(),
{
    if a.len() > 0 {
        lemma_key_lt_irrefl(a.drop_first());
    }
}

/// The strict key order is transitive.
pub proof fn lemma_key_lt_trans(a: Seq<u8>, b: Seq<u8>, c: Seq<u8>)
    requires
        key_lt(a, b),
        key_lt(b, c),
    ensures
        key_lt(a, c),
    decreases a.len(),
{
    if c.len() == 0 || b.len() == 0 {
        // key_lt into an empty key never holds
    } else if a.len() == 0 {
    } else if a[0] == b[0] && b[0] == c[0] {
        lemma_key_lt_trans(a.drop_first(), b.drop_first(), c.drop_first());
    }
}

/// Keys of a leaf page ascend strictly across the whole page, not only
/// between neighbours, so every key appears once.
pub proof fn lemma_leaf_sorted_total(es: Seq<(Seq<u8>, Seq<u8>)>, i: int, j: int)
    requires
        leaf_sorted(es),
        0 <= i < j < es.len(),
    ensures
        key_lt(es[i].0, es[j].0),
        es[i].0 != es[j].0,
    decreases j - i,
{
    if i + 1 == j {
    } else {
        lemma_leaf_sorted_total(es, i + 1, j);
        lemma_key_lt_trans(es[i].0, es[i + 1].0, es[j].0);
    }
    if es[i].0 == es[j].0 {
        lemma_key_lt_irrefl(es[i].0);
    }
}

/// A shared prefix does not affect the key order of what follows it.
pub proof fn lemma_key_lt_common_prefix(p: Seq<u8>, a: Seq<u8>, b: Seq<u8>)
    ensures
        key_lt(p + a, p + b) == key_lt(a, b),
    decreases p.len(),
{
    if p.len() == 0 {
        assert(p + a =~= a);
        assert(p + b =~= b);
    } else {
        assert((p + a)[0] == p[0] && (p + b)[0] == p[0]);
        assert((p + a).drop_first() =~= p.drop_first() + a);
        assert((p + b).drop_first() =~= p.drop_first() + b);
        lemma_key_lt_common_prefix(p.drop_first(), a, b);
    }
}

/// Big-endian keys order exactly as the numbers they encode; this is why
/// tree keys carry their integers big-endian.
pub proof fn lemma_be32_order(x: u32, y: u32)
    ensures
        key_lt(crate::wire::be32_bytes(x), crate::wire::be32_bytes(y)) <==> x < y,
{
    let a = crate::wire::be32_bytes(x);
    let b = crate::wire::be32_bytes(y);
    let x0 = ((x >> 24) & 0xff) as u8;
    let x1 = ((x >> 16) & 0xff) as u8;
    let x2 = ((x >> 8) & 0xff) as u8;
    let x3 = (x & 0xff) as u8;
    let y0 = ((y >> 24) & 0xff) as u8;
    let y1 = ((y >> 16) & 0xff) as u8;
    let y2 = ((y >> 8) & 0xff) as u8;
    let y3 = (y & 0xff) as u8;
    let a1 = a.drop_first();
    let b1 = b.drop_first();
    let a2 = a1.drop_first();
    let b2 = b1.drop_first();
    let a3 = a2.drop_first();
    let b3 = b2.drop_first();
    assert(a1 =~= seq![x1, x2, x3] && b1 =~= seq![y1, y2, y3]);
    assert(a2 =~= seq![x2, x3] && b2 =~= seq![y2, y3]);
    assert(a3 =~= seq![x3] && b3 =~= seq![y3]);
    assert(a3.drop_first() =~= Seq::<u8>::empty());
    assert(b3.drop_first() =~= Seq::<u8>::empty());
    assert(a[0] == x0 && b[0] == y0);
    assert(a1[0] == x1 && b1[0] == y1);
    assert(a2[0] == x2 && b2[0] == y2);
    assert(a3[0] == x3 && b3[0] == y3);
    assert(!key_lt(Seq::<u8>::empty(), Seq::<u8>::empty()));
    assert(key_lt(a3, b3) == (x3 < y3));
    assert(key_lt(a2, b2) == (x2 < y2 || (x2 == y2 && x3 < y3)));
    assert(key_lt(a1, b1) == (x1 < y1 || (x1 == y1 && (x2 < y2 || (x2 == y2 && x3 < y3)))));
    assert(key_lt(a, b) == (x0 < y0 || (x0 == y0 && (x1 < y1 || (x1 == y1 && (x2 < y2 || (x2 == y2
        && x3 < y3)))))));
    let xx0 = (x >> 24) & 0xff;
    let xx1 = (x >> 16) & 0xff;
    let xx2 = (x >> 8) & 0xff;
    let xx3 = x & 0xff;
    let yy0 = (y >> 24) & 0xff;
    let yy1 = (y >> 16) & 0xff;
    let yy2 = (y >> 8) & 0xff;
    let yy3 = y & 0xff;
    assert(xx0 < 256 && xx1 < 256 && xx2 < 256 && xx3 < 256 && yy0 < 256 && yy1 < 256 && yy2 < 256
        && yy3 < 256) by (bit_vector)
        requires
            xx0 == (x >> 24) & 0xff,
            xx1 == (x >> 16) & 0xff,
            xx2 == (x >> 8) & 0xff,
            xx3 == x & 0xff,
            yy0 == (y >> 24) & 0xff,
            yy1 == (y >> 16) & 0xff,
            yy2 == (y >> 8) & 0xff,
            yy3 == y & 0xff,
    ;
    assert(x0 == xx0 && x1 == xx1 && x2 == xx2 && x3 == xx3);
    assert(y0 == yy0 && y1 == yy1 && y2 == yy2 && y3 == yy3);
    assert((x < y) == (xx0 < yy0 || (xx0 == yy0 && (xx1 < yy1 || (xx1 == yy1 && (xx2 < yy2 || (xx2
        == yy2 && xx3 < yy3))))))) by (bit_vector)
        requires
            xx0 == (x >> 24) & 0xff,
            xx1 == (x >> 16) & 0xff,
            xx2 == (x >> 8) & 0xff,
            xx3 == x & 0xff,
            yy0 == (y >> 24) & 0xff,
            yy1 == (y >> 16) & 0xff,
            yy2 == (y >> 8) & 0xff,
            yy3 == y & 0xff,
    ;
}

/// One entry of a leaf page: a key and the record bytes filed under it.
pub struct LeafEntry {
    pub key: Vec<u8>,
    pub data: Vec<u8>,
}

impl View for LeafEntry {
    type V = (Seq<u8>, Seq<u8>);

    open spec fn view(&self) -> (Seq<u8>, Seq<u8>) {
        (self.key@, self.data@)
    }
}

/// One entry of a branch page: a key and a child page number.
pub struct BranchEntry {
    pub key: Vec<u8>,
    pub child: u32,
}

impl View for BranchEntry {
    type V = (Seq<u8>, u32);

    open spec fn view(&self) -> (Seq<u8>, u32) {
        (self.key@, self.child)
    }
}

/// A parsed page.
pub enum Page {
    Leaf(Vec<LeafEntry>),
    Branch(Vec<BranchEntry>),
}

/// The mathematical model of a parsed page.
pub enum PageM {
    Leaf(Seq<(Seq<u8>, Seq<u8>)>),
    Branch(Seq<(Seq<u8>, u32)>),
}

pub open spec fn leaf_entries_view(v: Seq<LeafEntry>) -> Seq<(Seq<u8>, Seq<u8>)> {
    v.map_values(|e: LeafEntry| e@)
}

pub open spec fn branch_entries_view(v: Seq<BranchEntry>) -> Seq<(Seq<u8>, u32)> {
    v.map_values(|e: BranchEntry| e@)
}

impl View for Page {
    type V = PageM;

    open spec fn view(&self) -> PageM {
        match self {
            Page::Leaf(es) => PageM::Leaf(leaf_entries_view(es@)),
            Page::Branch(es) => PageM::Branch(branch_entries_view(es@)),
        }
    }
}

/// The view of a fallible page result.
pub open spec fn page_res_view(r: Result<Page, Error>) -> Result<PageM, Error> {
    match r {
        Ok(p) => Ok(p@),
        Err(e) => Err(e),
    }
}

/// Parses `n` leaf entries of the page bytes `p` starting at `off`.
pub open spec fn spec_parse_leaf_entries(p: Seq<u8>, off: int, n: int) -> Option<
    Seq<(Seq<u8>, Seq<u8>)>,
>
    decreases n,
{
    if n <= 0 {
        Some(Seq::empty())
    } else if off + 2 > p.len() {
        None
    } else {
        let klen = le16(p, off) as int;
        if off + 2 + klen + 2 > p.len() {
            None
        } else {
            let key = p.subrange(off + 2, off + 2 + klen);
            let dlen = le16(p, off + 2 + klen) as int;
            let dstart = off + 2 + klen + 2;
            if dstart + dlen > p.len() {
                None
            } else {
                let data = p.subrange(dstart, dstart + dlen);
                match spec_parse_leaf_entries(p, dstart + dlen, n - 1) {
                    None => None,
                    Some(rest) => Some(seq![(key, data)] + rest),
                }
            }
        }
    }
}

/// Parses `n` branch entries of the page bytes `p` starting at `off`.
pub open spec fn spec_parse_branch_entries(p: Seq<u8>, off: int, n: int) -> Option<
    Seq<(Seq<u8>, u32)>,
>
    decreases n,
{
    if n <= 0 {
        Some(Seq::empty())
    } else if off + 2 > p.len() {
        None
    } else {
        let klen = le16(p, off) as int;
        if off + 2 + klen + 4 > p.len() {
            None
        } else {
            let key = p.subrange(off + 2, off + 2 + klen);
            let child = le32(p, off + 2 + klen);
            match spec_parse_branch_entries(p, off + 2 + klen + 4, n - 1) {
                None => None,
                Some(rest) => Some(seq![(key, child)] + rest),
            }
        }
    }
}

/// Adjacent keys of a leaf page are strictly ascending.
pub open spec fn leaf_sorted(es: Seq<(Seq<u8>, Seq<u8>)>) -> bool {
    forall|i: int| 0 <= i < es.len() - 1 ==> key_lt(#[trigger] es[i].0, es[i + 1].0)
}

/// Adjacent keys of a branch page are strictly ascending.
pub open spec fn branch_sorted(es: Seq<(Seq<u8>, u32)>) -> bool {
    forall|i: int| 0 <= i < es.len() - 1 ==> key_lt(#[trigger] es[i].0, es[i + 1].0)
}

/// Parses and validates page `pn` of the database image: the page must lie
/// inside the image, its checksum must match the sum of its checksummed
/// region, its self-reference must name `pn`, its flag must be leaf or
/// branch, its entries must parse inside the page, and their keys must
/// ascend strictly.
pub open spec fn spec_parse_page(data: Seq<u8>, ps: int, pn: int) -> Result<PageM, Error> {
    if pn < 1 || (pn + 1) * ps > data.len() {
        Err(Error::Corrupt)
    } else {
        let p = data.subrange(pn * ps, (pn + 1) * ps);
        if le32(p, 0) != byte_sum(p.skip(8)) {
            Err(Error::Corrupt)
        } else if le32(p, 4) != pn {
            Err(Error::Corrupt)
        } else {
            let count = le16(p, 10) as int;
            if p[8] == PAGE_FLAG_LEAF {
                match spec_parse_leaf_entries(p, 12, count) {
                    None => Err(Error::Corrupt),
                    Some(es) => if leaf_sorted(es) {
                        Ok(PageM::Leaf(es))
                    } else {
                        Err(Error::Corrupt)
                    },
                }
            } else if p[8] == PAGE_FLAG_BRANCH {
                match spec_parse_branch_entries(p, 12, count) {
                    None => Err(Error::Corrupt),
                    Some(es) => if branch_sorted(es) {
                        Ok(PageM::Branch(es))
                    } else {
                        Err(Error::Corrupt)
                    },
                }
            } else {
                Err(Error::Corrupt)
            }
        }
    }
}

fn parse_leaf_entries(data: &Vec<u8>, base: usize, ps: usize, off: usize, n: u16) -> (r: Option<
    Vec<LeafEntry>,
>)
    requires
        base + ps <= data@.len(),
        ps <= 32768,
        off <= ps,
    ensures
        ({
            let spec = spec_parse_leaf_entries(
                data@.subrange(base as int, (base + ps) as int),
                off as int,
                n as int,
            );
            match r {
                Some(v) => spec == Some(leaf_entries_view(v@)),
                None => spec is None,
            }
        }),
    decreases n,
{
    let _n: usize = data.len();
    let ghost p = data@.subrange(base as int, (base + ps) as int);
    if n == 0 {
        let v: Vec<LeafEntry> = Vec::new();
        proof {
            assert(leaf_entries_view(v@) =~= Seq::<(Seq<u8>, Seq<u8>)>::empty());
        }
        return Some(v);
    }
    if off + 2 > ps {
        return None;
    }
    proof {
        assert(le16(p, off as int) == le16(data@, (base + off) as int));
    }
    let klen: usize = read_le16(data, base + off) as usize;
    if off + 2 + klen + 2 > ps {
        return None;
    }
    let key = copy_range(data, base + off + 2, base + off + 2 + klen);
    proof {
        assert(key@ =~= p.subrange(off + 2, off + 2 + klen));
        assert(le16(p, off + 2 + klen) == le16(data@, (base + off + 2 + klen) as int));
    }
    let dlen: usize = read_le16(data, base + off + 2 + klen) as usize;
    let dstart: usize = off + 2 + klen + 2;
    if dstart + dlen > ps {
        return None;
    }
    let dat = copy_range(data, base + dstart, base + dstart + dlen);
    proof {
        assert(dat@ =~= p.subrange(dstart as int, dstart + dlen));
    }
    match parse_leaf_entries(data, base, ps, dstart + dlen, n - 1) {
        None => None,
        Some(mut rest) => {
            let e = LeafEntry { key, data: dat };
            rest.insert(0, e);
            proof {
                let spec = spec_parse_leaf_entries(p, off as int, n as int);
                assert(spec matches Some(es) && es =~= leaf_entries_view(rest@));
            }
            Some(rest)
        },
    }
}

fn parse_branch_entries(data: &Vec<u8>, base: usize, ps: usize, off: usize, n: u16) -> (r: Option<
    Vec<BranchEntry>,
>)
    requires
        base + ps <= data@.len(),
        ps <= 32768,
        off <= ps,
    ensures
        ({
            let spec = spec_parse_branch_entries(
                data@.subrange(base as int, (base + ps) as int),
                off as int,
                n as int,
            );
            match r {
                Some(v) => spec == Some(branch_entries_view(v@)),
                None => spec is None,
            }
        }),
    decreases n,
{
    let _n: usize = data.len();
    let ghost p = data@.subrange(base as int, (base + ps) as int);
    if n == 0 {
        let v: Vec<BranchEntry> = Vec::new();
        proof {
            assert(branch_entries_view(v@) =~= Seq::<(Seq<u8>, u32)>::empty());
        }
        return Some(v);
    }
    if off + 2 > ps {
        return None;
    }
    proof {
        assert(le16(p, off as int) == le16(data@, (base + off) as int));
    }
    let klen: usize = read_le16(data, base + off) as usize;
    if off + 2 + klen + 4 > ps {
        return None;
    }
    let key = copy_range(data, base + off + 2, base + off + 2 + klen);
    proof {
        assert(key@ =~= p.subrange(off + 2, off + 2 + klen));
        assert(le32(p, off + 2 + klen) == le32(data@, (base + off + 2 + klen) as int));
    }
    let child: u32 = read_le32(data, base + off + 2 + klen);
    match parse_branch_entries(data, base, ps, off + 2 + klen + 4, n - 1) {
        None => None,
        Some(mut rest) => {
            let e = BranchEntry { key, child };
            rest.insert(0, e);
            proof {
                let spec = spec_parse_branch_entries(p, off as int, n as int);
                assert(spec matches Some(es) && es =~= branch_entries_view(rest@));
            }
            Some(rest)
        },
    }
}

pub(crate) fn leaf_sorted_exec(es: &Vec<LeafEntry>) -> (r: bool)
    ensures
        r == leaf_sorted(leaf_entries_view(es@)),
{
    let ghost v = leaf_entries_view(es@);
    let n: usize = es.len();
    if n == 0 {
        return true;
    }
    let mut i: usize = 0;
    while i < n - 1
        invariant
            n == es@.len(),
            n >= 1,
            i <= n - 1,
            v == leaf_entries_view(es@),
            forall|j: int| 0 <= j < i ==> key_lt(#[trigger] v[j].0, v[j + 1].0),
        decreases n - i,
    {
        if !key_lt_exec(&es[i].key, &es[i + 1].key) {
            proof {
                assert(v[i as int].0 == es@[i as int].key@);
                assert(!key_lt(v[i as int].0, v[i + 1].0));
            }
            return false;
        }
        i = i + 1;
    }
    true
}

fn branch_sorted_exec(es: &Vec<BranchEntry>) -> (r: bool)
    ensures
        r == branch_sorted(branch_entries_view(es@)),
{
    let ghost v = branch_entries_view(es@);
    let n: usize = es.len();
    if n == 0 {
        return true;
    }
    let mut i: usize = 0;
    while i < n - 1
        invariant
            n == es@.len(),
            n >= 1,
            i <= n - 1,
            v == branch_entries_view(es@),
            forall|j: int| 0 <= j < i ==> key_lt(#[trigger] v[j].0, v[j + 1].0),
        decreases n - i,
    {
        if !key_lt_exec(&es[i].key, &es[i + 1].key) {
            proof {
                assert(v[i as int].0 == es@[i as int].key@);
                assert(!key_lt(v[i as int].0, v[i + 1].0));
            }
            return false;
        }
        i = i + 1;
    }
    true
}

/// Reads and validates one page, as [`spec_parse_page`] describes.
pub fn parse_page(data: &Vec<u8>, ps: usize, page_count: u32, pn: u32) -> (r: Result<Page, Error>)
    requires
        data@.len() == (page_count as int) * (ps as int),
        16 <= ps <= 32768,
    ensures
        page_res_view(r) == spec_parse_page(data@, ps as int, pn as int),
{
    let _n: usize = data.len();
    if pn < 1 || pn >= page_count {
        proof {
            if pn >= 1 {
                assert((pn + 1) * (ps as int) > (page_count as int) * (ps as int))
                    by (nonlinear_arith)
                    requires
                        pn + 1 > page_count,
                        ps >= 16,
                ;
            }
        }
        return Err(Error::Corrupt);
    }
    proof {
        assert((pn as int) * (ps as int) + (ps as int) == (pn + 1) * (ps as int))
            by (nonlinear_arith);
        assert((pn + 1) * (ps as int) <= (page_count as int) * (ps as int)) by (nonlinear_arith)
            requires
                pn + 1 <= page_count,
                ps >= 0,
        ;
        assert((pn as int) * (ps as int) >= 0) by (nonlinear_arith)
            requires
                pn >= 0,
                ps >= 0,
        ;
    }
    let base: usize = (pn as usize) * ps;
    let ghost p = data@.subrange(base as int, (base + ps) as int);
    proof {
        assert(p =~= data@.subrange((pn as int) * (ps as int), (pn + 1) * (ps as int)));
        assert(p.skip(8) =~= data@.subrange((base + 8) as int, (base + ps) as int));
        assert(le32(p, 0) == le32(data@, base as int));
        assert(le32(p, 4) == le32(data@, (base + 4) as int));
        assert(le16(p, 10) == le16(data@, (base + 10) as int));
        assert(p[8] == data@[base + 8]);
    }
    let stored: u32 = read_le32(data, base);
    let computed: u32 = sum_bytes_range(data, base + 8, base + ps);
    proof {
        crate::wire::lemma_byte_sum_bound(p.skip(8));
    }
    if stored != computed {
        return Err(Error::Corrupt);
    }
    let selfref: u32 = read_le32(data, base + 4);
    if selfref != pn {
        return Err(Error::Corrupt);
    }
    let flags: u8 = data[base + 8];
    let count: u16 = read_le16(data, base + 10);
    if flags == PAGE_FLAG_LEAF {
        match parse_leaf_entries(data, base, ps, 12, count) {
            None => Err(Error::Corrupt),
            Some(es) => {
                if leaf_sorted_exec(&es) {
                    Ok(Page::Leaf(es))
                } else {
                    Err(Error::Corrupt)
                }
            },
        }
    } else if flags == PAGE_FLAG_BRANCH {
        match parse_branch_entries(data, base, ps, 12, count) {
            None => Err(Error::Corrupt),
            Some(es) => {
                if branch_sorted_exec(&es) {
                    Ok(Page::Branch(es))
                } else {
                    Err(Error::Corrupt)
                }
            },
        }
    } else {
        Err(Error::Corrupt)
    }
}

} // verus!
