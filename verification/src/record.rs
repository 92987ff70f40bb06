//! Record decoding: from a leaf record's bytes and its table's column list
//! to one typed value per column, addressed lazily.
//!
//! A record is laid out in three parts after a four-byte header (count of
//! fixed columns present, count of variable offset-table entries, count of
//! tagged entries): the fixed area, whose columns sit packed at their
//! catalog-declared offsets and are present up to the header's count; the
//! variable area, addressed by a table of cumulative end offsets whose high
//! bit marks an absent column, so a present-but-empty value stays distinct
//! from absence; and the tagged area, addressed by a table of
//! `(tag, offset, flags)` entries, where presence is appearance in the
//! table and the flags mark long-value references and multi-value
//! collections. A tag with no catalog column, or a record with more
//! entries than the catalog knows, is ignored rather than fatal.

use crate::catalog::{cols_view, spec_fixed_size, ColM, ColumnMeta, StorageClass};
use crate::error::Error;
use crate::value::{
    decode_prim, res_view, spec_decode_prim, spec_width, width, ColType, ValM, Value,
};
use crate::wire::{copy_range, le16, le32, read_le16, read_le32};
use vstd::prelude::*;

verus! {

/// Flag bit of a tagged entry holding a long-value reference.
pub const TAG_FLAG_LONG: u8 = 1;

/// Flag bit of a tagged entry holding a multi-value collection.
pub const TAG_FLAG_MULTI: u8 = 2;

/// The number of fixed columns among `cols[..i]`.
pub open spec fn spec_count_fixed(cols: Seq<ColM>, i: int) -> int
    decreases i,
{
    if i <= 0 {
        0
    } else {
        spec_count_fixed(cols, i - 1) + if cols[i - 1].class is Fixed {
            1int
        } else {
            0int
        }
    }
}

/// The number of variable columns among `cols[..i]`.
pub open spec fn spec_count_var(cols: Seq<ColM>, i: int) -> int
    decreases i,
{
    if i <= 0 {
        0
    } else {
        spec_count_var(cols, i - 1) + if cols[i - 1].class is Variable {
            1int
        } else {
            0int
        }
    }
}

fn count_fixed_before(cols: &Vec<ColumnMeta>, i: usize) -> (r: usize)
    requires
        i <= cols@.len(),
    ensures
        r == spec_count_fixed(cols_view(cols@), i as int),
        r <= i,
    decreases i,
{
    let mut k: usize = 0;
    let mut acc: usize = 0;
    while k < i
        invariant
            k <= i <= cols@.len(),
            acc == spec_count_fixed(cols_view(cols@), k as int),
            acc <= k,
        decreases i - k,
    {
        proof {
            assert(cols_view(cols@)[k as int] == cols@[k as int]@);
        }
        if let StorageClass::Fixed = cols[k].class {
            acc = acc + 1;
        }
        k = k + 1;
    }
    acc
}

fn count_var_before(cols: &Vec<ColumnMeta>, i: usize) -> (r: usize)
    requires
        i <= cols@.len(),
    ensures
        r == spec_count_var(cols_view(cols@), i as int),
        r <= i,
    decreases i,
{
    let mut k: usize = 0;
    let mut acc: usize = 0;
    while k < i
        invariant
            k <= i <= cols@.len(),
            acc == spec_count_var(cols_view(cols@), k as int),
            acc <= k,
        decreases i - k,
    {
        proof {
            assert(cols_view(cols@)[k as int] == cols@[k as int]@);
        }
        if let StorageClass::Variable = cols[k].class {
            acc = acc + 1;
        }
        k = k + 1;
    }
    acc
}

/// The first tagged entry whose tag is `id`, or -1. The tag table starts at
/// `tt` and holds `ntag` seven-byte entries of `(tag, offset, flags)`.
pub open spec fn spec_find_tag(rec: Seq<u8>, tt: int, ntag: int, id: u32, k: int) -> int
    decreases ntag - k,
{
    if k < 0 || k >= ntag {
        -1
    } else if le32(rec, tt + 7 * k) == id {
        k
    } else {
        spec_find_tag(rec, tt, ntag, id, k + 1)
    }
}

/// Locates the tagged entry of column `i`: `None` when the record's tag
/// table does not list the column's id, `Some((bytes, flags))` when it
/// does. The record must be long enough to hold its header, offset table
/// and tag table, tagged spans must nest in the record, and the long and
/// multi flags are exclusive; otherwise the record is corrupt.
pub open spec fn spec_tagged_entry(cols: Seq<ColM>, rec: Seq<u8>, i: int) -> Result<
    Option<(Seq<u8>, u8)>,
    Error,
> {
    if rec.len() < 4 {
        Err(Error::Corrupt)
    } else {
        let nvar = rec[1] as int;
        let ntag = le16(rec, 2) as int;
        let vt = 4 + spec_fixed_size(cols);
        if vt + 2 * nvar > rec.len() {
            Err(Error::Corrupt)
        } else {
            let e_last = if nvar == 0 {
                0int
            } else {
                (le16(rec, vt + 2 * (nvar - 1)) & 0x7fff) as int
            };
            let tt = vt + 2 * nvar + e_last;
            if tt + 7 * ntag > rec.len() {
                Err(Error::Corrupt)
            } else {
                let td = tt + 7 * ntag;
                let k = spec_find_tag(rec, tt, ntag, cols[i].id, 0);
                if k < 0 {
                    Ok(None)
                } else {
                    let off = le16(rec, tt + 7 * k + 4) as int;
                    let flags = rec[tt + 7 * k + 6];
                    let end = if k == ntag - 1 {
                        rec.len() - td
                    } else {
                        le16(rec, tt + 7 * (k + 1) + 4) as int
                    };
                    if off > end || td + end > rec.len() {
                        Err(Error::Corrupt)
                    } else if flags & TAG_FLAG_LONG != 0 && flags & TAG_FLAG_MULTI != 0 {
                        Err(Error::Corrupt)
                    } else {
                        Ok(Some((rec.subrange(td + off, td + end), flags)))
                    }
                }
            }
        }
    }
}

/// The value of column `i` of the record, as the module documentation
/// describes: `NotFound` past the column list; fixed columns read their
/// packed slot when present, `Null` when truncated away; variable columns
/// read their span or `Null` on the absence bit; tagged columns are `Null`
/// when unlisted, `Long`/`Multi` markers when flagged, and decode inline
/// otherwise.
pub open spec fn spec_record_value(cols: Seq<ColM>, rec: Seq<u8>, i: int) -> Result<ValM, Error> {
    if i < 0 || i >= cols.len() {
        Err(Error::NotFound)
    } else if rec.len() < 4 {
        Err(Error::Corrupt)
    } else {
        let c = cols[i];
        match c.class {
            StorageClass::Fixed => {
                let fi = spec_count_fixed(cols, i);
                if fi >= rec[0] as int {
                    Ok(ValM::Null)
                } else {
                    let start = 4 + c.off as int;
                    let w = spec_width(c.typ);
                    if start + w > rec.len() {
                        Err(Error::Corrupt)
                    } else {
                        spec_decode_prim(c.typ, rec.subrange(start, start + w))
                    }
                }
            },
            StorageClass::Variable => {
                let vi = spec_count_var(cols, i);
                let nvar = rec[1] as int;
                let vt = 4 + spec_fixed_size(cols);
                if vi >= nvar {
                    Ok(ValM::Null)
                } else if vt + 2 * nvar > rec.len() {
                    Err(Error::Corrupt)
                } else {
                    let raw = le16(rec, vt + 2 * vi);
                    let ei = (raw & 0x7fff) as int;
                    let prev = if vi == 0 {
                        0int
                    } else {
                        (le16(rec, vt + 2 * (vi - 1)) & 0x7fff) as int
                    };
                    if raw & 0x8000 != 0 {
                        Ok(ValM::Null)
                    } else if prev > ei || vt + 2 * nvar + ei > rec.len() {
                        Err(Error::Corrupt)
                    } else {
                        let vd = vt + 2 * nvar;
                        spec_decode_prim(c.typ, rec.subrange(vd + prev, vd + ei))
                    }
                }
            },
            StorageClass::Tagged => {
                match spec_tagged_entry(cols, rec, i) {
                    Err(e) => Err(e),
                    Ok(None) => Ok(ValM::Null),
                    Ok(Some((b, flags))) => {
                        if flags & TAG_FLAG_LONG != 0 {
                            Ok(ValM::Long)
                        } else if flags & TAG_FLAG_MULTI != 0 {
                            Ok(ValM::Multi)
                        } else {
                            spec_decode_prim(c.typ, b)
                        }
                    },
                }
            },
        }
    }
}

/// Whether column `i` of the record holds a long-value reference.
pub open spec fn spec_is_long(cols: Seq<ColM>, rec: Seq<u8>, i: int) -> Result<bool, Error> {
    if i < 0 || i >= cols.len() {
        Err(Error::NotFound)
    } else if !(cols[i].class is Tagged) {
        Ok(false)
    } else {
        match spec_tagged_entry(cols, rec, i) {
            Err(e) => Err(e),
            Ok(None) => Ok(false),
            Ok(Some((b, flags))) => Ok(flags & TAG_FLAG_LONG != 0),
        }
    }
}

/// Whether column `i` of the record holds a multi-value collection.
pub open spec fn spec_is_multi(cols: Seq<ColM>, rec: Seq<u8>, i: int) -> Result<bool, Error> {
    if i < 0 || i >= cols.len() {
        Err(Error::NotFound)
    } else if !(cols[i].class is Tagged) {
        Ok(false)
    } else {
        match spec_tagged_entry(cols, rec, i) {
            Err(e) => Err(e),
            Ok(None) => Ok(false),
            Ok(Some((b, flags))) => Ok(flags & TAG_FLAG_MULTI != 0),
        }
    }
}

/// The long-value reference of column `i`: the key into the table's
/// long-value tree and the value's declared total length. `TypeMismatch`
/// when the column does not hold a long value.
pub open spec fn spec_long_ref(cols: Seq<ColM>, rec: Seq<u8>, i: int) -> Result<(u32, u32), Error> {
    if i < 0 || i >= cols.len() {
        Err(Error::NotFound)
    } else if !(cols[i].class is Tagged) {
        Err(Error::TypeMismatch)
    } else {
        match spec_tagged_entry(cols, rec, i) {
            Err(e) => Err(e),
            Ok(None) => Err(Error::TypeMismatch),
            Ok(Some((b, flags))) => {
                if flags & TAG_FLAG_LONG == 0 {
                    Err(Error::TypeMismatch)
                } else if b.len() != 8 {
                    Err(Error::Corrupt)
                } else {
                    Ok((le32(b, 0), le32(b, 4)))
                }
            },
        }
    }
}

/// The items of the multi-value collection `b[k..]`, with `prev` the end
/// offset of the previous item; the offsets are cumulative ends into the
/// data area after the count and offset table.
pub open spec fn spec_multi_items_from(b: Seq<u8>, count: int, k: int, prev: int) -> Result<
    Seq<Seq<u8>>,
    Error,
>
    decreases count - k,
{
    if k < 0 || k >= count {
        Ok(Seq::empty())
    } else {
        let dstart = 2 + 2 * count;
        let end = le16(b, 2 + 2 * k) as int;
        if end < prev || dstart + end > b.len() {
            Err(Error::Corrupt)
        } else {
            match spec_multi_items_from(b, count, k + 1, end) {
                Err(e) => Err(e),
                Ok(rest) => Ok(seq![b.subrange(dstart + prev, dstart + end)] + rest),
            }
        }
    }
}

/// The item byte sequences of a multi-value collection: a count, a table
/// of cumulative end offsets, then the concatenated items.
pub open spec fn spec_parse_multi(b: Seq<u8>) -> Result<Seq<Seq<u8>>, Error> {
    if b.len() < 2 {
        Err(Error::Corrupt)
    } else {
        let count = le16(b, 0) as int;
        if 2 + 2 * count > b.len() {
            Err(Error::Corrupt)
        } else {
            spec_multi_items_from(b, count, 0, 0)
        }
    }
}

/// The multi-value items of column `i`. `TypeMismatch` when the column
/// does not hold a multi-value.
pub open spec fn spec_multi_items(cols: Seq<ColM>, rec: Seq<u8>, i: int) -> Result<
    Seq<Seq<u8>>,
    Error,
> {
    if i < 0 || i >= cols.len() {
        Err(Error::NotFound)
    } else if !(cols[i].class is Tagged) {
        Err(Error::TypeMismatch)
    } else {
        match spec_tagged_entry(cols, rec, i) {
            Err(e) => Err(e),
            Ok(None) => Err(Error::TypeMismatch),
            Ok(Some((b, flags))) => {
                if flags & TAG_FLAG_MULTI == 0 {
                    Err(Error::TypeMismatch)
                } else {
                    spec_parse_multi(b)
                }
            },
        }
    }
}

#[verifier::loop_isolation(false)]
fn find_tag(rec: &Vec<u8>, tt: usize, ntag: usize, id: u32) -> (r: Option<usize>)
    requires
        tt + 7 * ntag <= rec@.len(),
    ensures
        match r {
            Some(k) => k < ntag && spec_find_tag(rec@, tt as int, ntag as int, id, 0) == k as int,
            None => spec_find_tag(rec@, tt as int, ntag as int, id, 0) == -1,
        },
{
    let _n: usize = rec.len();
    let mut k: usize = 0;
    while k < ntag
        invariant
            k <= ntag,
            tt + 7 * ntag <= rec@.len(),
            spec_find_tag(rec@, tt as int, ntag as int, id, 0) == spec_find_tag(
                rec@,
                tt as int,
                ntag as int,
                id,
                k as int,
            ),
        decreases ntag - k,
    {
        if read_le32(rec, tt + 7 * k) == id {
            return Some(k);
        }
        k = k + 1;
    }
    None
}

/// Executable twin of [`spec_tagged_entry`].
#[verifier::loop_isolation(false)]
pub fn tagged_entry(cols: &Vec<ColumnMeta>, rec: &Vec<u8>, i: usize) -> (r: Result<
    Option<(Vec<u8>, u8)>,
    Error,
>)
    requires
        i < cols@.len(),
        crate::catalog::cols_wf(cols_view(cols@)),
    ensures
        ({
            let spec = spec_tagged_entry(cols_view(cols@), rec@, i as int);
            match r {
                Ok(Some((b, f))) => spec == Ok::<Option<(Seq<u8>, u8)>, Error>(Some((b@, f))),
                Ok(None) => spec == Ok::<Option<(Seq<u8>, u8)>, Error>(None),
                Err(e) => spec == Err::<Option<(Seq<u8>, u8)>, Error>(e),
            }
        }),
{
    let ghost csm = cols_view(cols@);
    let rlen: usize = rec.len();
    if rlen < 4 {
        return Err(Error::Corrupt);
    }
    let nvar: usize = rec[1] as usize;
    let ntag: usize = read_le16(rec, 2) as usize;
    let vt: usize = 4 + crate::catalog::fixed_size(cols);
    if vt + 2 * nvar > rlen {
        return Err(Error::Corrupt);
    }
    let e_last: usize = if nvar == 0 {
        0
    } else {
        (read_le16(rec, vt + 2 * (nvar - 1)) & 0x7fff) as usize
    };
    let tt: usize = vt + 2 * nvar + e_last;
    if ntag > rlen || tt > rlen || tt + 7 * ntag > rlen {
        return Err(Error::Corrupt);
    }
    let td: usize = tt + 7 * ntag;
    proof {
        assert(csm[i as int].id == cols@[i as int]@.id);
    }
    match find_tag(rec, tt, ntag, cols[i].id) {
        None => Ok(None),
        Some(k) => {
            let off: usize = read_le16(rec, tt + 7 * k + 4) as usize;
            let flags: u8 = rec[tt + 7 * k + 6];
            let end: usize = if k == ntag - 1 {
                rlen - td
            } else {
                read_le16(rec, tt + 7 * (k + 1) + 4) as usize
            };
            if off > end || end > rlen - td {
                return Err(Error::Corrupt);
            }
            if flags & TAG_FLAG_LONG != 0 && flags & TAG_FLAG_MULTI != 0 {
                return Err(Error::Corrupt);
            }
            let b = copy_range(rec, td + off, td + end);
            Ok(Some((b, flags)))
        },
    }
}

/// Executable twin of [`spec_record_value`].
#[verifier::loop_isolation(false)]
pub fn record_value(cols: &Vec<ColumnMeta>, rec: &Vec<u8>, i: usize) -> (r: Result<Value, Error>)
    requires
        crate::catalog::cols_wf(cols_view(cols@)),
    ensures
        res_view(r) == spec_record_value(cols_view(cols@), rec@, i as int),
{
    let ghost csm = cols_view(cols@);
    let rlen: usize = rec.len();
    if i >= cols.len() {
        return Err(Error::NotFound);
    }
    if rlen < 4 {
        return Err(Error::Corrupt);
    }
    proof {
        assert(csm[i as int] == cols@[i as int]@);
    }
    match cols[i].class {
        StorageClass::Fixed => {
            let fi: usize = count_fixed_before(cols, i);
            if fi >= rec[0] as usize {
                return Ok(Value::Null);
            }
            let start: usize = 4 + cols[i].off as usize;
            let w: usize = width(cols[i].typ);
            if start + w > rlen {
                return Err(Error::Corrupt);
            }
            decode_prim(cols[i].typ, copy_range(rec, start, start + w))
        },
        StorageClass::Variable => {
            let vi: usize = count_var_before(cols, i);
            let nvar: usize = rec[1] as usize;
            let vt: usize = 4 + crate::catalog::fixed_size(cols);
            if vi >= nvar {
                return Ok(Value::Null);
            }
            if vt + 2 * nvar > rlen {
                return Err(Error::Corrupt);
            }
            let raw: u16 = read_le16(rec, vt + 2 * vi);
            let ei: usize = (raw & 0x7fff) as usize;
            let prev: usize = if vi == 0 {
                0
            } else {
                (read_le16(rec, vt + 2 * (vi - 1)) & 0x7fff) as usize
            };
            if raw & 0x8000 != 0 {
                return Ok(Value::Null);
            }
            if prev > ei || vt + 2 * nvar + ei > rlen {
                return Err(Error::Corrupt);
            }
            let vd: usize = vt + 2 * nvar;
            decode_prim(cols[i].typ, copy_range(rec, vd + prev, vd + ei))
        },
        StorageClass::Tagged => {
            match tagged_entry(cols, rec, i) {
                Err(e) => Err(e),
                Ok(None) => Ok(Value::Null),
                Ok(Some((b, flags))) => {
                    if flags & TAG_FLAG_LONG != 0 {
                        Ok(Value::Long)
                    } else if flags & TAG_FLAG_MULTI != 0 {
                        Ok(Value::Multi)
                    } else {
                        decode_prim(cols[i].typ, b)
                    }
                },
            }
        },
    }
}

/// Executable twin of [`spec_is_long`].
pub fn record_is_long(cols: &Vec<ColumnMeta>, rec: &Vec<u8>, i: usize) -> (r: Result<bool, Error>)
    requires
        crate::catalog::cols_wf(cols_view(cols@)),
    ensures
        r == spec_is_long(cols_view(cols@), rec@, i as int),
{
    let ghost csm = cols_view(cols@);
    if i >= cols.len() {
        return Err(Error::NotFound);
    }
    proof {
        assert(csm[i as int] == cols@[i as int]@);
    }
    match cols[i].class {
        StorageClass::Tagged => {
            match tagged_entry(cols, rec, i) {
                Err(e) => Err(e),
                Ok(None) => Ok(false),
                Ok(Some((_b, flags))) => Ok(flags & TAG_FLAG_LONG != 0),
            }
        },
        _ => Ok(false),
    }
}

/// Executable twin of [`spec_is_multi`].
pub fn record_is_multi(cols: &Vec<ColumnMeta>, rec: &Vec<u8>, i: usize) -> (r: Result<bool, Error>)
    requires
        crate::catalog::cols_wf(cols_view(cols@)),
    ensures
        r == spec_is_multi(cols_view(cols@), rec@, i as int),
{
    let ghost csm = cols_view(cols@);
    if i >= cols.len() {
        return Err(Error::NotFound);
    }
    proof {
        assert(csm[i as int] == cols@[i as int]@);
    }
    match cols[i].class {
        StorageClass::Tagged => {
            match tagged_entry(cols, rec, i) {
                Err(e) => Err(e),
                Ok(None) => Ok(false),
                Ok(Some((_b, flags))) => Ok(flags & TAG_FLAG_MULTI != 0),
            }
        },
        _ => Ok(false),
    }
}

/// Executable twin of [`spec_long_ref`].
pub fn record_long_ref(cols: &Vec<ColumnMeta>, rec: &Vec<u8>, i: usize) -> (r: Result<
    (u32, u32),
    Error,
>)
    requires
        crate::catalog::cols_wf(cols_view(cols@)),
    ensures
        r == spec_long_ref(cols_view(cols@), rec@, i as int),
{
    let ghost csm = cols_view(cols@);
    if i >= cols.len() {
        return Err(Error::NotFound);
    }
    proof {
        assert(csm[i as int] == cols@[i as int]@);
    }
    match cols[i].class {
        StorageClass::Tagged => {
            match tagged_entry(cols, rec, i) {
                Err(e) => Err(e),
                Ok(None) => Err(Error::TypeMismatch),
                Ok(Some((b, flags))) => {
                    if flags & TAG_FLAG_LONG == 0 {
                        Err(Error::TypeMismatch)
                    } else if b.len() != 8 {
                        Err(Error::Corrupt)
                    } else {
                        Ok((read_le32(&b, 0), read_le32(&b, 4)))
                    }
                },
            }
        },
        _ => Err(Error::TypeMismatch),
    }
}

/// Executable twin of [`spec_parse_multi`].
#[verifier::loop_isolation(false)]
pub fn parse_multi(b: &Vec<u8>) -> (r: Result<Vec<Vec<u8>>, Error>)
    ensures
        ({
            let spec = spec_parse_multi(b@);
            match r {
                Ok(v) => spec == Ok::<Seq<Seq<u8>>, Error>(v@.map_values(|x: Vec<u8>| x@)),
                Err(e) => spec == Err::<Seq<Seq<u8>>, Error>(e),
            }
        }),
{
    let blen: usize = b.len();
    if blen < 2 {
        return Err(Error::Corrupt);
    }
    let count: usize = read_le16(b, 0) as usize;
    if 2 + 2 * count > blen {
        return Err(Error::Corrupt);
    }
    multi_items_from(b, count, 0, 0)
}

#[verifier::loop_isolation(false)]
fn multi_items_from(b: &Vec<u8>, count: usize, k: usize, prev: usize) -> (r: Result<
    Vec<Vec<u8>>,
    Error,
>)
    requires
        2 + 2 * count <= b@.len(),
        k <= count,
        prev <= b@.len(),
    ensures
        ({
            let spec = spec_multi_items_from(b@, count as int, k as int, prev as int);
            match r {
                Ok(v) => spec == Ok::<Seq<Seq<u8>>, Error>(v@.map_values(|x: Vec<u8>| x@)),
                Err(e) => spec == Err::<Seq<Seq<u8>>, Error>(e),
            }
        }),
    decreases count - k,
{
    if k == count {
        let v: Vec<Vec<u8>> = Vec::new();
        proof {
            assert(v@.map_values(|x: Vec<u8>| x@) =~= Seq::<Seq<u8>>::empty());
        }
        return Ok(v);
    }
    let blen: usize = b.len();
    let dstart: usize = 2 + 2 * count;
    let end: usize = read_le16(b, 2 + 2 * k) as usize;
    if end < prev || end > blen - dstart {
        return Err(Error::Corrupt);
    }
    let item = copy_range(b, dstart + prev, dstart + end);
    match multi_items_from(b, count, k + 1, end) {
        Err(e) => Err(e),
        Ok(mut rest) => {
            rest.insert(0, item);
            proof {
                let spec = spec_multi_items_from(b@, count as int, k as int, prev as int);
                assert(spec matches Ok(es) && es =~= rest@.map_values(|x: Vec<u8>| x@));
            }
            Ok(rest)
        },
    }
}

/// Reading a record is idempotent: the decoded value of a column is a
/// function of the catalog and the record bytes alone, so two reads of the
/// same ordinal return identical values, and no read mutates anything.
pub proof fn lemma_record_read_idempotent(
    cols: Seq<ColM>,
    rec: Seq<u8>,
    i: int,
    v1: Result<ValM, Error>,
    v2: Result<ValM, Error>,
)
    requires
        v1 == spec_record_value(cols, rec, i),
        v2 == spec_record_value(cols, rec, i),
    ensures
        v1 == v2,
{
}

/// Executable twin of [`spec_multi_items`].
pub fn record_multi_items(cols: &Vec<ColumnMeta>, rec: &Vec<u8>, i: usize) -> (r: Result<
    Vec<Vec<u8>>,
    Error,
>)
    requires
        crate::catalog::cols_wf(cols_view(cols@)),
    ensures
        ({
            let spec = spec_multi_items(cols_view(cols@), rec@, i as int);
            match r {
                Ok(v) => spec == Ok::<Seq<Seq<u8>>, Error>(v@.map_values(|x: Vec<u8>| x@)),
                Err(e) => spec == Err::<Seq<Seq<u8>>, Error>(e),
            }
        }),
{
    let ghost csm = cols_view(cols@);
    if i >= cols.len() {
        return Err(Error::NotFound);
    }
    proof {
        assert(csm[i as int] == cols@[i as int]@);
    }
    match cols[i].class {
        StorageClass::Tagged => {
            match tagged_entry(cols, rec, i) {
                Err(e) => Err(e),
                Ok(None) => Err(Error::TypeMismatch),
                Ok(Some((b, flags))) => {
                    if flags & TAG_FLAG_MULTI == 0 {
                        Err(Error::TypeMismatch)
                    } else {
                        parse_multi(&b)
                    }
                },
            }
        },
        _ => Err(Error::TypeMismatch),
    }
}

} // verus!
