//! The catalog: the reserved B-tree that describes every table and column.
//!
//! Each catalog leaf holds one record, either a table (object id, root
//! page, long-value root page, name) or a column (owner object id, column
//! id, type, storage class, fixed offset, name) attached to a table seen
//! earlier. Building the catalog validates, once per open handle: names
//! are printable and unique at their level, object and column ids are
//! unique, declared types are known and non-null, and fixed columns sit
//! packed at their declared offsets. The result is immutable.

use crate::btree::{spec_leaves_sorted, MAX_TREE_DEPTH};
use crate::error::Error;
use crate::page::{leaf_entries_view, LeafEntry};
use crate::value::{col_type_of, spec_col_type_of, spec_width, width, ColType};
use crate::wire::{bytes_eq, copy_range, le16, le32, read_le16, read_le32};
use vstd::prelude::*;

verus! {

/// How a column is stored in a record.
#[derive(Clone, Copy, Debug, PartialEq, Eq, Structural)]
pub enum StorageClass {
    /// Always present, at a fixed offset of the record's fixed area.
    Fixed,
    /// Present or absent, addressed by the record's offset table.
    Variable,
    /// Optional, present only when listed in the record's tag table.
    Tagged,
}

/// The byte encoding of a storage class.
pub open spec fn spec_storage_class_of(b: u8) -> Option<StorageClass> {
    match b {
        0u8 => Some(StorageClass::Fixed),
        1u8 => Some(StorageClass::Variable),
        2u8 => Some(StorageClass::Tagged),
        _ => None,
    }
}

fn storage_class_of(b: u8) -> (r: Option<StorageClass>)
    ensures
        r == spec_storage_class_of(b),
{
    match b {
        0u8 => Some(StorageClass::Fixed),
        1u8 => Some(StorageClass::Variable),
        2u8 => Some(StorageClass::Tagged),
        _ => None,
    }
}

/// A column definition resolved from the catalog.
pub struct ColumnMeta {
    /// Stable integer key, independent of ordinal position; the tag id of a
    /// tagged column.
    pub id: u32,
    pub typ: ColType,
    pub class: StorageClass,
    /// Offset in the record's fixed area; meaningful for fixed columns.
    pub off: u16,
    pub name: Vec<u8>,
}

/// The mathematical model of a column definition.
pub struct ColM {
    pub id: u32,
    pub typ: ColType,
    pub class: StorageClass,
    pub off: u16,
    pub name: Seq<u8>,
}

impl View for ColumnMeta {
    type V = ColM;

    open spec fn view(&self) -> ColM {
        ColM { id: self.id, typ: self.typ, class: self.class, off: self.off, name: self.name@ }
    }
}

impl ColumnMeta {
    /// An owned copy.
    pub fn dup(&self) -> (r: ColumnMeta)
        ensures
            r@ == self@,
    {
        let n: usize = self.name.len();
        let nm = copy_range(&self.name, 0, n);
        proof {
            assert(nm@ =~= self.name@);
        }
        ColumnMeta { id: self.id, typ: self.typ, class: self.class, off: self.off, name: nm }
    }
}

/// A table definition resolved from the catalog.
pub struct TableMeta {
    /// The object id that columns name as their owner.
    pub objid: u32,
    /// Root page of the table's record tree.
    pub root: u32,
    /// Root page of the table's long-value tree; 0 when it has none.
    pub lv_root: u32,
    pub name: Vec<u8>,
    /// Columns in catalog emission order.
    pub cols: Vec<ColumnMeta>,
}

/// The mathematical model of a table definition.
pub struct TableM {
    pub objid: u32,
    pub root: u32,
    pub lv_root: u32,
    pub name: Seq<u8>,
    pub cols: Seq<ColM>,
}

pub open spec fn cols_view(v: Seq<ColumnMeta>) -> Seq<ColM> {
    v.map_values(|c: ColumnMeta| c@)
}

pub open spec fn tables_view(v: Seq<TableMeta>) -> Seq<TableM> {
    v.map_values(|t: TableMeta| t@)
}

impl View for TableMeta {
    type V = TableM;

    open spec fn view(&self) -> TableM {
        TableM {
            objid: self.objid,
            root: self.root,
            lv_root: self.lv_root,
            name: self.name@,
            cols: cols_view(self.cols@),
        }
    }
}

/// A catalog name: printable ASCII, one to 255 bytes.
pub open spec fn name_ok(s: Seq<u8>) -> bool {
    1 <= s.len() <= 255 && forall|i: int| 0 <= i < s.len() ==> 0x20 <= #[trigger] s[i] <= 0x7e
}

fn name_ok_exec(v: &Vec<u8>) -> (r: bool)
    ensures
        r == name_ok(v@),
{
    let n: usize = v.len();
    if n < 1 || n > 255 {
        return false;
    }
    let mut i: usize = 0;
    while i < n
        invariant
            i <= n,
            n == v@.len(),
            forall|j: int| 0 <= j < i ==> 0x20 <= #[trigger] v@[j] <= 0x7e,
        decreases n - i,
    {
        if v[i] < 0x20 || v[i] > 0x7e {
            return false;
        }
        i = i + 1;
    }
    true
}

/// One parsed catalog record.
pub enum CatRec {
    Table(TableMeta),
    Column(u32, ColumnMeta),
}

/// The model of one parsed catalog record.
pub enum CatRecM {
    Table(TableM),
    Column(u32, ColM),
}

pub open spec fn cat_rec_res_view(r: Result<CatRec, Error>) -> Result<CatRecM, Error> {
    match r {
        Ok(CatRec::Table(t)) => Ok(CatRecM::Table(t@)),
        Ok(CatRec::Column(o, c)) => Ok(CatRecM::Column(o, c@)),
        Err(e) => Err(e),
    }
}

/// Kind byte of a table catalog record.
pub const CAT_KIND_TABLE: u8 = 1;

/// Kind byte of a column catalog record.
pub const CAT_KIND_COLUMN: u8 = 2;

/// Parses the payload of one catalog leaf.
pub open spec fn spec_parse_catalog_record(d: Seq<u8>) -> Result<CatRecM, Error> {
    if d.len() < 15 {
        Err(Error::Corrupt)
    } else {
        let name_len = le16(d, 13) as int;
        if d.len() != 15 + name_len {
            Err(Error::Corrupt)
        } else {
            let name = d.subrange(15, 15 + name_len);
            if !name_ok(name) {
                Err(Error::Corrupt)
            } else if d[0] == CAT_KIND_TABLE {
                if le32(d, 5) == 0 {
                    Err(Error::Corrupt)
                } else {
                    Ok(
                        CatRecM::Table(
                            TableM {
                                objid: le32(d, 1),
                                root: le32(d, 5),
                                lv_root: le32(d, 9),
                                name,
                                cols: Seq::empty(),
                            },
                        ),
                    )
                }
            } else if d[0] == CAT_KIND_COLUMN {
                match (spec_col_type_of(d[9]), spec_storage_class_of(d[10])) {
                    (Some(typ), Some(class)) => if typ is Null {
                        Err(Error::Corrupt)
                    } else {
                        Ok(
                            CatRecM::Column(
                                le32(d, 1),
                                ColM { id: le32(d, 5), typ, class, off: le16(d, 11), name },
                            ),
                        )
                    },
                    _ => Err(Error::Corrupt),
                }
            } else {
                Err(Error::Corrupt)
            }
        }
    }
}

/// Parses the payload of one catalog leaf.
pub fn parse_catalog_record(d: &Vec<u8>) -> (r: Result<CatRec, Error>)
    ensures
        cat_rec_res_view(r) == spec_parse_catalog_record(d@),
{
    let dlen: usize = d.len();
    if dlen < 15 {
        return Err(Error::Corrupt);
    }
    let name_len: usize = read_le16(d, 13) as usize;
    if dlen != 15 + name_len {
        return Err(Error::Corrupt);
    }
    let name = copy_range(d, 15, 15 + name_len);
    if !name_ok_exec(&name) {
        return Err(Error::Corrupt);
    }
    if d[0] == CAT_KIND_TABLE {
        if read_le32(d, 5) == 0 {
            return Err(Error::Corrupt);
        }
        let t = TableMeta {
            objid: read_le32(d, 1),
            root: read_le32(d, 5),
            lv_root: read_le32(d, 9),
            name,
            cols: Vec::new(),
        };
        proof {
            assert(t@.cols =~= Seq::<ColM>::empty());
        }
        Ok(CatRec::Table(t))
    } else if d[0] == CAT_KIND_COLUMN {
        match (col_type_of(d[9]), storage_class_of(d[10])) {
            (Some(typ), Some(class)) => {
                if let ColType::Null = typ {
                    return Err(Error::Corrupt);
                }
                let c = ColumnMeta { id: read_le32(d, 5), typ, class, off: read_le16(d, 11), name };
                Ok(CatRec::Column(read_le32(d, 1), c))
            },
            _ => Err(Error::Corrupt),
        }
    } else {
        Err(Error::Corrupt)
    }
}

/// Total width of the fixed area declared by `cols`: the packed sum of the
/// widths of its fixed columns.
pub open spec fn spec_fixed_size(cols: Seq<ColM>) -> int
    decreases cols.len(),
{
    if cols.len() == 0 {
        0
    } else {
        spec_fixed_size(cols.drop_last()) + if cols.last().class is Fixed {
            spec_width(cols.last().typ)
        } else {
            0
        }
    }
}

/// Well-formedness of a table's column list: names printable and unique,
/// ids unique, types known and non-null, fixed columns packed in order at
/// their declared offsets.
pub open spec fn cols_wf(cols: Seq<ColM>) -> bool {
    &&& forall|i: int, j: int|
        0 <= i < j < cols.len() ==> (#[trigger] cols[i]).name != (#[trigger] cols[j]).name
            && cols[i].id != cols[j].id
    &&& forall|i: int|
        0 <= i < cols.len() ==> {
            &&& name_ok((#[trigger] cols[i]).name)
            &&& !(cols[i].typ is Null)
            &&& (cols[i].class is Fixed ==> spec_width(cols[i].typ) > 0 && cols[i].off
                == spec_fixed_size(cols.take(i)))
        }
}

/// Well-formedness of the catalog: table names and object ids unique, every
/// table's root nonzero and column list well-formed.
pub open spec fn tables_wf(ts: Seq<TableM>) -> bool {
    &&& forall|i: int, j: int|
        0 <= i < j < ts.len() ==> (#[trigger] ts[i]).name != (#[trigger] ts[j]).name && ts[i].objid
            != ts[j].objid
    &&& forall|i: int|
        0 <= i < ts.len() ==> {
            &&& name_ok((#[trigger] ts[i]).name)
            &&& ts[i].root != 0
            &&& cols_wf(ts[i].cols)
        }
}

/// Adds a table record to the catalog being built.
pub open spec fn spec_add_table(acc: Seq<TableM>, t: TableM) -> Result<Seq<TableM>, Error> {
    if exists|i: int|
        0 <= i < acc.len() && ((#[trigger] acc[i]).objid == t.objid || acc[i].name == t.name) {
        Err(Error::Corrupt)
    } else {
        Ok(acc.push(t))
    }
}

/// Adds a column record to the catalog being built: it attaches to the
/// table with the owner object id.
pub open spec fn spec_add_column(acc: Seq<TableM>, owner: u32, c: ColM) -> Result<
    Seq<TableM>,
    Error,
> {
    if !(exists|i: int| 0 <= i < acc.len() && (#[trigger] acc[i]).objid == owner) {
        Err(Error::Corrupt)
    } else {
        let j = choose|j: int| 0 <= j < acc.len() && (#[trigger] acc[j]).objid == owner;
        let t = acc[j];
        if exists|i: int|
            0 <= i < t.cols.len() && ((#[trigger] t.cols[i]).name == c.name || t.cols[i].id
                == c.id) {
            Err(Error::Corrupt)
        } else if c.class is Fixed && !(spec_width(c.typ) > 0 && c.off == spec_fixed_size(t.cols)) {
            Err(Error::Corrupt)
        } else {
            Ok(
                acc.update(
                    j,
                    TableM {
                        objid: t.objid,
                        root: t.root,
                        lv_root: t.lv_root,
                        name: t.name,
                        cols: t.cols.push(c),
                    },
                ),
            )
        }
    }
}

/// Folds the catalog rows `rows[i..]` into the accumulated table list.
pub open spec fn spec_catalog_fold(
    rows: Seq<(Seq<u8>, Seq<u8>)>,
    i: int,
    acc: Seq<TableM>,
) -> Result<Seq<TableM>, Error>
    decreases rows.len() - i,
{
    if i < 0 || i >= rows.len() {
        Ok(acc)
    } else {
        match spec_parse_catalog_record(rows[i].1) {
            Err(e) => Err(e),
            Ok(CatRecM::Table(t)) => match spec_add_table(acc, t) {
                Err(e) => Err(e),
                Ok(acc2) => spec_catalog_fold(rows, i + 1, acc2),
            },
            Ok(CatRecM::Column(owner, c)) => match spec_add_column(acc, owner, c) {
                Err(e) => Err(e),
                Ok(acc2) => spec_catalog_fold(rows, i + 1, acc2),
            },
        }
    }
}

/// The catalog of the database image: the fold of the catalog tree's
/// leaves.
pub open spec fn spec_catalog(data: Seq<u8>, ps: int, root: int) -> Result<Seq<TableM>, Error> {
    match spec_leaves_sorted(data, ps, root, MAX_TREE_DEPTH as int) {
        Err(e) => Err(e),
        Ok(rows) => spec_catalog_fold(rows, 0, Seq::empty()),
    }
}

proof fn lemma_add_table_wf(acc: Seq<TableM>, t: TableM)
    requires
        tables_wf(acc),
        name_ok(t.name),
        t.root != 0,
        t.cols.len() == 0,
        spec_add_table(acc, t) is Ok,
    ensures
        tables_wf(spec_add_table(acc, t).unwrap()),
{
    let r = spec_add_table(acc, t).unwrap();
    assert(cols_wf(t.cols));
    assert forall|i: int, j: int| 0 <= i < j < r.len() implies (#[trigger] r[i]).name
        != (#[trigger] r[j]).name && r[i].objid != r[j].objid by {
        if j < acc.len() {
        } else {
            assert(r[i] == acc[i] && r[j] == t);
        }
    }
}

proof fn lemma_add_column_wf(acc: Seq<TableM>, owner: u32, c: ColM)
    requires
        tables_wf(acc),
        name_ok(c.name),
        !(c.typ is Null),
        spec_add_column(acc, owner, c) is Ok,
    ensures
        tables_wf(spec_add_column(acc, owner, c).unwrap()),
{
    let j = choose|j: int| 0 <= j < acc.len() && (#[trigger] acc[j]).objid == owner;
    let t = acc[j];
    let t2 = spec_add_column(acc, owner, c).unwrap()[j];
    let r = spec_add_column(acc, owner, c).unwrap();
    assert(t2.cols == t.cols.push(c));
    assert(cols_wf(t2.cols)) by {
        let cs = t.cols.push(c);
        assert forall|i: int| 0 <= i < cs.len() implies {
            &&& name_ok((#[trigger] cs[i]).name)
            &&& !(cs[i].typ is Null)
            &&& (cs[i].class is Fixed ==> spec_width(cs[i].typ) > 0 && cs[i].off
                == spec_fixed_size(cs.take(i)))
        } by {
            if i < t.cols.len() {
                assert(cs[i] == t.cols[i]);
                assert(cs.take(i) =~= t.cols.take(i));
            } else {
                assert(cs[i] == c);
                assert(cs.take(i) =~= t.cols);
            }
        }
    }
    assert forall|a: int, b: int| 0 <= a < b < r.len() implies (#[trigger] r[a]).name
        != (#[trigger] r[b]).name && r[a].objid != r[b].objid by {
        assert(r[a].name == acc[a].name && r[a].objid == acc[a].objid);
        assert(r[b].name == acc[b].name && r[b].objid == acc[b].objid);
    }
}

/// A catalog built by a successful fold from a well-formed accumulator is
/// well-formed: names and ids stay unique, and fixed columns stay packed.
pub proof fn lemma_catalog_fold_wf(rows: Seq<(Seq<u8>, Seq<u8>)>, i: int, acc: Seq<TableM>)
    requires
        tables_wf(acc),
        spec_catalog_fold(rows, i, acc) is Ok,
    ensures
        tables_wf(spec_catalog_fold(rows, i, acc).unwrap()),
    decreases rows.len() - i,
{
    if i < 0 || i >= rows.len() {
    } else {
        match spec_parse_catalog_record(rows[i].1) {
            Err(_) => {},
            Ok(CatRecM::Table(t)) => {
                lemma_add_table_wf(acc, t);
                lemma_catalog_fold_wf(rows, i + 1, spec_add_table(acc, t).unwrap());
            },
            Ok(CatRecM::Column(owner, c)) => {
                lemma_add_column_wf(acc, owner, c);
                lemma_catalog_fold_wf(rows, i + 1, spec_add_column(acc, owner, c).unwrap());
            },
        }
    }
}

/// A successfully built catalog is well-formed.
pub proof fn lemma_catalog_wf(data: Seq<u8>, ps: int, root: int)
    requires
        spec_catalog(data, ps, root) is Ok,
    ensures
        tables_wf(spec_catalog(data, ps, root).unwrap()),
{
    let rows = spec_leaves_sorted(data, ps, root, MAX_TREE_DEPTH as int).unwrap();
    lemma_catalog_fold_wf(rows, 0, Seq::empty());
}

/// Executable width of the fixed area of a well-formed column list.
pub fn fixed_size(cols: &Vec<ColumnMeta>) -> (r: usize)
    requires
        cols_wf(cols_view(cols@)),
    ensures
        r == spec_fixed_size(cols_view(cols@)),
        r <= 0x1000f,
{
    let ghost csm = cols_view(cols@);
    let n: usize = cols.len();
    let mut acc: usize = 0;
    let mut i: usize = 0;
    proof {
        assert(csm.take(0) =~= Seq::<ColM>::empty());
    }
    while i < n
        invariant
            i <= n,
            n == cols@.len(),
            csm == cols_view(cols@),
            cols_wf(csm),
            acc == spec_fixed_size(csm.take(i as int)),
            acc <= 0x1000f,
        decreases n - i,
    {
        proof {
            assert(csm.take(i + 1).drop_last() =~= csm.take(i as int));
            assert(csm.take(i + 1).last() == csm[i as int]);
            assert(csm[i as int] == cols@[i as int]@);
        }
        let w: usize = match cols[i].class {
            StorageClass::Fixed => {
                proof {
                    assert(cols@[i as int]@.off == spec_fixed_size(csm.take(i as int)));
                }
                width(cols[i].typ)
            },
            _ => 0,
        };
        acc = acc + w;
        i = i + 1;
    }
    proof {
        assert(csm.take(n as int) =~= csm);
    }
    acc
}

/// Builds the catalog from the rows of the catalog tree, validating as
/// [`spec_catalog_fold`] describes.
#[verifier::loop_isolation(false)]
pub fn build_catalog(rows: &Vec<LeafEntry>) -> (r: Result<Vec<TableMeta>, Error>)
    ensures
        ({
            let spec = spec_catalog_fold(leaf_entries_view(rows@), 0, Seq::empty());
            match r {
                Ok(v) => spec == Ok::<Seq<TableM>, Error>(tables_view(v@)),
                Err(e) => spec == Err::<Seq<TableM>, Error>(e),
            }
        }),
{
    let ghost rowsm = leaf_entries_view(rows@);
    let n: usize = rows.len();
    let mut acc: Vec<TableMeta> = Vec::new();
    let mut i: usize = 0;
    proof {
        assert(tables_view(acc@) =~= Seq::<TableM>::empty());
    }
    while i < n
        invariant
            i <= n,
            n == rows@.len(),
            rowsm == leaf_entries_view(rows@),
            tables_wf(tables_view(acc@)),
            spec_catalog_fold(rowsm, i as int, tables_view(acc@)) == spec_catalog_fold(
                rowsm,
                0,
                Seq::<TableM>::empty(),
            ),
        decreases n - i,
    {
        let ghost accm = tables_view(acc@);
        proof {
            assert(rowsm[i as int].1 == rows@[i as int].data@);
        }
        match parse_catalog_record(&rows[i].data) {
            Err(e) => {
                return Err(e);
            },
            Ok(CatRec::Table(t)) => {
                // reject a duplicate object id or name
                let mut k: usize = 0;
                let alen: usize = acc.len();
                while k < alen
                    invariant
                        k <= alen,
                        alen == acc@.len(),
                        accm == tables_view(acc@),
                        forall|m: int|
                            0 <= m < k ==> (#[trigger] accm[m]).objid != t@.objid && accm[m].name
                                != t@.name,
                        t@.objid == t.objid,
                        t@.name == t.name@,
                    decreases alen - k,
                {
                    proof {
                        assert(accm[k as int] == acc@[k as int]@);
                    }
                    if acc[k].objid == t.objid || bytes_eq(&acc[k].name, &t.name) {
                        proof {
                            assert(exists|m: int|
                                0 <= m < accm.len() && ((#[trigger] accm[m]).objid == t@.objid
                                    || accm[m].name == t@.name)) by {
                                assert(accm[k as int].objid == t@.objid || accm[k as int].name
                                    == t@.name);
                            }
                            assert(spec_add_table(accm, t@) == Err::<Seq<TableM>, Error>(
                                Error::Corrupt,
                            ));
                            assert(spec_catalog_fold(rowsm, i as int, accm) == Err::<
                                Seq<TableM>,
                                Error,
                            >(Error::Corrupt));
                        }
                        return Err(Error::Corrupt);
                    }
                    k = k + 1;
                }
                proof {
                    let added = spec_add_table(accm, t@);
                    assert(added == Ok::<Seq<TableM>, Error>(accm.push(t@)));
                    lemma_add_table_wf(accm, t@);
                    assert(tables_view(acc@.push(t)) =~= accm.push(t@));
                }
                acc.push(t);
            },
            Ok(CatRec::Column(owner, c)) => {
                // find the owning table
                let alen: usize = acc.len();
                let mut j: usize = 0;
                let mut found: bool = false;
                while j < alen && !found
                    invariant
                        j <= alen,
                        alen == acc@.len(),
                        accm == tables_view(acc@),
                        !found ==> forall|m: int| 0 <= m < j ==> (#[trigger] accm[m]).objid
                            != owner,
                        found ==> j < alen && accm[j as int].objid == owner,
                    decreases alen - j + (if found { 0int } else { 1int }),
                {
                    proof {
                        assert(accm[j as int] == acc@[j as int]@);
                    }
                    if acc[j].objid == owner {
                        found = true;
                    } else {
                        j = j + 1;
                    }
                }
                if !found {
                    proof {
                        assert(!(exists|m: int|
                            0 <= m < accm.len() && (#[trigger] accm[m]).objid == owner));
                        assert(spec_add_column(accm, owner, c@) == Err::<Seq<TableM>, Error>(
                            Error::Corrupt,
                        ));
                        assert(spec_catalog_fold(rowsm, i as int, accm) == Err::<
                            Seq<TableM>,
                            Error,
                        >(Error::Corrupt));
                    }
                    return Err(Error::Corrupt);
                }
                proof {
                    assert(exists|m: int|
                        0 <= m < accm.len() && (#[trigger] accm[m]).objid == owner) by {
                        assert(accm[j as int].objid == owner);
                    }
                    let jj = choose|jj: int|
                        0 <= jj < accm.len() && (#[trigger] accm[jj]).objid == owner;
                    assert(jj == j as int) by {
                        if jj != j as int {
                            assert(accm[jj].objid != accm[j as int].objid);
                        }
                    }
                }
                // reject a duplicate column name or id in the owner
                let clen: usize = acc[j].cols.len();
                let ghost tcolsm = accm[j as int].cols;
                let mut k: usize = 0;
                while k < clen
                    invariant
                        k <= clen,
                        j < acc@.len(),
                        clen == acc@[j as int].cols@.len(),
                        accm == tables_view(acc@),
                        tcolsm == accm[j as int].cols,
                        forall|m: int|
                            0 <= m < k ==> (#[trigger] tcolsm[m]).name != c@.name && tcolsm[m].id
                                != c@.id,
                        c@.name == c.name@,
                        c@.id == c.id,
                    decreases clen - k,
                {
                    proof {
                        assert(tcolsm[k as int] == acc@[j as int].cols@[k as int]@);
                    }
                    if acc[j].cols[k].id == c.id || bytes_eq(&acc[j].cols[k].name, &c.name) {
                        proof {
                            assert(exists|m: int|
                                0 <= m < accm.len() && (#[trigger] accm[m]).objid == owner) by {
                                assert(accm[j as int].objid == owner);
                            }
                            let jj = choose|jj: int|
                                0 <= jj < accm.len() && (#[trigger] accm[jj]).objid == owner;
                            assert(jj == j as int) by {
                                if jj != j as int {
                                    assert(accm[jj].objid != accm[j as int].objid);
                                }
                            }
                            assert(exists|m: int|
                                0 <= m < tcolsm.len() && ((#[trigger] tcolsm[m]).name == c@.name
                                    || tcolsm[m].id == c@.id)) by {
                                assert(tcolsm[k as int].name == c@.name || tcolsm[k as int].id
                                    == c@.id);
                            }
                            assert(spec_add_column(accm, owner, c@) == Err::<Seq<TableM>, Error>(
                                Error::Corrupt,
                            ));
                            assert(spec_catalog_fold(rowsm, i as int, accm) == Err::<
                                Seq<TableM>,
                                Error,
                            >(Error::Corrupt));
                        }
                        return Err(Error::Corrupt);
                    }
                    k = k + 1;
                }
                // a fixed column must pack at the declared offset
                proof {
                    assert(cols_wf(cols_view(acc@[j as int].cols@))) by {
                        assert(accm[j as int].cols == cols_view(acc@[j as int].cols@));
                    }
                }
                match c.class {
                    StorageClass::Fixed => {
                        let fs: usize = fixed_size(&acc[j].cols);
                        let w: usize = width(c.typ);
                        if w == 0 || (c.off as usize) != fs {
                            proof {
                                let jj = choose|jj: int|
                                    0 <= jj < accm.len() && (#[trigger] accm[jj]).objid == owner;
                                assert(jj == j as int) by {
                                    if jj != j as int {
                                        assert(accm[jj].objid != accm[j as int].objid);
                                    }
                                }
                                assert(!(spec_width(c@.typ) > 0 && c@.off == spec_fixed_size(
                                    tcolsm,
                                )));
                                assert(spec_add_column(accm, owner, c@) == Err::<
                                    Seq<TableM>,
                                    Error,
                                >(Error::Corrupt));
                                assert(spec_catalog_fold(rowsm, i as int, accm) == Err::<
                                    Seq<TableM>,
                                    Error,
                                >(Error::Corrupt));
                            }
                            return Err(Error::Corrupt);
                        }
                        proof {
                            assert(spec_width(c@.typ) > 0 && c@.off == spec_fixed_size(tcolsm));
                        }
                    },
                    _ => {},
                }
                let mut t = acc.remove(j);
                t.cols.push(c);
                acc.insert(j, t);
                proof {
                    assert(exists|m: int|
                        0 <= m < accm.len() && (#[trigger] accm[m]).objid == owner) by {
                        assert(accm[j as int].objid == owner);
                    }
                    let jj = choose|jj: int|
                        0 <= jj < accm.len() && (#[trigger] accm[jj]).objid == owner;
                    assert(jj == j as int) by {
                        if jj != j as int {
                            assert(accm[jj].objid != accm[j as int].objid);
                        }
                    }
                    let added = spec_add_column(accm, owner, c@);
                    let t2 = TableM {
                        objid: accm[j as int].objid,
                        root: accm[j as int].root,
                        lv_root: accm[j as int].lv_root,
                        name: accm[j as int].name,
                        cols: tcolsm.push(c@),
                    };
                    assert(added == Ok::<Seq<TableM>, Error>(accm.update(j as int, t2)));
                    lemma_add_column_wf(accm, owner, c@);
                    assert(tables_view(acc@) =~= accm.update(j as int, t2)) by {
                        assert forall|m: int| 0 <= m < acc@.len() implies tables_view(acc@)[m]
                            == accm.update(j as int, t2)[m] by {
                            if m == j as int {
                                assert(cols_view(acc@[m].cols@) =~= tcolsm.push(c@));
                            }
                        }
                    }
                }
            },
        }
        i = i + 1;
    }
    proof {
        assert(spec_catalog_fold(rowsm, n as int, tables_view(acc@)) == Ok::<Seq<TableM>, Error>(
            tables_view(acc@),
        ));
    }
    Ok(acc)
}

} // verus!
