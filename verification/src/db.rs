//! The database handle and the entities borrowed from it.
//!
//! [`EseDb::open`] validates the header of a database image, resolves the
//! catalog once, and hands out [`Table`], [`Column`], [`Record`],
//! [`LongValue`] and [`MultiValue`] views. Tables, records and values
//! borrow the handle and cannot outlive it; catalog metadata is immutable
//! after open. Every page access re-validates the page, so corruption is
//! met with [`Error::Corrupt`] at the traversal that touches it.

use crate::btree::{collect_leaves_sorted, spec_leaves_sorted, MAX_TREE_DEPTH};
use crate::catalog::{build_catalog, spec_catalog, tables_view, ColM, ColumnMeta, TableM, TableMeta};
use crate::error::Error;
use crate::record::{
    record_is_long, record_is_multi, record_long_ref, record_multi_items, record_value,
    spec_is_long, spec_is_multi, spec_long_ref, spec_multi_items, spec_record_value,
};
use crate::value::{
    ascii_chars, decode_prim, lemma_ascii_decode, lossy_utf8, res_view, spec_decode_prim,
    spec_value_of_type, utf8_lossy, ColType, Value,
};
use crate::wire::{be32_bytes, be32_vec, bytes_eq, copy_range, le32, read_le32};
use vstd::prelude::*;
use vstd::string::StrSliceExecFns;

verus! {

/// Magic number of a database image header.
pub const DB_MAGIC: u32 = 0x45534442;

/// The mathematical model of an open database.
pub struct DbM {
    pub data: Seq<u8>,
    pub page_size: u32,
    pub page_count: u32,
    pub catalog_root: u32,
    pub tables: Seq<TableM>,
}

/// Opens a database image: the header must carry the magic number, a page
/// size of 4, 8, 16 or 32 KiB, a page count matching the image length, and
/// a catalog root whose tree resolves to a well-formed catalog.
pub open spec fn spec_open(data: Seq<u8>) -> Result<DbM, Error> {
    if data.len() < 16 {
        Err(Error::Corrupt)
    } else {
        let ps = le32(data, 4);
        let pc = le32(data, 8);
        let root = le32(data, 12);
        if le32(data, 0) != DB_MAGIC {
            Err(Error::Corrupt)
        } else if !(ps == 4096 || ps == 8192 || ps == 16384 || ps == 32768) {
            Err(Error::Corrupt)
        } else if pc < 1 || data.len() != (pc as int) * (ps as int) {
            Err(Error::Corrupt)
        } else {
            match spec_catalog(data, ps as int, root as int) {
                Err(e) => Err(e),
                Ok(ts) => Ok(
                    DbM { data, page_size: ps, page_count: pc, catalog_root: root, tables: ts },
                ),
            }
        }
    }
}

/// The first table whose name is `nb`, or -1.
pub open spec fn spec_table_index(ts: Seq<TableM>, nb: Seq<u8>, k: int) -> int
    decreases ts.len() - k,
{
    if k < 0 || k >= ts.len() {
        -1
    } else if ts[k].name == nb {
        k
    } else {
        spec_table_index(ts, nb, k + 1)
    }
}

/// A loaded instance of a database image.
pub struct EseDb {
    data: Vec<u8>,
    page_size: u32,
    page_count: u32,
    catalog_root: u32,
    tables: Vec<TableMeta>,
}

impl View for EseDb {
    type V = DbM;

    closed spec fn view(&self) -> DbM {
        DbM {
            data: self.data@,
            page_size: self.page_size,
            page_count: self.page_count,
            catalog_root: self.catalog_root,
            tables: tables_view(self.tables@),
        }
    }
}

impl EseDb {
    #[verifier::type_invariant]
    spec fn inv(self) -> bool {
        spec_open(self.data@) == Ok::<DbM, Error>(self@)
    }

    /// Opens a database image held in memory, as [`spec_open`] describes.
    pub fn open(data: Vec<u8>) -> (r: Result<EseDb, Error>)
        ensures
            match r {
                Ok(db) => spec_open(data@) == Ok::<DbM, Error>(db@),
                Err(e) => spec_open(data@) == Err::<DbM, Error>(e),
            },
    {
        let dlen: usize = data.len();
        if dlen < 16 {
            return Err(Error::Corrupt);
        }
        let magic: u32 = read_le32(&data, 0);
        let ps: u32 = read_le32(&data, 4);
        let pc: u32 = read_le32(&data, 8);
        let root: u32 = read_le32(&data, 12);
        if magic != DB_MAGIC {
            return Err(Error::Corrupt);
        }
        if !(ps == 4096 || ps == 8192 || ps == 16384 || ps == 32768) {
            return Err(Error::Corrupt);
        }
        proof {
            assert((pc as int) * (ps as int) <= 0xffffffffint * 32768) by (nonlinear_arith)
                requires
                    pc <= 0xffffffffu32,
                    ps <= 32768,
            ;
        }
        if pc < 1 || (pc as u64) * (ps as u64) != dlen as u64 {
            proof {
                if pc >= 1 {
                    assert((pc as int) * (ps as int) == (pc as u64) * (ps as u64));
                }
            }
            return Err(Error::Corrupt);
        }
        proof {
            assert(data@.len() == (pc as int) * (ps as int));
        }
        let rows = match collect_leaves_sorted(&data, ps as usize, pc, root, MAX_TREE_DEPTH) {
            Err(e) => {
                return Err(e);
            },
            Ok(rows) => rows,
        };
        let tables = match build_catalog(&rows) {
            Err(e) => {
                return Err(e);
            },
            Ok(ts) => ts,
        };
        let db = EseDb { data, page_size: ps, page_count: pc, catalog_root: root, tables };
        proof {
            assert(spec_open(db.data@) == Ok::<DbM, Error>(db@));
        }
        Ok(db)
    }

    /// Total number of tables.
    pub fn count_tables(&self) -> (r: usize)
        ensures
            r == self@.tables.len(),
    {
        self.tables.len()
    }

    /// Loads a table by ordinal; the result borrows the database.
    pub fn table(&self, entry: usize) -> (r: Result<Table<'_>, Error>)
        ensures
            match r {
                Ok(t) => entry < self@.tables.len() && t@ == self@.tables[entry as int] && t.db_view()
                    == self@,
                Err(e) => entry >= self@.tables.len() && e == Error::NotFound,
            },
    {
        if entry >= self.tables.len() {
            return Err(Error::NotFound);
        }
        Ok(Table { db: self, idx: entry })
    }

    /// Loads a table by name; lookup is a case-sensitive exact match, as
    /// [`spec_table_index`] over the name's UTF-8 bytes describes.
    pub fn table_by_name(&self, name: &str) -> (r: Result<Table<'_>, Error>)
        ensures
            ({
                let k = spec_table_index(self@.tables, vstd::utf8::encode_utf8(name@), 0);
                match r {
                    Ok(t) => k >= 0 && t@ == self@.tables[k] && t.db_view() == self@,
                    Err(e) => k == -1 && e == Error::NotFound,
                }
            }),
    {
        let nb: Vec<u8> = name.as_bytes_vec();
        let ghost tsm = self@.tables;
        let n: usize = self.tables.len();
        let mut k: usize = 0;
        while k < n
            invariant
                k <= n,
                n == self.tables@.len(),
                tsm == self@.tables,
                nb@ == vstd::utf8::encode_utf8(name@),
                spec_table_index(tsm, nb@, 0) == spec_table_index(tsm, nb@, k as int),
            decreases n - k,
        {
            proof {
                assert(tsm[k as int] == self.tables@[k as int]@);
            }
            if bytes_eq(&self.tables[k].name, &nb) {
                return Ok(Table { db: self, idx: k });
            }
            k = k + 1;
        }
        Err(Error::NotFound)
    }

    /// A forward cursor over all tables.
    pub fn iter_tables<'a>(&'a self) -> (r: crate::iter::IterEntries<'a, EseDb, Table<'a>>)
        ensures
            r.handle_ref() == self,
            r.pos_view() == 0,
            r.max_view() == self@.tables.len(),
    {
        crate::iter::IterEntries::new(self, self.count_tables())
    }
}

/// An instance of a table in a currently open database.
pub struct Table<'a> {
    db: &'a EseDb,
    idx: usize,
}

impl<'a> View for Table<'a> {
    type V = TableM;

    closed spec fn view(&self) -> TableM {
        self.db@.tables[self.idx as int]
    }
}

impl<'a> Table<'a> {
    #[verifier::type_invariant]
    spec fn inv(self) -> bool {
        self.idx < self.db@.tables.len()
    }

    /// The model of the owning database.
    pub closed spec fn db_view(&self) -> DbM {
        self.db@
    }

    /// The table's name. The catalog guarantees printable ASCII names, so
    /// the decoding is exact and always succeeds.
    pub fn name(&self) -> (r: Result<String, Error>)
        ensures
            r matches Ok(s) && s@ == ascii_chars(self@.name),
    {
        proof {
            use_type_invariant(self);
            use_type_invariant(self.db);
            lemma_open_wf(self.db.data@);
            assert(crate::catalog::name_ok(self@.name));
            lemma_ascii_decode(self@.name);
            assert(self.db.tables@[self.idx as int]@.name == self@.name);
        }
        Ok(utf8_lossy(&self.db.tables[self.idx].name))
    }

    /// Total number of columns.
    pub fn count_columns(&self) -> (r: usize)
        ensures
            r == self@.cols.len(),
    {
        proof {
            use_type_invariant(self);
            assert(self.db.tables@[self.idx as int]@.cols == self@.cols);
        }
        self.db.tables[self.idx].cols.len()
    }

    /// Loads a column definition by ordinal.
    pub fn column(&self, entry: usize) -> (r: Result<Column, Error>)
        ensures
            match r {
                Ok(c) => entry < self@.cols.len() && c@ == self@.cols[entry as int],
                Err(e) => entry >= self@.cols.len() && e == Error::NotFound,
            },
    {
        proof {
            use_type_invariant(self);
            assert(self.db.tables@[self.idx as int]@.cols == self@.cols);
        }
        if entry >= self.db.tables[self.idx].cols.len() {
            return Err(Error::NotFound);
        }
        proof {
            assert(self.db.tables@[self.idx as int].cols@[entry as int]@ == self@.cols[entry as int]);
        }
        Ok(Column { meta: self.db.tables[self.idx].cols[entry].dup() })
    }

    /// Total number of records, counted by a full leaf traversal of the
    /// table's tree.
    pub fn count_records(&self) -> (r: Result<usize, Error>)
        ensures
            ({
                let ls = spec_leaves_sorted(
                    self.db_view().data,
                    self.db_view().page_size as int,
                    self@.root as int,
                    MAX_TREE_DEPTH as int,
                );
                match r {
                    Ok(n) => ls matches Ok(l) && n == l.len(),
                    Err(e) => ls == Err::<Seq<(Seq<u8>, Seq<u8>)>, Error>(e),
                }
            }),
    {
        proof {
            use_type_invariant(self);
            use_type_invariant(self.db);
            assert(self.db.tables@[self.idx as int]@ == self@);
        }
        match collect_leaves_sorted(
            &self.db.data,
            self.db.page_size as usize,
            self.db.page_count,
            self.db.tables[self.idx].root,
            MAX_TREE_DEPTH,
        ) {
            Err(e) => Err(e),
            Ok(ls) => Ok(ls.len()),
        }
    }

    /// Loads a record by ordinal: the `entry`-th leaf of the table's tree
    /// in ascending key order.
    pub fn record(&self, entry: usize) -> (r: Result<Record<'a>, Error>)
        ensures
            ({
                let ls = spec_leaves_sorted(
                    self.db_view().data,
                    self.db_view().page_size as int,
                    self@.root as int,
                    MAX_TREE_DEPTH as int,
                );
                match r {
                    Ok(rec) => ls matches Ok(l) && entry < l.len() && rec@ == l[entry as int].1
                        && rec.table_view() == self@ && rec.db_view() == self.db_view(),
                    Err(e) => match ls {
                        Ok(l) => entry >= l.len() && e == Error::NotFound,
                        Err(e2) => e == e2,
                    },
                }
            }),
    {
        proof {
            use_type_invariant(self);
            use_type_invariant(self.db);
            assert(self.db.tables@[self.idx as int]@ == self@);
        }
        let mut ls = match collect_leaves_sorted(
            &self.db.data,
            self.db.page_size as usize,
            self.db.page_count,
            self.db.tables[self.idx].root,
            MAX_TREE_DEPTH,
        ) {
            Err(e) => {
                return Err(e);
            },
            Ok(ls) => ls,
        };
        let ghost lsm = crate::page::leaf_entries_view(ls@);
        if entry >= ls.len() {
            return Err(Error::NotFound);
        }
        let e = ls.remove(entry);
        proof {
            assert(lsm[entry as int].1 == e.data@);
        }
        Ok(Record { db: self.db, tidx: self.idx, data: e.data })
    }

    /// A forward cursor over all columns.
    pub fn iter_columns(&self) -> (r: Result<crate::iter::IterEntries<'_, Table<'a>, Column>, Error>)
        ensures
            r matches Ok(it) && it.handle_ref() == self && it.pos_view() == 0 && it.max_view()
                == self@.cols.len(),
    {
        Ok(crate::iter::IterEntries::new(self, self.count_columns()))
    }

    /// A forward cursor over all records; counting the records traverses
    /// the tree once and surfaces any corruption immediately.
    pub fn iter_records(&self) -> (r: Result<
        crate::iter::IterEntries<'_, Table<'a>, Record<'a>>,
        Error,
    >)
        ensures
            ({
                let ls = spec_leaves_sorted(
                    self.db_view().data,
                    self.db_view().page_size as int,
                    self@.root as int,
                    MAX_TREE_DEPTH as int,
                );
                match r {
                    Ok(it) => ls matches Ok(l) && it.handle_ref() == self && it.pos_view() == 0
                        && it.max_view() == l.len(),
                    Err(e) => ls == Err::<Seq<(Seq<u8>, Seq<u8>)>, Error>(e),
                }
            }),
    {
        match self.count_records() {
            Err(e) => Err(e),
            Ok(n) => Ok(crate::iter::IterEntries::new(self, n)),
        }
    }

    /// When done reading, call this to drop the table view.
    pub fn close(self) {
    }
}

/// A column definition of a table in a currently open database.
pub struct Column {
    meta: ColumnMeta,
}

impl View for Column {
    type V = ColM;

    closed spec fn view(&self) -> ColM {
        self.meta@
    }
}

impl Column {
    /// The column's name. The catalog guarantees printable ASCII names, so
    /// the decoding is exact.
    pub fn name(&self) -> (r: Result<String, Error>)
        ensures
            crate::catalog::name_ok(self@.name) ==> (r matches Ok(s) && s@ == ascii_chars(
                self@.name,
            )),
            !crate::catalog::name_ok(self@.name) ==> r == Err::<String, Error>(Error::Encoding),
    {
        let n: usize = self.meta.name.len();
        if n < 1 || n > 255 {
            return Err(Error::Encoding);
        }
        let mut i: usize = 0;
        while i < n
            invariant
                i <= n,
                n == self.meta.name@.len(),
                forall|j: int| 0 <= j < i ==> 0x20 <= #[trigger] self.meta.name@[j] <= 0x7e,
            decreases n - i,
        {
            if self.meta.name[i] < 0x20 || self.meta.name[i] > 0x7e {
                return Err(Error::Encoding);
            }
            i = i + 1;
        }
        proof {
            lemma_ascii_decode(self@.name);
        }
        Ok(utf8_lossy(&self.meta.name))
    }

    /// The column's stable identifier.
    pub fn id(&self) -> (r: u32)
        ensures
            r == self@.id,
    {
        self.meta.id
    }

    /// An empty [`Value`] representing the type of the column's data.
    pub fn variant(&self) -> (r: Value)
        ensures
            r@ == spec_value_of_type(self@.typ),
    {
        Value::of_type(self.meta.typ)
    }

    /// When done reading, call this to drop the column definition.
    pub fn close(self) {
    }
}

/// One record (row) of a table in a currently open database.
pub struct Record<'a> {
    db: &'a EseDb,
    tidx: usize,
    data: Vec<u8>,
}

impl<'a> View for Record<'a> {
    type V = Seq<u8>;

    closed spec fn view(&self) -> Seq<u8> {
        self.data@
    }
}

impl<'a> Record<'a> {
    #[verifier::type_invariant]
    spec fn inv(self) -> bool {
        self.tidx < self.db@.tables.len()
    }

    /// The model of the owning database.
    pub closed spec fn db_view(&self) -> DbM {
        self.db@
    }

    /// The model of the owning table.
    pub closed spec fn table_view(&self) -> TableM {
        self.db@.tables[self.tidx as int]
    }

    /// The value of the column at `entry`, as [`spec_record_value`]
    /// describes; a tagged column the record's tag table omits decodes to
    /// `Value::Null`, distinct from a present-but-empty value.
    pub fn value(&self, entry: usize) -> (r: Result<Value, Error>)
        ensures
            res_view(r) == spec_record_value(self.table_view().cols, self@, entry as int),
    {
        proof {
            use_type_invariant(self);
            use_type_invariant(self.db);
            lemma_open_wf(self.db.data@);
            assert(self.db.tables@[self.tidx as int]@ == self.table_view());
            assert(crate::catalog::cols_wf(self.table_view().cols));
        }
        record_value(&self.db.tables[self.tidx].cols, &self.data, entry)
    }

    /// Whether the column at `entry` holds a long-value reference.
    pub fn is_long(&self, entry: usize) -> (r: Result<bool, Error>)
        ensures
            r == spec_is_long(self.table_view().cols, self@, entry as int),
    {
        proof {
            use_type_invariant(self);
            use_type_invariant(self.db);
            lemma_open_wf(self.db.data@);
            assert(self.db.tables@[self.tidx as int]@ == self.table_view());
            assert(crate::catalog::cols_wf(self.table_view().cols));
        }
        record_is_long(&self.db.tables[self.tidx].cols, &self.data, entry)
    }

    /// Whether the column at `entry` holds a multi-value collection.
    pub fn is_multi(&self, entry: usize) -> (r: Result<bool, Error>)
        ensures
            r == spec_is_multi(self.table_view().cols, self@, entry as int),
    {
        proof {
            use_type_invariant(self);
            use_type_invariant(self.db);
            lemma_open_wf(self.db.data@);
            assert(self.db.tables@[self.tidx as int]@ == self.table_view());
            assert(crate::catalog::cols_wf(self.table_view().cols));
        }
        record_is_multi(&self.db.tables[self.tidx].cols, &self.data, entry)
    }

    /// Total number of values: one per column of the owning table.
    pub fn count_values(&self) -> (r: usize)
        ensures
            r == self.table_view().cols.len(),
    {
        proof {
            use_type_invariant(self);
            assert(self.db.tables@[self.tidx as int]@.cols == self.table_view().cols);
        }
        self.db.tables[self.tidx].cols.len()
    }

    /// A forward cursor over all values of the record.
    pub fn iter_values(&self) -> (r: Result<
        crate::iter::IterEntries<'_, Record<'a>, Value>,
        Error,
    >)
        ensures
            r matches Ok(it) && it.handle_ref() == self && it.pos_view() == 0 && it.max_view()
                == self.table_view().cols.len(),
    {
        Ok(crate::iter::IterEntries::new(self, self.count_values()))
    }

    /// Resolves the long value referenced by the column at `entry`:
    /// collects its segments from the table's long-value tree in segment
    /// order, as [`spec_long_value`] describes.
    #[verifier::loop_isolation(false)]
    pub fn long(&self, entry: usize) -> (r: Result<LongValue, Error>)
        ensures
            ({
                let spec = spec_long_value(
                    self.db_view(),
                    self.table_view(),
                    self@,
                    entry as int,
                );
                match r {
                    Ok(lv) => spec matches Ok(m) && lv@ == m,
                    Err(e) => spec == Err::<LvM, Error>(e),
                }
            }),
    {
        proof {
            use_type_invariant(self);
            use_type_invariant(self.db);
            lemma_open_wf(self.db.data@);
            assert(self.db.tables@[self.tidx as int]@ == self.table_view());
            assert(crate::catalog::cols_wf(self.table_view().cols));
        }
        let (key, total) = match record_long_ref(&self.db.tables[self.tidx].cols, &self.data, entry)
            {
            Err(e) => {
                return Err(e);
            },
            Ok(kt) => kt,
        };
        let lv_root: u32 = self.db.tables[self.tidx].lv_root;
        if lv_root == 0 {
            return Err(Error::Corrupt);
        }
        let ls = match collect_leaves_sorted(
            &self.db.data,
            self.db.page_size as usize,
            self.db.page_count,
            lv_root,
            MAX_TREE_DEPTH,
        ) {
            Err(e) => {
                return Err(e);
            },
            Ok(ls) => ls,
        };
        let prefix: Vec<u8> = be32_vec(key);
        let n: usize = ls.len();
        let mut segments: Vec<Vec<u8>> = Vec::new();
        let mut i: usize = 0;
        let ghost lsm = crate::page::leaf_entries_view(ls@);
        proof {
            assert(segments@.map_values(|s: Vec<u8>| s@) =~= spec_lv_filter_from(
                lsm,
                key,
                n as int,
            ));
        }
        // walk backward so the filter recursion and the loop agree
        while i < n
            invariant
                i <= n,
                n == ls@.len(),
                lsm == crate::page::leaf_entries_view(ls@),
                prefix@ == be32_bytes(key),
                segments@.map_values(|s: Vec<u8>| s@) =~= spec_lv_filter_from(
                    lsm,
                    key,
                    n - i,
                ),
            decreases n - i,
        {
            let ghost prev = segments@.map_values(|s: Vec<u8>| s@);
            let j: usize = n - 1 - i;
            proof {
                assert(lsm[j as int].0 == ls@[j as int].key@);
                assert(lsm[j as int].1 == ls@[j as int].data@);
            }
            let klen: usize = ls[j].key.len();
            let mut matched: bool = false;
            if klen >= 4 {
                let kp = copy_range(&ls[j].key, 0, 4);
                proof {
                    assert(kp@ =~= lsm[j as int].0.subrange(0, 4));
                }
                if bytes_eq(&kp, &prefix) {
                    matched = true;
                    let dlen: usize = ls[j].data.len();
                    let seg = copy_range(&ls[j].data, 0, dlen);
                    proof {
                        assert(seg@ =~= lsm[j as int].1);
                    }
                    segments.insert(0, seg);
                    proof {
                        assert(segments@.map_values(|s: Vec<u8>| s@) =~= seq![lsm[j as int].1]
                            + prev);
                    }
                }
            }
            i = i + 1;
            proof {
                assert(segments@.map_values(|s: Vec<u8>| s@) =~= spec_lv_filter_from(
                    lsm,
                    key,
                    n - i,
                ));
            }
        }
        let ghost colsm = self.table_view().cols;
        proof {
            assert(colsm[entry as int].typ == self.db.tables@[self.tidx as int].cols@[entry as int]@.typ);
        }
        let typ: ColType = self.db.tables[self.tidx].cols[entry].typ;
        Ok(LongValue { typ, total, segments })
    }

    /// Opens the multi-value collection held by the column at `entry`,
    /// validating that every item decodes under the column's type, so that
    /// ordinal access afterwards cannot fail below the count.
    #[verifier::loop_isolation(false)]
    pub fn multi(&self, entry: usize) -> (r: Result<MultiValue, Error>)
        ensures
            ({
                let spec = spec_multi_value(self.table_view().cols, self@, entry as int);
                match r {
                    Ok(mv) => spec matches Ok(m) && mv@ == m,
                    Err(e) => spec == Err::<MvM, Error>(e),
                }
            }),
    {
        proof {
            use_type_invariant(self);
            use_type_invariant(self.db);
            lemma_open_wf(self.db.data@);
            assert(self.db.tables@[self.tidx as int]@ == self.table_view());
            assert(crate::catalog::cols_wf(self.table_view().cols));
        }
        let ghost colsm = self.table_view().cols;
        let items = match record_multi_items(&self.db.tables[self.tidx].cols, &self.data, entry) {
            Err(e) => {
                return Err(e);
            },
            Ok(items) => items,
        };
        proof {
            assert(colsm[entry as int].typ == self.db.tables@[self.tidx as int].cols@[entry as int]@.typ);
        }
        let typ: ColType = self.db.tables[self.tidx].cols[entry].typ;
        // every item must decode under the declared type
        let n: usize = items.len();
        let ghost itemsm = items@.map_values(|x: Vec<u8>| x@);
        let mut k: usize = 0;
        while k < n
            invariant
                k <= n,
                n == items@.len(),
                itemsm == items@.map_values(|x: Vec<u8>| x@),
                forall|m: int|
                    0 <= m < k ==> spec_decode_prim(typ, #[trigger] itemsm[m]) is Ok,
            decreases n - k,
        {
            let ilen: usize = items[k].len();
            let item = copy_range(&items[k], 0, ilen);
            proof {
                assert(item@ =~= itemsm[k as int]);
            }
            match decode_prim(typ, item) {
                Err(_) => {
                    return Err(Error::Corrupt);
                },
                Ok(_) => {},
            }
            k = k + 1;
        }
        Ok(MultiValue { typ, items })
    }

    /// When done reading, call this to drop the record.
    pub fn close(self) {
    }

}

/// Catalog completeness: in an opened database every table's columns,
/// taken by ordinal up to the column count, carry pairwise distinct names
/// — as byte sequences and as the strings the column accessor decodes
/// them to — so the set of names matches the count.
pub proof fn lemma_column_names_distinct(data: Seq<u8>, ti: int, i: int, j: int)
    requires
        spec_open(data) is Ok,
        0 <= ti < spec_open(data).unwrap().tables.len(),
        0 <= i < j < spec_open(data).unwrap().tables[ti].cols.len(),
    ensures
        spec_open(data).unwrap().tables[ti].cols[i].name != spec_open(
            data,
        ).unwrap().tables[ti].cols[j].name,
        ascii_chars(spec_open(data).unwrap().tables[ti].cols[i].name) != ascii_chars(
            spec_open(data).unwrap().tables[ti].cols[j].name,
        ),
{
    lemma_open_wf(data);
    let cols = spec_open(data).unwrap().tables[ti].cols;
    assert(cols[i].name != cols[j].name);
    if ascii_chars(cols[i].name) == ascii_chars(cols[j].name) {
        crate::value::lemma_ascii_chars_injective(cols[i].name, cols[j].name);
    }
}

/// Table names are likewise pairwise distinct in an opened database, so a
/// name identifies at most one table.
pub proof fn lemma_table_names_distinct(data: Seq<u8>, i: int, j: int)
    requires
        spec_open(data) is Ok,
        0 <= i < j < spec_open(data).unwrap().tables.len(),
    ensures
        spec_open(data).unwrap().tables[i].name != spec_open(data).unwrap().tables[j].name,
{
    lemma_open_wf(data);
}

/// A successfully opened database has a well-formed catalog.
pub proof fn lemma_open_wf(data: Seq<u8>)
    requires
        spec_open(data) is Ok,
    ensures
        crate::catalog::tables_wf(spec_open(data).unwrap().tables),
{
    crate::catalog::lemma_catalog_wf(data, le32(data, 4) as int, le32(data, 12) as int);
}

/// The segments contributed by `ls[j..]`: every leaf whose key begins
/// with the big-endian bytes of `key` contributes its payload, in
/// traversal order.
pub open spec fn spec_lv_filter_from(ls: Seq<(Seq<u8>, Seq<u8>)>, key: u32, j: int) -> Seq<Seq<u8>>
    decreases ls.len() - j,
{
    if j < 0 || j >= ls.len() {
        Seq::empty()
    } else {
        let rest = spec_lv_filter_from(ls, key, j + 1);
        if ls[j].0.len() >= 4 && ls[j].0.subrange(0, 4) == be32_bytes(key) {
            seq![ls[j].1] + rest
        } else {
            rest
        }
    }
}

/// Long-value segments assemble in increasing segment-index order: in an
/// order-validated leaf sequence, two entries keyed by the same long-value
/// key carry strictly ascending big-endian segment indices, so the filter
/// that collects them concatenates the segments in index order.
pub proof fn lemma_lv_segments_in_index_order(
    ls: Seq<(Seq<u8>, Seq<u8>)>,
    key: u32,
    i: int,
    j: int,
    xi: u32,
    xj: u32,
)
    requires
        crate::page::leaf_sorted(ls),
        0 <= i < j < ls.len(),
        ls[i].0 == be32_bytes(key) + be32_bytes(xi),
        ls[j].0 == be32_bytes(key) + be32_bytes(xj),
    ensures
        xi < xj,
{
    crate::page::lemma_leaf_sorted_total(ls, i, j);
    crate::page::lemma_key_lt_common_prefix(be32_bytes(key), be32_bytes(xi), be32_bytes(xj));
    crate::page::lemma_be32_order(xi, xj);
}

/// The model of a resolved long value.
pub struct LvM {
    pub typ: ColType,
    pub total: u32,
    pub segments: Seq<Seq<u8>>,
}

/// Resolving a long value: the column must hold a long-value reference,
/// the table must have a long-value tree, and the segments are the
/// tree's leaves keyed by the reference, in order.
pub open spec fn spec_long_value(db: DbM, t: TableM, rec: Seq<u8>, i: int) -> Result<LvM, Error> {
    match spec_long_ref(t.cols, rec, i) {
        Err(e) => Err(e),
        Ok((key, total)) => {
            if t.lv_root == 0 {
                Err(Error::Corrupt)
            } else {
                match spec_leaves_sorted(db.data, db.page_size as int, t.lv_root as int, MAX_TREE_DEPTH as int) {
                    Err(e) => Err(e),
                    Ok(ls) => Ok(
                        LvM { typ: t.cols[i].typ, total, segments: spec_lv_filter_from(ls, key, 0) },
                    ),
                }
            }
        },
    }
}

/// The model of an opened multi-value collection.
pub struct MvM {
    pub typ: ColType,
    pub items: Seq<Seq<u8>>,
}

/// Opening a multi-value: the column must hold a multi-value collection,
/// its items must parse, and every item must decode under the column's
/// type.
pub open spec fn spec_multi_value(cols: Seq<ColM>, rec: Seq<u8>, i: int) -> Result<MvM, Error> {
    match spec_multi_items(cols, rec, i) {
        Err(e) => Err(e),
        Ok(items) => {
            if forall|m: int| 0 <= m < items.len() ==> spec_decode_prim(cols[i].typ, #[trigger] items[m]) is Ok {
                Ok(MvM { typ: cols[i].typ, items })
            } else {
                Err(Error::Corrupt)
            }
        },
    }
}

/// A long value: a column value stored out-of-line in the table's
/// long-value tree, reassembled from segments.
pub struct LongValue {
    typ: ColType,
    total: u32,
    segments: Vec<Vec<u8>>,
}

impl View for LongValue {
    type V = LvM;

    closed spec fn view(&self) -> LvM {
        LvM {
            typ: self.typ,
            total: self.total,
            segments: self.segments@.map_values(|s: Vec<u8>| s@),
        }
    }
}

/// The concatenation of a sequence of byte sequences.
pub open spec fn spec_concat(ss: Seq<Seq<u8>>) -> Seq<u8>
    decreases ss.len(),
{
    if ss.len() == 0 {
        Seq::empty()
    } else {
        spec_concat(ss.drop_last()) + ss.last()
    }
}

/// A byte sequence with one trailing NUL removed, if it carries one.
pub open spec fn spec_strip_nul(b: Seq<u8>) -> Seq<u8> {
    if b.len() > 0 && b.last() == 0 {
        b.drop_last()
    } else {
        b
    }
}

impl LongValue {
    /// An empty [`Value`] representing the type of the column's data.
    pub fn variant(&self) -> (r: Value)
        ensures
            r@ == spec_value_of_type(self@.typ),
    {
        Value::of_type(self.typ)
    }

    /// The number of segments the value is chunked into; a storage
    /// artifact, not visible in the assembled bytes.
    pub fn count_segments(&self) -> (r: usize)
        ensures
            r == self@.segments.len(),
    {
        self.segments.len()
    }

    /// One segment's bytes, by segment ordinal.
    pub fn segment(&self, entry: usize) -> (r: Result<Vec<u8>, Error>)
        ensures
            match r {
                Ok(v) => entry < self@.segments.len() && v@ == self@.segments[entry as int],
                Err(e) => entry >= self@.segments.len() && e == Error::NotFound,
            },
    {
        if entry >= self.segments.len() {
            return Err(Error::NotFound);
        }
        let slen: usize = self.segments[entry].len();
        let seg = copy_range(&self.segments[entry], 0, slen);
        proof {
            assert(seg@ =~= self@.segments[entry as int]);
        }
        Ok(seg)
    }

    /// A forward cursor over the segments.
    pub fn iter_segments(&self) -> (r: Result<
        crate::iter::IterEntries<'_, LongValue, Vec<u8>>,
        Error,
    >)
        ensures
            r matches Ok(it) && it.handle_ref() == self && it.pos_view() == 0 && it.max_view()
                == self@.segments.len(),
    {
        Ok(crate::iter::IterEntries::new(self, self.segments.len()))
    }

    /// The assembled value: the concatenation of the segments, whose
    /// length must equal the declared total size exactly, however many
    /// segments the value was chunked into.
    pub fn vec(&self) -> (r: Result<Vec<u8>, Error>)
        ensures
            ({
                let cat = spec_concat(self@.segments);
                match r {
                    Ok(v) => v@ == cat && cat.len() == self@.total,
                    Err(e) => cat.len() != self@.total && e == Error::Corrupt,
                }
            }),
    {
        let ghost segm = self@.segments;
        let n: usize = self.segments.len();
        let mut out: Vec<u8> = Vec::new();
        let mut i: usize = 0;
        proof {
            assert(out@ =~= spec_concat(segm.take(0)));
        }
        while i < n
            invariant
                i <= n,
                n == self.segments@.len(),
                segm == self@.segments,
                out@ =~= spec_concat(segm.take(i as int)),
            decreases n - i,
        {
            let slen: usize = self.segments[i].len();
            let mut seg = copy_range(&self.segments[i], 0, slen);
            proof {
                assert(segm.take(i + 1).drop_last() =~= segm.take(i as int));
                assert(segm.take(i + 1).last() == segm[i as int]);
                assert(seg@ =~= segm[i as int]);
            }
            out.append(&mut seg);
            i = i + 1;
        }
        proof {
            assert(segm.take(n as int) =~= segm);
        }
        if out.len() as u64 != self.total as u64 {
            return Err(Error::Corrupt);
        }
        Ok(out)
    }

    /// The assembled value as text: UTF-8, decoded lossily, with one
    /// trailing NUL terminator stripped.
    pub fn utf8(&self) -> (r: Result<String, Error>)
        ensures
            ({
                let cat = spec_concat(self@.segments);
                match r {
                    Ok(s) => s@ == lossy_utf8(spec_strip_nul(cat)) && cat.len() == self@.total,
                    Err(e) => cat.len() != self@.total && e == Error::Corrupt,
                }
            }),
    {
        let mut v = match self.vec() {
            Err(e) => {
                return Err(e);
            },
            Ok(v) => v,
        };
        let vlen: usize = v.len();
        if vlen > 0 && v[vlen - 1] == 0 {
            v.pop();
            proof {
                assert(v@ =~= spec_strip_nul(spec_concat(self@.segments)));
            }
        }
        Ok(crate::value::utf8_lossy(&v))
    }
}

/// A multi-value: one tagged column holding several values, addressed by
/// ordinal.
pub struct MultiValue {
    typ: ColType,
    items: Vec<Vec<u8>>,
}

impl View for MultiValue {
    type V = MvM;

    closed spec fn view(&self) -> MvM {
        MvM { typ: self.typ, items: self.items@.map_values(|s: Vec<u8>| s@) }
    }
}

impl MultiValue {
    #[verifier::type_invariant]
    spec fn inv(self) -> bool {
        forall|m: int|
            0 <= m < self@.items.len() ==> spec_decode_prim(self@.typ, #[trigger] self@.items[m])
                is Ok
    }

    /// An empty [`Value`] representing the type of the column's data.
    pub fn variant(&self) -> (r: Value)
        ensures
            r@ == spec_value_of_type(self@.typ),
    {
        Value::of_type(self.typ)
    }

    /// The number of values the column holds.
    pub fn count_values(&self) -> (r: usize)
        ensures
            r == self@.items.len(),
    {
        self.items.len()
    }

    /// The `entry`-th value: defined for every ordinal below the count,
    /// and `NotFound` — never a panic — at or beyond it.
    pub fn value(&self, entry: usize) -> (r: Result<Value, Error>)
        ensures
            entry < self@.items.len() ==> r is Ok && res_view(r) == spec_decode_prim(
                self@.typ,
                self@.items[entry as int],
            ),
            entry >= self@.items.len() ==> r == Err::<Value, Error>(Error::NotFound),
    {
        proof {
            use_type_invariant(self);
        }
        if entry >= self.items.len() {
            return Err(Error::NotFound);
        }
        let ilen: usize = self.items[entry].len();
        let item = copy_range(&self.items[entry], 0, ilen);
        proof {
            assert(item@ =~= self@.items[entry as int]);
        }
        decode_prim(self.typ, item)
    }

    /// A forward cursor over the values.
    pub fn iter_values(&self) -> (r: Result<
        crate::iter::IterEntries<'_, MultiValue, Value>,
        Error,
    >)
        ensures
            r matches Ok(it) && it.handle_ref() == self && it.pos_view() == 0 && it.max_view()
                == self@.items.len(),
    {
        Ok(crate::iter::IterEntries::new(self, self.items.len()))
    }
}

impl<'h> crate::iter::LoadEntry<'h, EseDb> for Table<'h> {
    open spec fn load_rel(handle: &'h EseDb, entry: int, r: Result<Table<'h>, Error>) -> bool {
        match r {
            Ok(t) => 0 <= entry < handle@.tables.len() && t@ == handle@.tables[entry]
                && t.db_view() == handle@,
            Err(e) => entry >= handle@.tables.len() && e == Error::NotFound,
        }
    }

    fn load(handle: &'h EseDb, entry: usize) -> Result<Self, Error> {
        handle.table(entry)
    }
}

impl<'h, 'a> crate::iter::LoadEntry<'h, Table<'a>> for Column {
    open spec fn load_rel(handle: &'h Table<'a>, entry: int, r: Result<Column, Error>) -> bool {
        match r {
            Ok(c) => 0 <= entry < handle@.cols.len() && c@ == handle@.cols[entry],
            Err(e) => entry >= handle@.cols.len() && e == Error::NotFound,
        }
    }

    fn load(handle: &'h Table<'a>, entry: usize) -> Result<Self, Error> {
        handle.column(entry)
    }
}

impl<'h, 'a> crate::iter::LoadEntry<'h, Table<'a>> for Record<'a> {
    open spec fn load_rel(handle: &'h Table<'a>, entry: int, r: Result<Record<'a>, Error>) -> bool {
        let ls = spec_leaves_sorted(
            handle.db_view().data,
            handle.db_view().page_size as int,
            handle@.root as int,
            MAX_TREE_DEPTH as int,
        );
        match r {
            Ok(rec) => ls matches Ok(l) && 0 <= entry < l.len() && rec@ == l[entry].1
                && rec.table_view() == handle@ && rec.db_view() == handle.db_view(),
            Err(e) => match ls {
                Ok(l) => entry >= l.len() && e == Error::NotFound,
                Err(e2) => e == e2,
            },
        }
    }

    fn load(handle: &'h Table<'a>, entry: usize) -> Result<Self, Error> {
        handle.record(entry)
    }
}

impl<'h, 'a> crate::iter::LoadEntry<'h, Record<'a>> for Value {
    open spec fn load_rel(handle: &'h Record<'a>, entry: int, r: Result<Value, Error>) -> bool {
        res_view(r) == spec_record_value(handle.table_view().cols, handle@, entry)
    }

    fn load(handle: &'h Record<'a>, entry: usize) -> Result<Self, Error> {
        handle.value(entry)
    }
}

impl<'h> crate::iter::LoadEntry<'h, LongValue> for Vec<u8> {
    open spec fn load_rel(handle: &'h LongValue, entry: int, r: Result<Vec<u8>, Error>) -> bool {
        match r {
            Ok(v) => 0 <= entry < handle@.segments.len() && v@ == handle@.segments[entry],
            Err(e) => entry >= handle@.segments.len() && e == Error::NotFound,
        }
    }

    fn load(handle: &'h LongValue, entry: usize) -> Result<Self, Error> {
        handle.segment(entry)
    }
}

impl<'h> crate::iter::LoadEntry<'h, MultiValue> for Value {
    open spec fn load_rel(handle: &'h MultiValue, entry: int, r: Result<Value, Error>) -> bool {
        &&& 0 <= entry < handle@.items.len() ==> r is Ok && res_view(r) == spec_decode_prim(
            handle@.typ,
            handle@.items[entry],
        )
        &&& entry >= handle@.items.len() ==> r == Err::<Value, Error>(Error::NotFound)
    }

    fn load(handle: &'h MultiValue, entry: usize) -> Result<Self, Error> {
        handle.value(entry)
    }
}

} // verus!
