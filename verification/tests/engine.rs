use esedb::db::EseDb;
use esedb::error::Error;
use esedb::value::Value;

const PS: usize = 4096;
const MAGIC: u32 = 0x45534442;

fn le16v(x: u16) -> Vec<u8> {
    x.to_le_bytes().to_vec()
}

fn le32v(x: u32) -> Vec<u8> {
    x.to_le_bytes().to_vec()
}

fn be32v(x: u32) -> Vec<u8> {
    x.to_be_bytes().to_vec()
}

fn finish_page(mut p: Vec<u8>, pn: u32) -> Vec<u8> {
    p[4..8].copy_from_slice(&pn.to_le_bytes());
    let sum: u32 = p[8..].iter().map(|&b| b as u32).sum();
    p[0..4].copy_from_slice(&sum.to_le_bytes());
    p
}

fn leaf_page(pn: u32, entries: &[(Vec<u8>, Vec<u8>)]) -> Vec<u8> {
    let mut p = vec![0u8; PS];
    p[8] = 1;
    p[10..12].copy_from_slice(&(entries.len() as u16).to_le_bytes());
    let mut off = 12;
    for (k, d) in entries {
        p[off..off + 2].copy_from_slice(&(k.len() as u16).to_le_bytes());
        off += 2;
        p[off..off + k.len()].copy_from_slice(k);
        off += k.len();
        p[off..off + 2].copy_from_slice(&(d.len() as u16).to_le_bytes());
        off += 2;
        p[off..off + d.len()].copy_from_slice(d);
        off += d.len();
    }
    finish_page(p, pn)
}

fn branch_page(pn: u32, entries: &[(Vec<u8>, u32)]) -> Vec<u8> {
    let mut p = vec![0u8; PS];
    p[8] = 2;
    p[10..12].copy_from_slice(&(entries.len() as u16).to_le_bytes());
    let mut off = 12;
    for (k, child) in entries {
        p[off..off + 2].copy_from_slice(&(k.len() as u16).to_le_bytes());
        off += 2;
        p[off..off + k.len()].copy_from_slice(k);
        off += k.len();
        p[off..off + 4].copy_from_slice(&child.to_le_bytes());
        off += 4;
    }
    finish_page(p, pn)
}

fn db_image(pages: Vec<Vec<u8>>, catalog_root: u32) -> Vec<u8> {
    let count = pages.len() as u32 + 1;
    let mut img = vec![0u8; PS];
    img[0..4].copy_from_slice(&MAGIC.to_le_bytes());
    img[4..8].copy_from_slice(&(PS as u32).to_le_bytes());
    img[8..12].copy_from_slice(&count.to_le_bytes());
    img[12..16].copy_from_slice(&catalog_root.to_le_bytes());
    for p in pages {
        img.extend_from_slice(&p);
    }
    img
}

fn cat_table(objid: u32, root: u32, lv_root: u32, name: &str) -> Vec<u8> {
    let mut d = vec![1u8];
    d.extend(le32v(objid));
    d.extend(le32v(root));
    d.extend(le32v(lv_root));
    d.extend(le16v(name.len() as u16));
    d.extend(name.as_bytes());
    d
}

fn cat_column(owner: u32, id: u32, typ: u8, class: u8, off: u16, name: &str) -> Vec<u8> {
    let mut d = vec![2u8];
    d.extend(le32v(owner));
    d.extend(le32v(id));
    d.push(typ);
    d.push(class);
    d.extend(le16v(off));
    d.extend(le16v(name.len() as u16));
    d.extend(name.as_bytes());
    d
}

fn record_bytes(
    last_fixed: u8,
    fixed: &[u8],
    var_ends: &[u16],
    var_data: &[u8],
    tags: &[(u32, u16, u8)],
    tag_data: &[u8],
) -> Vec<u8> {
    let mut d = vec![last_fixed, var_ends.len() as u8];
    d.extend(le16v(tags.len() as u16));
    d.extend_from_slice(fixed);
    for &e in var_ends {
        d.extend(le16v(e));
    }
    d.extend_from_slice(var_data);
    for &(t, o, f) in tags {
        d.extend(le32v(t));
        d.extend(le16v(o));
        d.push(f);
    }
    d.extend_from_slice(tag_data);
    d
}

// column type codes
const T_I32: u8 = 4;
const T_U8: u8 = 2;
const T_BINARY: u8 = 9;
const T_TEXT: u8 = 10;
const T_LARGE_BINARY: u8 = 11;
// storage classes
const C_FIXED: u8 = 0;
const C_VAR: u8 = 1;
const C_TAGGED: u8 = 2;

/// One table `T` with a fixed i32 `id`, a variable text `name`, a tagged
/// long `blob`, a tagged `note`, and a tagged multi-valued `nums`; two
/// records `(1, "alice")` and `(2, "bob")`; a long-value tree with two
/// segments spelling "hello!"; and a second table `U` under a branch root.
fn fixture() -> Vec<u8> {
    let catalog = leaf_page(
        1,
        &[
            (b"01".to_vec(), cat_table(1, 2, 3, "T")),
            (b"02".to_vec(), cat_column(1, 1, T_I32, C_FIXED, 0, "id")),
            (b"03".to_vec(), cat_column(1, 2, T_TEXT, C_VAR, 0, "name")),
            (
                b"04".to_vec(),
                cat_column(1, 256, T_LARGE_BINARY, C_TAGGED, 0, "blob"),
            ),
            (b"05".to_vec(), cat_column(1, 300, T_BINARY, C_TAGGED, 0, "note")),
            (b"06".to_vec(), cat_column(1, 400, T_U8, C_TAGGED, 0, "nums")),
            (b"07".to_vec(), cat_table(2, 4, 0, "U")),
            (b"08".to_vec(), cat_column(2, 1, T_I32, C_FIXED, 0, "id")),
        ],
    );

    // record 1 carries a long-value reference (key 7, total 6), an empty
    // note, and a multi-value of three bytes
    let mut tag_data = Vec::new();
    tag_data.extend(le32v(7)); // long-value key
    tag_data.extend(le32v(6)); // declared total size
    let mut multi = Vec::new();
    multi.extend(le16v(3));
    multi.extend(le16v(1));
    multi.extend(le16v(2));
    multi.extend(le16v(3));
    multi.extend_from_slice(&[10, 20, 30]);
    tag_data.extend_from_slice(&multi);
    let rec1 = record_bytes(
        1,
        &1i32.to_le_bytes(),
        &[5],
        b"alice",
        &[(256, 0, 1), (300, 8, 0), (400, 8, 2)],
        &tag_data,
    );
    let rec2 = record_bytes(1, &2i32.to_le_bytes(), &[3], b"bob", &[], b"");
    let t_leaf = leaf_page(2, &[(b"a".to_vec(), rec1), (b"b".to_vec(), rec2)]);

    // long-value tree: two segments of key 7, one unrelated key
    let mut k70 = be32v(7);
    k70.extend(be32v(0));
    let mut k71 = be32v(7);
    k71.extend(be32v(1));
    let mut k80 = be32v(8);
    k80.extend(be32v(0));
    let lv_leaf = leaf_page(
        3,
        &[
            (k70, b"hell".to_vec()),
            (k71, b"o!".to_vec()),
            (k80, b"other".to_vec()),
        ],
    );

    // table U: a branch root over two leaves
    let u_branch = branch_page(4, &[(b"m".to_vec(), 5), (b"z".to_vec(), 6)]);
    let u_rec = |v: i32| record_bytes(1, &v.to_le_bytes(), &[], b"", &[], b"");
    let u_leaf1 = leaf_page(
        5,
        &[(b"c".to_vec(), u_rec(10)), (b"d".to_vec(), u_rec(11))],
    );
    let u_leaf2 = leaf_page(6, &[(b"n".to_vec(), u_rec(12))]);

    db_image(vec![catalog, t_leaf, lv_leaf, u_branch, u_leaf1, u_leaf2], 1)
}

#[test]
fn end_to_end_two_records() {
    let db = EseDb::open(fixture()).unwrap();
    let t = db.table_by_name("T").unwrap();
    assert_eq!(t.count_records().unwrap(), 2);
    let r0 = t.record(0).unwrap();
    assert_eq!(r0.value(0).unwrap(), Value::I32(1));
    assert_eq!(r0.value(1).unwrap().as_str(), Some("alice"));
    let r1 = t.record(1).unwrap();
    assert_eq!(r1.value(0).unwrap(), Value::I32(2));
    assert_eq!(r1.value(1).unwrap().as_str(), Some("bob"));
    assert_eq!(t.record(2).err(), Some(Error::NotFound));
}

#[test]
fn table_lookup_is_exact() {
    let db = EseDb::open(fixture()).unwrap();
    assert!(db.table_by_name("T").is_ok());
    assert!(db.table_by_name("U").is_ok());
    assert_eq!(db.table_by_name("t").err(), Some(Error::NotFound));
    assert_eq!(db.table_by_name("missing").err(), Some(Error::NotFound));
    assert_eq!(db.count_tables(), 2);
    assert_eq!(db.table(0).unwrap().name().unwrap(), "T");
    assert_eq!(db.table(1).unwrap().name().unwrap(), "U");
    assert_eq!(db.table(2).err(), Some(Error::NotFound));
}

#[test]
fn catalog_column_names_complete_and_distinct() {
    let db = EseDb::open(fixture()).unwrap();
    let t = db.table_by_name("T").unwrap();
    let n = t.count_columns();
    assert_eq!(n, 5);
    let mut names = Vec::new();
    for i in 0..n {
        let c = t.column(i).unwrap();
        names.push(c.name().unwrap());
    }
    assert_eq!(names, vec!["id", "name", "blob", "note", "nums"]);
    for i in 0..names.len() {
        for j in 0..i {
            assert_ne!(names[i], names[j]);
        }
    }
    assert_eq!(t.column(n).err(), Some(Error::NotFound));
    assert_eq!(t.column(0).unwrap().id(), 1);
    assert_eq!(t.column(0).unwrap().variant(), Value::I32(0));
}

#[test]
fn repeated_reads_are_identical() {
    let db = EseDb::open(fixture()).unwrap();
    let t = db.table_by_name("T").unwrap();
    let first: Vec<Value> = {
        let r = t.record(0).unwrap();
        (0..r.count_values())
            .map(|i| r.value(i).unwrap())
            .collect()
    };
    for _ in 0..3 {
        let r = t.record(0).unwrap();
        let again: Vec<Value> = (0..r.count_values())
            .map(|i| r.value(i).unwrap())
            .collect();
        assert_eq!(again, first);
    }
}

#[test]
fn long_value_reassembles_to_declared_size() {
    let db = EseDb::open(fixture()).unwrap();
    let t = db.table_by_name("T").unwrap();
    let r0 = t.record(0).unwrap();
    assert_eq!(r0.is_long(2).unwrap(), true);
    assert_eq!(r0.is_long(0).unwrap(), false);
    assert_eq!(r0.value(2).unwrap(), Value::Long);
    let lv = r0.long(2).unwrap();
    assert_eq!(lv.count_segments(), 2);
    assert_eq!(lv.segment(0).unwrap(), b"hell".to_vec());
    assert_eq!(lv.segment(1).unwrap(), b"o!".to_vec());
    assert_eq!(lv.segment(2).err(), Some(Error::NotFound));
    let v = lv.vec().unwrap();
    assert_eq!(v.len(), 6);
    assert_eq!(v, b"hello!".to_vec());
    let s = lv.utf8().unwrap();
    assert_eq!(s, "hello!");
    // a non-long column refuses the long accessor
    assert_eq!(r0.long(0).err(), Some(Error::TypeMismatch));
    assert_eq!(r0.long(3).err(), Some(Error::TypeMismatch));
}

#[test]
fn long_value_total_mismatch_is_corrupt() {
    // same fixture, but the reference declares a total of 7 bytes
    let mut img = fixture();
    // rec1's tag data lives inside page 2; find the declared total (6) right
    // after the long-value key (7)
    let page2 = 2 * PS;
    let mut found = false;
    for off in page2..page2 + PS - 8 {
        if img[off..off + 8] == [7, 0, 0, 0, 6, 0, 0, 0] {
            img[off + 4] = 7;
            found = true;
            break;
        }
    }
    assert!(found);
    // repair the page checksum
    let sum: u32 = img[page2 + 8..page2 + PS].iter().map(|&b| b as u32).sum();
    img[page2..page2 + 4].copy_from_slice(&sum.to_le_bytes());
    let db = EseDb::open(img).unwrap();
    let t = db.table_by_name("T").unwrap();
    let lv = t.record(0).unwrap().long(2).unwrap();
    assert_eq!(lv.vec().err(), Some(Error::Corrupt));
    assert_eq!(lv.utf8().err(), Some(Error::Corrupt));
}

#[test]
fn multi_value_count_and_bounds() {
    let db = EseDb::open(fixture()).unwrap();
    let t = db.table_by_name("T").unwrap();
    let r0 = t.record(0).unwrap();
    assert_eq!(r0.is_multi(4).unwrap(), true);
    assert_eq!(r0.is_multi(2).unwrap(), false);
    assert_eq!(r0.value(4).unwrap(), Value::Multi);
    let mv = r0.multi(4).unwrap();
    assert_eq!(mv.count_values(), 3);
    assert_eq!(mv.value(0).unwrap(), Value::U8(10));
    assert_eq!(mv.value(1).unwrap(), Value::U8(20));
    assert_eq!(mv.value(2).unwrap(), Value::U8(30));
    // every ordinal below the count is defined; beyond it errs, no panic
    for i in 0..mv.count_values() {
        assert!(mv.value(i).is_ok());
    }
    assert_eq!(mv.value(3).err(), Some(Error::NotFound));
    assert_eq!(mv.value(1000).err(), Some(Error::NotFound));
    assert_eq!(mv.variant(), Value::U8(0));
    // a non-multi column refuses the multi accessor
    assert_eq!(r0.multi(2).err(), Some(Error::TypeMismatch));
}

#[test]
fn absent_tagged_column_is_null_not_empty() {
    let db = EseDb::open(fixture()).unwrap();
    let t = db.table_by_name("T").unwrap();
    // record 1 lists no tags at all: note decodes to Null
    let r1 = t.record(1).unwrap();
    assert_eq!(r1.value(3).unwrap(), Value::Null);
    assert!(r1.value(3).unwrap().is_null());
    assert_eq!(r1.is_long(3).unwrap(), false);
    assert_eq!(r1.is_multi(3).unwrap(), false);
    // record 0 lists note with an empty span: present but empty
    let r0 = t.record(0).unwrap();
    assert_eq!(r0.value(3).unwrap(), Value::Binary(vec![]));
    assert_ne!(r0.value(3).unwrap(), Value::Null);
}

#[test]
fn corrupt_page_fails_traversal() {
    // flip one byte inside the record page's checksummed region
    let mut img = fixture();
    img[2 * PS + 100] ^= 0x01;
    let db = EseDb::open(img).unwrap(); // the catalog page is untouched
    let t = db.table_by_name("T").unwrap();
    assert_eq!(t.count_records().err(), Some(Error::Corrupt));
    assert_eq!(t.record(0).err(), Some(Error::Corrupt));

    // flip one byte inside the catalog page: the open itself fails
    let mut img2 = fixture();
    img2[PS + 200] ^= 0x80;
    assert_eq!(EseDb::open(img2).err(), Some(Error::Corrupt));
}

#[test]
fn header_is_validated() {
    let mut img = fixture();
    img[0] ^= 0xff; // magic
    assert_eq!(EseDb::open(img).err(), Some(Error::Corrupt));

    let mut img2 = fixture();
    img2[4..8].copy_from_slice(&123u32.to_le_bytes()); // page size
    assert_eq!(EseDb::open(img2).err(), Some(Error::Corrupt));

    let mut img3 = fixture();
    img3.truncate(img3.len() - 1); // length no longer a page multiple
    assert_eq!(EseDb::open(img3).err(), Some(Error::Corrupt));

    assert_eq!(EseDb::open(vec![1, 2, 3]).err(), Some(Error::Corrupt));
}

#[test]
fn branch_pages_traverse_in_key_order() {
    let db = EseDb::open(fixture()).unwrap();
    let u = db.table_by_name("U").unwrap();
    assert_eq!(u.count_records().unwrap(), 3);
    let got: Vec<Value> = (0..3).map(|i| u.record(i).unwrap().value(0).unwrap()).collect();
    assert_eq!(got, vec![Value::I32(10), Value::I32(11), Value::I32(12)]);
}

#[test]
fn cursors_walk_every_entry() {
    let db = EseDb::open(fixture()).unwrap();
    let mut tables = db.iter_tables();
    let mut names = Vec::new();
    while let Some(t) = tables.next() {
        names.push(t.unwrap().name().unwrap());
    }
    assert_eq!(names, vec!["T", "U"]);

    let t = db.table_by_name("T").unwrap();
    let mut cols = t.iter_columns().unwrap();
    let mut count = 0;
    while let Some(c) = cols.next() {
        c.unwrap();
        count += 1;
    }
    assert_eq!(count, 5);

    let mut recs = t.iter_records().unwrap();
    let mut ids = Vec::new();
    while let Some(r) = recs.next() {
        let r = r.unwrap();
        let mut vals = r.iter_values().unwrap();
        let mut row = Vec::new();
        while let Some(v) = vals.next() {
            row.push(v.unwrap());
        }
        assert_eq!(row.len(), r.count_values());
        ids.push(row[0].clone());
    }
    assert_eq!(ids, vec![Value::I32(1), Value::I32(2)]);

    let r0 = t.record(0).unwrap();
    let lv = r0.long(2).unwrap();
    let mut segs = lv.iter_segments().unwrap();
    let mut parts: Vec<Vec<u8>> = Vec::new();
    while let Some(s) = segs.next() {
        parts.push(s.unwrap());
    }
    assert_eq!(parts.concat(), b"hello!".to_vec());

    let mv = r0.multi(4).unwrap();
    let mut vals = mv.iter_values().unwrap();
    let mut total = 0u32;
    while let Some(v) = vals.next() {
        total += v.unwrap().to_u32().unwrap();
    }
    assert_eq!(total, 60);
}

#[test]
fn catalog_rejects_duplicates() {
    // two tables under the same name
    let catalog = leaf_page(
        1,
        &[
            (b"01".to_vec(), cat_table(1, 2, 0, "T")),
            (b"02".to_vec(), cat_table(2, 2, 0, "T")),
        ],
    );
    let t_leaf = leaf_page(2, &[]);
    let img = db_image(vec![catalog, t_leaf], 1);
    assert_eq!(EseDb::open(img).err(), Some(Error::Corrupt));

    // two columns under the same name in one table
    let catalog2 = leaf_page(
        1,
        &[
            (b"01".to_vec(), cat_table(1, 2, 0, "T")),
            (b"02".to_vec(), cat_column(1, 1, T_I32, C_FIXED, 0, "id")),
            (b"03".to_vec(), cat_column(1, 2, T_I32, C_FIXED, 4, "id")),
        ],
    );
    let t_leaf2 = leaf_page(2, &[]);
    let img2 = db_image(vec![catalog2, t_leaf2], 1);
    assert_eq!(EseDb::open(img2).err(), Some(Error::Corrupt));

    // a column whose owner does not exist
    let catalog3 = leaf_page(
        1,
        &[
            (b"01".to_vec(), cat_table(1, 2, 0, "T")),
            (b"02".to_vec(), cat_column(9, 1, T_I32, C_FIXED, 0, "id")),
        ],
    );
    let t_leaf3 = leaf_page(2, &[]);
    let img3 = db_image(vec![catalog3, t_leaf3], 1);
    assert_eq!(EseDb::open(img3).err(), Some(Error::Corrupt));

    // a fixed column off its packed offset
    let catalog4 = leaf_page(
        1,
        &[
            (b"01".to_vec(), cat_table(1, 2, 0, "T")),
            (b"02".to_vec(), cat_column(1, 1, T_I32, C_FIXED, 2, "id")),
        ],
    );
    let t_leaf4 = leaf_page(2, &[]);
    let img4 = db_image(vec![catalog4, t_leaf4], 1);
    assert_eq!(EseDb::open(img4).err(), Some(Error::Corrupt));
}

#[test]
fn unknown_tags_and_extra_entries_are_tolerated() {
    // a record listing a tag id no column declares decodes fine elsewhere
    let catalog = leaf_page(
        1,
        &[
            (b"01".to_vec(), cat_table(1, 2, 0, "T")),
            (b"02".to_vec(), cat_column(1, 1, T_I32, C_FIXED, 0, "id")),
            (b"03".to_vec(), cat_column(1, 300, T_BINARY, C_TAGGED, 0, "note")),
        ],
    );
    let rec = record_bytes(
        1,
        &5i32.to_le_bytes(),
        &[],
        b"",
        &[(299, 0, 0)],
        b"xy",
    );
    let t_leaf = leaf_page(2, &[(b"a".to_vec(), rec)]);
    let img = db_image(vec![catalog, t_leaf], 1);
    let db = EseDb::open(img).unwrap();
    let t = db.table_by_name("T").unwrap();
    let r = t.record(0).unwrap();
    assert_eq!(r.value(0).unwrap(), Value::I32(5));
    // the declared tagged column is not listed: Null
    assert_eq!(r.value(1).unwrap(), Value::Null);
    // past the column list: an error, not a panic
    assert_eq!(r.value(2).err(), Some(Error::NotFound));
}

#[test]
fn point_lookup_descends_to_the_key() {
    let img = fixture();
    let page_count = (img.len() / PS) as u32;
    // table T is rooted at page 2; U at page 4 under a branch
    let r = esedb::btree::lookup(&img, PS, page_count, 2, &b"a".to_vec(), 32)
        .unwrap()
        .unwrap();
    assert_eq!(r[4..8], 1i32.to_le_bytes()); // record header, then the id
    assert!(esedb::btree::lookup(&img, PS, page_count, 2, &b"x".to_vec(), 32)
        .unwrap()
        .is_none());
    let u = esedb::btree::lookup(&img, PS, page_count, 4, &b"n".to_vec(), 32)
        .unwrap()
        .unwrap();
    assert_eq!(u[4..8], 12i32.to_le_bytes());
    // a key past every branch key still lands in the rightmost leaf
    assert!(esedb::btree::lookup(&img, PS, page_count, 4, &b"zz".to_vec(), 32)
        .unwrap()
        .is_none());
}

#[test]
fn unsorted_or_misflagged_pages_are_corrupt() {
    // keys out of order
    let catalog = leaf_page(1, &[(b"01".to_vec(), cat_table(1, 2, 0, "T"))]);
    let bad = leaf_page(
        2,
        &[(b"b".to_vec(), vec![0, 0, 0, 0]), (b"a".to_vec(), vec![0, 0, 0, 0])],
    );
    let img = db_image(vec![catalog, bad], 1);
    let db = EseDb::open(img).unwrap();
    let t = db.table_by_name("T").unwrap();
    assert_eq!(t.count_records().err(), Some(Error::Corrupt));

    // duplicate keys
    let catalog = leaf_page(1, &[(b"01".to_vec(), cat_table(1, 2, 0, "T"))]);
    let dup = leaf_page(
        2,
        &[(b"a".to_vec(), vec![0, 0, 0, 0]), (b"a".to_vec(), vec![0, 0, 0, 0])],
    );
    let img = db_image(vec![catalog, dup], 1);
    let db = EseDb::open(img).unwrap();
    assert_eq!(
        db.table_by_name("T").unwrap().count_records().err(),
        Some(Error::Corrupt)
    );

    // a flag byte that is neither leaf nor branch
    let catalog = leaf_page(1, &[(b"01".to_vec(), cat_table(1, 2, 0, "T"))]);
    let mut odd = vec![0u8; PS];
    odd[8] = 3;
    let odd = finish_page(odd, 2);
    let img = db_image(vec![catalog, odd], 1);
    let db = EseDb::open(img).unwrap();
    assert_eq!(
        db.table_by_name("T").unwrap().count_records().err(),
        Some(Error::Corrupt)
    );
}

#[test]
fn cyclic_tree_hits_the_depth_bound() {
    let catalog = leaf_page(1, &[(b"01".to_vec(), cat_table(1, 2, 0, "T"))]);
    // a branch page naming itself as its child
    let cycle = branch_page(2, &[(b"m".to_vec(), 2)]);
    let img = db_image(vec![catalog, cycle], 1);
    let db = EseDb::open(img).unwrap();
    let t = db.table_by_name("T").unwrap();
    assert_eq!(t.count_records().err(), Some(Error::Corrupt));
}

#[test]
fn fixed_columns_truncate_by_presence_count() {
    let db = EseDb::open(fixture()).unwrap();
    let t = db.table_by_name("T").unwrap();
    // a record whose header declares zero fixed columns present
    let catalog = leaf_page(
        1,
        &[
            (b"01".to_vec(), cat_table(1, 2, 0, "T")),
            (b"02".to_vec(), cat_column(1, 1, T_I32, C_FIXED, 0, "id")),
        ],
    );
    let rec = record_bytes(0, &[0, 0, 0, 0], &[], b"", &[], b"");
    let t_leaf = leaf_page(2, &[(b"a".to_vec(), rec)]);
    let img = db_image(vec![catalog, t_leaf], 1);
    let db2 = EseDb::open(img).unwrap();
    let t2 = db2.table_by_name("T").unwrap();
    assert_eq!(t2.record(0).unwrap().value(0).unwrap(), Value::Null);
    // while the fixture's records declare one, so the value is present
    assert_eq!(t.record(0).unwrap().value(0).unwrap(), Value::I32(1));
}

#[test]
fn variable_absence_bit_is_distinct_from_empty() {
    let catalog = leaf_page(
        1,
        &[
            (b"01".to_vec(), cat_table(1, 2, 0, "T")),
            (b"02".to_vec(), cat_column(1, 1, T_TEXT, C_VAR, 0, "name")),
        ],
    );
    // high bit set: absent; end 0 with the bit clear: present and empty
    let absent = record_bytes(0, &[], &[0x8000], b"", &[], b"");
    let empty = record_bytes(0, &[], &[0], b"", &[], b"");
    let t_leaf = leaf_page(2, &[(b"a".to_vec(), absent), (b"b".to_vec(), empty)]);
    let img = db_image(vec![catalog, t_leaf], 1);
    let db = EseDb::open(img).unwrap();
    let t = db.table_by_name("T").unwrap();
    assert_eq!(t.record(0).unwrap().value(0).unwrap(), Value::Null);
    assert_eq!(
        t.record(1).unwrap().value(0).unwrap(),
        Value::Text(String::new())
    );
}

#[test]
fn cursors_restart_from_the_top() {
    let db = EseDb::open(fixture()).unwrap();
    let mut first = Vec::new();
    let mut it = db.iter_tables();
    while let Some(t) = it.next() {
        first.push(t.unwrap().name().unwrap());
    }
    let mut second = Vec::new();
    let mut it = db.iter_tables();
    while let Some(t) = it.next() {
        second.push(t.unwrap().name().unwrap());
    }
    assert_eq!(first, second);
    assert_eq!(first, vec!["T", "U"]);
}

#[test]
fn invalid_text_decodes_lossily_not_fatally() {
    let catalog = leaf_page(
        1,
        &[
            (b"01".to_vec(), cat_table(1, 2, 0, "T")),
            (b"02".to_vec(), cat_column(1, 1, T_TEXT, C_VAR, 0, "name")),
        ],
    );
    // 0xff is never valid UTF-8; the 'a' survives
    let rec = record_bytes(0, &[], &[2], &[0xff, 0x61], &[], b"");
    let t_leaf = leaf_page(2, &[(b"a".to_vec(), rec)]);
    let img = db_image(vec![catalog, t_leaf], 1);
    let db = EseDb::open(img).unwrap();
    let t = db.table_by_name("T").unwrap();
    let v = t.record(0).unwrap().value(0).unwrap();
    let s = v.as_str().unwrap();
    assert_eq!(s, "\u{fffd}a");
}

#[test]
fn truncated_records_are_corrupt_not_panics() {
    let catalog = leaf_page(
        1,
        &[
            (b"01".to_vec(), cat_table(1, 2, 0, "T")),
            (b"02".to_vec(), cat_column(1, 1, T_I32, C_FIXED, 0, "id")),
            (b"03".to_vec(), cat_column(1, 2, T_TEXT, C_VAR, 0, "name")),
        ],
    );
    // header says one fixed column present, but the bytes end early
    let short = vec![1u8, 0, 0, 0, 1, 2];
    // offset table runs past the record
    let bad_var = vec![0u8, 4, 0, 0, 0, 0, 0, 0];
    let t_leaf = leaf_page(2, &[(b"a".to_vec(), short), (b"b".to_vec(), bad_var)]);
    let img = db_image(vec![catalog, t_leaf], 1);
    let db = EseDb::open(img).unwrap();
    let t = db.table_by_name("T").unwrap();
    assert_eq!(t.record(0).unwrap().value(0).err(), Some(Error::Corrupt));
    assert_eq!(t.record(1).unwrap().value(1).err(), Some(Error::Corrupt));
}

#[test]
fn misordered_sibling_leaves_are_corrupt() {
    // each leaf is sorted on its own, but the traversal as a whole is not
    let catalog = leaf_page(1, &[(b"01".to_vec(), cat_table(1, 2, 0, "T"))]);
    let root = branch_page(2, &[(b"m".to_vec(), 3), (b"z".to_vec(), 4)]);
    let left = leaf_page(3, &[(b"x".to_vec(), vec![0, 0, 0, 0])]);
    let right = leaf_page(4, &[(b"b".to_vec(), vec![0, 0, 0, 0])]);
    let img = db_image(vec![catalog, root, left, right], 1);
    let db = EseDb::open(img).unwrap();
    let t = db.table_by_name("T").unwrap();
    assert_eq!(t.count_records().err(), Some(Error::Corrupt));
}
