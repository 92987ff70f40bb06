use esedb::value::{ColType, Value};
use std::time::SystemTime;

#[test]
fn value_compare() {
    let date = SystemTime::UNIX_EPOCH;
    assert_eq!(
        date,
        Value::DateTime(116444736000000000)
            .to_filetime()
            .unwrap()
            .to_system()
    );
    assert_eq!(
        Value::DateTime(116444736000000000)
            .to_filetime()
            .unwrap()
            .to_system(),
        date
    );
    assert_eq!(Value::U8(42).to_u8(), Some(42));
    assert_eq!(Value::U8(42), Value::U8(42));
}

#[test]
fn integer_casts_respect_ranges() {
    assert_eq!(Value::I32(255).to_u8(), Some(255));
    assert_eq!(Value::I32(256).to_u8(), None);
    assert_eq!(Value::I32(-1).to_u8(), None);
    assert_eq!(Value::Currency(70000).to_u16(), None);
    assert_eq!(Value::Currency(65535).to_u16(), Some(65535));
    assert_eq!(Value::I64(i64::MAX).to_i32(), None);
    assert_eq!(Value::U32(7).to_i64(), Some(7));
    assert_eq!(Value::I16(-5).to_u64(), None);
    assert_eq!(Value::DateTime(9).to_u64(), Some(9));
    assert_eq!(Value::Text(String::from("9")).to_u64(), None);
}

#[test]
fn accessors_match_variants() {
    assert_eq!(Value::Bool(true).to_bool(), Some(true));
    assert_eq!(Value::U8(1).to_bool(), None);
    assert_eq!(
        Value::Text(String::from("hi")).as_str(),
        Some("hi")
    );
    assert_eq!(Value::Binary(vec![1, 2]).as_bytes(), Some(&vec![1u8, 2u8]));
    assert_eq!(Value::Null.as_bytes(), None);
    assert!(Value::Null.is_null());
    assert!(!Value::U8(0).is_null());
    assert_eq!(Value::DateTime(5).to_oletime(), Some(5));
    assert_eq!(Value::U8(5).to_oletime(), None);
}

#[test]
fn equality_distinguishes_empty_from_null() {
    assert_ne!(Value::Binary(vec![]), Value::Null);
    assert_ne!(Value::Text(String::new()), Value::Null);
    assert_eq!(Value::Binary(vec![]), Value::Binary(vec![]));
    assert_ne!(Value::Binary(vec![1]), Value::Binary(vec![2]));
    assert_ne!(Value::Long, Value::Multi);
}

#[test]
fn type_witnesses_are_empty_values() {
    assert_eq!(Value::of_type(ColType::I32), Value::I32(0));
    assert_eq!(Value::of_type(ColType::Text), Value::Text(String::new()));
    assert_eq!(Value::of_type(ColType::Null), Value::Null);
}
