use esedb::datatype::{filetime_from_systemtime, systemtime_from_filetime, FileTime};
use esedb::value::Value;
use std::time::SystemTime;

#[test]
fn filetime_value() {
    assert_eq!(
        FileTime::from_100ns(116444736000000000).to_system(),
        SystemTime::UNIX_EPOCH
    );
}

#[test]
fn test_systemtime_from_filetime() {
    assert_eq!(
        systemtime_from_filetime(116444736000000000),
        SystemTime::UNIX_EPOCH
    );
}

#[test]
fn test_filetime_from_systemtime() {
    assert_eq!(
        filetime_from_systemtime(&SystemTime::UNIX_EPOCH),
        116444736000000000
    );
}

#[test]
fn filetime_round_trip_sampled() {
    let samples: [u64; 6] = [
        0,
        1,
        116444736000000000,
        116444736000000001,
        130000000000000000,
        133000000009876543,
    ];
    for &t in samples.iter() {
        let s = systemtime_from_filetime(t);
        assert_eq!(filetime_from_systemtime(&s), t);
    }
}

#[test]
fn filetime_unix_offset_truncates_to_ticks() {
    let ft = FileTime::from_unix_offset(123456789, 987654321);
    let (s, n) = ft.unix_offset();
    assert_eq!(s, 123456789);
    assert_eq!(n, 987654300);

    let before = FileTime::from_unix_offset(-120, -500);
    let (s2, n2) = before.unix_offset();
    assert_eq!(s2, -120);
    assert_eq!(n2, -500);
}

#[test]
fn filetime_saturates_below_origin() {
    // further back than 1601 saturates at tick zero
    let ft = FileTime::from_unix_offset(-20000000000, 0);
    assert_eq!(ft.as_100ns(), 0);
}

#[test]
fn oletime_value() {
    // OLE day count 25569.0 decodes to the Unix epoch
    let bits = (25569.0f64).to_bits();
    let days = f64::from_bits(Value::DateTime(bits).to_oletime().unwrap());
    assert_eq!(days, 25569.0);
    let ole_epoch = time::Date::from_calendar_date(1899, time::Month::December, 30)
        .unwrap()
        .midnight()
        .assume_utc();
    let decoded: SystemTime = ole_epoch
        .saturating_add(time::Duration::days(days as i64))
        .into();
    assert_eq!(decoded, SystemTime::UNIX_EPOCH);
}
