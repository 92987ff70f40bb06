//! FILETIME timestamps: 100-nanosecond ticks since 1601-01-01 00:00 UTC.
//!
//! The conversion between ticks and an offset from the Unix epoch is pure
//! integer arithmetic and is verified exactly. The final hop to
//! [`std::time::SystemTime`] or `time::OffsetDateTime` goes through
//! trusted conversions whose results are named, and whose preconditions
//! keep every admitted input off the outside code's panic paths; the
//! round-trip laws are stated over the verified integer core.

use vstd::arithmetic::div_mod::lemma_fundamental_div_mod;
use vstd::prelude::*;

verus! {

/// The tick count of the Unix epoch, 1970-01-01 00:00 UTC.
pub const UNIX_EPOCH_TICKS: u64 = 116444736000000000;

/// Whole seconds between 1601-01-01 and the Unix epoch.
pub const UNIX_EPOCH_SECS: u64 = 11644473600;

/// `std::time::SystemTime` carried through opaquely; the engine never looks
/// inside one.
#[verifier::external_type_specification]
#[verifier::external_body]
pub struct ExSystemTime(std::time::SystemTime);

/// `time::OffsetDateTime` carried through opaquely; the engine never looks
/// inside one.
#[verifier::external_type_specification]
#[verifier::external_body]
pub struct ExOffsetDateTime(time::OffsetDateTime);

/// Relies on `core::time::Duration::as_secs`: the whole-second part of the
/// duration; never panics.
pub assume_specification[ core::time::Duration::as_secs ](d: &core::time::Duration) -> u64;

/// Relies on `core::time::Duration::subsec_nanos`: the fractional part in
/// nanoseconds, documented to be less than one billion; never panics.
pub assume_specification[ core::time::Duration::subsec_nanos ](d: &core::time::Duration) -> (r:
    u32)
    ensures
        r < 1000000000,
;

/// A point in time as 100-nanosecond intervals since 1601-01-01 00:00 UTC.
#[derive(Clone, Copy, Debug, PartialEq, Eq, PartialOrd, Ord, Hash, Structural)]
pub struct FileTime(u64);

/// Whole seconds of the offset of tick count `t` from the Unix epoch,
/// truncated toward zero.
pub open spec fn spec_unix_secs(t: u64) -> int {
    if t >= UNIX_EPOCH_TICKS {
        ((t - UNIX_EPOCH_TICKS) as int) / 10000000
    } else {
        -(((UNIX_EPOCH_TICKS - t) as int) / 10000000)
    }
}

/// Sub-second nanoseconds of the offset of tick count `t` from the Unix
/// epoch; same sign as the offset.
pub open spec fn spec_unix_subsec_nanos(t: u64) -> int {
    if t >= UNIX_EPOCH_TICKS {
        (((t - UNIX_EPOCH_TICKS) as int) % 10000000) * 100
    } else {
        -((((UNIX_EPOCH_TICKS - t) as int) % 10000000) * 100)
    }
}

/// Nanoseconds truncated toward zero to whole 100-nanosecond ticks.
pub open spec fn spec_nanos_to_ticks(nanos: int) -> int {
    if nanos >= 0 {
        nanos / 100
    } else {
        -((-nanos) / 100)
    }
}

/// The tick count of the point `secs` seconds and `nanos` nanoseconds away
/// from the Unix epoch, saturating at the ends of the representable range.
pub open spec fn spec_ticks_of_unix(secs: int, nanos: int) -> u64 {
    let total = UNIX_EPOCH_TICKS + secs * 10000000 + spec_nanos_to_ticks(nanos);
    if total < 0 {
        0u64
    } else if total > u64::MAX {
        u64::MAX
    } else {
        total as u64
    }
}

/// The `SystemTime` at `secs` seconds and `nanos` nanoseconds from the
/// Unix epoch; a function of the offset alone.
pub uninterp spec fn system_of_unix(secs: int, nanos: int) -> std::time::SystemTime;

/// The `OffsetDateTime` at `secs` seconds and `nanos` nanoseconds from the
/// Unix epoch; a function of the offset alone.
pub uninterp spec fn odt_of_unix(secs: int, nanos: int) -> time::OffsetDateTime;

/// An offset produced by [`FileTime::unix_offset`] has a sub-second part
/// below one second with the sign of the whole offset, and represents an
/// instant at or after 1601-01-01, so the trusted conversions accept it.
pub proof fn lemma_unix_offset_bounds(t: u64)
    ensures
        -999999999 <= spec_unix_subsec_nanos(t) <= 999999999,
        spec_unix_secs(t) * 1000000000 + spec_unix_subsec_nanos(t) >= -(UNIX_EPOCH_SECS as int)
            * 1000000000,
        spec_unix_secs(t) > 0 ==> spec_unix_subsec_nanos(t) >= 0,
        spec_unix_secs(t) < 0 ==> spec_unix_subsec_nanos(t) <= 0,
{
    if t >= UNIX_EPOCH_TICKS {
        let d = (t - UNIX_EPOCH_TICKS) as int;
        lemma_fundamental_div_mod(d, 10000000);
        let q = d / 10000000;
        let r = d % 10000000;
        assert(q >= 0) by (nonlinear_arith)
            requires
                d >= 0,
                d == 10000000 * q + r,
                0 <= r < 10000000,
        ;
        assert(0 <= r * 100 <= 999999900) by (nonlinear_arith)
            requires
                0 <= r < 10000000,
        ;
        assert(q * 1000000000 >= 0) by (nonlinear_arith)
            requires
                q >= 0,
        ;
    } else {
        let e = (UNIX_EPOCH_TICKS - t) as int;
        lemma_fundamental_div_mod(e, 10000000);
        let q = e / 10000000;
        let r = e % 10000000;
        assert(0 <= r * 100 <= 999999900) by (nonlinear_arith)
            requires
                0 <= r < 10000000,
        ;
        assert((-q) * 1000000000 + (-(r * 100)) == -100 * e) by (nonlinear_arith)
            requires
                e == 10000000 * q + r,
        ;
        assert(-100 * e >= -(UNIX_EPOCH_SECS as int) * 1000000000) by (nonlinear_arith)
            requires
                e <= 116444736000000000,
        ;
    }
}

impl FileTime {
    /// The raw tick count.
    pub closed spec fn ticks(self) -> u64 {
        self.0
    }

    pub fn from_100ns(x: u64) -> (r: Self)
        ensures
            r.ticks() == x,
    {
        FileTime(x)
    }

    /// The raw tick count, 100-nanosecond intervals since 1601-01-01 UTC.
    pub fn as_100ns(&self) -> (r: u64)
        ensures
            r == self.ticks(),
    {
        self.0
    }

    /// The offset from the Unix epoch as truncated whole seconds and
    /// same-signed sub-second nanoseconds.
    pub fn unix_offset(&self) -> (r: (i64, i32))
        ensures
            r.0 as int == spec_unix_secs(self.ticks()),
            r.1 as int == spec_unix_subsec_nanos(self.ticks()),
    {
        if self.0 >= UNIX_EPOCH_TICKS {
            let d: u64 = self.0 - UNIX_EPOCH_TICKS;
            let s: u64 = d / 10000000;
            let n: u64 = (d % 10000000) * 100;
            (s as i64, n as i32)
        } else {
            let d: u64 = UNIX_EPOCH_TICKS - self.0;
            let s: u64 = d / 10000000;
            let n: u64 = (d % 10000000) * 100;
            (-(s as i64), -(n as i32))
        }
    }

    /// The tick count of the point `secs` seconds and `nanos` nanoseconds
    /// from the Unix epoch, saturating at the range ends.
    pub fn from_unix_offset(secs: i64, nanos: i32) -> (r: Self)
        ensures
            r.ticks() == spec_ticks_of_unix(secs as int, nanos as int),
    {
        let ntick: i64 = if nanos >= 0 {
            (nanos / 100) as i64
        } else {
            -(((-(nanos as i64)) / 100))
        };
        let total: i128 = UNIX_EPOCH_TICKS as i128 + secs as i128 * 10000000 + ntick as i128;
        if total < 0 {
            FileTime(0)
        } else if total > u64::MAX as i128 {
            FileTime(u64::MAX)
        } else {
            FileTime(total as u64)
        }
    }

    /// The same instant as an `OffsetDateTime`, through the trusted
    /// conversion: the point at this tick count's Unix-epoch offset.
    pub fn to_time(&self) -> (r: time::OffsetDateTime)
        ensures
            r == odt_of_unix(spec_unix_secs(self.ticks()), spec_unix_subsec_nanos(self.ticks())),
    {
        proof {
            lemma_unix_offset_bounds(self.ticks());
        }
        let (secs, nanos) = self.unix_offset();
        offsetdatetime_from_unix(secs, nanos)
    }

    /// The same instant as a `SystemTime`, through the trusted conversion:
    /// the point at this tick count's Unix-epoch offset.
    pub fn to_system(&self) -> (r: std::time::SystemTime)
        ensures
            r == system_of_unix(
                spec_unix_secs(self.ticks()),
                spec_unix_subsec_nanos(self.ticks()),
            ),
    {
        proof {
            lemma_unix_offset_bounds(self.ticks());
        }
        let (secs, nanos) = self.unix_offset();
        system_from_unix(secs, nanos)
    }

    /// The `FileTime` nearest at or below the given `SystemTime`, saturated
    /// to the representable range. The input is opaque, so nothing can be
    /// promised of the result; the offset handed back by the clock query is
    /// processed by the exactly specified [`FileTime::from_unix_offset`].
    pub fn from_system(t: &std::time::SystemTime) -> Self {
        match epoch_offset(t) {
            Ok(d) => {
                let s64: u64 = d.as_secs();
                let secs: i64 = if s64 > i64::MAX as u64 {
                    i64::MAX
                } else {
                    s64 as i64
                };
                let nanos: i32 = d.subsec_nanos() as i32;
                FileTime::from_unix_offset(secs, nanos)
            },
            Err(d) => {
                let s64: u64 = d.as_secs();
                let secs: i64 = if s64 > i64::MAX as u64 {
                    i64::MIN
                } else {
                    -(s64 as i64)
                };
                let nanos: i32 = -(d.subsec_nanos() as i32);
                FileTime::from_unix_offset(secs, nanos)
            },
        }
    }
}

/// Relies on `time::OffsetDateTime::UNIX_EPOCH.saturating_add` over a
/// `time::Duration` built from whole seconds and sub-second nanoseconds.
/// With the nanosecond part below one second, `Duration::new` performs no
/// carry and cannot hit its overflow panic, and `saturating_add` is total;
/// the result is the point at the given Unix-epoch offset, a function of
/// the offset alone.
#[verifier::external_body]
fn offsetdatetime_from_unix(secs: i64, nanos: i32) -> (r: time::OffsetDateTime)
    requires
        -999999999 <= nanos <= 999999999,
    ensures
        r == odt_of_unix(secs as int, nanos as int),
{
    time::OffsetDateTime::UNIX_EPOCH.saturating_add(time::Duration::new(secs, nanos))
}

/// Relies on the same `time` calls as [`offsetdatetime_from_unix`] plus the
/// `time` crate's conversion into `std::time::SystemTime`, which panics
/// only when the instant is not representable: the offset must lie at or
/// after 1601-01-01 (every supported platform's `SystemTime` reaches back
/// that far), and `saturating_add` caps the upper end inside range. The
/// result is a function of the offset alone.
#[verifier::external_body]
fn system_from_unix(secs: i64, nanos: i32) -> (r: std::time::SystemTime)
    requires
        -999999999 <= nanos <= 999999999,
        secs * 1000000000 + nanos >= -(UNIX_EPOCH_SECS as int) * 1000000000,
    ensures
        r == system_of_unix(secs as int, nanos as int),
{
    time::OffsetDateTime::UNIX_EPOCH.saturating_add(time::Duration::new(secs, nanos)).into()
}

/// Relies on `std::time::SystemTime::duration_since` against
/// `UNIX_EPOCH`, which never panics: `Ok` carries the duration since the
/// epoch, `Err` the duration until it, extracted with
/// `SystemTimeError::duration`. Nothing is assumed about the opaque value.
#[verifier::external_body]
fn epoch_offset(t: &std::time::SystemTime) -> Result<core::time::Duration, core::time::Duration> {
    match t.duration_since(std::time::SystemTime::UNIX_EPOCH) {
        Ok(d) => Ok(d),
        Err(e) => Err(e.duration()),
    }
}

/// Decodes a raw FILETIME tick count into a `SystemTime`: the point at the
/// tick count's Unix-epoch offset.
pub fn systemtime_from_filetime(t: u64) -> (r: std::time::SystemTime)
    ensures
        r == system_of_unix(spec_unix_secs(t), spec_unix_subsec_nanos(t)),
{
    FileTime::from_100ns(t).to_system()
}

/// Encodes a `SystemTime` as a FILETIME tick count, truncated to the tick
/// and saturated to the representable range; see [`FileTime::from_system`]
/// for why the opaque input leaves nothing to promise here.
pub fn filetime_from_systemtime(t: &std::time::SystemTime) -> u64 {
    FileTime::from_system(t).as_100ns()
}

/// Converting a tick count to its Unix-epoch offset and back recovers the
/// tick count exactly.
pub proof fn lemma_filetime_unix_round_trip(t: u64)
    ensures
        spec_ticks_of_unix(spec_unix_secs(t), spec_unix_subsec_nanos(t)) == t,
{
    if t >= UNIX_EPOCH_TICKS {
        let d = (t - UNIX_EPOCH_TICKS) as int;
        lemma_fundamental_div_mod(d, 10000000);
        assert((d % 10000000) * 100 / 100 == d % 10000000) by (nonlinear_arith)
            requires
                d >= 0,
        ;
    } else {
        let e = (UNIX_EPOCH_TICKS - t) as int;
        lemma_fundamental_div_mod(e, 10000000);
        assert((e % 10000000) * 100 / 100 == e % 10000000) by (nonlinear_arith)
            requires
                e >= 0,
        ;
    }
}

/// Converting a Unix-epoch offset to ticks and back loses less than one
/// tick (100 nanoseconds), for offsets with a sub-second part below one
/// second, the whole and sub-second parts not of opposite signs, and a
/// tick count that does not saturate.
pub proof fn lemma_filetime_system_round_trip(secs: int, nanos: int)
    requires
        -999999999 <= nanos <= 999999999,
        secs > 0 ==> nanos >= 0,
        secs < 0 ==> nanos <= 0,
        0 <= UNIX_EPOCH_TICKS + secs * 10000000 + spec_nanos_to_ticks(nanos) <= u64::MAX,
    ensures
        ({
            let t = spec_ticks_of_unix(secs, nanos);
            let back = spec_unix_secs(t) * 1000000000 + spec_unix_subsec_nanos(t);
            let orig = secs * 1000000000 + nanos;
            -100 < back - orig < 100
        }),
{
    let d100 = secs * 10000000 + spec_nanos_to_ticks(nanos);
    let t = spec_ticks_of_unix(secs, nanos);
    assert(t == UNIX_EPOCH_TICKS + d100);
    // The recovered offset equals d100 ticks exactly.
    if t >= UNIX_EPOCH_TICKS {
        let d = (t - UNIX_EPOCH_TICKS) as int;
        assert(d == d100);
        lemma_fundamental_div_mod(d, 10000000);
        assert(spec_unix_secs(t) * 1000000000 + spec_unix_subsec_nanos(t) == d100 * 100)
            by (nonlinear_arith)
            requires
                d100 >= 0,
                spec_unix_secs(t) == d100 / 10000000,
                spec_unix_subsec_nanos(t) == (d100 % 10000000) * 100,
                d100 == 10000000 * (d100 / 10000000) + d100 % 10000000,
        ;
    } else {
        let e = (UNIX_EPOCH_TICKS - t) as int;
        assert(e == -d100);
        lemma_fundamental_div_mod(e, 10000000);
        assert(spec_unix_secs(t) * 1000000000 + spec_unix_subsec_nanos(t) == d100 * 100)
            by (nonlinear_arith)
            requires
                e >= 0,
                e == -d100,
                spec_unix_secs(t) == -(e / 10000000),
                spec_unix_subsec_nanos(t) == -((e % 10000000) * 100),
                e == 10000000 * (e / 10000000) + e % 10000000,
        ;
    }
    // Truncating the nanoseconds to ticks loses less than 100 ns.
    if nanos >= 0 {
        lemma_fundamental_div_mod(nanos, 100);
        assert(spec_nanos_to_ticks(nanos) * 100 <= nanos < spec_nanos_to_ticks(nanos) * 100 + 100);
    } else {
        lemma_fundamental_div_mod(-nanos, 100);
        assert(spec_nanos_to_ticks(nanos) * 100 - 100 < nanos <= spec_nanos_to_ticks(nanos) * 100);
    }
    assert(d100 * 100 == secs * 1000000000 + spec_nanos_to_ticks(nanos) * 100) by (nonlinear_arith)
        requires
            d100 == secs * 10000000 + spec_nanos_to_ticks(nanos),
    ;
}

} // verus!
