//! Typed column values and the primitive decoders that produce them.
//!
//! Decoding dispatches strictly on the catalog-declared column type, never
//! on names or heuristics. Numeric and boolean columns are fixed-width
//! little-endian; text decodes as UTF-8, lossily on invalid sequences;
//! floating-point columns carry their raw IEEE-754 bit patterns, since the
//! engine performs no floating-point arithmetic; GUID and binary columns
//! are raw bytes.

use crate::datatype::FileTime;
use crate::error::Error;
use crate::wire::{bytes_eq, le16, le32, le64, read_le16, read_le32, read_le64};
use vstd::prelude::*;
use vstd::utf8::{decode_utf8, valid_utf8};

verus! {

/// The closed enumeration of logical column types.
#[derive(Clone, Copy, Debug, PartialEq, Eq, Structural)]
pub enum ColType {
    Null,
    Bool,
    U8,
    I16,
    I32,
    Currency,
    F32,
    F64,
    DateTime,
    Binary,
    Text,
    LargeBinary,
    LargeText,
    SuperLarge,
    U32,
    I64,
    Guid,
    U16,
}

/// The on-disk numbering of column types.
pub open spec fn spec_col_type_of(b: u8) -> Option<ColType> {
    match b {
        0u8 => Some(ColType::Null),
        1u8 => Some(ColType::Bool),
        2u8 => Some(ColType::U8),
        3u8 => Some(ColType::I16),
        4u8 => Some(ColType::I32),
        5u8 => Some(ColType::Currency),
        6u8 => Some(ColType::F32),
        7u8 => Some(ColType::F64),
        8u8 => Some(ColType::DateTime),
        9u8 => Some(ColType::Binary),
        10u8 => Some(ColType::Text),
        11u8 => Some(ColType::LargeBinary),
        12u8 => Some(ColType::LargeText),
        13u8 => Some(ColType::SuperLarge),
        14u8 => Some(ColType::U32),
        15u8 => Some(ColType::I64),
        16u8 => Some(ColType::Guid),
        17u8 => Some(ColType::U16),
        _ => None,
    }
}

pub fn col_type_of(b: u8) -> (r: Option<ColType>)
    ensures
        r == spec_col_type_of(b),
{
    match b {
        0u8 => Some(ColType::Null),
        1u8 => Some(ColType::Bool),
        2u8 => Some(ColType::U8),
        3u8 => Some(ColType::I16),
        4u8 => Some(ColType::I32),
        5u8 => Some(ColType::Currency),
        6u8 => Some(ColType::F32),
        7u8 => Some(ColType::F64),
        8u8 => Some(ColType::DateTime),
        9u8 => Some(ColType::Binary),
        10u8 => Some(ColType::Text),
        11u8 => Some(ColType::LargeBinary),
        12u8 => Some(ColType::LargeText),
        13u8 => Some(ColType::SuperLarge),
        14u8 => Some(ColType::U32),
        15u8 => Some(ColType::I64),
        16u8 => Some(ColType::Guid),
        17u8 => Some(ColType::U16),
        _ => None,
    }
}

/// The fixed byte width of a column type; 0 for the variable-size types.
pub open spec fn spec_width(t: ColType) -> int {
    match t {
        ColType::Null => 0,
        ColType::Bool => 1,
        ColType::U8 => 1,
        ColType::I16 => 2,
        ColType::U16 => 2,
        ColType::I32 => 4,
        ColType::U32 => 4,
        ColType::F32 => 4,
        ColType::Currency => 8,
        ColType::I64 => 8,
        ColType::DateTime => 8,
        ColType::F64 => 8,
        ColType::Guid => 16,
        ColType::Binary => 0,
        ColType::Text => 0,
        ColType::LargeBinary => 0,
        ColType::LargeText => 0,
        ColType::SuperLarge => 0,
    }
}

pub fn width(t: ColType) -> (r: usize)
    ensures
        r == spec_width(t),
{
    match t {
        ColType::Bool | ColType::U8 => 1,
        ColType::I16 | ColType::U16 => 2,
        ColType::I32 | ColType::U32 | ColType::F32 => 4,
        ColType::Currency | ColType::I64 | ColType::DateTime | ColType::F64 => 8,
        ColType::Guid => 16,
        _ => 0,
    }
}

/// What `String::from_utf8_lossy` returns on an arbitrary byte sequence; a
/// function of the bytes alone.
pub uninterp spec fn lossy_utf8(b: Seq<u8>) -> Seq<char>;

/// Relies on `String::from_utf8_lossy`: invalid sequences are replaced, and
/// valid UTF-8 input decodes to exactly its characters.
#[verifier::external_body]
pub(crate) fn utf8_lossy(b: &Vec<u8>) -> (r: String)
    ensures
        r@ == lossy_utf8(b@),
        valid_utf8(b@) ==> r@ == decode_utf8(b@),
{
    String::from_utf8_lossy(b).into_owned()
}

/// The characters of an ASCII byte sequence, one per byte.
pub open spec fn ascii_chars(b: Seq<u8>) -> Seq<char> {
    b.map_values(|x: u8| x as char)
}

/// ASCII bytes are valid UTF-8 and decode to their characters, one per
/// byte.
pub proof fn lemma_ascii_decode(b: Seq<u8>)
    requires
        forall|i: int| 0 <= i < b.len() ==> #[trigger] b[i] < 0x80,
    ensures
        valid_utf8(b),
        decode_utf8(b) == ascii_chars(b),
{
    let chars = ascii_chars(b);
    assert(vstd::utf8::is_ascii_chars(chars)) by {
        assert forall|i: int| 0 <= i < chars.len() implies '\0' <= #[trigger] chars[i] <= '\u{7f}' by {
            assert(chars[i] == b[i] as char);
        }
    }
    vstd::utf8::is_ascii_chars_encode_utf8(chars);
    assert(vstd::utf8::encode_utf8(chars) =~= b) by {
        assert forall|i: int| 0 <= i < b.len() implies vstd::utf8::encode_utf8(chars)[i]
            == b[i] by {
            assert(chars[i] as u8 == vstd::utf8::encode_utf8(chars)[i]);
            assert((b[i] as char) as u8 == b[i]);
        }
    }
    vstd::utf8::encode_utf8_valid_utf8(chars);
    vstd::utf8::encode_utf8_decode_utf8(chars);
}

/// Two ASCII byte sequences with the same characters are the same bytes.
pub proof fn lemma_ascii_chars_injective(b1: Seq<u8>, b2: Seq<u8>)
    requires
        ascii_chars(b1) == ascii_chars(b2),
    ensures
        b1 == b2,
{
    assert(b1.len() == b2.len()) by {
        assert(ascii_chars(b1).len() == b1.len());
        assert(ascii_chars(b2).len() == b2.len());
    }
    assert(b1 =~= b2) by {
        assert forall|i: int| 0 <= i < b1.len() implies b1[i] == b2[i] by {
            assert(ascii_chars(b1)[i] == b1[i] as char);
            assert(ascii_chars(b2)[i] == b2[i] as char);
            assert((b1[i] as char) as u8 == b1[i]);
            assert((b2[i] as char) as u8 == b2[i]);
        }
    }
}

/// A decoded column value: one constructor per logical column type, plus
/// `Null` for absence, and the `Long` / `Multi` markers a record reports
/// for values that must be fetched through the long-value or multi-value
/// accessors.
#[derive(Debug, Clone)]
pub enum Value {
    Null,
    Bool(bool),
    U8(u8),
    I16(i16),
    I32(i32),
    Currency(i64),
    /// Raw little-endian IEEE-754 bit pattern of a 32-bit float.
    F32(u32),
    /// Raw little-endian IEEE-754 bit pattern of a 64-bit float.
    F64(u64),
    /// Raw 64-bit payload; FILETIME ticks or OLE fractional days, chosen by
    /// the caller.
    DateTime(u64),
    Binary(Vec<u8>),
    Text(String),
    LargeBinary(Vec<u8>),
    LargeText(String),
    SuperLarge(Vec<u8>),
    U32(u32),
    I64(i64),
    Guid(Vec<u8>),
    U16(u16),
    /// The column holds a long value; fetch it with the long-value accessor.
    Long,
    /// The column holds a multi-value; fetch it with the multi-value accessor.
    Multi,
}

/// The mathematical model of a [`Value`].
pub enum ValM {
    Null,
    Bool(bool),
    U8(u8),
    I16(i16),
    I32(i32),
    Currency(i64),
    F32(u32),
    F64(u64),
    DateTime(u64),
    Binary(Seq<u8>),
    Text(Seq<char>),
    LargeBinary(Seq<u8>),
    LargeText(Seq<char>),
    SuperLarge(Seq<u8>),
    U32(u32),
    I64(i64),
    Guid(Seq<u8>),
    U16(u16),
    Long,
    Multi,
}

impl View for Value {
    type V = ValM;

    open spec fn view(&self) -> ValM {
        match self {
            Value::Null => ValM::Null,
            Value::Bool(x) => ValM::Bool(*x),
            Value::U8(x) => ValM::U8(*x),
            Value::I16(x) => ValM::I16(*x),
            Value::I32(x) => ValM::I32(*x),
            Value::Currency(x) => ValM::Currency(*x),
            Value::F32(x) => ValM::F32(*x),
            Value::F64(x) => ValM::F64(*x),
            Value::DateTime(x) => ValM::DateTime(*x),
            Value::Binary(v) => ValM::Binary(v@),
            Value::Text(s) => ValM::Text(s@),
            Value::LargeBinary(v) => ValM::LargeBinary(v@),
            Value::LargeText(s) => ValM::LargeText(s@),
            Value::SuperLarge(v) => ValM::SuperLarge(v@),
            Value::U32(x) => ValM::U32(*x),
            Value::I64(x) => ValM::I64(*x),
            Value::Guid(v) => ValM::Guid(v@),
            Value::U16(x) => ValM::U16(*x),
            Value::Long => ValM::Long,
            Value::Multi => ValM::Multi,
        }
    }
}

impl PartialEq for Value {
    fn eq(&self, other: &Value) -> (r: bool) {
        let r = match (self, other) {
            (Value::Null, Value::Null) => true,
            (Value::Bool(a), Value::Bool(b)) => a == b,
            (Value::U8(a), Value::U8(b)) => a == b,
            (Value::I16(a), Value::I16(b)) => a == b,
            (Value::I32(a), Value::I32(b)) => a == b,
            (Value::Currency(a), Value::Currency(b)) => a == b,
            (Value::F32(a), Value::F32(b)) => a == b,
            (Value::F64(a), Value::F64(b)) => a == b,
            (Value::DateTime(a), Value::DateTime(b)) => a == b,
            (Value::Binary(a), Value::Binary(b)) => bytes_eq(a, b),
            (Value::Text(a), Value::Text(b)) => *a == *b,
            (Value::LargeBinary(a), Value::LargeBinary(b)) => bytes_eq(a, b),
            (Value::LargeText(a), Value::LargeText(b)) => *a == *b,
            (Value::SuperLarge(a), Value::SuperLarge(b)) => bytes_eq(a, b),
            (Value::U32(a), Value::U32(b)) => a == b,
            (Value::I64(a), Value::I64(b)) => a == b,
            (Value::Guid(a), Value::Guid(b)) => bytes_eq(a, b),
            (Value::U16(a), Value::U16(b)) => a == b,
            (Value::Long, Value::Long) => true,
            (Value::Multi, Value::Multi) => true,
            _ => false,
        };
        r
    }
}

impl vstd::std_specs::cmp::PartialEqSpecImpl for Value {
    open spec fn obeys_eq_spec() -> bool {
        true
    }

    open spec fn eq_spec(&self, other: &Value) -> bool {
        self@ == other@
    }
}

impl Default for Value {
    /// The default value is `Null`, the one encoding representable for
    /// every column type.
    fn default() -> (r: Self)
        ensures
            r@ == ValM::Null,
    {
        Value::Null
    }
}

/// The empty value of a column type, representing the type itself.
pub open spec fn spec_value_of_type(t: ColType) -> ValM {
    match t {
        ColType::Null => ValM::Null,
        ColType::Bool => ValM::Bool(false),
        ColType::U8 => ValM::U8(0),
        ColType::I16 => ValM::I16(0),
        ColType::I32 => ValM::I32(0),
        ColType::Currency => ValM::Currency(0),
        ColType::F32 => ValM::F32(0),
        ColType::F64 => ValM::F64(0),
        ColType::DateTime => ValM::DateTime(0),
        ColType::Binary => ValM::Binary(Seq::empty()),
        ColType::Text => ValM::Text(Seq::empty()),
        ColType::LargeBinary => ValM::LargeBinary(Seq::empty()),
        ColType::LargeText => ValM::LargeText(Seq::empty()),
        ColType::SuperLarge => ValM::SuperLarge(Seq::empty()),
        ColType::U32 => ValM::U32(0),
        ColType::I64 => ValM::I64(0),
        ColType::Guid => ValM::Guid(Seq::empty()),
        ColType::U16 => ValM::U16(0),
    }
}

impl Value {
    /// An empty value of the given type, as a type witness.
    pub fn of_type(t: ColType) -> (r: Value)
        ensures
            r@ == spec_value_of_type(t),
    {
        let r = match t {
            ColType::Null => Value::Null,
            ColType::Bool => Value::Bool(false),
            ColType::U8 => Value::U8(0),
            ColType::I16 => Value::I16(0),
            ColType::I32 => Value::I32(0),
            ColType::Currency => Value::Currency(0),
            ColType::F32 => Value::F32(0),
            ColType::F64 => Value::F64(0),
            ColType::DateTime => Value::DateTime(0),
            ColType::Binary => Value::Binary(Vec::new()),
            ColType::Text => Value::Text(String::new()),
            ColType::LargeBinary => Value::LargeBinary(Vec::new()),
            ColType::LargeText => Value::LargeText(String::new()),
            ColType::SuperLarge => Value::SuperLarge(Vec::new()),
            ColType::U32 => Value::U32(0),
            ColType::I64 => Value::I64(0),
            ColType::Guid => Value::Guid(Vec::new()),
            ColType::U16 => Value::U16(0),
        };
        proof {
            assert(r@ =~= spec_value_of_type(t)) by {
                assert(Seq::<u8>::empty() =~= Seq::<u8>::empty());
            }
        }
        r
    }

    /// The FILETIME interpretation of a `DateTime` value.
    pub fn to_filetime(&self) -> (r: Option<FileTime>)
        ensures
            match self@ {
                ValM::DateTime(x) => r matches Some(ft) && ft.ticks() == x,
                _ => r is None,
            },
    {
        match self {
            Value::DateTime(x) => Some(FileTime::from_100ns(*x)),
            _ => None,
        }
    }

    /// The OLE interpretation of a `DateTime` value: the raw 64-bit payload,
    /// which callers read as the IEEE-754 bit pattern of fractional days
    /// since 1899-12-30. Turning it into a timestamp takes floating-point
    /// arithmetic, which is left to the caller.
    pub fn to_oletime(&self) -> (r: Option<u64>)
        ensures
            match self@ {
                ValM::DateTime(x) => r == Some(x),
                _ => r is None,
            },
    {
        match self {
            Value::DateTime(x) => Some(*x),
            _ => None,
        }
    }

    /// The boolean payload, if this is a `Bool` value.
    pub fn to_bool(&self) -> (r: Option<bool>)
        ensures
            match self@ {
                ValM::Bool(x) => r == Some(x),
                _ => r is None,
            },
    {
        match self {
            Value::Bool(x) => Some(*x),
            _ => None,
        }
    }

    /// The integer payload if it fits a `u8`, from any integer-like value.
    pub fn to_u8(&self) -> (r: Option<u8>)
        ensures
            r == spec_to_u8(self@),
    {
        match self {
            Value::U8(x) => Some(*x),
            Value::U16(x) => if *x <= 255 { Some(*x as u8) } else { None },
            Value::U32(x) => if *x <= 255 { Some(*x as u8) } else { None },
            Value::I16(x) => if 0 <= *x && *x <= 255 { Some(*x as u8) } else { None },
            Value::I32(x) => if 0 <= *x && *x <= 255 { Some(*x as u8) } else { None },
            Value::I64(x) => if 0 <= *x && *x <= 255 { Some(*x as u8) } else { None },
            Value::Currency(x) => if 0 <= *x && *x <= 255 { Some(*x as u8) } else { None },
            _ => None,
        }
    }

    /// The integer payload if it fits a `u16`, from any integer-like value.
    pub fn to_u16(&self) -> (r: Option<u16>)
        ensures
            r == spec_to_u16(self@),
    {
        match self {
            Value::U8(x) => Some(*x as u16),
            Value::U16(x) => Some(*x),
            Value::U32(x) => if *x <= 0xffff { Some(*x as u16) } else { None },
            Value::I16(x) => if 0 <= *x { Some(*x as u16) } else { None },
            Value::I32(x) => if 0 <= *x && *x <= 0xffff { Some(*x as u16) } else { None },
            Value::I64(x) => if 0 <= *x && *x <= 0xffff { Some(*x as u16) } else { None },
            Value::Currency(x) => if 0 <= *x && *x <= 0xffff { Some(*x as u16) } else { None },
            _ => None,
        }
    }

    /// The integer payload if it fits a `u32`, from any integer-like value.
    pub fn to_u32(&self) -> (r: Option<u32>)
        ensures
            r == spec_to_u32(self@),
    {
        match self {
            Value::U8(x) => Some(*x as u32),
            Value::U16(x) => Some(*x as u32),
            Value::U32(x) => Some(*x),
            Value::I16(x) => if 0 <= *x { Some(*x as u32) } else { None },
            Value::I32(x) => if 0 <= *x { Some(*x as u32) } else { None },
            Value::I64(x) => if 0 <= *x && *x <= 0xffffffffi64 { Some(*x as u32) } else { None },
            Value::Currency(x) => if 0 <= *x && *x <= 0xffffffffi64 {
                Some(*x as u32)
            } else {
                None
            },
            _ => None,
        }
    }

    /// The integer payload if it fits an `i16`, from any integer-like value.
    pub fn to_i16(&self) -> (r: Option<i16>)
        ensures
            r == spec_to_i16(self@),
    {
        match self {
            Value::U8(x) => Some(*x as i16),
            Value::U16(x) => if *x <= 0x7fff { Some(*x as i16) } else { None },
            Value::U32(x) => if *x <= 0x7fff { Some(*x as i16) } else { None },
            Value::I16(x) => Some(*x),
            Value::I32(x) => if -0x8000 <= *x && *x <= 0x7fff { Some(*x as i16) } else { None },
            Value::I64(x) => if -0x8000 <= *x && *x <= 0x7fff { Some(*x as i16) } else { None },
            Value::Currency(x) => if -0x8000 <= *x && *x <= 0x7fff {
                Some(*x as i16)
            } else {
                None
            },
            _ => None,
        }
    }

    /// The integer payload if it fits an `i32`, from any integer-like value.
    pub fn to_i32(&self) -> (r: Option<i32>)
        ensures
            r == spec_to_i32(self@),
    {
        match self {
            Value::U8(x) => Some(*x as i32),
            Value::U16(x) => Some(*x as i32),
            Value::U32(x) => if *x <= 0x7fffffff { Some(*x as i32) } else { None },
            Value::I16(x) => Some(*x as i32),
            Value::I32(x) => Some(*x),
            Value::I64(x) => if -0x80000000i64 <= *x && *x <= 0x7fffffffi64 {
                Some(*x as i32)
            } else {
                None
            },
            Value::Currency(x) => if -0x80000000i64 <= *x && *x <= 0x7fffffffi64 {
                Some(*x as i32)
            } else {
                None
            },
            _ => None,
        }
    }

    /// The integer payload if it fits an `i64`, from any integer-like value.
    pub fn to_i64(&self) -> (r: Option<i64>)
        ensures
            r == spec_to_i64(self@),
    {
        match self {
            Value::U8(x) => Some(*x as i64),
            Value::U16(x) => Some(*x as i64),
            Value::U32(x) => Some(*x as i64),
            Value::I16(x) => Some(*x as i64),
            Value::I32(x) => Some(*x as i64),
            Value::I64(x) => Some(*x),
            Value::Currency(x) => Some(*x),
            _ => None,
        }
    }

    /// The integer payload if it fits a `u64`; `DateTime` exposes its raw
    /// payload here as well.
    pub fn to_u64(&self) -> (r: Option<u64>)
        ensures
            r == spec_to_u64(self@),
    {
        match self {
            Value::U8(x) => Some(*x as u64),
            Value::U16(x) => Some(*x as u64),
            Value::U32(x) => Some(*x as u64),
            Value::I16(x) => if 0 <= *x { Some(*x as u64) } else { None },
            Value::I32(x) => if 0 <= *x { Some(*x as u64) } else { None },
            Value::I64(x) => if 0 <= *x { Some(*x as u64) } else { None },
            Value::Currency(x) => if 0 <= *x { Some(*x as u64) } else { None },
            Value::DateTime(x) => Some(*x),
            _ => None,
        }
    }

    /// The raw bytes of a binary-like value.
    pub fn as_bytes(&self) -> (r: Option<&Vec<u8>>)
        ensures
            match self@ {
                ValM::Binary(b) => r matches Some(v) && v@ == b,
                ValM::LargeBinary(b) => r matches Some(v) && v@ == b,
                ValM::SuperLarge(b) => r matches Some(v) && v@ == b,
                ValM::Guid(b) => r matches Some(v) && v@ == b,
                _ => r is None,
            },
    {
        match self {
            Value::Binary(v) => Some(v),
            Value::LargeBinary(v) => Some(v),
            Value::SuperLarge(v) => Some(v),
            Value::Guid(v) => Some(v),
            _ => None,
        }
    }

    /// The text of a text-like value.
    pub fn as_str(&self) -> (r: Option<&str>)
        ensures
            match self@ {
                ValM::Text(s) => r matches Some(v) && v@ == s,
                ValM::LargeText(s) => r matches Some(v) && v@ == s,
                _ => r is None,
            },
    {
        match self {
            Value::Text(s) => Some(s.as_str()),
            Value::LargeText(s) => Some(s.as_str()),
            _ => None,
        }
    }

    /// Whether this value is `Null`.
    pub fn is_null(&self) -> (r: bool)
        ensures
            r == (self@ is Null),
    {
        match self {
            Value::Null => true,
            _ => false,
        }
    }
}

pub open spec fn spec_to_u8(v: ValM) -> Option<u8> {
    match v {
        ValM::U8(x) => Some(x),
        ValM::U16(x) => if x <= 255 { Some(x as u8) } else { None },
        ValM::U32(x) => if x <= 255 { Some(x as u8) } else { None },
        ValM::I16(x) => if 0 <= x <= 255 { Some(x as u8) } else { None },
        ValM::I32(x) => if 0 <= x <= 255 { Some(x as u8) } else { None },
        ValM::I64(x) => if 0 <= x <= 255 { Some(x as u8) } else { None },
        ValM::Currency(x) => if 0 <= x <= 255 { Some(x as u8) } else { None },
        _ => None,
    }
}

pub open spec fn spec_to_u16(v: ValM) -> Option<u16> {
    match v {
        ValM::U8(x) => Some(x as u16),
        ValM::U16(x) => Some(x),
        ValM::U32(x) => if x <= 0xffff { Some(x as u16) } else { None },
        ValM::I16(x) => if 0 <= x { Some(x as u16) } else { None },
        ValM::I32(x) => if 0 <= x <= 0xffff { Some(x as u16) } else { None },
        ValM::I64(x) => if 0 <= x <= 0xffff { Some(x as u16) } else { None },
        ValM::Currency(x) => if 0 <= x <= 0xffff { Some(x as u16) } else { None },
        _ => None,
    }
}

pub open spec fn spec_to_u32(v: ValM) -> Option<u32> {
    match v {
        ValM::U8(x) => Some(x as u32),
        ValM::U16(x) => Some(x as u32),
        ValM::U32(x) => Some(x),
        ValM::I16(x) => if 0 <= x { Some(x as u32) } else { None },
        ValM::I32(x) => if 0 <= x { Some(x as u32) } else { None },
        ValM::I64(x) => if 0 <= x <= 0xffffffff { Some(x as u32) } else { None },
        ValM::Currency(x) => if 0 <= x <= 0xffffffff { Some(x as u32) } else { None },
        _ => None,
    }
}

pub open spec fn spec_to_i16(v: ValM) -> Option<i16> {
    match v {
        ValM::U8(x) => Some(x as i16),
        ValM::U16(x) => if x <= 0x7fff { Some(x as i16) } else { None },
        ValM::U32(x) => if x <= 0x7fff { Some(x as i16) } else { None },
        ValM::I16(x) => Some(x),
        ValM::I32(x) => if -0x8000 <= x <= 0x7fff { Some(x as i16) } else { None },
        ValM::I64(x) => if -0x8000 <= x <= 0x7fff { Some(x as i16) } else { None },
        ValM::Currency(x) => if -0x8000 <= x <= 0x7fff { Some(x as i16) } else { None },
        _ => None,
    }
}

pub open spec fn spec_to_i32(v: ValM) -> Option<i32> {
    match v {
        ValM::U8(x) => Some(x as i32),
        ValM::U16(x) => Some(x as i32),
        ValM::U32(x) => if x <= 0x7fffffff { Some(x as i32) } else { None },
        ValM::I16(x) => Some(x as i32),
        ValM::I32(x) => Some(x),
        ValM::I64(x) => if -0x80000000 <= x <= 0x7fffffff { Some(x as i32) } else { None },
        ValM::Currency(x) => if -0x80000000 <= x <= 0x7fffffff { Some(x as i32) } else { None },
        _ => None,
    }
}

pub open spec fn spec_to_i64(v: ValM) -> Option<i64> {
    match v {
        ValM::U8(x) => Some(x as i64),
        ValM::U16(x) => Some(x as i64),
        ValM::U32(x) => Some(x as i64),
        ValM::I16(x) => Some(x as i64),
        ValM::I32(x) => Some(x as i64),
        ValM::I64(x) => Some(x),
        ValM::Currency(x) => Some(x),
        _ => None,
    }
}

pub open spec fn spec_to_u64(v: ValM) -> Option<u64> {
    match v {
        ValM::U8(x) => Some(x as u64),
        ValM::U16(x) => Some(x as u64),
        ValM::U32(x) => Some(x as u64),
        ValM::I16(x) => if 0 <= x { Some(x as u64) } else { None },
        ValM::I32(x) => if 0 <= x { Some(x as u64) } else { None },
        ValM::I64(x) => if 0 <= x { Some(x as u64) } else { None },
        ValM::Currency(x) => if 0 <= x { Some(x as u64) } else { None },
        ValM::DateTime(x) => Some(x),
        _ => None,
    }
}

/// Decodes the bytes of a single present value of a column of type `t`.
/// Fixed-width types demand exactly their width; binary and text types
/// accept any length, text decoding lossily.
pub open spec fn spec_decode_prim(t: ColType, b: Seq<u8>) -> Result<ValM, Error> {
    match t {
        ColType::Null => Err(Error::Corrupt),
        ColType::Bool => if b.len() == 1 {
            Ok(ValM::Bool(b[0] != 0))
        } else {
            Err(Error::Corrupt)
        },
        ColType::U8 => if b.len() == 1 {
            Ok(ValM::U8(b[0]))
        } else {
            Err(Error::Corrupt)
        },
        ColType::I16 => if b.len() == 2 {
            Ok(ValM::I16(le16(b, 0) as i16))
        } else {
            Err(Error::Corrupt)
        },
        ColType::U16 => if b.len() == 2 {
            Ok(ValM::U16(le16(b, 0)))
        } else {
            Err(Error::Corrupt)
        },
        ColType::I32 => if b.len() == 4 {
            Ok(ValM::I32(le32(b, 0) as i32))
        } else {
            Err(Error::Corrupt)
        },
        ColType::U32 => if b.len() == 4 {
            Ok(ValM::U32(le32(b, 0)))
        } else {
            Err(Error::Corrupt)
        },
        ColType::F32 => if b.len() == 4 {
            Ok(ValM::F32(le32(b, 0)))
        } else {
            Err(Error::Corrupt)
        },
        ColType::Currency => if b.len() == 8 {
            Ok(ValM::Currency(le64(b, 0) as i64))
        } else {
            Err(Error::Corrupt)
        },
        ColType::I64 => if b.len() == 8 {
            Ok(ValM::I64(le64(b, 0) as i64))
        } else {
            Err(Error::Corrupt)
        },
        ColType::DateTime => if b.len() == 8 {
            Ok(ValM::DateTime(le64(b, 0)))
        } else {
            Err(Error::Corrupt)
        },
        ColType::F64 => if b.len() == 8 {
            Ok(ValM::F64(le64(b, 0)))
        } else {
            Err(Error::Corrupt)
        },
        ColType::Guid => if b.len() == 16 {
            Ok(ValM::Guid(b))
        } else {
            Err(Error::Corrupt)
        },
        ColType::Binary => Ok(ValM::Binary(b)),
        ColType::Text => Ok(ValM::Text(lossy_utf8(b))),
        ColType::LargeBinary => Ok(ValM::LargeBinary(b)),
        ColType::LargeText => Ok(ValM::LargeText(lossy_utf8(b))),
        ColType::SuperLarge => Ok(ValM::SuperLarge(b)),
    }
}

/// The view of a fallible value result.
pub open spec fn res_view(r: Result<Value, Error>) -> Result<ValM, Error> {
    match r {
        Ok(v) => Ok(v@),
        Err(e) => Err(e),
    }
}

/// Decodes one present value of type `t` from its bytes, consuming them.
pub fn decode_prim(t: ColType, b: Vec<u8>) -> (r: Result<Value, Error>)
    ensures
        res_view(r) == spec_decode_prim(t, b@),
{
    let blen: usize = b.len();
    match t {
        ColType::Null => Err(Error::Corrupt),
        ColType::Bool => if blen == 1 {
            Ok(Value::Bool(b[0] != 0))
        } else {
            Err(Error::Corrupt)
        },
        ColType::U8 => if blen == 1 {
            Ok(Value::U8(b[0]))
        } else {
            Err(Error::Corrupt)
        },
        ColType::I16 => if blen == 2 {
            Ok(Value::I16(read_le16(&b, 0) as i16))
        } else {
            Err(Error::Corrupt)
        },
        ColType::U16 => if blen == 2 {
            Ok(Value::U16(read_le16(&b, 0)))
        } else {
            Err(Error::Corrupt)
        },
        ColType::I32 => if blen == 4 {
            Ok(Value::I32(read_le32(&b, 0) as i32))
        } else {
            Err(Error::Corrupt)
        },
        ColType::U32 => if blen == 4 {
            Ok(Value::U32(read_le32(&b, 0)))
        } else {
            Err(Error::Corrupt)
        },
        ColType::F32 => if blen == 4 {
            Ok(Value::F32(read_le32(&b, 0)))
        } else {
            Err(Error::Corrupt)
        },
        ColType::Currency => if blen == 8 {
            Ok(Value::Currency(read_le64(&b, 0) as i64))
        } else {
            Err(Error::Corrupt)
        },
        ColType::I64 => if blen == 8 {
            Ok(Value::I64(read_le64(&b, 0) as i64))
        } else {
            Err(Error::Corrupt)
        },
        ColType::DateTime => if blen == 8 {
            Ok(Value::DateTime(read_le64(&b, 0)))
        } else {
            Err(Error::Corrupt)
        },
        ColType::F64 => if blen == 8 {
            Ok(Value::F64(read_le64(&b, 0)))
        } else {
            Err(Error::Corrupt)
        },
        ColType::Guid => if blen == 16 {
            Ok(Value::Guid(b))
        } else {
            Err(Error::Corrupt)
        },
        ColType::Binary => Ok(Value::Binary(b)),
        ColType::Text => Ok(Value::Text(utf8_lossy(&b))),
        ColType::LargeBinary => Ok(Value::LargeBinary(b)),
        ColType::LargeText => Ok(Value::LargeText(utf8_lossy(&b))),
        ColType::SuperLarge => Ok(Value::SuperLarge(b)),
    }
}

} // verus!
