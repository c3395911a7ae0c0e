//! The wire form of schemas and rows.
//!
//! A stored value is a canonical textual rendering wrapped in a fenced
//! block. This module states the rendering (`ser_*`), the tolerant
//! fence stripping (`strip_fence`), and the parser (`parse_*`) as spec
//! functions; the executable encoder and decoder implement them
//! exactly, and the round-trip law is proved over them.
//!
//! The rendering is deliberately a single canonical line rather than a
//! pretty-printed block: one rendering per value keeps the parser's
//! round trip exact, and the fenced block already gives the stored
//! message its readable shape. The fence label is kept for
//! compatibility on the read path; content in other shapes (including
//! pretty-printed text) does not decode, and a row in such shape is
//! served as the raw-content fallback.
//!
//! The grammar is flat: a row is one list of atomic values or of named
//! fields, a schema is one fixed-shape record. Strings quote `"` and
//! `\` with a backslash and carry every other byte verbatim; integers
//! are decimal with an optional leading minus; every other atom is a
//! tagged term, `Tag(payload)`, whose payload is again a numeral or a
//! quoted string.

use vstd::prelude::*;

use crate::numeral::{dec_digits, dec_val, is_digit};
use crate::value::{ColumnDefV, ColumnUnique, DataType, FieldV, RowV, SchemaV, ValueV};

verus! {

/// The quote byte `"`.
pub open spec fn qu() -> u8 {
    0x22
}

/// The backslash byte `\`.
pub open spec fn bs() -> u8 {
    0x5C
}

/// The literal `null`.
pub open spec fn null_lit() -> Seq<u8> {
    seq![0x6E, 0x75, 0x6C, 0x6C]
}

/// The literal `true`.
pub open spec fn true_lit() -> Seq<u8> {
    seq![0x74, 0x72, 0x75, 0x65]
}

/// The literal `false`.
pub open spec fn false_lit() -> Seq<u8> {
    seq![0x66, 0x61, 0x6C, 0x73, 0x65]
}

/// The element separator `, `.
pub open spec fn sep_lit() -> Seq<u8> {
    seq![0x2C, 0x20]
}

/// The key separator `: `.
pub open spec fn colon_lit() -> Seq<u8> {
    seq![0x3A, 0x20]
}

/// The escape of one string byte.
pub open spec fn esc_byte(b: u8) -> Seq<u8> {
    if b == qu() || b == bs() {
        seq![bs(), b]
    } else {
        seq![b]
    }
}

/// The escaped body of a string.
pub open spec fn ser_bytes(s: Seq<u8>) -> Seq<u8>
    decreases s.len(),
{
    if s.len() == 0 {
        Seq::<u8>::empty()
    } else {
        esc_byte(s[0]) + ser_bytes(s.skip(1))
    }
}

/// A quoted, escaped string.
pub open spec fn ser_string(s: Seq<u8>) -> Seq<u8> {
    seq![qu()] + ser_bytes(s) + seq![qu()]
}

/// A decimal integer with an optional leading minus, over the
/// mathematical integers.
pub open spec fn ser_int_of(v: int) -> Seq<u8> {
    if v < 0 {
        seq![0x2Du8] + dec_digits((-v) as nat)
    } else {
        dec_digits(v as nat)
    }
}

/// The magnitude of an integer.
pub open spec fn abs_of(v: int) -> nat {
    if v < 0 {
        (-v) as nat
    } else {
        v as nat
    }
}

/// A rendered truth value.
pub open spec fn ser_bool(b: bool) -> Seq<u8> {
    if b {
        true_lit()
    } else {
        false_lit()
    }
}

/// Optional opaque text: `null`, or a quoted string.
pub open spec fn ser_opt_text(t: Option<Seq<u8>>) -> Seq<u8> {
    match t {
        Option::None => null_lit(),
        Option::Some(s) => ser_string(s),
    }
}

/// A truth value at `i`.
pub open spec fn parse_bool(s: Seq<u8>, i: int) -> Option<(bool, int)> {
    if at(s, i, true_lit()) {
        Option::Some((true, i + 4))
    } else if at(s, i, false_lit()) {
        Option::Some((false, i + 5))
    } else {
        Option::None
    }
}

/// Optional opaque text at `i`.
pub open spec fn parse_opt_text(s: Seq<u8>, i: int) -> Option<(Option<Seq<u8>>, int)> {
    if at(s, i, null_lit()) {
        Option::Some((Option::None, i + 4))
    } else {
        match parse_string(s, i) {
            Option::Some((t, j)) => Option::Some((Option::Some(t), j)),
            Option::None => Option::None,
        }
    }
}

/// The closing parenthesis of a tagged value.
pub open spec fn rp() -> Seq<u8> {
    seq![0x29u8]
}

/// The tag `I8(`.
pub open spec fn tag_i8() -> Seq<u8> {
    seq![0x49, 0x38, 0x28]
}

/// The tag `I16(`.
pub open spec fn tag_i16() -> Seq<u8> {
    seq![0x49, 0x31, 0x36, 0x28]
}

/// The tag `I32(`.
pub open spec fn tag_i32() -> Seq<u8> {
    seq![0x49, 0x33, 0x32, 0x28]
}

/// The tag `I128(`.
pub open spec fn tag_i128() -> Seq<u8> {
    seq![0x49, 0x31, 0x32, 0x38, 0x28]
}

/// The tag `IntervalMonth(`.
pub open spec fn tag_ivmon() -> Seq<u8> {
    seq![0x49, 0x6E, 0x74, 0x65, 0x72, 0x76, 0x61, 0x6C, 0x4D, 0x6F, 0x6E, 0x74, 0x68, 0x28]
}

/// The tag `IntervalMicrosecond(`.
pub open spec fn tag_ivmic() -> Seq<u8> {
    seq![0x49, 0x6E, 0x74, 0x65, 0x72, 0x76, 0x61, 0x6C, 0x4D, 0x69, 0x63, 0x72, 0x6F, 0x73, 0x65, 0x63, 0x6F, 0x6E, 0x64, 0x28]
}

/// The tag `Inet(`.
pub open spec fn tag_inet() -> Seq<u8> {
    seq![0x49, 0x6E, 0x65, 0x74, 0x28]
}

/// The tag `U8(`.
pub open spec fn tag_u8() -> Seq<u8> {
    seq![0x55, 0x38, 0x28]
}

/// The tag `U16(`.
pub open spec fn tag_u16() -> Seq<u8> {
    seq![0x55, 0x31, 0x36, 0x28]
}

/// The tag `U32(`.
pub open spec fn tag_u32() -> Seq<u8> {
    seq![0x55, 0x33, 0x32, 0x28]
}

/// The tag `U64(`.
pub open spec fn tag_u64() -> Seq<u8> {
    seq![0x55, 0x36, 0x34, 0x28]
}

/// The tag `U128(`.
pub open spec fn tag_u128() -> Seq<u8> {
    seq![0x55, 0x31, 0x32, 0x38, 0x28]
}

/// The tag `Uuid(`.
pub open spec fn tag_uuid() -> Seq<u8> {
    seq![0x55, 0x75, 0x69, 0x64, 0x28]
}

/// The tag `Date(`.
pub open spec fn tag_date() -> Seq<u8> {
    seq![0x44, 0x61, 0x74, 0x65, 0x28]
}

/// The tag `Decimal(`.
pub open spec fn tag_dec() -> Seq<u8> {
    seq![0x44, 0x65, 0x63, 0x69, 0x6D, 0x61, 0x6C, 0x28]
}

/// The tag `Time(`.
pub open spec fn tag_time() -> Seq<u8> {
    seq![0x54, 0x69, 0x6D, 0x65, 0x28]
}

/// The tag `Timestamp(`.
pub open spec fn tag_ts() -> Seq<u8> {
    seq![0x54, 0x69, 0x6D, 0x65, 0x73, 0x74, 0x61, 0x6D, 0x70, 0x28]
}

/// The tag `Bytea(`.
pub open spec fn tag_bytea() -> Seq<u8> {
    seq![0x42, 0x79, 0x74, 0x65, 0x61, 0x28]
}

/// The tag `F32(`.
pub open spec fn tag_f32() -> Seq<u8> {
    seq![0x46, 0x33, 0x32, 0x28]
}

/// The tag `F64(`.
pub open spec fn tag_f64() -> Seq<u8> {
    seq![0x46, 0x36, 0x34, 0x28]
}

/// The tag `Point(`.
pub open spec fn tag_point() -> Seq<u8> {
    seq![0x50, 0x6F, 0x69, 0x6E, 0x74, 0x28]
}

/// The tag `List(`.
pub open spec fn tag_list() -> Seq<u8> {
    seq![0x4C, 0x69, 0x73, 0x74, 0x28]
}

/// The tag `Map(`.
pub open spec fn tag_dict() -> Seq<u8> {
    seq![0x4D, 0x61, 0x70, 0x28]
}

/// One atomic value. Integers of every width other than the default
/// one — and the calendar, interval, identifier, decimal, address,
/// byte-string, floating-point-bits, point and nested-text values —
/// are written as a tagged term, `Tag(payload)`.
pub open spec fn ser_value(v: ValueV) -> Seq<u8> {
    match v {
        ValueV::Null => null_lit(),
        ValueV::Bool(b) => if b {
            true_lit()
        } else {
            false_lit()
        },
        ValueV::Int(n) => ser_int_of(n as int),
        ValueV::Str(s) => ser_string(s),
        ValueV::I8(n) => tag_i8() + ser_int_of(n as int) + rp(),
        ValueV::I16(n) => tag_i16() + ser_int_of(n as int) + rp(),
        ValueV::I32(n) => tag_i32() + ser_int_of(n as int) + rp(),
        ValueV::I128(n) => tag_i128() + ser_int_of(n as int) + rp(),
        ValueV::U8(n) => tag_u8() + ser_int_of(n as int) + rp(),
        ValueV::U16(n) => tag_u16() + ser_int_of(n as int) + rp(),
        ValueV::U32(n) => tag_u32() + ser_int_of(n as int) + rp(),
        ValueV::U64(n) => tag_u64() + ser_int_of(n as int) + rp(),
        ValueV::U128(n) => tag_u128() + ser_int_of(n as int) + rp(),
        ValueV::Uuid(n) => tag_uuid() + ser_int_of(n as int) + rp(),
        ValueV::Date(d) => tag_date() + ser_int_of(d as int) + rp(),
        ValueV::IntervalMonth(m) => tag_ivmon() + ser_int_of(m as int) + rp(),
        ValueV::IntervalMicrosecond(us) => tag_ivmic() + ser_int_of(us as int) + rp(),
        ValueV::Time(sec, ns) => tag_time() + ser_int_of(sec as int) + sep_lit() + ser_int_of(
            ns as int,
        ) + rp(),
        ValueV::Timestamp(sec, ns) => tag_ts() + ser_int_of(sec as int) + sep_lit() + ser_int_of(
            ns as int,
        ) + rp(),
        ValueV::Bytea(s) => tag_bytea() + ser_string(s) + rp(),
        ValueV::Decimal(t) => tag_dec() + ser_string(t) + rp(),
        ValueV::Inet(t) => tag_inet() + ser_string(t) + rp(),
        ValueV::F32Bits(b) => tag_f32() + ser_int_of(b as int) + rp(),
        ValueV::F64Bits(b) => tag_f64() + ser_int_of(b as int) + rp(),
        ValueV::Point(x, y) => tag_point() + ser_int_of(x as int) + sep_lit() + ser_int_of(
            y as int,
        ) + rp(),
        ValueV::List(t) => tag_list() + ser_string(t) + rp(),
        ValueV::Dict(t) => tag_dict() + ser_string(t) + rp(),
    }
}

/// A nonempty `, `-separated list of values.
pub open spec fn ser_values(vs: Seq<ValueV>) -> Seq<u8>
    decreases vs.len(),
{
    if vs.len() == 0 {
        Seq::<u8>::empty()
    } else if vs.len() == 1 {
        ser_value(vs[0])
    } else {
        ser_value(vs[0]) + sep_lit() + ser_values(vs.skip(1))
    }
}

/// One named field, `"name": value`.
pub open spec fn ser_field(f: FieldV) -> Seq<u8> {
    ser_string(f.name) + colon_lit() + ser_value(f.value)
}

/// A nonempty `, `-separated list of named fields.
pub open spec fn ser_fields(fs: Seq<FieldV>) -> Seq<u8>
    decreases fs.len(),
{
    if fs.len() == 0 {
        Seq::<u8>::empty()
    } else if fs.len() == 1 {
        ser_field(fs[0])
    } else {
        ser_field(fs[0]) + sep_lit() + ser_fields(fs.skip(1))
    }
}

/// A row: `[..]` for positional values, `{..}` for named fields.
pub open spec fn ser_row(r: RowV) -> Seq<u8> {
    match r {
        RowV::Values(vs) => seq![0x5Bu8] + ser_values(vs) + seq![0x5Du8],
        RowV::Fields(fs) => seq![0x7Bu8] + ser_fields(fs) + seq![0x7Du8],
    }
}

/// The header `{"name": `.
pub open spec fn name_hdr() -> Seq<u8> {
    seq![0x7B, 0x22, 0x6E, 0x61, 0x6D, 0x65, 0x22, 0x3A, 0x20]
}

/// The header `, "data_type": `.
pub open spec fn type_hdr() -> Seq<u8> {
    seq![0x2C, 0x20, 0x22, 0x64, 0x61, 0x74, 0x61, 0x5F, 0x74, 0x79, 0x70, 0x65, 0x22, 0x3A, 0x20]
}

/// The header `, "unique": `.
pub open spec fn uniq_hdr() -> Seq<u8> {
    seq![0x2C, 0x20, 0x22, 0x75, 0x6E, 0x69, 0x71, 0x75, 0x65, 0x22, 0x3A, 0x20]
}

/// The header `, "nullable": `.
pub open spec fn null_hdr() -> Seq<u8> {
    seq![0x2C, 0x20, 0x22, 0x6E, 0x75, 0x6C, 0x6C, 0x61, 0x62, 0x6C, 0x65, 0x22, 0x3A, 0x20]
}

/// The header `, "default": `.
pub open spec fn dflt_hdr() -> Seq<u8> {
    seq![0x2C, 0x20, 0x22, 0x64, 0x65, 0x66, 0x61, 0x75, 0x6C, 0x74, 0x22, 0x3A, 0x20]
}

/// The header `, "comment": `.
pub open spec fn cmt_hdr() -> Seq<u8> {
    seq![0x2C, 0x20, 0x22, 0x63, 0x6F, 0x6D, 0x6D, 0x65, 0x6E, 0x74, 0x22, 0x3A, 0x20]
}

/// The header `, "indexes": `.
pub open spec fn idx_hdr() -> Seq<u8> {
    seq![0x2C, 0x20, 0x22, 0x69, 0x6E, 0x64, 0x65, 0x78, 0x65, 0x73, 0x22, 0x3A, 0x20]
}

/// The header `, "engine": `.
pub open spec fn eng_hdr() -> Seq<u8> {
    seq![0x2C, 0x20, 0x22, 0x65, 0x6E, 0x67, 0x69, 0x6E, 0x65, 0x22, 0x3A, 0x20]
}

/// The header `, "foreign_keys": `.
pub open spec fn fk_hdr() -> Seq<u8> {
    seq![0x2C, 0x20, 0x22, 0x66, 0x6F, 0x72, 0x65, 0x69, 0x67, 0x6E, 0x5F, 0x6B, 0x65, 0x79, 0x73, 0x22, 0x3A, 0x20]
}

/// The header `{"table_name": `.
pub open spec fn table_hdr() -> Seq<u8> {
    seq![0x7B, 0x22, 0x74, 0x61, 0x62, 0x6C, 0x65, 0x5F, 0x6E, 0x61, 0x6D, 0x65, 0x22, 0x3A, 0x20]
}

/// The header `, "column_defs": `.
pub open spec fn cols_hdr() -> Seq<u8> {
    seq![
        0x2C, 0x20, 0x22, 0x63, 0x6F, 0x6C, 0x75, 0x6D, 0x6E, 0x5F, 0x64, 0x65, 0x66, 0x73, 0x22,
        0x3A, 0x20,
    ]
}

/// The name bytes of a column type tag.
pub open spec fn dtype_name(d: DataType) -> Seq<u8> {
    match d {
        DataType::Boolean => seq![0x42, 0x6F, 0x6F, 0x6C, 0x65, 0x61, 0x6E],
        DataType::Int8 => seq![0x49, 0x6E, 0x74, 0x38],
        DataType::Int16 => seq![0x49, 0x6E, 0x74, 0x31, 0x36],
        DataType::Int32 => seq![0x49, 0x6E, 0x74, 0x33, 0x32],
        DataType::Int => seq![0x49, 0x6E, 0x74],
        DataType::Int128 => seq![0x49, 0x6E, 0x74, 0x31, 0x32, 0x38],
        DataType::Uint8 => seq![0x55, 0x69, 0x6E, 0x74, 0x38],
        DataType::Uint16 => seq![0x55, 0x69, 0x6E, 0x74, 0x31, 0x36],
        DataType::Uint32 => seq![0x55, 0x69, 0x6E, 0x74, 0x33, 0x32],
        DataType::Uint64 => seq![0x55, 0x69, 0x6E, 0x74, 0x36, 0x34],
        DataType::Uint128 => seq![0x55, 0x69, 0x6E, 0x74, 0x31, 0x32, 0x38],
        DataType::Float32 => seq![0x46, 0x6C, 0x6F, 0x61, 0x74, 0x33, 0x32],
        DataType::Float => seq![0x46, 0x6C, 0x6F, 0x61, 0x74],
        DataType::Text => seq![0x54, 0x65, 0x78, 0x74],
        DataType::Bytea => seq![0x42, 0x79, 0x74, 0x65, 0x61],
        DataType::Inet => seq![0x49, 0x6E, 0x65, 0x74],
        DataType::Date => seq![0x44, 0x61, 0x74, 0x65],
        DataType::Timestamp => seq![0x54, 0x69, 0x6D, 0x65, 0x73, 0x74, 0x61, 0x6D, 0x70],
        DataType::Time => seq![0x54, 0x69, 0x6D, 0x65],
        DataType::Interval => seq![0x49, 0x6E, 0x74, 0x65, 0x72, 0x76, 0x61, 0x6C],
        DataType::Uuid => seq![0x55, 0x75, 0x69, 0x64],
        DataType::Dict => seq![0x4D, 0x61, 0x70],
        DataType::List => seq![0x4C, 0x69, 0x73, 0x74],
        DataType::Decimal => seq![0x44, 0x65, 0x63, 0x69, 0x6D, 0x61, 0x6C],
        DataType::Point => seq![0x50, 0x6F, 0x69, 0x6E, 0x74],
    }
}

/// A column type name, quoted.
pub open spec fn ser_dtype(d: DataType) -> Seq<u8> {
    ser_string(dtype_name(d))
}

/// The column type a name denotes, if any.
pub open spec fn dtype_of_name(t: Seq<u8>) -> Option<DataType> {
    if t == dtype_name(DataType::Boolean) {
        Option::Some(DataType::Boolean)
    } else if t == dtype_name(DataType::Int8) {
        Option::Some(DataType::Int8)
    } else if t == dtype_name(DataType::Int16) {
        Option::Some(DataType::Int16)
    } else if t == dtype_name(DataType::Int32) {
        Option::Some(DataType::Int32)
    } else if t == dtype_name(DataType::Int) {
        Option::Some(DataType::Int)
    } else if t == dtype_name(DataType::Int128) {
        Option::Some(DataType::Int128)
    } else if t == dtype_name(DataType::Uint8) {
        Option::Some(DataType::Uint8)
    } else if t == dtype_name(DataType::Uint16) {
        Option::Some(DataType::Uint16)
    } else if t == dtype_name(DataType::Uint32) {
        Option::Some(DataType::Uint32)
    } else if t == dtype_name(DataType::Uint64) {
        Option::Some(DataType::Uint64)
    } else if t == dtype_name(DataType::Uint128) {
        Option::Some(DataType::Uint128)
    } else if t == dtype_name(DataType::Float32) {
        Option::Some(DataType::Float32)
    } else if t == dtype_name(DataType::Float) {
        Option::Some(DataType::Float)
    } else if t == dtype_name(DataType::Text) {
        Option::Some(DataType::Text)
    } else if t == dtype_name(DataType::Bytea) {
        Option::Some(DataType::Bytea)
    } else if t == dtype_name(DataType::Inet) {
        Option::Some(DataType::Inet)
    } else if t == dtype_name(DataType::Date) {
        Option::Some(DataType::Date)
    } else if t == dtype_name(DataType::Timestamp) {
        Option::Some(DataType::Timestamp)
    } else if t == dtype_name(DataType::Time) {
        Option::Some(DataType::Time)
    } else if t == dtype_name(DataType::Interval) {
        Option::Some(DataType::Interval)
    } else if t == dtype_name(DataType::Uuid) {
        Option::Some(DataType::Uuid)
    } else if t == dtype_name(DataType::Dict) {
        Option::Some(DataType::Dict)
    } else if t == dtype_name(DataType::List) {
        Option::Some(DataType::List)
    } else if t == dtype_name(DataType::Decimal) {
        Option::Some(DataType::Decimal)
    } else if t == dtype_name(DataType::Point) {
        Option::Some(DataType::Point)
    } else {
        Option::None
    }
}


/// A uniqueness constraint name, quoted.
pub open spec fn ser_unique(u: ColumnUnique) -> Seq<u8> {
    match u {
        ColumnUnique::Plain => seq![qu(), 0x70, 0x6C, 0x61, 0x69, 0x6E, qu()],
        ColumnUnique::Unique => seq![qu(), 0x75, 0x6E, 0x69, 0x71, 0x75, 0x65, qu()],
        ColumnUnique::Primary => seq![qu(), 0x70, 0x72, 0x69, 0x6D, 0x61, 0x72, 0x79, qu()],
    }
}

/// One column definition record.
pub open spec fn ser_coldef(c: ColumnDefV) -> Seq<u8> {
    name_hdr() + ser_string(c.name) + type_hdr() + ser_dtype(c.data_type) + null_hdr()
        + ser_bool(c.nullable) + dflt_hdr() + ser_opt_text(c.default) + cmt_hdr() + ser_opt_text(
        c.comment,
    ) + uniq_hdr() + ser_unique(c.unique) + seq![0x7Du8]
}

/// A nonempty `, `-separated list of column definitions.
pub open spec fn ser_coldef_list(cs: Seq<ColumnDefV>) -> Seq<u8>
    decreases cs.len(),
{
    if cs.len() == 0 {
        Seq::<u8>::empty()
    } else if cs.len() == 1 {
        ser_coldef(cs[0])
    } else {
        ser_coldef(cs[0]) + sep_lit() + ser_coldef_list(cs.skip(1))
    }
}

/// The column definitions: `null` for a schemaless table, else `[..]`.
pub open spec fn ser_coldefs(cs: Option<Seq<ColumnDefV>>) -> Seq<u8> {
    match cs {
        Option::None => null_lit(),
        Option::Some(cs) => seq![0x5Bu8] + ser_coldef_list(cs) + seq![0x5Du8],
    }
}

/// A schema record.
pub open spec fn ser_schema(s: SchemaV) -> Seq<u8> {
    table_hdr() + ser_string(s.table_name) + cols_hdr() + ser_coldefs(s.column_defs) + idx_hdr()
        + ser_opt_text(s.indexes) + eng_hdr() + ser_opt_text(s.engine) + fk_hdr() + ser_opt_text(
        s.foreign_keys,
    ) + cmt_hdr() + ser_opt_text(s.comment) + seq![0x7Du8]
}

// ---------------------------------------------------------------------
// Fencing
// ---------------------------------------------------------------------

/// The fence label <code>```json</code>.
pub open spec fn fence_word() -> Seq<u8> {
    seq![0x60, 0x60, 0x60, 0x6A, 0x73, 0x6F, 0x6E]
}

/// The closing backticks.
pub open spec fn backticks() -> Seq<u8> {
    seq![0x60, 0x60, 0x60]
}

/// A rendered record wrapped in its fenced block.
pub open spec fn fence_wrap(inner: Seq<u8>) -> Seq<u8> {
    seq![0x0Au8] + fence_word() + seq![0x0Au8] + inner + seq![0x0Au8] + backticks()
}

/// Whether `b` is ASCII whitespace (space, tab, line feed, return).
pub open spec fn is_ws(b: u8) -> bool {
    b == 0x20 || b == 0x09 || b == 0x0A || b == 0x0D
}

/// `s` without leading whitespace.
pub open spec fn trim_front(s: Seq<u8>) -> Seq<u8>
    decreases s.len(),
{
    if s.len() > 0 && is_ws(s[0]) {
        trim_front(s.skip(1))
    } else {
        s
    }
}

/// `s` without trailing whitespace.
pub open spec fn trim_back(s: Seq<u8>) -> Seq<u8>
    decreases s.len(),
{
    if s.len() > 0 && is_ws(s.last()) {
        trim_back(s.drop_last())
    } else {
        s
    }
}

/// `s` without leading or trailing whitespace.
pub open spec fn trim(s: Seq<u8>) -> Seq<u8> {
    trim_back(trim_front(s))
}

/// The content of a possibly fenced block: outer whitespace dropped,
/// then the fence label and the closing backticks stripped where
/// present (their absence is tolerated), then inner whitespace
/// dropped.
pub open spec fn strip_fence(s: Seq<u8>) -> Seq<u8> {
    let t = trim(s);
    let t1 = if t.len() >= fence_word().len() && t.take(fence_word().len() as int)
        == fence_word() {
        t.skip(fence_word().len() as int)
    } else {
        t
    };
    let t2 = if t1.len() >= backticks().len() && t1.skip(t1.len() - backticks().len())
        == backticks() {
        t1.take(t1.len() - backticks().len())
    } else {
        t1
    };
    trim(t2)
}

// ---------------------------------------------------------------------
// Parsing
// ---------------------------------------------------------------------

/// Whether the bytes `t` stand in `s` at position `i`.
pub open spec fn at(s: Seq<u8>, i: int, t: Seq<u8>) -> bool {
    0 <= i && i + t.len() <= s.len() && s.subrange(i, i + t.len()) == t
}

/// The position after `t`, if `t` stands at `i`.
pub open spec fn expect(s: Seq<u8>, i: int, t: Seq<u8>) -> Option<int> {
    if at(s, i, t) {
        Option::Some(i + t.len() as int)
    } else {
        Option::None
    }
}

/// The string body from `i` up to the closing quote: the decoded bytes
/// and the position after the quote.
pub open spec fn parse_str_body(s: Seq<u8>, i: int) -> Option<(Seq<u8>, int)>
    decreases s.len() - i,
{
    if !(0 <= i < s.len()) {
        Option::None
    } else if s[i] == qu() {
        Option::Some((Seq::<u8>::empty(), i + 1))
    } else if s[i] == bs() {
        if i + 1 < s.len() && (s[i + 1] == qu() || s[i + 1] == bs()) {
            match parse_str_body(s, i + 2) {
                Option::Some((t, j)) => Option::Some((seq![s[i + 1]] + t, j)),
                Option::None => Option::None,
            }
        } else {
            Option::None
        }
    } else {
        match parse_str_body(s, i + 1) {
            Option::Some((t, j)) => Option::Some((seq![s[i]] + t, j)),
            Option::None => Option::None,
        }
    }
}

/// A quoted string at `i`.
pub open spec fn parse_string(s: Seq<u8>, i: int) -> Option<(Seq<u8>, int)> {
    if 0 <= i < s.len() && s[i] == qu() {
        parse_str_body(s, i + 1)
    } else {
        Option::None
    }
}

/// The end of the digit run that starts at `i`.
pub open spec fn digit_run_end(s: Seq<u8>, i: int) -> int
    decreases s.len() - i,
{
    if 0 <= i < s.len() && is_digit(s[i]) {
        digit_run_end(s, i + 1)
    } else {
        i
    }
}

/// A signed decimal numeral at `i`: an optional minus, then a
/// maximal digit run; the sign, the magnitude and the end position.
pub open spec fn parse_sint(s: Seq<u8>, i: int) -> Option<(bool, nat, int)> {
    if !(0 <= i < s.len()) {
        Option::None
    } else {
        let neg = s[i] == 0x2D;
        let j0 = if neg {
            i + 1
        } else {
            i
        };
        let j1 = digit_run_end(s, j0);
        if j1 == j0 {
            Option::None
        } else {
            Option::Some((neg, dec_val(s.subrange(j0, j1)), j1))
        }
    }
}

/// A decimal integer at `i`, rejected if its value does not fit the
/// default integer type.
pub open spec fn parse_int(s: Seq<u8>, i: int) -> Option<(i64, int)> {
    match parse_sint(s, i) {
        Option::None => Option::None,
        Option::Some((neg, m, j)) => if neg {
            if m <= 0x8000_0000_0000_0000 {
                Option::Some(((-(m as int)) as i64, j))
            } else {
                Option::None
            }
        } else {
            if m <= 0x7FFF_FFFF_FFFF_FFFF {
                Option::Some((m as i64, j))
            } else {
                Option::None
            }
        },
    }
}

/// One atomic value at `i`. Opaque: proofs about composite forms use
/// the per-value round-trip lemmas instead of this definition.
#[verifier::opaque]
pub open spec fn parse_value(s: Seq<u8>, i: int) -> Option<(ValueV, int)> {
    if !(0 <= i < s.len()) {
        Option::None
    } else if s[i] == qu() {
        match parse_string(s, i) {
            Option::Some((t, j)) => Option::Some((ValueV::Str(t), j)),
            Option::None => Option::None,
        }
    } else if s[i] == 0x6E {
        match expect(s, i, null_lit()) {
            Option::Some(j) => Option::Some((ValueV::Null, j)),
            Option::None => Option::None,
        }
    } else if s[i] == 0x74 {
        match expect(s, i, true_lit()) {
            Option::Some(j) => Option::Some((ValueV::Bool(true), j)),
            Option::None => Option::None,
        }
    } else if s[i] == 0x66 {
        match expect(s, i, false_lit()) {
            Option::Some(j) => Option::Some((ValueV::Bool(false), j)),
            Option::None => Option::None,
        }
    } else if s[i] == 0x2D || is_digit(s[i]) {
        match parse_int(s, i) {
            Option::Some((n, j)) => Option::Some((ValueV::Int(n), j)),
            Option::None => Option::None,
        }
    } else if s[i] == 0x49 {
        if at(s, i, tag_i8()) {
            match parse_sint(s, i + tag_i8().len()) {
                Option::None => Option::None,
                Option::Some((neg, m, j)) => if if neg { m <= 0x80 } else { m + 1 <= 0x80 } {
                    match expect(s, j, rp()) {
                        Option::Some(j2) => Option::Some((ValueV::I8(((if neg { -(m as int) } else { m as int }) as i8)), j2)),
                        Option::None => Option::None,
                    }
                } else {
                    Option::None
                },
            }
        } else if at(s, i, tag_i16()) {
            match parse_sint(s, i + tag_i16().len()) {
                Option::None => Option::None,
                Option::Some((neg, m, j)) => if if neg { m <= 0x8000 } else { m + 1 <= 0x8000 } {
                    match expect(s, j, rp()) {
                        Option::Some(j2) => Option::Some((ValueV::I16(((if neg { -(m as int) } else { m as int }) as i16)), j2)),
                        Option::None => Option::None,
                    }
                } else {
                    Option::None
                },
            }
        } else if at(s, i, tag_i32()) {
            match parse_sint(s, i + tag_i32().len()) {
                Option::None => Option::None,
                Option::Some((neg, m, j)) => if if neg { m <= 0x8000_0000 } else { m + 1 <= 0x8000_0000 } {
                    match expect(s, j, rp()) {
                        Option::Some(j2) => Option::Some((ValueV::I32(((if neg { -(m as int) } else { m as int }) as i32)), j2)),
                        Option::None => Option::None,
                    }
                } else {
                    Option::None
                },
            }
        } else if at(s, i, tag_i128()) {
            match parse_sint(s, i + tag_i128().len()) {
                Option::None => Option::None,
                Option::Some((neg, m, j)) => if if neg { m <= 0x8000_0000_0000_0000_0000_0000_0000_0000 } else { m + 1 <= 0x8000_0000_0000_0000_0000_0000_0000_0000 } {
                    match expect(s, j, rp()) {
                        Option::Some(j2) => Option::Some((ValueV::I128(((if neg { -(m as int) } else { m as int }) as i128)), j2)),
                        Option::None => Option::None,
                    }
                } else {
                    Option::None
                },
            }
        } else if at(s, i, tag_ivmon()) {
            match parse_sint(s, i + tag_ivmon().len()) {
                Option::None => Option::None,
                Option::Some((neg, m, j)) => if if neg { m <= 0x8000_0000 } else { m + 1 <= 0x8000_0000 } {
                    match expect(s, j, rp()) {
                        Option::Some(j2) => Option::Some((ValueV::IntervalMonth(((if neg { -(m as int) } else { m as int }) as i32)), j2)),
                        Option::None => Option::None,
                    }
                } else {
                    Option::None
                },
            }
        } else if at(s, i, tag_ivmic()) {
            match parse_sint(s, i + tag_ivmic().len()) {
                Option::None => Option::None,
                Option::Some((neg, m, j)) => if if neg { m <= 0x8000_0000_0000_0000 } else { m + 1 <= 0x8000_0000_0000_0000 } {
                    match expect(s, j, rp()) {
                        Option::Some(j2) => Option::Some((ValueV::IntervalMicrosecond(((if neg { -(m as int) } else { m as int }) as i64)), j2)),
                        Option::None => Option::None,
                    }
                } else {
                    Option::None
                },
            }
        } else if at(s, i, tag_inet()) {
            match parse_string(s, i + tag_inet().len()) {
                Option::None => Option::None,
                Option::Some((t, j)) => match expect(s, j, rp()) {
                    Option::Some(j2) => Option::Some((ValueV::Inet(t), j2)),
                    Option::None => Option::None,
                },
            }
        } else {
            Option::None
        }
    } else if s[i] == 0x55 {
        if at(s, i, tag_u8()) {
            match parse_sint(s, i + tag_u8().len()) {
                Option::None => Option::None,
                Option::Some((neg, m, j)) => if m <= 0xFF && (!neg || m == 0) {
                    match expect(s, j, rp()) {
                        Option::Some(j2) => Option::Some((ValueV::U8((m as u8)), j2)),
                        Option::None => Option::None,
                    }
                } else {
                    Option::None
                },
            }
        } else if at(s, i, tag_u16()) {
            match parse_sint(s, i + tag_u16().len()) {
                Option::None => Option::None,
                Option::Some((neg, m, j)) => if m <= 0xFFFF && (!neg || m == 0) {
                    match expect(s, j, rp()) {
                        Option::Some(j2) => Option::Some((ValueV::U16((m as u16)), j2)),
                        Option::None => Option::None,
                    }
                } else {
                    Option::None
                },
            }
        } else if at(s, i, tag_u32()) {
            match parse_sint(s, i + tag_u32().len()) {
                Option::None => Option::None,
                Option::Some((neg, m, j)) => if m <= 0xFFFF_FFFF && (!neg || m == 0) {
                    match expect(s, j, rp()) {
                        Option::Some(j2) => Option::Some((ValueV::U32((m as u32)), j2)),
                        Option::None => Option::None,
                    }
                } else {
                    Option::None
                },
            }
        } else if at(s, i, tag_u64()) {
            match parse_sint(s, i + tag_u64().len()) {
                Option::None => Option::None,
                Option::Some((neg, m, j)) => if m <= 0xFFFF_FFFF_FFFF_FFFF && (!neg || m == 0) {
                    match expect(s, j, rp()) {
                        Option::Some(j2) => Option::Some((ValueV::U64((m as u64)), j2)),
                        Option::None => Option::None,
                    }
                } else {
                    Option::None
                },
            }
        } else if at(s, i, tag_u128()) {
            match parse_sint(s, i + tag_u128().len()) {
                Option::None => Option::None,
                Option::Some((neg, m, j)) => if m <= 0xFFFF_FFFF_FFFF_FFFF_FFFF_FFFF_FFFF_FFFF && (!neg || m == 0) {
                    match expect(s, j, rp()) {
                        Option::Some(j2) => Option::Some((ValueV::U128((m as u128)), j2)),
                        Option::None => Option::None,
                    }
                } else {
                    Option::None
                },
            }
        } else if at(s, i, tag_uuid()) {
            match parse_sint(s, i + tag_uuid().len()) {
                Option::None => Option::None,
                Option::Some((neg, m, j)) => if m <= 0xFFFF_FFFF_FFFF_FFFF_FFFF_FFFF_FFFF_FFFF && (!neg || m == 0) {
                    match expect(s, j, rp()) {
                        Option::Some(j2) => Option::Some((ValueV::Uuid((m as u128)), j2)),
                        Option::None => Option::None,
                    }
                } else {
                    Option::None
                },
            }
        } else {
            Option::None
        }
    } else if s[i] == 0x44 {
        if at(s, i, tag_date()) {
            match parse_sint(s, i + tag_date().len()) {
                Option::None => Option::None,
                Option::Some((neg, m, j)) => if if neg { m <= 0x8000_0000 } else { m + 1 <= 0x8000_0000 } {
                    match expect(s, j, rp()) {
                        Option::Some(j2) => Option::Some((ValueV::Date(((if neg { -(m as int) } else { m as int }) as i32)), j2)),
                        Option::None => Option::None,
                    }
                } else {
                    Option::None
                },
            }
        } else if at(s, i, tag_dec()) {
            match parse_string(s, i + tag_dec().len()) {
                Option::None => Option::None,
                Option::Some((t, j)) => match expect(s, j, rp()) {
                    Option::Some(j2) => Option::Some((ValueV::Decimal(t), j2)),
                    Option::None => Option::None,
                },
            }
        } else {
            Option::None
        }
    } else if s[i] == 0x54 {
        if at(s, i, tag_time()) {
            match parse_sint(s, i + tag_time().len()) {
                Option::None => Option::None,
                Option::Some((n1, m1, j1)) => if m1 <= 0xFFFF_FFFF && (!n1 || m1 == 0) {
                    match expect(s, j1, sep_lit()) {
                        Option::None => Option::None,
                        Option::Some(j2) => match parse_sint(s, j2) {
                            Option::None => Option::None,
                            Option::Some((n2, m2, j3)) => if m2 <= 0xFFFF_FFFF && (!n2 || m2
                                == 0) {
                                match expect(s, j3, rp()) {
                                    Option::Some(j4) => Option::Some(
                                        (ValueV::Time((m1 as u32), (m2 as u32)), j4),
                                    ),
                                    Option::None => Option::None,
                                }
                            } else {
                                Option::None
                            },
                        },
                    }
                } else {
                    Option::None
                },
            }
        } else if at(s, i, tag_ts()) {
            match parse_sint(s, i + tag_ts().len()) {
                Option::None => Option::None,
                Option::Some((n1, m1, j1)) => if if n1 { m1 <= 0x8000_0000_0000_0000 } else { m1 + 1 <= 0x8000_0000_0000_0000 } {
                    match expect(s, j1, sep_lit()) {
                        Option::None => Option::None,
                        Option::Some(j2) => match parse_sint(s, j2) {
                            Option::None => Option::None,
                            Option::Some((n2, m2, j3)) => if m2 <= 0xFFFF_FFFF && (!n2 || m2
                                == 0) {
                                match expect(s, j3, rp()) {
                                    Option::Some(j4) => Option::Some(
                                        (ValueV::Timestamp(((if n1 { -(m1 as int) } else { m1 as int }) as i64), (m2 as u32)), j4),
                                    ),
                                    Option::None => Option::None,
                                }
                            } else {
                                Option::None
                            },
                        },
                    }
                } else {
                    Option::None
                },
            }
        } else {
            Option::None
        }
    } else if s[i] == 0x42 {
        if at(s, i, tag_bytea()) {
            match parse_string(s, i + tag_bytea().len()) {
                Option::None => Option::None,
                Option::Some((t, j)) => match expect(s, j, rp()) {
                    Option::Some(j2) => Option::Some((ValueV::Bytea(t), j2)),
                    Option::None => Option::None,
                },
            }
        } else {
            Option::None
        }
    } else if s[i] == 0x46 {
        if at(s, i, tag_f32()) {
            match parse_sint(s, i + tag_f32().len()) {
                Option::None => Option::None,
                Option::Some((neg, m, j)) => if m <= 0xFFFF_FFFF && (!neg || m == 0) {
                    match expect(s, j, rp()) {
                        Option::Some(j2) => Option::Some((ValueV::F32Bits(m as u32), j2)),
                        Option::None => Option::None,
                    }
                } else {
                    Option::None
                },
            }
        } else if at(s, i, tag_f64()) {
            match parse_sint(s, i + tag_f64().len()) {
                Option::None => Option::None,
                Option::Some((neg, m, j)) => if m <= 0xFFFF_FFFF_FFFF_FFFF && (!neg || m == 0) {
                    match expect(s, j, rp()) {
                        Option::Some(j2) => Option::Some((ValueV::F64Bits(m as u64), j2)),
                        Option::None => Option::None,
                    }
                } else {
                    Option::None
                },
            }
        } else {
            Option::None
        }
    } else if s[i] == 0x50 {
        if at(s, i, tag_point()) {
            match parse_sint(s, i + tag_point().len()) {
                Option::None => Option::None,
                Option::Some((n1, m1, j1)) => if m1 <= 0xFFFF_FFFF_FFFF_FFFF && (!n1 || m1 == 0) {
                    match expect(s, j1, sep_lit()) {
                        Option::None => Option::None,
                        Option::Some(j2) => match parse_sint(s, j2) {
                            Option::None => Option::None,
                            Option::Some((n2, m2, j3)) => if m2 <= 0xFFFF_FFFF_FFFF_FFFF && (!n2 || m2 == 0) {
                                match expect(s, j3, rp()) {
                                    Option::Some(j4) => Option::Some(
                                        (ValueV::Point((m1 as u64), (m2 as u64)), j4),
                                    ),
                                    Option::None => Option::None,
                                }
                            } else {
                                Option::None
                            },
                        },
                    }
                } else {
                    Option::None
                },
            }
        } else {
            Option::None
        }
    } else if s[i] == 0x4C {
        if at(s, i, tag_list()) {
            match parse_string(s, i + tag_list().len()) {
                Option::None => Option::None,
                Option::Some((t, j)) => match expect(s, j, rp()) {
                    Option::Some(j2) => Option::Some((ValueV::List(t), j2)),
                    Option::None => Option::None,
                },
            }
        } else {
            Option::None
        }
    } else if s[i] == 0x4D {
        if at(s, i, tag_dict()) {
            match parse_string(s, i + tag_dict().len()) {
                Option::None => Option::None,
                Option::Some((t, j)) => match expect(s, j, rp()) {
                    Option::Some(j2) => Option::Some((ValueV::Dict(t), j2)),
                    Option::None => Option::None,
                },
            }
        } else {
            Option::None
        }
    } else {
        Option::None
    }
}

/// A nonempty `, `-separated list of values at `i`.
pub open spec fn parse_values(s: Seq<u8>, i: int) -> Option<(Seq<ValueV>, int)>
    decreases s.len() - i,
{
    match parse_value(s, i) {
        Option::None => Option::None,
        Option::Some((v, j)) => if at(s, j, sep_lit()) {
            if i < j + 2 {
                match parse_values(s, j + 2) {
                    Option::Some((vs, k)) => Option::Some((seq![v] + vs, k)),
                    Option::None => Option::None,
                }
            } else {
                Option::None
            }
        } else {
            Option::Some((seq![v], j))
        },
    }
}

/// One named field, `"name": value`, at `i`.
pub open spec fn parse_field(s: Seq<u8>, i: int) -> Option<(FieldV, int)> {
    match parse_string(s, i) {
        Option::None => Option::None,
        Option::Some((n, j)) => match expect(s, j, colon_lit()) {
            Option::None => Option::None,
            Option::Some(j1) => match parse_value(s, j1) {
                Option::None => Option::None,
                Option::Some((v, k)) => Option::Some((FieldV { name: n, value: v }, k)),
            },
        },
    }
}

/// A nonempty `, `-separated list of named fields at `i`.
pub open spec fn parse_fields(s: Seq<u8>, i: int) -> Option<(Seq<FieldV>, int)>
    decreases s.len() - i,
{
    match parse_field(s, i) {
        Option::None => Option::None,
        Option::Some((f, j)) => if at(s, j, sep_lit()) {
            if i < j + 2 {
                match parse_fields(s, j + 2) {
                    Option::Some((fs, k)) => Option::Some((seq![f] + fs, k)),
                    Option::None => Option::None,
                }
            } else {
                Option::None
            }
        } else {
            Option::Some((seq![f], j))
        },
    }
}

/// A row at `i`.
pub open spec fn parse_row_at(s: Seq<u8>, i: int) -> Option<(RowV, int)> {
    if !(0 <= i < s.len()) {
        Option::None
    } else if s[i] == 0x5B {
        if at(s, i + 1, seq![0x5Du8]) {
            Option::Some((RowV::Values(Seq::<ValueV>::empty()), i + 2))
        } else {
            match parse_values(s, i + 1) {
                Option::None => Option::None,
                Option::Some((vs, j)) => if at(s, j, seq![0x5Du8]) {
                    Option::Some((RowV::Values(vs), j + 1))
                } else {
                    Option::None
                },
            }
        }
    } else if s[i] == 0x7B {
        if at(s, i + 1, seq![0x7Du8]) {
            Option::Some((RowV::Fields(Seq::<FieldV>::empty()), i + 2))
        } else {
            match parse_fields(s, i + 1) {
                Option::None => Option::None,
                Option::Some((fs, j)) => if at(s, j, seq![0x7Du8]) {
                    Option::Some((RowV::Fields(fs), j + 1))
                } else {
                    Option::None
                },
            }
        }
    } else {
        Option::None
    }
}

/// A column type at `i`: a quoted name that must be one of the known
/// tags.
pub open spec fn parse_dtype(s: Seq<u8>, i: int) -> Option<(DataType, int)> {
    match parse_string(s, i) {
        Option::None => Option::None,
        Option::Some((t, j)) => match dtype_of_name(t) {
            Option::Some(d) => Option::Some((d, j)),
            Option::None => Option::None,
        },
    }
}

/// A uniqueness constraint name at `i`.
pub open spec fn parse_unique(s: Seq<u8>, i: int) -> Option<(ColumnUnique, int)> {
    if at(s, i, ser_unique(ColumnUnique::Plain)) {
        Option::Some((ColumnUnique::Plain, i + 7))
    } else if at(s, i, ser_unique(ColumnUnique::Unique)) {
        Option::Some((ColumnUnique::Unique, i + 8))
    } else if at(s, i, ser_unique(ColumnUnique::Primary)) {
        Option::Some((ColumnUnique::Primary, i + 9))
    } else {
        Option::None
    }
}

/// One column definition record at `i`. Opaque: proofs about column
/// lists use the column round-trip lemma instead of this definition.
#[verifier::opaque]
pub open spec fn parse_coldef(s: Seq<u8>, i: int) -> Option<(ColumnDefV, int)> {
    match expect(s, i, name_hdr()) {
        Option::None => Option::None,
        Option::Some(j0) => match parse_string(s, j0) {
            Option::None => Option::None,
            Option::Some((n, j1)) => match expect(s, j1, type_hdr()) {
                Option::None => Option::None,
                Option::Some(j2) => match parse_dtype(s, j2) {
                    Option::None => Option::None,
                    Option::Some((d, j3)) => match expect(s, j3, null_hdr()) {
                        Option::None => Option::None,
                        Option::Some(j4) => match parse_bool(s, j4) {
                            Option::None => Option::None,
                            Option::Some((nl, j5)) => match expect(s, j5, dflt_hdr()) {
                                Option::None => Option::None,
                                Option::Some(j6) => match parse_opt_text(s, j6) {
                                    Option::None => Option::None,
                                    Option::Some((df, j7)) => match expect(s, j7, cmt_hdr()) {
                                        Option::None => Option::None,
                                        Option::Some(j8) => match parse_opt_text(s, j8) {
                                            Option::None => Option::None,
                                            Option::Some((cm, j9)) => match expect(
                                                s,
                                                j9,
                                                uniq_hdr(),
                                            ) {
                                                Option::None => Option::None,
                                                Option::Some(j10) => match parse_unique(s, j10) {
                                                    Option::None => Option::None,
                                                    Option::Some((u, j11)) => match expect(
                                                        s,
                                                        j11,
                                                        seq![0x7Du8],
                                                    ) {
                                                        Option::None => Option::None,
                                                        Option::Some(j12) => Option::Some(
                                                            (
                                                                ColumnDefV {
                                                                    name: n,
                                                                    data_type: d,
                                                                    nullable: nl,
                                                                    default: df,
                                                                    comment: cm,
                                                                    unique: u,
                                                                },
                                                                j12,
                                                            ),
                                                        ),
                                                    },
                                                },
                                            },
                                        },
                                    },
                                },
                            },
                        },
                    },
                },
            },
        },
    }
}

/// A nonempty `, `-separated list of column definitions at `i`.
pub open spec fn parse_coldef_list(s: Seq<u8>, i: int) -> Option<(Seq<ColumnDefV>, int)>
    decreases s.len() - i,
{
    match parse_coldef(s, i) {
        Option::None => Option::None,
        Option::Some((c, j)) => if at(s, j, sep_lit()) {
            if i < j + 2 && j + 2 <= s.len() {
                match parse_coldef_list(s, j + 2) {
                    Option::Some((cs, k)) => Option::Some((seq![c] + cs, k)),
                    Option::None => Option::None,
                }
            } else {
                Option::None
            }
        } else {
            Option::Some((seq![c], j))
        },
    }
}

/// The column definitions at `i`: `null` or `[..]`.
pub open spec fn parse_coldefs(s: Seq<u8>, i: int) -> Option<(Option<Seq<ColumnDefV>>, int)> {
    if at(s, i, null_lit()) {
        Option::Some((Option::None, i + 4))
    } else if 0 <= i < s.len() && s[i] == 0x5B {
        if at(s, i + 1, seq![0x5Du8]) {
            Option::Some((Option::Some(Seq::<ColumnDefV>::empty()), i + 2))
        } else {
            match parse_coldef_list(s, i + 1) {
                Option::None => Option::None,
                Option::Some((cs, j)) => if at(s, j, seq![0x5Du8]) {
                    Option::Some((Option::Some(cs), j + 1))
                } else {
                    Option::None
                },
            }
        }
    } else {
        Option::None
    }
}

/// A schema record at `i`.
pub open spec fn parse_schema_at(s: Seq<u8>, i: int) -> Option<(SchemaV, int)> {
    match expect(s, i, table_hdr()) {
        Option::None => Option::None,
        Option::Some(j0) => match parse_string(s, j0) {
            Option::None => Option::None,
            Option::Some((n, j1)) => match expect(s, j1, cols_hdr()) {
                Option::None => Option::None,
                Option::Some(j2) => match parse_coldefs(s, j2) {
                    Option::None => Option::None,
                    Option::Some((cs, j3)) => match expect(s, j3, idx_hdr()) {
                        Option::None => Option::None,
                        Option::Some(j4) => match parse_opt_text(s, j4) {
                            Option::None => Option::None,
                            Option::Some((ix, j5)) => match expect(s, j5, eng_hdr()) {
                                Option::None => Option::None,
                                Option::Some(j6) => match parse_opt_text(s, j6) {
                                    Option::None => Option::None,
                                    Option::Some((en, j7)) => match expect(s, j7, fk_hdr()) {
                                        Option::None => Option::None,
                                        Option::Some(j8) => match parse_opt_text(s, j8) {
                                            Option::None => Option::None,
                                            Option::Some((fk, j9)) => match expect(
                                                s,
                                                j9,
                                                cmt_hdr(),
                                            ) {
                                                Option::None => Option::None,
                                                Option::Some(j10) => match parse_opt_text(
                                                    s,
                                                    j10,
                                                ) {
                                                    Option::None => Option::None,
                                                    Option::Some((cm, j11)) => match expect(
                                                        s,
                                                        j11,
                                                        seq![0x7Du8],
                                                    ) {
                                                        Option::None => Option::None,
                                                        Option::Some(j12) => Option::Some(
                                                            (
                                                                SchemaV {
                                                                    table_name: n,
                                                                    column_defs: cs,
                                                                    indexes: ix,
                                                                    engine: en,
                                                                    foreign_keys: fk,
                                                                    comment: cm,
                                                                },
                                                                j12,
                                                            ),
                                                        ),
                                                    },
                                                },
                                            },
                                        },
                                    },
                                },
                            },
                        },
                    },
                },
            },
        },
    }
}

/// The row denoted by unfenced content: a full-length parse, or
/// nothing.
pub open spec fn dec_row(s: Seq<u8>) -> Option<RowV> {
    match parse_row_at(s, 0) {
        Option::Some((r, j)) => if j == s.len() {
            Option::Some(r)
        } else {
            Option::None
        },
        Option::None => Option::None,
    }
}

/// The schema denoted by unfenced content: a full-length parse, or
/// nothing.
pub open spec fn dec_schema(s: Seq<u8>) -> Option<SchemaV> {
    match parse_schema_at(s, 0) {
        Option::Some((r, j)) => if j == s.len() {
            Option::Some(r)
        } else {
            Option::None
        },
        Option::None => Option::None,
    }
}

} // verus!
