//! The round-trip law of the codec: whatever the encoder renders, the
//! parser reads back unchanged. Stated bottom-up, one lemma per
//! syntactic form, and assembled into the public round-trip theorems
//! at the end.

use vstd::prelude::*;

use crate::codec::{
    abs_of, at, backticks, bs, cmt_hdr, colon_lit, cols_hdr, dec_row, dec_schema, dflt_hdr, digit_run_end, dtype_name, expect,
    eng_hdr, esc_byte, false_lit, fence_word, fence_wrap, fk_hdr, idx_hdr, is_ws, name_hdr,
    null_hdr, null_lit, parse_bool, parse_coldef, parse_coldef_list, parse_coldefs, parse_dtype,
    parse_field, parse_fields, parse_int, parse_opt_text, parse_row_at, parse_schema_at,
    parse_sint, parse_str_body, parse_string, parse_unique, parse_value, parse_values, qu, rp,
    sep_lit, ser_bool, ser_bytes, ser_coldef, ser_coldef_list, ser_coldefs, ser_dtype, ser_field,
    ser_fields, ser_int_of, ser_opt_text, ser_row, ser_schema, ser_string, ser_unique, ser_value,
    ser_values, strip_fence, table_hdr, tag_bytea, tag_date, tag_dec, tag_i128, tag_i16, tag_i32,
    tag_dict, tag_f32, tag_f64, tag_i8, tag_inet, tag_ivmic, tag_ivmon, tag_list, tag_point,
    tag_time, tag_ts, tag_u128, tag_u16, tag_u32, tag_u64,
    tag_u8, tag_uuid, trim, trim_back, trim_front, true_lit, type_hdr, uniq_hdr,
};
use crate::numeral::{all_digits, dec_digits, dec_val, is_digit, lemma_dec_digits_canon};
use crate::value::{ColumnDefV, ColumnUnique, DataType, FieldV, RowV, SchemaV, ValueV};

verus! {

/// Bytes standing at `i` can be read off index by index.
pub proof fn lemma_at_index(s: Seq<u8>, i: int, t: Seq<u8>)
    requires
        at(s, i, t),
    ensures
        forall|k: int| 0 <= k < t.len() ==> s[i + k] == #[trigger] t[k],
        t.len() > 0 ==> s[i] == t[0],
{
    assert forall|k: int| 0 <= k < t.len() implies s[i + k] == #[trigger] t[k] by {
        assert(s.subrange(i, i + t.len() as int)[k] == s[i + k]);
    }
    if t.len() > 0 {
        assert(s[i + 0] == t[0]);
    }
}

/// A concatenation stands at `i` exactly when its parts stand in
/// sequence.
pub proof fn lemma_at_concat(s: Seq<u8>, i: int, a: Seq<u8>, b: Seq<u8>)
    requires
        at(s, i, a + b),
    ensures
        at(s, i, a),
        at(s, i + a.len(), b),
{
    let t = a + b;
    lemma_at_index(s, i, t);
    assert forall|k: int| 0 <= k < a.len() implies #[trigger] s.subrange(
        i,
        i + a.len() as int,
    )[k] == a[k] by {
        assert(s[i + k] == t[k]);
        assert(t[k] == a[k]);
    }
    assert(s.subrange(i, i + a.len() as int) =~= a);
    assert forall|k: int| 0 <= k < b.len() implies #[trigger] s.subrange(
        i + a.len(),
        i + a.len() + b.len() as int,
    )[k] == b[k] by {
        assert(s[i + a.len() + k] == t[a.len() + k]);
        assert(t[a.len() + k] == b[k]);
    }
    assert(s.subrange(i + a.len(), i + a.len() + b.len() as int) =~= b);
}

/// The escaped body of a string followed by the closing quote parses
/// back to the string.
pub proof fn lemma_parse_str_body(s: Seq<u8>, i: int, x: Seq<u8>)
    requires
        at(s, i, ser_bytes(x) + seq![qu()]),
    ensures
        parse_str_body(s, i) == Option::Some((x, i + ser_bytes(x).len() + 1)),
    decreases x.len(),
{
    if x.len() == 0 {
        assert(ser_bytes(x) + seq![qu()] =~= seq![qu()]);
        lemma_at_index(s, i, seq![qu()]);
        assert(s[i] == qu());
        assert(x =~= Seq::<u8>::empty());
    } else {
        let b = x[0];
        let rest = x.skip(1);
        assert(ser_bytes(x) == esc_byte(b) + ser_bytes(rest));
        assert(ser_bytes(x) + seq![qu()] =~= esc_byte(b) + (ser_bytes(rest) + seq![qu()]));
        lemma_at_concat(s, i, esc_byte(b), ser_bytes(rest) + seq![qu()]);
        lemma_at_index(s, i, esc_byte(b));
        if b == qu() || b == bs() {
            assert(esc_byte(b) =~= seq![bs(), b]);
            assert(s[i] == bs() && s[i + 1] == b);
            lemma_parse_str_body(s, i + 2, rest);
            assert(seq![s[i + 1]] + rest =~= x);
        } else {
            assert(esc_byte(b) =~= seq![b]);
            assert(s[i] == b);
            lemma_parse_str_body(s, i + 1, rest);
            assert(seq![s[i]] + rest =~= x);
        }
    }
}

/// A rendered string parses back to its value.
pub proof fn lemma_parse_string(s: Seq<u8>, i: int, x: Seq<u8>)
    requires
        at(s, i, ser_string(x)),
    ensures
        parse_string(s, i) == Option::Some((x, i + ser_string(x).len())),
{
    assert(ser_string(x) =~= seq![qu()] + (ser_bytes(x) + seq![qu()]));
    lemma_at_concat(s, i, seq![qu()], ser_bytes(x) + seq![qu()]);
    lemma_at_index(s, i, seq![qu()]);
    lemma_parse_str_body(s, i + 1, x);
}

/// A digit run standing at `i` with no digit after it is scanned to
/// exactly its end.
pub proof fn lemma_digit_run(s: Seq<u8>, i: int, ds: Seq<u8>)
    requires
        at(s, i, ds),
        all_digits(ds),
        i + ds.len() == s.len() || !is_digit(s[i + ds.len()]),
    ensures
        digit_run_end(s, i) == i + ds.len(),
        s.subrange(i, i + ds.len() as int) == ds,
    decreases ds.len(),
{
    if ds.len() == 0 {
        assert(s.subrange(i, i) =~= ds);
    } else {
        lemma_at_index(s, i, ds);
        assert(is_digit(s[i]));
        let rest = ds.skip(1);
        assert(ds =~= seq![ds[0]] + rest);
        lemma_at_concat(s, i, seq![ds[0]], rest);
        assert(all_digits(rest)) by {
            assert(forall|k: int| 0 <= k < rest.len() ==> rest[k] == ds[k + 1]);
        }
        lemma_digit_run(s, i + 1, rest);
    }
}

/// A rendered signed numeral parses back to its sign and magnitude,
/// provided no digit follows it.
pub proof fn lemma_parse_sint_at(s: Seq<u8>, i: int, v: int)
    requires
        at(s, i, ser_int_of(v)),
        i + ser_int_of(v).len() == s.len() || !is_digit(s[i + ser_int_of(v).len()]),
    ensures
        parse_sint(s, i) == Option::Some((v < 0, abs_of(v), i + ser_int_of(v).len())),
{
    if v < 0 {
        lemma_dec_digits_canon((-v) as nat);
        assert(ser_int_of(v) =~= seq![0x2Du8] + dec_digits((-v) as nat));
        lemma_at_concat(s, i, seq![0x2Du8], dec_digits((-v) as nat));
        lemma_at_index(s, i, seq![0x2Du8]);
        assert(s[i] == 0x2D);
        lemma_digit_run(s, i + 1, dec_digits((-v) as nat));
        assert(dec_val(s.subrange(i + 1, i + 1 + dec_digits((-v) as nat).len() as int)) == (
        -v) as nat);
    } else {
        lemma_dec_digits_canon(v as nat);
        lemma_at_index(s, i, dec_digits(v as nat));
        assert(is_digit(s[i]));
        assert(s[i] != 0x2D);
        lemma_digit_run(s, i, dec_digits(v as nat));
        assert(dec_val(s.subrange(i, i + dec_digits(v as nat).len() as int)) == v as nat);
    }
}

/// A rendered default-width integer parses back to its value,
/// provided no digit follows it.
pub proof fn lemma_parse_int(s: Seq<u8>, i: int, n: i64)
    requires
        at(s, i, ser_int_of(n as int)),
        i + ser_int_of(n as int).len() == s.len() || !is_digit(s[i + ser_int_of(n as int).len()]),
    ensures
        parse_int(s, i) == Option::Some((n, i + ser_int_of(n as int).len())),
{
    lemma_parse_sint_at(s, i, n as int);
}

/// A rendered truth value parses back to itself.
pub proof fn lemma_parse_bool(s: Seq<u8>, i: int, b: bool)
    requires
        at(s, i, ser_bool(b)),
    ensures
        parse_bool(s, i) == Option::Some((b, i + ser_bool(b).len())),
{
    if !b {
        lemma_at_index(s, i, false_lit());
        if at(s, i, true_lit()) {
            lemma_at_index(s, i, true_lit());
            assert(s[i] == true_lit()[0]);
            assert(s[i] == false_lit()[0]);
            assert(false);
        }
    }
}

/// Rendered optional opaque text parses back to itself.
pub proof fn lemma_parse_opt_text(s: Seq<u8>, i: int, t: Option<Seq<u8>>)
    requires
        at(s, i, ser_opt_text(t)),
    ensures
        parse_opt_text(s, i) == Option::Some((t, i + ser_opt_text(t).len())),
{
    match t {
        Option::None => {},
        Option::Some(x) => {
            lemma_parse_string(s, i, x);
            lemma_at_index(s, i, ser_string(x));
            if at(s, i, null_lit()) {
                lemma_at_index(s, i, null_lit());
                assert(s[i] == null_lit()[0]);
                assert(s[i] == ser_string(x)[0]);
                assert(false);
            }
        },
    }
}

/// Every rendered value is nonempty.
pub proof fn lemma_ser_value_len(v: ValueV)
    ensures
        ser_value(v).len() >= 1,
{
    match v {
        ValueV::Int(n) => {
            if n < 0 {
                lemma_dec_digits_canon((-(n as int)) as nat);
            } else {
                lemma_dec_digits_canon(n as nat);
            }
        },
        _ => {},
    }
}

/// One case group of the value round trip: an atom: null, a truth value, a bare integer, or a string.
#[verifier::rlimit(100)]
proof fn lemma_parse_value_atoms(s: Seq<u8>, i: int, v: ValueV)
    requires
        at(s, i, ser_value(v)),
        i + ser_value(v).len() == s.len() || !is_digit(s[i + ser_value(v).len()]),
        v is Null
            || v is Bool
            || v is Int
            || v is Str,
    ensures
        parse_value(s, i) == Option::Some((v, i + ser_value(v).len())),
{
    reveal(parse_value);
    lemma_ser_value_len(v);
    lemma_at_index(s, i, ser_value(v));
    match v {
        ValueV::Null => {
            assert(s[i] == 0x6E);
        },
        ValueV::Bool(b) => {
            if b {
                assert(s[i] == 0x74);
            } else {
                assert(s[i] == 0x66);
            }
        },
        ValueV::Int(n) => {
            if n < 0 {
                lemma_dec_digits_canon((-(n as int)) as nat);
                assert(ser_int_of(n as int)[0] == 0x2D);
                assert(s[i] == 0x2D);
            } else {
                lemma_dec_digits_canon(n as nat);
                assert(is_digit(ser_int_of(n as int)[0]));
                assert(is_digit(s[i]));
            }
            lemma_parse_int(s, i, n);
        },
        ValueV::Str(x) => {
            assert(ser_string(x)[0] == qu());
            assert(s[i] == qu());
            lemma_parse_string(s, i, x);
        },
        _ => {},
    }
}

/// One case group of the value round trip: a tagged term whose tag starts with `I`.
#[verifier::rlimit(100)]
proof fn lemma_parse_value_tag_i(s: Seq<u8>, i: int, v: ValueV)
    requires
        at(s, i, ser_value(v)),
        i + ser_value(v).len() == s.len() || !is_digit(s[i + ser_value(v).len()]),
        v is I8
            || v is I16
            || v is I32
            || v is I128
            || v is IntervalMonth
            || v is IntervalMicrosecond
            || v is Inet,
    ensures
        parse_value(s, i) == Option::Some((v, i + ser_value(v).len())),
{
    reveal(parse_value);
    lemma_ser_value_len(v);
    lemma_at_index(s, i, ser_value(v));
    match v {
        ValueV::I8(n) => {
            let pl = ser_int_of(n as int) + rp();
            assert(ser_value(v) =~= tag_i8() + pl);
            lemma_at_concat(s, i, tag_i8(), pl);
            lemma_at_index(s, i, tag_i8());
            let j0 = i + tag_i8().len();
            lemma_at_concat(s, j0, ser_int_of(n as int), rp());
            lemma_at_index(s, j0 + ser_int_of(n as int).len(), rp());
            lemma_parse_sint_at(s, j0, n as int);
        },
        ValueV::I16(n) => {
            let pl = ser_int_of(n as int) + rp();
            assert(ser_value(v) =~= tag_i16() + pl);
            lemma_at_concat(s, i, tag_i16(), pl);
            lemma_at_index(s, i, tag_i16());
            let j0 = i + tag_i16().len();
            lemma_at_concat(s, j0, ser_int_of(n as int), rp());
            lemma_at_index(s, j0 + ser_int_of(n as int).len(), rp());
            lemma_parse_sint_at(s, j0, n as int);
            if at(s, i, tag_i8()) {
                lemma_at_index(s, i, tag_i8());
                assert(s[i + 1] == tag_i8()[1]);
                assert(s[i + 1] == tag_i16()[1]);
                assert(false);
            }
        },
        ValueV::I32(n) => {
            let pl = ser_int_of(n as int) + rp();
            assert(ser_value(v) =~= tag_i32() + pl);
            lemma_at_concat(s, i, tag_i32(), pl);
            lemma_at_index(s, i, tag_i32());
            let j0 = i + tag_i32().len();
            lemma_at_concat(s, j0, ser_int_of(n as int), rp());
            lemma_at_index(s, j0 + ser_int_of(n as int).len(), rp());
            lemma_parse_sint_at(s, j0, n as int);
            if at(s, i, tag_i8()) {
                lemma_at_index(s, i, tag_i8());
                assert(s[i + 1] == tag_i8()[1]);
                assert(s[i + 1] == tag_i32()[1]);
                assert(false);
            }
            if at(s, i, tag_i16()) {
                lemma_at_index(s, i, tag_i16());
                assert(s[i + 1] == tag_i16()[1]);
                assert(s[i + 1] == tag_i32()[1]);
                assert(false);
            }
        },
        ValueV::I128(n) => {
            let pl = ser_int_of(n as int) + rp();
            assert(ser_value(v) =~= tag_i128() + pl);
            lemma_at_concat(s, i, tag_i128(), pl);
            lemma_at_index(s, i, tag_i128());
            let j0 = i + tag_i128().len();
            lemma_at_concat(s, j0, ser_int_of(n as int), rp());
            lemma_at_index(s, j0 + ser_int_of(n as int).len(), rp());
            lemma_parse_sint_at(s, j0, n as int);
            if at(s, i, tag_i8()) {
                lemma_at_index(s, i, tag_i8());
                assert(s[i + 1] == tag_i8()[1]);
                assert(s[i + 1] == tag_i128()[1]);
                assert(false);
            }
            if at(s, i, tag_i16()) {
                lemma_at_index(s, i, tag_i16());
                assert(s[i + 2] == tag_i16()[2]);
                assert(s[i + 2] == tag_i128()[2]);
                assert(false);
            }
            if at(s, i, tag_i32()) {
                lemma_at_index(s, i, tag_i32());
                assert(s[i + 1] == tag_i32()[1]);
                assert(s[i + 1] == tag_i128()[1]);
                assert(false);
            }
        },
        ValueV::IntervalMonth(n) => {
            let pl = ser_int_of(n as int) + rp();
            assert(ser_value(v) =~= tag_ivmon() + pl);
            lemma_at_concat(s, i, tag_ivmon(), pl);
            lemma_at_index(s, i, tag_ivmon());
            let j0 = i + tag_ivmon().len();
            lemma_at_concat(s, j0, ser_int_of(n as int), rp());
            lemma_at_index(s, j0 + ser_int_of(n as int).len(), rp());
            lemma_parse_sint_at(s, j0, n as int);
            if at(s, i, tag_i8()) {
                lemma_at_index(s, i, tag_i8());
                assert(s[i + 1] == tag_i8()[1]);
                assert(s[i + 1] == tag_ivmon()[1]);
                assert(false);
            }
            if at(s, i, tag_i16()) {
                lemma_at_index(s, i, tag_i16());
                assert(s[i + 1] == tag_i16()[1]);
                assert(s[i + 1] == tag_ivmon()[1]);
                assert(false);
            }
            if at(s, i, tag_i32()) {
                lemma_at_index(s, i, tag_i32());
                assert(s[i + 1] == tag_i32()[1]);
                assert(s[i + 1] == tag_ivmon()[1]);
                assert(false);
            }
            if at(s, i, tag_i128()) {
                lemma_at_index(s, i, tag_i128());
                assert(s[i + 1] == tag_i128()[1]);
                assert(s[i + 1] == tag_ivmon()[1]);
                assert(false);
            }
        },
        ValueV::IntervalMicrosecond(n) => {
            let pl = ser_int_of(n as int) + rp();
            assert(ser_value(v) =~= tag_ivmic() + pl);
            lemma_at_concat(s, i, tag_ivmic(), pl);
            lemma_at_index(s, i, tag_ivmic());
            let j0 = i + tag_ivmic().len();
            lemma_at_concat(s, j0, ser_int_of(n as int), rp());
            lemma_at_index(s, j0 + ser_int_of(n as int).len(), rp());
            lemma_parse_sint_at(s, j0, n as int);
            if at(s, i, tag_i8()) {
                lemma_at_index(s, i, tag_i8());
                assert(s[i + 1] == tag_i8()[1]);
                assert(s[i + 1] == tag_ivmic()[1]);
                assert(false);
            }
            if at(s, i, tag_i16()) {
                lemma_at_index(s, i, tag_i16());
                assert(s[i + 1] == tag_i16()[1]);
                assert(s[i + 1] == tag_ivmic()[1]);
                assert(false);
            }
            if at(s, i, tag_i32()) {
                lemma_at_index(s, i, tag_i32());
                assert(s[i + 1] == tag_i32()[1]);
                assert(s[i + 1] == tag_ivmic()[1]);
                assert(false);
            }
            if at(s, i, tag_i128()) {
                lemma_at_index(s, i, tag_i128());
                assert(s[i + 1] == tag_i128()[1]);
                assert(s[i + 1] == tag_ivmic()[1]);
                assert(false);
            }
            if at(s, i, tag_ivmon()) {
                lemma_at_index(s, i, tag_ivmon());
                assert(s[i + 9] == tag_ivmon()[9]);
                assert(s[i + 9] == tag_ivmic()[9]);
                assert(false);
            }
        },
        ValueV::Inet(t) => {
            let pl = ser_string(t) + rp();
            assert(ser_value(v) =~= tag_inet() + pl);
            lemma_at_concat(s, i, tag_inet(), pl);
            lemma_at_index(s, i, tag_inet());
            let j0 = i + tag_inet().len();
            lemma_at_concat(s, j0, ser_string(t), rp());
            lemma_at_index(s, j0 + ser_string(t).len(), rp());
            lemma_parse_string(s, j0, t);
            if at(s, i, tag_i8()) {
                lemma_at_index(s, i, tag_i8());
                assert(s[i + 1] == tag_i8()[1]);
                assert(s[i + 1] == tag_inet()[1]);
                assert(false);
            }
            if at(s, i, tag_i16()) {
                lemma_at_index(s, i, tag_i16());
                assert(s[i + 1] == tag_i16()[1]);
                assert(s[i + 1] == tag_inet()[1]);
                assert(false);
            }
            if at(s, i, tag_i32()) {
                lemma_at_index(s, i, tag_i32());
                assert(s[i + 1] == tag_i32()[1]);
                assert(s[i + 1] == tag_inet()[1]);
                assert(false);
            }
            if at(s, i, tag_i128()) {
                lemma_at_index(s, i, tag_i128());
                assert(s[i + 1] == tag_i128()[1]);
                assert(s[i + 1] == tag_inet()[1]);
                assert(false);
            }
            if at(s, i, tag_ivmon()) {
                lemma_at_index(s, i, tag_ivmon());
                assert(s[i + 2] == tag_ivmon()[2]);
                assert(s[i + 2] == tag_inet()[2]);
                assert(false);
            }
            if at(s, i, tag_ivmic()) {
                lemma_at_index(s, i, tag_ivmic());
                assert(s[i + 2] == tag_ivmic()[2]);
                assert(s[i + 2] == tag_inet()[2]);
                assert(false);
            }
        },
        _ => {},
    }
}

/// One case group of the value round trip: a tagged term whose tag starts with `U`.
#[verifier::rlimit(100)]
proof fn lemma_parse_value_tag_u(s: Seq<u8>, i: int, v: ValueV)
    requires
        at(s, i, ser_value(v)),
        i + ser_value(v).len() == s.len() || !is_digit(s[i + ser_value(v).len()]),
        v is U8
            || v is U16
            || v is U32
            || v is U64
            || v is U128
            || v is Uuid,
    ensures
        parse_value(s, i) == Option::Some((v, i + ser_value(v).len())),
{
    reveal(parse_value);
    lemma_ser_value_len(v);
    lemma_at_index(s, i, ser_value(v));
    match v {
        ValueV::U8(n) => {
            let pl = ser_int_of(n as int) + rp();
            assert(ser_value(v) =~= tag_u8() + pl);
            lemma_at_concat(s, i, tag_u8(), pl);
            lemma_at_index(s, i, tag_u8());
            let j0 = i + tag_u8().len();
            lemma_at_concat(s, j0, ser_int_of(n as int), rp());
            lemma_at_index(s, j0 + ser_int_of(n as int).len(), rp());
            lemma_parse_sint_at(s, j0, n as int);
        },
        ValueV::U16(n) => {
            let pl = ser_int_of(n as int) + rp();
            assert(ser_value(v) =~= tag_u16() + pl);
            lemma_at_concat(s, i, tag_u16(), pl);
            lemma_at_index(s, i, tag_u16());
            let j0 = i + tag_u16().len();
            lemma_at_concat(s, j0, ser_int_of(n as int), rp());
            lemma_at_index(s, j0 + ser_int_of(n as int).len(), rp());
            lemma_parse_sint_at(s, j0, n as int);
            if at(s, i, tag_u8()) {
                lemma_at_index(s, i, tag_u8());
                assert(s[i + 1] == tag_u8()[1]);
                assert(s[i + 1] == tag_u16()[1]);
                assert(false);
            }
        },
        ValueV::U32(n) => {
            let pl = ser_int_of(n as int) + rp();
            assert(ser_value(v) =~= tag_u32() + pl);
            lemma_at_concat(s, i, tag_u32(), pl);
            lemma_at_index(s, i, tag_u32());
            let j0 = i + tag_u32().len();
            lemma_at_concat(s, j0, ser_int_of(n as int), rp());
            lemma_at_index(s, j0 + ser_int_of(n as int).len(), rp());
            lemma_parse_sint_at(s, j0, n as int);
            if at(s, i, tag_u8()) {
                lemma_at_index(s, i, tag_u8());
                assert(s[i + 1] == tag_u8()[1]);
                assert(s[i + 1] == tag_u32()[1]);
                assert(false);
            }
            if at(s, i, tag_u16()) {
                lemma_at_index(s, i, tag_u16());
                assert(s[i + 1] == tag_u16()[1]);
                assert(s[i + 1] == tag_u32()[1]);
                assert(false);
            }
        },
        ValueV::U64(n) => {
            let pl = ser_int_of(n as int) + rp();
            assert(ser_value(v) =~= tag_u64() + pl);
            lemma_at_concat(s, i, tag_u64(), pl);
            lemma_at_index(s, i, tag_u64());
            let j0 = i + tag_u64().len();
            lemma_at_concat(s, j0, ser_int_of(n as int), rp());
            lemma_at_index(s, j0 + ser_int_of(n as int).len(), rp());
            lemma_parse_sint_at(s, j0, n as int);
            if at(s, i, tag_u8()) {
                lemma_at_index(s, i, tag_u8());
                assert(s[i + 1] == tag_u8()[1]);
                assert(s[i + 1] == tag_u64()[1]);
                assert(false);
            }
            if at(s, i, tag_u16()) {
                lemma_at_index(s, i, tag_u16());
                assert(s[i + 1] == tag_u16()[1]);
                assert(s[i + 1] == tag_u64()[1]);
                assert(false);
            }
            if at(s, i, tag_u32()) {
                lemma_at_index(s, i, tag_u32());
                assert(s[i + 1] == tag_u32()[1]);
                assert(s[i + 1] == tag_u64()[1]);
                assert(false);
            }
        },
        ValueV::U128(n) => {
            let pl = ser_int_of(n as int) + rp();
            assert(ser_value(v) =~= tag_u128() + pl);
            lemma_at_concat(s, i, tag_u128(), pl);
            lemma_at_index(s, i, tag_u128());
            let j0 = i + tag_u128().len();
            lemma_at_concat(s, j0, ser_int_of(n as int), rp());
            lemma_at_index(s, j0 + ser_int_of(n as int).len(), rp());
            lemma_parse_sint_at(s, j0, n as int);
            if at(s, i, tag_u8()) {
                lemma_at_index(s, i, tag_u8());
                assert(s[i + 1] == tag_u8()[1]);
                assert(s[i + 1] == tag_u128()[1]);
                assert(false);
            }
            if at(s, i, tag_u16()) {
                lemma_at_index(s, i, tag_u16());
                assert(s[i + 2] == tag_u16()[2]);
                assert(s[i + 2] == tag_u128()[2]);
                assert(false);
            }
            if at(s, i, tag_u32()) {
                lemma_at_index(s, i, tag_u32());
                assert(s[i + 1] == tag_u32()[1]);
                assert(s[i + 1] == tag_u128()[1]);
                assert(false);
            }
            if at(s, i, tag_u64()) {
                lemma_at_index(s, i, tag_u64());
                assert(s[i + 1] == tag_u64()[1]);
                assert(s[i + 1] == tag_u128()[1]);
                assert(false);
            }
        },
        ValueV::Uuid(n) => {
            let pl = ser_int_of(n as int) + rp();
            assert(ser_value(v) =~= tag_uuid() + pl);
            lemma_at_concat(s, i, tag_uuid(), pl);
            lemma_at_index(s, i, tag_uuid());
            let j0 = i + tag_uuid().len();
            lemma_at_concat(s, j0, ser_int_of(n as int), rp());
            lemma_at_index(s, j0 + ser_int_of(n as int).len(), rp());
            lemma_parse_sint_at(s, j0, n as int);
            if at(s, i, tag_u8()) {
                lemma_at_index(s, i, tag_u8());
                assert(s[i + 1] == tag_u8()[1]);
                assert(s[i + 1] == tag_uuid()[1]);
                assert(false);
            }
            if at(s, i, tag_u16()) {
                lemma_at_index(s, i, tag_u16());
                assert(s[i + 1] == tag_u16()[1]);
                assert(s[i + 1] == tag_uuid()[1]);
                assert(false);
            }
            if at(s, i, tag_u32()) {
                lemma_at_index(s, i, tag_u32());
                assert(s[i + 1] == tag_u32()[1]);
                assert(s[i + 1] == tag_uuid()[1]);
                assert(false);
            }
            if at(s, i, tag_u64()) {
                lemma_at_index(s, i, tag_u64());
                assert(s[i + 1] == tag_u64()[1]);
                assert(s[i + 1] == tag_uuid()[1]);
                assert(false);
            }
            if at(s, i, tag_u128()) {
                lemma_at_index(s, i, tag_u128());
                assert(s[i + 1] == tag_u128()[1]);
                assert(s[i + 1] == tag_uuid()[1]);
                assert(false);
            }
        },
        _ => {},
    }
}

/// One case group of the value round trip: one of the remaining tagged terms.
#[verifier::rlimit(100)]
proof fn lemma_parse_value_tag_rest(s: Seq<u8>, i: int, v: ValueV)
    requires
        at(s, i, ser_value(v)),
        i + ser_value(v).len() == s.len() || !is_digit(s[i + ser_value(v).len()]),
        v is Date
            || v is Decimal
            || v is Time
            || v is Timestamp
            || v is Bytea
            || v is F32Bits
            || v is F64Bits
            || v is Point
            || v is List
            || v is Dict,
    ensures
        parse_value(s, i) == Option::Some((v, i + ser_value(v).len())),
{
    reveal(parse_value);
    lemma_ser_value_len(v);
    lemma_at_index(s, i, ser_value(v));
    match v {
        ValueV::Date(n) => {
            let pl = ser_int_of(n as int) + rp();
            assert(ser_value(v) =~= tag_date() + pl);
            lemma_at_concat(s, i, tag_date(), pl);
            lemma_at_index(s, i, tag_date());
            let j0 = i + tag_date().len();
            lemma_at_concat(s, j0, ser_int_of(n as int), rp());
            lemma_at_index(s, j0 + ser_int_of(n as int).len(), rp());
            lemma_parse_sint_at(s, j0, n as int);
        },
        ValueV::Decimal(t) => {
            let pl = ser_string(t) + rp();
            assert(ser_value(v) =~= tag_dec() + pl);
            lemma_at_concat(s, i, tag_dec(), pl);
            lemma_at_index(s, i, tag_dec());
            let j0 = i + tag_dec().len();
            lemma_at_concat(s, j0, ser_string(t), rp());
            lemma_at_index(s, j0 + ser_string(t).len(), rp());
            lemma_parse_string(s, j0, t);
            if at(s, i, tag_date()) {
                lemma_at_index(s, i, tag_date());
                assert(s[i + 1] == tag_date()[1]);
                assert(s[i + 1] == tag_dec()[1]);
                assert(false);
            }
        },
        ValueV::Time(sec, ns) => {
            let p1 = ser_int_of(sec as int);
            let p2 = ser_int_of(ns as int);
            assert(ser_value(v) =~= tag_time() + (p1 + (sep_lit() + (p2 + rp()))));
            lemma_at_concat(s, i, tag_time(), p1 + (sep_lit() + (p2 + rp())));
            lemma_at_index(s, i, tag_time());
            let j0 = i + tag_time().len();
            lemma_at_concat(s, j0, p1, sep_lit() + (p2 + rp()));
            let j1 = j0 + p1.len();
            lemma_at_concat(s, j1, sep_lit(), p2 + rp());
            lemma_at_index(s, j1, sep_lit());
            let j2 = j1 + 2;
            lemma_at_concat(s, j2, p2, rp());
            lemma_at_index(s, j2 + p2.len(), rp());
            lemma_parse_sint_at(s, j0, sec as int);
            lemma_parse_sint_at(s, j2, ns as int);
        },
        ValueV::Timestamp(sec, ns) => {
            let p1 = ser_int_of(sec as int);
            let p2 = ser_int_of(ns as int);
            assert(ser_value(v) =~= tag_ts() + (p1 + (sep_lit() + (p2 + rp()))));
            lemma_at_concat(s, i, tag_ts(), p1 + (sep_lit() + (p2 + rp())));
            lemma_at_index(s, i, tag_ts());
            let j0 = i + tag_ts().len();
            lemma_at_concat(s, j0, p1, sep_lit() + (p2 + rp()));
            let j1 = j0 + p1.len();
            lemma_at_concat(s, j1, sep_lit(), p2 + rp());
            lemma_at_index(s, j1, sep_lit());
            let j2 = j1 + 2;
            lemma_at_concat(s, j2, p2, rp());
            lemma_at_index(s, j2 + p2.len(), rp());
            lemma_parse_sint_at(s, j0, sec as int);
            lemma_parse_sint_at(s, j2, ns as int);
            if at(s, i, tag_time()) {
                lemma_at_index(s, i, tag_time());
                assert(s[i + 4] == tag_time()[4]);
                assert(s[i + 4] == tag_ts()[4]);
                assert(false);
            }
        },
        ValueV::Bytea(t) => {
            let pl = ser_string(t) + rp();
            assert(ser_value(v) =~= tag_bytea() + pl);
            lemma_at_concat(s, i, tag_bytea(), pl);
            lemma_at_index(s, i, tag_bytea());
            let j0 = i + tag_bytea().len();
            lemma_at_concat(s, j0, ser_string(t), rp());
            lemma_at_index(s, j0 + ser_string(t).len(), rp());
            lemma_parse_string(s, j0, t);
        },
        ValueV::F32Bits(n) => {
            let pl = ser_int_of(n as int) + rp();
            assert(ser_value(v) =~= tag_f32() + pl);
            lemma_at_concat(s, i, tag_f32(), pl);
            lemma_at_index(s, i, tag_f32());
            let j0 = i + tag_f32().len();
            lemma_at_concat(s, j0, ser_int_of(n as int), rp());
            lemma_at_index(s, j0 + ser_int_of(n as int).len(), rp());
            lemma_parse_sint_at(s, j0, n as int);
        },
        ValueV::F64Bits(n) => {
            let pl = ser_int_of(n as int) + rp();
            assert(ser_value(v) =~= tag_f64() + pl);
            lemma_at_concat(s, i, tag_f64(), pl);
            lemma_at_index(s, i, tag_f64());
            let j0 = i + tag_f64().len();
            lemma_at_concat(s, j0, ser_int_of(n as int), rp());
            lemma_at_index(s, j0 + ser_int_of(n as int).len(), rp());
            lemma_parse_sint_at(s, j0, n as int);
            if at(s, i, tag_f32()) {
                lemma_at_index(s, i, tag_f32());
                assert(s[i + 1] == tag_f32()[1]);
                assert(s[i + 1] == tag_f64()[1]);
                assert(false);
            }
        },
        ValueV::Point(sec, ns) => {
            let p1 = ser_int_of(sec as int);
            let p2 = ser_int_of(ns as int);
            assert(ser_value(v) =~= tag_point() + (p1 + (sep_lit() + (p2 + rp()))));
            lemma_at_concat(s, i, tag_point(), p1 + (sep_lit() + (p2 + rp())));
            lemma_at_index(s, i, tag_point());
            let j0 = i + tag_point().len();
            lemma_at_concat(s, j0, p1, sep_lit() + (p2 + rp()));
            let j1 = j0 + p1.len();
            lemma_at_concat(s, j1, sep_lit(), p2 + rp());
            lemma_at_index(s, j1, sep_lit());
            let j2 = j1 + 2;
            lemma_at_concat(s, j2, p2, rp());
            lemma_at_index(s, j2 + p2.len(), rp());
            lemma_parse_sint_at(s, j0, sec as int);
            lemma_parse_sint_at(s, j2, ns as int);
        },
        ValueV::List(t) => {
            let pl = ser_string(t) + rp();
            assert(ser_value(v) =~= tag_list() + pl);
            lemma_at_concat(s, i, tag_list(), pl);
            lemma_at_index(s, i, tag_list());
            let j0 = i + tag_list().len();
            lemma_at_concat(s, j0, ser_string(t), rp());
            lemma_at_index(s, j0 + ser_string(t).len(), rp());
            lemma_parse_string(s, j0, t);
        },
        ValueV::Dict(t) => {
            let pl = ser_string(t) + rp();
            assert(ser_value(v) =~= tag_dict() + pl);
            lemma_at_concat(s, i, tag_dict(), pl);
            lemma_at_index(s, i, tag_dict());
            let j0 = i + tag_dict().len();
            lemma_at_concat(s, j0, ser_string(t), rp());
            lemma_at_index(s, j0 + ser_string(t).len(), rp());
            lemma_parse_string(s, j0, t);
        },
        _ => {},
    }
}

/// A rendered value parses back to its value, provided no digit
/// follows it.
pub proof fn lemma_parse_value(s: Seq<u8>, i: int, v: ValueV)
    requires
        at(s, i, ser_value(v)),
        i + ser_value(v).len() == s.len() || !is_digit(s[i + ser_value(v).len()]),
    ensures
        parse_value(s, i) == Option::Some((v, i + ser_value(v).len())),
{
    match v {
        ValueV::Null | ValueV::Bool(_) | ValueV::Int(_) | ValueV::Str(_) => {
            lemma_parse_value_atoms(s, i, v);
        },
        ValueV::I8(_) | ValueV::I16(_) | ValueV::I32(_) | ValueV::I128(_) | ValueV::IntervalMonth(_) | ValueV::IntervalMicrosecond(_) | ValueV::Inet(_) => {
            lemma_parse_value_tag_i(s, i, v);
        },
        ValueV::U8(_) | ValueV::U16(_) | ValueV::U32(_) | ValueV::U64(_) | ValueV::U128(_) | ValueV::Uuid(_) => {
            lemma_parse_value_tag_u(s, i, v);
        },
        ValueV::Date(_) | ValueV::Decimal(_) | ValueV::Time(_, _) | ValueV::Timestamp(_, _) | ValueV::Bytea(_) | ValueV::F32Bits(_) | ValueV::F64Bits(_) | ValueV::Point(_, _) | ValueV::List(_) | ValueV::Dict(_) => {
            lemma_parse_value_tag_rest(s, i, v);
        },
    }
}

/// A rendered value starts with a quote, a keyword letter, a minus,
/// a digit, or a tag letter — never with a bracket, a brace, or a
/// comma.
pub proof fn lemma_ser_value_first(v: ValueV)
    ensures
        ser_value(v).len() >= 1,
        ser_value(v)[0] == qu() || ser_value(v)[0] == 0x6E || ser_value(v)[0] == 0x74
            || ser_value(v)[0] == 0x66 || ser_value(v)[0] == 0x2D || is_digit(ser_value(v)[0])
            || ser_value(v)[0] == 0x49 || ser_value(v)[0] == 0x55 || ser_value(v)[0] == 0x44
            || ser_value(v)[0] == 0x54 || ser_value(v)[0] == 0x42 || ser_value(v)[0] == 0x46
            || ser_value(v)[0] == 0x50 || ser_value(v)[0] == 0x4C || ser_value(v)[0] == 0x4D,
{
    lemma_ser_value_len(v);
    match v {
        ValueV::Null => {},
        ValueV::Bool(_) => {},
        ValueV::Int(n) => {
            if n < 0 {
                lemma_dec_digits_canon((-(n as int)) as nat);
                assert(ser_int_of(n as int)[0] == 0x2D);
            } else {
                lemma_dec_digits_canon(n as nat);
                assert(is_digit(ser_int_of(n as int)[0]));
            }
        },
        ValueV::Str(_) => {},
        ValueV::I8(_) => {
            assert(ser_value(v)[0] == 0x49);
        },
        ValueV::I16(_) => {
            assert(ser_value(v)[0] == 0x49);
        },
        ValueV::I32(_) => {
            assert(ser_value(v)[0] == 0x49);
        },
        ValueV::I128(_) => {
            assert(ser_value(v)[0] == 0x49);
        },
        ValueV::IntervalMonth(_) => {
            assert(ser_value(v)[0] == 0x49);
        },
        ValueV::IntervalMicrosecond(_) => {
            assert(ser_value(v)[0] == 0x49);
        },
        ValueV::U8(_) => {
            assert(ser_value(v)[0] == 0x55);
        },
        ValueV::U16(_) => {
            assert(ser_value(v)[0] == 0x55);
        },
        ValueV::U32(_) => {
            assert(ser_value(v)[0] == 0x55);
        },
        ValueV::U64(_) => {
            assert(ser_value(v)[0] == 0x55);
        },
        ValueV::U128(_) => {
            assert(ser_value(v)[0] == 0x55);
        },
        ValueV::Uuid(_) => {
            assert(ser_value(v)[0] == 0x55);
        },
        ValueV::Date(_) => {
            assert(ser_value(v)[0] == 0x44);
        },
        ValueV::Bytea(_) => {
            assert(ser_value(v)[0] == 0x42);
        },
        ValueV::Decimal(_) => {
            assert(ser_value(v)[0] == 0x44);
        },
        ValueV::Inet(_) => {
            assert(ser_value(v)[0] == 0x49);
        },
        ValueV::Time(_, _) => {
            assert(ser_value(v)[0] == 0x54);
        },
        ValueV::Timestamp(_, _) => {
            assert(ser_value(v)[0] == 0x54);
        },
        ValueV::F32Bits(_) => {
            assert(ser_value(v)[0] == 0x46);
        },
        ValueV::F64Bits(_) => {
            assert(ser_value(v)[0] == 0x46);
        },
        ValueV::Point(_, _) => {
            assert(ser_value(v)[0] == 0x50);
        },
        ValueV::List(_) => {
            assert(ser_value(v)[0] == 0x4C);
        },
        ValueV::Dict(_) => {
            assert(ser_value(v)[0] == 0x4D);
        },
    }
}

/// A rendered, nonempty value list parses back to its values, provided
/// neither a comma-space nor a digit follows it.
#[verifier::rlimit(100)]
pub proof fn lemma_parse_values(s: Seq<u8>, i: int, vs: Seq<ValueV>)
    requires
        vs.len() >= 1,
        at(s, i, ser_values(vs)),
        ({
            let e = i + ser_values(vs).len();
            e == s.len() || (s[e] != 0x2C && !is_digit(s[e]))
        }),
    ensures
        parse_values(s, i) == Option::Some((vs, i + ser_values(vs).len())),
    decreases vs.len(),
{
    let e = i + ser_values(vs).len();
    if vs.len() == 1 {
        lemma_parse_value(s, i, vs[0]);
        if at(s, e, sep_lit()) {
            lemma_at_index(s, e, sep_lit());
            assert(false);
        }
        assert(seq![vs[0]] =~= vs);
    } else {
        let v0 = vs[0];
        let rest = vs.skip(1);
        assert(ser_values(vs) =~= ser_value(v0) + (sep_lit() + ser_values(rest)));
        lemma_at_concat(s, i, ser_value(v0), sep_lit() + ser_values(rest));
        let j = i + ser_value(v0).len();
        lemma_at_concat(s, j, sep_lit(), ser_values(rest));
        lemma_at_index(s, j, sep_lit());
        assert(s[j] == 0x2C);
        lemma_parse_value(s, i, v0);
        lemma_ser_value_len(v0);
        lemma_parse_values(s, j + 2, rest);
        assert(seq![v0] + rest =~= vs);
    }
}

/// A rendered field parses back to its name and value, provided no
/// digit follows it.
pub proof fn lemma_parse_field(s: Seq<u8>, i: int, f: FieldV)
    requires
        at(s, i, ser_field(f)),
        i + ser_field(f).len() == s.len() || !is_digit(s[i + ser_field(f).len()]),
    ensures
        parse_field(s, i) == Option::Some((f, i + ser_field(f).len())),
{
    assert(ser_field(f) =~= ser_string(f.name) + (colon_lit() + ser_value(f.value)));
    lemma_at_concat(s, i, ser_string(f.name), colon_lit() + ser_value(f.value));
    let j = i + ser_string(f.name).len();
    lemma_at_concat(s, j, colon_lit(), ser_value(f.value));
    lemma_parse_string(s, i, f.name);
    lemma_parse_value(s, j + 2, f.value);
}

/// A rendered, nonempty field list parses back to its fields, provided
/// neither a comma-space nor a digit follows it.
pub proof fn lemma_parse_fields(s: Seq<u8>, i: int, fs: Seq<FieldV>)
    requires
        fs.len() >= 1,
        at(s, i, ser_fields(fs)),
        ({
            let e = i + ser_fields(fs).len();
            e == s.len() || (s[e] != 0x2C && !is_digit(s[e]))
        }),
    ensures
        parse_fields(s, i) == Option::Some((fs, i + ser_fields(fs).len())),
    decreases fs.len(),
{
    let e = i + ser_fields(fs).len();
    if fs.len() == 1 {
        lemma_parse_field(s, i, fs[0]);
        if at(s, e, sep_lit()) {
            lemma_at_index(s, e, sep_lit());
            assert(false);
        }
        assert(seq![fs[0]] =~= fs);
    } else {
        let f0 = fs[0];
        let rest = fs.skip(1);
        assert(ser_fields(fs) =~= ser_field(f0) + (sep_lit() + ser_fields(rest)));
        lemma_at_concat(s, i, ser_field(f0), sep_lit() + ser_fields(rest));
        let j = i + ser_field(f0).len();
        lemma_at_concat(s, j, sep_lit(), ser_fields(rest));
        lemma_at_index(s, j, sep_lit());
        assert(s[j] == 0x2C);
        lemma_parse_field(s, i, f0);
        lemma_parse_fields(s, j + 2, rest);
        assert(seq![f0] + rest =~= fs);
    }
}

/// A rendered row parses back to its value.
pub proof fn lemma_parse_row(s: Seq<u8>, i: int, r: RowV)
    requires
        at(s, i, ser_row(r)),
    ensures
        parse_row_at(s, i) == Option::Some((r, i + ser_row(r).len())),
{
    lemma_at_index(s, i, ser_row(r));
    match r {
        RowV::Values(vs) => {
            assert(ser_row(r) =~= seq![0x5Bu8] + (ser_values(vs) + seq![0x5Du8]));
            lemma_at_concat(s, i, seq![0x5Bu8], ser_values(vs) + seq![0x5Du8]);
            lemma_at_concat(s, i + 1, ser_values(vs), seq![0x5Du8]);
            let j = i + 1 + ser_values(vs).len();
            lemma_at_index(s, j, seq![0x5Du8]);
            assert(s[i] == 0x5B);
            assert(s[j] == 0x5D);
            if vs.len() == 0 {
                assert(at(s, i + 1, seq![0x5Du8]));
                assert(vs =~= Seq::<ValueV>::empty());
            } else {
                lemma_ser_value_first(vs[0]);
                assert(ser_values(vs)[0] == ser_value(vs[0])[0]);
                lemma_at_index(s, i + 1, ser_values(vs));
                if at(s, i + 1, seq![0x5Du8]) {
                    lemma_at_index(s, i + 1, seq![0x5Du8]);
                    assert(false);
                }
                lemma_parse_values(s, i + 1, vs);
            }
        },
        RowV::Fields(fs) => {
            assert(ser_row(r) =~= seq![0x7Bu8] + (ser_fields(fs) + seq![0x7Du8]));
            lemma_at_concat(s, i, seq![0x7Bu8], ser_fields(fs) + seq![0x7Du8]);
            lemma_at_concat(s, i + 1, ser_fields(fs), seq![0x7Du8]);
            let j = i + 1 + ser_fields(fs).len();
            lemma_at_index(s, j, seq![0x7Du8]);
            assert(s[i] == 0x7B);
            assert(s[j] == 0x7D);
            if fs.len() == 0 {
                assert(at(s, i + 1, seq![0x7Du8]));
                assert(fs =~= Seq::<FieldV>::empty());
            } else {
                assert(ser_fields(fs)[0] == ser_field(fs[0])[0]);
                assert(ser_field(fs[0])[0] == qu());
                lemma_at_index(s, i + 1, ser_fields(fs));
                if at(s, i + 1, seq![0x7Du8]) {
                    lemma_at_index(s, i + 1, seq![0x7Du8]);
                    assert(false);
                }
                lemma_parse_fields(s, i + 1, fs);
            }
        },
    }
}

/// A rendered column type parses back to itself.
pub proof fn lemma_parse_dtype(s: Seq<u8>, i: int, d: DataType)
    requires
        at(s, i, ser_dtype(d)),
    ensures
        parse_dtype(s, i) == Option::Some((d, i + ser_dtype(d).len())),
{
    lemma_parse_string(s, i, dtype_name(d));
    match d {
        DataType::Boolean => {
        },
        DataType::Int8 => {
            assert(dtype_name(DataType::Int8).len() != dtype_name(DataType::Boolean).len());
        },
        DataType::Int16 => {
            assert(dtype_name(DataType::Int16).len() != dtype_name(DataType::Boolean).len());
            assert(dtype_name(DataType::Int16).len() != dtype_name(DataType::Int8).len());
        },
        DataType::Int32 => {
            assert(dtype_name(DataType::Int32).len() != dtype_name(DataType::Boolean).len());
            assert(dtype_name(DataType::Int32).len() != dtype_name(DataType::Int8).len());
            assert(dtype_name(DataType::Int32)[3] != dtype_name(DataType::Int16)[3]);
        },
        DataType::Int => {
            assert(dtype_name(DataType::Int).len() != dtype_name(DataType::Boolean).len());
            assert(dtype_name(DataType::Int).len() != dtype_name(DataType::Int8).len());
            assert(dtype_name(DataType::Int).len() != dtype_name(DataType::Int16).len());
            assert(dtype_name(DataType::Int).len() != dtype_name(DataType::Int32).len());
        },
        DataType::Int128 => {
            assert(dtype_name(DataType::Int128).len() != dtype_name(DataType::Boolean).len());
            assert(dtype_name(DataType::Int128).len() != dtype_name(DataType::Int8).len());
            assert(dtype_name(DataType::Int128).len() != dtype_name(DataType::Int16).len());
            assert(dtype_name(DataType::Int128).len() != dtype_name(DataType::Int32).len());
            assert(dtype_name(DataType::Int128).len() != dtype_name(DataType::Int).len());
        },
        DataType::Uint8 => {
            assert(dtype_name(DataType::Uint8).len() != dtype_name(DataType::Boolean).len());
            assert(dtype_name(DataType::Uint8).len() != dtype_name(DataType::Int8).len());
            assert(dtype_name(DataType::Uint8)[0] != dtype_name(DataType::Int16)[0]);
            assert(dtype_name(DataType::Uint8)[0] != dtype_name(DataType::Int32)[0]);
            assert(dtype_name(DataType::Uint8).len() != dtype_name(DataType::Int).len());
            assert(dtype_name(DataType::Uint8).len() != dtype_name(DataType::Int128).len());
        },
        DataType::Uint16 => {
            assert(dtype_name(DataType::Uint16).len() != dtype_name(DataType::Boolean).len());
            assert(dtype_name(DataType::Uint16).len() != dtype_name(DataType::Int8).len());
            assert(dtype_name(DataType::Uint16).len() != dtype_name(DataType::Int16).len());
            assert(dtype_name(DataType::Uint16).len() != dtype_name(DataType::Int32).len());
            assert(dtype_name(DataType::Uint16).len() != dtype_name(DataType::Int).len());
            assert(dtype_name(DataType::Uint16)[0] != dtype_name(DataType::Int128)[0]);
            assert(dtype_name(DataType::Uint16).len() != dtype_name(DataType::Uint8).len());
        },
        DataType::Uint32 => {
            assert(dtype_name(DataType::Uint32).len() != dtype_name(DataType::Boolean).len());
            assert(dtype_name(DataType::Uint32).len() != dtype_name(DataType::Int8).len());
            assert(dtype_name(DataType::Uint32).len() != dtype_name(DataType::Int16).len());
            assert(dtype_name(DataType::Uint32).len() != dtype_name(DataType::Int32).len());
            assert(dtype_name(DataType::Uint32).len() != dtype_name(DataType::Int).len());
            assert(dtype_name(DataType::Uint32)[0] != dtype_name(DataType::Int128)[0]);
            assert(dtype_name(DataType::Uint32).len() != dtype_name(DataType::Uint8).len());
            assert(dtype_name(DataType::Uint32)[4] != dtype_name(DataType::Uint16)[4]);
        },
        DataType::Uint64 => {
            assert(dtype_name(DataType::Uint64).len() != dtype_name(DataType::Boolean).len());
            assert(dtype_name(DataType::Uint64).len() != dtype_name(DataType::Int8).len());
            assert(dtype_name(DataType::Uint64).len() != dtype_name(DataType::Int16).len());
            assert(dtype_name(DataType::Uint64).len() != dtype_name(DataType::Int32).len());
            assert(dtype_name(DataType::Uint64).len() != dtype_name(DataType::Int).len());
            assert(dtype_name(DataType::Uint64)[0] != dtype_name(DataType::Int128)[0]);
            assert(dtype_name(DataType::Uint64).len() != dtype_name(DataType::Uint8).len());
            assert(dtype_name(DataType::Uint64)[4] != dtype_name(DataType::Uint16)[4]);
            assert(dtype_name(DataType::Uint64)[4] != dtype_name(DataType::Uint32)[4]);
        },
        DataType::Uint128 => {
            assert(dtype_name(DataType::Uint128)[0] != dtype_name(DataType::Boolean)[0]);
            assert(dtype_name(DataType::Uint128).len() != dtype_name(DataType::Int8).len());
            assert(dtype_name(DataType::Uint128).len() != dtype_name(DataType::Int16).len());
            assert(dtype_name(DataType::Uint128).len() != dtype_name(DataType::Int32).len());
            assert(dtype_name(DataType::Uint128).len() != dtype_name(DataType::Int).len());
            assert(dtype_name(DataType::Uint128).len() != dtype_name(DataType::Int128).len());
            assert(dtype_name(DataType::Uint128).len() != dtype_name(DataType::Uint8).len());
            assert(dtype_name(DataType::Uint128).len() != dtype_name(DataType::Uint16).len());
            assert(dtype_name(DataType::Uint128).len() != dtype_name(DataType::Uint32).len());
            assert(dtype_name(DataType::Uint128).len() != dtype_name(DataType::Uint64).len());
        },
        DataType::Float32 => {
            assert(dtype_name(DataType::Float32)[0] != dtype_name(DataType::Boolean)[0]);
            assert(dtype_name(DataType::Float32).len() != dtype_name(DataType::Int8).len());
            assert(dtype_name(DataType::Float32).len() != dtype_name(DataType::Int16).len());
            assert(dtype_name(DataType::Float32).len() != dtype_name(DataType::Int32).len());
            assert(dtype_name(DataType::Float32).len() != dtype_name(DataType::Int).len());
            assert(dtype_name(DataType::Float32).len() != dtype_name(DataType::Int128).len());
            assert(dtype_name(DataType::Float32).len() != dtype_name(DataType::Uint8).len());
            assert(dtype_name(DataType::Float32).len() != dtype_name(DataType::Uint16).len());
            assert(dtype_name(DataType::Float32).len() != dtype_name(DataType::Uint32).len());
            assert(dtype_name(DataType::Float32).len() != dtype_name(DataType::Uint64).len());
            assert(dtype_name(DataType::Float32)[0] != dtype_name(DataType::Uint128)[0]);
        },
        DataType::Float => {
            assert(dtype_name(DataType::Float).len() != dtype_name(DataType::Boolean).len());
            assert(dtype_name(DataType::Float).len() != dtype_name(DataType::Int8).len());
            assert(dtype_name(DataType::Float)[0] != dtype_name(DataType::Int16)[0]);
            assert(dtype_name(DataType::Float)[0] != dtype_name(DataType::Int32)[0]);
            assert(dtype_name(DataType::Float).len() != dtype_name(DataType::Int).len());
            assert(dtype_name(DataType::Float).len() != dtype_name(DataType::Int128).len());
            assert(dtype_name(DataType::Float)[0] != dtype_name(DataType::Uint8)[0]);
            assert(dtype_name(DataType::Float).len() != dtype_name(DataType::Uint16).len());
            assert(dtype_name(DataType::Float).len() != dtype_name(DataType::Uint32).len());
            assert(dtype_name(DataType::Float).len() != dtype_name(DataType::Uint64).len());
            assert(dtype_name(DataType::Float).len() != dtype_name(DataType::Uint128).len());
            assert(dtype_name(DataType::Float).len() != dtype_name(DataType::Float32).len());
        },
        DataType::Text => {
            assert(dtype_name(DataType::Text).len() != dtype_name(DataType::Boolean).len());
            assert(dtype_name(DataType::Text)[0] != dtype_name(DataType::Int8)[0]);
            assert(dtype_name(DataType::Text).len() != dtype_name(DataType::Int16).len());
            assert(dtype_name(DataType::Text).len() != dtype_name(DataType::Int32).len());
            assert(dtype_name(DataType::Text).len() != dtype_name(DataType::Int).len());
            assert(dtype_name(DataType::Text).len() != dtype_name(DataType::Int128).len());
            assert(dtype_name(DataType::Text).len() != dtype_name(DataType::Uint8).len());
            assert(dtype_name(DataType::Text).len() != dtype_name(DataType::Uint16).len());
            assert(dtype_name(DataType::Text).len() != dtype_name(DataType::Uint32).len());
            assert(dtype_name(DataType::Text).len() != dtype_name(DataType::Uint64).len());
            assert(dtype_name(DataType::Text).len() != dtype_name(DataType::Uint128).len());
            assert(dtype_name(DataType::Text).len() != dtype_name(DataType::Float32).len());
            assert(dtype_name(DataType::Text).len() != dtype_name(DataType::Float).len());
        },
        DataType::Bytea => {
            assert(dtype_name(DataType::Bytea).len() != dtype_name(DataType::Boolean).len());
            assert(dtype_name(DataType::Bytea).len() != dtype_name(DataType::Int8).len());
            assert(dtype_name(DataType::Bytea)[0] != dtype_name(DataType::Int16)[0]);
            assert(dtype_name(DataType::Bytea)[0] != dtype_name(DataType::Int32)[0]);
            assert(dtype_name(DataType::Bytea).len() != dtype_name(DataType::Int).len());
            assert(dtype_name(DataType::Bytea).len() != dtype_name(DataType::Int128).len());
            assert(dtype_name(DataType::Bytea)[0] != dtype_name(DataType::Uint8)[0]);
            assert(dtype_name(DataType::Bytea).len() != dtype_name(DataType::Uint16).len());
            assert(dtype_name(DataType::Bytea).len() != dtype_name(DataType::Uint32).len());
            assert(dtype_name(DataType::Bytea).len() != dtype_name(DataType::Uint64).len());
            assert(dtype_name(DataType::Bytea).len() != dtype_name(DataType::Uint128).len());
            assert(dtype_name(DataType::Bytea).len() != dtype_name(DataType::Float32).len());
            assert(dtype_name(DataType::Bytea)[0] != dtype_name(DataType::Float)[0]);
            assert(dtype_name(DataType::Bytea).len() != dtype_name(DataType::Text).len());
        },
        DataType::Inet => {
            assert(dtype_name(DataType::Inet).len() != dtype_name(DataType::Boolean).len());
            assert(dtype_name(DataType::Inet)[2] != dtype_name(DataType::Int8)[2]);
            assert(dtype_name(DataType::Inet).len() != dtype_name(DataType::Int16).len());
            assert(dtype_name(DataType::Inet).len() != dtype_name(DataType::Int32).len());
            assert(dtype_name(DataType::Inet).len() != dtype_name(DataType::Int).len());
            assert(dtype_name(DataType::Inet).len() != dtype_name(DataType::Int128).len());
            assert(dtype_name(DataType::Inet).len() != dtype_name(DataType::Uint8).len());
            assert(dtype_name(DataType::Inet).len() != dtype_name(DataType::Uint16).len());
            assert(dtype_name(DataType::Inet).len() != dtype_name(DataType::Uint32).len());
            assert(dtype_name(DataType::Inet).len() != dtype_name(DataType::Uint64).len());
            assert(dtype_name(DataType::Inet).len() != dtype_name(DataType::Uint128).len());
            assert(dtype_name(DataType::Inet).len() != dtype_name(DataType::Float32).len());
            assert(dtype_name(DataType::Inet).len() != dtype_name(DataType::Float).len());
            assert(dtype_name(DataType::Inet)[0] != dtype_name(DataType::Text)[0]);
            assert(dtype_name(DataType::Inet).len() != dtype_name(DataType::Bytea).len());
        },
        DataType::Date => {
            assert(dtype_name(DataType::Date).len() != dtype_name(DataType::Boolean).len());
            assert(dtype_name(DataType::Date)[0] != dtype_name(DataType::Int8)[0]);
            assert(dtype_name(DataType::Date).len() != dtype_name(DataType::Int16).len());
            assert(dtype_name(DataType::Date).len() != dtype_name(DataType::Int32).len());
            assert(dtype_name(DataType::Date).len() != dtype_name(DataType::Int).len());
            assert(dtype_name(DataType::Date).len() != dtype_name(DataType::Int128).len());
            assert(dtype_name(DataType::Date).len() != dtype_name(DataType::Uint8).len());
            assert(dtype_name(DataType::Date).len() != dtype_name(DataType::Uint16).len());
            assert(dtype_name(DataType::Date).len() != dtype_name(DataType::Uint32).len());
            assert(dtype_name(DataType::Date).len() != dtype_name(DataType::Uint64).len());
            assert(dtype_name(DataType::Date).len() != dtype_name(DataType::Uint128).len());
            assert(dtype_name(DataType::Date).len() != dtype_name(DataType::Float32).len());
            assert(dtype_name(DataType::Date).len() != dtype_name(DataType::Float).len());
            assert(dtype_name(DataType::Date)[0] != dtype_name(DataType::Text)[0]);
            assert(dtype_name(DataType::Date).len() != dtype_name(DataType::Bytea).len());
            assert(dtype_name(DataType::Date)[0] != dtype_name(DataType::Inet)[0]);
        },
        DataType::Timestamp => {
            assert(dtype_name(DataType::Timestamp).len() != dtype_name(DataType::Boolean).len());
            assert(dtype_name(DataType::Timestamp).len() != dtype_name(DataType::Int8).len());
            assert(dtype_name(DataType::Timestamp).len() != dtype_name(DataType::Int16).len());
            assert(dtype_name(DataType::Timestamp).len() != dtype_name(DataType::Int32).len());
            assert(dtype_name(DataType::Timestamp).len() != dtype_name(DataType::Int).len());
            assert(dtype_name(DataType::Timestamp).len() != dtype_name(DataType::Int128).len());
            assert(dtype_name(DataType::Timestamp).len() != dtype_name(DataType::Uint8).len());
            assert(dtype_name(DataType::Timestamp).len() != dtype_name(DataType::Uint16).len());
            assert(dtype_name(DataType::Timestamp).len() != dtype_name(DataType::Uint32).len());
            assert(dtype_name(DataType::Timestamp).len() != dtype_name(DataType::Uint64).len());
            assert(dtype_name(DataType::Timestamp).len() != dtype_name(DataType::Uint128).len());
            assert(dtype_name(DataType::Timestamp).len() != dtype_name(DataType::Float32).len());
            assert(dtype_name(DataType::Timestamp).len() != dtype_name(DataType::Float).len());
            assert(dtype_name(DataType::Timestamp).len() != dtype_name(DataType::Text).len());
            assert(dtype_name(DataType::Timestamp).len() != dtype_name(DataType::Bytea).len());
            assert(dtype_name(DataType::Timestamp).len() != dtype_name(DataType::Inet).len());
            assert(dtype_name(DataType::Timestamp).len() != dtype_name(DataType::Date).len());
        },
        DataType::Time => {
            assert(dtype_name(DataType::Time).len() != dtype_name(DataType::Boolean).len());
            assert(dtype_name(DataType::Time)[0] != dtype_name(DataType::Int8)[0]);
            assert(dtype_name(DataType::Time).len() != dtype_name(DataType::Int16).len());
            assert(dtype_name(DataType::Time).len() != dtype_name(DataType::Int32).len());
            assert(dtype_name(DataType::Time).len() != dtype_name(DataType::Int).len());
            assert(dtype_name(DataType::Time).len() != dtype_name(DataType::Int128).len());
            assert(dtype_name(DataType::Time).len() != dtype_name(DataType::Uint8).len());
            assert(dtype_name(DataType::Time).len() != dtype_name(DataType::Uint16).len());
            assert(dtype_name(DataType::Time).len() != dtype_name(DataType::Uint32).len());
            assert(dtype_name(DataType::Time).len() != dtype_name(DataType::Uint64).len());
            assert(dtype_name(DataType::Time).len() != dtype_name(DataType::Uint128).len());
            assert(dtype_name(DataType::Time).len() != dtype_name(DataType::Float32).len());
            assert(dtype_name(DataType::Time).len() != dtype_name(DataType::Float).len());
            assert(dtype_name(DataType::Time)[1] != dtype_name(DataType::Text)[1]);
            assert(dtype_name(DataType::Time).len() != dtype_name(DataType::Bytea).len());
            assert(dtype_name(DataType::Time)[0] != dtype_name(DataType::Inet)[0]);
            assert(dtype_name(DataType::Time)[0] != dtype_name(DataType::Date)[0]);
            assert(dtype_name(DataType::Time).len() != dtype_name(DataType::Timestamp).len());
        },
        DataType::Interval => {
            assert(dtype_name(DataType::Interval).len() != dtype_name(DataType::Boolean).len());
            assert(dtype_name(DataType::Interval).len() != dtype_name(DataType::Int8).len());
            assert(dtype_name(DataType::Interval).len() != dtype_name(DataType::Int16).len());
            assert(dtype_name(DataType::Interval).len() != dtype_name(DataType::Int32).len());
            assert(dtype_name(DataType::Interval).len() != dtype_name(DataType::Int).len());
            assert(dtype_name(DataType::Interval).len() != dtype_name(DataType::Int128).len());
            assert(dtype_name(DataType::Interval).len() != dtype_name(DataType::Uint8).len());
            assert(dtype_name(DataType::Interval).len() != dtype_name(DataType::Uint16).len());
            assert(dtype_name(DataType::Interval).len() != dtype_name(DataType::Uint32).len());
            assert(dtype_name(DataType::Interval).len() != dtype_name(DataType::Uint64).len());
            assert(dtype_name(DataType::Interval).len() != dtype_name(DataType::Uint128).len());
            assert(dtype_name(DataType::Interval).len() != dtype_name(DataType::Float32).len());
            assert(dtype_name(DataType::Interval).len() != dtype_name(DataType::Float).len());
            assert(dtype_name(DataType::Interval).len() != dtype_name(DataType::Text).len());
            assert(dtype_name(DataType::Interval).len() != dtype_name(DataType::Bytea).len());
            assert(dtype_name(DataType::Interval).len() != dtype_name(DataType::Inet).len());
            assert(dtype_name(DataType::Interval).len() != dtype_name(DataType::Date).len());
            assert(dtype_name(DataType::Interval).len() != dtype_name(DataType::Timestamp).len());
            assert(dtype_name(DataType::Interval).len() != dtype_name(DataType::Time).len());
        },
        DataType::Uuid => {
            assert(dtype_name(DataType::Uuid).len() != dtype_name(DataType::Boolean).len());
            assert(dtype_name(DataType::Uuid)[0] != dtype_name(DataType::Int8)[0]);
            assert(dtype_name(DataType::Uuid).len() != dtype_name(DataType::Int16).len());
            assert(dtype_name(DataType::Uuid).len() != dtype_name(DataType::Int32).len());
            assert(dtype_name(DataType::Uuid).len() != dtype_name(DataType::Int).len());
            assert(dtype_name(DataType::Uuid).len() != dtype_name(DataType::Int128).len());
            assert(dtype_name(DataType::Uuid).len() != dtype_name(DataType::Uint8).len());
            assert(dtype_name(DataType::Uuid).len() != dtype_name(DataType::Uint16).len());
            assert(dtype_name(DataType::Uuid).len() != dtype_name(DataType::Uint32).len());
            assert(dtype_name(DataType::Uuid).len() != dtype_name(DataType::Uint64).len());
            assert(dtype_name(DataType::Uuid).len() != dtype_name(DataType::Uint128).len());
            assert(dtype_name(DataType::Uuid).len() != dtype_name(DataType::Float32).len());
            assert(dtype_name(DataType::Uuid).len() != dtype_name(DataType::Float).len());
            assert(dtype_name(DataType::Uuid)[0] != dtype_name(DataType::Text)[0]);
            assert(dtype_name(DataType::Uuid).len() != dtype_name(DataType::Bytea).len());
            assert(dtype_name(DataType::Uuid)[0] != dtype_name(DataType::Inet)[0]);
            assert(dtype_name(DataType::Uuid)[0] != dtype_name(DataType::Date)[0]);
            assert(dtype_name(DataType::Uuid).len() != dtype_name(DataType::Timestamp).len());
            assert(dtype_name(DataType::Uuid)[0] != dtype_name(DataType::Time)[0]);
            assert(dtype_name(DataType::Uuid).len() != dtype_name(DataType::Interval).len());
        },
        DataType::Dict => {
            assert(dtype_name(DataType::Dict).len() != dtype_name(DataType::Boolean).len());
            assert(dtype_name(DataType::Dict).len() != dtype_name(DataType::Int8).len());
            assert(dtype_name(DataType::Dict).len() != dtype_name(DataType::Int16).len());
            assert(dtype_name(DataType::Dict).len() != dtype_name(DataType::Int32).len());
            assert(dtype_name(DataType::Dict)[0] != dtype_name(DataType::Int)[0]);
            assert(dtype_name(DataType::Dict).len() != dtype_name(DataType::Int128).len());
            assert(dtype_name(DataType::Dict).len() != dtype_name(DataType::Uint8).len());
            assert(dtype_name(DataType::Dict).len() != dtype_name(DataType::Uint16).len());
            assert(dtype_name(DataType::Dict).len() != dtype_name(DataType::Uint32).len());
            assert(dtype_name(DataType::Dict).len() != dtype_name(DataType::Uint64).len());
            assert(dtype_name(DataType::Dict).len() != dtype_name(DataType::Uint128).len());
            assert(dtype_name(DataType::Dict).len() != dtype_name(DataType::Float32).len());
            assert(dtype_name(DataType::Dict).len() != dtype_name(DataType::Float).len());
            assert(dtype_name(DataType::Dict).len() != dtype_name(DataType::Text).len());
            assert(dtype_name(DataType::Dict).len() != dtype_name(DataType::Bytea).len());
            assert(dtype_name(DataType::Dict).len() != dtype_name(DataType::Inet).len());
            assert(dtype_name(DataType::Dict).len() != dtype_name(DataType::Date).len());
            assert(dtype_name(DataType::Dict).len() != dtype_name(DataType::Timestamp).len());
            assert(dtype_name(DataType::Dict).len() != dtype_name(DataType::Time).len());
            assert(dtype_name(DataType::Dict).len() != dtype_name(DataType::Interval).len());
            assert(dtype_name(DataType::Dict).len() != dtype_name(DataType::Uuid).len());
        },
        DataType::List => {
            assert(dtype_name(DataType::List).len() != dtype_name(DataType::Boolean).len());
            assert(dtype_name(DataType::List)[0] != dtype_name(DataType::Int8)[0]);
            assert(dtype_name(DataType::List).len() != dtype_name(DataType::Int16).len());
            assert(dtype_name(DataType::List).len() != dtype_name(DataType::Int32).len());
            assert(dtype_name(DataType::List).len() != dtype_name(DataType::Int).len());
            assert(dtype_name(DataType::List).len() != dtype_name(DataType::Int128).len());
            assert(dtype_name(DataType::List).len() != dtype_name(DataType::Uint8).len());
            assert(dtype_name(DataType::List).len() != dtype_name(DataType::Uint16).len());
            assert(dtype_name(DataType::List).len() != dtype_name(DataType::Uint32).len());
            assert(dtype_name(DataType::List).len() != dtype_name(DataType::Uint64).len());
            assert(dtype_name(DataType::List).len() != dtype_name(DataType::Uint128).len());
            assert(dtype_name(DataType::List).len() != dtype_name(DataType::Float32).len());
            assert(dtype_name(DataType::List).len() != dtype_name(DataType::Float).len());
            assert(dtype_name(DataType::List)[0] != dtype_name(DataType::Text)[0]);
            assert(dtype_name(DataType::List).len() != dtype_name(DataType::Bytea).len());
            assert(dtype_name(DataType::List)[0] != dtype_name(DataType::Inet)[0]);
            assert(dtype_name(DataType::List)[0] != dtype_name(DataType::Date)[0]);
            assert(dtype_name(DataType::List).len() != dtype_name(DataType::Timestamp).len());
            assert(dtype_name(DataType::List)[0] != dtype_name(DataType::Time)[0]);
            assert(dtype_name(DataType::List).len() != dtype_name(DataType::Interval).len());
            assert(dtype_name(DataType::List)[0] != dtype_name(DataType::Uuid)[0]);
            assert(dtype_name(DataType::List).len() != dtype_name(DataType::Dict).len());
        },
        DataType::Decimal => {
            assert(dtype_name(DataType::Decimal)[0] != dtype_name(DataType::Boolean)[0]);
            assert(dtype_name(DataType::Decimal).len() != dtype_name(DataType::Int8).len());
            assert(dtype_name(DataType::Decimal).len() != dtype_name(DataType::Int16).len());
            assert(dtype_name(DataType::Decimal).len() != dtype_name(DataType::Int32).len());
            assert(dtype_name(DataType::Decimal).len() != dtype_name(DataType::Int).len());
            assert(dtype_name(DataType::Decimal).len() != dtype_name(DataType::Int128).len());
            assert(dtype_name(DataType::Decimal).len() != dtype_name(DataType::Uint8).len());
            assert(dtype_name(DataType::Decimal).len() != dtype_name(DataType::Uint16).len());
            assert(dtype_name(DataType::Decimal).len() != dtype_name(DataType::Uint32).len());
            assert(dtype_name(DataType::Decimal).len() != dtype_name(DataType::Uint64).len());
            assert(dtype_name(DataType::Decimal)[0] != dtype_name(DataType::Uint128)[0]);
            assert(dtype_name(DataType::Decimal)[0] != dtype_name(DataType::Float32)[0]);
            assert(dtype_name(DataType::Decimal).len() != dtype_name(DataType::Float).len());
            assert(dtype_name(DataType::Decimal).len() != dtype_name(DataType::Text).len());
            assert(dtype_name(DataType::Decimal).len() != dtype_name(DataType::Bytea).len());
            assert(dtype_name(DataType::Decimal).len() != dtype_name(DataType::Inet).len());
            assert(dtype_name(DataType::Decimal).len() != dtype_name(DataType::Date).len());
            assert(dtype_name(DataType::Decimal).len() != dtype_name(DataType::Timestamp).len());
            assert(dtype_name(DataType::Decimal).len() != dtype_name(DataType::Time).len());
            assert(dtype_name(DataType::Decimal).len() != dtype_name(DataType::Interval).len());
            assert(dtype_name(DataType::Decimal).len() != dtype_name(DataType::Uuid).len());
            assert(dtype_name(DataType::Decimal).len() != dtype_name(DataType::Dict).len());
            assert(dtype_name(DataType::Decimal).len() != dtype_name(DataType::List).len());
        },
        DataType::Point => {
            assert(dtype_name(DataType::Point).len() != dtype_name(DataType::Boolean).len());
            assert(dtype_name(DataType::Point).len() != dtype_name(DataType::Int8).len());
            assert(dtype_name(DataType::Point)[0] != dtype_name(DataType::Int16)[0]);
            assert(dtype_name(DataType::Point)[0] != dtype_name(DataType::Int32)[0]);
            assert(dtype_name(DataType::Point).len() != dtype_name(DataType::Int).len());
            assert(dtype_name(DataType::Point).len() != dtype_name(DataType::Int128).len());
            assert(dtype_name(DataType::Point)[0] != dtype_name(DataType::Uint8)[0]);
            assert(dtype_name(DataType::Point).len() != dtype_name(DataType::Uint16).len());
            assert(dtype_name(DataType::Point).len() != dtype_name(DataType::Uint32).len());
            assert(dtype_name(DataType::Point).len() != dtype_name(DataType::Uint64).len());
            assert(dtype_name(DataType::Point).len() != dtype_name(DataType::Uint128).len());
            assert(dtype_name(DataType::Point).len() != dtype_name(DataType::Float32).len());
            assert(dtype_name(DataType::Point)[0] != dtype_name(DataType::Float)[0]);
            assert(dtype_name(DataType::Point).len() != dtype_name(DataType::Text).len());
            assert(dtype_name(DataType::Point)[0] != dtype_name(DataType::Bytea)[0]);
            assert(dtype_name(DataType::Point).len() != dtype_name(DataType::Inet).len());
            assert(dtype_name(DataType::Point).len() != dtype_name(DataType::Date).len());
            assert(dtype_name(DataType::Point).len() != dtype_name(DataType::Timestamp).len());
            assert(dtype_name(DataType::Point).len() != dtype_name(DataType::Time).len());
            assert(dtype_name(DataType::Point).len() != dtype_name(DataType::Interval).len());
            assert(dtype_name(DataType::Point).len() != dtype_name(DataType::Uuid).len());
            assert(dtype_name(DataType::Point).len() != dtype_name(DataType::Dict).len());
            assert(dtype_name(DataType::Point).len() != dtype_name(DataType::List).len());
            assert(dtype_name(DataType::Point).len() != dtype_name(DataType::Decimal).len());
        },
    }
}

/// A rendered uniqueness constraint parses back to itself.
pub proof fn lemma_parse_unique(s: Seq<u8>, i: int, u: ColumnUnique)
    requires
        at(s, i, ser_unique(u)),
    ensures
        parse_unique(s, i) == Option::Some((u, i + ser_unique(u).len())),
{
    lemma_at_index(s, i, ser_unique(u));
    match u {
        ColumnUnique::Plain => {},
        ColumnUnique::Unique => {
            assert(s[i + 1] == 0x75);
            if at(s, i, ser_unique(ColumnUnique::Plain)) {
                lemma_at_index(s, i, ser_unique(ColumnUnique::Plain));
                assert(false);
            }
        },
        ColumnUnique::Primary => {
            assert(s[i + 2] == 0x72);
            if at(s, i, ser_unique(ColumnUnique::Plain)) {
                lemma_at_index(s, i, ser_unique(ColumnUnique::Plain));
                assert(false);
            }
            if at(s, i, ser_unique(ColumnUnique::Unique)) {
                lemma_at_index(s, i, ser_unique(ColumnUnique::Unique));
                assert(false);
            }
        },
    }
}

/// A rendered column definition parses back to itself.
#[verifier::rlimit(100)]
pub proof fn lemma_parse_coldef(s: Seq<u8>, i: int, c: ColumnDefV)
    requires
        at(s, i, ser_coldef(c)),
    ensures
        parse_coldef(s, i) == Option::Some((c, i + ser_coldef(c).len())),
{
    reveal(parse_coldef);
    assert(ser_coldef(c) =~= name_hdr() + (ser_string(c.name) + (type_hdr() + (ser_dtype(
        c.data_type,
    ) + (null_hdr() + (ser_bool(c.nullable) + (dflt_hdr() + (ser_opt_text(c.default) + (cmt_hdr()
        + (ser_opt_text(c.comment) + (uniq_hdr() + (ser_unique(c.unique) + seq![0x7Du8]))))))))))));
    lemma_at_concat(s, i, name_hdr(), ser_string(c.name) + (type_hdr() + (ser_dtype(c.data_type)
        + (null_hdr() + (ser_bool(c.nullable) + (dflt_hdr() + (ser_opt_text(c.default) + (cmt_hdr()
        + (ser_opt_text(c.comment) + (uniq_hdr() + (ser_unique(c.unique) + seq![0x7Du8])))))))))));
    let j0 = i + name_hdr().len();
    lemma_at_concat(s, j0, ser_string(c.name), type_hdr() + (ser_dtype(c.data_type) + (null_hdr()
        + (ser_bool(c.nullable) + (dflt_hdr() + (ser_opt_text(c.default) + (cmt_hdr()
        + (ser_opt_text(c.comment) + (uniq_hdr() + (ser_unique(c.unique) + seq![0x7Du8]))))))))));
    let j1 = j0 + ser_string(c.name).len();
    lemma_at_concat(s, j1, type_hdr(), ser_dtype(c.data_type) + (null_hdr() + (ser_bool(
        c.nullable,
    ) + (dflt_hdr() + (ser_opt_text(c.default) + (cmt_hdr() + (ser_opt_text(c.comment) + (
    uniq_hdr() + (ser_unique(c.unique) + seq![0x7Du8])))))))));
    let j2 = j1 + type_hdr().len();
    lemma_at_concat(s, j2, ser_dtype(c.data_type), null_hdr() + (ser_bool(c.nullable) + (dflt_hdr()
        + (ser_opt_text(c.default) + (cmt_hdr() + (ser_opt_text(c.comment) + (uniq_hdr() + (
    ser_unique(c.unique) + seq![0x7Du8]))))))));
    let j3 = j2 + ser_dtype(c.data_type).len();
    lemma_at_concat(s, j3, null_hdr(), ser_bool(c.nullable) + (dflt_hdr() + (ser_opt_text(
        c.default,
    ) + (cmt_hdr() + (ser_opt_text(c.comment) + (uniq_hdr() + (ser_unique(c.unique) + seq![
        0x7Du8,
    ])))))));
    let j4 = j3 + null_hdr().len();
    lemma_at_concat(s, j4, ser_bool(c.nullable), dflt_hdr() + (ser_opt_text(c.default) + (cmt_hdr()
        + (ser_opt_text(c.comment) + (uniq_hdr() + (ser_unique(c.unique) + seq![0x7Du8]))))));
    let j5 = j4 + ser_bool(c.nullable).len();
    lemma_at_concat(s, j5, dflt_hdr(), ser_opt_text(c.default) + (cmt_hdr() + (ser_opt_text(
        c.comment,
    ) + (uniq_hdr() + (ser_unique(c.unique) + seq![0x7Du8])))));
    let j6 = j5 + dflt_hdr().len();
    lemma_at_concat(s, j6, ser_opt_text(c.default), cmt_hdr() + (ser_opt_text(c.comment) + (
    uniq_hdr() + (ser_unique(c.unique) + seq![0x7Du8]))));
    let j7 = j6 + ser_opt_text(c.default).len();
    lemma_at_concat(s, j7, cmt_hdr(), ser_opt_text(c.comment) + (uniq_hdr() + (ser_unique(
        c.unique,
    ) + seq![0x7Du8])));
    let j8 = j7 + cmt_hdr().len();
    lemma_at_concat(s, j8, ser_opt_text(c.comment), uniq_hdr() + (ser_unique(c.unique) + seq![
        0x7Du8,
    ]));
    let j9 = j8 + ser_opt_text(c.comment).len();
    lemma_at_concat(s, j9, uniq_hdr(), ser_unique(c.unique) + seq![0x7Du8]);
    let j10 = j9 + uniq_hdr().len();
    lemma_at_concat(s, j10, ser_unique(c.unique), seq![0x7Du8]);
    lemma_parse_string(s, j0, c.name);
    lemma_parse_dtype(s, j2, c.data_type);
    lemma_parse_bool(s, j4, c.nullable);
    lemma_parse_opt_text(s, j6, c.default);
    lemma_parse_opt_text(s, j8, c.comment);
    lemma_parse_unique(s, j10, c.unique);
}

/// A rendered, nonempty column list parses back to its columns,
/// provided no comma-space follows it.
#[verifier::rlimit(100)]
pub proof fn lemma_parse_coldef_list(s: Seq<u8>, i: int, cs: Seq<ColumnDefV>)
    requires
        cs.len() >= 1,
        at(s, i, ser_coldef_list(cs)),
        i + ser_coldef_list(cs).len() == s.len() || s[i + ser_coldef_list(cs).len()] != 0x2C,
    ensures
        parse_coldef_list(s, i) == Option::Some((cs, i + ser_coldef_list(cs).len())),
    decreases cs.len(),
{
    let e = i + ser_coldef_list(cs).len();
    if cs.len() == 1 {
        lemma_parse_coldef(s, i, cs[0]);
        if at(s, e, sep_lit()) {
            lemma_at_index(s, e, sep_lit());
            assert(false);
        }
        assert(seq![cs[0]] =~= cs);
    } else {
        let c0 = cs[0];
        let rest = cs.skip(1);
        assert(ser_coldef_list(cs) =~= ser_coldef(c0) + (sep_lit() + ser_coldef_list(rest)));
        lemma_at_concat(s, i, ser_coldef(c0), sep_lit() + ser_coldef_list(rest));
        let j = i + ser_coldef(c0).len();
        lemma_at_concat(s, j, sep_lit(), ser_coldef_list(rest));
        lemma_at_index(s, j, sep_lit());
        assert(s[j] == 0x2C);
        lemma_parse_coldef(s, i, c0);
        lemma_parse_coldef_list(s, j + 2, rest);
        assert(seq![c0] + rest =~= cs);
    }
}

/// Rendered column definitions parse back to themselves, provided no
/// comma-space follows them.
#[verifier::rlimit(100)]
pub proof fn lemma_parse_coldefs(s: Seq<u8>, i: int, cs: Option<Seq<ColumnDefV>>)
    requires
        at(s, i, ser_coldefs(cs)),
    ensures
        parse_coldefs(s, i) == Option::Some((cs, i + ser_coldefs(cs).len())),
{
    lemma_at_index(s, i, ser_coldefs(cs));
    match cs {
        Option::None => {
            assert(at(s, i, null_lit()));
        },
        Option::Some(cl) => {
            assert(s[i] == 0x5B);
            if at(s, i, null_lit()) {
                lemma_at_index(s, i, null_lit());
                assert(false);
            }
            assert(ser_coldefs(cs) =~= seq![0x5Bu8] + (ser_coldef_list(cl) + seq![0x5Du8]));
            lemma_at_concat(s, i, seq![0x5Bu8], ser_coldef_list(cl) + seq![0x5Du8]);
            lemma_at_concat(s, i + 1, ser_coldef_list(cl), seq![0x5Du8]);
            let j = i + 1 + ser_coldef_list(cl).len();
            lemma_at_index(s, j, seq![0x5Du8]);
            assert(s[j] == 0x5D);
            if cl.len() == 0 {
                assert(at(s, i + 1, seq![0x5Du8]));
                assert(cl =~= Seq::<ColumnDefV>::empty());
            } else {
                assert(ser_coldef_list(cl)[0] == ser_coldef(cl[0])[0]);
                assert(ser_coldef(cl[0])[0] == 0x7B);
                lemma_at_index(s, i + 1, ser_coldef_list(cl));
                if at(s, i + 1, seq![0x5Du8]) {
                    lemma_at_index(s, i + 1, seq![0x5Du8]);
                    assert(false);
                }
                lemma_parse_coldef_list(s, i + 1, cl);
            }
        },
    }
}

/// The tail of a rendered schema — indexes, engine, foreign keys,
/// comment, closing brace — parses back piece by piece.
#[verifier::rlimit(100)]
proof fn lemma_parse_schema_back(s: Seq<u8>, j3: int, v: SchemaV)
    requires
        at(
            s,
            j3,
            idx_hdr() + (ser_opt_text(v.indexes) + (eng_hdr() + (ser_opt_text(v.engine) + (
            fk_hdr() + (ser_opt_text(v.foreign_keys) + (cmt_hdr() + (ser_opt_text(v.comment)
                + seq![0x7Du8]))))))),
        ),
    ensures
        ({
            let j4 = j3 + idx_hdr().len();
            let j5 = j4 + ser_opt_text(v.indexes).len();
            let j6 = j5 + eng_hdr().len();
            let j7 = j6 + ser_opt_text(v.engine).len();
            let j8 = j7 + fk_hdr().len();
            let j9 = j8 + ser_opt_text(v.foreign_keys).len();
            let j10 = j9 + cmt_hdr().len();
            let j11 = j10 + ser_opt_text(v.comment).len();
            &&& expect(s, j3, idx_hdr()) == Option::Some(j4)
            &&& parse_opt_text(s, j4) == Option::Some((v.indexes, j5))
            &&& expect(s, j5, eng_hdr()) == Option::Some(j6)
            &&& parse_opt_text(s, j6) == Option::Some((v.engine, j7))
            &&& expect(s, j7, fk_hdr()) == Option::Some(j8)
            &&& parse_opt_text(s, j8) == Option::Some((v.foreign_keys, j9))
            &&& expect(s, j9, cmt_hdr()) == Option::Some(j10)
            &&& parse_opt_text(s, j10) == Option::Some((v.comment, j11))
            &&& expect(s, j11, seq![0x7Du8]) == Option::Some(j11 + 1)
        }),
{
    lemma_at_concat(s, j3, idx_hdr(), ser_opt_text(v.indexes) + (eng_hdr() + (ser_opt_text(
        v.engine,
    ) + (fk_hdr() + (ser_opt_text(v.foreign_keys) + (cmt_hdr() + (ser_opt_text(v.comment) + seq![
        0x7Du8,
    ])))))));
    let j4 = j3 + idx_hdr().len();
    lemma_at_concat(s, j4, ser_opt_text(v.indexes), eng_hdr() + (ser_opt_text(v.engine) + (
    fk_hdr() + (ser_opt_text(v.foreign_keys) + (cmt_hdr() + (ser_opt_text(v.comment) + seq![
        0x7Du8,
    ]))))));
    let j5 = j4 + ser_opt_text(v.indexes).len();
    lemma_at_concat(s, j5, eng_hdr(), ser_opt_text(v.engine) + (fk_hdr() + (ser_opt_text(
        v.foreign_keys,
    ) + (cmt_hdr() + (ser_opt_text(v.comment) + seq![0x7Du8])))));
    let j6 = j5 + eng_hdr().len();
    lemma_at_concat(s, j6, ser_opt_text(v.engine), fk_hdr() + (ser_opt_text(v.foreign_keys) + (
    cmt_hdr() + (ser_opt_text(v.comment) + seq![0x7Du8]))));
    let j7 = j6 + ser_opt_text(v.engine).len();
    lemma_at_concat(s, j7, fk_hdr(), ser_opt_text(v.foreign_keys) + (cmt_hdr() + (ser_opt_text(
        v.comment,
    ) + seq![0x7Du8])));
    let j8 = j7 + fk_hdr().len();
    lemma_at_concat(s, j8, ser_opt_text(v.foreign_keys), cmt_hdr() + (ser_opt_text(v.comment)
        + seq![0x7Du8]));
    let j9 = j8 + ser_opt_text(v.foreign_keys).len();
    lemma_at_concat(s, j9, cmt_hdr(), ser_opt_text(v.comment) + seq![0x7Du8]);
    let j10 = j9 + cmt_hdr().len();
    lemma_at_concat(s, j10, ser_opt_text(v.comment), seq![0x7Du8]);
    lemma_parse_opt_text(s, j4, v.indexes);
    lemma_parse_opt_text(s, j6, v.engine);
    lemma_parse_opt_text(s, j8, v.foreign_keys);
    lemma_parse_opt_text(s, j10, v.comment);
}

/// A rendered schema parses back to itself.
#[verifier::rlimit(100)]
pub proof fn lemma_parse_schema(s: Seq<u8>, i: int, v: SchemaV)
    requires
        at(s, i, ser_schema(v)),
    ensures
        parse_schema_at(s, i) == Option::Some((v, i + ser_schema(v).len())),
{
    let front = table_hdr() + ser_string(v.table_name) + cols_hdr() + ser_coldefs(v.column_defs);
    let back = idx_hdr() + (ser_opt_text(v.indexes) + (eng_hdr() + (ser_opt_text(v.engine) + (
    fk_hdr() + (ser_opt_text(v.foreign_keys) + (cmt_hdr() + (ser_opt_text(v.comment) + seq![
        0x7Du8,
    ])))))));
    assert(ser_schema(v) =~= front + back);
    lemma_at_concat(s, i, front, back);
    assert(front =~= table_hdr() + (ser_string(v.table_name) + (cols_hdr() + ser_coldefs(
        v.column_defs,
    ))));
    lemma_at_concat(s, i, table_hdr(), ser_string(v.table_name) + (cols_hdr() + ser_coldefs(
        v.column_defs,
    )));
    let j0 = i + table_hdr().len();
    lemma_at_concat(s, j0, ser_string(v.table_name), cols_hdr() + ser_coldefs(v.column_defs));
    let j1 = j0 + ser_string(v.table_name).len();
    lemma_at_concat(s, j1, cols_hdr(), ser_coldefs(v.column_defs));
    let j2 = j1 + cols_hdr().len();
    let j3 = j2 + ser_coldefs(v.column_defs).len();
    assert(j3 == i + front.len());
    lemma_parse_schema_back(s, j3, v);
    lemma_parse_string(s, j0, v.table_name);
    lemma_parse_coldefs(s, j2, v.column_defs);
}

/// Leading whitespace is dropped in front of anything.
pub proof fn lemma_trim_front_ws(w: Seq<u8>, s: Seq<u8>)
    requires
        forall|k: int| 0 <= k < w.len() ==> is_ws(#[trigger] w[k]),
    ensures
        trim_front(w + s) == trim_front(s),
    decreases w.len(),
{
    if w.len() == 0 {
        assert(w + s =~= s);
    } else {
        assert((w + s)[0] == w[0]);
        assert((w + s).skip(1) =~= w.skip(1) + s);
        assert(forall|k: int| 0 <= k < w.skip(1).len() ==> is_ws(#[trigger] w.skip(1)[k])) by {
            assert(forall|k: int| 0 <= k < w.skip(1).len() ==> w.skip(1)[k] == w[k + 1]);
        }
        lemma_trim_front_ws(w.skip(1), s);
    }
}

/// Trailing whitespace is dropped behind anything.
pub proof fn lemma_trim_back_ws(s: Seq<u8>, w: Seq<u8>)
    requires
        forall|k: int| 0 <= k < w.len() ==> is_ws(#[trigger] w[k]),
    ensures
        trim_back(s + w) == trim_back(s),
    decreases w.len(),
{
    if w.len() == 0 {
        assert(s + w =~= s);
    } else {
        assert((s + w).last() == w.last());
        assert((s + w).drop_last() =~= s + w.drop_last());
        assert(forall|k: int|
            0 <= k < w.drop_last().len() ==> is_ws(#[trigger] w.drop_last()[k])) by {
            assert(forall|k: int| 0 <= k < w.drop_last().len() ==> w.drop_last()[k] == w[k]);
        }
        lemma_trim_back_ws(s, w.drop_last());
    }
}

/// Stripping the fence recovers exactly what was wrapped, for content
/// that neither starts nor ends with whitespace.
pub proof fn lemma_strip_fence_wrap(inner: Seq<u8>)
    requires
        inner.len() > 0,
        !is_ws(inner[0]),
        !is_ws(inner.last()),
    ensures
        strip_fence(fence_wrap(inner)) == inner,
{
    let w = fence_wrap(inner);
    let body = fence_word() + seq![0x0Au8] + inner + seq![0x0Au8] + backticks();
    assert(w =~= seq![0x0Au8] + body);
    lemma_trim_front_ws(seq![0x0Au8], body);
    assert(body[0] == 0x60);
    assert(trim_front(body) == body);
    assert(body.last() == 0x60) by {
        assert(body.last() == backticks().last());
    }
    assert(trim_back(body) == body);
    let t = trim(w);
    assert(t == body);
    let u = seq![0x0Au8] + inner + seq![0x0Au8] + backticks();
    assert(t.take(fence_word().len() as int) =~= fence_word()) by {
        assert(forall|k: int|
            0 <= k < fence_word().len() ==> #[trigger] t[k] == fence_word()[k]);
    }
    assert(t.skip(fence_word().len() as int) =~= u);
    let t1 = t.skip(fence_word().len() as int);
    assert(t1.skip(t1.len() - backticks().len()) =~= backticks()) by {
        assert(forall|k: int|
            0 <= k < backticks().len() ==> #[trigger] t1[t1.len() - backticks().len() + k]
                == backticks()[k]);
    }
    let t2 = t1.take(t1.len() - backticks().len());
    assert(t2 =~= seq![0x0Au8] + (inner + seq![0x0Au8]));
    lemma_trim_front_ws(seq![0x0Au8], inner + seq![0x0Au8]);
    assert((inner + seq![0x0Au8])[0] == inner[0]);
    assert(trim_front(inner + seq![0x0Au8]) == inner + seq![0x0Au8]);
    lemma_trim_back_ws(inner, seq![0x0Au8]);
    assert(trim_back(inner) == inner);
    assert(trim(t2) == inner);
}

/// A rendered row has no whitespace at either end.
proof fn lemma_ser_row_ends(r: RowV)
    ensures
        ser_row(r).len() >= 2,
        !is_ws(ser_row(r)[0]),
        !is_ws(ser_row(r).last()),
{
    match r {
        RowV::Values(vs) => {
            assert(ser_row(r) =~= seq![0x5Bu8] + (ser_values(vs) + seq![0x5Du8]));
            assert(ser_row(r)[0] == 0x5B);
            assert(ser_row(r).last() == 0x5D);
        },
        RowV::Fields(fs) => {
            assert(ser_row(r) =~= seq![0x7Bu8] + (ser_fields(fs) + seq![0x7Du8]));
            assert(ser_row(r)[0] == 0x7B);
            assert(ser_row(r).last() == 0x7D);
        },
    }
}

/// A rendered schema has no whitespace at either end.
proof fn lemma_ser_schema_ends(v: SchemaV)
    ensures
        ser_schema(v).len() >= 2,
        !is_ws(ser_schema(v)[0]),
        !is_ws(ser_schema(v).last()),
{
    let q1 = table_hdr();
    let mid = ser_string(v.table_name) + cols_hdr() + ser_coldefs(v.column_defs) + idx_hdr()
        + ser_opt_text(v.indexes) + eng_hdr() + ser_opt_text(v.engine) + fk_hdr() + ser_opt_text(
        v.foreign_keys,
    ) + cmt_hdr() + ser_opt_text(v.comment);
    assert(ser_schema(v) =~= q1 + mid + seq![0x7Du8]);
    assert(ser_schema(v)[0] == 0x7B);
    assert(ser_schema(v).last() == 0x7D);
}

/// Round trip for rows: decoding an encoded row yields the row back.
pub proof fn theorem_row_roundtrip(r: RowV)
    ensures
        dec_row(strip_fence(fence_wrap(ser_row(r)))) == Option::Some(r),
{
    lemma_ser_row_ends(r);
    lemma_strip_fence_wrap(ser_row(r));
    let s = ser_row(r);
    assert(s.subrange(0, s.len() as int) =~= s);
    assert(at(s, 0, s));
    lemma_parse_row(s, 0, r);
}

/// Round trip for schemas: decoding an encoded schema yields the
/// schema back.
pub proof fn theorem_schema_roundtrip(v: SchemaV)
    ensures
        dec_schema(strip_fence(fence_wrap(ser_schema(v)))) == Option::Some(v),
{
    lemma_ser_schema_ends(v);
    lemma_strip_fence_wrap(ser_schema(v));
    let s = ser_schema(v);
    assert(s.subrange(0, s.len() as int) =~= s);
    assert(at(s, 0, s));
    lemma_parse_schema(s, 0, v);
}

} // verus!
