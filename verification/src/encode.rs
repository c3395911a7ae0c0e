//! The executable encoder: renders schemas and rows into their fenced
//! wire form, byte for byte as the codec specification states it.

use vstd::prelude::*;

use crate::codec::{
    backticks, cmt_hdr, cols_hdr, dflt_hdr, dtype_name, eng_hdr, esc_byte, fence_word,
    fence_wrap, fk_hdr, idx_hdr, name_hdr, null_hdr, null_lit, sep_lit, ser_bool, ser_bytes,
    ser_coldef, ser_coldef_list, ser_coldefs, ser_dtype, ser_field, ser_fields, ser_int_of, ser_opt_text,
    ser_row, ser_schema, ser_string, ser_unique, ser_value, ser_values, table_hdr, tag_bytea,
    tag_date, tag_dec, tag_i128, tag_i16, tag_i32, tag_i8, tag_inet, tag_ivmic, tag_ivmon,
    tag_dict, tag_f32, tag_f64, tag_list, tag_point, tag_time, tag_ts, tag_u128, tag_u16, tag_u32,
    tag_u64, tag_u8, tag_uuid, type_hdr, uniq_hdr,
};
use crate::numeral::dec_digits;
use crate::value::{
    col_views, field_views, opt_text_view, value_views, ColumnDef, ColumnUnique, DataType, Field,
    Row, Schema, Value,
};

verus! {

/// Appends every byte of `t`.
fn push_all(out: &mut Vec<u8>, t: &[u8])
    ensures
        final(out)@ == old(out)@ + t@,
{
    let mut i: usize = 0;
    while i < t.len()
        invariant
            0 <= i <= t@.len(),
            out@ =~= old(out)@ + t@.take(i as int),
        decreases t@.len() - i,
    {
        out.push(t[i]);
        assert(out@ =~= old(out)@ + t@.take(i as int + 1));
        i += 1;
    }
    assert(out@ =~= old(out)@ + t@);
}

/// Appends the escaped body of a string.
fn push_escaped(out: &mut Vec<u8>, s: &[u8], i: usize)
    requires
        i <= s@.len(),
    ensures
        final(out)@ == old(out)@ + ser_bytes(s@.skip(i as int)),
    decreases s@.len() - i,
{
    if i == s.len() {
        assert(out@ =~= old(out)@ + ser_bytes(s@.skip(i as int)));
        return ;
    }
    let b = s[i];
    if b == 0x22 || b == 0x5C {
        out.push(0x5C);
        out.push(b);
    } else {
        out.push(b);
    }
    assert(out@ =~= old(out)@ + esc_byte(s@[i as int]));
    push_escaped(out, s, i + 1);
    proof {
        let t = s@.skip(i as int);
        assert(t[0] == s@[i as int]);
        assert(t.skip(1) =~= s@.skip(i as int + 1));
        assert(ser_bytes(t) == esc_byte(t[0]) + ser_bytes(t.skip(1)));
        assert(final(out)@ =~= old(out)@ + ser_bytes(t));
    }
}

/// Appends a quoted, escaped string.
fn push_string(out: &mut Vec<u8>, s: &[u8])
    ensures
        final(out)@ == old(out)@ + ser_string(s@),
{
    out.push(0x22);
    push_escaped(out, s, 0);
    out.push(0x22);
    proof {
        assert(s@.skip(0) =~= s@);
        assert(final(out)@ =~= old(out)@ + ser_string(s@));
    }
}

/// Appends the canonical decimal numeral of a wide magnitude.
fn push_dec_wide(out: &mut Vec<u8>, n: u128)
    ensures
        final(out)@ == old(out)@ + dec_digits(n as nat),
    decreases n,
{
    if n < 10 {
        out.push(0x30 + n as u8);
        assert(final(out)@ =~= old(out)@ + dec_digits(n as nat));
    } else {
        push_dec_wide(out, n / 10);
        out.push(0x30 + (n % 10) as u8);
        assert(final(out)@ =~= old(out)@ + dec_digits(n as nat));
    }
}

/// Appends a signed decimal numeral: a minus for a negative value,
/// then the magnitude.
fn push_sint(out: &mut Vec<u8>, neg: bool, mag: u128)
    requires
        neg ==> mag >= 1,
    ensures
        final(out)@ == old(out)@ + ser_int_of(
            if neg {
                -(mag as int)
            } else {
                mag as int
            },
        ),
{
    if neg {
        out.push(0x2D);
    }
    push_dec_wide(out, mag);
    assert(final(out)@ =~= old(out)@ + ser_int_of(
        if neg {
            -(mag as int)
        } else {
            mag as int
        },
    ));
}

/// Appends a decimal integer with an optional leading minus.
fn push_i64(out: &mut Vec<u8>, n: i64)
    ensures
        final(out)@ == old(out)@ + ser_int_of(n as int),
{
    if n < 0 {
        let m: u128 = if n == i64::MIN {
            0x8000_0000_0000_0000u128
        } else {
            (-n) as u128
        };
        push_sint(out, true, m);
    } else {
        push_sint(out, false, n as u128);
    }
}

/// Appends one rendered value.
#[verifier::rlimit(100)]
fn push_value(out: &mut Vec<u8>, v: &Value)
    ensures
        final(out)@ == old(out)@ + ser_value(v@),
{
    match v {
        Value::Null => {
            out.push(0x6E);
            out.push(0x75);
            out.push(0x6C);
            out.push(0x6C);
            assert(final(out)@ =~= old(out)@ + null_lit());
        },
        Value::Bool(b) => {
            if *b {
                out.push(0x74);
                out.push(0x72);
                out.push(0x75);
                out.push(0x65);
            } else {
                out.push(0x66);
                out.push(0x61);
                out.push(0x6C);
                out.push(0x73);
                out.push(0x65);
            }
            assert(final(out)@ =~= old(out)@ + ser_value(v@));
        },
        Value::Int(n) => {
            push_i64(out, *n);
        },
        Value::Str(s) => {
            push_string(out, s.as_slice());
        },
        Value::I8(n) => {
            let tagv: Vec<u8> = vec![0x49, 0x38, 0x28];
            proof {
                assert(tagv@ =~= tag_i8());
            }
            push_all(out, tagv.as_slice());
            let w: i128 = *n as i128;
            let neg = w < 0;
            let mag: u128 = if neg {
                (-w) as u128
            } else {
                w as u128
            };
            push_sint(out, neg, mag);
            out.push(0x29);
            assert(final(out)@ =~= old(out)@ + ser_value(v@));
        },
        Value::I16(n) => {
            let tagv: Vec<u8> = vec![0x49, 0x31, 0x36, 0x28];
            proof {
                assert(tagv@ =~= tag_i16());
            }
            push_all(out, tagv.as_slice());
            let w: i128 = *n as i128;
            let neg = w < 0;
            let mag: u128 = if neg {
                (-w) as u128
            } else {
                w as u128
            };
            push_sint(out, neg, mag);
            out.push(0x29);
            assert(final(out)@ =~= old(out)@ + ser_value(v@));
        },
        Value::I32(n) => {
            let tagv: Vec<u8> = vec![0x49, 0x33, 0x32, 0x28];
            proof {
                assert(tagv@ =~= tag_i32());
            }
            push_all(out, tagv.as_slice());
            let w: i128 = *n as i128;
            let neg = w < 0;
            let mag: u128 = if neg {
                (-w) as u128
            } else {
                w as u128
            };
            push_sint(out, neg, mag);
            out.push(0x29);
            assert(final(out)@ =~= old(out)@ + ser_value(v@));
        },
        Value::I128(n) => {
            let tagv: Vec<u8> = vec![0x49, 0x31, 0x32, 0x38, 0x28];
            proof {
                assert(tagv@ =~= tag_i128());
            }
            push_all(out, tagv.as_slice());
            let neg = *n < 0;
            let mag: u128 = if *n == i128::MIN {
                0x8000_0000_0000_0000_0000_0000_0000_0000u128
            } else if neg {
                (-*n) as u128
            } else {
                *n as u128
            };
            push_sint(out, neg, mag);
            out.push(0x29);
            assert(final(out)@ =~= old(out)@ + ser_value(v@));
        },
        Value::U8(n) => {
            let tagv: Vec<u8> = vec![0x55, 0x38, 0x28];
            proof {
                assert(tagv@ =~= tag_u8());
            }
            push_all(out, tagv.as_slice());
            push_sint(out, false, *n as u128);
            out.push(0x29);
            assert(final(out)@ =~= old(out)@ + ser_value(v@));
        },
        Value::U16(n) => {
            let tagv: Vec<u8> = vec![0x55, 0x31, 0x36, 0x28];
            proof {
                assert(tagv@ =~= tag_u16());
            }
            push_all(out, tagv.as_slice());
            push_sint(out, false, *n as u128);
            out.push(0x29);
            assert(final(out)@ =~= old(out)@ + ser_value(v@));
        },
        Value::U32(n) => {
            let tagv: Vec<u8> = vec![0x55, 0x33, 0x32, 0x28];
            proof {
                assert(tagv@ =~= tag_u32());
            }
            push_all(out, tagv.as_slice());
            push_sint(out, false, *n as u128);
            out.push(0x29);
            assert(final(out)@ =~= old(out)@ + ser_value(v@));
        },
        Value::U64(n) => {
            let tagv: Vec<u8> = vec![0x55, 0x36, 0x34, 0x28];
            proof {
                assert(tagv@ =~= tag_u64());
            }
            push_all(out, tagv.as_slice());
            push_sint(out, false, *n as u128);
            out.push(0x29);
            assert(final(out)@ =~= old(out)@ + ser_value(v@));
        },
        Value::U128(n) => {
            let tagv: Vec<u8> = vec![0x55, 0x31, 0x32, 0x38, 0x28];
            proof {
                assert(tagv@ =~= tag_u128());
            }
            push_all(out, tagv.as_slice());
            push_sint(out, false, *n as u128);
            out.push(0x29);
            assert(final(out)@ =~= old(out)@ + ser_value(v@));
        },
        Value::Uuid(n) => {
            let tagv: Vec<u8> = vec![0x55, 0x75, 0x69, 0x64, 0x28];
            proof {
                assert(tagv@ =~= tag_uuid());
            }
            push_all(out, tagv.as_slice());
            push_sint(out, false, *n as u128);
            out.push(0x29);
            assert(final(out)@ =~= old(out)@ + ser_value(v@));
        },
        Value::Date(n) => {
            let tagv: Vec<u8> = vec![0x44, 0x61, 0x74, 0x65, 0x28];
            proof {
                assert(tagv@ =~= tag_date());
            }
            push_all(out, tagv.as_slice());
            let w: i128 = *n as i128;
            let neg = w < 0;
            let mag: u128 = if neg {
                (-w) as u128
            } else {
                w as u128
            };
            push_sint(out, neg, mag);
            out.push(0x29);
            assert(final(out)@ =~= old(out)@ + ser_value(v@));
        },
        Value::IntervalMonth(n) => {
            let tagv: Vec<u8> = vec![0x49, 0x6E, 0x74, 0x65, 0x72, 0x76, 0x61, 0x6C, 0x4D, 0x6F, 0x6E, 0x74, 0x68, 0x28];
            proof {
                assert(tagv@ =~= tag_ivmon());
            }
            push_all(out, tagv.as_slice());
            let w: i128 = *n as i128;
            let neg = w < 0;
            let mag: u128 = if neg {
                (-w) as u128
            } else {
                w as u128
            };
            push_sint(out, neg, mag);
            out.push(0x29);
            assert(final(out)@ =~= old(out)@ + ser_value(v@));
        },
        Value::IntervalMicrosecond(n) => {
            let tagv: Vec<u8> = vec![0x49, 0x6E, 0x74, 0x65, 0x72, 0x76, 0x61, 0x6C, 0x4D, 0x69, 0x63, 0x72, 0x6F, 0x73, 0x65, 0x63, 0x6F, 0x6E, 0x64, 0x28];
            proof {
                assert(tagv@ =~= tag_ivmic());
            }
            push_all(out, tagv.as_slice());
            let w: i128 = *n as i128;
            let neg = w < 0;
            let mag: u128 = if neg {
                (-w) as u128
            } else {
                w as u128
            };
            push_sint(out, neg, mag);
            out.push(0x29);
            assert(final(out)@ =~= old(out)@ + ser_value(v@));
        },
        Value::Bytea(t) => {
            let tagv: Vec<u8> = vec![0x42, 0x79, 0x74, 0x65, 0x61, 0x28];
            proof {
                assert(tagv@ =~= tag_bytea());
            }
            push_all(out, tagv.as_slice());
            push_string(out, t.as_slice());
            out.push(0x29);
            assert(final(out)@ =~= old(out)@ + ser_value(v@));
        },
        Value::Decimal(t) => {
            let tagv: Vec<u8> = vec![0x44, 0x65, 0x63, 0x69, 0x6D, 0x61, 0x6C, 0x28];
            proof {
                assert(tagv@ =~= tag_dec());
            }
            push_all(out, tagv.as_slice());
            push_string(out, t.as_slice());
            out.push(0x29);
            assert(final(out)@ =~= old(out)@ + ser_value(v@));
        },
        Value::Inet(t) => {
            let tagv: Vec<u8> = vec![0x49, 0x6E, 0x65, 0x74, 0x28];
            proof {
                assert(tagv@ =~= tag_inet());
            }
            push_all(out, tagv.as_slice());
            push_string(out, t.as_slice());
            out.push(0x29);
            assert(final(out)@ =~= old(out)@ + ser_value(v@));
        },
        Value::Time(sec, ns) => {
            let tagv: Vec<u8> = vec![0x54, 0x69, 0x6D, 0x65, 0x28];
            proof {
                assert(tagv@ =~= tag_time());
            }
            push_all(out, tagv.as_slice());
            push_sint(out, false, *sec as u128);
            out.push(0x2C);
            out.push(0x20);
            push_sint(out, false, *ns as u128);
            out.push(0x29);
            assert(final(out)@ =~= old(out)@ + ser_value(v@));
        },
        Value::F32Bits(n) => {
            let tagv: Vec<u8> = vec![0x46, 0x33, 0x32, 0x28];
            proof {
                assert(tagv@ =~= tag_f32());
            }
            push_all(out, tagv.as_slice());
            push_sint(out, false, *n as u128);
            out.push(0x29);
            assert(final(out)@ =~= old(out)@ + ser_value(v@));
        },
        Value::F64Bits(n) => {
            let tagv: Vec<u8> = vec![0x46, 0x36, 0x34, 0x28];
            proof {
                assert(tagv@ =~= tag_f64());
            }
            push_all(out, tagv.as_slice());
            push_sint(out, false, *n as u128);
            out.push(0x29);
            assert(final(out)@ =~= old(out)@ + ser_value(v@));
        },
        Value::Point(x, y) => {
            let tagv: Vec<u8> = vec![0x50, 0x6F, 0x69, 0x6E, 0x74, 0x28];
            proof {
                assert(tagv@ =~= tag_point());
            }
            push_all(out, tagv.as_slice());
            push_sint(out, false, *x as u128);
            out.push(0x2C);
            out.push(0x20);
            push_sint(out, false, *y as u128);
            out.push(0x29);
            assert(final(out)@ =~= old(out)@ + ser_value(v@));
        },
        Value::List(t) => {
            let tagv: Vec<u8> = vec![0x4C, 0x69, 0x73, 0x74, 0x28];
            proof {
                assert(tagv@ =~= tag_list());
            }
            push_all(out, tagv.as_slice());
            push_string(out, t.as_slice());
            out.push(0x29);
            assert(final(out)@ =~= old(out)@ + ser_value(v@));
        },
        Value::Dict(t) => {
            let tagv: Vec<u8> = vec![0x4D, 0x61, 0x70, 0x28];
            proof {
                assert(tagv@ =~= tag_dict());
            }
            push_all(out, tagv.as_slice());
            push_string(out, t.as_slice());
            out.push(0x29);
            assert(final(out)@ =~= old(out)@ + ser_value(v@));
        },
        Value::Timestamp(sec, ns) => {
            let tagv: Vec<u8> = vec![0x54, 0x69, 0x6D, 0x65, 0x73, 0x74, 0x61, 0x6D, 0x70, 0x28];
            proof {
                assert(tagv@ =~= tag_ts());
            }
            push_all(out, tagv.as_slice());
            let w: i128 = *sec as i128;
            let neg = w < 0;
            let mag: u128 = if neg {
                (-w) as u128
            } else {
                w as u128
            };
            push_sint(out, neg, mag);
            out.push(0x2C);
            out.push(0x20);
            push_sint(out, false, *ns as u128);
            out.push(0x29);
            assert(final(out)@ =~= old(out)@ + ser_value(v@));
        },
    }
}

/// Appends the rendered tail of a value list, from `i` on.
fn push_values(out: &mut Vec<u8>, vs: &Vec<Value>, i: usize)
    requires
        i <= vs@.len(),
    ensures
        final(out)@ == old(out)@ + ser_values(value_views(vs@).skip(i as int)),
    decreases vs@.len() - i,
{
    let ghost m = value_views(vs@);
    if i == vs.len() {
        assert(final(out)@ =~= old(out)@ + ser_values(m.skip(i as int)));
        return ;
    }
    push_value(out, &vs[i]);
    proof {
        assert(m.skip(i as int)[0] == m[i as int]);
        assert(m[i as int] == vs@[i as int]@);
    }
    if i + 1 == vs.len() {
        assert(m.skip(i as int).len() == 1);
        assert(final(out)@ =~= old(out)@ + ser_values(m.skip(i as int)));
    } else {
        out.push(0x2C);
        out.push(0x20);
        push_values(out, vs, i + 1);
        proof {
            assert(m.skip(i as int).skip(1) =~= m.skip(i as int + 1));
            assert(m.skip(i as int).len() >= 2);
            assert(ser_values(m.skip(i as int)) == ser_value(m[i as int]) + sep_lit()
                + ser_values(m.skip(i as int + 1)));
            assert(final(out)@ =~= old(out)@ + ser_values(m.skip(i as int)));
        }
    }
}

/// Appends one rendered field.
fn push_field(out: &mut Vec<u8>, f: &Field)
    ensures
        final(out)@ == old(out)@ + ser_field(f@),
{
    push_string(out, f.name.as_slice());
    out.push(0x3A);
    out.push(0x20);
    push_value(out, &f.value);
    assert(final(out)@ =~= old(out)@ + ser_field(f@));
}

/// Appends the rendered tail of a field list, from `i` on.
fn push_fields(out: &mut Vec<u8>, fs: &Vec<Field>, i: usize)
    requires
        i <= fs@.len(),
    ensures
        final(out)@ == old(out)@ + ser_fields(field_views(fs@).skip(i as int)),
    decreases fs@.len() - i,
{
    let ghost m = field_views(fs@);
    if i == fs.len() {
        assert(final(out)@ =~= old(out)@ + ser_fields(m.skip(i as int)));
        return ;
    }
    push_field(out, &fs[i]);
    proof {
        assert(m.skip(i as int)[0] == m[i as int]);
        assert(m[i as int] == fs@[i as int]@);
    }
    if i + 1 == fs.len() {
        assert(m.skip(i as int).len() == 1);
        assert(final(out)@ =~= old(out)@ + ser_fields(m.skip(i as int)));
    } else {
        out.push(0x2C);
        out.push(0x20);
        push_fields(out, fs, i + 1);
        proof {
            assert(m.skip(i as int).skip(1) =~= m.skip(i as int + 1));
            assert(m.skip(i as int).len() >= 2);
            assert(ser_fields(m.skip(i as int)) == ser_field(m[i as int]) + sep_lit()
                + ser_fields(m.skip(i as int + 1)));
            assert(final(out)@ =~= old(out)@ + ser_fields(m.skip(i as int)));
        }
    }
}

/// Appends the rendered content of a row (unfenced).
fn push_row(out: &mut Vec<u8>, r: &Row)
    ensures
        final(out)@ == old(out)@ + ser_row(r@),
{
    match r {
        Row::Values(vs) => {
            out.push(0x5B);
            push_values(out, vs, 0);
            out.push(0x5D);
            proof {
                assert(value_views(vs@).skip(0) =~= value_views(vs@));
                assert(final(out)@ =~= old(out)@ + ser_row(r@));
            }
        },
        Row::Fields(fs) => {
            out.push(0x7B);
            push_fields(out, fs, 0);
            out.push(0x7D);
            proof {
                assert(field_views(fs@).skip(0) =~= field_views(fs@));
                assert(final(out)@ =~= old(out)@ + ser_row(r@));
            }
        },
    }
}

/// Appends a rendered column type name.
fn push_dtype(out: &mut Vec<u8>, d: DataType)
    ensures
        final(out)@ == old(out)@ + ser_dtype(d),
{
    match d {
        DataType::Boolean => {
            let nm: Vec<u8> = vec![0x42, 0x6F, 0x6F, 0x6C, 0x65, 0x61, 0x6E];
            proof {
                assert(nm@ =~= dtype_name(d));
            }
            push_string(out, nm.as_slice());
        },
        DataType::Int8 => {
            let nm: Vec<u8> = vec![0x49, 0x6E, 0x74, 0x38];
            proof {
                assert(nm@ =~= dtype_name(d));
            }
            push_string(out, nm.as_slice());
        },
        DataType::Int16 => {
            let nm: Vec<u8> = vec![0x49, 0x6E, 0x74, 0x31, 0x36];
            proof {
                assert(nm@ =~= dtype_name(d));
            }
            push_string(out, nm.as_slice());
        },
        DataType::Int32 => {
            let nm: Vec<u8> = vec![0x49, 0x6E, 0x74, 0x33, 0x32];
            proof {
                assert(nm@ =~= dtype_name(d));
            }
            push_string(out, nm.as_slice());
        },
        DataType::Int => {
            let nm: Vec<u8> = vec![0x49, 0x6E, 0x74];
            proof {
                assert(nm@ =~= dtype_name(d));
            }
            push_string(out, nm.as_slice());
        },
        DataType::Int128 => {
            let nm: Vec<u8> = vec![0x49, 0x6E, 0x74, 0x31, 0x32, 0x38];
            proof {
                assert(nm@ =~= dtype_name(d));
            }
            push_string(out, nm.as_slice());
        },
        DataType::Uint8 => {
            let nm: Vec<u8> = vec![0x55, 0x69, 0x6E, 0x74, 0x38];
            proof {
                assert(nm@ =~= dtype_name(d));
            }
            push_string(out, nm.as_slice());
        },
        DataType::Uint16 => {
            let nm: Vec<u8> = vec![0x55, 0x69, 0x6E, 0x74, 0x31, 0x36];
            proof {
                assert(nm@ =~= dtype_name(d));
            }
            push_string(out, nm.as_slice());
        },
        DataType::Uint32 => {
            let nm: Vec<u8> = vec![0x55, 0x69, 0x6E, 0x74, 0x33, 0x32];
            proof {
                assert(nm@ =~= dtype_name(d));
            }
            push_string(out, nm.as_slice());
        },
        DataType::Uint64 => {
            let nm: Vec<u8> = vec![0x55, 0x69, 0x6E, 0x74, 0x36, 0x34];
            proof {
                assert(nm@ =~= dtype_name(d));
            }
            push_string(out, nm.as_slice());
        },
        DataType::Uint128 => {
            let nm: Vec<u8> = vec![0x55, 0x69, 0x6E, 0x74, 0x31, 0x32, 0x38];
            proof {
                assert(nm@ =~= dtype_name(d));
            }
            push_string(out, nm.as_slice());
        },
        DataType::Float32 => {
            let nm: Vec<u8> = vec![0x46, 0x6C, 0x6F, 0x61, 0x74, 0x33, 0x32];
            proof {
                assert(nm@ =~= dtype_name(d));
            }
            push_string(out, nm.as_slice());
        },
        DataType::Float => {
            let nm: Vec<u8> = vec![0x46, 0x6C, 0x6F, 0x61, 0x74];
            proof {
                assert(nm@ =~= dtype_name(d));
            }
            push_string(out, nm.as_slice());
        },
        DataType::Text => {
            let nm: Vec<u8> = vec![0x54, 0x65, 0x78, 0x74];
            proof {
                assert(nm@ =~= dtype_name(d));
            }
            push_string(out, nm.as_slice());
        },
        DataType::Bytea => {
            let nm: Vec<u8> = vec![0x42, 0x79, 0x74, 0x65, 0x61];
            proof {
                assert(nm@ =~= dtype_name(d));
            }
            push_string(out, nm.as_slice());
        },
        DataType::Inet => {
            let nm: Vec<u8> = vec![0x49, 0x6E, 0x65, 0x74];
            proof {
                assert(nm@ =~= dtype_name(d));
            }
            push_string(out, nm.as_slice());
        },
        DataType::Date => {
            let nm: Vec<u8> = vec![0x44, 0x61, 0x74, 0x65];
            proof {
                assert(nm@ =~= dtype_name(d));
            }
            push_string(out, nm.as_slice());
        },
        DataType::Timestamp => {
            let nm: Vec<u8> = vec![0x54, 0x69, 0x6D, 0x65, 0x73, 0x74, 0x61, 0x6D, 0x70];
            proof {
                assert(nm@ =~= dtype_name(d));
            }
            push_string(out, nm.as_slice());
        },
        DataType::Time => {
            let nm: Vec<u8> = vec![0x54, 0x69, 0x6D, 0x65];
            proof {
                assert(nm@ =~= dtype_name(d));
            }
            push_string(out, nm.as_slice());
        },
        DataType::Interval => {
            let nm: Vec<u8> = vec![0x49, 0x6E, 0x74, 0x65, 0x72, 0x76, 0x61, 0x6C];
            proof {
                assert(nm@ =~= dtype_name(d));
            }
            push_string(out, nm.as_slice());
        },
        DataType::Uuid => {
            let nm: Vec<u8> = vec![0x55, 0x75, 0x69, 0x64];
            proof {
                assert(nm@ =~= dtype_name(d));
            }
            push_string(out, nm.as_slice());
        },
        DataType::Dict => {
            let nm: Vec<u8> = vec![0x4D, 0x61, 0x70];
            proof {
                assert(nm@ =~= dtype_name(d));
            }
            push_string(out, nm.as_slice());
        },
        DataType::List => {
            let nm: Vec<u8> = vec![0x4C, 0x69, 0x73, 0x74];
            proof {
                assert(nm@ =~= dtype_name(d));
            }
            push_string(out, nm.as_slice());
        },
        DataType::Decimal => {
            let nm: Vec<u8> = vec![0x44, 0x65, 0x63, 0x69, 0x6D, 0x61, 0x6C];
            proof {
                assert(nm@ =~= dtype_name(d));
            }
            push_string(out, nm.as_slice());
        },
        DataType::Point => {
            let nm: Vec<u8> = vec![0x50, 0x6F, 0x69, 0x6E, 0x74];
            proof {
                assert(nm@ =~= dtype_name(d));
            }
            push_string(out, nm.as_slice());
        },
    }
}

/// Appends a rendered truth value.
fn push_bool(out: &mut Vec<u8>, b: bool)
    ensures
        final(out)@ == old(out)@ + ser_bool(b),
{
    if b {
        out.push(0x74);
        out.push(0x72);
        out.push(0x75);
        out.push(0x65);
    } else {
        out.push(0x66);
        out.push(0x61);
        out.push(0x6C);
        out.push(0x73);
        out.push(0x65);
    }
    assert(final(out)@ =~= old(out)@ + ser_bool(b));
}

/// Appends rendered optional opaque text.
fn push_opt_text(out: &mut Vec<u8>, t: &Option<Vec<u8>>)
    ensures
        final(out)@ == old(out)@ + ser_opt_text(opt_text_view(*t)),
{
    match t {
        Option::None => {
            out.push(0x6E);
            out.push(0x75);
            out.push(0x6C);
            out.push(0x6C);
            assert(final(out)@ =~= old(out)@ + ser_opt_text(opt_text_view(*t)));
        },
        Option::Some(x) => {
            push_string(out, x.as_slice());
        },
    }
}

/// Appends a rendered uniqueness constraint name.
fn push_unique(out: &mut Vec<u8>, u: ColumnUnique)
    ensures
        final(out)@ == old(out)@ + ser_unique(u),
{
    match u {
        ColumnUnique::Plain => {
            out.push(0x22);
            out.push(0x70);
            out.push(0x6C);
            out.push(0x61);
            out.push(0x69);
            out.push(0x6E);
            out.push(0x22);
        },
        ColumnUnique::Unique => {
            out.push(0x22);
            out.push(0x75);
            out.push(0x6E);
            out.push(0x69);
            out.push(0x71);
            out.push(0x75);
            out.push(0x65);
            out.push(0x22);
        },
        ColumnUnique::Primary => {
            out.push(0x22);
            out.push(0x70);
            out.push(0x72);
            out.push(0x69);
            out.push(0x6D);
            out.push(0x61);
            out.push(0x72);
            out.push(0x79);
            out.push(0x22);
        },
    }
    assert(final(out)@ =~= old(out)@ + ser_unique(u));
}

/// Appends one rendered column definition.
fn push_coldef(out: &mut Vec<u8>, c: &ColumnDef)
    ensures
        final(out)@ == old(out)@ + ser_coldef(c@),
{
    push_hdr(out, 0);
    push_string(out, c.name.as_slice());
    push_hdr(out, 1);
    push_dtype(out, c.data_type);
    push_hdr(out, 5);
    push_bool(out, c.nullable);
    push_hdr(out, 6);
    push_opt_text(out, &c.default);
    push_hdr(out, 7);
    push_opt_text(out, &c.comment);
    push_hdr(out, 2);
    push_unique(out, c.unique);
    out.push(0x7D);
    assert(final(out)@ =~= old(out)@ + ser_coldef(c@));
}

/// Appends one of the fixed record headers, chosen by `which`
/// (0: name, 1: data_type, 2: unique, 3: table_name, 4: column_defs).
fn push_hdr(out: &mut Vec<u8>, which: u8)
    requires
        which <= 10,
    ensures
        which == 0 ==> final(out)@ == old(out)@ + name_hdr(),
        which == 1 ==> final(out)@ == old(out)@ + type_hdr(),
        which == 2 ==> final(out)@ == old(out)@ + uniq_hdr(),
        which == 3 ==> final(out)@ == old(out)@ + table_hdr(),
        which == 4 ==> final(out)@ == old(out)@ + cols_hdr(),
        which == 5 ==> final(out)@ == old(out)@ + null_hdr(),
        which == 6 ==> final(out)@ == old(out)@ + dflt_hdr(),
        which == 7 ==> final(out)@ == old(out)@ + cmt_hdr(),
        which == 8 ==> final(out)@ == old(out)@ + idx_hdr(),
        which == 9 ==> final(out)@ == old(out)@ + eng_hdr(),
        which == 10 ==> final(out)@ == old(out)@ + fk_hdr(),
{
    let hdr: Vec<u8> = if which == 0 {
        vec![0x7B, 0x22, 0x6E, 0x61, 0x6D, 0x65, 0x22, 0x3A, 0x20]
    } else if which == 1 {
        vec![
            0x2C, 0x20, 0x22, 0x64, 0x61, 0x74, 0x61, 0x5F, 0x74, 0x79, 0x70, 0x65, 0x22, 0x3A,
            0x20,
        ]
    } else if which == 2 {
        vec![0x2C, 0x20, 0x22, 0x75, 0x6E, 0x69, 0x71, 0x75, 0x65, 0x22, 0x3A, 0x20]
    } else if which == 3 {
        vec![
            0x7B, 0x22, 0x74, 0x61, 0x62, 0x6C, 0x65, 0x5F, 0x6E, 0x61, 0x6D, 0x65, 0x22, 0x3A,
            0x20,
        ]
    } else if which == 4 {
        vec![
            0x2C, 0x20, 0x22, 0x63, 0x6F, 0x6C, 0x75, 0x6D, 0x6E, 0x5F, 0x64, 0x65, 0x66, 0x73,
            0x22, 0x3A, 0x20,
        ]
    } else if which == 5 {
        vec![0x2C, 0x20, 0x22, 0x6E, 0x75, 0x6C, 0x6C, 0x61, 0x62, 0x6C, 0x65, 0x22, 0x3A, 0x20]
    } else if which == 6 {
        vec![0x2C, 0x20, 0x22, 0x64, 0x65, 0x66, 0x61, 0x75, 0x6C, 0x74, 0x22, 0x3A, 0x20]
    } else if which == 7 {
        vec![0x2C, 0x20, 0x22, 0x63, 0x6F, 0x6D, 0x6D, 0x65, 0x6E, 0x74, 0x22, 0x3A, 0x20]
    } else if which == 8 {
        vec![0x2C, 0x20, 0x22, 0x69, 0x6E, 0x64, 0x65, 0x78, 0x65, 0x73, 0x22, 0x3A, 0x20]
    } else if which == 9 {
        vec![0x2C, 0x20, 0x22, 0x65, 0x6E, 0x67, 0x69, 0x6E, 0x65, 0x22, 0x3A, 0x20]
    } else {
        vec![0x2C, 0x20, 0x22, 0x66, 0x6F, 0x72, 0x65, 0x69, 0x67, 0x6E, 0x5F, 0x6B, 0x65, 0x79, 0x73, 0x22, 0x3A, 0x20]
    };
    proof {
        if which == 0 {
            assert(hdr@ =~= name_hdr());
        } else if which == 1 {
            assert(hdr@ =~= type_hdr());
        } else if which == 2 {
            assert(hdr@ =~= uniq_hdr());
        } else if which == 3 {
            assert(hdr@ =~= table_hdr());
        } else if which == 4 {
            assert(hdr@ =~= cols_hdr());
        } else if which == 5 {
            assert(hdr@ =~= null_hdr());
        } else if which == 6 {
            assert(hdr@ =~= dflt_hdr());
        } else if which == 7 {
            assert(hdr@ =~= cmt_hdr());
        } else if which == 8 {
            assert(hdr@ =~= idx_hdr());
        } else if which == 9 {
            assert(hdr@ =~= eng_hdr());
        } else {
            assert(hdr@ =~= fk_hdr());
        }
    }
    push_all(out, hdr.as_slice());
}

/// Escaping leaves a string without quotes or backslashes unchanged.
pub proof fn lemma_ser_bytes_plain(s: Seq<u8>)
    ensures
        (forall|k: int| 0 <= k < s.len() ==> #[trigger] s[k] != 0x22 && s[k] != 0x5C)
            ==> ser_bytes(s) == s,
    decreases s.len(),
{
    if s.len() > 0 {
        lemma_ser_bytes_plain(s.skip(1));
        if forall|k: int| 0 <= k < s.len() ==> #[trigger] s[k] != 0x22 && s[k] != 0x5C {
            assert(forall|k: int|
                0 <= k < s.skip(1).len() ==> #[trigger] s.skip(1)[k] != 0x22 && s.skip(1)[k]
                    != 0x5C) by {
                assert(forall|k: int| 0 <= k < s.skip(1).len() ==> s.skip(1)[k] == s[k + 1]);
            }
            assert(ser_bytes(s) =~= s);
        }
    }
}

/// Appends the rendered tail of a column list, from `i` on.
fn push_coldef_list(out: &mut Vec<u8>, cs: &Vec<ColumnDef>, i: usize)
    requires
        i <= cs@.len(),
    ensures
        final(out)@ == old(out)@ + ser_coldef_list(col_views(cs@).skip(i as int)),
    decreases cs@.len() - i,
{
    let ghost m = col_views(cs@);
    if i == cs.len() {
        assert(final(out)@ =~= old(out)@ + ser_coldef_list(m.skip(i as int)));
        return ;
    }
    push_coldef(out, &cs[i]);
    proof {
        assert(m.skip(i as int)[0] == m[i as int]);
        assert(m[i as int] == cs@[i as int]@);
    }
    if i + 1 == cs.len() {
        assert(m.skip(i as int).len() == 1);
        assert(final(out)@ =~= old(out)@ + ser_coldef_list(m.skip(i as int)));
    } else {
        out.push(0x2C);
        out.push(0x20);
        push_coldef_list(out, cs, i + 1);
        proof {
            assert(m.skip(i as int).skip(1) =~= m.skip(i as int + 1));
            assert(m.skip(i as int).len() >= 2);
            assert(ser_coldef_list(m.skip(i as int)) == ser_coldef(m[i as int]) + sep_lit()
                + ser_coldef_list(m.skip(i as int + 1)));
            assert(final(out)@ =~= old(out)@ + ser_coldef_list(m.skip(i as int)));
        }
    }
}

/// Appends the tail of a rendered schema: indexes, engine, foreign
/// keys, comment, closing brace.
#[verifier::rlimit(100)]
fn push_schema_tail(out: &mut Vec<u8>, s: &Schema)
    ensures
        final(out)@ == old(out)@ + idx_hdr() + ser_opt_text(opt_text_view(s.indexes)) + eng_hdr()
            + ser_opt_text(opt_text_view(s.engine)) + fk_hdr() + ser_opt_text(
            opt_text_view(s.foreign_keys),
        ) + cmt_hdr() + ser_opt_text(opt_text_view(s.comment)) + seq![0x7Du8],
{
    push_hdr(out, 8);
    push_opt_text(out, &s.indexes);
    assert(out@ =~= old(out)@ + idx_hdr() + ser_opt_text(opt_text_view(s.indexes)));
    push_hdr(out, 9);
    push_opt_text(out, &s.engine);
    push_hdr(out, 10);
    push_opt_text(out, &s.foreign_keys);
    assert(out@ =~= old(out)@ + idx_hdr() + ser_opt_text(opt_text_view(s.indexes)) + eng_hdr()
        + ser_opt_text(opt_text_view(s.engine)) + fk_hdr() + ser_opt_text(
        opt_text_view(s.foreign_keys),
    ));
    push_hdr(out, 7);
    push_opt_text(out, &s.comment);
    out.push(0x7D);
    assert(final(out)@ =~= old(out)@ + idx_hdr() + ser_opt_text(opt_text_view(s.indexes))
        + eng_hdr() + ser_opt_text(opt_text_view(s.engine)) + fk_hdr() + ser_opt_text(
        opt_text_view(s.foreign_keys),
    ) + cmt_hdr() + ser_opt_text(opt_text_view(s.comment)) + seq![0x7Du8]);
}

/// Appends the rendered content of a schema (unfenced).
#[verifier::rlimit(100)]
fn push_schema(out: &mut Vec<u8>, s: &Schema)
    ensures
        final(out)@ == old(out)@ + ser_schema(s@),
{
    push_hdr(out, 3);
    push_string(out, s.table_name.as_slice());
    push_hdr(out, 4);
    match &s.column_defs {
        Option::None => {
            out.push(0x6E);
            out.push(0x75);
            out.push(0x6C);
            out.push(0x6C);
        },
        Option::Some(cs) => {
            out.push(0x5B);
            push_coldef_list(out, cs, 0);
            out.push(0x5D);
            proof {
                assert(col_views(cs@).skip(0) =~= col_views(cs@));
            }
        },
    }
    let ghost head = old(out)@ + table_hdr() + ser_string(s.table_name@) + cols_hdr()
        + ser_coldefs(s@.column_defs);
    assert(out@ =~= head);
    push_schema_tail(out, s);
    assert(final(out)@ =~= old(out)@ + ser_schema(s@));
}

/// Appends the opening fence line.
fn push_fence_open(out: &mut Vec<u8>)
    ensures
        final(out)@ == old(out)@ + seq![0x0Au8] + fence_word() + seq![0x0Au8],
{
    out.push(0x0A);
    out.push(0x60);
    out.push(0x60);
    out.push(0x60);
    out.push(0x6A);
    out.push(0x73);
    out.push(0x6F);
    out.push(0x6E);
    out.push(0x0A);
    assert(final(out)@ =~= old(out)@ + seq![0x0Au8] + fence_word() + seq![0x0Au8]);
}

/// Appends the closing fence line.
fn push_fence_close(out: &mut Vec<u8>)
    ensures
        final(out)@ == old(out)@ + seq![0x0Au8] + backticks(),
{
    out.push(0x0A);
    out.push(0x60);
    out.push(0x60);
    out.push(0x60);
    assert(final(out)@ =~= old(out)@ + seq![0x0Au8] + backticks());
}

impl Row {
    /// Renders the row as a fenced block ready to store as message
    /// content.
    pub fn to_codeblock(&self) -> (out: Vec<u8>)
        ensures
            out@ == fence_wrap(ser_row(self@)),
    {
        let mut out: Vec<u8> = Vec::new();
        push_fence_open(&mut out);
        push_row(&mut out, self);
        push_fence_close(&mut out);
        assert(out@ =~= fence_wrap(ser_row(self@)));
        out
    }
}

impl Schema {
    /// Renders the schema as a fenced block ready to store as the
    /// pinned message content.
    pub fn to_codeblock(&self) -> (out: Vec<u8>)
        ensures
            out@ == fence_wrap(ser_schema(self@)),
    {
        let mut out: Vec<u8> = Vec::new();
        push_fence_open(&mut out);
        push_schema(&mut out, self);
        push_fence_close(&mut out);
        assert(out@ =~= fence_wrap(ser_schema(self@)));
        out
    }
}

} // verus!
