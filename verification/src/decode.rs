//! The executable decoder: reads stored message content back into a
//! schema or a row, exactly as the codec specification's parser reads
//! it.

use vstd::prelude::*;

use crate::codec::{
    at, backticks, cmt_hdr, colon_lit, cols_hdr, dec_row, dec_schema, dflt_hdr, digit_run_end,
    dtype_name, eng_hdr, false_lit, fence_word, fk_hdr, idx_hdr, is_ws, name_hdr, null_hdr, null_lit,
    parse_bool, parse_coldef, parse_coldef_list, parse_coldefs, parse_dtype, parse_field,
    parse_fields, parse_int, parse_opt_text, parse_row_at, parse_schema_at, parse_sint,
    parse_str_body, parse_string, parse_unique, parse_value, parse_values, rp, sep_lit,
    ser_unique, strip_fence, table_hdr, tag_bytea, tag_date, tag_dec, tag_i128, tag_i16, tag_i32,
    tag_dict, tag_f32, tag_f64, tag_i8, tag_inet, tag_ivmic, tag_ivmon, tag_list, tag_point,
    tag_time, tag_ts, tag_u128, tag_u16, tag_u32, tag_u64,
    tag_u8, tag_uuid, trim, trim_back, trim_front, true_lit, type_hdr, uniq_hdr,
};
use crate::error::StorageError;
use crate::numeral::{all_digits, dec_val, is_digit};
use crate::remote::bytes_eq;
use crate::roundtrip::{lemma_trim_back_ws, lemma_trim_front_ws};
use crate::value::{
    field_views, value_views, ColumnDef, ColumnUnique, DataType, Field, Row, Schema, Value,
};

verus! {

/// Whether the bytes of `t` stand in `s` at `i`.
fn has_at(s: &[u8], i: usize, t: &[u8]) -> (b: bool)
    ensures
        b == at(s@, i as int, t@),
{
    if i > s.len() || s.len() - i < t.len() {
        return false;
    }
    let mut k: usize = 0;
    while k < t.len()
        invariant
            0 <= k <= t@.len(),
            i + t@.len() <= s@.len() <= usize::MAX,
            forall|m: int| 0 <= m < k ==> s@[i + m] == #[trigger] t@[m],
        decreases t@.len() - k,
    {
        if s[i + k] != t[k] {
            assert(!at(s@, i as int, t@)) by {
                if at(s@, i as int, t@) {
                    assert(s@.subrange(i as int, i + t@.len() as int)[k as int] == s@[i + k]);
                }
            }
            return false;
        }
        k += 1;
    }
    assert(s@.subrange(i as int, i + t@.len() as int) =~= t@) by {
        assert(forall|m: int|
            0 <= m < t@.len() ==> #[trigger] s@.subrange(i as int, i + t@.len() as int)[m] == s@[i
                + m]);
    }
    true
}

/// Shrinks `[lo, hi)` to the whitespace-trimmed core of that range.
fn trim_range(s: &[u8], lo: usize, hi: usize) -> (r: (usize, usize))
    requires
        lo <= hi <= s@.len(),
    ensures
        lo <= r.0 <= r.1 <= hi,
        s@.subrange(r.0 as int, r.1 as int) == trim(s@.subrange(lo as int, hi as int)),
{
    let ghost t = s@.subrange(lo as int, hi as int);
    let mut a = lo;
    while a < hi && (s[a] == 0x20 || s[a] == 0x09 || s[a] == 0x0A || s[a] == 0x0D)
        invariant
            lo <= a <= hi <= s@.len(),
            forall|m: int| lo <= m < a ==> is_ws(#[trigger] s@[m]),
        decreases hi - a,
    {
        a += 1;
    }
    proof {
        let w = s@.subrange(lo as int, a as int);
        let rest = s@.subrange(a as int, hi as int);
        assert(t =~= w + rest);
        assert(forall|k: int| 0 <= k < w.len() ==> is_ws(#[trigger] w[k])) by {
            assert(forall|k: int| 0 <= k < w.len() ==> w[k] == s@[lo + k]);
        }
        lemma_trim_front_ws(w, rest);
        if a < hi {
            assert(rest[0] == s@[a as int]);
            assert(!is_ws(rest[0]));
        }
        assert(trim_front(t) == rest);
    }
    let mut b = hi;
    while b > a && (s[b - 1] == 0x20 || s[b - 1] == 0x09 || s[b - 1] == 0x0A || s[b - 1] == 0x0D)
        invariant
            a <= b <= hi <= s@.len(),
            forall|m: int| b <= m < hi ==> is_ws(#[trigger] s@[m]),
        decreases b,
    {
        b -= 1;
    }
    proof {
        let rest = s@.subrange(a as int, hi as int);
        let core = s@.subrange(a as int, b as int);
        let w = s@.subrange(b as int, hi as int);
        assert(rest =~= core + w);
        assert(forall|k: int| 0 <= k < w.len() ==> is_ws(#[trigger] w[k])) by {
            assert(forall|k: int| 0 <= k < w.len() ==> w[k] == s@[b + k]);
        }
        lemma_trim_back_ws(core, w);
        if b > a {
            assert(core.last() == s@[b - 1]);
            assert(!is_ws(core.last()));
        }
        assert(trim_back(core) == core);
        assert(trim(t) == core);
    }
    (a, b)
}

/// Finds the range of `text` that holds the content of the possibly
/// fenced block, as `strip_fence` states it.
#[verifier::rlimit(60)]
fn strip_bounds(text: &[u8]) -> (r: (usize, usize))
    ensures
        r.0 <= r.1 <= text@.len(),
        text@.subrange(r.0 as int, r.1 as int) == strip_fence(text@),
{
    proof {
        assert(text@.subrange(0, text@.len() as int) =~= text@);
    }
    let (l1, h1) = trim_range(text, 0, text.len());
    let ghost t = trim(text@);
    assert(t == text@.subrange(l1 as int, h1 as int));
    let fence: Vec<u8> = vec![0x60, 0x60, 0x60, 0x6A, 0x73, 0x6F, 0x6E];
    proof {
        assert(fence@ =~= fence_word());
    }
    let l2: usize = if h1 - l1 >= 7 && has_at(text, l1, fence.as_slice()) {
        proof {
            assert(text@.subrange(l1 as int, l1 + 7) =~= t.take(7)) by {
                assert(forall|k: int|
                    0 <= k < 7 ==> #[trigger] t.take(7)[k] == text@[l1 + k]);
            }
            assert(t.take(7) == fence_word());
        }
        l1 + 7
    } else {
        proof {
            if t.len() >= 7 && t.take(7) == fence_word() {
                assert(at(text@, l1 as int, fence_word())) by {
                    assert(text@.subrange(l1 as int, l1 + 7) =~= t.take(7)) by {
                        assert(forall|k: int|
                            0 <= k < 7 ==> #[trigger] t.take(7)[k] == text@[l1 + k]);
                    }
                }
                assert(false);
            }
        }
        l1
    };
    let ghost t1 = if t.len() >= 7 && t.take(7) == fence_word() {
        t.skip(7)
    } else {
        t
    };
    assert(t1 =~= text@.subrange(l2 as int, h1 as int));
    let ticks: Vec<u8> = vec![0x60, 0x60, 0x60];
    proof {
        assert(ticks@ =~= backticks());
    }
    let h2: usize = if h1 - l2 >= 3 && has_at(text, h1 - 3, ticks.as_slice()) {
        proof {
            assert(text@.subrange(h1 - 3, h1 as int) =~= t1.skip(t1.len() - 3)) by {
                assert(forall|k: int|
                    0 <= k < 3 ==> #[trigger] t1.skip(t1.len() - 3)[k] == text@[h1 - 3 + k]);
            }
            assert(t1.skip(t1.len() - 3) == backticks());
        }
        h1 - 3
    } else {
        proof {
            if t1.len() >= 3 && t1.skip(t1.len() - 3) == backticks() {
                assert(at(text@, h1 - 3, backticks())) by {
                    assert(text@.subrange(h1 - 3, h1 as int) =~= t1.skip(t1.len() - 3)) by {
                        assert(forall|k: int|
                            0 <= k < 3 ==> #[trigger] t1.skip(t1.len() - 3)[k] == text@[h1 - 3
                                + k]);
                    }
                }
                assert(false);
            }
        }
        h1
    };
    let ghost t2 = if t1.len() >= 3 && t1.skip(t1.len() - 3) == backticks() {
        t1.take(t1.len() - 3)
    } else {
        t1
    };
    assert(t2 =~= text@.subrange(l2 as int, h2 as int));
    let (l3, h3) = trim_range(text, l2, h2);
    assert(text@.subrange(l3 as int, h3 as int) == strip_fence(text@));
    (l3, h3)
}

/// Reads a string body up to its closing quote, unescaping as it goes.
fn p_str_body(s: &[u8], start: usize) -> (r: Option<(Vec<u8>, usize)>)
    requires
        start <= s@.len(),
    ensures
        match r {
            Option::Some((t, j)) => {
                &&& parse_str_body(s@, start as int) == Option::Some((t@, j as int))
                &&& start <= j <= s@.len()
            },
            Option::None => parse_str_body(s@, start as int) is None,
        },
{
    let mut acc: Vec<u8> = Vec::new();
    let mut j = start;
    loop
        invariant
            start <= j <= s@.len(),
            parse_str_body(s@, start as int) is Some <==> parse_str_body(s@, j as int) is Some,
            parse_str_body(s@, j as int) is Some ==> {
                &&& parse_str_body(s@, start as int)->Some_0.0 == acc@ + parse_str_body(
                    s@,
                    j as int,
                )->Some_0.0
                &&& parse_str_body(s@, start as int)->Some_0.1 == parse_str_body(
                    s@,
                    j as int,
                )->Some_0.1
            },
        decreases s@.len() - j,
    {
        if j == s.len() {
            return Option::None;
        }
        let b = s[j];
        if b == 0x22 {
            proof {
                assert(parse_str_body(s@, j as int) == Option::Some(
                    (Seq::<u8>::empty(), j + 1 as int),
                ));
                assert(acc@ + Seq::<u8>::empty() =~= acc@);
            }
            return Option::Some((acc, j + 1));
        }
        if b == 0x5C {
            if j + 1 < s.len() && (s[j + 1] == 0x22 || s[j + 1] == 0x5C) {
                let c = s[j + 1];
                proof {
                    if parse_str_body(s@, j + 2) is Some {
                        let tl = parse_str_body(s@, j + 2)->Some_0.0;
                        assert(parse_str_body(s@, j as int)->Some_0.0 == seq![s@[j + 1]] + tl);
                        assert(acc@ + (seq![s@[j + 1]] + tl) =~= acc@.push(c) + tl);
                    }
                }
                acc.push(c);
                j = j + 2;
            } else {
                return Option::None;
            }
        } else {
            proof {
                if parse_str_body(s@, j + 1) is Some {
                    let tl = parse_str_body(s@, j + 1)->Some_0.0;
                    assert(parse_str_body(s@, j as int)->Some_0.0 == seq![s@[j as int]] + tl);
                    assert(acc@ + (seq![s@[j as int]] + tl) =~= acc@.push(b) + tl);
                }
            }
            acc.push(b);
            j = j + 1;
        }
    }
}

/// Reads a quoted string.
fn p_string(s: &[u8], i: usize) -> (r: Option<(Vec<u8>, usize)>)
    requires
        i <= s@.len(),
    ensures
        match r {
            Option::Some((t, j)) => {
                &&& parse_string(s@, i as int) == Option::Some((t@, j as int))
                &&& i < j <= s@.len()
            },
            Option::None => parse_string(s@, i as int) is None,
        },
{
    if i < s.len() && s[i] == 0x22 {
        p_str_body(s, i + 1)
    } else {
        Option::None
    }
}

/// Scans to the end of the digit run that starts at `i`.
fn p_digit_run(s: &[u8], i: usize) -> (j: usize)
    requires
        i <= s@.len(),
    ensures
        i <= j <= s@.len(),
        j == digit_run_end(s@, i as int),
        all_digits(s@.subrange(i as int, j as int)),
        j == s@.len() || !is_digit(s@[j as int]),
    decreases s@.len() - i,
{
    if i < s.len() && s[i] >= 0x30 && s[i] <= 0x39 {
        let j = p_digit_run(s, i + 1);
        proof {
            let ds = s@.subrange(i as int, j as int);
            let rest = s@.subrange(i + 1, j as int);
            assert(forall|k: int| 0 <= k < ds.len() ==> #[trigger] ds[k] == s@[i + k]);
            assert(forall|k: int| 0 <= k < rest.len() ==> #[trigger] rest[k] == s@[i + 1 + k]);
            assert forall|k: int| 0 <= k < ds.len() implies is_digit(#[trigger] ds[k]) by {
                if k > 0 {
                    assert(is_digit(rest[k - 1]));
                }
            }
        }
        j
    } else {
        proof {
            assert(s@.subrange(i as int, i as int) =~= Seq::<u8>::empty());
        }
        i
    }
}

/// The value of an all-digit range is monotone in its length.
proof fn lemma_dec_val_take_le(s: Seq<u8>, i: int)
    requires
        0 <= i <= s.len(),
    ensures
        dec_val(s.take(i)) <= dec_val(s),
    decreases s.len() - i,
{
    if i < s.len() {
        lemma_dec_val_take_le(s, i + 1);
        let t = s.take(i + 1);
        assert(t.drop_last() =~= s.take(i));
        assert(dec_val(t) == dec_val(s.take(i)) * 10 + ((t.last() - 0x30) as nat));
    } else {
        assert(s.take(i) =~= s);
    }
}

/// Reads a decimal integer with an optional leading minus.
fn p_int(s: &[u8], i: usize) -> (r: Option<(i64, usize)>)
    requires
        i <= s@.len(),
    ensures
        match r {
            Option::Some((n, j)) => {
                &&& parse_int(s@, i as int) == Option::Some((n, j as int))
                &&& i < j <= s@.len()
            },
            Option::None => parse_int(s@, i as int) is None,
        },
{
    if i >= s.len() {
        return Option::None;
    }
    let neg = s[i] == 0x2D;
    let j0 = if neg {
        i + 1
    } else {
        i
    };
    let j1 = p_digit_run(s, j0);
    if j1 == j0 {
        return Option::None;
    }
    let ghost ds = s@.subrange(j0 as int, j1 as int);
    let limit: u64 = if neg {
        0x8000_0000_0000_0000
    } else {
        0x7FFF_FFFF_FFFF_FFFF
    };
    let mut k = j0;
    let mut acc: u64 = 0;
    while k < j1
        invariant
            i < s@.len(),
            neg == (s@[i as int] == 0x2D),
            j0 == if neg {
                i + 1
            } else {
                i as int
            },
            j0 <= k <= j1 <= s@.len(),
            j0 < j1,
            j1 == digit_run_end(s@, j0 as int),
            ds == s@.subrange(j0 as int, j1 as int),
            all_digits(ds),
            acc == dec_val(ds.take(k - j0)),
            acc <= limit,
            limit == if neg {
                0x8000_0000_0000_0000u64
            } else {
                0x7FFF_FFFF_FFFF_FFFFu64
            },
        decreases j1 - k,
    {
        let b = s[k];
        proof {
            assert(ds[k - j0] == s@[k as int]);
            assert(is_digit(ds[k - j0]));
        }
        let d = (b - 0x30) as u64;
        proof {
            let t = ds.take(k - j0 + 1);
            assert(t.drop_last() =~= ds.take(k - j0));
            assert(t.last() == b);
            assert(dec_val(t) == acc * 10 + d);
        }
        if acc > (limit - d) / 10 {
            proof {
                assert(acc * 10 + d > limit) by (nonlinear_arith)
                    requires
                        acc > (limit - d) / 10,
                        d <= 9,
                        acc <= limit,
                        limit >= 10,
                ;
                lemma_dec_val_take_le(ds, k - j0 + 1);
                assert(dec_val(ds) > limit);
            }
            return Option::None;
        }
        proof {
            assert(acc * 10 + d <= limit) by (nonlinear_arith)
                requires
                    acc <= (limit - d) / 10,
                    d <= 9,
                    limit >= 10,
            ;
        }
        acc = acc * 10 + d;
        k += 1;
    }
    proof {
        assert(ds.take(j1 - j0) =~= ds);
    }
    if neg {
        let n: i64 = if acc == 0x8000_0000_0000_0000 {
            i64::MIN
        } else {
            -(acc as i64)
        };
        Option::Some((n, j1))
    } else {
        Option::Some((acc as i64, j1))
    }
}

/// Reads one atomic value.
#[verifier::rlimit(100)]
fn p_value(s: &[u8], i: usize) -> (r: Option<(Value, usize)>)
    requires
        i <= s@.len(),
    ensures
        match r {
            Option::Some((v, j)) => {
                &&& parse_value(s@, i as int) is Some
                &&& parse_value(s@, i as int)->Some_0.0 == v@
                &&& parse_value(s@, i as int)->Some_0.1 == j as int
                &&& i < j <= s@.len()
            },
            Option::None => parse_value(s@, i as int) is None,
        },
{
    proof {
        reveal(parse_value);
    }
    if i >= s.len() {
        return Option::None;
    }
    let slen: usize = s.len();
    assert(s@.len() == slen);
    let rpv: Vec<u8> = vec![0x29];
    let sepv: Vec<u8> = vec![0x2C, 0x20];
    proof {
        assert(rpv@ =~= rp());
        assert(sepv@ =~= sep_lit());
    }
    let b = s[i];
    if b == 0x22 {
        match p_string(s, i) {
            Option::Some((t, j)) => Option::Some((Value::Str(t), j)),
            Option::None => Option::None,
        }
    } else if b == 0x6E {
        let lit: Vec<u8> = vec![0x6E, 0x75, 0x6C, 0x6C];
        proof {
            assert(lit@ =~= null_lit());
        }
        if has_at(s, i, lit.as_slice()) {
            Option::Some((Value::Null, i + 4))
        } else {
            Option::None
        }
    } else if b == 0x74 {
        let lit: Vec<u8> = vec![0x74, 0x72, 0x75, 0x65];
        proof {
            assert(lit@ =~= true_lit());
        }
        if has_at(s, i, lit.as_slice()) {
            Option::Some((Value::Bool(true), i + 4))
        } else {
            Option::None
        }
    } else if b == 0x66 {
        let lit: Vec<u8> = vec![0x66, 0x61, 0x6C, 0x73, 0x65];
        proof {
            assert(lit@ =~= crate::codec::false_lit());
        }
        if has_at(s, i, lit.as_slice()) {
            Option::Some((Value::Bool(false), i + 5))
        } else {
            Option::None
        }
    } else if b == 0x2D || (b >= 0x30 && b <= 0x39) {
        match p_int(s, i) {
            Option::Some((n, j)) => Option::Some((Value::Int(n), j)),
            Option::None => Option::None,
        }
    } else if b == 0x49 {
        let tv_i8: Vec<u8> = vec![0x49, 0x38, 0x28];
        let tv_i16: Vec<u8> = vec![0x49, 0x31, 0x36, 0x28];
        let tv_i32: Vec<u8> = vec![0x49, 0x33, 0x32, 0x28];
        let tv_i128: Vec<u8> = vec![0x49, 0x31, 0x32, 0x38, 0x28];
        let tv_ivmon: Vec<u8> = vec![0x49, 0x6E, 0x74, 0x65, 0x72, 0x76, 0x61, 0x6C, 0x4D, 0x6F, 0x6E, 0x74, 0x68, 0x28];
        let tv_ivmic: Vec<u8> = vec![0x49, 0x6E, 0x74, 0x65, 0x72, 0x76, 0x61, 0x6C, 0x4D, 0x69, 0x63, 0x72, 0x6F, 0x73, 0x65, 0x63, 0x6F, 0x6E, 0x64, 0x28];
        let tv_inet: Vec<u8> = vec![0x49, 0x6E, 0x65, 0x74, 0x28];
        proof {
            assert(tv_i8@ =~= tag_i8());
            assert(tv_i16@ =~= tag_i16());
            assert(tv_i32@ =~= tag_i32());
            assert(tv_i128@ =~= tag_i128());
            assert(tv_ivmon@ =~= tag_ivmon());
            assert(tv_ivmic@ =~= tag_ivmic());
            assert(tv_inet@ =~= tag_inet());
        }
        if has_at(s, i, tv_i8.as_slice()) {
            match p_sint(s, i + 3) {
                Option::None => Option::None,
                Option::Some((neg, mag, j, pfits)) => {
                    if pfits && (if neg { mag <= 0x80 } else { mag <= 0x80 - 1 }) {
                        let val: i8 = if neg {
                        if mag == 0x80u128 {
                            i8::MIN
                        } else {
                            -((mag as i64)) as i8
                        }
                    } else {
                        mag as i8
                    };
                        if has_at(s, j, rpv.as_slice()) {
                            Option::Some((Value::I8(val), j + 1))
                        } else {
                            Option::None
                        }
                    } else {
                        Option::None
                    }
                },
            }
        } else if has_at(s, i, tv_i16.as_slice()) {
            match p_sint(s, i + 4) {
                Option::None => Option::None,
                Option::Some((neg, mag, j, pfits)) => {
                    if pfits && (if neg { mag <= 0x8000 } else { mag <= 0x8000 - 1 }) {
                        let val: i16 = if neg {
                        if mag == 0x8000u128 {
                            i16::MIN
                        } else {
                            -((mag as i64)) as i16
                        }
                    } else {
                        mag as i16
                    };
                        if has_at(s, j, rpv.as_slice()) {
                            Option::Some((Value::I16(val), j + 1))
                        } else {
                            Option::None
                        }
                    } else {
                        Option::None
                    }
                },
            }
        } else if has_at(s, i, tv_i32.as_slice()) {
            match p_sint(s, i + 4) {
                Option::None => Option::None,
                Option::Some((neg, mag, j, pfits)) => {
                    if pfits && (if neg { mag <= 0x8000_0000 } else { mag <= 0x8000_0000 - 1 }) {
                        let val: i32 = if neg {
                        if mag == 0x8000_0000u128 {
                            i32::MIN
                        } else {
                            -((mag as i64)) as i32
                        }
                    } else {
                        mag as i32
                    };
                        if has_at(s, j, rpv.as_slice()) {
                            Option::Some((Value::I32(val), j + 1))
                        } else {
                            Option::None
                        }
                    } else {
                        Option::None
                    }
                },
            }
        } else if has_at(s, i, tv_i128.as_slice()) {
            match p_sint(s, i + 5) {
                Option::None => Option::None,
                Option::Some((neg, mag, j, pfits)) => {
                    if pfits && (if neg { mag <= 0x8000_0000_0000_0000_0000_0000_0000_0000 } else { mag <= 0x8000_0000_0000_0000_0000_0000_0000_0000 - 1 }) {
                        let val: i128 = if neg {
                        if mag == 0x8000_0000_0000_0000_0000_0000_0000_0000u128 {
                            i128::MIN
                        } else {
                            -(mag as i128)
                        }
                    } else {
                        mag as i128
                    };
                        if has_at(s, j, rpv.as_slice()) {
                            Option::Some((Value::I128(val), j + 1))
                        } else {
                            Option::None
                        }
                    } else {
                        Option::None
                    }
                },
            }
        } else if has_at(s, i, tv_ivmon.as_slice()) {
            match p_sint(s, i + 14) {
                Option::None => Option::None,
                Option::Some((neg, mag, j, pfits)) => {
                    if pfits && (if neg { mag <= 0x8000_0000 } else { mag <= 0x8000_0000 - 1 }) {
                        let val: i32 = if neg {
                        if mag == 0x8000_0000u128 {
                            i32::MIN
                        } else {
                            -((mag as i64)) as i32
                        }
                    } else {
                        mag as i32
                    };
                        if has_at(s, j, rpv.as_slice()) {
                            Option::Some((Value::IntervalMonth(val), j + 1))
                        } else {
                            Option::None
                        }
                    } else {
                        Option::None
                    }
                },
            }
        } else if has_at(s, i, tv_ivmic.as_slice()) {
            match p_sint(s, i + 20) {
                Option::None => Option::None,
                Option::Some((neg, mag, j, pfits)) => {
                    if pfits && (if neg { mag <= 0x8000_0000_0000_0000 } else { mag <= 0x8000_0000_0000_0000 - 1 }) {
                        let val: i64 = if neg {
                        if mag == 0x8000_0000_0000_0000u128 {
                            i64::MIN
                        } else {
                            -((mag as i64))
                        }
                    } else {
                        mag as i64
                    };
                        if has_at(s, j, rpv.as_slice()) {
                            Option::Some((Value::IntervalMicrosecond(val), j + 1))
                        } else {
                            Option::None
                        }
                    } else {
                        Option::None
                    }
                },
            }
        } else if has_at(s, i, tv_inet.as_slice()) {
            match p_string(s, i + 5) {
                Option::None => Option::None,
                Option::Some((t, j)) => {
                    if has_at(s, j, rpv.as_slice()) {
                        Option::Some((Value::Inet(t), j + 1))
                    } else {
                        Option::None
                    }
                },
            }
        } else {
            Option::None
        }
    } else if b == 0x55 {
        let tv_u8: Vec<u8> = vec![0x55, 0x38, 0x28];
        let tv_u16: Vec<u8> = vec![0x55, 0x31, 0x36, 0x28];
        let tv_u32: Vec<u8> = vec![0x55, 0x33, 0x32, 0x28];
        let tv_u64: Vec<u8> = vec![0x55, 0x36, 0x34, 0x28];
        let tv_u128: Vec<u8> = vec![0x55, 0x31, 0x32, 0x38, 0x28];
        let tv_uuid: Vec<u8> = vec![0x55, 0x75, 0x69, 0x64, 0x28];
        proof {
            assert(tv_u8@ =~= tag_u8());
            assert(tv_u16@ =~= tag_u16());
            assert(tv_u32@ =~= tag_u32());
            assert(tv_u64@ =~= tag_u64());
            assert(tv_u128@ =~= tag_u128());
            assert(tv_uuid@ =~= tag_uuid());
        }
        if has_at(s, i, tv_u8.as_slice()) {
            match p_sint(s, i + 3) {
                Option::None => Option::None,
                Option::Some((neg, mag, j, pfits)) => {
                    if pfits && mag <= 0xFF && (!neg || mag == 0) {
                        let val: u8 = mag as u8;
                        if has_at(s, j, rpv.as_slice()) {
                            Option::Some((Value::U8(val), j + 1))
                        } else {
                            Option::None
                        }
                    } else {
                        Option::None
                    }
                },
            }
        } else if has_at(s, i, tv_u16.as_slice()) {
            match p_sint(s, i + 4) {
                Option::None => Option::None,
                Option::Some((neg, mag, j, pfits)) => {
                    if pfits && mag <= 0xFFFF && (!neg || mag == 0) {
                        let val: u16 = mag as u16;
                        if has_at(s, j, rpv.as_slice()) {
                            Option::Some((Value::U16(val), j + 1))
                        } else {
                            Option::None
                        }
                    } else {
                        Option::None
                    }
                },
            }
        } else if has_at(s, i, tv_u32.as_slice()) {
            match p_sint(s, i + 4) {
                Option::None => Option::None,
                Option::Some((neg, mag, j, pfits)) => {
                    if pfits && mag <= 0xFFFF_FFFF && (!neg || mag == 0) {
                        let val: u32 = mag as u32;
                        if has_at(s, j, rpv.as_slice()) {
                            Option::Some((Value::U32(val), j + 1))
                        } else {
                            Option::None
                        }
                    } else {
                        Option::None
                    }
                },
            }
        } else if has_at(s, i, tv_u64.as_slice()) {
            match p_sint(s, i + 4) {
                Option::None => Option::None,
                Option::Some((neg, mag, j, pfits)) => {
                    if pfits && mag <= 0xFFFF_FFFF_FFFF_FFFF && (!neg || mag == 0) {
                        let val: u64 = mag as u64;
                        if has_at(s, j, rpv.as_slice()) {
                            Option::Some((Value::U64(val), j + 1))
                        } else {
                            Option::None
                        }
                    } else {
                        Option::None
                    }
                },
            }
        } else if has_at(s, i, tv_u128.as_slice()) {
            match p_sint(s, i + 5) {
                Option::None => Option::None,
                Option::Some((neg, mag, j, pfits)) => {
                    if pfits && mag <= 0xFFFF_FFFF_FFFF_FFFF_FFFF_FFFF_FFFF_FFFF && (!neg || mag == 0) {
                        let val: u128 = mag as u128;
                        if has_at(s, j, rpv.as_slice()) {
                            Option::Some((Value::U128(val), j + 1))
                        } else {
                            Option::None
                        }
                    } else {
                        Option::None
                    }
                },
            }
        } else if has_at(s, i, tv_uuid.as_slice()) {
            match p_sint(s, i + 5) {
                Option::None => Option::None,
                Option::Some((neg, mag, j, pfits)) => {
                    if pfits && mag <= 0xFFFF_FFFF_FFFF_FFFF_FFFF_FFFF_FFFF_FFFF && (!neg || mag == 0) {
                        let val: u128 = mag as u128;
                        if has_at(s, j, rpv.as_slice()) {
                            Option::Some((Value::Uuid(val), j + 1))
                        } else {
                            Option::None
                        }
                    } else {
                        Option::None
                    }
                },
            }
        } else {
            Option::None
        }
    } else if b == 0x44 {
        let tv_date: Vec<u8> = vec![0x44, 0x61, 0x74, 0x65, 0x28];
        let tv_dec: Vec<u8> = vec![0x44, 0x65, 0x63, 0x69, 0x6D, 0x61, 0x6C, 0x28];
        proof {
            assert(tv_date@ =~= tag_date());
            assert(tv_dec@ =~= tag_dec());
        }
        if has_at(s, i, tv_date.as_slice()) {
            match p_sint(s, i + 5) {
                Option::None => Option::None,
                Option::Some((neg, mag, j, pfits)) => {
                    if pfits && (if neg { mag <= 0x8000_0000 } else { mag <= 0x8000_0000 - 1 }) {
                        let val: i32 = if neg {
                        if mag == 0x8000_0000u128 {
                            i32::MIN
                        } else {
                            -((mag as i64)) as i32
                        }
                    } else {
                        mag as i32
                    };
                        if has_at(s, j, rpv.as_slice()) {
                            Option::Some((Value::Date(val), j + 1))
                        } else {
                            Option::None
                        }
                    } else {
                        Option::None
                    }
                },
            }
        } else if has_at(s, i, tv_dec.as_slice()) {
            match p_string(s, i + 8) {
                Option::None => Option::None,
                Option::Some((t, j)) => {
                    if has_at(s, j, rpv.as_slice()) {
                        Option::Some((Value::Decimal(t), j + 1))
                    } else {
                        Option::None
                    }
                },
            }
        } else {
            Option::None
        }
    } else if b == 0x54 {
        let tv_time: Vec<u8> = vec![0x54, 0x69, 0x6D, 0x65, 0x28];
        let tv_ts: Vec<u8> = vec![0x54, 0x69, 0x6D, 0x65, 0x73, 0x74, 0x61, 0x6D, 0x70, 0x28];
        proof {
            assert(tv_time@ =~= tag_time());
            assert(tv_ts@ =~= tag_ts());
        }
        if has_at(s, i, tv_time.as_slice()) {
            match p_sint(s, i + 5) {
                Option::None => Option::None,
                Option::Some((n1, m1, j1, p1f)) => {
                    if p1f && m1 <= 0xFFFF_FFFF && (!n1 || m1 == 0) {
                        let v1: u32 = m1 as u32;
                        if has_at(s, j1, sepv.as_slice()) {
                            match p_sint(s, j1 + 2) {
                                Option::None => Option::None,
                                Option::Some((n2, m2, j3, p2f)) => {
                                    if p2f && m2 <= 0xFFFF_FFFF && (!n2 || m2 == 0) {
                                        let v2: u32 = m2 as u32;
                                        if has_at(s, j3, rpv.as_slice()) {
                                            Option::Some((Value::Time(v1, v2), j3 + 1))
                                        } else {
                                            Option::None
                                        }
                                    } else {
                                        Option::None
                                    }
                                },
                            }
                        } else {
                            Option::None
                        }
                    } else {
                        Option::None
                    }
                },
            }
        } else if has_at(s, i, tv_ts.as_slice()) {
            match p_sint(s, i + 10) {
                Option::None => Option::None,
                Option::Some((n1, m1, j1, p1f)) => {
                    if p1f && (if n1 { m1 <= 0x8000_0000_0000_0000 } else { m1 <= 0x8000_0000_0000_0000 - 1 }) {
                        let v1: i64 = if n1 {
                        if m1 == 0x8000_0000_0000_0000u128 {
                            i64::MIN
                        } else {
                            -((m1 as i64))
                        }
                    } else {
                        m1 as i64
                    };
                        if has_at(s, j1, sepv.as_slice()) {
                            match p_sint(s, j1 + 2) {
                                Option::None => Option::None,
                                Option::Some((n2, m2, j3, p2f)) => {
                                    if p2f && m2 <= 0xFFFF_FFFF && (!n2 || m2 == 0) {
                                        let v2: u32 = m2 as u32;
                                        if has_at(s, j3, rpv.as_slice()) {
                                            Option::Some((Value::Timestamp(v1, v2), j3 + 1))
                                        } else {
                                            Option::None
                                        }
                                    } else {
                                        Option::None
                                    }
                                },
                            }
                        } else {
                            Option::None
                        }
                    } else {
                        Option::None
                    }
                },
            }
        } else {
            Option::None
        }
    } else if b == 0x42 {
        let tv_bytea: Vec<u8> = vec![0x42, 0x79, 0x74, 0x65, 0x61, 0x28];
        proof {
            assert(tv_bytea@ =~= tag_bytea());
        }
        if has_at(s, i, tv_bytea.as_slice()) {
            match p_string(s, i + 6) {
                Option::None => Option::None,
                Option::Some((t, j)) => {
                    if has_at(s, j, rpv.as_slice()) {
                        Option::Some((Value::Bytea(t), j + 1))
                    } else {
                        Option::None
                    }
                },
            }
        } else {
            Option::None
        }
    } else if b == 0x46 {
        let tv_f32: Vec<u8> = vec![0x46, 0x33, 0x32, 0x28];
        let tv_f64: Vec<u8> = vec![0x46, 0x36, 0x34, 0x28];
        proof {
            assert(tv_f32@ =~= tag_f32());
            assert(tv_f64@ =~= tag_f64());
        }
        if has_at(s, i, tv_f32.as_slice()) {
            match p_sint(s, i + 4) {
                Option::None => Option::None,
                Option::Some((neg, mag, j, pfits)) => {
                    if pfits && mag <= 0xFFFF_FFFF && (!neg || mag == 0) {
                        let val: u32 = mag as u32;
                        if has_at(s, j, rpv.as_slice()) {
                            Option::Some((Value::F32Bits(val), j + 1))
                        } else {
                            Option::None
                        }
                    } else {
                        Option::None
                    }
                },
            }
        } else if has_at(s, i, tv_f64.as_slice()) {
            match p_sint(s, i + 4) {
                Option::None => Option::None,
                Option::Some((neg, mag, j, pfits)) => {
                    if pfits && mag <= 0xFFFF_FFFF_FFFF_FFFF && (!neg || mag == 0) {
                        let val: u64 = mag as u64;
                        if has_at(s, j, rpv.as_slice()) {
                            Option::Some((Value::F64Bits(val), j + 1))
                        } else {
                            Option::None
                        }
                    } else {
                        Option::None
                    }
                },
            }
        } else {
            Option::None
        }
    } else if b == 0x50 {
        let tv_point: Vec<u8> = vec![0x50, 0x6F, 0x69, 0x6E, 0x74, 0x28];
        proof {
            assert(tv_point@ =~= tag_point());
        }
        if has_at(s, i, tv_point.as_slice()) {
            match p_sint(s, i + 6) {
                Option::None => Option::None,
                Option::Some((n1, m1, j1, p1f)) => {
                    if p1f && m1 <= 0xFFFF_FFFF_FFFF_FFFF && (!n1 || m1 == 0) {
                        let v1: u64 = m1 as u64;
                        if has_at(s, j1, sepv.as_slice()) {
                            match p_sint(s, j1 + 2) {
                                Option::None => Option::None,
                                Option::Some((n2, m2, j3, p2f)) => {
                                    if p2f && m2 <= 0xFFFF_FFFF_FFFF_FFFF && (!n2 || m2 == 0) {
                                        let v2: u64 = m2 as u64;
                                        if has_at(s, j3, rpv.as_slice()) {
                                            Option::Some((Value::Point(v1, v2), j3 + 1))
                                        } else {
                                            Option::None
                                        }
                                    } else {
                                        Option::None
                                    }
                                },
                            }
                        } else {
                            Option::None
                        }
                    } else {
                        Option::None
                    }
                },
            }
        } else {
            Option::None
        }
    } else if b == 0x4C {
        let tv_list: Vec<u8> = vec![0x4C, 0x69, 0x73, 0x74, 0x28];
        proof {
            assert(tv_list@ =~= tag_list());
        }
        if has_at(s, i, tv_list.as_slice()) {
            match p_string(s, i + 5) {
                Option::None => Option::None,
                Option::Some((t, j)) => {
                    if has_at(s, j, rpv.as_slice()) {
                        Option::Some((Value::List(t), j + 1))
                    } else {
                        Option::None
                    }
                },
            }
        } else {
            Option::None
        }
    } else if b == 0x4D {
        let tv_dict: Vec<u8> = vec![0x4D, 0x61, 0x70, 0x28];
        proof {
            assert(tv_dict@ =~= tag_dict());
        }
        if has_at(s, i, tv_dict.as_slice()) {
            match p_string(s, i + 4) {
                Option::None => Option::None,
                Option::Some((t, j)) => {
                    if has_at(s, j, rpv.as_slice()) {
                        Option::Some((Value::Dict(t), j + 1))
                    } else {
                        Option::None
                    }
                },
            }
        } else {
            Option::None
        }
    } else {
        Option::None
    }
}

/// Reads a nonempty `, `-separated list of values.
#[verifier::rlimit(100)]
fn p_values(s: &[u8], start: usize) -> (r: Option<(Vec<Value>, usize)>)
    requires
        start <= s@.len(),
    ensures
        match r {
            Option::Some((vs, j)) => {
                &&& parse_values(s@, start as int) is Some
                &&& parse_values(s@, start as int)->Some_0.0 == value_views(vs@)
                &&& parse_values(s@, start as int)->Some_0.1 == j as int
                &&& start <= j <= s@.len()
            },
            Option::None => parse_values(s@, start as int) is None,
        },
{
    let slen: usize = s.len();
    assert(s@.len() == slen);
    let mut acc: Vec<Value> = Vec::new();
    let mut j = start;
    let sepv: Vec<u8> = vec![0x2C, 0x20];
    proof {
        assert(sepv@ =~= sep_lit());
    }
    loop
        invariant
            start <= j <= s@.len() <= usize::MAX,
            sepv@ == sep_lit(),
            parse_values(s@, start as int) is Some <==> parse_values(s@, j as int) is Some,
            parse_values(s@, j as int) is Some ==> {
                &&& parse_values(s@, start as int)->Some_0.0 == value_views(acc@) + parse_values(
                    s@,
                    j as int,
                )->Some_0.0
                &&& parse_values(s@, start as int)->Some_0.1 == parse_values(
                    s@,
                    j as int,
                )->Some_0.1
            },
        decreases s@.len() - j,
    {
        match p_value(s, j) {
            Option::None => {
                return Option::None;
            },
            Option::Some((v, j1)) => {
                if has_at(s, j1, sepv.as_slice()) {
                    proof {
                        if parse_values(s@, j1 + 2) is Some {
                            let tl = parse_values(s@, j1 + 2)->Some_0.0;
                            assert(parse_values(s@, j as int)->Some_0.0 == seq![v@] + tl);
                            assert(value_views(acc@) + (seq![v@] + tl) =~= value_views(
                                acc@.push(v),
                            ) + tl) by {
                                assert(value_views(acc@.push(v)) =~= value_views(acc@) + seq![
                                    v@,
                                ]);
                            }
                        }
                    }
                    acc.push(v);
                    j = j1 + 2;
                } else {
                    proof {
                        assert(parse_values(s@, j as int)->Some_0.0 == seq![v@]);
                        assert(value_views(acc@) + seq![v@] =~= value_views(acc@.push(v)));
                    }
                    acc.push(v);
                    return Option::Some((acc, j1));
                }
            },
        }
    }
}

/// Reads one named field.
#[verifier::rlimit(100)]
fn p_field(s: &[u8], i: usize) -> (r: Option<(Field, usize)>)
    requires
        i <= s@.len(),
    ensures
        match r {
            Option::Some((f, j)) => {
                &&& parse_field(s@, i as int) is Some
                &&& parse_field(s@, i as int)->Some_0.0 == f@
                &&& parse_field(s@, i as int)->Some_0.1 == j as int
                &&& i < j <= s@.len()
            },
            Option::None => parse_field(s@, i as int) is None,
        },
{
    let slen: usize = s.len();
    assert(s@.len() == slen);
    let colonv: Vec<u8> = vec![0x3A, 0x20];
    proof {
        assert(colonv@ =~= colon_lit());
    }
    match p_string(s, i) {
        Option::None => Option::None,
        Option::Some((n, j)) => {
            if has_at(s, j, colonv.as_slice()) {
                match p_value(s, j + 2) {
                    Option::None => Option::None,
                    Option::Some((v, k)) => Option::Some((Field { name: n, value: v }, k)),
                }
            } else {
                Option::None
            }
        },
    }
}

/// Reads a nonempty `, `-separated list of named fields.
#[verifier::rlimit(100)]
fn p_fields(s: &[u8], start: usize) -> (r: Option<(Vec<Field>, usize)>)
    requires
        start <= s@.len(),
    ensures
        match r {
            Option::Some((fs, j)) => {
                &&& parse_fields(s@, start as int) is Some
                &&& parse_fields(s@, start as int)->Some_0.0 == field_views(fs@)
                &&& parse_fields(s@, start as int)->Some_0.1 == j as int
                &&& start <= j <= s@.len()
            },
            Option::None => parse_fields(s@, start as int) is None,
        },
{
    let slen: usize = s.len();
    assert(s@.len() == slen);
    let mut acc: Vec<Field> = Vec::new();
    let mut j = start;
    let sepv: Vec<u8> = vec![0x2C, 0x20];
    proof {
        assert(sepv@ =~= sep_lit());
    }
    loop
        invariant
            start <= j <= s@.len() <= usize::MAX,
            sepv@ == sep_lit(),
            parse_fields(s@, start as int) is Some <==> parse_fields(s@, j as int) is Some,
            parse_fields(s@, j as int) is Some ==> {
                &&& parse_fields(s@, start as int)->Some_0.0 == field_views(acc@) + parse_fields(
                    s@,
                    j as int,
                )->Some_0.0
                &&& parse_fields(s@, start as int)->Some_0.1 == parse_fields(
                    s@,
                    j as int,
                )->Some_0.1
            },
        decreases s@.len() - j,
    {
        match p_field(s, j) {
            Option::None => {
                return Option::None;
            },
            Option::Some((f, j1)) => {
                if has_at(s, j1, sepv.as_slice()) {
                    proof {
                        if parse_fields(s@, j1 + 2) is Some {
                            let tl = parse_fields(s@, j1 + 2)->Some_0.0;
                            assert(parse_fields(s@, j as int)->Some_0.0 == seq![f@] + tl);
                            assert(field_views(acc@) + (seq![f@] + tl) =~= field_views(
                                acc@.push(f),
                            ) + tl) by {
                                assert(field_views(acc@.push(f)) =~= field_views(acc@) + seq![
                                    f@,
                                ]);
                            }
                        }
                    }
                    acc.push(f);
                    j = j1 + 2;
                } else {
                    proof {
                        assert(parse_fields(s@, j as int)->Some_0.0 == seq![f@]);
                        assert(field_views(acc@) + seq![f@] =~= field_views(acc@.push(f)));
                    }
                    acc.push(f);
                    return Option::Some((acc, j1));
                }
            },
        }
    }
}

/// Reads a row.
fn p_row(s: &[u8], i: usize) -> (r: Option<(Row, usize)>)
    requires
        i <= s@.len(),
    ensures
        match r {
            Option::Some((row, j)) => {
                &&& parse_row_at(s@, i as int) is Some
                &&& parse_row_at(s@, i as int)->Some_0.0 == row@
                &&& parse_row_at(s@, i as int)->Some_0.1 == j as int
                &&& i < j <= s@.len()
            },
            Option::None => parse_row_at(s@, i as int) is None,
        },
{
    if i >= s.len() {
        return Option::None;
    }
    let close_sq: Vec<u8> = vec![0x5D];
    let close_br: Vec<u8> = vec![0x7D];
    proof {
        assert(close_sq@ =~= seq![0x5Du8]);
        assert(close_br@ =~= seq![0x7Du8]);
    }
    let b = s[i];
    if b == 0x5B {
        if has_at(s, i + 1, close_sq.as_slice()) {
            let empty_row = Row::Values(Vec::new());
            proof {
                assert(value_views(Seq::<Value>::empty()) =~= Seq::<
                    crate::value::ValueV,
                >::empty());
            }
            return Option::Some((empty_row, i + 2));
        }
        match p_values(s, i + 1) {
            Option::None => Option::None,
            Option::Some((vs, j)) => {
                if has_at(s, j, close_sq.as_slice()) {
                    Option::Some((Row::Values(vs), j + 1))
                } else {
                    Option::None
                }
            },
        }
    } else if b == 0x7B {
        if has_at(s, i + 1, close_br.as_slice()) {
            let empty_row = Row::Fields(Vec::new());
            proof {
                assert(field_views(Seq::<Field>::empty()) =~= Seq::<
                    crate::value::FieldV,
                >::empty());
            }
            return Option::Some((empty_row, i + 2));
        }
        match p_fields(s, i + 1) {
            Option::None => Option::None,
            Option::Some((fs, j)) => {
                if has_at(s, j, close_br.as_slice()) {
                    Option::Some((Row::Fields(fs), j + 1))
                } else {
                    Option::None
                }
            },
        }
    } else {
        Option::None
    }
}

/// Reads a signed decimal numeral: the sign, the magnitude when it
/// fits the widest machine integer, and the end position.
fn p_sint(s: &[u8], i: usize) -> (r: Option<(bool, u128, usize, bool)>)
    requires
        i <= s@.len(),
    ensures
        match r {
            Option::Some((neg, mag, j, fits)) => {
                &&& parse_sint(s@, i as int) is Some
                &&& parse_sint(s@, i as int)->Some_0.0 == neg
                &&& parse_sint(s@, i as int)->Some_0.2 == j as int
                &&& (fits ==> parse_sint(s@, i as int)->Some_0.1 == mag as nat)
                &&& (!fits ==> parse_sint(s@, i as int)->Some_0.1 > u128::MAX)
                &&& i < j <= s@.len()
            },
            Option::None => parse_sint(s@, i as int) is None,
        },
{
    if i >= s.len() {
        return Option::None;
    }
    let neg = s[i] == 0x2D;
    let j0 = if neg {
        i + 1
    } else {
        i
    };
    let j1 = p_digit_run(s, j0);
    if j1 == j0 {
        return Option::None;
    }
    let ghost ds = s@.subrange(j0 as int, j1 as int);
    let mut k = j0;
    let mut acc: u128 = 0;
    let mut fits = true;
    while k < j1
        invariant
            i < s@.len(),
            neg == (s@[i as int] == 0x2D),
            j0 == if neg {
                i + 1
            } else {
                i as int
            },
            j0 <= k <= j1 <= s@.len(),
            j0 < j1,
            j1 == digit_run_end(s@, j0 as int),
            ds == s@.subrange(j0 as int, j1 as int),
            all_digits(ds),
            fits ==> acc == dec_val(ds.take(k - j0)),
            !fits ==> dec_val(ds.take(k - j0)) > u128::MAX,
        decreases j1 - k,
    {
        let b = s[k];
        proof {
            assert(ds[k - j0] == s@[k as int]);
            assert(is_digit(ds[k - j0]));
        }
        let d = (b - 0x30) as u128;
        proof {
            let t = ds.take(k - j0 + 1);
            assert(t.drop_last() =~= ds.take(k - j0));
            assert(t.last() == b);
            assert(dec_val(t) == dec_val(ds.take(k - j0)) * 10 + d);
        }
        if fits {
            if acc > (u128::MAX - d) / 10 {
                proof {
                    assert(acc * 10 + d > u128::MAX) by (nonlinear_arith)
                        requires
                            acc > (u128::MAX - d) / 10,
                            d <= 9,
                            acc <= u128::MAX,
                    ;
                }
                fits = false;
            } else {
                proof {
                    assert(acc * 10 + d <= u128::MAX) by (nonlinear_arith)
                        requires
                            acc <= (u128::MAX - d) / 10,
                            d <= 9,
                    ;
                }
                acc = acc * 10 + d;
            }
        } else {
            proof {
                assert(dec_val(ds.take(k - j0)) * 10 + d > u128::MAX) by (nonlinear_arith)
                    requires
                        dec_val(ds.take(k - j0)) > u128::MAX,
                        d >= 0,
                ;
            }
        }
        k += 1;
    }
    proof {
        assert(ds.take(j1 - j0) =~= ds);
    }
    Option::Some((neg, acc, j1, fits))
}

/// Reads a truth value.
fn p_bool(s: &[u8], i: usize) -> (r: Option<(bool, usize)>)
    requires
        i <= s@.len(),
    ensures
        match r {
            Option::Some((b, j)) => {
                &&& parse_bool(s@, i as int) == Option::Some((b, j as int))
                &&& i < j <= s@.len()
            },
            Option::None => parse_bool(s@, i as int) is None,
        },
{
    let slen: usize = s.len();
    assert(s@.len() == slen);
    let tl: Vec<u8> = vec![0x74, 0x72, 0x75, 0x65];
    let fl: Vec<u8> = vec![0x66, 0x61, 0x6C, 0x73, 0x65];
    proof {
        assert(tl@ =~= true_lit());
        assert(fl@ =~= false_lit());
    }
    if has_at(s, i, tl.as_slice()) {
        Option::Some((true, i + 4))
    } else if has_at(s, i, fl.as_slice()) {
        Option::Some((false, i + 5))
    } else {
        Option::None
    }
}

/// Reads optional opaque text: `null`, or a quoted string.
fn p_opt_text(s: &[u8], i: usize) -> (r: Option<(Option<Vec<u8>>, usize)>)
    requires
        i <= s@.len(),
    ensures
        match r {
            Option::Some((t, j)) => {
                &&& parse_opt_text(s@, i as int) is Some
                &&& parse_opt_text(s@, i as int)->Some_0.0 == crate::value::opt_text_view(t)
                &&& parse_opt_text(s@, i as int)->Some_0.1 == j as int
                &&& i < j <= s@.len()
            },
            Option::None => parse_opt_text(s@, i as int) is None,
        },
{
    let slen: usize = s.len();
    assert(s@.len() == slen);
    let nl: Vec<u8> = vec![0x6E, 0x75, 0x6C, 0x6C];
    proof {
        assert(nl@ =~= null_lit());
    }
    if has_at(s, i, nl.as_slice()) {
        return Option::Some((Option::None, i + 4));
    }
    match p_string(s, i) {
        Option::None => Option::None,
        Option::Some((t, j)) => Option::Some((Option::Some(t), j)),
    }
}

/// Reads a column type: a quoted name that must be a known tag.
fn p_dtype(s: &[u8], i: usize) -> (r: Option<(DataType, usize)>)
    requires
        i <= s@.len(),
    ensures
        match r {
            Option::Some((d, j)) => {
                &&& parse_dtype(s@, i as int) == Option::Some((d, j as int))
                &&& i < j <= s@.len()
            },
            Option::None => parse_dtype(s@, i as int) is None,
        },
{
    match p_string(s, i) {
        Option::None => Option::None,
        Option::Some((t, j)) => {
            let n_boolean: Vec<u8> = vec![0x42, 0x6F, 0x6F, 0x6C, 0x65, 0x61, 0x6E];
            let n_int8: Vec<u8> = vec![0x49, 0x6E, 0x74, 0x38];
            let n_int16: Vec<u8> = vec![0x49, 0x6E, 0x74, 0x31, 0x36];
            let n_int32: Vec<u8> = vec![0x49, 0x6E, 0x74, 0x33, 0x32];
            let n_int: Vec<u8> = vec![0x49, 0x6E, 0x74];
            let n_int128: Vec<u8> = vec![0x49, 0x6E, 0x74, 0x31, 0x32, 0x38];
            let n_uint8: Vec<u8> = vec![0x55, 0x69, 0x6E, 0x74, 0x38];
            let n_uint16: Vec<u8> = vec![0x55, 0x69, 0x6E, 0x74, 0x31, 0x36];
            let n_uint32: Vec<u8> = vec![0x55, 0x69, 0x6E, 0x74, 0x33, 0x32];
            let n_uint64: Vec<u8> = vec![0x55, 0x69, 0x6E, 0x74, 0x36, 0x34];
            let n_uint128: Vec<u8> = vec![0x55, 0x69, 0x6E, 0x74, 0x31, 0x32, 0x38];
            let n_float32: Vec<u8> = vec![0x46, 0x6C, 0x6F, 0x61, 0x74, 0x33, 0x32];
            let n_float: Vec<u8> = vec![0x46, 0x6C, 0x6F, 0x61, 0x74];
            let n_text: Vec<u8> = vec![0x54, 0x65, 0x78, 0x74];
            let n_bytea: Vec<u8> = vec![0x42, 0x79, 0x74, 0x65, 0x61];
            let n_inet: Vec<u8> = vec![0x49, 0x6E, 0x65, 0x74];
            let n_date: Vec<u8> = vec![0x44, 0x61, 0x74, 0x65];
            let n_timestamp: Vec<u8> = vec![0x54, 0x69, 0x6D, 0x65, 0x73, 0x74, 0x61, 0x6D, 0x70];
            let n_time: Vec<u8> = vec![0x54, 0x69, 0x6D, 0x65];
            let n_interval: Vec<u8> = vec![0x49, 0x6E, 0x74, 0x65, 0x72, 0x76, 0x61, 0x6C];
            let n_uuid: Vec<u8> = vec![0x55, 0x75, 0x69, 0x64];
            let n_dict: Vec<u8> = vec![0x4D, 0x61, 0x70];
            let n_list: Vec<u8> = vec![0x4C, 0x69, 0x73, 0x74];
            let n_decimal: Vec<u8> = vec![0x44, 0x65, 0x63, 0x69, 0x6D, 0x61, 0x6C];
            let n_point: Vec<u8> = vec![0x50, 0x6F, 0x69, 0x6E, 0x74];
            proof {
                assert(n_boolean@ =~= dtype_name(DataType::Boolean));
                assert(n_int8@ =~= dtype_name(DataType::Int8));
                assert(n_int16@ =~= dtype_name(DataType::Int16));
                assert(n_int32@ =~= dtype_name(DataType::Int32));
                assert(n_int@ =~= dtype_name(DataType::Int));
                assert(n_int128@ =~= dtype_name(DataType::Int128));
                assert(n_uint8@ =~= dtype_name(DataType::Uint8));
                assert(n_uint16@ =~= dtype_name(DataType::Uint16));
                assert(n_uint32@ =~= dtype_name(DataType::Uint32));
                assert(n_uint64@ =~= dtype_name(DataType::Uint64));
                assert(n_uint128@ =~= dtype_name(DataType::Uint128));
                assert(n_float32@ =~= dtype_name(DataType::Float32));
                assert(n_float@ =~= dtype_name(DataType::Float));
                assert(n_text@ =~= dtype_name(DataType::Text));
                assert(n_bytea@ =~= dtype_name(DataType::Bytea));
                assert(n_inet@ =~= dtype_name(DataType::Inet));
                assert(n_date@ =~= dtype_name(DataType::Date));
                assert(n_timestamp@ =~= dtype_name(DataType::Timestamp));
                assert(n_time@ =~= dtype_name(DataType::Time));
                assert(n_interval@ =~= dtype_name(DataType::Interval));
                assert(n_uuid@ =~= dtype_name(DataType::Uuid));
                assert(n_dict@ =~= dtype_name(DataType::Dict));
                assert(n_list@ =~= dtype_name(DataType::List));
                assert(n_decimal@ =~= dtype_name(DataType::Decimal));
                assert(n_point@ =~= dtype_name(DataType::Point));
            }
            if bytes_eq(t.as_slice(), n_boolean.as_slice()) {
                Option::Some((DataType::Boolean, j))
            } else if bytes_eq(t.as_slice(), n_int8.as_slice()) {
                Option::Some((DataType::Int8, j))
            } else if bytes_eq(t.as_slice(), n_int16.as_slice()) {
                Option::Some((DataType::Int16, j))
            } else if bytes_eq(t.as_slice(), n_int32.as_slice()) {
                Option::Some((DataType::Int32, j))
            } else if bytes_eq(t.as_slice(), n_int.as_slice()) {
                Option::Some((DataType::Int, j))
            } else if bytes_eq(t.as_slice(), n_int128.as_slice()) {
                Option::Some((DataType::Int128, j))
            } else if bytes_eq(t.as_slice(), n_uint8.as_slice()) {
                Option::Some((DataType::Uint8, j))
            } else if bytes_eq(t.as_slice(), n_uint16.as_slice()) {
                Option::Some((DataType::Uint16, j))
            } else if bytes_eq(t.as_slice(), n_uint32.as_slice()) {
                Option::Some((DataType::Uint32, j))
            } else if bytes_eq(t.as_slice(), n_uint64.as_slice()) {
                Option::Some((DataType::Uint64, j))
            } else if bytes_eq(t.as_slice(), n_uint128.as_slice()) {
                Option::Some((DataType::Uint128, j))
            } else if bytes_eq(t.as_slice(), n_float32.as_slice()) {
                Option::Some((DataType::Float32, j))
            } else if bytes_eq(t.as_slice(), n_float.as_slice()) {
                Option::Some((DataType::Float, j))
            } else if bytes_eq(t.as_slice(), n_text.as_slice()) {
                Option::Some((DataType::Text, j))
            } else if bytes_eq(t.as_slice(), n_bytea.as_slice()) {
                Option::Some((DataType::Bytea, j))
            } else if bytes_eq(t.as_slice(), n_inet.as_slice()) {
                Option::Some((DataType::Inet, j))
            } else if bytes_eq(t.as_slice(), n_date.as_slice()) {
                Option::Some((DataType::Date, j))
            } else if bytes_eq(t.as_slice(), n_timestamp.as_slice()) {
                Option::Some((DataType::Timestamp, j))
            } else if bytes_eq(t.as_slice(), n_time.as_slice()) {
                Option::Some((DataType::Time, j))
            } else if bytes_eq(t.as_slice(), n_interval.as_slice()) {
                Option::Some((DataType::Interval, j))
            } else if bytes_eq(t.as_slice(), n_uuid.as_slice()) {
                Option::Some((DataType::Uuid, j))
            } else if bytes_eq(t.as_slice(), n_dict.as_slice()) {
                Option::Some((DataType::Dict, j))
            } else if bytes_eq(t.as_slice(), n_list.as_slice()) {
                Option::Some((DataType::List, j))
            } else if bytes_eq(t.as_slice(), n_decimal.as_slice()) {
                Option::Some((DataType::Decimal, j))
            } else if bytes_eq(t.as_slice(), n_point.as_slice()) {
                Option::Some((DataType::Point, j))
            } else {
                Option::None
            }
        },
    }
}

/// Reads a uniqueness constraint name.
fn p_unique(s: &[u8], i: usize) -> (r: Option<(ColumnUnique, usize)>)
    requires
        i <= s@.len(),
    ensures
        match r {
            Option::Some((u, j)) => {
                &&& parse_unique(s@, i as int) == Option::Some((u, j as int))
                &&& i < j <= s@.len()
            },
            Option::None => parse_unique(s@, i as int) is None,
        },
{
    let slen: usize = s.len();
    assert(s@.len() == slen);
    let plain_l: Vec<u8> = vec![0x22, 0x70, 0x6C, 0x61, 0x69, 0x6E, 0x22];
    let unique_l: Vec<u8> = vec![0x22, 0x75, 0x6E, 0x69, 0x71, 0x75, 0x65, 0x22];
    let primary_l: Vec<u8> = vec![0x22, 0x70, 0x72, 0x69, 0x6D, 0x61, 0x72, 0x79, 0x22];
    proof {
        assert(plain_l@ =~= ser_unique(ColumnUnique::Plain));
        assert(unique_l@ =~= ser_unique(ColumnUnique::Unique));
        assert(primary_l@ =~= ser_unique(ColumnUnique::Primary));
    }
    if has_at(s, i, plain_l.as_slice()) {
        Option::Some((ColumnUnique::Plain, i + 7))
    } else if has_at(s, i, unique_l.as_slice()) {
        Option::Some((ColumnUnique::Unique, i + 8))
    } else if has_at(s, i, primary_l.as_slice()) {
        Option::Some((ColumnUnique::Primary, i + 9))
    } else {
        Option::None
    }
}

/// Reads one column definition record.
#[verifier::rlimit(60)]
fn p_coldef(s: &[u8], i: usize) -> (r: Option<(ColumnDef, usize)>)
    requires
        i <= s@.len(),
    ensures
        match r {
            Option::Some((c, j)) => {
                &&& parse_coldef(s@, i as int) is Some
                &&& parse_coldef(s@, i as int)->Some_0.0 == c@
                &&& parse_coldef(s@, i as int)->Some_0.1 == j as int
                &&& i < j <= s@.len()
            },
            Option::None => parse_coldef(s@, i as int) is None,
        },
{
    proof {
        reveal(parse_coldef);
    }
    let slen: usize = s.len();
    assert(s@.len() == slen);
    let name_h: Vec<u8> = vec![0x7B, 0x22, 0x6E, 0x61, 0x6D, 0x65, 0x22, 0x3A, 0x20];
    let type_h: Vec<u8> = vec![0x2C, 0x20, 0x22, 0x64, 0x61, 0x74, 0x61, 0x5F, 0x74, 0x79, 0x70, 0x65, 0x22, 0x3A, 0x20];
    let null_h: Vec<u8> = vec![0x2C, 0x20, 0x22, 0x6E, 0x75, 0x6C, 0x6C, 0x61, 0x62, 0x6C, 0x65, 0x22, 0x3A, 0x20];
    let dflt_h: Vec<u8> = vec![0x2C, 0x20, 0x22, 0x64, 0x65, 0x66, 0x61, 0x75, 0x6C, 0x74, 0x22, 0x3A, 0x20];
    let cmt_h: Vec<u8> = vec![0x2C, 0x20, 0x22, 0x63, 0x6F, 0x6D, 0x6D, 0x65, 0x6E, 0x74, 0x22, 0x3A, 0x20];
    let uniq_h: Vec<u8> = vec![0x2C, 0x20, 0x22, 0x75, 0x6E, 0x69, 0x71, 0x75, 0x65, 0x22, 0x3A, 0x20];
    let close_br: Vec<u8> = vec![0x7D];
    proof {
        assert(name_h@ =~= name_hdr());
        assert(type_h@ =~= type_hdr());
        assert(null_h@ =~= null_hdr());
        assert(dflt_h@ =~= dflt_hdr());
        assert(cmt_h@ =~= cmt_hdr());
        assert(uniq_h@ =~= uniq_hdr());
        assert(close_br@ =~= seq![0x7Du8]);
    }
    if !has_at(s, i, name_h.as_slice()) {
        return Option::None;
    }
    let j0 = i + 9;
    let (n, j1) = match p_string(s, j0) {
        Option::None => {
            return Option::None;
        },
        Option::Some(x) => x,
    };
    if !has_at(s, j1, type_h.as_slice()) {
        return Option::None;
    }
    let j2 = j1 + 15;
    let (d, j3) = match p_dtype(s, j2) {
        Option::None => {
            return Option::None;
        },
        Option::Some(x) => x,
    };
    if !has_at(s, j3, null_h.as_slice()) {
        return Option::None;
    }
    let j4 = j3 + 14;
    let (nl, j5) = match p_bool(s, j4) {
        Option::None => {
            return Option::None;
        },
        Option::Some(x) => x,
    };
    if !has_at(s, j5, dflt_h.as_slice()) {
        return Option::None;
    }
    let j6 = j5 + 13;
    let (df, j7) = match p_opt_text(s, j6) {
        Option::None => {
            return Option::None;
        },
        Option::Some(x) => x,
    };
    if !has_at(s, j7, cmt_h.as_slice()) {
        return Option::None;
    }
    let j8 = j7 + 13;
    let (cm, j9) = match p_opt_text(s, j8) {
        Option::None => {
            return Option::None;
        },
        Option::Some(x) => x,
    };
    if !has_at(s, j9, uniq_h.as_slice()) {
        return Option::None;
    }
    let j10 = j9 + 12;
    let (u, j11) = match p_unique(s, j10) {
        Option::None => {
            return Option::None;
        },
        Option::Some(x) => x,
    };
    if !has_at(s, j11, close_br.as_slice()) {
        return Option::None;
    }
    let col = ColumnDef { name: n, data_type: d, nullable: nl, default: df, comment: cm, unique: u };
    Option::Some((col, j11 + 1))
}

/// Reads a nonempty `, `-separated list of column definitions.
#[verifier::rlimit(100)]
fn p_coldef_list(s: &[u8], start: usize) -> (r: Option<(Vec<ColumnDef>, usize)>)
    requires
        start <= s@.len(),
    ensures
        match r {
            Option::Some((cs, j)) => {
                &&& parse_coldef_list(s@, start as int) is Some
                &&& parse_coldef_list(s@, start as int)->Some_0.0 == crate::value::col_views(cs@)
                &&& parse_coldef_list(s@, start as int)->Some_0.1 == j as int
                &&& start <= j <= s@.len()
            },
            Option::None => parse_coldef_list(s@, start as int) is None,
        },
{
    let slen: usize = s.len();
    assert(s@.len() == slen);
    let mut acc: Vec<ColumnDef> = Vec::new();
    let mut j = start;
    let sepv: Vec<u8> = vec![0x2C, 0x20];
    proof {
        assert(sepv@ =~= sep_lit());
    }
    loop
        invariant
            start <= j <= s@.len() <= usize::MAX,
            sepv@ == sep_lit(),
            parse_coldef_list(s@, start as int) is Some <==> parse_coldef_list(
                s@,
                j as int,
            ) is Some,
            parse_coldef_list(s@, j as int) is Some ==> {
                &&& parse_coldef_list(s@, start as int)->Some_0.0 == crate::value::col_views(acc@)
                    + parse_coldef_list(s@, j as int)->Some_0.0
                &&& parse_coldef_list(s@, start as int)->Some_0.1 == parse_coldef_list(
                    s@,
                    j as int,
                )->Some_0.1
            },
        decreases s@.len() - j,
    {
        match p_coldef(s, j) {
            Option::None => {
                return Option::None;
            },
            Option::Some((c, j1)) => {
                if has_at(s, j1, sepv.as_slice()) {
                    proof {
                        if parse_coldef_list(s@, j1 + 2) is Some {
                            let tl = parse_coldef_list(s@, j1 + 2)->Some_0.0;
                            assert(parse_coldef_list(s@, j as int)->Some_0.0 == seq![c@] + tl);
                            assert(crate::value::col_views(acc@) + (seq![c@] + tl)
                                =~= crate::value::col_views(acc@.push(c)) + tl) by {
                                assert(crate::value::col_views(acc@.push(c))
                                    =~= crate::value::col_views(acc@) + seq![c@]);
                            }
                        }
                    }
                    acc.push(c);
                    j = j1 + 2;
                } else {
                    proof {
                        assert(parse_coldef_list(s@, j as int)->Some_0.0 == seq![c@]);
                        assert(crate::value::col_views(acc@) + seq![c@] =~= crate::value::col_views(
                            acc@.push(c),
                        ));
                    }
                    acc.push(c);
                    return Option::Some((acc, j1));
                }
            },
        }
    }
}

/// Reads the column definitions: `null` or `[..]`.
fn p_coldefs(s: &[u8], i: usize) -> (r: Option<(Option<Vec<ColumnDef>>, usize)>)
    requires
        i <= s@.len(),
    ensures
        match r {
            Option::Some((cs, j)) => {
                &&& parse_coldefs(s@, i as int) is Some
                &&& parse_coldefs(s@, i as int)->Some_0.0 == match cs {
                    Option::None => Option::<Seq<crate::value::ColumnDefV>>::None,
                    Option::Some(cl) => Option::Some(crate::value::col_views(cl@)),
                }
                &&& parse_coldefs(s@, i as int)->Some_0.1 == j as int
                &&& i < j <= s@.len()
            },
            Option::None => parse_coldefs(s@, i as int) is None,
        },
{
    let slen: usize = s.len();
    assert(s@.len() == slen);
    let null_l: Vec<u8> = vec![0x6E, 0x75, 0x6C, 0x6C];
    let close_sq: Vec<u8> = vec![0x5D];
    proof {
        assert(null_l@ =~= null_lit());
        assert(close_sq@ =~= seq![0x5Du8]);
    }
    if has_at(s, i, null_l.as_slice()) {
        return Option::Some((Option::None, i + 4));
    }
    if i < s.len() && s[i] == 0x5B {
        if has_at(s, i + 1, close_sq.as_slice()) {
            let empty_cols: Vec<ColumnDef> = Vec::new();
            proof {
                assert(crate::value::col_views(Seq::<ColumnDef>::empty()) =~= Seq::<
                    crate::value::ColumnDefV,
                >::empty());
            }
            return Option::Some((Option::Some(empty_cols), i + 2));
        }
        match p_coldef_list(s, i + 1) {
            Option::None => Option::None,
            Option::Some((cs, j)) => {
                if has_at(s, j, close_sq.as_slice()) {
                    Option::Some((Option::Some(cs), j + 1))
                } else {
                    Option::None
                }
            },
        }
    } else {
        Option::None
    }
}

/// Reads a schema record.
#[verifier::rlimit(60)]
fn p_schema(s: &[u8], i: usize) -> (r: Option<(Schema, usize)>)
    requires
        i <= s@.len(),
    ensures
        match r {
            Option::Some((v, j)) => {
                &&& parse_schema_at(s@, i as int) is Some
                &&& parse_schema_at(s@, i as int)->Some_0.0 == v@
                &&& parse_schema_at(s@, i as int)->Some_0.1 == j as int
                &&& i < j <= s@.len()
            },
            Option::None => parse_schema_at(s@, i as int) is None,
        },
{
    let slen: usize = s.len();
    assert(s@.len() == slen);
    let table_h: Vec<u8> = vec![0x7B, 0x22, 0x74, 0x61, 0x62, 0x6C, 0x65, 0x5F, 0x6E, 0x61, 0x6D, 0x65, 0x22, 0x3A, 0x20];
    let cols_h: Vec<u8> = vec![0x2C, 0x20, 0x22, 0x63, 0x6F, 0x6C, 0x75, 0x6D, 0x6E, 0x5F, 0x64, 0x65, 0x66, 0x73, 0x22, 0x3A, 0x20];
    let idx_h: Vec<u8> = vec![0x2C, 0x20, 0x22, 0x69, 0x6E, 0x64, 0x65, 0x78, 0x65, 0x73, 0x22, 0x3A, 0x20];
    let eng_h: Vec<u8> = vec![0x2C, 0x20, 0x22, 0x65, 0x6E, 0x67, 0x69, 0x6E, 0x65, 0x22, 0x3A, 0x20];
    let fk_h: Vec<u8> = vec![0x2C, 0x20, 0x22, 0x66, 0x6F, 0x72, 0x65, 0x69, 0x67, 0x6E, 0x5F, 0x6B, 0x65, 0x79, 0x73, 0x22, 0x3A, 0x20];
    let cmt_h: Vec<u8> = vec![0x2C, 0x20, 0x22, 0x63, 0x6F, 0x6D, 0x6D, 0x65, 0x6E, 0x74, 0x22, 0x3A, 0x20];
    let close_br: Vec<u8> = vec![0x7D];
    proof {
        assert(table_h@ =~= table_hdr());
        assert(cols_h@ =~= cols_hdr());
        assert(idx_h@ =~= idx_hdr());
        assert(eng_h@ =~= eng_hdr());
        assert(fk_h@ =~= fk_hdr());
        assert(cmt_h@ =~= cmt_hdr());
        assert(close_br@ =~= seq![0x7Du8]);
    }
    if !has_at(s, i, table_h.as_slice()) {
        return Option::None;
    }
    let j0 = i + 15;
    let (n, j1) = match p_string(s, j0) {
        Option::None => {
            return Option::None;
        },
        Option::Some(x) => x,
    };
    if !has_at(s, j1, cols_h.as_slice()) {
        return Option::None;
    }
    let j2 = j1 + 17;
    let (cs, j3) = match p_coldefs(s, j2) {
        Option::None => {
            return Option::None;
        },
        Option::Some(x) => x,
    };
    if !has_at(s, j3, idx_h.as_slice()) {
        return Option::None;
    }
    let j4 = j3 + 13;
    let (ix, j5) = match p_opt_text(s, j4) {
        Option::None => {
            return Option::None;
        },
        Option::Some(x) => x,
    };
    if !has_at(s, j5, eng_h.as_slice()) {
        return Option::None;
    }
    let j6 = j5 + 12;
    let (en, j7) = match p_opt_text(s, j6) {
        Option::None => {
            return Option::None;
        },
        Option::Some(x) => x,
    };
    if !has_at(s, j7, fk_h.as_slice()) {
        return Option::None;
    }
    let j8 = j7 + 18;
    let (fk, j9) = match p_opt_text(s, j8) {
        Option::None => {
            return Option::None;
        },
        Option::Some(x) => x,
    };
    if !has_at(s, j9, cmt_h.as_slice()) {
        return Option::None;
    }
    let j10 = j9 + 13;
    let (cm, j11) = match p_opt_text(s, j10) {
        Option::None => {
            return Option::None;
        },
        Option::Some(x) => x,
    };
    if !has_at(s, j11, close_br.as_slice()) {
        return Option::None;
    }
    let sc = Schema {
        table_name: n,
        column_defs: cs,
        indexes: ix,
        engine: en,
        foreign_keys: fk,
        comment: cm,
    };
    Option::Some((sc, j11 + 1))
}

impl Row {
    /// Reads a row back from stored message content; fails with a
    /// decode error on anything the codec did not write.
    pub fn from_codeblock(text: &[u8]) -> (r: Result<Row, StorageError>)
        ensures
            match r {
                Result::Ok(row) => dec_row(strip_fence(text@)) == Option::Some(row@),
                Result::Err(e) => {
                    &&& dec_row(strip_fence(text@)) is None
                    &&& e == StorageError::Decode
                },
            },
    {
        let (lo, hi) = strip_bounds(text);
        let sub = vstd::slice::slice_subrange(text, lo, hi);
        match p_row(sub, 0) {
            Option::Some((row, j)) => {
                if j == sub.len() {
                    Result::Ok(row)
                } else {
                    Result::Err(StorageError::Decode)
                }
            },
            Option::None => Result::Err(StorageError::Decode),
        }
    }
}

impl Schema {
    /// Reads a schema back from stored pin content; fails with a
    /// decode error on anything the codec did not write.
    pub fn from_codeblock(text: &[u8]) -> (r: Result<Schema, StorageError>)
        ensures
            match r {
                Result::Ok(v) => dec_schema(strip_fence(text@)) == Option::Some(v@),
                Result::Err(e) => {
                    &&& dec_schema(strip_fence(text@)) is None
                    &&& e == StorageError::Decode
                },
            },
    {
        let (lo, hi) = strip_bounds(text);
        let sub = vstd::slice::slice_subrange(text, lo, hi);
        match p_schema(sub, 0) {
            Option::Some((v, j)) => {
                if j == sub.len() {
                    Result::Ok(v)
                } else {
                    Result::Err(StorageError::Decode)
                }
            },
            Option::None => Result::Err(StorageError::Decode),
        }
    }
}

} // verus!
