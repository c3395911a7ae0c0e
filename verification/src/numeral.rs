//! Decimal numerals: the textual form of message identifiers.
//!
//! A row key is the platform-assigned message identifier written in
//! decimal. Rendering always produces the canonical form (no sign, no
//! leading zero); parsing accepts any all-digit string whose value fits
//! the identifier type.

use vstd::prelude::*;

verus! {

/// Whether `b` is an ASCII decimal digit.
pub open spec fn is_digit(b: u8) -> bool {
    0x30 <= b <= 0x39
}

/// Whether every byte of `s` is an ASCII decimal digit.
pub open spec fn all_digits(s: Seq<u8>) -> bool {
    forall|i: int| 0 <= i < s.len() ==> is_digit(#[trigger] s[i])
}

/// The canonical decimal numeral of `n`: most significant digit first,
/// no leading zero.
pub open spec fn dec_digits(n: nat) -> Seq<u8>
    decreases n,
{
    if n < 10 {
        seq![(0x30 + n) as u8]
    } else {
        dec_digits(n / 10).push((0x30 + n % 10) as u8)
    }
}

/// The value of an all-digit string, most significant digit first.
pub open spec fn dec_val(s: Seq<u8>) -> nat
    decreases s.len(),
{
    if s.len() == 0 {
        0
    } else {
        dec_val(s.drop_last()) * 10 + ((s.last() - 0x30) as nat)
    }
}

/// Whether `s` is a canonical numeral: nonempty, all digits, and
/// without a leading zero unless it is exactly "0".
pub open spec fn is_canon_dec(s: Seq<u8>) -> bool {
    s.len() > 0 && all_digits(s) && (s[0] != 0x30 || s.len() == 1)
}

/// A rendered numeral is canonical and evaluates back to its value.
pub proof fn lemma_dec_digits_canon(n: nat)
    ensures
        is_canon_dec(dec_digits(n)),
        dec_val(dec_digits(n)) == n,
        dec_digits(n).len() >= 1,
        n >= 10 ==> dec_digits(n).len() >= 2,
    decreases n,
{
    if n < 10 {
        let s0 = seq![(0x30 + n) as u8];
        assert(dec_digits(n) == s0);
        assert(s0.drop_last() =~= Seq::<u8>::empty());
        assert(dec_val(s0) == dec_val(s0.drop_last()) * 10 + ((s0.last() - 0x30) as nat));
        assert(dec_val(Seq::<u8>::empty()) == 0);
        assert(s0.last() == (0x30 + n) as u8);
    } else {
        lemma_dec_digits_canon(n / 10);
        let p = dec_digits(n / 10);
        let w = p.push((0x30 + n % 10) as u8);
        assert(w.drop_last() =~= p);
        assert(w[0] == p[0]);
        assert(forall|i: int| 0 <= i < w.len() ==> is_digit(#[trigger] w[i])) by {
            assert(forall|i: int| 0 <= i < p.len() ==> is_digit(#[trigger] p[i]));
            assert(w.last() == (0x30 + n % 10) as u8);
            assert(forall|i: int|
                0 <= i < w.len() ==> w[i] == (if i < p.len() {
                    p[i]
                } else {
                    w.last()
                }));
        }
        assert(dec_val(w) == dec_val(p) * 10 + (n % 10));
    }
}

/// The spec-level key parser/// The spec-level key parser: the value of an all-digit string, if it
/// fits a `u64`; `None` on anything else.
pub open spec fn parse_key_spec(s: Seq<u8>) -> Option<u64> {
    if s.len() > 0 && all_digits(s) && dec_val(s) <= u64::MAX {
        Option::Some(dec_val(s) as u64)
    } else {
        Option::None
    }
}

/// A canonical rendering always parses back to the same identifier.
pub proof fn lemma_parse_key_of_dec_digits(n: u64)
    ensures
        parse_key_spec(dec_digits(n as nat)) == Option::Some(n),
{
    lemma_dec_digits_canon(n as nat);
}

/// Appends the canonical decimal numeral of `n`.
pub fn push_dec(out: &mut Vec<u8>, n: u64)
    ensures
        final(out)@ == old(out)@ + dec_digits(n as nat),
    decreases n,
{
    if n < 10 {
        out.push(0x30 + n as u8);
        assert(final(out)@ =~= old(out)@ + dec_digits(n as nat));
    } else {
        push_dec(out, n / 10);
        out.push(0x30 + (n % 10) as u8);
        assert(final(out)@ =~= old(out)@ + dec_digits(n as nat));
    }
}

/// Renders `n` as its canonical decimal numeral.
pub fn render_key(n: u64) -> (r: Vec<u8>)
    ensures
        r@ == dec_digits(n as nat),
{
    let mut out: Vec<u8> = Vec::new();
    push_dec(&mut out, n);
    assert(out@ =~= dec_digits(n as nat));
    out
}

/// Extending an all-digit string can only grow its value.
proof fn lemma_dec_val_prefix_le(s: Seq<u8>, i: int)
    requires
        0 <= i <= s.len(),
        all_digits(s),
    ensures
        dec_val(s.take(i)) <= dec_val(s),
    decreases s.len() - i,
{
    if i < s.len() {
        lemma_dec_val_prefix_le(s, i + 1);
        let t = s.take(i + 1);
        assert(t.drop_last() =~= s.take(i));
        assert(dec_val(t) == dec_val(s.take(i)) * 10 + (t.last() - 0x30));
        assert(dec_val(s.take(i)) <= dec_val(t));
    } else {
        assert(s.take(i) =~= s);
    }
}

/// Parses an all-digit string as a message identifier; `None` if the
/// string is empty, holds a non-digit, or overflows.
pub fn parse_key(s: &[u8]) -> (r: Option<u64>)
    ensures
        r == parse_key_spec(s@),
{
    if s.len() == 0 {
        return Option::None;
    }
    let mut i: usize = 0;
    let mut acc: u64 = 0;
    while i < s.len()
        invariant
            0 <= i <= s@.len(),
            all_digits(s@.take(i as int)),
            acc == dec_val(s@.take(i as int)),
            dec_val(s@.take(i as int)) <= u64::MAX,
        decreases s@.len() - i,
    {
        let b = s[i];
        if b < 0x30 || b > 0x39 {
            assert(!all_digits(s@)) by {
                assert(s@[i as int] == b);
            }
            return Option::None;
        }
        let d = (b - 0x30) as u64;
        if acc > (u64::MAX - d) / 10 {
            // The value no longer fits; it can only grow from here.
            proof {
                let t = s@.take(i as int + 1);
                assert(t.drop_last() =~= s@.take(i as int));
                assert(t.last() == b);
                assert(dec_val(t) == acc * 10 + d);
                assert(acc * 10 + d > u64::MAX) by (nonlinear_arith)
                    requires
                        acc > (u64::MAX - d) / 10,
                        d <= 9,
                        acc <= u64::MAX,
                ;
                if all_digits(s@) && dec_val(s@) <= u64::MAX {
                    assert(all_digits(t)) by {
                        assert(forall|k: int| 0 <= k < t.len() ==> t[k] == s@[k]);
                    }
                    lemma_dec_val_prefix_le(s@, i as int + 1);
                    assert(false);
                }
            }
            return Option::None;
        }
        proof {
            let t = s@.take(i as int + 1);
            assert(t.drop_last() =~= s@.take(i as int));
            assert(t.last() == b);
            assert(dec_val(t) == acc * 10 + d);
            assert(acc * 10 + d <= u64::MAX) by (nonlinear_arith)
                requires
                    acc <= (u64::MAX - d) / 10,
                    d <= 9,
            ;
            assert(all_digits(t)) by {
                assert(forall|k: int| 0 <= k < t.len() ==> t[k] == s@[k]);
            }
        }
        acc = acc * 10 + d;
        i += 1;
    }
    assert(s@.take(i as int) =~= s@);
    Option::Some(acc)
}

} // verus!
