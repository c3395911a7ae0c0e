//! Table-name normalization.
//!
//! Table names are case-insensitive: they are folded to lowercase
//! before they are compared with or used as channel names. The remote
//! platform keeps channel names pre-lowercased by the same convention,
//! so a lookup compares two already-normalized names byte for byte.
//!
//! The fold is deliberately ASCII-only: it maps `A`..`Z` and leaves
//! every other byte, including non-ASCII letters, exactly as it is.
//! That makes the fold a total, idempotent function of the bytes,
//! independent of any Unicode table; a table name whose cases differ
//! only in a non-ASCII letter names a different table here.

use vstd::prelude::*;

verus! {

/// One byte folded to lowercase (ASCII letters only).
pub open spec fn lower_byte(b: u8) -> u8 {
    if 0x41 <= b <= 0x5A {
        (b + 0x20) as u8
    } else {
        b
    }
}

/// A byte string folded to lowercase, byte by byte.
pub open spec fn lower(s: Seq<u8>) -> Seq<u8> {
    s.map_values(|b: u8| lower_byte(b))
}

/// Folding is idempotent: a normalized name normalizes to itself.
pub proof fn lemma_lower_idempotent(s: Seq<u8>)
    ensures
        lower(lower(s)) == lower(s),
{
    assert(lower(lower(s)) =~= lower(s)) by {
        assert(forall|i: int|
            0 <= i < s.len() ==> lower(lower(s))[i] == lower_byte(#[trigger] lower(s)[i]));
    }
}

/// Folds a table name to its normalized (lowercase) form.
pub fn normalize_name(s: &[u8]) -> (r: Vec<u8>)
    ensures
        r@ == lower(s@),
{
    let mut out: Vec<u8> = Vec::new();
    let mut i: usize = 0;
    while i < s.len()
        invariant
            0 <= i <= s@.len(),
            out@ =~= lower(s@).take(i as int),
        decreases s@.len() - i,
    {
        let b = s[i];
        if 0x41 <= b && b <= 0x5A {
            out.push(b + 0x20);
        } else {
            out.push(b);
        }
        assert(out@ =~= lower(s@).take(i as int + 1));
        i += 1;
    }
    assert(out@ =~= lower(s@));
    out
}

} // verus!
