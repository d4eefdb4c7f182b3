//! Character-level helpers: ASCII case folding and folded comparison.
//!
//! Case-insensitive comparison folds the ASCII letters `A`..`Z` onto
//! `a`..`z`; all other characters compare by their scalar value.

use vstd::prelude::*;

verus! {

/// Scalar value of `c` after optional ASCII case folding.
pub open spec fn foldc(c: char, fold: bool) -> int {
    if fold && 65 <= c as u32 && c as u32 <= 90 {
        c as u32 + 32
    } else {
        c as u32 as int
    }
}

/// Whether `c` is an ASCII uppercase letter.
pub open spec fn is_ascii_upper(c: char) -> bool {
    65 <= c as u32 && c as u32 <= 90
}

/// Fold `c` to its comparison value, lowering ASCII uppercase when `fold` is set.
pub fn fold_val(c: char, fold: bool) -> (r: u32)
    ensures
        r == foldc(c, fold),
{
    let u = c as u32;
    if fold && 65 <= u && u <= 90 {
        u + 32
    } else {
        u
    }
}

/// Exact equality of two character sequences.
pub fn chars_equal(a: &Vec<char>, b: &Vec<char>) -> (r: bool)
    ensures
        r == (a@ == b@),
{
    if a.len() != b.len() {
        return false;
    }
    let mut i: usize = 0;
    while i < a.len()
        invariant
            0 <= i <= a@.len(),
            a@.len() == b@.len(),
            forall|k: int| 0 <= k < i ==> a@[k] == b@[k],
        decreases a@.len() - i,
    {
        if a[i] != b[i] {
            return false;
        }
        i = i + 1;
    }
    proof {
        assert(a@ =~= b@);
    }
    true
}

/// Copy a character sequence.
pub fn clone_chars(v: &Vec<char>) -> (r: Vec<char>)
    ensures
        r@ == v@,
{
    let mut r: Vec<char> = Vec::new();
    let mut i: usize = 0;
    while i < v.len()
        invariant
            0 <= i <= v@.len(),
            r@ == v@.take(i as int),
        decreases v@.len() - i,
    {
        r.push(v[i]);
        proof {
            assert(v@.take(i + 1) =~= v@.take(i as int).push(v@[i as int]));
        }
        i = i + 1;
    }
    proof {
        assert(v@.take(v@.len() as int) =~= v@);
    }
    r
}

/// Compare two characters for equality under the given case rule.
pub fn chars_match(a: char, b: char, fold: bool) -> (r: bool)
    ensures
        r == (foldc(a, fold) == foldc(b, fold)),
{
    fold_val(a, fold) == fold_val(b, fold)
}

} // verus!
