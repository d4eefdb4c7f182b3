//! Directory listings: the `Entry` type, the folders-only filter, and the
//! case-folded lexicographic sort that fixes the canonical item indices.

use vstd::prelude::*;
use crate::chars::foldc;
use crate::chars::fold_val;
use vstd::seq_lib::lemma_multiset_commutative;

verus! {

/// One filesystem item of a listing. Immutable once produced; a listing is
/// replaced as a whole, never patched in place.
pub struct Entry {
    /// File name, as a sequence of characters.
    pub name: Vec<char>,
    /// True for directories and for symlinks that resolve to directories.
    pub is_dir: bool,
    /// Target path of a symlink, for display only.
    pub symlink_target: Option<Vec<char>>,
}

/// Lexicographic order on names from position `i` on, folding case for
/// the comparison when `fold` is set.
pub open spec fn lex_le_from(a: Seq<char>, b: Seq<char>, fold: bool, i: int) -> bool
    decreases a.len() - i,
{
    if i >= a.len() {
        true
    } else if i >= b.len() {
        false
    } else if foldc(a[i], fold) < foldc(b[i], fold) {
        true
    } else if foldc(a[i], fold) > foldc(b[i], fold) {
        false
    } else {
        lex_le_from(a, b, fold, i + 1)
    }
}

/// Case-folded lexicographic order on names: the listing's primary sort key.
pub open spec fn name_le(a: Seq<char>, b: Seq<char>) -> bool {
    lex_le_from(a, b, true, 0)
}

/// The listing's sort order: case-folded lexicographic, with the raw
/// scalar order as tie-break between names equal under folding. The key
/// is thus decided by the name alone: two entries compare equal only when
/// their names are identical.
pub open spec fn name_le_tb(a: Seq<char>, b: Seq<char>) -> bool {
    if name_le(a, b) && name_le(b, a) {
        lex_le_from(a, b, false, 0)
    } else {
        name_le(a, b)
    }
}

/// Each lexicographic order is total: any two names are comparable.
pub proof fn lemma_lex_le_total_from(a: Seq<char>, b: Seq<char>, fold: bool, i: int)
    requires
        i >= 0,
    ensures
        lex_le_from(a, b, fold, i) || lex_le_from(b, a, fold, i),
    decreases a.len() - i,
{
    if i >= a.len() {
    } else if i >= b.len() {
    } else if foldc(a[i], fold) == foldc(b[i], fold) {
        lemma_lex_le_total_from(a, b, fold, i + 1);
    }
}

/// The sort order with its tie-break is total as well.
pub proof fn lemma_name_le_tb_total(a: Seq<char>, b: Seq<char>)
    ensures
        name_le_tb(a, b) || name_le_tb(b, a),
{
    lemma_lex_le_total_from(a, b, true, 0);
    lemma_lex_le_total_from(a, b, false, 0);
}

/// Executable comparison deciding `lex_le_from` at position 0.
fn lex_le_exec(a: &Vec<char>, b: &Vec<char>, fold: bool) -> (r: bool)
    ensures
        r == lex_le_from(a@, b@, fold, 0),
{
    let mut i: usize = 0;
    loop
        invariant
            0 <= i <= a.len(),
            lex_le_from(a@, b@, fold, 0) == lex_le_from(a@, b@, fold, i as int),
        decreases a@.len() - i,
    {
        if i >= a.len() {
            return true;
        }
        if i >= b.len() {
            return false;
        }
        let fa = fold_val(a[i], fold);
        let fb = fold_val(b[i], fold);
        if fa < fb {
            return true;
        }
        if fa > fb {
            return false;
        }
        i = i + 1;
    }
}

/// Executable comparison deciding the listing's sort order `name_le_tb`.
pub fn name_le_tb_exec(a: &Vec<char>, b: &Vec<char>) -> (r: bool)
    ensures
        r == name_le_tb(a@, b@),
{
    let folded_ab = lex_le_exec(a, b, true);
    let folded_ba = lex_le_exec(b, a, true);
    if folded_ab && folded_ba {
        lex_le_exec(a, b, false)
    } else {
        folded_ab
    }
}

/// Whether the folders-only filter keeps this entry.
pub open spec fn entry_keep(e: Entry, folders_only: bool) -> bool {
    !folders_only || e.is_dir
}

/// A listing in canonical order: adjacent entries are ordered by the
/// tie-broken sort order `name_le_tb`.
pub open spec fn listing_sorted(s: Seq<Entry>) -> bool {
    forall|i: int| #![trigger s[i]] 1 <= i < s.len() ==> name_le_tb(s[i - 1].name@, s[i].name@)
}

/// Drop the entries that the folders-only filter excludes, keeping the rest
/// in their original order.
pub fn filter_entries(input: Vec<Entry>, folders_only: bool) -> (r: Vec<Entry>)
    ensures
        r@ == input@.filter(|e: Entry| entry_keep(e, folders_only)),
{
    let ghost orig: Seq<Entry> = input@;
    let mut input = input;
    let mut r: Vec<Entry> = Vec::new();
    let ghost k: int = 0;
    while input.len() > 0
        invariant
            0 <= k <= orig.len(),
            input@ == orig.skip(k),
            r@ == orig.take(k).filter(|e: Entry| entry_keep(e, folders_only)),
        decreases input@.len(),
    {
        let e = input.remove(0);
        assert(e == orig[k]);
        assert(input@ == orig.skip(k + 1)) by {
            assert(orig.skip(k).remove(0) =~= orig.skip(k + 1));
        }
        let keep = !folders_only || e.is_dir;
        if keep {
            r.push(e);
        }
        proof {
            reveal(Seq::filter);
            assert(orig.take(k + 1).drop_last() =~= orig.take(k));
            assert(orig.take(k + 1).last() == orig[k]);
            let pred = |e: Entry| entry_keep(e, folders_only);
            assert(keep == pred(orig[k]));
            assert(r@ == orig.take(k + 1).filter(pred));
            k = k + 1;
        }
    }
    proof {
        assert(orig.take(k) =~= orig);
    }
    r
}

/// Inserting at any position adds exactly one occurrence to the multiset.
proof fn lemma_insert_to_multiset(s: Seq<Entry>, i: int, a: Entry)
    requires
        0 <= i <= s.len(),
    ensures
        s.insert(i, a).to_multiset() =~= s.to_multiset().insert(a),
{
    broadcast use vstd::seq_lib::group_to_multiset_ensures;

    let pre = s.subrange(0, i);
    let post = s.subrange(i, s.len() as int);
    assert(s.insert(i, a) == pre.push(a) + post);
    lemma_multiset_commutative(pre.push(a), post);
    assert(pre.push(a).to_multiset() =~= pre.to_multiset().insert(a));
    assert(s =~= pre + post);
    lemma_multiset_commutative(pre, post);
}

/// Sort a listing by the case-folded name order with raw-name tie-break.
/// The result is a rearrangement of the input: same entries, canonical
/// order; the insertion keeps equal names in their incoming order.
pub fn sort_entries(v: Vec<Entry>) -> (r: Vec<Entry>)
    ensures
        listing_sorted(r@),
        r@.to_multiset() == v@.to_multiset(),
        r@.len() == v@.len(),
{
    broadcast use vstd::seq_lib::group_to_multiset_ensures;

    let ghost orig_ms = v@.to_multiset();
    let ghost n = v@.len();
    let mut v = v;
    let mut i: usize = 1;
    while i < v.len()
        invariant
            1 <= i,
            v@.len() == n,
            v@.to_multiset() == orig_ms,
            forall|k: int| #![trigger v@[k]] 1 <= k < i
                ==> name_le_tb(v@[k - 1].name@, v@[k].name@),
        decreases n - i,
    {
        let ghost before = v@;
        let x = v.remove(i);
        proof {
            broadcast use vstd::seq_lib::group_to_multiset_ensures;
            broadcast use vstd::multiset::group_multiset_axioms;

            assert(before.contains(x)) by {
                assert(before[i as int] == x);
            }
            assert(before.to_multiset().count(x) > 0);
            assert(v@.to_multiset() =~= before.to_multiset().remove(x));
        }
        // stable insertion: pass every element that sorts at or below x
        let mut j: usize = 0;
        while j < i && name_le_tb_exec(&v[j].name, &x.name)
            invariant
                0 <= j <= i,
                i < before.len(),
                v@ == before.remove(i as int),
                x == before[i as int],
                forall|k: int| #![trigger v@[k]] 0 <= k < j ==> name_le_tb(v@[k].name@, x.name@),
            decreases i - j,
        {
            j = j + 1;
        }
        let ghost removed = v@;
        v.insert(j, x);
        proof {
            broadcast use vstd::seq_lib::group_to_multiset_ensures;
            broadcast use vstd::multiset::group_multiset_axioms;

            lemma_insert_to_multiset(removed, j as int, x);
            assert(before.contains(x)) by {
                assert(before[i as int] == x);
            }
            assert(v@.to_multiset() =~= before.to_multiset().remove(x).insert(x));
            assert(v@.to_multiset() =~= orig_ms);
            removed.insert_ensures(j as int, x);
            assert forall|k: int| #![trigger v@[k]] 1 <= k < i + 1 implies
                name_le_tb(v@[k - 1].name@, v@[k].name@) by {
                if k < j {
                    assert(v@[k - 1] == removed[k - 1] && v@[k] == removed[k]);
                } else if k == j {
                    // the scan passed position j - 1, which sorts at or
                    // below x
                    assert(name_le_tb(removed[k - 1].name@, x.name@));
                    assert(v@[k] == x);
                } else if k == j + 1 {
                    // the scan stopped at j: the old occupant of j does not
                    // sort at or below x, so by totality x sorts below it
                    assert(v@[k - 1] == x && v@[k] == removed[j as int]);
                    assert(!name_le_tb(removed[j as int].name@, x.name@));
                    lemma_name_le_tb_total(x.name@, removed[j as int].name@);
                } else {
                    assert(v@[k - 1] == removed[k - 2] && v@[k] == removed[k - 1]);
                    assert(removed[k - 2] == before[k - 2] && removed[k - 1] == before[k - 1]);
                }
            }
        }
        i = i + 1;
    }
    v
}

/// Filter, then sort: produce the canonical listing whose indices the rest
/// of the engine refers to.
pub fn prepare_listing(input: Vec<Entry>, folders_only: bool) -> (r: Vec<Entry>)
    ensures
        listing_sorted(r@),
        r@.to_multiset() == input@.filter(|e: Entry| entry_keep(e, folders_only)).to_multiset(),
{
    let kept = filter_entries(input, folders_only);
    sort_entries(kept)
}

} // verus!
