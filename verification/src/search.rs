//! Incremental query matching over a listing.
//!
//! A query matches an entry name when its characters occur in the name in
//! order, compared under the active case rule. The gap mode decides where
//! gaps between matched characters are allowed: nowhere (the query must be
//! a contiguous run starting at the first character of the name), after an
//! anchored first character, or anywhere. Matched character offsets are
//! reported for highlighting, assigned greedily to the leftmost valid
//! occurrence.

use vstd::prelude::*;
use crate::chars::foldc;
use crate::chars::is_ascii_upper;
use crate::chars::chars_match;
use crate::listing::Entry;
use crate::settings::CaseSensitiveMode;
use crate::settings::GapSearchMode;

verus! {

// ----- case policy -----

/// Whether the query contains an ASCII uppercase letter.
pub open spec fn has_uppercase(q: Seq<char>) -> bool {
    exists|i: int| 0 <= i < q.len() && is_ascii_upper(q[i])
}

/// Whether comparisons fold case, given the case mode and the query.
/// Smart case folds exactly when the query has no uppercase letter.
pub open spec fn fold_for(case: CaseSensitiveMode, q: Seq<char>) -> bool {
    match case {
        CaseSensitiveMode::IgnoreCase => true,
        CaseSensitiveMode::CaseSensitive => false,
        CaseSensitiveMode::SmartCase => !has_uppercase(q),
    }
}

/// Decide whether the query has an ASCII uppercase character.
pub fn query_has_uppercase(q: &Vec<char>) -> (r: bool)
    ensures
        r == has_uppercase(q@),
{
    let mut i: usize = 0;
    while i < q.len()
        invariant
            0 <= i <= q.len(),
            forall|k: int| 0 <= k < i ==> !is_ascii_upper(q@[k]),
        decreases q@.len() - i,
    {
        let u = q[i] as u32;
        if 65 <= u && u <= 90 {
            assert(is_ascii_upper(q@[i as int]));
            return true;
        }
        i = i + 1;
    }
    false
}

/// Decide whether comparisons fold case under `case` for this query.
pub fn fold_active(case: CaseSensitiveMode, q: &Vec<char>) -> (r: bool)
    ensures
        r == fold_for(case, q@),
{
    match case {
        CaseSensitiveMode::IgnoreCase => true,
        CaseSensitiveMode::CaseSensitive => false,
        CaseSensitiveMode::SmartCase => !query_has_uppercase(q),
    }
}

// ----- match predicates -----

/// The characters `q[qi..]` occur in order within `name[ni..]`.
pub open spec fn subseq_match_from(q: Seq<char>, name: Seq<char>, fold: bool, qi: int, ni: int) -> bool
    decreases name.len() - ni,
{
    if qi >= q.len() {
        true
    } else if ni >= name.len() {
        false
    } else if foldc(q[qi], fold) == foldc(name[ni], fold) {
        subseq_match_from(q, name, fold, qi + 1, ni + 1) || subseq_match_from(q, name, fold, qi, ni + 1)
    } else {
        subseq_match_from(q, name, fold, qi, ni + 1)
    }
}

/// The query is an order-preserving subsequence of the name.
pub open spec fn subseq_match(q: Seq<char>, name: Seq<char>, fold: bool) -> bool {
    subseq_match_from(q, name, fold, 0, 0)
}

/// The characters `q[i..]` match `name[i..]` contiguously.
pub open spec fn prefix_match_from(q: Seq<char>, name: Seq<char>, fold: bool, i: int) -> bool
    decreases q.len() - i,
{
    if i >= q.len() {
        true
    } else if i >= name.len() {
        false
    } else {
        foldc(q[i], fold) == foldc(name[i], fold) && prefix_match_from(q, name, fold, i + 1)
    }
}

/// The query matches as a contiguous run starting at the first character.
pub open spec fn prefix_match(q: Seq<char>, name: Seq<char>, fold: bool) -> bool {
    prefix_match_from(q, name, fold, 0)
}

/// The query matches as a subsequence whose first character is anchored to
/// the first character of the name.
pub open spec fn anchored_match(q: Seq<char>, name: Seq<char>, fold: bool) -> bool {
    q.len() == 0 || (name.len() > 0 && foldc(q[0], fold) == foldc(name[0], fold)
        && subseq_match_from(q, name, fold, 1, 1))
}

/// Whether the query matches the name under the given case rule and gap mode.
pub open spec fn entry_matches(q: Seq<char>, name: Seq<char>, fold: bool, gap: GapSearchMode) -> bool {
    match gap {
        GapSearchMode::NoGapSearch => prefix_match(q, name, fold),
        GapSearchMode::GapSearchFromStart => anchored_match(q, name, fold),
        GapSearchMode::GapSearchAnywhere => subseq_match(q, name, fold),
    }
}

// ----- greedy leftmost match positions -----

/// Greedy leftmost assignment of match positions: scan the name from `ni`,
/// consuming each query character at its earliest possible occurrence.
/// `None` when the remaining query cannot be matched.
pub open spec fn spec_subseq_pos(q: Seq<char>, name: Seq<char>, fold: bool, qi: int, ni: int) -> Option<Seq<int>>
    decreases name.len() - ni,
{
    if qi >= q.len() {
        Some(Seq::empty())
    } else if ni >= name.len() {
        None
    } else if foldc(q[qi], fold) == foldc(name[ni], fold) {
        match spec_subseq_pos(q, name, fold, qi + 1, ni + 1) {
            Some(p) => Some(seq![ni] + p),
            None => None,
        }
    } else {
        spec_subseq_pos(q, name, fold, qi, ni + 1)
    }
}

/// Match positions for the whole query under the given gap mode, or `None`
/// when it does not match.
pub open spec fn spec_gap_pos(q: Seq<char>, name: Seq<char>, fold: bool, gap: GapSearchMode) -> Option<Seq<int>> {
    match gap {
        GapSearchMode::NoGapSearch => if prefix_match(q, name, fold) {
            Some(Seq::new(q.len(), |i: int| i))
        } else {
            None
        },
        GapSearchMode::GapSearchFromStart => if q.len() == 0 {
            Some(Seq::empty())
        } else if name.len() > 0 && foldc(q[0], fold) == foldc(name[0], fold) {
            match spec_subseq_pos(q, name, fold, 1, 1) {
                Some(p) => Some(seq![0int] + p),
                None => None,
            }
        } else {
            None
        },
        GapSearchMode::GapSearchAnywhere => spec_subseq_pos(q, name, fold, 0, 0),
    }
}

// ----- lemmas relating positions and predicates -----

/// Dropping the next query character preserves matchability.
proof fn lemma_subseq_drop_query_head(q: Seq<char>, name: Seq<char>, fold: bool, qi: int, ni: int)
    requires
        0 <= qi < q.len(),
        0 <= ni,
        subseq_match_from(q, name, fold, qi, ni),
    ensures
        subseq_match_from(q, name, fold, qi + 1, ni),
    decreases name.len() - ni,
{
    if qi + 1 >= q.len() {
    } else if ni >= name.len() {
    } else {
        if foldc(q[qi], fold) == foldc(name[ni], fold) {
            if subseq_match_from(q, name, fold, qi + 1, ni + 1) {
                // goal holds whether or not q[qi + 1] aligns with name[ni]
                assert(subseq_match_from(q, name, fold, qi + 1, ni));
            } else {
                lemma_subseq_drop_query_head(q, name, fold, qi, ni + 1);
            }
        } else {
            lemma_subseq_drop_query_head(q, name, fold, qi, ni + 1);
        }
    }
}

/// Greedy completeness: taking an available head match loses nothing.
proof fn lemma_subseq_greedy(q: Seq<char>, name: Seq<char>, fold: bool, qi: int, ni: int)
    requires
        0 <= qi < q.len(),
        0 <= ni < name.len(),
        foldc(q[qi], fold) == foldc(name[ni], fold),
        subseq_match_from(q, name, fold, qi, ni),
    ensures
        subseq_match_from(q, name, fold, qi + 1, ni + 1),
{
    if !subseq_match_from(q, name, fold, qi + 1, ni + 1) {
        assert(subseq_match_from(q, name, fold, qi, ni + 1));
        lemma_subseq_drop_query_head(q, name, fold, qi, ni + 1);
    }
}

/// The greedy scan finds positions exactly when a match exists.
proof fn lemma_subseq_pos_iff(q: Seq<char>, name: Seq<char>, fold: bool, qi: int, ni: int)
    requires
        0 <= qi,
        0 <= ni,
    ensures
        spec_subseq_pos(q, name, fold, qi, ni) is Some == subseq_match_from(q, name, fold, qi, ni),
    decreases name.len() - ni,
{
    if qi >= q.len() {
    } else if ni >= name.len() {
    } else if foldc(q[qi], fold) == foldc(name[ni], fold) {
        lemma_subseq_pos_iff(q, name, fold, qi + 1, ni + 1);
        if spec_subseq_pos(q, name, fold, qi + 1, ni + 1) is None
            && subseq_match_from(q, name, fold, qi, ni) {
            lemma_subseq_greedy(q, name, fold, qi, ni);
        }
    } else {
        lemma_subseq_pos_iff(q, name, fold, qi, ni + 1);
    }
}

/// The greedy positions are within bounds, strictly increasing, and
/// witness the per-character comparisons.
pub proof fn lemma_subseq_pos_valid(q: Seq<char>, name: Seq<char>, fold: bool, qi: int, ni: int, p: Seq<int>)
    requires
        0 <= qi <= q.len(),
        0 <= ni,
        spec_subseq_pos(q, name, fold, qi, ni) == Some(p),
    ensures
        p.len() == q.len() - qi,
        forall|i: int| 0 <= i < p.len() ==> ni <= #[trigger] p[i] < name.len(),
        forall|i: int| 0 <= i < p.len() ==> foldc(q[qi + i], fold) == foldc(name[#[trigger] p[i]], fold),
        forall|i: int| 0 < i < p.len() ==> p[i - 1] < #[trigger] p[i],
    decreases name.len() - ni,
{
    if qi >= q.len() {
    } else if ni >= name.len() {
    } else if foldc(q[qi], fold) == foldc(name[ni], fold) {
        let rest = spec_subseq_pos(q, name, fold, qi + 1, ni + 1)->Some_0;
        lemma_subseq_pos_valid(q, name, fold, qi + 1, ni + 1, rest);
        assert(p == seq![ni] + rest);
        assert(p[0] == ni);
        assert forall|i: int| 0 <= i < p.len() implies ni <= #[trigger] p[i] < name.len() by {
            if i > 0 {
                assert(p[i] == rest[i - 1]);
            }
        }
        assert forall|i: int| 0 <= i < p.len() implies
            foldc(q[qi + i], fold) == foldc(name[#[trigger] p[i]], fold) by {
            if i > 0 {
                assert(p[i] == rest[i - 1]);
                assert(foldc(q[qi + 1 + (i - 1)], fold) == foldc(name[rest[i - 1]], fold));
            }
        }
        assert forall|i: int| 0 < i < p.len() implies p[i - 1] < #[trigger] p[i] by {
            assert(p[i] == rest[i - 1]);
            if i > 1 {
                assert(p[i - 1] == rest[i - 2]);
            } else {
                assert(ni + 1 <= rest[0]);
            }
        }
    } else {
        lemma_subseq_pos_valid(q, name, fold, qi, ni + 1, p);
    }
}

/// A contiguous prefix match is in particular an in-order match.
pub proof fn lemma_prefix_implies_subseq_from(q: Seq<char>, name: Seq<char>, fold: bool, i: int)
    requires
        0 <= i,
        prefix_match_from(q, name, fold, i),
    ensures
        subseq_match_from(q, name, fold, i, i),
    decreases q.len() - i,
{
    if i < q.len() {
        lemma_prefix_implies_subseq_from(q, name, fold, i + 1);
    }
}

/// Relaxation, first step: a contiguous prefix match is an anchored match.
pub proof fn lemma_prefix_implies_anchored(q: Seq<char>, name: Seq<char>, fold: bool)
    requires
        prefix_match(q, name, fold),
    ensures
        anchored_match(q, name, fold),
{
    if q.len() > 0 {
        lemma_prefix_implies_subseq_from(q, name, fold, 1);
    }
}

/// Relaxation, second step: an anchored match is a match anywhere.
pub proof fn lemma_anchored_implies_subseq(q: Seq<char>, name: Seq<char>, fold: bool)
    requires
        anchored_match(q, name, fold),
    ensures
        subseq_match(q, name, fold),
{
    if q.len() > 0 {
        assert(subseq_match_from(q, name, fold, 1, 1));
    }
}

/// Monotonic relaxation of the gap modes: every no-gap match is an anchored
/// gap match, and every anchored gap match is a gap match anywhere.
pub proof fn lemma_gap_modes_monotonic(q: Seq<char>, name: Seq<char>, fold: bool)
    ensures
        entry_matches(q, name, fold, GapSearchMode::NoGapSearch)
            ==> entry_matches(q, name, fold, GapSearchMode::GapSearchFromStart),
        entry_matches(q, name, fold, GapSearchMode::GapSearchFromStart)
            ==> entry_matches(q, name, fold, GapSearchMode::GapSearchAnywhere),
{
    if prefix_match(q, name, fold) {
        lemma_prefix_implies_anchored(q, name, fold);
    }
    if anchored_match(q, name, fold) {
        lemma_anchored_implies_subseq(q, name, fold);
    }
}

/// Positions are found exactly when the query matches under the gap mode.
pub proof fn lemma_gap_pos_iff(q: Seq<char>, name: Seq<char>, fold: bool, gap: GapSearchMode)
    ensures
        spec_gap_pos(q, name, fold, gap) is Some == entry_matches(q, name, fold, gap),
{
    match gap {
        GapSearchMode::NoGapSearch => {}
        GapSearchMode::GapSearchFromStart => {
            if q.len() > 0 && name.len() > 0 && foldc(q[0], fold) == foldc(name[0], fold) {
                lemma_subseq_pos_iff(q, name, fold, 1, 1);
            }
        }
        GapSearchMode::GapSearchAnywhere => {
            lemma_subseq_pos_iff(q, name, fold, 0, 0);
        }
    }
}

// ----- executable matching -----

/// View of optional executable positions as optional mathematical positions.
pub open spec fn opt_pos_view(r: Option<Vec<usize>>) -> Option<Seq<int>> {
    match r {
        Some(v) => Some(v@.map_values(|x: usize| x as int)),
        None => None,
    }
}

/// Greedy leftmost subsequence scan, starting at query index `qs` and name
/// index `ns`; positions are absolute offsets into the name.
pub fn subseq_positions(q: &Vec<char>, name: &Vec<char>, fold: bool, qs: usize, ns: usize) -> (r: Option<Vec<usize>>)
    requires
        qs <= q@.len(),
        ns <= name@.len(),
    ensures
        opt_pos_view(r) == spec_subseq_pos(q@, name@, fold, qs as int, ns as int),
{
    let mut qi: usize = qs;
    let mut ni: usize = ns;
    let mut p: Vec<usize> = Vec::new();
    loop
        invariant
            qs <= qi <= q@.len(),
            ns <= ni <= name@.len(),
            spec_subseq_pos(q@, name@, fold, qi as int, ni as int) is Some
                == spec_subseq_pos(q@, name@, fold, qs as int, ns as int) is Some,
            spec_subseq_pos(q@, name@, fold, qi as int, ni as int) matches Some(rest)
                ==> spec_subseq_pos(q@, name@, fold, qs as int, ns as int)
                    == Some(p@.map_values(|x: usize| x as int) + rest),
        decreases name@.len() - ni,
    {
        if qi >= q.len() {
            proof {
                let tail = spec_subseq_pos(q@, name@, fold, qi as int, ni as int);
                assert(tail == Some(Seq::<int>::empty()));
                assert(p@.map_values(|x: usize| x as int) + Seq::<int>::empty()
                    =~= p@.map_values(|x: usize| x as int));
            }
            return Some(p);
        }
        if ni >= name.len() {
            return None;
        }
        let ghost old_p = p@;
        if chars_match(q[qi], name[ni], fold) {
            p.push(ni);
            proof {
                let tail = spec_subseq_pos(q@, name@, fold, qi as int, ni as int);
                let rest = spec_subseq_pos(q@, name@, fold, qi + 1, ni + 1);
                if rest is Some {
                    let rp = rest->Some_0;
                    assert(tail == Some(seq![ni as int] + rp));
                    assert(p@.map_values(|x: usize| x as int)
                        =~= old_p.map_values(|x: usize| x as int).push(ni as int));
                    assert(old_p.map_values(|x: usize| x as int) + (seq![ni as int] + rp)
                        =~= p@.map_values(|x: usize| x as int) + rp);
                }
            }
            qi = qi + 1;
            ni = ni + 1;
        } else {
            ni = ni + 1;
        }
    }
}

/// Match the query against one name under the given case rule and gap mode,
/// returning the greedy leftmost match positions, or `None` if it does not
/// match.
pub fn gap_positions(q: &Vec<char>, name: &Vec<char>, fold: bool, gap: GapSearchMode) -> (r: Option<Vec<usize>>)
    ensures
        opt_pos_view(r) == spec_gap_pos(q@, name@, fold, gap),
{
    match gap {
        GapSearchMode::GapSearchAnywhere => subseq_positions(q, name, fold, 0, 0),
        GapSearchMode::GapSearchFromStart => {
            if q.len() == 0 {
                let r: Vec<usize> = Vec::new();
                assert(r@.map_values(|x: usize| x as int) =~= Seq::<int>::empty());
                Some(r)
            } else if name.len() > 0 && chars_match(q[0], name[0], fold) {
                match subseq_positions(q, name, fold, 1, 1) {
                    Some(p) => {
                        let mut r: Vec<usize> = Vec::new();
                        r.push(0);
                        let mut p = p;
                        r.append(&mut p);
                        proof {
                            let rest = spec_subseq_pos(q@, name@, fold, 1, 1)->Some_0;
                            assert(r@.map_values(|x: usize| x as int) =~= seq![0int] + rest);
                        }
                        Some(r)
                    }
                    None => None,
                }
            } else {
                None
            }
        }
        GapSearchMode::NoGapSearch => {
            let mut i: usize = 0;
            let mut p: Vec<usize> = Vec::new();
            loop
                invariant
                    gap == GapSearchMode::NoGapSearch,
                    0 <= i <= q@.len(),
                    i <= name@.len(),
                    prefix_match(q@, name@, fold) == prefix_match_from(q@, name@, fold, i as int),
                    p@.len() == i as int,
                    forall|k: int| 0 <= k < i ==> p@[k] == k,
                decreases q@.len() - i,
            {
                if i >= q.len() {
                    proof {
                        assert(prefix_match(q@, name@, fold));
                        let f = |x: usize| x as int;
                        assert forall|k: int| 0 <= k < p@.len() implies
                            p@.map_values(f)[k] == k by {
                            assert(p@[k] == k);
                        }
                        assert(p@.map_values(f) =~= Seq::new(q@.len(), |k: int| k));
                    }
                    return Some(p);
                }
                if i >= name.len() {
                    return None;
                }
                if !chars_match(q[i], name[i], fold) {
                    return None;
                }
                p.push(i);
                i = i + 1;
            }
        }
    }
}

// ----- matching a whole listing -----

/// One matching entry: its index in the listing and the matched character
/// offsets in its name.
pub struct MatchData {
    pub index: usize,
    pub positions: Vec<usize>,
}

/// Mathematical view of a `MatchData`.
pub struct MatchDataV {
    pub index: int,
    pub positions: Seq<int>,
}

impl View for MatchData {
    type V = MatchDataV;

    open spec fn view(&self) -> MatchDataV {
        MatchDataV {
            index: self.index as int,
            positions: self.positions@.map_values(|x: usize| x as int),
        }
    }
}

/// The names of a listing, in listing order.
pub open spec fn listing_names(s: Seq<Entry>) -> Seq<Seq<char>> {
    s.map_values(|e: Entry| e.name@)
}

/// View of a matches vector.
pub open spec fn matches_view(r: Seq<MatchData>) -> Seq<MatchDataV> {
    r.map_values(|m: MatchData| m@)
}

/// The match set of a listing: for each matching name, in listing order,
/// its index and greedy leftmost match positions.
pub open spec fn spec_matches(names: Seq<Seq<char>>, q: Seq<char>, case: CaseSensitiveMode, gap: GapSearchMode) -> Seq<MatchDataV>
    decreases names.len(),
{
    if names.len() == 0 {
        Seq::empty()
    } else {
        let front = spec_matches(names.drop_last(), q, case, gap);
        match spec_gap_pos(q, names.last(), fold_for(case, q), gap) {
            Some(p) => front.push(MatchDataV { index: names.len() - 1, positions: p }),
            None => front,
        }
    }
}

/// Recompute the match set for the whole listing. Pure: the result is a
/// function of the listing, the query and the two mode policies alone.
pub fn compute_matches(listing: &Vec<Entry>, query: &Vec<char>, case: CaseSensitiveMode, gap: GapSearchMode) -> (r: Vec<MatchData>)
    ensures
        matches_view(r@) == spec_matches(listing_names(listing@), query@, case, gap),
{
    let fold = fold_active(case, query);
    let mut r: Vec<MatchData> = Vec::new();
    let mut k: usize = 0;
    while k < listing.len()
        invariant
            0 <= k <= listing@.len(),
            fold == fold_for(case, query@),
            matches_view(r@) == spec_matches(listing_names(listing@).take(k as int), query@, case, gap),
        decreases listing@.len() - k,
    {
        let ghost names = listing_names(listing@);
        let ghost old_r = r@;
        let pos = gap_positions(query, &listing[k].name, fold, gap);
        proof {
            assert(names.take(k + 1).drop_last() =~= names.take(k as int));
            assert(names.take(k + 1).last() == names[k as int]);
            assert(names[k as int] == listing@[k as int].name@);
        }
        match pos {
            Some(p) => {
                let m = MatchData { index: k, positions: p };
                r.push(m);
                proof {
                    assert(matches_view(r@) =~= matches_view(old_r).push(m@));
                    assert(m@.positions == spec_gap_pos(query@, names[k as int], fold, gap)->Some_0);
                    assert(matches_view(r@) =~= spec_matches(names.take(k + 1), query@, case, gap));
                }
            }
            None => {
                proof {
                    assert(matches_view(r@) =~= spec_matches(names.take(k + 1), query@, case, gap));
                }
            }
        }
        k = k + 1;
    }
    proof {
        assert(listing_names(listing@).take(listing@.len() as int) =~= listing_names(listing@));
    }
    r
}

// ----- aggregate properties of the match set -----

/// Every reported match is sound: its index is in range, the entry matches,
/// and its positions are the greedy leftmost positions. Indices come in
/// strictly increasing listing order.
pub proof fn lemma_spec_matches_sound(names: Seq<Seq<char>>, q: Seq<char>, case: CaseSensitiveMode, gap: GapSearchMode)
    ensures
        forall|i: int| 0 <= i < spec_matches(names, q, case, gap).len()
            ==> 0 <= (#[trigger] spec_matches(names, q, case, gap)[i]).index < names.len(),
        forall|i: int| 0 <= i < spec_matches(names, q, case, gap).len()
            ==> entry_matches(q, names[(#[trigger] spec_matches(names, q, case, gap)[i]).index], fold_for(case, q), gap),
        forall|i: int| 0 <= i < spec_matches(names, q, case, gap).len()
            ==> Some((#[trigger] spec_matches(names, q, case, gap)[i]).positions)
                == spec_gap_pos(q, names[spec_matches(names, q, case, gap)[i].index], fold_for(case, q), gap),
        forall|i: int| 0 < i < spec_matches(names, q, case, gap).len()
            ==> spec_matches(names, q, case, gap)[i - 1].index
                < (#[trigger] spec_matches(names, q, case, gap)[i]).index,
    decreases names.len(),
{
    if names.len() > 0 {
        lemma_spec_matches_sound(names.drop_last(), q, case, gap);
        let front = spec_matches(names.drop_last(), q, case, gap);
        let fold = fold_for(case, q);
        assert(forall|k: int| 0 <= k < names.len() - 1 ==> names.drop_last()[k] == names[k]);
        match spec_gap_pos(q, names.last(), fold, gap) {
            Some(p) => {
                lemma_gap_pos_iff(q, names.last(), fold, gap);
                assert(names.last() == names[names.len() - 1]);
            }
            None => {}
        }
    }
}

/// Every matching entry is reported: completeness of the match set.
pub proof fn lemma_spec_matches_complete(names: Seq<Seq<char>>, q: Seq<char>, case: CaseSensitiveMode, gap: GapSearchMode, k: int)
    requires
        0 <= k < names.len(),
        entry_matches(q, names[k], fold_for(case, q), gap),
    ensures
        exists|i: int| 0 <= i < spec_matches(names, q, case, gap).len()
            && (#[trigger] spec_matches(names, q, case, gap)[i]).index == k,
    decreases names.len(),
{
    let m = spec_matches(names, q, case, gap);
    let front = spec_matches(names.drop_last(), q, case, gap);
    let fold = fold_for(case, q);
    if k == names.len() - 1 {
        lemma_gap_pos_iff(q, names.last(), fold, gap);
        assert(names.last() == names[k]);
        assert(m[m.len() - 1].index == k);
    } else {
        assert(names.drop_last()[k] == names[k]);
        lemma_spec_matches_complete(names.drop_last(), q, case, gap, k);
        let i = choose|i: int| 0 <= i < front.len() && (#[trigger] front[i]).index == k;
        assert(m[i].index == k);
    }
}

/// Every index in the match set names an entry whose name contains the
/// query's characters as an order-preserving subsequence under the active
/// case rule, whatever the gap mode.
pub proof fn lemma_matches_are_subsequences(names: Seq<Seq<char>>, q: Seq<char>, case: CaseSensitiveMode, gap: GapSearchMode)
    ensures
        forall|i: int| 0 <= i < spec_matches(names, q, case, gap).len()
            ==> 0 <= (#[trigger] spec_matches(names, q, case, gap)[i]).index < names.len()
                && subseq_match(q, names[spec_matches(names, q, case, gap)[i].index], fold_for(case, q)),
{
    lemma_spec_matches_sound(names, q, case, gap);
    let m = spec_matches(names, q, case, gap);
    let fold = fold_for(case, q);
    assert forall|i: int| 0 <= i < m.len() implies
        0 <= (#[trigger] m[i]).index < names.len() && subseq_match(q, names[m[i].index], fold) by {
        let name = names[m[i].index];
        assert(entry_matches(q, name, fold, gap));
        lemma_gap_modes_monotonic(q, name, fold);
    }
}

/// Erasing the character just appended restores the search state exactly:
/// the query returns to its previous value, and with it the match set,
/// which is a pure function of the query, the listing and the modes.
pub proof fn lemma_erase_restores_search(names: Seq<Seq<char>>, q: Seq<char>, c: char, case: CaseSensitiveMode, gap: GapSearchMode)
    ensures
        q.push(c).drop_last() == q,
        spec_matches(names, q.push(c).drop_last(), case, gap) == spec_matches(names, q, case, gap),
{
    assert(q.push(c).drop_last() =~= q);
}

/// Smart case behaves as the case-sensitive policy when the query contains
/// an uppercase character, and as the ignore-case policy otherwise.
pub proof fn lemma_smart_case(names: Seq<Seq<char>>, q: Seq<char>, gap: GapSearchMode)
    ensures
        spec_matches(names, q, CaseSensitiveMode::SmartCase, gap)
            == if has_uppercase(q) {
                spec_matches(names, q, CaseSensitiveMode::CaseSensitive, gap)
            } else {
                spec_matches(names, q, CaseSensitiveMode::IgnoreCase, gap)
            },
    decreases names.len(),
{
    if names.len() > 0 {
        lemma_smart_case(names.drop_last(), q, gap);
    }
}

} // verus!
