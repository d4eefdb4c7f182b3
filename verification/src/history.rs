//! Persistent cursor history: a mapping from absolute directory path to the
//! cursor position that was last used there.
//!
//! The store is an association list queried from the most recent entry
//! backwards, so the last write for a path wins even if an older or corrupt
//! snapshot contained duplicates. `encode` and `decode` turn the store into
//! a character stream and back; a corrupt stream decodes to nothing and the
//! caller starts empty.

use vstd::prelude::*;
use crate::chars::chars_equal;

verus! {

/// One remembered position: a path and the cursor's visible-item index.
pub struct HistoryEntry {
    pub path: Vec<char>,
    pub index: usize,
}

/// The remembered index for `path`, scanning from the most recent entry.
pub open spec fn spec_lookup(s: Seq<HistoryEntry>, path: Seq<char>) -> Option<int>
    decreases s.len(),
{
    if s.len() == 0 {
        None
    } else if s.last().path@ == path {
        Some(s.last().index as int)
    } else {
        spec_lookup(s.drop_last(), path)
    }
}

/// At most one entry per path.
pub open spec fn entries_unique(s: Seq<HistoryEntry>) -> bool {
    forall|i: int, j: int| 0 <= i < j < s.len() ==> s[i].path@ != s[j].path@
}

/// Removing an entry for a different path leaves a lookup unchanged.
proof fn lemma_lookup_remove(s: Seq<HistoryEntry>, k: int, path: Seq<char>)
    requires
        0 <= k < s.len(),
        s[k].path@ != path,
    ensures
        spec_lookup(s.remove(k), path) == spec_lookup(s, path),
    decreases s.len(),
{
    if k == s.len() - 1 {
        assert(s.remove(k) =~= s.drop_last());
    } else {
        let r = s.remove(k);
        assert(r.last() == s.last());
        assert(r.drop_last() =~= s.drop_last().remove(k));
        if s.last().path@ != path {
            lemma_lookup_remove(s.drop_last(), k, path);
        }
    }
}

/// Persistent mapping from absolute path to last cursor visible-item index.
pub struct HistoryStore {
    pub entries: Vec<HistoryEntry>,
}

impl HistoryStore {
    /// The empty history.
    pub fn new() -> (r: Self)
        ensures
            r.entries@.len() == 0,
            forall|p: Seq<char>| spec_lookup(r.entries@, p) is None,
    {
        let r = HistoryStore { entries: Vec::new() };
        proof {
            assert forall|p: Seq<char>| spec_lookup(r.entries@, p) is None by {}
        }
        r
    }

    /// Look up the remembered index for `path`.
    pub fn lookup(&self, path: &Vec<char>) -> (r: Option<usize>)
        ensures
            r matches Some(v) ==> spec_lookup(self.entries@, path@) == Some(v as int),
            r is None ==> spec_lookup(self.entries@, path@) is None,
    {
        let mut i: usize = self.entries.len();
        proof {
            assert(self.entries@.take(self.entries@.len() as int) =~= self.entries@);
        }
        while i > 0
            invariant
                0 <= i <= self.entries@.len(),
                spec_lookup(self.entries@, path@)
                    == spec_lookup(self.entries@.take(i as int), path@),
            decreases i,
        {
            i = i - 1;
            proof {
                assert(self.entries@.take(i + 1).last() == self.entries@[i as int]);
                assert(self.entries@.take(i + 1).drop_last() =~= self.entries@.take(i as int));
            }
            if chars_equal(&self.entries[i].path, path) {
                proof {
                    assert(spec_lookup(self.entries@.take(i + 1), path@)
                        == Some(self.entries@[i as int].index as int));
                }
                return Some(self.entries[i].index);
            }
        }
        proof {
            assert(self.entries@.take(0) =~= Seq::<HistoryEntry>::empty());
        }
        None
    }

    /// Record `index` as the position for `path`, replacing the previous
    /// entry for that path if there is one. After the call, `path` maps to
    /// `index` and every other path maps as before.
    pub fn update(&mut self, path: Vec<char>, index: usize)
        ensures
            spec_lookup(final(self).entries@, path@) == Some(index as int),
            forall|p: Seq<char>| p != path@
                ==> spec_lookup(final(self).entries@, p) == spec_lookup(old(self).entries@, p),
            entries_unique(old(self).entries@) ==> entries_unique(final(self).entries@),
    {
        let ghost orig = self.entries@;
        // find an existing entry for this path
        let mut k: usize = 0;
        let mut found: bool = false;
        while k < self.entries.len() && !found
            invariant
                0 <= k <= self.entries@.len(),
                self.entries@ == orig,
                !found ==> forall|i: int| 0 <= i < k ==> orig[i].path@ != path@,
                found ==> k < orig.len() && orig[k as int].path@ == path@,
            decreases orig.len() - k + (if found { 0int } else { 1int }),
        {
            if chars_equal(&self.entries[k].path, &path) {
                found = true;
            } else {
                k = k + 1;
            }
        }
        if found {
            let mut e = self.entries.remove(k);
            e.index = index;
            let ghost removed = self.entries@;
            self.entries.push(e);
            proof {
                orig.remove_ensures(k as int);
                assert(self.entries@.last().path@ == path@);
                assert(self.entries@.drop_last() =~= removed);
                assert forall|p: Seq<char>| p != path@ implies
                    spec_lookup(self.entries@, p) == spec_lookup(orig, p) by {
                    lemma_lookup_remove(orig, k as int, p);
                }
                if entries_unique(orig) {
                    assert forall|i: int, j: int| 0 <= i < j < self.entries@.len() implies
                        self.entries@[i].path@ != self.entries@[j].path@ by {
                        if j < self.entries@.len() - 1 {
                            // both sides lie in the removed sequence
                            let oi = if i < k { i } else { i + 1 };
                            let oj = if j < k { j } else { j + 1 };
                            assert(self.entries@[i] == orig[oi]);
                            assert(self.entries@[j] == orig[oj]);
                        } else {
                            let oi = if i < k { i } else { i + 1 };
                            assert(self.entries@[i] == orig[oi]);
                            assert(orig[oi].path@ != orig[k as int].path@);
                        }
                    }
                }
            }
        } else {
            let e = HistoryEntry { path, index };
            self.entries.push(e);
            proof {
                assert(self.entries@.last().path@ == path@);
                assert(self.entries@.drop_last() =~= orig);
                if entries_unique(orig) {
                    assert forall|i: int, j: int| 0 <= i < j < self.entries@.len() implies
                        self.entries@[i].path@ != self.entries@[j].path@ by {
                        if j == self.entries@.len() - 1 {
                            assert(self.entries@[i] == orig[i]);
                        } else {
                            assert(self.entries@[i] == orig[i]);
                            assert(self.entries@[j] == orig[j]);
                        }
                    }
                }
            }
        }
    }
}

// ----- serialized form -----
//
// Each entry is written as `index SP length SP path` with both numbers in
// decimal, records simply concatenated; the path length makes the format
// self-delimiting whatever characters a path contains.

/// The decimal digit character for `d`.
pub open spec fn digit_char(d: int) -> char {
    if d == 0 {
        '0'
    } else if d == 1 {
        '1'
    } else if d == 2 {
        '2'
    } else if d == 3 {
        '3'
    } else if d == 4 {
        '4'
    } else if d == 5 {
        '5'
    } else if d == 6 {
        '6'
    } else if d == 7 {
        '7'
    } else if d == 8 {
        '8'
    } else {
        '9'
    }
}

/// The value of a decimal digit character, or -1.
pub open spec fn digit_val(c: char) -> int {
    if 48 <= c as u32 && c as u32 <= 57 {
        c as u32 - 48
    } else {
        -1
    }
}

pub open spec fn is_digit(c: char) -> bool {
    digit_val(c) >= 0
}

/// Decimal representation of a non-negative number, most significant
/// digit first, no leading zeros.
pub open spec fn dec_rep(n: int) -> Seq<char>
    recommends
        n >= 0,
    decreases n,
{
    if n < 10 {
        seq![digit_char(n)]
    } else {
        dec_rep(n / 10).push(digit_char(n % 10))
    }
}

pub open spec fn all_digits(s: Seq<char>) -> bool {
    forall|i: int| 0 <= i < s.len() ==> is_digit(s[i])
}

/// The number a digit string denotes.
pub open spec fn dec_val(s: Seq<char>) -> int
    decreases s.len(),
{
    if s.len() == 0 {
        0
    } else {
        dec_val(s.drop_last()) * 10 + digit_val(s.last())
    }
}

/// `dec_rep` produces digits and `dec_val` reads them back.
proof fn lemma_dec_rep(n: int)
    requires
        n >= 0,
    ensures
        dec_rep(n).len() >= 1,
        all_digits(dec_rep(n)),
        dec_val(dec_rep(n)) == n,
    decreases n,
{
    if n < 10 {
        assert(dec_rep(n) == seq![digit_char(n)]);
        assert(digit_val(digit_char(n)) == n);
        assert(dec_rep(n).drop_last() =~= Seq::<char>::empty());
        assert(dec_rep(n).last() == digit_char(n));
        assert(dec_val(Seq::<char>::empty()) == 0);
        assert(dec_val(dec_rep(n))
            == dec_val(dec_rep(n).drop_last()) * 10 + digit_val(dec_rep(n).last()));
        assert(dec_val(dec_rep(n)) == n);
    } else {
        lemma_dec_rep(n / 10);
        let front = dec_rep(n / 10);
        let c = digit_char(n % 10);
        assert(front.push(c).drop_last() =~= front);
        assert(front.push(c).last() == c);
        assert(0 <= n % 10 < 10);
        assert(digit_val(c) == n % 10);
        vstd::arithmetic::div_mod::lemma_fundamental_div_mod(n, 10);
        assert(dec_rep(n) == front.push(c));
        assert(dec_val(front.push(c)) == dec_val(front) * 10 + digit_val(c));
        assert(dec_val(dec_rep(n)) == (n / 10) * 10 + (n % 10));
        assert forall|i: int| 0 <= i < front.push(c).len() implies
            is_digit(front.push(c)[i]) by {
            if i < front.len() {
                assert(is_digit(front[i]));
            }
        }
    }
}

/// A digit string denotes a non-negative number.
proof fn lemma_dec_val_nonneg(s: Seq<char>)
    requires
        all_digits(s),
    ensures
        dec_val(s) >= 0,
    decreases s.len(),
{
    if s.len() > 0 {
        assert(all_digits(s.drop_last()));
        lemma_dec_val_nonneg(s.drop_last());
        assert(digit_val(s.last()) >= 0);
    }
}

/// Longer digit prefixes denote no smaller numbers.
proof fn lemma_dec_val_mono(s: Seq<char>, i: int, j: int)
    requires
        all_digits(s),
        0 <= i <= j <= s.len(),
    ensures
        dec_val(s.take(i)) <= dec_val(s.take(j)),
    decreases j - i,
{
    if i < j {
        lemma_dec_val_mono(s, i, j - 1);
        assert(s.take(j).drop_last() =~= s.take(j - 1));
        assert(all_digits(s.take(j - 1)));
        lemma_dec_val_nonneg(s.take(j - 1));
        assert(digit_val(s.take(j).last()) >= 0);
    }
}

/// Where the digit run starting at `from` ends.
pub open spec fn end_of_digits(s: Seq<char>, from: int) -> int
    recommends
        0 <= from <= s.len(),
    decreases s.len() - from,
{
    if from >= s.len() {
        s.len() as int
    } else if is_digit(s[from]) {
        end_of_digits(s, from + 1)
    } else {
        from
    }
}

/// `end_of_digits` is characterized by its digits and its terminator.
proof fn lemma_end_of_digits(s: Seq<char>, from: int, m: int)
    requires
        0 <= from <= m <= s.len(),
        forall|j: int| from <= j < m ==> is_digit(s[j]),
        m == s.len() || !is_digit(s[m]),
    ensures
        end_of_digits(s, from) == m,
    decreases m - from,
{
    if from < m {
        lemma_end_of_digits(s, from + 1, m);
    }
}

/// One record: both numbers in decimal, then the path itself.
pub open spec fn spec_record(path: Seq<char>, idx: int) -> Seq<char> {
    dec_rep(idx) + seq![' '] + dec_rep(path.len() as int) + seq![' '] + path
}

/// Parse one record off the front: the path, the index, and how many
/// characters were consumed. `None` on any malformed or oversized field.
pub open spec fn spec_parse_record(s: Seq<char>) -> Option<(Seq<char>, int, int)> {
    let i1 = end_of_digits(s, 0);
    if i1 == 0 || i1 >= s.len() || s[i1] != ' ' {
        None
    } else {
        let idx = dec_val(s.take(i1));
        let i2 = end_of_digits(s, i1 + 1);
        if i2 == i1 + 1 || i2 >= s.len() || s[i2] != ' ' {
            None
        } else {
            let l = dec_val(s.subrange(i1 + 1, i2));
            if idx > usize::MAX || l > usize::MAX || i2 + 1 + l > s.len() {
                None
            } else {
                Some((s.subrange(i2 + 1, i2 + 1 + l), idx, i2 + 1 + l))
            }
        }
    }
}

/// Decode a whole stream of records, or nothing if any part is malformed.
pub open spec fn spec_decode(s: Seq<char>) -> Option<Seq<(Seq<char>, int)>>
    decreases s.len(),
{
    if s.len() == 0 {
        Some(Seq::empty())
    } else {
        match spec_parse_record(s) {
            None => None,
            Some((path, idx, used)) => if 0 < used <= s.len() {
                match spec_decode(s.skip(used)) {
                    None => None,
                    Some(t) => Some(seq![(path, idx)] + t),
                }
            } else {
                None
            },
        }
    }
}

/// The associations a store holds, in order.
pub open spec fn store_model(s: Seq<HistoryEntry>) -> Seq<(Seq<char>, int)> {
    s.map_values(|e: HistoryEntry| (e.path@, e.index as int))
}

/// Records of the model from position `i` on, concatenated.
pub open spec fn spec_encode_from(m: Seq<(Seq<char>, int)>, i: int) -> Seq<char>
    decreases m.len() - i,
{
    if i < 0 || i >= m.len() {
        Seq::empty()
    } else {
        spec_record(m[i].0, m[i].1) + spec_encode_from(m, i + 1)
    }
}

/// The serialized form of a model.
pub open spec fn spec_encode(m: Seq<(Seq<char>, int)>) -> Seq<char> {
    spec_encode_from(m, 0)
}

/// Parsing an encoded record off any stream recovers it exactly.
proof fn lemma_parse_encoded_record(path: Seq<char>, idx: int, tail: Seq<char>)
    requires
        0 <= idx <= usize::MAX,
        path.len() <= usize::MAX,
    ensures
        ({
            let s = spec_record(path, idx) + tail;
            spec_parse_record(s) == Some((path, idx, spec_record(path, idx).len() as int))
                && s.skip(spec_record(path, idx).len() as int) == tail
        }),
{
    let rec = spec_record(path, idx);
    let s = rec + tail;
    let a = dec_rep(idx);
    let b = dec_rep(path.len() as int);
    lemma_dec_rep(idx);
    lemma_dec_rep(path.len() as int);
    let i1 = a.len() as int;
    let i2 = i1 + 1 + b.len();
    assert(s[i1] == ' ');
    assert(s[i2] == ' ');
    lemma_end_of_digits(s, 0, i1);
    lemma_end_of_digits(s, i1 + 1, i2);
    assert(s.take(i1) =~= a);
    assert(s.subrange(i1 + 1, i2) =~= b);
    assert(s.subrange(i2 + 1, i2 + 1 + path.len()) =~= path);
    assert(rec.len() == i2 + 1 + path.len());
    assert(s.skip(rec.len() as int) =~= tail);
}

/// Decoding an encoded model, from any starting record, yields the rest
/// of the model exactly.
proof fn lemma_decode_encode_from(m: Seq<(Seq<char>, int)>, i: int)
    requires
        0 <= i <= m.len(),
        forall|k: int| 0 <= k < m.len()
            ==> 0 <= (#[trigger] m[k]).1 <= usize::MAX && m[k].0.len() <= usize::MAX,
    ensures
        spec_decode(spec_encode_from(m, i)) == Some(m.skip(i)),
    decreases m.len() - i,
{
    if i == m.len() {
        assert(m.skip(i) =~= Seq::<(Seq<char>, int)>::empty());
    } else {
        let rec = spec_record(m[i].0, m[i].1);
        let tail = spec_encode_from(m, i + 1);
        let s = spec_encode_from(m, i);
        assert(s == rec + tail);
        lemma_parse_encoded_record(m[i].0, m[i].1, tail);
        lemma_dec_rep(m[i].1);
        lemma_dec_rep(m[i].0.len() as int);
        assert(s.len() > 0);
        lemma_decode_encode_from(m, i + 1);
        assert(s.skip(rec.len() as int) == tail);
        assert(spec_decode(s) == Some(seq![(m[i].0, m[i].1)] + m.skip(i + 1)));
        assert(seq![(m[i].0, m[i].1)] + m.skip(i + 1) =~= m.skip(i));
    }
}

/// Round trip: decoding an encoded history yields exactly the same
/// path-to-index associations, in the same order.
pub proof fn lemma_history_round_trip(m: Seq<(Seq<char>, int)>)
    requires
        forall|k: int| 0 <= k < m.len()
            ==> 0 <= (#[trigger] m[k]).1 <= usize::MAX && m[k].0.len() <= usize::MAX,
    ensures
        spec_decode(spec_encode(m)) == Some(m),
{
    lemma_decode_encode_from(m, 0);
    assert(m.skip(0) =~= m);
}


// ----- executable codec -----

/// The decimal digit character for `d`.
fn digit_char_of(d: usize) -> (r: char)
    requires
        d < 10,
    ensures
        r == digit_char(d as int),
{
    if d == 0 {
        '0'
    } else if d == 1 {
        '1'
    } else if d == 2 {
        '2'
    } else if d == 3 {
        '3'
    } else if d == 4 {
        '4'
    } else if d == 5 {
        '5'
    } else if d == 6 {
        '6'
    } else if d == 7 {
        '7'
    } else if d == 8 {
        '8'
    } else {
        '9'
    }
}

/// Append the decimal representation of `n`.
fn push_decimal(r: &mut Vec<char>, n: usize)
    ensures
        final(r)@ == old(r)@ + dec_rep(n as int),
    decreases n,
{
    if n < 10 {
        r.push(digit_char_of(n));
        proof {
            assert(final(r)@ =~= old(r)@ + dec_rep(n as int));
        }
    } else {
        let ghost before = r@;
        push_decimal(r, n / 10);
        r.push(digit_char_of(n % 10));
        proof {
            assert(r@ =~= before + dec_rep(n as int));
        }
    }
}

/// End of the digit run starting at `from`.
fn scan_digits(s: &Vec<char>, from: usize) -> (r: usize)
    requires
        from <= s@.len(),
    ensures
        from <= r <= s@.len(),
        forall|j: int| from <= j < r ==> is_digit(s@[j]),
        r == s@.len() || !is_digit(s@[r as int]),
{
    let mut i: usize = from;
    while i < s.len()
        invariant
            from <= i <= s@.len(),
            forall|j: int| from <= j < i ==> is_digit(s@[j]),
        decreases s@.len() - i,
    {
        let u = s[i] as u32;
        if !(48 <= u && u <= 57) {
            return i;
        }
        i = i + 1;
    }
    i
}

/// Parse a run of digits into a number; `None` when it does not fit.
fn parse_digits(s: &Vec<char>, start: usize, end: usize) -> (r: Option<usize>)
    requires
        start <= end <= s@.len(),
        forall|j: int| start <= j < end ==> is_digit(s@[j]),
    ensures
        r matches Some(v) ==> v as int == dec_val(s@.subrange(start as int, end as int)),
        r is None ==> dec_val(s@.subrange(start as int, end as int)) > usize::MAX,
{
    let ghost sub = s@.subrange(start as int, end as int);
    proof {
        assert(sub.take(0) =~= Seq::<char>::empty());
        assert forall|j: int| 0 <= j < sub.len() implies is_digit(#[trigger] sub[j]) by {
            assert(sub[j] == s@[start + j]);
        }
    }
    let mut acc: usize = 0;
    let mut i: usize = start;
    while i < end
        invariant
            start <= i <= end <= s@.len(),
            sub == s@.subrange(start as int, end as int),
            all_digits(sub),
            forall|j: int| start <= j < end ==> is_digit(s@[j]),
            acc as int == dec_val(sub.take(i - start)),
        decreases end - i,
    {
        let u = s[i] as u32;
        proof {
            assert(is_digit(s@[i as int]));
            assert(sub[i - start] == s@[i as int]);
            assert(sub.take(i - start + 1).drop_last() =~= sub.take(i - start));
            assert(sub.take(i - start + 1).last() == sub[i - start]);
        }
        let d = (u - 48) as usize;
        proof {
            assert(d as int == digit_val(s@[i as int]));
        }
        let a128 = acc as u128 * 10 + d as u128;
        if a128 > usize::MAX as u128 {
            proof {
                assert(dec_val(sub.take(i - start + 1)) == acc as int * 10 + d);
                assert(dec_val(sub.take(i - start + 1)) > usize::MAX);
                lemma_dec_val_mono(sub, i - start + 1, sub.len() as int);
                assert(sub.take(sub.len() as int) =~= sub);
            }
            return None;
        }
        acc = a128 as usize;
        i = i + 1;
    }
    proof {
        assert(sub.take(end - start) =~= sub);
    }
    Some(acc)
}

impl HistoryStore {
    /// Serialize the store; `decode` reads the result back exactly.
    pub fn encode(&self) -> (r: Vec<char>)
        ensures
            r@ == spec_encode(store_model(self.entries@)),
    {
        let ghost model = store_model(self.entries@);
        let mut r: Vec<char> = Vec::new();
        let mut k: usize = 0;
        while k < self.entries.len()
            invariant
                0 <= k <= self.entries@.len(),
                model == store_model(self.entries@),
                spec_encode(model) == r@ + spec_encode_from(model, k as int),
            decreases self.entries@.len() - k,
        {
            let ghost before = r@;
            let e = &self.entries[k];
            push_decimal(&mut r, e.index);
            r.push(' ');
            push_decimal(&mut r, e.path.len());
            r.push(' ');
            let mut j: usize = 0;
            let ghost mid = r@;
            while j < e.path.len()
                invariant
                    0 <= j <= e.path@.len(),
                    r@ == mid + e.path@.take(j as int),
                decreases e.path@.len() - j,
            {
                r.push(e.path[j]);
                proof {
                    assert(mid + e.path@.take(j + 1)
                        =~= (mid + e.path@.take(j as int)).push(e.path@[j as int]));
                }
                j = j + 1;
            }
            proof {
                assert(e.path@.take(e.path@.len() as int) =~= e.path@);
                assert(model[k as int] == (e.path@, e.index as int));
                assert(r@ =~= before + spec_record(e.path@, e.index as int));
                assert(spec_encode_from(model, k as int)
                    == spec_record(e.path@, e.index as int) + spec_encode_from(model, k + 1));
                assert(r@ + spec_encode_from(model, k + 1)
                    =~= before + spec_encode_from(model, k as int));
            }
            k = k + 1;
        }
        r
    }

    /// Read a serialized store back; `None` when the stream is malformed,
    /// and the caller starts with an empty history.
    pub fn decode(input: &Vec<char>) -> (r: Option<HistoryStore>)
        ensures
            r matches Some(h) ==> spec_decode(input@) == Some(store_model(h.entries@)),
            r is None ==> spec_decode(input@) is None,
    {
        let mut pos: usize = 0;
        let mut entries: Vec<HistoryEntry> = Vec::new();
        proof {
            assert(input@.skip(0) =~= input@);
            assert(store_model(entries@) =~= Seq::<(Seq<char>, int)>::empty());
        }
        loop
            invariant
                0 <= pos <= input@.len(),
                spec_decode(input@.skip(pos as int)) is Some ==> spec_decode(input@)
                    == Some(store_model(entries@)
                        + spec_decode(input@.skip(pos as int))->Some_0),
                spec_decode(input@.skip(pos as int)) is None
                    ==> spec_decode(input@) is None,
            decreases input@.len() - pos,
        {
            let ghost suf = input@.skip(pos as int);
            proof {
                assert forall|j: int| 0 <= j < suf.len() implies
                    #[trigger] suf[j] == input@[pos + j] by {}
            }
            if pos == input.len() {
                proof {
                    assert(suf =~= Seq::<char>::empty());
                    assert(store_model(entries@) + Seq::<(Seq<char>, int)>::empty()
                        =~= store_model(entries@));
                }
                return Some(HistoryStore { entries });
            }
            let e1 = scan_digits(input, pos);
            let ghost i1 = e1 - pos;
            proof {
                lemma_end_of_digits(suf, 0, i1 as int);
                assert(end_of_digits(suf, 0) == i1);
            }
            if e1 == pos || e1 == input.len() || input[e1] != ' ' {
                proof {
                    assert(spec_parse_record(suf) is None);
                }
                return None;
            }
            let idx_opt = parse_digits(input, pos, e1);
            proof {
                assert(input@.subrange(pos as int, e1 as int) =~= suf.take(i1 as int));
            }
            let idx = match idx_opt {
                Some(v) => v,
                None => {
                    proof {
                        assert(dec_val(suf.take(i1 as int)) > usize::MAX);
                        assert(spec_parse_record(suf) is None);
                    }
                    return None;
                }
            };
            let e2 = scan_digits(input, e1 + 1);
            let ghost i2 = e2 - pos;
            proof {
                lemma_end_of_digits(suf, i1 + 1, i2 as int);
                assert(end_of_digits(suf, i1 + 1) == i2);
            }
            if e2 == e1 + 1 || e2 == input.len() || input[e2] != ' ' {
                proof {
                    assert(spec_parse_record(suf) is None);
                }
                return None;
            }
            let len_opt = parse_digits(input, e1 + 1, e2);
            proof {
                assert(input@.subrange(e1 + 1, e2 as int) =~= suf.subrange(i1 + 1, i2 as int));
            }
            let l = match len_opt {
                Some(v) => v,
                None => {
                    proof {
                        assert(dec_val(suf.subrange(i1 + 1, i2 as int)) > usize::MAX);
                        assert(spec_parse_record(suf) is None);
                    }
                    return None;
                }
            };
            if l > input.len() - (e2 + 1) {
                proof {
                    assert(i2 + 1 + l > suf.len());
                    assert(spec_parse_record(suf) is None);
                }
                return None;
            }
            let mut path: Vec<char> = Vec::new();
            let mut j: usize = e2 + 1;
            let pend = e2 + 1 + l;
            while j < pend
                invariant
                    e2 + 1 <= j <= pend,
                    pend == e2 + 1 + l,
                    pend <= input@.len(),
                    path@ == input@.subrange(e2 + 1, j as int),
                decreases pend - j,
            {
                path.push(input[j]);
                proof {
                    assert(input@.subrange(e2 + 1, j + 1)
                        =~= input@.subrange(e2 + 1, j as int).push(input@[j as int]));
                }
                j = j + 1;
            }
            let ghost pathseq = suf.subrange(i2 + 1, i2 + 1 + l);
            let ghost used = i2 + 1 + l;
            proof {
                assert(path@ =~= pathseq);
                assert(spec_parse_record(suf) == Some((pathseq, idx as int, used as int)));
                assert(suf.skip(used as int) =~= input@.skip(pos + used));
            }
            let ghost old_entries = entries@;
            entries.push(HistoryEntry { path, index: idx });
            proof {
                assert(store_model(entries@)
                    =~= store_model(old_entries).push((pathseq, idx as int)));
                let rest = input@.skip(pos + used);
                assert(spec_decode(suf) == (match spec_decode(rest) {
                    None => None::<Seq<(Seq<char>, int)>>,
                    Some(t) => Some(seq![(pathseq, idx as int)] + t),
                }));
                if spec_decode(rest) is Some {
                    let t = spec_decode(rest)->Some_0;
                    assert(store_model(old_entries) + (seq![(pathseq, idx as int)] + t)
                        =~= store_model(entries@) + t);
                }
            }
            pos = e2 + 1 + l;
        }
    }
}

} // verus!
