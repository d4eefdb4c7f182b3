//! The navigation controller: owns the listing, the search state, the
//! cursor and the history, and is the sole entry point for intents.
//!
//! The search match set is always the full recomputation for the current
//! query, listing and mode policies; it is never patched by hand. The
//! cursor invariant holds after every operation. Filesystem reads and
//! history-file writes happen outside: directory changes are resolved here
//! to a path, the embedding program lists it, and the new listing is
//! applied here.

use vstd::prelude::*;
use crate::chars::clone_chars;
use crate::cursor::CursorScroll;
use crate::cursor::clamp_target;
use crate::cursor::wrap_target;
use crate::history::HistoryStore;
use crate::history::spec_lookup;
use crate::history::entries_unique;
use crate::listing::Entry;
use crate::listing::listing_sorted;
use crate::search::MatchData;
use crate::search::MatchDataV;
use crate::search::compute_matches;
use crate::search::listing_names;
use crate::search::matches_view;
use crate::search::spec_matches;
use crate::search::lemma_spec_matches_sound;
use crate::settings::CaseSensitiveMode;
use crate::settings::GapSearchMode;
use crate::settings::TereSettings;

verus! {

/// A recoverable navigation failure; reported as a status message, state
/// unchanged.
#[derive(Clone, Copy, Debug, PartialEq, Eq, Structural)]
pub enum NavError {
    /// The target of the change is not a directory.
    NotADirectory,
    /// The target no longer exists.
    NotFound,
    /// The target cannot be read.
    PermissionDenied,
    /// Any other failure while reading the target.
    IoFailure,
}

/// The first match index at or after `lo`, in listing order.
pub open spec fn spec_first_from(m: Seq<MatchDataV>, lo: int) -> Option<int>
    decreases m.len(),
{
    if m.len() == 0 {
        None
    } else {
        match spec_first_from(m.drop_last(), lo) {
            Some(t) => Some(t),
            None => if m.last().index >= lo {
                Some(m.last().index)
            } else {
                None
            },
        }
    }
}

/// The last match index strictly below `cur`, in listing order.
pub open spec fn spec_last_below(m: Seq<MatchDataV>, cur: int) -> Option<int>
    decreases m.len(),
{
    if m.len() == 0 {
        None
    } else if m.last().index < cur {
        Some(m.last().index)
    } else {
        spec_last_below(m.drop_last(), cur)
    }
}

/// A qualifying prefix answer is the whole sequence's answer.
proof fn lemma_first_from_prefix(m: Seq<MatchDataV>, j: int, lo: int)
    requires
        0 <= j <= m.len(),
        spec_first_from(m.take(j), lo) is Some,
    ensures
        spec_first_from(m, lo) == spec_first_from(m.take(j), lo),
    decreases m.len(),
{
    if j == m.len() {
        assert(m.take(j) =~= m);
    } else {
        assert(m.drop_last().take(j) =~= m.take(j));
        lemma_first_from_prefix(m.drop_last(), j, lo);
    }
}

/// A found first-match index is the index of some match.
proof fn lemma_first_from_in(m: Seq<MatchDataV>, lo: int)
    ensures
        spec_first_from(m, lo) matches Some(t)
            ==> exists|i: int| 0 <= i < m.len() && (#[trigger] m[i]).index == t,
    decreases m.len(),
{
    if m.len() > 0 {
        lemma_first_from_in(m.drop_last(), lo);
        if spec_first_from(m.drop_last(), lo) is Some {
            let t = spec_first_from(m.drop_last(), lo)->Some_0;
            let i = choose|i: int| 0 <= i < m.drop_last().len()
                && (#[trigger] m.drop_last()[i]).index == t;
            assert(m[i].index == t);
        } else if m.last().index >= lo {
            assert(m[m.len() - 1].index == m.last().index);
        }
    }
}

/// A found last-below index is the index of some match.
proof fn lemma_last_below_in(m: Seq<MatchDataV>, cur: int)
    ensures
        spec_last_below(m, cur) matches Some(t)
            ==> exists|i: int| 0 <= i < m.len() && (#[trigger] m[i]).index == t,
    decreases m.len(),
{
    if m.len() > 0 {
        lemma_last_below_in(m.drop_last(), cur);
        if m.last().index < cur {
            assert(m[m.len() - 1].index == m.last().index);
        } else if spec_last_below(m.drop_last(), cur) is Some {
            let t = spec_last_below(m.drop_last(), cur)->Some_0;
            let i = choose|i: int| 0 <= i < m.drop_last().len()
                && (#[trigger] m.drop_last()[i]).index == t;
            assert(m[i].index == t);
        }
    }
}

/// The navigation/search state engine behind the terminal session: one
/// value holds everything the renderer needs, and every intent mutates it
/// through a contract. Drawing and raw input stay outside; this type owns
/// the logic.
pub struct TereTui {
    /// Resolved absolute path of the current directory.
    pub current_path: Vec<char>,
    /// Canonical listing of the current directory.
    pub listing: Vec<Entry>,
    /// The incremental search query; empty means browsing.
    pub search_string: Vec<char>,
    /// Derived match set; always `spec_matches` of the current state.
    pub search_matches: Vec<MatchData>,
    /// Cursor row and scroll offset over the visible items.
    pub cursor: CursorScroll,
    /// Width of the main window, kept for the renderer.
    pub main_win_w: usize,
    /// Per-directory cursor history.
    pub history: HistoryStore,
    /// Session configuration; the two mode policies can be cycled.
    pub settings: TereSettings,
}

impl TereTui {
    /// Search display filters the listing down to the matches.
    pub open spec fn filtering(self) -> bool {
        self.settings.filter_search && self.search_string@.len() > 0
    }

    /// How many items are visible: the matches while filtering, the whole
    /// listing otherwise.
    pub open spec fn visible_count(self) -> int {
        if self.filtering() {
            self.search_matches@.len() as int
        } else {
            self.listing@.len() as int
        }
    }

    /// The listing index a visible-item index refers to.
    pub open spec fn visible_to_listing(self, i: int) -> int {
        if self.filtering() {
            self.search_matches@[i]@.index
        } else {
            i
        }
    }

    /// Well-formedness: the listing is in canonical sorted order, the
    /// match set is the full recomputation for the current query, listing
    /// and modes, and the cursor is consistent with the visible items.
    pub open spec fn inv(self) -> bool {
        &&& listing_sorted(self.listing@)
        &&& matches_view(self.search_matches@) == spec_matches(
            listing_names(self.listing@),
            self.search_string@,
            self.settings.case_sensitive,
            self.settings.gap_search_mode,
        )
        &&& self.cursor.inv(self.visible_count())
    }

    /// The cursor's logical index fits in a machine word.
    proof fn lemma_cursor_sum_bound(self)
        requires
            self.cursor.inv(self.visible_count()),
        ensures
            self.cursor.cursor_pos + self.cursor.scroll_pos <= usize::MAX,
    {
        broadcast use vstd::std_specs::vec::axiom_spec_len;

        assert(vstd::std_specs::vec::spec_vec_len(&self.search_matches)
            == self.search_matches@.len());
        assert(vstd::std_specs::vec::spec_vec_len(&self.listing) == self.listing@.len());
    }

    /// The number of visible items.
    pub fn num_visible_items(&self) -> (r: usize)
        ensures
            r == self.visible_count(),
    {
        if self.settings.filter_search && self.search_string.len() > 0 {
            self.search_matches.len()
        } else {
            self.listing.len()
        }
    }

    /// The number of entries in the current listing.
    pub fn num_total_items(&self) -> (r: usize)
        ensures
            r == self.listing@.len(),
    {
        self.listing.len()
    }

    /// The number of entries matching the current query.
    pub fn num_matching_items(&self) -> (r: usize)
        ensures
            r == self.search_matches@.len(),
    {
        self.search_matches.len()
    }

    /// Whether a search is in progress (the query is non-empty).
    pub fn is_searching(&self) -> (r: bool)
        ensures
            r == (self.search_string@.len() > 0),
    {
        self.search_string.len() > 0
    }

    /// The current (logical) path, for printing on exit.
    pub fn current_path(&self) -> (r: Vec<char>)
        ensures
            r@ == self.current_path@,
    {
        clone_chars(&self.current_path)
    }

    /// The current query.
    pub fn search_string(&self) -> (r: &Vec<char>)
        ensures
            r@ == self.search_string@,
    {
        &self.search_string
    }

    /// The logical visible-item index under the cursor.
    pub fn cursor_index(&self) -> (r: usize)
        requires
            self.cursor.cursor_pos + self.cursor.scroll_pos <= usize::MAX,
        ensures
            r == self.cursor.index(),
    {
        self.cursor.cursor_pos + self.cursor.scroll_pos
    }

    /// Translate a viewport row to a visible-item index, as the renderer
    /// does for each drawn row.
    pub fn cursor_pos_to_visible_item_index(&self, cursor_pos: usize) -> (r: usize)
        requires
            cursor_pos + self.cursor.scroll_pos <= usize::MAX,
        ensures
            r == cursor_pos + self.cursor.scroll_pos,
    {
        cursor_pos + self.cursor.scroll_pos
    }

    /// Build the initial state for the starting directory: listing already
    /// read and sorted, history already loaded. The cursor starts on the
    /// remembered position for `path`, clamped to the listing, or at 0.
    pub fn init(
        settings: TereSettings,
        path: Vec<char>,
        listing: Vec<Entry>,
        history: HistoryStore,
        win_w: usize,
        win_h: usize,
    ) -> (r: Self)
        requires
            listing_sorted(listing@),
        ensures
            r.inv(),
            r.settings == settings,
            r.current_path@ == path@,
            r.listing == listing,
            r.search_string@.len() == 0,
            r.history == history,
            r.main_win_w == win_w,
            r.cursor.viewport_height == win_h,
            r.cursor.index() == (match spec_lookup(history.entries@, path@) {
                Some(i) => clamp_target(i, 0, listing@.len() as int),
                None => 0,
            }),
    {
        let search_string: Vec<char> = Vec::new();
        let search_matches = compute_matches(
            &listing, &search_string, settings.case_sensitive, settings.gap_search_mode);
        let mut cursor = CursorScroll::new(win_h);
        let remembered = history.lookup(&path);
        let count = listing.len();
        match remembered {
            Some(i) => cursor.move_to(i, count),
            None => cursor.move_to(0, count),
        }
        let r = TereTui {
            current_path: path,
            listing,
            search_string,
            search_matches,
            cursor,
            main_win_w: win_w,
            history,
            settings,
        };
        r
    }

    /// Append characters to the query, recompute the match set, and move
    /// the cursor to the first match at or after it (wrapping to the first
    /// match), or leave it when nothing matches.
    pub fn advance_search(&mut self, text: &Vec<char>)
        requires
            old(self).inv(),
        ensures
            final(self).inv(),
            final(self).search_string@ == old(self).search_string@ + text@,
            final(self).listing == old(self).listing,
            final(self).current_path == old(self).current_path,
            final(self).history == old(self).history,
            final(self).settings == old(self).settings,
            final(self).cursor.viewport_height == old(self).cursor.viewport_height,
            !final(self).filtering() && final(self).search_matches@.len() > 0
                ==> final(self).cursor.index() == (match spec_first_from(
                    matches_view(final(self).search_matches@), old(self).cursor.index()) {
                    Some(t) => t,
                    None => matches_view(final(self).search_matches@)[0].index,
                }),
            final(self).filtering() || final(self).search_matches@.len() == 0
                ==> final(self).cursor.index()
                    == clamp_target(old(self).cursor.index(), 0, final(self).visible_count()),
    {
        let mut i: usize = 0;
        while i < text.len()
            invariant
                0 <= i <= text@.len(),
                self.search_string@ == old(self).search_string@ + text@.take(i as int),
                self.listing == old(self).listing,
                self.current_path == old(self).current_path,
                self.history == old(self).history,
                self.settings == old(self).settings,
                self.cursor == old(self).cursor,
                self.main_win_w == old(self).main_win_w,
                self.search_matches == old(self).search_matches,
            decreases text@.len() - i,
        {
            self.search_string.push(text[i]);
            proof {
                assert(old(self).search_string@ + text@.take(i + 1)
                    =~= (old(self).search_string@ + text@.take(i as int)).push(text@[i as int]));
            }
            i = i + 1;
        }
        proof {
            assert(text@.take(text@.len() as int) =~= text@);
            old(self).lemma_cursor_sum_bound();
        }
        self.recompute_and_place();
    }

    /// Erase the last query character (no-op on an empty query) and
    /// recompute the match set. The cursor stays on its item, clamped to
    /// the visible items while filtering.
    pub fn erase_search_char(&mut self)
        requires
            old(self).inv(),
        ensures
            final(self).inv(),
            final(self).search_string@ == if old(self).search_string@.len() == 0 {
                old(self).search_string@
            } else {
                old(self).search_string@.drop_last()
            },
            final(self).listing == old(self).listing,
            final(self).current_path == old(self).current_path,
            final(self).history == old(self).history,
            final(self).settings == old(self).settings,
            final(self).cursor.viewport_height == old(self).cursor.viewport_height,
            final(self).cursor.index()
                == clamp_target(old(self).cursor.index(), 0, final(self).visible_count()),
    {
        if self.search_string.len() > 0 {
            let n = self.search_string.len();
            let _ = self.search_string.remove(n - 1);
            proof {
                assert(self.search_string@ =~= old(self).search_string@.drop_last());
            }
        }
        proof {
            old(self).lemma_cursor_sum_bound();
        }
        self.recompute_keep_cursor();
    }

    /// Clear the query entirely and recompute. The cursor keeps its item.
    pub fn clear_search(&mut self)
        requires
            old(self).inv(),
        ensures
            final(self).inv(),
            final(self).search_string@.len() == 0,
            final(self).listing == old(self).listing,
            final(self).current_path == old(self).current_path,
            final(self).history == old(self).history,
            final(self).settings == old(self).settings,
            final(self).cursor.viewport_height == old(self).cursor.viewport_height,
            final(self).cursor.index()
                == clamp_target(old(self).cursor.index(), 0, final(self).visible_count()),
    {
        self.search_string = Vec::new();
        proof {
            old(self).lemma_cursor_sum_bound();
        }
        self.recompute_keep_cursor();
    }

    /// Cycle to the next case policy and recompute the match set under it,
    /// with the query unchanged: three calls restore the starting policy.
    /// The cursor keeps its item, clamped to the visible items.
    pub fn cycle_case_sensitive_mode(&mut self)
        requires
            old(self).inv(),
        ensures
            final(self).inv(),
            final(self).settings.case_sensitive
                == (match old(self).settings.case_sensitive {
                    CaseSensitiveMode::IgnoreCase => CaseSensitiveMode::CaseSensitive,
                    CaseSensitiveMode::CaseSensitive => CaseSensitiveMode::SmartCase,
                    CaseSensitiveMode::SmartCase => CaseSensitiveMode::IgnoreCase,
                }),
            final(self).settings.gap_search_mode == old(self).settings.gap_search_mode,
            final(self).settings.filter_search == old(self).settings.filter_search,
            final(self).settings.folders_only == old(self).settings.folders_only,
            final(self).settings.autocd_timeout == old(self).settings.autocd_timeout,
            final(self).settings.history_file == old(self).settings.history_file,
            final(self).settings.mouse_enabled == old(self).settings.mouse_enabled,
            final(self).settings.enter_is_cd_and_exit == old(self).settings.enter_is_cd_and_exit,
            final(self).settings.esc_is_cancel == old(self).settings.esc_is_cancel,
            final(self).search_string == old(self).search_string,
            final(self).listing == old(self).listing,
            final(self).current_path == old(self).current_path,
            final(self).history == old(self).history,
            final(self).cursor.viewport_height == old(self).cursor.viewport_height,
            final(self).cursor.index()
                == clamp_target(old(self).cursor.index(), 0, final(self).visible_count()),
    {
        self.settings.case_sensitive = self.settings.case_sensitive.next();
        proof {
            old(self).lemma_cursor_sum_bound();
        }
        self.recompute_keep_cursor();
    }

    /// Cycle to the next gap policy and recompute the match set under it,
    /// with the query unchanged: three calls restore the starting policy.
    /// The cursor keeps its item, clamped to the visible items.
    pub fn cycle_gap_search_mode(&mut self)
        requires
            old(self).inv(),
        ensures
            final(self).inv(),
            final(self).settings.gap_search_mode
                == (match old(self).settings.gap_search_mode {
                    GapSearchMode::GapSearchFromStart => GapSearchMode::NoGapSearch,
                    GapSearchMode::NoGapSearch => GapSearchMode::GapSearchAnywhere,
                    GapSearchMode::GapSearchAnywhere => GapSearchMode::GapSearchFromStart,
                }),
            final(self).settings.case_sensitive == old(self).settings.case_sensitive,
            final(self).settings.filter_search == old(self).settings.filter_search,
            final(self).settings.folders_only == old(self).settings.folders_only,
            final(self).settings.autocd_timeout == old(self).settings.autocd_timeout,
            final(self).settings.history_file == old(self).settings.history_file,
            final(self).settings.mouse_enabled == old(self).settings.mouse_enabled,
            final(self).settings.enter_is_cd_and_exit == old(self).settings.enter_is_cd_and_exit,
            final(self).settings.esc_is_cancel == old(self).settings.esc_is_cancel,
            final(self).search_string == old(self).search_string,
            final(self).listing == old(self).listing,
            final(self).current_path == old(self).current_path,
            final(self).history == old(self).history,
            final(self).cursor.viewport_height == old(self).cursor.viewport_height,
            final(self).cursor.index()
                == clamp_target(old(self).cursor.index(), 0, final(self).visible_count()),
    {
        self.settings.gap_search_mode = self.settings.gap_search_mode.next();
        proof {
            old(self).lemma_cursor_sum_bound();
        }
        self.recompute_keep_cursor();
    }

    /// Recompute matches, then clamp the cursor onto the visible items.
    fn recompute_keep_cursor(&mut self)
        requires
            old(self).cursor.cursor_pos + old(self).cursor.scroll_pos <= usize::MAX,
            listing_sorted(old(self).listing@),
        ensures
            final(self).inv(),
            final(self).search_string == old(self).search_string,
            final(self).listing == old(self).listing,
            final(self).current_path == old(self).current_path,
            final(self).history == old(self).history,
            final(self).settings == old(self).settings,
            final(self).main_win_w == old(self).main_win_w,
            final(self).cursor.viewport_height == old(self).cursor.viewport_height,
            final(self).cursor.index()
                == clamp_target(old(self).cursor.index(), 0, final(self).visible_count()),
    {
        self.search_matches = compute_matches(
            &self.listing, &self.search_string,
            self.settings.case_sensitive, self.settings.gap_search_mode);
        let count = self.num_visible_items();
        self.cursor.refit(count);
    }

    /// Recompute matches, then put the cursor on a match when one exists.
    fn recompute_and_place(&mut self)
        requires
            old(self).cursor.cursor_pos + old(self).cursor.scroll_pos <= usize::MAX,
            listing_sorted(old(self).listing@),
        ensures
            final(self).inv(),
            final(self).search_string == old(self).search_string,
            final(self).listing == old(self).listing,
            final(self).current_path == old(self).current_path,
            final(self).history == old(self).history,
            final(self).settings == old(self).settings,
            final(self).main_win_w == old(self).main_win_w,
            final(self).cursor.viewport_height == old(self).cursor.viewport_height,
            !final(self).filtering() && final(self).search_matches@.len() > 0
                ==> final(self).cursor.index() == (match spec_first_from(
                    matches_view(final(self).search_matches@), old(self).cursor.index()) {
                    Some(t) => t,
                    None => matches_view(final(self).search_matches@)[0].index,
                }),
            final(self).filtering() || final(self).search_matches@.len() == 0
                ==> final(self).cursor.index()
                    == clamp_target(old(self).cursor.index(), 0, final(self).visible_count()),
    {
        self.search_matches = compute_matches(
            &self.listing, &self.search_string,
            self.settings.case_sensitive, self.settings.gap_search_mode);
        let count = self.num_visible_items();
        let filtering = self.settings.filter_search && self.search_string.len() > 0;
        if filtering || self.search_matches.len() == 0 {
            self.cursor.refit(count);
        } else {
            let cur = self.cursor.cursor_pos + self.cursor.scroll_pos;
            let target = self.first_match_from(cur);
            proof {
                let mv = matches_view(self.search_matches@);
                lemma_spec_matches_sound(
                    listing_names(self.listing@), self.search_string@,
                    self.settings.case_sensitive, self.settings.gap_search_mode);
                lemma_first_from_in(mv, cur as int);
                assert(0 <= target < count);
            }
            self.cursor.move_to(target, count);
        }
    }

    /// The first match index at or after `lo`, wrapping to the first match.
    fn first_match_from(&self, lo: usize) -> (r: usize)
        requires
            self.search_matches@.len() > 0,
        ensures
            r as int == (match spec_first_from(matches_view(self.search_matches@), lo as int) {
                Some(t) => t,
                None => matches_view(self.search_matches@)[0].index,
            }),
    {
        let ghost mv = matches_view(self.search_matches@);
        let mut k: usize = 0;
        while k < self.search_matches.len()
            invariant
                0 <= k <= self.search_matches@.len(),
                mv == matches_view(self.search_matches@),
                spec_first_from(mv.take(k as int), lo as int) is None,
            decreases self.search_matches@.len() - k,
        {
            proof {
                assert(mv.take(k + 1).drop_last() =~= mv.take(k as int));
                assert(mv.take(k + 1).last() == mv[k as int]);
                assert(mv[k as int] == self.search_matches@[k as int]@);
            }
            if self.search_matches[k].index >= lo {
                proof {
                    assert(spec_first_from(mv.take(k + 1), lo as int)
                        == Some(self.search_matches@[k as int]@.index));
                    lemma_first_from_prefix(mv, k + 1, lo as int);
                }
                return self.search_matches[k].index;
            }
            k = k + 1;
        }
        proof {
            assert(mv.take(mv.len() as int) =~= mv);
        }
        self.search_matches[0].index
    }

    /// The last match index strictly below `cur`, wrapping to the last match.
    fn last_match_below(&self, cur: usize) -> (r: usize)
        requires
            self.search_matches@.len() > 0,
        ensures
            r as int == (match spec_last_below(matches_view(self.search_matches@), cur as int) {
                Some(t) => t,
                None => matches_view(self.search_matches@).last().index,
            }),
    {
        let ghost mv = matches_view(self.search_matches@);
        let mut i: usize = self.search_matches.len();
        proof {
            assert(mv.take(mv.len() as int) =~= mv);
        }
        while i > 0
            invariant
                0 <= i <= self.search_matches@.len(),
                self.search_matches@.len() > 0,
                mv == matches_view(self.search_matches@),
                spec_last_below(mv, cur as int) == spec_last_below(mv.take(i as int), cur as int),
            decreases i,
        {
            i = i - 1;
            proof {
                assert(mv.take(i + 1).drop_last() =~= mv.take(i as int));
                assert(mv.take(i + 1).last() == mv[i as int]);
                assert(mv[i as int] == self.search_matches@[i as int]@);
            }
            if self.search_matches[i].index < cur {
                return self.search_matches[i].index;
            }
        }
        proof {
            assert(mv.take(0) =~= Seq::<MatchDataV>::empty());
            assert(mv.last() == self.search_matches@[self.search_matches@.len() - 1]@);
        }
        let n = self.search_matches.len();
        self.search_matches[n - 1].index
    }

    /// Shift the cursor by `delta` over the visible items, wrapping or
    /// clamping. Total on an empty listing.
    pub fn move_cursor(&mut self, delta: isize, wrap: bool)
        requires
            old(self).inv(),
        ensures
            final(self).inv(),
            final(self).listing == old(self).listing,
            final(self).current_path == old(self).current_path,
            final(self).search_string == old(self).search_string,
            final(self).search_matches == old(self).search_matches,
            final(self).history == old(self).history,
            final(self).settings == old(self).settings,
            final(self).cursor.viewport_height == old(self).cursor.viewport_height,
            final(self).cursor.index() == if wrap {
                wrap_target(old(self).cursor.index(), delta as int, old(self).visible_count())
            } else {
                clamp_target(old(self).cursor.index(), delta as int, old(self).visible_count())
            },
            final(self).cursor.viewport_height > 0 ==> {
                &&& old(self).cursor.scroll_pos <= final(self).cursor.index()
                    < old(self).cursor.scroll_pos + final(self).cursor.viewport_height
                    ==> final(self).cursor.scroll_pos == old(self).cursor.scroll_pos
                &&& final(self).cursor.index() < old(self).cursor.scroll_pos
                    ==> final(self).cursor.scroll_pos == final(self).cursor.index()
                &&& final(self).cursor.index() >= old(self).cursor.scroll_pos
                        + final(self).cursor.viewport_height
                    ==> final(self).cursor.scroll_pos
                        == final(self).cursor.index() - (final(self).cursor.viewport_height - 1)
            },
    {
        let count = self.num_visible_items();
        self.cursor.move_cursor(delta, wrap, count);
    }

    /// Absolute cursor jump among the visible items, clamped.
    pub fn move_cursor_to(&mut self, index: usize)
        requires
            old(self).inv(),
        ensures
            final(self).inv(),
            final(self).listing == old(self).listing,
            final(self).current_path == old(self).current_path,
            final(self).search_string == old(self).search_string,
            final(self).search_matches == old(self).search_matches,
            final(self).history == old(self).history,
            final(self).settings == old(self).settings,
            final(self).cursor.viewport_height == old(self).cursor.viewport_height,
            final(self).cursor.index()
                == clamp_target(index as int, 0, old(self).visible_count()),
            final(self).cursor.viewport_height > 0 ==> {
                &&& old(self).cursor.scroll_pos <= final(self).cursor.index()
                    < old(self).cursor.scroll_pos + final(self).cursor.viewport_height
                    ==> final(self).cursor.scroll_pos == old(self).cursor.scroll_pos
                &&& final(self).cursor.index() < old(self).cursor.scroll_pos
                    ==> final(self).cursor.scroll_pos == final(self).cursor.index()
                &&& final(self).cursor.index() >= old(self).cursor.scroll_pos
                        + final(self).cursor.viewport_height
                    ==> final(self).cursor.scroll_pos
                        == final(self).cursor.index() - (final(self).cursor.viewport_height - 1)
            },
    {
        let count = self.num_visible_items();
        self.cursor.move_to(index, count);
    }

    /// Jump to the adjacent entry in the match set, wrapping across it:
    /// forward for `dir > 0`, backward for `dir < 0`, the match at or after
    /// the cursor for `dir == 0`. No-op unless a search with at least one
    /// match is active.
    pub fn move_cursor_to_adjacent_match(&mut self, dir: isize)
        requires
            old(self).inv(),
        ensures
            final(self).inv(),
            final(self).listing == old(self).listing,
            final(self).current_path == old(self).current_path,
            final(self).search_string == old(self).search_string,
            final(self).search_matches == old(self).search_matches,
            final(self).history == old(self).history,
            final(self).settings == old(self).settings,
            final(self).cursor.viewport_height == old(self).cursor.viewport_height,
            old(self).search_string@.len() == 0 || old(self).search_matches@.len() == 0
                ==> final(self).cursor == old(self).cursor,
            old(self).search_string@.len() > 0 && old(self).search_matches@.len() > 0
                && !old(self).filtering()
                ==> final(self).cursor.index() == (if dir > 0 {
                    match spec_first_from(
                        matches_view(old(self).search_matches@), old(self).cursor.index() + 1) {
                        Some(t) => t,
                        None => matches_view(old(self).search_matches@)[0].index,
                    }
                } else if dir < 0 {
                    match spec_last_below(
                        matches_view(old(self).search_matches@), old(self).cursor.index()) {
                        Some(t) => t,
                        None => matches_view(old(self).search_matches@).last().index,
                    }
                } else {
                    match spec_first_from(
                        matches_view(old(self).search_matches@), old(self).cursor.index()) {
                        Some(t) => t,
                        None => matches_view(old(self).search_matches@)[0].index,
                    }
                }),
            old(self).search_string@.len() > 0 && old(self).search_matches@.len() > 0
                && old(self).filtering()
                ==> final(self).cursor.index() == wrap_target(
                    old(self).cursor.index(),
                    if dir > 0 { 1int } else if dir < 0 { -1int } else { 0int },
                    old(self).visible_count()),
            final(self).cursor.viewport_height > 0 ==> {
                &&& old(self).cursor.scroll_pos <= final(self).cursor.index()
                    < old(self).cursor.scroll_pos + final(self).cursor.viewport_height
                    ==> final(self).cursor.scroll_pos == old(self).cursor.scroll_pos
                &&& final(self).cursor.index() < old(self).cursor.scroll_pos
                    ==> final(self).cursor.scroll_pos == final(self).cursor.index()
                &&& final(self).cursor.index() >= old(self).cursor.scroll_pos
                        + final(self).cursor.viewport_height
                    ==> final(self).cursor.scroll_pos
                        == final(self).cursor.index() - (final(self).cursor.viewport_height - 1)
            },
    {
        if self.search_string.len() == 0 || self.search_matches.len() == 0 {
            return;
        }
        let count = self.num_visible_items();
        proof {
            old(self).lemma_cursor_sum_bound();
        }
        let cur = self.cursor.cursor_pos + self.cursor.scroll_pos;
        let filtering = self.settings.filter_search && self.search_string.len() > 0;
        if filtering {
            let d: isize = if dir > 0 {
                1
            } else if dir < 0 {
                -1
            } else {
                0
            };
            self.cursor.move_cursor(d, true, count);
        } else {
            proof {
                let mv = matches_view(self.search_matches@);
                lemma_spec_matches_sound(
                    listing_names(self.listing@), self.search_string@,
                    self.settings.case_sensitive, self.settings.gap_search_mode);
                assert(mv[0].index < self.listing@.len());
            }
            let target: usize = if dir > 0 {
                self.first_match_from(cur + 1)
            } else if dir < 0 {
                self.last_match_below(cur)
            } else {
                self.first_match_from(cur)
            };
            proof {
                let mv = matches_view(self.search_matches@);
                lemma_spec_matches_sound(
                    listing_names(self.listing@), self.search_string@,
                    self.settings.case_sensitive, self.settings.gap_search_mode);
                lemma_first_from_in(mv, cur + 1);
                lemma_first_from_in(mv, cur as int);
                lemma_last_below_in(mv, cur as int);
                assert(0 <= target < count);
            }
            self.cursor.move_to(target, count);
        }
    }

    /// Adopt new window dimensions; the cursor keeps its logical index.
    pub fn update_main_window_dimensions(&mut self, w: usize, h: usize)
        requires
            old(self).inv(),
        ensures
            final(self).inv(),
            final(self).listing == old(self).listing,
            final(self).current_path == old(self).current_path,
            final(self).search_string == old(self).search_string,
            final(self).search_matches == old(self).search_matches,
            final(self).history == old(self).history,
            final(self).settings == old(self).settings,
            final(self).main_win_w == w,
            final(self).cursor.viewport_height == h,
            final(self).cursor.index() == old(self).cursor.index(),
    {
        self.main_win_w = w;
        let count = self.num_visible_items();
        self.cursor.update_viewport(h, count);
    }

    /// The entry shown on viewport row `row`, if any.
    pub fn get_item_at_cursor_pos(&self, row: usize) -> (r: Option<&Entry>)
        requires
            self.inv(),
        ensures
            row + self.cursor.scroll_pos < self.visible_count() ==> (
                r matches Some(e)
                    && *e == self.listing@[self.visible_to_listing(row + self.cursor.scroll_pos)]
            ),
            row + self.cursor.scroll_pos >= self.visible_count() ==> r is None,
    {
        let count = self.num_visible_items();
        if self.cursor.scroll_pos >= count || row >= count - self.cursor.scroll_pos {
            return None;
        }
        let v = row + self.cursor.scroll_pos;
        if self.settings.filter_search && self.search_string.len() > 0 {
            proof {
                lemma_spec_matches_sound(
                    listing_names(self.listing@), self.search_string@,
                    self.settings.case_sensitive, self.settings.gap_search_mode);
                assert(matches_view(self.search_matches@)[v as int].index
                    < self.listing@.len());
            }
            let idx = self.search_matches[v].index;
            Some(&self.listing[idx])
        } else {
            Some(&self.listing[v])
        }
    }

    /// The matched character offsets for the entry shown on row `row`, if
    /// that entry is a match.
    pub fn get_match_locations_at_cursor_pos(&self, row: usize) -> (r: Option<&Vec<usize>>)
        requires
            self.inv(),
        ensures
            r matches Some(p) ==> exists|k: int|
                0 <= k < self.search_matches@.len()
                && (#[trigger] matches_view(self.search_matches@)[k]).index
                    == row + self.cursor.scroll_pos
                && p@.map_values(|x: usize| x as int)
                    == matches_view(self.search_matches@)[k].positions,
            r is None ==> forall|k: int|
                0 <= k < self.search_matches@.len()
                ==> (#[trigger] matches_view(self.search_matches@)[k]).index
                    != row + self.cursor.scroll_pos,
    {
        let ghost mv = matches_view(self.search_matches@);
        if row > usize::MAX - self.cursor.scroll_pos {
            proof {
                assert forall|k: int| 0 <= k < self.search_matches@.len() implies
                    (#[trigger] mv[k]).index != row + self.cursor.scroll_pos by {
                    assert(mv[k].index <= usize::MAX);
                }
            }
            return None;
        }
        let v = row + self.cursor.scroll_pos;
        let mut k: usize = 0;
        while k < self.search_matches.len()
            invariant
                0 <= k <= self.search_matches@.len(),
                mv == matches_view(self.search_matches@),
                v == row + self.cursor.scroll_pos,
                forall|j: int| 0 <= j < k ==> (#[trigger] mv[j]).index != v as int,
            decreases self.search_matches@.len() - k,
        {
            if self.search_matches[k].index == v {
                proof {
                    assert(mv[k as int].index == v as int);
                    assert(mv[k as int].positions
                        == self.search_matches@[k as int].positions@.map_values(
                            |x: usize| x as int));
                }
                return Some(&self.search_matches[k].positions);
            }
            k = k + 1;
        }
        None
    }

    /// The visible-item indices that are matches: every row while
    /// filtering, the matches' listing indices otherwise.
    pub fn visible_match_indices(&self) -> (r: Vec<usize>)
        ensures
            self.filtering() ==> r@.map_values(|x: usize| x as int)
                =~= Seq::new(self.search_matches@.len(), |i: int| i),
            !self.filtering() ==> r@.map_values(|x: usize| x as int)
                =~= matches_view(self.search_matches@).map_values(|m: MatchDataV| m.index),
    {
        let ghost mv = matches_view(self.search_matches@);
        let filtering = self.settings.filter_search && self.search_string.len() > 0;
        let mut r: Vec<usize> = Vec::new();
        let mut k: usize = 0;
        while k < self.search_matches.len()
            invariant
                0 <= k <= self.search_matches@.len(),
                mv == matches_view(self.search_matches@),
                r@.len() == k,
                filtering ==> forall|j: int| 0 <= j < k ==> r@[j] == j,
                !filtering ==> forall|j: int| 0 <= j < k
                    ==> r@[j] as int == (#[trigger] mv[j]).index,
            decreases self.search_matches@.len() - k,
        {
            if filtering {
                r.push(k);
            } else {
                r.push(self.search_matches[k].index);
            }
            k = k + 1;
        }
        r
    }

    /// Whether a single remaining match should be entered automatically:
    /// searching, exactly one match, and an auto-commit delay configured.
    pub fn should_auto_cd(&self) -> (r: bool)
        ensures
            r == (self.search_string@.len() > 0 && self.search_matches@.len() == 1
                && self.settings.autocd_timeout is Some),
    {
        self.search_string.len() > 0 && self.search_matches.len() == 1
            && self.settings.autocd_timeout.is_some()
    }

    /// Resolve a change-directory token to an absolute target path:
    /// `""` enters the entry under the cursor (it must be a directory),
    /// `".."` goes to the parent, `"."` refreshes the current directory,
    /// an absolute token is taken as is, and any other token is joined to
    /// the current path.
    pub fn resolve_target(&self, token: &Vec<char>) -> (r: Result<Vec<char>, NavError>)
        requires
            self.inv(),
        ensures
            token@.len() == 0 ==> (
                if self.cursor.index() < self.visible_count()
                    && self.listing@[self.visible_to_listing(self.cursor.index())].is_dir {
                    r matches Ok(p) && p@ == spec_join(
                        self.current_path@,
                        self.listing@[self.visible_to_listing(self.cursor.index())].name@)
                } else {
                    r matches Err(e) && e == NavError::NotADirectory
                }
            ),
            token@ == seq!['.', '.'] ==> (r matches Ok(p) && p@ == spec_parent(self.current_path@)),
            token@ == seq!['.'] ==> (r matches Ok(p) && p@ == self.current_path@),
            token@.len() > 0 && token@ != seq!['.', '.'] && token@ != seq!['.']
                && token@[0] == '/' ==> (r matches Ok(p) && p@ == token@),
            token@.len() > 0 && token@ != seq!['.', '.'] && token@ != seq!['.']
                && token@[0] != '/' ==> (r matches Ok(p)
                    && p@ == spec_join(self.current_path@, token@)),
    {
        if token.len() == 0 {
            proof {
                self.lemma_cursor_sum_bound();
            }
            let cur = self.cursor.cursor_pos + self.cursor.scroll_pos;
            let count = self.num_visible_items();
            if cur >= count {
                return Err(NavError::NotADirectory);
            }
            let idx: usize = if self.settings.filter_search && self.search_string.len() > 0 {
                proof {
                    lemma_spec_matches_sound(
                        listing_names(self.listing@), self.search_string@,
                        self.settings.case_sensitive, self.settings.gap_search_mode);
                    assert(matches_view(self.search_matches@)[cur as int].index
                        < self.listing@.len());
                }
                self.search_matches[cur].index
            } else {
                cur
            };
            if self.listing[idx].is_dir {
                return Ok(join_path(&self.current_path, &self.listing[idx].name));
            }
            return Err(NavError::NotADirectory);
        }
        if token.len() == 2 && token[0] == '.' && token[1] == '.' {
            proof {
                assert(token@ =~= seq!['.', '.']);
            }
            return Ok(parent_path(&self.current_path));
        }
        if token.len() == 1 && token[0] == '.' {
            proof {
                assert(token@ =~= seq!['.']);
            }
            return Ok(clone_chars(&self.current_path));
        }
        proof {
            assert(token@ != seq!['.', '.'] && token@ != seq!['.']) by {
                if token@ == seq!['.', '.'] {
                    assert(token@.len() == 2 && token@[0] == '.' && token@[1] == '.');
                }
                if token@ == seq!['.'] {
                    assert(token@.len() == 1 && token@[0] == '.');
                }
            }
        }
        if token[0] == '/' {
            return Ok(clone_chars(token));
        }
        Ok(join_path(&self.current_path, token))
    }

    /// Commit a directory change whose listing was read outside: remember
    /// the position being left, adopt the new path and listing, reset the
    /// search, and restore the cursor from history (clamped), or to 0.
    pub fn apply_change_dir(&mut self, new_path: Vec<char>, new_listing: Vec<Entry>)
        requires
            old(self).inv(),
            listing_sorted(new_listing@),
        ensures
            final(self).inv(),
            final(self).current_path@ == new_path@,
            final(self).listing == new_listing,
            final(self).search_string@.len() == 0,
            final(self).settings == old(self).settings,
            final(self).main_win_w == old(self).main_win_w,
            final(self).cursor.viewport_height == old(self).cursor.viewport_height,
            spec_lookup(final(self).history.entries@, old(self).current_path@)
                == Some(old(self).cursor.index()),
            forall|p: Seq<char>| p != old(self).current_path@
                ==> spec_lookup(final(self).history.entries@, p)
                    == spec_lookup(old(self).history.entries@, p),
            entries_unique(old(self).history.entries@)
                ==> entries_unique(final(self).history.entries@),
            final(self).cursor.index()
                == (match spec_lookup(final(self).history.entries@, new_path@) {
                    Some(i) => clamp_target(i, 0, new_listing@.len() as int),
                    None => 0,
                }),
    {
        proof {
            old(self).lemma_cursor_sum_bound();
        }
        let cur = self.cursor.cursor_pos + self.cursor.scroll_pos;
        let leaving = clone_chars(&self.current_path);
        self.history.update(leaving, cur);
        self.current_path = new_path;
        self.listing = new_listing;
        self.search_string = Vec::new();
        self.search_matches = compute_matches(
            &self.listing, &self.search_string,
            self.settings.case_sensitive, self.settings.gap_search_mode);
        let count = self.listing.len();
        match self.history.lookup(&self.current_path) {
            Some(i) => self.cursor.move_to(i, count),
            None => self.cursor.move_to(0, count),
        }
    }

    /// Remember the current position on exit; the embedding program then
    /// encodes and writes the history.
    pub fn on_exit(&mut self)
        requires
            old(self).inv(),
        ensures
            final(self).inv(),
            final(self).listing == old(self).listing,
            final(self).current_path == old(self).current_path,
            final(self).search_string == old(self).search_string,
            final(self).search_matches == old(self).search_matches,
            final(self).settings == old(self).settings,
            final(self).cursor == old(self).cursor,
            spec_lookup(final(self).history.entries@, old(self).current_path@)
                == Some(old(self).cursor.index()),
            forall|p: Seq<char>| p != old(self).current_path@
                ==> spec_lookup(final(self).history.entries@, p)
                    == spec_lookup(old(self).history.entries@, p),
            entries_unique(old(self).history.entries@)
                ==> entries_unique(final(self).history.entries@),
    {
        proof {
            old(self).lemma_cursor_sum_bound();
        }
        let cur = self.cursor.cursor_pos + self.cursor.scroll_pos;
        let leaving = clone_chars(&self.current_path);
        self.history.update(leaving, cur);
    }
}

/// Join a directory path and a child name with a single separator.
pub open spec fn spec_join(cur: Seq<char>, name: Seq<char>) -> Seq<char> {
    if cur.len() > 0 && cur.last() == '/' {
        cur + name
    } else {
        cur + seq!['/'] + name
    }
}

/// Position of the last path separator, if any.
pub open spec fn spec_last_slash(p: Seq<char>) -> Option<int>
    decreases p.len(),
{
    if p.len() == 0 {
        None
    } else if p.last() == '/' {
        Some(p.len() - 1)
    } else {
        spec_last_slash(p.drop_last())
    }
}

/// The parent directory of a path: everything before the last separator,
/// the root when the separator leads, the path itself when it has none.
pub open spec fn spec_parent(p: Seq<char>) -> Seq<char> {
    match spec_last_slash(p) {
        None => p,
        Some(i) => if i == 0 {
            seq!['/']
        } else {
            p.take(i)
        },
    }
}

/// Join a directory path and a child name with a single separator.
pub fn join_path(cur: &Vec<char>, name: &Vec<char>) -> (r: Vec<char>)
    ensures
        r@ == spec_join(cur@, name@),
{
    let mut r = clone_chars(cur);
    let needs_sep = !(cur.len() > 0 && cur[cur.len() - 1] == '/');
    if needs_sep {
        r.push('/');
    }
    let mut i: usize = 0;
    let ghost base = r@;
    while i < name.len()
        invariant
            0 <= i <= name@.len(),
            r@ == base + name@.take(i as int),
        decreases name@.len() - i,
    {
        r.push(name[i]);
        proof {
            assert(base + name@.take(i + 1) =~= (base + name@.take(i as int)).push(name@[i as int]));
        }
        i = i + 1;
    }
    proof {
        assert(name@.take(name@.len() as int) =~= name@);
        if cur@.len() > 0 && cur@.last() == '/' {
            assert(r@ =~= cur@ + name@);
        } else {
            assert(base =~= cur@ + seq!['/']);
        }
    }
    r
}

/// The parent directory of a path.
pub fn parent_path(p: &Vec<char>) -> (r: Vec<char>)
    ensures
        r@ == spec_parent(p@),
{
    let mut i: usize = p.len();
    proof {
        assert(p@.take(p@.len() as int) =~= p@);
    }
    while i > 0
        invariant
            0 <= i <= p@.len(),
            spec_last_slash(p@) == spec_last_slash(p@.take(i as int)),
        decreases i,
    {
        i = i - 1;
        proof {
            assert(p@.take(i + 1).drop_last() =~= p@.take(i as int));
            assert(p@.take(i + 1).last() == p@[i as int]);
        }
        if p[i] == '/' {
            if i == 0 {
                let mut r: Vec<char> = Vec::new();
                r.push('/');
                proof {
                    assert(r@ =~= seq!['/']);
                }
                return r;
            }
            let mut r: Vec<char> = Vec::new();
            let mut k: usize = 0;
            while k < i
                invariant
                    0 <= k <= i < p@.len(),
                    r@ == p@.take(k as int),
                decreases i - k,
            {
                r.push(p[k]);
                proof {
                    assert(p@.take(k + 1) =~= p@.take(k as int).push(p@[k as int]));
                }
                k = k + 1;
            }
            return r;
        }
    }
    proof {
        assert(p@.take(0) =~= Seq::<char>::empty());
    }
    clone_chars(p)
}

} // verus!
