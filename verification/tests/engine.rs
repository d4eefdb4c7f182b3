use tere::app_state::{NavError, TereTui};
use tere::history::HistoryStore;
use tere::listing::{prepare_listing, Entry};
use tere::search::compute_matches;
use tere::settings::{CaseSensitiveMode, GapSearchMode, TereSettings};

fn cv(s: &str) -> Vec<char> {
    s.chars().collect()
}

fn vs(v: &Vec<char>) -> String {
    v.iter().collect()
}

fn dir(name: &str) -> Entry {
    Entry { name: cv(name), is_dir: true, symlink_target: None }
}

fn file(name: &str) -> Entry {
    Entry { name: cv(name), is_dir: false, symlink_target: None }
}

fn fruit_listing() -> Vec<Entry> {
    vec![dir("Apple"), dir("banana"), dir("Avocado")]
}

/// The same entries in the canonical (case-folded, tie-broken) order that
/// the engine state requires of a listing.
fn fruit_sorted() -> Vec<Entry> {
    vec![dir("Apple"), dir("Avocado"), dir("banana")]
}

fn state_with(listing: Vec<Entry>, path: &str, history: HistoryStore, h: usize) -> TereTui {
    TereTui::init(TereSettings::default(), cv(path), listing, history, 80, h)
}

// ----- search scenarios -----

#[test]
fn query_a_smartcase_from_start() {
    // "a" has no uppercase, so smart case folds; the anchored gap search
    // matches the names whose first character folds to 'a'.
    let m = compute_matches(
        &fruit_listing(),
        &cv("a"),
        CaseSensitiveMode::SmartCase,
        GapSearchMode::GapSearchFromStart,
    );
    let idx: Vec<usize> = m.iter().map(|x| x.index).collect();
    assert_eq!(idx, vec![0, 2]); // Apple, Avocado
    for x in &m {
        assert_eq!(x.positions, vec![0]);
    }
}

#[test]
fn query_a_smartcase_anywhere() {
    let m = compute_matches(
        &fruit_listing(),
        &cv("a"),
        CaseSensitiveMode::SmartCase,
        GapSearchMode::GapSearchAnywhere,
    );
    let idx: Vec<usize> = m.iter().map(|x| x.index).collect();
    assert_eq!(idx, vec![0, 1, 2]); // Apple, banana, Avocado
    assert_eq!(m[0].positions, vec![0]); // 'A' of Apple
    assert_eq!(m[1].positions, vec![1]); // first 'a' of banana
    assert_eq!(m[2].positions, vec![0]); // 'A' of Avocado
}

#[test]
fn query_av_smartcase_is_case_sensitive() {
    // "Av" contains an uppercase letter: smart case compares exactly.
    let m = compute_matches(
        &fruit_listing(),
        &cv("Av"),
        CaseSensitiveMode::SmartCase,
        GapSearchMode::GapSearchFromStart,
    );
    let idx: Vec<usize> = m.iter().map(|x| x.index).collect();
    assert_eq!(idx, vec![2]); // only Avocado
    assert_eq!(m[0].positions, vec![0, 1]);
}

#[test]
fn smart_case_equals_chosen_policy() {
    for q in ["a", "Av", "AN", "an"] {
        let smart = compute_matches(
            &fruit_listing(), &cv(q),
            CaseSensitiveMode::SmartCase, GapSearchMode::GapSearchAnywhere);
        let explicit = if q.chars().any(|c| c.is_ascii_uppercase()) {
            CaseSensitiveMode::CaseSensitive
        } else {
            CaseSensitiveMode::IgnoreCase
        };
        let other = compute_matches(
            &fruit_listing(), &cv(q), explicit, GapSearchMode::GapSearchAnywhere);
        let a: Vec<usize> = smart.iter().map(|x| x.index).collect();
        let b: Vec<usize> = other.iter().map(|x| x.index).collect();
        assert_eq!(a, b);
    }
}

#[test]
fn gap_modes_relax_monotonically() {
    let listing = vec![dir("alpha"), dir("lamp"), dir("aleph"), dir("pal")];
    for q in ["al", "a", "pal", "lp"] {
        let nogap: Vec<usize> = compute_matches(
            &listing, &cv(q), CaseSensitiveMode::IgnoreCase, GapSearchMode::NoGapSearch)
            .iter().map(|x| x.index).collect();
        let start: Vec<usize> = compute_matches(
            &listing, &cv(q), CaseSensitiveMode::IgnoreCase, GapSearchMode::GapSearchFromStart)
            .iter().map(|x| x.index).collect();
        let anywhere: Vec<usize> = compute_matches(
            &listing, &cv(q), CaseSensitiveMode::IgnoreCase, GapSearchMode::GapSearchAnywhere)
            .iter().map(|x| x.index).collect();
        for i in &nogap {
            assert!(start.contains(i), "no-gap match {} missing from from-start for {:?}", i, q);
        }
        for i in &start {
            assert!(anywhere.contains(i), "from-start match {} missing from anywhere for {:?}", i, q);
        }
    }
}

#[test]
fn matches_are_ordered_subsequences() {
    let listing = vec![dir("srv"), dir("services"), dir("var"), dir("sbin")];
    let q = "sv";
    let m = compute_matches(
        &listing, &cv(q), CaseSensitiveMode::IgnoreCase, GapSearchMode::GapSearchAnywhere);
    assert!(!m.is_empty());
    for x in &m {
        let name = &listing[x.index].name;
        // positions witness the subsequence in order
        assert_eq!(x.positions.len(), q.len());
        let mut prev: Option<usize> = None;
        for (qi, &p) in x.positions.iter().enumerate() {
            assert!(p < name.len());
            assert_eq!(
                name[p].to_ascii_lowercase(),
                q.chars().nth(qi).unwrap().to_ascii_lowercase()
            );
            if let Some(pr) = prev {
                assert!(pr < p);
            }
            prev = Some(p);
        }
    }
    let idx: Vec<usize> = m.iter().map(|x| x.index).collect();
    assert_eq!(idx, vec![0, 1]);
}

#[test]
fn no_gap_search_is_a_contiguous_run_from_the_start() {
    let listing = vec![dir("abc"), dir("xabc"), dir("abxc")];
    let m = compute_matches(
        &listing, &cv("ab"), CaseSensitiveMode::IgnoreCase, GapSearchMode::NoGapSearch);
    let idx: Vec<usize> = m.iter().map(|x| x.index).collect();
    assert_eq!(idx, vec![0, 2]);
    assert_eq!(m[0].positions, vec![0, 1]);
}

// ----- listing preparation -----

#[test]
fn prepare_listing_sorts_case_folded() {
    let input = vec![file("banana"), dir("Avocado"), dir("Apple")];
    let out = prepare_listing(input, false);
    let names: Vec<String> = out.iter().map(|e| vs(&e.name)).collect();
    assert_eq!(names, vec!["Apple", "Avocado", "banana"]);
}

#[test]
fn prepare_listing_folders_only_filters_before_sorting() {
    let input = vec![file("a_file"), dir("zeta"), dir("Alpha"), file("beta")];
    let out = prepare_listing(input, true);
    let names: Vec<String> = out.iter().map(|e| vs(&e.name)).collect();
    assert_eq!(names, vec!["Alpha", "zeta"]);
    assert!(out.iter().all(|e| e.is_dir));
}

// ----- search state round trip -----

#[test]
fn erase_after_advance_restores_search_state() {
    let mut s = state_with(fruit_sorted(), "/fruit", HistoryStore::new(), 10);
    s.advance_search(&cv("a"));
    let q1 = vs(s.search_string());
    let m1: Vec<usize> = s.search_matches.iter().map(|x| x.index).collect();
    s.advance_search(&cv("v"));
    s.erase_search_char();
    assert_eq!(vs(s.search_string()), q1);
    let m2: Vec<usize> = s.search_matches.iter().map(|x| x.index).collect();
    assert_eq!(m1, m2);
}

#[test]
fn erase_on_empty_query_is_a_no_op() {
    let mut s = state_with(fruit_sorted(), "/fruit", HistoryStore::new(), 10);
    s.erase_search_char();
    assert_eq!(vs(s.search_string()), "");
    assert!(!s.is_searching());
}

#[test]
fn clear_search_returns_to_browsing() {
    let mut s = state_with(fruit_sorted(), "/fruit", HistoryStore::new(), 10);
    s.advance_search(&cv("av"));
    assert!(s.is_searching());
    s.clear_search();
    assert!(!s.is_searching());
    assert_eq!(vs(s.search_string()), "");
}

// ----- cursor and scroll -----

#[test]
fn cursor_stays_in_range_under_any_moves() {
    let listing: Vec<Entry> = (0..7).map(|i| dir(&format!("d{}", i))).collect();
    let mut s = state_with(listing, "/d", HistoryStore::new(), 3);
    let count = s.num_visible_items();
    let moves: [(isize, bool); 10] = [
        (1, true), (100, false), (-3, true), (-100, false), (5, true),
        (0, true), (-1, false), (11, true), (2, false), (-8, true),
    ];
    for (d, w) in moves {
        s.move_cursor(d, w);
        let idx = s.cursor_pos_to_visible_item_index(s.cursor.cursor_pos);
        assert!(idx < count, "index {} out of range after move {} wrap {}", idx, d, w);
    }
    s.update_main_window_dimensions(80, 2);
    let idx = s.cursor_pos_to_visible_item_index(s.cursor.cursor_pos);
    assert!(idx < count);
}

#[test]
fn cursor_is_total_on_an_empty_listing() {
    let mut s = state_with(Vec::new(), "/empty", HistoryStore::new(), 5);
    s.move_cursor(1, true);
    s.move_cursor(-1, false);
    s.move_cursor_to(10);
    s.update_main_window_dimensions(80, 2);
    assert_eq!(s.cursor.cursor_pos, 0);
    assert_eq!(s.cursor.scroll_pos, 0);
}

#[test]
fn wrapping_and_clamping_moves() {
    let listing: Vec<Entry> = (0..5).map(|i| dir(&format!("d{}", i))).collect();
    let mut s = state_with(listing, "/d", HistoryStore::new(), 10);
    s.move_cursor(-1, true); // wrap up from 0
    assert_eq!(s.cursor_pos_to_visible_item_index(s.cursor.cursor_pos), 4);
    s.move_cursor(2, true);
    assert_eq!(s.cursor_pos_to_visible_item_index(s.cursor.cursor_pos), 1);
    s.move_cursor(-10, false); // clamp at 0
    assert_eq!(s.cursor_pos_to_visible_item_index(s.cursor.cursor_pos), 0);
    s.move_cursor(100, false); // clamp at end
    assert_eq!(s.cursor_pos_to_visible_item_index(s.cursor.cursor_pos), 4);
    s.move_cursor_to(2);
    assert_eq!(s.cursor_pos_to_visible_item_index(s.cursor.cursor_pos), 2);
}

#[test]
fn minimal_scroll_policy() {
    let listing: Vec<Entry> = (0..10).map(|i| dir(&format!("d{}", i))).collect();
    let mut s = state_with(listing, "/d", HistoryStore::new(), 3);
    assert_eq!(s.cursor.scroll_pos, 0);
    s.move_cursor(4, false); // index 4: scrolls just enough: scroll = 2
    assert_eq!(s.cursor.scroll_pos, 2);
    assert_eq!(s.cursor.cursor_pos, 2);
    s.move_cursor(-1, false); // index 3 still in view: no scroll
    assert_eq!(s.cursor.scroll_pos, 2);
    s.move_cursor(-2, false); // index 1 above view: scroll to 1
    assert_eq!(s.cursor.scroll_pos, 1);
    assert_eq!(s.cursor.cursor_pos, 0);
}

#[test]
fn adjacent_match_navigation_wraps() {
    let listing = vec![dir("ba"), dir("cx"), dir("da"), dir("ex"), dir("fa")];
    let mut s = state_with(listing, "/d", HistoryStore::new(), 10);
    // cycle twice: from-start -> no-gap -> anywhere
    s.cycle_gap_search_mode();
    s.cycle_gap_search_mode();
    assert_eq!(s.settings.gap_search_mode, GapSearchMode::GapSearchAnywhere);
    s.advance_search(&cv("a")); // matches at 0, 2, 4; cursor lands on 0
    assert_eq!(s.cursor_pos_to_visible_item_index(s.cursor.cursor_pos), 0);
    s.move_cursor_to_adjacent_match(1);
    assert_eq!(s.cursor_pos_to_visible_item_index(s.cursor.cursor_pos), 2);
    s.move_cursor_to_adjacent_match(1);
    assert_eq!(s.cursor_pos_to_visible_item_index(s.cursor.cursor_pos), 4);
    s.move_cursor_to_adjacent_match(1); // wraps to first match
    assert_eq!(s.cursor_pos_to_visible_item_index(s.cursor.cursor_pos), 0);
    s.move_cursor_to_adjacent_match(-1); // wraps back to last match
    assert_eq!(s.cursor_pos_to_visible_item_index(s.cursor.cursor_pos), 4);
}

#[test]
fn adjacent_match_is_a_no_op_without_matches() {
    let mut s = state_with(fruit_sorted(), "/fruit", HistoryStore::new(), 10);
    s.move_cursor_to(1);
    s.move_cursor_to_adjacent_match(1); // not searching
    assert_eq!(s.cursor_pos_to_visible_item_index(s.cursor.cursor_pos), 1);
    s.advance_search(&cv("zzz")); // no matches
    s.move_cursor_to_adjacent_match(1);
    assert_eq!(s.cursor_pos_to_visible_item_index(s.cursor.cursor_pos), 1);
}

// ----- history -----

#[test]
fn history_update_and_lookup() {
    let mut h = HistoryStore::new();
    assert_eq!(h.lookup(&cv("/a")), None);
    h.update(cv("/a"), 3);
    h.update(cv("/b"), 7);
    assert_eq!(h.lookup(&cv("/a")), Some(3));
    assert_eq!(h.lookup(&cv("/b")), Some(7));
    h.update(cv("/a"), 5); // replaces, does not duplicate
    assert_eq!(h.lookup(&cv("/a")), Some(5));
    assert_eq!(h.entries.len(), 2);
}

#[test]
fn history_round_trip() {
    let mut h = HistoryStore::new();
    h.update(cv("/home/someone"), 4);
    h.update(cv("/tmp"), 0);
    h.update(cv("/path with spaces/and 2 numbers"), 12);
    let encoded = h.encode();
    let back = HistoryStore::decode(&encoded).expect("round trip must decode");
    assert_eq!(back.lookup(&cv("/home/someone")), Some(4));
    assert_eq!(back.lookup(&cv("/tmp")), Some(0));
    assert_eq!(back.lookup(&cv("/path with spaces/and 2 numbers")), Some(12));
    assert_eq!(back.entries.len(), h.entries.len());
}

#[test]
fn empty_history_round_trip() {
    let h = HistoryStore::new();
    let encoded = h.encode();
    assert!(encoded.is_empty());
    let back = HistoryStore::decode(&encoded).expect("empty stream decodes");
    assert_eq!(back.entries.len(), 0);
}

#[test]
fn corrupt_history_is_rejected_not_fatal() {
    assert!(HistoryStore::decode(&cv("garbage")).is_none());
    assert!(HistoryStore::decode(&cv("3 x /a")).is_none());
    assert!(HistoryStore::decode(&cv("3 10 /a")).is_none()); // truncated path
    assert!(HistoryStore::decode(&cv(" 2 /a")).is_none()); // missing index
    assert!(HistoryStore::decode(&cv("99999999999999999999999999 2 /a")).is_none());
}

#[test]
fn remembered_index_past_shrunk_listing_is_clamped() {
    let mut h = HistoryStore::new();
    h.update(cv("/d"), 9);
    let listing = vec![dir("a"), dir("b")];
    let s = state_with(listing, "/d", h, 10);
    assert_eq!(s.cursor_pos_to_visible_item_index(s.cursor.cursor_pos), 1);
}

// ----- directory changes -----

#[test]
fn resolve_parent_current_absolute_relative() {
    let s = state_with(fruit_sorted(), "/a/b", HistoryStore::new(), 10);
    assert_eq!(vs(&s.resolve_target(&cv("..")).unwrap()), "/a");
    assert_eq!(vs(&s.resolve_target(&cv(".")).unwrap()), "/a/b");
    assert_eq!(vs(&s.resolve_target(&cv("/etc")).unwrap()), "/etc");
    assert_eq!(vs(&s.resolve_target(&cv("sub")).unwrap()), "/a/b/sub");
    let root = state_with(fruit_sorted(), "/a", HistoryStore::new(), 10);
    assert_eq!(vs(&root.resolve_target(&cv("..")).unwrap()), "/");
    let at_root = state_with(fruit_sorted(), "/", HistoryStore::new(), 10);
    assert_eq!(vs(&at_root.resolve_target(&cv("..")).unwrap()), "/");
    assert_eq!(vs(&at_root.resolve_target(&cv("x")).unwrap()), "/x");
}

#[test]
fn resolve_empty_token_enters_entry_under_cursor() {
    let listing = vec![dir("Apple"), dir("Avocado"), file("notes.txt")];
    let mut s = state_with(listing, "/fruit", HistoryStore::new(), 10);
    assert_eq!(vs(&s.resolve_target(&cv("")).unwrap()), "/fruit/Apple");
    s.move_cursor_to(2);
    assert_eq!(s.resolve_target(&cv("")), Err(NavError::NotADirectory));
    s.move_cursor_to(1);
    assert_eq!(vs(&s.resolve_target(&cv("")).unwrap()), "/fruit/Avocado");
}

#[test]
fn resolve_empty_token_on_empty_listing_fails() {
    let s = state_with(Vec::new(), "/empty", HistoryStore::new(), 10);
    assert_eq!(s.resolve_target(&cv("")), Err(NavError::NotADirectory));
}

#[test]
fn change_dir_to_parent_persists_and_restores() {
    // history: the directory being left was entered at position 3 earlier
    let mut h = HistoryStore::new();
    h.update(cv("/a/b"), 3);
    h.update(cv("/a"), 1);
    let b_listing: Vec<Entry> = (0..5).map(|i| dir(&format!("d{}", i))).collect();
    let mut s = state_with(b_listing, "/a/b", h, 10);
    assert_eq!(s.cursor_pos_to_visible_item_index(s.cursor.cursor_pos), 3);

    let target = s.resolve_target(&cv("..")).unwrap();
    assert_eq!(vs(&target), "/a");
    let a_listing = vec![dir("b"), dir("c"), dir("d")];
    s.apply_change_dir(target, a_listing);

    assert_eq!(vs(&s.current_path()), "/a");
    assert!(!s.is_searching());
    // position in /a/b persisted
    assert_eq!(s.history.lookup(&cv("/a/b")), Some(3));
    // cursor restored from history for /a
    assert_eq!(s.cursor_pos_to_visible_item_index(s.cursor.cursor_pos), 1);
}

#[test]
fn change_dir_without_history_starts_at_zero() {
    let mut s = state_with(fruit_sorted(), "/fruit", HistoryStore::new(), 10);
    s.move_cursor_to(2);
    let target = s.resolve_target(&cv("..")).unwrap();
    s.apply_change_dir(target, vec![dir("x"), dir("y")]);
    assert_eq!(s.cursor_pos_to_visible_item_index(s.cursor.cursor_pos), 0);
    assert_eq!(s.history.lookup(&cv("/fruit")), Some(2));
}

#[test]
fn on_exit_records_current_position() {
    let mut s = state_with(fruit_sorted(), "/fruit", HistoryStore::new(), 10);
    s.move_cursor_to(2);
    s.on_exit();
    assert_eq!(s.history.lookup(&cv("/fruit")), Some(2));
}

// ----- auto-commit decision -----

#[test]
fn single_match_with_timeout_triggers_auto_cd() {
    let mut settings = TereSettings::default();
    settings.autocd_timeout = Some(300);
    let mut s = TereTui::init(
        settings, cv("/fruit"), fruit_sorted(), HistoryStore::new(), 80, 10);
    s.advance_search(&cv("av"));
    assert_eq!(s.num_matching_items(), 1);
    assert!(s.should_auto_cd());
    // the sole match is under the cursor, so committing enters it
    let target = s.resolve_target(&cv("")).unwrap();
    assert_eq!(vs(&target), "/fruit/Avocado");
}

#[test]
fn auto_cd_needs_a_timeout_and_a_sole_match() {
    let mut s = state_with(fruit_sorted(), "/fruit", HistoryStore::new(), 10);
    s.advance_search(&cv("av"));
    assert_eq!(s.num_matching_items(), 1);
    assert!(!s.should_auto_cd()); // timeout disabled
    let mut settings = TereSettings::default();
    settings.autocd_timeout = Some(300);
    let mut t = TereTui::init(
        settings, cv("/fruit"), fruit_sorted(), HistoryStore::new(), 80, 10);
    t.advance_search(&cv("a"));
    assert!(t.num_matching_items() > 1);
    assert!(!t.should_auto_cd()); // more than one match
}

// ----- settings and modes -----

#[test]
fn default_settings() {
    let s = TereSettings::default();
    assert!(!s.folders_only);
    assert!(!s.filter_search);
    assert_eq!(s.case_sensitive, CaseSensitiveMode::SmartCase);
    assert_eq!(s.gap_search_mode, GapSearchMode::GapSearchFromStart);
    assert_eq!(s.autocd_timeout, None);
    assert!(!s.mouse_enabled);
    assert!(!s.enter_is_cd_and_exit);
    assert!(!s.esc_is_cancel);
}

#[test]
fn mode_cycling_covers_all_variants() {
    let c0 = CaseSensitiveMode::SmartCase;
    let c1 = c0.next();
    let c2 = c1.next();
    assert_eq!(c0.next().next().next(), c0);
    assert!(c0 != c1 && c1 != c2 && c2 != c0);
    let g0 = GapSearchMode::GapSearchFromStart;
    assert_eq!(g0.next(), GapSearchMode::NoGapSearch);
    assert_eq!(g0.next().next(), GapSearchMode::GapSearchAnywhere);
    assert_eq!(g0.next().next().next(), g0);
}

#[test]
fn mode_labels() {
    assert_eq!(CaseSensitiveMode::IgnoreCase.label(), "ignore case");
    assert_eq!(CaseSensitiveMode::CaseSensitive.label(), "case sensitive");
    assert_eq!(CaseSensitiveMode::SmartCase.label(), "smart case");
    assert_eq!(GapSearchMode::GapSearchFromStart.label(), "gap search from start");
    assert_eq!(GapSearchMode::NoGapSearch.label(), "normal search");
    assert_eq!(GapSearchMode::GapSearchAnywhere.label(), "gap search anywhere");
}

#[test]
fn mode_cycle_recomputes_matches() {
    let mut s = state_with(vec![dir("abc"), dir("xabc")], "/d", HistoryStore::new(), 10);
    s.advance_search(&cv("bc"));
    // the default from-start mode anchors 'b' to the first character,
    // which neither name has
    assert_eq!(s.num_matching_items(), 0);
    s.cycle_gap_search_mode(); // no-gap: still nothing
    assert_eq!(s.num_matching_items(), 0);
    s.cycle_gap_search_mode(); // anywhere: both names contain "bc"
    assert_eq!(s.settings.gap_search_mode, GapSearchMode::GapSearchAnywhere);
    assert_eq!(s.num_matching_items(), 2);
    assert_eq!(vs(s.search_string()), "bc"); // the query is untouched
}

#[test]
fn case_cycle_recomputes_and_three_calls_restore() {
    let mut s = state_with(fruit_sorted(), "/fruit", HistoryStore::new(), 10);
    s.advance_search(&cv("AV"));
    // smart case sees the uppercase query: exact compare, no match
    assert_eq!(s.num_matching_items(), 0);
    s.cycle_case_sensitive_mode(); // smart -> ignore
    assert_eq!(s.settings.case_sensitive, CaseSensitiveMode::IgnoreCase);
    assert_eq!(s.num_matching_items(), 1); // Avocado, folded
    s.cycle_case_sensitive_mode(); // ignore -> sensitive
    assert_eq!(s.num_matching_items(), 0);
    s.cycle_case_sensitive_mode(); // sensitive -> smart: back where it began
    assert_eq!(s.settings.case_sensitive, CaseSensitiveMode::SmartCase);
    assert_eq!(s.num_matching_items(), 0);
}

// ----- renderer-facing accessors -----

#[test]
fn item_and_match_location_accessors() {
    let listing = vec![dir("ax"), dir("ay"), dir("b")];
    let mut s = state_with(listing, "/d", HistoryStore::new(), 10);
    s.advance_search(&cv("a"));
    let e = s.get_item_at_cursor_pos(0).expect("row 0 shows an item");
    assert_eq!(vs(&e.name), "ax");
    assert!(s.get_item_at_cursor_pos(10).is_none());
    let locs = s.get_match_locations_at_cursor_pos(0).expect("ax is a match");
    assert_eq!(locs, &vec![0]);
    assert!(s.get_match_locations_at_cursor_pos(2).is_none()); // "b" is no match
    let vis = s.visible_match_indices();
    assert_eq!(vis, vec![0, 1]);
    assert_eq!(s.num_total_items(), 3);
    assert_eq!(s.num_matching_items(), 2);
    assert_eq!(s.num_visible_items(), 3); // not filtering
}

#[test]
fn filter_search_narrows_visible_items() {
    let mut settings = TereSettings::default();
    settings.filter_search = true;
    let listing = vec![dir("ax"), dir("ay"), dir("b")];
    let mut s = TereTui::init(
        settings, cv("/d"), listing, HistoryStore::new(), 80, 10);
    assert_eq!(s.num_visible_items(), 3);
    s.advance_search(&cv("a"));
    assert_eq!(s.num_visible_items(), 2); // only the matches are visible
    let e = s.get_item_at_cursor_pos(1).expect("second visible item");
    assert_eq!(vs(&e.name), "ay");
    let vis = s.visible_match_indices();
    assert_eq!(vis, vec![0, 1]); // every visible row is a match
}

#[test]
fn greedy_leftmost_positions() {
    let listing = vec![dir("abcab")];
    let m = compute_matches(
        &listing, &cv("ab"), CaseSensitiveMode::IgnoreCase, GapSearchMode::GapSearchAnywhere);
    assert_eq!(m[0].positions, vec![0, 1]);
    let m = compute_matches(
        &listing, &cv("ba"), CaseSensitiveMode::IgnoreCase, GapSearchMode::GapSearchAnywhere);
    assert_eq!(m[0].positions, vec![1, 3]);
    let m = compute_matches(
        &listing, &cv("aa"), CaseSensitiveMode::IgnoreCase, GapSearchMode::GapSearchFromStart);
    assert_eq!(m[0].positions, vec![0, 3]);
}

#[test]
fn adjacent_match_wraps_rows_while_filtering() {
    let mut settings = TereSettings::default();
    settings.filter_search = true;
    let listing = vec![dir("ax"), dir("ay"), dir("az"), dir("b")];
    let mut s = TereTui::init(
        settings, cv("/d"), listing, HistoryStore::new(), 80, 10);
    s.advance_search(&cv("a"));
    assert_eq!(s.num_visible_items(), 3);
    s.move_cursor_to_adjacent_match(1);
    assert_eq!(s.cursor_pos_to_visible_item_index(s.cursor.cursor_pos), 1);
    s.move_cursor_to_adjacent_match(1);
    assert_eq!(s.cursor_pos_to_visible_item_index(s.cursor.cursor_pos), 2);
    s.move_cursor_to_adjacent_match(1); // wraps over the visible rows
    assert_eq!(s.cursor_pos_to_visible_item_index(s.cursor.cursor_pos), 0);
    s.move_cursor_to_adjacent_match(-1);
    assert_eq!(s.cursor_pos_to_visible_item_index(s.cursor.cursor_pos), 2);
}
