//! Session configuration: case and gap-search policies plus behaviour flags.

use vstd::prelude::*;

verus! {

/// How characters of the query are compared against characters of a name.
#[derive(Clone, Copy, Debug, PartialEq, Eq, Structural)]
pub enum CaseSensitiveMode {
    IgnoreCase,
    CaseSensitive,
    SmartCase,
}

impl Default for CaseSensitiveMode {
    fn default() -> (r: Self)
        ensures
            r == CaseSensitiveMode::SmartCase,
    {
        CaseSensitiveMode::SmartCase
    }
}

impl CaseSensitiveMode {
    /// Cycle to the next case policy, in a fixed order covering all three.
    pub fn next(self) -> (r: Self)
        ensures
            r == (match self {
                CaseSensitiveMode::IgnoreCase => CaseSensitiveMode::CaseSensitive,
                CaseSensitiveMode::CaseSensitive => CaseSensitiveMode::SmartCase,
                CaseSensitiveMode::SmartCase => CaseSensitiveMode::IgnoreCase,
            }),
    {
        match self {
            CaseSensitiveMode::IgnoreCase => CaseSensitiveMode::CaseSensitive,
            CaseSensitiveMode::CaseSensitive => CaseSensitiveMode::SmartCase,
            CaseSensitiveMode::SmartCase => CaseSensitiveMode::IgnoreCase,
        }
    }

    /// Short human-readable label for the footer.
    pub fn label(self) -> (r: &'static str)
        ensures
            self == CaseSensitiveMode::IgnoreCase ==> r@ == "ignore case"@,
            self == CaseSensitiveMode::CaseSensitive ==> r@ == "case sensitive"@,
            self == CaseSensitiveMode::SmartCase ==> r@ == "smart case"@,
    {
        match self {
            CaseSensitiveMode::IgnoreCase => "ignore case",
            CaseSensitiveMode::CaseSensitive => "case sensitive",
            CaseSensitiveMode::SmartCase => "smart case",
        }
    }
}

/// Where gaps between matched query characters are permitted.
#[derive(Clone, Copy, Debug, PartialEq, Eq, Structural)]
pub enum GapSearchMode {
    /// Subsequence match anchored at the first character of the name.
    GapSearchFromStart,
    /// Contiguous match starting at the first character of the name.
    NoGapSearch,
    /// Subsequence match anywhere in the name.
    GapSearchAnywhere,
}

impl Default for GapSearchMode {
    fn default() -> (r: Self)
        ensures
            r == GapSearchMode::GapSearchFromStart,
    {
        GapSearchMode::GapSearchFromStart
    }
}

impl GapSearchMode {
    /// Cycle to the next gap policy, in a fixed order covering all three.
    pub fn next(self) -> (r: Self)
        ensures
            r == (match self {
                GapSearchMode::GapSearchFromStart => GapSearchMode::NoGapSearch,
                GapSearchMode::NoGapSearch => GapSearchMode::GapSearchAnywhere,
                GapSearchMode::GapSearchAnywhere => GapSearchMode::GapSearchFromStart,
            }),
    {
        match self {
            GapSearchMode::GapSearchFromStart => GapSearchMode::NoGapSearch,
            GapSearchMode::NoGapSearch => GapSearchMode::GapSearchAnywhere,
            GapSearchMode::GapSearchAnywhere => GapSearchMode::GapSearchFromStart,
        }
    }

    /// Short human-readable label for the footer.
    pub fn label(self) -> (r: &'static str)
        ensures
            self == GapSearchMode::GapSearchFromStart ==> r@ == "gap search from start"@,
            self == GapSearchMode::NoGapSearch ==> r@ == "normal search"@,
            self == GapSearchMode::GapSearchAnywhere ==> r@ == "gap search anywhere"@,
    {
        match self {
            GapSearchMode::GapSearchFromStart => "gap search from start",
            GapSearchMode::NoGapSearch => "normal search",
            GapSearchMode::GapSearchAnywhere => "gap search anywhere",
        }
    }
}

/// Immutable per-session configuration, normally built from command-line
/// arguments by the embedding program.
pub struct TereSettings {
    /// If true, show only folders, not files, in the listing.
    pub folders_only: bool,
    /// If true, show only items matching the search in the listing.
    pub filter_search: bool,
    pub case_sensitive: CaseSensitiveMode,
    /// Delay in milliseconds before entering a sole remaining match;
    /// `None` disables auto-commit.
    pub autocd_timeout: Option<u64>,
    /// Location of the persistent cursor history; `None` disables it.
    pub history_file: Option<String>,
    /// Whether to allow matches with gaps in them, and whether the match
    /// must start at the beginning of the name.
    pub gap_search_mode: GapSearchMode,
    pub mouse_enabled: bool,
    /// Change behaviour of the enter keybinding to "change into directory
    /// and exit".
    pub enter_is_cd_and_exit: bool,
    /// Change behaviour of the esc keybinding to "exit without changing
    /// directory".
    pub esc_is_cancel: bool,
}

impl Default for TereSettings {
    fn default() -> (r: Self)
        ensures
            r.folders_only == false,
            r.filter_search == false,
            r.case_sensitive == CaseSensitiveMode::SmartCase,
            r.autocd_timeout == Option::<u64>::None,
            r.history_file == Option::<String>::None,
            r.gap_search_mode == GapSearchMode::GapSearchFromStart,
            r.mouse_enabled == false,
            r.enter_is_cd_and_exit == false,
            r.esc_is_cancel == false,
    {
        TereSettings {
            folders_only: false,
            filter_search: false,
            case_sensitive: CaseSensitiveMode::SmartCase,
            autocd_timeout: None,
            history_file: None,
            gap_search_mode: GapSearchMode::GapSearchFromStart,
            mouse_enabled: false,
            enter_is_cd_and_exit: false,
            esc_is_cancel: false,
        }
    }
}

} // verus!
