//! Core state engine of a keyboard-driven directory browser.
//!
//! The library owns the current directory listing, runs incremental
//! subsequence ("gap") matching over it, tracks cursor and scroll position,
//! resolves directory-change requests, and persists per-directory cursor
//! history. Rendering, raw input decoding and filesystem access live outside
//! the library and talk to it through plain values.

pub mod app_state;
pub mod chars;
pub mod cursor;
pub mod history;
pub mod listing;
pub mod search;
pub mod settings;
