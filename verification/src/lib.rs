//! Window-matching and focus-dispatch engine for a launcher plugin.
//!
//! The library builds an in-memory snapshot of open windows, ranks it
//! against free-text input with fuzzy subsequence scoring, resolves a
//! display icon for each window through a layered lookup, and prepares
//! the arguments of the out-of-process focus action.

pub mod client;
pub mod config;
pub mod describe;
pub mod dispatch;
pub mod icon;
pub mod matching;
pub mod rank;
