//! Oyo: a diff engine with step-through navigation.
//!
//! The crate computes line diffs (with word-level spans inside modified
//! lines), groups the changes into hunks, and drives a navigator that
//! applies and un-applies changes one step or one hunk at a time, building
//! the view lines that a viewer draws for each state. Around the navigator
//! stand the viewer's rules: multi-file sessions, scrolling and hunk
//! targeting, goto queries, key counts and peeks, blame parsing and
//! prefetch planning, colors, themes and the configuration, and how times
//! and paths are shown.

pub mod blame;
pub mod cli;
pub mod change;
pub mod color;
pub mod config;
pub mod controls;
pub mod diff;
pub mod file_panel;
pub mod display;
pub mod foreign;
pub mod goto_line;
pub mod keys;
pub mod hunk_scroll;
pub mod mode_memory;
pub mod multi;
pub mod playback;
pub mod prefetch;
pub mod profile;
pub mod search;
pub mod status_bar;
pub mod step;
pub mod syntax;
pub mod text;
pub mod theme;
pub mod time_format;
pub mod tokens;
pub mod view;
