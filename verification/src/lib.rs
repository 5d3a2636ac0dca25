//! Core of a pop-up application launcher: query interpretation and mode
//! dispatch, result ranking, bounded usage history, and the session state
//! machine that turns keystrokes into a ranked, selectable item list.
//!
//! All I/O (config loading, icon discovery, subprocess front-ends, network
//! fetches) lives outside this crate; the core works on plain values handed
//! in by the surrounding application.

pub mod calc;
pub mod config;
pub mod currency;
pub mod engine;
pub mod fuzzy;
pub mod history;
pub mod launcher;
pub mod mode;
pub mod order;
pub mod persist;
pub mod text;
pub mod websearch;
