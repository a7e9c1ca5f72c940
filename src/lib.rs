//! A work-session timer for tracked issues: a pause/resume stopwatch, the
//! decisions of the interactive sitting around it, and a ledger that adds up
//! the time spent on each task over many sittings.
pub mod config;
pub mod issue;
pub mod store;
pub mod text;
pub mod timer;
pub mod tui;
