//! Core library of a privacy-focused browser: a content-filtering engine with
//! an atomically swappable compiled rule set, a concurrent time-bounded
//! allowlist, a background update pipeline, declarative (content-blocker)
//! rule synthesis, and the pure logic of the surrounding shell (navigation
//! parsing, visit history and its scored search, tab bookkeeping, settings,
//! the devtools bridge's decisions).
//!
//! The shell around this library does the I/O: it reads the clock, fetches
//! list texts, persists caches and runs the windows. Every decision it
//! needs it takes from here, as plain values in and plain values out.

pub mod allowlist;
pub mod closed_tabs;
pub mod devtools;
pub mod engine;
pub mod history;
pub mod manager;
pub mod navigation;
pub mod safari;
pub mod settings;
pub mod store;
pub mod tabs;
pub mod text;
pub mod urlinfo;
