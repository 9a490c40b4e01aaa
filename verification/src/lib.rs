//! Duplicate-detection engine for a file-maintenance tool.
//!
//! The engine determines, for a set of files handed to it as plain
//! (path, size) entries, which ones are byte-identical, and plans a chosen
//! disposition (report, relocate, or remove) for all but one representative
//! per identical-content group. It runs as a five-stage pipeline:
//! scanner indexing, size grouping, content hashing, duplicate grouping,
//! and disposition planning. Every stage is a pure transformation whose
//! result is pinned to a mathematical model; the surrounding process does
//! the walking, reading, and renaming and feeds plain values in and out.

pub mod cli;
pub mod config;
pub mod dedup;
pub mod disposition;
pub mod dup_grouper;
pub mod hasher;
pub mod laws;
pub mod outcome;
pub mod record;
pub mod scanner;
pub mod seq_util;
pub mod size_grouper;
