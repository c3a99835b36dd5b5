//! Incremental trade-chat watcher: tails a growing chat log, classifies each
//! newly appended line as a trade message, extracts its structured fields, and
//! merges related lines into one evolving trade record per participant.
pub mod classify;
pub mod file_line_reader;
pub mod model;
pub mod patterns;
pub mod settings;
pub mod text;
