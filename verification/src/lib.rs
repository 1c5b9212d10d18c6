//! Token usage parsing and accounting for local AI coding assistants.
//!
//! The library turns the session logs that Kimi Code and Codex leave on
//! disk into uniform token records, and holds the small rules around them
//! (configuration lookup, path handling, display formatting, request
//! checks).  Reading files, the database and the desktop shell live in the
//! application around it.
pub mod codex;
pub mod commands;
pub mod csv_format;
pub mod export;
pub mod format;
pub mod kimi;
pub mod paths;
pub mod record;
pub mod text;
pub mod widget;
