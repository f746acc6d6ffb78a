//! A Wiktionary-backed dictionary: languages, dictionary entries and their
//! rendering, exhaustive and index based search, and the decisions around the
//! dictionary database, the download and the Lua extensions.

pub mod language;
pub mod style;
pub mod text;
pub mod render;
pub mod entities;
pub mod distance;
pub mod exhaustive_search;
pub mod identifier_index;
pub mod file_utils;
pub mod download;
pub mod extension;
pub mod db;
pub mod cli;
pub mod stats;
