//! The values of the dictionary: entries, results, history and configuration.

pub mod dictionary_entry;
pub mod config;
pub mod history_entry;
pub mod result;
pub mod results;
