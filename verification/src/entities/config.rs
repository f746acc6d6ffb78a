//! The configuration of the dictionary.
use vstd::prelude::*;
use crate::language::{Language, default_language};

verus! {

/// The configuration: the language to use when none is asked for.
#[derive(Clone, Copy, Debug)]
pub struct Config {
    pub language: Language,
}

impl Default for Config {
    fn default() -> (res: Config)
        ensures
            res.language == default_language(),
    {
        Config { language: Language::default() }
    }
}

impl Config {
    /// The language asked for, or else the configured one.
    pub fn or_use_config_or_default(&self, language: Option<Language>) -> (res: Language)
        ensures
            res == match language {
                Some(l) => l,
                None => self.language,
            },
    {
        if let Some(language) = language {
            return language;
        }
        self.language
    }
}

} // verus!
