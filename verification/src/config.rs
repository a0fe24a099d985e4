//! Editor settings.

use vstd::prelude::*;

use crate::style::{default_theme, Theme};

verus! {

/// Editor settings.
pub struct Config {
    pub tab_size: usize,
    pub line_numbers: bool,
    pub theme: Theme,
}

impl Config {
    /// Tabs of four, line numbers on, the default theme.
    pub fn default() -> (res: Self)
        ensures
            res.tab_size == 4,
            res.line_numbers,
            res.theme == default_theme(),
    {
        Config { tab_size: 4, line_numbers: true, theme: Theme::default() }
    }
}

} // verus!
