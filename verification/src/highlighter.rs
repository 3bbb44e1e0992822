//! Syntax highlighting at the interface the build consumes: a theme name
//! plus `highlight(language, code) -> html`, realised by `syntect` behind
//! a trusted wrapper.

use vstd::prelude::*;
use crate::outside::{highlight_html, highlight_of};

verus! {

/// The theme used when the project configuration names none.
pub fn default_syntax_theme() -> (r: &'static str)
    ensures
        r@ == "base16-ocean.light"@,
{
    "base16-ocean.light"
}

/// A syntax highlighter fixed to one color theme.
pub struct SyntaxHighlighter {
    pub theme: String,
}

impl SyntaxHighlighter {
    pub fn new(theme: &str) -> (r: SyntaxHighlighter)
        ensures
            r.theme@ == theme@,
    {
        SyntaxHighlighter { theme: theme.to_owned() }
    }

    /// Highlight `code` written in `language` (named by file extension).
    /// Fails exactly when the language or the theme is unknown.
    pub fn highlight(&self, language: &str, code: &str) -> (r: Result<String, ()>)
        ensures
            match r {
                Ok(s) => highlight_of(self.theme@, language@, code@) == Some(s@),
                Err(_) => highlight_of(self.theme@, language@, code@) is None,
            },
    {
        match highlight_html(self.theme.as_str(), language, code) {
            Some(s) => Ok(s),
            None => Err(()),
        }
    }
}

} // verus!
