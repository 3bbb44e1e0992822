//! Trusted interfaces to the outside collaborators: syntax highlighting,
//! user-supplied regular expressions, glob patterns, randomness, and the
//! two Unicode character classifications the heading directive needs.
//!
//! Each wrapper holds exactly one outside call and the conversions around
//! it; what the call returns is named by an uninterpreted function where it
//! is a pure function of the arguments, and left open where it is not.

use vstd::prelude::*;

verus! {

/// What `syntect` renders for a code block: a function of the theme name,
/// the language extension and the code alone (the syntax and theme sets
/// are compiled into the library). `None` when the theme or language is
/// unknown.
pub uninterp spec fn highlight_of(
    theme: Seq<char>,
    language: Seq<char>,
    code: Seq<char>,
) -> Option<Seq<char>>;

/// Relies on `syntect`: `SyntaxSet::load_defaults_newlines`,
/// `ThemeSet::load_defaults`, `find_syntax_by_extension` and
/// `highlighted_html_for_string` together realise the
/// `highlight(language, code) -> html` collaborator, a deterministic
/// function of the three inputs.
#[verifier::external_body]
pub fn highlight_html(theme: &str, language: &str, code: &str) -> (r: Option<String>)
    ensures
        match r {
            Some(s) => highlight_of(theme@, language@, code@) == Some(s@),
            None => highlight_of(theme@, language@, code@) is None,
        },
{
    let syntax_set = syntect::parsing::SyntaxSet::load_defaults_newlines();
    let theme_set = syntect::highlighting::ThemeSet::load_defaults();
    let syntax = syntax_set.find_syntax_by_extension(language)?;
    let theme = theme_set.themes.get(theme)?;
    syntect::html::highlighted_html_for_string(code, &syntax_set, syntax, theme).ok()
}

/// Whether `regex` accepts `pattern` as a valid expression.
pub uninterp spec fn regex_valid(pattern: Seq<char>) -> bool;

/// Whether the regular expression `pattern` matches somewhere in `text`;
/// meaningful only when [`regex_valid`] holds of the pattern.
pub uninterp spec fn regex_match_of(pattern: Seq<char>, text: Seq<char>) -> bool;

/// Relies on `regex::Regex::new`: compilation succeeds on exactly the
/// valid patterns.
#[verifier::external_body]
pub fn regex_is_valid(pattern: &str) -> (r: bool)
    ensures
        r == regex_valid(pattern@),
{
    regex::Regex::new(pattern).is_ok()
}

/// Relies on `regex::Regex::new` and `regex::Regex::is_match`: a compiled
/// pattern matches a text deterministically; compilation fails on exactly
/// the invalid patterns.
#[verifier::external_body]
pub fn regex_matches(pattern: &str, text: &str) -> (r: Option<bool>)
    ensures
        r is Some <==> regex_valid(pattern@),
        r matches Some(b) ==> b == regex_match_of(pattern@, text@),
{
    match regex::Regex::new(pattern) {
        Ok(re) => Some(re.is_match(text)),
        Err(_) => None,
    }
}

/// Whether `glob` accepts `pattern` as a valid pattern.
pub uninterp spec fn glob_valid(pattern: Seq<char>) -> bool;

/// Whether the glob `pattern` matches `path`; meaningful only when
/// [`glob_valid`] holds of the pattern.
pub uninterp spec fn glob_match_of(pattern: Seq<char>, path: Seq<char>) -> bool;

/// Relies on `glob::Pattern::new` and `glob::Pattern::matches`: a compiled
/// pattern matches a path deterministically; compilation fails on exactly
/// the invalid patterns.
#[verifier::external_body]
pub fn glob_matches(pattern: &str, path: &str) -> (r: Option<bool>)
    ensures
        r is Some <==> glob_valid(pattern@),
        r matches Some(b) ==> b == glob_match_of(pattern@, path@),
{
    match glob::Pattern::new(pattern) {
        Ok(p) => Some(p.matches(path)),
        Err(_) => None,
    }
}

/// Relies on `rand::random`: a fresh random value; nothing can be promised
/// of which one.
#[verifier::external_body]
pub fn random_u128() -> u128 {
    rand::random::<u128>()
}

/// Whether `c` is alphanumeric in Unicode's classification, as
/// `char::is_alphanumeric` decides it.
pub uninterp spec fn char_alnum(c: char) -> bool;

/// Relies on `char::is_alphanumeric`: a deterministic classification of
/// the character alone.
#[verifier::external_body]
pub fn char_is_alphanumeric(c: char) -> (r: bool)
    ensures
        r == char_alnum(c),
{
    c.is_alphanumeric()
}

/// The lowercase mapping of `c` (possibly several characters), as
/// `char::to_lowercase` yields it.
pub uninterp spec fn char_lower(c: char) -> Seq<char>;

/// Relies on `char::to_lowercase`: a deterministic mapping of the
/// character alone.
#[verifier::external_body]
pub fn char_lowercase(c: char) -> (r: String)
    ensures
        r@ == char_lower(c),
{
    c.to_lowercase().collect()
}

} // verus!
