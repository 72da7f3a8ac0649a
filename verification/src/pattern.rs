//! Regular expressions that an input's text has to match.
use vstd::prelude::*;

verus! {

/// The regular expression type of the crate `regex`.
#[verifier::external_type_specification]
#[verifier::external_body]
pub struct ExRegex(regex::Regex);

/// Whether a text has a match for the regular expression with the source `pattern`.
pub uninterp spec fn regex_matches(pattern: Seq<char>, text: Seq<char>) -> bool;

/// `Regex::new` compiles `source`. What it gives is kept with that source, so
/// that the expression of a pattern is the one compiled from the pattern's
/// view. It fails where `source` is no regular expression, or takes more room
/// than is allowed. The room that states take depends on the machine, so
/// nothing is said of when this is `None`.
#[verifier::external_body]
fn regex_new(source: &str) -> (pattern: Option<Pattern>)
    ensures
        pattern matches Some(p) ==> p@ == source@,
{
    match regex::Regex::new(source) {
        Ok(regex) => Some(Pattern { source: source.to_owned(), regex }),
        Err(_) => None,
    }
}

/// `Regex::is_match` tells whether the compiled expression has a match
/// anywhere in `text`. The expression of a pattern is the one that `Regex::new`
/// made of its source: `regex_new` alone makes patterns.
#[verifier::external_body]
fn regex_is_match(pattern: &Pattern, text: &str) -> (b: bool)
    ensures
        b == regex_matches(pattern@, text@),
{
    pattern.regex.is_match(text)
}

/// A regular expression and its source. Flags are written in the source, such as `(?i)`.
pub struct Pattern {
    source: String,
    regex: regex::Regex,
}

impl View for Pattern {
    type V = Seq<char>;

    closed spec fn view(&self) -> Seq<char> {
        self.source@
    }
}

impl Pattern {
    /// Compiles `source`; nothing when it does not compile.
    pub fn new(source: &str) -> (p: Option<Pattern>)
        ensures
            p matches Some(q) ==> q@ == source@,
    {
        regex_new(source)
    }

    /// Whether `text` has a match.
    pub fn is_match(&self, text: &str) -> (b: bool)
        ensures
            b == regex_matches(self@, text@),
    {
        regex_is_match(self, text)
    }
}

} // verus!
