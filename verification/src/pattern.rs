//! Regular expressions, as values that know the pattern they were made from.

use vstd::prelude::*;

verus! {

/// The compiled expression of the regular expression library, opaque here.
#[verifier::external_type_specification]
#[verifier::external_body]
pub struct ExRegex(regex::Regex);

/// A compiled regular expression together with its source.
///
/// The fields are private and only [`Pattern::new`] fills them, so the
/// expression is always the one compiled from the source.
#[derive(Debug)]
pub struct Pattern {
    source: String,
    regex: regex::Regex,
}

impl View for Pattern {
    type V = Seq<char>;

    closed spec fn view(&self) -> Seq<char> {
        self.source@
    }
}

/// The message of the error with which `regex::Regex::new` refuses a pattern,
/// if it does.
pub uninterp spec fn pattern_error(pattern: Seq<char>) -> Option<Seq<char>>;

/// What `regex::Regex::is_match` says of a text, for the expression that
/// `regex::Regex::new` makes of a pattern.
pub uninterp spec fn pattern_matches(pattern: Seq<char>, text: Seq<char>) -> bool;

/// Compiles a pattern.
///
/// Calls `regex::Regex::new`. Whether a pattern is accepted, and the message
/// of the error where it is not, are functions of the pattern alone.
#[verifier::external_body]
fn compile(pattern: &str) -> (compiled: Result<Pattern, String>)
    ensures
        match compiled {
            Ok(p) => pattern_error(pattern@) is None && p@ == pattern@,
            Err(message) => pattern_error(pattern@) == Some(message@),
        },
{
    match regex::Regex::new(pattern) {
        Ok(regex) => Ok(Pattern { source: pattern.to_string(), regex }),
        Err(e) => Err(e.to_string()),
    }
}

/// Searches a text for a match.
///
/// Calls `regex::Regex::is_match`, whose answer depends on the pattern and
/// the text alone.
#[verifier::external_body]
fn search(pattern: &Pattern, text: &str) -> (found: bool)
    ensures
        found == pattern_matches(pattern@, text@),
{
    pattern.regex.is_match(text)
}

impl Pattern {
    /// Compiles a regular expression, or says why it is not one.
    pub fn new(pattern: &str) -> (compiled: Result<Self, String>)
        ensures
            match compiled {
                Ok(p) => pattern_error(pattern@) is None && p@ == pattern@,
                Err(message) => pattern_error(pattern@) == Some(message@),
            },
    {
        compile(pattern)
    }

    /// Whether the expression matches anywhere in a text.
    pub fn is_match(&self, text: &str) -> (found: bool)
        ensures
            found == pattern_matches(self@, text@),
    {
        search(self, text)
    }
}

} // verus!
