//! Compiled search patterns. All the trust placed in the `regex` crate is
//! collected here: a compiled pattern carries its own source text as a
//! ghost view, and what matching returns is named by [`match_sets_of`].

use vstd::prelude::*;

verus! {

#[verifier::external_type_specification]
#[verifier::external_body]
pub struct ExRegex(regex::Regex);

#[verifier::external_type_specification]
#[verifier::external_body]
pub struct ExRegexError(regex::Error);

/// Whether `pattern` is a valid regular expression: exactly the pattern
/// texts that the compiler accepts (within its default size limit). A
/// function of the pattern text alone.
pub uninterp spec fn compiles(pattern: Seq<char>) -> bool;

/// The list of capture-group sets that matching `pattern` against `text`
/// yields: one set per non-overlapping match, scanning left to right;
/// within a set, element 0 is the full match text and the following
/// elements are the participating sub-group captures, in order. The value
/// depends on the pattern and the text alone.
pub uninterp spec fn match_sets_of(pattern: Seq<char>, text: Seq<char>) -> Seq<Seq<Seq<char>>>;

/// The pattern matches somewhere in `text`: the match list is non-empty.
pub open spec fn pat_matches(pattern: Seq<char>, text: Seq<char>) -> bool {
    match_sets_of(pattern, text).len() > 0
}

/// An immutable compiled regular expression, viewed as its source text.
/// The compiled value and the source are paired at construction and never
/// mutated, so matching through `re` is matching against the view.
pub struct Pattern {
    re: regex::Regex,
    source: String,
}

impl View for Pattern {
    type V = Seq<char>;

    closed spec fn view(&self) -> Seq<char> {
        self.source@
    }
}

/// A pattern that could not be compiled, with the compiler's description.
#[derive(Debug)]
pub struct PatternError {
    pub message: String,
}

/// Relies on regex::Regex::new: compiles `source`, succeeding exactly on
/// the valid patterns — [`compiles`] names that set. The compiled value is
/// opaque; nothing is claimed of it here beyond what the matching
/// wrappers below state.
#[verifier::external_body]
fn compile(source: &str) -> (r: Result<regex::Regex, regex::Error>)
    ensures
        r is Ok <==> compiles(source@),
{
    regex::Regex::new(source)
}

/// Relies on regex::Error's Display impl for a human-readable description
/// of why the pattern was refused.
#[verifier::external_body]
fn error_message(e: &regex::Error) -> (r: String) {
    format!("{}", e)
}

/// Relies on regex::Regex::is_match: true if and only if the pattern
/// matches anywhere in `text`. Regex::captures_iter yields one capture set
/// per match, so this is exactly "the match list is non-empty".
#[verifier::external_body]
pub(crate) fn pattern_is_match(p: &Pattern, text: &str) -> (r: bool)
    ensures
        r == pat_matches(p@, text@),
{
    p.re.is_match(text)
}

/// Relies on regex::Regex::captures_iter and regex::Captures::iter: one
/// capture set per successive non-overlapping match; within a set, group 0
/// (the full match) comes first and non-participating groups are omitted.
/// Every set is non-empty, since group 0 always participates.
#[verifier::external_body]
pub fn match_groups(p: &Pattern, content: &str) -> (r: Vec<Vec<String>>)
    ensures
        r.deep_view() == match_sets_of(p@, content@),
        forall|i: int| 0 <= i < r.deep_view().len() ==> r.deep_view()[i].len() >= 1,
{
    p.re.captures_iter(content)
        .map(|group| {
            group
                .iter()
                .filter_map(|mat| Some(mat?.as_str().to_string()))
                .collect()
        })
        .collect()
}

impl Pattern {
    /// Compiles `source`; an invalid pattern is a construction-time
    /// error, and construction succeeds if and only if the pattern is
    /// valid.
    pub fn new(source: &str) -> (r: Result<Pattern, PatternError>)
        ensures
            r is Ok <==> compiles(source@),
            r matches Ok(p) ==> p@ == source@,
    {
        match compile(source) {
            Ok(re) => Ok(Pattern { re, source: String::from_str(source) }),
            Err(e) => Err(PatternError { message: error_message(&e) }),
        }
    }

    /// The source text the pattern was compiled from.
    pub fn source(&self) -> (r: &str)
        ensures
            r@ == self@,
    {
        self.source.as_str()
    }
}

}
