//! Regular expressions: the URL pattern that finds links in text, and the
//! pattern that recognises the API endpoint which lists a channel's messages.

use vstd::prelude::*;
use crate::text::strs;

verus! {

/// `regex::Regex`, the regex crate's compiled expression, held opaque.
#[verifier::external_type_specification]
#[verifier::external_body]
pub struct ExRegex(regex::Regex);

/// `regex::Error`, the regex crate's refusal of a pattern, held opaque.
#[verifier::external_type_specification]
#[verifier::external_body]
pub struct ExRegexError(regex::Error);

/// Whether `regex::Regex::new` accepts `pattern` (it refuses invalid patterns
/// and those that compile to more than the default size limit).
pub uninterp spec fn regex_compiles(pattern: Seq<char>) -> bool;

/// The texts of the successive non-overlapping matches that `regex::Regex::find_iter`
/// yields for the regex compiled from `pattern` in `haystack`.
pub uninterp spec fn regex_matches(pattern: Seq<char>, haystack: Seq<char>) -> Seq<Seq<char>>;

/// A compiled regular expression, together with the pattern it was compiled from.
/// Its fields are private and only `compile_regex` builds one, so the expression is
/// always the one compiled from the pattern.
pub struct Pattern {
    re: regex::Regex,
    source: String,
}

impl View for Pattern {
    type V = Seq<char>;

    /// The pattern that the expression was compiled from.
    closed spec fn view(&self) -> Seq<char> {
        self.source@
    }
}

/// The refusal of a pattern by `regex::Regex::new`.
#[derive(Debug)]
pub struct PatternError;

/// `regex::Regex::new`: compiles `pattern`; the result keeps the pattern beside
/// the compiled expression. The contract claims only that it succeeds exactly on
/// the patterns that the name `regex_compiles` stands for.
#[verifier::external_body]
fn compile_regex(pattern: &str) -> (r: Result<Pattern, regex::Error>)
    ensures
        r is Ok <==> regex_compiles(pattern@),
        r matches Ok(p) ==> p@ == pattern@,
{
    match regex::Regex::new(pattern) {
        Ok(re) => Ok(Pattern { re, source: pattern.to_string() }),
        Err(e) => Err(e),
    }
}

/// `regex::Regex::find_iter` with `regex::Match::as_str`: the texts of the successive
/// non-overlapping matches of `p` in `haystack`, in order. The contract names them
/// `regex_matches` of the pattern `p` was compiled from and of `haystack`; what they
/// are is the regex crate's matching, which is not stated here.
#[verifier::external_body]
fn regex_find_iter(p: &Pattern, haystack: &str) -> (r: Vec<String>)
    ensures
        strs(r@) == regex_matches(p@, haystack@),
{
    p.re.find_iter(haystack).map(|m| m.as_str().to_string()).collect()
}

/// `regex::Regex::is_match`: the regex crate documents it as true if and only if there
/// is a match anywhere in `haystack`, which is when `find_iter` yields at least one;
/// the contract states that.
#[verifier::external_body]
fn regex_is_match(p: &Pattern, haystack: &str) -> (r: bool)
    ensures
        r == (regex_matches(p@, haystack@).len() > 0),
{
    p.re.is_match(haystack)
}

impl Pattern {
    /// Compiles `pattern`; fails exactly when the regex crate refuses it.
    pub fn new(pattern: &str) -> (r: Result<Pattern, PatternError>)
        ensures
            r is Ok <==> regex_compiles(pattern@),
            r matches Ok(p) ==> p@ == pattern@,
    {
        match compile_regex(pattern) {
            Ok(p) => Ok(p),
            Err(_) => Err(PatternError),
        }
    }

    /// The texts of the successive non-overlapping matches in `haystack`.
    pub fn find_all(&self, haystack: &str) -> (r: Vec<String>)
        ensures
            strs(r@) == regex_matches(self@, haystack@),
    {
        regex_find_iter(self, haystack)
    }

    /// Whether the expression matches anywhere in `haystack`.
    pub fn is_match(&self, haystack: &str) -> (r: bool)
        ensures
            r == (regex_matches(self@, haystack@).len() > 0),
    {
        regex_is_match(self, haystack)
    }
}

/// The pattern of the links that are taken from free text.
pub fn url_pattern() -> (r: &'static str)
    ensures
        r@ == url_pattern_text(),
{
    "(https?://[^\\s<]+[^?~*|<>.,:;\"'`)\\]\\s])"
}

/// The pattern of the API endpoint that lists a channel's messages.
pub fn endpoint_pattern() -> (r: &'static str)
    ensures
        r@ == endpoint_pattern_text(),
{
    "^/api/v9/channels/\\d+/messages"
}

/// The text of the link pattern.
pub open spec fn url_pattern_text() -> Seq<char> {
    "(https?://[^\\s<]+[^?~*|<>.,:;\"'`)\\]\\s])"@
}

/// The text of the endpoint pattern.
pub open spec fn endpoint_pattern_text() -> Seq<char> {
    "^/api/v9/channels/\\d+/messages"@
}

} // verus!
