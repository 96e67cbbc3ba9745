//! Regular expressions, through the `regex` crate.
use vstd::prelude::*;

verus! {

/// Declares `regex::Regex`, so that a compiled regex can be held in a
/// [`Pattern`]; Verus sees nothing inside it.
#[verifier::external_type_specification]
#[verifier::external_body]
pub struct ExRegex(regex::Regex);

/// What `regex::Regex::new` reports for a pattern: `None` when the pattern
/// compiles, otherwise the text of the error it returns.
pub uninterp spec fn regex_compile_error(pattern: Seq<char>) -> Option<Seq<char>>;

/// Whether `regex::Regex::is_match`, on the regex compiled from `pattern`,
/// finds a match anywhere in `haystack`.
pub uninterp spec fn regex_finds_match(pattern: Seq<char>, haystack: Seq<char>) -> bool;

/// Compiles a pattern with `regex::Regex::new`.
///
/// Trusted: the outcome (success, or the error's message) is a function of
/// the pattern alone, named `regex_compile_error`; which patterns compile is
/// not stated.
#[verifier::external_body]
fn compile_regex(pattern: &str) -> (r: Result<regex::Regex, String>)
    ensures
        match r {
            Ok(_) => regex_compile_error(pattern@) is None,
            Err(m) => regex_compile_error(pattern@) == Some(m@),
        },
{
    match regex::Regex::new(pattern) {
        Ok(re) => Ok(re),
        Err(e) => Err(format!("{e}")),
    }
}

/// A compiled regular expression together with the pattern it came from.
///
/// The only way to build one is [`Pattern::compile`], so `compiled` is always
/// the regex compiled from `source`.
pub struct Pattern {
    source: String,
    compiled: regex::Regex,
}

/// Runs `regex::Regex::is_match` on the compiled regex of `p`.
///
/// Trusted: the answer is a function of the pattern text and the haystack,
/// named `regex_finds_match`; what the regex language means is not stated.
#[verifier::external_body]
fn regex_is_match(p: &Pattern, haystack: &str) -> (b: bool)
    ensures
        b == regex_finds_match(p.source(), haystack@),
{
    p.compiled.is_match(haystack)
}

impl Pattern {
    /// The pattern text this regex was compiled from.
    pub closed spec fn source(&self) -> Seq<char> {
        self.source@
    }

    /// Compiles `source`; on failure returns the regex error's message.
    pub fn compile(source: &str) -> (r: Result<Pattern, String>)
        ensures
            match r {
                Ok(p) => p.source() == source@ && regex_compile_error(source@) is None,
                Err(m) => regex_compile_error(source@) == Some(m@),
            },
    {
        match compile_regex(source) {
            Ok(re) => Ok(Pattern { source: source.to_owned(), compiled: re }),
            Err(m) => Err(m),
        }
    }

    /// Whether the regex matches somewhere in `haystack`.
    pub fn is_match(&self, haystack: &str) -> (b: bool)
        ensures
            b == regex_finds_match(self.source(), haystack@),
    {
        regex_is_match(self, haystack)
    }
}

} // verus!
