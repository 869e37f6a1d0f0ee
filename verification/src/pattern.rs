//! Regular expressions, compiled once and matched against attribute values.

use regex::Regex;
use vstd::prelude::*;

verus! {

#[verifier::external_type_specification]
#[verifier::external_body]
pub struct ExRegex(regex::Regex);

#[verifier::external_type_specification]
#[verifier::external_body]
pub struct ExRegexError(regex::Error);

/// Whether the regular-expression engine accepts `source` as a pattern.
pub uninterp spec fn pattern_compiles(source: Seq<char>) -> bool;

/// Whether the pattern `source`, once compiled, finds a match anywhere in
/// `text`.
pub uninterp spec fn pattern_matches(source: Seq<char>, text: Seq<char>) -> bool;

/// A compiled pattern together with the text it was compiled from.
///
/// The only way to make one is [`Pattern::new`], so `compiled` is always
/// the result of compiling `source`.
#[derive(Debug)]
pub struct Pattern {
    source: String,
    compiled: Regex,
}

impl View for Pattern {
    type V = Seq<char>;

    /// The text of the pattern.
    closed spec fn view(&self) -> Seq<char> {
        self.source@
    }
}

/// Why a pattern was refused.
#[derive(Debug)]
pub struct PatternError {
    /// The text that does not compile.
    pub source: String,
    /// What the engine said about it.
    pub reason: regex::Error,
}

/// `Regex::new` of the `regex` crate: compiles `source` with the engine's
/// default options. It succeeds exactly on the texts that
/// [`pattern_compiles`] names; the compiled expression is kept beside the
/// text it came from.
#[verifier::external_body]
fn compile(source: String) -> (r: Result<Pattern, regex::Error>)
    ensures
        r is Ok <==> pattern_compiles(source@),
        r matches Ok(p) ==> p@ == source@,
{
    match Regex::new(&source) {
        Ok(compiled) => Ok(Pattern { source, compiled }),
        Err(e) => Err(e),
    }
}

/// `Regex::is_match` of the `regex` crate, on the compiled form of
/// `pattern`: whether there is a match anywhere in `text`, which
/// [`pattern_matches`] names for the pattern's text and `text`.
#[verifier::external_body]
fn search(pattern: &Pattern, text: &str) -> (found: bool)
    ensures
        found == pattern_matches(pattern@, text@),
{
    pattern.compiled.is_match(text)
}

impl Pattern {
    /// Compiles `source`. A text that the engine refuses comes back in the
    /// error, with the engine's reason.
    pub fn new(source: String) -> (r: Result<Pattern, PatternError>)
        ensures
            r is Ok <==> pattern_compiles(source@),
            r matches Ok(p) ==> p@ == source@,
            r matches Err(e) ==> e.source@ == source@,
    {
        let kept = source.clone();
        match compile(source) {
            Ok(p) => Ok(p),
            Err(reason) => Err(PatternError { source: kept, reason }),
        }
    }

    /// Whether the pattern matches somewhere in `text`.
    pub fn is_match(&self, text: &str) -> (found: bool)
        ensures
            found == pattern_matches(self@, text@),
    {
        search(self, text)
    }

    /// The text the pattern was compiled from.
    pub fn source(&self) -> (r: &str)
        ensures
            r@ == self@,
    {
        self.source.as_str()
    }
}

} // verus!
