//! Searching text with a regular expression (the `regex` crate).

use vstd::prelude::*;

verus! {

/// The class of characters the probe's entry point looks for: a backslash,
/// form feed, backspace, carriage return or tab.
pub const ESCAPE_CLASS_PATTERN: &'static str = r"[\\\x0c\x08\r\t]";

/// Whether `regex` accepts `pattern` (valid syntax, within the default size limit).
pub uninterp spec fn regex_accepts(pattern: Seq<char>) -> bool;

/// Whether the regular expression `pattern` matches somewhere in `haystack`.
pub uninterp spec fn regex_finds(pattern: Seq<char>, haystack: Seq<char>) -> bool;

#[verifier::external_type_specification]
#[verifier::external_body]
pub struct ExRegex(regex::Regex);

#[verifier::external_type_specification]
#[verifier::external_body]
pub struct ExRegexError(regex::Error);

/// `regex::Regex::new`: compiles `pattern` with the default settings. It
/// succeeds or fails depending on the pattern alone; which patterns it accepts
/// is named, not spelled out.
#[verifier::external_body]
fn compile_regex(pattern: &str) -> (r: Result<regex::Regex, regex::Error>)
    ensures
        r is Ok <==> regex_accepts(pattern@),
{
    regex::Regex::new(pattern)
}

/// The pattern is not a regular expression that `regex` accepts.
#[derive(Debug, Clone, Copy, PartialEq, Eq, Structural)]
pub struct PatternError;

/// A compiled regular expression together with the pattern it came from.
/// Only [`Matcher::new`] builds one, from the pattern it stores.
pub struct Matcher {
    pattern: String,
    compiled: regex::Regex,
}

/// `regex::Regex::is_match` on the compiled expression of `m`: whether the
/// expression matches anywhere in `haystack`. The claim that the answer is
/// `regex_finds` of `m`'s stored pattern rests on `m.compiled` having been
/// built from `m.pattern`, which [`Matcher::new`] does and nothing else can.
#[verifier::external_body]
fn regex_is_match(m: &Matcher, haystack: &str) -> (found: bool)
    ensures
        found == regex_finds(m.pattern@, haystack@),
{
    m.compiled.is_match(haystack)
}

impl Matcher {
    /// The pattern this matcher was compiled from.
    pub closed spec fn pattern(&self) -> Seq<char> {
        self.pattern@
    }

    /// Compiles `pattern`; fails exactly when `regex` rejects it.
    pub fn new(pattern: &str) -> (r: Result<Matcher, PatternError>)
        ensures
            r is Ok <==> regex_accepts(pattern@),
            r matches Ok(m) ==> m.pattern() == pattern@,
    {
        match compile_regex(pattern) {
            Ok(compiled) => Ok(Matcher { pattern: String::from_str(pattern), compiled }),
            Err(_) => Err(PatternError),
        }
    }

    /// Whether the pattern matches somewhere in `haystack`.
    pub fn is_match(&self, haystack: &str) -> (found: bool)
        ensures
            found == regex_finds(self.pattern(), haystack@),
    {
        regex_is_match(self, haystack)
    }
}

} // verus!
