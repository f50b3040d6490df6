//! Compiled regular expressions of the `regex` crate, carried beside the
//! pattern text they were compiled from. Whether a pattern compiles, and
//! whether it matches a given text, are both functions of the pattern and
//! text alone, named here and assumed only of the crate's own calls.

use vstd::prelude::*;

verus! {

/// Declares `regex::Regex`, the crate's compiled regular expression, as an
/// opaque type so that values of it can be held and passed along.
#[verifier::external_type_specification]
#[verifier::external_body]
pub struct ExRegex(regex::Regex);

/// Declares `regex::Error`, what `regex::Regex::new` returns for a pattern
/// it does not accept, as an opaque type.
#[verifier::external_type_specification]
#[verifier::external_body]
pub struct ExRegexError(regex::Error);

/// Whether `regex::Regex::new` accepts `pattern`.
pub uninterp spec fn regex_valid(pattern: Seq<char>) -> bool;

/// Whether the regular expression compiled from `pattern` matches somewhere
/// inside `text`.
pub uninterp spec fn regex_is_match(pattern: Seq<char>, text: Seq<char>) -> bool;

/// A compiled regular expression, remembering its pattern text. Values are
/// only ever built by `compile`, so the compiled form always belongs to the
/// remembered pattern.
pub struct CompiledRegex {
    pattern: String,
    compiled: regex::Regex,
}

impl CompiledRegex {
    /// The pattern this regular expression was compiled from.
    pub closed spec fn pattern(&self) -> Seq<char> {
        self.pattern@
    }

    /// Relies on `regex::Regex::new`: compilation succeeds or fails as a
    /// function of the pattern text alone, and the compiled value is kept
    /// beside the pattern it came from.
    #[verifier::external_body]
    pub fn compile(pattern: &str) -> (r: Result<CompiledRegex, regex::Error>)
        ensures
            r is Ok <==> regex_valid(pattern@),
            r matches Ok(c) ==> c.pattern() == pattern@,
    {
        match regex::Regex::new(pattern) {
            Ok(compiled) => Ok(CompiledRegex { pattern: pattern.to_string(), compiled }),
            Err(e) => Err(e),
        }
    }

    /// Relies on `regex::Regex::is_match`: whether the compiled pattern
    /// matches anywhere in `text`, a function of pattern and text alone.
    #[verifier::external_body]
    pub fn is_match(&self, text: &str) -> (r: bool)
        ensures
            r == regex_is_match(self.pattern(), text@),
    {
        self.compiled.is_match(text)
    }
}

} // verus!
