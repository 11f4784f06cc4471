//! Compiled regular expressions, each kept beside the text it came from.

use vstd::prelude::*;
use vstd::string::StringExecFns;
use regex::Regex;

verus! {

#[verifier::external_type_specification]
#[verifier::external_body]
pub struct ExRegex(regex::Regex);

#[verifier::external_type_specification]
#[verifier::external_body]
pub struct ExRegexError(regex::Error);

/// Whether `pattern` is accepted by the regex compiler under its default limits.
pub uninterp spec fn regex_compiles(pattern: Seq<char>) -> bool;

/// Whether the regex compiled from `pattern` matches somewhere in `text`.
pub uninterp spec fn regex_matches(pattern: Seq<char>, text: Seq<char>) -> bool;

/// A regular expression together with its source text.
///
/// The fields are private: the only way to build one is `Matcher::new`, so the
/// compiled regex always belongs to the source text it is stored with.
pub struct Matcher {
    re: Regex,
    source: String,
}

/// A pattern that the regex compiler refused.
#[derive(Debug)]
pub struct PatternError {
    pub pattern: String,
}

impl Matcher {
    /// The source text of the regular expression.
    pub closed spec fn pattern(&self) -> Seq<char> {
        self.source@
    }

    /// Compiles `pattern`; fails exactly when the regex compiler refuses it.
    pub fn new(pattern: &str) -> (r: Result<Matcher, PatternError>)
        ensures
            r is Ok <==> regex_compiles(pattern@),
            r matches Ok(m) ==> m.pattern() == pattern@,
            r matches Err(e) ==> e.pattern@ == pattern@,
    {
        match compile_regex(String::from_str(pattern)) {
            Ok(m) => Ok(m),
            Err(_) => Err(PatternError { pattern: String::from_str(pattern) }),
        }
    }

    /// Relies on `regex::Regex::is_match`: true exactly when the regex matches
    /// somewhere in `text`.
    #[verifier::external_body]
    pub(crate) fn is_match(&self, text: &str) -> (r: bool)
        ensures
            r == regex_matches(self.pattern(), text@),
    {
        self.re.is_match(text)
    }

    /// The source text of the regular expression.
    pub fn source(&self) -> (r: &str)
        ensures
            r@ == self.pattern(),
    {
        self.source.as_str()
    }
}

/// Relies on `regex::Regex::new`: it returns `Ok` exactly for the patterns it
/// accepts. The compiled regex is stored with the text it was compiled from.
#[verifier::external_body]
fn compile_regex(pattern: String) -> (r: Result<Matcher, regex::Error>)
    ensures
        r is Ok <==> regex_compiles(pattern@),
        r matches Ok(m) ==> m.pattern() == pattern@,
{
    match Regex::new(&pattern) {
        Ok(re) => Ok(Matcher { re, source: pattern }),
        Err(e) => Err(e),
    }
}

} // verus!
