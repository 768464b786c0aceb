//! Regular expressions, by the `regex` crate.
use vstd::prelude::*;

verus! {

#[verifier::external_type_specification]
#[verifier::external_body]
pub struct ExRegex(regex::Regex);

/// Whether `regex::Regex::new` accepts `pattern`.
pub uninterp spec fn regex_compiles(pattern: Seq<char>) -> bool;

/// What `regex::Regex::is_match` answers for the regex compiled from `pattern` on `text`.
pub uninterp spec fn regex_is_match(pattern: Seq<char>, text: Seq<char>) -> bool;

/// A compiled regular expression together with the source it was compiled from.
/// The only way to make one is [`compile`], so `compiled` always comes from `source`.
pub struct Pattern {
    source: String,
    compiled: regex::Regex,
}

impl Pattern {
    /// The regular expression this pattern was compiled from.
    pub closed spec fn source(&self) -> Seq<char> {
        self.source@
    }
}

/// Calls `regex::Regex::new(source)`. Trusted: `Some` exactly when the crate
/// accepts the pattern (named `regex_compiles`), and the pattern keeps its source.
#[verifier::external_body]
pub fn compile(source: &str) -> (r: Option<Pattern>)
    ensures
        r is Some <==> regex_compiles(source@),
        r matches Some(p) ==> p.source() == source@,
{
    match regex::Regex::new(source) {
        Ok(compiled) => Some(Pattern { source: source.to_string(), compiled }),
        Err(_) => None,
    }
}

/// Calls `regex::Regex::is_match`. Trusted: the answer is the one named
/// `regex_is_match` for the pattern's source and `text`; the regex crate's
/// matching semantics are not written out here.
#[verifier::external_body]
pub fn is_match(p: &Pattern, text: &str) -> (b: bool)
    ensures
        b == regex_is_match(p.source(), text@),
{
    p.compiled.is_match(text)
}

} // verus!
