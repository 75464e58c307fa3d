//! Regular expressions, through the `regex` crate.

use vstd::prelude::*;

verus! {

#[verifier::external_type_specification]
#[verifier::external_body]
pub struct ExRegex(regex::Regex);

/// `regex::Regex::new` accepts `pattern`.
pub uninterp spec fn regex_valid(pattern: Seq<char>) -> bool;

/// `Regex::is_match` of the expression compiled from `pattern` finds a
/// match in `text`.
pub uninterp spec fn regex_is_match(pattern: Seq<char>, text: Seq<char>) -> bool;

/// What `Regex::replace_all` of the expression compiled from `pattern`
/// makes of `text` with the replacement `rep` (in which `$name` and `${n}`
/// stand for capture groups).
pub uninterp spec fn regex_replaced(pattern: Seq<char>, text: Seq<char>, rep: Seq<char>) -> Seq<
    char,
>;

/// A compiled regular expression, with the text of the pattern it was
/// compiled from. Only `compile` makes one, in the same step that compiles
/// `re` from `source`, and neither field changes afterwards.
pub struct Pattern {
    re: regex::Regex,
    source: String,
}

impl Pattern {
    /// The pattern the expression was compiled from.
    pub closed spec fn source(self) -> Seq<char> {
        self.source@
    }
}

/// `regex::Regex::new` on `pattern`, kept together with the pattern's text.
/// The contract says no more than that it succeeds exactly on the patterns
/// named `regex_valid`, and that the result records `pattern`; the
/// compiled expression itself is opaque.
#[verifier::external_body]
pub(crate) fn compile(pattern: &str) -> (r: Option<Pattern>)
    ensures
        r is Some == regex_valid(pattern@),
        r matches Some(p) ==> p.source() == pattern@,
{
    match regex::Regex::new(pattern) {
        Ok(re) => Some(Pattern { re, source: pattern.to_string() }),
        Err(_) => None,
    }
}

/// `Regex::is_match` with the expression `p`, which `compile` built from
/// the pattern `p.source()`: the contract names the answer
/// `regex_is_match` of that pattern and the text, and states nothing more
/// of it.
#[verifier::external_body]
fn regex_search(p: &Pattern, text: &str) -> (b: bool)
    ensures
        b == regex_is_match(p.source(), text@),
{
    p.re.is_match(text)
}

/// `Regex::replace_all` with the expression `p`, which `compile` built from
/// the pattern `p.source()`: the contract names the result
/// `regex_replaced` of that pattern, the text and the replacement, and
/// states nothing more of it.
#[verifier::external_body]
fn regex_replace(p: &Pattern, text: &str, rep: &str) -> (s: String)
    ensures
        s@ == regex_replaced(p.source(), text@, rep@),
{
    p.re.replace_all(text, rep).to_string()
}

impl Pattern {
    /// Whether the expression finds a match in `text`.
    pub fn is_match(&self, text: &str) -> (b: bool)
        ensures
            b == regex_is_match(self.source(), text@),
    {
        regex_search(self, text)
    }

    /// `text` with every match replaced by `rep`.
    pub fn replace_all(&self, text: &str, rep: &str) -> (s: String)
        ensures
            s@ == regex_replaced(self.source(), text@, rep@),
    {
        regex_replace(self, text, rep)
    }
}

} // verus!
