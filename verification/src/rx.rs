//! The bridge to the `regex` crate: regex needles are compiled once at
//! build time and searched over the byte buffer.

use vstd::prelude::*;

verus! {

#[verifier::external_type_specification]
#[verifier::external_body]
pub struct ExRegex(regex::bytes::Regex);

/// The first match `regex::bytes::Regex::find` reports for this pattern in
/// this haystack, as byte offsets `(start, end)`. The result is a function
/// of the pattern and the haystack alone.
pub uninterp spec fn regex_find_spec(pattern: Seq<char>, hay: Seq<u8>) -> Option<(int, int)>;

/// A regex needle: the compiled form together with the pattern it was
/// compiled from. The two fields are coupled by the constructor and are
/// never reassigned.
#[derive(Debug)]
pub struct RegexNeedle {
    pattern: String,
    compiled: regex::bytes::Regex,
}

impl RegexNeedle {
    /// The pattern this needle was compiled from.
    pub closed spec fn pattern_view(&self) -> Seq<char> {
        self.pattern@
    }

    /// Relies on regex::bytes::Regex::new: `Ok` exactly when the pattern is
    /// a valid regex; the compiled value searches for that pattern.
    #[verifier::external_body]
    pub fn new(pattern: String) -> (r: Option<RegexNeedle>)
        ensures
            r matches Some(n) ==> n.pattern_view() == pattern@,
    {
        match regex::bytes::Regex::new(pattern.as_str()) {
            Ok(compiled) => Some(RegexNeedle { pattern, compiled }),
            Err(_) => None,
        }
    }

    /// Relies on regex::bytes::Regex::find: returns the byte span of the
    /// first match, which lies within the haystack (the `Match` offsets are
    /// documented to satisfy `start <= end` and to index the haystack); the
    /// span depends on the pattern and the haystack alone. The pattern is
    /// not recompiled.
    #[verifier::external_body]
    pub fn find(&self, hay: &[u8]) -> (r: Option<(usize, usize)>)
        ensures
            r matches Some(se) ==> regex_find_spec(self.pattern_view(), hay@) == Some(
                (se.0 as int, se.1 as int),
            ) && se.0 <= se.1 <= hay@.len(),
            r is None ==> regex_find_spec(self.pattern_view(), hay@) is None,
    {
        self.compiled.find(hay).map(|m| (m.start(), m.end()))
    }

    /// The pattern, for reporting.
    pub fn pattern(&self) -> (r: &String)
        ensures
            r@ == self.pattern_view(),
    {
        &self.pattern
    }
}

} // verus!
