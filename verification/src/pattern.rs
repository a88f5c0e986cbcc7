//! Compiled regular expressions, as the `regex` crate provides them.
//!
//! What a regular expression matches is the `regex` crate's business; this
//! module names those results (as functions of the pattern's source text and
//! the haystack) so that the rest of the library can state its contracts in
//! terms of them.
use vstd::prelude::*;
use vstd::utf8::*;

verus! {

#[verifier::external_type_specification]
#[verifier::external_body]
pub struct ExRegex(regex::Regex);

/// Whether `regex::Regex::new` accepts the pattern.
pub uninterp spec fn regex_compiles(pattern: Seq<char>) -> bool;

/// What `regex::Regex::is_match` answers for a regex compiled from `pattern`.
pub uninterp spec fn regex_is_match(pattern: Seq<char>, haystack: Seq<char>) -> bool;

/// The byte range of the match that `regex::Regex::find` reports, if any.
pub uninterp spec fn regex_find(pattern: Seq<char>, haystack: Seq<char>) -> Option<(usize, usize)>;

/// The byte ranges of the matches that `regex::Regex::find_iter` yields, in order.
pub uninterp spec fn regex_find_iter(pattern: Seq<char>, haystack: Seq<char>) -> Seq<(usize, usize)>;

/// A byte range of `haystack` that `regex` may report as a match: its ends are
/// ordered, lie within the haystack and fall on UTF-8 character boundaries.
pub open spec fn valid_match_range(haystack: Seq<char>, range: (usize, usize)) -> bool {
    &&& range.0 <= range.1
    &&& range.1 <= encode_utf8(haystack).len()
    &&& is_char_boundary(encode_utf8(haystack), range.0 as int)
    &&& is_char_boundary(encode_utf8(haystack), range.1 as int)
}

/// A regular expression together with the source text it was compiled from.
///
/// Values are only made by `Pattern::new`, which compiles `source`, so the
/// compiled regex always is the one for `source`.
pub struct Pattern {
    source: String,
    re: regex::Regex,
}

impl Pattern {
    /// The source text of the pattern.
    pub closed spec fn source(&self) -> Seq<char> {
        self.source@
    }

    /// Compiles `pattern` with `regex::Regex::new`.
    ///
    /// Trusted: the result is `Some` exactly when the crate accepts the
    /// pattern, and then it carries `pattern` as its source.
    #[verifier::external_body]
    pub(crate) fn new(pattern: &str) -> (res: Option<Pattern>)
        ensures
            res is Some <==> regex_compiles(pattern@),
            res matches Some(p) ==> p.source() == pattern@,
    {
        match regex::Regex::new(pattern) {
            Ok(re) => Some(Pattern { source: pattern.to_string(), re }),
            Err(_) => None,
        }
    }

    /// Calls `regex::Regex::is_match`.
    ///
    /// Trusted: the answer is the named result `regex_is_match` of the source
    /// and the haystack.
    #[verifier::external_body]
    pub(crate) fn is_match(&self, haystack: &str) -> (res: bool)
        ensures
            res == regex_is_match(self.source(), haystack@),
    {
        self.re.is_match(haystack)
    }

    /// Calls `regex::Regex::find` and reports the byte range of the match.
    ///
    /// Trusted: the result is the named result `regex_find`; as the crate
    /// documents for `Match`, a reported range is ordered, lies within the
    /// haystack and falls on character boundaries.
    #[verifier::external_body]
    pub(crate) fn find(&self, haystack: &str) -> (res: Option<(usize, usize)>)
        ensures
            res == regex_find(self.source(), haystack@),
            res matches Some(r) ==> valid_match_range(haystack@, r),
    {
        match self.re.find(haystack) {
            Some(m) => Some((m.start(), m.end())),
            None => None,
        }
    }

    /// Calls `regex::Regex::find_iter` and reports the byte range of each match.
    ///
    /// Trusted: the result is the named result `regex_find_iter`; as the crate
    /// documents, every range is a valid match range and the matches are
    /// successive and do not overlap.
    #[verifier::external_body]
    pub(crate) fn find_iter(&self, haystack: &str) -> (res: Vec<(usize, usize)>)
        ensures
            res@ == regex_find_iter(self.source(), haystack@),
            forall|i: int| 0 <= i < res@.len() ==> valid_match_range(haystack@, #[trigger] res@[i]),
            forall|i: int| #![trigger res@[i]] 0 <= i < res@.len() - 1 ==> res@[i].1 <= res@[i + 1].0,
    {
        self.re.find_iter(haystack).map(|m| (m.start(), m.end())).collect()
    }
}

} // verus!
