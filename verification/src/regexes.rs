//! Compiled regular expressions from configuration: user-supplied exclude
//! patterns, file matchers and legacy-header (`replaces`) patterns.  The
//! regex crate does the matching; each call is wrapped in a trusted item
//! whose contract speaks of the pattern's source text.

use vstd::prelude::*;

verus! {

#[verifier::external_type_specification]
#[verifier::external_body]
pub struct ExRegex(regex::Regex);

/// What `regex::Regex::find` returns for a pattern and a haystack: the
/// haystack split around the leftmost match, as (prefix, match, suffix),
/// or `None` when the pattern does not match.  The result depends on the
/// pattern source and the haystack alone.
pub uninterp spec fn re_find(pattern: Seq<char>, text: Seq<char>) -> Option<
    (Seq<char>, Seq<char>, Seq<char>),
>;

/// Whether `regex::Regex::new` accepts a pattern: compilation success is
/// a function of the pattern text alone.
pub uninterp spec fn regex_valid(pattern: Seq<char>) -> bool;

/// A regular expression together with the pattern text it was compiled
/// from.  Values are only created by `compile`, so the two always agree.
pub struct CompiledRegex {
    re: regex::Regex,
    src: String,
}

impl CompiledRegex {
    /// The pattern text this regex was compiled from.
    pub closed spec fn pat(&self) -> Seq<char> {
        self.src@
    }

    /// Relies on `regex::Regex::new`: compiles the pattern, succeeding
    /// exactly on the patterns the regex crate accepts, or reports a
    /// syntax error as `None`.
    #[verifier::external_body]
    pub fn compile(pattern: &str) -> (r: Option<CompiledRegex>)
        ensures
            (r is Some) == regex_valid(pattern@),
            r matches Some(c) ==> c.pat() == pattern@,
    {
        match regex::Regex::new(pattern) {
            Ok(re) => Some(CompiledRegex { re, src: pattern.to_string() }),
            Err(_) => None,
        }
    }

    /// Relies on `regex::Regex::find`: searches for the leftmost match of
    /// the pattern in `text`; a match is a span of the haystack, so the
    /// haystack equals prefix + match + suffix.
    #[verifier::external_body]
    pub fn find_split(&self, text: &str) -> (r: Option<(String, String, String)>)
        ensures
            (r is Some) == (re_find(self.pat(), text@) is Some),
            r matches Some(parts) ==> re_find(self.pat(), text@) matches Some(sp) && parts.0@
                == sp.0 && parts.1@ == sp.1 && parts.2@ == sp.2 && text@ == sp.0 + sp.1 + sp.2,
    {
        self.re.find(text).map(
            |m|
                (
                    text[..m.start()].to_string(),
                    m.as_str().to_string(),
                    text[m.end()..].to_string(),
                ),
        )
    }

    /// Relies on `regex::Regex::clone`: an identical regex for the same
    /// pattern.
    #[verifier::external_body]
    pub fn duplicate(&self) -> (r: CompiledRegex)
        ensures
            r.pat() == self.pat(),
    {
        CompiledRegex { re: self.re.clone(), src: self.src.clone() }
    }

    /// Whether the pattern matches anywhere in `text`.
    pub fn is_match(&self, text: &str) -> (r: bool)
        ensures
            r == (re_find(self.pat(), text@) is Some),
    {
        self.find_split(text).is_some()
    }
}

} // verus!
