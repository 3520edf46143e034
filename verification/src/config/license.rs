//! License configuration: which license applies to which files, with the
//! resolved template text, the rendering context, and optional patterns
//! that recognize legacy headers to replace.

use vstd::prelude::*;

verus! {

use crate::config::RegexList;
use crate::regexes::re_find;
use crate::regexes::CompiledRegex;
use crate::template::opt_view;
use crate::template::spec_authors;
use crate::template::spec_holder;
use crate::template::Authors;
use crate::template::Context;
use crate::template::CopyrightHolder;
use crate::template::Template;

/// Which files a license configuration entry applies to: all of them, one
/// pattern, or a list of patterns.
pub enum FileMatcher {
    Any,
    Single(CompiledRegex),
    RegexList(RegexList),
}

/// Whether the matcher accepts the filename `s`.
pub open spec fn spec_fm_matches(fm: &FileMatcher, s: Seq<char>) -> bool {
    match fm {
        FileMatcher::Any => true,
        FileMatcher::Single(r) => re_find(r.pat(), s) is Some,
        FileMatcher::RegexList(rl) => rl.spec_is_match(s),
    }
}

impl FileMatcher {
    /// Whether the matcher accepts the filename `s`.
    pub fn is_match(&self, s: &str) -> (r: bool)
        ensures
            r == spec_fm_matches(self, s@),
    {
        match self {
            FileMatcher::Any => true,
            FileMatcher::Single(re) => re.is_match(s),
            FileMatcher::RegexList(rl) => rl.is_match(s),
        }
    }
}

/// Copies of the holders, rendering identically.
fn clone_holders(hs: &Vec<CopyrightHolder>) -> (r: Vec<CopyrightHolder>)
    ensures
        r@.len() == hs@.len(),
        forall|i: int| 0 <= i < hs@.len() ==> spec_holder(#[trigger] r@[i]) == spec_holder(hs@[i]),
{
    let n = hs.len();
    let mut out: Vec<CopyrightHolder> = Vec::new();
    let mut i: usize = 0;
    while i < n
        invariant
            n == hs@.len(),
            0 <= i <= n,
            out@.len() == i,
            forall|j: int| 0 <= j < i ==> spec_holder(#[trigger] out@[j]) == spec_holder(hs@[j]),
        decreases n - i,
    {
        let h = &hs[i];
        let email: Option<String> = match &h.email {
            Some(e) => Some(e.clone()),
            None => None,
        };
        let copy = CopyrightHolder { name: h.name.clone(), email };
        proof {
            assert(spec_holder(copy) == spec_holder(hs@[i as int]));
        }
        out.push(copy);
        i += 1;
    }
    out
}

/// One license configuration entry: the files it applies to, the resolved
/// template text and rendering parameters, and optional patterns matching
/// legacy headers that should be replaced by the current one.
pub struct Config {
    pub files: FileMatcher,
    pub ident: String,
    pub authors: Authors,
    pub end_year: Option<String>,
    pub start_year: Option<String>,
    pub template: String,
    pub spdx_template: bool,
    pub replaces: Option<Vec<CompiledRegex>>,
    pub unwrap_text: bool,
}

impl Config {
    /// Whether the entry applies to the file `s`.
    pub fn file_is_match(&self, s: &str) -> (r: bool)
        ensures
            r == spec_fm_matches(&self.files, s@),
    {
        self.files.is_match(s)
    }

    /// The template for a matching file: the entry's template text with a
    /// context built from the entry's identifier, authors and years.
    pub fn get_template(&self, _filename: &str) -> (r: Template)
        ensures
            r.spdx_template == self.spdx_template,
            r.content@ == self.template@,
            r.context.ident@ == self.ident@,
            spec_authors(r.context.authors) == spec_authors(self.authors),
            opt_view(r.context.end_year) == opt_view(self.end_year),
            opt_view(r.context.start_year) == opt_view(self.start_year),
            r.context.unwrap_text == self.unwrap_text,
    {
        let end_year: Option<String> = match &self.end_year {
            Some(y) => Some(y.clone()),
            None => None,
        };
        let start_year: Option<String> = match &self.start_year {
            Some(y) => Some(y.clone()),
            None => None,
        };
        let context = Context {
            ident: self.ident.clone(),
            authors: Authors::new(clone_holders(&self.authors.authors)),
            end_year,
            start_year,
            unwrap_text: self.unwrap_text,
        };
        let t = Template::new(self.template.as_str(), context);
        proof {
            crate::template::lemma_join_authors_congruence(
                t.context.authors.authors@,
                self.authors.authors@,
                Seq::empty(),
            );
        }
        t.set_spdx_template(self.spdx_template)
    }

    /// The entry's legacy-header patterns, if any.
    pub fn get_replaces(&self) -> (r: &Option<Vec<CompiledRegex>>)
        ensures
            r == &self.replaces,
    {
        &self.replaces
    }
}

} // verus!
