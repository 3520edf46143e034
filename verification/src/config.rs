//! The resolved configuration the engine runs on: exclude patterns, license
//! configuration entries and comment configuration entries, plus whether
//! files are rewritten in place.

use vstd::prelude::*;

pub mod comment;
pub mod license;

verus! {

use crate::comments::Comment;
use crate::comments::CommentStyle;
use crate::config::comment::cfg_comment;
use crate::config::comment::get_filetype;
use crate::config::comment::spec_filetype;
use crate::config::comment::Config as CommentConfig;
use crate::config::license::spec_fm_matches;
use crate::config::license::Config as LicenseConfig;
use crate::regexes::re_find;
use crate::regexes::regex_valid;
use crate::regexes::CompiledRegex;
use crate::template::opt_view;
use crate::template::spec_authors;
use crate::template::Template;

/// A list of patterns; a string matches the list when it matches any of
/// them.
pub struct RegexList {
    pub patterns: Vec<CompiledRegex>,
}

impl RegexList {
    /// Whether `s` matches one of the patterns.
    pub open spec fn spec_is_match(&self, s: Seq<char>) -> bool {
        exists|i: int|
            0 <= i < self.patterns@.len() && re_find(#[trigger] self.patterns@[i].pat(), s) is Some
    }

    /// A list with no patterns, matching nothing.
    pub fn empty() -> (r: RegexList)
        ensures
            r.patterns@.len() == 0,
    {
        RegexList { patterns: Vec::new() }
    }

    /// A list holding the given patterns; `None` exactly when one of them
    /// does not compile.
    pub fn from_patterns(pats: &Vec<String>) -> (r: Option<RegexList>)
        ensures
            (r is Some) == (forall|i: int|
                0 <= i < pats@.len() ==> regex_valid(#[trigger] pats@[i]@)),
            r matches Some(rl) ==> rl.patterns@.len() == pats@.len() && forall|i: int|
                0 <= i < pats@.len() ==> (#[trigger] rl.patterns@[i].pat()) == pats@[i]@,
    {
        let n = pats.len();
        let mut out: Vec<CompiledRegex> = Vec::new();
        let mut i: usize = 0;
        while i < n
            invariant
                n == pats@.len(),
                0 <= i <= n,
                out@.len() == i,
                forall|j: int| 0 <= j < i ==> regex_valid(#[trigger] pats@[j]@),
                forall|j: int| 0 <= j < i ==> (#[trigger] out@[j].pat()) == pats@[j]@,
            decreases n - i,
        {
            match CompiledRegex::compile(pats[i].as_str()) {
                Some(c) => {
                    out.push(c);
                },
                None => {
                    assert(!regex_valid(pats@[i as int]@));
                    return None;
                },
            }
            i += 1;
        }
        Some(RegexList { patterns: out })
    }

    /// Whether `s` matches one of the patterns.
    pub fn is_match(&self, s: &str) -> (r: bool)
        ensures
            r == self.spec_is_match(s@),
    {
        let n = self.patterns.len();
        let mut i: usize = 0;
        while i < n
            invariant
                n == self.patterns@.len(),
                0 <= i <= n,
                forall|j: int|
                    0 <= j < i ==> re_find(#[trigger] self.patterns@[j].pat(), s@) is None,
            decreases n - i,
        {
            if self.patterns[i].is_match(s) {
                return true;
            }
            i += 1;
        }
        false
    }

    /// Add `pat` in front of the existing patterns; `false`, leaving the
    /// list unchanged, exactly when it does not compile.
    pub fn add_exclude(&mut self, pat: &str) -> (ok: bool)
        ensures
            ok == regex_valid(pat@),
            ok ==> ({
                &&& final(self).patterns@.len() == old(self).patterns@.len() + 1
                &&& final(self).patterns@[0].pat() == pat@
                &&& forall|i: int|
                    0 <= i < old(self).patterns@.len() ==> (#[trigger] final(self).patterns@[i
                        + 1].pat()) == old(self).patterns@[i].pat()
            }),
            !ok ==> *final(self) == *old(self),
    {
        match CompiledRegex::compile(pat) {
            Some(c) => {
                let mut pats: Vec<CompiledRegex> = Vec::new();
                pats.push(c);
                let n = self.patterns.len();
                let mut i: usize = 0;
                while i < n
                    invariant
                        n == old(self).patterns@.len(),
                        self == old(self),
                        0 <= i <= n,
                        pats@.len() == i + 1,
                        pats@[0].pat() == pat@,
                        forall|j: int|
                            0 <= j < i ==> (#[trigger] pats@[j + 1].pat())
                                == old(self).patterns@[j].pat(),
                    decreases n - i,
                {
                    let copy = self.patterns[i].duplicate();
                    pats.push(copy);
                    i += 1;
                }
                self.patterns = pats;
                true
            },
            None => false,
        }
    }
}

/// The comment configuration entries, tried in order.
pub struct CommentConfigList {
    pub cfgs: Vec<CommentConfig>,
}

/// The index of the first comment configuration entry that applies to
/// `filename`, or `None`.
pub open spec fn spec_comment_index(cfgs: Seq<CommentConfig>, filename: Seq<char>, i: int) -> Option<
    int,
>
    decreases cfgs.len() - i,
{
    if i < 0 || i >= cfgs.len() {
        None
    } else if cfgs[i].spec_matches(spec_filetype(filename), filename) {
        Some(i)
    } else {
        spec_comment_index(cfgs, filename, i + 1)
    }
}

impl CommentConfigList {
    /// Every entry's commenter marker leaves room for its separating
    /// space.
    pub open spec fn wf(&self) -> bool {
        forall|i: int| 0 <= i < self.cfgs@.len() ==> (#[trigger] self.cfgs@[i]).wf()
    }

    /// The commenter of the first entry that applies to `filename`, or
    /// `None` when no entry does.
    pub fn get_commenter(&self, filename: &str) -> (r: Option<CommentStyle>)
        requires
            self.wf(),
        ensures
            match r {
                Some(c) => spec_comment_index(self.cfgs@, filename@, 0) matches Some(ci) && c.wf()
                    && forall|text: Seq<char>| #[trigger]
                    c.spec_comment(text) == cfg_comment(&self.cfgs@[ci], text),
                None => spec_comment_index(self.cfgs@, filename@, 0) is None,
            },
    {
        let file_type = get_filetype(filename);
        let n = self.cfgs.len();
        let mut i: usize = 0;
        while i < n
            invariant
                n == self.cfgs@.len(),
                0 <= i <= n,
                self.wf(),
                spec_comment_index(self.cfgs@, filename@, 0) == spec_comment_index(
                    self.cfgs@,
                    filename@,
                    i as int,
                ),
                file_type@ == spec_filetype(filename@),
            decreases n - i,
        {
            if self.cfgs[i].matches(file_type.as_str(), filename) {
                let c = self.cfgs[i].commenter();
                return Some(c);
            }
            i += 1;
        }
        None
    }
}

/// The license configuration entries, tried in order.
pub struct LicenseConfigList {
    pub cfgs: Vec<LicenseConfig>,
}

/// The index of the first license configuration entry that applies to
/// `filename`, or `None`.
pub open spec fn spec_license_index(cfgs: Seq<LicenseConfig>, filename: Seq<char>, i: int) -> Option<
    int,
>
    decreases cfgs.len() - i,
{
    if i < 0 || i >= cfgs.len() {
        None
    } else if spec_fm_matches(&cfgs[i].files, filename) {
        Some(i)
    } else {
        spec_license_index(cfgs, filename, i + 1)
    }
}

impl LicenseConfigList {
    /// The template of the first entry that applies to `filename`, or
    /// `None` when no entry does.
    pub fn get_template(&self, filename: &str) -> (r: Option<Template>)
        ensures
            match r {
                Some(t) => spec_license_index(self.cfgs@, filename@, 0) matches Some(li) && {
                    let e = self.cfgs@[li];
                    &&& t.spdx_template == e.spdx_template
                    &&& t.content@ == e.template@
                    &&& t.context.ident@ == e.ident@
                    &&& spec_authors(t.context.authors) == spec_authors(e.authors)
                    &&& opt_view(t.context.end_year) == opt_view(e.end_year)
                    &&& opt_view(t.context.start_year) == opt_view(e.start_year)
                    &&& t.context.unwrap_text == e.unwrap_text
                },
                None => spec_license_index(self.cfgs@, filename@, 0) is None,
            },
    {
        let n = self.cfgs.len();
        let mut i: usize = 0;
        while i < n
            invariant
                n == self.cfgs@.len(),
                0 <= i <= n,
                spec_license_index(self.cfgs@, filename@, 0) == spec_license_index(
                    self.cfgs@,
                    filename@,
                    i as int,
                ),
            decreases n - i,
        {
            if self.cfgs[i].file_is_match(filename) {
                return Some(self.cfgs[i].get_template(filename));
            }
            i += 1;
        }
        None
    }

    /// The legacy-header patterns of the first entry that applies to
    /// `filename`, or `None`.
    pub fn get_replaces(&self, filename: &str) -> (r: Option<&Vec<CompiledRegex>>)
        ensures
            match spec_license_index(self.cfgs@, filename@, 0) {
                Some(li) => match self.cfgs@[li].replaces {
                    Some(ps) => r matches Some(v) && v@ == ps@,
                    None => r is None,
                },
                None => r is None,
            },
    {
        let n = self.cfgs.len();
        let mut i: usize = 0;
        while i < n
            invariant
                n == self.cfgs@.len(),
                0 <= i <= n,
                spec_license_index(self.cfgs@, filename@, 0) == spec_license_index(
                    self.cfgs@,
                    filename@,
                    i as int,
                ),
            decreases n - i,
        {
            if self.cfgs[i].file_is_match(filename) {
                return match &self.cfgs[i].replaces {
                    Some(ps) => Some(ps),
                    None => None,
                };
            }
            i += 1;
        }
        None
    }
}

/// The resolved configuration the engine consumes.
pub struct Config {
    pub change_in_place: bool,
    pub excludes: RegexList,
    pub licenses: LicenseConfigList,
    pub comments: CommentConfigList,
}

impl Config {
    /// Every comment entry is well formed.
    pub open spec fn wf(&self) -> bool {
        self.comments.wf()
    }

    /// Add an exclude pattern in front of the existing ones; `false`,
    /// leaving the configuration unchanged, exactly when it does not
    /// compile.
    pub fn add_exclude(&mut self, pat: &str) -> (ok: bool)
        ensures
            ok == regex_valid(pat@),
            final(self).licenses == old(self).licenses,
            final(self).comments == old(self).comments,
            final(self).change_in_place == old(self).change_in_place,
            ok ==> final(self).excludes.patterns@.len() == old(self).excludes.patterns@.len() + 1
                && final(self).excludes.patterns@[0].pat() == pat@,
            !ok ==> final(self).excludes == old(self).excludes,
    {
        self.excludes.add_exclude(pat)
    }
}

} // verus!
