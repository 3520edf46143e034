//! The licensing decision engine: render the header for a file, compare it
//! against the file's content, classify the file, and compute the minimal
//! replacement text.

use vstd::prelude::*;

verus! {

use vstd::string::StringExecFns;

use crate::comments::Comment;
use crate::comments::CommentStyle;
use crate::config::comment::cfg_comment;
use crate::config::comment::Config as CommentConfig;
use crate::config::license::Config as LicenseConfig;
use crate::config::spec_comment_index;
use crate::config::spec_license_index;
use crate::config::Config;
use crate::pattern::pat_find_spec;
use crate::regexes::re_find;
use crate::regexes::CompiledRegex;
use crate::template::opt_view;
use crate::template::sentinel;
use crate::template::spec_authors;
use crate::template::spec_interpolate;
use crate::template::spec_pattern;
use crate::template::spec_render;
use crate::template::year_field_string;
use crate::template::Template;
use crate::text::append_vec;
use crate::text::chars_of;
use crate::text::contains_at;
use crate::text::contains_seq;
use crate::text::contains_vec;
use crate::text::first_index_of;
use crate::text::first_index_of_exec;
use crate::text::split_on;
use crate::text::starts_with;
use crate::text::starts_with_vec;
use crate::text::string_of;
use crate::text::subvec;
use crate::text::trim_end_spec;
use crate::text::trim_end_vec;

/// An error met while processing a batch of files: what was being done,
/// and the underlying cause.
pub struct Error {
    pub context: String,
    pub cause: String,
}

impl Error {
    /// An error with the given context and cause.
    pub fn new(context: String, cause: String) -> (r: Error)
        ensures
            r.context == context,
            r.cause == cause,
    {
        Error { context, cause }
    }

    /// The error as one line: the context, a separator, and the cause.
    pub fn message(&self) -> (r: String)
        ensures
            r@ == self.context@ + ": "@ + self.cause@,
    {
        let mut v = chars_of(self.context.as_str());
        v.push(':');
        v.push(' ');
        let cv = chars_of(self.cause.as_str());
        append_vec(&mut v, &cv);
        proof {
            assert(v@ =~= self.context@ + ": "@ + self.cause@) by {
                reveal_strlit(": ");
            }
        }
        string_of(&v)
    }
}

/// Statistics over one batch run: which files were found unlicensed, which
/// need their license updated, and which had no commenter configured.
pub struct LicenseStats {
    pub files_not_licensed: Vec<String>,
    pub files_needing_license_update: Vec<String>,
    pub files_needing_commenter: Vec<String>,
}

impl LicenseStats {
    /// Empty statistics.
    pub fn new() -> (r: LicenseStats)
        ensures
            r.files_not_licensed@.len() == 0,
            r.files_needing_license_update@.len() == 0,
            r.files_needing_commenter@.len() == 0,
    {
        LicenseStats {
            files_not_licensed: Vec::new(),
            files_needing_license_update: Vec::new(),
            files_needing_commenter: Vec::new(),
        }
    }
}

/// `after` is `before` with one path, holding the characters of `v`,
/// appended.
pub open spec fn pushed(after: Seq<String>, before: Seq<String>, v: Seq<char>) -> bool {
    after.len() == before.len() + 1 && after.drop_last() == before && after.last()@ == v
}

/// What the engine decides for one file.
#[derive(Debug, PartialEq, Eq)]
pub enum Action {
    NeedsUpdate(String),
    AlreadyLicensed,
    NoConfigMatched,
    NoCommenterMatched,
}

/// The decision for one file, at the specification level.
pub enum SpecAction {
    NeedsUpdate(Seq<char>),
    AlreadyLicensed,
    NoConfigMatched,
    NoCommenterMatched,
}

/// Whether the executable action agrees with the specification-level one.
pub open spec fn action_matches(a: &Action, s: SpecAction) -> bool {
    match (a, s) {
        (Action::NeedsUpdate(u), SpecAction::NeedsUpdate(t)) => u@ == t,
        (Action::AlreadyLicensed, SpecAction::AlreadyLicensed) => true,
        (Action::NoConfigMatched, SpecAction::NoConfigMatched) => true,
        (Action::NoCommenterMatched, SpecAction::NoCommenterMatched) => true,
        _ => false,
    }
}

/// The template text a license configuration entry renders from: the raw
/// text, or, when the entry asks for unwrapping, the text with its column
/// wrapping collapsed.
pub open spec fn entry_text(e: &LicenseConfig) -> Seq<char> {
    if e.unwrap_text {
        crate::utils::spec_unwrapped(e.template@)
    } else {
        e.template@
    }
}

/// What a license configuration entry's template renders to with the
/// given year field in the year's place.
pub open spec fn entry_render(e: &LicenseConfig, year: Seq<char>) -> Seq<char> {
    spec_interpolate(e.spdx_template, entry_text(e), year, spec_authors(e.authors), e.ident@)
}

/// The rendered year field of a license configuration entry; meaningful
/// when the entry has an end year.
pub open spec fn entry_year(e: &LicenseConfig) -> Seq<char> {
    year_field_string(opt_view(e.start_year), opt_view(e.end_year)->0)
}

/// The header for a license entry and comment entry with the given year
/// field in the year's place: the rendered template turned into a comment
/// block.
pub open spec fn spec_header_with(e: &LicenseConfig, c: &CommentConfig, y: Seq<char>) -> Seq<
    char,
> {
    cfg_comment(c, entry_render(e, y))
}

/// The exact header for a license entry and comment entry: the rendered
/// template turned into a comment block.
pub open spec fn spec_header(e: &LicenseConfig, c: &CommentConfig) -> Seq<char> {
    spec_header_with(e, c, entry_year(e))
}

/// The year-varying pattern fragments for a license entry and comment
/// entry: the sentinel-rendered header, commented, optionally trimmed,
/// split on the sentinel.
pub open spec fn spec_sent_pattern(e: &LicenseConfig, c: &CommentConfig, trim: bool) -> Seq<
    Seq<char>,
> {
    let commented = cfg_comment(c, entry_render(e, sentinel()));
    split_on(
        if trim {
            trim_end_spec(commented)
        } else {
            commented
        },
        sentinel(),
    )
}

/// The replacement produced by the first legacy-header pattern, from index
/// `i` on, that matches `content`: the matched span replaced by `hdr`.
pub open spec fn spec_replaces_result(
    ps: Seq<CompiledRegex>,
    content: Seq<char>,
    hdr: Seq<char>,
    i: int,
) -> Option<Seq<char>>
    decreases ps.len() - i,
{
    if i < 0 || i >= ps.len() {
        None
    } else {
        match re_find(ps[i].pat(), content) {
            Some(parts) => Some(parts.0 + hdr + parts.2),
            None => spec_replaces_result(ps, content, hdr, i + 1),
        }
    }
}

/// The header prepended to the content; a shebang line at the very start
/// of the content stays first.
pub open spec fn spec_add_header(hdr: Seq<char>, content: Seq<char>) -> Seq<char> {
    if starts_with(content, "#!"@) && first_index_of(content, '\n') >= 0 {
        let k = first_index_of(content, '\n');
        content.take(k + 1) + hdr + content.skip(k + 1)
    } else {
        hdr + content
    }
}

/// The decision the engine takes for a file with the given content, under
/// the given configuration, with the given year field standing in the
/// matched entry's header.
pub open spec fn spec_classify_with_year(
    cfg: &Config,
    file: Seq<char>,
    content: Seq<char>,
    y: Seq<char>,
) -> SpecAction {
    match spec_license_index(cfg.licenses.cfgs@, file, 0) {
        None => SpecAction::NoConfigMatched,
        Some(li) => {
            let e = cfg.licenses.cfgs@[li];
            match spec_comment_index(cfg.comments.cfgs@, file, 0) {
                None => SpecAction::NoCommenterMatched,
                Some(ci) => {
                    let cc = cfg.comments.cfgs@[ci];
                    let hdr = spec_header_with(&e, &cc, y);
                    if contains_seq(content, hdr) || contains_seq(content, trim_end_spec(hdr)) {
                        SpecAction::AlreadyLicensed
                    } else {
                        match pat_find_spec(spec_sent_pattern(&e, &cc, false), content) {
                            Some(se) => SpecAction::NeedsUpdate(
                                content.take(se.0) + hdr + content.skip(se.1),
                            ),
                            None => match pat_find_spec(spec_sent_pattern(&e, &cc, true), content) {
                                Some(se) => SpecAction::NeedsUpdate(
                                    content.take(se.0) + trim_end_spec(hdr) + content.skip(se.1),
                                ),
                                None => {
                                    let rep = match e.replaces {
                                        Some(ps) => spec_replaces_result(ps@, content, hdr, 0),
                                        None => None,
                                    };
                                    match rep {
                                        Some(u) => SpecAction::NeedsUpdate(u),
                                        None => SpecAction::NeedsUpdate(
                                            spec_add_header(hdr, content),
                                        ),
                                    }
                                },
                            },
                        }
                    }
                },
            }
        },
    }
}

/// The decision the engine takes for a file with the given content, under
/// the given configuration.  When the matched license entry has no end
/// year the header text here stands for one rendering of the current
/// year.
pub open spec fn spec_classify(cfg: &Config, file: Seq<char>, content: Seq<char>) -> SpecAction {
    let y = match spec_license_index(cfg.licenses.cfgs@, file, 0) {
        Some(li) => entry_year(&cfg.licenses.cfgs@[li]),
        None => Seq::<char>::empty(),
    };
    spec_classify_with_year(cfg, file, content, y)
}

/// A middle piece of a concatenation occurs in it.
pub proof fn lemma_concat_contains(a: Seq<char>, b: Seq<char>, c: Seq<char>)
    ensures
        contains_seq(a + b + c, b),
{
    assert((a + b + c).subrange(a.len() as int, a.len() + b.len() as int) =~= b);
    assert(contains_at(a + b + c, b, a.len() as int));
}

/// A replacement produced from a legacy-header pattern contains the new
/// header.
pub proof fn lemma_replaces_contains(
    ps: Seq<CompiledRegex>,
    content: Seq<char>,
    hdr: Seq<char>,
    i: int,
)
    ensures
        spec_replaces_result(ps, content, hdr, i) matches Some(u) ==> contains_seq(u, hdr),
    decreases ps.len() - i,
{
    if 0 <= i < ps.len() {
        match re_find(ps[i].pat(), content) {
            Some(parts) => {
                lemma_concat_contains(parts.0, hdr, parts.2);
            },
            None => {
                lemma_replaces_contains(ps, content, hdr, i + 1);
            },
        }
    }
}

/// Idempotence of the engine for a fixed year field: whenever
/// classification asks for an update, classifying the updated content
/// again, with the same year field in the header's place, finds the file
/// already licensed.  This covers entries without a configured end year,
/// as long as the clock year has not changed between the two runs.
pub proof fn lemma_engine_idempotent_with_year(
    cfg: &Config,
    file: Seq<char>,
    content: Seq<char>,
    y: Seq<char>,
    u: Seq<char>,
)
    requires
        spec_classify_with_year(cfg, file, content, y) == SpecAction::NeedsUpdate(u),
    ensures
        spec_classify_with_year(cfg, file, u, y) == SpecAction::AlreadyLicensed,
{
    let li = spec_license_index(cfg.licenses.cfgs@, file, 0);
    let ci = spec_comment_index(cfg.comments.cfgs@, file, 0);
    assert(li is Some);
    assert(ci is Some);
    let e = cfg.licenses.cfgs@[li->0];
    let cc = cfg.comments.cfgs@[ci->0];
    let hdr = spec_header_with(&e, &cc, y);
    assert(!(contains_seq(content, hdr) || contains_seq(content, trim_end_spec(hdr))));
    match pat_find_spec(spec_sent_pattern(&e, &cc, false), content) {
        Some(se) => {
            lemma_concat_contains(content.take(se.0), hdr, content.skip(se.1));
        },
        None => {
            match pat_find_spec(spec_sent_pattern(&e, &cc, true), content) {
                Some(se) => {
                    lemma_concat_contains(
                        content.take(se.0),
                        trim_end_spec(hdr),
                        content.skip(se.1),
                    );
                },
                None => {
                    let rep = match e.replaces {
                        Some(ps) => spec_replaces_result(ps@, content, hdr, 0),
                        None => None,
                    };
                    match rep {
                        Some(_) => {
                            match e.replaces {
                                Some(ps) => {
                                    lemma_replaces_contains(ps@, content, hdr, 0);
                                },
                                None => {},
                            }
                        },
                        None => {
                            if starts_with(content, "#!"@) && first_index_of(content, '\n')
                                >= 0 {
                                let k = first_index_of(content, '\n');
                                lemma_concat_contains(content.take(k + 1), hdr, content.skip(k + 1),
                                );
                            } else {
                                assert(u == hdr + content);
                                assert((hdr + content).subrange(0, hdr.len() as int) =~= hdr);
                                assert(contains_at(u, hdr, 0));
                            }
                        },
                    }
                },
            }
        },
    }
    assert(contains_seq(u, hdr) || contains_seq(u, trim_end_spec(hdr)));
}

/// Idempotence of the engine: whenever classification asks for an update,
/// classifying the updated content again finds the file already licensed.
/// Applying the engine twice therefore changes a file at most once.
pub proof fn lemma_engine_idempotent(cfg: &Config, file: Seq<char>, content: Seq<char>, u: Seq<
    char,
>)
    requires
        spec_classify(cfg, file, content) == SpecAction::NeedsUpdate(u),
    ensures
        spec_classify(cfg, file, u) == SpecAction::AlreadyLicensed,
{
    let li = spec_license_index(cfg.licenses.cfgs@, file, 0);
    assert(li is Some);
    lemma_engine_idempotent_with_year(
        cfg,
        file,
        content,
        entry_year(&cfg.licenses.cfgs@[li->0]),
        u,
    );
}

/// The engine: the configuration it runs on, the statistics it gathers,
/// and whether it only checks without producing output.
pub struct Licensure {
    pub config: Config,
    pub stats: LicenseStats,
    pub check_mode: bool,
}

impl Licensure {
    /// An engine over the given configuration, with empty statistics and
    /// check mode off.
    pub fn new(config: Config) -> (r: Licensure)
        ensures
            r.config == config,
            r.check_mode == false,
            r.stats.files_not_licensed@.len() == 0,
            r.stats.files_needing_license_update@.len() == 0,
            r.stats.files_needing_commenter@.len() == 0,
    {
        Licensure { config, check_mode: false, stats: LicenseStats::new() }
    }

    /// The same engine with check mode set as given.
    pub fn with_check_mode(self, check_mode: bool) -> (r: Licensure)
        ensures
            r.config == self.config,
            r.stats == self.stats,
            r.check_mode == check_mode,
    {
        Licensure { check_mode, ..self }
    }

    /// The shebang line and the remainder, when the content begins with a
    /// shebang line; `None` otherwise.
    fn strip_shebang_if_found(content: &Vec<char>) -> (r: Option<(Vec<char>, Vec<char>)>)
        ensures
            match r {
                Some(p) => starts_with(content@, "#!"@) && first_index_of(content@, '\n') >= 0
                    && p.0@ == content@.take(first_index_of(content@, '\n') + 1) && p.1@
                    == content@.skip(first_index_of(content@, '\n') + 1),
                None => !(starts_with(content@, "#!"@) && first_index_of(content@, '\n') >= 0),
            },
    {
        let mut shebang_marker: Vec<char> = Vec::new();
        shebang_marker.push('#');
        shebang_marker.push('!');
        proof {
            assert(shebang_marker@ =~= "#!"@) by {
                reveal_strlit("#!");
            }
        }
        if !starts_with_vec(content, &shebang_marker) {
            return None;
        }
        let n = content.len();
        match first_index_of_exec(content, '\n') {
            Some(k) => {
                assert(k < n);
                let head = subvec(content, 0, k + 1);
                let tail = subvec(content, k + 1, n);
                proof {
                    assert(head@ =~= content@.take(first_index_of(content@, '\n') + 1));
                    assert(tail@ =~= content@.skip(first_index_of(content@, '\n') + 1));
                }
                Some((head, tail))
            },
            None => None,
        }
    }

    /// The header prepended to the content, keeping a leading shebang line
    /// first.
    pub fn add_header(&self, header: String, content: &str) -> (r: String)
        ensures
            r@ == spec_add_header(header@, content@),
    {
        let cv = chars_of(content);
        let hv = chars_of(header.as_str());
        match Self::strip_shebang_if_found(&cv) {
            Some((head, tail)) => {
                let mut out = head;
                append_vec(&mut out, &hv);
                append_vec(&mut out, &tail);
                string_of(&out)
            },
            None => {
                let mut out = hv;
                append_vec(&mut out, &cv);
                string_of(&out)
            },
        }
    }

    /// The content with an outdated-year header replaced by `header`: the
    /// year-varying pattern is tried as is, then with trailing whitespace
    /// trimmed, in which case the trimmed header is inserted.  `None` when
    /// neither pattern matches.
    pub fn get_outdated_replacement(
        &self,
        templ: &Template,
        commenter: &CommentStyle,
        content: &str,
        header: &str,
    ) -> (r: Option<String>)
        requires
            commenter.wf(),
        ensures
            match pat_find_spec(spec_pattern(templ, commenter, false), content@) {
                Some(se) => r matches Some(u) && u@ == content@.take(se.0) + header@
                    + content@.skip(se.1),
                None => match pat_find_spec(spec_pattern(templ, commenter, true), content@) {
                    Some(se) => r matches Some(u) && u@ == content@.take(se.0) + trim_end_spec(
                        header@,
                    ) + content@.skip(se.1),
                    None => r is None,
                },
            },
    {
        let cv = chars_of(content);
        let hv = chars_of(header);
        let pat = templ.build_year_varying_regex(commenter, false);
        match pat.find(&cv) {
            Some((s, e)) => {
                proof {
                    crate::pattern::lemma_find_from_props(pat.spec_frags(), cv@, 0);
                }
                let mut out = subvec(&cv, 0, s);
                append_vec(&mut out, &hv);
                let tail = subvec(&cv, e, cv.len());
                append_vec(&mut out, &tail);
                proof {
                    assert(out@ =~= content@.take(s as int) + header@ + content@.skip(e as int));
                }
                return Some(string_of(&out));
            },
            None => {},
        }
        let pat_trimmed = templ.build_year_varying_regex(commenter, true);
        match pat_trimmed.find(&cv) {
            Some((s, e)) => {
                proof {
                    crate::pattern::lemma_find_from_props(pat_trimmed.spec_frags(), cv@, 0);
                }
                let mut out = subvec(&cv, 0, s);
                let th = trim_end_vec(&hv);
                append_vec(&mut out, &th);
                let tail = subvec(&cv, e, cv.len());
                append_vec(&mut out, &tail);
                proof {
                    assert(out@ =~= content@.take(s as int) + trim_end_spec(header@)
                        + content@.skip(e as int));
                }
                Some(string_of(&out))
            },
            None => None,
        }
    }

    /// The content with the span matched by the first applicable legacy
    /// pattern replaced by `header`; `None` when no pattern matches.
    pub fn get_replaces_replacement(
        &self,
        replaces: &Vec<CompiledRegex>,
        content: &str,
        header: &str,
    ) -> (r: Option<String>)
        ensures
            match spec_replaces_result(replaces@, content@, header@, 0) {
                Some(u) => r matches Some(s) && s@ == u,
                None => r is None,
            },
    {
        let n = replaces.len();
        let mut i: usize = 0;
        while i < n
            invariant
                n == replaces@.len(),
                0 <= i <= n,
                spec_replaces_result(replaces@, content@, header@, 0) == spec_replaces_result(
                    replaces@,
                    content@,
                    header@,
                    i as int,
                ),
            decreases n - i,
        {
            match replaces[i].find_split(content) {
                Some((pre, _m, suf)) => {
                    let mut out = chars_of(pre.as_str());
                    let hv = chars_of(header);
                    append_vec(&mut out, &hv);
                    let sv = chars_of(suf.as_str());
                    append_vec(&mut out, &sv);
                    return Some(string_of(&out));
                },
                None => {},
            }
            i += 1;
        }
        None
    }

    /// Classify the file and compute its replacement content, recording
    /// the file in the appropriate statistics lists.  When the matched
    /// license entry carries an end year, the result is exactly the
    /// specification-level decision.
    pub fn determine_required_action(&mut self, file: &str, content: &str) -> (r: Action)
        requires
            old(self).config.wf(),
        ensures
            final(self).config == old(self).config,
            final(self).check_mode == old(self).check_mode,
            ({
                let li = spec_license_index(old(self).config.licenses.cfgs@, file@, 0);
                let ci = spec_comment_index(old(self).config.comments.cfgs@, file@, 0);
                &&& (li is None ==> r is NoConfigMatched)
                &&& (li is Some && ci is None ==> r is NoCommenterMatched)
                &&& (li matches Some(l) && ci is Some && old(
                    self,
                ).config.licenses.cfgs@[l].end_year is Some ==> action_matches(
                    &r,
                    spec_classify(&old(self).config, file@, content@),
                ))
                &&& (li matches Some(l) && ci is Some && old(
                    self,
                ).config.licenses.cfgs@[l].end_year is None ==> exists|ey: Seq<char>|
                    action_matches(
                        &r,
                        spec_classify_with_year(
                            &old(self).config,
                            file@,
                            content@,
                            year_field_string(
                                opt_view(old(self).config.licenses.cfgs@[li->0].start_year),
                                ey,
                            ),
                        ),
                    ))
            }),
            r is NeedsUpdate ==> pushed(
                final(self).stats.files_needing_license_update@,
                old(self).stats.files_needing_license_update@,
                file@,
            ) && final(self).stats.files_not_licensed == old(self).stats.files_not_licensed
                && final(self).stats.files_needing_commenter == old(
                self,
            ).stats.files_needing_commenter,
            r is NoConfigMatched ==> pushed(
                final(self).stats.files_not_licensed@,
                old(self).stats.files_not_licensed@,
                file@,
            ) && final(self).stats.files_needing_license_update == old(
                self,
            ).stats.files_needing_license_update && final(self).stats.files_needing_commenter
                == old(self).stats.files_needing_commenter,
            r is NoCommenterMatched ==> pushed(
                final(self).stats.files_not_licensed@,
                old(self).stats.files_not_licensed@,
                file@,
            ) && pushed(
                final(self).stats.files_needing_commenter@,
                old(self).stats.files_needing_commenter@,
                file@,
            ) && final(self).stats.files_needing_license_update == old(
                self,
            ).stats.files_needing_license_update,
            r is AlreadyLicensed ==> final(self).stats == old(self).stats,
    {
        let ghost cfg0 = self.config;
        let ghost li = spec_license_index(cfg0.licenses.cfgs@, file@, 0);
        let ghost ci = spec_comment_index(cfg0.comments.cfgs@, file@, 0);
        let templ = match self.config.licenses.get_template(file) {
            Some(t) => t,
            None => {
                let ghost before = self.stats.files_not_licensed@;
                self.stats.files_not_licensed.push(String::from_str(file));
                proof {
                    assert(self.stats.files_not_licensed@.drop_last() =~= before);
                }
                return Action::NoConfigMatched;
            },
        };
        let commenter = match self.config.comments.get_commenter(file) {
            Some(c) => c,
            None => {
                let ghost before_nl = self.stats.files_not_licensed@;
                let ghost before_nc = self.stats.files_needing_commenter@;
                self.stats.files_not_licensed.push(String::from_str(file));
                self.stats.files_needing_commenter.push(String::from_str(file));
                proof {
                    assert(self.stats.files_not_licensed@.drop_last() =~= before_nl);
                    assert(self.stats.files_needing_commenter@.drop_last() =~= before_nc);
                }
                return Action::NoCommenterMatched;
            },
        };
        let ghost e = cfg0.licenses.cfgs@[li->0];
        let ghost cc = cfg0.comments.cfgs@[ci->0];
        let uncommented = templ.render();
        let header = commenter.comment(uncommented.as_str());
        let ghost ey_g: Seq<char> = if templ.context.end_year is None {
            choose|ey: Seq<char>|
                uncommented@ == spec_interpolate(
                    templ.spdx_template,
                    crate::template::spec_template_text(&templ),
                    year_field_string(opt_view(templ.context.start_year), ey),
                    spec_authors(templ.context.authors),
                    templ.context.ident@,
                )
        } else {
            Seq::empty()
        };
        let ghost yf: Seq<char> = if e.end_year is Some {
            entry_year(&e)
        } else {
            year_field_string(opt_view(e.start_year), ey_g)
        };
        let ghost hdr_spec = spec_header_with(&e, &cc, yf);
        proof {
            assert(crate::template::spec_template_text(&templ) == entry_text(&e));
            if e.end_year is Some {
                assert(templ.context.end_year is Some);
                assert(uncommented@ == spec_render(&templ));
                assert(spec_render(&templ) == entry_render(&e, yf));
            } else {
                assert(templ.context.end_year is None);
                assert(uncommented@ == spec_interpolate(
                    templ.spdx_template,
                    crate::template::spec_template_text(&templ),
                    year_field_string(opt_view(templ.context.start_year), ey_g),
                    spec_authors(templ.context.authors),
                    templ.context.ident@,
                ));
                assert(uncommented@ == entry_render(&e, yf));
            }
            assert(header@ == hdr_spec);
            assert(spec_pattern(&templ, &commenter, false) == spec_sent_pattern(&e, &cc, false));
            assert(spec_pattern(&templ, &commenter, true) == spec_sent_pattern(&e, &cc, true));
        }
        let content_v = chars_of(content);
        let header_v = chars_of(header.as_str());
        if contains_vec(&content_v, &header_v) {
            let act = Action::AlreadyLicensed;
            proof {
                assert(action_matches(&act, spec_classify_with_year(&cfg0, file@, content@, yf)));
            }
            return act;
        }
        let trimmed_header_v = trim_end_vec(&header_v);
        if contains_vec(&content_v, &trimmed_header_v) {
            let act = Action::AlreadyLicensed;
            proof {
                assert(action_matches(&act, spec_classify_with_year(&cfg0, file@, content@, yf)));
            }
            return act;
        }
        proof {
            assert(!contains_seq(content@, hdr_spec));
            assert(!contains_seq(content@, trim_end_spec(hdr_spec)));
        }
        match self.get_outdated_replacement(&templ, &commenter, content, header.as_str()) {
            Some(update) => {
                let ghost before = self.stats.files_needing_license_update@;
                self.stats.files_needing_license_update.push(String::from_str(file));
                let act = Action::NeedsUpdate(update);
                proof {
                    assert(self.stats.files_needing_license_update@.drop_last() =~= before);
                    assert(action_matches(
                        &act,
                        spec_classify_with_year(&cfg0, file@, content@, yf),
                    ));
                }
                return act;
            },
            None => {},
        }
        match self.config.licenses.get_replaces(file) {
            Some(replaces) => {
                let res = self.get_replaces_replacement(replaces, content, header.as_str());
                match res {
                    Some(update) => {
                        let ghost before = self.stats.files_needing_license_update@;
                        self.stats.files_needing_license_update.push(String::from_str(file));
                        let act = Action::NeedsUpdate(update);
                        proof {
                            assert(self.stats.files_needing_license_update@.drop_last()
                                =~= before);
                            assert(action_matches(
                                &act,
                                spec_classify_with_year(&cfg0, file@, content@, yf),
                            ));
                        }
                        return act;
                    },
                    None => {},
                }
            },
            None => {},
        }
        let update = self.add_header(header, content);
        let ghost before = self.stats.files_needing_license_update@;
        self.stats.files_needing_license_update.push(String::from_str(file));
        let act = Action::NeedsUpdate(update);
        proof {
            assert(self.stats.files_needing_license_update@.drop_last() =~= before);
            assert(action_matches(&act, spec_classify_with_year(&cfg0, file@, content@, yf)));
        }
        act
    }
}

} // verus!
