//! License templates: placeholder substitution for year, author list and
//! license identifier, and derivation of the year-varying pattern that
//! recognizes a rendered header whatever year it carries.

use vstd::prelude::*;

use chrono::Datelike;

verus! {

use crate::comments::Comment;
use crate::comments::CommentStyle;
use crate::pattern::YearPattern;
use crate::text::append_vec;
use crate::text::chars_of;
use crate::text::contains_seq;
use crate::text::contains_vec;
use crate::text::replace_all;
use crate::text::replace_all_vec;
use crate::text::split_on;
use crate::text::split_on_vec;
use crate::text::string_of;
use crate::text::trim_end_spec;
use crate::text::trim_end_vec;

/// One copyright holder: a name and an optional email address.
pub struct CopyrightHolder {
    pub name: String,
    pub email: Option<String>,
}

/// How a holder appears in a rendered header: `Name <email>` or `Name`.
pub open spec fn spec_holder(h: CopyrightHolder) -> Seq<char> {
    match h.email {
        Some(e) => h.name@ + " <"@ + e@ + ">"@,
        None => h.name@,
    }
}

/// The author list joined with `", "`; a holder that renders to nothing
/// does not introduce a separator.
pub open spec fn spec_join_authors(hs: Seq<CopyrightHolder>, acc: Seq<char>) -> Seq<char>
    decreases hs.len(),
{
    if hs.len() == 0 {
        acc
    } else {
        let with_sep = if acc.len() > 0 {
            acc + ", "@
        } else {
            acc
        };
        spec_join_authors(hs.skip(1), with_sep + spec_holder(hs[0]))
    }
}

/// Holder lists that render identically, joined from the same start, give
/// the same author list.
pub proof fn lemma_join_authors_congruence(
    h1: Seq<CopyrightHolder>,
    h2: Seq<CopyrightHolder>,
    acc: Seq<char>,
)
    requires
        h1.len() == h2.len(),
        forall|i: int| 0 <= i < h1.len() ==> spec_holder(#[trigger] h1[i]) == spec_holder(h2[i]),
    ensures
        spec_join_authors(h1, acc) == spec_join_authors(h2, acc),
    decreases h1.len(),
{
    if h1.len() > 0 {
        assert forall|i: int| 0 <= i < h1.skip(1).len() implies spec_holder(
            #[trigger] h1.skip(1)[i],
        ) == spec_holder(h2.skip(1)[i]) by {
            assert(h1.skip(1)[i] == h1[i + 1]);
            assert(h2.skip(1)[i] == h2[i + 1]);
        }
        let with_sep = if acc.len() > 0 {
            acc + ", "@
        } else {
            acc
        };
        lemma_join_authors_congruence(h1.skip(1), h2.skip(1), with_sep + spec_holder(h1[0]));
        assert(spec_holder(h1[0]) == spec_holder(h2[0]));
    }
}

/// An ordered list of copyright holders.
pub struct Authors {
    pub authors: Vec<CopyrightHolder>,
}

/// The rendered author list of `a`.
pub open spec fn spec_authors(a: Authors) -> Seq<char> {
    spec_join_authors(a.authors@, Seq::empty())
}

impl Authors {
    /// An author list holding exactly the given holders.
    pub fn new(authors: Vec<CopyrightHolder>) -> (r: Authors)
        ensures
            r.authors == authors,
    {
        Authors { authors }
    }

    /// The holders joined with `", "`, each as `Name <email>` or `Name`.
    pub fn joined(&self) -> (r: String)
        ensures
            r@ == spec_authors(*self),
    {
        let mut out: Vec<char> = Vec::new();
        let n = self.authors.len();
        let mut i: usize = 0;
        proof {
            assert(self.authors@.skip(0) =~= self.authors@);
        }
        while i < n
            invariant
                n == self.authors@.len(),
                0 <= i <= n,
                spec_join_authors(self.authors@.skip(i as int), out@) == spec_authors(*self),
            decreases n - i,
        {
            let ghost rest = self.authors@.skip(i as int);
            proof {
                assert(rest[0] == self.authors@[i as int]);
                assert(rest.skip(1) =~= self.authors@.skip(i + 1));
            }
            let ghost prev = out@;
            if out.len() > 0 {
                out.push(',');
                out.push(' ');
                proof {
                    assert(out@ =~= prev + ", "@) by {
                        reveal_strlit(", ");
                    }
                }
            }
            let ghost with_sep = out@;
            let h = &self.authors[i];
            let nv = chars_of(h.name.as_str());
            append_vec(&mut out, &nv);
            match &h.email {
                Some(e) => {
                    out.push(' ');
                    out.push('<');
                    let ghost mid = out@;
                    proof {
                        assert(mid =~= with_sep + h.name@ + " <"@) by {
                            reveal_strlit(" <");
                        }
                    }
                    let ev = chars_of(e.as_str());
                    append_vec(&mut out, &ev);
                    out.push('>');
                    proof {
                        assert(out@ =~= with_sep + (h.name@ + " <"@ + e@ + ">"@)) by {
                            reveal_strlit(">");
                        }
                    }
                },
                None => {
                    proof {
                        assert(out@ =~= with_sep + h.name@);
                    }
                },
            }
            proof {
                assert(out@ == with_sep + spec_holder(self.authors@[i as int]));
            }
            i += 1;
        }
        proof {
            assert(self.authors@.skip(n as int) =~= Seq::<CopyrightHolder>::empty());
        }
        string_of(&out)
    }
}

/// The view of an optional string.
pub open spec fn opt_view(o: Option<String>) -> Option<Seq<char>> {
    match o {
        Some(s) => Some(s@),
        None => None,
    }
}

/// The rendered year field: `"start, end"` when a start year is present
/// and differs from the end year, otherwise just the end year.
pub open spec fn year_field_string(start: Option<Seq<char>>, end: Seq<char>) -> Seq<char> {
    match start {
        Some(s) => if s != end {
            s + ", "@ + end
        } else {
            end
        },
        None => end,
    }
}

/// Rendering parameters: license identifier, authors, copyright years and
/// whether pre-wrapped template text should be unwrapped.
pub struct Context {
    pub ident: String,
    pub authors: Authors,
    pub end_year: Option<String>,
    pub start_year: Option<String>,
    pub unwrap_text: bool,
}

impl Context {
    /// The rendered author list.
    pub fn get_authors(&self) -> (r: String)
        ensures
            r@ == spec_authors(self.authors),
    {
        self.authors.joined()
    }

    /// The rendered year field.  When no end year is configured the current
    /// calendar year takes its place; the result is then still a year field
    /// around some end-year text, though which one is up to the clock.
    pub fn get_year(&self) -> (r: String)
        ensures
            self.end_year matches Some(e) ==> r@ == year_field_string(
                opt_view(self.start_year),
                e@,
            ),
            self.end_year is None ==> exists|e: Seq<char>|
                r@ == year_field_string(opt_view(self.start_year), e),
    {
        match &self.end_year {
            Some(y) => year_field_exec(&self.start_year, y.clone()),
            None => {
                let end = current_year_string();
                let ghost endv = end@;
                let r = year_field_exec(&self.start_year, end);
                proof {
                    assert(r@ == year_field_string(opt_view(self.start_year), endv));
                }
                r
            },
        }
    }
}

/// The year field for an optional start year and the given end-year text.
fn year_field_exec(start_year: &Option<String>, end: String) -> (r: String)
    ensures
        r@ == year_field_string(opt_view(*start_year), end@),
{
    match start_year {
        Some(s) => {
            if *s == end {
                end
            } else {
                let mut v = chars_of(s.as_str());
                v.push(',');
                v.push(' ');
                let ev = chars_of(end.as_str());
                append_vec(&mut v, &ev);
                proof {
                    assert(v@ =~= s@ + ", "@ + end@) by {
                        reveal_strlit(", ");
                    }
                }
                string_of(&v)
            }
        },
        None => end,
    }
}

/// Relies on chrono's `Local::now` and `Datelike::year`: the current local
/// calendar year, formatted in decimal.  The result depends on the clock,
/// so nothing is promised of it.
#[verifier::external_body]
pub(crate) fn current_year_string() -> String {
    format!("{}", chrono::Local::now().year())
}

/// The placeholder triple (year, author, identifier) that is active for a
/// template: the default square-bracket tokens, or one of the SPDX token
/// sets chosen by inspecting which marker strings the template contains.
pub open spec fn spec_tokens(spdx: bool, content: Seq<char>) -> (Seq<char>, Seq<char>, Seq<char>) {
    if spdx {
        if contains_seq(content, "[name of copyright owner]"@) {
            ("[yyyy]"@, "[name of copyright owner]"@, "[ident]"@)
        } else {
            (
                "<year>"@,
                if contains_seq(content, "<copyright holders>"@) {
                    "<copyright holders>"@
                } else if contains_seq(content, "<owner>"@) {
                    "<owner>"@
                } else {
                    "<name of author>"@
                },
                "<ident>"@,
            )
        }
    } else {
        ("[year]"@, "[name of author]"@, "[ident]"@)
    }
}

/// The template text with the year, author and identifier placeholders
/// replaced, in that order.
pub open spec fn spec_interpolate(
    spdx: bool,
    content: Seq<char>,
    year: Seq<char>,
    authors: Seq<char>,
    ident: Seq<char>,
) -> Seq<char> {
    let toks = spec_tokens(spdx, content);
    replace_all(replace_all(replace_all(content, toks.0, year), toks.1, authors), toks.2, ident)
}

/// The sentinel that stands in for the year while the year-varying pattern
/// is built.  It is exactly four characters, like a year, and does not
/// occur in license text.
pub open spec fn sentinel() -> Seq<char> {
    "@YR@"@
}

/// Round trip between rendering and matching: a year-varying pattern is
/// built by splitting a sentinel-rendered header on the sentinel, and the
/// headers it must recognize are the same literal stretches with a
/// concrete year field in each sentinel's place.  For every such header —
/// whatever four-digit year or year range it carries — the pattern
/// matches, provided the literal stretches do not themselves contain the
/// sentinel's opening character, which license text does not.
pub proof fn lemma_year_varying_round_trip(gs: Seq<Seq<char>>, y: Seq<char>)
    requires
        gs.len() >= 1,
        forall|i: int| 0 <= i < gs.len() ==> crate::text::avoids_char(#[trigger] gs[i], '@'),
        crate::pattern::is_year_field(y),
    ensures
        crate::pattern::pat_matches(
            split_on(crate::text::join_with(gs, sentinel()), sentinel()),
            crate::text::join_with(gs, y),
        ),
{
    reveal_strlit("@YR@");
    assert(sentinel().len() == 4);
    assert(sentinel()[0] == '@');
    crate::text::lemma_split_join_inverse(gs, sentinel());
    crate::pattern::lemma_round_trip(gs, y);
}

/// Placeholder tokens are nonempty, open with a bracket, and use neither
/// the sentinel's characters nor digits.
pub proof fn lemma_token_facts(spdx: bool, content: Seq<char>)
    ensures
        ({
            let toks = spec_tokens(spdx, content);
            &&& toks.0.len() >= 1
            &&& toks.1.len() >= 1
            &&& toks.2.len() >= 1
            &&& crate::text::avoids_char(toks.1, '@')
            &&& crate::text::avoids_char(toks.2, '@')
            &&& forall|j: int| 0 <= j < toks.1.len() ==> !crate::is_digit(#[trigger] toks.1[j])
            &&& forall|j: int| 0 <= j < toks.2.len() ==> !crate::is_digit(#[trigger] toks.2[j])
            &&& (toks.1[0] == '[' || toks.1[0] == '<')
            &&& (toks.2[0] == '[' || toks.2[0] == '<')
        }),
{
    reveal_strlit("[year]");
    reveal_strlit("[name of author]");
    reveal_strlit("[ident]");
    reveal_strlit("[yyyy]");
    reveal_strlit("[name of copyright owner]");
    reveal_strlit("<year>");
    reveal_strlit("<copyright holders>");
    reveal_strlit("<owner>");
    reveal_strlit("<name of author>");
    reveal_strlit("<ident>");
}

/// Round trip through the whole rendering pipeline for a block commenter
/// without a per-line marker or column width: the year-varying pattern is
/// built from the sentinel-rendered, delimiter-wrapped header, and it
/// matches the same header rendered with any concrete year field instead.
/// `content` is the text the renderer substitutes into — the template
/// after any unwrapping.  It, the author list, the identifier and the
/// delimiters must not use the sentinel's opening character, which
/// license text does not.
pub proof fn lemma_block_header_round_trip(
    spdx: bool,
    content: Seq<char>,
    authors: Seq<char>,
    ident: Seq<char>,
    bstart: Seq<char>,
    bend: Seq<char>,
    y: Seq<char>,
)
    requires
        crate::text::avoids_char(content, '@'),
        crate::text::avoids_char(authors, '@'),
        crate::text::avoids_char(ident, '@'),
        crate::text::avoids_char(bstart, '@'),
        crate::text::avoids_char(bend, '@'),
        crate::pattern::is_year_field(y),
    ensures
        ({
            let sent_hdr = bstart + spec_interpolate(spdx, content, sentinel(), authors, ident)
                + bend;
            let new_hdr = bstart + spec_interpolate(spdx, content, y, authors, ident) + bend;
            &&& crate::pattern::pat_matches(split_on(sent_hdr, sentinel()), new_hdr)
            &&& crate::pattern::pat_find_spec(split_on(sent_hdr, sentinel()), new_hdr) is Some
        }),
{
    let toks = spec_tokens(spdx, content);
    lemma_token_facts(spdx, content);
    reveal_strlit("@YR@");
    let s = sentinel();
    assert(s.len() == 4 && s[0] == '@' && s[1] == 'Y' && s[2] == 'R' && s[3] == '@');
    crate::pattern::lemma_year_field_chars(y);

    // Rendering with the year token replaced is joining the token-split
    // fragments with the year value.
    let g0 = split_on(content, toks.0);
    crate::text::lemma_split_len(content, toks.0, 0);
    crate::text::lemma_replace_is_join(content, toks.0, s, 0);
    crate::text::lemma_replace_is_join(content, toks.0, y, 0);
    crate::text::lemma_split_avoids(content, toks.0, '@', 0);

    // The author replacement rewrites each fragment on its own, with the
    // same result whichever year value stands between them.
    assert(crate::text::avoids_char(toks.1, s[0]));
    assert(forall|i: int| 0 <= i < s.len() ==> s[i] != toks.1[0]);
    assert forall|j: int| 0 <= j < toks.1.len() implies #[trigger] toks.1[j] != y[0] by {
        assert(crate::is_digit(y[0]));
    }
    assert(crate::text::avoids_char(toks.1, y[0]));
    assert forall|i: int| 0 <= i < y.len() implies #[trigger] y[i] != toks.1[0] by {
        assert(crate::is_digit(y[i]) || y[i] == ',' || y[i] == ' ');
    }
    crate::text::lemma_replace_join_distrib(g0, s, toks.1, authors);
    crate::text::lemma_replace_join_distrib(g0, y, toks.1, authors);
    let g1 = Seq::new(g0.len(), |i: int| replace_all(g0[i], toks.1, authors));
    assert forall|k: int| 0 <= k < g1.len() implies crate::text::avoids_char(
        #[trigger] g1[k],
        '@',
    ) by {
        crate::text::lemma_replace_avoids(g0[k], toks.1, authors, '@');
    }

    // Likewise for the identifier replacement.
    assert(crate::text::avoids_char(toks.2, s[0]));
    assert(forall|i: int| 0 <= i < s.len() ==> s[i] != toks.2[0]);
    assert forall|j: int| 0 <= j < toks.2.len() implies #[trigger] toks.2[j] != y[0] by {
        assert(crate::is_digit(y[0]));
    }
    assert(crate::text::avoids_char(toks.2, y[0]));
    assert forall|i: int| 0 <= i < y.len() implies #[trigger] y[i] != toks.2[0] by {
        assert(crate::is_digit(y[i]) || y[i] == ',' || y[i] == ' ');
    }
    crate::text::lemma_replace_join_distrib(g1, s, toks.2, ident);
    crate::text::lemma_replace_join_distrib(g1, y, toks.2, ident);
    let g2 = Seq::new(g1.len(), |i: int| replace_all(g1[i], toks.2, ident));
    assert forall|k: int| 0 <= k < g2.len() implies crate::text::avoids_char(
        #[trigger] g2[k],
        '@',
    ) by {
        crate::text::lemma_replace_avoids(g1[k], toks.2, ident, '@');
    }
    assert(spec_interpolate(spdx, content, s, authors, ident) == crate::text::join_with(g2, s));
    assert(spec_interpolate(spdx, content, y, authors, ident) == crate::text::join_with(g2, y));

    // Wrapping in the block delimiters extends the outer fragments.
    let g3a = g2.update(0, bstart + g2[0]);
    crate::text::lemma_join_prefix_first(g2, s, bstart);
    crate::text::lemma_join_prefix_first(g2, y, bstart);
    let g3 = g3a.update(g3a.len() - 1, g3a.last() + bend);
    crate::text::lemma_join_suffix_last(g3a, s, bend);
    crate::text::lemma_join_suffix_last(g3a, y, bend);
    let sent_hdr = bstart + spec_interpolate(spdx, content, s, authors, ident) + bend;
    let new_hdr = bstart + spec_interpolate(spdx, content, y, authors, ident) + bend;
    assert(sent_hdr == crate::text::join_with(g3, s));
    assert(new_hdr == crate::text::join_with(g3, y));
    assert forall|k: int| 0 <= k < g3.len() implies crate::text::avoids_char(
        #[trigger] g3[k],
        '@',
    ) by {
        if k == 0 && g3.len() > 1 {
            assert(g3[k] == bstart + g2[0]);
            assert forall|j: int| 0 <= j < g3[k].len() implies g3[k][j] != '@' by {
                if j >= bstart.len() {
                    assert(g3[k][j] == g2[0][j - bstart.len()]);
                }
            }
        } else if k == g3.len() - 1 {
            assert(g3[k] == g3a[k] + bend);
            assert forall|j: int| 0 <= j < g3[k].len() implies g3[k][j] != '@' by {
                if j < g3a[k].len() {
                    assert(g3[k][j] == g3a[k][j]);
                    if k == 0 {
                        assert(g3a[k] == bstart + g2[0]);
                        if j >= bstart.len() {
                            assert(g3a[k][j] == g2[0][j - bstart.len()]);
                        }
                    }
                } else {
                    assert(g3[k][j] == bend[j - g3a[k].len()]);
                }
            }
        } else {
            assert(g3[k] == g2[k]);
        }
    }
    crate::text::lemma_split_join_inverse(g3, s);
    crate::pattern::lemma_round_trip(g3, y);
    crate::pattern::lemma_find_from_props(g3, new_hdr, 0);
    if crate::pattern::pat_find_spec(g3, new_hdr) is None {
        assert(new_hdr.subrange(0, new_hdr.len() as int) =~= new_hdr);
        assert(!crate::pattern::pat_matches(g3, new_hdr));
    }
}

/// Round trip through the whole rendering pipeline for a line commenter
/// without a column width, for a template whose year placeholder occurs
/// exactly once: the year-varying pattern built from the sentinel-rendered,
/// line-commented header matches the same header rendered and commented
/// with any concrete year field instead.  `content` is the text the
/// renderer substitutes into — the template after any unwrapping.  It,
/// the author list, the identifier and the marker must not use the
/// sentinel's opening character, which license text does not.
pub proof fn lemma_line_header_round_trip(
    spdx: bool,
    content: Seq<char>,
    authors: Seq<char>,
    ident: Seq<char>,
    marker: Seq<char>,
    trailing: nat,
    y: Seq<char>,
)
    requires
        crate::text::avoids_char(content, '@'),
        crate::text::avoids_char(authors, '@'),
        crate::text::avoids_char(ident, '@'),
        crate::text::avoids_char(marker, '@'),
        crate::pattern::is_year_field(y),
        split_on(content, spec_tokens(spdx, content).0).len() == 2,
    ensures
        ({
            let sent_hdr = crate::comments::prefixed_lines(
                marker,
                crate::text::lines_of(spec_interpolate(spdx, content, sentinel(), authors, ident)),
            ) + crate::text::newlines(trailing);
            let new_hdr = crate::comments::prefixed_lines(
                marker,
                crate::text::lines_of(spec_interpolate(spdx, content, y, authors, ident)),
            ) + crate::text::newlines(trailing);
            &&& crate::pattern::pat_matches(split_on(sent_hdr, sentinel()), new_hdr)
            &&& crate::pattern::pat_find_spec(split_on(sent_hdr, sentinel()), new_hdr) is Some
        }),
{
    let toks = spec_tokens(spdx, content);
    lemma_token_facts(spdx, content);
    reveal_strlit("@YR@");
    let s = sentinel();
    assert(s.len() == 4 && s[0] == '@' && s[1] == 'Y' && s[2] == 'R' && s[3] == '@');
    crate::pattern::lemma_year_field_chars(y);
    assert(crate::text::avoids_char(s, '\n'));
    assert forall|i: int| 0 <= i < y.len() implies #[trigger] y[i] != '\n' by {
        assert(crate::is_digit(y[i]) || y[i] == ',' || y[i] == ' ');
    }
    assert(crate::text::avoids_char(y, '\n'));

    // The interpolation pipeline, as in the block-commenter case.
    let g0 = split_on(content, toks.0);
    crate::text::lemma_split_len(content, toks.0, 0);
    crate::text::lemma_replace_is_join(content, toks.0, s, 0);
    crate::text::lemma_replace_is_join(content, toks.0, y, 0);
    crate::text::lemma_split_avoids(content, toks.0, '@', 0);
    assert(crate::text::avoids_char(toks.1, s[0]));
    assert(forall|i: int| 0 <= i < s.len() ==> s[i] != toks.1[0]);
    assert forall|j: int| 0 <= j < toks.1.len() implies #[trigger] toks.1[j] != y[0] by {
        assert(crate::is_digit(y[0]));
    }
    assert(crate::text::avoids_char(toks.1, y[0]));
    assert forall|i: int| 0 <= i < y.len() implies #[trigger] y[i] != toks.1[0] by {
        assert(crate::is_digit(y[i]) || y[i] == ',' || y[i] == ' ');
    }
    crate::text::lemma_replace_join_distrib(g0, s, toks.1, authors);
    crate::text::lemma_replace_join_distrib(g0, y, toks.1, authors);
    let g1 = Seq::new(g0.len(), |i: int| replace_all(g0[i], toks.1, authors));
    assert forall|k: int| 0 <= k < g1.len() implies crate::text::avoids_char(
        #[trigger] g1[k],
        '@',
    ) by {
        crate::text::lemma_replace_avoids(g0[k], toks.1, authors, '@');
    }
    assert(crate::text::avoids_char(toks.2, s[0]));
    assert(forall|i: int| 0 <= i < s.len() ==> s[i] != toks.2[0]);
    assert forall|j: int| 0 <= j < toks.2.len() implies #[trigger] toks.2[j] != y[0] by {
        assert(crate::is_digit(y[0]));
    }
    assert(crate::text::avoids_char(toks.2, y[0]));
    assert forall|i: int| 0 <= i < y.len() implies #[trigger] y[i] != toks.2[0] by {
        assert(crate::is_digit(y[i]) || y[i] == ',' || y[i] == ' ');
    }
    crate::text::lemma_replace_join_distrib(g1, s, toks.2, ident);
    crate::text::lemma_replace_join_distrib(g1, y, toks.2, ident);
    let g2 = Seq::new(g1.len(), |i: int| replace_all(g1[i], toks.2, ident));
    assert forall|k: int| 0 <= k < g2.len() implies crate::text::avoids_char(
        #[trigger] g2[k],
        '@',
    ) by {
        crate::text::lemma_replace_avoids(g1[k], toks.2, ident, '@');
    }
    assert(g2.len() == 2);
    assert(crate::text::join_with(g2, s) == g2[0] + s + crate::text::join_with(g2.skip(1), s));
    assert(crate::text::join_with(g2.skip(1), s) == g2.skip(1)[0]);
    assert(g2.skip(1)[0] == g2[1]);
    assert(spec_interpolate(spdx, content, s, authors, ident) == g2[0] + s + g2[1]);
    assert(crate::text::join_with(g2, y) == g2[0] + y + crate::text::join_with(g2.skip(1), y));
    assert(spec_interpolate(spdx, content, y, authors, ident) == g2[0] + y + g2[1]);

    // Commenting splits around the year value, with the same literal parts
    // on both sides whichever year value stands there.
    crate::comments::lemma_line_comment_seam(marker, trailing, g2[0], g2[1], s);
    crate::comments::lemma_line_comment_seam(marker, trailing, g2[0], g2[1], y);
    let a = split_on(g2[0], seq!['\n']);
    let b = split_on(g2[1], seq!['\n']);
    let tail = if b.len() > 1 && b.last().len() == 0 {
        b.skip(1).drop_last()
    } else {
        b.skip(1)
    };
    let hs0 = crate::comments::prefixed_lines(marker, a.drop_last()) + marker + seq![' ']
        + a.last();
    let hs1 = b[0] + seq!['\n'] + crate::comments::prefixed_lines(marker, tail)
        + crate::text::newlines(trailing);
    let sent_hdr = crate::comments::prefixed_lines(
        marker,
        crate::text::lines_of(spec_interpolate(spdx, content, s, authors, ident)),
    ) + crate::text::newlines(trailing);
    let new_hdr = crate::comments::prefixed_lines(
        marker,
        crate::text::lines_of(spec_interpolate(spdx, content, y, authors, ident)),
    ) + crate::text::newlines(trailing);
    assert(sent_hdr == hs0 + s + hs1);
    assert(new_hdr == hs0 + y + hs1);
    let hs = seq![hs0, hs1];
    assert(crate::text::join_with(hs, s) == hs0 + s + crate::text::join_with(hs.skip(1), s));
    assert(crate::text::join_with(hs.skip(1), s) == hs.skip(1)[0]);
    assert(hs.skip(1)[0] == hs1);
    assert(crate::text::join_with(hs, y) == hs0 + y + crate::text::join_with(hs.skip(1), y));

    // The two sides never use the sentinel's opening character.
    crate::text::lemma_split_avoids(g2[0], seq!['\n'], '@', 0);
    crate::text::lemma_split_avoids(g2[1], seq!['\n'], '@', 0);
    assert forall|i: int| 0 <= i < a.drop_last().len() implies crate::text::avoids_char(
        #[trigger] a.drop_last()[i],
        '@',
    ) by {
        assert(a.drop_last()[i] == a[i]);
    }
    crate::comments::lemma_prefixed_avoids(marker, a.drop_last(), '@');
    assert forall|i: int| 0 <= i < tail.len() implies crate::text::avoids_char(
        #[trigger] tail[i],
        '@',
    ) by {
        if b.len() > 1 && b.last().len() == 0 {
            assert(tail[i] == b.skip(1)[i]);
            assert(b.skip(1)[i] == b[i + 1]);
        } else {
            assert(tail[i] == b[i + 1]);
        }
    }
    crate::comments::lemma_prefixed_avoids(marker, tail, '@');
    crate::comments::lemma_newlines_avoids(trailing, '@');
    crate::text::lemma_avoids_concat(crate::comments::prefixed_lines(marker, a.drop_last()), marker, '@');
    crate::text::lemma_avoids_concat(
        crate::comments::prefixed_lines(marker, a.drop_last()) + marker,
        seq![' '],
        '@',
    );
    assert(crate::text::avoids_char(seq![' '], '@'));
    crate::text::lemma_avoids_concat(
        crate::comments::prefixed_lines(marker, a.drop_last()) + marker + seq![' '],
        a.last(),
        '@',
    );
    assert(crate::text::avoids_char(hs0, '@'));
    assert(crate::text::avoids_char(seq!['\n'], '@'));
    crate::text::lemma_avoids_concat(b[0], seq!['\n'], '@');
    crate::text::lemma_avoids_concat(
        b[0] + seq!['\n'],
        crate::comments::prefixed_lines(marker, tail),
        '@',
    );
    crate::text::lemma_avoids_concat(
        b[0] + seq!['\n'] + crate::comments::prefixed_lines(marker, tail),
        crate::text::newlines(trailing),
        '@',
    );
    assert(crate::text::avoids_char(hs1, '@'));

    // The pattern is the two sides, and it matches the year rendering.
    assert forall|i: int| 0 <= i < hs.len() implies crate::text::avoids_char(
        #[trigger] hs[i],
        '@',
    ) by {}
    crate::text::lemma_split_join_inverse(hs, s);
    crate::pattern::lemma_round_trip(hs, y);
    crate::pattern::lemma_find_from_props(hs, new_hdr, 0);
    if crate::pattern::pat_find_spec(hs, new_hdr) is None {
        assert(new_hdr.subrange(0, new_hdr.len() as int) =~= new_hdr);
        assert(!crate::pattern::pat_matches(hs, new_hdr));
    }
}

/// Whitespace tolerance of the trimmed pattern variant: for a header of
/// the shape `hs0 + year + hs1` — which the comment seam lemma produces
/// for any line-commented, single-year-position header — the pattern built
/// from the trimmed sentinel header matches the trimmed rendered header
/// for every year field, and the search finds it in any content that
/// begins with that trimmed header.  A file that lost only the header's
/// trailing blank lines is therefore still recognized.  The text after
/// the year must keep a non-whitespace character, and neither side may use
/// the sentinel's opening character.
pub proof fn lemma_trimmed_round_trip(hs0: Seq<char>, hs1: Seq<char>, y: Seq<char>, rest: Seq<
    char,
>)
    requires
        crate::text::avoids_char(hs0, '@'),
        crate::text::avoids_char(hs1, '@'),
        crate::pattern::is_year_field(y),
        exists|j: int| 0 <= j < hs1.len() && !crate::text::is_wspace(#[trigger] hs1[j]),
    ensures
        ({
            let frags = split_on(trim_end_spec(hs0 + sentinel() + hs1), sentinel());
            &&& crate::pattern::pat_matches(frags, trim_end_spec(hs0 + y + hs1))
            &&& crate::pattern::pat_find_spec(frags, trim_end_spec(hs0 + y + hs1) + rest) is Some
        }),
{
    reveal_strlit("@YR@");
    let s = sentinel();
    assert(s.len() == 4 && s[0] == '@');
    let t1 = trim_end_spec(hs1);
    crate::text::lemma_trim_end_concat(hs0 + s, hs1);
    assert((hs0 + s) + hs1 =~= hs0 + s + hs1);
    assert(trim_end_spec(hs0 + s + hs1) =~= hs0 + s + t1);
    crate::text::lemma_trim_end_concat(hs0 + y, hs1);
    assert((hs0 + y) + hs1 =~= hs0 + y + hs1);
    assert(trim_end_spec(hs0 + y + hs1) =~= hs0 + y + t1);
    crate::text::lemma_trim_end_avoids(hs1, '@');
    let hs = seq![hs0, t1];
    assert forall|i: int| 0 <= i < hs.len() implies crate::text::avoids_char(
        #[trigger] hs[i],
        '@',
    ) by {}
    assert(crate::text::join_with(hs, s) == hs0 + s + crate::text::join_with(hs.skip(1), s));
    assert(crate::text::join_with(hs.skip(1), s) == hs.skip(1)[0]);
    assert(hs.skip(1)[0] == t1);
    crate::text::lemma_split_join_inverse(hs, s);
    crate::pattern::lemma_round_trip(hs, y);
    assert(crate::text::join_with(hs, y) == hs0 + y + crate::text::join_with(hs.skip(1), y));
    let trimmed = trim_end_spec(hs0 + y + hs1);
    let content = trimmed + rest;
    assert(content.subrange(0, trimmed.len() as int) =~= trimmed);
    crate::pattern::lemma_find_some_of_span(
        split_on(trim_end_spec(hs0 + s + hs1), s),
        content,
        0,
        trimmed.len() as int,
    );
}

/// A license template: the raw template text, the rendering context, and
/// whether the SPDX placeholder token sets are active.
pub struct Template {
    pub spdx_template: bool,
    pub content: String,
    pub context: Context,
}

/// The template text rendering starts from: the raw text, or, when the
/// context asks for unwrapping, the text with its column wrapping
/// collapsed so that only blank-line paragraph breaks remain.
pub open spec fn spec_template_text(t: &Template) -> Seq<char> {
    if t.context.unwrap_text {
        crate::utils::spec_unwrapped(t.content@)
    } else {
        t.content@
    }
}

/// What `render` returns for a template whose context has a configured end
/// year.
pub open spec fn spec_render(t: &Template) -> Seq<char> {
    spec_interpolate(
        t.spdx_template,
        spec_template_text(t),
        year_field_string(opt_view(t.context.start_year), t.context.end_year->0@),
        spec_authors(t.context.authors),
        t.context.ident@,
    )
}

/// The fragment list of the year-varying pattern for a template and
/// commenter: the sentinel-rendered header is commented, optionally
/// trimmed of trailing whitespace, and split on the sentinel.
pub open spec fn spec_pattern(t: &Template, c: &CommentStyle, trim_trailing: bool) -> Seq<
    Seq<char>,
> {
    let rendered = spec_interpolate(
        t.spdx_template,
        spec_template_text(t),
        sentinel(),
        spec_authors(t.context.authors),
        t.context.ident@,
    );
    let commented = c.spec_comment(rendered);
    let base = if trim_trailing {
        trim_end_spec(commented)
    } else {
        commented
    };
    split_on(base, sentinel())
}

impl Template {
    /// A template over the given text and context, with the default
    /// placeholder tokens.
    pub fn new(template: &str, context: Context) -> (r: Template)
        ensures
            r.spdx_template == false,
            r.content@ == template@,
            r.context == context,
    {
        let v = chars_of(template);
        Template { spdx_template: false, content: string_of(&v), context }
    }

    /// The same template with the SPDX placeholder token sets switched on
    /// or off.
    pub fn set_spdx_template(self, yes_or_no: bool) -> (r: Template)
        ensures
            r.spdx_template == yes_or_no,
            r.content == self.content,
            r.context == self.context,
    {
        Template { spdx_template: yes_or_no, ..self }
    }

    /// The template text, unwrapped when the context asks for it, with the
    /// placeholders replaced by the given year field and the context's
    /// authors and identifier.
    fn interpolate_with(&self, year: &Vec<char>) -> (r: Vec<char>)
        ensures
            r@ == spec_interpolate(
                self.spdx_template,
                spec_template_text(self),
                year@,
                spec_authors(self.context.authors),
                self.context.ident@,
            ),
    {
        let content = if self.context.unwrap_text {
            let unwrapped = crate::utils::remove_column_wrapping(self.content.as_str());
            chars_of(unwrapped.as_str())
        } else {
            chars_of(self.content.as_str())
        };
        assert(content@ == spec_template_text(self));
        let ghost toks = spec_tokens(self.spdx_template, spec_template_text(self));
        let mut year_tok: Vec<char>;
        let mut author_tok: Vec<char>;
        let mut ident_tok: Vec<char>;
        if self.spdx_template {
            let apache_tok = chars_of("[name of copyright owner]");
            if contains_vec(&content, &apache_tok) {
                year_tok = chars_of("[yyyy]");
                author_tok = apache_tok;
                ident_tok = chars_of("[ident]");
            } else {
                year_tok = chars_of("<year>");
                let holders_tok = chars_of("<copyright holders>");
                let owner_tok = chars_of("<owner>");
                if contains_vec(&content, &holders_tok) {
                    author_tok = holders_tok;
                } else if contains_vec(&content, &owner_tok) {
                    author_tok = owner_tok;
                } else {
                    author_tok = chars_of("<name of author>");
                }
                ident_tok = chars_of("<ident>");
            }
        } else {
            year_tok = chars_of("[year]");
            author_tok = chars_of("[name of author]");
            ident_tok = chars_of("[ident]");
        }
        proof {
            assert(year_tok@ == toks.0 && author_tok@ == toks.1 && ident_tok@ == toks.2);
            reveal_strlit("[name of copyright owner]");
            reveal_strlit("[yyyy]");
            reveal_strlit("[ident]");
            reveal_strlit("<year>");
            reveal_strlit("<copyright holders>");
            reveal_strlit("<owner>");
            reveal_strlit("<name of author>");
            reveal_strlit("<ident>");
            reveal_strlit("[year]");
            reveal_strlit("[name of author]");
            assert(year_tok@.len() >= 1 && author_tok@.len() >= 1 && ident_tok@.len() >= 1);
        }
        let authors = self.context.get_authors();
        let authors_v = chars_of(authors.as_str());
        let ident_v = chars_of(self.context.ident.as_str());
        let step1 = replace_all_vec(&content, &year_tok, year);
        let step2 = replace_all_vec(&step1, &author_tok, &authors_v);
        replace_all_vec(&step2, &ident_tok, &ident_v)
    }

    /// Render the template: unwrap the text when the context asks for it,
    /// then substitute the year field, author list and identifier for
    /// their placeholders.
    pub fn render(&self) -> (r: String)
        ensures
            self.context.end_year is Some ==> r@ == spec_render(self),
            self.context.end_year is None ==> exists|e: Seq<char>|
                r@ == spec_interpolate(
                    self.spdx_template,
                    spec_template_text(self),
                    year_field_string(opt_view(self.context.start_year), e),
                    spec_authors(self.context.authors),
                    self.context.ident@,
                ),
    {
        let year = self.context.get_year();
        let yv = chars_of(year.as_str());
        let rendered = self.interpolate_with(&yv);
        proof {
            if self.context.end_year is None {
                let e = choose|e: Seq<char>|
                    year@ == year_field_string(opt_view(self.context.start_year), e);
                assert(rendered@ == spec_interpolate(
                    self.spdx_template,
                    spec_template_text(self),
                    year_field_string(opt_view(self.context.start_year), e),
                    spec_authors(self.context.authors),
                    self.context.ident@,
                ));
            }
        }
        string_of(&rendered)
    }

    /// Build the year-varying pattern for this template: render with a
    /// sentinel in the year's place, comment the result exactly as the real
    /// header would be commented, optionally trim trailing whitespace, and
    /// split on the sentinel.  The pattern then matches the rendered header
    /// with any four-digit year or year range in the year's place.
    pub fn build_year_varying_regex(&self, commenter: &CommentStyle, trim_trailing: bool) -> (r:
        YearPattern)
        requires
            commenter.wf(),
        ensures
            r.spec_frags() == spec_pattern(self, commenter, trim_trailing),
            r.wf(),
    {
        let sent = chars_of("@YR@");
        proof {
            reveal_strlit("@YR@");
            assert(sent@.len() == 4);
        }
        let rendered = self.interpolate_with(&sent);
        let rendered_s = string_of(&rendered);
        let commented = commenter.comment(rendered_s.as_str());
        let commented_v = chars_of(commented.as_str());
        let base = if trim_trailing {
            trim_end_vec(&commented_v)
        } else {
            commented_v
        };
        let fragments = split_on_vec(&base, &sent);
        proof {
            crate::text::lemma_deep_view_is_views(&fragments);
            crate::text::lemma_split_len(base@, sent@, 0);
        }
        YearPattern { fragments }
    }
}

} // verus!
