//! Year-varying header patterns.
//!
//! A pattern is a list of literal text fragments; it matches a span of text
//! exactly when the span consists of the fragments in order with a four-digit
//! year, or a `"YYYY, YYYY"` year range, between consecutive fragments.  This
//! is the shape of a rendered license header after the year has been cut out,
//! and it recognizes that header again whatever year it carries.

use vstd::prelude::*;

verus! {

use crate::is_digit;
use crate::text::join_with;
use crate::text::lemma_replace_is_join;
use crate::text::lemma_split_len;
use crate::text::matches_at;
use crate::text::replace_all;
use crate::text::split_on;
use crate::text::starts_with;
use crate::text::views_of;

/// Four ASCII decimal digits.
pub open spec fn is_year_seq(s: Seq<char>) -> bool {
    s.len() == 4 && forall|i: int| 0 <= i < s.len() ==> is_digit(s[i])
}

/// A year field: a four-digit year, or a `"YYYY, YYYY"` range.
pub open spec fn is_year_field(s: Seq<char>) -> bool {
    is_year_seq(s) || (s.len() == 10 && is_year_seq(s.subrange(0, 4)) && s[4] == ',' && s[5] == ' '
        && is_year_seq(s.subrange(6, 10)))
}

/// The fragments, in order and with a year field between consecutive ones,
/// make up `text` exactly.
pub open spec fn pat_matches(frags: Seq<Seq<char>>, text: Seq<char>) -> bool
    decreases frags.len(),
{
    if frags.len() == 0 {
        false
    } else if frags.len() == 1 {
        text == frags[0]
    } else {
        starts_with(text, frags[0]) && {
            let rest = text.skip(frags[0].len() as int);
            ||| (rest.len() >= 4 && is_year_seq(rest.subrange(0, 4)) && pat_matches(
                frags.skip(1),
                rest.skip(4),
            ))
            ||| (rest.len() >= 10 && is_year_field(rest.subrange(0, 10)) && pat_matches(
                frags.skip(1),
                rest.skip(10),
            ))
        }
    }
}

/// Where a match that begins at `pos` ends, trying the year-range form
/// before the single-year form at each year position.  `None` when no match
/// begins at `pos`.
pub open spec fn match_end_at(frags: Seq<Seq<char>>, text: Seq<char>, pos: int) -> Option<int>
    decreases frags.len(),
{
    if frags.len() == 0 || pos < 0 || pos > text.len() {
        None
    } else if !(pos + frags[0].len() <= text.len() && text.subrange(
        pos,
        pos + frags[0].len() as int,
    ) == frags[0]) {
        None
    } else if frags.len() == 1 {
        Some(pos + frags[0].len() as int)
    } else {
        let p2 = pos + frags[0].len() as int;
        let r10 = if p2 + 10 <= text.len() && is_year_field(text.subrange(p2, p2 + 10)) {
            match_end_at(frags.skip(1), text, p2 + 10)
        } else {
            None
        };
        if r10 is Some {
            r10
        } else if p2 + 4 <= text.len() && is_year_seq(text.subrange(p2, p2 + 4)) {
            match_end_at(frags.skip(1), text, p2 + 4)
        } else {
            None
        }
    }
}

/// The leftmost match of the pattern in `text` at or after position `s`:
/// its start and end, or `None`.
pub open spec fn find_from_spec(frags: Seq<Seq<char>>, text: Seq<char>, s: int) -> Option<
    (int, int),
>
    decreases text.len() - s + 1,
{
    if s < 0 || s > text.len() {
        None
    } else {
        match match_end_at(frags, text, s) {
            Some(e) => Some((s, e)),
            None => find_from_spec(frags, text, s + 1),
        }
    }
}

/// The leftmost match of the pattern in `text`.
pub open spec fn pat_find_spec(frags: Seq<Seq<char>>, text: Seq<char>) -> Option<(int, int)> {
    find_from_spec(frags, text, 0)
}

/// `match_end_at` is sound and complete for matches that begin at `pos`:
/// a returned end is a real match, and `None` means no span starting at
/// `pos` matches.
pub proof fn lemma_match_end_props(frags: Seq<Seq<char>>, text: Seq<char>, pos: int)
    requires
        frags.len() >= 1,
        0 <= pos <= text.len(),
    ensures
        match match_end_at(frags, text, pos) {
            Some(e) => pos <= e <= text.len() && pat_matches(frags, text.subrange(pos, e)),
            None => forall|e: int|
                pos <= e <= text.len() ==> !pat_matches(frags, text.subrange(pos, e)),
        },
    decreases frags.len(), 1int,
{
    let f0 = frags[0];
    let flen = f0.len() as int;
    let ok_prefix = pos + flen <= text.len() && text.subrange(pos, pos + flen) == f0;
    if !ok_prefix {
        assert(match_end_at(frags, text, pos) is None);
        assert forall|e: int| pos <= e <= text.len() implies !pat_matches(
            frags,
            text.subrange(pos, e),
        ) by {
            let sub = text.subrange(pos, e);
            if pat_matches(frags, sub) {
                if frags.len() == 1 {
                    assert(sub == f0);
                    assert(e == pos + flen);
                    assert(text.subrange(pos, pos + flen) == f0);
                } else {
                    assert(starts_with(sub, f0));
                    assert(text.subrange(pos, pos + flen) =~= sub.subrange(0, flen));
                }
            }
        }
    } else if frags.len() == 1 {
        let e = pos + flen;
        assert(text.subrange(pos, e) == f0);
        assert(pat_matches(frags, text.subrange(pos, e)));
    } else {
        let p2 = pos + flen;
        let guard10 = p2 + 10 <= text.len() && is_year_field(text.subrange(p2, p2 + 10));
        let r10 = if guard10 {
            match_end_at(frags.skip(1), text, p2 + 10)
        } else {
            None
        };
        if guard10 {
            lemma_match_end_props(frags.skip(1), text, p2 + 10);
        }
        let guard4 = p2 + 4 <= text.len() && is_year_seq(text.subrange(p2, p2 + 4));
        if r10 is Some {
            let e = r10->0;
            assert(p2 + 10 <= e <= text.len());
            assert(pat_matches(frags.skip(1), text.subrange(p2 + 10, e)));
            let sub = text.subrange(pos, e);
            assert(sub.subrange(0, flen) =~= text.subrange(pos, p2));
            assert(starts_with(sub, f0));
            let rest = sub.skip(flen);
            assert(rest =~= text.subrange(p2, e));
            assert(rest.subrange(0, 10) =~= text.subrange(p2, p2 + 10));
            assert(rest.skip(10) =~= text.subrange(p2 + 10, e));
            assert(pat_matches(frags, sub));
        } else if guard4 {
            lemma_match_end_props(frags.skip(1), text, p2 + 4);
            let r4 = match_end_at(frags.skip(1), text, p2 + 4);
            if r4 is Some {
                let e = r4->0;
                assert(pat_matches(frags.skip(1), text.subrange(p2 + 4, e)));
                let sub = text.subrange(pos, e);
                assert(sub.subrange(0, flen) =~= text.subrange(pos, p2));
                assert(starts_with(sub, f0));
                let rest = sub.skip(flen);
                assert(rest =~= text.subrange(p2, e));
                assert(rest.subrange(0, 4) =~= text.subrange(p2, p2 + 4));
                assert(rest.skip(4) =~= text.subrange(p2 + 4, e));
                assert(pat_matches(frags, sub));
            } else {
                assert(match_end_at(frags, text, pos) is None);
                assert forall|e: int| pos <= e <= text.len() implies !pat_matches(
                    frags,
                    text.subrange(pos, e),
                ) by {
                    let sub = text.subrange(pos, e);
                    if pat_matches(frags, sub) {
                        lemma_no_match_helper(frags, text, pos, e);
                    }
                }
            }
        } else {
            assert(match_end_at(frags, text, pos) is None);
            assert forall|e: int| pos <= e <= text.len() implies !pat_matches(
                frags,
                text.subrange(pos, e),
            ) by {
                let sub = text.subrange(pos, e);
                if pat_matches(frags, sub) {
                    lemma_no_match_helper(frags, text, pos, e);
                }
            }
        }
    }
}

/// If a span starting at `pos` matches, then one of the two year branches of
/// `match_end_at` succeeds at `pos`.
proof fn lemma_no_match_helper(frags: Seq<Seq<char>>, text: Seq<char>, pos: int, e: int)
    requires
        frags.len() >= 2,
        0 <= pos <= e <= text.len(),
        pat_matches(frags, text.subrange(pos, e)),
        pos + frags[0].len() <= text.len(),
        text.subrange(pos, pos + frags[0].len() as int) == frags[0],
    ensures
        match_end_at(frags, text, pos) is Some,
    decreases frags.len(), 0int,
{
    let f0 = frags[0];
    let flen = f0.len() as int;
    let p2 = pos + flen;
    let sub = text.subrange(pos, e);
    assert(starts_with(sub, f0));
    assert(e - pos >= flen);
    let rest = sub.skip(flen);
    assert(rest =~= text.subrange(p2, e));
    let guard10 = p2 + 10 <= text.len() && is_year_field(text.subrange(p2, p2 + 10));
    let r10 = if guard10 {
        match_end_at(frags.skip(1), text, p2 + 10)
    } else {
        None
    };
    if guard10 {
        lemma_match_end_props(frags.skip(1), text, p2 + 10);
    }
    if r10 is Some {
    } else {
        // The range branch failed, so the span must use the single-year form.
        if rest.len() >= 10 && is_year_field(rest.subrange(0, 10)) && pat_matches(
            frags.skip(1),
            rest.skip(10),
        ) {
            assert(rest.subrange(0, 10) =~= text.subrange(p2, p2 + 10));
            assert(guard10);
            assert(rest.skip(10) =~= text.subrange(p2 + 10, e));
            assert(r10 is None ==> !pat_matches(frags.skip(1), text.subrange(p2 + 10, e)));
            assert(false);
        }
        assert(rest.len() >= 4 && is_year_seq(rest.subrange(0, 4)) && pat_matches(
            frags.skip(1),
            rest.skip(4),
        ));
        assert(rest.subrange(0, 4) =~= text.subrange(p2, p2 + 4));
        let guard4 = p2 + 4 <= text.len() && is_year_seq(text.subrange(p2, p2 + 4));
        assert(guard4);
        lemma_match_end_props(frags.skip(1), text, p2 + 4);
        assert(rest.skip(4) =~= text.subrange(p2 + 4, e));
        if match_end_at(frags.skip(1), text, p2 + 4) is None {
            assert(!pat_matches(frags.skip(1), text.subrange(p2 + 4, e)));
            assert(false);
        }
    }
}

/// `find_from_spec` returns the leftmost match at or after `s`, and `None`
/// only when no span starting at or after `s` matches.
pub proof fn lemma_find_from_props(frags: Seq<Seq<char>>, text: Seq<char>, s: int)
    requires
        frags.len() >= 1,
        0 <= s,
    ensures
        match find_from_spec(frags, text, s) {
            Some(r) => s <= r.0 <= r.1 <= text.len() && pat_matches(
                frags,
                text.subrange(r.0, r.1),
            ) && forall|j: int, e: int|
                s <= j < r.0 && j <= e <= text.len() ==> !pat_matches(frags, text.subrange(j, e)),
            None => forall|j: int, e: int|
                s <= j <= text.len() && j <= e <= text.len() ==> !pat_matches(
                    frags,
                    text.subrange(j, e),
                ),
        },
    decreases text.len() - s + 1,
{
    if s > text.len() {
    } else {
        lemma_match_end_props(frags, text, s);
        match match_end_at(frags, text, s) {
            Some(e) => {},
            None => {
                lemma_find_from_props(frags, text, s + 1);
            },
        }
    }
}

/// A pattern always matches the text it was derived from: substituting any
/// year field for the separators in a joined fragment list yields a match.
pub proof fn lemma_round_trip(frags: Seq<Seq<char>>, y: Seq<char>)
    requires
        frags.len() >= 1,
        is_year_field(y),
    ensures
        pat_matches(frags, join_with(frags, y)),
    decreases frags.len(),
{
    if frags.len() == 1 {
    } else {
        let text = join_with(frags, y);
        let f0 = frags[0];
        let flen = f0.len() as int;
        let tail = join_with(frags.skip(1), y);
        assert(text == f0 + y + tail);
        assert(text.subrange(0, flen) =~= f0);
        assert(starts_with(text, f0));
        let rest = text.skip(flen);
        assert(rest =~= y + tail);
        lemma_round_trip(frags.skip(1), y);
        if y.len() == 4 {
            assert(rest.subrange(0, 4) =~= y);
            assert(rest.skip(4) =~= tail);
            assert(pat_matches(frags, text));
        } else {
            assert(y.len() == 10);
            assert(rest.subrange(0, 10) =~= y);
            assert(rest.skip(10) =~= tail);
            assert(pat_matches(frags, text));
        }
    }
}

/// The round trip stated on the pattern builder's own operations: the
/// pattern obtained by splitting a sentinel-rendered header on the sentinel
/// matches the same header with any concrete year field in the sentinel's
/// place.  This is the guarantee that a pattern generated from a header also
/// recognizes that header, for every year it could have carried.
pub proof fn lemma_pattern_recognizes_rendered(t: Seq<char>, sentinel: Seq<char>, y: Seq<char>)
    requires
        sentinel.len() >= 1,
        is_year_field(y),
    ensures
        pat_matches(split_on(t, sentinel), replace_all(t, sentinel, y)),
{
    lemma_replace_is_join(t, sentinel, y, 0);
    lemma_split_len(t, sentinel, 0);
    lemma_round_trip(split_on(t, sentinel), y);
}

/// A pattern that matches some span of the text is found by the search.
pub proof fn lemma_find_some_of_span(frags: Seq<Seq<char>>, text: Seq<char>, a: int, b: int)
    requires
        frags.len() >= 1,
        0 <= a <= b <= text.len(),
        pat_matches(frags, text.subrange(a, b)),
    ensures
        pat_find_spec(frags, text) is Some,
{
    lemma_find_from_props(frags, text, 0);
    if pat_find_spec(frags, text) is None {
        assert(!pat_matches(frags, text.subrange(a, b)));
    }
}

/// A year field starts with a digit and uses only digits, the comma and
/// the space.
pub proof fn lemma_year_field_chars(y: Seq<char>)
    requires
        is_year_field(y),
    ensures
        is_digit(y[0]),
        forall|i: int| 0 <= i < y.len() ==> is_digit(#[trigger] y[i]) || y[i] == ',' || y[i] == ' ',
{
    if is_year_seq(y) {
    } else {
        assert forall|i: int|
            0 <= i < y.len() implies is_digit(#[trigger] y[i]) || y[i] == ',' || y[i] == ' ' by {
            if i < 4 {
                assert(y[i] == y.subrange(0, 4)[i]);
            } else if i >= 6 {
                assert(y[i] == y.subrange(6, 10)[i - 6]);
            }
        }
        assert(y[0] == y.subrange(0, 4)[0]);
    }
}

/// A pattern with one year position matches a header built around any
/// year field in full: the match starts at the header's first character
/// and ends at its last.
pub proof fn lemma_find_whole_rendered(f0: Seq<char>, f1: Seq<char>, y: Seq<char>)
    requires
        is_year_field(y),
    ensures
        pat_find_spec(seq![f0, f1], f0 + y + f1) == Some(
            (0int, (f0 + y + f1).len() as int),
        ),
{
    let frags = seq![f0, f1];
    let text = f0 + y + f1;
    let flen = f0.len() as int;
    let n = text.len() as int;
    assert(text.subrange(0, flen) =~= f0);
    assert(frags.skip(1) =~= seq![f1]);
    let p2 = flen;
    if y.len() == 10 {
        assert(text.subrange(p2, p2 + 10) =~= y);
        assert(text.subrange(p2 + 10, p2 + 10 + f1.len() as int) =~= f1);
        assert(match_end_at(seq![f1], text, p2 + 10) == Some(n));
        assert(match_end_at(frags, text, 0) == Some(n));
    } else {
        assert(y.len() == 4);
        assert(text.subrange(p2, p2 + 4) =~= y);
        if p2 + 10 <= n && is_year_field(text.subrange(p2, p2 + 10)) {
            // The range guard can fire when the fragment after the year
            // happens to look like ", YYYY", but the tail is then six
            // characters short of the final fragment, so that branch
            // fails and the single-year branch is taken.
            assert(p2 + 10 + f1.len() > n);
            assert(match_end_at(seq![f1], text, p2 + 10) is None);
        }
        assert(text.subrange(p2 + 4, p2 + 4 + f1.len() as int) =~= f1);
        assert(match_end_at(seq![f1], text, p2 + 4) == Some(n));
        assert(match_end_at(frags, text, 0) == Some(n));
    }
    assert(find_from_spec(frags, text, 0) == Some((0int, n)));
}

/// Year substitution: a header that differs from the current one only in
/// its year field is matched by the year-varying pattern in full, so the
/// engine's replacement — the matched span replaced by the current header
/// — is exactly the current header.
pub proof fn lemma_year_substitution(
    f0: Seq<char>,
    f1: Seq<char>,
    y_old: Seq<char>,
    new_hdr: Seq<char>,
)
    requires
        is_year_field(y_old),
    ensures
        ({
            let content = f0 + y_old + f1;
            &&& pat_find_spec(seq![f0, f1], content) == Some((0int, content.len() as int))
            &&& content.take(0) + new_hdr + content.skip(content.len() as int) == new_hdr
        }),
{
    let content = f0 + y_old + f1;
    lemma_find_whole_rendered(f0, f1, y_old);
    assert(content.take(0) =~= Seq::<char>::empty());
    assert(content.skip(content.len() as int) =~= Seq::<char>::empty());
    assert(Seq::<char>::empty() + new_hdr + Seq::<char>::empty() =~= new_hdr);
}

/// A compiled year-varying pattern: the literal fragments around the year
/// positions of a rendered header.
pub struct YearPattern {
    pub fragments: Vec<Vec<char>>,
}

impl YearPattern {
    /// The fragment list this pattern matches against.
    pub open spec fn spec_frags(&self) -> Seq<Seq<char>> {
        views_of(self.fragments@)
    }

    /// A pattern built from splitting text on a sentinel has at least one
    /// fragment; the engine only constructs such patterns.
    pub open spec fn wf(&self) -> bool {
        self.spec_frags().len() >= 1
    }

    /// Whether a four-digit year starts at `pos`.
    fn year_at(text: &Vec<char>, pos: usize) -> (r: bool)
        requires
            pos <= text@.len(),
        ensures
            r == (pos + 4 <= text@.len() && is_year_seq(text@.subrange(pos as int, pos + 4))),
    {
        let n = text.len();
        if n - pos < 4 {
            return false;
        }
        let r = is_digit_exec(text[pos]) && is_digit_exec(text[pos + 1]) && is_digit_exec(
            text[pos + 2],
        ) && is_digit_exec(text[pos + 3]);
        proof {
            let sub = text@.subrange(pos as int, pos + 4);
            assert(sub.len() == 4);
            assert(sub[0] == text@[pos as int]);
            assert(sub[1] == text@[pos + 1]);
            assert(sub[2] == text@[pos + 2]);
            assert(sub[3] == text@[pos + 3]);
            if r {
                assert(is_year_seq(sub));
            } else {
                assert(!is_year_seq(sub));
            }
        }
        r
    }

    /// Whether a `"YYYY, YYYY"` year range starts at `pos`.
    fn year_range_at(text: &Vec<char>, pos: usize) -> (r: bool)
        requires
            pos <= text@.len(),
        ensures
            r == (pos + 10 <= text@.len() && is_year_field(text@.subrange(pos as int, pos + 10))),
    {
        let n = text.len();
        if n - pos < 10 {
            return false;
        }
        let r = Self::year_at(text, pos) && text[pos + 4] == ',' && text[pos + 5] == ' '
            && Self::year_at(text, pos + 6);
        proof {
            let sub = text@.subrange(pos as int, pos + 10);
            assert(sub.len() == 10);
            assert(sub.subrange(0, 4) =~= text@.subrange(pos as int, pos + 4));
            assert(sub.subrange(6, 10) =~= text@.subrange(pos + 6, pos + 10));
            assert(sub[4] == text@[pos + 4]);
            assert(sub[5] == text@[pos + 5]);
            if r {
                assert(is_year_field(sub));
            } else {
                assert(!is_year_seq(sub));
                if is_year_field(sub) {
                    assert(is_year_seq(sub.subrange(0, 4)));
                    assert(sub[4] == ',');
                    assert(sub[5] == ' ');
                    assert(is_year_seq(sub.subrange(6, 10)));
                    assert(false);
                }
            }
        }
        r
    }

    /// Where the match that begins at `pos` ends, for the pattern suffix
    /// that starts at fragment `fidx`.
    fn match_end(&self, fidx: usize, text: &Vec<char>, pos: usize) -> (r: Option<usize>)
        requires
            fidx < self.fragments@.len(),
            pos <= text@.len(),
        ensures
            ({
                let spec_r = match_end_at(self.spec_frags().skip(fidx as int), text@, pos as int);
                match r {
                    Some(e) => spec_r == Some(e as int),
                    None => spec_r is None,
                }
            }),
        decreases self.fragments@.len() - fidx,
    {
        let ghost frs = self.spec_frags().skip(fidx as int);
        proof {
            assert(frs[0] == self.fragments@[fidx as int]@);
        }
        let frag = &self.fragments[fidx];
        let flen = frag.len();
        let n = text.len();
        if n - pos < flen {
            return None;
        }
        if !matches_at(text, frag, pos) {
            assert(!(text@.subrange(pos as int, pos + flen) == frs[0]));
            return None;
        }
        assert(text@.subrange(pos as int, pos + frs[0].len() as int) == frs[0]);
        let p2 = pos + flen;
        if fidx == self.fragments.len() - 1 {
            assert(frs.len() == 1);
            return Some(p2);
        }
        proof {
            assert(frs.len() >= 2);
            assert(frs.skip(1) =~= self.spec_frags().skip(fidx + 1));
        }
        if Self::year_range_at(text, p2) {
            let r10 = self.match_end(fidx + 1, text, p2 + 10);
            if let Some(e) = r10 {
                return Some(e);
            }
        }
        if Self::year_at(text, p2) {
            let r4 = self.match_end(fidx + 1, text, p2 + 4);
            return r4;
        }
        None
    }

    /// The leftmost span of `text` that the pattern matches.
    pub fn find(&self, text: &Vec<char>) -> (r: Option<(usize, usize)>)
        requires
            self.wf(),
        ensures
            ({
                let spec_r = pat_find_spec(self.spec_frags(), text@);
                match r {
                    Some(p) => spec_r == Some((p.0 as int, p.1 as int)),
                    None => spec_r is None,
                }
            }),
    {
        let n = text.len();
        proof {
            assert(self.spec_frags().skip(0) =~= self.spec_frags());
        }
        let mut s: usize = 0;
        while s < n
            invariant
                n == text@.len(),
                0 <= s <= n,
                self.wf(),
                self.spec_frags().skip(0) == self.spec_frags(),
                pat_find_spec(self.spec_frags(), text@) == find_from_spec(
                    self.spec_frags(),
                    text@,
                    s as int,
                ),
            decreases n - s,
        {
            match self.match_end(0, text, s) {
                Some(e) => {
                    return Some((s, e));
                },
                None => {
                    s += 1;
                },
            }
        }
        match self.match_end(0, text, n) {
            Some(e) => Some((n, e)),
            None => {
                assert(find_from_spec(self.spec_frags(), text@, n + 1) is None);
                assert(find_from_spec(self.spec_frags(), text@, n as int) is None);
                None
            },
        }
    }

    /// Whether the pattern matches anywhere in `text`.
    pub fn is_match(&self, text: &Vec<char>) -> (r: bool)
        requires
            self.wf(),
        ensures
            r == (pat_find_spec(self.spec_frags(), text@) is Some),
    {
        self.find(text).is_some()
    }
}

/// Whether `c` is an ASCII decimal digit.
pub fn is_digit_exec(c: char) -> (r: bool)
    ensures
        r == is_digit(c),
{
    '0' <= c && c <= '9'
}

} // verus!
