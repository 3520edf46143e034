//! Comment formatters: turn plain text into a comment block for a file
//! type, either by prefixing every line with a marker or by wrapping the
//! whole text in block delimiters, with optional column wrapping and
//! trailing blank lines.

use vstd::prelude::*;

verus! {

use crate::text::append_vec;
use crate::text::chars_of;
use crate::text::lines_of;
use crate::text::lines_vec;
use crate::text::newlines;
use crate::text::split_on;
use crate::text::string_of;
use crate::text::views_of;

/// What `textwrap::fill` returns for the given text and column width.  The
/// result depends on the text and the width alone.
pub uninterp spec fn fill_of(text: Seq<char>, width: int) -> Seq<char>;

/// Relies on `textwrap::fill`: re-wraps the text so that no line is longer
/// than `width` columns, breaking lines at whitespace.
#[verifier::external_body]
fn fill(text: &str, width: usize) -> (r: String)
    ensures
        r@ == fill_of(text@, width as int),
{
    textwrap::fill(text, width)
}

/// A single line turned into a comment line: the marker alone for an empty
/// line, otherwise the marker, one space, and the line, each line ending in
/// a newline.
pub open spec fn prefixed_line(marker: Seq<char>, line: Seq<char>) -> Seq<char> {
    if line.len() == 0 {
        marker + seq!['\n']
    } else {
        marker + seq![' '] + line + seq!['\n']
    }
}

/// All lines prefixed with the marker, concatenated.
pub open spec fn prefixed_lines(marker: Seq<char>, ls: Seq<Seq<char>>) -> Seq<char>
    decreases ls.len(),
{
    if ls.len() == 0 {
        Seq::empty()
    } else {
        prefixed_line(marker, ls[0]) + prefixed_lines(marker, ls.skip(1))
    }
}

/// Prefixing distributes over concatenation of line lists.
pub proof fn lemma_prefixed_concat(marker: Seq<char>, xs: Seq<Seq<char>>, ys: Seq<Seq<char>>)
    ensures
        prefixed_lines(marker, xs + ys) == prefixed_lines(marker, xs) + prefixed_lines(marker, ys),
    decreases xs.len(),
{
    if xs.len() == 0 {
        assert(xs + ys =~= ys);
        assert(Seq::<char>::empty() + prefixed_lines(marker, ys) =~= prefixed_lines(marker, ys));
    } else {
        lemma_prefixed_concat(marker, xs.skip(1), ys);
        assert((xs + ys)[0] == xs[0]);
        assert((xs + ys).skip(1) =~= xs.skip(1) + ys);
        assert(prefixed_lines(marker, xs + ys) == prefixed_line(marker, xs[0]) + (prefixed_lines(
            marker,
            xs.skip(1),
        ) + prefixed_lines(marker, ys)));
        assert(prefixed_line(marker, xs[0]) + (prefixed_lines(marker, xs.skip(1)) + prefixed_lines(
            marker,
            ys,
        )) =~= (prefixed_line(marker, xs[0]) + prefixed_lines(marker, xs.skip(1)))
            + prefixed_lines(marker, ys));
    }
}

/// Prefixed lines use only the marker's characters, a space, a newline and
/// the lines' own characters.
pub proof fn lemma_prefixed_avoids(marker: Seq<char>, ls: Seq<Seq<char>>, c: char)
    requires
        c != ' ',
        c != '\n',
        crate::text::avoids_char(marker, c),
        forall|i: int| 0 <= i < ls.len() ==> crate::text::avoids_char(#[trigger] ls[i], c),
    ensures
        crate::text::avoids_char(prefixed_lines(marker, ls), c),
    decreases ls.len(),
{
    if ls.len() > 0 {
        lemma_prefixed_avoids(marker, ls.skip(1), c);
        let head = prefixed_line(marker, ls[0]);
        assert forall|j: int| 0 <= j < head.len() implies head[j] != c by {
            if ls[0].len() == 0 {
                if j < marker.len() {
                    assert(head[j] == marker[j]);
                }
            } else {
                if j < marker.len() {
                    assert(head[j] == marker[j]);
                } else if j == marker.len() {
                    assert(head[j] == ' ');
                } else if j < marker.len() + 1 + ls[0].len() {
                    assert(head[j] == ls[0][j - marker.len() - 1]);
                }
            }
        }
        let rest = prefixed_lines(marker, ls.skip(1));
        assert forall|j: int| 0 <= j < (head + rest).len() implies (head + rest)[j] != c by {
            if j >= head.len() {
                assert((head + rest)[j] == rest[j - head.len()]);
            }
        }
    }
}

/// Trailing newlines are newlines alone.
pub proof fn lemma_newlines_avoids(n: nat, c: char)
    requires
        c != '\n',
    ensures
        crate::text::avoids_char(newlines(n), c),
    decreases n,
{
    if n > 0 {
        lemma_newlines_avoids((n - 1) as nat, c);
        assert forall|j: int| 0 <= j < newlines(n).len() implies newlines(n)[j] != c by {
            if j < newlines((n - 1) as nat).len() {
                assert(newlines(n)[j] == newlines((n - 1) as nat)[j]);
            } else {
                assert(newlines(n)[j] == '\n');
            }
        }
    }
}

/// Line-commenting text of the shape `u0 + v + u1`, where `v` holds no
/// newline, splits around `v`: only the line holding `v` depends on it,
/// and the commented block is a fixed prefix, then `v`, then a fixed
/// suffix.
#[verifier::rlimit(60)]
pub proof fn lemma_line_comment_seam(
    marker: Seq<char>,
    trailing: nat,
    u0: Seq<char>,
    u1: Seq<char>,
    v: Seq<char>,
)
    requires
        v.len() >= 1,
        crate::text::avoids_char(v, '\n'),
    ensures
        ({
            let a = split_on(u0, seq!['\n']);
            let b = split_on(u1, seq!['\n']);
            let tail = if b.len() > 1 && b.last().len() == 0 {
                b.skip(1).drop_last()
            } else {
                b.skip(1)
            };
            let hs0 = prefixed_lines(marker, a.drop_last()) + marker + seq![' '] + a.last();
            let hs1 = b[0] + seq!['\n'] + prefixed_lines(marker, tail) + newlines(trailing);
            prefixed_lines(marker, lines_of(u0 + v + u1)) + newlines(trailing) == hs0 + v + hs1
        }),
{
    let nl = '\n';
    let a = split_on(u0, seq![nl]);
    let b = split_on(u1, seq![nl]);
    crate::text::lemma_split_len(u0, seq![nl], 0);
    crate::text::lemma_split_len(u1, seq![nl], 0);
    crate::text::lemma_split_concat_single(u0, v + u1, nl);
    crate::text::lemma_split_concat_single(v, u1, nl);
    crate::text::lemma_split_free(v, nl);
    let sv = split_on(v, seq![nl]);
    assert(sv == seq![v]);
    assert(sv.drop_last() =~= Seq::<Seq<char>>::empty());
    assert(sv.last() == v);
    let s_vb = split_on(v + u1, seq![nl]);
    assert(s_vb == sv.drop_last() + seq![sv.last() + b[0]] + b.skip(1));
    assert(s_vb =~= seq![v + b[0]] + b.skip(1));
    assert(u0 + v + u1 =~= u0 + (v + u1));
    let raw = split_on(u0 + v + u1, seq![nl]);
    assert(raw == a.drop_last() + seq![a.last() + s_vb[0]] + s_vb.skip(1));
    assert(s_vb[0] == v + b[0]);
    assert(s_vb.skip(1) =~= b.skip(1));
    let seam = a.last() + v + b[0];
    assert(a.last() + (v + b[0]) =~= seam);
    assert(raw =~= a.drop_last() + seq![seam] + b.skip(1));
    assert(seam.len() >= 1);
    let tail = if b.len() > 1 && b.last().len() == 0 {
        b.skip(1).drop_last()
    } else {
        b.skip(1)
    };
    let lines = lines_of(u0 + v + u1);
    assert(raw.len() == a.len() + b.len() - 1);
    if b.len() > 1 {
        assert(raw.last() == b.skip(1)[b.len() - 2]);
        assert(b.skip(1)[b.len() - 2] == b.last());
        assert(raw.len() > 1);
        if b.last().len() == 0 {
            assert(lines == raw.drop_last());
            assert(lines =~= a.drop_last() + seq![seam] + b.skip(1).drop_last());
        } else {
            assert(lines == raw);
        }
    } else {
        assert(b.skip(1).len() == 0);
        assert(raw.last() == seam);
        assert(lines == raw);
        assert(tail =~= b.skip(1));
    }
    assert(lines =~= a.drop_last() + seq![seam] + tail);
    lemma_prefixed_concat(marker, a.drop_last() + seq![seam], tail);
    lemma_prefixed_concat(marker, a.drop_last(), seq![seam]);
    assert((a.drop_last() + seq![seam]) + tail =~= lines);
    assert(prefixed_lines(marker, seq![seam]) == prefixed_line(marker, seam) + prefixed_lines(
        marker,
        seq![seam].skip(1),
    ));
    assert(seq![seam].skip(1) =~= Seq::<Seq<char>>::empty());
    assert(prefixed_lines(marker, seq![seam]) =~= prefixed_line(marker, seam));
    assert(prefixed_line(marker, seam) == marker + seq![' '] + seam + seq!['\n']);
    let pa = prefixed_lines(marker, a.drop_last());
    let pt = prefixed_lines(marker, tail);
    assert(prefixed_lines(marker, lines) == (pa + (marker + seq![' '] + seam + seq!['\n'])) + pt);
    let hs0 = pa + marker + seq![' '] + a.last();
    let hs1 = b[0] + seq!['\n'] + pt + newlines(trailing);
    assert((pa + (marker + seq![' '] + seam + seq!['\n'])) + pt + newlines(trailing) =~= hs0 + v
        + hs1);
}

/// The width text is wrapped to before line markers are added: the marker
/// and its separating space are subtracted from the column budget unless
/// that would leave nothing.
pub open spec fn line_wrap_width(cols: int, comment_width: int) -> int {
    if cols > comment_width {
        cols - comment_width
    } else {
        cols
    }
}

/// A comment formatter: a capability that turns plain text into a
/// commented block.
pub trait Comment: Sized {
    /// Structural conditions under which the formatter's methods run
    /// without arithmetic overflow.
    spec fn wf(&self) -> bool;

    /// The number of characters the formatter adds in front of each line:
    /// marker plus one space, or zero for a block comment without a
    /// per-line marker.
    spec fn spec_comment_width(&self) -> nat;

    /// The commented block produced for `text`.
    spec fn spec_comment(&self, text: Seq<char>) -> Seq<char>;

    /// Turn `text` into a commented block.
    fn comment(&self, text: &str) -> (r: String)
        requires
            self.wf(),
        ensures
            r@ == self.spec_comment(text@),
    ;

    /// The number of characters consumed by the marker and its separating
    /// space.
    fn comment_width(&self) -> (w: usize)
        requires
            self.wf(),
        ensures
            w as nat == self.spec_comment_width(),
    ;
}

/// A line commenter: prefixes every line of the text with a marker,
/// optionally wrapping the text to a column width first, and appends a
/// number of trailing blank lines.
pub struct LineComment {
    pub character: Vec<char>,
    pub trailing_lines: usize,
    pub cols: Option<usize>,
}

impl LineComment {
    /// A line commenter with the given marker and optional column width,
    /// with no trailing blank lines.
    pub fn new(character: &str, cols: Option<usize>) -> (r: LineComment)
        requires
            character@.len() + 1 <= usize::MAX,
        ensures
            r.character@ == character@,
            r.trailing_lines == 0,
            r.cols == cols,
            r.wf(),
    {
        LineComment { character: chars_of(character), trailing_lines: 0, cols }
    }

    /// The same commenter with `num_lines` trailing blank lines.
    pub fn set_trailing_lines(self, num_lines: usize) -> (r: LineComment)
        ensures
            r.character == self.character,
            r.cols == self.cols,
            r.trailing_lines == num_lines,
            r.wf() == self.wf(),
    {
        LineComment { trailing_lines: num_lines, ..self }
    }

    /// The same commenter with no trailing blank lines.
    pub fn skip_trailing_lines(self) -> (r: LineComment)
        ensures
            r.character == self.character,
            r.cols == self.cols,
            r.trailing_lines == 0,
            r.wf() == self.wf(),
    {
        LineComment { trailing_lines: 0, ..self }
    }
}

impl Comment for LineComment {
    open spec fn wf(&self) -> bool {
        self.character@.len() + 1 <= usize::MAX
    }

    open spec fn spec_comment_width(&self) -> nat {
        self.character@.len() + 1
    }

    open spec fn spec_comment(&self, text: Seq<char>) -> Seq<char> {
        let wrapped = match self.cols {
            Some(c) => fill_of(text, line_wrap_width(c as int, self.spec_comment_width() as int)),
            None => text,
        };
        prefixed_lines(self.character@, lines_of(wrapped)) + newlines(self.trailing_lines as nat)
    }

    fn comment(&self, text: &str) -> (r: String) {
        let wrapped: String = match self.cols {
            Some(c) => {
                let cw = self.comment_width();
                let width = if c > cw {
                    c - cw
                } else {
                    c
                };
                fill(text, width)
            },
            None => {
                let v = chars_of(text);
                string_of(&v)
            },
        };
        let ghost wrapped_spec = wrapped@;
        let wv = chars_of(wrapped.as_str());
        let ls = lines_vec(&wv);
        proof {
            crate::text::lemma_deep_view_is_views(&ls);
        }
        let ghost lviews = views_of(ls@);
        let marker = &self.character;
        let mut out: Vec<char> = Vec::new();
        let n = ls.len();
        let mut i: usize = 0;
        proof {
            assert(lviews.skip(0) =~= lviews);
            assert(out@ + prefixed_lines(marker@, lviews) =~= prefixed_lines(marker@, lviews));
        }
        while i < n
            invariant
                n == ls@.len(),
                lviews == views_of(ls@),
                0 <= i <= n,
                out@ + prefixed_lines(marker@, lviews.skip(i as int)) == prefixed_lines(
                    marker@,
                    lviews,
                ),
                marker == &self.character,
            decreases n - i,
        {
            let ghost rest = lviews.skip(i as int);
            proof {
                assert(rest[0] == ls@[i as int]@);
                assert(rest.skip(1) =~= lviews.skip(i + 1));
                assert(prefixed_lines(marker@, rest) == prefixed_line(marker@, rest[0])
                    + prefixed_lines(marker@, lviews.skip(i + 1)));
            }
            let ghost prev = out@;
            let line = &ls[i];
            append_vec(&mut out, marker);
            if line.len() > 0 {
                out.push(' ');
                append_vec(&mut out, line);
            }
            out.push('\n');
            proof {
                if ls@[i as int]@.len() == 0 {
                    assert(out@ =~= prev + (marker@ + seq!['\n']));
                } else {
                    assert(out@ =~= prev + (marker@ + seq![' '] + ls@[i as int]@ + seq!['\n']));
                }
                assert(prev + prefixed_line(marker@, rest[0]) + prefixed_lines(
                    marker@,
                    lviews.skip(i + 1),
                ) =~= prev + (prefixed_line(marker@, rest[0]) + prefixed_lines(
                    marker@,
                    lviews.skip(i + 1),
                )));
            }
            i += 1;
        }
        proof {
            assert(lviews.skip(n as int) =~= Seq::<Seq<char>>::empty());
            assert(out@ + Seq::<char>::empty() =~= out@);
        }
        let ghost base = out@;
        let t = self.trailing_lines;
        let mut k: usize = 0;
        while k < t
            invariant
                0 <= k <= t,
                out@ == base + newlines(k as nat),
            decreases t - k,
        {
            out.push('\n');
            proof {
                assert(base + newlines(k as nat) + seq!['\n'] =~= base + (newlines(k as nat)
                    + seq!['\n']));
            }
            k += 1;
        }
        string_of(&out)
    }

    fn comment_width(&self) -> (w: usize) {
        self.character.len() + 1
    }
}

/// A block commenter: wraps the whole text between a start and an end
/// delimiter, optionally commenting each line inside the block with a
/// nested line commenter, or wrapping the text to a column width, and
/// appends a number of trailing blank lines.
pub struct BlockComment {
    pub start: Vec<char>,
    pub end: Vec<char>,
    pub per_line: Option<LineComment>,
    pub trailing_lines: usize,
    pub cols: Option<usize>,
}

impl BlockComment {
    /// A block commenter with the given delimiters and optional column
    /// width, with no per-line marker and no trailing blank lines.
    pub fn new(start: &str, end: &str, cols: Option<usize>) -> (r: BlockComment)
        ensures
            r.start@ == start@,
            r.end@ == end@,
            r.per_line is None,
            r.trailing_lines == 0,
            r.cols == cols,
            r.wf(),
    {
        BlockComment {
            start: chars_of(start),
            end: chars_of(end),
            per_line: None,
            trailing_lines: 0,
            cols,
        }
    }

    /// The same commenter with `num_lines` trailing blank lines.
    pub fn set_trailing_lines(self, num_lines: usize) -> (r: BlockComment)
        ensures
            r.start == self.start,
            r.end == self.end,
            r.per_line == self.per_line,
            r.cols == self.cols,
            r.trailing_lines == num_lines,
            r.wf() == self.wf(),
    {
        BlockComment { trailing_lines: num_lines, ..self }
    }

    /// The same commenter with each line inside the block commented by a
    /// nested line commenter using the given marker.
    pub fn with_per_line(self, per_line: &str) -> (r: BlockComment)
        requires
            per_line@.len() + 1 <= usize::MAX,
        ensures
            r.start == self.start,
            r.end == self.end,
            r.cols == self.cols,
            r.trailing_lines == self.trailing_lines,
            r.per_line matches Some(lc) && lc.character@ == per_line@ && lc.trailing_lines == 0
                && lc.cols == self.cols,
            r.wf(),
    {
        let lc = LineComment::new(per_line, self.cols).skip_trailing_lines();
        BlockComment { per_line: Some(lc), ..self }
    }
}

impl Comment for BlockComment {
    open spec fn wf(&self) -> bool {
        match self.per_line {
            Some(lc) => lc.wf(),
            None => true,
        }
    }

    open spec fn spec_comment_width(&self) -> nat {
        match self.per_line {
            Some(lc) => lc.spec_comment_width(),
            None => 0,
        }
    }

    open spec fn spec_comment(&self, text: Seq<char>) -> Seq<char> {
        let inner = match self.per_line {
            Some(lc) => lc.spec_comment(text),
            None => match self.cols {
                Some(c) => fill_of(text, c as int),
                None => text,
            },
        };
        self.start@ + inner + self.end@ + newlines(self.trailing_lines as nat)
    }

    fn comment(&self, text: &str) -> (r: String) {
        let mut out: Vec<char> = Vec::new();
        append_vec(&mut out, &self.start);
        match &self.per_line {
            Some(lc) => {
                let commented = lc.comment(text);
                let cv = chars_of(commented.as_str());
                append_vec(&mut out, &cv);
            },
            None => {
                match self.cols {
                    Some(c) => {
                        let filled = fill(text, c);
                        let fv = chars_of(filled.as_str());
                        append_vec(&mut out, &fv);
                    },
                    None => {
                        let tv = chars_of(text);
                        append_vec(&mut out, &tv);
                    },
                }
            },
        }
        append_vec(&mut out, &self.end);
        let ghost base = out@;
        let t = self.trailing_lines;
        let mut k: usize = 0;
        while k < t
            invariant
                0 <= k <= t,
                out@ == base + newlines(k as nat),
            decreases t - k,
        {
            out.push('\n');
            proof {
                assert(base + newlines(k as nat) + seq!['\n'] =~= base + (newlines(k as nat)
                    + seq!['\n']));
            }
            k += 1;
        }
        proof {
            let inner = match &self.per_line {
                Some(lc) => lc.spec_comment(text@),
                None => match self.cols {
                    Some(c) => fill_of(text@, c as int),
                    None => text@,
                },
            };
            assert(base =~= self.start@ + inner + self.end@);
            assert(out@ =~= self.start@ + inner + self.end@ + newlines(
                self.trailing_lines as nat,
            ));
        }
        string_of(&out)
    }

    fn comment_width(&self) -> (w: usize) {
        match &self.per_line {
            Some(lc) => lc.comment_width(),
            None => 0,
        }
    }
}

/// A configured commenter: one of the two concrete comment formatters.
pub enum CommentStyle {
    Line(LineComment),
    Block(BlockComment),
}

impl Comment for CommentStyle {
    open spec fn wf(&self) -> bool {
        match self {
            CommentStyle::Line(lc) => lc.wf(),
            CommentStyle::Block(bc) => bc.wf(),
        }
    }

    open spec fn spec_comment_width(&self) -> nat {
        match self {
            CommentStyle::Line(lc) => lc.spec_comment_width(),
            CommentStyle::Block(bc) => bc.spec_comment_width(),
        }
    }

    open spec fn spec_comment(&self, text: Seq<char>) -> Seq<char> {
        match self {
            CommentStyle::Line(lc) => lc.spec_comment(text),
            CommentStyle::Block(bc) => bc.spec_comment(text),
        }
    }

    fn comment(&self, text: &str) -> (r: String) {
        match self {
            CommentStyle::Line(lc) => lc.comment(text),
            CommentStyle::Block(bc) => bc.comment(text),
        }
    }

    fn comment_width(&self) -> (w: usize) {
        match self {
            CommentStyle::Line(lc) => lc.comment_width(),
            CommentStyle::Block(bc) => bc.comment_width(),
        }
    }
}

} // verus!
