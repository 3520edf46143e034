//! A minimal, configuration-free commenting interface: a fixed comment
//! style for each of a handful of well-known file types.  Unlike the
//! configurable formatters, these commenters keep a trailing empty line of
//! the text as a marker-only line and append two blank lines by default.

use vstd::prelude::*;

verus! {

use crate::comments::prefixed_lines;
use crate::text::append_vec;
use crate::text::chars_of;
use crate::text::last_index_of;
use crate::text::last_index_of_exec;
use crate::text::split_on;
use crate::text::split_on_vec;
use crate::text::str_eq;
use crate::text::string_of;
use crate::text::subvec;
use crate::text::views_of;

/// A capability that turns plain text into a commented block.
pub trait Comment: Sized {
    /// The commented block produced for `text`.
    spec fn spec_comment(&self, text: Seq<char>) -> Seq<char>;

    /// Turn `text` into a commented block.
    fn comment(&self, text: &str) -> (r: String)
        ensures
            r@ == self.spec_comment(text@),
    ;
}

/// Every newline-separated piece of the text prefixed with the marker; a
/// piece after a final newline appears as a marker-only line.
fn prefix_pieces(marker: &Vec<char>, text: &Vec<char>) -> (r: Vec<char>)
    ensures
        r@ == prefixed_lines(marker@, split_on(text@, seq!['\n'])),
{
    let sep: Vec<char> = vec!['\n'];
    proof {
        assert(sep@ =~= seq!['\n']);
    }
    let pieces = split_on_vec(text, &sep);
    proof {
        crate::text::lemma_deep_view_is_views(&pieces);
    }
    let ghost lviews = views_of(pieces@);
    let mut out: Vec<char> = Vec::new();
    let n = pieces.len();
    let mut i: usize = 0;
    proof {
        assert(lviews.skip(0) =~= lviews);
        assert(out@ + prefixed_lines(marker@, lviews) =~= prefixed_lines(marker@, lviews));
    }
    while i < n
        invariant
            n == pieces@.len(),
            lviews == views_of(pieces@),
            0 <= i <= n,
            out@ + prefixed_lines(marker@, lviews.skip(i as int)) == prefixed_lines(
                marker@,
                lviews,
            ),
        decreases n - i,
    {
        let ghost rest = lviews.skip(i as int);
        proof {
            assert(rest[0] == pieces@[i as int]@);
            assert(rest.skip(1) =~= lviews.skip(i + 1));
            assert(prefixed_lines(marker@, rest) == crate::comments::prefixed_line(
                marker@,
                rest[0],
            ) + prefixed_lines(marker@, lviews.skip(i + 1)));
        }
        let ghost prev = out@;
        let line = &pieces[i];
        append_vec(&mut out, marker);
        if line.len() > 0 {
            out.push(' ');
            append_vec(&mut out, line);
        }
        out.push('\n');
        proof {
            if pieces@[i as int]@.len() == 0 {
                assert(out@ =~= prev + (marker@ + seq!['\n']));
            } else {
                assert(out@ =~= prev + (marker@ + seq![' '] + pieces@[i as int]@ + seq!['\n']));
            }
            assert(prev + crate::comments::prefixed_line(marker@, rest[0]) + prefixed_lines(
                marker@,
                lviews.skip(i + 1),
            ) =~= prev + (crate::comments::prefixed_line(marker@, rest[0]) + prefixed_lines(
                marker@,
                lviews.skip(i + 1),
            )));
        }
        i += 1;
    }
    proof {
        assert(lviews.skip(n as int) =~= Seq::<Seq<char>>::empty());
        assert(out@ + Seq::<char>::empty() =~= out@);
    }
    out
}

/// A line commenter with a fixed marker; it ends the block with two blank
/// lines unless told to skip them.
pub struct LineComment {
    pub character: Vec<char>,
    pub no_trailing_lines: bool,
}

impl LineComment {
    /// A line commenter with the given marker, ending with two blank
    /// lines.
    pub fn new(character: &str) -> (r: LineComment)
        ensures
            r.character@ == character@,
            r.no_trailing_lines == false,
    {
        LineComment { character: chars_of(character), no_trailing_lines: false }
    }

    /// The same commenter without the two trailing blank lines.
    pub fn skip_trailing_lines(self) -> (r: LineComment)
        ensures
            r.character == self.character,
            r.no_trailing_lines == true,
    {
        LineComment { no_trailing_lines: true, ..self }
    }
}

impl Comment for LineComment {
    open spec fn spec_comment(&self, text: Seq<char>) -> Seq<char> {
        prefixed_lines(self.character@, split_on(text, seq!['\n'])) + if self.no_trailing_lines {
            Seq::<char>::empty()
        } else {
            seq!['\n', '\n']
        }
    }

    fn comment(&self, text: &str) -> (r: String) {
        let tv = chars_of(text);
        let mut out = prefix_pieces(&self.character, &tv);
        if !self.no_trailing_lines {
            let ghost base = out@;
            out.push('\n');
            out.push('\n');
            proof {
                assert(out@ =~= base + seq!['\n', '\n']);
            }
        } else {
            proof {
                assert(out@ =~= out@ + Seq::<char>::empty());
            }
        }
        string_of(&out)
    }
}

/// A block commenter with fixed delimiters and an optional per-line
/// marker.
pub struct BlockComment {
    pub start: Vec<char>,
    pub end: Vec<char>,
    pub per_line: Option<LineComment>,
}

impl BlockComment {
    /// A block commenter with the given delimiters.
    pub fn new(start: &str, end: &str) -> (r: BlockComment)
        ensures
            r.start@ == start@,
            r.end@ == end@,
            r.per_line is None,
    {
        BlockComment { start: chars_of(start), end: chars_of(end), per_line: None }
    }

    /// The same commenter with each line inside the block prefixed by the
    /// given marker.
    pub fn with_per_line(self, per_line: &str) -> (r: BlockComment)
        ensures
            r.start == self.start,
            r.end == self.end,
            r.per_line matches Some(lc) && lc.character@ == per_line@ && lc.no_trailing_lines,
    {
        let lc = LineComment::new(per_line).skip_trailing_lines();
        BlockComment { per_line: Some(lc), ..self }
    }
}

impl Comment for BlockComment {
    open spec fn spec_comment(&self, text: Seq<char>) -> Seq<char> {
        let inner = match self.per_line {
            Some(lc) => lc.spec_comment(text),
            None => text,
        };
        self.start@ + inner + self.end@
    }

    fn comment(&self, text: &str) -> (r: String) {
        let mut out: Vec<char> = Vec::new();
        append_vec(&mut out, &self.start);
        match &self.per_line {
            Some(lc) => {
                let commented = lc.comment(text);
                let cv = chars_of(commented.as_str());
                append_vec(&mut out, &cv);
            },
            None => {
                let tv = chars_of(text);
                append_vec(&mut out, &tv);
            },
        }
        append_vec(&mut out, &self.end);
        string_of(&out)
    }
}

/// One of the two fixed commenter shapes.
pub enum Commenter {
    Line(LineComment),
    Block(BlockComment),
}

impl Comment for Commenter {
    open spec fn spec_comment(&self, text: Seq<char>) -> Seq<char> {
        match self {
            Commenter::Line(lc) => lc.spec_comment(text),
            Commenter::Block(bc) => bc.spec_comment(text),
        }
    }

    fn comment(&self, text: &str) -> (r: String) {
        match self {
            Commenter::Line(lc) => lc.comment(text),
            Commenter::Block(bc) => bc.comment(text),
        }
    }
}

/// The commenter for a file type: `//` lines for rs, js and go, block
/// comments for html, c and cpp, and `#` lines for everything else.
pub fn get_commenter(ftype: &str) -> (r: Commenter)
    ensures
        (ftype@ == "rs"@ || ftype@ == "js"@ || ftype@ == "go"@) ==> (r matches Commenter::Line(lc)
            && lc.character@ == "//"@ && !lc.no_trailing_lines),
        ftype@ == "html"@ ==> (r matches Commenter::Block(bc) && bc.start@ == "<!--\n"@ && bc.end@
            == "-->"@ && bc.per_line is None),
        (ftype@ == "cpp"@ || ftype@ == "c"@) ==> (r matches Commenter::Block(bc) && bc.start@
            == "/*\n"@ && bc.end@ == "*/"@ && (bc.per_line matches Some(lc) && lc.character@
            == "*"@ && lc.no_trailing_lines)),
        !(ftype@ == "rs"@ || ftype@ == "js"@ || ftype@ == "go"@ || ftype@ == "html"@ || ftype@
            == "cpp"@ || ftype@ == "c"@) ==> (r matches Commenter::Line(lc) && lc.character@
            == "#"@ && !lc.no_trailing_lines),
{
    proof {
        reveal_strlit("rs");
        reveal_strlit("js");
        reveal_strlit("go");
        reveal_strlit("html");
        reveal_strlit("cpp");
        reveal_strlit("c");
    }
    if str_eq(ftype, "rs") || str_eq(ftype, "js") || str_eq(ftype, "go") {
        proof {
            reveal_strlit("rs");
            reveal_strlit("js");
            reveal_strlit("go");
            reveal_strlit("html");
            reveal_strlit("cpp");
            reveal_strlit("c");
            assert("rs"@.len() == 2 && "js"@.len() == 2 && "go"@.len() == 2);
            assert("html"@.len() == 4 && "cpp"@.len() == 3 && "c"@.len() == 1);
            assert(ftype@ != "html"@);
            assert(ftype@ != "cpp"@);
            assert(ftype@ != "c"@);
        }
        Commenter::Line(LineComment::new("//"))
    } else if str_eq(ftype, "html") {
        Commenter::Block(BlockComment::new("<!--\n", "-->"))
    } else if str_eq(ftype, "cpp") || str_eq(ftype, "c") {
        Commenter::Block(BlockComment::new("/*\n", "*/").with_per_line("*"))
    } else {
        Commenter::Line(LineComment::new("#"))
    }
}

/// The file type for `get_commenter`: everything after the last dot of the
/// filename, or the whole filename when it has no dot.
pub fn get_filetype(filename: &str) -> (r: String)
    ensures
        r@ == filename@.skip(last_index_of(filename@, '.') + 1),
{
    let v = chars_of(filename);
    let n = v.len();
    let start: usize = match last_index_of_exec(&v, '.') {
        Some(i) => i + 1,
        None => 0,
    };
    let ext = subvec(&v, start, n);
    proof {
        assert(ext@ =~= filename@.skip(last_index_of(filename@, '.') + 1));
    }
    string_of(&ext)
}

} // verus!
