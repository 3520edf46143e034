//! Comment configuration: which comment style applies to which files,
//! selected by file extension and optional filename patterns.

use vstd::prelude::*;

verus! {

use crate::comments::fill_of;
use crate::comments::line_wrap_width;
use crate::comments::prefixed_lines;
use crate::comments::BlockComment;
use crate::comments::Comment;
use crate::comments::CommentStyle;
use crate::comments::LineComment;
use crate::config::RegexList;
use crate::text::chars_of;
use crate::text::last_index_of;
use crate::text::last_index_of_exec;
use crate::text::lines_of;
use crate::text::newlines;
use crate::text::str_eq;
use crate::text::string_of;
use crate::text::subvec;

/// The file type of a filename, as comment configuration matches it: the
/// part of the final path component after its last dot, or empty when the
/// component has no dot.
pub open spec fn spec_filetype(f: Seq<char>) -> Seq<char> {
    let name = f.skip(last_index_of(f, '/') + 1);
    if last_index_of(name, '.') >= 0 {
        name.skip(last_index_of(name, '.') + 1)
    } else {
        Seq::empty()
    }
}

/// The file type (extension) of `filename`.
pub fn get_filetype(filename: &str) -> (r: String)
    ensures
        r@ == spec_filetype(filename@),
{
    let v = chars_of(filename);
    let n = v.len();
    let name_start: usize = match last_index_of_exec(&v, '/') {
        Some(i) => i + 1,
        None => 0,
    };
    let name = subvec(&v, name_start, n);
    proof {
        assert(name@ =~= v@.skip(last_index_of(v@, '/') + 1));
    }
    match last_index_of_exec(&name, '.') {
        Some(i) => {
            let ext = subvec(&name, i + 1, name.len());
            proof {
                assert(ext@ =~= name@.skip(last_index_of(name@, '.') + 1));
            }
            string_of(&ext)
        },
        None => String::new(),
    }
}

/// A file-type selector: a single extension (or the word `any`), or a list
/// of extensions.
pub enum FileType {
    Single(String),
    List(Vec<String>),
}

/// Whether the selector accepts the file type `ext`.
pub open spec fn spec_ft_matches(ft: &FileType, ext: Seq<char>) -> bool {
    match ft {
        FileType::Single(e) => e@ == "any"@ || e@ == ext,
        FileType::List(es) => exists|i: int| 0 <= i < es@.len() && (#[trigger] es@[i])@ == ext,
    }
}

impl FileType {
    /// Whether the selector accepts the file type `ft`.
    pub fn matches(&self, ft: &str) -> (r: bool)
        ensures
            r == spec_ft_matches(self, ft@),
    {
        match self {
            FileType::Single(e) => str_eq(e.as_str(), "any") || str_eq(e.as_str(), ft),
            FileType::List(es) => {
                let n = es.len();
                let mut i: usize = 0;
                while i < n
                    invariant
                        n == es@.len(),
                        0 <= i <= n,
                        forall|j: int| 0 <= j < i ==> (#[trigger] es@[j])@ != ft@,
                        spec_ft_matches(self, ft@) == exists|j: int|
                            0 <= j < es@.len() && (#[trigger] es@[j])@ == ft@,
                    decreases n - i,
                {
                    if str_eq(es[i].as_str(), ft) {
                        proof {
                            assert(es@[i as int]@ == ft@);
                        }
                        return true;
                    }
                    i += 1;
                }
                false
            },
        }
    }
}

/// The kind of commenter a configuration entry describes.
pub enum Commenter {
    Block {
        start_block_char: String,
        end_block_char: String,
        per_line_char: Option<String>,
        trailing_lines: usize,
    },
    Line { comment_char: String, trailing_lines: usize },
}

/// The commented block that a line commenter with the given marker,
/// trailing blank lines and column width produces for `text`.
pub open spec fn line_comment_model(
    marker: Seq<char>,
    trailing: nat,
    cols: Option<usize>,
    text: Seq<char>,
) -> Seq<char> {
    let wrapped = match cols {
        Some(c) => fill_of(text, line_wrap_width(c as int, marker.len() + 1 as int)),
        None => text,
    };
    prefixed_lines(marker, lines_of(wrapped)) + newlines(trailing)
}

/// One comment configuration entry: a file selector, an optional column
/// width, and the commenter to use.
pub struct Config {
    pub extension: FileType,
    pub files: Option<RegexList>,
    pub columns: Option<usize>,
    pub commenter: Commenter,
}

/// The commented block that the entry's commenter produces for `text`.
pub open spec fn cfg_comment(c: &Config, text: Seq<char>) -> Seq<char> {
    match c.commenter {
        Commenter::Line { comment_char, trailing_lines } => line_comment_model(
            comment_char@,
            trailing_lines as nat,
            c.columns,
            text,
        ),
        Commenter::Block { start_block_char, end_block_char, per_line_char, trailing_lines } => {
            let inner = match per_line_char {
                Some(p) => line_comment_model(p@, 0, c.columns, text),
                None => match c.columns {
                    Some(w) => fill_of(text, w as int),
                    None => text,
                },
            };
            start_block_char@ + inner + end_block_char@ + newlines(trailing_lines as nat)
        },
    }
}

impl Config {
    /// The marker of the entry's commenter leaves room for the separating
    /// space.
    pub open spec fn wf(&self) -> bool {
        match self.commenter {
            Commenter::Line { comment_char, .. } => comment_char@.len() + 1 <= usize::MAX,
            Commenter::Block { per_line_char, .. } => match per_line_char {
                Some(p) => p@.len() + 1 <= usize::MAX,
                None => true,
            },
        }
    }

    /// Whether the entry applies to a file with the given type and name.
    pub open spec fn spec_matches(&self, ft: Seq<char>, filename: Seq<char>) -> bool {
        spec_ft_matches(&self.extension, ft) && match self.files {
            Some(fl) => fl.spec_is_match(filename),
            None => true,
        }
    }

    /// Whether the entry applies to a file with the given type and name.
    pub fn matches(&self, file_type: &str, filename: &str) -> (r: bool)
        ensures
            r == self.spec_matches(file_type@, filename@),
    {
        if self.extension.matches(file_type) {
            match &self.files {
                Some(files) => files.is_match(filename),
                None => true,
            }
        } else {
            false
        }
    }

    /// The commenter this entry describes, with its column width applied.
    pub fn commenter(&self) -> (r: CommentStyle)
        requires
            self.wf(),
        ensures
            r.wf(),
            forall|text: Seq<char>| #[trigger] r.spec_comment(text) == cfg_comment(self, text),
    {
        match &self.commenter {
            Commenter::Line { comment_char, trailing_lines } => {
                let lc = LineComment::new(comment_char.as_str(), self.get_columns())
                    .set_trailing_lines(*trailing_lines);
                CommentStyle::Line(lc)
            },
            Commenter::Block { start_block_char, end_block_char, per_line_char, trailing_lines } => {
                let mut bc = BlockComment::new(
                    start_block_char.as_str(),
                    end_block_char.as_str(),
                    self.get_columns(),
                ).set_trailing_lines(*trailing_lines);
                if let Some(ch) = per_line_char {
                    bc = bc.with_per_line(ch.as_str());
                }
                CommentStyle::Block(bc)
            },
        }
    }

    /// The configured column width, if any.
    pub fn get_columns(&self) -> (r: Option<usize>)
        ensures
            r == self.columns,
    {
        self.columns
    }
}

} // verus!
