//! One-shot licensing of a single file's content with the built-in
//! templates and the fixed per-file-type commenters.

use vstd::prelude::*;

verus! {

use crate::basic::get_commenter;
use crate::basic::get_filetype;
use crate::basic::Comment;
use crate::comments::prefixed_lines;
use crate::licenses::render_template;
use crate::licenses::spec_render_template;
use crate::text::chars_of;
use crate::text::last_index_of;
use crate::text::split_on;
use crate::text::string_of;

/// What the fixed commenter for a file type produces for `text`.
pub open spec fn spec_basic_commented(ftype: Seq<char>, text: Seq<char>) -> Seq<char> {
    if ftype == "rs"@ || ftype == "js"@ || ftype == "go"@ {
        prefixed_lines("//"@, split_on(text, seq!['\n'])) + seq!['\n', '\n']
    } else if ftype == "html"@ {
        "<!--\n"@ + text + "-->"@
    } else if ftype == "cpp"@ || ftype == "c"@ {
        "/*\n"@ + prefixed_lines("*"@, split_on(text, seq!['\n'])) + "*/"@
    } else {
        prefixed_lines("#"@, split_on(text, seq!['\n'])) + seq!['\n', '\n']
    }
}

/// The file type of a filename, as the fixed commenters see it.
pub open spec fn spec_basic_filetype(filename: Seq<char>) -> Seq<char> {
    filename.skip(last_index_of(filename, '.') + 1)
}

/// The content a file gets when licensed in one shot: the built-in
/// template rendered for the given identifier, author, email and year,
/// commented for the file's type, followed by the previous content.
pub fn license_content(
    filename: &str,
    ident: &str,
    author: &str,
    email: &str,
    year: &str,
    content: &str,
) -> (r: String)
    ensures
        r@ == spec_basic_commented(
            spec_basic_filetype(filename@),
            spec_render_template(ident@, author@, email@, year@),
        ) + content@,
{
    let filetype = get_filetype(filename);
    let commenter = get_commenter(filetype.as_str());
    let uncommented = render_template(ident, author, email, year);
    let header = commenter.comment(uncommented.as_str());
    let mut out = chars_of(header.as_str());
    let cv = chars_of(content);
    crate::text::append_vec(&mut out, &cv);
    string_of(&out)
}

} // verus!
