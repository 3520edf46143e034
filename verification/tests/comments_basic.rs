//! The fixed, preset-based commenting interface.

use licensure::basic::get_commenter;
use licensure::basic::get_filetype;
use licensure::basic::Comment;

const EX_TEXT: &str = "There once was a man
with a very nice cat
the cat wore a top hat
it looked super dapper
";

#[test]
fn comments_test_comment_python() {
    assert_eq!(
        "# There once was a man
# with a very nice cat
# the cat wore a top hat
# it looked super dapper
#


",
        get_commenter("py").comment(EX_TEXT)
    )
}

#[test]
fn comments_test_comment_cpp() {
    assert_eq!(
        "/*
* There once was a man
* with a very nice cat
* the cat wore a top hat
* it looked super dapper
*
*/",
        get_commenter("cpp").comment(EX_TEXT)
    )
}

#[test]
fn comments_test_get_filetype() {
    assert_eq!("py", get_filetype("test.py"))
}

#[test]
fn basic_filetype_without_dot_is_whole_name() {
    assert_eq!("NONE", get_filetype("NONE"));
    assert_eq!("", get_filetype(""));
}

#[test]
fn basic_commenter_on_empty_text_yields_marker_line() {
    assert_eq!("#\n\n\n", get_commenter("py").comment(""));
}

#[test]
fn basic_html_commenter_wraps_whole_text() {
    assert_eq!("<!--\nhello\n-->", get_commenter("html").comment("hello\n"));
}
