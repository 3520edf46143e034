//! The configurable comment formatters.

use licensure::comments::BlockComment;
use licensure::comments::Comment;
use licensure::comments::LineComment;

const EX_TEXT: &str = "There once was a man
with a very nice cat
the cat wore a top hat
it looked super dapper
";

#[test]
fn mod_test_comment_python() {
    assert_eq!(
        "# There once was a man
# with a very nice cat
# the cat wore a top hat
# it looked super dapper
",
        LineComment::new("#", None).comment(EX_TEXT)
    )
}

#[test]
fn test_comment_python_w_trailing_lines() {
    assert_eq!(
        "# There once was a man
# with a very nice cat
# the cat wore a top hat
# it looked super dapper


",
        LineComment::new("#", None).set_trailing_lines(2).comment(EX_TEXT)
    )
}

#[test]
fn mod_test_comment_cpp() {
    assert_eq!(
        "/*
* There once was a man
* with a very nice cat
* the cat wore a top hat
* it looked super dapper
*/",
        BlockComment::new("/*\n", "*/", None).with_per_line("*").comment(EX_TEXT)
    )
}

#[test]
fn test_comment_cpp_w_trailing_lines() {
    assert_eq!(
        "/*
* There once was a man
* with a very nice cat
* the cat wore a top hat
* it looked super dapper
*/

",
        BlockComment::new("/*\n", "*/", None)
            .with_per_line("*")
            .set_trailing_lines(2)
            .comment(EX_TEXT)
    )
}

#[test]
fn test_comment_html() {
    assert_eq!(
        "<!--
There once was a man
with a very nice cat
the cat wore a top hat
it looked super dapper
-->",
        BlockComment::new("<!--\n", "-->", None).comment(EX_TEXT)
    )
}

#[test]
fn line_commenter_wraps_to_column_width() {
    // The column budget leaves 7 characters for text after the marker and
    // its separating space, so the text breaks between words.
    assert_eq!("# aaa bbb\n# ccc\n", LineComment::new("#", Some(9)).comment("aaa bbb ccc"));
}

#[test]
fn line_commenter_keeps_blank_lines_as_bare_markers() {
    assert_eq!("# a\n#\n# b\n", LineComment::new("#", None).comment("a\n\nb"));
}
