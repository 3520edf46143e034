//! Column unwrapping, one-shot licensing, and the year-varying pattern on
//! concrete values.

use licensure::comments::Comment;
use licensure::comments::CommentStyle;
use licensure::comments::LineComment;
use licensure::ops::license_content;
use licensure::template::Authors;
use licensure::template::Context;
use licensure::template::CopyrightHolder;
use licensure::template::Template;
use licensure::utils::remove_column_wrapping;

#[test]
fn test_remove_column_wrapping() {
    let content = "\
some wrapped
text to unwrap.

The line above
is an intentional
line break.

So is this.";

    let expected = "some wrapped text to unwrap.\n\nThe line above \
        is an intentional line break.\n\nSo is this.";
    assert_eq!(expected, remove_column_wrapping(content))
}

#[test]
fn license_content_prepends_commented_header() {
    let result = license_content(
        "script.py",
        "MIT",
        "Jane Doe",
        "jane@example.com",
        "2024",
        "print('hi')\n",
    );
    let expected = "# Copyright 2024 Jane Doe <jane@example.com>. All rights reserved. Use of this source code is\n# governed by the MIT license that can be found in the LICENSE file.\n#\n#\n\n\nprint('hi')\n";
    assert_eq!(expected, result);
}

#[test]
fn pattern_recognizes_any_year_in_its_own_header() {
    // Round trip: the pattern derived from a rendered header matches that
    // header for every year put in the year's place.
    let context = Context {
        ident: String::from("test"),
        authors: Authors::new(vec![]),
        end_year: Some(String::from("2024")),
        start_year: None,
        unwrap_text: false,
    };
    let templ = Template::new("License [year]\n\ntext\n", context);
    let commenter = CommentStyle::Line(LineComment::new("#", None));
    let pattern = templ.build_year_varying_regex(&commenter, false);
    for year in ["1999", "2024", "2020, 2024"] {
        let other_context = Context {
            ident: String::from("test"),
            authors: Authors::new(vec![]),
            end_year: Some(String::from(year)),
            start_year: None,
            unwrap_text: false,
        };
        let other = Template::new("License [year]\n\ntext\n", other_context);
        let header = commenter.comment(&other.render());
        let chars: Vec<char> = header.chars().collect();
        assert!(pattern.is_match(&chars), "pattern missed year {year}");
    }
    let unrelated: Vec<char> = "# Some other text\n".chars().collect();
    assert!(!pattern.is_match(&unrelated));
}

#[test]
fn pattern_find_returns_leftmost_span() {
    let context = Context {
        ident: String::from("t"),
        authors: Authors::new(vec![]),
        end_year: Some(String::from("2024")),
        start_year: None,
        unwrap_text: false,
    };
    let templ = Template::new("C [year] t", context);
    let commenter = CommentStyle::Line(LineComment::new("#", None));
    let pattern = templ.build_year_varying_regex(&commenter, true);
    // The trimmed pattern is "# C [0-9]{4}(, [0-9]{4})? t".
    let text: Vec<char> = "xx# C 1999 t--# C 2024 t".chars().collect();
    assert_eq!(Some((2, 12)), pattern.find(&text));
}
