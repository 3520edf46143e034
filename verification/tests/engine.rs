//! The licensing decision engine: outdated-year detection, legacy-header
//! replacement, header insertion and classification.

use licensure::comments::Comment;
use licensure::comments::CommentStyle;
use licensure::comments::LineComment;
use licensure::config::comment::Commenter;
use licensure::config::comment::Config as CommentConfig;
use licensure::config::comment::FileType;
use licensure::config::license::Config as LicenseConfig;
use licensure::config::license::FileMatcher;
use licensure::config::CommentConfigList;
use licensure::config::Config;
use licensure::config::LicenseConfigList;
use licensure::config::RegexList;
use licensure::licensure::Action;
use licensure::licensure::Licensure;
use licensure::regexes::CompiledRegex;
use licensure::template::Authors;
use licensure::template::Context;
use licensure::template::CopyrightHolder;
use licensure::template::Template;

fn test_context(year: &str) -> Context {
    Context {
        ident: String::from("test"),
        authors: Authors::new(vec![CopyrightHolder {
            name: "Mathew Robinson".to_string(),
            email: Some("chasinglogic@gmail.com".to_string()),
        }]),
        end_year: Some(String::from(year)),
        start_year: None,
        unwrap_text: true,
    }
}

fn test_context_with_range(start_year: &str, end_year: &str) -> Context {
    Context {
        ident: String::from("test"),
        authors: Authors::new(vec![]),
        end_year: Some(String::from(end_year)),
        start_year: Some(String::from(start_year)),
        unwrap_text: true,
    }
}

fn empty_config() -> Config {
    Config {
        change_in_place: false,
        excludes: RegexList::empty(),
        licenses: LicenseConfigList { cfgs: vec![] },
        comments: CommentConfigList { cfgs: vec![] },
    }
}

// The year-varying pattern is literal text except at the year position, so
// a header that was re-wrapped to a different column width than the
// configuration's is not recognized as outdated; migrating such headers is
// what the `replaces` patterns are for.

#[test]
fn test_detects_outdated_year() {
    let l = Licensure::new(empty_config());
    let templ = Template::new("License [year]\n\ntext", test_context("2024"));
    let commenter = CommentStyle::Line(LineComment::new("#", None));
    let header = commenter.comment(&templ.render());
    let content = "# License 2020\n#\n# text";
    let result = l.get_outdated_replacement(&templ, &commenter, content, &header);
    assert!(result.is_some());
}

#[test]
fn test_detects_outdated_year_range() {
    let l = Licensure::new(empty_config());
    let templ = Template::new("License [year]\n\ntext", test_context_with_range("2020", "2024"));
    let commenter = CommentStyle::Line(LineComment::new("#", None));
    let header = commenter.comment(&templ.render());
    let content = "# License 2020, 2023\n#\n# text";
    let result = l.get_outdated_replacement(&templ, &commenter, content, &header);
    assert!(result.is_some());
}

#[test]
fn test_detects_outdated_year_range_when_previous_header_wasnt_a_range() {
    let l = Licensure::new(empty_config());
    let templ = Template::new("License [year]\n\ntext", test_context_with_range("2020", "2024"));
    let commenter = CommentStyle::Line(LineComment::new("#", None));
    let header = commenter.comment(&templ.render());
    let content = "# License 2020\n#\n# text";
    let result = l.get_outdated_replacement(&templ, &commenter, content, &header);
    assert!(result.is_some());
}

#[test]
fn test_detects_outdated_year_trailing_whitespace() {
    let l = Licensure::new(empty_config());
    let templ = Template::new("License [year]\n\ntext", test_context("2024"));
    let commenter = CommentStyle::Line(LineComment::new("#", None));
    let header = commenter.comment(&templ.render());
    let content = "# License 2020\n#\n# text\n";
    let result = l.get_outdated_replacement(&templ, &commenter, content, &header);
    assert!(result.is_some());
}

#[test]
fn test_detects_replaces() {
    let l = Licensure::new(empty_config());
    let replaces = vec![
        CompiledRegex::compile("This first regex is not going to hit").expect(
            "static pattern compiles",
        ),
        CompiledRegex::compile("(// *)?foo \\(C\\) .* another thing\n?").expect(
            "static pattern compiles",
        ),
    ];
    let templ = Template::new("License [year]\n\ntext", test_context("2024"));
    let commenter = CommentStyle::Line(LineComment::new("//", None));
    let header = commenter.comment(&templ.render());
    let content = "BEFORE// foo (C) fill fill fill another thing\nAFTER";
    let result = l.get_replaces_replacement(&replaces, content, &header);
    assert!(result.is_some());
    assert!(result.unwrap().eq("BEFORE// License 2024\n//\n// text\nAFTER"));
}

#[test]
fn test_add_header() {
    let l = Licensure::new(empty_config());
    let templ = Template::new("License [year]\n\ntext", test_context("2024"));
    let commenter = CommentStyle::Line(LineComment::new("#", None));
    let header = commenter.comment(&templ.render());
    let content = r#"
def main():
    print('hello world')

if __name__ == '__main__':
    main()
"#;
    let result = l.add_header(header, content);
    assert_eq!(
        result,
        r#"# License 2024
#
# text

def main():
    print('hello world')

if __name__ == '__main__':
    main()
"#
    )
}

#[test]
fn test_add_header_handles_shebang() {
    let l = Licensure::new(empty_config());
    let templ = Template::new("License [year]\n\ntext", test_context("2024"));
    let commenter = CommentStyle::Line(LineComment::new("#", None));
    let header = commenter.comment(&templ.render());
    let content = r#"#!/usr/bin/env python3

def main():
    print('hello world')

if __name__ == '__main__':
    main()
"#;
    let expected = r#"#!/usr/bin/env python3
# License 2024
#
# text

def main():
    print('hello world')

if __name__ == '__main__':
    main()
"#;
    let result = l.add_header(header, content);
    assert_eq!(result, expected)
}

#[test]
fn test_add_header_ignores_shebang_in_middle_of_file() {
    let l = Licensure::new(empty_config());
    let templ = Template::new("License [year]\n\ntext", test_context("2024"));
    let commenter = CommentStyle::Line(LineComment::new("#", None));
    let header = commenter.comment(&templ.render());
    let content = r#"
def main():
    print('hello world')

#!/usr/bin/env python3

if __name__ == '__main__':
    main()
"#;
    let expected = r#"# License 2024
#
# text

def main():
    print('hello world')

#!/usr/bin/env python3

if __name__ == '__main__':
    main()
"#;
    let result = l.add_header(header, content);
    assert_eq!(result, expected)
}

fn config_with_replaces() -> Config {
    Config {
        change_in_place: false,
        excludes: RegexList::empty(),
        licenses: LicenseConfigList {
            cfgs: vec![LicenseConfig {
                files: FileMatcher::Any,
                ident: "TESTING".to_string(),
                authors: Authors::new(vec![CopyrightHolder {
                    name: "The Tester".to_string(),
                    email: None,
                }]),
                end_year: None,
                start_year: None,
                template: "New Test License [name of author]\nOnly For Testing".to_string(),
                spdx_template: false,
                replaces: Some(vec![
                    CompiledRegex::compile("(# *)?Before replacement\n?").expect(
                        "static pattern compiles",
                    ),
                ]),
                unwrap_text: true,
            }],
        },
        comments: CommentConfigList {
            cfgs: vec![CommentConfig {
                extension: FileType::List(vec!["py".to_string()]),
                files: None,
                columns: Some(80),
                commenter: Commenter::Line { comment_char: "#".to_string(), trailing_lines: 0 },
            }],
        },
    }
}

#[test]
fn test_add_license_header_with_replaces() {
    let mut l = Licensure::new(config_with_replaces());
    let content = r#"
# Before replacement
def main():
    print('hello world')

if __name__ == '__main__':
    main()
"#;
    // The entry asks for unwrapping, so the template's single line break
    // collapses and the header is rendered as one line.
    let result = l.determine_required_action("test_file.py", content);
    assert_eq!(
        result,
        Action::NeedsUpdate(
            r#"
# New Test License The Tester Only For Testing
def main():
    print('hello world')

if __name__ == '__main__':
    main()
"#
            .to_string()
        )
    )
}

fn config_default_commenter_false() -> Config {
    Config {
        change_in_place: false,
        excludes: RegexList::empty(),
        licenses: LicenseConfigList {
            cfgs: vec![LicenseConfig {
                files: FileMatcher::Any,
                ident: "TESTING".to_string(),
                authors: Authors::new(vec![CopyrightHolder {
                    name: "The Tester".to_string(),
                    email: None,
                }]),
                end_year: None,
                start_year: None,
                template: "New Test License [name of author]\nOnly For Testing".to_string(),
                spdx_template: false,
                replaces: None,
                unwrap_text: true,
            }],
        },
        comments: CommentConfigList { cfgs: vec![] },
    }
}

#[test]
fn test_add_license_header_default_commenter_false() {
    let mut l = Licensure::new(config_default_commenter_false());
    let content = "\n// Before replacement\n# include somefile.h\n";
    let result = l.determine_required_action("test_file.c", content);
    assert_eq!(result, Action::NoCommenterMatched);
}

fn simple_year_config(year: &str) -> Config {
    Config {
        change_in_place: false,
        excludes: RegexList::empty(),
        licenses: LicenseConfigList {
            cfgs: vec![LicenseConfig {
                files: FileMatcher::Any,
                ident: "test".to_string(),
                authors: Authors::new(vec![]),
                end_year: Some(year.to_string()),
                start_year: None,
                template: "License [year]\n\ntext".to_string(),
                spdx_template: false,
                replaces: None,
                unwrap_text: true,
            }],
        },
        comments: CommentConfigList {
            cfgs: vec![CommentConfig {
                extension: FileType::Single("any".to_string()),
                files: None,
                columns: None,
                commenter: Commenter::Line { comment_char: "#".to_string(), trailing_lines: 0 },
            }],
        },
    }
}

#[test]
fn outdated_year_scenario_updates_in_place() {
    // Template "License [year]\n\ntext", a #-line commenter and year 2024:
    // a 2020 header is recognized and replaced by the 2024 header.
    let mut l = Licensure::new(simple_year_config("2024"));
    let result = l.determine_required_action("file.py", "# License 2020\n#\n# text");
    assert_eq!(result, Action::NeedsUpdate("# License 2024\n#\n# text".to_string()));
}

#[test]
fn year_substitution_replaces_exactly_the_new_header() {
    // The 2020-rendered header, classified under a 2024 configuration,
    // becomes exactly the 2024-rendered header.
    let header_2020 = "# License 2020\n#\n# text\n";
    let header_2024 = "# License 2024\n#\n# text\n";
    let mut l = Licensure::new(simple_year_config("2024"));
    let result = l.determine_required_action("file.py", header_2020);
    assert_eq!(result, Action::NeedsUpdate(header_2024.to_string()));
}

#[test]
fn defaulted_year_classification_is_idempotent() {
    // With no configured end year the header carries the clock year;
    // within one run the second classification still finds the file
    // licensed.
    let mut cfg = simple_year_config("2024");
    cfg.licenses.cfgs[0].end_year = None;
    let mut l = Licensure::new(cfg);
    let first = l.determine_required_action("file.py", "def main():\n    pass\n");
    let updated = match first {
        Action::NeedsUpdate(u) => u,
        other => panic!("expected an update, got {:?}", other),
    };
    assert!(updated.starts_with("# License "));
    let second = l.determine_required_action("file.py", &updated);
    assert_eq!(second, Action::AlreadyLicensed);
}

#[test]
fn classification_is_idempotent() {
    let mut l = Licensure::new(simple_year_config("2024"));
    let first = l.determine_required_action("file.py", "def main():\n    pass\n");
    let updated = match first {
        Action::NeedsUpdate(u) => u,
        other => panic!("expected an update, got {:?}", other),
    };
    let second = l.determine_required_action("file.py", &updated);
    assert_eq!(second, Action::AlreadyLicensed);
}

fn trailing_lines_config(year: &str) -> Config {
    let mut cfg = simple_year_config(year);
    cfg.comments.cfgs[0].commenter = Commenter::Line {
        comment_char: "#".to_string(),
        trailing_lines: 2,
    };
    cfg
}

#[test]
fn header_missing_trailing_blank_lines_still_needs_update() {
    // The configured commenter ends the header with two blank lines; a
    // file that lost them, with an outdated year, is still recognized via
    // the trimmed pattern variant.
    let mut l = Licensure::new(trailing_lines_config("2024"));
    let result = l.determine_required_action("file.py", "# License 2020\n#\n# text\n");
    assert_eq!(result, Action::NeedsUpdate("# License 2024\n#\n# text\n".to_string()));
}

#[test]
fn no_commenter_match_is_recorded_in_both_lists() {
    let mut l = Licensure::new(config_default_commenter_false());
    let result = l.determine_required_action("test_file.c", "int main() {}\n");
    assert_eq!(result, Action::NoCommenterMatched);
    assert_eq!(l.stats.files_not_licensed, vec!["test_file.c".to_string()]);
    assert_eq!(l.stats.files_needing_commenter, vec!["test_file.c".to_string()]);
    assert!(l.stats.files_needing_license_update.is_empty());
}

#[test]
fn no_license_config_is_recorded_as_not_licensed() {
    let mut l = Licensure::new(empty_config());
    let result = l.determine_required_action("file.py", "x = 1\n");
    assert_eq!(result, Action::NoConfigMatched);
    assert_eq!(l.stats.files_not_licensed, vec!["file.py".to_string()]);
}

#[test]
fn shebang_without_newline_gets_header_first() {
    let l = Licensure::new(empty_config());
    let result = l.add_header("# H\n".to_string(), "#!x");
    assert_eq!(result, "# H\n#!x");
}

#[test]
fn error_message_combines_context_and_cause() {
    let e = licensure::licensure::Error::new(
        "failed to open file x".to_string(),
        "permission denied".to_string(),
    );
    assert_eq!("failed to open file x: permission denied", e.message());
}
