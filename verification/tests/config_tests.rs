//! File-type detection and comment configuration matching.

use licensure::config::comment::get_filetype;
use licensure::config::comment::Commenter;
use licensure::config::comment::Config;
use licensure::config::comment::FileType;
use licensure::config::RegexList;

#[test]
fn comment_test_get_filetype() {
    assert_eq!("py", get_filetype("test.py"));
    assert_eq!("htaccess", get_filetype(".htaccess"));
    assert_eq!("htaccess", get_filetype("/foo/bar/.htaccess"));
    assert_eq!("htaccess", get_filetype("./foo/.bar/.htaccess"));
    assert_eq!("htaccess", get_filetype("./.htaccess"));
    assert_eq!("html", get_filetype("index.html"));
    assert_eq!("html", get_filetype("/foo/bar/index.html"));
    assert_eq!("html", get_filetype("./foo/.bar/index.html"));
    assert_eq!("html", get_filetype("./index.html"));
    assert_eq!("", get_filetype("NONE"));
    assert_eq!("", get_filetype("/foo/bar/NONE"));
    assert_eq!("", get_filetype("./foo/.bar/NONE"));
    assert_eq!("", get_filetype("./NONE"));
}

fn config_py() -> Config {
    Config {
        extension: FileType::List(vec!["py".to_string()]),
        files: None,
        columns: Some(80),
        commenter: Commenter::Line { comment_char: "#".to_string(), trailing_lines: 0 },
    }
}

fn config_py_example() -> Config {
    Config {
        extension: FileType::List(vec!["py".to_string()]),
        files: Some(
            RegexList::from_patterns(&vec!["example/.*".to_string()]).expect(
                "static pattern compiles",
            ),
        ),
        columns: Some(80),
        commenter: Commenter::Line { comment_char: "#".to_string(), trailing_lines: 0 },
    }
}

#[test]
fn test_matches() {
    let config_py = config_py();
    let config_py_example = config_py_example();

    let file = "example/foo.py";
    assert!(config_py.matches(&get_filetype(file), file));
    assert!(config_py_example.matches(&get_filetype(file), file));

    let file = "example/foo.c";
    assert!(!config_py.matches(&get_filetype(file), file));
    assert!(!config_py_example.matches(&get_filetype(file), file));

    let file = "another_dir/foo.py";
    assert!(config_py.matches(&get_filetype(file), file));
    assert!(!config_py_example.matches(&get_filetype(file), file));
}

#[test]
fn any_extension_matches_everything() {
    let cfg = Config {
        extension: FileType::Single("any".to_string()),
        files: None,
        columns: None,
        commenter: Commenter::Line { comment_char: "//".to_string(), trailing_lines: 0 },
    };
    assert!(cfg.matches("rs", "src/lib.rs"));
    assert!(cfg.matches("", "Makefile"));
}

#[test]
fn bad_pattern_is_rejected() {
    assert!(RegexList::from_patterns(&vec!["(".to_string()]).is_none());
    assert!(licensure::regexes::CompiledRegex::compile("(").is_none());
}

#[test]
fn add_exclude_keeps_old_patterns() {
    let mut list = RegexList::from_patterns(&vec![r"\.gitignore".to_string()]).expect(
        "static pattern compiles",
    );
    assert!(list.add_exclude(r".*lock"));
    assert!(list.is_match("Cargo.lock"));
    assert!(list.is_match(".gitignore"));
    assert!(!list.is_match("src/lib.rs"));
}
