use snitch::dir::filepaths_from_listing;
use snitch::helpers::build_string_query;
use snitch::issue::structure_issue;
use snitch::patterns::{is_tagged_issue_line, is_untagged_issue_line};
use snitch::text::{decimal_string, join_strings, parse_usize, signed_decimal_string, split_str};
use snitch::todo::structure_todo;

#[test]
fn splits_like_str_split() {
    for (s, sep) in [("a:b:c", ":"), ("", ":"), (":", ":"), ("a::b", "::"), ("x: y: z", ": "), ("abc", "|")] {
        let expected: Vec<String> = s.split(sep).map(String::from).collect();
        assert_eq!(split_str(s, sep), expected, "{:?} at {:?}", s, sep);
    }
}

#[test]
fn joins_what_it_splits() {
    let s = "one\ntwo\n\nthree\n";
    assert_eq!(join_strings(&split_str(s, "\n"), "\n"), s);
    assert_eq!(join_strings(&vec![], ", "), "");
}

#[test]
fn writes_decimals() {
    assert_eq!(decimal_string(0), "0");
    assert_eq!(decimal_string(650), "650");
    assert_eq!(decimal_string(u64::MAX), u64::MAX.to_string());
    assert_eq!(signed_decimal_string(-42), "-42");
    assert_eq!(signed_decimal_string(i64::MIN), i64::MIN.to_string());
}

#[test]
fn parses_like_str_parse() {
    for s in ["0", "10", "+7", "", "+", "-1", "1 ", "18446744073709551615", "18446744073709551616", "00012"] {
        assert_eq!(parse_usize(s), s.parse::<usize>().ok(), "{:?}", s);
    }
}

#[test]
fn builds_query_strings() {
    assert_eq!(build_string_query(vec![("per_page", "10")]), "per_page=10&");
    assert_eq!(build_string_query(vec![("a", "1"), ("b", "2")]), "a=1&b=2&");
    assert_eq!(build_string_query(vec![]), "");
}

#[test]
fn structures_issues_and_todos() {
    let issue = structure_issue(String::from("// TODO: fix it"), 3);
    assert_eq!(issue.id, 3);
    assert_eq!(issue.description, " fix it");
    assert_eq!(issue.issue_line, "// TODO(#3): fix it");
    assert_eq!(issue.complete, 0);
    let todo = structure_todo(String::from("TODO: x: y"), -1);
    assert_eq!(todo.description, " x");
    assert_eq!(todo.todo_line, "TODO(#-1): x");
}

#[test]
fn classifies_lines() {
    assert!(is_untagged_issue_line("// TODO: write tests"));
    assert!(!is_untagged_issue_line("// TODO(#3): write tests"));
    assert!(is_tagged_issue_line("// TODO(#3): write tests"));
    assert!(!is_tagged_issue_line("// TODO: write tests"));
    assert!(!is_untagged_issue_line("// TODO:no space"));
    assert!(is_untagged_issue_line("// TODO: "));
    assert!(is_untagged_issue_line("a: TODO: b"));
    assert!(is_tagged_issue_line("TODO(#12):"));
    assert!(!is_tagged_issue_line("TODO(#):x"));
    assert!(!is_tagged_issue_line("TODO(#1x):x"));
}

#[test]
fn lists_the_nonempty_paths() {
    assert_eq!(
        filepaths_from_listing("./src/main.rs\n./src/cli.rs\n\n"),
        vec!["./src/main.rs".to_string(), "./src/cli.rs".to_string()]
    );
    assert!(filepaths_from_listing("").is_empty());
}
