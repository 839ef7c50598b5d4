use snitch::commands::audit::{parse_issue_number_from_line, AuditScan};
use snitch::commands::snitch::tag_issue_line;
use snitch::patterns::is_tagged_issue_line;

/// Drives an audit as the command does, last line first, with a tracker that
/// answers each issue number with the state `states` gives it.
fn find_and_check_tracked_issues(file: &str, states: &[(&str, &str)]) -> (String, Vec<String>, Vec<String>) {
    let mut scan = AuditScan::new(file);
    let mut asked = Vec::new();
    while let Some(number) = scan.next_check() {
        let state = states
            .iter()
            .find(|(n, _)| *n == number.as_str())
            .map(|(_, s)| *s)
            .unwrap_or("open");
        asked.push(number);
        scan.record_state(state);
    }
    let (file, removed) = scan.finish();
    (file, removed, asked)
}

#[test]
fn test() {
    // The audit of a project reaches the tracker; its decisions are tested below.
}

#[test]
fn removes_the_lines_of_closed_issues() {
    let file = "function returnUndefined() {\n    return;\n}\n\n// TODO(#1): return something\nfunction returnSomething() {\n    return \"something\"\n}";
    let (updated, removed, asked) = find_and_check_tracked_issues(file, &[("1", "closed")]);
    assert_eq!(
        updated,
        "function returnUndefined() {\n    return;\n}\n\nfunction returnSomething() {\n    return \"something\"\n}"
    );
    assert_eq!(removed, vec!["1".to_string()]);
    assert_eq!(asked, vec!["1".to_string()]);
}

#[test]
fn keeps_the_lines_of_open_issues() {
    let file = "a\n// TODO(#4):open one\n// TODO(#5):closed one\nb";
    let (updated, removed, asked) =
        find_and_check_tracked_issues(file, &[("4", "open"), ("5", "closed")]);
    assert_eq!(updated, "a\n// TODO(#4):open one\nb");
    assert_eq!(removed, vec!["5".to_string()]);
    assert_eq!(asked, vec!["5".to_string(), "4".to_string()]);
}

#[test]
fn leaves_a_file_unchanged_when_nothing_is_closed() {
    let file = "x\n// TODO(#9):still open\n// TODO: untracked\n";
    let (updated, removed, _) = find_and_check_tracked_issues(file, &[]);
    assert_eq!(updated, file);
    assert!(removed.is_empty());
}

#[test]
fn takes_the_first_run_of_digits_as_the_number() {
    assert_eq!(parse_issue_number_from_line("// TODO(#123):x").as_deref(), Some("123"));
    assert_eq!(parse_issue_number_from_line("v2 TODO(#5):x").as_deref(), Some("2"));
    assert_eq!(parse_issue_number_from_line("no digits"), None);
}

#[test]
fn lists_the_closed_issues_last_line_first() {
    let file = "a\n// TODO(#1):x\n// TODO(#2):y\nb";
    let (updated, removed, asked) =
        find_and_check_tracked_issues(file, &[("1", "closed"), ("2", "closed")]);
    assert_eq!(updated, "a\nb");
    assert_eq!(removed, vec!["2".to_string(), "1".to_string()]);
    assert_eq!(asked, vec!["2".to_string(), "1".to_string()]);
}

#[test]
fn reads_back_the_number_that_snitch_wrote() {
    let tagged = tag_issue_line("    // TODO: handle errors", 314);
    assert_eq!(tagged, "    // TODO(#314): handle errors");
    assert!(is_tagged_issue_line(&tagged));
    assert_eq!(parse_issue_number_from_line(&tagged).as_deref(), Some("314"));
    let (updated, removed, asked) =
        find_and_check_tracked_issues(&format!("a\n{}\nb", tagged), &[("314", "closed")]);
    assert_eq!(updated, "a\nb");
    assert_eq!(removed, vec!["314".to_string()]);
    assert_eq!(asked, vec!["314".to_string()]);
}
