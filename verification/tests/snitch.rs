use snitch::commands::snitch::{parse_context_from_line, tag_issue_line, SnitchScan};

/// Drives a scan as the command does, with a tracker that numbers the created issues
/// from `first_number` on.
fn find_and_track_issues(file: String, first_number: u32) -> (String, Vec<String>, Vec<String>) {
    let mut scan = SnitchScan::new(file.as_str());
    let mut titles = Vec::new();
    let mut number = first_number;
    while let Some(description) = scan.next_report() {
        titles.push(description);
        scan.record_issue(number);
        number += 1;
    }
    let (updated, issues) = scan.finish();
    (updated, issues, titles)
}

#[test]
fn parses_prefix_and_description() {
    let issue_line = "TODO: figure out more convenient macros for testing";

    let (prefix, description) = parse_context_from_line(issue_line);

    let expectation = true;
    let reality = format!("{}: {}", prefix, description) == issue_line;

    assert_eq!(
        expectation, reality,
        "The prefix and description rebuilt, should match the original line"
    );
}

#[test]
fn matches_and_updates_issue_lines() {
    let file = String::from(
        "line 1\nline 2\nTODO: example todo\nline 4\nTODO: final example todo",
    );

    let (updated_file, new_issues, _) = find_and_track_issues(file.clone(), 650);

    let reality = true;
    let expectation_1 = file.len() < updated_file.len();
    assert_eq!(expectation_1, reality);

    let expectation_2 = new_issues.len() == 2;
    assert_eq!(expectation_2, reality);
}

#[test]
fn handles_empty_files_gracefully() {
    let file = String::from("");

    let (updated_file, new_issues, _) = find_and_track_issues(file.clone(), 1);

    let reality = true;
    let expectation_1 = file.len() == updated_file.len();
    assert_eq!(
        expectation_1, reality,
        "The updated file should be exactly the same"
    );

    let expectation_2 = new_issues.is_empty();
    assert_eq!(expectation_2, reality, "There should be 0 matched issues");
}

#[test]
fn rewrites_each_reported_line_in_order() {
    let file = String::from("line 1\n// TODO: first\nline 3\n  TODO: second one\n");
    let (updated, issues, titles) = find_and_track_issues(file, 7);
    assert_eq!(titles, vec!["first".to_string(), "second one".to_string()]);
    assert_eq!(issues, vec!["7".to_string(), "8".to_string()]);
    assert_eq!(
        updated,
        "line 1\n// TODO(#7): first\nline 3\n  TODO(#8): second one\n"
    );
}

#[test]
fn leaves_a_file_without_reports_unchanged() {
    let file = String::from("fn main() {}\n// TODO(#3):done - url\n\nlast");
    let (updated, issues, titles) = find_and_track_issues(file.clone(), 1);
    assert_eq!(updated, file);
    assert!(issues.is_empty());
    assert!(titles.is_empty());
}

#[test]
fn keeps_only_the_second_piece_as_description() {
    let (prefix, description) = parse_context_from_line("// TODO: a: b");
    assert_eq!(prefix, "// TODO");
    assert_eq!(description, "a");
    assert_eq!(tag_issue_line("// TODO: a: b", 12), "// TODO(#12): a");
}

#[test]
fn ties_the_readme_example_to_its_issue() {
    let file = String::from("function returnUndefined() {\n    return;\n}\n\n// TODO: return something\nfunction returnSomething() {\n    return \"something\"\n}");
    let (updated, issues, titles) = find_and_track_issues(file, 1);
    assert_eq!(
        updated,
        "function returnUndefined() {\n    return;\n}\n\n// TODO(#1): return something\nfunction returnSomething() {\n    return \"something\"\n}"
    );
    assert_eq!(issues, vec!["1".to_string()]);
    assert_eq!(titles, vec!["return something".to_string()]);
}

#[test]
fn lowercase_todo_is_not_reported() {
    let (updated, issues, _) = find_and_track_issues(String::from("todo: later"), 1);
    assert_eq!(updated, "todo: later");
    assert!(issues.is_empty());
}

#[test]
fn a_second_run_reports_nothing() {
    let file = String::from("a: TODO: b: c\n// TODO: one\nx\n  TODO: two: more\n");
    let (once, issues, _) = find_and_track_issues(file, 40);
    assert_eq!(once, "a(#40): TODO\n// TODO(#41): one\nx\n  TODO(#42): two\n");
    assert_eq!(issues.len(), 3);
    let (twice, more, titles) = find_and_track_issues(once.clone(), 90);
    assert_eq!(twice, once);
    assert!(more.is_empty());
    assert!(titles.is_empty());
}
