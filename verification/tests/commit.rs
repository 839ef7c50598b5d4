use snitch::commands::commit::{format_commit_message, format_issues};

fn str_to_string(val: &str) -> String {
    String::from(val)
}

fn setup() -> Vec<String> {
    let test_issues: Vec<String> =
        vec![str_to_string("1"), str_to_string("2"), str_to_string("3")];

    test_issues
}

#[test]
fn formats_issues() {
    let test_issues = setup();

    let formatted_issues = format_issues(test_issues);

    let expectation = true;
    let reality = formatted_issues == "#1, #2, #3";

    assert_eq!(expectation, reality, "Issues should be formatted properly");
}

#[test]
fn formats_a_adding_commit_message() {
    let test_issues = setup();

    let formatted_issues = format_issues(test_issues);

    let commit_message = format_commit_message("Adding", &formatted_issues);

    let expectation = true;
    let reality = commit_message == "Adding issues: #1, #2, #3";

    assert_eq!(expectation, reality);
}

#[test]
fn formats_a_removing_commit_message() {
    let test_issues = setup();

    let formatted_issues = format_issues(test_issues);

    let commit_message = format_commit_message("Removing", &formatted_issues);

    let expectation = true;
    let reality = commit_message == "Removing issues: #1, #2, #3";

    assert_eq!(expectation, reality);
}

#[test]
fn formats_a_single_issue() {
    assert_eq!(format_issues(vec![str_to_string("42")]), "#42");
}

#[test]
fn formats_no_issues_as_a_lone_hash() {
    assert_eq!(format_issues(vec![]), "#");
}

#[test]
fn uses_the_singular_for_an_empty_issue_list() {
    assert_eq!(format_commit_message("Added", &String::new()), "Added issue: ");
    assert_eq!(format_commit_message("Removed", &String::from("#7")), "Removed issues: #7");
}
