use snitch::commands::peek::create_table_from_issues;
use snitch::trackers::tracker::Issue;

fn setup() -> Vec<Issue> {
    let example_issue_a = Issue {
        number: 1,
        html_url: "exampleurla.nowhere.io".to_string(),
        title: "Example Title A".to_string(),
        state: "open".to_string(),
    };
    let example_issue_b = Issue {
        number: 2,
        html_url: "exampleurlb.nowhere.io".to_string(),
        title: "Example Title B".to_string(),
        state: "open".to_string(),
    };
    let example_issue_c = Issue {
        number: 3,
        html_url: "exampleurlc.nowhere.io".to_string(),
        title: "Example Title C".to_string(),
        state: "open".to_string(),
    };

    let issues = vec![
        example_issue_a.clone(),
        example_issue_b.clone(),
        example_issue_c.clone()
    ];

    issues
}

#[test]
fn maps_each_issue_field_to_the_expected_header() {
    let issues = setup();

    let table = create_table_from_issues(issues.clone());

    let headers = vec!["Id", "Url", "Title"];

    for (row_index, row) in table.row_iter().enumerate() {

        for (cell_index, cell) in row.cell_iter().enumerate() {
            let content = cell.content();

            match headers[cell_index] {
                "Id" => {
                    assert_eq!(issues[row_index].number.to_string(), content, "The issue number should match");
                },
                "Url" => {
                    assert_eq!(issues[row_index].html_url, content, "The issue URL should match");
                },
                "Title" => {
                    assert_eq!(issues[row_index].title, content, "The issue title should match");
                },
                _ => {
                    assert!(false, "Row content should map to a header");
                }
            }
        }
    }
}

#[test]
fn has_the_header_and_one_row_per_issue() {
    let table = create_table_from_issues(setup());
    let header: Vec<String> = table.header().unwrap().cell_iter().map(|c| c.content()).collect();
    assert_eq!(header, vec!["Id", "Url", "Title"]);
    assert_eq!(table.row_iter().count(), 3);
}

#[test]
fn splits_a_title_with_a_bar_into_more_cells() {
    let issue = Issue {
        number: 9,
        html_url: "u".to_string(),
        title: "a|b".to_string(),
        state: "open".to_string(),
    };
    let table = create_table_from_issues(vec![issue]);
    let row: Vec<String> = table.row_iter().next().unwrap().cell_iter().map(|c| c.content()).collect();
    assert_eq!(row, vec!["9", "u", "a", "b"]);
}
