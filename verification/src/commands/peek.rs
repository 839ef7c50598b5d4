//! The table that lists the tracker's issues, built with `comfy_table`.

use vstd::prelude::*;
use comfy_table::Table;
use crate::text::{
    decimal,
    decimal_string,
    digits_value,
    is_digit,
    lemma_decimal_reads_back,
    lemma_split_first_piece,
    split_on,
    split_str,
};
use crate::trackers::tracker::Issue;

verus! {

/// Declares `comfy_table::Table`.
#[verifier::external_type_specification]
#[verifier::external_body]
pub struct ExTable(comfy_table::Table);

/// The cell contents of a table's header row, if it has one.
pub uninterp spec fn table_header(table: Table) -> Option<Seq<Seq<char>>>;

/// The cell contents of a table's rows, in order.
pub uninterp spec fn table_rows(table: Table) -> Seq<Seq<Seq<char>>>;

/// `comfy_table::Table::new`. Claimed: the new table has no header and no rows.
#[verifier::external_body]
fn new_table() -> (table: Table)
    ensures
        table_header(table) is None,
        table_rows(table) == Seq::<Seq<Seq<char>>>::empty(),
{
    Table::new()
}

/// `comfy_table::Table::set_header` with one cell per string. Claimed: the header
/// becomes those cells, whose contents read back as the strings (a cell cuts its text
/// at `\n` and `Cell::content` joins it again); the rows stay.
#[verifier::external_body]
fn set_table_header(table: &mut Table, cells: Vec<String>)
    ensures
        table_header(*final(table)) == Some(cells.deep_view()),
        table_rows(*final(table)) == table_rows(*old(table)),
{
    table.set_header(cells);
}

/// `comfy_table::Table::add_row` with one cell per string. Claimed: the row of those
/// cells comes last; the header and the earlier rows stay.
#[verifier::external_body]
fn add_table_row(table: &mut Table, cells: Vec<String>)
    ensures
        table_header(*final(table)) == table_header(*old(table)),
        table_rows(*final(table)) == table_rows(*old(table)).push(cells.deep_view()),
{
    table.add_row(cells);
}

/// The text of an issue's row before it is cut into cells at `|`.
pub open spec fn issue_row_text(number: u32, html_url: Seq<char>, title: Seq<char>) -> Seq<char> {
    decimal(number as nat) + "|"@ + html_url + "|"@ + title
}

/// The cells of an issue's row: its number, url and title, cut at every `|`.
pub open spec fn issue_row(issue: Issue) -> Seq<Seq<char>> {
    split_on(issue_row_text(issue.number, issue.html_url@, issue.title@), "|"@)
}

/// The header of the table of issues.
pub open spec fn issue_table_header() -> Seq<Seq<char>> {
    seq!["Id"@, "Url"@, "Title"@]
}

/// Lists the issues under the header `Id | Url | Title`, one row each, in order.
pub fn create_table_from_issues(issues: Vec<Issue>) -> (table: Table)
    ensures
        table_header(table) == Some(issue_table_header()),
        table_rows(table) == issues@.map_values(|issue: Issue| issue_row(issue)),
        forall|k: int|
            0 <= k < issues@.len() ==> digits_value(#[trigger] table_rows(table)[k][0])
                == issues@[k].number,
{
    let mut table = new_table();
    let mut header: Vec<String> = Vec::new();
    header.push(String::from_str("Id"));
    header.push(String::from_str("Url"));
    header.push(String::from_str("Title"));
    proof {
        assert(header.deep_view() =~= issue_table_header());
    }
    set_table_header(&mut table, header);
    let n = issues.len();
    let mut i: usize = 0;
    proof {
        assert(table_rows(table) =~= issues@.take(0).map_values(|issue: Issue| issue_row(issue)));
    }
    while i < n
        invariant
            n == issues@.len(),
            0 <= i <= n,
            table_header(table) == Some(issue_table_header()),
            table_rows(table) == issues@.take(i as int).map_values(|issue: Issue| issue_row(issue)),
        decreases n - i,
    {
        let issue = &issues[i];
        let mut text = decimal_string(issue.number as u64);
        text.append("|");
        text.append(issue.html_url.as_str());
        text.append("|");
        text.append(issue.title.as_str());
        proof {
            reveal_strlit("|");
        }
        let cells = split_str(text.as_str(), "|");
        let ghost before = table_rows(table);
        add_table_row(&mut table, cells);
        i = i + 1;
        proof {
            assert(issues@.take(i as int).map_values(|issue: Issue| issue_row(issue)) =~= before.push(
                issue_row(issues@[i - 1]),
            ));
        }
    }
    proof {
        assert(issues@.take(n as int) =~= issues@);
        assert forall|k: int| 0 <= k < issues@.len() implies digits_value(
            #[trigger] table_rows(table)[k][0],
        ) == issues@[k].number by {
            lemma_id_cell_is_number(issues@[k]);
        }
    }
    table
}

/// The Id cell of an issue's row is the issue's number in decimal, most significant
/// digit first: digits only, spelling the number, with no leading zero but for 0.
pub proof fn lemma_id_cell_is_number(issue: Issue)
    ensures
        issue_row(issue).len() >= 2,
        issue_row(issue)[0].len() >= 1,
        forall|j: int|
            0 <= j < issue_row(issue)[0].len() ==> is_digit(#[trigger] issue_row(issue)[0][j]),
        digits_value(issue_row(issue)[0]) == issue.number,
        issue_row(issue)[0][0] == '0' ==> issue.number == 0,
{
    reveal_strlit("|");
    let d = decimal(issue.number as nat);
    lemma_decimal_reads_back(issue.number as nat);
    let rest = issue.html_url@ + "|"@ + issue.title@;
    assert(issue_row_text(issue.number, issue.html_url@, issue.title@) =~= d + "|"@ + rest);
    assert forall|j: int| 0 <= j < d.len() implies d[j] != "|"@[0] by {
        assert(is_digit(d[j]));
    }
    lemma_split_first_piece(d, "|"@, rest);
}

} // verus!
