//! Issues recorded for `TODO:` lines.

use vstd::prelude::*;
use crate::text::{first_two_pieces, signed_decimal, signed_decimal_string, split_on};

verus! {

/// An issue tied to a line of source.
#[derive(Debug)]
pub struct ISSUE {
    pub id: i64,
    pub description: String,
    pub issue_line: String,
    pub complete: i64,
}

/// The line once tagged with its number: `<prefix>(#<id>):<description>`.
pub open spec fn tagged_line(prefix: Seq<char>, id: int, description: Seq<char>) -> Seq<char> {
    prefix + "(#"@ + signed_decimal(id) + "):"@ + description
}

/// Builds the issue for `line`, whose text before the first `:` is the prefix and
/// whose text up to the next `:` is the description; the issue is not complete.
pub fn structure_issue(line: String, total_issues: i64) -> (issue: ISSUE)
    requires
        split_on(line@, ":"@).len() >= 2,
    ensures
        issue.id == total_issues,
        issue.description@ == split_on(line@, ":"@)[1],
        issue.issue_line@ == tagged_line(
            split_on(line@, ":"@)[0],
            total_issues as int,
            split_on(line@, ":"@)[1],
        ),
        issue.complete == 0,
{
    proof {
        reveal_strlit(":");
    }
    let (prefix, description) = first_two_pieces(line.as_str(), ":");
    let mut issue_line = prefix;
    issue_line.append("(#");
    issue_line.append(signed_decimal_string(total_issues).as_str());
    issue_line.append("):");
    issue_line.append(description.as_str());
    ISSUE { id: total_issues, description, issue_line, complete: 0 }
}

} // verus!
