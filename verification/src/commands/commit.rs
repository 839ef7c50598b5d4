//! The text of the commits that record reported or removed issues.

use vstd::prelude::*;
use crate::text::{join_with, lemma_split_join, split_on};

verus! {

/// The issue numbers, each after a `#`, separated by `, `.
pub open spec fn formatted_issues(issues: Seq<Seq<char>>) -> Seq<char> {
    "#"@ + join_with(issues, ", #"@)
}

/// The commit message for a kind of change and the formatted issues it concerns.
pub open spec fn commit_message(commit_type: Seq<char>, issues: Seq<char>) -> Seq<char> {
    commit_type + " "@ + (if issues.len() == 0 {
        "issue: "@
    } else {
        "issues: "@
    }) + issues
}

/// Lists the issue numbers as `#1, #2, #3`.
pub fn format_issues(issues: Vec<String>) -> (res: String)
    ensures
        res@ == formatted_issues(issues.deep_view()),
{
    let joined = crate::text::join_strings(&issues, ", #");
    let mut res = String::from_str("#");
    res.append(joined.as_str());
    res
}

/// Builds `<commit_type> issues: <issues>`, with `issue:` when no issue is listed.
pub fn format_commit_message(commit_type: &str, issues: &String) -> (res: String)
    ensures
        res@ == commit_message(commit_type@, issues@),
{
    let mut res = String::from_str(commit_type);
    res.append(" ");
    if issues.as_str().is_empty() {
        res.append("issue: ");
    } else {
        res.append("issues: ");
    }
    res.append(issues.as_str());
    res
}

/// Every issue appears in the list, in order and whole: the list starts with `#`, and
/// cutting the rest at `, #` gives back exactly the issues, as long as none of them
/// holds a comma.
pub proof fn lemma_formatted_issues_read_back(issues: Seq<Seq<char>>)
    requires
        issues.len() >= 1,
        forall|k: int, j: int|
            0 <= k < issues.len() && 0 <= j < issues[k].len() ==> #[trigger] issues[k][j] != ',',
    ensures
        formatted_issues(issues)[0] == '#',
        split_on(formatted_issues(issues).drop_first(), ", #"@) == issues,
{
    reveal_strlit("#");
    reveal_strlit(", #");
    assert forall|k: int, j: int|
        0 <= k < issues.len() && 0 <= j < issues[k].len() implies #[trigger] issues[k][j]
        != ", #"@[0] by {
        assert(issues[k][j] != ',');
    }
    lemma_split_join(issues, ", #"@);
    assert(formatted_issues(issues).drop_first() =~= join_with(issues, ", #"@));
}

} // verus!
