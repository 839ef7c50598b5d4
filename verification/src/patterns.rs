//! The patterns that pick out issue lines, matched by the `regex` crate.

use vstd::prelude::*;
use crate::text::{is_digit, occurs_at, split_on, split_str, string_option_view};

verus! {

/// Declares `regex::Error`, the error of a pattern that does not compile.
#[verifier::external_type_specification]
#[verifier::external_body]
pub struct ExRegexError(regex::Error);

/// Whether `regex::Regex::new` accepts `pattern`.
pub uninterp spec fn regex_compiles(pattern: Seq<char>) -> bool;

/// What `regex::Regex::is_match` answers for the compiled `pattern` on `text`.
pub uninterp spec fn regex_is_match(pattern: Seq<char>, text: Seq<char>) -> bool;

/// The text of the match that `regex::Regex::find` reports for the compiled
/// `pattern` on `text`, if any.
pub uninterp spec fn regex_find(pattern: Seq<char>, text: Seq<char>) -> Option<Seq<char>>;

/// Whether the text before position `i` holds no line break.
pub open spec fn no_newline_before(text: Seq<char>, i: int) -> bool {
    forall|j: int| 0 <= j < i ==> text[j] != '\n'
}

/// Whether the characters from `i` up to `j` are all ASCII digits.
pub open spec fn all_digits(text: Seq<char>, i: int, j: int) -> bool {
    forall|k: int| i <= k < j ==> is_digit(#[trigger] text[k])
}

/// What the untagged pattern `^(.*)TODO: (.*)` matches: `TODO: ` somewhere before
/// the first line break (`.` matches anything but `\n`, and `^` is the text's start).
pub open spec fn has_untagged_marker(text: Seq<char>) -> bool {
    exists|i: int| occurs_at(text, "TODO: "@, i) && no_newline_before(text, i)
}

/// What the tagged pattern `^(.*)TODO\(#([0-9]+)\):(.*)` matches: `TODO(#`, one or
/// more ASCII digits and `):`, starting before the first line break.
pub open spec fn has_tagged_marker(text: Seq<char>) -> bool {
    exists|i: int, j: int|
        i + 6 < j && occurs_at(text, "TODO(#"@, i) && all_digits(text, i + 6, j) && occurs_at(
            text,
            "):"@,
            j,
        ) && no_newline_before(text, i)
}

/// Where the run of digits that starts at `j` ends.
pub open spec fn digit_run_end(text: Seq<char>, j: int) -> int
    decreases text.len() - j,
{
    if 0 <= j < text.len() && is_digit(text[j]) {
        digit_run_end(text, j + 1)
    } else {
        j
    }
}

/// The first run of ASCII digits from `i` on, if any.
pub open spec fn first_digit_run_from(text: Seq<char>, i: int) -> Option<Seq<char>>
    decreases text.len() - i,
{
    if i < 0 || i >= text.len() {
        None
    } else if is_digit(text[i]) {
        Some(text.subrange(i, digit_run_end(text, i)))
    } else {
        first_digit_run_from(text, i + 1)
    }
}

/// What the number pattern `[0-9]+` finds: the leftmost run of ASCII digits, taken
/// whole (the leftmost match, and `+` is greedy).
pub open spec fn first_digit_run(text: Seq<char>) -> Option<Seq<char>> {
    first_digit_run_from(text, 0)
}

/// Compiles `pattern` with `regex::Regex::new` and asks `Regex::is_match` on `text`.
/// Claimed: it succeeds exactly when the pattern compiles, and then answers
/// `regex_is_match` of the pattern and the text. For the two patterns of issue lines
/// the answer is stated, as the `regex` syntax documents it; for other patterns it
/// is left to the `regex` crate.
#[verifier::external_body]
pub(crate) fn pattern_is_match(pattern: &str, text: &str) -> (res: Result<bool, regex::Error>)
    ensures
        res is Ok <==> regex_compiles(pattern@),
        res matches Ok(b) ==> b == regex_is_match(pattern@, text@),
        pattern@ == untagged_issue_pattern() ==> res is Ok,
        pattern@ == untagged_issue_pattern() ==> (res matches Ok(b) ==> b == has_untagged_marker(
            text@,
        )),
        pattern@ == tagged_issue_pattern() ==> res is Ok,
        pattern@ == tagged_issue_pattern() ==> (res matches Ok(b) ==> b == has_tagged_marker(
            text@,
        )),
{
    match regex::Regex::new(pattern) {
        Ok(re) => Ok(re.is_match(text)),
        Err(e) => Err(e),
    }
}

/// Compiles `pattern` with `regex::Regex::new` and asks `Regex::find` on `text`,
/// handing back the matched text (`Match::as_str`). Claimed: it succeeds exactly
/// when the pattern compiles, and then gives `regex_find` of the pattern and the
/// text. For the number pattern `[0-9]+` the match is stated, as the `regex` syntax
/// documents it; for other patterns it is left to the `regex` crate.
#[verifier::external_body]
pub(crate) fn pattern_find(pattern: &str, text: &str) -> (res: Result<Option<String>, regex::Error>)
    ensures
        res is Ok <==> regex_compiles(pattern@),
        res matches Ok(found) ==> string_option_view(found) == regex_find(pattern@, text@),
        pattern@ == issue_number_pattern() ==> res is Ok,
        pattern@ == issue_number_pattern() ==> (res matches Ok(found) ==> string_option_view(found)
            == first_digit_run(text@)),
{
    match regex::Regex::new(pattern) {
        Ok(re) => match re.find(text) {
            Some(m) => Ok(Some(m.as_str().to_string())),
            None => Ok(None),
        },
        Err(e) => Err(e),
    }
}

/// A line that reports an issue not yet tracked: `TODO: ` somewhere in it.
pub open spec fn untagged_issue_pattern() -> Seq<char> {
    "^(.*)TODO: (.*)"@
}

/// A line tied to a tracked issue: `TODO(#<number>):` somewhere in it.
pub open spec fn tagged_issue_pattern() -> Seq<char> {
    "^(.*)TODO\\(#([0-9]+)\\):(.*)"@
}

/// The issue number in a tagged line: the first run of digits.
pub open spec fn issue_number_pattern() -> Seq<char> {
    "[0-9]+"@
}

/// Whether a line reports an issue that is not tracked yet: it matches the untagged
/// pattern and has a `: ` to split at.
pub open spec fn is_untagged_issue(line: Seq<char>) -> bool {
    has_untagged_marker(line) && split_on(line, ": "@).len() >= 2
}

/// Whether a line is tied to a tracked issue: it matches the tagged pattern.
pub open spec fn is_tagged_issue(line: Seq<char>) -> bool {
    has_tagged_marker(line)
}

/// Whether a line reports an issue not tracked yet.
pub fn is_untagged_issue_line(line: &str) -> (res: bool)
    ensures
        res == is_untagged_issue(line@),
{
    let marked = match pattern_is_match("^(.*)TODO: (.*)", line) {
        Ok(b) => b,
        Err(_) => false,
    };
    if !marked {
        return false;
    }
    proof {
        reveal_strlit(": ");
    }
    split_str(line, ": ").len() >= 2
}

/// Whether a line is tied to a tracked issue.
pub fn is_tagged_issue_line(line: &str) -> (res: bool)
    ensures
        res == is_tagged_issue(line@),
{
    match pattern_is_match("^(.*)TODO\\(#([0-9]+)\\):(.*)", line) {
        Ok(b) => b,
        Err(_) => false,
    }
}

} // verus!
