//! Reporting of untracked `TODO:` lines: which lines get reported, in what order, and
//! how each reads once its issue exists. The tracker itself is reached by the caller,
//! which hands each created issue back to [`SnitchScan::record_issue`].

use vstd::prelude::*;
use crate::patterns::{has_untagged_marker, is_untagged_issue, is_untagged_issue_line, no_newline_before};
use crate::text::{
    decimal,
    decimal_string,
    digits_value,
    first_two_pieces,
    is_digit,
    join_strings,
    join_with,
    lemma_decimal_digits,
    lemma_decimal_reads_back,
    lemma_join_split,
    lemma_split_join_char,
    lemma_split_nonempty,
    lemma_split_pieces_avoid,
    lemma_split_pieces_free,
    occurs_at,
    split_on,
    split_str,
};

verus! {

/// The prefix and the description of an issue line: the text before its first `: `
/// and the text from there up to the next `: `.
pub fn parse_context_from_line(line: &str) -> (res: (String, String))
    requires
        split_on(line@, ": "@).len() >= 2,
    ensures
        res.0@ == split_on(line@, ": "@)[0],
        res.1@ == split_on(line@, ": "@)[1],
{
    proof {
        reveal_strlit(": ");
    }
    first_two_pieces(line, ": ")
}

/// A line with a single `: ` is its prefix, then `: `, then its description.
pub proof fn lemma_context_rebuilds_line(line: Seq<char>)
    requires
        split_on(line, ": "@).len() == 2,
    ensures
        split_on(line, ": "@)[0] + ": "@ + split_on(line, ": "@)[1] == line,
{
    reveal_strlit(": ");
    lemma_join_split(line, ": "@);
    let p = split_on(line, ": "@);
    assert(p.drop_first() =~= seq![p[1]]);
    assert(join_with(p.drop_first(), ": "@) == p[1]);
    assert(join_with(p, ": "@) == p[0] + ": "@ + join_with(p.drop_first(), ": "@));
}

/// A reported line once its issue exists: `<prefix>(#<number>): <description>`.
pub open spec fn tracked_issue_line(line: Seq<char>, number: u32) -> Seq<char> {
    let pieces = split_on(line, ": "@);
    pieces[0] + "(#"@ + decimal(number as nat) + "): "@ + pieces[1]
}

/// How many of the first `n` lines report an untracked issue.
pub open spec fn untagged_count(lines: Seq<Seq<char>>, n: int) -> nat
    decreases n,
{
    if n <= 0 {
        0
    } else {
        untagged_count(lines, n - 1) + if is_untagged_issue(lines[n - 1]) {
            1nat
        } else {
            0nat
        }
    }
}

/// The first `n` lines once reported: the k-th line that reports an issue reads as
/// tied to `created[k]`, the number of the issue the tracker created for it; other
/// lines stay as they are.
pub open spec fn snitched_lines(
    lines: Seq<Seq<char>>,
    created: Seq<u32>,
    n: int,
) -> Seq<Seq<char>>
    decreases n,
{
    if n <= 0 {
        Seq::empty()
    } else {
        let line = lines[n - 1];
        snitched_lines(lines, created, n - 1).push(
            if is_untagged_issue(line) {
                tracked_issue_line(line, created[untagged_count(lines, n - 1) as int])
            } else {
                line
            },
        )
    }
}

/// The numbers of the created issues, in decimal.
pub open spec fn issue_numbers(created: Seq<u32>) -> Seq<Seq<char>> {
    created.map_values(|number: u32| decimal(number as nat))
}

/// Rewrites a reported line for the issue the tracker created for it.
pub fn tag_issue_line(line: &str, number: u32) -> (res: String)
    requires
        split_on(line@, ": "@).len() >= 2,
    ensures
        res@ == tracked_issue_line(line@, number),
{
    let (prefix, description) = parse_context_from_line(line);
    let mut res = prefix;
    res.append("(#");
    res.append(decimal_string(number as u64).as_str());
    res.append("): ");
    res.append(description.as_str());
    res
}

/// The progress of reporting the untracked issues of one file.
pub struct SnitchScan {
    lines: Vec<String>,
    out: Vec<String>,
    issues: Vec<String>,
    pos: usize,
    awaiting: bool,
    created: Ghost<Seq<u32>>,
}

impl SnitchScan {
    /// The lines of the file, as read.
    pub closed spec fn lines(&self) -> Seq<Seq<char>> {
        self.lines.deep_view()
    }

    /// The numbers of the issues created so far, in the order of their lines.
    pub closed spec fn created(&self) -> Seq<u32> {
        self.created@
    }

    /// How many lines have been dealt with.
    pub closed spec fn position(&self) -> int {
        self.pos as int
    }

    /// Whether the line at `position` was handed out and waits for its issue.
    pub closed spec fn is_awaiting(&self) -> bool {
        self.awaiting
    }

    /// The scan's fields agree with the lines and the issues created so far.
    pub closed spec fn wf(&self) -> bool {
        &&& self.pos <= self.lines.len()
        &&& self.out.deep_view() == snitched_lines(self.lines(), self.created@, self.pos as int)
        &&& self.created@.len() == untagged_count(self.lines(), self.pos as int)
        &&& self.issues.deep_view() == issue_numbers(self.created@)
        &&& self.awaiting ==> self.pos < self.lines.len() && is_untagged_issue(
            self.lines()[self.pos as int],
        )
    }

    /// Starts on `file`, cut into lines at `\n`.
    pub fn new(file: &str) -> (scan: Self)
        ensures
            scan.wf(),
            scan.lines() == split_on(file@, "\n"@),
            scan.created() == Seq::<u32>::empty(),
            scan.position() == 0,
            !scan.is_awaiting(),
    {
        proof {
            reveal_strlit("\n");
        }
        let lines = split_str(file, "\n");
        let scan = SnitchScan {
            lines,
            out: Vec::new(),
            issues: Vec::new(),
            pos: 0,
            awaiting: false,
            created: Ghost(Seq::empty()),
        };
        proof {
            assert(scan.out.deep_view() =~= Seq::<Seq<char>>::empty());
            assert(scan.issues.deep_view() =~= issue_numbers(scan.created@));
        }
        scan
    }

    /// Moves to the next line that reports an untracked issue and hands out its
    /// description, the title of the issue to create; `None` once no such line is left.
    pub fn next_report(&mut self) -> (res: Option<String>)
        requires
            old(self).wf(),
            !old(self).is_awaiting(),
        ensures
            final(self).wf(),
            final(self).lines() == old(self).lines(),
            final(self).created() == old(self).created(),
            old(self).position() <= final(self).position(),
            forall|j: int|
                old(self).position() <= j < final(self).position() ==> !is_untagged_issue(
                    #[trigger] old(self).lines()[j],
                ),
            match res {
                Some(description) => {
                    &&& final(self).is_awaiting()
                    &&& final(self).position() < final(self).lines().len()
                    &&& is_untagged_issue(final(self).lines()[final(self).position()])
                    &&& description@ == split_on(
                        final(self).lines()[final(self).position()],
                        ": "@,
                    )[1]
                },
                None => !final(self).is_awaiting() && final(self).position()
                    == final(self).lines().len(),
            },
    {
        let n = self.lines.len();
        while self.pos < n
            invariant
                self.wf(),
                !self.awaiting,
                n == self.lines.len(),
                self.lines() == old(self).lines(),
                self.created@ == old(self).created@,
                old(self).pos <= self.pos,
                forall|j: int|
                    old(self).pos <= j < self.pos ==> !is_untagged_issue(
                        #[trigger] old(self).lines()[j],
                    ),
            decreases n - self.pos,
        {
            let i = self.pos;
            if is_untagged_issue_line(self.lines[i].as_str()) {
                let (_, description) = parse_context_from_line(self.lines[i].as_str());
                self.awaiting = true;
                return Some(description);
            }
            let line = self.lines[i].clone();
            let ghost before = self.out.deep_view();
            self.out.push(line);
            self.pos = i + 1;
            proof {
                assert(self.out.deep_view() =~= before.push(self.lines()[i as int]));
            }
        }
        None
    }

    /// Records the number of the issue the tracker created for the awaited line: the
    /// line is tied to it, and the number joins the list of reported issues.
    pub fn record_issue(&mut self, number: u32)
        requires
            old(self).wf(),
            old(self).is_awaiting(),
        ensures
            final(self).wf(),
            final(self).lines() == old(self).lines(),
            final(self).created() == old(self).created().push(number),
            final(self).position() == old(self).position() + 1,
            !final(self).is_awaiting(),
    {
        let i = self.pos;
        let tagged = tag_issue_line(self.lines[i].as_str(), number);
        let ghost before_out = self.out.deep_view();
        let ghost before_issues = self.issues.deep_view();
        let ghost before_created = self.created@;
        self.out.push(tagged);
        self.issues.push(decimal_string(number as u64));
        self.created = Ghost(self.created@.push(number));
        self.pos = i + 1;
        self.awaiting = false;
        proof {
            assert(self.out.deep_view() =~= before_out.push(
                tracked_issue_line(self.lines()[i as int], number),
            ));
            assert(self.created@[before_created.len() as int] == number);
            assert(self.issues.deep_view() =~= before_issues.push(decimal(number as nat)));
            assert(issue_numbers(self.created@) =~= issue_numbers(before_created).push(
                decimal(number as nat),
            ));
            assert(snitched_lines(self.lines(), before_created, i as int) =~= snitched_lines(
                self.lines(),
                self.created@,
                i as int,
            )) by {
                lemma_snitched_lines_extend(self.lines(), before_created, self.created@, i as int);
            }
        }
    }

    /// The file with every reported line rewritten, joined again at `\n`, and the
    /// numbers of the created issues.
    pub fn finish(self) -> (res: (String, Vec<String>))
        requires
            self.wf(),
            self.position() == self.lines().len(),
        ensures
            res.0@ == join_with(
                snitched_lines(self.lines(), self.created(), self.lines().len() as int),
                "\n"@,
            ),
            res.1.deep_view() == issue_numbers(self.created()),
            res.1.len() == untagged_count(self.lines(), self.lines().len() as int),
            forall|k: int|
                0 <= k < self.created().len() ==> digits_value(#[trigger] res.1.deep_view()[k])
                    == self.created()[k],
    {
        let file = join_strings(&self.out, "\n");
        proof {
            assert(self.issues.deep_view().len() == self.issues.len());
            assert(issue_numbers(self.created@).len() == self.created@.len());
            lemma_issue_numbers_read_back(self.created@);
        }
        (file, self.issues)
    }
}

/// The lines so far only read the issues created for them, so more issues change none.
proof fn lemma_snitched_lines_extend(
    lines: Seq<Seq<char>>,
    created: Seq<u32>,
    more: Seq<u32>,
    n: int,
)
    requires
        0 <= n <= lines.len(),
        untagged_count(lines, n) <= created.len(),
        created.len() <= more.len(),
        forall|k: int| 0 <= k < created.len() ==> more[k] == created[k],
    ensures
        snitched_lines(lines, created, n) == snitched_lines(lines, more, n),
    decreases n,
{
    if n > 0 {
        lemma_snitched_lines_extend(lines, created, more, n - 1);
    }
}


/// Reporting rewrites exactly the lines that report an issue: the i-th line, if it
/// reports one, reads as tied to the issue created for it, in the order of the lines;
/// every other line is left as it is, and no line is added or lost.
pub proof fn lemma_snitched_lines_each(
    lines: Seq<Seq<char>>,
    created: Seq<u32>,
    n: int,
)
    requires
        0 <= n <= lines.len(),
    ensures
        snitched_lines(lines, created, n).len() == n,
        forall|i: int|
            0 <= i < n ==> #[trigger] snitched_lines(lines, created, n)[i] == if is_untagged_issue(
                lines[i],
            ) {
                tracked_issue_line(lines[i], created[untagged_count(lines, i) as int])
            } else {
                lines[i]
            },
    decreases n,
{
    if n > 0 {
        lemma_snitched_lines_each(lines, created, n - 1);
    }
}

/// A file with no line that reports an untracked issue comes back unchanged.
pub proof fn lemma_unreported_file_unchanged(file: Seq<char>, created: Seq<u32>)
    requires
        forall|i: int|
            0 <= i < split_on(file, "\n"@).len() ==> !is_untagged_issue(
                #[trigger] split_on(file, "\n"@)[i],
            ),
    ensures
        join_with(
            snitched_lines(split_on(file, "\n"@), created, split_on(file, "\n"@).len() as int),
            "\n"@,
        ) == file,
{
    reveal_strlit("\n");
    let lines = split_on(file, "\n"@);
    lemma_snitched_lines_each(lines, created, lines.len() as int);
    assert(snitched_lines(lines, created, lines.len() as int) =~= lines);
    lemma_join_split(file, "\n"@);
}


/// A reported line, once tied to its issue, no longer reports one: its only `: ` now
/// follows the `)` of the issue number, so `TODO: ` is gone.
pub proof fn lemma_tracked_line_not_reported(line: Seq<char>, number: u32)
    requires
        split_on(line, ": "@).len() >= 2,
    ensures
        !has_untagged_marker(tracked_issue_line(line, number)),
{
    reveal_strlit(": ");
    reveal_strlit("(#");
    reveal_strlit("): ");
    reveal_strlit("TODO: ");
    let p = split_on(line, ": "@);
    let a = p[0];
    let b = p[1];
    let d = decimal(number as nat);
    lemma_decimal_digits(number as nat);
    lemma_split_pieces_free(line, ": "@);
    let t = tracked_issue_line(line, number);
    let q: int = a.len() + 3int + d.len();
    assert(t.len() == q + 2 + b.len());
    assert forall|k: int| 0 <= k < a.len() implies t[k] == a[k] by {}
    assert forall|k: int| a.len() + 2 <= k < a.len() + 2 + d.len() implies t[k] == d[k - a.len()
        - 2] by {}
    assert forall|k: int| q + 2 <= k < t.len() implies t[k] == b[k - q - 2] by {}
    assert(t[a.len() as int] == '(');
    assert(t[a.len() + 1int] == '#');
    assert(t[q - 1] == ')');
    assert(t[q] == ':');
    assert(t[q + 1] == ' ');
    if has_untagged_marker(t) {
        let i = choose|i: int| occurs_at(t, "TODO: "@, i) && no_newline_before(t, i);
        let k = i + 4;
        assert(t.subrange(i, i + 6)[3] == 'O');
        assert(t.subrange(i, i + 6)[4] == ':');
        assert(t.subrange(i, i + 6)[5] == ' ');
        assert(t[k - 1] == 'O' && t[k] == ':' && t[k + 1] == ' ');
        if k + 1 < a.len() {
            assert(a.subrange(k, k + 2) =~= ": "@);
            assert(occurs_at(p[0], ": "@, k));
        } else if a.len() + 2 <= k < a.len() + 2 + d.len() {
            assert(is_digit(d[k - a.len() - 2]));
        } else if k >= q + 2 {
            let kb = k - q - 2;
            assert(b.subrange(kb, kb + 2) =~= ": "@);
            assert(occurs_at(p[1], ": "@, kb));
        }
    }
}

/// The file once reported: its lines cut at `\n`, each reported line tied to the issue
/// created for it, joined again at `\n`.
pub open spec fn snitched_file(file: Seq<char>, created: Seq<u32>) -> Seq<char> {
    let lines = split_on(file, "\n"@);
    join_with(snitched_lines(lines, created, lines.len() as int), "\n"@)
}

/// How many lines of a file report an untracked issue: the issues a run creates.
pub open spec fn reported_count(file: Seq<char>) -> nat {
    let lines = split_on(file, "\n"@);
    untagged_count(lines, lines.len() as int)
}

/// A reported line with no line break holds none once tied to its issue either.
proof fn lemma_tracked_line_one_line(line: Seq<char>, number: u32)
    requires
        split_on(line, ": "@).len() >= 2,
        forall|j: int| 0 <= j < line.len() ==> line[j] != '\n',
    ensures
        forall|j: int|
            0 <= j < tracked_issue_line(line, number).len() ==> #[trigger] tracked_issue_line(
                line,
                number,
            )[j] != '\n',
{
    reveal_strlit(": ");
    reveal_strlit("(#");
    reveal_strlit("): ");
    lemma_split_pieces_avoid(line, ": "@, '\n');
    lemma_decimal_digits(number as nat);
    let p = split_on(line, ": "@);
    let a = p[0];
    let b = p[1];
    let d = decimal(number as nat);
    let t = tracked_issue_line(line, number);
    let q: int = a.len() + 3int + d.len();
    assert forall|j: int| 0 <= j < t.len() implies t[j] != '\n' by {
        if j < a.len() {
            assert(t[j] == p[0][j]);
        } else if a.len() + 2 <= j < a.len() + 2 + d.len() {
            assert(t[j] == d[j - a.len() - 2]);
            assert(is_digit(d[j - a.len() - 2]));
        } else if j >= q + 2 {
            assert(t[j] == p[1][j - q - 2]);
        }
    }
}

/// None of the first `n` lines reports an issue, so none is counted.
proof fn lemma_untagged_count_none(lines: Seq<Seq<char>>, n: int)
    requires
        0 <= n <= lines.len(),
        forall|i: int| 0 <= i < n ==> !is_untagged_issue(#[trigger] lines[i]),
    ensures
        untagged_count(lines, n) == 0,
    decreases n,
{
    if n > 0 {
        lemma_untagged_count_none(lines, n - 1);
    }
}

/// Reporting is done once: every line that a run reports is tied to its issue and
/// reports nothing any more, so a second run on what the first one wrote creates no
/// issue and changes nothing.
pub proof fn lemma_snitch_twice_changes_nothing(
    file: Seq<char>,
    created: Seq<u32>,
    again: Seq<u32>,
)
    ensures
        reported_count(snitched_file(file, created)) == 0,
        snitched_file(snitched_file(file, created), again) == snitched_file(file, created),
{
    reveal_strlit("\n");
    let lines = split_on(file, "\n"@);
    let n = lines.len() as int;
    lemma_split_nonempty(file, "\n"@);
    lemma_split_pieces_free(file, "\n"@);
    lemma_snitched_lines_each(lines, created, n);
    let s = snitched_lines(lines, created, n);
    assert forall|i: int| 0 <= i < s.len() implies !is_untagged_issue(#[trigger] s[i]) && (forall|
        j: int,
    | 0 <= j < s[i].len() ==> s[i][j] != '\n') by {
        let l = lines[i];
        assert forall|j: int| 0 <= j < l.len() implies l[j] != '\n' by {
            if l[j] == '\n' {
                assert(l.subrange(j, j + 1) =~= "\n"@);
                assert(occurs_at(lines[i], "\n"@, j));
            }
        }
        if is_untagged_issue(l) {
            let number = created[untagged_count(lines, i) as int];
            lemma_tracked_line_not_reported(l, number);
            lemma_tracked_line_one_line(l, number);
        }
    }
    assert forall|k: int, j: int| 0 <= k < s.len() && 0 <= j < s[k].len() implies #[trigger] s[k][j]
        != '\n' by {
        assert(forall|j2: int| 0 <= j2 < s[k].len() ==> s[k][j2] != '\n');
    }
    assert("\n"@ =~= seq!['\n']);
    lemma_split_join_char(s, '\n');
    let out = join_with(s, "\n"@);
    assert(split_on(out, "\n"@) == s);
    lemma_untagged_count_none(s, n);
    lemma_unreported_file_unchanged(out, again);
}

/// The listed issues read back as the numbers of the issues created, in order: the
/// k-th entry is digits only, most significant first, and spells the k-th number.
pub proof fn lemma_issue_numbers_read_back(created: Seq<u32>)
    ensures
        issue_numbers(created).len() == created.len(),
        forall|k: int|
            0 <= k < created.len() ==> digits_value(#[trigger] issue_numbers(created)[k])
                == created[k],
        forall|k: int, j: int|
            0 <= k < created.len() && 0 <= j < issue_numbers(created)[k].len() ==> is_digit(
                #[trigger] issue_numbers(created)[k][j],
            ),
{
    assert forall|k: int| 0 <= k < created.len() implies digits_value(
        #[trigger] issue_numbers(created)[k],
    ) == created[k] by {
        lemma_decimal_reads_back(created[k] as nat);
    }
    assert forall|k: int, j: int|
        0 <= k < created.len() && 0 <= j < issue_numbers(created)[k].len() implies is_digit(
        #[trigger] issue_numbers(created)[k][j],
    ) by {
        lemma_decimal_reads_back(created[k] as nat);
    }
}

} // verus!
