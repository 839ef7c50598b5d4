//! Auditing of tracked `TODO(#n):` lines: each is checked against its issue, and the
//! lines of closed issues leave the file. The tracker itself is reached by the caller,
//! which hands each issue's state back to [`AuditScan::record_state`].

use vstd::prelude::*;
use crate::commands::snitch::tracked_issue_line;
use crate::patterns::{
    all_digits,
    digit_run_end,
    first_digit_run,
    first_digit_run_from,
    has_tagged_marker,
    is_tagged_issue,
    is_tagged_issue_line,
    no_newline_before,
    pattern_find,
};
use crate::text::{
    decimal,
    is_digit,
    join_strings,
    join_with,
    lemma_decimal_digits,
    lemma_join_split,
    occurs_at,
    split_on,
    split_str,
    string_option_view,
};

verus! {

/// The issue number of a tagged line: the first run of digits in it, as `[0-9]+`
/// finds it.
pub fn parse_issue_number_from_line(line: &str) -> (res: Option<String>)
    ensures
        string_option_view(res) == first_digit_run(line@),
{
    match pattern_find("[0-9]+", line) {
        Ok(found) => found,
        Err(_) => None,
    }
}

/// The issue number that a line carries, if any: its first run of digits.
pub open spec fn issue_number_of(line: Seq<char>) -> Option<Seq<char>> {
    first_digit_run(line)
}

/// Whether a line gets checked against the tracker: it is tagged and carries a number.
pub open spec fn is_checked_line(line: Seq<char>) -> bool {
    is_tagged_issue(line) && issue_number_of(line) is Some
}

/// Whether an issue state means the issue is done.
pub open spec fn is_closed(state: Seq<char>) -> bool {
    state == "closed"@
}

/// How many of the first `n` lines get checked.
pub open spec fn checked_count(lines: Seq<Seq<char>>, n: int) -> nat
    decreases n,
{
    if n <= 0 {
        0
    } else {
        checked_count(lines, n - 1) + if is_checked_line(lines[n - 1]) {
            1nat
        } else {
            0nat
        }
    }
}

/// The first `n` lines once audited, the k-th checked line's issue being in
/// `states[k]`: the lines kept, and the numbers of the closed issues whose lines left.
pub open spec fn audited(
    lines: Seq<Seq<char>>,
    states: Seq<Seq<char>>,
    n: int,
) -> (Seq<Seq<char>>, Seq<Seq<char>>)
    decreases n,
{
    if n <= 0 {
        (Seq::empty(), Seq::empty())
    } else {
        let (kept, removed) = audited(lines, states, n - 1);
        let line = lines[n - 1];
        if is_checked_line(line) && is_closed(states[checked_count(lines, n - 1) as int]) {
            (kept, removed.push(issue_number_of(line)->0))
        } else {
            (kept.push(line), removed)
        }
    }
}

/// The progress of auditing the tracked issues of one file.
pub struct AuditScan {
    lines: Vec<String>,
    kept: Vec<String>,
    removed: Vec<String>,
    pos: usize,
    pending: Option<String>,
    states: Ghost<Seq<Seq<char>>>,
}

impl AuditScan {
    /// The lines of the file in the order they are taken: the last line first.
    pub closed spec fn lines(&self) -> Seq<Seq<char>> {
        self.lines.deep_view()
    }

    /// The states of the issues checked so far, in the order they were asked about.
    pub closed spec fn states(&self) -> Seq<Seq<char>> {
        self.states@
    }

    /// How many lines have been dealt with.
    pub closed spec fn position(&self) -> int {
        self.pos as int
    }

    /// Whether the line at `position` was handed out and waits for its issue's state.
    pub closed spec fn is_awaiting(&self) -> bool {
        self.pending is Some
    }

    /// The scan's fields agree with the lines and the states received so far.
    pub closed spec fn wf(&self) -> bool {
        &&& self.pos <= self.lines.len()
        &&& self.kept.deep_view() == audited(self.lines(), self.states@, self.pos as int).0
        &&& self.removed.deep_view() == audited(self.lines(), self.states@, self.pos as int).1
        &&& self.states@.len() == checked_count(self.lines(), self.pos as int)
        &&& self.pending matches Some(number) ==> {
            &&& self.pos < self.lines.len()
            &&& is_checked_line(self.lines()[self.pos as int])
            &&& issue_number_of(self.lines()[self.pos as int]) == Some(number@)
        }
    }

    /// Starts on `file`, cut into lines at `\n`, to be taken from the last line up.
    pub fn new(file: &str) -> (scan: Self)
        ensures
            scan.wf(),
            scan.lines() == split_on(file@, "\n"@).reverse(),
            scan.states() == Seq::<Seq<char>>::empty(),
            scan.position() == 0,
            !scan.is_awaiting(),
    {
        proof {
            reveal_strlit("\n");
        }
        let lines = reversed(&split_str(file, "\n"));
        let scan = AuditScan {
            lines,
            kept: Vec::new(),
            removed: Vec::new(),
            pos: 0,
            pending: None,
            states: Ghost(Seq::empty()),
        };
        proof {
            assert(scan.kept.deep_view() =~= Seq::<Seq<char>>::empty());
            assert(scan.removed.deep_view() =~= Seq::<Seq<char>>::empty());
        }
        scan
    }

    /// Moves to the next tagged line, going up the file, and hands out its issue
    /// number, the issue to look up; `None` once no such line is left.
    pub fn next_check(&mut self) -> (res: Option<String>)
        requires
            old(self).wf(),
            !old(self).is_awaiting(),
        ensures
            final(self).wf(),
            final(self).lines() == old(self).lines(),
            final(self).states() == old(self).states(),
            old(self).position() <= final(self).position(),
            forall|j: int|
                old(self).position() <= j < final(self).position() ==> !is_checked_line(
                    #[trigger] old(self).lines()[j],
                ),
            match res {
                Some(number) => {
                    &&& final(self).is_awaiting()
                    &&& final(self).position() < final(self).lines().len()
                    &&& is_checked_line(final(self).lines()[final(self).position()])
                    &&& issue_number_of(final(self).lines()[final(self).position()]) == Some(
                        number@,
                    )
                },
                None => !final(self).is_awaiting() && final(self).position()
                    == final(self).lines().len(),
            },
    {
        let n = self.lines.len();
        while self.pos < n
            invariant
                self.wf(),
                self.pending is None,
                n == self.lines.len(),
                self.lines() == old(self).lines(),
                self.states@ == old(self).states@,
                old(self).pos <= self.pos,
                forall|j: int|
                    old(self).pos <= j < self.pos ==> !is_checked_line(
                        #[trigger] old(self).lines()[j],
                    ),
            decreases n - self.pos,
        {
            let i = self.pos;
            if is_tagged_issue_line(self.lines[i].as_str()) {
                match parse_issue_number_from_line(self.lines[i].as_str()) {
                    Some(number) => {
                        self.pending = Some(number.clone());
                        return Some(number);
                    },
                    None => {},
                }
            }
            let line = self.lines[i].clone();
            let ghost before = self.kept.deep_view();
            self.kept.push(line);
            self.pos = i + 1;
            proof {
                assert(self.kept.deep_view() =~= before.push(self.lines()[i as int]));
            }
        }
        None
    }

    /// Records the state of the awaited line's issue: a closed issue's line leaves the
    /// file and its number joins the removed ones; any other state keeps the line.
    pub fn record_state(&mut self, state: &str)
        requires
            old(self).wf(),
            old(self).is_awaiting(),
        ensures
            final(self).wf(),
            final(self).lines() == old(self).lines(),
            final(self).states() == old(self).states().push(state@),
            final(self).position() == old(self).position() + 1,
            !final(self).is_awaiting(),
    {
        let i = self.pos;
        let number = match self.pending.take() {
            Some(number) => number,
            None => String::new(),
        };
        let ghost before_states = self.states@;
        let ghost before_kept = self.kept.deep_view();
        let ghost before_removed = self.removed.deep_view();
        self.states = Ghost(self.states@.push(state@));
        if String::from_str(state) == String::from_str("closed") {
            self.removed.push(number);
            proof {
                assert(self.removed.deep_view() =~= before_removed.push(number@));
            }
        } else {
            let line = self.lines[i].clone();
            self.kept.push(line);
            proof {
                assert(self.kept.deep_view() =~= before_kept.push(self.lines()[i as int]));
            }
        }
        self.pos = i + 1;
        proof {
            assert(self.states@[before_states.len() as int] == state@);
            lemma_audited_extend(self.lines(), before_states, self.states@, i as int);
        }
    }

    /// The kept lines, back in the order of the file, joined again at `\n`, and the
    /// numbers of the closed issues in the order they were asked about: from the last
    /// line of the file to the first.
    pub fn finish(self) -> (res: (String, Vec<String>))
        requires
            self.wf(),
            self.position() == self.lines().len(),
        ensures
            res.0@ == join_with(
                audited(self.lines(), self.states(), self.lines().len() as int).0.reverse(),
                "\n"@,
            ),
            res.1.deep_view() == audited(
                self.lines(),
                self.states(),
                self.lines().len() as int,
            ).1,
    {
        let in_file_order = reversed(&self.kept);
        let file = join_strings(&in_file_order, "\n");
        (file, self.removed)
    }
}

/// The strings of `v`, last first.
fn reversed(v: &Vec<String>) -> (res: Vec<String>)
    ensures
        res.deep_view() == v.deep_view().reverse(),
{
    let n = v.len();
    let mut res: Vec<String> = Vec::new();
    let mut k: usize = 0;
    while k < n
        invariant
            n == v.len(),
            0 <= k <= n,
            res.len() == k,
            forall|j: int| 0 <= j < k ==> #[trigger] res.deep_view()[j] == v.deep_view()[n - 1 - j],
        decreases n - k,
    {
        let ghost before = res.deep_view();
        res.push(v[n - 1 - k].clone());
        proof {
            assert(res.deep_view() =~= before.push(v[n - 1 - k as int]@));
        }
        k = k + 1;
    }
    proof {
        assert(res.deep_view() =~= v.deep_view().reverse());
    }
    res
}

/// The lines so far only read the states received for them, so more states change none.
proof fn lemma_audited_extend(
    lines: Seq<Seq<char>>,
    states: Seq<Seq<char>>,
    more: Seq<Seq<char>>,
    n: int,
)
    requires
        0 <= n <= lines.len(),
        checked_count(lines, n) <= states.len(),
        states.len() <= more.len(),
        forall|k: int| 0 <= k < states.len() ==> more[k] == states[k],
    ensures
        audited(lines, states, n) == audited(lines, more, n),
    decreases n,
{
    if n > 0 {
        lemma_audited_extend(lines, states, more, n - 1);
    }
}


/// Whether the `i`-th line is checked and its issue was reported closed.
pub open spec fn closed_at(lines: Seq<Seq<char>>, states: Seq<Seq<char>>, i: int) -> bool {
    is_checked_line(lines[i]) && is_closed(states[checked_count(lines, i) as int])
}

/// Auditing drops exactly the lines of closed issues, wherever they stand: a line whose
/// issue is reported closed leaves the kept lines and gives its number to the removed
/// ones, right after the numbers of the closed lines before it; every other line is
/// kept, right after the kept lines before it. What the first lines give stays as the
/// later lines are audited.
pub proof fn lemma_audited_each(lines: Seq<Seq<char>>, states: Seq<Seq<char>>, n: int)
    requires
        0 <= n <= lines.len(),
    ensures
        forall|i: int|
            #![trigger audited(lines, states, i)]
            0 <= i < n && closed_at(lines, states, i) ==> {
                &&& audited(lines, states, i).1.len() < audited(lines, states, n).1.len()
                &&& audited(lines, states, n).1[audited(lines, states, i).1.len() as int]
                    == issue_number_of(lines[i])->0
            },
        forall|i: int|
            #![trigger audited(lines, states, i)]
            0 <= i < n && !closed_at(lines, states, i) ==> {
                &&& audited(lines, states, i).0.len() < audited(lines, states, n).0.len()
                &&& audited(lines, states, n).0[audited(lines, states, i).0.len() as int]
                    == lines[i]
            },
        forall|m: int|
            0 <= m <= n ==> {
                &&& #[trigger] audited(lines, states, m).0.len() <= audited(lines, states, n).0.len()
                &&& audited(lines, states, m).1.len() <= audited(lines, states, n).1.len()
                &&& audited(lines, states, n).0.take(audited(lines, states, m).0.len() as int)
                    == audited(lines, states, m).0
                &&& audited(lines, states, n).1.take(audited(lines, states, m).1.len() as int)
                    == audited(lines, states, m).1
            },
    decreases n,
{
    if n > 0 {
        lemma_audited_each(lines, states, n - 1);
        let prev = audited(lines, states, n - 1);
        let cur = audited(lines, states, n);
        assert(cur.0.take(prev.0.len() as int) =~= prev.0);
        assert(cur.1.take(prev.1.len() as int) =~= prev.1);
        assert forall|m: int| 0 <= m <= n implies {
            &&& #[trigger] audited(lines, states, m).0.len() <= cur.0.len()
            &&& audited(lines, states, m).1.len() <= cur.1.len()
            &&& cur.0.take(audited(lines, states, m).0.len() as int) == audited(lines, states, m).0
            &&& cur.1.take(audited(lines, states, m).1.len() as int) == audited(lines, states, m).1
        } by {
            if m < n {
                let am = audited(lines, states, m);
                assert(am.0.len() <= prev.0.len());
                assert(prev.0.take(am.0.len() as int) == am.0);
                assert(cur.0.take(am.0.len() as int) =~= prev.0.take(am.0.len() as int));
                assert(cur.1.take(am.1.len() as int) =~= prev.1.take(am.1.len() as int));
            } else {
                assert(cur.0.take(cur.0.len() as int) =~= cur.0);
                assert(cur.1.take(cur.1.len() as int) =~= cur.1);
            }
        }
        assert forall|i: int|
            #![trigger audited(lines, states, i)]
            0 <= i < n && closed_at(lines, states, i) implies {
            &&& audited(lines, states, i).1.len() < cur.1.len()
            &&& cur.1[audited(lines, states, i).1.len() as int] == issue_number_of(lines[i])->0
        } by {
            let k = audited(lines, states, i).1.len() as int;
            if i < n - 1 {
                assert(k < prev.1.len() && prev.1[k] == issue_number_of(lines[i])->0);
                assert(prev.1.len() <= cur.1.len());
                assert(cur.1[k] == prev.1[k]);
            } else {
                assert(cur.1 == prev.1.push(issue_number_of(lines[i])->0));
            }
        }
        assert forall|i: int|
            #![trigger audited(lines, states, i)]
            0 <= i < n && !closed_at(lines, states, i) implies {
            &&& audited(lines, states, i).0.len() < cur.0.len()
            &&& cur.0[audited(lines, states, i).0.len() as int] == lines[i]
        } by {
            let k = audited(lines, states, i).0.len() as int;
            if i < n - 1 {
                assert(k < prev.0.len() && prev.0[k] == lines[i]);
                assert(prev.0.len() <= cur.0.len());
                assert(cur.0[k] == prev.0[k]);
            } else {
                assert(cur.0 == prev.0.push(lines[i]));
            }
        }
    }
}

/// Every line is either kept or, when its issue is closed, gives its number to the
/// removed ones.
pub proof fn lemma_audited_counts(lines: Seq<Seq<char>>, states: Seq<Seq<char>>, n: int)
    requires
        0 <= n <= lines.len(),
    ensures
        audited(lines, states, n).0.len() + audited(lines, states, n).1.len() == n,
        audited(lines, states, n).1.len() <= checked_count(lines, n),
    decreases n,
{
    if n > 0 {
        lemma_audited_counts(lines, states, n - 1);
    }
}

/// When no issue is reported closed, every line is kept, none is removed, and the file
/// comes back unchanged.
pub proof fn lemma_nothing_closed_file_unchanged(file: Seq<char>, states: Seq<Seq<char>>)
    requires
        states.len() == checked_count(
            split_on(file, "\n"@).reverse(),
            split_on(file, "\n"@).len() as int,
        ),
        forall|k: int| 0 <= k < states.len() ==> !is_closed(#[trigger] states[k]),
    ensures
        audited(split_on(file, "\n"@).reverse(), states, split_on(file, "\n"@).len() as int).0
            == split_on(file, "\n"@).reverse(),
        audited(
            split_on(file, "\n"@).reverse(),
            states,
            split_on(file, "\n"@).len() as int,
        ).1.len() == 0,
        join_with(
            audited(
                split_on(file, "\n"@).reverse(),
                states,
                split_on(file, "\n"@).len() as int,
            ).0.reverse(),
            "\n"@,
        ) == file,
{
    reveal_strlit("\n");
    let lines = split_on(file, "\n"@);
    let last_first = lines.reverse();
    lemma_nothing_closed_keeps_prefix(last_first, states, lines.len() as int);
    assert(last_first.take(lines.len() as int) =~= last_first);
    assert(last_first.reverse() =~= lines);
    lemma_join_split(file, "\n"@);
}

proof fn lemma_nothing_closed_keeps_prefix(lines: Seq<Seq<char>>, states: Seq<Seq<char>>, n: int)
    requires
        0 <= n <= lines.len(),
        checked_count(lines, n) <= states.len(),
        forall|k: int| 0 <= k < states.len() ==> !is_closed(#[trigger] states[k]),
    ensures
        audited(lines, states, n).0 == lines.take(n),
        audited(lines, states, n).1.len() == 0,
    decreases n,
{
    if n > 0 {
        lemma_nothing_closed_keeps_prefix(lines, states, n - 1);
        assert(lines.take(n - 1).push(lines[n - 1]) =~= lines.take(n));
        let k = checked_count(lines, n - 1) as int;
        if 0 <= k < states.len() {
            assert(!is_closed(states[k]));
        }
    } else {
        assert(lines.take(0) =~= Seq::<Seq<char>>::empty());
    }
}

/// Whether the prefix of a reported line, the text before its first `: `, ends in the
/// marker `TODO` and holds no digit and no line break.
pub open spec fn is_plain_marker_prefix(prefix: Seq<char>) -> bool {
    &&& prefix.len() >= 4
    &&& prefix.subrange(prefix.len() - 4, prefix.len() as int) == "TODO"@
    &&& forall|j: int|
        0 <= j < prefix.len() ==> !is_digit(#[trigger] prefix[j]) && prefix[j] != '\n'
}

/// A run of digits from `k` that stops at the non-digit at `e` ends there.
proof fn lemma_digit_run_ends_at(t: Seq<char>, k: int, e: int)
    requires
        0 <= k <= e < t.len(),
        all_digits(t, k, e),
        !is_digit(t[e]),
    ensures
        digit_run_end(t, k) == e,
    decreases e - k,
{
    if k < e {
        assert(is_digit(t[k]));
        lemma_digit_run_ends_at(t, k + 1, e);
    }
}

/// The first run of digits from `i` on starts no earlier than `s` when there is no
/// digit in between.
proof fn lemma_first_digit_run_skips(t: Seq<char>, i: int, s: int)
    requires
        0 <= i <= s < t.len(),
        forall|k: int| i <= k < s ==> !is_digit(#[trigger] t[k]),
    ensures
        first_digit_run_from(t, i) == first_digit_run_from(t, s),
    decreases s - i,
{
    if i < s {
        assert(!is_digit(t[i]));
        lemma_first_digit_run_skips(t, i + 1, s);
    }
}

/// What snitch writes, audit reads back: a reported line whose first `: ` follows its
/// `TODO`, with no digit before it, is checked by audit once tied to issue `number`,
/// and the number audit reads from it is that issue's.
pub proof fn lemma_tagged_line_read_back(line: Seq<char>, number: u32)
    requires
        split_on(line, ": "@).len() >= 2,
        is_plain_marker_prefix(split_on(line, ": "@)[0]),
    ensures
        is_checked_line(tracked_issue_line(line, number)),
        issue_number_of(tracked_issue_line(line, number)) == Some(decimal(number as nat)),
{
    reveal_strlit("(#");
    reveal_strlit("): ");
    reveal_strlit("TODO");
    reveal_strlit("TODO(#");
    reveal_strlit("):");
    lemma_decimal_digits(number as nat);
    let p = split_on(line, ": "@);
    let a = p[0];
    let d = decimal(number as nat);
    let t = tracked_issue_line(line, number);
    assert(d.len() >= 1);
    let s: int = a.len() + 2int;
    let e: int = s + d.len();
    assert(t.len() == e + 3 + p[1].len());
    assert forall|k: int| 0 <= k < a.len() implies t[k] == a[k] by {}
    assert forall|k: int| s <= k < e implies t[k] == d[k - s] by {}
    assert(t[a.len() as int] == '(');
    assert(t[a.len() + 1int] == '#');
    assert(t[e] == ')');
    assert(t[e + 1] == ':');
    let i: int = a.len() - 4;
    assert forall|k: int| 0 <= k < 4 implies a[i + k] == "TODO"@[k] by {
        assert(a.subrange(i, a.len() as int)[k] == a[i + k]);
    }
    assert(t[i] == 'T' && t[i + 1] == 'O' && t[i + 2] == 'D' && t[i + 3] == 'O') by {
        assert(a[i] == "TODO"@[0]);
        assert(a[i + 1] == "TODO"@[1]);
        assert(a[i + 2] == "TODO"@[2]);
        assert(a[i + 3] == "TODO"@[3]);
        assert(t[i] == a[i]);
        assert(t[i + 1] == a[i + 1]);
        assert(t[i + 2] == a[i + 2]);
        assert(t[i + 3] == a[i + 3]);
    }
    assert(t.subrange(i, i + 6) =~= "TODO(#"@);
    assert(occurs_at(t, "TODO(#"@, i));
    assert(all_digits(t, i + 6, e)) by {
        assert forall|k: int| i + 6 <= k < e implies is_digit(#[trigger] t[k]) by {
            assert(t[k] == d[k - s]);
        }
    }
    assert(t.subrange(e, e + 2) =~= "):"@);
    assert(occurs_at(t, "):"@, e));
    assert(no_newline_before(t, i));
    assert(i + 6 < e);
    assert(has_tagged_marker(t));
    assert forall|k: int| 0 <= k < s implies !is_digit(#[trigger] t[k]) by {
        if k < a.len() {
            assert(t[k] == a[k]);
        }
    }
    lemma_first_digit_run_skips(t, 0, s);
    assert(is_digit(t[s]));
    assert(all_digits(t, s, e)) by {
        assert forall|k: int| s <= k < e implies is_digit(#[trigger] t[k]) by {
            assert(t[k] == d[k - s]);
        }
    }
    lemma_digit_run_ends_at(t, s, e);
    assert(t.subrange(s, e) =~= d);
}

} // verus!
