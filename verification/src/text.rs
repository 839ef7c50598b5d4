//! Character-level string handling: splitting, joining and decimal numbers.

use vstd::prelude::*;

verus! {

/// The text held by an optional string.
pub open spec fn string_option_view(o: Option<String>) -> Option<Seq<char>> {
    match o {
        Some(s) => Some(s@),
        None => None,
    }
}

/// The pieces of `s` cut at every occurrence of `sep`, scanning left to right,
/// as `str::split` yields them for a non-empty separator.
pub open spec fn split_on(s: Seq<char>, sep: Seq<char>) -> Seq<Seq<char>>
    decreases s.len(),
{
    if s.len() == 0 {
        seq![Seq::<char>::empty()]
    } else if 0 < sep.len() <= s.len() && s.take(sep.len() as int) == sep {
        seq![Seq::<char>::empty()] + split_on(s.skip(sep.len() as int), sep)
    } else {
        let rest = split_on(s.drop_first(), sep);
        rest.update(0, seq![s[0]] + rest[0])
    }
}

/// `pieces` with `p` put in front of its first piece.
pub open spec fn prepend_first(p: Seq<char>, pieces: Seq<Seq<char>>) -> Seq<Seq<char>> {
    pieces.update(0, p + pieces[0])
}

/// The pieces joined with `sep` between each two, as `[String]::join` does.
pub open spec fn join_with(pieces: Seq<Seq<char>>, sep: Seq<char>) -> Seq<char>
    decreases pieces.len(),
{
    if pieces.len() == 0 {
        Seq::empty()
    } else if pieces.len() == 1 {
        pieces[0]
    } else {
        pieces[0] + sep + join_with(pieces.drop_first(), sep)
    }
}

/// Whether `sep` occurs in `s` at position `i`.
pub open spec fn occurs_at(s: Seq<char>, sep: Seq<char>, i: int) -> bool {
    0 <= i && i + sep.len() <= s.len() && s.subrange(i, i + sep.len()) == sep
}

pub proof fn lemma_split_nonempty(s: Seq<char>, sep: Seq<char>)
    ensures
        split_on(s, sep).len() >= 1,
    decreases s.len(),
{
    if s.len() == 0 {
    } else if 0 < sep.len() <= s.len() && s.take(sep.len() as int) == sep {
        lemma_split_nonempty(s.skip(sep.len() as int), sep);
    } else {
        lemma_split_nonempty(s.drop_first(), sep);
    }
}

/// Copies the characters of `s` into a vector.
pub fn to_chars(s: &str) -> (res: Vec<char>)
    ensures
        res@ == s@,
{
    let mut res: Vec<char> = Vec::new();
    for c in it: s.chars()
        invariant
            res@ == it.seq().take(it.index() as int),
            it.seq() == s@,
    {
        res.push(c);
    }
    res
}


/// `String::push`: appends one character.
#[verifier::external_body]
pub(crate) fn push_char(s: &mut String, c: char)
    ensures
        final(s)@ == old(s)@.push(c),
{
    s.push(c);
}

/// Whether `pat` occurs in `cs` at position `i`.
pub fn occurs_at_exec(cs: &Vec<char>, pat: &Vec<char>, i: usize) -> (res: bool)
    requires
        i <= cs@.len(),
    ensures
        res == occurs_at(cs@, pat@, i as int),
{
    let k = pat.len();
    if k > cs.len() - i {
        return false;
    }
    let mut j: usize = 0;
    while j < k
        invariant
            k == pat@.len(),
            i + k <= cs.len(),
            0 <= j <= k,
            forall|m: int| 0 <= m < j ==> cs@[i + m] == pat@[m],
        decreases k - j,
    {
        if cs[i + j] != pat[j] {
            assert(cs@.subrange(i as int, i + k)[j as int] != pat@[j as int]);
            return false;
        }
        j += 1;
    }
    assert(cs@.subrange(i as int, i + k) =~= pat@);
    true
}

/// The unfolding of `split_on` at the front of `s`.
proof fn lemma_split_step(s: Seq<char>, sep: Seq<char>)
    requires
        s.len() > 0,
        sep.len() > 0,
    ensures
        occurs_at(s, sep, 0) ==> split_on(s, sep) == seq![Seq::<char>::empty()] + split_on(
            s.skip(sep.len() as int),
            sep,
        ),
        !occurs_at(s, sep, 0) ==> split_on(s, sep) == prepend_first(
            seq![s[0]],
            split_on(s.drop_first(), sep),
        ),
{
    assert(occurs_at(s, sep, 0) <==> (sep.len() <= s.len() && s.take(sep.len() as int) == sep))
        by {
        if sep.len() <= s.len() {
            assert(s.subrange(0, sep.len() as int) =~= s.take(sep.len() as int));
        }
    }
}

/// Splits `s` at every occurrence of `sep`, as `str::split` does.
pub fn split_str(s: &str, sep: &str) -> (res: Vec<String>)
    requires
        sep@.len() > 0,
    ensures
        res.deep_view() == split_on(s@, sep@),
{
    let cs = to_chars(s);
    let ps = to_chars(sep);
    let n = cs.len();
    let k = ps.len();
    let mut done: Vec<String> = Vec::new();
    let mut cur = String::new();
    let mut i: usize = 0;
    proof {
        assert(s@.skip(0) =~= s@);
        lemma_split_nonempty(s@, sep@);
        assert(prepend_first(cur@, split_on(s@, sep@)) =~= split_on(s@, sep@));
        assert(done.deep_view() + split_on(s@, sep@) =~= split_on(s@, sep@));
    }
    while i < n
        invariant
            cs@ == s@,
            ps@ == sep@,
            n == cs@.len(),
            k == ps@.len(),
            k > 0,
            0 <= i <= n,
            split_on(s@, sep@) == done.deep_view() + prepend_first(
                cur@,
                split_on(s@.skip(i as int), sep@),
            ),
        decreases n - i,
    {
        let ghost rest = s@.skip(i as int);
        proof {
            lemma_split_step(rest, sep@);
        }
        if occurs_at_exec(&cs, &ps, i) {
            proof {
                assert(occurs_at(rest, sep@, 0)) by {
                    assert(rest.subrange(0, k as int) =~= cs@.subrange(i as int, i + k));
                }
                assert(rest.skip(k as int) =~= s@.skip(i + k));
                lemma_split_nonempty(s@.skip(i + k), sep@);
            }
            let ghost old_done = done.deep_view();
            let ghost old_cur = cur@;
            done.push(cur);
            cur = String::new();
            i = i + k;
            proof {
                let x = split_on(s@.skip(i as int), sep@);
                assert(done.deep_view() =~= old_done.push(old_cur));
                assert(prepend_first(old_cur, seq![Seq::<char>::empty()] + x) =~= seq![old_cur]
                    + x);
                assert(prepend_first(cur@, x) =~= x);
                assert(old_done + (seq![old_cur] + x) =~= done.deep_view() + x);
            }
        } else {
            proof {
                assert(!occurs_at(rest, sep@, 0)) by {
                    if occurs_at(rest, sep@, 0) {
                        assert(rest.subrange(0, k as int) =~= cs@.subrange(i as int, i + k));
                    }
                }
                assert(rest.drop_first() =~= s@.skip(i + 1));
                lemma_split_nonempty(s@.skip(i + 1), sep@);
            }
            let ghost old_cur = cur@;
            push_char(&mut cur, cs[i]);
            i = i + 1;
            proof {
                let y = split_on(s@.skip(i as int), sep@);
                assert(y.len() >= 1);
                assert(old_cur + (seq![cs@[i - 1]] + y[0]) =~= cur@ + y[0]);
                assert(prepend_first(old_cur, prepend_first(seq![cs@[i - 1]], y)) =~= prepend_first(
                    cur@,
                    y,
                ));
            }
        }
    }
    proof {
        assert(s@.skip(n as int) =~= Seq::<char>::empty());
    }
    let ghost old_done = done.deep_view();
    let ghost old_cur = cur@;
    done.push(cur);
    proof {
        assert(done.deep_view() =~= old_done.push(old_cur));
        assert(prepend_first(old_cur, seq![Seq::<char>::empty()]) =~= seq![old_cur]);
    }
    done
}


/// Joining after one more piece appends the separator and that piece.
pub proof fn lemma_join_push(pieces: Seq<Seq<char>>, sep: Seq<char>, x: Seq<char>)
    requires
        pieces.len() >= 1,
    ensures
        join_with(pieces.push(x), sep) == join_with(pieces, sep) + sep + x,
    decreases pieces.len(),
{
    let q = pieces.push(x);
    assert(q[0] == pieces[0]);
    if pieces.len() == 1 {
        assert(q.drop_first() =~= seq![x]);
        assert(join_with(seq![x], sep) == x);
    } else {
        lemma_join_push(pieces.drop_first(), sep, x);
        assert(q.drop_first() =~= pieces.drop_first().push(x));
        assert(pieces[0] + sep + (join_with(pieces.drop_first(), sep) + sep + x) =~= (pieces[0]
            + sep + join_with(pieces.drop_first(), sep)) + sep + x);
    }
}

/// Putting `p` in front of the first piece puts it in front of the joined text.
pub proof fn lemma_join_prepend_first(p: Seq<char>, pieces: Seq<Seq<char>>, sep: Seq<char>)
    requires
        pieces.len() >= 1,
    ensures
        join_with(prepend_first(p, pieces), sep) == p + join_with(pieces, sep),
{
    if pieces.len() == 1 {
    } else {
        assert(prepend_first(p, pieces).drop_first() =~= pieces.drop_first());
        assert(p + pieces[0] + sep + join_with(pieces.drop_first(), sep) =~= p + (pieces[0] + sep
            + join_with(pieces.drop_first(), sep)));
    }
}

/// Joining the pieces of a split with the same separator gives back the text.
pub proof fn lemma_join_split(s: Seq<char>, sep: Seq<char>)
    requires
        sep.len() > 0,
    ensures
        join_with(split_on(s, sep), sep) == s,
    decreases s.len(),
{
    if s.len() == 0 {
    } else {
        lemma_split_step(s, sep);
        if occurs_at(s, sep, 0) {
            let rest = s.skip(sep.len() as int);
            lemma_join_split(rest, sep);
            lemma_split_nonempty(rest, sep);
            let x = split_on(rest, sep);
            assert((seq![Seq::<char>::empty()] + x).drop_first() =~= x);
            assert(s =~= s.subrange(0, sep.len() as int) + rest);
            assert(Seq::<char>::empty() + sep + join_with(x, sep) =~= sep + rest);
        } else {
            lemma_join_split(s.drop_first(), sep);
            lemma_split_nonempty(s.drop_first(), sep);
            lemma_join_prepend_first(seq![s[0]], split_on(s.drop_first(), sep), sep);
            assert(seq![s[0]] + s.drop_first() =~= s);
        }
    }
}

/// Joins `pieces` with `sep` between each two.
pub fn join_strings(pieces: &Vec<String>, sep: &str) -> (res: String)
    ensures
        res@ == join_with(pieces.deep_view(), sep@),
{
    let n = pieces.len();
    if n == 0 {
        return String::new();
    }
    let mut res = pieces[0].clone();
    let mut i: usize = 1;
    proof {
        assert(pieces.deep_view().take(1) =~= seq![pieces[0]@]);
    }
    while i < n
        invariant
            n == pieces.len(),
            1 <= i <= n,
            res@ == join_with(pieces.deep_view().take(i as int), sep@),
        decreases n - i,
    {
        proof {
            lemma_join_push(pieces.deep_view().take(i as int), sep@, pieces[i as int]@);
            assert(pieces.deep_view().take(i + 1) =~= pieces.deep_view().take(i as int).push(
                pieces[i as int]@,
            ));
        }
        res.append(sep);
        res.append(pieces[i].as_str());
        i = i + 1;
    }
    proof {
        assert(pieces.deep_view().take(n as int) =~= pieces.deep_view());
    }
    res
}

/// The character of a decimal digit.
pub open spec fn digit_char(d: nat) -> char {
    (d + 48) as char
}

/// The decimal digits of `n`, most significant first, with no leading zeros.
pub open spec fn decimal(n: nat) -> Seq<char>
    decreases n,
{
    if n < 10 {
        seq![digit_char(n)]
    } else {
        decimal(n / 10).push(digit_char(n % 10))
    }
}

/// Every character of a decimal number is an ASCII digit.
pub proof fn lemma_decimal_digits(n: nat)
    ensures
        forall|j: int| 0 <= j < decimal(n).len() ==> is_digit(#[trigger] decimal(n)[j]),
    decreases n,
{
    let last = digit_char(n % 10);
    assert(last as int == n % 10 + 48);
    assert(is_digit(last));
    if n >= 10 {
        lemma_decimal_digits(n / 10);
        assert forall|j: int| 0 <= j < decimal(n).len() implies is_digit(#[trigger] decimal(n)[j]) by {
            if j < decimal(n / 10).len() {
                assert(decimal(n)[j] == decimal(n / 10)[j]);
            } else {
                assert(decimal(n)[j] == last);
            }
        }
    } else {
        assert(n % 10 == n);
        assert(decimal(n)[0] == last);
    }
}

/// The decimal text of a signed integer: a `-` before the digits of a negative one.
pub open spec fn signed_decimal(n: int) -> Seq<char> {
    if n < 0 {
        seq!['-'] + decimal((-n) as nat)
    } else {
        decimal(n as nat)
    }
}

/// Appends the decimal digits of `n` to `out`.
pub fn push_decimal(out: &mut String, n: u64)
    ensures
        final(out)@ == old(out)@ + decimal(n as nat),
    decreases n,
{
    if n >= 10 {
        push_decimal(out, n / 10);
    }
    let d = (n % 10) as u8;
    let c = (d + 48) as char;
    proof {
        assert(c == digit_char((n % 10) as nat));
    }
    let ghost before = out@;
    push_char(out, c);
    proof {
        assert(out@ =~= old(out)@ + decimal(n as nat));
    }
}

/// The decimal text of `n`, as `Display` writes an unsigned integer.
pub fn decimal_string(n: u64) -> (res: String)
    ensures
        res@ == decimal(n as nat),
{
    let mut res = String::new();
    push_decimal(&mut res, n);
    proof {
        assert(res@ =~= decimal(n as nat));
    }
    res
}

/// The decimal text of `n`, as `Display` writes a signed integer.
pub fn signed_decimal_string(n: i64) -> (res: String)
    ensures
        res@ == signed_decimal(n as int),
{
    let mut res = String::new();
    if n < 0 {
        push_char(&mut res, '-');
        let m: u64 = ((-(n + 1)) as u64) + 1;
        push_decimal(&mut res, m);
    } else {
        push_decimal(&mut res, n as u64);
    }
    proof {
        assert(res@ =~= signed_decimal(n as int));
    }
    res
}


/// Whether `c` is an ASCII decimal digit.
pub open spec fn is_digit(c: char) -> bool {
    '0' <= c && c <= '9'
}

/// The number that a sequence of decimal digits spells.
pub open spec fn digits_value(s: Seq<char>) -> int
    decreases s.len(),
{
    if s.len() == 0 {
        0
    } else {
        digits_value(s.drop_last()) * 10 + (s.last() as int - 48)
    }
}

/// `s` without one leading `+` sign.
pub open spec fn unsigned_digits(s: Seq<char>) -> Seq<char> {
    if s.len() > 0 && s[0] == '+' {
        s.drop_first()
    } else {
        s
    }
}

/// What `str::parse::<usize>` accepts: an optional `+` and then one or more decimal
/// digits, whose value fits.
pub open spec fn parse_unsigned(s: Seq<char>, max: int) -> Option<int> {
    let d = unsigned_digits(s);
    if d.len() > 0 && (forall|i: int| 0 <= i < d.len() ==> is_digit(#[trigger] d[i]))
        && digits_value(d) <= max {
        Some(digits_value(d))
    } else {
        None
    }
}

/// A number that `parse_unsigned` accepts lies between 0 and the bound.
pub proof fn lemma_parse_unsigned_in_range(s: Seq<char>, max: int)
    ensures
        parse_unsigned(s, max) matches Some(v) ==> 0 <= v <= max,
{
    let d = unsigned_digits(s);
    if parse_unsigned(s, max) is Some {
        lemma_digits_value_nonneg(d);
    }
}

proof fn lemma_digits_value_nonneg(s: Seq<char>)
    requires
        forall|i: int| 0 <= i < s.len() ==> is_digit(#[trigger] s[i]),
    ensures
        digits_value(s) >= 0,
    decreases s.len(),
{
    if s.len() > 0 {
        lemma_digits_value_nonneg(s.drop_last());
    }
}

/// A longer run of digits spells at least as much as any of its prefixes.
proof fn lemma_digits_value_prefix(s: Seq<char>, j: int)
    requires
        0 <= j <= s.len(),
        forall|i: int| 0 <= i < s.len() ==> is_digit(#[trigger] s[i]),
    ensures
        digits_value(s.take(j)) <= digits_value(s),
    decreases s.len(),
{
    if j < s.len() {
        assert(s.drop_last().take(j) =~= s.take(j));
        lemma_digits_value_prefix(s.drop_last(), j);
        lemma_digits_value_nonneg(s.drop_last());
    } else {
        assert(s.take(j) =~= s);
    }
}

/// Parses an unsigned decimal number, as `str::parse::<usize>` does.
pub fn parse_usize(s: &str) -> (res: Option<usize>)
    ensures
        res == (match parse_unsigned(s@, usize::MAX as int) {
            Some(v) => Some(v as usize),
            None => None::<usize>,
        }),
{
    let cs = to_chars(s);
    let n = cs.len();
    let start: usize = if n > 0 && cs[0] == '+' { 1 } else { 0 };
    let ghost d = unsigned_digits(s@);
    proof {
        assert(d =~= cs@.skip(start as int));
    }
    if start == n {
        return None;
    }
    let mut v: usize = 0;
    let mut i: usize = start;
    proof {
        assert(d.take(0) =~= Seq::<char>::empty());
    }
    while i < n
        invariant
            cs@ == s@,
            n == cs@.len(),
            start <= i <= n,
            d == cs@.skip(start as int),
            d == unsigned_digits(s@),
            forall|m: int| 0 <= m < i - start ==> is_digit(#[trigger] d[m]),
            v == digits_value(d.take(i - start)),
        decreases n - i,
    {
        let c = cs[i];
        if !(c >= '0' && c <= '9') {
            assert(!is_digit(d[i - start]));
            assert(parse_unsigned(s@, usize::MAX as int) is None);
            return None;
        }
        let dv = (c as u32 - 48) as usize;
        proof {
            assert(d.take(i - start + 1).drop_last() =~= d.take(i - start));
            assert(d.take(i - start + 1).last() == c);
        }
        match v.checked_mul(10) {
            Some(v10) => match v10.checked_add(dv) {
                Some(next) => {
                    v = next;
                },
                None => {
                    proof {
                        if forall|m: int| 0 <= m < d.len() ==> is_digit(#[trigger] d[m]) {
                            lemma_digits_value_prefix(d, i - start + 1);
                            assert(digits_value(d.take(i - start + 1)) == v * 10 + (c as int - 48));
                        }
                        assert(parse_unsigned(s@, usize::MAX as int) is None);
                    }
                    return None;
                },
            },
            None => {
                proof {
                    if forall|m: int| 0 <= m < d.len() ==> is_digit(#[trigger] d[m]) {
                        lemma_digits_value_prefix(d, i - start + 1);
                        lemma_digits_value_nonneg(d.take(i - start));
                        assert(digits_value(d.take(i - start + 1)) == v * 10 + (c as int - 48));
                        assert(v * 10 > usize::MAX);
                        assert(digits_value(d) > usize::MAX);
                    }
                    assert(parse_unsigned(s@, usize::MAX as int) is None);
                }
                return None;
            },
        }
        i = i + 1;
    }
    proof {
        assert(d.take(n - start) =~= d);
    }
    Some(v)
}


/// The first two pieces of `line` split at `sep`: what `split(sep)` yields at indices 0 and 1.
pub fn first_two_pieces(line: &str, sep: &str) -> (res: (String, String))
    requires
        sep@.len() > 0,
        split_on(line@, sep@).len() >= 2,
    ensures
        res.0@ == split_on(line@, sep@)[0],
        res.1@ == split_on(line@, sep@)[1],
{
    let pieces = split_str(line, sep);
    (pieces[0].clone(), pieces[1].clone())
}


/// Whether two strings hold the same characters.
pub fn str_equal(a: &str, b: &str) -> (res: bool)
    ensures
        res == (a@ == b@),
{
    String::from_str(a) == String::from_str(b)
}


/// The first piece of a split is a prefix of the text.
pub proof fn lemma_split_first_is_prefix(s: Seq<char>, sep: Seq<char>)
    requires
        sep.len() > 0,
    ensures
        split_on(s, sep)[0].len() <= s.len(),
        split_on(s, sep)[0] == s.take(split_on(s, sep)[0].len() as int),
    decreases s.len(),
{
    if s.len() == 0 {
    } else {
        lemma_split_step(s, sep);
        if occurs_at(s, sep, 0) {
        } else {
            lemma_split_first_is_prefix(s.drop_first(), sep);
            lemma_split_nonempty(s.drop_first(), sep);
            let r0 = split_on(s.drop_first(), sep)[0];
            assert(seq![s[0]] + r0 =~= s.take((r0.len() + 1) as int));
        }
    }
}

/// No piece of a split holds the separator.
pub proof fn lemma_split_pieces_free(s: Seq<char>, sep: Seq<char>)
    requires
        sep.len() > 0,
    ensures
        forall|k: int, i: int|
            0 <= k < split_on(s, sep).len() ==> !#[trigger] occurs_at(split_on(s, sep)[k], sep, i),
    decreases s.len(),
{
    if s.len() == 0 {
    } else {
        lemma_split_step(s, sep);
        if occurs_at(s, sep, 0) {
            let rest = s.skip(sep.len() as int);
            lemma_split_pieces_free(rest, sep);
            let x = split_on(rest, sep);
            assert forall|k: int, i: int|
                0 <= k < split_on(s, sep).len() implies !#[trigger] occurs_at(
                split_on(s, sep)[k],
                sep,
                i,
            ) by {
                if k > 0 {
                    assert(split_on(s, sep)[k] == x[k - 1]);
                }
            }
        } else {
            let rest = s.drop_first();
            lemma_split_pieces_free(rest, sep);
            lemma_split_nonempty(rest, sep);
            lemma_split_first_is_prefix(rest, sep);
            let x = split_on(rest, sep);
            let p = seq![s[0]] + x[0];
            assert forall|k: int, i: int|
                0 <= k < split_on(s, sep).len() implies !#[trigger] occurs_at(
                split_on(s, sep)[k],
                sep,
                i,
            ) by {
                if k > 0 {
                    assert(split_on(s, sep)[k] == x[k]);
                } else {
                    assert(split_on(s, sep)[0] == p);
                    if occurs_at(p, sep, i) {
                        if i == 0 {
                            assert(p =~= s.take(p.len() as int));
                            assert(s.subrange(0, sep.len() as int) =~= p.subrange(
                                0,
                                sep.len() as int,
                            ));
                        } else {
                            assert(x[0].subrange(i - 1, i - 1 + sep.len()) =~= p.subrange(
                                i,
                                i + sep.len(),
                            ));
                            assert(occurs_at(x[0], sep, i - 1));
                        }
                    }
                }
            }
        }
    }
}

/// Splitting text that starts with a run holding no first character of the separator
/// puts that run in front of the first piece.
proof fn lemma_split_free_prefix(a: Seq<char>, s: Seq<char>, sep: Seq<char>)
    requires
        sep.len() > 0,
        forall|j: int| 0 <= j < a.len() ==> a[j] != sep[0],
    ensures
        split_on(a + s, sep) == prepend_first(a, split_on(s, sep)),
    decreases a.len(),
{
    lemma_split_nonempty(s, sep);
    if a.len() == 0 {
        assert(a + s =~= s);
        assert(prepend_first(a, split_on(s, sep)) =~= split_on(s, sep));
    } else {
        let t = a + s;
        lemma_split_step(t, sep);
        assert(!occurs_at(t, sep, 0)) by {
            if occurs_at(t, sep, 0) {
                assert(t.subrange(0, sep.len() as int)[0] == sep[0]);
            }
        }
        assert(t.drop_first() =~= a.drop_first() + s);
        lemma_split_free_prefix(a.drop_first(), s, sep);
        let x = split_on(s, sep);
        assert(seq![a[0]] + (a.drop_first() + x[0]) =~= a + x[0]);
        assert(prepend_first(seq![a[0]], prepend_first(a.drop_first(), x)) =~= prepend_first(a, x));
    }
}

/// Splitting pieces joined with a separator whose first character none of them holds
/// gives the pieces back.
pub proof fn lemma_split_join(pieces: Seq<Seq<char>>, sep: Seq<char>)
    requires
        pieces.len() >= 1,
        sep.len() > 0,
        forall|k: int, j: int|
            0 <= k < pieces.len() && 0 <= j < pieces[k].len() ==> #[trigger] pieces[k][j] != sep[0],
    ensures
        split_on(join_with(pieces, sep), sep) == pieces,
    decreases pieces.len(),
{
    let p0 = pieces[0];
    assert forall|j: int| 0 <= j < p0.len() implies p0[j] != sep[0] by {
        assert(pieces[0][j] != sep[0]);
    }
    if pieces.len() == 1 {
        lemma_split_free_prefix(p0, Seq::empty(), sep);
        assert(p0 + Seq::<char>::empty() =~= p0);
        assert(prepend_first(p0, seq![Seq::<char>::empty()]) =~= pieces);
    } else {
        let rest = pieces.drop_first();
        assert forall|k: int, j: int|
            0 <= k < rest.len() && 0 <= j < rest[k].len() implies #[trigger] rest[k][j]
            != sep[0] by {
            assert(rest[k] == pieces[k + 1]);
        }
        lemma_split_join(rest, sep);
        let jr = join_with(rest, sep);
        let tail = sep + jr;
        lemma_split_step(tail, sep);
        assert(occurs_at(tail, sep, 0)) by {
            assert(tail.subrange(0, sep.len() as int) =~= sep);
        }
        assert(tail.skip(sep.len() as int) =~= jr);
        lemma_split_free_prefix(p0, tail, sep);
        assert(p0 + sep + jr =~= p0 + tail);
        assert(prepend_first(p0, seq![Seq::<char>::empty()] + rest) =~= pieces);
    }
}

/// Splitting pieces joined with a one-character separator that none of them holds
/// gives the pieces back.
pub proof fn lemma_split_join_char(pieces: Seq<Seq<char>>, c: char)
    requires
        pieces.len() >= 1,
        forall|k: int, j: int|
            0 <= k < pieces.len() && 0 <= j < pieces[k].len() ==> #[trigger] pieces[k][j] != c,
    ensures
        split_on(join_with(pieces, seq![c]), seq![c]) == pieces,
{
    assert forall|k: int, j: int|
        0 <= k < pieces.len() && 0 <= j < pieces[k].len() implies #[trigger] pieces[k][j]
        != seq![c][0] by {
        assert(pieces[k][j] != c);
    }
    lemma_split_join(pieces, seq![c]);
}

/// Text that holds no first character of the separator, followed by the separator,
/// is the first piece of the split.
pub proof fn lemma_split_first_piece(a: Seq<char>, sep: Seq<char>, rest: Seq<char>)
    requires
        sep.len() > 0,
        forall|j: int| 0 <= j < a.len() ==> a[j] != sep[0],
    ensures
        split_on(a + sep + rest, sep).len() >= 2,
        split_on(a + sep + rest, sep)[0] == a,
{
    let tail = sep + rest;
    lemma_split_step(tail, sep);
    assert(occurs_at(tail, sep, 0)) by {
        assert(tail.subrange(0, sep.len() as int) =~= sep);
    }
    lemma_split_nonempty(tail.skip(sep.len() as int), sep);
    lemma_split_free_prefix(a, tail, sep);
    assert(a + sep + rest =~= a + tail);
    assert(a + Seq::<char>::empty() =~= a);
}

/// A decimal number reads back as the number: digits only, most significant first,
/// spelling `n`, with no leading zero but for 0 itself.
pub proof fn lemma_decimal_reads_back(n: nat)
    ensures
        decimal(n).len() >= 1,
        forall|j: int| 0 <= j < decimal(n).len() ==> is_digit(#[trigger] decimal(n)[j]),
        digits_value(decimal(n)) == n,
        decimal(n)[0] == '0' ==> n == 0,
    decreases n,
{
    lemma_decimal_digits(n);
    let last = digit_char(n % 10);
    assert(last as int == n % 10 + 48);
    if n >= 10 {
        lemma_decimal_reads_back(n / 10);
        let d = decimal(n);
        assert(d.drop_last() =~= decimal(n / 10));
        assert(d.last() == last);
        assert(d[0] == decimal(n / 10)[0]);
        assert(digits_value(d) == digits_value(decimal(n / 10)) * 10 + (last as int - 48));
        assert((n / 10) * 10 + n % 10 == n) by (nonlinear_arith);
    } else {
        assert(n % 10 == n);
        let d = decimal(n);
        assert(d.drop_last() =~= Seq::<char>::empty());
        assert(d.last() == last);
        assert(digits_value(d) == digits_value(d.drop_last()) * 10 + (last as int - 48));
    }
}

/// A character that the text does not hold is in none of its pieces.
pub proof fn lemma_split_pieces_avoid(s: Seq<char>, sep: Seq<char>, c: char)
    requires
        forall|j: int| 0 <= j < s.len() ==> s[j] != c,
    ensures
        forall|k: int, j: int|
            0 <= k < split_on(s, sep).len() && 0 <= j < split_on(s, sep)[k].len()
                ==> #[trigger] split_on(s, sep)[k][j] != c,
    decreases s.len(),
{
    if s.len() == 0 {
    } else if 0 < sep.len() <= s.len() && s.take(sep.len() as int) == sep {
        let rest = s.skip(sep.len() as int);
        lemma_split_pieces_avoid(rest, sep, c);
        let x = split_on(rest, sep);
        assert forall|k: int, j: int|
            0 <= k < split_on(s, sep).len() && 0 <= j < split_on(s, sep)[k].len() implies #[trigger] split_on(
            s,
            sep,
        )[k][j] != c by {
            if k > 0 {
                assert(split_on(s, sep)[k] == x[k - 1]);
            }
        }
    } else {
        let rest = s.drop_first();
        lemma_split_pieces_avoid(rest, sep, c);
        lemma_split_nonempty(rest, sep);
        let x = split_on(rest, sep);
        assert forall|k: int, j: int|
            0 <= k < split_on(s, sep).len() && 0 <= j < split_on(s, sep)[k].len() implies #[trigger] split_on(
            s,
            sep,
        )[k][j] != c by {
            if k > 0 {
                assert(split_on(s, sep)[k] == x[k]);
            } else {
                assert(split_on(s, sep)[0] == seq![s[0]] + x[0]);
                if j > 0 {
                    assert(split_on(s, sep)[0][j] == x[0][j - 1]);
                }
            }
        }
    }
}

} // verus!
