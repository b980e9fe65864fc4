//! Text as sequences of characters: searching, splitting, padding and
//! decimal numerals, each with its mathematical model.

use vstd::prelude::*;
use vstd::string::*;

verus! {

/// `pat` occurs in `s` at position `i`.
pub open spec fn matches_at(s: Seq<char>, i: int, pat: Seq<char>) -> bool {
    0 <= i && i + pat.len() <= s.len() && s.subrange(i, i + pat.len()) == pat
}

/// `pat` occurs somewhere in `s`.
pub open spec fn occurs_in(s: Seq<char>, pat: Seq<char>) -> bool {
    exists|i: int| matches_at(s, i, pat)
}

/// `s` ends with `tail`.
pub open spec fn ends_with(s: Seq<char>, tail: Seq<char>) -> bool {
    matches_at(s, s.len() - tail.len(), tail)
}

/// The first position at or after `from` where `pat` occurs in `s`, or -1.
pub open spec fn find_from(s: Seq<char>, pat: Seq<char>, from: int) -> int
    decreases s.len() + 1 - from,
{
    if from < 0 || from + pat.len() > s.len() {
        -1
    } else if matches_at(s, from, pat) {
        from
    } else {
        find_from(s, pat, from + 1)
    }
}

/// The pieces of `s` between the occurrences of `pat`, found from left to
/// right without overlap. An empty pattern splits nothing.
pub open spec fn split(s: Seq<char>, pat: Seq<char>) -> Seq<Seq<char>>
    decreases s.len(),
{
    let i = find_from(s, pat, 0);
    if pat.len() == 0 || i < 0 || i + pat.len() > s.len() {
        seq![s]
    } else {
        seq![s.subrange(0, i)] + split(s.subrange(i + pat.len(), s.len() as int), pat)
    }
}

/// `n` blanks.
pub open spec fn spaces(n: nat) -> Seq<char> {
    Seq::new(n, |i: int| ' ')
}

/// `s` followed by as many blanks as it takes to reach `width`; a longer `s`
/// is left as it is.
pub open spec fn pad_right(s: Seq<char>, width: nat) -> Seq<char> {
    if s.len() < width {
        s + spaces((width - s.len()) as nat)
    } else {
        s
    }
}

/// `s` cut or padded to exactly `width` characters.
pub open spec fn fit(s: Seq<char>, width: nat) -> Seq<char> {
    if s.len() > width {
        s.take(width as int)
    } else {
        pad_right(s, width)
    }
}

/// The character of a decimal digit.
pub open spec fn digit_char(d: nat) -> char {
    if d == 0 {
        '0'
    } else if d == 1 {
        '1'
    } else if d == 2 {
        '2'
    } else if d == 3 {
        '3'
    } else if d == 4 {
        '4'
    } else if d == 5 {
        '5'
    } else if d == 6 {
        '6'
    } else if d == 7 {
        '7'
    } else if d == 8 {
        '8'
    } else {
        '9'
    }
}

/// The decimal numeral of `n`, without leading zeros.
pub open spec fn decimal(n: nat) -> Seq<char>
    decreases n,
{
    if n < 10 {
        seq![digit_char(n)]
    } else {
        decimal(n / 10) + seq![digit_char(n % 10)]
    }
}

/// A search finds the first occurrence when nothing occurs before it.
pub proof fn lemma_find_first(s: Seq<char>, pat: Seq<char>, from: int, target: int)
    requires
        0 <= from <= target,
        matches_at(s, target, pat),
        forall|j: int| from <= j < target ==> !matches_at(s, j, pat),
    ensures
        find_from(s, pat, from) == target,
    decreases target - from,
{
    if from < target {
        lemma_find_first(s, pat, from + 1, target);
    }
}

/// A search fails when nothing occurs at or after its start.
pub proof fn lemma_find_nothing(s: Seq<char>, pat: Seq<char>, from: int)
    requires
        forall|j: int| from <= j ==> !matches_at(s, j, pat),
    ensures
        find_from(s, pat, from) == -1,
    decreases s.len() + 1 - from,
{
    if !(from < 0 || from + pat.len() > s.len()) {
        lemma_find_nothing(s, pat, from + 1);
    }
}

/// What a search returns is an occurrence, or -1.
pub proof fn lemma_find_result(s: Seq<char>, pat: Seq<char>, from: int)
    ensures
        find_from(s, pat, from) == -1 || (from <= find_from(s, pat, from) && matches_at(
            s,
            find_from(s, pat, from),
            pat,
        )),
    decreases s.len() + 1 - from,
{
    if !(from < 0 || from + pat.len() > s.len()) && !matches_at(s, from, pat) {
        lemma_find_result(s, pat, from + 1);
    }
}

/// Splitting `head + pat + rest` gives `head` first and then the pieces of
/// `rest`, when `pat` occurs nowhere before the end of `head`.
pub proof fn lemma_split_head(head: Seq<char>, pat: Seq<char>, rest: Seq<char>)
    requires
        pat.len() > 0,
        forall|j: int| 0 <= j < head.len() ==> !matches_at(head + pat + rest, j, pat),
    ensures
        split(head + pat + rest, pat) == seq![head] + split(rest, pat),
{
    let s = head + pat + rest;
    let n = head.len() as int;
    assert(s.subrange(n, n + pat.len()) =~= pat);
    lemma_find_first(s, pat, 0, n);
    assert(s.subrange(0, n) =~= head);
    assert(s.subrange(n + pat.len(), s.len() as int) =~= rest);
}

/// A text in which `pat` does not occur is its own single piece.
pub proof fn lemma_split_single(s: Seq<char>, pat: Seq<char>)
    requires
        !occurs_in(s, pat),
    ensures
        split(s, pat) == seq![s],
{
    lemma_find_nothing(s, pat, 0);
}

/// Whether `pat` occurs in `s` at character position `at`.
pub fn matches_here(s: &str, at: usize, pat: &str) -> (found: bool)
    ensures
        found == matches_at(s@, at as int, pat@),
{
    let n: usize = s.unicode_len();
    let m: usize = pat.unicode_len();
    if at > n || m > n - at {
        return false;
    }
    let mut k: usize = 0;
    while k < m
        invariant
            k <= m,
            m == pat@.len(),
            n == s@.len(),
            at + m <= n,
            forall|j: int| 0 <= j < k ==> s@[at + j] == pat@[j],
        decreases m - k,
    {
        if s.get_char(at + k) != pat.get_char(k) {
            proof {
                assert(s@.subrange(at as int, at + m)[k as int] == s@[at + k]);
            }
            return false;
        }
        k += 1;
    }
    proof {
        assert(s@.subrange(at as int, at + m) =~= pat@);
    }
    true
}

/// The first position where `pat` occurs in `s`.
pub fn find_first(s: &str, pat: &str) -> (found: Option<usize>)
    ensures
        match found {
            Some(i) => find_from(s@, pat@, 0) == i,
            None => find_from(s@, pat@, 0) == -1,
        },
{
    let n: usize = s.unicode_len();
    let m: usize = pat.unicode_len();
    if m > n {
        return None;
    }
    let mut i: usize = 0;
    loop
        invariant
            m <= n,
            m == pat@.len(),
            n == s@.len(),
            i <= n - m,
            find_from(s@, pat@, 0) == find_from(s@, pat@, i as int),
        decreases n - m - i,
    {
        if matches_here(s, i, pat) {
            return Some(i);
        }
        if i == n - m {
            proof {
                assert(find_from(s@, pat@, i + 1) == -1);
            }
            return None;
        }
        i += 1;
    }
}

/// The pieces of `s` between the occurrences of `pat`.
pub fn split_text(s: &str, pat: &str) -> (parts: Vec<String>)
    ensures
        parts@.len() == split(s@, pat@).len(),
        forall|i: int| 0 <= i < parts@.len() ==> (#[trigger] parts@[i])@ == split(s@, pat@)[i],
{
    let mut parts: Vec<String> = Vec::new();
    let m: usize = pat.unicode_len();
    let mut rest: &str = s;
    let ghost mut done: Seq<Seq<char>> = Seq::empty();
    if m == 0 {
        parts.push(String::from_str(s));
        return parts;
    }
    loop
        invariant
            m == pat@.len(),
            m > 0,
            done.len() == parts@.len(),
            forall|i: int| 0 <= i < parts@.len() ==> (#[trigger] parts@[i])@ == done[i],
            split(s@, pat@) == done + split(rest@, pat@),
        decreases rest@.len(),
    {
        let n: usize = rest.unicode_len();
        match find_first(rest, pat) {
            None => {
                parts.push(String::from_str(rest));
                proof {
                    done = done.push(rest@);
                    assert(split(s@, pat@) =~= done);
                }
                return parts;
            },
            Some(i) => {
                proof {
                    lemma_find_result(rest@, pat@, 0);
                }
                let piece: &str = rest.substring_char(0, i);
                let tail: &str = rest.substring_char(i + m, n);
                parts.push(String::from_str(piece));
                proof {
                    assert(done + (seq![piece@] + split(tail@, pat@)) =~= done.push(piece@) + split(
                        tail@,
                        pat@,
                    ));
                    done = done.push(piece@);
                }
                rest = tail;
            },
        }
    }
}

/// Whether two texts hold the same characters.
pub fn same_text(a: &str, b: &str) -> (same: bool)
    ensures
        same == (a@ == b@),
{
    let n: usize = a.unicode_len();
    if n != b.unicode_len() {
        return false;
    }
    let found = matches_here(a, 0, b);
    proof {
        assert(a@.subrange(0, n as int) =~= a@);
    }
    found
}

/// Appends `n` blanks to `out`.
pub fn push_spaces(out: &mut String, n: usize)
    ensures
        final(out)@ == old(out)@ + spaces(n as nat),
{
    let mut k: usize = 0;
    proof {
        assert(out@ =~= old(out)@ + spaces(0));
    }
    while k < n
        invariant
            k <= n,
            out@ == old(out)@ + spaces(k as nat),
        decreases n - k,
    {
        proof {
            reveal_strlit(" ");
            assert(" "@ =~= seq![' ']);
            assert(old(out)@ + spaces(k as nat) + seq![' '] =~= old(out)@ + spaces((k + 1) as nat));
        }
        out.append(" ");
        k += 1;
    }
}

/// Appends the characters of `s` from `from` up to `to`, padded with blanks
/// to `width`.
pub fn push_padded(out: &mut String, s: &str, from: usize, to: usize, width: usize)
    requires
        from <= to <= s@.len(),
    ensures
        final(out)@ == old(out)@ + pad_right(s@.subrange(from as int, to as int), width as nat),
{
    let piece: &str = s.substring_char(from, to);
    out.append(piece);
    let len: usize = to - from;
    if len < width {
        push_spaces(out, width - len);
        proof {
            assert(old(out)@ + piece@ + spaces((width - len) as nat) =~= old(out)@ + (piece@
                + spaces((width - len) as nat)));
        }
    }
}

/// Appends `s` cut or padded to exactly `width` characters.
pub fn push_fitted(out: &mut String, s: &str, width: usize)
    ensures
        final(out)@ == old(out)@ + fit(s@, width as nat),
{
    let n: usize = s.unicode_len();
    if n > width {
        out.append(s.substring_char(0, width));
    } else {
        push_padded(out, s, 0, n, width);
        proof {
            assert(s@.subrange(0, n as int) =~= s@);
        }
    }
}

/// The one-character text of a decimal digit.
pub fn digit_text(d: usize) -> (t: &'static str)
    requires
        d < 10,
    ensures
        t@ == seq![digit_char(d as nat)],
{
    proof {
        reveal_strlit("0");
        reveal_strlit("1");
        reveal_strlit("2");
        reveal_strlit("3");
        reveal_strlit("4");
        reveal_strlit("5");
        reveal_strlit("6");
        reveal_strlit("7");
        reveal_strlit("8");
        reveal_strlit("9");
    }
    let t: &'static str = if d == 0 {
        "0"
    } else if d == 1 {
        "1"
    } else if d == 2 {
        "2"
    } else if d == 3 {
        "3"
    } else if d == 4 {
        "4"
    } else if d == 5 {
        "5"
    } else if d == 6 {
        "6"
    } else if d == 7 {
        "7"
    } else if d == 8 {
        "8"
    } else {
        "9"
    };
    proof {
        assert(t@ =~= seq![digit_char(d as nat)]);
    }
    t
}

/// The decimal numeral of `n`.
pub fn decimal_text(n: usize) -> (t: String)
    ensures
        t@ == decimal(n as nat),
    decreases n,
{
    if n < 10 {
        String::from_str(digit_text(n))
    } else {
        let mut t: String = decimal_text(n / 10);
        t.append(digit_text(n % 10));
        t
    }
}

/// A numeral below one thousand has at most three digits.
pub proof fn lemma_decimal_len(n: nat)
    requires
        n < 1000,
    ensures
        1 <= decimal(n).len() <= 3,
{
    reveal_with_fuel(decimal, 4);
}

} // verus!
