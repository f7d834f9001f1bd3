//! Trimming and splitting of character sequences.

use crate::text::{
    chars_of, copy_range, lemma_run_len, lemma_run_len_holds, lemma_tail_run_len,
    lemma_tail_run_len_holds, lowercase, non_space, other_than, run_len, same, space, starts_with, string_of,
    tail_run_len, views, white_space,
};
use vstd::prelude::*;

verus! {

/// `s` without its leading whitespace.
pub open spec fn trim_start(s: Seq<char>) -> Seq<char> {
    s.skip(run_len(s, space()) as int)
}

/// `s` without its trailing whitespace.
pub open spec fn trim_end(s: Seq<char>) -> Seq<char> {
    s.take(s.len() - tail_run_len(s, space()))
}

/// `s` without leading and trailing whitespace.
pub open spec fn trim(s: Seq<char>) -> Seq<char> {
    trim_end(trim_start(s))
}

/// Whether `s` neither begins nor ends with whitespace.
pub open spec fn is_trimmed(s: Seq<char>) -> bool {
    s.len() > 0 ==> !white_space(s.first()) && !white_space(s.last())
}

/// The first whitespace-separated word of `s`; empty if `s` has none.
pub open spec fn first_word(s: Seq<char>) -> Seq<char> {
    let t = trim_start(s);
    t.take(run_len(t, non_space()) as int)
}

/// What follows the first word of `s`.
pub open spec fn after_first_word(s: Seq<char>) -> Seq<char> {
    let t = trim_start(s);
    t.skip(run_len(t, non_space()) as int)
}

/// The second whitespace-separated word of `s`; empty if `s` has fewer than two.
pub open spec fn second_word(s: Seq<char>) -> Seq<char> {
    first_word(after_first_word(s))
}

/// The part of `s` before the first `c`; all of `s` if it holds no `c`.
pub open spec fn before_first(s: Seq<char>, c: char) -> Seq<char> {
    s.take(run_len(s, other_than(c)) as int)
}

/// The part of `s` after the last `c`; all of `s` if it holds no `c`.
pub open spec fn after_last(s: Seq<char>, c: char) -> Seq<char> {
    s.skip(s.len() - tail_run_len(s, other_than(c)))
}

/// `s` with every character that occurs in `banned` taken out.
pub open spec fn without(s: Seq<char>, banned: Seq<char>) -> Seq<char>
    decreases s.len(),
{
    if s.len() == 0 {
        s
    } else if banned.contains(s.last()) {
        without(s.drop_last(), banned)
    } else {
        without(s.drop_last(), banned).push(s.last())
    }
}

/// `s` with every `from` replaced by `to`.
pub open spec fn replaced(s: Seq<char>, from: char, to: char) -> Seq<char> {
    Seq::new(s.len(), |i: int| if s[i] == from { to } else { s[i] })
}

/// Whether `pat` occurs in `s` as a contiguous run.
pub open spec fn has_substring(s: Seq<char>, pat: Seq<char>) -> bool {
    exists|i: int| 0 <= i <= s.len() - pat.len() && #[trigger] s.subrange(i, i + pat.len()) == pat
}

/// Number of leading whitespace characters of `s`.
pub fn leading_space(s: &[char]) -> (n: usize)
    ensures
        n == run_len(s@, space()),
        n <= s.len(),
{
    let mut i: usize = 0;
    while i < s.len() && s[i].is_whitespace()
        invariant
            i <= s.len(),
            forall|j: int| 0 <= j < i ==> space()(#[trigger] s@[j]),
        decreases s.len() - i,
    {
        i += 1;
    }
    proof {
        lemma_run_len(s@, space(), i as int);
    }
    i
}

/// Number of leading characters of `s` that are not whitespace.
pub fn leading_word(s: &[char]) -> (n: usize)
    ensures
        n == run_len(s@, non_space()),
        n <= s.len(),
{
    let mut i: usize = 0;
    while i < s.len() && !s[i].is_whitespace()
        invariant
            i <= s.len(),
            forall|j: int| 0 <= j < i ==> non_space()(#[trigger] s@[j]),
        decreases s.len() - i,
    {
        i += 1;
    }
    proof {
        lemma_run_len(s@, non_space(), i as int);
    }
    i
}

/// Number of trailing whitespace characters of `s`.
pub fn trailing_space(s: &[char]) -> (n: usize)
    ensures
        n == tail_run_len(s@, space()),
        n <= s.len(),
{
    let mut n: usize = 0;
    while n < s.len() && s[s.len() - n - 1].is_whitespace()
        invariant
            n <= s.len(),
            forall|j: int| s@.len() - n <= j < s@.len() ==> space()(#[trigger] s@[j]),
        decreases s.len() - n,
    {
        n += 1;
    }
    proof {
        lemma_tail_run_len(s@, space(), n as int);
    }
    n
}

/// Index of the first `c` in `s`, or the length of `s` if there is none.
pub fn position(s: &[char], c: char) -> (n: usize)
    ensures
        n == run_len(s@, other_than(c)),
        n <= s.len(),
{
    let mut i: usize = 0;
    while i < s.len() && s[i] != c
        invariant
            i <= s.len(),
            forall|j: int| 0 <= j < i ==> other_than(c)(#[trigger] s@[j]),
        decreases s.len() - i,
    {
        i += 1;
    }
    proof {
        lemma_run_len(s@, other_than(c), i as int);
    }
    i
}

/// Number of characters after the last `c` in `s`; the length of `s` if there is none.
pub fn tail_without(s: &[char], c: char) -> (n: usize)
    ensures
        n == tail_run_len(s@, other_than(c)),
        n <= s.len(),
{
    let mut n: usize = 0;
    while n < s.len() && s[s.len() - n - 1] != c
        invariant
            n <= s.len(),
            forall|j: int| s@.len() - n <= j < s@.len() ==> other_than(c)(#[trigger] s@[j]),
        decreases s.len() - n,
    {
        n += 1;
    }
    proof {
        lemma_tail_run_len(s@, other_than(c), n as int);
    }
    n
}

/// Removes leading and trailing whitespace.
pub fn trimmed(s: &[char]) -> (v: Vec<char>)
    ensures
        v@ == trim(s@),
        is_trimmed(v@),
{
    let a = leading_space(s);
    let rest = copy_range(s, a, s.len());
    let b = trailing_space(rest.as_slice());
    let v = copy_range(rest.as_slice(), 0, rest.len() - b);
    proof {
        assert(rest@ == trim_start(s@));
        assert(v@ == trim(s@));
        lemma_run_len_holds(s@, space());
        lemma_tail_run_len_holds(rest@, space());
        if v@.len() > 0 {
            assert(v@.last() == rest@[rest@.len() - b - 1]);
            assert(v@.first() == rest@[0]);
            assert(rest@[0] == s@[a as int]);
        }
    }
    v
}

/// Splits off the first whitespace-separated word: the word, and what follows it.
pub fn split_word(s: &[char]) -> (r: (Vec<char>, Vec<char>))
    ensures
        r.0@ == first_word(s@),
        r.1@ == after_first_word(s@),
{
    let a = leading_space(s);
    let t = copy_range(s, a, s.len());
    let n = leading_word(t.as_slice());
    let word = copy_range(t.as_slice(), 0, n);
    let rest = copy_range(t.as_slice(), n, t.len());
    (word, rest)
}

/// The part of `s` before its first `c`.
pub fn head_before(s: &[char], c: char) -> (v: Vec<char>)
    ensures
        v@ == before_first(s@, c),
{
    let n = position(s, c);
    copy_range(s, 0, n)
}

/// The part of `s` after its last `c`.
pub fn tail_after(s: &[char], c: char) -> (v: Vec<char>)
    ensures
        v@ == after_last(s@, c),
{
    let n = tail_without(s, c);
    copy_range(s, s.len() - n, s.len())
}

/// Whether `c` occurs in `set`.
pub fn is_one_of(c: char, set: &[char]) -> (r: bool)
    ensures
        r == set@.contains(c),
{
    let mut i: usize = 0;
    while i < set.len()
        invariant
            i <= set.len(),
            forall|j: int| 0 <= j < i ==> set@[j] != c,
        decreases set.len() - i,
    {
        if set[i] == c {
            return true;
        }
        i += 1;
    }
    false
}

/// Removes every character listed in `banned`.
pub fn strip_chars(s: &[char], banned: &[char]) -> (v: Vec<char>)
    ensures
        v@ == without(s@, banned@),
{
    let mut v: Vec<char> = Vec::new();
    let mut i: usize = 0;
    while i < s.len()
        invariant
            i <= s.len(),
            v@ == without(s@.take(i as int), banned@),
        decreases s.len() - i,
    {
        assert(s@.take(i + 1).drop_last() == s@.take(i as int));
        if !is_one_of(s[i], banned) {
            v.push(s[i]);
        }
        i += 1;
    }
    assert(s@.take(s@.len() as int) == s@);
    v
}

/// Replaces every `from` by `to`.
pub fn replace_char(s: &[char], from: char, to: char) -> (v: Vec<char>)
    ensures
        v@ == replaced(s@, from, to),
{
    let mut v: Vec<char> = Vec::new();
    let mut i: usize = 0;
    while i < s.len()
        invariant
            i <= s.len(),
            v@.len() == i,
            forall|j: int| 0 <= j < i ==> v@[j] == replaced(s@, from, to)[j],
        decreases s.len() - i,
    {
        if s[i] == from {
            v.push(to);
        } else {
            v.push(s[i]);
        }
        i += 1;
    }
    assert(v@ =~= replaced(s@, from, to));
    v
}

/// Whether `pat` occurs somewhere in `s`.
pub fn contains(s: &[char], pat: &[char]) -> (r: bool)
    ensures
        r == has_substring(s@, pat@),
{
    if pat.len() > s.len() {
        return false;
    }
    let last: usize = s.len() - pat.len();
    let mut i: usize = 0;
    loop
        invariant
            last == s.len() - pat.len(),
            i <= last,
            forall|k: int| 0 <= k < i ==> #[trigger] s@.subrange(k, k + pat@.len()) != pat@,
        decreases last - i,
    {
        let window = copy_range(s, i, i + pat.len());
        if same(window.as_slice(), pat) {
            return true;
        }
        if i == last {
            return false;
        }
        i += 1;
    }
}

/// The Unicode lowercase form of `s`.
pub fn lowered(s: &[char]) -> (v: Vec<char>)
    ensures
        v@ == lowercase(s@),
{
    let text = string_of(s);
    let lower = text.as_str().to_lowercase();
    chars_of(lower.as_str())
}

/// A line without the carriage return that may end it.
pub open spec fn strip_cr(line: Seq<char>) -> Seq<char> {
    if line.len() > 0 && line.last() == '\r' {
        line.drop_last()
    } else {
        line
    }
}

/// The lines of a text. A line ends at a line feed; a carriage return just
/// before the line feed belongs to the line ending. The last line needs no
/// line ending, and an empty text has no lines.
pub open spec fn lines(s: Seq<char>) -> Seq<Seq<char>>
    decreases s.len(),
{
    if s.len() == 0 {
        Seq::empty()
    } else {
        let n = run_len(s, other_than('\n')) as int;
        if n < s.len() {
            seq![strip_cr(s.take(n))] + lines(s.skip(n + 1))
        } else {
            seq![s]
        }
    }
}

/// Whether `s` spells the text `lit`.
pub fn is_text(s: &[char], lit: &str) -> (r: bool)
    ensures
        r == (s@ == lit@),
{
    let l = chars_of(lit);
    same(s, l.as_slice())
}

/// Index of the first `c` in `s` at or after `from`, or the length of `s`.
pub fn position_from(s: &[char], from: usize, c: char) -> (n: usize)
    requires
        from <= s.len(),
    ensures
        from <= n <= s.len(),
        n - from == run_len(s@.skip(from as int), other_than(c)),
{
    let mut i: usize = from;
    while i < s.len() && s[i] != c
        invariant
            from <= i <= s.len(),
            forall|j: int| from <= j < i ==> other_than(c)(#[trigger] s@[j]),
        decreases s.len() - i,
    {
        i += 1;
    }
    proof {
        let t = s@.skip(from as int);
        assert forall|j: int| 0 <= j < i - from implies other_than(c)(#[trigger] t[j]) by {
            assert(t[j] == s@[from + j]);
        }
        lemma_run_len(t, other_than(c), i - from);
    }
    i
}

/// The first `limit` lines of `s`, or all of them if there are fewer.
pub fn first_lines(s: &[char], limit: usize) -> (out: Vec<Vec<char>>)
    ensures
        out@.len() <= limit,
        out@.len() <= lines(s@).len(),
        views(out@) == lines(s@).take(out@.len() as int),
        out@.len() == limit || out@.len() == lines(s@).len(),
{
    let mut out: Vec<Vec<char>> = Vec::new();
    let mut pos: usize = 0;
    assert(s@.skip(0) == s@);
    assert(views(out@) + lines(s@) == lines(s@));
    while pos < s.len() && out.len() < limit
        invariant
            pos <= s.len(),
            out@.len() <= limit,
            lines(s@) == views(out@) + lines(s@.skip(pos as int)),
        decreases s.len() - pos,
    {
        let end = position_from(s, pos, '\n');
        let ghost rest = s@.skip(pos as int);
        let ghost before = views(out@);
        assert(rest.take(end - pos) == s@.subrange(pos as int, end as int));
        if end < s.len() {
            let stop = if end > pos && s[end - 1] == '\r' {
                end - 1
            } else {
                end
            };
            let line = copy_range(s, pos, stop);
            assert(line@ == strip_cr(rest.take(end - pos)));
            out.push(line);
            assert(rest.skip(end - pos + 1) == s@.skip(end + 1));
            assert(views(out@) == before.push(line@));
            assert(before + (seq![line@] + lines(s@.skip(end + 1))) == before.push(line@) + lines(
                s@.skip(end + 1),
            ));
            pos = end + 1;
        } else {
            let line = copy_range(s, pos, end);
            assert(line@ == rest);
            out.push(line);
            assert(views(out@) == before.push(line@));
            assert(s@.skip(s@.len() as int) == Seq::<char>::empty());
            assert(before + seq![rest] == before.push(rest) + lines(Seq::<char>::empty()));
            pos = end;
        }
    }
    proof {
        let done = views(out@);
        let rest = lines(s@.skip(pos as int));
        assert((done + rest).take(done.len() as int) == done);
        if pos >= s.len() {
            assert(s@.skip(pos as int).len() == 0);
            assert(rest.len() == 0);
        }
    }
    out
}

/// A text has at most as many lines as characters.
pub proof fn lemma_lines_len(s: Seq<char>)
    ensures
        lines(s).len() <= s.len(),
    decreases s.len(),
{
    if s.len() > 0 {
        let n = run_len(s, other_than('\n')) as int;
        if n < s.len() {
            lemma_lines_len(s.skip(n + 1));
        }
    }
}

/// All lines of `s`.
pub fn all_lines(s: &[char]) -> (out: Vec<Vec<char>>)
    ensures
        views(out@) == lines(s@),
{
    let out = first_lines(s, s.len());
    proof {
        lemma_lines_len(s@);
        assert(lines(s@).take(lines(s@).len() as int) == lines(s@));
    }
    out
}

/// Index at which `pat` first occurs in `s`; the length of `s` if it does not occur.
pub open spec fn find_sub(s: Seq<char>, pat: Seq<char>) -> nat
    decreases s.len(),
{
    if s.len() == 0 || pat.is_prefix_of(s) {
        0
    } else {
        1 + find_sub(s.drop_first(), pat)
    }
}

/// The part of `s` before the first occurrence of `pat`; all of `s` if `pat` does not occur.
pub open spec fn before_sub(s: Seq<char>, pat: Seq<char>) -> Seq<char> {
    s.take(find_sub(s, pat) as int)
}

/// `find_sub` is pinned down by its result: `pat` starts nowhere before
/// `n`, and starts at `n` unless `n` is the end of `s`.
pub proof fn lemma_find_sub(s: Seq<char>, pat: Seq<char>, n: int)
    requires
        0 <= n <= s.len(),
        forall|k: int| 0 <= k < n ==> !pat.is_prefix_of(#[trigger] s.skip(k)),
        n < s.len() ==> pat.is_prefix_of(s.skip(n)),
    ensures
        find_sub(s, pat) == n,
    decreases n,
{
    assert(s.skip(0) == s);
    if n > 0 {
        let t = s.drop_first();
        assert forall|k: int| 0 <= k < n - 1 implies !pat.is_prefix_of(#[trigger] t.skip(k)) by {
            assert(t.skip(k) == s.skip(k + 1));
        }
        assert(t.skip(n - 1) == s.skip(n));
        lemma_find_sub(t, pat, n - 1);
    }
}

/// The part of `s` before the first occurrence of `pat`.
pub fn head_before_sub(s: &[char], pat: &[char]) -> (v: Vec<char>)
    ensures
        v@ == before_sub(s@, pat@),
{
    let mut i: usize = 0;
    let mut found = false;
    while i < s.len() && !found
        invariant
            i <= s.len(),
            forall|k: int| 0 <= k < i ==> !pat@.is_prefix_of(#[trigger] s@.skip(k)),
            found ==> i < s.len() && pat@.is_prefix_of(s@.skip(i as int)),
        decreases s.len() - i, (if found { 0int } else { 1int }),
    {
        let rest = copy_range(s, i, s.len());
        assert(rest@ == s@.skip(i as int));
        if starts_with(rest.as_slice(), pat) {
            found = true;
        } else {
            i += 1;
        }
    }
    proof {
        lemma_find_sub(s@, pat@, i as int);
    }
    copy_range(s, 0, i)
}

} // verus!
