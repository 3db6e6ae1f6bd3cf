//! Character-level scanning shared by the tag and line grammars.
//!
//! Every executable function here is specified against a mathematical
//! function on `Seq<char>`, the view of a string.

use vstd::prelude::*;
use vstd::string::StrSliceExecFns;

verus! {

/// Position of the first `c` in `s`, or `s.len()` when `s` holds no `c`.
pub open spec fn index_of(s: Seq<char>, c: char) -> nat
    decreases s.len(),
{
    if s.len() == 0 || s[0] == c {
        0
    } else {
        1 + index_of(s.drop_first(), c)
    }
}

/// `index_of` stays within `s`, passes over no `c`, and stops on one unless
/// it reaches the end.
pub proof fn lemma_index_of(s: Seq<char>, c: char)
    ensures
        index_of(s, c) <= s.len(),
        forall|j: int| 0 <= j < index_of(s, c) ==> s[j] != c,
        index_of(s, c) < s.len() ==> s[index_of(s, c) as int] == c,
    decreases s.len(),
{
    if s.len() == 0 || s[0] == c {
    } else {
        let rest = s.drop_first();
        lemma_index_of(rest, c);
        assert forall|j: int| 0 <= j < index_of(s, c) implies s[j] != c by {
            if j > 0 {
                assert(s[j] == rest[j - 1]);
            }
        }
        assert(index_of(s, c) < s.len() ==> s[index_of(s, c) as int] == rest[index_of(rest, c) as int]);
    }
}

/// A position that passes over no `c` and stops on one (or at the end) is
/// the one `index_of` names.
pub proof fn lemma_index_of_unique(s: Seq<char>, c: char, i: int)
    requires
        0 <= i <= s.len(),
        forall|j: int| 0 <= j < i ==> s[j] != c,
        i < s.len() ==> s[i] == c,
    ensures
        index_of(s, c) == i,
{
    lemma_index_of(s, c);
    let k = index_of(s, c) as int;
    if k < i {
        assert(s[k] == c);
    } else if i < k {
        assert(s[i] == c);
    }
}

/// The pieces of `s` between occurrences of `sep`. A sequence without `sep`
/// is one piece, so the result is never empty, and `n` separators give
/// `n + 1` pieces, some of which may be empty.
pub open spec fn pieces(s: Seq<char>, sep: char) -> Seq<Seq<char>>
    decreases s.len(),
{
    let i = index_of(s, sep) as int;
    if i >= s.len() {
        seq![s]
    } else {
        seq![s.take(i)] + pieces(s.skip(i + 1), sep)
    }
}

/// Splitting always yields at least one piece.
pub proof fn lemma_pieces_not_empty(s: Seq<char>, sep: char)
    ensures
        pieces(s, sep).len() >= 1,
{
}

/// `l` without one carriage return at its end, if it has one.
pub open spec fn without_cr(l: Seq<char>) -> Seq<char> {
    if l.len() > 0 && l.last() == '\r' {
        l.drop_last()
    } else {
        l
    }
}

/// The lines of `s`. A line ends at a line feed; a carriage return directly
/// before that line feed belongs to the line ending. Neither is part of the
/// line. The last line needs no line ending, and an empty rest after the
/// last line ending is no line.
pub open spec fn lines_of(s: Seq<char>) -> Seq<Seq<char>>
    decreases s.len(),
{
    let i = index_of(s, '\n') as int;
    if s.len() == 0 {
        Seq::empty()
    } else if i >= s.len() {
        seq![s]
    } else {
        seq![without_cr(s.take(i))] + lines_of(s.skip(i + 1))
    }
}

/// `c` is one of the ten decimal digits.
pub open spec fn is_digit(c: char) -> bool {
    '0' <= c <= '9'
}

/// Every character of `s` is a decimal digit.
pub open spec fn all_digits(s: Seq<char>) -> bool {
    forall|i: int| 0 <= i < s.len() ==> is_digit(#[trigger] s[i])
}

/// The number that the digits `s` write in base ten; 0 for no digits.
pub open spec fn digits_value(s: Seq<char>) -> nat
    decreases s.len(),
{
    if s.len() == 0 {
        0
    } else {
        (digits_value(s.drop_last()) * 10 + (s.last() as int - '0' as int)) as nat
    }
}

/// The digits of a decimal literal: `s` without one leading `+`.
pub open spec fn literal_digits(s: Seq<char>) -> Seq<char> {
    if s.len() > 0 && s[0] == '+' {
        s.drop_first()
    } else {
        s
    }
}

/// The `u32` that `s` writes in base ten: an optional `+`, then one or more
/// digits and nothing else, whose value fits in 32 bits. `None` otherwise.
pub open spec fn decimal(s: Seq<char>) -> Option<u32> {
    let digits = literal_digits(s);
    if digits.len() > 0 && all_digits(digits) && digits_value(digits) <= u32::MAX {
        Some(digits_value(digits) as u32)
    } else {
        None
    }
}

/// Among digits, a prefix never writes a larger number than the whole.
pub proof fn lemma_digits_value_prefix(s: Seq<char>, k: int)
    requires
        all_digits(s),
        0 <= k <= s.len(),
    ensures
        digits_value(s.take(k)) <= digits_value(s),
    decreases s.len(),
{
    if k == s.len() {
        assert(s.take(k) =~= s);
    } else {
        let front = s.drop_last();
        assert(is_digit(s.last()));
        assert forall|i: int| 0 <= i < front.len() implies is_digit(#[trigger] front[i]) by {
            assert(front[i] == s[i]);
        }
        lemma_digits_value_prefix(front, k);
        assert(front.take(k) =~= s.take(k));
    }
}

/// The characters of `s`, in order.
pub fn to_chars(s: &str) -> (chars: Vec<char>)
    ensures
        chars@ == s@,
{
    broadcast use vstd::string::group_string_axioms;

    let mut chars: Vec<char> = Vec::new();
    for c in it: s.chars()
        invariant
            it.seq() == s@,
            chars@ == s@.subrange(0, it.index()),
    {
        chars.push(c);
    }
    assert(chars@ == s@);
    chars
}

/// Whether `a` and `b` hold the same characters.
pub fn equal(a: &str, b: &str) -> (same: bool)
    ensures
        same == (a@ == b@),
{
    let x = a.to_owned();
    let y = b.to_owned();
    x == y
}

/// The characters of `s` from position `from` up to, not including, `to`.
pub fn substring(s: &str, from: usize, to: usize) -> (part: String)
    requires
        from <= to <= s@.len(),
    ensures
        part@ == s@.subrange(from as int, to as int),
{
    s.substring_char(from, to).to_owned()
}

/// Scans `chars` from `from` for the first `c`: its position, or
/// `chars.len()` when there is none.
pub fn find(chars: &Vec<char>, from: usize, c: char) -> (at: usize)
    requires
        from <= chars.len(),
    ensures
        from <= at <= chars.len(),
        at == from + index_of(chars@.skip(from as int), c),
{
    let mut i: usize = from;
    while i < chars.len() && chars[i] != c
        invariant
            from <= i <= chars.len(),
            forall|j: int| from <= j < i ==> chars@[j] != c,
        decreases chars.len() - i,
    {
        i += 1;
    }
    proof {
        lemma_index_of_unique(chars@.skip(from as int), c, i - from);
    }
    i
}

/// Whether `chars` begins with the characters of `prefix`.
pub fn has_prefix(chars: &Vec<char>, prefix: &str) -> (yes: bool)
    ensures
        yes == prefix@.is_prefix_of(chars@),
{
    let p = to_chars(prefix);
    if p.len() > chars.len() {
        return false;
    }
    let mut i: usize = 0;
    while i < p.len()
        invariant
            p@ == prefix@,
            p.len() <= chars.len(),
            i <= p.len(),
            forall|j: int| 0 <= j < i ==> p@[j] == chars@[j],
        decreases p.len() - i,
    {
        if p[i] != chars[i] {
            assert(p@[i as int] != chars@.subrange(0, p@.len() as int)[i as int]);
            return false;
        }
        i += 1;
    }
    assert(p@ =~= chars@.subrange(0, p@.len() as int));
    true
}

/// Splits `s` at every `sep`.
pub fn split(s: &str, sep: char) -> (parts: Vec<String>)
    ensures
        parts.deep_view() == pieces(s@, sep),
{
    let chars = to_chars(s);
    let mut parts: Vec<String> = Vec::new();
    let mut start: usize = 0;
    let mut done = false;
    proof {
        assert(s@.skip(0) =~= s@);
        assert(parts.deep_view() + pieces(s@, sep) =~= pieces(s@, sep));
    }
    while !done
        invariant
            chars@ == s@,
            start <= chars.len(),
            !done ==> pieces(s@, sep) == parts.deep_view() + pieces(s@.skip(start as int), sep),
            done ==> pieces(s@, sep) == parts.deep_view(),
        decreases chars.len() - start + (if done { 0int } else { 1int }),
    {
        let end = find(&chars, start, sep);
        let ghost before = parts.deep_view();
        let ghost rest = s@.skip(start as int);
        parts.push(substring(s, start, end));
        proof {
            assert(s@.subrange(start as int, end as int) == rest.take(end - start));
            assert(parts.deep_view() =~= before.push(rest.take(end - start)));
        }
        if end >= chars.len() {
            proof {
                assert(rest.take(end - start) =~= rest);
                assert(before + seq![rest] =~= before.push(rest));
            }
            done = true;
        } else {
            proof {
                assert(rest.skip(end - start + 1) =~= s@.skip(end + 1));
                assert(before + (seq![rest.take(end - start)] + pieces(s@.skip(end + 1), sep))
                    =~= before.push(rest.take(end - start)) + pieces(s@.skip(end + 1), sep));
            }
            start = end + 1;
        }
    }
    parts
}

/// Splits `s` into its lines.
pub fn split_lines(s: &str) -> (lines: Vec<String>)
    ensures
        lines.deep_view() == lines_of(s@),
{
    let chars = to_chars(s);
    let mut lines: Vec<String> = Vec::new();
    let mut start: usize = 0;
    proof {
        assert(s@.skip(0) =~= s@);
        assert(lines.deep_view() + lines_of(s@) =~= lines_of(s@));
    }
    while start < chars.len()
        invariant
            chars@ == s@,
            start <= chars.len(),
            lines_of(s@) == lines.deep_view() + lines_of(s@.skip(start as int)),
        decreases chars.len() - start,
    {
        let end = find(&chars, start, '\n');
        let ghost before = lines.deep_view();
        let ghost rest = s@.skip(start as int);
        proof {
            assert(s@.subrange(start as int, end as int) == rest.take(end - start));
        }
        if end >= chars.len() {
            lines.push(substring(s, start, end));
            proof {
                assert(rest.take(end - start) =~= rest);
                assert(lines.deep_view() =~= before.push(rest));
                assert(s@.skip(end as int).len() == 0);
                assert(before + seq![rest] =~= before.push(rest) + lines_of(s@.skip(end as int)));
            }
            start = end;
        } else {
            let stop = if end > start && chars[end - 1] == '\r' {
                end - 1
            } else {
                end
            };
            lines.push(substring(s, start, stop));
            proof {
                let line = rest.take(end - start);
                assert(s@.subrange(start as int, stop as int) =~= without_cr(line));
                assert(lines.deep_view() =~= before.push(without_cr(line)));
                assert(rest.skip(end - start + 1) =~= s@.skip(end + 1));
                assert(before + (seq![without_cr(line)] + lines_of(s@.skip(end + 1)))
                    =~= before.push(without_cr(line)) + lines_of(s@.skip(end + 1)));
            }
            start = end + 1;
        }
    }
    proof {
        assert(lines.deep_view() + Seq::<Seq<char>>::empty() =~= lines.deep_view());
    }
    lines
}

/// Reads `s` as a `u32` written in base ten.
pub fn parse_u32(s: &str) -> (value: Option<u32>)
    ensures
        value == decimal(s@),
{
    let chars = to_chars(s);
    let n = chars.len();
    let first: usize = if n > 0 && chars[0] == '+' {
        1
    } else {
        0
    };
    let ghost digits = literal_digits(s@);
    assert(digits =~= s@.skip(first as int));
    if first == n {
        return None;
    }
    let mut acc: u32 = 0;
    let mut i: usize = first;
    while i < n
        invariant
            chars@ == s@,
            n == chars.len(),
            digits == literal_digits(s@),
            digits == s@.skip(first as int),
            first <= i <= n,
            all_digits(digits.take(i - first)),
            acc == digits_value(digits.take(i - first)),
        decreases n - i,
    {
        let c = chars[i];
        let ghost seen = digits.take(i - first);
        let ghost more = digits.take(i - first + 1);
        assert(digits[i - first] == c);
        if c < '0' || c > '9' {
            assert(!is_digit(digits[i - first]));
            return None;
        }
        assert(more.drop_last() =~= seen);
        assert(more.last() == c);
        assert forall|j: int| 0 <= j < more.len() implies is_digit(#[trigger] more[j]) by {
            if j < seen.len() {
                assert(more[j] == seen[j]);
            }
        }
        let next: u64 = acc as u64 * 10 + (c as u64 - '0' as u64);
        assert(next == digits_value(more));
        if next > u32::MAX as u64 {
            proof {
                if all_digits(digits) {
                    lemma_digits_value_prefix(digits, i - first + 1);
                }
            }
            return None;
        }
        acc = next as u32;
        i += 1;
    }
    assert(digits.take(n - first) =~= digits);
    Some(acc)
}

} // verus!
