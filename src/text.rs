//! Character-level helpers shared by the parsers: conversions between
//! strings and character vectors, decimal numbers, searching and trimming.
use vstd::prelude::*;

verus! {

/// Relies on `str::chars`: it yields the characters of the string, in order.
#[verifier::external_body]
pub(crate) fn chars_of(s: &str) -> (r: Vec<char>)
    ensures
        r@ == s@,
{
    s.chars().collect()
}

/// Relies on `String: FromIterator<char>`: the string holds the given characters, in order.
#[verifier::external_body]
pub(crate) fn string_of(v: &[char]) -> (r: String)
    ensures
        r@ == v@,
{
    v.iter().collect()
}

/// A copy of the characters `s[start..end]` as a string.
pub fn substring(s: &Vec<char>, start: usize, end: usize) -> (r: String)
    requires
        start <= end <= s.len(),
    ensures
        r@ == s@.subrange(start as int, end as int),
{
    let mut v: Vec<char> = Vec::new();
    let mut i: usize = start;
    while i < end
        invariant
            start <= i <= end <= s.len(),
            v@ == s@.subrange(start as int, i as int),
        decreases end - i,
    {
        v.push(s[i]);
        i = i + 1;
        assert(v@ =~= s@.subrange(start as int, i as int));
    }
    string_of(v.as_slice())
}

pub open spec fn is_digit(c: char) -> bool {
    '0' <= c && c <= '9'
}

pub open spec fn digit_of(c: char) -> nat {
    (c as u32 - '0' as u32) as nat
}

pub open spec fn all_digits(s: Seq<char>) -> bool {
    forall|i: int| 0 <= i < s.len() ==> is_digit(#[trigger] s[i])
}

/// Value of a sequence of decimal digits.
pub open spec fn digits_value(s: Seq<char>) -> nat
    decreases s.len(),
{
    if s.len() == 0 {
        0
    } else {
        digits_value(s.drop_last()) * 10 + digit_of(s.last())
    }
}

/// The digits of an unsigned decimal literal: an optional `+` sign removed.
pub open spec fn unsigned_digits(s: Seq<char>) -> Seq<char> {
    if s.len() > 0 && s[0] == '+' {
        s.drop_first()
    } else {
        s
    }
}

/// What parsing `s` as an unsigned integer no greater than `max` gives:
/// an optional `+`, then at least one decimal digit, and nothing else.
pub open spec fn parsed_uint(s: Seq<char>, max: nat) -> Option<nat> {
    let d = unsigned_digits(s);
    if d.len() > 0 && all_digits(d) && digits_value(d) <= max {
        Some(digits_value(d))
    } else {
        None
    }
}

/// Parses `s[start..end]` as an unsigned decimal integer no greater than `max`.
pub fn parse_uint(s: &Vec<char>, start: usize, end: usize, max: u64) -> (r: Option<u64>)
    requires
        start <= end <= s.len(),
    ensures
        r matches Some(v) ==> parsed_uint(s@.subrange(start as int, end as int), max as nat)
            == Some(v as nat),
        r is None ==> parsed_uint(s@.subrange(start as int, end as int), max as nat) is None,
{
    let ghost whole = s@.subrange(start as int, end as int);
    let mut b: usize = start;
    if start < end && s[start] == '+' {
        b = start + 1;
    }
    let ghost d = s@.subrange(b as int, end as int);
    assert(d =~= unsigned_digits(whole));
    if b == end {
        return None;
    }
    let mut val: u64 = 0;
    let mut i: usize = b;
    while i < end
        invariant
            b <= i <= end <= s.len(),
            d == s@.subrange(b as int, end as int),
            d == unsigned_digits(whole),
            whole == s@.subrange(start as int, end as int),
            all_digits(s@.subrange(b as int, i as int)),
            val as nat == digits_value(s@.subrange(b as int, i as int)),
            val <= max,
        decreases end - i,
    {
        let c = s[i];
        assert(s@.subrange(b as int, i as int + 1).drop_last() =~= s@.subrange(b as int, i as int));
        if !('0' <= c && c <= '9') {
            assert(d[i - b] == c);
            assert(!all_digits(d));
            return None;
        }
        let dv: u64 = (c as u32 - '0' as u32) as u64;
        if dv > max || val > (max - dv) / 10 {
            proof {
                assert(val * 10 + dv > max) by (nonlinear_arith)
                    requires
                        dv > max || val > (max - dv) / 10,
                        dv <= max ==> max - dv >= 0,
                ;
                assert(digits_value(s@.subrange(b as int, i as int + 1)) > max);
                if all_digits(d) {
                    lemma_digits_prefix_le(d, (i + 1 - b) as int);
                    assert(d.subrange(0, (i + 1 - b) as int) =~= s@.subrange(b as int, i as int + 1));
                }
            }
            return None;
        }
        assert(val * 10 + dv <= max) by (nonlinear_arith)
            requires
                dv <= max,
                val <= (max - dv) / 10,
        ;
        val = val * 10 + dv;
        i = i + 1;
        assert(all_digits(s@.subrange(b as int, i as int)));
    }
    assert(s@.subrange(b as int, i as int) =~= d);
    Some(val)
}

/// The value of a prefix of digits never exceeds that of the whole.
pub proof fn lemma_digits_prefix_le(d: Seq<char>, k: int)
    requires
        0 <= k <= d.len(),
        all_digits(d),
    ensures
        digits_value(d.subrange(0, k)) <= digits_value(d),
    decreases d.len() - k,
{
    if k < d.len() {
        lemma_digits_prefix_le(d, k + 1);
        assert(d.subrange(0, k + 1).drop_last() =~= d.subrange(0, k));
    } else {
        assert(d.subrange(0, k) =~= d);
    }
}

/// The whitespace characters of Unicode, as `char::is_whitespace` lists them.
pub open spec fn is_whitespace(c: char) -> bool {
    ('\u{9}' <= c && c <= '\u{d}') || c == ' ' || c == '\u{85}' || c == '\u{a0}'
        || c == '\u{1680}' || ('\u{2000}' <= c && c <= '\u{200a}') || c == '\u{2028}'
        || c == '\u{2029}' || c == '\u{202f}' || c == '\u{205f}' || c == '\u{3000}'
}

pub fn char_is_whitespace(c: char) -> (r: bool)
    ensures
        r == is_whitespace(c),
{
    ('\u{9}' <= c && c <= '\u{d}') || c == ' ' || c == '\u{85}' || c == '\u{a0}' || c
        == '\u{1680}' || ('\u{2000}' <= c && c <= '\u{200a}') || c == '\u{2028}' || c
        == '\u{2029}' || c == '\u{202f}' || c == '\u{205f}' || c == '\u{3000}'
}

/// Start of `s[start..end]` once its leading whitespace is skipped.
pub open spec fn trim_start_of(s: Seq<char>, start: int, end: int) -> int
    decreases end - start,
{
    if start < end && is_whitespace(s[start]) {
        trim_start_of(s, start + 1, end)
    } else {
        start
    }
}

/// End of `s[start..end]` once its trailing whitespace is dropped.
pub open spec fn trim_end_of(s: Seq<char>, start: int, end: int) -> int
    decreases end - start,
{
    if start < end && is_whitespace(s[end - 1]) {
        trim_end_of(s, start, end - 1)
    } else {
        end
    }
}

/// Bounds of `s[start..end]` without its leading and trailing whitespace.
pub fn trim_range(s: &Vec<char>, start: usize, end: usize) -> (r: (usize, usize))
    requires
        start <= end <= s.len(),
    ensures
        r.0 == trim_start_of(s@, start as int, end as int),
        r.1 == trim_end_of(s@, r.0 as int, end as int),
        start <= r.0 <= r.1 <= end,
{
    let mut a: usize = start;
    while a < end && char_is_whitespace(s[a])
        invariant
            start <= a <= end <= s.len(),
            trim_start_of(s@, start as int, end as int) == trim_start_of(s@, a as int, end as int),
        decreases end - a,
    {
        a = a + 1;
    }
    let mut b: usize = end;
    while b > a && char_is_whitespace(s[b - 1])
        invariant
            a <= b <= end <= s.len(),
            trim_end_of(s@, a as int, end as int) == trim_end_of(s@, a as int, b as int),
        decreases b - a,
    {
        b = b - 1;
    }
    (a, b)
}

/// Index of the first `c` in `s[from..end]`, if any.
pub open spec fn first_index_of(s: Seq<char>, from: int, end: int, c: char) -> Option<int>
    decreases end - from,
{
    if from >= end {
        None
    } else if s[from] == c {
        Some(from)
    } else {
        first_index_of(s, from + 1, end, c)
    }
}

pub fn find_char(s: &Vec<char>, from: usize, end: usize, c: char) -> (r: Option<usize>)
    requires
        from <= end <= s.len(),
    ensures
        r matches Some(i) ==> first_index_of(s@, from as int, end as int, c) == Some(i as int),
        r is None ==> first_index_of(s@, from as int, end as int, c) is None,
{
    let mut i: usize = from;
    while i < end
        invariant
            from <= i <= end <= s.len(),
            first_index_of(s@, from as int, end as int, c) == first_index_of(
                s@,
                i as int,
                end as int,
                c,
            ),
        decreases end - i,
    {
        if s[i] == c {
            return Some(i);
        }
        i = i + 1;
    }
    None
}

/// A found index lies in the searched range and holds the character; none
/// before it does.
pub proof fn lemma_first_index_of(s: Seq<char>, from: int, end: int, c: char)
    requires
        0 <= from <= end <= s.len(),
    ensures
        first_index_of(s, from, end, c) matches Some(i) ==> from <= i < end && s[i] == c
            && forall|j: int| from <= j < i ==> s[j] != c,
        first_index_of(s, from, end, c) is None ==> forall|j: int| from <= j < end ==> s[j] != c,
    decreases end - from,
{
    if from < end && s[from] != c {
        lemma_first_index_of(s, from + 1, end, c);
    }
}

/// Whether `s[start..end]` is exactly the characters of `word`.
pub fn range_equals(s: &Vec<char>, start: usize, end: usize, word: &str) -> (r: bool)
    requires
        start <= end <= s.len(),
    ensures
        r == (s@.subrange(start as int, end as int) == word@),
{
    let w = chars_of(word);
    if end - start != w.len() {
        return false;
    }
    let mut i: usize = 0;
    while i < w.len()
        invariant
            end - start == w.len(),
            start <= end <= s.len(),
            w@ == word@,
            forall|j: int| 0 <= j < i ==> s@[start + j] == w@[j],
        decreases w.len() - i,
    {
        if s[start + i] != w[i] {
            assert(s@.subrange(start as int, end as int)[i as int] != word@[i as int]);
            return false;
        }
        i = i + 1;
    }
    assert(s@.subrange(start as int, end as int) =~= word@);
    true
}

} // verus!
