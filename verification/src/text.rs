//! Character-level helpers for reply lines: Unicode whitespace, trimming, and
//! the number syntax accepted by `usize::from_str`.

use vstd::prelude::*;

verus! {

broadcast use vstd::string::group_string_axioms;

/// The characters with the Unicode `White_Space` property, which `char::is_whitespace`
/// and `str::trim` use.
pub open spec fn is_whitespace(c: char) -> bool {
    let v = c as u32;
    (0x09 <= v <= 0x0d) || v == 0x20 || v == 0x85 || v == 0xa0 || v == 0x1680 || (0x2000 <= v
        <= 0x200a) || v == 0x2028 || v == 0x2029 || v == 0x202f || v == 0x205f || v == 0x3000
}

/// `s` without its leading whitespace.
pub open spec fn trim_start(s: Seq<char>) -> Seq<char>
    decreases s.len(),
{
    if s.len() > 0 && is_whitespace(s[0]) {
        trim_start(s.drop_first())
    } else {
        s
    }
}

/// `s` without its trailing whitespace.
pub open spec fn trim_end(s: Seq<char>) -> Seq<char>
    decreases s.len(),
{
    if s.len() > 0 && is_whitespace(s.last()) {
        trim_end(s.drop_last())
    } else {
        s
    }
}

/// `s` without leading and trailing whitespace, as `str::trim` returns it.
pub open spec fn trim(s: Seq<char>) -> Seq<char> {
    trim_end(trim_start(s))
}

/// An ASCII decimal digit.
pub open spec fn is_digit(c: char) -> bool {
    48 <= (c as u32) <= 57
}

/// The value of a run of decimal digits.
pub open spec fn digits_value(s: Seq<char>) -> nat
    decreases s.len(),
{
    if s.len() == 0 {
        0
    } else {
        digits_value(s.drop_last()) * 10 + ((s.last() as u32) - 48) as nat
    }
}

/// The digits of an unsigned number: `s` without one leading `+`, if it has one.
pub open spec fn unsigned_digits(s: Seq<char>) -> Seq<char> {
    if s.len() > 0 && s[0] == '+' {
        s.drop_first()
    } else {
        s
    }
}

/// What `s.parse::<usize>()` gives: an optional `+` followed by at least one decimal
/// digit, whose value fits in `usize`.
pub open spec fn parse_usize(s: Seq<char>) -> Option<usize> {
    let d = unsigned_digits(s);
    if d.len() > 0 && (forall|i: int| 0 <= i < d.len() ==> is_digit(#[trigger] d[i]))
        && digits_value(d) <= usize::MAX {
        Some(digits_value(d) as usize)
    } else {
        None
    }
}

/// The characters of a string slice.
pub fn chars_of(s: &str) -> (chars: Vec<char>)
    ensures
        chars@ == s@,
{
    let mut chars: Vec<char> = Vec::new();
    for c in it: s.chars()
        invariant
            chars@ == it.seq().take(it.index() as int),
    {
        chars.push(c);
    }
    chars
}

/// Whether `c` is whitespace in the sense of `char::is_whitespace`.
pub fn is_whitespace_char(c: char) -> (b: bool)
    ensures
        b == is_whitespace(c),
{
    let v = c as u32;
    (0x09 <= v && v <= 0x0d) || v == 0x20 || v == 0x85 || v == 0xa0 || v == 0x1680 || (0x2000
        <= v && v <= 0x200a) || v == 0x2028 || v == 0x2029 || v == 0x202f || v == 0x205f || v
        == 0x3000
}

/// The bounds of `trim(s[lo..])` inside `s`.
pub fn trim_bounds(s: &[char], lo: usize) -> (bounds: (usize, usize))
    requires
        lo <= s@.len(),
    ensures
        lo <= bounds.0 <= bounds.1 <= s@.len(),
        s@.subrange(bounds.0 as int, bounds.1 as int) == trim(s@.subrange(lo as int, s@.len() as int)),
{
    let n = s.len();
    let mut a = lo;
    while a < n && is_whitespace_char(s[a])
        invariant
            lo <= a <= n,
            n == s@.len(),
            trim_start(s@.subrange(lo as int, n as int)) == trim_start(s@.subrange(a as int, n as int)),
        decreases n - a,
    {
        assert(s@.subrange(a as int, n as int).drop_first() =~= s@.subrange(a + 1, n as int));
        a = a + 1;
    }
    let mut b = n;
    while b > a && is_whitespace_char(s[b - 1])
        invariant
            a <= b <= n,
            n == s@.len(),
            trim_start(s@.subrange(lo as int, n as int)) == s@.subrange(a as int, n as int),
            trim_end(s@.subrange(a as int, n as int)) == trim_end(s@.subrange(a as int, b as int)),
        decreases b - a,
    {
        assert(s@.subrange(a as int, b as int).drop_last() =~= s@.subrange(a as int, b - 1));
        b = b - 1;
    }
    (a, b)
}

/// Appending a digit never lowers the value of a run of digits.
proof fn lemma_digits_value_grows(d: Seq<char>, j: int)
    requires
        0 <= j <= d.len(),
        forall|i: int| 0 <= i < d.len() ==> is_digit(#[trigger] d[i]),
    ensures
        digits_value(d.take(j)) <= digits_value(d),
    decreases d.len() - j,
{
    if j < d.len() {
        lemma_digits_value_grows(d, j + 1);
        assert(d.take(j + 1).drop_last() =~= d.take(j));
    } else {
        assert(d.take(j) =~= d);
    }
}

/// What `s[a..b].parse::<usize>()` gives.
pub fn parse_usize_range(s: &[char], a: usize, b: usize) -> (value: Option<usize>)
    requires
        a <= b <= s@.len(),
    ensures
        value == parse_usize(s@.subrange(a as int, b as int)),
{
    let ghost t = s@.subrange(a as int, b as int);
    let mut start = a;
    if start < b && s[start] == '+' {
        start = start + 1;
    }
    let ghost d = unsigned_digits(t);
    assert(d =~= s@.subrange(start as int, b as int));
    if start == b {
        return None;
    }
    let mut acc: usize = 0;
    let mut k = start;
    while k < b
        invariant
            a <= start <= k <= b <= s@.len(),
            start < b,
            d == s@.subrange(start as int, b as int),
            t == s@.subrange(a as int, b as int),
            d == unsigned_digits(t),
            forall|i: int| start <= i < k ==> is_digit(#[trigger] s@[i]),
            acc as nat == digits_value(s@.subrange(start as int, k as int)),
        decreases b - k,
    {
        let v = s[k] as u32;
        if v < 48 || v > 57 {
            assert(!is_digit(d[k - start]));
            return None;
        }
        let ghost prev = s@.subrange(start as int, k as int);
        let ghost next = s@.subrange(start as int, k + 1);
        assert(next.drop_last() =~= prev);
        let digit = (v - 48) as usize;
        match acc.checked_mul(10) {
            Some(m) => match m.checked_add(digit) {
                Some(x) => {
                    acc = x;
                },
                None => {
                    proof { lemma_overflow_means_none(s@, start as int, k as int, b as int, d); }
                    return None;
                },
            },
            None => {
                proof { lemma_overflow_means_none(s@, start as int, k as int, b as int, d); }
                return None;
            },
        }
        k = k + 1;
    }
    Some(acc)
}

/// Once the digits read so far exceed `usize::MAX`, the whole field cannot parse.
proof fn lemma_overflow_means_none(s: Seq<char>, start: int, k: int, b: int, d: Seq<char>)
    requires
        0 <= start <= k < b <= s.len(),
        d == s.subrange(start, b),
        forall|i: int| start <= i <= k ==> is_digit(#[trigger] s[i]),
        digits_value(s.subrange(start, k + 1)) > usize::MAX,
    ensures
        !(forall|i: int| 0 <= i < d.len() ==> is_digit(#[trigger] d[i]))
            || digits_value(d) > usize::MAX,
{
    if forall|i: int| 0 <= i < d.len() ==> is_digit(#[trigger] d[i]) {
        lemma_digits_value_grows(d, k + 1 - start);
        assert(d.take(k + 1 - start) =~= s.subrange(start, k + 1));
    }
}

/// The number that follows the first character of a line, as
/// `line[1..].trim().parse::<usize>()` reads it.
pub open spec fn field_after_first(line: Seq<char>) -> Option<usize> {
    parse_usize(trim(line.drop_first()))
}

/// Reads the number that follows the first character of `line`.
pub fn parse_field_after_first(line: &[char]) -> (value: Option<usize>)
    requires
        line@.len() >= 1,
    ensures
        value == field_after_first(line@),
{
    let (a, b) = trim_bounds(line, 1);
    assert(line@.subrange(1, line@.len() as int) =~= line@.drop_first());
    parse_usize_range(line, a, b)
}

} // verus!
