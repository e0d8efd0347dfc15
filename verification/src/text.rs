//! Characters, strings and decimal numerals.
use vstd::prelude::*;

verus! {

/// Appends one character to a string.
///
/// Stands for `String::push`: the string afterwards is the string before with
/// `c` at its end.
#[verifier::external_body]
pub(crate) fn push_char(s: &mut String, c: char)
    ensures
        final(s)@ == old(s)@.push(c),
{
    s.push(c)
}

/// The characters of a string slice, in order.
pub fn chars_of(s: &str) -> (chars: Vec<char>)
    ensures
        chars@ == s@,
{
    let mut chars: Vec<char> = Vec::new();
    for c in it: s.chars()
        invariant
            it.seq() == s@,
            chars@ == it.seq().subrange(0, it.index() as int),
    {
        chars.push(c);
    }
    assert(chars@ == s@);
    chars
}

/// The string made of the given characters.
pub fn text_of(chars: &Vec<char>) -> (s: String)
    ensures
        s@ == chars@,
{
    let mut s = String::new();
    let mut i: usize = 0;
    while i < chars.len()
        invariant
            i <= chars.len(),
            s@ == chars@.subrange(0, i as int),
        decreases chars.len() - i,
    {
        push_char(&mut s, chars[i]);
        i += 1;
        assert(chars@.subrange(0, i as int) == chars@.subrange(0, i - 1).push(chars@[i - 1]));
    }
    assert(chars@.subrange(0, chars.len() as int) == chars@);
    s
}

/// A decimal digit.
pub open spec fn is_digit(c: char) -> bool {
    '0' <= c <= '9'
}

/// The set of decimal digits.
pub open spec fn digit_chars() -> Set<char> {
    Set::new(|c: char| is_digit(c))
}

/// The number that a decimal digit stands for.
pub open spec fn digit_value(c: char) -> nat {
    (c as u32 - '0' as u32) as nat
}

/// The number that a string of decimal digits denotes.
pub open spec fn digits_value(s: Seq<char>) -> nat
    decreases s.len(),
{
    if s.len() == 0 {
        0
    } else {
        digits_value(s.drop_last()) * 10 + digit_value(s.last())
    }
}

/// Every character is a decimal digit.
pub open spec fn all_digits(s: Seq<char>) -> bool {
    forall|i: int| 0 <= i < s.len() ==> is_digit(#[trigger] s[i])
}

/// Where the longest run of characters of `class` that starts at `i` ends.
pub open spec fn run_end(s: Seq<char>, i: int, class: Set<char>) -> int
    decreases s.len() - i,
{
    if 0 <= i < s.len() && class.contains(s[i]) {
        run_end(s, i + 1, class)
    } else {
        i
    }
}

/// The numeral starts with a minus sign.
pub open spec fn is_negative(s: Seq<char>) -> bool {
    s.len() > 0 && s[0] == '-'
}

/// The numeral without its sign.
pub open spec fn magnitude(s: Seq<char>) -> Seq<char> {
    if is_negative(s) {
        s.subrange(1, s.len() as int)
    } else {
        s
    }
}

/// The integer that a signed string of digits denotes.
pub open spec fn int_value(s: Seq<char>) -> int {
    if is_negative(s) {
        -(digits_value(magnitude(s)) as int)
    } else {
        digits_value(magnitude(s)) as int
    }
}

/// An integer literal: an optional minus sign and one or more digits, whose
/// value a 64-bit signed integer can hold.
pub open spec fn is_int_literal(s: Seq<char>) -> bool {
    &&& magnitude(s).len() > 0
    &&& all_digits(magnitude(s))
    &&& i64::MIN <= int_value(s) <= i64::MAX
}

/// A decimal literal: an optional minus sign, then digits with at most one
/// decimal point among them, and at least one digit.
pub open spec fn is_decimal_literal(s: Seq<char>) -> bool {
    let m = magnitude(s);
    let p = run_end(m, 0, digit_chars());
    if p == m.len() {
        m.len() > 0
    } else {
        m[p] == '.' && run_end(m, p + 1, digit_chars()) == m.len() && m.len() > 1
    }
}

/// A run ends inside the text, at or behind its start.
pub proof fn lemma_run_end_bounds(s: Seq<char>, i: int, class: Set<char>)
    requires
        0 <= i <= s.len(),
    ensures
        i <= run_end(s, i, class) <= s.len(),
        forall|j: int| i <= j < run_end(s, i, class) ==> class.contains(#[trigger] s[j]),
        run_end(s, i, class) < s.len() ==> !class.contains(s[run_end(s, i, class)]),
    decreases s.len() - i,
{
    if i < s.len() && class.contains(s[i]) {
        lemma_run_end_bounds(s, i + 1, class);
    }
}

/// A run that starts inside a run ends where that run ends.
pub proof fn lemma_run_end_from_inside(s: Seq<char>, i: int, j: int, class: Set<char>)
    requires
        0 <= i <= j <= s.len(),
        forall|k: int| i <= k < j ==> class.contains(#[trigger] s[k]),
    ensures
        run_end(s, i, class) == run_end(s, j, class),
    decreases j - i,
{
    if i < j {
        lemma_run_end_from_inside(s, i + 1, j, class);
    }
}

/// The value of a string of digits with one more digit behind it.
pub proof fn lemma_digits_value_push(s: Seq<char>, c: char)
    ensures
        digits_value(s.push(c)) == digits_value(s) * 10 + digit_value(c),
{
    assert(s.push(c).drop_last() == s);
}

/// A string of digits denotes at least what any of its prefixes denotes.
pub proof fn lemma_digits_value_prefix(s: Seq<char>, k: int)
    requires
        0 <= k <= s.len(),
    ensures
        digits_value(s.subrange(0, k)) <= digits_value(s),
    decreases s.len(),
{
    if k == s.len() {
        assert(s.subrange(0, k) == s);
    } else {
        lemma_digits_value_prefix(s.drop_last(), k);
        assert(s.drop_last().subrange(0, k) == s.subrange(0, k));
    }
}

/// Tells whether `c` is a decimal digit.
pub fn char_is_digit(c: char) -> (r: bool)
    ensures
        r == is_digit(c),
{
    '0' <= c && c <= '9'
}

/// Reads an integer literal.
///
/// Returns its value, or `None` where the text is no integer literal.
pub fn parse_int(chars: &Vec<char>) -> (r: Option<i64>)
    ensures
        r == if is_int_literal(chars@) {
            Some(int_value(chars@) as i64)
        } else {
            None
        },
{
    let n = chars.len();
    if n == 0 {
        return None;
    }
    let neg = chars[0] == '-';
    let start: usize = if neg { 1 } else { 0 };
    if start == n {
        return None;
    }
    let limit: u64 = if neg { 0x8000_0000_0000_0000 } else { 0x7fff_ffff_ffff_ffff };
    let ghost m = magnitude(chars@);
    let mut acc: u64 = 0;
    let mut i: usize = start;
    assert(m.subrange(0, 0) == Seq::<char>::empty());
    while i < n
        invariant
            n == chars.len(),
            start <= i <= n,
            start == if neg { 1usize } else { 0usize },
            neg == is_negative(chars@),
            m == magnitude(chars@),
            m.len() == n - start,
            limit == if neg { 0x8000_0000_0000_0000u64 } else { 0x7fff_ffff_ffff_ffffu64 },
            all_digits(m.subrange(0, i - start)),
            acc == digits_value(m.subrange(0, i - start)),
            acc <= limit,
        decreases n - i,
    {
        let c = chars[i];
        assert(c == m[i - start]);
        if !char_is_digit(c) {
            return None;
        }
        let d: u64 = (c as u32 - '0' as u32) as u64;
        proof {
            assert(m.subrange(0, i + 1 - start) == m.subrange(0, i - start).push(c));
            lemma_digits_value_push(m.subrange(0, i - start), c);
        }
        if acc > (limit - d) / 10 {
            proof {
                if all_digits(m) {
                    lemma_digits_value_prefix(m, i + 1 - start);
                }
            }
            return None;
        }
        acc = acc * 10 + d;
        i += 1;
    }
    assert(m.subrange(0, n - start) == m);
    if neg {
        if acc == 0x8000_0000_0000_0000 {
            Some(i64::MIN)
        } else {
            Some(-(acc as i64))
        }
    } else {
        Some(acc as i64)
    }
}

/// Tells whether the text is a decimal literal.
pub fn check_decimal(chars: &Vec<char>) -> (r: bool)
    ensures
        r == is_decimal_literal(chars@),
{
    let n = chars.len();
    let start: usize = if n > 0 && chars[0] == '-' { 1 } else { 0 };
    let ghost m = magnitude(chars@);
    let mut i: usize = start;
    while i < n && char_is_digit(chars[i])
        invariant
            start <= i <= n == chars.len(),
            m == chars@.subrange(start as int, n as int),
            forall|k: int| 0 <= k < i - start ==> digit_chars().contains(#[trigger] m[k]),
        decreases n - i,
    {
        i += 1;
    }
    proof {
        lemma_run_end_from_inside(m, 0, i - start, digit_chars());
        assert(run_end(m, 0, digit_chars()) == i - start);
    }
    if i == n {
        return n > start;
    }
    if chars[i] != '.' {
        return false;
    }
    let point = i;
    i += 1;
    while i < n && char_is_digit(chars[i])
        invariant
            start <= point < i <= n == chars.len(),
            m == chars@.subrange(start as int, n as int),
            forall|k: int| point + 1 - start <= k < i - start ==> digit_chars().contains(#[trigger] m[k]),
        decreases n - i,
    {
        i += 1;
    }
    proof {
        lemma_run_end_from_inside(m, point + 1 - start, i - start, digit_chars());
    }
    i == n && n - start > 1
}

/// Tells whether two texts hold the same characters.
pub fn same_text(a: &str, b: &str) -> (same: bool)
    ensures
        same == (a@ == b@),
{
    let left = chars_of(a);
    let right = chars_of(b);
    if left.len() != right.len() {
        return false;
    }
    let mut i: usize = 0;
    while i < left.len()
        invariant
            left@ == a@,
            right@ == b@,
            left.len() == right.len(),
            i <= left.len(),
            forall|k: int| 0 <= k < i ==> left[k] == right[k],
        decreases left.len() - i,
    {
        if left[i] != right[i] {
            assert(a@[i as int] != b@[i as int]);
            return false;
        }
        i += 1;
    }
    assert(left@ =~= right@);
    true
}

} // verus!
