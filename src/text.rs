//! Character-level helpers for category labels and course identifiers.
use vstd::prelude::*;
use vstd::string::StrSliceExecFns;

verus! {

pub open spec fn is_digit(c: char) -> bool {
    '0' <= c && c <= '9'
}

pub open spec fn digit_value(c: char) -> int {
    c as int - '0' as int
}

/// The age that a category label ends with: its last two characters, when both are
/// decimal digits ("H35" is 35, "D-20" is 20).
pub open spec fn age_of(c: Seq<char>) -> Option<int> {
    if c.len() >= 2 && is_digit(c[c.len() - 2]) && is_digit(c[c.len() - 1]) {
        Some(10 * digit_value(c[c.len() - 2]) + digit_value(c[c.len() - 1]))
    } else {
        None
    }
}

/// The first character of a text, if any.
pub open spec fn first_of(s: Seq<char>) -> Option<char> {
    if s.len() > 0 {
        Some(s[0])
    } else {
        None
    }
}

/// Value of a string of decimal digits.
pub open spec fn digits_value(s: Seq<char>) -> int
    decreases s.len(),
{
    if s.len() == 0 {
        0
    } else {
        10 * digits_value(s.drop_last()) + digit_value(s.last())
    }
}

/// The first index at or after `i` that holds a digit (or the length).
pub open spec fn digit_run_start(c: Seq<char>, i: int) -> int
    decreases c.len() - i,
{
    if i < 0 || i >= c.len() || is_digit(c[i]) {
        i
    } else {
        digit_run_start(c, i + 1)
    }
}

/// The first index at or after `i` that does not hold a digit (or the length).
pub open spec fn digit_run_end(c: Seq<char>, i: int) -> int
    decreases c.len() - i,
{
    if i < 0 || i >= c.len() || !is_digit(c[i]) {
        i
    } else {
        digit_run_end(c, i + 1)
    }
}

/// The value of the first run of decimal digits in `c`, if `c` holds a digit.
pub open spec fn first_number(c: Seq<char>) -> Option<int> {
    let s = digit_run_start(c, 0);
    if s >= c.len() {
        None
    } else {
        Some(digits_value(c.subrange(s, digit_run_end(c, s))))
    }
}

/// The character of a decimal digit.
pub open spec fn digit_char(d: int) -> char {
    if d == 0 {
        '0'
    } else if d == 1 {
        '1'
    } else if d == 2 {
        '2'
    } else if d == 3 {
        '3'
    } else if d == 4 {
        '4'
    } else if d == 5 {
        '5'
    } else if d == 6 {
        '6'
    } else if d == 7 {
        '7'
    } else if d == 8 {
        '8'
    } else {
        '9'
    }
}

/// Decimal text of a natural number, without leading zeros.
pub open spec fn decimal(n: nat) -> Seq<char>
    decreases n,
{
    if n < 10 {
        seq![digit_char(n as int)]
    } else {
        decimal(n / 10).push(digit_char((n % 10) as int))
    }
}

/// Relies on String::push: appends one character.
#[verifier::external_body]
pub(crate) fn push_char(s: &mut String, c: char)
    ensures
        final(s)@ == old(s)@.push(c),
{
    s.push(c)
}

/// Whether two texts hold the same characters.
pub fn same_text(a: &str, b: &str) -> (r: bool)
    ensures
        r == (a@ == b@),
{
    let n = a.unicode_len();
    if n != b.unicode_len() {
        return false;
    }
    let mut i: usize = 0;
    while i < n
        invariant
            n == a@.len(),
            n == b@.len(),
            i <= n,
            forall|j: int| 0 <= j < i ==> a@[j] == b@[j],
        decreases n - i,
    {
        if a.get_char(i) != b.get_char(i) {
            return false;
        }
        i = i + 1;
    }
    assert(a@ =~= b@);
    true
}

/// Whether `s` holds the character `c`.
pub fn has_char(s: &str, c: char) -> (r: bool)
    ensures
        r == s@.contains(c),
{
    let n = s.unicode_len();
    let mut i: usize = 0;
    while i < n
        invariant
            n == s@.len(),
            i <= n,
            forall|j: int| 0 <= j < i ==> s@[j] != c,
        decreases n - i,
    {
        if s.get_char(i) == c {
            assert(s@[i as int] == c);
            return true;
        }
        i = i + 1;
    }
    false
}

/// The first character of `s`, if any.
pub fn first_char(s: &str) -> (r: Option<char>)
    ensures
        r == (if s@.len() > 0 {
            Some(s@[0])
        } else {
            None::<char>
        }),
{
    if s.unicode_len() == 0 {
        None
    } else {
        Some(s.get_char(0))
    }
}

/// Copies the characters `from..to` of `s` into a new string.
pub fn slice_text(s: &str, from: usize, to: usize) -> (r: String)
    requires
        from <= to <= s@.len(),
    ensures
        r@ == s@.subrange(from as int, to as int),
{
    let mut r = String::new();
    let mut i: usize = from;
    while i < to
        invariant
            from <= i <= to <= s@.len(),
            r@ == s@.subrange(from as int, i as int),
        decreases to - i,
    {
        let c = s.get_char(i);
        push_char(&mut r, c);
        assert(r@ =~= s@.subrange(from as int, i + 1));
        i = i + 1;
    }
    r
}

fn char_digit(c: char) -> (r: Option<u8>)
    ensures
        r == (if is_digit(c) {
            Some(digit_value(c) as u8)
        } else {
            None::<u8>
        }),
{
    if '0' <= c && c <= '9' {
        Some((c as u32 - '0' as u32) as u8)
    } else {
        None
    }
}

/// The age that a category label ends with (its last two characters, both digits).
pub fn age(c: &str) -> (r: Option<i16>)
    ensures
        r == (match age_of(c@) {
            Some(a) => Some(a as i16),
            None => None::<i16>,
        }),
{
    let n = c.unicode_len();
    if n < 2 {
        return None;
    }
    match (char_digit(c.get_char(n - 2)), char_digit(c.get_char(n - 1))) {
        (Some(t), Some(u)) => Some(10 * t as i16 + u as i16),
        _ => None,
    }
}

proof fn lemma_digits_value_grows(s: Seq<char>, c: char)
    requires
        is_digit(c),
        forall|i: int| 0 <= i < s.len() ==> is_digit(s[i]),
    ensures
        digits_value(s.push(c)) >= digits_value(s),
        digits_value(s.push(c)) == 10 * digits_value(s) + digit_value(c),
    decreases s.len(),
{
    assert(s.push(c).drop_last() =~= s);
    lemma_digits_value_nonneg(s);
}

proof fn lemma_digits_value_nonneg(s: Seq<char>)
    requires
        forall|i: int| 0 <= i < s.len() ==> is_digit(s[i]),
    ensures
        digits_value(s) >= 0,
    decreases s.len(),
{
    if s.len() > 0 {
        lemma_digits_value_nonneg(s.drop_last());
    }
}

/// The value of the first run of decimal digits in `c`, when there is one and it is at
/// most `i32::MAX`.
pub fn first_number_of(c: &str) -> (r: Option<i32>)
    ensures
        r == (match first_number(c@) {
            Some(v) => if v <= i32::MAX {
                Some(v as i32)
            } else {
                None::<i32>
            },
            None => None::<i32>,
        }),
        r matches Some(x) ==> first_number(c@) == Some(x as int) && x >= 0,
        r is None ==> (first_number(c@) matches Some(v) ==> v > i32::MAX),
{
    let n = c.unicode_len();
    let mut i: usize = 0;
    while i < n && char_digit(c.get_char(i)).is_none()
        invariant
            n == c@.len(),
            i <= n,
            digit_run_start(c@, 0) == digit_run_start(c@, i as int),
        decreases n - i,
    {
        i = i + 1;
    }
    if i == n {
        return None;
    }
    let start = i;
    let mut value: u64 = 0;
    let mut too_big = false;
    while i < n && char_digit(c.get_char(i)).is_some()
        invariant
            n == c@.len(),
            start <= i <= n,
            start < n,
            digit_run_start(c@, 0) == start,
            digit_run_end(c@, start as int) == digit_run_end(c@, i as int),
            forall|j: int| start <= j < i ==> is_digit(#[trigger] c@[j]),
            !too_big ==> value == digits_value(c@.subrange(start as int, i as int)),
            !too_big ==> value <= i32::MAX,
            too_big ==> digits_value(c@.subrange(start as int, i as int)) > i32::MAX,
        decreases n - i,
    {
        let d = c.get_char(i);
        proof {
            assert(c@.subrange(start as int, i + 1) =~= c@.subrange(start as int, i as int).push(d));
            lemma_digits_value_grows(c@.subrange(start as int, i as int), d);
        }
        if !too_big {
            let next: u64 = value * 10 + (d as u32 - '0' as u32) as u64;
            if next > i32::MAX as u64 {
                too_big = true;
            } else {
                value = next;
            }
        }
        i = i + 1;
    }
    if too_big {
        None
    } else {
        Some(value as i32)
    }
}

/// Appends the decimal text of `n` to `s`.
pub fn push_decimal(s: &mut String, n: u64)
    ensures
        final(s)@ == old(s)@ + decimal(n as nat),
    decreases n,
{
    if n >= 10 {
        push_decimal(s, n / 10);
    }
    let d = n % 10;
    let c = if d == 0 {
        '0'
    } else if d == 1 {
        '1'
    } else if d == 2 {
        '2'
    } else if d == 3 {
        '3'
    } else if d == 4 {
        '4'
    } else if d == 5 {
        '5'
    } else if d == 6 {
        '6'
    } else if d == 7 {
        '7'
    } else if d == 8 {
        '8'
    } else {
        '9'
    };
    push_char(s, c);
    proof {
        if n < 10 {
            assert(n % 10 == n);
        }
    }
}

} // verus!
