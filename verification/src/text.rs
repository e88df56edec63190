//! Trimming and signed-integer parsing for guess lines.
//!
//! A line of input is trimmed of surrounding whitespace and then read as a
//! signed 32-bit integer: an optional `+` or `-` sign followed by one or more
//! decimal digits, with the value in range for `i32`. Anything else is
//! unparseable.
use vstd::prelude::*;

verus! {

/// The whitespace characters stripped from the ends of a line.
pub open spec fn is_space_char(c: char) -> bool {
    c == ' ' || c == '\t' || c == '\n' || c == '\r' || c == '\u{b}' || c == '\u{c}'
}

/// `s` with its leading whitespace removed.
pub open spec fn trim_front(s: Seq<char>) -> Seq<char>
    decreases s.len(),
{
    if s.len() > 0 && is_space_char(s.first()) {
        trim_front(s.drop_first())
    } else {
        s
    }
}

/// `s` with its trailing whitespace removed.
pub open spec fn trim_back(s: Seq<char>) -> Seq<char>
    decreases s.len(),
{
    if s.len() > 0 && is_space_char(s.last()) {
        trim_back(s.drop_last())
    } else {
        s
    }
}

/// `s` with whitespace removed from both ends.
pub open spec fn trimmed(s: Seq<char>) -> Seq<char> {
    trim_back(trim_front(s))
}

proof fn lemma_trim_front_at(s: Seq<char>, i: int)
    requires
        0 <= i <= s.len(),
        forall|j: int| 0 <= j < i ==> is_space_char(s[j]),
        i == s.len() || !is_space_char(s[i]),
    ensures
        trim_front(s) == s.subrange(i, s.len() as int),
    decreases i,
{
    if i == 0 {
        assert(s.subrange(0, s.len() as int) =~= s);
    } else {
        lemma_trim_front_at(s.drop_first(), i - 1);
        assert(s.drop_first().subrange(i - 1, s.drop_first().len() as int) =~= s.subrange(
            i,
            s.len() as int,
        ));
    }
}

proof fn lemma_trim_back_at(s: Seq<char>, i: int)
    requires
        0 <= i <= s.len(),
        forall|j: int| i <= j < s.len() ==> is_space_char(s[j]),
        i == 0 || !is_space_char(s[i - 1]),
    ensures
        trim_back(s) == s.subrange(0, i),
    decreases s.len() - i,
{
    if i == s.len() {
        assert(s.subrange(0, s.len() as int) =~= s);
    } else {
        lemma_trim_back_at(s.drop_last(), i);
        assert(s.drop_last().subrange(0, i) =~= s.subrange(0, i));
    }
}

/// True of a whitespace character as `is_space_char` has it.
pub fn is_space(c: char) -> (r: bool)
    ensures
        r == is_space_char(c),
{
    c == ' ' || c == '\t' || c == '\n' || c == '\r' || c == '\u{b}' || c == '\u{c}'
}

/// Strips whitespace from both ends of `s`.
pub fn trim(s: &str) -> (r: &str)
    ensures
        r@ == trimmed(s@),
{
    let n = s.unicode_len();
    let mut start: usize = 0;
    while start < n && is_space(s.get_char(start))
        invariant
            0 <= start <= n,
            n == s@.len(),
            forall|j: int| 0 <= j < start ==> is_space_char(s@[j]),
        decreases n - start,
    {
        start = start + 1;
    }
    proof {
        lemma_trim_front_at(s@, start as int);
    }
    let mut end: usize = n;
    while end > start && is_space(s.get_char(end - 1))
        invariant
            start <= end <= n,
            n == s@.len(),
            forall|j: int| end <= j < n ==> is_space_char(s@[j]),
        decreases end,
    {
        end = end - 1;
    }
    proof {
        let t = s@.subrange(start as int, s@.len() as int);
        assert(forall|j: int| end - start <= j < t.len() ==> is_space_char(#[trigger] t[j]));
        lemma_trim_back_at(t, end - start);
    }
    s.substring_char(start, end)
}

/// A decimal digit.
pub open spec fn is_digit_char(c: char) -> bool {
    '0' <= c && c <= '9'
}

/// The numeric value of a decimal digit.
pub open spec fn digit_val(c: char) -> int {
    c as int - '0' as int
}

/// Every character of `s` is a decimal digit.
pub open spec fn all_digits(s: Seq<char>) -> bool {
    forall|i: int| 0 <= i < s.len() ==> is_digit_char(s[i])
}

/// The value of a digit string read most-significant first.
pub open spec fn digits_value(s: Seq<char>) -> int
    decreases s.len(),
{
    if s.len() == 0 {
        0
    } else {
        digits_value(s.drop_last()) * 10 + digit_val(s.last())
    }
}

/// `s` starts with an explicit sign.
pub open spec fn has_sign(s: Seq<char>) -> bool {
    s.len() > 0 && (s.first() == '+' || s.first() == '-')
}

/// `s` starts with a minus sign.
pub open spec fn is_negative(s: Seq<char>) -> bool {
    s.len() > 0 && s.first() == '-'
}

/// The digit part of `s`: everything after the optional sign.
pub open spec fn digits_of(s: Seq<char>) -> Seq<char> {
    if has_sign(s) {
        s.drop_first()
    } else {
        s
    }
}

/// The signed value that `s` denotes, assuming its digit part is all digits.
pub open spec fn int_value(s: Seq<char>) -> int {
    if is_negative(s) {
        -digits_value(digits_of(s))
    } else {
        digits_value(digits_of(s))
    }
}

/// `s` is a well-formed `i32` literal: an optional sign, one or more decimal
/// digits, and a value in range.
pub open spec fn is_int_string(s: Seq<char>) -> bool {
    &&& digits_of(s).len() > 0
    &&& all_digits(digits_of(s))
    &&& i32::MIN <= int_value(s) <= i32::MAX
}

proof fn lemma_digits_value_nonneg(s: Seq<char>)
    requires
        all_digits(s),
    ensures
        digits_value(s) >= 0,
    decreases s.len(),
{
    if s.len() > 0 {
        lemma_digits_value_nonneg(s.drop_last());
    }
}

proof fn lemma_digits_value_prefix_le(s: Seq<char>, i: int)
    requires
        all_digits(s),
        0 <= i <= s.len(),
    ensures
        digits_value(s.subrange(0, i)) <= digits_value(s),
    decreases s.len() - i,
{
    if i < s.len() {
        let shorter = s.subrange(0, i);
        let longer = s.subrange(0, i + 1);
        assert(longer.drop_last() =~= shorter);
        lemma_digits_value_nonneg(shorter);
        lemma_digits_value_prefix_le(s, i + 1);
    } else {
        assert(s.subrange(0, i) =~= s);
    }
}

/// Reads `s` as a signed 32-bit integer: `Some` exactly on well-formed `i32`
/// literals, carrying the denoted value.
pub fn parse_i32(s: &str) -> (r: Option<i32>)
    ensures
        r is Some <==> is_int_string(s@),
        is_int_string(s@) ==> r == Some(int_value(s@) as i32),
{
    let n = s.unicode_len();
    let mut i: usize = 0;
    let mut neg: bool = false;
    if n > 0 {
        let c0 = s.get_char(0);
        if c0 == '+' {
            i = 1;
        } else if c0 == '-' {
            neg = true;
            i = 1;
        }
    }
    proof {
        assert(digits_of(s@) =~= s@.subrange(i as int, n as int));
        assert(neg == is_negative(s@));
    }
    if i == n {
        return None;
    }
    let ghost digits = digits_of(s@);
    let mut acc: u64 = 0;
    let mut k = i;
    while k < n
        invariant
            i <= k <= n,
            n == s@.len(),
            i <= 1,
            digits == s@.subrange(i as int, n as int),
            digits == digits_of(s@),
            neg == is_negative(s@),
            forall|j: int| i <= j < k ==> is_digit_char(s@[j]),
            acc == digits_value(s@.subrange(i as int, k as int)),
            acc <= 0x8000_0000u64,
        decreases n - k,
    {
        let c = s.get_char(k);
        if !(c >= '0' && c <= '9') {
            proof {
                assert(!is_digit_char(digits[k - i]));
            }
            return None;
        }
        let d = (c as u32 - '0' as u32) as u64;
        acc = acc * 10 + d;
        proof {
            let prev = s@.subrange(i as int, k as int);
            let cur = s@.subrange(i as int, k + 1);
            assert(cur.drop_last() =~= prev);
        }
        k = k + 1;
        if acc > 0x8000_0000u64 {
            proof {
                if all_digits(digits) {
                    let done = s@.subrange(i as int, k as int);
                    assert(done =~= digits.subrange(0, k - i));
                    lemma_digits_value_prefix_le(digits, k - i);
                }
            }
            return None;
        }
    }
    proof {
        assert(digits =~= s@.subrange(i as int, k as int));
    }
    if neg {
        Some((-(acc as i64)) as i32)
    } else if acc <= 0x7FFF_FFFFu64 {
        Some(acc as i32)
    } else {
        None
    }
}

} // verus!
