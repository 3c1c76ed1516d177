//! Decimal text of integers, as it enters digests and the canonical encoding.

use vstd::prelude::*;
use vstd::string::*;

verus! {

/// The ten decimal digits, by value.
pub open spec fn decimal_digits() -> Seq<char> {
    seq!['0', '1', '2', '3', '4', '5', '6', '7', '8', '9']
}

/// Decimal text of a natural number: no sign, no leading zeros, `"0"` for zero.
pub open spec fn decimal(n: nat) -> Seq<char>
    decreases n,
{
    if n < 10 {
        seq![decimal_digits()[n as int]]
    } else {
        decimal(n / 10).push(decimal_digits()[(n % 10) as int])
    }
}

/// Decimal text of an integer: a leading `-` for negative numbers only.
pub open spec fn signed_decimal(n: int) -> Seq<char> {
    if n < 0 {
        seq!['-'] + decimal((-n) as nat)
    } else {
        decimal(n as nat)
    }
}

/// The one-character text of a decimal digit.
fn digit_text(d: u64) -> (text: &'static str)
    requires
        d < 10,
    ensures
        text@ == seq![decimal_digits()[d as int]],
{
    proof {
        reveal_strlit("0");
        reveal_strlit("1");
        reveal_strlit("2");
        reveal_strlit("3");
        reveal_strlit("4");
        reveal_strlit("5");
        reveal_strlit("6");
        reveal_strlit("7");
        reveal_strlit("8");
        reveal_strlit("9");
    }
    let text = if d == 0 {
        "0"
    } else if d == 1 {
        "1"
    } else if d == 2 {
        "2"
    } else if d == 3 {
        "3"
    } else if d == 4 {
        "4"
    } else if d == 5 {
        "5"
    } else if d == 6 {
        "6"
    } else if d == 7 {
        "7"
    } else if d == 8 {
        "8"
    } else {
        "9"
    };
    text
}

/// Appends the decimal text of `n` to `out`.
pub fn push_decimal(out: &mut String, n: u64)
    ensures
        final(out)@ == old(out)@ + decimal(n as nat),
    decreases n,
{
    if n >= 10 {
        push_decimal(out, n / 10);
    }
    out.append(digit_text(n % 10));
}

/// Appends the decimal text of the signed `n` to `out`.
pub fn push_signed_decimal(out: &mut String, n: i64)
    ensures
        final(out)@ == old(out)@ + signed_decimal(n as int),
{
    if n < 0 {
        out.append("-");
        proof {
            reveal_strlit("-");
        }
        let magnitude: u64 = (-(n + 1)) as u64 + 1;
        push_decimal(out, magnitude);
    } else {
        push_decimal(out, n as u64);
    }
}

/// Decimal text of `n`.
pub fn decimal_string(n: u64) -> (text: String)
    ensures
        text@ == decimal(n as nat),
{
    let mut text = String::new();
    push_decimal(&mut text, n);
    text
}

/// Decimal text of the signed `n`.
pub fn signed_decimal_string(n: i64) -> (text: String)
    ensures
        text@ == signed_decimal(n as int),
{
    let mut text = String::new();
    push_signed_decimal(&mut text, n);
    text
}

/// Whether `c` is a decimal digit.
pub open spec fn is_digit(c: char) -> bool {
    '0' <= c <= '9'
}

/// The value of a decimal digit.
pub open spec fn digit_value(c: char) -> nat {
    (c as int - '0' as int) as nat
}

/// Whether `text` consists of decimal digits only.
pub open spec fn all_digits(text: Seq<char>) -> bool {
    forall|i: int| 0 <= i < text.len() ==> is_digit(#[trigger] text[i])
}

/// The number that a run of decimal digits stands for; leading zeros count
/// for nothing, and the empty run stands for zero.
pub open spec fn digits_value(digits: Seq<char>) -> nat
    decreases digits.len(),
{
    if digits.len() == 0 {
        0
    } else {
        10 * digits_value(digits.drop_last()) + digit_value(digits.last())
    }
}

/// Where the run of decimal digits that begins at `start` ends: the first
/// position from `start` on that holds no digit, or the end of the text.
pub open spec fn digits_end(text: Seq<char>, start: int) -> int
    decreases text.len() - start,
{
    if 0 <= start < text.len() && is_digit(text[start]) {
        digits_end(text, start + 1)
    } else {
        start
    }
}

/// The number that `text` stands for when read as an unsigned integer: an
/// optional `+`, then one or more decimal digits and nothing else, with a
/// value that fits in 64 bits.
pub open spec fn parse_unsigned(text: Seq<char>) -> Option<u64> {
    let digits = if text.len() > 0 && text[0] == '+' {
        text.drop_first()
    } else {
        text
    };
    if digits.len() > 0 && all_digits(digits) && digits_value(digits) <= u64::MAX {
        Some(digits_value(digits) as u64)
    } else {
        None
    }
}

/// A run of digits stands for no less than any of its prefixes.
pub proof fn lemma_digits_value_grows(digits: Seq<char>, n: int)
    requires
        0 <= n <= digits.len(),
    ensures
        digits_value(digits.take(n)) <= digits_value(digits),
    decreases digits.len(),
{
    if n == digits.len() {
        assert(digits.take(n) =~= digits);
    } else {
        lemma_digits_value_grows(digits.drop_last(), n);
        assert(digits.drop_last().take(n) =~= digits.take(n));
    }
}

/// The run of digits from `start` holds digits only, ends within the text,
/// and is followed by no digit.
pub proof fn lemma_digits_end(text: Seq<char>, start: int)
    requires
        0 <= start <= text.len(),
    ensures
        start <= digits_end(text, start) <= text.len(),
        all_digits(text.subrange(start, digits_end(text, start))),
        digits_end(text, start) < text.len() ==> !is_digit(text[digits_end(text, start)]),
    decreases text.len() - start,
{
    if start < text.len() && is_digit(text[start]) {
        lemma_digits_end(text, start + 1);
        let end = digits_end(text, start);
        assert forall|i: int| 0 <= i < end - start implies is_digit(
            #[trigger] text.subrange(start, end)[i],
        ) by {
            if i > 0 {
                assert(text.subrange(start + 1, end)[i - 1] == text[start + i]);
            }
        }
    }
}

/// A run of digits that is followed by no digit ends where `digits_end`
/// says.
pub proof fn lemma_digits_end_unique(text: Seq<char>, start: int, end: int)
    requires
        0 <= start <= end <= text.len(),
        all_digits(text.subrange(start, end)),
        end < text.len() ==> !is_digit(text[end]),
    ensures
        digits_end(text, start) == end,
    decreases end - start,
{
    if start < end {
        assert(text.subrange(start, end)[0] == text[start]);
        assert forall|i: int| 0 <= i < end - start - 1 implies is_digit(
            #[trigger] text.subrange(start + 1, end)[i],
        ) by {
            assert(text.subrange(start, end)[i + 1] == text[start + 1 + i]);
        }
        lemma_digits_end_unique(text, start + 1, end);
    }
}

/// The decimal text of a number holds digits only, begins with a zero only
/// if it is `"0"`, and stands for that number.
pub proof fn lemma_decimal_reads_back(n: nat)
    ensures
        decimal(n).len() > 0,
        all_digits(decimal(n)),
        digits_value(decimal(n)) == n,
        decimal(n)[0] == '0' ==> n == 0,
    decreases n,
{
    if n < 10 {
        assert(digits_value(decimal(n)) == n) by {
            reveal_with_fuel(digits_value, 2);
        }
    } else {
        lemma_decimal_reads_back(n / 10);
        assert(decimal(n).drop_last() =~= decimal(n / 10));
    }
}

/// Reads the run of decimal digits of `text` that begins at `start`.
/// Returns where it ends and, where that fits in 64 bits, its value.
pub fn read_digits(text: &[char], start: usize) -> (run: (usize, Option<u64>))
    requires
        start <= text@.len(),
    ensures
        run.0 == digits_end(text@, start as int),
        start <= run.0 <= text@.len(),
        run.1 == if digits_value(text@.subrange(start as int, run.0 as int)) <= u64::MAX {
            Some(digits_value(text@.subrange(start as int, run.0 as int)) as u64)
        } else {
            None::<u64>
        },
{
    let mut value: Option<u64> = Some(0);
    let mut i: usize = start;
    proof {
        lemma_digits_end(text@, start as int);
    }
    while i < text.len() && '0' <= text[i] && text[i] <= '9'
        invariant
            start <= i <= text@.len(),
            digits_end(text@, start as int) == digits_end(text@, i as int),
            value == if digits_value(text@.subrange(start as int, i as int)) <= u64::MAX {
                Some(digits_value(text@.subrange(start as int, i as int)) as u64)
            } else {
                None::<u64>
            },
        decreases text@.len() - i,
    {
        let digit: u64 = (text[i] as u32 - '0' as u32) as u64;
        proof {
            let longer = text@.subrange(start as int, i + 1);
            assert(longer.drop_last() =~= text@.subrange(start as int, i as int));
        }
        value = match value {
            Some(so_far) => match so_far.checked_mul(10) {
                Some(shifted) => shifted.checked_add(digit),
                None => None,
            },
            None => None,
        };
        i += 1;
    }
    (i, value)
}

/// Reads `chars` as an unsigned integer: an optional `+`, then decimal
/// digits. `None` for anything else, and for a value beyond 64 bits.
pub fn read_unsigned(chars: &[char]) -> (value: Option<u64>)
    ensures
        value == parse_unsigned(chars@),
{
    let start: usize = if chars.len() > 0 && chars[0] == '+' {
        1
    } else {
        0
    };
    let (end, value) = read_digits(chars, start);
    proof {
        let digits = chars@.skip(start as int);
        lemma_digits_end(chars@, start as int);
        if end == chars@.len() {
        } else {
            assert(digits[end - start] == chars@[end as int]);
        }
        if start == 1 {
        } else {
            assert(digits =~= chars@);
        }
    }
    if end == chars.len() && end > start {
        value
    } else {
        None
    }
}

/// Reads `text` as an unsigned integer: an optional `+`, then decimal
/// digits. `None` for anything else, and for a value beyond 64 bits.
pub fn parse_u64(text: &str) -> (value: Option<u64>)
    ensures
        value == parse_unsigned(text@),
{
    let chars = crate::text::chars_of(text);
    read_unsigned(chars.as_slice())
}

} // verus!
