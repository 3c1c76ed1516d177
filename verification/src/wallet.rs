//! What the wallet tools compute: amounts typed by a user and balances kept
//! as text.

use vstd::prelude::*;
use vstd::string::*;
use crate::decimal::{parse_u64, parse_unsigned, read_unsigned};
use crate::text::{chars_of, slice_between};

verus! {

/// Whether `c` is white space: a character with the Unicode property
/// `White_Space`.
pub open spec fn is_whitespace(c: char) -> bool {
    ||| '\u{09}' <= c <= '\u{0d}'
    ||| c == ' '
    ||| c == '\u{85}'
    ||| c == '\u{a0}'
    ||| c == '\u{1680}'
    ||| '\u{2000}' <= c <= '\u{200a}'
    ||| c == '\u{2028}'
    ||| c == '\u{2029}'
    ||| c == '\u{202f}'
    ||| c == '\u{205f}'
    ||| c == '\u{3000}'
}

/// Where the text begins once leading white space is skipped, counted from
/// `from`.
pub open spec fn content_start(text: Seq<char>, from: int) -> int
    decreases text.len() - from,
{
    if 0 <= from < text.len() && is_whitespace(text[from]) {
        content_start(text, from + 1)
    } else {
        from
    }
}

/// Where the text ends once trailing white space is dropped, not going
/// below `floor`.
pub open spec fn content_end(text: Seq<char>, floor: int, to: int) -> int
    decreases to - floor,
{
    if 0 <= floor < to <= text.len() && is_whitespace(text[to - 1]) {
        content_end(text, floor, to - 1)
    } else {
        to
    }
}

/// `text` without its leading and trailing white space.
pub open spec fn trimmed(text: Seq<char>) -> Seq<char> {
    let start = content_start(text, 0);
    text.subrange(start, content_end(text, start, text.len() as int))
}

/// The balance that a balance file's text stands for: the number it holds
/// between white space, and zero where it holds no number.
pub open spec fn balance_of_text(contents: Seq<char>) -> u64 {
    match parse_unsigned(trimmed(contents)) {
        Some(balance) => balance,
        None => 0,
    }
}

/// The verdict on a transfer that a user asks for: the amount must read as
/// an unsigned number.
pub open spec fn transfer_verdict(amount: Seq<char>) -> Result<(), Seq<char>> {
    if parse_unsigned(amount) is Some {
        Ok(())
    } else {
        Err("Invalid amount."@)
    }
}

/// Whether `c` is white space.
pub fn is_blank(c: char) -> (blank: bool)
    ensures
        blank == is_whitespace(c),
{
    ('\u{09}' <= c && c <= '\u{0d}') || c == ' ' || c == '\u{85}' || c == '\u{a0}' || c
        == '\u{1680}' || ('\u{2000}' <= c && c <= '\u{200a}') || c == '\u{2028}' || c
        == '\u{2029}' || c == '\u{202f}' || c == '\u{205f}' || c == '\u{3000}'
}

/// Reads the text of a balance file: the number between leading and
/// trailing white space, zero where there is none.
pub fn balance_from_text(contents: &str) -> (balance: u64)
    ensures
        balance == balance_of_text(contents@),
{
    let chars = chars_of(contents);
    let mut start: usize = 0;
    while start < chars.len() && is_blank(chars[start])
        invariant
            start <= chars@.len(),
            content_start(chars@, 0) == content_start(chars@, start as int),
        decreases chars@.len() - start,
    {
        start += 1;
    }
    let mut end: usize = chars.len();
    while end > start && is_blank(chars[end - 1])
        invariant
            start <= end <= chars@.len(),
            content_end(chars@, start as int, chars@.len() as int) == content_end(
                chars@,
                start as int,
                end as int,
            ),
        decreases end,
    {
        end -= 1;
    }
    let content = slice_between(chars.as_slice(), start, end);
    match read_unsigned(content.as_slice()) {
        Some(balance) => balance,
        None => 0,
    }
}

/// Checks a transfer that a user asks for. Nothing is sent: the amount is
/// checked, and a refusal says why.
pub fn process_transaction(from: &str, to: &str, amount: &str) -> (verdict: Result<(), String>)
    ensures
        match verdict {
            Ok(_) => transfer_verdict(amount@) is Ok,
            Err(reason) => transfer_verdict(amount@) == Err::<(), Seq<char>>(reason@),
        },
{
    match parse_u64(amount) {
        Some(_) => Ok(()),
        None => Err(String::from_str("Invalid amount.")),
    }
}

} // verus!
