//! Reading the pieces of canonical JSON text back: literals, numbers and
//! strings. Each reader accepts exactly what the encoder writes, and what
//! it returns is the one value whose encoding stands at the position read.

use vstd::prelude::*;
use vstd::string::*;
use crate::decimal::{
    all_digits, decimal, digit_value, digits_value, is_digit, lemma_decimal_reads_back,
    lemma_digits_end, lemma_digits_end_unique, lemma_digits_value_grows, read_digits,
    signed_decimal,
};
use crate::hexcode::{hex_digits, lemma_digit_value};
use crate::json::{json_escape, json_escaped, json_string};
use crate::text::{chars_of, push_char};

verus! {

/// `piece` stands in `text` at `pos`.
pub open spec fn has_at(text: Seq<char>, pos: int, piece: Seq<char>) -> bool {
    &&& 0 <= pos
    &&& pos + piece.len() <= text.len()
    &&& text.subrange(pos, pos + piece.len()) == piece
}

/// No digit follows at `pos`: the text ends there or goes on otherwise.
pub open spec fn number_ends(text: Seq<char>, pos: int) -> bool {
    pos >= text.len() || !is_digit(text[pos])
}

/// A text that is two pieces one after the other has the first at its
/// start and the second right behind it, and the other way round.
pub proof fn lemma_has_at_concat(text: Seq<char>, pos: int, first: Seq<char>, second: Seq<char>)
    ensures
        has_at(text, pos, first + second) <==> has_at(text, pos, first) && has_at(
            text,
            pos + first.len(),
            second,
        ),
{
    let both = first + second;
    if has_at(text, pos, both) {
        assert(text.subrange(pos, pos + first.len()) =~= both.subrange(0, first.len() as int));
        assert(both.subrange(0, first.len() as int) =~= first);
        assert(text.subrange(pos + first.len(), pos + both.len()) =~= both.subrange(
            first.len() as int,
            both.len() as int,
        ));
        assert(both.subrange(first.len() as int, both.len() as int) =~= second);
    }
    if has_at(text, pos, first) && has_at(text, pos + first.len(), second) {
        assert(text.subrange(pos, pos + both.len()) =~= text.subrange(pos, pos + first.len())
            + text.subrange(pos + first.len(), pos + first.len() + second.len()));
    }
}

/// A piece that stands at `pos` has its characters there.
pub proof fn lemma_has_at_index(text: Seq<char>, pos: int, piece: Seq<char>, i: int)
    requires
        has_at(text, pos, piece),
        0 <= i < piece.len(),
    ensures
        text[pos + i] == piece[i],
{
}

/// A run of digits without a needless leading zero is the decimal text of
/// its value.
pub proof fn lemma_canonical_digits(digits: Seq<char>)
    requires
        digits.len() > 0,
        all_digits(digits),
        digits[0] != '0' || digits.len() == 1,
    ensures
        decimal(digits_value(digits)) == digits,
    decreases digits.len(),
{
    let last = digits.last();
    if digits.len() == 1 {
        assert(digits_value(digits) == digit_value(last)) by {
            reveal_with_fuel(digits_value, 2);
        }
    } else {
        let front = digits.drop_last();
        assert forall|i: int| 0 <= i < front.len() implies is_digit(#[trigger] front[i]) by {
            assert(front[i] == digits[i]);
        }
        lemma_canonical_digits(front);
        lemma_digits_value_grows(front, 1);
        assert(digits_value(front.take(1)) == digit_value(front[0])) by {
            reveal_with_fuel(digits_value, 2);
        }
    }
}

/// Looks for `literal` in `text` at `pos`. Returns the position behind it.
pub fn expect(text: &[char], pos: usize, literal: &str) -> (end: Option<usize>)
    requires
        pos <= text@.len(),
    ensures
        match end {
            Some(end) => has_at(text@, pos as int, literal@) && end == pos + literal@.len(),
            None => !has_at(text@, pos as int, literal@),
        },
{
    let wanted = chars_of(literal);
    let length = text.len();
    if wanted.len() > length - pos {
        return None;
    }
    let mut i: usize = 0;
    while i < wanted.len()
        invariant
            i <= wanted@.len(),
            wanted@ == literal@,
            length == text@.len(),
            pos + wanted@.len() <= length,
            forall|j: int| 0 <= j < i ==> text@[pos + j] == wanted@[j],
        decreases wanted@.len() - i,
    {
        if text[pos + i] != wanted[i] {
            proof {
                if has_at(text@, pos as int, literal@) {
                    lemma_has_at_index(text@, pos as int, literal@, i as int);
                }
            }
            return None;
        }
        i += 1;
    }
    assert(text@.subrange(pos as int, pos + wanted@.len()) =~= literal@);
    Some(pos + wanted.len())
}

/// Reads the decimal text of an unsigned number at `pos`. Returns the
/// number and the position behind it. A run of digits is taken whole, so
/// the number read is the only one whose text stands at `pos` and is
/// followed by no digit. Leading zeros and values beyond 64 bits are
/// refused.
pub fn read_decimal(text: &[char], pos: usize) -> (read: Option<(u64, usize)>)
    requires
        pos <= text@.len(),
    ensures
        read matches Some((n, end)) ==> has_at(text@, pos as int, decimal(n as nat)) && end == pos
            + decimal(n as nat).len() && number_ends(text@, end as int),
        forall|n: u64|
            has_at(text@, pos as int, #[trigger] decimal(n as nat)) && number_ends(
                text@,
                pos + decimal(n as nat).len(),
            ) ==> read == Some((n, (pos + decimal(n as nat).len()) as usize)),
{
    let (end, value) = read_digits(text, pos);
    let ghost run = text@.subrange(pos as int, end as int);
    proof {
        lemma_digits_end(text@, pos as int);
        assert forall|n: u64|
            has_at(text@, pos as int, #[trigger] decimal(n as nat)) && number_ends(
                text@,
                pos + decimal(n as nat).len(),
            ) implies end == pos + decimal(n as nat).len() && run == decimal(n as nat)
            && digits_value(run) == n by {
            lemma_decimal_reads_back(n as nat);
            lemma_digits_end_unique(text@, pos as int, pos + decimal(n as nat).len());
        }
    }
    if end == pos {
        proof {
            assert forall|n: u64|
                !has_at(text@, pos as int, #[trigger] decimal(n as nat)) || !number_ends(
                    text@,
                    pos + decimal(n as nat).len(),
                ) by {
                lemma_decimal_reads_back(n as nat);
            }
        }
        return None;
    }
    if text[pos] == '0' && end - pos > 1 {
        proof {
            assert forall|n: u64|
                !has_at(text@, pos as int, #[trigger] decimal(n as nat)) || !number_ends(
                    text@,
                    pos + decimal(n as nat).len(),
                ) by {
                lemma_decimal_reads_back(n as nat);
                if has_at(text@, pos as int, decimal(n as nat)) && number_ends(
                    text@,
                    pos + decimal(n as nat).len(),
                ) {
                }
            }
        }
        return None;
    }
    match value {
        Some(n) => {
            proof {
                lemma_canonical_digits(run);
            }
            Some((n, end))
        },
        None => None,
    }
}

/// Reads the decimal text of a signed number at `pos`. Returns the number
/// and the position behind it. `-0`, leading zeros and values beyond 64
/// bits are refused.
pub fn read_signed_decimal(text: &[char], pos: usize) -> (read: Option<(i64, usize)>)
    requires
        pos <= text@.len(),
    ensures
        read matches Some((n, end)) ==> has_at(text@, pos as int, signed_decimal(n as int)) && end
            == pos + signed_decimal(n as int).len() && number_ends(text@, end as int),
        forall|n: i64|
            has_at(text@, pos as int, #[trigger] signed_decimal(n as int)) && number_ends(
                text@,
                pos + signed_decimal(n as int).len(),
            ) ==> read == Some((n, (pos + signed_decimal(n as int).len()) as usize)),
{
    let negative = pos < text.len() && text[pos] == '-';
    let start: usize = if negative {
        pos + 1
    } else {
        pos
    };
    let magnitude = read_decimal(text, start);
    proof {
        assert forall|n: i64|
            has_at(text@, pos as int, #[trigger] signed_decimal(n as int)) && number_ends(
                text@,
                pos + signed_decimal(n as int).len(),
            ) implies (n < 0) == negative && has_at(
            text@,
            start as int,
            decimal(if n < 0 {
                (-n) as nat
            } else {
                n as nat
            }),
        ) by {
            let m: nat = if n < 0 {
                (-n) as nat
            } else {
                n as nat
            };
            lemma_decimal_reads_back(m);
            lemma_has_at_index(text@, pos as int, signed_decimal(n as int), 0);
            if n < 0 {
                lemma_has_at_concat(text@, pos as int, seq!['-'], decimal(m));
            }
        }
    }
    match magnitude {
        Some((m, end)) => {
            if negative {
                if m == 0 || m > 0x8000_0000_0000_0000 {
                    proof {
                        assert forall|n: i64|
                            has_at(text@, pos as int, #[trigger] signed_decimal(n as int))
                                && number_ends(text@, pos + signed_decimal(n as int).len())
                                implies false by {
                            assert(magnitude == Some((((-n) as nat) as u64, (start + decimal(
                                (-n) as nat,
                            ).len()) as usize)));
                        }
                    }
                    return None;
                }
                let value: i64 = if m == 0x8000_0000_0000_0000 {
                    i64::MIN
                } else {
                    -(m as i64)
                };
                proof {
                    lemma_has_at_concat(text@, pos as int, seq!['-'], decimal(m as nat));
                    assert(text@.subrange(pos as int, pos + 1) =~= seq!['-']);
                    assert forall|n: i64|
                        has_at(text@, pos as int, #[trigger] signed_decimal(n as int))
                            && number_ends(text@, pos + signed_decimal(n as int).len())
                            implies n == value by {
                        assert(magnitude == Some((((-n) as nat) as u64, (start + decimal(
                            (-n) as nat,
                        ).len()) as usize)));
                    }
                }
                Some((value, end))
            } else {
                if m > 0x7fff_ffff_ffff_ffff {
                    proof {
                        assert forall|n: i64|
                            has_at(text@, pos as int, #[trigger] signed_decimal(n as int))
                                && number_ends(text@, pos + signed_decimal(n as int).len())
                                implies false by {
                            assert(magnitude == Some(((n as nat) as u64, (start + decimal(
                                n as nat,
                            ).len()) as usize)));
                        }
                    }
                    return None;
                }
                proof {
                    assert forall|n: i64|
                        has_at(text@, pos as int, #[trigger] signed_decimal(n as int))
                            && number_ends(text@, pos + signed_decimal(n as int).len())
                            implies n == m by {
                        assert(magnitude == Some(((n as nat) as u64, (start + decimal(
                            n as nat,
                        ).len()) as usize)));
                    }
                }
                Some((m as i64, end))
            }
        },
        None => {
            None
        },
    }
}

} // verus!

verus! {

/// The escaped text of a string with one more character is the escaped text
/// of the string followed by that of the character.
pub proof fn lemma_escaped_push(text: Seq<char>, c: char)
    ensures
        json_escaped(text.push(c)) == json_escaped(text) + json_escape(c),
    decreases text.len(),
{
    let longer = text.push(c);
    assert(json_escaped(longer) == json_escape(longer[0]) + json_escaped(longer.drop_first()));
    if text.len() == 0 {
    } else {
        lemma_escaped_push(text.drop_first(), c);
        assert(longer.drop_first() =~= text.drop_first().push(c));
    }
}

/// The escaped text of a string begins with the escaped text of each of
/// its prefixes, followed by that of the next character.
pub proof fn lemma_escaped_prefix(text: Seq<char>, k: int)
    requires
        0 <= k <= text.len(),
    ensures
        json_escaped(text.take(k)).len() <= json_escaped(text).len(),
        json_escaped(text).take(json_escaped(text.take(k)).len() as int) == json_escaped(
            text.take(k),
        ),
        k < text.len() ==> has_at(
            json_escaped(text),
            json_escaped(text.take(k)).len() as int,
            json_escape(text[k]),
        ),
    decreases text.len() - k,
{
    if k == text.len() {
        assert(text.take(k) =~= text);
    } else {
        lemma_escaped_prefix(text, k + 1);
        lemma_escaped_push(text.take(k), text[k]);
        assert(text.take(k + 1) =~= text.take(k).push(text[k]));
        let whole = json_escaped(text);
        let shorter = json_escaped(text.take(k));
        let longer = json_escaped(text.take(k + 1));
        assert(whole.take(longer.len() as int).take(shorter.len() as int) =~= whole.take(
            shorter.len() as int,
        ));
        assert(whole.subrange(shorter.len() as int, longer.len() as int) =~= whole.take(
            longer.len() as int,
        ).subrange(shorter.len() as int, longer.len() as int));
        assert(longer.subrange(shorter.len() as int, longer.len() as int) =~= json_escape(
            text[k],
        ));
    }
}

/// What stands behind the first `k` characters of a string literal: the
/// escaped text of the next character, or the closing quote.
pub proof fn lemma_string_next(text: Seq<char>, pos: int, content: Seq<char>, k: int)
    requires
        has_at(text, pos, json_string(content)),
        0 <= k <= content.len(),
    ensures
        has_at(text, pos, seq!['"']),
        has_at(text, pos + 1, json_escaped(content.take(k))),
        k == content.len() ==> has_at(
            text,
            pos + 1 + json_escaped(content.take(k)).len(),
            seq!['"'],
        ),
        k < content.len() ==> has_at(
            text,
            pos + 1 + json_escaped(content.take(k)).len(),
            json_escape(content[k]),
        ) && pos + 1 + json_escaped(content.take(k)).len() + json_escape(content[k]).len()
            < text.len(),
{
    let quote = seq!['"'];
    let body = json_escaped(content);
    let done = json_escaped(content.take(k));
    lemma_has_at_concat(text, pos, quote + body, quote);
    lemma_has_at_concat(text, pos, quote, body);
    lemma_escaped_prefix(content, k);
    assert(text.subrange(pos + 1, pos + 1 + done.len()) =~= text.subrange(
        pos + 1,
        pos + 1 + body.len(),
    ).subrange(0, done.len() as int));
    if k == content.len() {
        assert(content.take(k) =~= content);
    } else {
        let next = json_escape(content[k]);
        assert(text.subrange(pos + 1 + done.len(), pos + 1 + done.len() + next.len())
            =~= text.subrange(pos + 1, pos + 1 + body.len()).subrange(
            done.len() as int,
            (done.len() + next.len()) as int,
        ));
    }
}

/// The characters of an escape that stands at `pos`.
pub proof fn lemma_escape_at(text: Seq<char>, pos: int, c: char)
    requires
        has_at(text, pos, json_escape(c)),
    ensures
        json_escape(c).len() == 1 || json_escape(c).len() == 2 || json_escape(c).len() == 6,
        text[pos] == json_escape(c)[0],
        json_escape(c).len() >= 2 ==> text[pos + 1] == json_escape(c)[1],
        json_escape(c).len() == 6 ==> text[pos + 2] == '0' && text[pos + 3] == '0' && text[pos
            + 4] == hex_digits()[c as int / 16] && text[pos + 5] == hex_digits()[c as int % 16],
        json_escape(c).len() == 6 ==> 0 <= c as int / 16 < 2 && 0 <= c as int % 16 < 16,
{
    let escape = json_escape(c);
    lemma_has_at_index(text, pos, escape, 0);
    if escape.len() >= 2 {
        lemma_has_at_index(text, pos, escape, 1);
    }
    if escape.len() == 6 {
        lemma_has_at_index(text, pos, escape, 2);
        lemma_has_at_index(text, pos, escape, 3);
        lemma_has_at_index(text, pos, escape, 4);
        lemma_has_at_index(text, pos, escape, 5);
    }
}

/// The value of a lowercase hexadecimal digit.
fn lower_hex_value(c: char) -> (value: Option<u8>)
    ensures
        match value {
            Some(v) => v < 16 && hex_digits()[v as int] == c,
            None => forall|v: int| 0 <= v < 16 ==> hex_digits()[v] != c,
        },
{
    if '0' <= c && c <= '9' {
        Some((c as u32 - '0' as u32) as u8)
    } else if 'a' <= c && c <= 'f' {
        Some((c as u32 - 'a' as u32 + 10) as u8)
    } else {
        None
    }
}

/// Reads one character of a string literal at `pos`, escaped as the
/// encoder escapes it. The closing quote is no such character.
pub fn read_escaped(text: &[char], pos: usize) -> (read: Option<(char, usize)>)
    requires
        pos <= text@.len(),
    ensures
        read matches Some((c, end)) ==> has_at(text@, pos as int, json_escape(c)) && end == pos
            + json_escape(c).len(),
        forall|c: char|
            has_at(text@, pos as int, #[trigger] json_escape(c)) ==> read == Some(
                (c, (pos + json_escape(c).len()) as usize),
            ),
{
    let length = text.len();
    proof {
        assert forall|c: char| has_at(text@, pos as int, #[trigger] json_escape(c)) implies pos
            < length by {
            lemma_escape_at(text@, pos as int, c);
        }
    }
    if pos >= length {
        return None;
    }
    let first = text[pos];
    if first == '"' {
        proof {
            assert forall|c: char| !has_at(text@, pos as int, #[trigger] json_escape(c)) by {
                if has_at(text@, pos as int, json_escape(c)) {
                    lemma_escape_at(text@, pos as int, c);
                }
            }
        }
        return None;
    }
    if first != '\\' {
        if ' ' > first {
            proof {
                assert forall|c: char| !has_at(text@, pos as int, #[trigger] json_escape(c)) by {
                    if has_at(text@, pos as int, json_escape(c)) {
                        lemma_escape_at(text@, pos as int, c);
                    }
                }
            }
            return None;
        }
        proof {
            assert(text@.subrange(pos as int, pos + 1) =~= json_escape(first));
            assert forall|c: char| has_at(text@, pos as int, #[trigger] json_escape(c)) implies c
                == first by {
                lemma_escape_at(text@, pos as int, c);
            }
        }
        return Some((first, pos + 1));
    }
    if length - pos < 2 {
        proof {
            assert forall|c: char| !has_at(text@, pos as int, #[trigger] json_escape(c)) by {
                if has_at(text@, pos as int, json_escape(c)) {
                    lemma_escape_at(text@, pos as int, c);
                }
            }
        }
        return None;
    }
    let second = text[pos + 1];
    let named: Option<char> = if second == '"' {
        Some('"')
    } else if second == '\\' {
        Some('\\')
    } else if second == 'b' {
        Some('\u{08}')
    } else if second == 't' {
        Some('\t')
    } else if second == 'n' {
        Some('\n')
    } else if second == 'f' {
        Some('\u{0c}')
    } else if second == 'r' {
        Some('\r')
    } else {
        None
    };
    match named {
        Some(c) => {
            proof {
                assert(text@.subrange(pos as int, pos + 2) =~= json_escape(c));
                assert forall|other: char|
                    has_at(text@, pos as int, #[trigger] json_escape(other)) implies other
                    == c by {
                    lemma_escape_at(text@, pos as int, other);
                }
            }
            return Some((c, pos + 2));
        },
        None => {},
    }
    if second != 'u' || length - pos < 6 || text[pos + 2] != '0' || text[pos + 3] != '0' {
        proof {
            assert forall|c: char| !has_at(text@, pos as int, #[trigger] json_escape(c)) by {
                if has_at(text@, pos as int, json_escape(c)) {
                    lemma_escape_at(text@, pos as int, c);
                }
            }
        }
        return None;
    }
    let high = lower_hex_value(text[pos + 4]);
    let low = lower_hex_value(text[pos + 5]);
    match (high, low) {
        (Some(high), Some(low)) => {
            let code: u8 = if high < 2 {
                high * 16 + low
            } else {
                0x20
            };
            if code >= 0x20 || code == 0x08 || code == 0x09 || code == 0x0a || code == 0x0c
                || code == 0x0d {
                proof {
                    assert forall|c: char|
                        !has_at(text@, pos as int, #[trigger] json_escape(c)) by {
                        if has_at(text@, pos as int, json_escape(c)) {
                            lemma_escape_at(text@, pos as int, c);
                            if json_escape(c).len() == 6 {
                                lemma_digit_value(c as int / 16);
                                lemma_digit_value(c as int % 16);
                                lemma_digit_value(high as int);
                                lemma_digit_value(low as int);
                            }
                        }
                    }
                }
                return None;
            }
            let c = code as char;
            proof {
                assert(text@.subrange(pos as int, pos + 6) =~= json_escape(c));
                assert forall|other: char|
                    has_at(text@, pos as int, #[trigger] json_escape(other)) implies other
                    == c by {
                    lemma_escape_at(text@, pos as int, other);
                    if json_escape(other).len() == 6 {
                        lemma_digit_value(other as int / 16);
                        lemma_digit_value(other as int % 16);
                        lemma_digit_value(high as int);
                        lemma_digit_value(low as int);
                    }
                }
            }
            Some((c, pos + 6))
        },
        _ => {
            proof {
                assert forall|c: char| !has_at(text@, pos as int, #[trigger] json_escape(c)) by {
                    if has_at(text@, pos as int, json_escape(c)) {
                        lemma_escape_at(text@, pos as int, c);
                    }
                }
            }
            None
        },
    }
}

/// Reads a string literal at `pos`. Returns the string and the position
/// behind the closing quote.
pub fn read_string(text: &[char], pos: usize) -> (read: Option<(String, usize)>)
    requires
        pos <= text@.len(),
    ensures
        read matches Some((content, end)) ==> has_at(text@, pos as int, json_string(content@))
            && end == pos + json_string(content@).len(),
        forall|content: Seq<char>|
            has_at(text@, pos as int, #[trigger] json_string(content)) ==> (read matches Some(
                (found, end),
            ) && found@ == content),
{
    let length = text.len();
    if pos >= length || text[pos] != '"' {
        proof {
            assert forall|content: Seq<char>|
                !has_at(text@, pos as int, #[trigger] json_string(content)) by {
                if has_at(text@, pos as int, json_string(content)) {
                    lemma_string_next(text@, pos as int, content, 0);
                    lemma_has_at_index(text@, pos as int, seq!['"'], 0);
                }
            }
        }
        return None;
    }
    let mut out = String::new();
    let mut i: usize = pos + 1;
    proof {
        assert forall|content: Seq<char>|
            has_at(text@, pos as int, #[trigger] json_string(content)) implies content.take(0)
            == out@ by {
            assert(content.take(0) =~= out@);
        }
    }
    loop
        invariant
            length == text@.len(),
            pos < i <= length,
            text@[pos as int] == '"',
            i == pos + 1 + json_escaped(out@).len(),
            text@.subrange(pos + 1, i as int) == json_escaped(out@),
            forall|content: Seq<char>|
                has_at(text@, pos as int, #[trigger] json_string(content)) ==> out@.len()
                    <= content.len() && content.take(out@.len() as int) == out@,
        decreases length - i,
    {
        proof {
            assert forall|content: Seq<char>|
                has_at(text@, pos as int, #[trigger] json_string(content)) implies i < length by {
                lemma_string_next(text@, pos as int, content, out@.len() as int);
            }
        }
        if i >= length {
            return None;
        }
        if text[i] == '"' {
            proof {
                let quote = seq!['"'];
                assert(text@.subrange(i as int, i + 1) =~= quote);
                assert(text@.subrange(pos as int, pos + 1) =~= quote);
                lemma_has_at_concat(text@, pos as int, quote, json_escaped(out@));
                lemma_has_at_concat(text@, pos as int, quote + json_escaped(out@), quote);
                assert forall|content: Seq<char>|
                    has_at(text@, pos as int, #[trigger] json_string(content)) implies out@
                    == content by {
                    lemma_string_next(text@, pos as int, content, out@.len() as int);
                    if out@.len() < content.len() {
                        lemma_escape_at(text@, i as int, content[out@.len() as int]);
                    }
                }
            }
            return Some((out, i + 1));
        }
        match read_escaped(text, i) {
            Some((c, end)) => {
                proof {
                    lemma_escaped_push(out@, c);
                    assert(text@.subrange(pos + 1, end as int) =~= text@.subrange(
                        pos + 1,
                        i as int,
                    ) + text@.subrange(i as int, end as int));
                    let ghost k = out@.len() as int;
                    assert forall|content: Seq<char>|
                        has_at(text@, pos as int, #[trigger] json_string(content)) implies k
                        < content.len() && content.take(k + 1) == out@.push(c) by {
                        lemma_string_next(text@, pos as int, content, k);
                        if k == content.len() {
                            lemma_has_at_index(text@, i as int, seq!['"'], 0);
                        }
                    }
                }
                push_char(&mut out, c);
                i = end;
            },
            None => {
                proof {
                    assert forall|content: Seq<char>|
                        !has_at(text@, pos as int, #[trigger] json_string(content)) by {
                        if has_at(text@, pos as int, json_string(content)) {
                            lemma_string_next(text@, pos as int, content, out@.len() as int);
                            if out@.len() == content.len() {
                                lemma_has_at_index(text@, i as int, seq!['"'], 0);
                            }
                        }
                    }
                }
                return None;
            },
        }
    }
}

} // verus!
