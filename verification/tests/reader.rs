use cacia::block::Block;
use cacia::decimal::{read_digits, read_unsigned};
use cacia::reader::{expect, read_decimal, read_escaped, read_signed_decimal, read_string};
use cacia::text::{chars_of, slice_between};
use cacia::transaction::Transaction;
use cacia::wire::{read_block, read_list, read_transaction, Wire};

fn chars(text: &str) -> Vec<char> {
    text.chars().collect()
}

#[test]
fn a_string_is_its_characters() {
    assert_eq!(chars_of("aé\u{1f600}\n"), vec!['a', 'é', '\u{1f600}', '\n']);
    assert_eq!(chars_of(""), Vec::<char>::new());
    let text = chars("hello");
    assert_eq!(slice_between(&text, 1, 4), vec!['e', 'l', 'l']);
    assert_eq!(slice_between(&text, 2, 2), Vec::<char>::new());
    assert_eq!(slice_between(&text, 0, 5), text);
}

#[test]
fn a_literal_is_found_where_it_stands() {
    let text = chars("ab,\"x\":1");
    assert_eq!(expect(&text, 2, ",\"x\":"), Some(7));
    assert_eq!(expect(&text, 0, "ab"), Some(2));
    assert_eq!(expect(&text, 0, ""), Some(0));
    assert_eq!(expect(&text, 8, ""), Some(8));
    assert_eq!(expect(&text, 1, "ab"), None);
    assert_eq!(expect(&text, 7, "12"), None);
    assert_eq!(expect(&text, 8, "1"), None);
}

#[test]
fn a_run_of_digits_is_taken_whole() {
    let text = chars("x0042,18446744073709551616");
    assert_eq!(read_digits(&text, 1), (5, Some(42)));
    assert_eq!(read_digits(&text, 0), (0, Some(0)));
    assert_eq!(read_digits(&text, 5), (5, Some(0)));
    assert_eq!(read_digits(&text, 6), (26, None));
    assert_eq!(read_digits(&text, 7), (26, Some(8446744073709551616)));
    assert_eq!(read_digits(&text, 26), (26, Some(0)));
    assert_eq!(read_unsigned(&chars("+12")), Some(12));
    assert_eq!(read_unsigned(&chars("12x")), None);
}

#[test]
fn a_number_is_read_in_its_canonical_form_only() {
    assert_eq!(read_decimal(&chars("0,"), 0), Some((0, 1)));
    assert_eq!(read_decimal(&chars("120}"), 0), Some((120, 3)));
    assert_eq!(read_decimal(&chars("x7"), 1), Some((7, 2)));
    assert_eq!(read_decimal(&chars("18446744073709551615"), 0), Some((u64::MAX, 20)));
    assert_eq!(read_decimal(&chars("18446744073709551616"), 0), None);
    assert_eq!(read_decimal(&chars("007"), 0), None);
    assert_eq!(read_decimal(&chars("00"), 0), None);
    assert_eq!(read_decimal(&chars(""), 0), None);
    assert_eq!(read_decimal(&chars("-1"), 0), None);
    assert_eq!(read_decimal(&chars("+1"), 0), None);
    assert_eq!(read_decimal(&chars("٣"), 0), None);
    assert_eq!(read_signed_decimal(&chars("-1,"), 0), Some((-1, 2)));
    assert_eq!(read_signed_decimal(&chars("5"), 0), Some((5, 1)));
    assert_eq!(read_signed_decimal(&chars("0"), 0), Some((0, 1)));
    assert_eq!(read_signed_decimal(&chars("-0"), 0), None);
    assert_eq!(read_signed_decimal(&chars("-"), 0), None);
    assert_eq!(read_signed_decimal(&chars("--1"), 0), None);
    assert_eq!(read_signed_decimal(&chars("-01"), 0), None);
    assert_eq!(read_signed_decimal(&chars("9223372036854775807"), 0), Some((i64::MAX, 19)));
    assert_eq!(read_signed_decimal(&chars("9223372036854775808"), 0), None);
    assert_eq!(read_signed_decimal(&chars("-9223372036854775808"), 0), Some((i64::MIN, 20)));
    assert_eq!(read_signed_decimal(&chars("-9223372036854775809"), 0), None);
}

#[test]
fn every_character_is_read_back_from_its_escape() {
    for code in 0..=0x10ffffu32 {
        if let Some(c) = char::from_u32(code) {
            if code > 0x2ff && code % 97 != 0 {
                continue;
            }
            let quoted = serde_json::to_string(&c.to_string()).unwrap();
            let text = chars(&quoted);
            if c == '"' {
                assert_eq!(read_escaped(&text, 0), None);
            }
            assert_eq!(read_escaped(&text, 1), Some((c, text.len() - 1)), "U+{:04X}", code);
            assert_eq!(read_string(&text, 0), Some((c.to_string(), text.len())));
        }
    }
}

#[test]
fn only_the_escapes_that_are_written_are_read() {
    for escape in ["\\/", "\\u0041", "\\u000A", "\\u000a", "\\u0008", "\\u0020", "\\x41", "\\", "\\u00", "\\u001", "\\U0001", "\n", "\u{1f}", "\""] {
        assert_eq!(read_escaped(&chars(escape), 0), None, "{:?}", escape);
    }
    assert_eq!(read_escaped(&chars("\\u0001"), 0), Some(('\u{1}', 6)));
    assert_eq!(read_escaped(&chars("\\u001f"), 0), Some(('\u{1f}', 6)));
    assert_eq!(read_escaped(&chars("\\n"), 0), Some(('\n', 2)));
    assert_eq!(read_escaped(&chars(""), 0), None);
}

#[test]
fn a_string_literal_ends_at_its_closing_quote() {
    assert_eq!(read_string(&chars("\"\""), 0), Some((String::new(), 2)));
    assert_eq!(read_string(&chars("\"a\\\"b\",1"), 0), Some(("a\"b".to_string(), 6)));
    assert_eq!(read_string(&chars("x\"y\"z"), 1), Some(("y".to_string(), 4)));
    assert_eq!(read_string(&chars("\"open"), 0), None);
    assert_eq!(read_string(&chars("\"bad\\"), 0), None);
    assert_eq!(read_string(&chars("\"line\nbreak\""), 0), None);
    assert_eq!(read_string(&chars("no quote"), 0), None);
    assert_eq!(read_string(&chars(""), 0), None);
}

fn sample(sender: &str) -> Transaction {
    Transaction {
        sender: sender.to_string(),
        receiver: "r".to_string(),
        amount: 1,
        fee: 2,
        nonce: 3,
        signature: "s".to_string(),
        timestamp: -4,
        public_key: "k".to_string(),
    }
}

#[test]
fn objects_and_lists_are_read_where_they_stand() {
    let one = sample("a").to_json();
    let text = chars(&format!("xx{}yy", one));
    let (tx, end) = read_transaction(&text, 2).expect("a transaction stands there");
    assert_eq!(tx.to_json(), one);
    assert_eq!(end, 2 + one.chars().count());
    assert!(read_transaction(&text, 1).is_none());
    let (tx, _) = Transaction::read_at(&text, 2).expect("a transaction stands there");
    assert_eq!(tx.sender, "a");

    let list = format!("[{},{}]", one, sample("b").to_json());
    let text = chars(&format!("{}tail", list));
    let (txs, end) = read_list::<Transaction>(&text, 0).expect("a list stands there");
    assert_eq!(end, list.chars().count());
    assert_eq!(txs.len(), 2);
    assert_eq!(txs[1].sender, "b");
    let (txs, end) = read_list::<Transaction>(&chars("[]"), 0).expect("a list stands there");
    assert!(txs.is_empty());
    assert_eq!(end, 2);
    assert!(read_list::<Transaction>(&chars(&format!("[{},]", one)), 0).is_none());
    assert!(read_list::<Transaction>(&chars(&format!("[{}", one)), 0).is_none());
    assert!(read_list::<Transaction>(&chars(&format!("[{}{}]", one, one)), 0).is_none());
    assert!(read_list::<Block>(&chars(&list), 0).is_none());

    let block = Block::assemble(1, 2, vec![sample("a")], "p".to_string(), "v".to_string());
    let text = chars(&format!("{}{}", block.to_json(), block.to_json()));
    let (first, end) = read_block(&text, 0).expect("a block stands there");
    let (second, stop) = read_block(&text, end).expect("a block stands there");
    assert_eq!(first.hash, block.hash);
    assert_eq!(second.to_json(), block.to_json());
    assert_eq!(stop, text.len());
}
