use cacia::block::Block;
use cacia::decimal::{decimal_string, parse_u64, signed_decimal_string};
use cacia::ledger::Blockchain;
use cacia::transaction::Transaction;
use ed25519_dalek::{Keypair, PublicKey, SecretKey, Signer};
use sha2::{Digest, Sha256};

fn keypair(seed: u8) -> Keypair {
    let secret = SecretKey::from_bytes(&[seed; 32]).unwrap();
    let public = PublicKey::from(&secret);
    Keypair { secret, public }
}

fn unsigned(sender: &str, public_key: &str) -> Transaction {
    Transaction {
        sender: sender.to_string(),
        receiver: "receiver".to_string(),
        amount: 1_000_000_000,
        fee: 5_000,
        nonce: 7,
        signature: String::new(),
        timestamp: -1_700_000_000,
        public_key: public_key.to_string(),
    }
}

fn signed_by(pair: &Keypair) -> Transaction {
    let address = hex::encode(pair.public.to_bytes());
    let mut tx = unsigned(&address, &address);
    tx.signature = hex::encode(pair.sign(&tx.hash()).to_bytes());
    tx
}

#[test]
fn decimal_text() {
    assert_eq!(decimal_string(0), "0");
    assert_eq!(decimal_string(7), "7");
    assert_eq!(decimal_string(10), "10");
    assert_eq!(decimal_string(1_000_000_007), "1000000007");
    assert_eq!(decimal_string(u64::MAX), "18446744073709551615");
    assert_eq!(signed_decimal_string(0), "0");
    assert_eq!(signed_decimal_string(-1), "-1");
    assert_eq!(signed_decimal_string(i64::MAX), "9223372036854775807");
    assert_eq!(signed_decimal_string(i64::MIN), "-9223372036854775808");
}

#[test]
fn unsigned_numbers_are_read_as_the_standard_library_reads_them() {
    for text in [
        "0", "7", "+7", "007", "18446744073709551615", "18446744073709551616", "", "+", "-1", "1 ",
        " 1", "1_000", "0x10", "１", "99999999999999999999999", "+0", "++1", "1+",
    ] {
        assert_eq!(parse_u64(text), text.parse::<u64>().ok(), "{:?}", text);
    }
}

#[test]
fn signing_text_joins_the_fields_without_separators() {
    let tx = unsigned("sender", "key");
    assert_eq!(tx.signing_text(), "senderreceiver100000000050007-1700000000");
}

#[test]
fn transaction_digest_is_sha256_of_the_signing_text() {
    let tx = unsigned("sénder", "key");
    let expected = Sha256::digest("sénderreceiver100000000050007-1700000000".as_bytes()).to_vec();
    assert_eq!(tx.hash(), expected);
    assert_eq!(tx.hash().len(), 32);
}

#[test]
fn block_hash_is_hex_of_sha256_of_the_hash_input() {
    let tx = unsigned("a", "k");
    let block = Block::assemble(4, 99, vec![tx.clone()], "prev".to_string(), "V".to_string());
    let input = format!("{}{}[{}]{}", 4, 99, tx.to_json(), "prev");
    assert_eq!(block.hash_input(), input);
    assert_eq!(block.hash, hex::encode(Sha256::digest(input.as_bytes())));
    assert_eq!(block.hash.len(), 64);
    assert_eq!(Blockchain::hash_block(&block), block.hash);
    assert!(block.is_sealed());
    let mut touched = block.clone();
    touched.timestamp = 100;
    assert!(!touched.is_sealed());
    assert_ne!(touched.compute_hash(), block.hash);
}

#[test]
fn genesis_block() {
    let genesis = Blockchain::create_genesis(1_700_000_000);
    assert_eq!(genesis.index, 0);
    assert_eq!(genesis.timestamp, 1_700_000_000);
    assert!(genesis.transactions.is_empty());
    assert_eq!(genesis.previous_hash, "0".repeat(64));
    assert_eq!(genesis.validator, "genesis_validator");
    let input = format!("01700000000[]{}", "0".repeat(64));
    assert_eq!(genesis.hash, hex::encode(Sha256::digest(input.as_bytes())));
}

#[test]
fn a_signature_by_the_senders_key_verifies() {
    let tx = signed_by(&keypair(3));
    assert!(tx.verify_signature());
}

#[test]
fn a_changed_field_breaks_the_signature() {
    let tx = signed_by(&keypair(3));
    assert!(!Transaction { amount: tx.amount + 1, ..tx.clone() }.verify_signature());
    assert!(!Transaction { fee: 0, ..tx.clone() }.verify_signature());
    assert!(!Transaction { nonce: 8, ..tx.clone() }.verify_signature());
    assert!(!Transaction { timestamp: 0, ..tx.clone() }.verify_signature());
    assert!(!Transaction { receiver: "other".to_string(), ..tx.clone() }.verify_signature());
}

#[test]
fn a_signature_by_another_key_does_not_verify() {
    let pair = keypair(3);
    let other = keypair(4);
    let mut tx = signed_by(&pair);
    tx.signature = hex::encode(other.sign(&tx.hash()).to_bytes());
    assert!(!tx.verify_signature());
}

#[test]
fn the_sender_must_be_the_keys_address() {
    let pair = keypair(3);
    let key = hex::encode(pair.public.to_bytes());
    let mut named = unsigned("user1", &key);
    named.signature = hex::encode(pair.sign(&named.hash()).to_bytes());
    assert!(!named.verify_signature());
    let mut upper = unsigned(&key.to_uppercase(), &key);
    upper.signature = hex::encode(pair.sign(&upper.hash()).to_bytes());
    assert!(!upper.verify_signature());
    let mut mixed = unsigned(&key, &key.to_uppercase());
    mixed.signature = hex::encode(pair.sign(&mixed.hash()).to_bytes());
    assert!(mixed.verify_signature());
}

#[test]
fn malformed_keys_and_signatures_do_not_verify() {
    let tx = signed_by(&keypair(3));
    assert!(!Transaction { public_key: "zz".to_string(), ..tx.clone() }.verify_signature());
    assert!(!Transaction { public_key: "abc".to_string(), ..tx.clone() }.verify_signature());
    assert!(!Transaction { public_key: "ab".to_string(), ..tx.clone() }.verify_signature());
    assert!(!Transaction { public_key: String::new(), ..tx.clone() }.verify_signature());
    assert!(!Transaction { signature: "nothex".to_string(), ..tx.clone() }.verify_signature());
    assert!(!Transaction { signature: "abcd".to_string(), ..tx.clone() }.verify_signature());
    assert!(!Transaction { signature: String::new(), ..tx.clone() }.verify_signature());
    assert!(!Transaction { signature: "ff".repeat(64), ..tx.clone() }.verify_signature());
    assert!(!Transaction { signature: "é".repeat(64), ..tx.clone() }.verify_signature());
}
