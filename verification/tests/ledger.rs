use cacia::accounts::Accounts;
use cacia::block::Block;
use cacia::ledger::{Blockchain, BLOCK_TIME, FEE, TOTAL_SUPPLY};
use cacia::network::{submission_reply, Network, PeerMessage, PeerOutcome};
use cacia::state::{BlockError, ChainError, TransactionError};
use cacia::transaction::Transaction;
use ed25519_dalek::{Keypair, PublicKey, SecretKey, Signer};
use std::sync::{Arc, Mutex};

fn keypair(seed: u8) -> Keypair {
    let secret = SecretKey::from_bytes(&[seed; 32]).unwrap();
    let public = PublicKey::from(&secret);
    Keypair { secret, public }
}

fn address(pair: &Keypair) -> String {
    hex::encode(pair.public.to_bytes())
}

fn transfer(pair: &Keypair, receiver: &str, amount: u64, fee: u64, nonce: u64) -> Transaction {
    let mut tx = Transaction {
        sender: address(pair),
        receiver: receiver.to_string(),
        amount,
        fee,
        nonce,
        signature: String::new(),
        timestamp: 1_700_000_000,
        public_key: address(pair),
    };
    tx.signature = hex::encode(pair.sign(&tx.hash()).to_bytes());
    tx
}

fn seeded(balances: &[(&str, u64)], stakes: &[(&str, u64)]) -> Blockchain {
    let mut ledger = Blockchain::with_genesis(1_700_000_000, 0);
    for (who, amount) in balances {
        assert!(ledger.set_balance(who, *amount));
    }
    for (who, amount) in stakes {
        assert!(ledger.set_stake(who, *amount));
    }
    ledger
}

fn sum_of(ledger: &Blockchain, accounts: &[&str]) -> u128 {
    accounts.iter().map(|who| ledger.get_balance(who) as u128).sum()
}

#[test]
fn a_new_ledger_holds_the_supply_in_the_treasury() {
    let ledger = Blockchain::new();
    assert_eq!(TOTAL_SUPPLY, 1_000_000_000 * 10u64.pow(8));
    assert_eq!(FEE, 5_000);
    assert_eq!(BLOCK_TIME, 5);
    assert_eq!(ledger.get_balance("treasury"), TOTAL_SUPPLY);
    assert_eq!(ledger.get_balance("nobody"), 0);
    assert_eq!(ledger.chain_len(), 1);
    assert_eq!(ledger.mempool_len(), 0);
    assert!(ledger.validate_chain());
    let chain = ledger.get_chain();
    assert_eq!(chain.len(), 1);
    assert_eq!(chain[0].index, 0);
    assert_eq!(chain[0].previous_hash, "0".repeat(64));
    assert_eq!(chain[0].validator, "genesis_validator");
    assert_eq!(chain[0].hash, chain[0].compute_hash());
    assert!(chain[0].transactions.is_empty());
    assert_eq!(ledger.tip().hash, chain[0].hash);
}

#[test]
fn a_ledger_at_genesis_is_as_asked() {
    let ledger = Blockchain::with_genesis(42, 7);
    assert_eq!(ledger.get_balance("treasury"), 7);
    assert_eq!(ledger.tip().timestamp, 42);
    assert_eq!(ledger.tip().hash, Blockchain::create_genesis(42).hash);
    let copy = ledger.clone();
    assert_eq!(copy.get_balance("treasury"), 7);
    assert_eq!(copy.tip().hash, ledger.tip().hash);
}

#[test]
fn tables_keep_one_entry_per_address_in_order_of_arrival() {
    let mut table = Accounts::new();
    assert_eq!(table.len(), 0);
    assert_eq!(table.get("a"), 0);
    table.set("a", 5);
    table.set("b", 7);
    table.set("a", 9);
    table.set("", 1);
    assert_eq!(table.len(), 3);
    assert_eq!(table.get("a"), 9);
    assert_eq!(table.get("b"), 7);
    assert_eq!(table.get(""), 1);
    assert_eq!(table.get("c"), 0);
    assert_eq!(table.address_at(0), "a");
    assert_eq!(table.address_at(1), "b");
    assert_eq!(table.amount_at(0), 9);
    assert_eq!(table.amount_at(2), 1);
    assert_eq!(table.sum(), 17);
    let copy = table.clone();
    assert_eq!(copy.len(), 3);
    assert_eq!(copy.get("b"), 7);
}

#[test]
fn seeding_keeps_the_totals_within_64_bits() {
    let mut ledger = Blockchain::with_genesis(0, u64::MAX - 10);
    assert!(ledger.set_balance("a", 10));
    assert!(!ledger.set_balance("b", 1));
    assert_eq!(ledger.get_balance("b"), 0);
    assert!(ledger.set_balance("a", 3));
    assert!(ledger.set_balance("b", 7));
    assert!(!ledger.set_balance("a", 4));
    assert_eq!(ledger.get_balance("a"), 3);
    assert!(ledger.set_balance("treasury", 0));
    assert!(ledger.set_balance("a", u64::MAX - 7));
    assert!(ledger.set_stake("v", u64::MAX));
    assert!(!ledger.set_stake("w", 1));
    assert!(ledger.set_stake("v", 1));
    assert!(ledger.set_stake("w", 1));
    assert_eq!(ledger.get_stake("v"), 1);
    assert_eq!(ledger.get_stake("w"), 1);
    assert_eq!(ledger.get_stake("x"), 0);
}

#[test]
fn the_draw_walks_the_stakes_in_order() {
    let ledger = seeded(&[], &[("a", 3), ("b", 0), ("c", 2)]);
    assert_eq!(ledger.validator_for(0), "a");
    assert_eq!(ledger.validator_for(2), "a");
    assert_eq!(ledger.validator_for(3), "c");
    assert_eq!(ledger.validator_for(4), "c");
    assert_eq!(ledger.validator_for(5), "default_validator");
    assert_eq!(ledger.validator_for(u64::MAX), "default_validator");
    for _ in 0..50 {
        let elected = ledger.select_validator();
        assert!(elected == "a" || elected == "c");
    }
}

#[test]
fn without_stakes_the_default_validator_is_elected() {
    let ledger = seeded(&[], &[]);
    assert_eq!(ledger.select_validator(), "default_validator");
    assert_eq!(ledger.validator_for(0), "default_validator");
    let idle = seeded(&[], &[("a", 0)]);
    assert_eq!(idle.select_validator(), "default_validator");
}

#[test]
fn nonces_of_one_sender_count_up_from_zero() {
    let a = keypair(1);
    let b = keypair(2);
    let mut ledger = seeded(&[(&address(&a), 1000), (&address(&b), 1000)], &[("V", 1)]);
    assert_eq!(
        ledger.add_transaction(transfer(&a, "x", 1, 1, 1)),
        Err(TransactionError::BadNonce { expected: 0, got: 1 })
    );
    assert_eq!(ledger.add_transaction(transfer(&a, "x", 1, 1, 0)), Ok(()));
    assert_eq!(ledger.add_transaction(transfer(&b, "x", 1, 1, 0)), Ok(()));
    assert_eq!(
        ledger.add_transaction(transfer(&a, "x", 1, 1, 0)),
        Err(TransactionError::BadNonce { expected: 1, got: 0 })
    );
    assert_eq!(
        ledger.add_transaction(transfer(&a, "x", 1, 1, 2)),
        Err(TransactionError::BadNonce { expected: 1, got: 2 })
    );
    assert_eq!(ledger.add_transaction(transfer(&a, "x", 1, 1, 1)), Ok(()));
    assert_eq!(ledger.add_transaction(transfer(&a, "x", 1, 1, 2)), Ok(()));
    assert_eq!(ledger.add_transaction(transfer(&b, "x", 1, 1, 1)), Ok(()));
    let pending = ledger.get_mempool();
    let of = |who: &Keypair| -> Vec<u64> {
        pending.iter().filter(|tx| tx.sender == address(who)).map(|tx| tx.nonce).collect()
    };
    assert_eq!(of(&a), vec![0, 1, 2]);
    assert_eq!(of(&b), vec![0, 1]);
    assert_eq!(pending.len(), 5);
    assert_eq!(ledger.get_nonce(&address(&a)), 3);
    assert_eq!(ledger.get_nonce(&address(&b)), 2);
    // Balances move only when a block is applied.
    assert_eq!(ledger.get_balance(&address(&a)), 1000);
}

#[test]
fn the_checks_come_in_order_signature_nonce_funds() {
    let a = keypair(1);
    let mut ledger = seeded(&[(&address(&a), 10)], &[]);
    let mut forged = transfer(&a, "x", 100, 5, 9);
    forged.amount = 101;
    assert_eq!(ledger.add_transaction(forged), Err(TransactionError::InvalidSignature));
    assert_eq!(
        ledger.add_transaction(transfer(&a, "x", 100, 5, 9)),
        Err(TransactionError::BadNonce { expected: 0, got: 9 })
    );
    assert_eq!(
        ledger.add_transaction(transfer(&a, "x", 6, 5, 0)),
        Err(TransactionError::InsufficientFunds)
    );
    assert_eq!(
        ledger.add_transaction(transfer(&a, "x", u64::MAX, 1, 0)),
        Err(TransactionError::InsufficientFunds)
    );
    assert_eq!(ledger.add_transaction(transfer(&a, "x", 5, 5, 0)), Ok(()));
    assert_eq!(ledger.mempool_len(), 1);
}

#[test]
fn applying_a_block_moves_value_and_creates_none() {
    let a = keypair(1);
    let b = keypair(2);
    let (a_addr, b_addr) = (address(&a), address(&b));
    let everyone = [a_addr.as_str(), b_addr.as_str(), "V", "x", "treasury"];
    let mut ledger = seeded(&[(&a_addr, 1000), (&b_addr, 50)], &[("V", 1)]);
    let before = sum_of(&ledger, &everyone);
    let mut unsigned = transfer(&a, "x", 1, 1, 7);
    unsigned.signature = "00".repeat(64);
    let block = Block::assemble(
        1,
        5,
        vec![
            transfer(&a, &b_addr, 100, 5, 0),
            transfer(&b, "x", 140, 10, 0),
            transfer(&b, "x", 1, 1, 1),
            unsigned,
            transfer(&a, &a_addr, 10, 3, 1),
            transfer(&a, "V", 20, 2, 2),
        ],
        ledger.tip().hash,
        "V".to_string(),
    );
    ledger.apply_block(block);
    // b received 100 from a, paid 150 to x and the validator, and could not
    // pay for its second transfer.
    assert_eq!(ledger.get_balance(&a_addr), 1000 - 105 - 3 - 22);
    assert_eq!(ledger.get_balance(&b_addr), 0);
    assert_eq!(ledger.get_balance("x"), 140);
    assert_eq!(ledger.get_balance("V"), 5 + 10 + 3 + 2 + 20);
    assert_eq!(sum_of(&ledger, &everyone), before);
    assert_eq!(ledger.chain_len(), 2);
    assert!(ledger.validate_chain());
}

#[test]
fn an_admitted_transaction_may_be_skipped_when_its_block_is_applied() {
    let a = keypair(1);
    let a_addr = address(&a);
    let mut ledger = seeded(&[(&a_addr, 100)], &[("V", 1)]);
    assert_eq!(ledger.add_transaction(transfer(&a, "x", 90, 5, 0)), Ok(()));
    assert_eq!(ledger.add_transaction(transfer(&a, "y", 90, 5, 1)), Ok(()));
    let block = ledger.produce_block().expect("a block is produced");
    assert_eq!(block.transactions.len(), 2);
    assert_eq!(ledger.get_balance(&a_addr), 5);
    assert_eq!(ledger.get_balance("x"), 90);
    assert_eq!(ledger.get_balance("y"), 0);
    assert_eq!(ledger.get_balance("V"), 5);
    // The nonce of the skipped transaction is spent all the same.
    assert_eq!(ledger.get_nonce(&a_addr), 2);
}

#[test]
fn a_block_is_assembled_from_the_whole_mempool_and_not_applied() {
    let a = keypair(1);
    let a_addr = address(&a);
    let mut ledger = seeded(&[(&a_addr, 100)], &[("V", 1)]);
    assert!(ledger.create_block().is_none());
    assert!(ledger.create_block_with(9, "W".to_string()).is_none());
    assert_eq!(ledger.add_transaction(transfer(&a, "x", 1, 1, 0)), Ok(()));
    assert_eq!(ledger.add_transaction(transfer(&a, "y", 2, 1, 1)), Ok(()));
    let tip = ledger.tip();
    let block = ledger.create_block_with(9, "W".to_string()).expect("the mempool is not empty");
    assert_eq!(block.index, tip.index + 1);
    assert_eq!(block.timestamp, 9);
    assert_eq!(block.previous_hash, tip.hash);
    assert_eq!(block.validator, "W");
    assert_eq!(block.hash, block.compute_hash());
    assert_eq!(block.transactions.len(), 2);
    assert_eq!(block.transactions[0].receiver, "x");
    assert_eq!(block.transactions[1].receiver, "y");
    assert_eq!(ledger.mempool_len(), 0);
    assert_eq!(ledger.chain_len(), 1);
    assert_eq!(ledger.get_balance(&a_addr), 100);
    assert_eq!(ledger.accept_block(block), Ok(()));
    assert_eq!(ledger.get_balance(&a_addr), 95);
    assert!(ledger.validate_chain());
}

#[test]
fn a_created_block_applies_to_a_valid_chain() {
    let a = keypair(1);
    let a_addr = address(&a);
    let mut ledger = seeded(&[(&a_addr, 100)], &[("V", 3), ("W", 5)]);
    for nonce in 0..4 {
        assert_eq!(ledger.add_transaction(transfer(&a, "x", 1, 1, nonce)), Ok(()));
        let block = ledger.create_block().expect("the mempool is not empty");
        assert!(block.validator == "V" || block.validator == "W");
        ledger.apply_block(block);
        assert!(ledger.validate_chain());
        assert_eq!(ledger.chain_len(), nonce as usize + 2);
    }
    assert_eq!(ledger.get_balance("x"), 4);
    assert_eq!(ledger.get_balance("V") + ledger.get_balance("W"), 4);
}

#[test]
fn a_block_applied_without_check_can_break_the_chain() {
    let mut ledger = Blockchain::with_genesis(0, 0);
    let stray = Block::assemble(1, 5, Vec::new(), "f".repeat(64), "V".to_string());
    ledger.apply_block(stray);
    assert_eq!(ledger.chain_len(), 2);
    assert!(!ledger.validate_chain());
}

fn chain_of(length: u64) -> Vec<Block> {
    let mut chain = vec![Blockchain::create_genesis(1_700_000_000)];
    for index in 1..length {
        let previous = chain.last().unwrap().hash.clone();
        chain.push(Block::assemble(index, index as i64, Vec::new(), previous, "V".to_string()));
    }
    chain
}

#[test]
fn only_a_longer_valid_chain_is_adopted() {
    let a = keypair(1);
    let mut ledger = seeded(&[(&address(&a), 100)], &[]);
    assert_eq!(ledger.replace_chain(Vec::new()), Err(ChainError::NotLonger));
    assert_eq!(ledger.replace_chain(chain_of(1)), Err(ChainError::NotLonger));

    let mut unlinked = chain_of(3);
    unlinked[2] = Block::assemble(2, 2, Vec::new(), "e".repeat(64), "V".to_string());
    assert_eq!(ledger.replace_chain(unlinked), Err(ChainError::BrokenLink));

    let mut resealed = chain_of(3);
    resealed[1].timestamp += 1;
    assert_eq!(ledger.replace_chain(resealed), Err(ChainError::HashMismatch));

    let mut rehashed = chain_of(3);
    rehashed[1].timestamp += 1;
    rehashed[1].hash = rehashed[1].compute_hash();
    assert_eq!(ledger.replace_chain(rehashed), Err(ChainError::BrokenLink));

    let mut rooted = chain_of(3);
    rooted[0] = Block::assemble(0, 0, Vec::new(), "1".repeat(64), "genesis_validator".to_string());
    assert_eq!(ledger.replace_chain(rooted), Err(ChainError::BrokenLink));

    let mut both = chain_of(4);
    both[1].hash = "0".repeat(64);
    both[3].previous_hash = "0".repeat(64);
    assert_eq!(ledger.replace_chain(both), Err(ChainError::HashMismatch));

    assert_eq!(ledger.chain_len(), 1);
    assert_eq!(ledger.add_transaction(transfer(&a, "x", 1, 1, 0)), Ok(()));
    assert_eq!(ledger.replace_chain(chain_of(2)), Ok(()));
    assert_eq!(ledger.chain_len(), 2);
    assert_eq!(ledger.mempool_len(), 0);
    assert_eq!(ledger.get_nonce(&address(&a)), 1);
    assert_eq!(ledger.get_balance(&address(&a)), 100);
    assert!(ledger.validate_chain());
    assert_eq!(ledger.replace_chain(chain_of(2)), Err(ChainError::NotLonger));
}

#[test]
fn every_operation_that_links_keeps_the_chain_valid() {
    let a = keypair(1);
    let a_addr = address(&a);
    let mut ledger = seeded(&[(&a_addr, 1000)], &[("V", 1)]);
    assert!(ledger.validate_chain());
    assert_eq!(ledger.add_transaction(transfer(&a, "x", 1, 1, 0)), Ok(()));
    assert!(ledger.validate_chain());
    assert!(ledger.produce_block().is_some());
    assert!(ledger.validate_chain());
    assert!(ledger.accept_block(Block::assemble(5, 0, Vec::new(), "x".to_string(), "V".to_string())).is_err());
    assert!(ledger.validate_chain());
    let next = Block::assemble(2, 0, Vec::new(), ledger.tip().hash, "V".to_string());
    assert_eq!(ledger.accept_block(next), Ok(()));
    assert!(ledger.validate_chain());
    assert_eq!(ledger.replace_chain(chain_of(5)), Ok(()));
    assert!(ledger.validate_chain());
    assert!(ledger.replace_chain(chain_of(3)).is_err());
    assert!(ledger.validate_chain());
    assert_eq!(ledger.add_transaction(transfer(&a, "x", 1, 1, 1)), Ok(()));
    let block = ledger.create_block().expect("the mempool is not empty");
    ledger.apply_block(block);
    assert!(ledger.validate_chain());
    assert_eq!(ledger.chain_len(), 6);
}

#[test]
fn a_peers_transaction_is_submitted_like_any_other() {
    let a = keypair(1);
    let a_addr = address(&a);
    let mut ledger = seeded(&[(&a_addr, 1000)], &[("V", 1)]);
    let tx = transfer(&a, "x", 1, 1, 0);
    assert_eq!(
        Network::handle_message(&mut ledger, PeerMessage::Transaction(tx.clone())),
        PeerOutcome::TransactionAdmitted
    );
    assert_eq!(
        Network::handle_message(&mut ledger, PeerMessage::Transaction(tx)),
        PeerOutcome::TransactionRejected(TransactionError::BadNonce { expected: 1, got: 0 })
    );
    assert_eq!(ledger.mempool_len(), 1);
    let block = Block::assemble(1, 0, Vec::new(), ledger.tip().hash, "V".to_string());
    assert_eq!(
        Network::handle_message(&mut ledger, PeerMessage::Block(block.clone())),
        PeerOutcome::BlockApplied
    );
    assert_eq!(
        Network::handle_message(&mut ledger, PeerMessage::Block(block)),
        PeerOutcome::BlockRejected(BlockError::NonExtending)
    );
    assert_eq!(
        Network::handle_message(&mut ledger, PeerMessage::Chain(chain_of(2))),
        PeerOutcome::ChainRejected(ChainError::NotLonger)
    );
    assert_eq!(ledger.chain_len(), 2);
    assert_eq!(ledger.mempool_len(), 1);
}

#[test]
fn a_client_is_told_whether_its_transaction_was_accepted() {
    let a = keypair(1);
    let a_addr = address(&a);
    let mut ledger = seeded(&[(&a_addr, 1000)], &[("V", 1)]);
    let tx = transfer(&a, "x", 1, 1, 0);
    let accepted = Network::handle_submission(&mut ledger, tx.clone());
    assert_eq!(accepted.verdict, Ok(()));
    assert_eq!(accepted.reply, "Transaction accepted");
    assert_eq!(accepted.broadcast.expect("an accepted transaction is sent on").to_json(), tx.to_json());
    let rejected = Network::handle_submission(&mut ledger, tx);
    assert_eq!(rejected.verdict, Err(TransactionError::BadNonce { expected: 1, got: 0 }));
    assert_eq!(rejected.reply, "Transaction rejected");
    assert!(rejected.broadcast.is_none());
    assert_eq!(submission_reply(&Ok(())), "Transaction accepted");
    assert_eq!(submission_reply(&Err(TransactionError::InsufficientFunds)), "Transaction rejected");
    assert_eq!(submission_reply(&Err(TransactionError::InvalidSignature)), "Transaction rejected");
}

#[test]
fn a_network_keeps_what_it_was_made_with() {
    let bc = Arc::new(Mutex::new(Blockchain::with_genesis(0, 5)));
    let network = Network::new(
        Arc::clone(&bc),
        "127.0.0.1:7878".to_string(),
        vec!["127.0.0.1:7879".to_string(), "127.0.0.1:7880".to_string()],
    );
    assert_eq!(network.addr, "127.0.0.1:7878");
    assert_eq!(network.peers, vec!["127.0.0.1:7879", "127.0.0.1:7880"]);
    assert!(Arc::ptr_eq(&network.bc, &bc));
    assert_eq!(network.bc.lock().unwrap().get_balance("treasury"), 5);
    let copy = network.clone();
    assert!(Arc::ptr_eq(&copy.bc, &bc));
    assert_eq!(copy.peers.len(), 2);
}
