use cacia::block::Block;
use cacia::ledger::Blockchain;
use cacia::network::{Network, PeerMessage, PeerOutcome};
use cacia::state::{BlockError, ChainError, TransactionError};
use cacia::transaction::Transaction;
use ed25519_dalek::{Keypair, PublicKey, SecretKey, Signer};

fn keypair(seed: u8) -> Keypair {
    let secret = SecretKey::from_bytes(&[seed; 32]).unwrap();
    let public = PublicKey::from(&secret);
    Keypair { secret, public }
}

fn address(pair: &Keypair) -> String {
    hex::encode(pair.public.to_bytes())
}

fn signed(pair: &Keypair, sender: &str, receiver: &str, amount: u64, fee: u64, nonce: u64) -> Transaction {
    let mut tx = Transaction {
        sender: sender.to_string(),
        receiver: receiver.to_string(),
        amount,
        fee,
        nonce,
        signature: String::new(),
        timestamp: 1_700_000_000,
        public_key: hex::encode(pair.public.to_bytes()),
    };
    tx.signature = hex::encode(pair.sign(&tx.hash()).to_bytes());
    tx
}

fn transfer(pair: &Keypair, receiver: &str, amount: u64, fee: u64, nonce: u64) -> Transaction {
    signed(pair, &address(pair), receiver, amount, fee, nonce)
}

fn seeded(balances: &[(&str, u64)], stakes: &[(&str, u64)]) -> Blockchain {
    let mut ledger = Blockchain::with_genesis(1_700_000_000, 0);
    for (who, amount) in balances {
        assert!(ledger.set_balance(who, *amount));
    }
    for (who, amount) in stakes {
        assert!(ledger.set_stake(who, *amount));
    }
    ledger
}

#[test]
fn happy_transfer() {
    let a = keypair(1);
    let a_addr = address(&a);
    let mut ledger = seeded(&[(&a_addr, 1000), ("B", 0)], &[("V", 1)]);
    assert_eq!(ledger.add_transaction(transfer(&a, "B", 100, 5, 0)), Ok(()));
    let block = ledger.produce_block().expect("a block is produced");
    assert_eq!(ledger.chain_len(), 2);
    assert_eq!(block.validator, "V");
    assert_eq!(block.index, 1);
    assert_eq!(ledger.get_balance(&a_addr), 895);
    assert_eq!(ledger.get_balance("B"), 100);
    assert_eq!(ledger.get_balance("V"), 5);
    assert_eq!(ledger.get_nonce(&a_addr), 1);
    assert!(ledger.validate_chain());
    assert_eq!(ledger.mempool_len(), 0);
}

#[test]
fn replay_rejection() {
    let a = keypair(1);
    let a_addr = address(&a);
    let mut ledger = seeded(&[(&a_addr, 1000), ("B", 0)], &[("V", 1)]);
    let tx = transfer(&a, "B", 100, 5, 0);
    assert_eq!(ledger.add_transaction(tx.clone()), Ok(()));
    ledger.produce_block().expect("a block is produced");
    assert_eq!(
        ledger.add_transaction(tx),
        Err(TransactionError::BadNonce { expected: 1, got: 0 })
    );
    assert_eq!(ledger.chain_len(), 2);
    assert_eq!(ledger.get_balance(&a_addr), 895);
    assert_eq!(ledger.get_balance("B"), 100);
    assert_eq!(ledger.get_balance("V"), 5);
    assert_eq!(ledger.mempool_len(), 0);
}

#[test]
fn insufficient_funds() {
    let a = keypair(1);
    let a_addr = address(&a);
    let mut ledger = seeded(&[(&a_addr, 10)], &[("V", 1)]);
    assert_eq!(
        ledger.add_transaction(transfer(&a, "B", 100, 5, 0)),
        Err(TransactionError::InsufficientFunds)
    );
    assert_eq!(ledger.mempool_len(), 0);
    assert_eq!(ledger.get_nonce(&a_addr), 0);
    assert!(ledger.create_block().is_none());
    assert!(ledger.produce_block().is_none());
    assert_eq!(ledger.chain_len(), 1);
}

#[test]
fn forged_sender() {
    let k = keypair(1);
    let other = keypair(2);
    let victim = address(&other);
    let mut ledger = seeded(&[(&victim, 1000)], &[("V", 1)]);
    let tx = signed(&k, &victim, "B", 100, 5, 0);
    assert!(!tx.verify_signature());
    assert_eq!(ledger.add_transaction(tx), Err(TransactionError::InvalidSignature));
    assert_eq!(ledger.mempool_len(), 0);
    assert_eq!(ledger.get_nonce(&victim), 0);
}

fn chain_of(length: u64) -> Vec<Block> {
    let mut chain = vec![Blockchain::create_genesis(1_700_000_000)];
    for index in 1..length {
        let previous = chain.last().unwrap().hash.clone();
        chain.push(Block::assemble(index, 1_700_000_000 + index as i64, Vec::new(), previous, "V".to_string()));
    }
    chain
}

#[test]
fn peer_chain_adoption() {
    let a = keypair(1);
    let a_addr = address(&a);
    let mut ledger = seeded(&[(&a_addr, 1000)], &[]);
    assert_eq!(ledger.add_transaction(transfer(&a, "B", 1, 1, 0)), Ok(()));
    assert_eq!(ledger.chain_len(), 1);
    assert_eq!(ledger.mempool_len(), 1);
    let candidate = chain_of(3);
    let outcome = Network::handle_message(&mut ledger, PeerMessage::Chain(candidate.clone()));
    assert_eq!(outcome, PeerOutcome::ChainAdopted);
    assert_eq!(ledger.chain_len(), 3);
    assert_eq!(ledger.mempool_len(), 0);
    assert_eq!(ledger.tip().hash, candidate[2].hash);
    assert!(ledger.validate_chain());
}

#[test]
fn non_extending_block() {
    let mut ledger = Blockchain::with_genesis(1_700_000_000, 0);
    assert_eq!(ledger.replace_chain(chain_of(6)), Ok(()));
    let tip = ledger.tip();
    assert_eq!(tip.index, 5);
    let equal = Block::assemble(5, 9, Vec::new(), tip.hash.clone(), "V".to_string());
    let skip = Block::assemble(7, 9, Vec::new(), tip.hash.clone(), "V".to_string());
    let stray = Block::assemble(6, 9, Vec::new(), "f".repeat(64), "V".to_string());
    for block in [equal, skip, stray] {
        let outcome = Network::handle_message(&mut ledger, PeerMessage::Block(block));
        assert_eq!(outcome, PeerOutcome::BlockRejected(BlockError::NonExtending));
        assert_eq!(ledger.chain_len(), 6);
        assert_eq!(ledger.tip().hash, tip.hash);
    }
    let mut unsealed = Block::assemble(6, 9, Vec::new(), tip.hash.clone(), "V".to_string());
    unsealed.hash = "0".repeat(64);
    assert_eq!(ledger.accept_block(unsealed), Err(BlockError::HashMismatch));
    let next = Block::assemble(6, 9, Vec::new(), tip.hash.clone(), "V".to_string());
    assert_eq!(ledger.accept_block(next), Ok(()));
    assert_eq!(ledger.chain_len(), 7);
    assert_eq!(ledger.replace_chain(chain_of(7)), Err(ChainError::NotLonger));
}
