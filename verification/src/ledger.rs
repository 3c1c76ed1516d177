//! The ledger: chain, balances, nonces, stakes and mempool, with the rules
//! for admitting transactions and for assembling, applying and adopting
//! blocks.

use vstd::prelude::*;
use vstd::string::*;
use crate::accounts::{
    amount_of, lemma_amount_at_most_total, lemma_total_after_set, lemma_total_prefix, total,
    with_amount, AccountView, Accounts,
};
use crate::block::{
    block_views, clone_blocks, clone_transactions, zero_hash, zero_hash_string, Block,
};
use crate::laws::{law_draws_beyond_the_stakes_elect_the_default, law_draws_elect_by_stake};
use crate::lemmas::{
    lemma_admission_keeps_order, lemma_fault_stays, lemma_genesis_wf, lemma_no_fault_iff_valid,
    lemma_settle_conserves,
};
use crate::state::{
    chain_fault, default_validator, electable, fits, linked, payable, settle, settle_all,
    stake_winner, valid_chain, BlockError, ChainError, LedgerView, TransactionError,
};
use crate::system::{random_below, unix_time};
use crate::transaction::{transaction_views, Transaction, TransactionView};

verus! {

/// Base units created at genesis: one thousand million coins.
pub const TOTAL_SUPPLY: u64 = 100_000_000_000_000_000;

/// The fee that client tools offer by default, in base units.
pub const FEE: u64 = 5_000;

/// Seconds between two ticks of the producer.
pub const BLOCK_TIME: u64 = 5;

/// The ledger of a node.
#[derive(Debug)]
pub struct Blockchain {
    chain: Vec<Block>,
    balances: Accounts,
    pending_txs: Vec<Transaction>,
    stakes: Accounts,
    nonces: Accounts,
}

impl View for Blockchain {
    type V = LedgerView;

    closed spec fn view(&self) -> LedgerView {
        LedgerView {
            chain: block_views(self.chain@),
            balances: self.balances@,
            mempool: transaction_views(self.pending_txs@),
            stakes: self.stakes@,
            nonces: self.nonces@,
        }
    }
}

impl Clone for Blockchain {
    fn clone(&self) -> (copy: Self)
        ensures
            copy@ == self@,
    {
        Blockchain {
            chain: clone_blocks(&self.chain),
            balances: self.balances.clone(),
            pending_txs: clone_transactions(&self.pending_txs),
            stakes: self.stakes.clone(),
            nonces: self.nonces.clone(),
        }
    }
}

/// Walks `chain` from genesis and reports the first fault: of each block
/// the link is checked first, then the hash.
pub fn check_chain(chain: &Vec<Block>) -> (fault: Option<ChainError>)
    ensures
        fault == chain_fault(block_views(chain@), chain@.len() as int),
        fault is None <==> valid_chain(block_views(chain@)),
{
    let ghost views = block_views(chain@);
    let mut previous_hash = zero_hash_string();
    let mut i: usize = 0;
    while i < chain.len()
        invariant
            i <= chain.len(),
            views == block_views(chain@),
            chain_fault(views, i as int) is None,
            previous_hash@ == if i == 0 {
                zero_hash()
            } else {
                views[i - 1].hash
            },
        decreases chain.len() - i,
    {
        let block = &chain[i];
        if block.previous_hash != previous_hash {
            proof {
                lemma_fault_stays(views, i + 1, chain@.len() as int);
                lemma_no_fault_iff_valid(views, chain@.len() as int);
            }
            return Some(ChainError::BrokenLink);
        }
        if !block.is_sealed() {
            proof {
                lemma_fault_stays(views, i + 1, chain@.len() as int);
                lemma_no_fault_iff_valid(views, chain@.len() as int);
            }
            return Some(ChainError::HashMismatch);
        }
        previous_hash = block.hash.clone();
        i += 1;
    }
    proof {
        lemma_no_fault_iff_valid(views, chain@.len() as int);
    }
    None
}

impl Blockchain {
    /// What holds of every ledger.
    pub open spec fn wf(&self) -> bool {
        self@.wf()
    }

    /// The genesis block stamped `timestamp`.
    pub fn create_genesis(timestamp: i64) -> (genesis: Block)
        ensures
            genesis@ == LedgerView::genesis_block(timestamp),
    {
        let genesis = Block::assemble(
            0,
            timestamp,
            Vec::new(),
            zero_hash_string(),
            String::from_str("genesis_validator"),
        );
        proof {
            assert(genesis@.transactions =~= Seq::<TransactionView>::empty());
        }
        genesis
    }

    /// A ledger at genesis, stamped `timestamp`, with `supply` base units in
    /// the treasury.
    pub fn with_genesis(timestamp: i64, supply: u64) -> (ledger: Self)
        ensures
            ledger@ == LedgerView::genesis(timestamp, supply),
            ledger.wf(),
    {
        let mut chain: Vec<Block> = Vec::new();
        chain.push(Self::create_genesis(timestamp));
        let mut balances = Accounts::new();
        balances.set("treasury", supply);
        let ledger = Blockchain {
            chain,
            balances,
            pending_txs: Vec::new(),
            stakes: Accounts::new(),
            nonces: Accounts::new(),
        };
        proof {
            assert(ledger@.chain =~= seq![LedgerView::genesis_block(timestamp)]);
            assert(ledger@.mempool =~= Seq::<TransactionView>::empty());
            assert(ledger@.balances =~= seq![
                AccountView { address: "treasury"@, amount: supply },
            ]);
            lemma_genesis_wf(timestamp, supply);
        }
        ledger
    }

    /// A ledger at genesis, stamped with the current time, holding
    /// `TOTAL_SUPPLY` in the treasury.
    pub fn new() -> (ledger: Self)
        ensures
            exists|timestamp: i64| ledger@ == LedgerView::genesis(timestamp, TOTAL_SUPPLY),
            ledger.wf(),
    {
        let timestamp = unix_time();
        Self::with_genesis(timestamp, TOTAL_SUPPLY)
    }

    /// The hash that the content of `block` calls for.
    pub fn hash_block(block: &Block) -> (hash: String)
        ensures
            hash@ == block@.computed_hash(),
    {
        block.compute_hash()
    }

    /// Whether the chain is linked from genesis on and every block carries
    /// the hash of its content.
    pub fn validate_chain(&self) -> (ok: bool)
        ensures
            ok == valid_chain(self@.chain),
    {
        check_chain(&self.chain).is_none()
    }

    /// Submits `tx`. It is admitted when its signature is valid, its nonce
    /// is the one expected of its sender, and the sender holds amount plus
    /// fee; it then joins the end of the mempool and the sender's expected
    /// nonce advances by one. A rejected transaction changes nothing.
    pub fn add_transaction(&mut self, tx: Transaction) -> (result: Result<(), TransactionError>)
        requires
            old(self).wf(),
        ensures
            result == old(self)@.admission(tx@),
            final(self)@ == old(self)@.add_transaction(tx@),
            final(self).wf(),
    {
        if !tx.verify_signature() {
            return Err(TransactionError::InvalidSignature);
        }
        let expected = self.nonces.get(tx.sender.as_str());
        if tx.nonce != expected || expected == u64::MAX {
            return Err(TransactionError::BadNonce { expected, got: tx.nonce });
        }
        let balance = self.balances.get(tx.sender.as_str());
        let affordable = match tx.amount.checked_add(tx.fee) {
            Some(cost) => balance >= cost,
            None => false,
        };
        if !affordable {
            return Err(TransactionError::InsufficientFunds);
        }
        proof {
            lemma_admission_keeps_order(self@.mempool, self@.nonces, tx@);
        }
        self.nonces.set(tx.sender.as_str(), expected + 1);
        self.pending_txs.push(tx);
        proof {
            assert(self@.mempool =~= old(self)@.mempool.push(tx@));
        }
        Ok(())
    }

    /// Settles `tx` as part of a block of `validator`: a validly signed
    /// transaction whose sender holds amount plus fee debits the sender,
    /// credits the receiver with the amount and the validator with the fee;
    /// any other is skipped. Returns whether value moved.
    fn settle_transaction(balances: &mut Accounts, tx: &Transaction, validator: &str) -> (moved:
        bool)
        requires
            old(balances).wf(),
            total(old(balances)@) <= u64::MAX,
        ensures
            final(balances)@ == settle(old(balances)@, tx@, validator@),
            final(balances).wf(),
            total(final(balances)@) == total(old(balances)@),
            moved == payable(old(balances)@, tx@),
    {
        proof {
            lemma_settle_conserves(balances@, tx@, validator@);
        }
        if !tx.verify_signature() {
            return false;
        }
        let held = balances.get(tx.sender.as_str());
        let cost = match tx.amount.checked_add(tx.fee) {
            Some(cost) => cost,
            None => {
                return false;
            },
        };
        if held < cost {
            return false;
        }
        balances.set(tx.sender.as_str(), held - cost);
        let received = balances.get(tx.receiver.as_str());
        balances.set(tx.receiver.as_str(), received + tx.amount);
        let earned = balances.get(validator);
        balances.set(validator, earned + tx.fee);
        true
    }

    /// Applies `block`: settles its transactions in order, skipping those
    /// that are not validly signed or that the sender cannot pay for, and
    /// appends the block to the chain whatever it holds.
    pub fn apply_block(&mut self, block: Block)
        requires
            old(self).wf(),
        ensures
            final(self)@ == old(self)@.apply_block(block@),
            final(self).wf(),
            total(final(self)@.balances) == total(old(self)@.balances),
    {
        let mut i: usize = 0;
        while i < block.transactions.len()
            invariant
                i <= block.transactions.len(),
                self.chain == old(self).chain,
                self.pending_txs == old(self).pending_txs,
                self.stakes == old(self).stakes,
                self.nonces == old(self).nonces,
                self.balances.wf(),
                total(self.balances@) == total(old(self).balances@),
                total(old(self).balances@) <= u64::MAX,
                self.balances@ == settle_all(
                    old(self).balances@,
                    block@.transactions.take(i as int),
                    block@.validator,
                ),
            decreases block.transactions.len() - i,
        {
            Self::settle_transaction(
                &mut self.balances,
                &block.transactions[i],
                block.validator.as_str(),
            );
            proof {
                let done = block@.transactions.take(i + 1);
                assert(done.drop_last() =~= block@.transactions.take(i as int));
            }
            i += 1;
        }
        proof {
            assert(block@.transactions.take(i as int) =~= block@.transactions);
        }
        self.chain.push(block);
        proof {
            assert(self@.chain =~= old(self)@.chain.push(block@));
        }
    }

    /// The validator that the draw `pick` elects: walking the stakes in
    /// table order with a running sum, the first whose running sum exceeds
    /// `pick`, and the default validator where none does.
    pub fn validator_for(&self, pick: u64) -> (validator: String)
        requires
            self.wf(),
        ensures
            validator@ == stake_winner(self@.stakes, pick as nat),
            forall|i: int|
                0 <= i < self@.stakes.len() && total(self@.stakes.take(i)) <= pick < total(
                    self@.stakes.take(i + 1),
                ) ==> validator@ == (#[trigger] self@.stakes[i]).address,
            pick >= total(self@.stakes) ==> validator@ == default_validator(),
    {
        let validator = self.walk_stakes(pick);
        proof {
            assert forall|i: int|
                0 <= i < self@.stakes.len() && total(self@.stakes.take(i)) <= pick < total(
                    self@.stakes.take(i + 1),
                ) implies validator@ == (#[trigger] self@.stakes[i]).address by {
                law_draws_elect_by_stake(self@.stakes, pick as nat, i);
            }
            if pick >= total(self@.stakes) {
                law_draws_beyond_the_stakes_elect_the_default(self@.stakes, pick as nat);
            }
        }
        validator
    }

    /// Walks the stakes with a running sum until it exceeds `pick`.
    fn walk_stakes(&self, pick: u64) -> (validator: String)
        requires
            self.wf(),
        ensures
            validator@ == stake_winner(self@.stakes, pick as nat),
    {
        let mut cumulative: u64 = 0;
        let mut i: usize = 0;
        assert(self.stakes@.skip(0) =~= self.stakes@);
        while i < self.stakes.len()
            invariant
                i <= self.stakes@.len(),
                total(self.stakes@) <= u64::MAX,
                cumulative == total(self.stakes@.take(i as int)),
                cumulative <= pick,
                stake_winner(self.stakes@, pick as nat) == stake_winner(
                    self.stakes@.skip(i as int),
                    (pick - cumulative) as nat,
                ),
            decreases self.stakes@.len() - i,
        {
            proof {
                assert(self.stakes@.take(i + 1).drop_last() =~= self.stakes@.take(i as int));
                lemma_total_prefix(self.stakes@, i + 1);
                assert(self.stakes@.skip(i as int).drop_first() =~= self.stakes@.skip(i + 1));
            }
            cumulative = cumulative + self.stakes.amount_at(i);
            if pick < cumulative {
                return self.stakes.address_at(i).clone();
            }
            i += 1;
        }
        String::from_str("default_validator")
    }

    /// Elects a validator by a stake-weighted random draw: a uniform draw
    /// below the total stake, resolved as `validator_for` says; the default
    /// validator where nobody holds a stake.
    pub fn select_validator(&self) -> (validator: String)
        requires
            self.wf(),
        ensures
            electable(self@.stakes, validator@),
    {
        let total_stake = self.stakes.sum();
        if total_stake == 0 {
            return String::from_str("default_validator");
        }
        let pick = random_below(total_stake);
        let validator = self.validator_for(pick);
        assert(pick < total(self@.stakes) && validator@ == stake_winner(
            self@.stakes,
            pick as nat,
        ));
        validator
    }

    /// Assembles a block stamped `timestamp` for `validator`: the whole
    /// mempool, in order, on top of the tip. The block is sealed and not
    /// applied. Nothing is assembled from an empty mempool, nor on a tip
    /// whose index is `u64::MAX`.
    pub fn create_block_with(&mut self, timestamp: i64, validator: String) -> (created: Option<
        Block,
    >)
        requires
            old(self).wf(),
        ensures
            match created {
                Some(block) => old(self)@.can_create_block() && block@ == old(self)@.next_block(
                    timestamp,
                    validator@,
                ),
                None => !old(self)@.can_create_block(),
            },
            final(self)@ == old(self)@.create_block(),
            final(self).wf(),
    {
        if self.pending_txs.len() == 0 {
            return None;
        }
        let tip = &self.chain[self.chain.len() - 1];
        if tip.index == u64::MAX {
            return None;
        }
        let index = tip.index + 1;
        let previous_hash = tip.hash.clone();
        let mut transactions: Vec<Transaction> = Vec::new();
        std::mem::swap(&mut transactions, &mut self.pending_txs);
        let block = Block::assemble(index, timestamp, transactions, previous_hash, validator);
        proof {
            assert(self@.mempool =~= Seq::<TransactionView>::empty());
        }
        Some(block)
    }

    /// Assembles a block from the mempool, stamped with the current time,
    /// for a validator elected by `select_validator`.
    pub fn create_block(&mut self) -> (created: Option<Block>)
        requires
            old(self).wf(),
        ensures
            match created {
                Some(block) => old(self)@.can_create_block() && exists|
                    timestamp: i64,
                    validator: Seq<char>,
                |
                    electable(old(self)@.stakes, validator) && block@ == old(self)@.next_block(
                        timestamp,
                        validator,
                    ),
                None => !old(self)@.can_create_block(),
            },
            final(self)@ == old(self)@.create_block(),
            final(self).wf(),
    {
        if self.pending_txs.len() == 0 {
            return None;
        }
        let validator = self.select_validator();
        let timestamp = unix_time();
        let ghost elected = validator@;
        let created = self.create_block_with(timestamp, validator);
        proof {
            if created is Some {
                assert(electable(old(self)@.stakes, elected) && created.unwrap()@ == old(
                    self,
                )@.next_block(timestamp, elected));
            }
        }
        created
    }

    /// One tick of the producer: assembles a block from the mempool and, if
    /// there is one, applies it. Returns the block for broadcast.
    pub fn produce_block(&mut self) -> (produced: Option<Block>)
        requires
            old(self).wf(),
        ensures
            match produced {
                Some(block) => old(self)@.can_create_block() && exists|
                    timestamp: i64,
                    validator: Seq<char>,
                |
                    electable(old(self)@.stakes, validator) && block@ == old(self)@.next_block(
                        timestamp,
                        validator,
                    ) && final(self)@ == old(self)@.produce_block(timestamp, validator),
                None => !old(self)@.can_create_block() && final(self)@ == old(self)@,
            },
            final(self).wf(),
    {
        match self.create_block() {
            Some(block) => {
                self.apply_block(block.clone());
                Some(block)
            },
            None => None,
        }
    }

    /// Takes a block from a peer: it is applied when it follows the tip and
    /// carries the hash of its content, and dropped otherwise.
    pub fn accept_block(&mut self, block: Block) -> (result: Result<(), BlockError>)
        requires
            old(self).wf(),
        ensures
            result == old(self)@.block_verdict(block@),
            final(self)@ == old(self)@.accept_block(block@),
            final(self).wf(),
    {
        let tip = &self.chain[self.chain.len() - 1];
        let follows = match tip.index.checked_add(1) {
            Some(next) => block.index == next,
            None => false,
        };
        if !follows || block.previous_hash != tip.hash {
            return Err(BlockError::NonExtending);
        }
        if !block.is_sealed() {
            return Err(BlockError::HashMismatch);
        }
        self.apply_block(block);
        Ok(())
    }

    /// Takes a chain from a peer: it replaces the local chain, and the
    /// mempool is dropped, when it is longer than the local chain and valid
    /// from genesis on. Otherwise nothing changes.
    pub fn replace_chain(&mut self, candidate: Vec<Block>) -> (result: Result<(), ChainError>)
        requires
            old(self).wf(),
        ensures
            result == old(self)@.chain_verdict(block_views(candidate@)),
            final(self)@ == old(self)@.replace_chain(block_views(candidate@)),
            final(self).wf(),
            result is Ok ==> valid_chain(final(self)@.chain),
    {
        if candidate.len() <= self.chain.len() {
            return Err(ChainError::NotLonger);
        }
        match check_chain(&candidate) {
            Some(fault) => Err(fault),
            None => {
                self.chain = candidate;
                self.pending_txs = Vec::new();
                proof {
                    assert(self@.mempool =~= Seq::<TransactionView>::empty());
                }
                Ok(())
            },
        }
    }

    /// Sets the balance of `address` to `amount`, unless the balances would
    /// then sum to more than 64 bits hold. Returns whether it was set.
    pub fn set_balance(&mut self, address: &str, amount: u64) -> (done: bool)
        requires
            old(self).wf(),
        ensures
            done == fits(old(self)@.balances, address@, amount),
            final(self)@ == old(self)@.set_balance(address@, amount),
            final(self).wf(),
    {
        Self::set_within_total(&mut self.balances, address, amount)
    }

    /// Sets the stake of `address` to `amount`, unless the stakes would then
    /// sum to more than 64 bits hold. Returns whether it was set.
    pub fn set_stake(&mut self, address: &str, amount: u64) -> (done: bool)
        requires
            old(self).wf(),
        ensures
            done == fits(old(self)@.stakes, address@, amount),
            final(self)@ == old(self)@.set_stake(address@, amount),
            final(self).wf(),
    {
        Self::set_within_total(&mut self.stakes, address, amount)
    }

    /// Sets `address` to `amount` in `table` where the total stays within
    /// 64 bits.
    fn set_within_total(table: &mut Accounts, address: &str, amount: u64) -> (done: bool)
        requires
            old(table).wf(),
            total(old(table)@) <= u64::MAX,
        ensures
            final(table).wf(),
            total(final(table)@) <= u64::MAX,
            done == fits(old(table)@, address@, amount),
            final(table)@ == if done {
                with_amount(old(table)@, address@, amount)
            } else {
                old(table)@
            },
    {
        proof {
            lemma_amount_at_most_total(table@, address@);
            lemma_total_after_set(table@, address@, amount);
        }
        let others = table.sum() - table.get(address);
        if amount > u64::MAX - others {
            return false;
        }
        table.set(address, amount);
        true
    }

    /// The nonce expected next of `address`, zero for an address the ledger
    /// has not seen.
    pub fn get_nonce(&self, address: &str) -> (nonce: u64)
        requires
            self.wf(),
        ensures
            nonce == amount_of(self@.nonces, address@),
    {
        self.nonces.get(address)
    }

    /// The stake of `address`, zero for an address without one.
    pub fn get_stake(&self, address: &str) -> (stake: u64)
        requires
            self.wf(),
        ensures
            stake == amount_of(self@.stakes, address@),
    {
        self.stakes.get(address)
    }

    /// Number of blocks in the chain.
    pub fn chain_len(&self) -> (n: usize)
        ensures
            n == self@.chain.len(),
    {
        self.chain.len()
    }

    /// Number of transactions waiting in the mempool.
    pub fn mempool_len(&self) -> (n: usize)
        ensures
            n == self@.mempool.len(),
    {
        self.pending_txs.len()
    }

    /// A copy of the mempool, in submission order.
    pub fn get_mempool(&self) -> (pending: Vec<Transaction>)
        ensures
            transaction_views(pending@) == self@.mempool,
    {
        clone_transactions(&self.pending_txs)
    }

    /// A copy of the last block of the chain.
    pub fn tip(&self) -> (block: Block)
        requires
            self.wf(),
        ensures
            block@ == self@.tip(),
    {
        self.chain[self.chain.len() - 1].clone()
    }

    /// A copy of the chain.
    pub fn get_chain(&self) -> (chain: Vec<Block>)
        ensures
            block_views(chain@) == self@.chain,
    {
        clone_blocks(&self.chain)
    }

    /// The balance of `address`, zero for an address the ledger has not seen.
    pub fn get_balance(&self, address: &str) -> (balance: u64)
        requires
            self.wf(),
        ensures
            balance == amount_of(self@.balances, address@),
    {
        self.balances.get(address)
    }
}

} // verus!
