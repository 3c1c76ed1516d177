//! The ledger as a mathematical state machine: what each operation makes of
//! a ledger, stated on views.

use vstd::prelude::*;
use crate::accounts::{amount_of, distinct_addresses, total, with_amount, AccountView};
use crate::block::{zero_hash, BlockView};
use crate::transaction::TransactionView;

verus! {

/// Why a transaction was not admitted to the mempool.
#[derive(Debug, Clone, Copy, PartialEq, Eq, Structural)]
pub enum TransactionError {
    /// The signature does not verify, or the sender is not the key's address.
    InvalidSignature,
    /// The nonce is not the one the ledger expects of the sender.
    BadNonce { expected: u64, got: u64 },
    /// The sender holds less than amount plus fee.
    InsufficientFunds,
}

/// Why a block from a peer was not applied.
#[derive(Debug, Clone, Copy, PartialEq, Eq, Structural)]
pub enum BlockError {
    /// The block does not follow the tip: wrong index or wrong previous hash.
    NonExtending,
    /// The block's hash is not the hash of its content.
    HashMismatch,
}

/// Why a chain from a peer was not adopted.
#[derive(Debug, Clone, Copy, PartialEq, Eq, Structural)]
pub enum ChainError {
    /// The chain is no longer than the local one.
    NotLonger,
    /// Some block's previous hash is not the hash of the block before it.
    BrokenLink,
    /// Some block's hash is not the hash of its content.
    HashMismatch,
}

/// The account that holds the supply at genesis.
pub open spec fn treasury() -> Seq<char> {
    "treasury"@
}

/// The validator named in the genesis block.
pub open spec fn genesis_validator() -> Seq<char> {
    "genesis_validator"@
}

/// The validator chosen where nobody holds a stake.
pub open spec fn default_validator() -> Seq<char> {
    "default_validator"@
}

/// Block `i` of `chain` names its predecessor's hash, the genesis block 64
/// zeros.
pub open spec fn linked(chain: Seq<BlockView>, i: int) -> bool {
    chain[i].previous_hash == if i == 0 {
        zero_hash()
    } else {
        chain[i - 1].hash
    }
}

/// Block `i` of `chain` is linked to its predecessor and carries the hash of
/// its own content.
pub open spec fn valid_at(chain: Seq<BlockView>, i: int) -> bool {
    linked(chain, i) && chain[i].sealed()
}

/// The first `n` blocks of `chain` are linked and sealed.
pub open spec fn valid_prefix(chain: Seq<BlockView>, n: int) -> bool {
    forall|i: int| 0 <= i < n ==> #[trigger] valid_at(chain, i)
}

/// Every block of `chain` is linked to the one before it and carries the
/// hash of its own content.
pub open spec fn valid_chain(chain: Seq<BlockView>) -> bool {
    valid_prefix(chain, chain.len() as int)
}

/// The first fault met among the first `n` blocks when walking from genesis
/// and checking, of each block, first its link and then its hash.
pub open spec fn chain_fault(chain: Seq<BlockView>, n: int) -> Option<ChainError>
    decreases n,
{
    if n <= 0 {
        None
    } else {
        match chain_fault(chain, n - 1) {
            Some(fault) => Some(fault),
            None => if !linked(chain, n - 1) {
                Some(ChainError::BrokenLink)
            } else if !chain[n - 1].sealed() {
                Some(ChainError::HashMismatch)
            } else {
                None
            },
        }
    }
}

/// The nonces of the transactions in `mempool` that `sender` sent, in order.
pub open spec fn pending_nonces(mempool: Seq<TransactionView>, sender: Seq<char>) -> Seq<u64>
    decreases mempool.len(),
{
    if mempool.len() == 0 {
        seq![]
    } else {
        let earlier = pending_nonces(mempool.drop_last(), sender);
        if mempool.last().sender == sender {
            earlier.push(mempool.last().nonce)
        } else {
            earlier
        }
    }
}

/// `run` counts up by one and ends just below `next`.
pub open spec fn consecutive_up_to(run: Seq<u64>, next: u64) -> bool {
    &&& run.len() <= next
    &&& forall|k: int| 0 <= k < run.len() ==> #[trigger] run[k] == next - run.len() + k
}

/// Of every sender, the nonces pending in the mempool are consecutive, in
/// mempool order, and end just below the nonce expected next.
pub open spec fn nonces_in_order(mempool: Seq<TransactionView>, nonces: Seq<AccountView>) -> bool {
    forall|sender: Seq<char>|
        consecutive_up_to(#[trigger] pending_nonces(mempool, sender), amount_of(nonces, sender))
}

/// Whether `tx` moves value when applied to `balances`: it is validly
/// signed and its sender holds amount plus fee.
pub open spec fn payable(balances: Seq<AccountView>, tx: TransactionView) -> bool {
    tx.signature_valid() && amount_of(balances, tx.sender) >= tx.amount + tx.fee
}

/// The balances after `tx` is applied in a block of `validator`: a payable
/// transaction debits the sender by amount plus fee, then credits the
/// receiver with the amount, then the validator with the fee; any other
/// transaction changes nothing.
pub open spec fn settle(
    balances: Seq<AccountView>,
    tx: TransactionView,
    validator: Seq<char>,
) -> Seq<AccountView> {
    if payable(balances, tx) {
        let debited = with_amount(
            balances,
            tx.sender,
            (amount_of(balances, tx.sender) - tx.amount - tx.fee) as u64,
        );
        let credited = with_amount(
            debited,
            tx.receiver,
            (amount_of(debited, tx.receiver) + tx.amount) as u64,
        );
        with_amount(credited, validator, (amount_of(credited, validator) + tx.fee) as u64)
    } else {
        balances
    }
}

/// The balances after the transactions are applied one after another.
pub open spec fn settle_all(
    balances: Seq<AccountView>,
    transactions: Seq<TransactionView>,
    validator: Seq<char>,
) -> Seq<AccountView>
    decreases transactions.len(),
{
    if transactions.len() == 0 {
        balances
    } else {
        settle(
            settle_all(balances, transactions.drop_last(), validator),
            transactions.last(),
            validator,
        )
    }
}

/// The address that the draw `pick` elects: walking the stakes in table
/// order with a running sum, the first whose running sum exceeds `pick`;
/// the default validator where none does.
pub open spec fn stake_winner(stakes: Seq<AccountView>, pick: nat) -> Seq<char>
    decreases stakes.len(),
{
    if stakes.len() == 0 {
        default_validator()
    } else if pick < stakes[0].amount {
        stakes[0].address
    } else {
        stake_winner(stakes.drop_first(), (pick - stakes[0].amount) as nat)
    }
}

/// Whether the stake-weighted draw can elect `validator`: some draw below
/// the total stake elects it; where nobody holds a stake, only the default
/// validator can be elected.
pub open spec fn electable(stakes: Seq<AccountView>, validator: Seq<char>) -> bool {
    if total(stakes) == 0 {
        validator == default_validator()
    } else {
        exists|pick: nat| pick < total(stakes) && validator == stake_winner(stakes, pick)
    }
}

/// Whether `address` can be set to `amount` without the table's total
/// leaving 64 bits.
pub open spec fn fits(entries: Seq<AccountView>, address: Seq<char>, amount: u64) -> bool {
    total(entries) - amount_of(entries, address) + amount <= u64::MAX
}

/// The state of a ledger.
pub struct LedgerView {
    pub chain: Seq<BlockView>,
    pub balances: Seq<AccountView>,
    pub mempool: Seq<TransactionView>,
    pub stakes: Seq<AccountView>,
    pub nonces: Seq<AccountView>,
}

impl LedgerView {
    /// What holds of every ledger: the chain has a genesis block, no table
    /// names an address twice, the balances and the stakes each sum to no
    /// more than 64 bits hold, and pending nonces are in order.
    pub open spec fn wf(self) -> bool {
        &&& self.chain.len() > 0
        &&& distinct_addresses(self.balances)
        &&& distinct_addresses(self.stakes)
        &&& distinct_addresses(self.nonces)
        &&& total(self.balances) <= u64::MAX
        &&& total(self.stakes) <= u64::MAX
        &&& nonces_in_order(self.mempool, self.nonces)
    }

    /// The last block of the chain.
    pub open spec fn tip(self) -> BlockView {
        self.chain.last()
    }

    /// The genesis block stamped `timestamp`.
    pub open spec fn genesis_block(timestamp: i64) -> BlockView {
        BlockView {
            index: 0,
            timestamp,
            transactions: seq![],
            previous_hash: zero_hash(),
            hash: seq![],
            validator: genesis_validator(),
        }.seal()
    }

    /// The ledger at genesis: one block, the whole supply with the treasury.
    pub open spec fn genesis(timestamp: i64, supply: u64) -> LedgerView {
        LedgerView {
            chain: seq![Self::genesis_block(timestamp)],
            balances: seq![AccountView { address: treasury(), amount: supply }],
            mempool: seq![],
            stakes: seq![],
            nonces: seq![],
        }
    }

    /// The verdict on a submitted transaction. The checks come in this
    /// order: signature, nonce, funds. A sender whose expected nonce has
    /// reached `u64::MAX` can submit nothing more, since the counter could
    /// not advance.
    pub open spec fn admission(self, tx: TransactionView) -> Result<(), TransactionError> {
        let expected = amount_of(self.nonces, tx.sender);
        if !tx.signature_valid() {
            Err(TransactionError::InvalidSignature)
        } else if tx.nonce != expected || expected == u64::MAX {
            Err(TransactionError::BadNonce { expected, got: tx.nonce })
        } else if amount_of(self.balances, tx.sender) < tx.amount + tx.fee {
            Err(TransactionError::InsufficientFunds)
        } else {
            Ok(())
        }
    }

    /// The ledger after `tx` is submitted: an admitted transaction joins the
    /// end of the mempool and advances the sender's nonce; a rejected one
    /// changes nothing.
    pub open spec fn add_transaction(self, tx: TransactionView) -> LedgerView {
        if self.admission(tx) is Ok {
            LedgerView {
                mempool: self.mempool.push(tx),
                nonces: with_amount(self.nonces, tx.sender, (tx.nonce + 1) as u64),
                ..self
            }
        } else {
            self
        }
    }

    /// Whether a block can be assembled: the mempool holds something, and
    /// the next index fits in 64 bits.
    pub open spec fn can_create_block(self) -> bool {
        self.mempool.len() > 0 && self.tip().index < u64::MAX
    }

    /// The block assembled from the whole mempool on top of the tip.
    pub open spec fn next_block(self, timestamp: i64, validator: Seq<char>) -> BlockView {
        BlockView {
            index: (self.tip().index + 1) as u64,
            timestamp,
            transactions: self.mempool,
            previous_hash: self.tip().hash,
            hash: seq![],
            validator,
        }.seal()
    }

    /// The ledger after a block was assembled: the mempool is empty, and
    /// nothing was applied.
    pub open spec fn create_block(self) -> LedgerView {
        if self.can_create_block() {
            LedgerView { mempool: seq![], ..self }
        } else {
            self
        }
    }

    /// The ledger after `block` is applied: its transactions are settled in
    /// order, and the block joins the chain whatever it holds.
    pub open spec fn apply_block(self, block: BlockView) -> LedgerView {
        LedgerView {
            balances: settle_all(self.balances, block.transactions, block.validator),
            chain: self.chain.push(block),
            ..self
        }
    }

    /// `block` follows the tip: next index, and the tip's hash as previous
    /// hash.
    pub open spec fn extends_tip(self, block: BlockView) -> bool {
        block.index == self.tip().index + 1 && block.previous_hash == self.tip().hash
    }

    /// The verdict on a block from a peer.
    pub open spec fn block_verdict(self, block: BlockView) -> Result<(), BlockError> {
        if !self.extends_tip(block) {
            Err(BlockError::NonExtending)
        } else if !block.sealed() {
            Err(BlockError::HashMismatch)
        } else {
            Ok(())
        }
    }

    /// The ledger after a block from a peer: applied where the verdict is
    /// `Ok`, dropped otherwise.
    pub open spec fn accept_block(self, block: BlockView) -> LedgerView {
        if self.block_verdict(block) is Ok {
            self.apply_block(block)
        } else {
            self
        }
    }

    /// The verdict on a chain from a peer: it must be longer than the local
    /// chain and valid throughout.
    pub open spec fn chain_verdict(self, candidate: Seq<BlockView>) -> Result<(), ChainError> {
        if candidate.len() <= self.chain.len() {
            Err(ChainError::NotLonger)
        } else {
            match chain_fault(candidate, candidate.len() as int) {
                Some(fault) => Err(fault),
                None => Ok(()),
            }
        }
    }

    /// The ledger after a chain from a peer: an adopted chain replaces the
    /// local one and the mempool is dropped; a rejected one changes nothing.
    pub open spec fn replace_chain(self, candidate: Seq<BlockView>) -> LedgerView {
        if self.chain_verdict(candidate) is Ok {
            LedgerView { chain: candidate, mempool: seq![], ..self }
        } else {
            self
        }
    }

    /// The ledger after one tick of the producer at `timestamp` with the
    /// validator `validator`: the assembled block, if any, is applied.
    pub open spec fn produce_block(self, timestamp: i64, validator: Seq<char>) -> LedgerView {
        if self.can_create_block() {
            self.create_block().apply_block(self.next_block(timestamp, validator))
        } else {
            self
        }
    }

    /// The ledger after the balance of `address` is set to `amount`; a
    /// balance that would take the total out of 64 bits is not set.
    pub open spec fn set_balance(self, address: Seq<char>, amount: u64) -> LedgerView {
        if fits(self.balances, address, amount) {
            LedgerView { balances: with_amount(self.balances, address, amount), ..self }
        } else {
            self
        }
    }

    /// The ledger after the stake of `address` is set to `amount`; a stake
    /// that would take the total out of 64 bits is not set.
    pub open spec fn set_stake(self, address: Seq<char>, amount: u64) -> LedgerView {
        if fits(self.stakes, address, amount) {
            LedgerView { stakes: with_amount(self.stakes, address, amount), ..self }
        } else {
            self
        }
    }
}

/// One public operation on a ledger, with the values that decide its effect.
pub enum Operation {
    /// A transaction is submitted.
    AddTransaction(TransactionView),
    /// A block is assembled from the mempool and handed out, not applied.
    CreateBlock,
    /// A block is applied without any check.
    ApplyBlock(BlockView),
    /// A block arrives from a peer.
    AcceptBlock(BlockView),
    /// A chain arrives from a peer.
    ReplaceChain(Seq<BlockView>),
    /// The producer ticks at `timestamp` and elects `validator`.
    ProduceBlock { timestamp: i64, validator: Seq<char> },
    /// A balance is seeded.
    SetBalance { address: Seq<char>, amount: u64 },
    /// A stake is seeded.
    SetStake { address: Seq<char>, amount: u64 },
}

impl LedgerView {
    /// The ledger after `operation`.
    pub open spec fn step(self, operation: Operation) -> LedgerView {
        match operation {
            Operation::AddTransaction(tx) => self.add_transaction(tx),
            Operation::CreateBlock => self.create_block(),
            Operation::ApplyBlock(block) => self.apply_block(block),
            Operation::AcceptBlock(block) => self.accept_block(block),
            Operation::ReplaceChain(candidate) => self.replace_chain(candidate),
            Operation::ProduceBlock { timestamp, validator } => self.produce_block(
                timestamp,
                validator,
            ),
            Operation::SetBalance { address, amount } => self.set_balance(address, amount),
            Operation::SetStake { address, amount } => self.set_stake(address, amount),
        }
    }

    /// The ledger after the operations of `history`, first to last.
    pub open spec fn run(self, history: Seq<Operation>) -> LedgerView
        decreases history.len(),
    {
        if history.len() == 0 {
            self
        } else {
            self.run(history.drop_last()).step(history.last())
        }
    }

    /// `operation` does not append a block that breaks the chain: a block
    /// applied without check names the tip's hash and carries its own.
    pub open spec fn links(self, operation: Operation) -> bool {
        match operation {
            Operation::ApplyBlock(block) => block.previous_hash == self.tip().hash
                && block.sealed(),
            _ => true,
        }
    }

    /// Every operation of `history` links, in the state in which it is made.
    pub open spec fn history_links(self, history: Seq<Operation>) -> bool {
        forall|i: int|
            0 <= i < history.len() ==> #[trigger] self.run(history.take(i)).links(history[i])
    }
}

/// `operation` neither empties the mempool nor adopts another chain.
pub open spec fn keeps_mempool(operation: Operation) -> bool {
    match operation {
        Operation::CreateBlock => false,
        Operation::ProduceBlock { .. } => false,
        Operation::ReplaceChain(_) => false,
        _ => true,
    }
}

} // verus!
