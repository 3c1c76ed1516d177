//! The laws of the ledger: what holds of every ledger, every block and
//! every message, whatever the history.

use vstd::prelude::*;
use crate::accounts::{
    amount_of, distinct_addresses, lemma_amount_after_set, lemma_total_after_set, total,
    with_amount, AccountView,
};
use crate::block::{chain_json, BlockView};
use crate::lemmas::{
    lemma_admission_keeps_order, lemma_empty_mempool_in_order, lemma_genesis_valid,
    lemma_genesis_wf, lemma_no_fault_iff_valid, lemma_push_keeps_valid, lemma_settle_conserves,
    lemma_total_from_front,
};
use crate::state::{
    consecutive_up_to, default_validator, genesis_validator, keeps_mempool, payable,
    pending_nonces, settle, settle_all, stake_winner, treasury, valid_chain, LedgerView,
    Operation,
};
use crate::transaction::TransactionView;
use crate::wire::{block_of, chain_of, transaction_of};

verus! {

/// Every operation keeps a well-formed ledger well formed.
pub proof fn law_operations_keep_ledgers_well_formed(
    ledger: LedgerView,
    operation: Operation,
)
    requires
        ledger.wf(),
    ensures
        ledger.step(operation).wf(),
{
    match operation {
        Operation::AddTransaction(tx) => {
            if ledger.admission(tx) is Ok {
                lemma_admission_keeps_order(ledger.mempool, ledger.nonces, tx);
                lemma_amount_after_set(
                    ledger.nonces,
                    tx.sender,
                    (tx.nonce + 1) as u64,
                    tx.sender,
                );
            }
        },
        Operation::CreateBlock => {
            lemma_empty_mempool_in_order(ledger.nonces);
        },
        Operation::ApplyBlock(block) => {
            law_settlement_conserves_value(ledger.balances, block.transactions, block.validator);
        },
        Operation::AcceptBlock(block) => {
            law_settlement_conserves_value(ledger.balances, block.transactions, block.validator);
        },
        Operation::ReplaceChain(candidate) => {
            lemma_empty_mempool_in_order(ledger.nonces);
        },
        Operation::ProduceBlock { timestamp, validator } => {
            lemma_empty_mempool_in_order(ledger.nonces);
            let block = ledger.next_block(timestamp, validator);
            law_settlement_conserves_value(ledger.balances, block.transactions, block.validator);
        },
        Operation::SetBalance { address, amount } => {
            lemma_amount_after_set(ledger.balances, address, amount, address);
            lemma_total_after_set(ledger.balances, address, amount);
        },
        Operation::SetStake { address, amount } => {
            lemma_amount_after_set(ledger.stakes, address, amount, address);
            lemma_total_after_set(ledger.stakes, address, amount);
        },
    }
}

/// An operation that links keeps a valid chain valid: submissions and
/// seeding leave the chain alone, a peer's block and the producer's own are
/// checked or built to follow the tip, and a peer's chain is adopted only
/// when it is valid itself.
pub proof fn law_linking_operations_keep_chains_valid(
    ledger: LedgerView,
    operation: Operation,
)
    requires
        ledger.wf(),
        valid_chain(ledger.chain),
        ledger.links(operation),
    ensures
        valid_chain(ledger.step(operation).chain),
{
    match operation {
        Operation::ApplyBlock(block) => {
            lemma_push_keeps_valid(ledger.chain, block);
        },
        Operation::AcceptBlock(block) => {
            if ledger.block_verdict(block) is Ok {
                lemma_push_keeps_valid(ledger.chain, block);
            }
        },
        Operation::ReplaceChain(candidate) => {
            lemma_no_fault_iff_valid(candidate, candidate.len() as int);
        },
        Operation::ProduceBlock { timestamp, validator } => {
            if ledger.can_create_block() {
                law_created_blocks_extend_valid_chains(ledger, timestamp, validator);
            }
        },
        _ => {},
    }
}

/// Every ledger reached from genesis by operations that link is well
/// formed and has a valid chain.
pub proof fn law_reachable_ledgers_validate(
    timestamp: i64,
    supply: u64,
    history: Seq<Operation>,
)
    requires
        LedgerView::genesis(timestamp, supply).history_links(history),
    ensures
        LedgerView::genesis(timestamp, supply).run(history).wf(),
        valid_chain(LedgerView::genesis(timestamp, supply).run(history).chain),
    decreases history.len(),
{
    let start = LedgerView::genesis(timestamp, supply);
    if history.len() == 0 {
        lemma_genesis_wf(timestamp, supply);
        lemma_genesis_valid(timestamp, supply);
    } else {
        let earlier = history.drop_last();
        assert forall|i: int| 0 <= i < earlier.len() implies #[trigger] start.run(
            earlier.take(i),
        ).links(earlier[i]) by {
            assert(earlier.take(i) =~= history.take(i));
        }
        law_reachable_ledgers_validate(timestamp, supply, earlier);
        law_operations_keep_ledgers_well_formed(start.run(earlier), history.last());
        law_linking_operations_keep_chains_valid(start.run(earlier), history.last());
    }
}

/// The block assembled on a ledger follows its tip and is sealed: a peer
/// would take it, and applying it to a valid chain leaves a valid chain.
pub proof fn law_created_blocks_extend_valid_chains(
    ledger: LedgerView,
    timestamp: i64,
    validator: Seq<char>,
)
    requires
        ledger.wf(),
        ledger.can_create_block(),
    ensures
        ledger.block_verdict(ledger.next_block(timestamp, validator)) is Ok,
        ledger.links(Operation::ApplyBlock(ledger.next_block(timestamp, validator))),
        valid_chain(ledger.chain) ==> valid_chain(
            ledger.create_block().apply_block(ledger.next_block(timestamp, validator)).chain,
        ),
        valid_chain(ledger.chain) ==> valid_chain(
            ledger.produce_block(timestamp, validator).chain,
        ),
{
    let block = ledger.next_block(timestamp, validator);
    if valid_chain(ledger.chain) {
        lemma_push_keeps_valid(ledger.chain, block);
    }
}

/// In a history from genesis that never empties the mempool, every sender
/// has as many transactions pending as the nonce expected of it next.
pub proof fn law_pending_transactions_match_nonces(
    timestamp: i64,
    supply: u64,
    history: Seq<Operation>,
    sender: Seq<char>,
)
    requires
        forall|i: int| 0 <= i < history.len() ==> keeps_mempool(#[trigger] history[i]),
    ensures
        pending_nonces(LedgerView::genesis(timestamp, supply).run(history).mempool, sender).len()
            == amount_of(LedgerView::genesis(timestamp, supply).run(history).nonces, sender),
        LedgerView::genesis(timestamp, supply).run(history).wf(),
    decreases history.len(),
{
    let start = LedgerView::genesis(timestamp, supply);
    if history.len() == 0 {
        lemma_genesis_wf(timestamp, supply);
    } else {
        let earlier = history.drop_last();
        law_pending_transactions_match_nonces(timestamp, supply, earlier, sender);
        let before = start.run(earlier);
        law_operations_keep_ledgers_well_formed(before, history.last());
        match history.last() {
            Operation::AddTransaction(tx) => {
                if before.admission(tx) is Ok {
                    assert(before.mempool.push(tx).drop_last() =~= before.mempool);
                    lemma_amount_after_set(
                        before.nonces,
                        tx.sender,
                        (tx.nonce + 1) as u64,
                        sender,
                    );
                }
            },
            _ => {},
        }
    }
}

/// From genesis, as long as the mempool is never emptied, the nonces of the
/// transactions admitted from one sender are 0, 1, 2 and so on in mempool
/// order, with no gap and none twice.
pub proof fn law_nonces_count_from_zero(
    timestamp: i64,
    supply: u64,
    history: Seq<Operation>,
    sender: Seq<char>,
    k: int,
)
    requires
        forall|i: int| 0 <= i < history.len() ==> keeps_mempool(#[trigger] history[i]),
        0 <= k < pending_nonces(
            LedgerView::genesis(timestamp, supply).run(history).mempool,
            sender,
        ).len(),
    ensures
        pending_nonces(LedgerView::genesis(timestamp, supply).run(history).mempool, sender)[k]
            == k,
{
    law_pending_transactions_match_nonces(timestamp, supply, history, sender);
    let ledger = LedgerView::genesis(timestamp, supply).run(history);
    assert(consecutive_up_to(
        pending_nonces(ledger.mempool, sender),
        amount_of(ledger.nonces, sender),
    ));
}

/// Applying the transactions of a block moves value and creates none:
/// what is debited is what is credited, so the balances sum to what they
/// summed to before, whichever transactions were skipped.
pub proof fn law_settlement_conserves_value(
    balances: Seq<AccountView>,
    transactions: Seq<TransactionView>,
    validator: Seq<char>,
)
    requires
        distinct_addresses(balances),
        total(balances) <= u64::MAX,
    ensures
        distinct_addresses(settle_all(balances, transactions, validator)),
        total(settle_all(balances, transactions, validator)) == total(balances),
    decreases transactions.len(),
{
    if transactions.len() > 0 {
        law_settlement_conserves_value(balances, transactions.drop_last(), validator);
        lemma_settle_conserves(
            settle_all(balances, transactions.drop_last(), validator),
            transactions.last(),
            validator,
        );
    }
}

/// What settling does to each account: a payable transaction takes amount
/// plus fee from the sender, gives the amount to the receiver and the fee
/// to the validator, and touches no other account. The three may coincide.
pub proof fn law_settlement_moves_value(
    balances: Seq<AccountView>,
    tx: TransactionView,
    validator: Seq<char>,
    address: Seq<char>,
)
    requires
        distinct_addresses(balances),
        total(balances) <= u64::MAX,
        payable(balances, tx),
    ensures
        amount_of(settle(balances, tx, validator), address) == amount_of(balances, address) - (
        if address == tx.sender {
            tx.amount + tx.fee
        } else {
            0
        }) + (if address == tx.receiver {
            tx.amount as int
        } else {
            0
        }) + (if address == validator {
            tx.fee as int
        } else {
            0
        }),
{
    lemma_settle_conserves(balances, tx, validator);
    let paid = (amount_of(balances, tx.sender) - tx.amount - tx.fee) as u64;
    let debited = with_amount(balances, tx.sender, paid);
    lemma_amount_after_set(balances, tx.sender, paid, address);
    lemma_amount_after_set(balances, tx.sender, paid, tx.receiver);
    let received = (amount_of(debited, tx.receiver) + tx.amount) as u64;
    let credited = with_amount(debited, tx.receiver, received);
    lemma_amount_after_set(debited, tx.receiver, received, address);
    lemma_amount_after_set(debited, tx.receiver, received, validator);
    let earned = (amount_of(credited, validator) + tx.fee) as u64;
    lemma_amount_after_set(credited, validator, earned, address);
}

/// A transaction that is not payable leaves every balance as it was.
pub proof fn law_unpayable_transactions_are_skipped(
    balances: Seq<AccountView>,
    tx: TransactionView,
    validator: Seq<char>,
)
    requires
        !payable(balances, tx),
    ensures
        settle(balances, tx, validator) == balances,
{
}

/// The draws that elect the holder of entry `i` are those from the sum of
/// the stakes before it up to, and not including, the sum through it: as
/// many draws as its stake.
pub proof fn law_draws_elect_by_stake(stakes: Seq<AccountView>, pick: nat, i: int)
    requires
        0 <= i < stakes.len(),
        total(stakes.take(i)) <= pick < total(stakes.take(i + 1)),
    ensures
        stake_winner(stakes, pick) == stakes[i].address,
    decreases i,
{
    lemma_total_from_front(stakes.take(i + 1));
    if i == 0 {
    } else {
        let rest = stakes.drop_first();
        lemma_total_from_front(stakes.take(i));
        assert(stakes.take(i).drop_first() =~= rest.take(i - 1));
        assert(stakes.take(i + 1).drop_first() =~= rest.take(i));
        law_draws_elect_by_stake(rest, (pick - stakes[0].amount) as nat, i - 1);
    }
}

/// A draw at or above the total stake elects the default validator.
pub proof fn law_draws_beyond_the_stakes_elect_the_default(
    stakes: Seq<AccountView>,
    pick: nat,
)
    requires
        total(stakes) <= pick,
    ensures
        stake_winner(stakes, pick) == default_validator(),
    decreases stakes.len(),
{
    if stakes.len() > 0 {
        lemma_total_from_front(stakes);
        law_draws_beyond_the_stakes_elect_the_default(
            stakes.drop_first(),
            (pick - stakes[0].amount) as nat,
        );
    }
}

/// The sentinel accounts cannot sign: no key has `treasury`,
/// `genesis_validator` or `default_validator` as its address, so no
/// transaction that names one of them as sender is validly signed.
pub proof fn law_sentinels_cannot_sign(tx: TransactionView)
    requires
        tx.sender == treasury() || tx.sender == genesis_validator() || tx.sender
            == default_validator(),
    ensures
        !tx.signature_valid(),
{
    reveal_strlit("treasury");
    reveal_strlit("genesis_validator");
    reveal_strlit("default_validator");
}

/// The canonical JSON object of a transaction decodes, and what it decodes
/// to has that object again: encoding, decoding and encoding once more
/// gives the first text.
pub proof fn law_transactions_round_trip(tx: TransactionView)
    ensures
        transaction_of(tx.to_json()) is Some,
        transaction_of(tx.to_json()).unwrap().to_json() == tx.to_json(),
{
}

/// The canonical JSON object of a block decodes, and what it decodes to
/// has that object again.
pub proof fn law_blocks_round_trip(block: BlockView)
    ensures
        block_of(block.to_json()) is Some,
        block_of(block.to_json()).unwrap().to_json() == block.to_json(),
{
}

/// The canonical JSON array of a chain decodes, and what it decodes to has
/// that array again.
pub proof fn law_chains_round_trip(chain: Seq<BlockView>)
    ensures
        chain_of(chain_json(chain)) is Some,
        chain_json(chain_of(chain_json(chain)).unwrap()) == chain_json(chain),
{
}

} // verus!
