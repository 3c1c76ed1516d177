//! Lemmas about the ledger's rules, on which its operations and its laws
//! rest.

use vstd::prelude::*;
use crate::accounts::{
    amount_of, distinct_addresses, lemma_amount_after_set, lemma_amount_at_most_total,
    lemma_total_after_set, total, with_amount, AccountView,
};
use crate::block::BlockView;
use crate::state::{
    chain_fault, consecutive_up_to, nonces_in_order, payable, pending_nonces, settle, valid_at,
    valid_chain, valid_prefix, LedgerView,
};
use crate::transaction::TransactionView;

verus! {

/// A walk over the first `n` blocks finds no fault exactly when they are
/// linked and sealed.
pub proof fn lemma_no_fault_iff_valid(chain: Seq<BlockView>, n: int)
    ensures
        chain_fault(chain, n) is None <==> valid_prefix(chain, n),
    decreases n,
{
    if n > 0 {
        lemma_no_fault_iff_valid(chain, n - 1);
        if valid_prefix(chain, n) {
            assert(valid_at(chain, n - 1));
        }
    }
}

/// A fault found among the first `n` blocks is the fault of every longer
/// walk.
pub proof fn lemma_fault_stays(chain: Seq<BlockView>, n: int, m: int)
    requires
        n <= m,
        chain_fault(chain, n) is Some,
    ensures
        chain_fault(chain, m) == chain_fault(chain, n),
    decreases m - n,
{
    if n < m {
        lemma_fault_stays(chain, n, m - 1);
    }
}

/// Admitting a transaction that carries the nonce expected of its sender,
/// and advancing that nonce by one, keeps the pending nonces in order.
pub proof fn lemma_admission_keeps_order(
    mempool: Seq<TransactionView>,
    nonces: Seq<AccountView>,
    tx: TransactionView,
)
    requires
        distinct_addresses(nonces),
        nonces_in_order(mempool, nonces),
        tx.nonce == amount_of(nonces, tx.sender),
        tx.nonce < u64::MAX,
    ensures
        nonces_in_order(
            mempool.push(tx),
            with_amount(nonces, tx.sender, (tx.nonce + 1) as u64),
        ),
{
    let after = with_amount(nonces, tx.sender, (tx.nonce + 1) as u64);
    assert(mempool.push(tx).drop_last() =~= mempool);
    assert forall|sender: Seq<char>|
        consecutive_up_to(
            #[trigger] pending_nonces(mempool.push(tx), sender),
            amount_of(after, sender),
        ) by {
        lemma_amount_after_set(nonces, tx.sender, (tx.nonce + 1) as u64, sender);
        assert(consecutive_up_to(pending_nonces(mempool, sender), amount_of(nonces, sender)));
    }
}

/// Settling a transaction moves value and creates none: the balances sum to
/// what they summed to before, so no credit can overflow.
pub proof fn lemma_settle_conserves(
    balances: Seq<AccountView>,
    tx: TransactionView,
    validator: Seq<char>,
)
    requires
        distinct_addresses(balances),
        total(balances) <= u64::MAX,
    ensures
        distinct_addresses(settle(balances, tx, validator)),
        total(settle(balances, tx, validator)) == total(balances),
        payable(balances, tx) ==> ({
            let debited = with_amount(
                balances,
                tx.sender,
                (amount_of(balances, tx.sender) - tx.amount - tx.fee) as u64,
            );
            let credited = with_amount(
                debited,
                tx.receiver,
                (amount_of(debited, tx.receiver) + tx.amount) as u64,
            );
            &&& distinct_addresses(debited)
            &&& distinct_addresses(credited)
            &&& amount_of(debited, tx.receiver) + tx.amount <= u64::MAX
            &&& amount_of(credited, validator) + tx.fee <= u64::MAX
        }),
{
    if payable(balances, tx) {
        let paid = (amount_of(balances, tx.sender) - tx.amount - tx.fee) as u64;
        let debited = with_amount(balances, tx.sender, paid);
        lemma_amount_after_set(balances, tx.sender, paid, tx.sender);
        lemma_total_after_set(balances, tx.sender, paid);
        lemma_amount_at_most_total(debited, tx.receiver);
        let received = (amount_of(debited, tx.receiver) + tx.amount) as u64;
        let credited = with_amount(debited, tx.receiver, received);
        lemma_amount_after_set(debited, tx.receiver, received, tx.receiver);
        lemma_total_after_set(debited, tx.receiver, received);
        lemma_amount_at_most_total(credited, validator);
        let earned = (amount_of(credited, validator) + tx.fee) as u64;
        lemma_amount_after_set(credited, validator, earned, validator);
        lemma_total_after_set(credited, validator, earned);
    }
}

/// An empty mempool has its nonces in order, whatever is expected next.
pub proof fn lemma_empty_mempool_in_order(nonces: Seq<AccountView>)
    ensures
        nonces_in_order(Seq::<TransactionView>::empty(), nonces),
{
}

/// A sealed block that names the hash of the last block extends a valid
/// chain to a valid chain.
pub proof fn lemma_push_keeps_valid(chain: Seq<BlockView>, block: BlockView)
    requires
        chain.len() > 0,
        valid_chain(chain),
        block.previous_hash == chain.last().hash,
        block.sealed(),
    ensures
        valid_chain(chain.push(block)),
{
    let longer = chain.push(block);
    assert forall|i: int| 0 <= i < longer.len() implies #[trigger] valid_at(longer, i) by {
        if i < chain.len() {
            assert(valid_at(chain, i));
        }
    }
}

/// The ledger at genesis is well formed.
pub proof fn lemma_genesis_wf(timestamp: i64, supply: u64)
    ensures
        LedgerView::genesis(timestamp, supply).wf(),
{
    let ledger = LedgerView::genesis(timestamp, supply);
    assert(total(ledger.balances) == supply) by {
        reveal_with_fuel(total, 2);
    }
}

/// The chain of a ledger at genesis is valid.
pub proof fn lemma_genesis_valid(timestamp: i64, supply: u64)
    ensures
        valid_chain(LedgerView::genesis(timestamp, supply).chain),
{
}

/// The total of a table is its first amount plus the total of the rest.
pub proof fn lemma_total_from_front(entries: Seq<AccountView>)
    requires
        entries.len() > 0,
    ensures
        total(entries) == entries[0].amount + total(entries.drop_first()),
    decreases entries.len(),
{
    if entries.len() == 1 {
        assert(entries.drop_last() =~= Seq::<AccountView>::empty());
        assert(entries.drop_first() =~= Seq::<AccountView>::empty());
    } else {
        lemma_total_from_front(entries.drop_last());
        assert(entries.drop_last().drop_first() =~= entries.drop_first().drop_last());
    }
}

} // verus!
