//! Tables from address to amount: balances, stakes and expected nonces.
//!
//! A table keeps its entries in the order in which their addresses first
//! appeared, and no address occurs twice. An address without an entry
//! stands at zero.

use vstd::prelude::*;
use vstd::string::*;

verus! {

/// One entry of a table.
pub struct AccountView {
    pub address: Seq<char>,
    pub amount: u64,
}

/// One entry of a table.
#[derive(Debug)]
pub struct Account {
    pub address: String,
    pub amount: u64,
}

impl View for Account {
    type V = AccountView;

    open spec fn view(&self) -> AccountView {
        AccountView { address: self.address@, amount: self.amount }
    }
}

/// No address occurs twice.
pub open spec fn distinct_addresses(entries: Seq<AccountView>) -> bool {
    forall|i: int, j: int|
        0 <= i < j < entries.len() ==> (#[trigger] entries[i]).address != (
        #[trigger] entries[j]).address
}

/// Position of the entry for `address`, if there is one.
pub open spec fn index_of(entries: Seq<AccountView>, address: Seq<char>) -> Option<int>
    decreases entries.len(),
{
    if entries.len() == 0 {
        None
    } else if entries.last().address == address {
        Some(entries.len() - 1)
    } else {
        index_of(entries.drop_last(), address)
    }
}

/// The amount that stands against `address`: zero where it has no entry.
pub open spec fn amount_of(entries: Seq<AccountView>, address: Seq<char>) -> u64 {
    match index_of(entries, address) {
        Some(i) => entries[i].amount,
        None => 0,
    }
}

/// The table after `address` is set to `amount`: its entry is replaced in
/// place, or a new entry is added at the end.
pub open spec fn with_amount(entries: Seq<AccountView>, address: Seq<char>, amount: u64) -> Seq<
    AccountView,
> {
    match index_of(entries, address) {
        Some(i) => entries.update(i, AccountView { address, amount }),
        None => entries.push(AccountView { address, amount }),
    }
}

/// The sum of all amounts.
pub open spec fn total(entries: Seq<AccountView>) -> nat
    decreases entries.len(),
{
    if entries.len() == 0 {
        0
    } else {
        total(entries.drop_last()) + entries.last().amount as nat
    }
}

/// `index_of` finds an entry for the address, and none exists where it finds
/// none.
pub proof fn lemma_index_of(entries: Seq<AccountView>, address: Seq<char>)
    ensures
        match index_of(entries, address) {
            Some(i) => 0 <= i < entries.len() && entries[i].address == address,
            None => forall|i: int| 0 <= i < entries.len() ==> (#[trigger] entries[i]).address
                != address,
        },
    decreases entries.len(),
{
    if entries.len() > 0 && entries.last().address != address {
        lemma_index_of(entries.drop_last(), address);
        assert forall|i: int| 0 <= i < entries.len() - 1 implies entries[i]
            == entries.drop_last()[i] by {}
    }
}

/// Where no address occurs twice, `index_of` is the one position of the
/// address.
pub proof fn lemma_index_of_unique(entries: Seq<AccountView>, address: Seq<char>, i: int)
    requires
        distinct_addresses(entries),
        0 <= i < entries.len(),
        entries[i].address == address,
    ensures
        index_of(entries, address) == Some(i),
{
    lemma_index_of(entries, address);
}

/// Reading after writing: the address that was set has the new amount, and
/// every other address keeps its own.
pub proof fn lemma_amount_after_set(
    entries: Seq<AccountView>,
    address: Seq<char>,
    amount: u64,
    other: Seq<char>,
)
    requires
        distinct_addresses(entries),
    ensures
        distinct_addresses(with_amount(entries, address, amount)),
        amount_of(with_amount(entries, address, amount), other) == if other == address {
            amount
        } else {
            amount_of(entries, other)
        },
{
    let after = with_amount(entries, address, amount);
    lemma_index_of(entries, address);
    lemma_index_of(entries, other);
    let at: int = match index_of(entries, address) {
        Some(i) => i,
        None => entries.len() as int,
    };
    lemma_index_of_unique(after, address, at);
    if other != address {
        match index_of(entries, other) {
            Some(k) => {
                lemma_index_of_unique(after, other, k);
            },
            None => {
                lemma_index_of(after, other);
            },
        }
    }
}

/// Replacing one entry changes the total by the difference of the amounts.
pub proof fn lemma_total_update(entries: Seq<AccountView>, i: int, entry: AccountView)
    requires
        0 <= i < entries.len(),
    ensures
        total(entries.update(i, entry)) == total(entries) - entries[i].amount + entry.amount,
        entries[i].amount <= total(entries),
    decreases entries.len(),
{
    let after = entries.update(i, entry);
    if i == entries.len() - 1 {
        assert(after.drop_last() =~= entries.drop_last());
    } else {
        lemma_total_update(entries.drop_last(), i, entry);
        assert(after.drop_last() =~= entries.drop_last().update(i, entry));
    }
}

/// No address holds more than the total.
pub proof fn lemma_amount_at_most_total(entries: Seq<AccountView>, address: Seq<char>)
    ensures
        amount_of(entries, address) <= total(entries),
{
    lemma_index_of(entries, address);
    match index_of(entries, address) {
        Some(i) => {
            lemma_total_update(entries, i, entries[i]);
        },
        None => {},
    }
}

/// Setting an address changes the total by the difference between its new
/// and its old amount.
pub proof fn lemma_total_after_set(entries: Seq<AccountView>, address: Seq<char>, amount: u64)
    ensures
        total(with_amount(entries, address, amount)) == total(entries) - amount_of(
            entries,
            address,
        ) + amount,
{
    lemma_index_of(entries, address);
    let entry = AccountView { address, amount };
    match index_of(entries, address) {
        Some(i) => {
            lemma_total_update(entries, i, entry);
        },
        None => {
            assert(entries.push(entry).drop_last() =~= entries);
        },
    }
}

/// A table from address to amount.
#[derive(Debug)]
pub struct Accounts {
    entries: Vec<Account>,
}

impl View for Accounts {
    type V = Seq<AccountView>;

    closed spec fn view(&self) -> Seq<AccountView> {
        self.entries@.map_values(|a: Account| a@)
    }
}

impl Clone for Accounts {
    fn clone(&self) -> (copy: Self)
        ensures
            copy@ == self@,
    {
        let mut entries: Vec<Account> = Vec::new();
        let mut i: usize = 0;
        while i < self.entries.len()
            invariant
                i <= self.entries.len(),
                entries@.len() == i,
                forall|j: int| 0 <= j < i ==> entries@[j]@ == self.entries@[j]@,
            decreases self.entries.len() - i,
        {
            let entry = &self.entries[i];
            entries.push(Account { address: entry.address.clone(), amount: entry.amount });
            i += 1;
        }
        let copy = Accounts { entries };
        copy
    }
}

impl Accounts {
    /// The table's invariant: no address occurs twice.
    pub open spec fn wf(&self) -> bool {
        distinct_addresses(self@)
    }

    /// The empty table.
    pub fn new() -> (table: Self)
        ensures
            table@ == Seq::<AccountView>::empty(),
            table.wf(),
    {
        let table = Accounts { entries: Vec::new() };
        table
    }

    /// Number of entries.
    pub fn len(&self) -> (n: usize)
        ensures
            n == self@.len(),
    {
        self.entries.len()
    }

    /// The address of entry `i`.
    pub fn address_at(&self, i: usize) -> (address: &String)
        requires
            i < self@.len(),
        ensures
            address@ == self@[i as int].address,
    {
        &self.entries[i].address
    }

    /// The amount of entry `i`.
    pub fn amount_at(&self, i: usize) -> (amount: u64)
        requires
            i < self@.len(),
        ensures
            amount == self@[i as int].amount,
    {
        self.entries[i].amount
    }

    /// Position of the entry for `address`, if there is one.
    fn find(&self, address: &String) -> (found: Option<usize>)
        requires
            self.wf(),
        ensures
            match found {
                Some(i) => i < self@.len() && index_of(self@, address@) == Some(i as int),
                None => index_of(self@, address@) is None,
            },
    {
        let mut i: usize = 0;
        while i < self.entries.len()
            invariant
                i <= self.entries.len(),
                self.wf(),
                forall|j: int| 0 <= j < i ==> (#[trigger] self@[j]).address != address@,
            decreases self.entries.len() - i,
        {
            if self.entries[i].address == *address {
                proof {
                    lemma_index_of_unique(self@, address@, i as int);
                }
                return Some(i);
            }
            i += 1;
        }
        proof {
            lemma_index_of(self@, address@);
        }
        None
    }

    /// The amount that stands against `address`, zero where it has no entry.
    pub fn get(&self, address: &str) -> (amount: u64)
        requires
            self.wf(),
        ensures
            amount == amount_of(self@, address@),
    {
        let key = String::from_str(address);
        match self.find(&key) {
            Some(i) => self.entries[i].amount,
            None => 0,
        }
    }

    /// Sets `address` to `amount`.
    pub fn set(&mut self, address: &str, amount: u64)
        requires
            old(self).wf(),
        ensures
            final(self)@ == with_amount(old(self)@, address@, amount),
            final(self).wf(),
    {
        let key = String::from_str(address);
        proof {
            lemma_amount_after_set(self@, address@, amount, address@);
        }
        match self.find(&key) {
            Some(i) => {
                self.entries.set(i, Account { address: key, amount });
            },
            None => {
                self.entries.push(Account { address: key, amount });
            },
        }
    }

    /// The sum of all amounts, where it fits in 64 bits.
    pub fn sum(&self) -> (sum: u64)
        requires
            total(self@) <= u64::MAX,
        ensures
            sum == total(self@),
    {
        let mut sum: u64 = 0;
        let mut i: usize = 0;
        while i < self.entries.len()
            invariant
                i <= self.entries.len(),
                sum == total(self@.take(i as int)),
                total(self@) <= u64::MAX,
            decreases self.entries.len() - i,
        {
            proof {
                assert(self@.take(i + 1).drop_last() =~= self@.take(i as int));
                lemma_total_prefix(self@, i + 1);
            }
            sum = sum + self.entries[i].amount;
            i += 1;
        }
        assert(self@.take(i as int) =~= self@);
        sum
    }
}

/// A prefix of a table sums to no more than the table.
pub proof fn lemma_total_prefix(entries: Seq<AccountView>, n: int)
    requires
        0 <= n <= entries.len(),
    ensures
        total(entries.take(n)) <= total(entries),
    decreases entries.len(),
{
    if n == entries.len() {
        assert(entries.take(n) =~= entries);
    } else {
        lemma_total_prefix(entries.drop_last(), n);
        assert(entries.drop_last().take(n) =~= entries.take(n));
    }
}

} // verus!
