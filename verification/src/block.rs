//! Blocks: batches of transactions, each linked to its predecessor by hash.

use vstd::prelude::*;
use vstd::string::*;
use vstd::utf8::encode_utf8;
use crate::crypto::{sha256, sha256_digest};
use crate::decimal::{decimal, push_decimal, push_signed_decimal, signed_decimal};
use crate::hexcode::{encode_hex, hex_encode};
use crate::json::{json_array, json_items, json_string, push_json_string};
use crate::transaction::{
    push_transactions_json, transaction_views, transactions_json, Transaction, TransactionView,
};

verus! {

/// Number of characters in a block hash.
pub const HASH_LENGTH: usize = 64;

/// The `previous_hash` of a genesis block: 64 zeros.
pub open spec fn zero_hash() -> Seq<char> {
    Seq::new(HASH_LENGTH as nat, |i: int| '0')
}

/// A batch of transactions at position `index` of a chain.
#[derive(Debug)]
pub struct Block {
    pub index: u64,
    pub timestamp: i64,
    pub transactions: Vec<Transaction>,
    pub previous_hash: String,
    pub hash: String,
    pub validator: String,
}

/// The mathematical content of a `Block`.
pub struct BlockView {
    pub index: u64,
    pub timestamp: i64,
    pub transactions: Seq<TransactionView>,
    pub previous_hash: Seq<char>,
    pub hash: Seq<char>,
    pub validator: Seq<char>,
}

impl View for Block {
    type V = BlockView;

    open spec fn view(&self) -> BlockView {
        BlockView {
            index: self.index,
            timestamp: self.timestamp,
            transactions: transaction_views(self.transactions@),
            previous_hash: self.previous_hash@,
            hash: self.hash@,
            validator: self.validator@,
        }
    }
}

impl BlockView {
    /// The text that is hashed: index, timestamp, the canonical JSON of the
    /// transactions, and the previous hash, with nothing between them.
    pub open spec fn hash_input(self) -> Seq<char> {
        decimal(self.index as nat) + signed_decimal(self.timestamp as int) + transactions_json(
            self.transactions,
        ) + self.previous_hash
    }

    /// The hash that the block's content calls for: the hexadecimal text of
    /// the SHA-256 digest of the UTF-8 bytes of `hash_input`.
    pub open spec fn computed_hash(self) -> Seq<char> {
        hex_encode(sha256(encode_utf8(self.hash_input())))
    }

    /// The block carries the hash of its own content.
    pub open spec fn sealed(self) -> bool {
        self.hash == self.computed_hash()
    }

    /// The same block carrying the hash of its content.
    pub open spec fn seal(self) -> BlockView {
        BlockView { hash: self.computed_hash(), ..self }
    }

    /// The canonical JSON object of the block.
    pub open spec fn to_json(self) -> Seq<char> {
        "{\"index\":"@ + decimal(self.index as nat) + ",\"timestamp\":"@ + signed_decimal(
            self.timestamp as int,
        ) + ",\"transactions\":"@ + transactions_json(self.transactions) + ",\"previous_hash\":"@
            + json_string(self.previous_hash) + ",\"hash\":"@ + json_string(self.hash)
            + ",\"validator\":"@ + json_string(self.validator) + "}"@
    }
}

/// The views of a sequence of blocks.
pub open spec fn block_views(blocks: Seq<Block>) -> Seq<BlockView> {
    blocks.map_values(|b: Block| b@)
}

/// The canonical JSON array of a sequence of blocks.
pub open spec fn chain_json(blocks: Seq<BlockView>) -> Seq<char> {
    json_array(blocks.map_values(|b: BlockView| b.to_json()))
}

/// A copy of `transactions`.
pub fn clone_transactions(transactions: &Vec<Transaction>) -> (copy: Vec<Transaction>)
    ensures
        transaction_views(copy@) == transaction_views(transactions@),
{
    let mut copy: Vec<Transaction> = Vec::new();
    let mut i: usize = 0;
    while i < transactions.len()
        invariant
            i <= transactions.len(),
            copy@.len() == i,
            forall|j: int| 0 <= j < i ==> copy@[j]@ == transactions@[j]@,
        decreases transactions.len() - i,
    {
        copy.push(transactions[i].clone());
        i += 1;
    }
    copy
}

/// A copy of `blocks`.
pub fn clone_blocks(blocks: &Vec<Block>) -> (copy: Vec<Block>)
    ensures
        block_views(copy@) == block_views(blocks@),
{
    let mut copy: Vec<Block> = Vec::new();
    let mut i: usize = 0;
    while i < blocks.len()
        invariant
            i <= blocks.len(),
            copy@.len() == i,
            forall|j: int| 0 <= j < i ==> copy@[j]@ == blocks@[j]@,
        decreases blocks.len() - i,
    {
        copy.push(blocks[i].clone());
        i += 1;
    }
    copy
}

/// The text of 64 zeros.
pub fn zero_hash_string() -> (text: String)
    ensures
        text@ == zero_hash(),
{
    let text = String::from_str("0000000000000000000000000000000000000000000000000000000000000000");
    proof {
        reveal_strlit("0000000000000000000000000000000000000000000000000000000000000000");
    }
    text
}

impl Clone for Block {
    fn clone(&self) -> (copy: Self)
        ensures
            copy@ == self@,
    {
        Block {
            index: self.index,
            timestamp: self.timestamp,
            transactions: clone_transactions(&self.transactions),
            previous_hash: self.previous_hash.clone(),
            hash: self.hash.clone(),
            validator: self.validator.clone(),
        }
    }
}

impl Block {
    /// The text that is hashed.
    pub fn hash_input(&self) -> (text: String)
        ensures
            text@ == self@.hash_input(),
    {
        let mut text = String::new();
        push_decimal(&mut text, self.index);
        push_signed_decimal(&mut text, self.timestamp);
        push_transactions_json(&mut text, &self.transactions);
        text.append(self.previous_hash.as_str());
        text
    }

    /// The hash that the block's content calls for. The `hash` field does
    /// not enter it.
    pub fn compute_hash(&self) -> (hash: String)
        ensures
            hash@ == self@.computed_hash(),
            hash@.len() == HASH_LENGTH,
    {
        let text = self.hash_input();
        let digest = sha256_digest(text.as_str().as_bytes());
        encode_hex(digest.as_slice())
    }

    /// Whether the block carries the hash of its own content.
    pub fn is_sealed(&self) -> (ok: bool)
        ensures
            ok == self@.sealed(),
    {
        let expected = self.compute_hash();
        self.hash == expected
    }

    /// A sealed block with the given content.
    pub fn assemble(
        index: u64,
        timestamp: i64,
        transactions: Vec<Transaction>,
        previous_hash: String,
        validator: String,
    ) -> (block: Block)
        ensures
            block@.index == index,
            block@.timestamp == timestamp,
            block@.transactions == transaction_views(transactions@),
            block@.previous_hash == previous_hash@,
            block@.validator == validator@,
            block@.sealed(),
    {
        let mut block = Block {
            index,
            timestamp,
            transactions,
            previous_hash,
            hash: String::new(),
            validator,
        };
        let hash = block.compute_hash();
        block.hash = hash;
        block
    }

    /// Appends the canonical JSON object of the block to `out`.
    pub fn push_json(&self, out: &mut String)
        ensures
            final(out)@ == old(out)@ + self@.to_json(),
    {
        out.append("{\"index\":");
        push_decimal(out, self.index);
        out.append(",\"timestamp\":");
        push_signed_decimal(out, self.timestamp);
        out.append(",\"transactions\":");
        push_transactions_json(out, &self.transactions);
        out.append(",\"previous_hash\":");
        push_json_string(out, self.previous_hash.as_str());
        out.append(",\"hash\":");
        push_json_string(out, self.hash.as_str());
        out.append(",\"validator\":");
        push_json_string(out, self.validator.as_str());
        out.append("}");
    }

    /// The canonical JSON object of the block.
    pub fn to_json(&self) -> (text: String)
        ensures
            text@ == self@.to_json(),
    {
        let mut text = String::new();
        self.push_json(&mut text);
        text
    }
}

/// The canonical JSON array of `blocks`.
pub fn chain_to_json(blocks: &Vec<Block>) -> (text: String)
    ensures
        text@ == chain_json(block_views(blocks@)),
{
    let ghost items = block_views(blocks@).map_values(|b: BlockView| b.to_json());
    let mut text = String::from_str("[");
    let mut i: usize = 0;
    while i < blocks.len()
        invariant
            i <= blocks.len(),
            items == block_views(blocks@).map_values(|b: BlockView| b.to_json()),
            text@ == "["@ + json_items(items.take(i as int)),
        decreases blocks.len() - i,
    {
        if i > 0 {
            text.append(",");
        }
        blocks[i].push_json(&mut text);
        proof {
            reveal_strlit(",");
            assert(items.take(i + 1).drop_last() =~= items.take(i as int));
        }
        i += 1;
    }
    text.append("]");
    proof {
        reveal_strlit("[");
        reveal_strlit("]");
        assert(items.take(i as int) =~= items);
    }
    text
}

} // verus!
