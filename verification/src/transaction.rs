//! Signed value transfers.

use vstd::prelude::*;
use vstd::string::*;
use vstd::utf8::encode_utf8;
use crate::crypto::{
    ed25519_key_valid, ed25519_verifies, ed25519_verify, public_key_parses, sha256,
    sha256_digest, signature_parses, signature_well_formed,
};
use crate::decimal::{decimal, push_decimal, push_signed_decimal, signed_decimal};
use crate::hexcode::{decode_hex, encode_hex, hex_decode, hex_encode};
use crate::json::{json_array, json_items, json_string, push_json_string};

verus! {

/// A transfer of `amount` from `sender` to `receiver`, paying `fee` to the
/// producer of the block that includes it.
#[derive(Debug)]
pub struct Transaction {
    pub sender: String,
    pub receiver: String,
    pub amount: u64,
    pub fee: u64,
    pub nonce: u64,
    pub signature: String,
    pub timestamp: i64,
    pub public_key: String,
}

/// The mathematical content of a `Transaction`.
pub struct TransactionView {
    pub sender: Seq<char>,
    pub receiver: Seq<char>,
    pub amount: u64,
    pub fee: u64,
    pub nonce: u64,
    pub signature: Seq<char>,
    pub timestamp: i64,
    pub public_key: Seq<char>,
}

impl View for Transaction {
    type V = TransactionView;

    open spec fn view(&self) -> TransactionView {
        TransactionView {
            sender: self.sender@,
            receiver: self.receiver@,
            amount: self.amount,
            fee: self.fee,
            nonce: self.nonce,
            signature: self.signature@,
            timestamp: self.timestamp,
            public_key: self.public_key@,
        }
    }
}

impl TransactionView {
    /// The text that is signed: sender, receiver, amount, fee, nonce and
    /// timestamp, the numbers in decimal, with nothing between them.
    pub open spec fn signing_text(self) -> Seq<char> {
        self.sender + self.receiver + decimal(self.amount as nat) + decimal(self.fee as nat)
            + decimal(self.nonce as nat) + signed_decimal(self.timestamp as int)
    }

    /// The canonical digest: SHA-256 of the UTF-8 bytes of the signing text.
    pub open spec fn digest(self) -> Seq<u8> {
        sha256(encode_utf8(self.signing_text()))
    }

    /// The total that the sender has to hold: amount plus fee.
    pub open spec fn cost(self) -> nat {
        (self.amount + self.fee) as nat
    }

    /// The sender names the signing key: it is the lowercase hexadecimal
    /// text of the key's bytes.
    pub open spec fn sender_bound_to(self, key: Seq<u8>) -> bool {
        self.sender == hex_encode(key)
    }

    /// A transaction is validly signed when its key and signature decode
    /// from hexadecimal, both have the form Ed25519 asks for, the sender is
    /// the key's address, and the signature verifies over the digest.
    pub open spec fn signature_valid(self) -> bool {
        match (hex_decode(self.public_key), hex_decode(self.signature)) {
            (Some(key), Some(signature)) => {
                &&& ed25519_key_valid(key)
                &&& signature_well_formed(signature)
                &&& self.sender_bound_to(key)
                &&& ed25519_verifies(key, self.digest(), signature)
            },
            _ => false,
        }
    }

    /// The canonical JSON object of the transaction.
    pub open spec fn to_json(self) -> Seq<char> {
        "{\"sender\":"@ + json_string(self.sender) + ",\"receiver\":"@ + json_string(
            self.receiver,
        ) + ",\"amount\":"@ + decimal(self.amount as nat) + ",\"fee\":"@ + decimal(
            self.fee as nat,
        ) + ",\"nonce\":"@ + decimal(self.nonce as nat) + ",\"signature\":"@ + json_string(
            self.signature,
        ) + ",\"timestamp\":"@ + signed_decimal(self.timestamp as int) + ",\"public_key\":"@
            + json_string(self.public_key) + "}"@
    }
}

/// The views of a sequence of transactions.
pub open spec fn transaction_views(transactions: Seq<Transaction>) -> Seq<TransactionView> {
    transactions.map_values(|t: Transaction| t@)
}

/// The canonical JSON array of a sequence of transactions.
pub open spec fn transactions_json(transactions: Seq<TransactionView>) -> Seq<char> {
    json_array(transactions.map_values(|t: TransactionView| t.to_json()))
}

impl Clone for Transaction {
    fn clone(&self) -> (copy: Self)
        ensures
            copy@ == self@,
    {
        Transaction {
            sender: self.sender.clone(),
            receiver: self.receiver.clone(),
            amount: self.amount,
            fee: self.fee,
            nonce: self.nonce,
            signature: self.signature.clone(),
            timestamp: self.timestamp,
            public_key: self.public_key.clone(),
        }
    }
}

impl Transaction {
    /// The text that is signed.
    pub fn signing_text(&self) -> (text: String)
        ensures
            text@ == self@.signing_text(),
    {
        let mut text = self.sender.clone();
        text.append(self.receiver.as_str());
        push_decimal(&mut text, self.amount);
        push_decimal(&mut text, self.fee);
        push_decimal(&mut text, self.nonce);
        push_signed_decimal(&mut text, self.timestamp);
        text
    }

    /// The canonical digest of the transaction, 32 bytes.
    pub fn hash(&self) -> (digest: Vec<u8>)
        ensures
            digest@ == self@.digest(),
            digest@.len() == 32,
    {
        let text = self.signing_text();
        sha256_digest(text.as_str().as_bytes())
    }

    /// Whether the transaction is validly signed by the key it carries, and
    /// that key is the sender's. Malformed hexadecimal, a malformed key or
    /// signature, and a sender other than the key's address all give `false`.
    pub fn verify_signature(&self) -> (ok: bool)
        ensures
            ok == self@.signature_valid(),
    {
        let key = match decode_hex(self.public_key.as_str()) {
            Some(bytes) => bytes,
            None => {
                return false;
            },
        };
        let signature = match decode_hex(self.signature.as_str()) {
            Some(bytes) => bytes,
            None => {
                return false;
            },
        };
        if !public_key_parses(key.as_slice()) {
            return false;
        }
        if !signature_parses(signature.as_slice()) {
            return false;
        }
        let address = encode_hex(key.as_slice());
        if address != self.sender {
            return false;
        }
        let digest = self.hash();
        ed25519_verify(key.as_slice(), digest.as_slice(), signature.as_slice())
    }

    /// Appends the canonical JSON object of the transaction to `out`.
    pub fn push_json(&self, out: &mut String)
        ensures
            final(out)@ == old(out)@ + self@.to_json(),
    {
        out.append("{\"sender\":");
        push_json_string(out, self.sender.as_str());
        out.append(",\"receiver\":");
        push_json_string(out, self.receiver.as_str());
        out.append(",\"amount\":");
        push_decimal(out, self.amount);
        out.append(",\"fee\":");
        push_decimal(out, self.fee);
        out.append(",\"nonce\":");
        push_decimal(out, self.nonce);
        out.append(",\"signature\":");
        push_json_string(out, self.signature.as_str());
        out.append(",\"timestamp\":");
        push_signed_decimal(out, self.timestamp);
        out.append(",\"public_key\":");
        push_json_string(out, self.public_key.as_str());
        out.append("}");
    }

    /// The canonical JSON object of the transaction.
    pub fn to_json(&self) -> (text: String)
        ensures
            text@ == self@.to_json(),
    {
        let mut text = String::new();
        self.push_json(&mut text);
        text
    }
}

/// Appends the canonical JSON array of `transactions` to `out`.
pub fn push_transactions_json(out: &mut String, transactions: &Vec<Transaction>)
    ensures
        final(out)@ == old(out)@ + transactions_json(transaction_views(transactions@)),
{
    let ghost items = transaction_views(transactions@).map_values(|t: TransactionView| t.to_json());
    out.append("[");
    let mut i: usize = 0;
    while i < transactions.len()
        invariant
            i <= transactions.len(),
            items == transaction_views(transactions@).map_values(|t: TransactionView| t.to_json()),
            out@ == old(out)@ + "["@ + json_items(items.take(i as int)),
        decreases transactions.len() - i,
    {
        if i > 0 {
            out.append(",");
        }
        transactions[i].push_json(out);
        proof {
            reveal_strlit(",");
            assert(items.take(i + 1).drop_last() =~= items.take(i as int));
        }
        i += 1;
    }
    out.append("]");
    proof {
        reveal_strlit("[");
        reveal_strlit("]");
        assert(items.take(i as int) =~= items);
    }
}

} // verus!
