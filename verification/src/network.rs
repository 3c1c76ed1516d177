//! The peer layer's rules: what a node does with a message from a peer and
//! with a transaction from a client. The sockets themselves are not here.

use vstd::prelude::*;
use vstd::string::*;
use std::sync::Arc;
use std::sync::Mutex;
use crate::block::{block_views, chain_json, Block, BlockView};
use crate::ledger::Blockchain;
use crate::state::{BlockError, ChainError, LedgerView, TransactionError};
use crate::transaction::{Transaction, TransactionView};
use crate::wire::{
    block_pieces, decode_block, decode_chain, decode_transaction, lemma_block_pieces,
    lemma_first_piece, lemma_transaction_pieces, transaction_pieces,
};

verus! {

/// `std::sync::Mutex`, which guards the ledger that the tasks of a node
/// share. Nothing is known of what it holds.
#[verifier::external_type_specification]
#[verifier::external_body]
#[verifier::reject_recursive_types(T)]
pub struct ExMutex<T: ?Sized>(Mutex<T>);

/// Most bytes that a node reads of one message.
pub const MAX_MESSAGE_BYTES: usize = 4096;

/// What a node answers to a message it has read. The answer is a courtesy:
/// nothing depends on it.
pub const ACK: &'static str = "ACK";

/// A node's place in the network: the ledger it shares with its other
/// tasks, the address it listens on, and the peers it talks to.
#[derive(Clone)]
pub struct Network {
    pub bc: Arc<Mutex<Blockchain>>,
    pub addr: String,
    pub peers: Vec<String>,
}

/// A message from a peer.
#[derive(Debug)]
pub enum PeerMessage {
    /// A whole chain.
    Chain(Vec<Block>),
    /// One block.
    Block(Block),
    /// One transaction.
    Transaction(Transaction),
}

/// The mathematical content of a `PeerMessage`.
pub enum PeerMessageView {
    Chain(Seq<BlockView>),
    Block(BlockView),
    Transaction(TransactionView),
}

impl View for PeerMessage {
    type V = PeerMessageView;

    open spec fn view(&self) -> PeerMessageView {
        match self {
            PeerMessage::Chain(chain) => PeerMessageView::Chain(block_views(chain@)),
            PeerMessage::Block(block) => PeerMessageView::Block(block@),
            PeerMessage::Transaction(tx) => PeerMessageView::Transaction(tx@),
        }
    }
}

impl PeerMessageView {
    /// The canonical JSON text of the message.
    pub open spec fn to_json(self) -> Seq<char> {
        match self {
            PeerMessageView::Chain(chain) => chain_json(chain),
            PeerMessageView::Block(block) => block.to_json(),
            PeerMessageView::Transaction(tx) => tx.to_json(),
        }
    }
}

/// Decodes a message from a peer. The text is tried as a chain, then as a
/// block, then as a transaction. It decodes exactly when it is the
/// canonical JSON text of one of them, and then to that one: no text is
/// the text of two messages.
pub fn decode_message(text: &str) -> (decoded: Option<PeerMessage>)
    ensures
        decoded matches Some(message) ==> message@.to_json() == text@,
        forall|m: PeerMessageView|
            #[trigger] m.to_json() == text@ ==> (decoded matches Some(message) && message@ == m),
{
    proof {
        assert forall|m: PeerMessageView| #[trigger] m.to_json() == text@ implies opens_as(
            text@,
            m,
        ) by {
            lemma_message_opens(m);
        }
    }
    if let Some(chain) = decode_chain(text) {
        proof {
            lemma_message_opens(PeerMessageView::Chain(block_views(chain@)));
        }
        return Some(PeerMessage::Chain(chain));
    }
    if let Some(block) = decode_block(text) {
        proof {
            lemma_message_opens(PeerMessageView::Block(block@));
        }
        return Some(PeerMessage::Block(block));
    }
    if let Some(tx) = decode_transaction(text) {
        proof {
            lemma_message_opens(PeerMessageView::Transaction(tx@));
        }
        return Some(PeerMessage::Transaction(tx));
    }
    None
}

/// `text` opens as the text of `m` does: that of a chain with a bracket,
/// that of a block or a transaction with a brace and the first letter of
/// the name of its first field.
pub open spec fn opens_as(text: Seq<char>, m: PeerMessageView) -> bool {
    match m {
        PeerMessageView::Chain(_) => text.len() > 0 && text[0] == '[',
        PeerMessageView::Block(_) => text.len() > 2 && text[0] == '{' && text[2] == 'i',
        PeerMessageView::Transaction(_) => text.len() > 2 && text[0] == '{' && text[2] == 's',
    }
}

/// How the text of a message opens: a chain with a bracket, a block and a
/// transaction with a brace and the name of their first field.
pub proof fn lemma_message_opens(m: PeerMessageView)
    ensures
        opens_as(m.to_json(), m),
{
    match m {
        PeerMessageView::Chain(chain) => {},
        PeerMessageView::Block(block) => {
            lemma_block_pieces(block);
            reveal_strlit("{\"index\":");
            lemma_first_piece(block_pieces(block), 0);
            lemma_first_piece(block_pieces(block), 2);
        },
        PeerMessageView::Transaction(tx) => {
            lemma_transaction_pieces(tx);
            reveal_strlit("{\"sender\":");
            lemma_first_piece(transaction_pieces(tx), 0);
            lemma_first_piece(transaction_pieces(tx), 2);
        },
    }
}

/// What became of a message from a peer.
#[derive(Debug, Clone, Copy, PartialEq, Eq, Structural)]
pub enum PeerOutcome {
    /// The chain replaced the local one.
    ChainAdopted,
    /// The chain was dropped.
    ChainRejected(ChainError),
    /// The block was applied.
    BlockApplied,
    /// The block was dropped.
    BlockRejected(BlockError),
    /// The transaction joined the mempool.
    TransactionAdmitted,
    /// The transaction was dropped.
    TransactionRejected(TransactionError),
}

/// What a node does for a client that submitted a transaction.
pub struct Submission {
    /// The verdict on the transaction.
    pub verdict: Result<(), TransactionError>,
    /// The text sent back to the client.
    pub reply: &'static str,
    /// The transaction to send to every peer, if it was admitted.
    pub broadcast: Option<Transaction>,
}

impl LedgerView {
    /// What becomes of a message from a peer.
    pub open spec fn outcome(self, message: PeerMessageView) -> PeerOutcome {
        match message {
            PeerMessageView::Chain(chain) => match self.chain_verdict(chain) {
                Ok(_) => PeerOutcome::ChainAdopted,
                Err(error) => PeerOutcome::ChainRejected(error),
            },
            PeerMessageView::Block(block) => match self.block_verdict(block) {
                Ok(_) => PeerOutcome::BlockApplied,
                Err(error) => PeerOutcome::BlockRejected(error),
            },
            PeerMessageView::Transaction(tx) => match self.admission(tx) {
                Ok(_) => PeerOutcome::TransactionAdmitted,
                Err(error) => PeerOutcome::TransactionRejected(error),
            },
        }
    }

    /// The ledger after a message from a peer.
    pub open spec fn receive(self, message: PeerMessageView) -> LedgerView {
        match message {
            PeerMessageView::Chain(chain) => self.replace_chain(chain),
            PeerMessageView::Block(block) => self.accept_block(block),
            PeerMessageView::Transaction(tx) => self.add_transaction(tx),
        }
    }
}

/// The text a client is sent for a verdict on its transaction.
pub open spec fn reply_text(verdict: Result<(), TransactionError>) -> Seq<char> {
    if verdict is Ok {
        "Transaction accepted"@
    } else {
        "Transaction rejected"@
    }
}

/// The text a client is sent for a verdict on its transaction.
pub fn submission_reply(verdict: &Result<(), TransactionError>) -> (reply: &'static str)
    ensures
        reply@ == reply_text(*verdict),
{
    match verdict {
        Ok(_) => "Transaction accepted",
        Err(_) => "Transaction rejected",
    }
}

impl Network {
    /// A node that shares the ledger `bc`, listens on `addr` and talks to
    /// `peers`.
    pub fn new(bc: Arc<Mutex<Blockchain>>, addr: String, peers: Vec<String>) -> (network: Self)
        ensures
            network.bc == bc,
            network.addr == addr,
            network.peers == peers,
    {
        Network { bc, addr, peers }
    }

    /// Handles one message from a peer. A chain is adopted when it is longer
    /// than the local chain and valid; a block is applied when it follows
    /// the tip and is sealed; a transaction is submitted like any other.
    /// Whatever is not taken is dropped and changes nothing.
    pub fn handle_message(ledger: &mut Blockchain, message: PeerMessage) -> (outcome: PeerOutcome)
        requires
            old(ledger).wf(),
        ensures
            outcome == old(ledger)@.outcome(message@),
            final(ledger)@ == old(ledger)@.receive(message@),
            final(ledger).wf(),
    {
        match message {
            PeerMessage::Chain(chain) => match ledger.replace_chain(chain) {
                Ok(_) => PeerOutcome::ChainAdopted,
                Err(error) => PeerOutcome::ChainRejected(error),
            },
            PeerMessage::Block(block) => match ledger.accept_block(block) {
                Ok(_) => PeerOutcome::BlockApplied,
                Err(error) => PeerOutcome::BlockRejected(error),
            },
            PeerMessage::Transaction(tx) => match ledger.add_transaction(tx) {
                Ok(_) => PeerOutcome::TransactionAdmitted,
                Err(error) => PeerOutcome::TransactionRejected(error),
            },
        }
    }

    /// Handles a transaction from a client: submits it, and says what to
    /// answer and whether to send the transaction on to the peers.
    pub fn handle_submission(ledger: &mut Blockchain, tx: Transaction) -> (submission: Submission)
        requires
            old(ledger).wf(),
        ensures
            submission.verdict == old(ledger)@.admission(tx@),
            submission.reply@ == reply_text(submission.verdict),
            match submission.broadcast {
                Some(sent) => submission.verdict is Ok && sent@ == tx@,
                None => submission.verdict is Err,
            },
            final(ledger)@ == old(ledger)@.add_transaction(tx@),
            final(ledger).wf(),
    {
        let copy = tx.clone();
        let verdict = ledger.add_transaction(tx);
        let reply = submission_reply(&verdict);
        let broadcast = match verdict {
            Ok(_) => Some(copy),
            Err(_) => None,
        };
        Submission { verdict, reply, broadcast }
    }
}

} // verus!
