//! Decoding the wire format. A text decodes to a value exactly when it is
//! the canonical JSON of that value, so what was decoded encodes to the
//! very text it came from.

use vstd::prelude::*;
use vstd::string::*;
use crate::block::{block_views, chain_json, Block, BlockView};
use crate::decimal::{decimal, is_digit, signed_decimal};
use crate::json::{json_array, json_items, json_string};
use crate::reader::{
    expect, has_at, lemma_has_at_concat, lemma_has_at_index, number_ends, read_decimal,
    read_signed_decimal, read_string,
};
use crate::text::chars_of;
use crate::transaction::{transaction_views, transactions_json, Transaction, TransactionView};

verus! {

/// The text of the pieces one after the other.
#[verifier::opaque]
pub open spec fn joined(pieces: Seq<Seq<char>>) -> Seq<char> {
    pieces.flatten()
}

/// The text of the pieces from piece `k` on.
#[verifier::opaque]
pub open spec fn tail(pieces: Seq<Seq<char>>, k: nat) -> Seq<char> {
    pieces.skip(k as int).flatten()
}

/// The piece for a string: its JSON string literal.
#[verifier::opaque]
pub open spec fn quoted(content: Seq<char>) -> Seq<char> {
    json_string(content)
}

/// The piece for an unsigned number: its decimal text.
#[verifier::opaque]
pub open spec fn number(n: u64) -> Seq<char> {
    decimal(n as nat)
}

/// The piece for a signed number: its decimal text.
#[verifier::opaque]
pub open spec fn signed(n: i64) -> Seq<char> {
    signed_decimal(n as int)
}

/// The pieces `done` stand in `text` from `start` up to `cur`.
#[verifier::opaque]
pub open spec fn read_so_far(text: Seq<char>, start: int, done: Seq<Seq<char>>, cur: int) -> bool {
    has_at(text, start, joined(done)) && cur == start + joined(done).len()
}

/// The pieces from piece `k` on stand in `text` at `cur`.
#[verifier::opaque]
pub open spec fn still_to_read(text: Seq<char>, cur: int, pieces: Seq<Seq<char>>, k: nat) -> bool {
    has_at(text, cur, tail(pieces, k))
}

/// The text from piece `k` on is that piece followed by the text from the
/// next piece on.
pub proof fn lemma_tail(pieces: Seq<Seq<char>>, k: nat)
    requires
        k < pieces.len(),
    ensures
        tail(pieces, k) == pieces[k as int] + tail(pieces, k + 1),
{
    reveal(tail);
    assert(pieces.skip(k as int).drop_first() =~= pieces.skip(k as int + 1));
}

/// A piece that stands right behind pieces already read extends them.
pub proof fn lemma_piece_read(
    text: Seq<char>,
    start: int,
    done: Seq<Seq<char>>,
    cur: int,
    piece: Seq<char>,
)
    requires
        read_so_far(text, start, done, cur),
        has_at(text, cur, piece),
    ensures
        read_so_far(text, start, done.push(piece), cur + piece.len()),
{
    reveal(joined);
    reveal(read_so_far);
    done.lemma_flatten_push(piece);
    lemma_has_at_concat(text, start, done.flatten(), piece);
}

/// The text of the first `k + 1` pieces is the text of the first `k`
/// followed by piece `k`.
pub proof fn lemma_join_one_more(pieces: Seq<Seq<char>>, k: int)
    requires
        0 <= k < pieces.len(),
    ensures
        joined(pieces.take(k + 1)) == joined(pieces.take(k)) + pieces[k],
{
    reveal(joined);
    pieces.take(k).lemma_flatten_push(pieces[k]);
    assert(pieces.take(k + 1) =~= pieces.take(k).push(pieces[k]));
}

/// No pieces make the empty text, which stands anywhere; and all pieces
/// are what is still to read of a text that is these pieces.
pub proof fn lemma_nothing_read(text: Seq<char>, start: int, pieces: Seq<Seq<char>>)
    requires
        0 <= start <= text.len(),
    ensures
        read_so_far(text, start, Seq::<Seq<char>>::empty(), start),
        has_at(text, start, joined(pieces)) ==> still_to_read(text, start, pieces, 0),
        joined(pieces.take(0)) == Seq::<char>::empty(),
        joined(pieces.take(pieces.len() as int)) == joined(pieces),
{
    reveal(joined);
    reveal(tail);
    reveal(read_so_far);
    reveal(still_to_read);
    assert(text.subrange(start, start) =~= Seq::<char>::empty());
    assert(pieces.take(pieces.len() as int) =~= pieces);
}

/// The text of pieces begins with the first piece.
pub proof fn lemma_first_piece(pieces: Seq<Seq<char>>, i: int)
    requires
        pieces.len() > 0,
        0 <= i < pieces[0].len(),
    ensures
        joined(pieces).len() > i,
        joined(pieces)[i] == pieces[0][i],
{
    reveal(joined);
}

/// What is known while the pieces of one object are read: where the object
/// starts, the pieces read so far, and the pieces of each value. The
/// readers take beside it the candidates: the values whose object may stand
/// at the start.
#[verifier::reject_recursive_types(V)]
pub struct Reading<V> {
    pub start: int,
    pub done: Seq<Seq<char>>,
    pub pieces: spec_fn(V) -> Seq<Seq<char>>,
}

impl<V> Reading<V> {
    /// The pieces read so far stand in `text` up to `cur`, and every
    /// candidate has its further pieces from there on.
    pub open spec fn at(self, candidates: spec_fn(V) -> bool, text: Seq<char>, cur: int) -> bool {
        &&& cur <= text.len()
        &&& read_so_far(text, self.start, self.done, cur)
        &&& forall|v: V| #[trigger]
            candidates(v) ==> still_to_read(text, cur, (self.pieces)(v), self.done.len())
    }

    /// The same reading with one more piece read.
    pub open spec fn after(self, piece: Seq<char>) -> Reading<V> {
        Reading { done: self.done.push(piece), ..self }
    }

    /// Every candidate has `piece(v)` as its next piece.
    pub open spec fn expects(
        self,
        candidates: spec_fn(V) -> bool,
        piece: spec_fn(V) -> Seq<char>,
    ) -> bool {
        forall|v: V| #[trigger]
            candidates(v) ==> self.done.len() < (self.pieces)(v).len() && (self.pieces)(
                v,
            )[self.done.len() as int] == piece(v)
    }

    /// Every candidate has one more piece behind the next, and that begins
    /// with something other than a digit.
    pub open spec fn number_is_closed(self, candidates: spec_fn(V) -> bool) -> bool {
        forall|v: V| #[trigger]
            candidates(v) ==> self.done.len() + 1 < (self.pieces)(v).len() && (
            self.pieces)(v)[self.done.len() + 1 as int].len() > 0 && !is_digit(
                (self.pieces)(v)[self.done.len() + 1 as int][0],
            )
    }

    /// What holds behind the next piece of a candidate.
    proof fn lemma_next_piece(
        self,
        candidates: spec_fn(V) -> bool,
        text: Seq<char>,
        cur: int,
        v: V,
    )
        requires
            self.at(candidates, text, cur),
            candidates(v),
            self.done.len() < (self.pieces)(v).len(),
        ensures
            has_at(text, cur, (self.pieces)(v)[self.done.len() as int]),
            still_to_read(
                text,
                cur + (self.pieces)(v)[self.done.len() as int].len(),
                (self.pieces)(v),
                self.done.len() + 1,
            ),
            self.done.len() + 1 < (self.pieces)(v).len() && (self.pieces)(v)[self.done.len()
                + 1 as int].len() > 0 ==> cur + (self.pieces)(v)[self.done.len() as int].len()
                < text.len() && text[cur + (self.pieces)(v)[self.done.len() as int].len()] == (
            self.pieces)(v)[self.done.len() + 1 as int][0],
    {
        reveal(still_to_read);
        let pieces = (self.pieces)(v);
        let k = self.done.len();
        let rest = tail(pieces, k + 1);
        lemma_tail(pieces, k);
        lemma_has_at_concat(text, cur, pieces[k as int], rest);
        if k + 1 < pieces.len() && pieces[k + 1 as int].len() > 0 {
            lemma_tail(pieces, k + 1);
            lemma_has_at_index(text, cur + pieces[k as int].len(), rest, 0);
        }
    }
}

/// Reads a literal piece, which every candidate expects next. Where the
/// literal is missing, there is no candidate.
fn literal_piece<V>(
    text: &[char],
    cur: usize,
    literal: &str,
    reading: Ghost<Reading<V>>,
    Ghost(candidates): Ghost<spec_fn(V) -> bool>,
) -> (read: Option<(usize, Ghost<Reading<V>>)>)
    requires
        reading@.at(candidates, text@, cur as int),
        reading@.expects(candidates, |v: V| literal@),
    ensures
        read matches Some((end, next)) ==> next@ == reading@.after(literal@) && next@.at(
            candidates,
            text@,
            end as int,
        ),
        read is None ==> forall|v: V| !#[trigger] candidates(v),
{
    let end = expect(text, cur, literal);
    proof {
        assert forall|v: V| #[trigger] candidates(v) implies has_at(
            text@,
            cur as int,
            literal@,
        ) && still_to_read(
            text@,
            cur + literal@.len(),
            (reading@.pieces)(v),
            reading@.done.len() + 1,
        ) by {
            reading@.lemma_next_piece(candidates, text@, cur as int, v);
        }
    }
    match end {
        Some(end) => {
            proof {
                lemma_piece_read(text@, reading@.start, reading@.done, cur as int, literal@);
            }
            Some((end, Ghost(reading@.after(literal@))))
        },
        None => None,
    }
}

/// Reads a string piece, the field `field` of every candidate.
fn string_piece<V>(
    text: &[char],
    cur: usize,
    reading: Ghost<Reading<V>>,
    Ghost(candidates): Ghost<spec_fn(V) -> bool>,
    Ghost(field): Ghost<spec_fn(V) -> Seq<char>>,
) -> (read: Option<(String, usize, Ghost<Reading<V>>)>)
    requires
        reading@.at(candidates, text@, cur as int),
        reading@.expects(candidates, |v: V| quoted(field(v))),
    ensures
        read matches Some((found, end, next)) ==> next@ == reading@.after(quoted(found@))
            && next@.at(candidates, text@, end as int) && forall|v: V| #[trigger]
            candidates(v) ==> field(v) == found@,
        read is None ==> forall|v: V| !#[trigger] candidates(v),
{
    let read = read_string(text, cur);
    proof {
        reveal(quoted);
        assert forall|v: V| #[trigger] candidates(v) implies has_at(
            text@,
            cur as int,
            json_string(field(v)),
        ) && still_to_read(
            text@,
            cur + json_string(field(v)).len(),
            (reading@.pieces)(v),
            reading@.done.len() + 1,
        ) by {
            reading@.lemma_next_piece(candidates, text@, cur as int, v);
        }
    }
    match read {
        Some((found, end)) => {
            proof {
                lemma_piece_read(
                    text@,
                    reading@.start,
                    reading@.done,
                    cur as int,
                    json_string(found@),
                );
            }
            Some((found, end, Ghost(reading@.after(quoted(found@)))))
        },
        None => None,
    }
}

/// Reads an unsigned number piece, the field `field` of every candidate.
fn number_piece<V>(
    text: &[char],
    cur: usize,
    reading: Ghost<Reading<V>>,
    Ghost(candidates): Ghost<spec_fn(V) -> bool>,
    Ghost(field): Ghost<spec_fn(V) -> u64>,
) -> (read: Option<(u64, usize, Ghost<Reading<V>>)>)
    requires
        reading@.at(candidates, text@, cur as int),
        reading@.expects(candidates, |v: V| number(field(v))),
        reading@.number_is_closed(candidates),
    ensures
        read matches Some((found, end, next)) ==> next@ == reading@.after(number(found))
            && next@.at(candidates, text@, end as int) && forall|v: V| #[trigger]
            candidates(v) ==> field(v) == found,
        read is None ==> forall|v: V| !#[trigger] candidates(v),
{
    let read = read_decimal(text, cur);
    proof {
        reveal(number);
        assert forall|v: V| #[trigger] candidates(v) implies has_at(
            text@,
            cur as int,
            decimal(field(v) as nat),
        ) && still_to_read(
            text@,
            cur + decimal(field(v) as nat).len(),
            (reading@.pieces)(v),
            reading@.done.len() + 1,
        ) && number_ends(text@, cur + decimal(field(v) as nat).len()) by {
            reading@.lemma_next_piece(candidates, text@, cur as int, v);
        }
    }
    match read {
        Some((found, end)) => {
            proof {
                lemma_piece_read(
                    text@,
                    reading@.start,
                    reading@.done,
                    cur as int,
                    decimal(found as nat),
                );
            }
            Some((found, end, Ghost(reading@.after(number(found)))))
        },
        None => None,
    }
}

/// Reads a signed number piece, the field `field` of every candidate.
fn signed_piece<V>(
    text: &[char],
    cur: usize,
    reading: Ghost<Reading<V>>,
    Ghost(candidates): Ghost<spec_fn(V) -> bool>,
    Ghost(field): Ghost<spec_fn(V) -> i64>,
) -> (read: Option<(i64, usize, Ghost<Reading<V>>)>)
    requires
        reading@.at(candidates, text@, cur as int),
        reading@.expects(candidates, |v: V| signed(field(v))),
        reading@.number_is_closed(candidates),
    ensures
        read matches Some((found, end, next)) ==> next@ == reading@.after(signed(found))
            && next@.at(candidates, text@, end as int) && forall|v: V| #[trigger]
            candidates(v) ==> field(v) == found,
        read is None ==> forall|v: V| !#[trigger] candidates(v),
{
    let read = read_signed_decimal(text, cur);
    proof {
        reveal(signed);
        assert forall|v: V| #[trigger] candidates(v) implies has_at(
            text@,
            cur as int,
            signed_decimal(field(v) as int),
        ) && still_to_read(
            text@,
            cur + signed_decimal(field(v) as int).len(),
            (reading@.pieces)(v),
            reading@.done.len() + 1,
        ) && number_ends(text@, cur + signed_decimal(field(v) as int).len()) by {
            reading@.lemma_next_piece(candidates, text@, cur as int, v);
        }
    }
    match read {
        Some((found, end)) => {
            proof {
                lemma_piece_read(
                    text@,
                    reading@.start,
                    reading@.done,
                    cur as int,
                    signed_decimal(found as int),
                );
            }
            Some((found, end, Ghost(reading@.after(signed(found)))))
        },
        None => None,
    }
}

/// The pieces that the JSON object of a transaction is made of.
pub open spec fn transaction_pieces(tx: TransactionView) -> Seq<Seq<char>> {
    seq![
        "{\"sender\":"@,
        quoted(tx.sender),
        ",\"receiver\":"@,
        quoted(tx.receiver),
        ",\"amount\":"@,
        number(tx.amount),
        ",\"fee\":"@,
        number(tx.fee),
        ",\"nonce\":"@,
        number(tx.nonce),
        ",\"signature\":"@,
        quoted(tx.signature),
        ",\"timestamp\":"@,
        signed(tx.timestamp),
        ",\"public_key\":"@,
        quoted(tx.public_key),
        "}"@,
    ]
}

/// The JSON object of a transaction is its pieces one after the other.
pub proof fn lemma_transaction_pieces(tx: TransactionView)
    ensures
        tx.to_json() == joined(transaction_pieces(tx)),
{
    reveal(quoted);
    reveal(number);
    reveal(signed);
    let p = transaction_pieces(tx);
    lemma_nothing_read(seq![], 0, p);
    lemma_join_one_more(p, 0);
    lemma_join_one_more(p, 1);
    lemma_join_one_more(p, 2);
    lemma_join_one_more(p, 3);
    lemma_join_one_more(p, 4);
    lemma_join_one_more(p, 5);
    lemma_join_one_more(p, 6);
    lemma_join_one_more(p, 7);
    lemma_join_one_more(p, 8);
    lemma_join_one_more(p, 9);
    lemma_join_one_more(p, 10);
    lemma_join_one_more(p, 11);
    lemma_join_one_more(p, 12);
    lemma_join_one_more(p, 13);
    lemma_join_one_more(p, 14);
    lemma_join_one_more(p, 15);
    lemma_join_one_more(p, 16);
}

/// Reads the pieces of the JSON object of a transaction at `pos`.
/// `candidates` are the transactions whose object stands there.
fn read_transaction_pieces(
    text: &[char],
    pos: usize,
    Ghost(candidates): Ghost<spec_fn(TransactionView) -> bool>,
) -> (read: Option<(Transaction, usize)>)
    requires
        pos <= text@.len(),
        forall|v: TransactionView| #[trigger]
            candidates(v) ==> has_at(text@, pos as int, joined(transaction_pieces(v))),
    ensures
        read matches Some((tx, end)) ==> read_so_far(
            text@,
            pos as int,
            transaction_pieces(tx@),
            end as int,
        ) && forall|v: TransactionView| #[trigger] candidates(v) ==> tx@ == v,
        read is None ==> forall|v: TransactionView| !#[trigger] candidates(v),
{
    let r: Ghost<Reading<TransactionView>> = Ghost(
        Reading {
            start: pos as int,
            done: seq![],
            pieces: |v: TransactionView| transaction_pieces(v),
        },
    );
    proof {
        reveal_strlit(",\"fee\":");
        reveal_strlit(",\"nonce\":");
        reveal_strlit(",\"signature\":");
        reveal_strlit(",\"public_key\":");
        lemma_nothing_read(text@, pos as int, seq![]);
        assert forall|v: TransactionView| #[trigger] candidates(v) implies still_to_read(
            text@,
            pos as int,
            transaction_pieces(v),
            0,
        ) by {
            lemma_nothing_read(text@, pos as int, transaction_pieces(v));
        }
    }
    let (cur, r) = literal_piece(text, pos, "{\"sender\":", r, Ghost(candidates))?;
    let (sender, cur, r) = string_piece(
        text,
        cur,
        r,
        Ghost(candidates),
        Ghost(|v: TransactionView| v.sender),
    )?;
    let (cur, r) = literal_piece(text, cur, ",\"receiver\":", r, Ghost(candidates))?;
    let (receiver, cur, r) = string_piece(
        text,
        cur,
        r,
        Ghost(candidates),
        Ghost(|v: TransactionView| v.receiver),
    )?;
    let (cur, r) = literal_piece(text, cur, ",\"amount\":", r, Ghost(candidates))?;
    let (amount, cur, r) = number_piece(
        text,
        cur,
        r,
        Ghost(candidates),
        Ghost(|v: TransactionView| v.amount),
    )?;
    let (cur, r) = literal_piece(text, cur, ",\"fee\":", r, Ghost(candidates))?;
    let (fee, cur, r) = number_piece(
        text,
        cur,
        r,
        Ghost(candidates),
        Ghost(|v: TransactionView| v.fee),
    )?;
    let (cur, r) = literal_piece(text, cur, ",\"nonce\":", r, Ghost(candidates))?;
    let (nonce, cur, r) = number_piece(
        text,
        cur,
        r,
        Ghost(candidates),
        Ghost(|v: TransactionView| v.nonce),
    )?;
    let (cur, r) = literal_piece(text, cur, ",\"signature\":", r, Ghost(candidates))?;
    let (signature, cur, r) = string_piece(
        text,
        cur,
        r,
        Ghost(candidates),
        Ghost(|v: TransactionView| v.signature),
    )?;
    let (cur, r) = literal_piece(text, cur, ",\"timestamp\":", r, Ghost(candidates))?;
    let (timestamp, cur, r) = signed_piece(
        text,
        cur,
        r,
        Ghost(candidates),
        Ghost(|v: TransactionView| v.timestamp),
    )?;
    let (cur, r) = literal_piece(text, cur, ",\"public_key\":", r, Ghost(candidates))?;
    let (public_key, cur, r) = string_piece(
        text,
        cur,
        r,
        Ghost(candidates),
        Ghost(|v: TransactionView| v.public_key),
    )?;
    let (cur, r) = literal_piece(text, cur, "}", r, Ghost(candidates))?;
    let tx = Transaction { sender, receiver, amount, fee, nonce, signature, timestamp, public_key };
    assert(transaction_pieces(tx@) =~= r@.done);
    Some((tx, cur))
}

/// Reads the JSON object of a transaction at `pos`. Returns the transaction
/// and the position behind the object. What is returned is the one
/// transaction whose object stands at `pos`; where none does, nothing is
/// returned.
pub fn read_transaction(text: &[char], pos: usize) -> (read: Option<(Transaction, usize)>)
    requires
        pos <= text@.len(),
    ensures
        read matches Some((tx, end)) ==> has_at(text@, pos as int, tx@.to_json()) && end == pos
            + tx@.to_json().len(),
        forall|v: TransactionView|
            has_at(text@, pos as int, #[trigger] v.to_json()) ==> (read matches Some((tx, end))
                && tx@ == v),
{
    let ghost candidates = |v: TransactionView| has_at(text@, pos as int, v.to_json());
    proof {
        assert forall|v: TransactionView| #[trigger] candidates(v) implies has_at(
            text@,
            pos as int,
            joined(transaction_pieces(v)),
        ) by {
            lemma_transaction_pieces(v);
        }
    }
    let read = read_transaction_pieces(text, pos, Ghost(candidates));
    proof {
        reveal(read_so_far);
        if read is Some {
            lemma_transaction_pieces(read.unwrap().0@);
        }
        assert forall|v: TransactionView|
            has_at(text@, pos as int, #[trigger] v.to_json()) implies candidates(v) by {}
    }
    read
}

/// A piece that stands inside a piece stands in the text.
pub proof fn lemma_has_at_nested(
    text: Seq<char>,
    pos: int,
    outer: Seq<char>,
    offset: int,
    inner: Seq<char>,
)
    requires
        has_at(text, pos, outer),
        has_at(outer, offset, inner),
    ensures
        has_at(text, pos + offset, inner),
{
    assert(text.subrange(pos + offset, pos + offset + inner.len()) =~= text.subrange(
        pos,
        pos + outer.len(),
    ).subrange(offset, offset + inner.len()));
}

/// The items of a list one after the other, as they stand between the
/// brackets: the first `k + 1` are the first `k`, a comma unless there are
/// none, and item `k`; and the text of the first `k` begins the text of all.
pub proof fn lemma_items_layout(items: Seq<Seq<char>>, k: int)
    requires
        0 <= k <= items.len(),
    ensures
        has_at(json_items(items), 0, json_items(items.take(k))),
        k < items.len() ==> json_items(items.take(k + 1)) == if k == 0 {
            items[0]
        } else {
            json_items(items.take(k)) + seq![','] + items[k]
        },
    decreases items.len(),
{
    let all = json_items(items);
    if k == items.len() {
        assert(items.take(k) =~= items);
        assert(all.subrange(0, all.len() as int) =~= all);
    } else {
        assert(items.take(k + 1).drop_last() =~= items.take(k));
        if items.len() == 1 {
            assert(all.subrange(0, 0) =~= json_items(items.take(0)));
        } else {
            let front = items.drop_last();
            lemma_items_layout(front, k);
            assert(front.take(k) =~= items.take(k));
            let shorter = json_items(items.take(k));
            assert(all.subrange(0, shorter.len() as int) =~= json_items(front).subrange(
                0,
                shorter.len() as int,
            ));
        }
    }
}

/// What stands behind the first `k` items of a list that stands at `pos`:
/// the closing bracket behind the last item; otherwise the next item,
/// behind a comma unless it is the first.
pub proof fn lemma_list_next(text: Seq<char>, pos: int, items: Seq<Seq<char>>, k: int)
    requires
        has_at(text, pos, json_array(items)),
        0 <= k <= items.len(),
    ensures
        has_at(text, pos, seq!['[']),
        has_at(text, pos + 1, json_items(items.take(k))),
        k == items.len() ==> has_at(text, pos + 1 + json_items(items.take(k)).len(), seq![']']),
        k < items.len() && k == 0 ==> has_at(text, pos + 1, items[0]),
        k < items.len() && k > 0 ==> has_at(
            text,
            pos + 1 + json_items(items.take(k)).len(),
            seq![','],
        ) && has_at(text, pos + 2 + json_items(items.take(k)).len(), items[k]),
{
    let all = json_items(items);
    let open = seq!['['];
    let close = seq![']'];
    lemma_has_at_concat(text, pos, open + all, close);
    lemma_has_at_concat(text, pos, open, all);
    lemma_items_layout(items, k);
    lemma_has_at_nested(text, pos + 1, all, 0, json_items(items.take(k)));
    if k == items.len() {
        assert(items.take(k) =~= items);
    } else {
        lemma_items_layout(items, k + 1);
        let longer = json_items(items.take(k + 1));
        lemma_has_at_nested(text, pos + 1, all, 0, longer);
        if k == 0 {
        } else {
            let shorter = json_items(items.take(k));
            lemma_has_at_concat(text, pos + 1, shorter + seq![','], items[k]);
            lemma_has_at_concat(text, pos + 1, shorter, seq![',']);
        }
    }
}

/// A list whose items stand one after the other between brackets stands as
/// a whole.
pub proof fn lemma_list_read(text: Seq<char>, pos: int, items: Seq<Seq<char>>)
    requires
        has_at(text, pos, seq!['[']),
        has_at(text, pos + 1, json_items(items)),
        has_at(text, pos + 1 + json_items(items).len(), seq![']']),
    ensures
        has_at(text, pos, json_array(items)),
        json_array(items).len() == json_items(items).len() + 2,
{
    lemma_has_at_concat(text, pos, seq!['['], json_items(items));
    lemma_has_at_concat(text, pos, seq!['['] + json_items(items), seq![']']);
}

/// One more item read behind the items of a list.
pub proof fn lemma_item_read(
    text: Seq<char>,
    pos: int,
    items: Seq<Seq<char>>,
    item: Seq<char>,
)
    requires
        has_at(text, pos, json_items(items)),
        items.len() > 0 ==> has_at(text, pos + json_items(items).len(), seq![',']),
        has_at(
            text,
            pos + json_items(items).len() + if items.len() > 0 {
                1int
            } else {
                0
            },
            item,
        ),
    ensures
        has_at(text, pos, json_items(items.push(item))),
        json_items(items.push(item)).len() == json_items(items).len() + item.len() + if items.len()
            > 0 {
            1int
        } else {
            0
        },
{
    let longer = items.push(item);
    assert(longer.drop_last() =~= items);
    if items.len() > 0 {
        lemma_has_at_concat(text, pos, json_items(items), seq![',']);
        lemma_has_at_concat(text, pos, json_items(items) + seq![','], item);
    }
}

/// A value with a canonical JSON object that can be read back.
pub trait Wire: View + Sized {
    /// The canonical JSON object of a value.
    spec fn encoding(value: Self::V) -> Seq<char>;

    /// The object opens with a brace.
    proof fn lemma_encoding_opens(value: Self::V)
        ensures
            Self::encoding(value).len() > 0,
            Self::encoding(value)[0] == '{',
    ;

    /// Reads the object at `pos`. Returns the value and the position behind
    /// the object. What is returned is the one value whose object stands at
    /// `pos`; where none does, nothing is returned.
    fn read_at(text: &[char], pos: usize) -> (read: Option<(Self, usize)>)
        requires
            pos <= text@.len(),
        ensures
            read matches Some((value, end)) ==> has_at(
                text@,
                pos as int,
                Self::encoding(value@),
            ) && end == pos + Self::encoding(value@).len(),
            forall|v: Self::V|
                has_at(text@, pos as int, #[trigger] Self::encoding(v)) ==> (read matches Some(
                    (value, end),
                ) && value@ == v),
    ;
}

/// The views of a sequence of values.
pub open spec fn views_of<T: Wire>(values: Seq<T>) -> Seq<T::V> {
    values.map_values(|t: T| t@)
}

/// The canonical JSON objects of a sequence of values.
pub open spec fn encodings<T: Wire>(values: Seq<T::V>) -> Seq<Seq<char>> {
    values.map_values(|v: T::V| T::encoding(v))
}

/// The canonical JSON array of a sequence of values.
pub open spec fn list_encoding<T: Wire>(values: Seq<T::V>) -> Seq<char> {
    json_array(encodings::<T>(values))
}

/// Reads the JSON array of a list at `pos`. Returns the list and the
/// position behind the closing bracket. What is returned is the one list
/// whose array stands at `pos`; where none does, nothing is returned.
pub fn read_list<T: Wire>(text: &[char], pos: usize) -> (read: Option<(Vec<T>, usize)>)
    requires
        pos <= text@.len(),
    ensures
        read matches Some((values, end)) ==> has_at(
            text@,
            pos as int,
            list_encoding::<T>(views_of(values@)),
        ) && end == pos + list_encoding::<T>(views_of(values@)).len(),
        forall|vs: Seq<T::V>|
            has_at(text@, pos as int, #[trigger] list_encoding::<T>(vs)) ==> (read matches Some(
                (values, end),
            ) && views_of(values@) == vs),
{
    let length = text.len();
    let ghost start = pos as int;
    proof {
        assert forall|vs: Seq<T::V>|
            has_at(text@, start, #[trigger] list_encoding::<T>(vs)) implies pos + 1 < length
            && text@[start] == '[' && (text@[start + 1] == ']' <==> vs.len() == 0) by {
            lemma_list_next(text@, start, encodings::<T>(vs), 0);
            lemma_has_at_index(text@, start, seq!['['], 0);
            if vs.len() == 0 {
                lemma_has_at_index(text@, start + 1, seq![']'], 0);
            } else {
                T::lemma_encoding_opens(vs[0]);
                lemma_has_at_index(text@, start + 1, T::encoding(vs[0]), 0);
            }
        }
    }
    if length - pos < 2 || text[pos] != '[' {
        return None;
    }
    let mut out: Vec<T> = Vec::new();
    proof {
        assert(text@.subrange(start, start + 1) =~= seq!['[']);
        assert(text@.subrange(start + 1, start + 1) =~= json_items(
            encodings::<T>(views_of(out@)),
        ));
    }
    if text[pos + 1] == ']' {
        proof {
            assert(text@.subrange(start + 1, start + 2) =~= seq![']']);
            lemma_list_read(text@, start, encodings::<T>(views_of(out@)));
            assert forall|vs: Seq<T::V>|
                has_at(text@, start, #[trigger] list_encoding::<T>(vs)) implies views_of(out@)
                == vs by {
                assert(views_of(out@) =~= vs);
            }
        }
        return Some((out, pos + 2));
    }
    let mut cur: usize = pos + 1;
    proof {
        assert forall|vs: Seq<T::V>|
            has_at(text@, start, #[trigger] list_encoding::<T>(vs)) implies vs.take(0)
            == views_of(out@) by {
            assert(vs.take(0) =~= views_of(out@));
        }
    }
    loop
        invariant
            length == text@.len(),
            start == pos as int,
            pos < cur <= length,
            has_at(text@, start, seq!['[']),
            has_at(text@, start + 1, json_items(encodings::<T>(views_of(out@)))),
            out@.len() > 0 ==> has_at(text@, cur - 1, seq![',']),
            cur == start + 1 + json_items(encodings::<T>(views_of(out@))).len() + if out@.len()
                > 0 {
                1int
            } else {
                0
            },
            forall|vs: Seq<T::V>|
                has_at(text@, start, #[trigger] list_encoding::<T>(vs)) ==> out@.len() < vs.len()
                    && vs.take(out@.len() as int) == views_of(out@),
        decreases length - cur,
    {
        let ghost before = views_of(out@);
        let ghost count = out@.len() as int;
        proof {
            assert forall|vs: Seq<T::V>|
                has_at(text@, start, #[trigger] list_encoding::<T>(vs)) implies has_at(
                text@,
                cur as int,
                T::encoding(vs[count]),
            ) by {
                lemma_list_next(text@, start, encodings::<T>(vs), count);
                assert(encodings::<T>(vs).take(count) =~= encodings::<T>(before));
            }
        }
        let (value, end) = match T::read_at(text, cur) {
            Some(found) => found,
            None => {
                return None;
            },
        };
        proof {
            lemma_item_read(text@, start + 1, encodings::<T>(before), T::encoding(value@));
            assert(encodings::<T>(before).push(T::encoding(value@)) =~= encodings::<T>(
                before.push(value@),
            ));
            T::lemma_encoding_opens(value@);
            assert forall|vs: Seq<T::V>|
                has_at(text@, start, #[trigger] list_encoding::<T>(vs)) implies vs.take(count + 1)
                == before.push(value@) by {
                assert(vs.take(count + 1) =~= vs.take(count).push(vs[count]));
            }
        }
        out.push(value);
        cur = end;
        proof {
            assert(views_of(out@) =~= before.push(value@));
            assert forall|vs: Seq<T::V>|
                has_at(text@, start, #[trigger] list_encoding::<T>(vs)) implies cur < length && (
                text@[cur as int] == ']' <==> vs.len() == count + 1) && (text@[cur as int] == ','
                    <==> vs.len() > count + 1) by {
                lemma_list_next(text@, start, encodings::<T>(vs), count + 1);
                assert(encodings::<T>(vs).take(count + 1) =~= encodings::<T>(views_of(out@)));
                if vs.len() == count + 1 {
                    lemma_has_at_index(text@, cur as int, seq![']'], 0);
                } else {
                    lemma_has_at_index(text@, cur as int, seq![','], 0);
                }
            }
        }
        if cur >= length {
            return None;
        }
        if text[cur] == ']' {
            proof {
                assert(text@.subrange(cur as int, cur + 1) =~= seq![']']);
                lemma_list_read(text@, start, encodings::<T>(views_of(out@)));
                assert forall|vs: Seq<T::V>|
                    has_at(text@, start, #[trigger] list_encoding::<T>(vs)) implies views_of(out@)
                    == vs by {
                    assert(vs.take(vs.len() as int) =~= vs);
                }
            }
            return Some((out, cur + 1));
        }
        if text[cur] != ',' {
            return None;
        }
        proof {
            assert(text@.subrange(cur as int, cur + 1) =~= seq![',']);
        }
        cur = cur + 1;
    }
}

impl Wire for Transaction {
    open spec fn encoding(value: TransactionView) -> Seq<char> {
        value.to_json()
    }

    proof fn lemma_encoding_opens(value: TransactionView) {
        reveal_strlit("{\"sender\":");
        lemma_transaction_pieces(value);
        lemma_first_piece(transaction_pieces(value), 0);
    }

    fn read_at(text: &[char], pos: usize) -> (read: Option<(Self, usize)>) {
        read_transaction(text, pos)
    }
}

/// The piece for a list of transactions: its JSON array.
#[verifier::opaque]
pub open spec fn listed(transactions: Seq<TransactionView>) -> Seq<char> {
    transactions_json(transactions)
}

/// The JSON array of transactions is the array of their objects.
pub proof fn lemma_transactions_list(transactions: Seq<TransactionView>)
    ensures
        transactions_json(transactions) == list_encoding::<Transaction>(transactions),
{
    assert(transactions.map_values(|t: TransactionView| t.to_json()) =~= encodings::<Transaction>(
        transactions,
    ));
}

/// Reads a piece that is a list of transactions, the field `field` of
/// every candidate.
fn transactions_piece<V>(
    text: &[char],
    cur: usize,
    reading: Ghost<Reading<V>>,
    Ghost(candidates): Ghost<spec_fn(V) -> bool>,
    Ghost(field): Ghost<spec_fn(V) -> Seq<TransactionView>>,
) -> (read: Option<(Vec<Transaction>, usize, Ghost<Reading<V>>)>)
    requires
        reading@.at(candidates, text@, cur as int),
        reading@.expects(candidates, |v: V| listed(field(v))),
    ensures
        read matches Some((found, end, next)) ==> next@ == reading@.after(
            listed(transaction_views(found@)),
        ) && next@.at(candidates, text@, end as int) && forall|v: V| #[trigger]
            candidates(v) ==> field(v) == transaction_views(found@),
        read is None ==> forall|v: V| !#[trigger] candidates(v),
{
    let read = read_list::<Transaction>(text, cur);
    proof {
        reveal(listed);
        assert forall|v: V| #[trigger] candidates(v) implies has_at(
            text@,
            cur as int,
            list_encoding::<Transaction>(field(v)),
        ) && still_to_read(
            text@,
            cur + transactions_json(field(v)).len(),
            (reading@.pieces)(v),
            reading@.done.len() + 1,
        ) by {
            lemma_transactions_list(field(v));
            reading@.lemma_next_piece(candidates, text@, cur as int, v);
        }
    }
    match read {
        Some((found, end)) => {
            proof {
                lemma_transactions_list(transaction_views(found@));
                lemma_piece_read(
                    text@,
                    reading@.start,
                    reading@.done,
                    cur as int,
                    transactions_json(transaction_views(found@)),
                );
            }
            Some((found, end, Ghost(reading@.after(listed(transaction_views(found@))))))
        },
        None => None,
    }
}

/// The pieces that the JSON object of a block is made of.
pub open spec fn block_pieces(block: BlockView) -> Seq<Seq<char>> {
    seq![
        "{\"index\":"@,
        number(block.index),
        ",\"timestamp\":"@,
        signed(block.timestamp),
        ",\"transactions\":"@,
        listed(block.transactions),
        ",\"previous_hash\":"@,
        quoted(block.previous_hash),
        ",\"hash\":"@,
        quoted(block.hash),
        ",\"validator\":"@,
        quoted(block.validator),
        "}"@,
    ]
}

/// The JSON object of a block is its pieces one after the other.
pub proof fn lemma_block_pieces(block: BlockView)
    ensures
        block.to_json() == joined(block_pieces(block)),
{
    reveal(quoted);
    reveal(number);
    reveal(signed);
    reveal(listed);
    let p = block_pieces(block);
    lemma_nothing_read(seq![], 0, p);
    lemma_join_one_more(p, 0);
    lemma_join_one_more(p, 1);
    lemma_join_one_more(p, 2);
    lemma_join_one_more(p, 3);
    lemma_join_one_more(p, 4);
    lemma_join_one_more(p, 5);
    lemma_join_one_more(p, 6);
    lemma_join_one_more(p, 7);
    lemma_join_one_more(p, 8);
    lemma_join_one_more(p, 9);
    lemma_join_one_more(p, 10);
    lemma_join_one_more(p, 11);
    lemma_join_one_more(p, 12);
}

/// Reads the pieces of the JSON object of a block at `pos`. `candidates`
/// are the blocks whose object stands there.
fn read_block_pieces(
    text: &[char],
    pos: usize,
    Ghost(candidates): Ghost<spec_fn(BlockView) -> bool>,
) -> (read: Option<(Block, usize)>)
    requires
        pos <= text@.len(),
        forall|v: BlockView| #[trigger]
            candidates(v) ==> has_at(text@, pos as int, joined(block_pieces(v))),
    ensures
        read matches Some((block, end)) ==> read_so_far(
            text@,
            pos as int,
            block_pieces(block@),
            end as int,
        ) && forall|v: BlockView| #[trigger] candidates(v) ==> block@ == v,
        read is None ==> forall|v: BlockView| !#[trigger] candidates(v),
{
    let r: Ghost<Reading<BlockView>> = Ghost(
        Reading {
            start: pos as int,
            done: seq![],
            pieces: |v: BlockView| block_pieces(v),
        },
    );
    proof {
        reveal_strlit(",\"timestamp\":");
        reveal_strlit(",\"transactions\":");
        lemma_nothing_read(text@, pos as int, seq![]);
        assert forall|v: BlockView| #[trigger] candidates(v) implies still_to_read(
            text@,
            pos as int,
            block_pieces(v),
            0,
        ) by {
            lemma_nothing_read(text@, pos as int, block_pieces(v));
        }
    }
    let (cur, r) = literal_piece(text, pos, "{\"index\":", r, Ghost(candidates))?;
    let (index, cur, r) = number_piece(
        text,
        cur,
        r,
        Ghost(candidates),
        Ghost(|v: BlockView| v.index),
    )?;
    let (cur, r) = literal_piece(text, cur, ",\"timestamp\":", r, Ghost(candidates))?;
    let (timestamp, cur, r) = signed_piece(
        text,
        cur,
        r,
        Ghost(candidates),
        Ghost(|v: BlockView| v.timestamp),
    )?;
    let (cur, r) = literal_piece(text, cur, ",\"transactions\":", r, Ghost(candidates))?;
    let (transactions, cur, r) = transactions_piece(
        text,
        cur,
        r,
        Ghost(candidates),
        Ghost(|v: BlockView| v.transactions),
    )?;
    let (cur, r) = literal_piece(text, cur, ",\"previous_hash\":", r, Ghost(candidates))?;
    let (previous_hash, cur, r) = string_piece(
        text,
        cur,
        r,
        Ghost(candidates),
        Ghost(|v: BlockView| v.previous_hash),
    )?;
    let (cur, r) = literal_piece(text, cur, ",\"hash\":", r, Ghost(candidates))?;
    let (hash, cur, r) = string_piece(
        text,
        cur,
        r,
        Ghost(candidates),
        Ghost(|v: BlockView| v.hash),
    )?;
    let (cur, r) = literal_piece(text, cur, ",\"validator\":", r, Ghost(candidates))?;
    let (validator, cur, r) = string_piece(
        text,
        cur,
        r,
        Ghost(candidates),
        Ghost(|v: BlockView| v.validator),
    )?;
    let (cur, r) = literal_piece(text, cur, "}", r, Ghost(candidates))?;
    let block = Block { index, timestamp, transactions, previous_hash, hash, validator };
    assert(block_pieces(block@) =~= r@.done);
    Some((block, cur))
}

/// Reads the JSON object of a block at `pos`. Returns the block and the
/// position behind the object. What is returned is the one block whose
/// object stands at `pos`; where none does, nothing is returned.
pub fn read_block(text: &[char], pos: usize) -> (read: Option<(Block, usize)>)
    requires
        pos <= text@.len(),
    ensures
        read matches Some((block, end)) ==> has_at(text@, pos as int, block@.to_json()) && end
            == pos + block@.to_json().len(),
        forall|v: BlockView|
            has_at(text@, pos as int, #[trigger] v.to_json()) ==> (read matches Some(
                (block, end),
            ) && block@ == v),
{
    let ghost candidates = |v: BlockView| has_at(text@, pos as int, v.to_json());
    proof {
        assert forall|v: BlockView| #[trigger] candidates(v) implies has_at(
            text@,
            pos as int,
            joined(block_pieces(v)),
        ) by {
            lemma_block_pieces(v);
        }
    }
    let read = read_block_pieces(text, pos, Ghost(candidates));
    proof {
        reveal(read_so_far);
        if read is Some {
            lemma_block_pieces(read.unwrap().0@);
        }
        assert forall|v: BlockView|
            has_at(text@, pos as int, #[trigger] v.to_json()) implies candidates(v) by {}
    }
    read
}

impl Wire for Block {
    open spec fn encoding(value: BlockView) -> Seq<char> {
        value.to_json()
    }

    proof fn lemma_encoding_opens(value: BlockView) {
        reveal_strlit("{\"index\":");
        lemma_block_pieces(value);
        lemma_first_piece(block_pieces(value), 0);
    }

    fn read_at(text: &[char], pos: usize) -> (read: Option<(Self, usize)>) {
        read_block(text, pos)
    }
}

/// The JSON array of blocks is the array of their objects.
pub proof fn lemma_chain_list(blocks: Seq<BlockView>)
    ensures
        chain_json(blocks) == list_encoding::<Block>(blocks),
{
    assert(blocks.map_values(|b: BlockView| b.to_json()) =~= encodings::<Block>(blocks));
}

/// A piece that stands at the start of a text and fills it is the text.
pub proof fn lemma_whole_text(text: Seq<char>, piece: Seq<char>)
    ensures
        has_at(text, 0, piece) && piece.len() == text.len() <==> piece == text,
{
    assert(text.subrange(0, text.len() as int) =~= text);
}

/// The transaction whose canonical JSON object `text` is, if it is one.
pub open spec fn transaction_of(text: Seq<char>) -> Option<TransactionView> {
    if exists|v: TransactionView| v.to_json() == text {
        Some(choose|v: TransactionView| v.to_json() == text)
    } else {
        None
    }
}

/// The block whose canonical JSON object `text` is, if it is one.
pub open spec fn block_of(text: Seq<char>) -> Option<BlockView> {
    if exists|v: BlockView| v.to_json() == text {
        Some(choose|v: BlockView| v.to_json() == text)
    } else {
        None
    }
}

/// The chain whose canonical JSON array `text` is, if it is one.
pub open spec fn chain_of(text: Seq<char>) -> Option<Seq<BlockView>> {
    if exists|vs: Seq<BlockView>| chain_json(vs) == text {
        Some(choose|vs: Seq<BlockView>| chain_json(vs) == text)
    } else {
        None
    }
}

/// Decodes a transaction. The text decodes exactly when it is the canonical
/// JSON object of a transaction, and then to that transaction: no other
/// has the same object.
pub fn decode_transaction(text: &str) -> (decoded: Option<Transaction>)
    ensures
        decoded matches Some(tx) ==> transaction_of(text@) == Some(tx@) && tx@.to_json() == text@,
        decoded is None ==> transaction_of(text@) is None,
        forall|v: TransactionView|
            #[trigger] v.to_json() == text@ ==> (decoded matches Some(tx) && tx@ == v),
{
    let chars = chars_of(text);
    let read = read_transaction(chars.as_slice(), 0);
    proof {
        assert forall|v: TransactionView| #[trigger] v.to_json() == text@ implies has_at(
            chars@,
            0,
            v.to_json(),
        ) by {
            lemma_whole_text(chars@, v.to_json());
        }
    }
    match read {
        Some((tx, end)) => {
            proof {
                lemma_whole_text(chars@, tx@.to_json());
            }
            if end == chars.len() {
                Some(tx)
            } else {
                None
            }
        },
        None => None,
    }
}

/// Decodes a block. The text decodes exactly when it is the canonical JSON
/// object of a block, and then to that block: no other has the same object.
pub fn decode_block(text: &str) -> (decoded: Option<Block>)
    ensures
        decoded matches Some(block) ==> block_of(text@) == Some(block@) && block@.to_json()
            == text@,
        decoded is None ==> block_of(text@) is None,
        forall|v: BlockView|
            #[trigger] v.to_json() == text@ ==> (decoded matches Some(block) && block@ == v),
{
    let chars = chars_of(text);
    let read = read_block(chars.as_slice(), 0);
    proof {
        assert forall|v: BlockView| #[trigger] v.to_json() == text@ implies has_at(
            chars@,
            0,
            v.to_json(),
        ) by {
            lemma_whole_text(chars@, v.to_json());
        }
    }
    match read {
        Some((block, end)) => {
            proof {
                lemma_whole_text(chars@, block@.to_json());
            }
            if end == chars.len() {
                Some(block)
            } else {
                None
            }
        },
        None => None,
    }
}

/// Decodes a chain. The text decodes exactly when it is the canonical JSON
/// array of a sequence of blocks, and then to that sequence: no other has
/// the same array.
pub fn decode_chain(text: &str) -> (decoded: Option<Vec<Block>>)
    ensures
        decoded matches Some(chain) ==> chain_of(text@) == Some(block_views(chain@)) && chain_json(
            block_views(chain@),
        ) == text@,
        decoded is None ==> chain_of(text@) is None,
        forall|vs: Seq<BlockView>|
            #[trigger] chain_json(vs) == text@ ==> (decoded matches Some(chain) && block_views(
                chain@,
            ) == vs),
{
    let chars = chars_of(text);
    let read = read_list::<Block>(chars.as_slice(), 0);
    proof {
        assert forall|vs: Seq<BlockView>| #[trigger] chain_json(vs) == text@ implies has_at(
            chars@,
            0,
            list_encoding::<Block>(vs),
        ) by {
            lemma_chain_list(vs);
            lemma_whole_text(chars@, chain_json(vs));
        }
    }
    match read {
        Some((chain, end)) => {
            proof {
                lemma_chain_list(block_views(chain@));
                lemma_whole_text(chars@, chain_json(block_views(chain@)));
            }
            if end == chars.len() {
                Some(chain)
            } else {
                None
            }
        },
        None => None,
    }
}

} // verus!
