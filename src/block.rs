use vstd::prelude::*;
use crate::encoding::{
    be_bytes, be_value, le_bytes, le_value, lemma_be_round_trip, lemma_le_round_trip,
    lemma_pow256_values, pow256, push_be, push_bytes, push_le, push_utf8, read_be, read_framed,
    read_le,
    take_framed,
};
use crate::error::LedgerError;
use crate::outside::{random_id, sha256_hex, sha256_hex_of, unix_seconds_now};
use crate::transaction::{
    framed, frameable, lemma_take_framed, lemma_validity_follows_fields, push_framed, lemma_transaction_round_trip, parse_transaction, Transaction,
    TransactionFields,
};
use vstd::utf8::encode_utf8;
use vstd::slice::slice_subrange;

verus! {

broadcast use vstd::string::to_string_from_display_ensures_for_str;

/// An ordered batch of transactions bound to its predecessor by hash.
#[derive(Debug)]
pub struct Block {
    pub id: u128,
    /// The predecessor's hash; empty only for the genesis block.
    pub previous_hash: String,
    pub transactions: Vec<Transaction>,
    /// Whole seconds since the Unix epoch.
    pub timestamp: i64,
    pub nonce: u64,
    pub hash: String,
}

/// The UTF-8 bytes of each transaction's hash, in order.
pub open spec fn transaction_hash_bytes(txs: Seq<Transaction>) -> Seq<u8>
    decreases txs.len(),
{
    if txs.len() == 0 {
        Seq::empty()
    } else {
        transaction_hash_bytes(txs.drop_last()) + encode_utf8(txs.last().spec_hash())
    }
}

/// The bytes a block's hash digests: id big-endian, previous hash in UTF-8,
/// timestamp and nonce little-endian, then every transaction hash.
pub open spec fn block_preimage(
    id: u128,
    previous_hash: Seq<char>,
    timestamp: i64,
    nonce: u64,
    txs: Seq<Transaction>,
) -> Seq<u8> {
    be_bytes(id as nat, 16) + encode_utf8(previous_hash) + le_bytes((timestamp as u64) as nat, 8)
        + le_bytes(nonce as nat, 8) + transaction_hash_bytes(txs)
}

/// A transaction's canonical bytes behind their length as a little-endian
/// 8-byte integer.
#[verifier::opaque]
pub open spec fn framed_transaction(t: Transaction) -> Seq<u8> {
    le_bytes(t.canonical_bytes().len(), 8) + t.canonical_bytes()
}

/// The framed transactions, in order.
pub open spec fn transactions_bytes(txs: Seq<Transaction>) -> Seq<u8>
    decreases txs.len(),
{
    if txs.len() == 0 {
        Seq::empty()
    } else {
        framed_transaction(txs[0]) + transactions_bytes(txs.drop_first())
    }
}

/// The field values of each transaction, in order.
pub open spec fn fields_of(txs: Seq<Transaction>) -> Seq<TransactionFields> {
    txs.map_values(|t: Transaction| t.fields())
}

proof fn lemma_fields_of(txs: Seq<Transaction>)
    ensures
        fields_of(txs).len() == txs.len(),
        forall|i: int| 0 <= i < txs.len() ==> #[trigger] fields_of(txs)[i] == txs[i].fields(),
{
}

/// The field values of a block: id, previous hash, timestamp, nonce, hash
/// and the field values of each transaction.
pub type BlockFields = (u128, Seq<char>, i64, u64, Seq<char>, Seq<TransactionFields>);

/// Reads `count` framed transactions starting at `pos`; gives their field
/// values and the position after them.
pub open spec fn take_transactions(b: Seq<u8>, pos: int, count: nat) -> Option<
    (Seq<TransactionFields>, int),
>
    decreases count,
{
    if count == 0 {
        Some((Seq::empty(), pos))
    } else if pos < 0 || pos + 8 > b.len() {
        None
    } else {
        let n = le_value(b.subrange(pos, pos + 8));
        if pos + 8 + n > b.len() {
            None
        } else {
            match parse_transaction(b.subrange(pos + 8, pos + 8 + n)) {
                None => None,
                Some(f) => match take_transactions(b, pos + 8 + n, (count - 1) as nat) {
                    None => None,
                    Some((rest, end)) => Some((seq![f] + rest, end)),
                },
            }
        }
    }
}

/// Reads the canonical byte form of a block back into field values; `None`
/// when the bytes are not exactly one such record.
pub open spec fn parse_block(b: Seq<u8>) -> Option<BlockFields> {
    if b.len() < 16 {
        None
    } else {
        match take_framed(b, 16) {
            None => None,
            Some((previous_hash, p1)) => if p1 + 16 > b.len() {
                None
            } else {
                match take_framed(b, p1 + 16) {
                    None => None,
                    Some((hash, p2)) => if p2 + 8 > b.len() {
                        None
                    } else {
                        let count = le_value(b.subrange(p2, p2 + 8));
                        match take_transactions(b, p2 + 8, count) {
                            None => None,
                            Some((txs, end)) => if end != b.len() {
                                None
                            } else {
                                Some(
                                    (
                                        be_value(b.subrange(0, 16)) as u128,
                                        previous_hash,
                                        (le_value(b.subrange(p1, p1 + 8)) as u64) as i64,
                                        le_value(b.subrange(p1 + 8, p1 + 16)) as u64,
                                        hash,
                                        txs,
                                    ),
                                )
                            },
                        }
                    },
                }
            },
        }
    }
}

/// Every string of the transaction fits its length prefix, and so does its
/// whole canonical form.
pub open spec fn transaction_frameable(t: Transaction) -> bool {
    &&& frameable(t.from@)
    &&& frameable(t.to@)
    &&& frameable(t.signature@)
    &&& t.canonical_bytes().len() < pow256(8)
}

/// Appending a transaction appends its framed bytes.
pub proof fn lemma_transactions_bytes_push(s: Seq<Transaction>, t: Transaction)
    ensures
        transactions_bytes(s.push(t)) == transactions_bytes(s) + framed_transaction(t),
    decreases s.len(),
{
    let st = s.push(t);
    if s.len() == 0 {
        assert(st.drop_first() =~= Seq::<Transaction>::empty());
        assert(transactions_bytes(st.drop_first()) == Seq::<u8>::empty());
        assert(transactions_bytes(st) =~= framed_transaction(t));
        assert(transactions_bytes(s) == Seq::<u8>::empty());
        assert(transactions_bytes(st) =~= transactions_bytes(s) + framed_transaction(t));
    } else {
        let a = framed_transaction(s[0]);
        let rest = s.drop_first();
        lemma_transactions_bytes_push(rest, t);
        assert(st.drop_first() =~= rest.push(t));
        assert(st[0] == s[0]);
        assert(transactions_bytes(st) == a + (transactions_bytes(rest) + framed_transaction(t)));
        assert(transactions_bytes(s) == a + transactions_bytes(rest));
        assert(a + (transactions_bytes(rest) + framed_transaction(t)) =~= (a + transactions_bytes(
            rest,
        )) + framed_transaction(t));
    }
}

/// Framed transactions are read back, in order, from the middle of any
/// byte string.
#[verifier::spinoff_prover]
#[verifier::rlimit(60)]
pub proof fn lemma_take_transactions(p: Seq<u8>, txs: Seq<Transaction>, q: Seq<u8>)
    requires
        forall|i: int| 0 <= i < txs.len() ==> transaction_frameable(#[trigger] txs[i]),
    ensures
        take_transactions(p + transactions_bytes(txs) + q, p.len() as int, txs.len()) == Some(
            (
                fields_of(txs),
                (p.len() + transactions_bytes(txs).len()) as int,
            ),
        ),
    decreases txs.len(),
{
    let b = p + transactions_bytes(txs) + q;
    if txs.len() > 0 {
        let t = txs[0];
        assert(transaction_frameable(txs[0]));
        let c = t.canonical_bytes();
        let at = p.len() as int;
        lemma_le_round_trip(c.len(), 8);
        lemma_transaction_round_trip(t);
        let rest = txs.drop_first();
        reveal(framed_transaction);
        assert(framed_transaction(t) == le_bytes(c.len(), 8) + c);
        assert(transactions_bytes(txs) == framed_transaction(t) + transactions_bytes(rest));
        assert forall|i: int| 0 <= i < rest.len() implies transaction_frameable(#[trigger] rest[i]) by {
            assert(rest[i] == txs[i + 1]);
        }
        let p2 = p + framed_transaction(t);
        lemma_take_transactions(p2, rest, q);
        assert(b =~= p2 + transactions_bytes(rest) + q);
        assert(b.subrange(at, at + 8) =~= le_bytes(c.len(), 8));
        assert(le_value(b.subrange(at, at + 8)) == c.len());
        assert(b.subrange(at + 8, at + 8 + c.len()) =~= c);
        assert(parse_transaction(b.subrange(at + 8, at + 8 + c.len())) == Some(t.fields()));
        assert(p2.len() == at + 8 + c.len());
        assert(seq![t.fields()] + fields_of(rest) =~= fields_of(txs));
    } else {
        assert(fields_of(txs) =~= Seq::<TransactionFields>::empty());
    }
}

/// Writing a block in its canonical byte form and reading it back gives the
/// same field values, its transactions' included.
#[verifier::spinoff_prover]
#[verifier::rlimit(60)]
pub proof fn lemma_block_round_trip(blk: Block)
    requires
        frameable(blk.previous_hash@),
        frameable(blk.hash@),
        blk.transactions@.len() < pow256(8),
        forall|i: int|
            0 <= i < blk.transactions@.len() ==> transaction_frameable(#[trigger] blk.transactions@[i]),
    ensures
        parse_block(blk.canonical_bytes()) == Some(blk.fields()),
{
    let b = blk.canonical_bytes();
    let txs = blk.transactions@;
    let head = be_bytes(blk.id as nat, 16);
    let time = le_bytes((blk.timestamp as u64) as nat, 8);
    let nonce = le_bytes(blk.nonce as nat, 8);
    let count = le_bytes(txs.len(), 8);
    lemma_pow256_values();
    lemma_be_round_trip(blk.id as nat, 16);
    lemma_le_round_trip((blk.timestamp as u64) as nat, 8);
    lemma_le_round_trip(blk.nonce as nat, 8);
    lemma_le_round_trip(txs.len(), 8);
    let tail = time + nonce + framed(blk.hash@) + count + transactions_bytes(txs);
    lemma_take_framed(head, blk.previous_hash@, tail);
    assert(b =~= head + framed(blk.previous_hash@) + tail);
    let p1: int = 16 + framed(blk.previous_hash@).len() as int;
    let before_hash = head + framed(blk.previous_hash@) + time + nonce;
    lemma_take_framed(before_hash, blk.hash@, count + transactions_bytes(txs));
    assert(b =~= before_hash + framed(blk.hash@) + (count + transactions_bytes(txs)));
    let p2: int = p1 + 16 + framed(blk.hash@).len() as int;
    let before_txs = before_hash + framed(blk.hash@) + count;
    lemma_take_transactions(before_txs, txs, Seq::empty());
    assert(b =~= before_txs + transactions_bytes(txs) + Seq::<u8>::empty());
    assert(b.subrange(0, 16) =~= head);
    assert(b.subrange(p1, p1 + 8) =~= time);
    assert(b.subrange(p1 + 8, p1 + 16) =~= nonce);
    assert(b.subrange(p2, p2 + 8) =~= count);
    lemma_signed_bits_round_trip(blk.timestamp);
}

proof fn lemma_signed_bits_round_trip(x: i64)
    ensures
        ((x as u64) as i64) == x,
{
    assert(((x as u64) as i64) == x) by (bit_vector);
}

/// Transactions with the same field values hash to the same bytes.
proof fn lemma_hash_bytes_follow_fields(s1: Seq<Transaction>, s2: Seq<Transaction>)
    requires
        fields_of(s1) == fields_of(s2),
    ensures
        transaction_hash_bytes(s1) == transaction_hash_bytes(s2),
    decreases s1.len(),
{
    lemma_fields_of(s1);
    lemma_fields_of(s2);
    if s1.len() > 0 {
        let n = s1.len() - 1;
        assert(fields_of(s1)[n] == fields_of(s2)[n]);
        lemma_fields_of(s1.drop_last());
        lemma_fields_of(s2.drop_last());
        assert forall|i: int| 0 <= i < n implies fields_of(s1.drop_last())[i] == fields_of(
            s2.drop_last(),
        )[i] by {
            assert(fields_of(s1)[i] == fields_of(s2)[i]);
        }
        assert(fields_of(s1.drop_last()) =~= fields_of(s2.drop_last()));
        lemma_hash_bytes_follow_fields(s1.drop_last(), s2.drop_last());
    }
}

/// Where some transaction is invalid, there is a first one.
proof fn lemma_first_invalid_exists(b: Block, i: int)
    requires
        0 <= i < b.transactions@.len(),
        !b.transactions@[i].is_valid(),
    ensures
        exists|k: int| b.first_invalid(k),
    decreases i,
{
    if forall|j: int| 0 <= j < i ==> b.transactions@[j].is_valid() {
        assert(b.first_invalid(i));
    } else {
        let j = choose|j: int| 0 <= j < i && !b.transactions@[j].is_valid();
        lemma_first_invalid_exists(b, j);
    }
}

/// Validity against a predecessor is a property of the field values alone.
#[verifier::spinoff_prover]
#[verifier::rlimit(60)]
pub proof fn lemma_block_validity_follows_fields(
    written: Block,
    copy: Block,
    predecessor: Option<Seq<char>>,
)
    requires
        written.fields() == copy.fields(),
        written.defect(predecessor) is None,
    ensures
        copy.defect(predecessor) is None,
{
    let s1 = written.transactions@;
    let s2 = copy.transactions@;
    assert(fields_of(s1) == fields_of(s2));
    lemma_fields_of(s1);
    lemma_fields_of(s2);
    lemma_hash_bytes_follow_fields(s1, s2);
    assert(copy.computed_hash() == written.computed_hash());
    assert(copy.hash_consistent());
    assert forall|i: int| 0 <= i < s2.len() implies #[trigger] s2[i].is_valid() by {
        assert(fields_of(s1)[i] == fields_of(s2)[i]);
        assert(s1[i].fields() == s2[i].fields());
        lemma_validity_follows_fields(s1[i], s2[i]);
        if !s1[i].is_valid() {
            lemma_first_invalid_exists(written, i);
        }
    }
    assert(!exists|i: int| copy.first_invalid(i));
}

/// A mined block that validates against its predecessor, written to bytes
/// and read back, still validates against that predecessor.
pub proof fn lemma_block_round_trip_keeps_validity(
    written: Block,
    back: Block,
    predecessor: Option<Seq<char>>,
)
    requires
        frameable(written.previous_hash@),
        frameable(written.hash@),
        written.transactions@.len() < pow256(8),
        forall|i: int|
            0 <= i < written.transactions@.len() ==> transaction_frameable(
                #[trigger] written.transactions@[i],
            ),
        written.defect(predecessor) is None,
        parse_block(written.canonical_bytes()) == Some(back.fields()),
    ensures
        back.defect(predecessor) is None,
{
    lemma_block_round_trip(written);
    lemma_block_validity_follows_fields(written, back, predecessor);
}

/// Reads `count` framed transactions starting at `start`.
fn read_transactions(b: &[u8], start: usize, count: u128) -> (r: Option<(Vec<Transaction>, usize)>)
    ensures
        r is None <==> take_transactions(b@, start as int, count as nat) is None,
        r is Some ==> fields_of(r->Some_0.0@) == take_transactions(
            b@,
            start as int,
            count as nat,
        )->Some_0.0 && r->Some_0.1 == take_transactions(b@, start as int, count as nat)->Some_0.1,
{
    let mut pos: usize = start;
    let mut transactions: Vec<Transaction> = Vec::new();
    let mut i: u128 = 0;
    assert(fields_of(transactions@) =~= Seq::<TransactionFields>::empty());
    while i < count
        invariant
            i <= count,
            take_transactions(b@, start as int, count as nat) == match take_transactions(
                b@,
                pos as int,
                (count - i) as nat,
            ) {
                Some((rest, end)) => Some(
                    (fields_of(transactions@) + rest, end),
                ),
                None => None,
            },
        decreases count - i,
    {
        let ghost before = transactions@;
        if b.len() < 8 || pos > b.len() - 8 {
            return None;
        }
        let n = read_le(b, pos, 8);
        let room = (b.len() - pos - 8) as u128;
        if n > room {
            return None;
        }
        let end = pos + 8 + n as usize;
        let tx = match Transaction::from_bytes(slice_subrange(b, pos + 8, end)) {
            Some(t) => t,
            None => {
                return None;
            },
        };
        transactions.push(tx);
        proof {
            assert(fields_of(transactions@) =~= fields_of(before) + seq![tx.fields()]);
            match take_transactions(b@, end as int, (count - i - 1) as nat) {
                Some((rest, e)) => {
                    assert(fields_of(before) + (seq![tx.fields()]
                        + rest) =~= fields_of(transactions@) + rest);
                },
                None => {},
            }
        }
        pos = end;
        i = i + 1;
    }
    proof {
        assert(fields_of(transactions@) + Seq::<TransactionFields>::empty()
            =~= fields_of(transactions@));
    }
    Some((transactions, pos))
}

/// `hash` starts with `difficulty` hex zeros.
pub open spec fn meets_difficulty(hash: Seq<char>, difficulty: nat) -> bool {
    difficulty <= hash.len() && forall|i: int| 0 <= i < difficulty ==> hash[i] == '0'
}

pub open spec fn hash_reason() -> Seq<char> {
    "Invalid block hash"@
}

pub open spec fn link_reason() -> Seq<char> {
    "Invalid previous hash"@
}

pub open spec fn genesis_link_reason() -> Seq<char> {
    "Genesis block should have empty previous hash"@
}

/// The hash of the predecessor, where there is one.
pub open spec fn predecessor_hash(previous: Option<&Block>) -> Option<Seq<char>> {
    match previous {
        Some(b) => Some(b.hash@),
        None => None,
    }
}

impl Clone for Block {
    fn clone(&self) -> (r: Block)
        ensures
            r.id == self.id,
            r.previous_hash == self.previous_hash,
            r.transactions@ == self.transactions@,
            r.timestamp == self.timestamp,
            r.nonce == self.nonce,
            r.hash == self.hash,
    {
        let mut transactions: Vec<Transaction> = Vec::new();
        let mut i: usize = 0;
        while i < self.transactions.len()
            invariant
                i <= self.transactions@.len(),
                transactions@ == self.transactions@.subrange(0, i as int),
            decreases self.transactions@.len() - i,
        {
            transactions.push(self.transactions[i].clone());
            i = i + 1;
            assert(transactions@ =~= self.transactions@.subrange(0, i as int));
        }
        assert(transactions@ =~= self.transactions@);
        Block {
            id: self.id,
            previous_hash: self.previous_hash.clone(),
            transactions,
            timestamp: self.timestamp,
            nonce: self.nonce,
            hash: self.hash.clone(),
        }
    }
}

impl Block {
    /// The digest of the block's fields with the given nonce.
    pub open spec fn digest_with_nonce(&self, nonce: u64) -> Seq<char> {
        sha256_hex_of(
            block_preimage(self.id, self.previous_hash@, self.timestamp, nonce, self.transactions@),
        )
    }

    /// The digest of the block's current fields.
    pub open spec fn computed_hash(&self) -> Seq<char> {
        self.digest_with_nonce(self.nonce)
    }

    pub open spec fn fields(&self) -> BlockFields {
        (
            self.id,
            self.previous_hash@,
            self.timestamp,
            self.nonce,
            self.hash@,
            fields_of(self.transactions@),
        )
    }

    /// The canonical byte form: id big-endian, previous hash framed,
    /// timestamp and nonce little-endian, hash framed, the transaction count
    /// little-endian, then each transaction framed.
    pub open spec fn canonical_bytes(&self) -> Seq<u8> {
        be_bytes(self.id as nat, 16) + framed(self.previous_hash@) + le_bytes(
            (self.timestamp as u64) as nat,
            8,
        ) + le_bytes(self.nonce as nat, 8) + framed(self.hash@) + le_bytes(
            self.transactions@.len(),
            8,
        ) + transactions_bytes(self.transactions@)
    }

    /// The block's hash matches its fields.
    pub open spec fn hash_consistent(&self) -> bool {
        self.hash@ == self.computed_hash()
    }

    /// Index of the first transaction that fails validation, if any.
    pub open spec fn first_invalid(&self, i: int) -> bool {
        0 <= i < self.transactions@.len() && !self.transactions@[i].is_valid() && forall|j: int|
            0 <= j < i ==> self.transactions@[j].is_valid()
    }

    /// The first structural defect of the block against the given
    /// predecessor, as the reported reason; `None` when it validates.
    pub open spec fn defect(&self, previous: Option<Seq<char>>) -> Option<Seq<char>> {
        if !self.hash_consistent() {
            Some(hash_reason())
        } else if previous is Some && self.previous_hash@ != previous->Some_0 {
            Some(link_reason())
        } else if previous is None && self.previous_hash@.len() != 0 {
            Some(genesis_link_reason())
        } else if exists|i: int| self.first_invalid(i) {
            let i = choose|i: int| self.first_invalid(i);
            self.transactions@[i].defect()
        } else {
            None
        }
    }

    /// A block over the given transactions with a fresh id, the current
    /// time, nonce zero and its hash computed (not yet mined).
    pub fn new(previous_hash: String, transactions: Vec<Transaction>) -> (r: Block)
        ensures
            r.previous_hash@ == previous_hash@,
            r.transactions@ == transactions@,
            r.nonce == 0,
            r.hash_consistent(),
            r.hash@.len() == 64,
    {
        let id = random_id();
        let timestamp = unix_seconds_now();
        Block::with_fields(id, previous_hash, transactions, timestamp)
    }

    /// A block with the given id and timestamp, nonce zero and its hash
    /// computed.
    pub fn with_fields(id: u128, previous_hash: String, transactions: Vec<Transaction>, timestamp: i64)
        -> (r: Block)
        ensures
            r.id == id,
            r.previous_hash@ == previous_hash@,
            r.transactions@ == transactions@,
            r.timestamp == timestamp,
            r.nonce == 0,
            r.hash_consistent(),
            r.hash@.len() == 64,
    {
        let mut block = Block {
            id,
            previous_hash,
            transactions,
            timestamp,
            nonce: 0,
            hash: String::new(),
        };
        block.hash = block.calculate_hash();
        block
    }

    /// The digest of the block's current fields.
    pub fn calculate_hash(&self) -> (r: String)
        ensures
            r@ == self.computed_hash(),
            r@.len() == 64,
    {
        let mut data: Vec<u8> = Vec::new();
        push_be(&mut data, self.id, 16);
        push_utf8(&mut data, self.previous_hash.as_str());
        push_le(&mut data, (self.timestamp as u64) as u128, 8);
        push_le(&mut data, self.nonce as u128, 8);
        let ghost header = data@;
        let mut i: usize = 0;
        while i < self.transactions.len()
            invariant
                i <= self.transactions@.len(),
                data@ == header + transaction_hash_bytes(self.transactions@.subrange(0, i as int)),
            decreases self.transactions@.len() - i,
        {
            let h = self.transactions[i].hash();
            push_utf8(&mut data, h.as_str());
            proof {
                let next = self.transactions@.subrange(0, i + 1);
                assert(next.drop_last() =~= self.transactions@.subrange(0, i as int));
            }
            i = i + 1;
        }
        assert(self.transactions@.subrange(0, i as int) =~= self.transactions@);
        assert(data@ =~= block_preimage(
            self.id,
            self.previous_hash@,
            self.timestamp,
            self.nonce,
            self.transactions@,
        ));
        sha256_hex(data.as_slice())
    }

    /// The canonical byte form of the block.
    pub fn to_bytes(&self) -> (r: Vec<u8>)
        ensures
            r@ == self.canonical_bytes(),
    {
        let mut data: Vec<u8> = Vec::new();
        push_be(&mut data, self.id, 16);
        push_framed(&mut data, self.previous_hash.as_str());
        push_le(&mut data, (self.timestamp as u64) as u128, 8);
        push_le(&mut data, self.nonce as u128, 8);
        push_framed(&mut data, self.hash.as_str());
        push_le(&mut data, self.transactions.len() as u128, 8);
        let ghost header = data@;
        let mut i: usize = 0;
        while i < self.transactions.len()
            invariant
                i <= self.transactions@.len(),
                data@ == header + transactions_bytes(self.transactions@.subrange(0, i as int)),
            decreases self.transactions@.len() - i,
        {
            let bytes = self.transactions[i].to_bytes();
            push_le(&mut data, bytes.len() as u128, 8);
            push_bytes(&mut data, bytes.as_slice());
            proof {
                reveal(framed_transaction);
                lemma_transactions_bytes_push(
                    self.transactions@.subrange(0, i as int),
                    self.transactions@[i as int],
                );
                assert(self.transactions@.subrange(0, i + 1) =~= self.transactions@.subrange(
                    0,
                    i as int,
                ).push(self.transactions@[i as int]));
            }
            i = i + 1;
        }
        assert(self.transactions@.subrange(0, i as int) =~= self.transactions@);
        assert(data@ =~= self.canonical_bytes());
        data
    }

    /// Reads a block back from its canonical byte form.
    pub fn from_bytes(b: &[u8]) -> (r: Option<Block>)
        ensures
            r is None <==> parse_block(b@) is None,
            r is Some ==> r->Some_0.fields() == parse_block(b@)->Some_0,
    {
        if b.len() < 16 {
            return None;
        }
        let id = read_be(b, 0, 16);
        let (previous_hash, p1) = match read_framed(b, 16) {
            Some(x) => x,
            None => {
                return None;
            },
        };
        if p1 > b.len() - 16 {
            return None;
        }
        let timestamp = (read_le(b, p1, 8) as u64) as i64;
        let nonce = read_le(b, p1 + 8, 8) as u64;
        let (hash, p2) = match read_framed(b, p1 + 16) {
            Some(x) => x,
            None => {
                return None;
            },
        };
        if p2 > b.len() - 8 {
            return None;
        }
        let count = read_le(b, p2, 8);
        let (transactions, end) = match read_transactions(b, p2 + 8, count) {
            Some(x) => x,
            None => {
                return None;
            },
        };
        if end != b.len() {
            return None;
        }
        Some(Block { id: id as u128, previous_hash, transactions, timestamp, nonce, hash })
    }

    /// Checks that the hash starts with `difficulty` hex zeros.
    pub fn meets_difficulty(&self, difficulty: usize) -> (r: bool)
        ensures
            r == meets_difficulty(self.hash@, difficulty as nat),
    {
        let len = self.hash.as_str().unicode_len();
        if difficulty > len {
            return false;
        }
        let mut i: usize = 0;
        while i < difficulty
            invariant
                difficulty <= len == self.hash@.len(),
                i <= difficulty,
                forall|j: int| 0 <= j < i ==> self.hash@[j] == '0',
            decreases difficulty - i,
        {
            if self.hash.as_str().get_char(i) != '0' {
                return false;
            }
            i = i + 1;
        }
        true
    }

    /// Raises the nonce one step at a time, recomputing the hash, until the
    /// hash starts with `difficulty` hex zeros; stops at the largest nonce.
    /// A hash that already qualifies is left as it is.
    pub fn mine(&mut self, difficulty: usize)
        ensures
            final(self).id == old(self).id,
            final(self).previous_hash@ == old(self).previous_hash@,
            final(self).transactions@ == old(self).transactions@,
            final(self).timestamp == old(self).timestamp,
            final(self).nonce >= old(self).nonce,
            meets_difficulty(old(self).hash@, difficulty as nat) ==> final(self).nonce == old(
                self,
            ).nonce && final(self).hash@ == old(self).hash@,
            final(self).nonce > old(self).nonce ==> final(self).hash_consistent(),
            final(self).nonce == old(self).nonce ==> final(self).hash@ == old(self).hash@,
            meets_difficulty(final(self).hash@, difficulty as nat) || final(self).nonce == u64::MAX,
            forall|n: u64|
                old(self).nonce < n < final(self).nonce ==> !meets_difficulty(
                    #[trigger] old(self).digest_with_nonce(n),
                    difficulty as nat,
                ),
    {
        let ghost start = *self;
        while !self.meets_difficulty(difficulty) && self.nonce < u64::MAX
            invariant
                self.id == start.id,
                self.previous_hash@ == start.previous_hash@,
                self.transactions@ == start.transactions@,
                self.timestamp == start.timestamp,
                self.nonce >= start.nonce,
                self.nonce == start.nonce ==> self.hash@ == start.hash@,
                meets_difficulty(start.hash@, difficulty as nat) ==> self.nonce == start.nonce,
                self.nonce > start.nonce ==> self.hash_consistent(),
                forall|n: u64|
                    start.nonce < n < self.nonce ==> !meets_difficulty(
                        #[trigger] start.digest_with_nonce(n),
                        difficulty as nat,
                    ),
            decreases u64::MAX - self.nonce,
        {
            proof {
                if self.nonce > start.nonce {
                    assert(self.computed_hash() == start.digest_with_nonce(self.nonce));
                }
            }
            self.nonce = self.nonce + 1;
            self.hash = self.calculate_hash();
        }
    }

    /// Checks, in order: the hash matches the fields; the previous hash
    /// names the predecessor's hash (or is empty where there is none);
    /// every transaction validates, a genesis issuance included.
    pub fn validate(&self, previous_block: Option<&Block>) -> (r: Result<(), LedgerError>)
        ensures
            r is Ok <==> self.defect(predecessor_hash(previous_block)) is None,
            r is Err ==> (r->Err_0 matches LedgerError::BlockValidationFailed(s) && self.defect(
                predecessor_hash(previous_block),
            ) == Some(s@)),
    {
        let computed = self.calculate_hash();
        if self.hash != computed {
            return Err(LedgerError::BlockValidationFailed("Invalid block hash".to_string()));
        }
        match previous_block {
            Some(prev) => {
                if self.previous_hash != prev.hash {
                    return Err(LedgerError::BlockValidationFailed("Invalid previous hash".to_string()));
                }
            },
            None => {
                if !self.previous_hash.as_str().is_empty() {
                    return Err(
                        LedgerError::BlockValidationFailed(
                            "Genesis block should have empty previous hash".to_string(),
                        ),
                    );
                }
            },
        }
        let mut i: usize = 0;
        while i < self.transactions.len()
            invariant
                i <= self.transactions@.len(),
                forall|j: int| 0 <= j < i ==> self.transactions@[j].is_valid(),
                self.hash_consistent(),
                predecessor_hash(previous_block) is Some ==> self.previous_hash@ == predecessor_hash(
                    previous_block,
                )->Some_0,
                predecessor_hash(previous_block) is None ==> self.previous_hash@.len() == 0,
            decreases self.transactions@.len() - i,
        {
            match self.transactions[i].validate() {
                Ok(()) => {},
                Err(e) => {
                    proof {
                        assert(self.first_invalid(i as int));
                        let k = choose|k: int| self.first_invalid(k);
                        if k < i {
                            assert(self.transactions@[k].is_valid());
                        }
                        if k > i {
                            assert(self.transactions@[i as int].is_valid());
                        }
                    }
                    let reason = match e {
                        LedgerError::InvalidTransaction(s) => s,
                        _ => String::new(),
                    };
                    return Err(LedgerError::BlockValidationFailed(reason));
                },
            }
            i = i + 1;
        }
        proof {
            if exists|k: int| self.first_invalid(k) {
                let k = choose|k: int| self.first_invalid(k);
                assert(self.transactions@[k].is_valid());
            }
        }
        Ok(())
    }
}

} // verus!
