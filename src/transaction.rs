use vstd::prelude::*;
use crate::encoding::{
    be_bytes, be_value, le_bytes, le_value, lemma_be_round_trip, lemma_le_round_trip,
    lemma_pow256_values, pow256, push_be, push_le, push_utf8, read_be, read_framed, read_le,
    take_framed,
};
use crate::error::LedgerError;
use vstd::utf8::encode_utf8;
use crate::outside::{random_id, sha256_hex, sha256_hex_of, unix_seconds_now};

verus! {

broadcast use vstd::string::to_string_from_display_ensures_for_str;

/// A transfer of `amount` from `from` to `to`. An empty `from` marks a
/// genesis issuance, which creates value rather than moving it.
#[derive(Debug)]
pub struct Transaction {
    pub id: u128,
    pub from: String,
    pub to: String,
    pub amount: u64,
    /// Whole seconds since the Unix epoch.
    pub timestamp: i64,
    /// Lowercase hex SHA-256 over the other fields.
    pub signature: String,
}

/// The bytes the signature digests: the id big-endian, the two addresses in
/// UTF-8, then amount and timestamp as little-endian 8-byte integers.
pub open spec fn signature_preimage(
    id: u128,
    from: Seq<char>,
    to: Seq<char>,
    amount: u64,
    timestamp: i64,
) -> Seq<u8> {
    be_bytes(id as nat, 16) + encode_utf8(from) + encode_utf8(to) + le_bytes(amount as nat, 8)
        + le_bytes((timestamp as u64) as nat, 8)
}

pub open spec fn signature_of(
    id: u128,
    from: Seq<char>,
    to: Seq<char>,
    amount: u64,
    timestamp: i64,
) -> Seq<char> {
    sha256_hex_of(signature_preimage(id, from, to, amount, timestamp))
}

/// A length-prefixed field: its byte count as a little-endian 8-byte
/// integer, then the bytes.
pub open spec fn framed(s: Seq<char>) -> Seq<u8> {
    le_bytes(encode_utf8(s).len(), 8) + encode_utf8(s)
}

/// The field values of a transaction: id, sender, receiver, amount,
/// timestamp, signature.
pub type TransactionFields = (u128, Seq<char>, Seq<char>, u64, i64, Seq<char>);

/// Reads the canonical byte form back into field values; `None` when the
/// bytes are not exactly one such record.
pub open spec fn parse_transaction(b: Seq<u8>) -> Option<TransactionFields> {
    if b.len() < 16 {
        None
    } else {
        match take_framed(b, 16) {
            None => None,
            Some((from, p1)) => match take_framed(b, p1) {
                None => None,
                Some((to, p2)) => if p2 + 16 > b.len() {
                    None
                } else {
                    match take_framed(b, p2 + 16) {
                        None => None,
                        Some((signature, p3)) => if p3 != b.len() {
                            None
                        } else {
                            Some(
                                (
                                    be_value(b.subrange(0, 16)) as u128,
                                    from,
                                    to,
                                    le_value(b.subrange(p2, p2 + 8)) as u64,
                                    (le_value(b.subrange(p2 + 8, p2 + 16)) as u64) as i64,
                                    signature,
                                ),
                            )
                        },
                    }
                },
            },
        }
    }
}

/// A string's UTF-8 form is short enough for its 8-byte length prefix.
pub open spec fn frameable(s: Seq<char>) -> bool {
    encode_utf8(s).len() < pow256(8)
}

pub open spec fn amount_reason() -> Seq<char> {
    "Amount must be greater than zero"@
}

pub open spec fn self_transfer_reason() -> Seq<char> {
    "Sender and receiver cannot be the same"@
}

pub open spec fn empty_receiver_reason() -> Seq<char> {
    "Receiver address cannot be empty"@
}

pub open spec fn signature_reason() -> Seq<char> {
    "Invalid transaction signature"@
}

impl Transaction {
    /// The signature recomputed from the other fields.
    pub open spec fn expected_signature(&self) -> Seq<char> {
        signature_of(self.id, self.from@, self.to@, self.amount, self.timestamp)
    }

    /// The first invariant the transaction breaks, as the reason reported
    /// for it; `None` when it is valid. An empty `from` is a genesis
    /// issuance and is accepted.
    pub open spec fn defect(&self) -> Option<Seq<char>> {
        if self.amount == 0 {
            Some(amount_reason())
        } else if self.from@ == self.to@ {
            Some(self_transfer_reason())
        } else if self.to@.len() == 0 {
            Some(empty_receiver_reason())
        } else if self.signature@ != self.expected_signature() {
            Some(signature_reason())
        } else {
            None
        }
    }

    pub open spec fn is_valid(&self) -> bool {
        self.defect() is None
    }

    /// The canonical byte form of the whole record, signature included.
    pub open spec fn canonical_bytes(&self) -> Seq<u8> {
        be_bytes(self.id as nat, 16) + framed(self.from@) + framed(self.to@) + le_bytes(
            self.amount as nat,
            8,
        ) + le_bytes((self.timestamp as u64) as nat, 8) + framed(self.signature@)
    }

    pub open spec fn fields(&self) -> TransactionFields {
        (self.id, self.from@, self.to@, self.amount, self.timestamp, self.signature@)
    }

    /// The content digest of the record.
    pub open spec fn spec_hash(&self) -> Seq<char> {
        sha256_hex_of(self.canonical_bytes())
    }

    /// A new transfer with a fresh random id, the current time and the
    /// signature over them.
    pub fn new(from: String, to: String, amount: u64) -> (r: Transaction)
        ensures
            r.from@ == from@,
            r.to@ == to@,
            r.amount == amount,
            r.signature@ == r.expected_signature(),
            r.signature@.len() == 64,
    {
        let id = random_id();
        let timestamp = unix_seconds_now();
        Transaction::with_fields(id, from, to, amount, timestamp)
    }

    /// A transfer with the given id and timestamp, signed over them.
    pub fn with_fields(id: u128, from: String, to: String, amount: u64, timestamp: i64) -> (r:
        Transaction)
        ensures
            r.id == id,
            r.from@ == from@,
            r.to@ == to@,
            r.amount == amount,
            r.timestamp == timestamp,
            r.signature@ == r.expected_signature(),
            r.signature@.len() == 64,
    {
        let signature = Transaction::calculate_signature(id, from.as_str(), to.as_str(), amount, timestamp);
        Transaction { id, from, to, amount, timestamp, signature }
    }

    /// The hex digest of the signature preimage.
    pub fn calculate_signature(id: u128, from: &str, to: &str, amount: u64, timestamp: i64) -> (r:
        String)
        ensures
            r@ == signature_of(id, from@, to@, amount, timestamp),
            r@.len() == 64,
    {
        let mut data: Vec<u8> = Vec::new();
        push_be(&mut data, id, 16);
        push_utf8(&mut data, from);
        push_utf8(&mut data, to);
        push_le(&mut data, amount as u128, 8);
        push_le(&mut data, (timestamp as u64) as u128, 8);
        assert(data@ =~= signature_preimage(id, from@, to@, amount, timestamp));
        sha256_hex(data.as_slice())
    }

    /// Checks the invariants in order: positive amount, distinct addresses,
    /// non-empty receiver, matching signature.
    pub fn validate(&self) -> (r: Result<(), LedgerError>)
        ensures
            r is Ok <==> self.is_valid(),
            r is Err ==> (r->Err_0 matches LedgerError::InvalidTransaction(s) && self.defect()
                == Some(s@)),
    {
        if self.amount == 0 {
            return Err(LedgerError::InvalidTransaction("Amount must be greater than zero".to_string()));
        }
        if self.from == self.to {
            return Err(
                LedgerError::InvalidTransaction("Sender and receiver cannot be the same".to_string()),
            );
        }
        if self.to.as_str().is_empty() {
            return Err(LedgerError::InvalidTransaction("Receiver address cannot be empty".to_string()));
        }
        let expected = Transaction::calculate_signature(
            self.id,
            self.from.as_str(),
            self.to.as_str(),
            self.amount,
            self.timestamp,
        );
        if self.signature != expected {
            return Err(LedgerError::InvalidTransaction("Invalid transaction signature".to_string()));
        }
        Ok(())
    }

    /// The canonical byte form of the whole record.
    pub fn to_bytes(&self) -> (r: Vec<u8>)
        ensures
            r@ == self.canonical_bytes(),
    {
        let mut data: Vec<u8> = Vec::new();
        push_be(&mut data, self.id, 16);
        push_framed(&mut data, self.from.as_str());
        push_framed(&mut data, self.to.as_str());
        push_le(&mut data, self.amount as u128, 8);
        push_le(&mut data, (self.timestamp as u64) as u128, 8);
        push_framed(&mut data, self.signature.as_str());
        assert(data@ =~= self.canonical_bytes());
        data
    }

    /// Reads a transaction back from its canonical byte form.
    pub fn from_bytes(b: &[u8]) -> (r: Option<Transaction>)
        ensures
            r is None <==> parse_transaction(b@) is None,
            r is Some ==> r->Some_0.fields() == parse_transaction(b@)->Some_0,
    {
        if b.len() < 16 {
            return None;
        }
        let id = read_be(b, 0, 16);
        let (from, p1) = match read_framed(b, 16) {
            Some(x) => x,
            None => {
                return None;
            },
        };
        let (to, p2) = match read_framed(b, p1) {
            Some(x) => x,
            None => {
                return None;
            },
        };
        if p2 > b.len() - 16 {
            return None;
        }
        let amount = read_le(b, p2, 8) as u64;
        let timestamp = (read_le(b, p2 + 8, 8) as u64) as i64;
        let (signature, p3) = match read_framed(b, p2 + 16) {
            Some(x) => x,
            None => {
                return None;
            },
        };
        if p3 != b.len() {
            return None;
        }
        Some(Transaction { id: id as u128, from, to, amount, timestamp, signature })
    }

    /// The hex SHA-256 digest of the canonical byte form.
    pub fn hash(&self) -> (r: String)
        ensures
            r@ == self.spec_hash(),
            r@.len() == 64,
    {
        let data = self.to_bytes();
        sha256_hex(data.as_slice())
    }
}

impl Clone for Transaction {
    fn clone(&self) -> (r: Transaction)
        ensures
            r == *self,
    {
        Transaction {
            id: self.id,
            from: self.from.clone(),
            to: self.to.clone(),
            amount: self.amount,
            timestamp: self.timestamp,
            signature: self.signature.clone(),
        }
    }
}

/// The signature is a function of the other fields: two transactions that
/// agree on id, addresses, amount and timestamp, each signed over its own
/// fields, carry the same signature.
pub proof fn lemma_signature_determined_by_fields(t1: Transaction, t2: Transaction)
    requires
        t1.signature@ == t1.expected_signature(),
        t2.signature@ == t2.expected_signature(),
        t1.id == t2.id,
        t1.from@ == t2.from@,
        t1.to@ == t2.to@,
        t1.amount == t2.amount,
        t1.timestamp == t2.timestamp,
    ensures
        t1.signature@ == t2.signature@,
{
}

/// Validity is a property of the field values alone: a copy that carries
/// the same id, addresses, amount, timestamp and signature, however it was
/// stored and read back, validates exactly as the original does.
pub proof fn lemma_validity_follows_fields(t1: Transaction, t2: Transaction)
    requires
        t1.id == t2.id,
        t1.from@ == t2.from@,
        t1.to@ == t2.to@,
        t1.amount == t2.amount,
        t1.timestamp == t2.timestamp,
        t1.signature@ == t2.signature@,
    ensures
        t1.defect() == t2.defect(),
        t1.spec_hash() == t2.spec_hash(),
{
}

/// A framed string is read back from the middle of any byte string.
pub proof fn lemma_take_framed(p: Seq<u8>, s: Seq<char>, q: Seq<u8>)
    requires
        frameable(s),
    ensures
        take_framed(p + framed(s) + q, p.len() as int) == Some((s, (p.len() + framed(s).len()) as int)),
{
    let b = p + framed(s) + q;
    let e = encode_utf8(s);
    let n = e.len();
    let at = p.len() as int;
    lemma_le_round_trip(n, 8);
    assert(b.subrange(at, at + 8) =~= le_bytes(n, 8));
    assert(b.subrange(at + 8, at + 8 + n) =~= e);
    vstd::utf8::encode_utf8_valid_utf8(s);
    vstd::utf8::encode_utf8_decode_utf8(s);
}

/// Writing a transaction in its canonical byte form and reading it back
/// gives the same field values.
pub proof fn lemma_transaction_round_trip(t: Transaction)
    requires
        frameable(t.from@),
        frameable(t.to@),
        frameable(t.signature@),
    ensures
        parse_transaction(t.canonical_bytes()) == Some(t.fields()),
{
    let b = t.canonical_bytes();
    let head = be_bytes(t.id as nat, 16);
    let amount = le_bytes(t.amount as nat, 8);
    let time = le_bytes((t.timestamp as u64) as nat, 8);
    lemma_pow256_values();
    lemma_be_round_trip(t.id as nat, 16);
    lemma_le_round_trip(t.amount as nat, 8);
    lemma_le_round_trip((t.timestamp as u64) as nat, 8);
    let p1: int = 16 + framed(t.from@).len() as int;
    let p2: int = p1 + framed(t.to@).len() as int;
    lemma_take_framed(head, t.from@, framed(t.to@) + amount + time + framed(t.signature@));
    assert(b =~= head + framed(t.from@) + (framed(t.to@) + amount + time + framed(t.signature@)));
    lemma_take_framed(head + framed(t.from@), t.to@, amount + time + framed(t.signature@));
    assert(b =~= (head + framed(t.from@)) + framed(t.to@) + (amount + time + framed(t.signature@)));
    lemma_take_framed(head + framed(t.from@) + framed(t.to@) + amount + time, t.signature@, Seq::empty());
    assert(b =~= (head + framed(t.from@) + framed(t.to@) + amount + time) + framed(t.signature@)
        + Seq::<u8>::empty());
    assert(b.subrange(0, 16) =~= head);
    assert(b.subrange(p2, p2 + 8) =~= amount);
    assert(b.subrange(p2 + 8, p2 + 16) =~= time);
    lemma_signed_bits_round_trip(t.timestamp);
}

proof fn lemma_signed_bits_round_trip(x: i64)
    ensures
        ((x as u64) as i64) == x,
{
    assert(((x as u64) as i64) == x) by (bit_vector);
}

/// A valid transaction written to bytes and read back is still valid.
pub proof fn lemma_round_trip_keeps_validity(t: Transaction, back: Transaction)
    requires
        frameable(t.from@),
        frameable(t.to@),
        frameable(t.signature@),
        t.is_valid(),
        parse_transaction(t.canonical_bytes()) == Some(back.fields()),
    ensures
        back.is_valid(),
{
    lemma_transaction_round_trip(t);
}

pub(crate) fn push_framed(out: &mut Vec<u8>, s: &str)
    ensures
        final(out)@ == old(out)@ + framed(s@),
{
    let ghost before = out@;
    let n = s.as_bytes().len();
    assert(n == encode_utf8(s@).len());
    push_le(out, n as u128, 8);
    push_utf8(out, s);
    assert(out@ =~= before + framed(s@));
}

} // verus!
