//! Value-transfer records and their canonical byte encoding.
//!
//! An encoded transaction is the sender's length as eight big-endian bytes,
//! the sender, the recipient's length in the same form, the recipient, and
//! the value as eight big-endian bytes.
use vstd::prelude::*;
use crate::bytes::{
    be_bytes, be_value, copy_range, extend_bytes, lemma_be_canonical, lemma_be_round_trip,
    lemma_be_value_bound, lemma_pow256_eight,
    push_be, read_be,
};

verus! {

/// Why a byte string is not an encoded transaction.
#[derive(Debug, Clone, Copy, PartialEq, Eq, Structural)]
pub enum DecodeError {
    /// The string ends before the layout it announces is complete.
    Truncated,
    /// The string goes on after a complete transaction.
    TrailingBytes,
}

/// A transfer of `value` from `sender_address` to `recipient_address`.
#[derive(Debug)]
pub struct Transaction {
    pub sender_address: Vec<u8>,
    pub recipient_address: Vec<u8>,
    pub value: u64,
}

/// The canonical encoding of a transaction with these fields.
pub open spec fn encode_spec(sender: Seq<u8>, recipient: Seq<u8>, value: u64) -> Seq<u8> {
    be_bytes(sender.len(), 8) + sender + be_bytes(recipient.len(), 8) + recipient + be_bytes(
        value as nat,
        8,
    )
}

/// What a byte string decodes to: the sender, the recipient and the value,
/// or why it is no encoded transaction.
pub open spec fn parse_spec(b: Seq<u8>) -> Result<(Seq<u8>, Seq<u8>, u64), DecodeError> {
    if b.len() < 8 {
        Err(DecodeError::Truncated)
    } else {
        let ls = be_value(b.subrange(0, 8)) as int;
        if b.len() < 16 + ls {
            Err(DecodeError::Truncated)
        } else {
            let lr = be_value(b.subrange(8 + ls, 16 + ls)) as int;
            if b.len() < 24 + ls + lr {
                Err(DecodeError::Truncated)
            } else if b.len() > 24 + ls + lr {
                Err(DecodeError::TrailingBytes)
            } else {
                Ok(
                    (
                        b.subrange(8, 8 + ls),
                        b.subrange(16 + ls, 16 + ls + lr),
                        be_value(b.subrange(16 + ls + lr, 24 + ls + lr)) as u64,
                    ),
                )
            }
        }
    }
}

/// `r` is what decoding `b` yields: the fields that `b` holds, or the error
/// that explains why it holds none.
pub open spec fn decodes_as(b: Seq<u8>, r: Result<Transaction, DecodeError>) -> bool {
    match parse_spec(b) {
        Ok((s, rc, v)) => match r {
            Ok(t) => t.sender_address@ == s && t.recipient_address@ == rc && t.value == v,
            Err(_) => false,
        },
        Err(e) => r == Err::<Transaction, DecodeError>(e),
    }
}

/// Types with a byte encoding and a decoding back into `T`.
pub trait Serialization<T>: Sized {
    /// The bytes that `serialization` produces.
    spec fn encoding(&self) -> Seq<u8>;

    /// Whether `r` is what `deserialization` yields on `bytes`.
    spec fn decoding(bytes: Seq<u8>, r: Result<T, DecodeError>) -> bool;

    fn serialization(&self) -> (r: Vec<u8>)
        ensures
            r@ == self.encoding(),
    ;

    fn deserialization(bytes: &Vec<u8>) -> (r: Result<T, DecodeError>)
        ensures
            Self::decoding(bytes@, r),
    ;
}

impl Transaction {
    pub fn new(sender_address: Vec<u8>, recipient_address: Vec<u8>, value: u64) -> (r: Self)
        ensures
            r.sender_address@ == sender_address@,
            r.recipient_address@ == recipient_address@,
            r.value == value,
    {
        Transaction { sender_address, recipient_address, value }
    }

    /// The canonical encoding of this transaction.
    pub open spec fn encoded(&self) -> Seq<u8> {
        encode_spec(self.sender_address@, self.recipient_address@, self.value)
    }

    pub fn encode(&self) -> (r: Vec<u8>)
        ensures
            r@ == self.encoded(),
    {
        let mut out: Vec<u8> = Vec::new();
        push_be(&mut out, self.sender_address.len() as u128, 8);
        extend_bytes(&mut out, &self.sender_address);
        push_be(&mut out, self.recipient_address.len() as u128, 8);
        extend_bytes(&mut out, &self.recipient_address);
        push_be(&mut out, self.value as u128, 8);
        proof {
            assert(out@ =~= self.encoded());
        }
        out
    }

    pub fn decode(bytes: &Vec<u8>) -> (r: Result<Transaction, DecodeError>)
        ensures
            decodes_as(bytes@, r),
    {
        let len = bytes.len();
        if len < 8 {
            return Err(DecodeError::Truncated);
        }
        let ls = read_be(bytes, 0, 8);
        let rest = len - 8;
        if ls > rest as u64 || rest - (ls as usize) < 8 {
            return Err(DecodeError::Truncated);
        }
        let ls = ls as usize;
        let at_recipient = 16 + ls;
        let lr = read_be(bytes, 8 + ls, 8);
        let rest = len - at_recipient;
        if lr > rest as u64 || rest - (lr as usize) < 8 {
            return Err(DecodeError::Truncated);
        }
        let lr = lr as usize;
        if rest - lr > 8 {
            return Err(DecodeError::TrailingBytes);
        }
        let sender_address = copy_range(bytes, 8, 8 + ls);
        let recipient_address = copy_range(bytes, at_recipient, at_recipient + lr);
        let value = read_be(bytes, at_recipient + lr, 8);
        Ok(Transaction { sender_address, recipient_address, value })
    }
}

impl Serialization<Transaction> for Transaction {
    open spec fn encoding(&self) -> Seq<u8> {
        self.encoded()
    }

    open spec fn decoding(bytes: Seq<u8>, r: Result<Transaction, DecodeError>) -> bool {
        decodes_as(bytes, r)
    }

    fn serialization(&self) -> (r: Vec<u8>) {
        self.encode()
    }

    fn deserialization(bytes: &Vec<u8>) -> (r: Result<Transaction, DecodeError>) {
        Transaction::decode(bytes)
    }
}

/// Decoding the encoding of a transaction gives back its sender, recipient
/// and value, for every pair of addresses whose lengths fit in eight bytes.
pub proof fn lemma_decode_encode(sender: Seq<u8>, recipient: Seq<u8>, value: u64)
    requires
        sender.len() <= u64::MAX,
        recipient.len() <= u64::MAX,
    ensures
        parse_spec(encode_spec(sender, recipient, value)) == Ok::<(Seq<u8>, Seq<u8>, u64), DecodeError>(
            (sender, recipient, value),
        ),
{
    lemma_pow256_eight();
    lemma_be_round_trip(sender.len(), 8);
    lemma_be_round_trip(recipient.len(), 8);
    lemma_be_round_trip(value as nat, 8);
    let b = encode_spec(sender, recipient, value);
    let ls = sender.len() as int;
    let lr = recipient.len() as int;
    assert(b.subrange(0, 8) =~= be_bytes(sender.len(), 8));
    assert(b.subrange(8, 8 + ls) =~= sender);
    assert(b.subrange(8 + ls, 16 + ls) =~= be_bytes(recipient.len(), 8));
    assert(b.subrange(16 + ls, 16 + ls + lr) =~= recipient);
    assert(b.subrange(16 + ls + lr, 24 + ls + lr) =~= be_bytes(value as nat, 8));
}

/// Decoding is exact: bytes that decode are the canonical encoding of the
/// fields they decode to.
pub proof fn lemma_encode_decode(b: Seq<u8>)
    requires
        parse_spec(b) is Ok,
    ensures
        encode_spec(parse_spec(b)->Ok_0.0, parse_spec(b)->Ok_0.1, parse_spec(b)->Ok_0.2) == b,
{
    let ls = be_value(b.subrange(0, 8)) as int;
    let lr = be_value(b.subrange(8 + ls, 16 + ls)) as int;
    let vs = b.subrange(16 + ls + lr, 24 + ls + lr);
    lemma_be_canonical(b.subrange(0, 8));
    lemma_be_canonical(b.subrange(8 + ls, 16 + ls));
    lemma_be_canonical(vs);
    lemma_be_value_bound(vs);
    lemma_pow256_eight();
    let (s, r, v) = parse_spec(b)->Ok_0;
    assert(s.len() == ls);
    assert(r.len() == lr);
    assert(v as nat == be_value(vs));
    assert(encode_spec(s, r, v) =~= b);
}

/// Round trip: whatever decoding the encoding of `t` yields holds exactly the
/// sender, recipient and value of `t`.
pub proof fn lemma_round_trip(t: &Transaction, r: Result<Transaction, DecodeError>)
    requires
        t.sender_address@.len() <= u64::MAX,
        t.recipient_address@.len() <= u64::MAX,
        decodes_as(t.encoded(), r),
    ensures
        r is Ok,
        r->Ok_0.sender_address@ == t.sender_address@,
        r->Ok_0.recipient_address@ == t.recipient_address@,
        r->Ok_0.value == t.value,
{
    lemma_decode_encode(t.sender_address@, t.recipient_address@, t.value);
}

} // verus!
