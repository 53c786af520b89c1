//! Blocks: encoded transactions plus the metadata that links them into a
//! chain, and the digest that seals them.
use vstd::prelude::*;
use crate::bytes::{be_bytes, bytes_equal, extend_bytes, push_be};
use crate::hashing::{hex_encode, hex_of, sha256, sha256_of, wall_clock_nanos};

verus! {

/// A block of encoded transactions.
#[derive(Debug)]
pub struct Block {
    pub nonce: i32,
    pub previous_hash: Vec<u8>,
    pub time_stamp: u128,
    pub transactions: Vec<Vec<u8>>,
}

/// The content of a block, as plain values.
pub ghost struct BlockView {
    pub nonce: i32,
    pub previous_hash: Seq<u8>,
    pub time_stamp: u128,
    pub transactions: Seq<Seq<u8>>,
}

impl View for Block {
    type V = BlockView;

    open spec fn view(&self) -> BlockView {
        BlockView {
            nonce: self.nonce,
            previous_hash: self.previous_hash@,
            time_stamp: self.time_stamp,
            transactions: self.transactions@.map_values(|t: Vec<u8>| t@),
        }
    }
}

/// The byte strings of `s`, one after another.
pub open spec fn concat_bytes(s: Seq<Seq<u8>>) -> Seq<u8>
    decreases s.len(),
{
    if s.len() == 0 {
        Seq::empty()
    } else {
        concat_bytes(s.drop_last()) + s.last()
    }
}

/// The nonce as the four bytes of its two's-complement form.
pub open spec fn nonce_bits(nonce: i32) -> nat {
    if nonce >= 0 {
        nonce as nat
    } else {
        (nonce + 0x1_0000_0000) as nat
    }
}

/// `b` with its nonce set to `n`.
pub open spec fn with_nonce(b: BlockView, n: i32) -> BlockView {
    BlockView {
        nonce: n,
        previous_hash: b.previous_hash,
        time_stamp: b.time_stamp,
        transactions: b.transactions,
    }
}

/// The bytes that a block's digest is taken over: the nonce (4 bytes), the
/// previous hash, the time stamp (16 bytes), then every transaction in order.
pub open spec fn preimage(b: BlockView) -> Seq<u8> {
    be_bytes(nonce_bits(b.nonce), 4) + b.previous_hash + be_bytes(b.time_stamp as nat, 16)
        + concat_bytes(b.transactions)
}

/// The digest of a block.
pub open spec fn block_digest(b: BlockView) -> Seq<u8> {
    sha256_of(preimage(b))
}

/// Whether the first `n` characters of `hex` are all `'0'`.
pub open spec fn has_leading_zeros(hex: Seq<char>, n: nat) -> bool {
    &&& n <= hex.len()
    &&& forall|i: int| 0 <= i < n ==> hex[i] == '0'
}

/// Whether the hex form of a block's digest starts with `difficulty` zeros.
pub open spec fn meets_difficulty(b: BlockView, difficulty: nat) -> bool {
    has_leading_zeros(hex_of(block_digest(b)), difficulty)
}

/// Whether `hex` starts with `n` characters `'0'`.
pub fn starts_with_zeros(hex: &String, n: usize) -> (r: bool)
    ensures
        r == has_leading_zeros(hex@, n as nat),
{
    let s = hex.as_str();
    let len = s.unicode_len();
    if len < n {
        return false;
    }
    let mut i: usize = 0;
    while i < n
        invariant
            i <= n,
            n <= s@.len(),
            s@ == hex@,
            forall|k: int| 0 <= k < i ==> hex@[k] == '0',
        decreases n - i,
    {
        if s.get_char(i) != '0' {
            return false;
        }
        i = i + 1;
    }
    true
}

impl Block {
    /// A block with no transactions, stamped with the current time in
    /// nanoseconds since the Unix epoch; stamped 0 when the clock reads
    /// earlier than the epoch.
    pub fn new(nonce: i32, previous_hash: Vec<u8>) -> (r: Self)
        ensures
            r.nonce == nonce,
            r.previous_hash@ == previous_hash@,
            r.transactions@.len() == 0,
    {
        let time_stamp = match wall_clock_nanos() {
            Some(t) => t,
            None => 0,
        };
        Block::with_time_stamp(nonce, previous_hash, time_stamp)
    }

    /// A block with no transactions and the given time stamp.
    pub fn with_time_stamp(nonce: i32, previous_hash: Vec<u8>, time_stamp: u128) -> (r: Self)
        ensures
            r.nonce == nonce,
            r.previous_hash@ == previous_hash@,
            r.time_stamp == time_stamp,
            r.transactions@.len() == 0,
    {
        Block { nonce, previous_hash, time_stamp, transactions: Vec::new() }
    }

    /// The bytes that the digest is taken over.
    pub fn preimage_bytes(&self) -> (r: Vec<u8>)
        ensures
            r@ == preimage(self@),
    {
        let mut out: Vec<u8> = Vec::new();
        let bits: u128 = if self.nonce >= 0 {
            self.nonce as u128
        } else {
            (self.nonce as i64 + 0x1_0000_0000) as u128
        };
        push_be(&mut out, bits, 4);
        extend_bytes(&mut out, &self.previous_hash);
        push_be(&mut out, self.time_stamp, 16);
        let ghost head = out@;
        let ghost txs = self@.transactions;
        let mut i: usize = 0;
        while i < self.transactions.len()
            invariant
                i <= self.transactions@.len(),
                txs == self@.transactions,
                out@ == head + concat_bytes(txs.subrange(0, i as int)),
            decreases self.transactions@.len() - i,
        {
            extend_bytes(&mut out, &self.transactions[i]);
            i = i + 1;
            proof {
                let s = txs.subrange(0, i as int);
                assert(s.drop_last() =~= txs.subrange(0, i - 1));
                assert(out@ =~= head + concat_bytes(s));
            }
        }
        assert(txs.subrange(0, i as int) =~= txs);
        assert(out@ =~= preimage(self@));
        out
    }

    /// The digest of this block.
    pub fn hash(&self) -> (r: Vec<u8>)
        ensures
            r@ == block_digest(self@),
            r@.len() == 32,
    {
        let bytes = self.preimage_bytes();
        sha256(&bytes)
    }

    /// Content-addressed comparison: whether the two blocks have the same digest.
    pub fn same_content_as(&self, other: &Block) -> (r: bool)
        ensures
            r == (block_digest(self@) == block_digest(other@)),
    {
        let a = self.hash();
        let b = other.hash();
        bytes_equal(&a, &b)
    }

    /// Adds `delta` to the nonce, wrapping on overflow.
    pub fn increment_nonce(&mut self, delta: i32)
        ensures
            final(self).nonce == old(self).nonce.wrapping_add(delta),
            final(self).previous_hash == old(self).previous_hash,
            final(self).time_stamp == old(self).time_stamp,
            final(self).transactions == old(self).transactions,
    {
        self.nonce = self.nonce.wrapping_add(delta);
    }

    /// Whether the hex form of this block's digest starts with `difficulty` zeros.
    pub fn meets_difficulty(&self, difficulty: usize) -> (r: bool)
        ensures
            r == meets_difficulty(self@, difficulty as nat),
    {
        let digest = self.hash();
        let hex = hex_encode(&digest);
        starts_with_zeros(&hex, difficulty)
    }
}

} // verus!
