//! Balances, replayed from the transactions of a chain's blocks.
use vstd::arithmetic::div_mod::{lemma_fundamental_div_mod, lemma_fundamental_div_mod_converse};
use vstd::prelude::*;
use crate::block::BlockView;
use crate::transaction::{encode_spec, lemma_decode_encode, parse_spec};

verus! {

/// What one encoded transaction adds to the balance of `address`: its value
/// if `address` receives it, minus its value if `address` sends it. Bytes that
/// do not decode add nothing.
pub open spec fn transfer_effect(tx: Seq<u8>, address: Seq<u8>) -> int {
    match parse_spec(tx) {
        Ok((sender, recipient, value)) => (if recipient == address {
            value as int
        } else {
            0
        }) - (if sender == address {
            value as int
        } else {
            0
        }),
        Err(_) => 0,
    }
}

/// What a sequence of encoded transactions adds to the balance of `address`.
pub open spec fn transfers_effect(txs: Seq<Seq<u8>>, address: Seq<u8>) -> int
    decreases txs.len(),
{
    if txs.len() == 0 {
        0
    } else {
        transfers_effect(txs.drop_last(), address) + transfer_effect(txs.last(), address)
    }
}

/// The balance of `address`: the sum over every transaction of every block.
pub open spec fn balance(blocks: Seq<BlockView>, address: Seq<u8>) -> int
    decreases blocks.len(),
{
    if blocks.len() == 0 {
        0
    } else {
        balance(blocks.drop_last(), address) + transfers_effect(blocks.last().transactions, address)
    }
}

/// `x` as a signed 64-bit integer, wrapping modulo 2^64.
pub open spec fn wrap_i64(x: int) -> int {
    let m = x % 0x1_0000_0000_0000_0000;
    if m < 0x8000_0000_0000_0000 {
        m
    } else {
        m - 0x1_0000_0000_0000_0000
    }
}

proof fn lemma_mod_step(exact: int, acc: int, delta: int, next: int)
    requires
        acc == exact % 0x1_0000_0000_0000_0000,
        0 <= next < 0x1_0000_0000_0000_0000,
        next == acc + delta || next == acc + delta - 0x1_0000_0000_0000_0000 || next == acc
            + delta + 0x1_0000_0000_0000_0000,
    ensures
        next == (exact + delta) % 0x1_0000_0000_0000_0000,
{
    let m: int = 0x1_0000_0000_0000_0000;
    lemma_fundamental_div_mod(exact, m);
    let q = exact / m;
    assert(exact == m * q + acc);
    if next == acc + delta {
        lemma_fundamental_div_mod_converse(exact + delta, m, q, next);
    } else if next == acc + delta - m {
        lemma_fundamental_div_mod_converse(exact + delta, m, q + 1, next);
    } else {
        lemma_fundamental_div_mod_converse(exact + delta, m, q - 1, next);
    }
}

/// Adds `value` to `acc` modulo 2^64.
pub(crate) fn add_wrapping(acc: u64, value: u64, Ghost(exact): Ghost<int>) -> (r: u64)
    requires
        acc == exact % 0x1_0000_0000_0000_0000,
    ensures
        r == (exact + value) % 0x1_0000_0000_0000_0000,
{
    let r = if acc <= u64::MAX - value {
        acc + value
    } else {
        value - (u64::MAX - acc) - 1
    };
    proof {
        lemma_mod_step(exact, acc as int, value as int, r as int);
    }
    r
}

/// Subtracts `value` from `acc` modulo 2^64.
pub(crate) fn sub_wrapping(acc: u64, value: u64, Ghost(exact): Ghost<int>) -> (r: u64)
    requires
        acc == exact % 0x1_0000_0000_0000_0000,
    ensures
        r == (exact - value) % 0x1_0000_0000_0000_0000,
{
    let r = if acc >= value {
        acc - value
    } else {
        u64::MAX - (value - acc) + 1
    };
    proof {
        lemma_mod_step(exact, acc as int, -(value as int), r as int);
    }
    r
}

proof fn lemma_transfer_effect(
    sender: Seq<u8>,
    recipient: Seq<u8>,
    value: u64,
    address: Seq<u8>,
)
    requires
        sender.len() <= u64::MAX,
        recipient.len() <= u64::MAX,
    ensures
        transfer_effect(encode_spec(sender, recipient, value), address) == (if recipient
            == address {
            value as int
        } else {
            0
        }) - (if sender == address {
            value as int
        } else {
            0
        }),
{
    lemma_decode_encode(sender, recipient, value);
}

/// Balance conservation: appending a block that holds a transfer of `v` from
/// `a` to `b` and a reward of `reward` from `minter` to `owner`, four distinct
/// addresses, raises the balance of `owner` by `reward` and that of `b` by
/// `v`, lowers that of `a` by `v`, and leaves every other address as it was.
pub proof fn lemma_balance_conservation(
    earlier: Seq<BlockView>,
    block: BlockView,
    minter: Seq<u8>,
    owner: Seq<u8>,
    reward: u64,
    a: Seq<u8>,
    b: Seq<u8>,
    v: u64,
    other: Seq<u8>,
)
    requires
        block.transactions == seq![encode_spec(a, b, v), encode_spec(minter, owner, reward)],
        minter.len() <= u64::MAX,
        owner.len() <= u64::MAX,
        a.len() <= u64::MAX,
        b.len() <= u64::MAX,
        minter != owner,
        minter != a,
        minter != b,
        owner != a,
        owner != b,
        a != b,
        other != minter,
        other != owner,
        other != a,
        other != b,
    ensures
        balance(earlier.push(block), owner) == balance(earlier, owner) + reward,
        balance(earlier.push(block), a) == balance(earlier, a) - v,
        balance(earlier.push(block), b) == balance(earlier, b) + v,
        balance(earlier.push(block), other) == balance(earlier, other),
{
    let all = earlier.push(block);
    assert(all.drop_last() =~= earlier);
    let txs = block.transactions;
    assert(txs.drop_last() =~= seq![encode_spec(a, b, v)]);
    assert(txs.drop_last().drop_last() =~= Seq::<Seq<u8>>::empty());
    assert forall|x: Seq<u8>| true implies transfers_effect(txs, x) == transfer_effect(
        encode_spec(a, b, v),
        x,
    ) + transfer_effect(encode_spec(minter, owner, reward), x) by {
        assert(transfers_effect(txs.drop_last(), x) == transfers_effect(
            txs.drop_last().drop_last(),
            x,
        ) + transfer_effect(encode_spec(a, b, v), x));
    }
    lemma_transfer_effect(a, b, v, owner);
    lemma_transfer_effect(minter, owner, reward, owner);
    lemma_transfer_effect(a, b, v, a);
    lemma_transfer_effect(minter, owner, reward, a);
    lemma_transfer_effect(a, b, v, b);
    lemma_transfer_effect(minter, owner, reward, b);
    lemma_transfer_effect(a, b, v, other);
    lemma_transfer_effect(minter, owner, reward, other);
}

/// Reward credit: appending a block that holds only a reward of `reward`
/// from `minter` to `owner`, two distinct addresses, raises the balance of
/// `owner` by `reward`, lowers that of `minter` by `reward`, and leaves every
/// other address as it was.
pub proof fn lemma_reward_credit(
    earlier: Seq<BlockView>,
    block: BlockView,
    minter: Seq<u8>,
    owner: Seq<u8>,
    reward: u64,
    other: Seq<u8>,
)
    requires
        block.transactions == seq![encode_spec(minter, owner, reward)],
        minter.len() <= u64::MAX,
        owner.len() <= u64::MAX,
        minter != owner,
        other != minter,
        other != owner,
    ensures
        balance(earlier.push(block), owner) == balance(earlier, owner) + reward,
        balance(earlier.push(block), minter) == balance(earlier, minter) - reward,
        balance(earlier.push(block), other) == balance(earlier, other),
{
    let all = earlier.push(block);
    assert(all.drop_last() =~= earlier);
    let txs = block.transactions;
    assert(txs.drop_last() =~= Seq::<Seq<u8>>::empty());
    assert forall|x: Seq<u8>| true implies transfers_effect(txs, x) == transfer_effect(
        encode_spec(minter, owner, reward),
        x,
    ) by {
        assert(transfers_effect(txs.drop_last(), x) == 0);
    }
    lemma_transfer_effect(minter, owner, reward, owner);
    lemma_transfer_effect(minter, owner, reward, minter);
    lemma_transfer_effect(minter, owner, reward, other);
}

} // verus!
