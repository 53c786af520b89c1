//! The chain engine: the ordered blocks, the pool of pending transactions,
//! mining and search.
use vstd::prelude::*;
use vstd::string::StrSliceExecFns;
use vstd::utf8::encode_utf8;
use crate::balance::{add_wrapping, balance, sub_wrapping, transfer_effect, transfers_effect, wrap_i64};
use crate::block::{block_digest, has_leading_zeros, meets_difficulty, with_nonce, Block, BlockView};
use crate::bytes::{bytes_equal, copy_range, zero_bytes};
use crate::hashing::hex_of;
use crate::transaction::{encode_spec, Serialization, Transaction};

verus! {

/// Leading zero hex digits that a sealed block's digest needs by default.
pub const DIFFICULTY: usize = 3;

/// The amount of each mining reward by default.
pub const MINING_REWARD: u64 = 1;

/// The sender that mining rewards come from by default: the chain itself.
pub const MINING_SENDER: &'static str = "THE BLOCKCHAIN";

/// The settings that a chain is built with.
#[derive(Debug)]
pub struct ChainConfig {
    /// Leading zero hex digits that a sealed block's digest needs.
    pub difficulty: usize,
    /// The amount that each mined block rewards the owner with.
    pub mining_reward: u64,
    /// The sender address of reward transactions.
    pub mining_sender: Vec<u8>,
}

impl ChainConfig {
    /// The default settings.
    pub fn standard() -> (r: Self)
        ensures
            r.difficulty == DIFFICULTY,
            r.mining_reward == MINING_REWARD,
            r.mining_sender@ == encode_utf8(MINING_SENDER@),
    {
        ChainConfig {
            difficulty: DIFFICULTY,
            mining_reward: MINING_REWARD,
            mining_sender: MINING_SENDER.as_bytes_vec(),
        }
    }
}

/// The previous hash of the genesis block: 32 zero bytes.
pub open spec fn genesis_previous_hash() -> Seq<u8> {
    Seq::new(32, |i: int| 0u8)
}

/// Whether `b` is a genesis block.
pub open spec fn is_genesis(b: BlockView) -> bool {
    &&& b.nonce == 0
    &&& b.previous_hash == genesis_previous_hash()
    &&& b.transactions.len() == 0
}

/// Each block after the first names the digest of the block before it.
pub open spec fn linked(blocks: Seq<BlockView>) -> bool {
    forall|i: int|
        1 <= i < blocks.len() ==> #[trigger] blocks[i].previous_hash == block_digest(blocks[i - 1])
}

/// Each block after the first meets the difficulty.
pub open spec fn sealed(blocks: Seq<BlockView>, difficulty: nat) -> bool {
    forall|i: int| 1 <= i < blocks.len() ==> #[trigger] meets_difficulty(blocks[i], difficulty)
}

/// No two entries of `pool` are equal.
pub open spec fn distinct(pool: Seq<Seq<u8>>) -> bool {
    forall|i: int, j: int| 0 <= i < j < pool.len() ==> pool[i] != pool[j]
}

/// A genesis block followed by linked blocks that meet the difficulty.
pub open spec fn valid_chain(blocks: Seq<BlockView>, difficulty: nat) -> bool {
    &&& blocks.len() >= 1
    &&& is_genesis(blocks[0])
    &&& linked(blocks)
    &&& sealed(blocks, difficulty)
}

/// The pool after offering `tx` to it: unchanged if it already holds `tx`,
/// else with `tx` at the end.
pub open spec fn pooled(pool: Seq<Seq<u8>>, tx: Seq<u8>) -> Seq<Seq<u8>> {
    if pool.contains(tx) {
        pool
    } else {
        pool.push(tx)
    }
}

/// A criterion to look a block up by.
#[derive(Debug)]
pub enum BlockSearch {
    SearchByIndex(usize),
    SearchByPreviousHash(Vec<u8>),
    SearchByBlockHash(Vec<u8>),
    SearchByNonce(i32),
    SearchByTimestamp(u128),
    SearchByTransaction(Vec<u8>),
}

/// A search criterion as plain values.
pub ghost enum SearchKey {
    Index(usize),
    PreviousHash(Seq<u8>),
    BlockHash(Seq<u8>),
    Nonce(i32),
    Timestamp(u128),
    Transaction(Seq<u8>),
}

impl View for BlockSearch {
    type V = SearchKey;

    open spec fn view(&self) -> SearchKey {
        match self {
            BlockSearch::SearchByIndex(i) => SearchKey::Index(*i),
            BlockSearch::SearchByPreviousHash(h) => SearchKey::PreviousHash(h@),
            BlockSearch::SearchByBlockHash(h) => SearchKey::BlockHash(h@),
            BlockSearch::SearchByNonce(n) => SearchKey::Nonce(*n),
            BlockSearch::SearchByTimestamp(t) => SearchKey::Timestamp(*t),
            BlockSearch::SearchByTransaction(tx) => SearchKey::Transaction(tx@),
        }
    }
}

/// The outcome of a search: the block found, or why none was, with the key
/// that was searched for.
#[derive(Debug)]
pub enum BlockSearchResult<'a> {
    Success(&'a Block),
    FailOfEmptyBlocks,
    FailOfIndex(usize),
    FailOfPreviousHash(Vec<u8>),
    FailOfBlockHash(Vec<u8>),
    FailOfNonce(i32),
    FailOfTimestamp(u128),
    FailOfTransaction(Vec<u8>),
}

/// Asking for the last block of a chain that has none.
#[derive(Debug, Clone, Copy, PartialEq, Eq, Structural)]
pub struct EmptyChainError;

/// Whether `b` meets a criterion that is searched for by value.
pub open spec fn block_matches(b: BlockView, s: SearchKey) -> bool {
    match s {
        SearchKey::Index(_) => false,
        SearchKey::PreviousHash(h) => b.previous_hash == h,
        SearchKey::BlockHash(h) => block_digest(b) == h,
        SearchKey::Nonce(n) => b.nonce == n,
        SearchKey::Timestamp(t) => b.time_stamp == t,
        SearchKey::Transaction(tx) => b.transactions.contains(tx),
    }
}

/// Whether `r` is the failure of criterion `s` that carries its key.
pub open spec fn fails_with_key<'a>(s: SearchKey, r: BlockSearchResult<'a>) -> bool {
    match r {
        BlockSearchResult::FailOfIndex(k) => s == SearchKey::Index(k),
        BlockSearchResult::FailOfPreviousHash(k) => s == SearchKey::PreviousHash(k@),
        BlockSearchResult::FailOfBlockHash(k) => s == SearchKey::BlockHash(k@),
        BlockSearchResult::FailOfNonce(k) => s == SearchKey::Nonce(k),
        BlockSearchResult::FailOfTimestamp(k) => s == SearchKey::Timestamp(k),
        BlockSearchResult::FailOfTransaction(k) => s == SearchKey::Transaction(k@),
        _ => false,
    }
}

/// Whether `r` is a success that holds the first of `blocks` meeting `s`.
pub open spec fn finds_first<'a>(blocks: Seq<BlockView>, s: SearchKey, r: BlockSearchResult<'a>) -> bool {
    match r {
        BlockSearchResult::Success(b) => exists|j: int|
            0 <= j < blocks.len() && b@ == blocks[j] && block_matches(blocks[j], s) && forall|k: int|
                0 <= k < j ==> !block_matches(#[trigger] blocks[k], s),
        _ => false,
    }
}

/// What searching `blocks` for `s` yields: on an empty chain the empty-chain
/// failure; by index the block at that index, or the index failure when it
/// is out of range; by value the first block that matches, or the failure
/// that carries the key when none does.
pub open spec fn search_outcome<'a>(blocks: Seq<BlockView>, s: SearchKey, r: BlockSearchResult<'a>) -> bool {
    if blocks.len() == 0 {
        r is FailOfEmptyBlocks
    } else {
        match s {
            SearchKey::Index(i) => if i < blocks.len() {
                match r {
                    BlockSearchResult::Success(b) => b@ == blocks[i as int],
                    _ => false,
                }
            } else {
                fails_with_key(s, r)
            },
            _ => if exists|j: int| 0 <= j < blocks.len() && #[trigger] block_matches(blocks[j], s) {
                finds_first(blocks, s, r)
            } else {
                fails_with_key(s, r)
            },
        }
    }
}

/// Whether `b` meets the by-value criterion `s`.
fn matches_criterion(b: &Block, s: &BlockSearch) -> (r: bool)
    ensures
        r == block_matches(b@, s@),
{
    match s {
        BlockSearch::SearchByIndex(_) => false,
        BlockSearch::SearchByPreviousHash(h) => bytes_equal(&b.previous_hash, h),
        BlockSearch::SearchByBlockHash(h) => {
            let digest = b.hash();
            bytes_equal(&digest, h)
        },
        BlockSearch::SearchByNonce(n) => b.nonce == *n,
        BlockSearch::SearchByTimestamp(t) => b.time_stamp == *t,
        BlockSearch::SearchByTransaction(tx) => {
            let ghost txs = b@.transactions;
            let mut i: usize = 0;
            while i < b.transactions.len()
                invariant
                    i <= b.transactions@.len(),
                    txs == b@.transactions,
                    block_matches(b@, s@) == txs.contains(tx@),
                    forall|k: int| 0 <= k < i ==> txs[k] != tx@,
                decreases b.transactions@.len() - i,
            {
                if bytes_equal(&b.transactions[i], tx) {
                    assert(txs[i as int] == tx@);
                    assert(txs.contains(tx@));
                    return true;
                }
                i = i + 1;
            }
            proof {
                if txs.contains(tx@) {
                    let k = choose|k: int| 0 <= k < txs.len() && txs[k] == tx@;
                    assert(txs[k] != tx@);
                }
            }
            false
        },
    }
}

/// Looks a block up in `blocks`: by index directly, by value with a scan
/// from the oldest block to the newest.
pub fn find_block<'a>(blocks: &'a Vec<Block>, search: BlockSearch) -> (r: BlockSearchResult<'a>)
    ensures
        search_outcome(blocks@.map_values(|b: Block| b@), search@, r),
{
    let ghost views = blocks@.map_values(|b: Block| b@);
    if blocks.len() == 0 {
        return BlockSearchResult::FailOfEmptyBlocks;
    }
    if let BlockSearch::SearchByIndex(index) = search {
        if index >= blocks.len() {
            return BlockSearchResult::FailOfIndex(index);
        }
        return BlockSearchResult::Success(&blocks[index]);
    }
    let mut j: usize = 0;
    while j < blocks.len()
        invariant
            j <= blocks@.len(),
            views == blocks@.map_values(|b: Block| b@),
            forall|k: int| 0 <= k < j ==> !block_matches(#[trigger] views[k], search@),
        decreases blocks@.len() - j,
    {
        if matches_criterion(&blocks[j], &search) {
            let r = BlockSearchResult::Success(&blocks[j]);
            assert(views[j as int] == blocks@[j as int]@);
            assert(block_matches(views[j as int], search@));
            assert(finds_first(views, search@, r));
            return r;
        }
        j = j + 1;
    }
    proof {
        if exists|k: int| 0 <= k < views.len() && #[trigger] block_matches(views[k], search@) {
            let k = choose|k: int| 0 <= k < views.len() && #[trigger] block_matches(views[k], search@);
            assert(!block_matches(views[k], search@));
        }
    }
    match search {
        BlockSearch::SearchByIndex(index) => BlockSearchResult::FailOfIndex(index),
        BlockSearch::SearchByPreviousHash(h) => BlockSearchResult::FailOfPreviousHash(h),
        BlockSearch::SearchByBlockHash(h) => BlockSearchResult::FailOfBlockHash(h),
        BlockSearch::SearchByNonce(n) => BlockSearchResult::FailOfNonce(n),
        BlockSearch::SearchByTimestamp(t) => BlockSearchResult::FailOfTimestamp(t),
        BlockSearch::SearchByTransaction(tx) => BlockSearchResult::FailOfTransaction(tx),
    }
}

/// Whether the nonce of `b` is the first, counting up from 0, at which `b`
/// meets the difficulty.
pub open spec fn first_sealing_nonce(b: BlockView, difficulty: nat) -> bool {
    &&& 0 <= b.nonce
    &&& meets_difficulty(b, difficulty)
    &&& forall|n: i32|
        0 <= n < b.nonce ==> !#[trigger] meets_difficulty(with_nonce(b, n), difficulty)
}

/// Whether no nonce from 0 up meets the difficulty for `b`.
pub open spec fn unsealable(b: BlockView, difficulty: nat) -> bool {
    forall|n: i32| 0 <= n ==> !#[trigger] meets_difficulty(with_nonce(b, n), difficulty)
}

/// Seeks a nonce for `block`, counting up from its own, until the hex form
/// of its digest starts with `difficulty` zeros; gives up when the nonce
/// reaches its largest value. Nothing but the nonce changes. The nonce found
/// is the first that meets the difficulty; on failure none from the start does.
fn proof_of_work(block: &mut Block, difficulty: usize) -> (r: bool)
    ensures
        final(block)@ == with_nonce(old(block)@, final(block).nonce),
        final(block).previous_hash@ == old(block).previous_hash@,
        final(block).time_stamp == old(block).time_stamp,
        final(block).transactions@ == old(block).transactions@,
        difficulty == 0 ==> r,
        r ==> meets_difficulty(final(block)@, difficulty as nat),
        r ==> old(block).nonce <= final(block).nonce,
        r ==> forall|n: i32|
            old(block).nonce <= n < final(block).nonce ==> !#[trigger] meets_difficulty(
                with_nonce(old(block)@, n),
                difficulty as nat,
            ),
        !r ==> forall|n: i32|
            old(block).nonce <= n ==> !#[trigger] meets_difficulty(
                with_nonce(old(block)@, n),
                difficulty as nat,
            ),
{
    loop
        invariant
            block.previous_hash@ == old(block).previous_hash@,
            block.time_stamp == old(block).time_stamp,
            block.transactions@ == old(block).transactions@,
            old(block).nonce <= block.nonce,
            forall|n: i32|
                old(block).nonce <= n < block.nonce ==> !#[trigger] meets_difficulty(
                    with_nonce(old(block)@, n),
                    difficulty as nat,
                ),
        decreases i32::MAX - block.nonce,
    {
        assert(block@ == with_nonce(old(block)@, block.nonce));
        if block.meets_difficulty(difficulty) {
            return true;
        }
        if block.nonce == i32::MAX {
            return false;
        }
        block.nonce = block.nonce + 1;
    }
}

/// The ordered blocks of a ledger, its pool of pending encoded transactions,
/// and the address that mining rewards go to.
#[derive(Debug)]
pub struct BlockChain {
    transaction_pool: Vec<Vec<u8>>,
    chain: Vec<Block>,
    blockchain_address: String,
    config: ChainConfig,
}

impl BlockChain {
    /// The blocks, oldest first.
    pub closed spec fn blocks(&self) -> Seq<BlockView> {
        self.chain@.map_values(|b: Block| b@)
    }

    /// The pending encoded transactions, in the order they were added.
    pub closed spec fn pool(&self) -> Seq<Seq<u8>> {
        self.transaction_pool@.map_values(|t: Vec<u8>| t@)
    }

    /// The bytes of the address that mining rewards go to.
    pub closed spec fn owner(&self) -> Seq<u8> {
        encode_utf8(self.blockchain_address@)
    }

    /// Leading zero hex digits that a sealed block's digest needs.
    pub closed spec fn difficulty(&self) -> nat {
        self.config.difficulty as nat
    }

    /// The amount of each mining reward.
    pub closed spec fn reward(&self) -> u64 {
        self.config.mining_reward
    }

    /// The sender of reward transactions.
    pub closed spec fn reward_sender(&self) -> Seq<u8> {
        self.config.mining_sender@
    }

    /// The encoded reward transaction that mining adds to the pool.
    pub open spec fn reward_transaction(&self) -> Seq<u8> {
        encode_spec(self.reward_sender(), self.owner(), self.reward())
    }

    /// The chain is valid and the pool holds no transaction twice.
    pub open spec fn wf(&self) -> bool {
        &&& valid_chain(self.blocks(), self.difficulty())
        &&& distinct(self.pool())
    }

    /// Both chains have the same owner and settings.
    pub open spec fn same_settings(&self, other: &BlockChain) -> bool {
        &&& self.owner() == other.owner()
        &&& self.difficulty() == other.difficulty()
        &&& self.reward() == other.reward()
        &&& self.reward_sender() == other.reward_sender()
    }

    /// A chain with the default settings whose rewards go to `address`: the
    /// genesis block, then the first mined block.
    pub fn new(address: String) -> (r: Self)
        ensures
            r.wf(),
            r.owner() == encode_utf8(address@),
            r.difficulty() == DIFFICULTY,
            r.reward() == MINING_REWARD,
            r.reward_sender() == encode_utf8(MINING_SENDER@),
            r.blocks().len() == 2 ==> r.blocks()[1].transactions == seq![r.reward_transaction()]
                && r.pool().len() == 0,
            r.blocks().len() == 1 ==> r.pool() == seq![r.reward_transaction()],
            r.blocks().len() == 1 ==> exists|b: BlockView|
                b.previous_hash == block_digest(r.blocks()[0]) && b.transactions == seq![
                    r.reward_transaction(),
                ] && unsealable(b, r.difficulty()),
            1 <= r.blocks().len() <= 2,
    {
        BlockChain::with_config(address, ChainConfig::standard())
    }

    /// A chain with the given settings whose rewards go to `address`: the
    /// genesis block, accepted without proof of work, then one mining round.
    /// Only if that round finds no nonce does the chain keep the genesis block
    /// alone, with the reward transaction left in the pool.
    pub fn with_config(address: String, config: ChainConfig) -> (r: Self)
        ensures
            r.wf(),
            r.owner() == encode_utf8(address@),
            r.difficulty() == config.difficulty,
            r.reward() == config.mining_reward,
            r.reward_sender() == config.mining_sender@,
            r.blocks().len() == 2 ==> r.blocks()[1].transactions == seq![r.reward_transaction()]
                && r.pool().len() == 0,
            r.blocks().len() == 1 ==> r.pool() == seq![r.reward_transaction()],
            r.blocks().len() == 1 ==> exists|b: BlockView|
                b.previous_hash == block_digest(r.blocks()[0]) && b.transactions == seq![
                    r.reward_transaction(),
                ] && unsealable(b, r.difficulty()),
            config.difficulty == 0 ==> r.blocks().len() == 2,
            1 <= r.blocks().len() <= 2,
    {
        let genesis = Block::new(0, zero_bytes(32));
        let mut chain: Vec<Block> = Vec::new();
        chain.push(genesis);
        let mut bc = BlockChain { transaction_pool: Vec::new(), chain, blockchain_address: address, config };
        proof {
            assert(bc.blocks()[0] == genesis@);
            assert(genesis@.previous_hash =~= genesis_previous_hash());
            assert(bc.pool() =~= Seq::<Seq<u8>>::empty());
        }
        let ghost first = bc.blocks();
        let ghost reward = bc.reward_transaction();
        bc.mining();
        proof {
            assert(Seq::<Seq<u8>>::empty().push(reward) =~= seq![reward]);
            assert(!Seq::<Seq<u8>>::empty().contains(reward));
            assert(first[0] == bc.blocks()[0]);
        }
        bc
    }

    /// Read access to the blocks, oldest first.
    pub fn chain(&self) -> (r: &Vec<Block>)
        ensures
            r@.map_values(|b: Block| b@) == self.blocks(),
    {
        &self.chain
    }

    /// Read access to the pending encoded transactions.
    pub fn pending_transactions(&self) -> (r: &Vec<Vec<u8>>)
        ensures
            r@.map_values(|t: Vec<u8>| t@) == self.pool(),
    {
        &self.transaction_pool
    }

    /// The address that mining rewards go to.
    pub fn address(&self) -> (r: &String)
        ensures
            encode_utf8(r@) == self.owner(),
    {
        &self.blockchain_address
    }

    /// The number of blocks.
    pub fn len(&self) -> (r: usize)
        ensures
            r == self.blocks().len(),
    {
        self.chain.len()
    }

    /// The block at `index`.
    pub fn block_at(&self, index: usize) -> (r: &Block)
        requires
            index < self.blocks().len(),
        ensures
            r@ == self.blocks()[index as int],
    {
        &self.chain[index]
    }

    /// The most recently appended block.
    pub fn last_block(&self) -> (r: Result<&Block, EmptyChainError>)
        ensures
            r is Err <==> self.blocks().len() == 0,
            r is Ok ==> r->Ok_0@ == self.blocks().last(),
    {
        let n = self.chain.len();
        if n == 0 {
            return Err(EmptyChainError);
        }
        Ok(&self.chain[n - 1])
    }

    /// Adds the encoding of `tx` to the pool, unless the pool already holds
    /// the same bytes.
    pub fn add_transaction<S: Serialization<Transaction>>(&mut self, tx: &S)
        requires
            old(self).wf(),
        ensures
            final(self).wf(),
            final(self).same_settings(old(self)),
            final(self).blocks() == old(self).blocks(),
            final(self).pool() == pooled(old(self).pool(), tx.encoding()),
    {
        let encoded = tx.serialization();
        let ghost pool = self.pool();
        let mut i: usize = 0;
        while i < self.transaction_pool.len()
            invariant
                i <= self.transaction_pool@.len(),
                *self == *old(self),
                self.wf(),
                pool == self.pool(),
                encoded@ == tx.encoding(),
                forall|k: int| 0 <= k < i ==> pool[k] != encoded@,
            decreases self.transaction_pool@.len() - i,
        {
            if bytes_equal(&self.transaction_pool[i], &encoded) {
                assert(pool[i as int] == encoded@);
                assert(pool.contains(encoded@));
                return;
            }
            i = i + 1;
        }
        proof {
            if pool.contains(encoded@) {
                let k = choose|k: int| 0 <= k < pool.len() && pool[k] == encoded@;
                assert(pool[k] != encoded@);
            }
        }
        self.transaction_pool.push(encoded);
        assert(self.pool() =~= pool.push(encoded@));
    }

    /// Seals the pool into a new block whose previous hash is
    /// `previous_hash`: moves every pending transaction into it, in order,
    /// runs the proof of work and appends the block. If no nonce meets the
    /// difficulty, nothing changes and the result is `false`.
    pub fn create_block(&mut self, previous_hash: &Vec<u8>) -> (r: bool)
        requires
            old(self).wf(),
            previous_hash@ == block_digest(old(self).blocks().last()),
        ensures
            final(self).wf(),
            final(self).same_settings(old(self)),
            r ==> final(self).blocks() == old(self).blocks().push(final(self).blocks().last()),
            r ==> final(self).blocks().last().previous_hash == previous_hash@,
            r ==> final(self).blocks().last().transactions == old(self).pool(),
            r ==> first_sealing_nonce(final(self).blocks().last(), final(self).difficulty()),
            r ==> final(self).pool().len() == 0,
            old(self).difficulty() == 0 ==> r,
            !r ==> final(self).blocks() == old(self).blocks(),
            !r ==> final(self).pool() == old(self).pool(),
            !r ==> exists|b: BlockView|
                b.previous_hash == previous_hash@ && b.transactions == old(self).pool()
                    && unsealable(b, old(self).difficulty()),
    {
        let mut block = Block::new(0, copy_range(previous_hash, 0, previous_hash.len()));
        std::mem::swap(&mut block.transactions, &mut self.transaction_pool);
        let ghost candidate = block@;
        proof {
            assert(candidate.previous_hash =~= previous_hash@);
            assert(candidate.transactions =~= old(self).pool());
        }
        let found = proof_of_work(&mut block, self.config.difficulty);
        if found {
            let ghost before = self.blocks();
            self.chain.push(block);
            proof {
                assert(self.blocks() =~= before.push(block@));
                let d = self.config.difficulty as nat;
                assert forall|n: i32| 0 <= n < block@.nonce implies !#[trigger] meets_difficulty(
                    with_nonce(block@, n),
                    d,
                ) by {
                    assert(with_nonce(block@, n) == with_nonce(candidate, n));
                }
                assert(first_sealing_nonce(block@, d));
                assert(self.pool() =~= Seq::<Seq<u8>>::empty());
                assert(block@.transactions =~= old(self).pool());
                let bs = self.blocks();
                assert forall|i: int| 1 <= i < bs.len() implies #[trigger] bs[i].previous_hash
                    == block_digest(bs[i - 1]) by {
                    if i < bs.len() - 1 {
                        assert(bs[i] == before[i]);
                        assert(bs[i - 1] == before[i - 1]);
                    }
                }
                assert forall|i: int| 1 <= i < bs.len() implies #[trigger] meets_difficulty(
                    bs[i],
                    self.difficulty(),
                ) by {
                    if i < bs.len() - 1 {
                        assert(bs[i] == before[i]);
                    }
                }
            }
            true
        } else {
            std::mem::swap(&mut block.transactions, &mut self.transaction_pool);
            assert(self.pool() =~= old(self).pool());
            assert(unsealable(candidate, old(self).difficulty()));
            false
        }
    }

    /// One mining round: adds the reward transaction to the pool (unless the
    /// pool already holds it), then seals the pool into a new block linked to
    /// the last one. The result says whether a block was appended; if not,
    /// only the pool has changed.
    pub fn mining(&mut self) -> (r: bool)
        requires
            old(self).wf(),
        ensures
            final(self).wf(),
            final(self).same_settings(old(self)),
            r ==> final(self).blocks() == old(self).blocks().push(final(self).blocks().last()),
            r ==> final(self).blocks().last().previous_hash == block_digest(old(self).blocks().last()),
            r ==> final(self).blocks().last().transactions == pooled(
                old(self).pool(),
                old(self).reward_transaction(),
            ),
            r ==> first_sealing_nonce(final(self).blocks().last(), final(self).difficulty()),
            r ==> final(self).pool().len() == 0,
            old(self).difficulty() == 0 ==> r,
            !r ==> final(self).blocks() == old(self).blocks(),
            !r ==> final(self).pool() == pooled(old(self).pool(), old(self).reward_transaction()),
            !r ==> exists|b: BlockView|
                b.previous_hash == block_digest(old(self).blocks().last()) && b.transactions
                    == pooled(old(self).pool(), old(self).reward_transaction()) && unsealable(
                    b,
                    old(self).difficulty(),
                ),
    {
        let sender = copy_range(&self.config.mining_sender, 0, self.config.mining_sender.len());
        let recipient = self.blockchain_address.as_str().as_bytes_vec();
        let tx = Transaction::new(sender, recipient, self.config.mining_reward);
        assert(tx.encoding() == old(self).reward_transaction());
        self.add_transaction(&tx);
        let ghost offered = self.pool();
        assert(self.blocks() == old(self).blocks());
        let previous_hash = match self.last_block() {
            Ok(b) => b.hash(),
            Err(_) => {
                return false;
            },
        };
        let r = self.create_block(&previous_hash);
        assert(offered == pooled(old(self).pool(), old(self).reward_transaction()));
        r
    }

    /// The balance of `address`, replayed from every transaction of every
    /// block: received values count up, sent values count down, modulo 2^64.
    pub fn calculate_total_amount(&self, address: String) -> (r: i64)
        ensures
            r as int == wrap_i64(balance(self.blocks(), encode_utf8(address@))),
    {
        let target = address.as_str().as_bytes_vec();
        let ghost addr = target@;
        let ghost blocks = self.blocks();
        let ghost mut exact: int = 0;
        let mut acc: u64 = 0;
        let mut i: usize = 0;
        while i < self.chain.len()
            invariant
                i <= self.chain@.len(),
                blocks == self.blocks(),
                target@ == addr,
                exact == balance(blocks.subrange(0, i as int), addr),
                acc == exact % 0x1_0000_0000_0000_0000,
            decreases self.chain@.len() - i,
        {
            let block = &self.chain[i];
            let ghost txs = block@.transactions;
            let ghost start = exact;
            let mut j: usize = 0;
            while j < block.transactions.len()
                invariant
                    j <= block.transactions@.len(),
                    txs == block@.transactions,
                    target@ == addr,
                    exact == start + transfers_effect(txs.subrange(0, j as int), addr),
                    acc == exact % 0x1_0000_0000_0000_0000,
                decreases block.transactions@.len() - j,
            {
                let decoded = Transaction::decode(&block.transactions[j]);
                let ghost step = transfer_effect(txs[j as int], addr);
                let ghost partial = exact;
                if let Ok(tx) = decoded {
                    if bytes_equal(&tx.recipient_address, &target) {
                        acc = add_wrapping(acc, tx.value, Ghost(exact));
                        proof {
                            exact = exact + tx.value;
                        }
                    }
                    if bytes_equal(&tx.sender_address, &target) {
                        acc = sub_wrapping(acc, tx.value, Ghost(exact));
                        proof {
                            exact = exact - tx.value;
                        }
                    }
                }
                assert(exact == partial + step);
                proof {
                    assert(txs.subrange(0, j + 1).drop_last() =~= txs.subrange(0, j as int));
                }
                j = j + 1;
            }
            proof {
                assert(txs.subrange(0, j as int) =~= txs);
                assert(blocks.subrange(0, i + 1).drop_last() =~= blocks.subrange(0, i as int));
            }
            i = i + 1;
        }
        assert(blocks.subrange(0, i as int) =~= blocks);
        if acc <= 0x7fff_ffff_ffff_ffff {
            acc as i64
        } else {
            -((u64::MAX - acc) as i64) - 1
        }
    }

    /// Looks a block up: by index directly, by value with a scan from the
    /// oldest block to the newest.
    pub fn search_block(&self, search: BlockSearch) -> (r: BlockSearchResult<'_>)
        ensures
            search_outcome(self.blocks(), search@, r),
    {
        find_block(&self.chain, search)
    }
}

/// Genesis: every well-formed chain starts with a block of nonce 0, no
/// transactions and 32 zero bytes as its previous hash.
pub proof fn lemma_genesis(c: &BlockChain)
    requires
        c.wf(),
    ensures
        c.blocks().len() >= 1,
        c.blocks()[0].nonce == 0,
        c.blocks()[0].previous_hash == Seq::new(32, |i: int| 0u8),
        c.blocks()[0].transactions.len() == 0,
{
}

/// Linkage: in every well-formed chain each block after the first holds the
/// digest of the block before it as its previous hash.
pub proof fn lemma_linkage(c: &BlockChain)
    requires
        c.wf(),
    ensures
        forall|i: int|
            1 <= i < c.blocks().len() ==> #[trigger] c.blocks()[i].previous_hash == block_digest(
                c.blocks()[i - 1],
            ),
{
}

/// Difficulty: in every well-formed chain the hex form of the digest of each
/// block after the first starts with as many zeros as the difficulty.
pub proof fn lemma_difficulty(c: &BlockChain)
    requires
        c.wf(),
    ensures
        forall|i: int|
            1 <= i < c.blocks().len() ==> has_leading_zeros(
                hex_of(block_digest(#[trigger] c.blocks()[i])),
                c.difficulty(),
            ),
{
    assert forall|i: int| 1 <= i < c.blocks().len() implies has_leading_zeros(
        hex_of(block_digest(#[trigger] c.blocks()[i])),
        c.difficulty(),
    ) by {
        assert(meets_difficulty(c.blocks()[i], c.difficulty()));
    }
}

/// Pool idempotence: offering the same transaction a second time leaves the
/// pool as the first offer left it, and so of the same size.
pub proof fn lemma_pool_idempotent(pool: Seq<Seq<u8>>, tx: Seq<u8>)
    ensures
        pooled(pooled(pool, tx), tx) == pooled(pool, tx),
        pooled(pooled(pool, tx), tx).len() == pooled(pool, tx).len(),
{
    if !pool.contains(tx) {
        let p = pool.push(tx);
        assert(p[p.len() - 1] == tx);
        assert(p.contains(tx));
    }
}

} // verus!
