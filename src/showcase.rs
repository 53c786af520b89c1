//! Small ready-made values for demonstrations: a first block, a chain, a
//! sample transaction and the two standard searches.
use vstd::prelude::*;
use vstd::string::StrSliceExecFns;
use vstd::utf8::encode_utf8;
use crate::block::{block_digest, Block, BlockView};
use crate::chain::{search_outcome, unsealable, SearchKey, DIFFICULTY, MINING_REWARD, MINING_SENDER, BlockChain, BlockSearch, BlockSearchResult};
use crate::hashing::{sha256, sha256_of};
use crate::transaction::Transaction;

verus! {

/// The SHA-256 digest of the text "Hello world\n".
pub fn create_hasher() -> (r: Vec<u8>)
    ensures
        r@ == sha256_of(encode_utf8("Hello world\n"@)),
{
    let text = "Hello world\n".as_bytes_vec();
    sha256(&text)
}

/// A block of nonce 0 whose previous hash is the text "this is our first block!".
pub fn create_block() -> (r: Block)
    ensures
        r.nonce == 0,
        r.previous_hash@ == encode_utf8("this is our first block!"@),
        r.transactions@.len() == 0,
{
    Block::new(0, "this is our first block!".as_bytes_vec())
}

/// A chain with the default settings whose rewards go to `address`.
pub fn create_block_chain(address: String) -> (r: BlockChain)
    ensures
        r.wf(),
        r.owner() == encode_utf8(address@),
        r.difficulty() == DIFFICULTY,
        r.reward() == MINING_REWARD,
        r.reward_sender() == encode_utf8(MINING_SENDER@),
        r.blocks().len() == 2 ==> r.blocks()[1].transactions == seq![r.reward_transaction()]
            && r.pool().len() == 0,
        r.blocks().len() == 1 ==> r.pool() == seq![r.reward_transaction()],
        r.blocks().len() == 1 ==> exists|b: BlockView|
            b.previous_hash == block_digest(r.blocks()[0]) && b.transactions == seq![
                r.reward_transaction(),
            ] && unsealable(b, r.difficulty()),
        1 <= r.blocks().len() <= 2,
{
    BlockChain::new(address)
}

/// The digest of the last block of a well-formed chain.
pub fn get_previous_hash(block_chain: &BlockChain) -> (r: Vec<u8>)
    requires
        block_chain.wf(),
    ensures
        r@ == block_digest(block_chain.blocks().last()),
{
    match block_chain.last_block() {
        Ok(b) => b.hash(),
        Err(_) => Vec::new(),
    }
}

/// A transfer of 100 from "sender" to "recipient".
pub fn create_serialized_tx() -> (r: Transaction)
    ensures
        r.sender_address@ == encode_utf8("sender"@),
        r.recipient_address@ == encode_utf8("recipient"@),
        r.value == 100,
{
    Transaction::new("sender".as_bytes_vec(), "recipient".as_bytes_vec(), 100)
}

/// The two standard searches: the block at index 1, and the block whose
/// digest is `previous_hash`.
pub fn search_blocks<'a>(block_chain: &'a BlockChain, previous_hash: &Vec<u8>) -> (r: (
    BlockSearchResult<'a>,
    BlockSearchResult<'a>,
))
    ensures
        search_outcome(block_chain.blocks(), SearchKey::Index(1), r.0),
        search_outcome(block_chain.blocks(), SearchKey::BlockHash(previous_hash@), r.1),
{
    let by_index = block_chain.search_block(BlockSearch::SearchByIndex(1));
    let key = crate::bytes::copy_range(previous_hash, 0, previous_hash.len());
    assert(key@ =~= previous_hash@);
    let search = BlockSearch::SearchByBlockHash(key);
    assert(search@ == SearchKey::BlockHash(previous_hash@));
    let by_hash = block_chain.search_block(search);
    (by_index, by_hash)
}

} // verus!
