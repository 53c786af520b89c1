use ledger_chain::showcase::{
    create_block, create_block_chain, create_hasher, create_serialized_tx, get_previous_hash,
    search_blocks,
};
use ledger_chain::{
    find_block, Block, BlockChain, BlockSearch, BlockSearchResult, ChainConfig, Transaction,
};
use sha2::{Digest, Sha256};

fn quick_config() -> ChainConfig {
    ChainConfig { difficulty: 1, mining_reward: 50, mining_sender: b"MINT".to_vec() }
}

fn quick_chain(owner: &str) -> BlockChain {
    BlockChain::with_config(owner.to_string(), quick_config())
}

fn reward_bytes(owner: &str, amount: u64) -> Vec<u8> {
    Transaction::new(b"MINT".to_vec(), owner.as_bytes().to_vec(), amount).encode()
}

#[test]
fn fresh_chain_has_genesis_and_first_block() {
    let c = BlockChain::new("owner".to_string());
    assert_eq!(c.len(), 2);
    let genesis = c.block_at(0);
    assert_eq!(genesis.previous_hash, vec![0u8; 32]);
    assert_eq!(genesis.nonce, 0);
    assert!(genesis.transactions.is_empty());
    let first = c.block_at(1);
    let reward = Transaction::new(b"THE BLOCKCHAIN".to_vec(), b"owner".to_vec(), 1).encode();
    assert_eq!(first.transactions, vec![reward]);
    assert!(c.pending_transactions().is_empty());
    assert_eq!(c.address(), "owner");
}

#[test]
fn default_chain_meets_difficulty_three() {
    let c = BlockChain::new("owner".to_string());
    let digest = c.block_at(1).hash();
    assert!(hex::encode(&digest).starts_with("000"));
}

#[test]
fn blocks_are_linked_and_sealed() {
    let mut c = quick_chain("owner");
    assert!(c.mining());
    assert!(c.mining());
    assert_eq!(c.len(), 4);
    for i in 1..c.len() {
        assert_eq!(c.block_at(i).previous_hash, c.block_at(i - 1).hash());
        assert!(hex::encode(c.block_at(i).hash()).starts_with('0'));
        assert!(c.block_at(i).meets_difficulty(1));
    }
}

#[test]
fn adding_same_transaction_twice_keeps_pool_size() {
    let mut c = quick_chain("owner");
    let tx = Transaction::new(b"a".to_vec(), b"b".to_vec(), 3);
    c.add_transaction(&tx);
    assert_eq!(c.pending_transactions().len(), 1);
    c.add_transaction(&tx);
    assert_eq!(c.pending_transactions().len(), 1);
    let other = Transaction::new(b"a".to_vec(), b"b".to_vec(), 4);
    c.add_transaction(&other);
    assert_eq!(c.pending_transactions(), &vec![tx.encode(), other.encode()]);
}

#[test]
fn mining_drains_pool_into_block() {
    let mut c = quick_chain("owner");
    let tx = Transaction::new(b"a".to_vec(), b"b".to_vec(), 3);
    c.add_transaction(&tx);
    assert!(c.mining());
    let last = c.last_block().unwrap();
    assert_eq!(last.transactions, vec![tx.encode(), reward_bytes("owner", 50)]);
    assert!(c.pending_transactions().is_empty());
}

#[test]
fn create_block_with_last_hash_seals_pool() {
    let mut c = quick_chain("owner");
    let tx = Transaction::new(b"x".to_vec(), b"y".to_vec(), 9);
    c.add_transaction(&tx);
    let previous = c.last_block().unwrap().hash();
    assert!(c.create_block(&previous));
    assert_eq!(c.len(), 3);
    assert_eq!(c.block_at(2).previous_hash, previous);
    assert_eq!(c.block_at(2).transactions, vec![tx.encode()]);
    assert!(c.pending_transactions().is_empty());
}

#[test]
fn balances_are_replayed_from_transactions() {
    let mut c = quick_chain("owner");
    let transfer = Transaction::new(b"alice".to_vec(), b"bob".to_vec(), 7);
    c.add_transaction(&transfer);
    assert!(c.mining());
    // two rewards of 50: one from construction, one from this round
    assert_eq!(c.calculate_total_amount("owner".to_string()), 100);
    assert_eq!(c.calculate_total_amount("alice".to_string()), -7);
    assert_eq!(c.calculate_total_amount("bob".to_string()), 7);
    assert_eq!(c.calculate_total_amount("carol".to_string()), 0);
    assert_eq!(c.calculate_total_amount("MINT".to_string()), -100);
}

#[test]
fn balance_wraps_modulo_two_to_the_sixty_four() {
    let mut c = quick_chain("owner");
    let big = Transaction::new(b"alice".to_vec(), b"bob".to_vec(), u64::MAX);
    c.add_transaction(&big);
    assert!(c.mining());
    assert_eq!(c.calculate_total_amount("bob".to_string()), -1);
    assert_eq!(c.calculate_total_amount("alice".to_string()), 1);
}

#[test]
fn self_transfer_nets_zero() {
    let mut c = quick_chain("owner");
    c.add_transaction(&Transaction::new(b"dave".to_vec(), b"dave".to_vec(), 11));
    assert!(c.mining());
    assert_eq!(c.calculate_total_amount("dave".to_string()), 0);
}

fn three_block_chain() -> BlockChain {
    let mut c = quick_chain("owner");
    assert!(c.mining());
    assert_eq!(c.len(), 3);
    c
}

#[test]
fn search_by_index() {
    let c = three_block_chain();
    match c.search_block(BlockSearch::SearchByIndex(1)) {
        BlockSearchResult::Success(b) => assert!(b.same_content_as(c.block_at(1))),
        _ => panic!("expected block 1"),
    }
    match c.search_block(BlockSearch::SearchByIndex(10)) {
        BlockSearchResult::FailOfIndex(i) => assert_eq!(i, 10),
        _ => panic!("expected index failure"),
    }
}

#[test]
fn search_by_block_hash() {
    let c = three_block_chain();
    let digest0 = c.block_at(0).hash();
    match c.search_block(BlockSearch::SearchByBlockHash(digest0)) {
        BlockSearchResult::Success(b) => assert_eq!(b.previous_hash, vec![0u8; 32]),
        _ => panic!("expected genesis"),
    }
    let unknown = vec![0xabu8; 32];
    match c.search_block(BlockSearch::SearchByBlockHash(unknown.clone())) {
        BlockSearchResult::FailOfBlockHash(k) => assert_eq!(k, unknown),
        _ => panic!("expected hash failure"),
    }
}

#[test]
fn search_by_other_criteria() {
    let c = three_block_chain();
    let prev = c.block_at(2).previous_hash.clone();
    match c.search_block(BlockSearch::SearchByPreviousHash(prev)) {
        BlockSearchResult::Success(b) => assert!(b.same_content_as(c.block_at(2))),
        _ => panic!("expected block 2"),
    }
    let stamp = c.block_at(1).time_stamp;
    match c.search_block(BlockSearch::SearchByTimestamp(stamp)) {
        BlockSearchResult::Success(b) => assert_eq!(b.time_stamp, stamp),
        _ => panic!("expected a block"),
    }
    match c.search_block(BlockSearch::SearchByNonce(0)) {
        BlockSearchResult::Success(b) => assert!(b.same_content_as(c.block_at(0))),
        _ => panic!("expected genesis first"),
    }
    let reward = reward_bytes("owner", 50);
    match c.search_block(BlockSearch::SearchByTransaction(reward)) {
        BlockSearchResult::Success(b) => assert!(b.same_content_as(c.block_at(1))),
        _ => panic!("expected block 1"),
    }
    match c.search_block(BlockSearch::SearchByTransaction(vec![1, 2, 3])) {
        BlockSearchResult::FailOfTransaction(k) => assert_eq!(k, vec![1, 2, 3]),
        _ => panic!("expected transaction failure"),
    }
    match c.search_block(BlockSearch::SearchByTimestamp(1)) {
        BlockSearchResult::FailOfTimestamp(k) => assert_eq!(k, 1),
        _ => panic!("expected timestamp failure"),
    }
    match c.search_block(BlockSearch::SearchByPreviousHash(vec![7])) {
        BlockSearchResult::FailOfPreviousHash(k) => assert_eq!(k, vec![7]),
        _ => panic!("expected previous hash failure"),
    }
}

#[test]
fn search_empty_chain() {
    let blocks: Vec<Block> = Vec::new();
    assert!(matches!(find_block(&blocks, BlockSearch::SearchByIndex(0)), BlockSearchResult::FailOfEmptyBlocks));
    assert!(matches!(find_block(&blocks, BlockSearch::SearchByNonce(0)), BlockSearchResult::FailOfEmptyBlocks));
}

#[test]
fn showcase_values() {
    assert_eq!(create_hasher(), Sha256::digest(b"Hello world\n").to_vec());
    let b = create_block();
    assert_eq!(b.previous_hash, b"this is our first block!".to_vec());
    let tx = create_serialized_tx();
    assert_eq!(tx.sender_address, b"sender".to_vec());
    assert_eq!(tx.recipient_address, b"recipient".to_vec());
    assert_eq!(tx.value, 100);
    let c = create_block_chain("owner".to_string());
    let prev = get_previous_hash(&c);
    assert_eq!(prev, c.last_block().unwrap().hash());
    let genesis_digest = c.block_at(0).hash();
    let (by_index, by_hash) = search_blocks(&c, &genesis_digest);
    assert!(matches!(by_index, BlockSearchResult::Success(_)));
    match by_hash {
        BlockSearchResult::Success(b) => assert_eq!(b.nonce, 0),
        _ => panic!("expected genesis"),
    }
}

#[test]
fn zero_difficulty_always_seals_at_nonce_zero() {
    let config = ChainConfig { difficulty: 0, mining_reward: 1, mining_sender: b"MINT".to_vec() };
    let mut c = BlockChain::with_config("owner".to_string(), config);
    assert_eq!(c.len(), 2);
    assert_eq!(c.block_at(1).nonce, 0);
    assert!(c.mining());
    assert_eq!(c.block_at(2).nonce, 0);
    assert_eq!(c.calculate_total_amount("owner".to_string()), 2);
    assert_eq!(c.calculate_total_amount("MINT".to_string()), -2);
}

#[test]
fn sealed_nonce_is_first_that_meets_difficulty() {
    let c = quick_chain("owner");
    let sealed = c.block_at(1);
    assert!(sealed.nonce >= 0);
    for n in 0..sealed.nonce {
        let mut probe = Block::with_time_stamp(n, sealed.previous_hash.clone(), sealed.time_stamp);
        probe.transactions = sealed.transactions.clone();
        assert!(!probe.meets_difficulty(1));
    }
    assert!(sealed.meets_difficulty(1));
}

#[test]
fn fresh_default_chain_balances() {
    let c = BlockChain::new("owner".to_string());
    assert_eq!(c.calculate_total_amount("owner".to_string()), 1);
    assert_eq!(c.calculate_total_amount("THE BLOCKCHAIN".to_string()), -1);
    assert_eq!(c.calculate_total_amount("nobody".to_string()), 0);
}
