use ledger_chain::block::starts_with_zeros;
use ledger_chain::Block;
use sha2::{Digest, Sha256};

fn sample_block() -> Block {
    let mut b = Block::with_time_stamp(-2, vec![9u8; 32], 0x0102_0304_0506_0708_090a_0b0c_0d0e_0f10);
    b.transactions.push(vec![1, 2, 3]);
    b.transactions.push(vec![4, 5]);
    b
}

fn expected_preimage(b: &Block) -> Vec<u8> {
    let mut bin = Vec::new();
    bin.extend(b.nonce.to_be_bytes());
    bin.extend(b.previous_hash.clone());
    bin.extend(b.time_stamp.to_be_bytes());
    for tx in b.transactions.iter() {
        bin.extend(tx.clone());
    }
    bin
}

#[test]
fn preimage_matches_big_endian_layout() {
    let b = sample_block();
    assert_eq!(b.preimage_bytes(), expected_preimage(&b));
    assert_eq!(&b.preimage_bytes()[0..4], &[0xff, 0xff, 0xff, 0xfe]);
}

#[test]
fn hash_is_sha256_of_preimage() {
    let b = sample_block();
    let expected = Sha256::digest(expected_preimage(&b)).to_vec();
    let digest = b.hash();
    assert_eq!(digest.len(), 32);
    assert_eq!(digest, expected);
    assert_ne!(digest, b.preimage_bytes());
}

#[test]
fn new_block_is_empty_and_stamped() {
    let b = Block::new(5, vec![1, 2]);
    assert_eq!(b.nonce, 5);
    assert_eq!(b.previous_hash, vec![1, 2]);
    assert!(b.transactions.is_empty());
    assert!(b.time_stamp > 0);
}

#[test]
fn same_content_compares_digests() {
    let a = sample_block();
    let b = sample_block();
    assert!(a.same_content_as(&b));
    let mut c = sample_block();
    c.increment_nonce(1);
    assert!(!a.same_content_as(&c));
}

#[test]
fn increment_nonce_wraps() {
    let mut b = Block::with_time_stamp(i32::MAX, Vec::new(), 0);
    b.increment_nonce(1);
    assert_eq!(b.nonce, i32::MIN);
    b.increment_nonce(-1);
    assert_eq!(b.nonce, i32::MAX);
}

#[test]
fn leading_zero_check() {
    assert!(starts_with_zeros(&"000abc".to_string(), 3));
    assert!(!starts_with_zeros(&"00a0bc".to_string(), 3));
    assert!(starts_with_zeros(&"abc".to_string(), 0));
    assert!(!starts_with_zeros(&"00".to_string(), 3));
}

#[test]
fn difficulty_uses_hex_of_digest() {
    let b = sample_block();
    let hex_digest = hex::encode(Sha256::digest(expected_preimage(&b)));
    for n in 0..4usize {
        let expected = hex_digest.chars().take(n).all(|c| c == '0');
        assert_eq!(b.meets_difficulty(n), expected);
    }
    assert!(!b.meets_difficulty(65));
}
