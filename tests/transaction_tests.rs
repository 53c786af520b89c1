use ledger_chain::{DecodeError, Serialization, Transaction};

fn sample() -> Transaction {
    Transaction::new(b"alice".to_vec(), b"bob".to_vec(), 42)
}

#[test]
fn encode_layout_is_length_prefixed_big_endian() {
    let bytes = sample().encode();
    let mut expected: Vec<u8> = vec![0, 0, 0, 0, 0, 0, 0, 5];
    expected.extend_from_slice(b"alice");
    expected.extend_from_slice(&[0, 0, 0, 0, 0, 0, 0, 3]);
    expected.extend_from_slice(b"bob");
    expected.extend_from_slice(&[0, 0, 0, 0, 0, 0, 0, 42]);
    assert_eq!(bytes, expected);
}

#[test]
fn round_trip_reproduces_fields() {
    let tx = Transaction::new(b"sender".to_vec(), b"recipient".to_vec(), 100);
    let back = Transaction::decode(&tx.encode()).unwrap();
    assert_eq!(back.sender_address, b"sender".to_vec());
    assert_eq!(back.recipient_address, b"recipient".to_vec());
    assert_eq!(back.value, 100);
}

#[test]
fn round_trip_with_empty_addresses_and_extreme_values() {
    for value in [0u64, 1, u64::MAX] {
        let tx = Transaction::new(Vec::new(), Vec::new(), value);
        let bytes = tx.encode();
        assert_eq!(bytes.len(), 24);
        let back = Transaction::decode(&bytes).unwrap();
        assert!(back.sender_address.is_empty());
        assert!(back.recipient_address.is_empty());
        assert_eq!(back.value, value);
    }
}

#[test]
fn serialization_trait_round_trip() {
    let tx = sample();
    let bytes = tx.serialization();
    assert_eq!(bytes, tx.encode());
    let back = Transaction::deserialization(&bytes).unwrap();
    assert_eq!(back.sender_address, tx.sender_address);
    assert_eq!(back.recipient_address, tx.recipient_address);
    assert_eq!(back.value, tx.value);
}

#[test]
fn decode_rejects_short_input() {
    assert_eq!(Transaction::decode(&Vec::new()).unwrap_err(), DecodeError::Truncated);
    assert_eq!(Transaction::decode(&vec![0u8; 7]).unwrap_err(), DecodeError::Truncated);
    assert_eq!(Transaction::decode(&vec![0u8; 23]).unwrap_err(), DecodeError::Truncated);
    let mut bytes = sample().encode();
    bytes.pop();
    assert_eq!(Transaction::decode(&bytes).unwrap_err(), DecodeError::Truncated);
}

#[test]
fn decode_rejects_length_beyond_input() {
    let mut bytes = vec![0xffu8; 8];
    bytes.extend_from_slice(&[0u8; 16]);
    assert_eq!(Transaction::decode(&bytes).unwrap_err(), DecodeError::Truncated);
}

#[test]
fn decode_rejects_trailing_bytes() {
    let mut bytes = sample().encode();
    bytes.push(0);
    assert_eq!(Transaction::decode(&bytes).unwrap_err(), DecodeError::TrailingBytes);
}

#[test]
fn decode_minimal_layout() {
    let mut bytes = vec![0u8; 24];
    bytes[23] = 7;
    let tx = Transaction::decode(&bytes).unwrap();
    assert_eq!(tx.value, 7);
}
