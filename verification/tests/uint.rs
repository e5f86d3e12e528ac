use bitvm_bridge::bridge::{decode_compact_target, validate_threshold_and_add_work};
use bitvm_bridge::errors::BridgeError;
use bitvm_bridge::uint256::U256;

fn from_hex_be(hex_digits: &str) -> U256 {
    let mut bytes = hex::decode(hex_digits).unwrap();
    bytes.reverse();
    let mut le = [0u8; 32];
    le[..bytes.len()].copy_from_slice(&bytes);
    U256::from_le_bytes(le)
}

#[test]
fn small_numbers() {
    assert_eq!(U256::zero().to_le_bytes(), [0u8; 32]);
    let ten = U256::from_u64(10);
    let mut expected = [0u8; 32];
    expected[0] = 10;
    assert_eq!(ten.to_le_bytes(), expected);
    let big = U256::from_u64(0x0102_0304_0506_0708);
    assert_eq!(&big.to_le_bytes()[..8], &[8, 7, 6, 5, 4, 3, 2, 1]);
    assert_eq!(&big.to_le_bytes()[8..], &[0u8; 24]);
    assert!(U256::zero().is_zero());
    assert!(!ten.is_zero());
}

#[test]
fn addition_wraps_at_two_to_the_256() {
    let max = U256::from_le_bytes([0xff; 32]);
    let one = U256::from_u64(1);
    assert!(max.wrapping_add(&one).is_zero());
    assert_eq!(max.wrapping_add(&U256::from_u64(5)).to_le_bytes(), U256::from_u64(4).to_le_bytes());
    let sum = U256::from_u64(u64::MAX).wrapping_add(&one);
    let mut expected = [0u8; 32];
    expected[8] = 1;
    assert_eq!(sum.to_le_bytes(), expected);
}

#[test]
fn comparison_is_numeric() {
    let mut high = [0u8; 32];
    high[31] = 1;
    let mut low = [0xffu8; 32];
    low[31] = 0;
    assert!(U256::from_le_bytes(high).gt(&U256::from_le_bytes(low)));
    assert!(!U256::from_le_bytes(low).gt(&U256::from_le_bytes(high)));
    assert!(!U256::from_u64(9).gt(&U256::from_u64(9)));
    assert!(U256::from_u64(10).gt(&U256::from_u64(9)));
}

#[test]
fn work_is_two_to_the_256_over_target_plus_one() {
    assert_eq!(U256::from_u64(1).work_for_target().to_le_bytes(), from_hex_be("8000000000000000000000000000000000000000000000000000000000000000").to_le_bytes());
    assert_eq!(U256::from_le_bytes([0xff; 32]).work_for_target().to_le_bytes(), U256::from_u64(1).to_le_bytes());
    assert!(U256::zero().work_for_target().is_zero());
    let target = from_hex_be("00000000ffff0000000000000000000000000000000000000000000000000000");
    assert_eq!(target.work_for_target().to_le_bytes(), U256::from_u64(0x1_0001_0001).to_le_bytes());
    let regtest = from_hex_be("7fffff0000000000000000000000000000000000000000000000000000000000");
    assert_eq!(regtest.work_for_target().to_le_bytes(), U256::from_u64(2).to_le_bytes());
}

#[test]
fn compact_targets_expand_as_in_bitcoin() {
    let genesis = decode_compact_target(0x1d00ffff).unwrap();
    assert_eq!(genesis.to_le_bytes(), from_hex_be("00000000ffff0000000000000000000000000000000000000000000000000000").to_le_bytes());
    let regtest = decode_compact_target(0x207fffff).unwrap();
    assert_eq!(regtest.to_le_bytes(), from_hex_be("7fffff0000000000000000000000000000000000000000000000000000000000").to_le_bytes());
    assert_eq!(decode_compact_target(0x03123456).unwrap().to_le_bytes(), U256::from_u64(0x123456).to_le_bytes());
    assert_eq!(decode_compact_target(0x02123456).unwrap().to_le_bytes(), U256::from_u64(0x1234).to_le_bytes());
    assert_eq!(decode_compact_target(0x01123456).unwrap().to_le_bytes(), U256::from_u64(0x12).to_le_bytes());
    assert_eq!(decode_compact_target(0x04123456).unwrap().to_le_bytes(), U256::from_u64(0x12345600).to_le_bytes());
    assert_eq!(decode_compact_target(0x2200007f).unwrap().to_le_bytes(), from_hex_be("7f00000000000000000000000000000000000000000000000000000000000000").to_le_bytes());
    assert_eq!(decode_compact_target(0x21007fff).unwrap().to_le_bytes(), from_hex_be("7fff000000000000000000000000000000000000000000000000000000000000").to_le_bytes());
}

#[test]
fn unacceptable_targets_are_refused() {
    assert!(decode_compact_target(0).is_none());
    assert!(decode_compact_target(0x00123456).is_none());
    assert!(decode_compact_target(0x01003456).is_none());
    assert!(decode_compact_target(0x1d000000).is_none());
    assert!(decode_compact_target(0x1d800001).is_none());
    assert!(decode_compact_target(0x04923456).is_none());
    assert!(decode_compact_target(0x21010000).is_none());
    assert!(decode_compact_target(0x22000100).is_none());
    assert!(decode_compact_target(0x23000001).is_none());
    assert!(decode_compact_target(0xff000001).is_none());
}

#[test]
fn hash_above_the_target_is_a_consensus_error() {
    let work = U256::from_u64(7);
    let mut hash = [0u8; 32];
    hash[31] = 0x7f;
    hash[30] = 0xff;
    hash[29] = 0xff;
    let added = validate_threshold_and_add_work(0x207fffff, &hash, &work).unwrap();
    assert_eq!(added.to_le_bytes(), U256::from_u64(9).to_le_bytes());
    hash[0] = 1;
    assert!(matches!(validate_threshold_and_add_work(0x207fffff, &hash, &work), Err(BridgeError::ConsensusError)));
    hash[0] = 0;
    hash[31] = 0x80;
    assert!(matches!(validate_threshold_and_add_work(0x207fffff, &hash, &work), Err(BridgeError::ConsensusError)));
    assert!(matches!(validate_threshold_and_add_work(0, &[0u8; 32], &work), Err(BridgeError::ConsensusError)));
    let wrapped = validate_threshold_and_add_work(0x207fffff, &[0u8; 32], &U256::from_le_bytes([0xff; 32])).unwrap();
    assert_eq!(wrapped.to_le_bytes(), U256::from_u64(1).to_le_bytes());
}
