use num_bigint::BigUint;
use rusty_coin::mining::target::{be_le, hash_meets_target, target_bytes};

fn compact_to_target(bits: u32) -> BigUint {
    let exponent = (bits >> 24) & 0xFF;
    let mantissa = bits & 0x007FFFFF;
    if exponent <= 3 {
        BigUint::from(mantissa >> (8 * (3 - exponent)))
    } else {
        BigUint::from(mantissa) << (8 * (exponent - 3))
    }
}

fn reference(hash: &[u8], bits: u32) -> bool {
    BigUint::from_bytes_be(hash) <= compact_to_target(bits)
}

#[test]
fn target_bytes_match_biguint() {
    for bits in [0x1d00ffffu32, 0x1e0fffff, 0x03123456, 0x02123456, 0x01123456, 0x00123456, 0x04800001, 0x207fffff, 0xff7fffff] {
        assert_eq!(BigUint::from_bytes_be(&target_bytes(bits)), compact_to_target(bits), "bits {:x}", bits);
    }
}

#[test]
fn meets_target_matches_biguint() {
    let mut hashes: Vec<Vec<u8>> = vec![vec![0; 32], vec![0xff; 32], vec![], vec![0, 0, 1], vec![0x00, 0x00, 0x00, 0x0f, 0xff, 0xff]];
    for i in 0..40u8 {
        let mut h = vec![0u8; 32];
        h[(i % 32) as usize] = i.wrapping_mul(37);
        h[31] = i;
        hashes.push(h);
    }
    let mut low = vec![0u8; 32];
    low[4] = 0x0f;
    hashes.push(low);
    for bits in [0x1d00ffffu32, 0x1e0fffff, 0x1f00ffff, 0x03000001, 0x23000001, 0x00000000, 0x21ffffff] {
        for h in &hashes {
            assert_eq!(hash_meets_target(h, bits), reference(h, bits), "bits {:x} hash {:x?}", bits, h);
        }
    }
}

#[test]
fn big_endian_comparison() {
    assert!(be_le(&[0, 0, 5], &[5]));
    assert!(be_le(&[5], &[0, 0, 5]));
    assert!(!be_le(&[1, 0], &[0xff]));
    assert!(be_le(&[], &[]));
    assert!(be_le(&[0x01, 0x02], &[0x01, 0x03]));
    assert!(!be_le(&[0x01, 0x04], &[0x01, 0x03]));
}

#[test]
fn difficulty_examples() {
    // The genesis target: 0x00ffff followed by 26 zero bytes.
    let mut t = vec![0u8; 32];
    t[4] = 0xff;
    t[5] = 0xff;
    assert!(hash_meets_target(&t, 0x1d00ffff));
    t[31] = 1;
    assert!(!hash_meets_target(&t, 0x1d00ffff));
    // An exponent of 35 makes every 32-byte hash meet the target.
    assert!(hash_meets_target(&[0xff; 32], 0x23000001));
    // A target of 1 is met only by 0 and 1.
    assert!(hash_meets_target(&[0; 32], 0x03000001));
    assert!(!hash_meets_target(&[0, 2], 0x03000001));
}
