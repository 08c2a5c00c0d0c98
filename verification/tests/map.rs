use cpace_wasm::{elligator2_curve25519_u, MapError};
use curve25519_elligator2::MontgomeryPoint;

fn hex_digit(c: u8) -> u8 {
    match c {
        b'0'..=b'9' => c - b'0',
        b'a'..=b'f' => c - b'a' + 10,
        _ => panic!("not a lower-case hex digit"),
    }
}

fn unhex(s: &str) -> [u8; 32] {
    let b = s.as_bytes();
    assert_eq!(b.len(), 64);
    let mut out = [0u8; 32];
    for i in 0..32 {
        out[i] = hex_digit(b[2 * i]) * 16 + hex_digit(b[2 * i + 1]);
    }
    out
}

/// A fixed stream of representatives: a 64-bit linear congruential generator,
/// eight bytes of each state.
fn sample(count: usize) -> Vec<[u8; 32]> {
    let mut state: u64 = 0x2545_f491_4f6c_dd1d;
    let mut out = Vec::new();
    for _ in 0..count {
        let mut r = [0u8; 32];
        for chunk in 0..4 {
            state = state
                .wrapping_mul(6364136223846793005)
                .wrapping_add(1442695040888963407);
            r[8 * chunk..8 * chunk + 8].copy_from_slice(&state.to_le_bytes());
        }
        out.push(r);
    }
    out
}

/// Whether `bytes`, least significant byte first, is a number below
/// 2^255 - 19.
fn below_prime(bytes: &[u8; 32]) -> bool {
    let mut p = [0xffu8; 32];
    p[0] = 0xed;
    p[31] = 0x7f;
    for i in (0..32).rev() {
        if bytes[i] != p[i] {
            return bytes[i] < p[i];
        }
    }
    false
}

fn map_hex(rep: &str) -> [u8; 32] {
    elligator2_curve25519_u(&unhex(rep)).unwrap()
}

#[test]
fn zero_representative_maps_to_zero() {
    let u = elligator2_curve25519_u(&[0u8; 32]).unwrap();
    assert_eq!(u, [0u8; 32]);
}

#[test]
fn counting_bytes_known_answer() {
    let rep: Vec<u8> = (0u8..32u8).collect();
    let expected: [u8; 32] = [
        0x5f, 0x35, 0x20, 0x00, 0x1c, 0x6c, 0x99, 0x36, 0xa3, 0x12, 0x06, 0xaf, 0xe7, 0xc7, 0xac,
        0x22, 0x4e, 0x88, 0x61, 0x61, 0x9b, 0xf9, 0x88, 0x72, 0x44, 0x49, 0x15, 0x89, 0x9d, 0x95,
        0xf4, 0x6e,
    ];
    assert_eq!(elligator2_curve25519_u(&rep).unwrap(), expected);
}

#[test]
fn small_representative_low_v() {
    assert_eq!(
        map_hex("e73507d38bae63992b3f57aac48c0abc14509589288457995a2b4ca3490aa207"),
        unhex("1e8afffed6bf53fe271ad572473262ded8faec68e5e67ef45ebb82eeba52604f")
    );
}

#[test]
fn small_representative_high_v() {
    assert_eq!(
        map_hex("95a16019041dbefed9832048ede11928d90365f24a38aa7aef1b97e23954101b"),
        unhex("794f05ba3e3a72958022468c88981e0be5782be1e1145ce2c3c6fde16ded5363")
    );
}

#[test]
fn half_of_prime_minus_one() {
    assert_eq!(
        map_hex("f6ffffffffffffffffffffffffffffffffffffffffffffffffffffffffffff3f"),
        unhex("9cdb525555555555555555555555555555555555555555555555555555555555")
    );
}

#[test]
fn half_of_prime_plus_one() {
    assert_eq!(
        map_hex("f7ffffffffffffffffffffffffffffffffffffffffffffffffffffffffffff3f"),
        unhex("9cdb525555555555555555555555555555555555555555555555555555555555")
    );
}

#[test]
fn large_representative_uses_bit_254() {
    assert_eq!(
        map_hex("179f24730ded2ce3173908ec61964653b8027e383f40346c1c9b4d2bdb1db76c"),
        unhex("10745497d35c6ede6ea6b330546a6fcbf15c903a7be28ae69b1ca14e0bf09b60")
    );
    assert_eq!(
        map_hex("8a2f286180c3d8630b5f5a3c7cc027a55e0d3ffb3b1b990c5c7bb4c3d1f91b6f"),
        unhex("6d3187192afc3bcc05a497928816e3e2336dc539aa7fc296a9ee013f560db843")
    );
}

#[test]
fn bit_254_changes_the_image() {
    let large = unhex("179f24730ded2ce3173908ec61964653b8027e383f40346c1c9b4d2bdb1db76c");
    let mut low = large;
    low[31] &= 0x3f;
    assert_ne!(
        elligator2_curve25519_u(&large).unwrap(),
        elligator2_curve25519_u(&low).unwrap()
    );
}

#[test]
fn bit_255_is_ignored() {
    for rep in sample(64) {
        let mut set = rep;
        set[31] |= 0x80;
        let mut clear = rep;
        clear[31] &= 0x7f;
        assert_eq!(
            elligator2_curve25519_u(&set).unwrap(),
            elligator2_curve25519_u(&clear).unwrap()
        );
    }
    let mut only_top = [0u8; 32];
    only_top[31] = 0x80;
    assert_eq!(elligator2_curve25519_u(&only_top).unwrap(), [0u8; 32]);
}

#[test]
fn prime_encoding_maps_as_zero() {
    let mut p = [0xffu8; 32];
    p[0] = 0xed;
    p[31] = 0x7f;
    assert_eq!(elligator2_curve25519_u(&p).unwrap(), [0u8; 32]);
}

#[test]
fn negated_representative_has_same_image() {
    // 1 and p - 1
    let mut one = [0u8; 32];
    one[0] = 1;
    let mut minus_one = [0xffu8; 32];
    minus_one[0] = 0xec;
    minus_one[31] = 0x7f;
    assert_eq!(
        elligator2_curve25519_u(&one).unwrap(),
        elligator2_curve25519_u(&minus_one).unwrap()
    );
}

#[test]
fn output_is_not_the_input() {
    let mut differ = 0;
    for rep in sample(32) {
        if elligator2_curve25519_u(&rep).unwrap() != rep {
            differ += 1;
        }
    }
    assert_eq!(differ, 32);
}

#[test]
fn wrong_lengths_are_refused() {
    for len in [0usize, 1, 16, 31, 33, 64, 255] {
        let rep = vec![0x42u8; len];
        assert_eq!(elligator2_curve25519_u(&rep), Err(MapError::InvalidLength));
    }
}

#[test]
fn empty_input_is_refused() {
    assert_eq!(elligator2_curve25519_u(&[]), Err(MapError::InvalidLength));
}

#[test]
fn every_byte_pattern_of_length_32_is_accepted() {
    for b in [0x00u8, 0x01, 0x7f, 0x80, 0xfe, 0xff] {
        let rep = [b; 32];
        let u = elligator2_curve25519_u(&rep).unwrap();
        assert_eq!(u.len(), 32);
    }
}

#[test]
fn invalid_length_message() {
    assert_eq!(MapError::InvalidLength.message(), "expected 32 bytes");
}

#[test]
fn same_input_same_output() {
    for rep in sample(64) {
        let first = elligator2_curve25519_u(&rep);
        let second = elligator2_curve25519_u(&rep.to_vec());
        assert_eq!(first, second);
    }
    let short = [7u8; 5];
    assert_eq!(elligator2_curve25519_u(&short), elligator2_curve25519_u(&short));
}

#[test]
fn sampled_outputs_lie_on_the_curve() {
    for rep in sample(256) {
        let u = elligator2_curve25519_u(&rep).unwrap();
        assert!(MontgomeryPoint(u).to_edwards(0).is_some());
    }
}

#[test]
fn curve_test_rejects_a_twist_coordinate() {
    // u = 2 belongs to the twist, so the test above can fail.
    let mut two = [0u8; 32];
    two[0] = 2;
    assert!(MontgomeryPoint(two).to_edwards(0).is_none());
}

#[test]
fn sampled_outputs_are_canonical() {
    for rep in sample(256) {
        let u = elligator2_curve25519_u(&rep).unwrap();
        assert!(below_prime(&u));
    }
    let mut p = [0xffu8; 32];
    p[0] = 0xed;
    p[31] = 0x7f;
    assert!(!below_prime(&p));
}
