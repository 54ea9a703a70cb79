use cryptolab::des::{initial_permutation, pc1, pc2};

#[test]
fn initial_permutation_of_sample_text() {
    assert_eq!(initial_permutation(0x4469616D616E7465), (0xff40e99e, 0x00fe2a20));
}

#[test]
fn initial_permutation_single_bits() {
    assert_eq!(initial_permutation(u64::MAX), (u32::MAX, u32::MAX));
    assert_eq!(initial_permutation(0), (0, 0));
    // bit 0 is bit 0 of byte 7: left half, position 8*0 + 7
    assert_eq!(initial_permutation(1), (0x80, 0));
    // bit 63 is bit 7 of byte 0: right half, position 8*3 + 0
    assert_eq!(initial_permutation(1 << 63), (0, 0x0100_0000));
}

#[test]
fn pc1_matches_des_reference_key() {
    assert_eq!(pc1(0x133457799BBCDFF1), (0xF0CCAAF, 0x556678F));
    assert_eq!(pc1(0x4173656775726172), (0x00fffeb, 0xaa1c002));
}

#[test]
fn pc2_selects_round_key_bits() {
    assert_eq!(pc2(0xF0CCAAF, 0x556678F), 0xcb3d8b0e17f5);
    assert_eq!(pc2(0, 0), 0);
}
