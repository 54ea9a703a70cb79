use cryptolab::hill::{
    block_xor, hill_cipher, modus_cbc_hc, modus_cfb_hc, modus_ctr_hc, modus_ecb_hc, modus_ofb_hc,
    modus_pcbc_hc, module,
};

const KEY: [i32; 9] = [1, 2, 3, 4, 5, 6, 11, 9, 8];
const INIT: [i32; 3] = [9, 99, 11];

fn message() -> Vec<i32> {
    let mut v = Vec::new();
    for _ in 0..7 {
        v.extend_from_slice(&[10, 50, 9]);
    }
    v
}

#[test]
fn module_is_non_negative_for_positive_modulus() {
    assert_eq!(module(12, 5), 2);
    assert_eq!(module(-7, 5), 3);
    assert_eq!(module(0, 5), 0);
    assert_eq!(module(-10, 5), 0);
}

#[test]
fn module_with_negative_modulus() {
    assert_eq!(module(7, -5), -3);
    assert_eq!(module(-7, -5), -2);
}

#[test]
fn hill_cipher_multiplies_and_reduces() {
    // [10, 50, 9] x K = [309, 351, 402] = [53, 95, 146] mod 256
    assert_eq!(hill_cipher(&[10, 50, 9], &KEY, 256), vec![53, 95, 146]);
}

#[test]
fn hill_cipher_negative_modulus() {
    assert_eq!(hill_cipher(&[3, -4], &[1, 2, 3, 4], -5), vec![-4, 0]);
}

#[test]
fn hill_cipher_rejects_wrong_key() {
    assert_eq!(hill_cipher(&[10, 50, 9], &[1, 2, 3, 4], 256), vec![1]);
}

#[test]
fn hill_cipher_empty_block() {
    assert_eq!(hill_cipher(&[], &[], 256), Vec::<i32>::new());
}

#[test]
fn block_xor_truncates_to_shorter() {
    assert_eq!(block_xor(&[10, 50, 9], &[14, 100, 197]), vec![4, 86, 204]);
    assert_eq!(block_xor(&[1, 2, 3], &[1]), vec![0]);
}

#[test]
fn block_xor_twice_restores() {
    let a = [10, -50, 9];
    let k = [77, 12, -3];
    assert_eq!(block_xor(&block_xor(&a, &k), &k), a.to_vec());
}

#[test]
fn ecb_repeated_blocks_give_repeated_cipher() {
    let expected: Vec<i32> = [53, 95, 146].repeat(7);
    assert_eq!(modus_ecb_hc(&message(), 3, &KEY, 256), expected);
}

#[test]
fn ecb_pads_and_cuts() {
    assert_eq!(modus_ecb_hc(&[10, 50, 9, 7], 3, &KEY, 256), vec![53, 95, 146, 22]);
}

#[test]
fn ecb_rejects_wrong_key() {
    assert_eq!(modus_ecb_hc(&[10, 50, 9], 2, &KEY, 256), vec![1]);
}

#[test]
fn ecb_empty_message() {
    assert_eq!(modus_ecb_hc(&[], 3, &KEY, 256), Vec::<i32>::new());
}

#[test]
fn cbc_chains_blocks() {
    let expected = vec![
        93, 173, 255, 101, 111, 111, 69, 69, 171, 33, 163, 199, 73, 105, 87, 185, 155, 219, 93, 21,
        159,
    ];
    assert_eq!(modus_cbc_hc(&message(), 3, &INIT, &KEY, 256), expected);
}

#[test]
fn cbc_first_block_is_encryption_of_xor_with_init() {
    let out = modus_cbc_hc(&message(), 3, &INIT, &KEY, 256);
    let first = hill_cipher(&block_xor(&[10, 50, 9], &INIT), &KEY, 256);
    assert_eq!(out[0..3].to_vec(), first);
    let second = hill_cipher(&block_xor(&[10, 50, 9], &out[0..3]), &KEY, 256);
    assert_eq!(out[3..6].to_vec(), second);
}

#[test]
fn cbc_pads_and_cuts() {
    assert_eq!(modus_cbc_hc(&[10, 50, 9, 7], 3, &INIT, &KEY, 256), vec![93, 173, 255, 244]);
}

#[test]
fn cbc_rejects_wrong_key_or_init() {
    assert_eq!(modus_cbc_hc(&[10, 50, 9], 3, &INIT, &[1, 2, 3, 4], 256), vec![1]);
    assert_eq!(modus_cbc_hc(&[10, 50, 9], 3, &[1, 2], &KEY, 256), vec![1]);
}

#[test]
fn cfb_drops_last_block_of_full_message() {
    let expected = vec![4, 86, 204, 42, 208, 121, 151, 151, 47, 242, 250, 206, 190, 54, 43, 101, 63, 223];
    assert_eq!(modus_cfb_hc(&message(), 3, &INIT, &KEY, 256), expected);
}

#[test]
fn cfb_partial_message() {
    assert_eq!(modus_cfb_hc(&[10, 50, 9, 7], 3, &INIT, &KEY, 256), vec![4, 86, 204, 39]);
}

#[test]
fn cfb_rejects_wrong_key_or_init() {
    assert_eq!(modus_cfb_hc(&[10, 50, 9], 3, &INIT, &[1], 256), vec![1]);
    assert_eq!(modus_cfb_hc(&[10, 50, 9], 3, &[1, 2, 3, 4], &KEY, 256), vec![1]);
}

#[test]
fn ofb_drops_last_block_of_full_message() {
    let expected = vec![4, 86, 204, 31, 207, 163, 93, 39, 116, 0, 78, 98, 153, 113, 87, 163, 241, 50];
    assert_eq!(modus_ofb_hc(&message(), 3, &INIT, &KEY, 256), expected);
}

#[test]
fn ofb_partial_message() {
    assert_eq!(modus_ofb_hc(&[10, 50, 9, 7], 3, &INIT, &KEY, 256), vec![4, 86, 204, 18]);
}

#[test]
fn ofb_twice_restores_message() {
    let msg = [10, 50, 9, 7];
    let once = modus_ofb_hc(&msg, 3, &INIT, &KEY, 256);
    assert_eq!(modus_ofb_hc(&once, 3, &INIT, &KEY, 256), msg.to_vec());
}

#[test]
fn ofb_rejects_wrong_key_or_init() {
    assert_eq!(modus_ofb_hc(&[10, 50, 9], 3, &INIT, &[1], 256), vec![1]);
    assert_eq!(modus_ofb_hc(&[10, 50, 9], 3, &[], &KEY, 256), vec![1]);
}

#[test]
fn pcbc_and_ctr_do_nothing() {
    modus_pcbc_hc();
    modus_ctr_hc();
}
