use cryptolab::rsa_keys::{gen_keys, KeyGenError};
use rsa::traits::PublicKeyParts;

#[test]
fn gen_keys_refuses_other_lengths() {
    for length in [0usize, 512, 1000, 2047, 8192] {
        assert_eq!(gen_keys(length).unwrap_err(), KeyGenError::InvalidLength);
    }
}

#[test]
fn gen_keys_makes_pair_of_requested_size() {
    let (private_key, public_key, bits) = gen_keys(1024).expect("key pair");
    assert_eq!(bits, 1024);
    assert_eq!(public_key.n().bits(), 1024);
    assert_eq!(public_key.size() * 8, 1024);
    assert_eq!(private_key.n(), public_key.n());
}
