//! RSA key pairs of the usual sizes.
use vstd::prelude::*;

verus! {

/// An RSA private key of the `rsa` crate.
#[verifier::external_type_specification]
#[verifier::external_body]
pub struct ExRsaPrivateKey(rsa::RsaPrivateKey);

/// An RSA public key of the `rsa` crate.
#[verifier::external_type_specification]
#[verifier::external_body]
pub struct ExRsaPublicKey(rsa::RsaPublicKey);

/// Error of the `rsa` crate.
#[verifier::external_type_specification]
#[verifier::external_body]
pub struct ExRsaError(rsa::Error);

/// `rsa::RsaPrivateKey::new` with the thread-local generator of `rand`: a
/// fresh key of `bits` bits, returned with the bit length of its modulus
/// (`PublicKeyParts::n`, `BigUint::bits`). Key generation retries until the
/// modulus has exactly `bits` bits and the private exponent exists, and the
/// key it builds always passes the crate's validation, so it refuses only
/// sizes under 64 bits. The key itself rests on chance.
#[verifier::external_body]
fn rsa_private_key_new(bits: usize) -> (key: Result<(rsa::RsaPrivateKey, usize), rsa::Error>)
    ensures
        bits >= 64 ==> key is Ok,
        key matches Ok(k) ==> k.1 == bits,
{
    let mut rng = rand::thread_rng();
    match rsa::RsaPrivateKey::new(&mut rng, bits) {
        Ok(k) => {
            let n = rsa::traits::PublicKeyParts::n(&k).bits();
            Ok((k, n))
        },
        Err(e) => Err(e),
    }
}

/// `rsa::RsaPublicKey::from(&RsaPrivateKey)`: the public half of a key pair.
/// Nothing is stated of it.
#[verifier::external_body]
fn rsa_public_key_of(key: &rsa::RsaPrivateKey) -> (public: rsa::RsaPublicKey) {
    rsa::RsaPublicKey::from(key)
}

/// Why no key pair was made.
#[derive(Debug, PartialEq, Eq, Structural)]
pub enum KeyGenError {
    /// The length is not 1024, 2048, 3072 or 4096 bits.
    InvalidLength,
}

/// The key lengths that are accepted.
pub open spec fn valid_key_length(length: usize) -> bool {
    length == 1024 || length == 2048 || length == 3072 || length == 4096
}

/// A fresh RSA key pair of `length` bits, for the lengths 1024, 2048, 3072
/// and 4096, with the bit length of its modulus; any other length is refused.
/// Generation always succeeds for the accepted lengths.
pub fn gen_keys(length: usize) -> (keys: Result<(rsa::RsaPrivateKey, rsa::RsaPublicKey, usize), KeyGenError>)
    ensures
        !valid_key_length(length) ==> keys matches Err(KeyGenError::InvalidLength),
        valid_key_length(length) ==> keys is Ok,
        keys matches Ok(k) ==> k.2 == length,
{
    match length {
        1024 | 2048 | 3072 | 4096 => {
            match rsa_private_key_new(length) {
                Ok((priv_key, bits)) => {
                    let pub_key = rsa_public_key_of(&priv_key);
                    Ok((priv_key, pub_key, bits))
                },
                Err(_) => {
                    // generation succeeds for every accepted length
                    proof {
                        assert(false);
                    }
                    Err(KeyGenError::InvalidLength)
                },
            }
        },
        _ => Err(KeyGenError::InvalidLength),
    }
}

} // verus!
