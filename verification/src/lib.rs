//! Classroom cryptography: Hill cipher block modes, Euclid's algorithms,
//! modular matrices, the first steps of DES, RSA key generation and the
//! decision logic of a small login service.
use vstd::prelude::*;

pub mod arith;
pub mod hill;
pub mod euclid;
pub mod des;
pub mod text;
pub mod auth;
pub mod service;
pub mod matrix;
pub mod rsa_keys;
pub mod mail;
