//! The decision logic of the login service: password hashing, opaque
//! recovery tokens, session tokens (JWT) and the replies of the sign-in,
//! log-in, validation, recovery and verification endpoints.
//!
//! The service itself (HTTP, database, e-mail) runs outside this library and
//! hands every result of that outside work back to the functions here, which
//! decide what to do next.
use vstd::prelude::*;
use crate::text::{hex_spec, to_hex};
use rand::RngCore;
use sha3::Digest;

verus! {

// ---------------------------------------------------------------------------
// Outside types
// ---------------------------------------------------------------------------

/// Error of the `jsonwebtoken` crate.
#[verifier::external_type_specification]
#[verifier::external_body]
pub struct ExJwtError(jsonwebtoken::errors::Error);

// ---------------------------------------------------------------------------
// Hashing and randomness
// ---------------------------------------------------------------------------

/// The SHA3-256 digest of `data`.
pub uninterp spec fn sha3_256_digest(data: Seq<u8>) -> Seq<u8>;

/// `sha3::Sha3_256::digest`: the 32-byte SHA3-256 digest of `data`. The
/// contract names the digest and states its length; the hash itself is the
/// `sha3` crate's.
#[verifier::external_body]
fn sha3_256(data: &[u8]) -> (digest: Vec<u8>)
    ensures
        digest@ == sha3_256_digest(data@),
        digest@.len() == 32,
{
    sha3::Sha3_256::digest(data).to_vec()
}

/// `rand::RngCore::fill_bytes` on the thread-local generator of `rand`: `n`
/// random bytes. Only their number is stated.
#[verifier::external_body]
fn random_bytes(n: usize) -> (bytes: Vec<u8>)
    ensures
        bytes@.len() == n,
{
    let mut bytes = vec![0u8; n];
    rand::thread_rng().fill_bytes(&mut bytes);
    bytes
}

/// 16 random bytes used as a per-user password salt.
pub fn generate_salt() -> (salt: Vec<u8>)
    ensures
        salt@.len() == 16,
{
    random_bytes(16)
}

/// 32 random bytes hex-encoded: the raw recovery token sent in the e-mail.
pub fn generate_opaque_token() -> (token: String)
    ensures
        token@.len() == 64,
        exists|bytes: Seq<u8>| bytes.len() == 32 && token@ == hex_spec(bytes),
{
    let bytes = random_bytes(32);
    to_hex(bytes.as_slice())
}

/// The stored password hash: SHA3-256 of the salt followed by the UTF-8 bytes
/// of the password.
pub open spec fn password_hash(salt: Seq<u8>, password: &str) -> Seq<u8> {
    sha3_256_digest(salt + vstd::utf8::encode_utf8(password@))
}

/// `SHA3-256(salt || password)`: 32 bytes, stored in `users.password`.
pub fn hash_password(salt: &[u8], password: &str) -> (hash: Vec<u8>)
    ensures
        hash@ == password_hash(salt@, password),
        hash@.len() == 32,
{
    let mut data = vstd::slice::slice_to_vec(salt);
    let mut pw = vstd::slice::slice_to_vec(password.as_bytes());
    data.append(&mut pw);
    sha3_256(data.as_slice())
}

/// Hex-encoded SHA3-256 digest; recovery tokens are stored this way.
pub fn sha3_hex(input: &[u8]) -> (hex: String)
    ensures
        hex@ == hex_spec(sha3_256_digest(input@)),
        hex@.len() == 64,
{
    let digest = sha3_256(input);
    to_hex(digest.as_slice())
}

/// A fresh salt and the hash of `password` under it.
pub fn new_credentials(password: &str) -> (cred: (Vec<u8>, Vec<u8>))
    ensures
        cred.0@.len() == 16,
        cred.1@ == password_hash(cred.0@, password),
{
    let salt = generate_salt();
    let hash = hash_password(salt.as_slice(), password);
    (salt, hash)
}

/// A fresh raw recovery token and the hash under which it is stored.
pub fn new_restore_token() -> (token: (String, String))
    ensures
        token.0@.len() == 64,
        exists|bytes: Seq<u8>| bytes.len() == 32 && token.0@ == hex_spec(bytes),
        token.1@ == hex_spec(sha3_256_digest(vstd::utf8::encode_utf8(token.0@))),
{
    let raw = generate_opaque_token();
    let hash = sha3_hex(raw.as_str().as_bytes());
    (raw, hash)
}

// ---------------------------------------------------------------------------
// Clock
// ---------------------------------------------------------------------------

/// `chrono::Utc::now().timestamp()`: the current Unix time in seconds.
/// Nothing is stated of it.
#[verifier::external_body]
pub(crate) fn unix_now() -> (now: i64) {
    chrono::Utc::now().timestamp()
}

/// `chrono::Utc::now()` and the same instant `hours` hours later
/// (`chrono::TimeDelta::try_hours`, then `DateTime::checked_add_signed`), both
/// as Unix timestamps in seconds. The later one is `None` when the number of
/// seconds overflows or the date leaves chrono's range. What is stated: adding
/// whole hours adds exactly `3600 · hours` seconds. The current time itself is
/// not stated.
#[verifier::external_body]
pub(crate) fn now_and_later(hours: i64) -> (t: (i64, Option<i64>))
    ensures
        t.1 matches Some(later) ==> later == t.0 + hours * 3600,
{
    let now = chrono::Utc::now();
    let later = match chrono::TimeDelta::try_hours(hours) {
        Some(d) => now.checked_add_signed(d),
        None => None,
    };
    (now.timestamp(), match later {
        Some(l) => Some(l.timestamp()),
        None => None,
    })
}

// ---------------------------------------------------------------------------
// Session tokens
// ---------------------------------------------------------------------------

/// The claims of a session token.
#[derive(Debug)]
pub struct Claims {
    /// Subject: the e-mail of the user.
    pub sub: String,
    /// Expiry, Unix time in seconds.
    pub exp: usize,
    /// Issue time, Unix time in seconds.
    pub iat: usize,
}

/// Why a session token could not be made or read.
#[derive(Debug, PartialEq, Eq, Structural)]
pub enum AuthError {
    /// The `jsonwebtoken` crate rejected the token (bad signature, expired,
    /// malformed).
    Jwt,
    /// The decoded claims lack `sub`, `exp` or `iat`, or one has the wrong type.
    Claims,
    /// Adding the token lifetime to the current time leaves the calendar range.
    Timestamp,
}

/// The token `jsonwebtoken::encode` makes with the default header (HS256) for
/// the claims `{"sub", "exp", "iat"}` and the HMAC secret.
pub uninterp spec fn jwt_encoding(sub: Seq<char>, exp: usize, iat: usize, secret: Seq<char>) -> Seq<char>;

/// The members `sub` (when it is a string), `exp` and `iat` (when they are
/// unsigned integers) of the payload of `token`, when `jsonwebtoken::decode`
/// with `Validation::default()` and `DecodingKey::from_secret(secret)` accepts
/// it apart from the expiry check against the clock; `None` when decoding
/// refuses it for a reason other than the time (format, algorithm, signature,
/// missing `exp`, an `aud` member).
pub uninterp spec fn jwt_claims(token: Seq<char>, secret: Seq<char>) -> Option<(Option<Seq<char>>, Option<u64>, Option<u64>)>;

/// The claim members read from a decoded token, strings taken by their view.
pub open spec fn fields_view(f: (Option<String>, Option<u64>, Option<u64>)) -> (Option<Seq<char>>, Option<u64>, Option<u64>) {
    (
        match f.0 {
            Some(s) => Some(s@),
            None => None,
        },
        f.1,
        f.2,
    )
}

/// `jsonwebtoken::encode` with the default header, the claims `sub`, `exp`,
/// `iat` in this order, and `EncodingKey::from_secret` of the secret's bytes.
/// HMAC signing is deterministic, so the token is named as a function of its
/// arguments. With HS256 and a secret key encoding never fails, and decoding
/// the token with the same secret gives the three claims back (apart from the
/// expiry check, which [`jwt_claims`] leaves out).
#[verifier::external_body]
fn jwt_encode(sub: &str, exp: usize, iat: usize, secret: &str) -> (token: Result<String, jsonwebtoken::errors::Error>)
    ensures
        token is Ok,
        token matches Ok(t) ==> t@ == jwt_encoding(sub@, exp, iat, secret@),
        token matches Ok(t) ==> jwt_claims(t@, secret@) == Some((Some(sub@), Some(exp as u64), Some(iat as u64))),
{
    let mut claims = serde_json::Map::new();
    claims.insert("sub".to_string(), serde_json::Value::from(sub));
    claims.insert("exp".to_string(), serde_json::Value::from(exp));
    claims.insert("iat".to_string(), serde_json::Value::from(iat));
    let key = jsonwebtoken::EncodingKey::from_secret(secret.as_bytes());
    jsonwebtoken::encode(&jsonwebtoken::Header::default(), &claims, &key)
}

/// `jsonwebtoken::decode` into a JSON value with `Validation::default()`
/// (HS256, `exp` required) and `DecodingKey::from_secret`, then the members
/// `sub`, `exp` and `iat` read with `serde_json::Value::get` and `as_u64`.
/// What comes back is [`jwt_claims`] of the arguments; on top of its checks,
/// decoding refuses a token whose `exp` lies more than 60 s in the past, which
/// rests on the clock: so a token that `jwt_claims` accepts may still be
/// refused.
#[verifier::external_body]
fn jwt_decode(token: &str, secret: &str) -> (fields: Result<(Option<String>, Option<u64>, Option<u64>), jsonwebtoken::errors::Error>)
    ensures
        fields matches Ok(f) ==> jwt_claims(token@, secret@) == Some(fields_view(f)),
        jwt_claims(token@, secret@) is None ==> fields is Err,
{
    let key = jsonwebtoken::DecodingKey::from_secret(secret.as_bytes());
    match jsonwebtoken::decode::<serde_json::Value>(token, &key, &jsonwebtoken::Validation::default()) {
        Ok(data) => Ok((
            match data.claims.get("sub") { Some(serde_json::Value::String(s)) => Some(s.clone()), _ => None },
            match data.claims.get("exp") { Some(v) => v.as_u64(), None => None },
            match data.claims.get("iat") { Some(v) => v.as_u64(), None => None },
        )),
        Err(e) => Err(e),
    }
}

/// Lifetime of a session token: four hours.
pub const SESSION_HOURS: i64 = 4;

/// The session token for `user_id` given the two readings of the clock:
/// `expiry`, the current time plus four hours (`None` when out of range), and
/// `now`, the issue time.
pub open spec fn jwt_for(user_id: Seq<char>, secret: Seq<char>, expiry: Option<i64>, now: i64) -> Result<Seq<char>, AuthError> {
    match expiry {
        None => Err(AuthError::Timestamp),
        Some(e) => Ok(jwt_encoding(user_id, e as usize, now as usize, secret)),
    }
}

/// The claims of a session token for `user_id` issued at `now`: subject
/// `user_id`, expiry four hours later, issue time `now`.
pub open spec fn session_fields(user_id: Seq<char>, now: i64) -> (Option<Seq<char>>, Option<u64>, Option<u64>) {
    (Some(user_id), Some((now + SESSION_HOURS * 3600) as i64 as usize as u64), Some(now as usize as u64))
}

/// The two clock readings of a session token: `expiry`, when in range, is
/// four hours after `now`.
pub open spec fn session_clock(now: i64, expiry: Option<i64>) -> bool {
    expiry matches Some(e) ==> e == now + SESSION_HOURS * 3600
}

/// A token result with the token taken by its view.
pub open spec fn token_view(token: Result<String, AuthError>) -> Result<Seq<char>, AuthError> {
    match token {
        Ok(t) => Ok(t@),
        Err(e) => Err(e),
    }
}

/// Session token for `user_id` from given clock readings (see [`jwt_for`]).
pub fn generate_jwt_at(user_id: &str, secret: &str, expiry: Option<i64>, now: i64) -> (token: Result<String, AuthError>)
    ensures
        token_view(token) == jwt_for(user_id@, secret@, expiry, now),
        token matches Ok(t) ==> jwt_claims(t@, secret@) == Some(
            (Some(user_id@), Some(expiry.unwrap() as usize as u64), Some(now as usize as u64)),
        ),
{
    match expiry {
        None => Err(AuthError::Timestamp),
        Some(e) => {
            let claims = Claims { sub: user_id.to_owned(), exp: e as usize, iat: now as usize };
            match jwt_encode(claims.sub.as_str(), claims.exp, claims.iat, secret) {
                Ok(t) => Ok(t),
                Err(_) => Err(AuthError::Jwt),
            }
        },
    }
}

/// Generation of a session token: HS256, subject `user_id`, issued now,
/// expiring four hours later. The result is [`jwt_for`] of the clock readings,
/// whatever the current time was, and the token decodes back to those claims.
pub fn generate_jwt(user_id: &str, secret: &str) -> (token: Result<String, AuthError>)
    ensures
        exists|now: i64, expiry: Option<i64>|
            session_clock(now, expiry) && token_view(token) == #[trigger] jwt_for(user_id@, secret@, expiry, now),
        token matches Ok(t) ==> exists|now: i64| jwt_claims(t@, secret@) == Some(#[trigger] session_fields(user_id@, now)),
{
    let (now, expiry) = now_and_later(SESSION_HOURS);
    let token = generate_jwt_at(user_id, secret, expiry, now);
    assert(session_clock(now, expiry));
    assert(token_view(token) == jwt_for(user_id@, secret@, expiry, now));
    proof {
        if token is Ok {
            assert(jwt_claims(token->Ok_0@, secret@) == Some(session_fields(user_id@, now)));
        }
    }
    token
}

/// The claims read from the members `sub`, `exp` and `iat` of a decoded token:
/// all three must be present, and the two times must fit in `usize`.
pub fn claims_from_fields(sub: Option<String>, exp: Option<u64>, iat: Option<u64>) -> (claims: Result<Claims, AuthError>)
    ensures
        claims is Ok <==> (sub is Some && exp is Some && iat is Some && exp.unwrap() <= usize::MAX
            && iat.unwrap() <= usize::MAX),
        claims matches Ok(c) ==> c.sub == sub.unwrap() && c.exp == exp.unwrap() && c.iat == iat.unwrap(),
        claims matches Err(e) ==> e is Claims,
{
    match (sub, exp, iat) {
        (Some(sub), Some(exp), Some(iat)) => {
            if exp <= usize::MAX as u64 && iat <= usize::MAX as u64 {
                Ok(Claims { sub, exp: exp as usize, iat: iat as usize })
            } else {
                Err(AuthError::Claims)
            }
        },
        _ => Err(AuthError::Claims),
    }
}

/// Whether decoded claim members make [`Claims`]: all three present, the
/// times within `usize`.
pub open spec fn fields_complete(f: (Option<Seq<char>>, Option<u64>, Option<u64>)) -> bool {
    f.0 is Some && f.1 is Some && f.2 is Some && f.1.unwrap() <= usize::MAX && f.2.unwrap() <= usize::MAX
}

/// The decoded claim members that `c` was read from.
pub open spec fn claims_fields(c: Claims) -> (Option<Seq<char>>, Option<u64>, Option<u64>) {
    (Some(c.sub@), Some(c.exp as u64), Some(c.iat as u64))
}

/// Validates a session token and reads its claims. The signature, the
/// algorithm and the expiry are checked by `jsonwebtoken`; the claims must
/// hold a string `sub` and unsigned integers `exp` and `iat`
/// (see [`claims_from_fields`]). The claims that come back are those of the
/// token under `secret` ([`jwt_claims`]); a token refused apart from the time
/// gives `Jwt`, incomplete claims give `Claims`, and a well-formed token may
/// still be refused with `Jwt` once it has expired, which rests on the clock.
pub fn validate_jwt(token: &str, secret: &str) -> (claims: Result<Claims, AuthError>)
    ensures
        claims matches Ok(c) ==> jwt_claims(token@, secret@) == Some(claims_fields(c)),
        jwt_claims(token@, secret@) is None ==> claims == Err::<Claims, AuthError>(AuthError::Jwt),
        jwt_claims(token@, secret@) matches Some(f) && !fields_complete(f) ==> claims is Err,
        jwt_claims(token@, secret@) matches Some(f) && fields_complete(f) && claims is Err ==> claims
            == Err::<Claims, AuthError>(AuthError::Jwt),
        claims matches Err(e) ==> (e is Jwt || e is Claims),
{
    match jwt_decode(token, secret) {
        Err(_) => Err(AuthError::Jwt),
        Ok(fields) => {
            let (sub, exp, iat) = fields;
            claims_from_fields(sub, exp, iat)
        },
    }
}

/// A session token validates back to its subject: the claims that
/// [`validate_jwt`] accepts from a token that [`generate_jwt`] made for
/// `user_id` (under the same secret) have `user_id` as their subject.
pub proof fn lemma_session_round_trip(token: Seq<char>, secret: Seq<char>, user_id: Seq<char>, c: Claims)
    requires
        jwt_claims(token, secret) matches Some(f) && f.0 == Some(user_id),
        jwt_claims(token, secret) == Some(claims_fields(c)),
    ensures
        c.sub@ == user_id,
{
}

} // verus!
