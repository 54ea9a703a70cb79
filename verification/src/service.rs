//! The endpoints of the login service as decisions: each function takes what
//! the outside work (database, clock, mail) produced and says what to do next
//! or which reply to send.
use vstd::prelude::*;
use crate::auth::{
    claims_fields, fields_complete, generate_jwt, session_fields, hash_password, jwt_claims, jwt_for, now_and_later, password_hash,
    session_clock, token_view, unix_now, validate_jwt, AuthError, Claims,
};
use crate::text::concat3;

verus! {

/// Path of the account verification page, followed by the token.
pub open spec fn verify_path() -> Seq<char> {
    "/frontend/gui/html/verify.html?token="@
}

/// Path of the password recovery page, followed by the token.
pub open spec fn restore_path() -> Seq<char> {
    "/frontend/gui/html/restore.html?token="@
}

/// Link to the account verification page for `token`.
pub fn verify_url(app_url: &str, token: &str) -> (url: String)
    ensures
        url@ == app_url@ + verify_path() + token@,
{
    concat3(app_url, "/frontend/gui/html/verify.html?token=", token)
}

/// Link to the password recovery page for `token`.
pub fn restore_url(app_url: &str, token: &str) -> (url: String)
    ensures
        url@ == app_url@ + restore_path() + token@,
{
    concat3(app_url, "/frontend/gui/html/restore.html?token=", token)
}

// ---------------------------------------------------------------------------
// Sign-in
// ---------------------------------------------------------------------------

/// What the sign-in endpoint does once it tried to store the account.
#[derive(Debug)]
pub enum SigninOutcome {
    /// The account is stored: mail this verification link, reply success.
    SendVerification(String),
    /// The account is stored but no verification token could be made.
    TokenFailed,
    /// The account could not be stored.
    InsertFailed,
}

/// The sign-in reply once the account is stored and the verification token
/// `jwt` was made: the link to the verification page with that token, or
/// `TokenFailed`.
pub open spec fn signin_reply(out: SigninOutcome, jwt: Result<Seq<char>, AuthError>, app_url: Seq<char>) -> bool {
    match jwt {
        Ok(t) => out matches SigninOutcome::SendVerification(u) && u@ == app_url + verify_path() + t,
        Err(_) => out is TokenFailed,
    }
}

/// Sign-in after storing the account, given the verification token that was
/// made for it.
pub fn signin_outcome_with(jwt: Result<String, AuthError>, app_url: &str) -> (out: SigninOutcome)
    ensures
        signin_reply(out, token_view(jwt), app_url@),
{
    match jwt {
        Ok(t) => SigninOutcome::SendVerification(verify_url(app_url, t.as_str())),
        Err(_) => SigninOutcome::TokenFailed,
    }
}

/// Sign-in: when the account was stored, a session token for its e-mail is
/// made and a verification link built from it.
pub fn signin_outcome(inserted: bool, email: &str, secret: &str, app_url: &str) -> (out: SigninOutcome)
    ensures
        !inserted ==> out is InsertFailed,
        inserted ==> exists|expiry: Option<i64>, now: i64|
            session_clock(now, expiry) && signin_reply(out, #[trigger] jwt_for(email@, secret@, expiry, now), app_url@),
        out matches SigninOutcome::SendVerification(u) ==> exists|t: Seq<char>, now: i64|
            #![trigger jwt_claims(t, secret@), session_fields(email@, now)]
            u@ == app_url@ + verify_path() + t && jwt_claims(t, secret@) == Some(session_fields(email@, now)),
{
    if !inserted {
        return SigninOutcome::InsertFailed;
    }
    let jwt = generate_jwt(email, secret);
    signin_outcome_with(jwt, app_url)
}

// ---------------------------------------------------------------------------
// Log-in
// ---------------------------------------------------------------------------

/// The row of `users` read for a log-in.
#[derive(Debug)]
pub struct UserRow {
    pub email: String,
    /// The stored password hash.
    pub password: Vec<u8>,
    pub verified: bool,
    /// `None` for an account created before salts were stored.
    pub salt: Option<Vec<u8>>,
}

/// Whether `password` opens the account of `row`: the account is verified,
/// has a salt, and the stored hash is the hash of `password` under that salt.
pub open spec fn login_accepts(row: UserRow, password: &str) -> bool {
    &&& row.verified
    &&& row.salt is Some
    &&& row.password@ == password_hash(row.salt.unwrap()@, password)
}

/// Reply of the log-in endpoint.
#[derive(Debug)]
pub enum LoginOutcome {
    /// The password is right: this session token is sent.
    Success(String),
    /// The e-mail address has not been verified yet.
    NotVerified,
    /// The account has no salt and needs a password reset.
    NeedsReset,
    /// The password is right but no session token could be made.
    TokenFailed,
    /// The password is wrong.
    WrongPassword,
    /// No account has this e-mail address.
    UnknownEmail,
    /// Reading the rows failed.
    QueryFailed,
}

/// The log-in decision before any token is made.
#[derive(Debug)]
pub enum LoginCheck {
    /// Refuse with this reply.
    Refused(LoginOutcome),
    /// Accept: make a session token for this e-mail.
    IssueToken(String),
}

/// Checks a log-in attempt against the row read for its e-mail (`Err(())`
/// when reading the rows failed).
pub fn login_check(query: Result<Option<UserRow>, ()>, password: &str) -> (check: LoginCheck)
    ensures
        query is Err ==> check == LoginCheck::Refused(LoginOutcome::QueryFailed),
        query matches Ok(None) ==> check == LoginCheck::Refused(LoginOutcome::UnknownEmail),
        query matches Ok(Some(row)) ==> {
            &&& !row.verified ==> check == LoginCheck::Refused(LoginOutcome::NotVerified)
            &&& row.verified && row.salt is None ==> check == LoginCheck::Refused(
                LoginOutcome::NeedsReset,
            )
            &&& row.verified && row.salt is Some && !login_accepts(row, password) ==> check
                == LoginCheck::Refused(LoginOutcome::WrongPassword)
            &&& login_accepts(row, password) ==> (check matches LoginCheck::IssueToken(e) && e@
                == row.email@)
        },
{
    match query {
        Err(()) => LoginCheck::Refused(LoginOutcome::QueryFailed),
        Ok(None) => LoginCheck::Refused(LoginOutcome::UnknownEmail),
        Ok(Some(row)) => {
            if !row.verified {
                return LoginCheck::Refused(LoginOutcome::NotVerified);
            }
            match &row.salt {
                None => LoginCheck::Refused(LoginOutcome::NeedsReset),
                Some(salt) => {
                    let hashed = hash_password(salt.as_slice(), password);
                    let same = row.password == hashed;
                    proof {
                        if same {
                            assert(row.password@ =~= hashed@);
                        } else {
                            assert(row.password@ != hashed@);
                        }
                    }
                    if same {
                        LoginCheck::IssueToken(row.email)
                    } else {
                        LoginCheck::Refused(LoginOutcome::WrongPassword)
                    }
                },
            }
        },
    }
}

/// The log-in reply for an accepted password once the session token `jwt` was
/// made: the token, or `TokenFailed`.
pub open spec fn login_reply(out: LoginOutcome, jwt: Result<Seq<char>, AuthError>) -> bool {
    match jwt {
        Ok(t) => out matches LoginOutcome::Success(s) && s@ == t,
        Err(_) => out is TokenFailed,
    }
}

/// Log-in: the check of [`login_check`], then a session token for the
/// account's e-mail when it passes.
pub fn login_outcome(query: Result<Option<UserRow>, ()>, password: &str, secret: &str) -> (out: LoginOutcome)
    ensures
        query is Err ==> out is QueryFailed,
        query matches Ok(None) ==> out is UnknownEmail,
        query matches Ok(Some(row)) ==> {
            &&& !row.verified ==> out is NotVerified
            &&& row.verified && row.salt is None ==> out is NeedsReset
            &&& row.verified && row.salt is Some && !login_accepts(row, password) ==> out is WrongPassword
            &&& login_accepts(row, password) ==> exists|expiry: Option<i64>, now: i64|
                session_clock(now, expiry) && login_reply(out, #[trigger] jwt_for(row.email@, secret@, expiry, now))
            &&& out matches LoginOutcome::Success(t) ==> exists|now: i64|
                jwt_claims(t@, secret@) == Some(#[trigger] session_fields(row.email@, now))
        },
{
    match login_check(query, password) {
        LoginCheck::Refused(r) => r,
        LoginCheck::IssueToken(email) => match generate_jwt(email.as_str(), secret) {
            Ok(t) => LoginOutcome::Success(t),
            Err(_) => LoginOutcome::TokenFailed,
        },
    }
}


// ---------------------------------------------------------------------------
// Session validation and account verification
// ---------------------------------------------------------------------------

/// Reply of the session validation endpoint.
#[derive(Debug, PartialEq, Eq, Structural)]
pub enum ValOutcome {
    /// The token was accepted; `val` is sent with the reply.
    Checked(bool),
    /// The token has expired or is incorrect.
    Rejected,
}

/// Validation reply for the result of reading the token and the current time
/// `now`: a token whose expiry is exactly `now` is reported as not valid.
pub fn val_outcome(validation: Result<Claims, AuthError>, now: i64) -> (out: ValOutcome)
    ensures
        validation matches Ok(c) ==> out == ValOutcome::Checked(c.exp != now as usize),
        validation is Err ==> out is Rejected,
{
    match validation {
        Ok(c) => ValOutcome::Checked(c.exp != now as usize),
        Err(_) => ValOutcome::Rejected,
    }
}

/// The reply to a session token with claims `c` read at time `now`.
pub open spec fn checked_reply(c: Claims, now: i64) -> ValOutcome {
    ValOutcome::Checked(c.exp != now as usize)
}

/// Session validation: reads the token, then compares its expiry with the
/// current time (see [`val_outcome`]). A token that does not decode under
/// `secret` is rejected; a checked token is compared by the claims it holds.
/// Whether a well-formed token has expired, and the current time, rest on the
/// clock, of which nothing is stated.
pub fn check_session(token: &str, secret: &str) -> (out: ValOutcome)
    ensures
        jwt_claims(token@, secret@) is None ==> out is Rejected,
        jwt_claims(token@, secret@) matches Some(f) && !fields_complete(f) ==> out is Rejected,
        out is Checked ==> exists|c: Claims, now: i64|
            jwt_claims(token@, secret@) == Some(claims_fields(c)) && out == #[trigger] checked_reply(c, now),
{
    match validate_jwt(token, secret) {
        Ok(c) => {
            let now = unix_now();
            let ghost gc = c;
            let out = val_outcome(Ok(c), now);
            assert(out == checked_reply(gc, now));
            out
        },
        Err(e) => val_outcome(Err(e), 0),
    }
}

/// The e-mail whose account a verification token confirms: its subject, when
/// the token is accepted.
pub fn account_to_verify(validation: Result<Claims, AuthError>) -> (email: Option<String>)
    ensures
        validation matches Ok(c) ==> (email matches Some(e) && e@ == c.sub@),
        validation is Err ==> email is None,
{
    match validation {
        Ok(c) => Some(c.sub),
        Err(_) => None,
    }
}

// ---------------------------------------------------------------------------
// Recovery, first part: mailing a recovery link
// ---------------------------------------------------------------------------

/// Lifetime of a recovery token: one hour.
pub const RESTORE_HOURS: i64 = 1;

/// Final reply of the recovery request. The error values are those sent to
/// the client: `1` unknown e-mail, `2` database error, `4` token not stored,
/// `5` mail not sent.
#[derive(Debug, PartialEq, Eq, Structural)]
pub enum RestoreInitOutcome {
    Done,
    Failed(u8),
    /// The expiry of the token would leave the calendar range.
    ClockOutOfRange,
}

/// The next step of the recovery request.
#[derive(Debug)]
pub enum RestoreInitStep {
    /// Store the hash of the token for this user with this expiry; the
    /// request was made at `issued_at`.
    InsertToken { user_id: i32, username: String, issued_at: i64, expires_at: i64 },
    /// Mail this recovery link.
    SendMail(String),
    /// Reply.
    Finish(RestoreInitOutcome),
}

/// First step of the recovery request, given the user looked up by e-mail
/// (`Err(())` on a database error), the time `now` of the request and the
/// expiry read from the clock (`None` when out of range).
pub fn restore_init_begin_at(lookup: Result<Option<(i32, String)>, ()>, now: i64, expiry: Option<i64>) -> (step: RestoreInitStep)
    ensures
        lookup is Err ==> step == RestoreInitStep::Finish(RestoreInitOutcome::Failed(2)),
        lookup matches Ok(None) ==> step == RestoreInitStep::Finish(RestoreInitOutcome::Failed(1)),
        lookup matches Ok(Some(u)) ==> match expiry {
            None => step == RestoreInitStep::Finish(RestoreInitOutcome::ClockOutOfRange),
            Some(e) => step == RestoreInitStep::InsertToken { user_id: u.0, username: u.1, issued_at: now, expires_at: e },
        },
{
    match lookup {
        Err(()) => RestoreInitStep::Finish(RestoreInitOutcome::Failed(2)),
        Ok(None) => RestoreInitStep::Finish(RestoreInitOutcome::Failed(1)),
        Ok(Some((user_id, username))) => match expiry {
            None => RestoreInitStep::Finish(RestoreInitOutcome::ClockOutOfRange),
            Some(e) => RestoreInitStep::InsertToken { user_id, username, issued_at: now, expires_at: e },
        },
    }
}

/// First step of the recovery request; reads the clock only when the user
/// exists. The token expires one hour after the request.
pub fn restore_init_begin(lookup: Result<Option<(i32, String)>, ()>) -> (step: RestoreInitStep)
    ensures
        lookup is Err ==> step == RestoreInitStep::Finish(RestoreInitOutcome::Failed(2)),
        lookup matches Ok(None) ==> step == RestoreInitStep::Finish(RestoreInitOutcome::Failed(1)),
        lookup matches Ok(Some(u)) ==> step == RestoreInitStep::Finish(RestoreInitOutcome::ClockOutOfRange)
            || (step matches RestoreInitStep::InsertToken { user_id, username, issued_at, expires_at }
            && user_id == u.0 && username == u.1 && expires_at == issued_at + RESTORE_HOURS * 3600),
{
    let (now, expiry) = match &lookup {
        Ok(Some(_)) => now_and_later(RESTORE_HOURS),
        _ => (0, None),
    };
    restore_init_begin_at(lookup, now, expiry)
}

/// After storing the token: mail the link built from the raw token, or reply
/// with error `4`.
pub fn restore_init_after_insert(inserted: bool, app_url: &str, raw_token: &str) -> (step: RestoreInitStep)
    ensures
        !inserted ==> step == RestoreInitStep::Finish(RestoreInitOutcome::Failed(4)),
        inserted ==> (step matches RestoreInitStep::SendMail(u) && u@ == app_url@ + restore_path() + raw_token@),
{
    if inserted {
        RestoreInitStep::SendMail(restore_url(app_url, raw_token))
    } else {
        RestoreInitStep::Finish(RestoreInitOutcome::Failed(4))
    }
}

/// After mailing the link: done, or error `5`.
pub fn restore_init_after_mail(sent: bool) -> (out: RestoreInitOutcome)
    ensures
        sent ==> out is Done,
        !sent ==> out == RestoreInitOutcome::Failed(5),
{
    if sent {
        RestoreInitOutcome::Done
    } else {
        RestoreInitOutcome::Failed(5)
    }
}

// ---------------------------------------------------------------------------
// Recovery, second part: setting the new password
// ---------------------------------------------------------------------------

/// The row of `restore_token` found for the hash of a token.
#[derive(Debug)]
pub struct TokenRow {
    pub user_id: i32,
    pub expires_at: i64,
    pub status: String,
}

/// A write to the database during the password change.
#[derive(Debug, PartialEq, Eq, Structural)]
pub enum RestoreWrite {
    /// Set the token's status to `expired`.
    MarkExpired,
    /// Store a new salt and password hash for this user.
    UpdatePassword(i32),
    /// Set the token's status to `used` once the password is changed, so that
    /// it can never change a password again.
    SpendToken,
    /// Set the token's status to `used` after the password could not be stored.
    MarkUsed,
}

/// Final reply of the password change. The error values are those sent to the
/// client: `1` unknown token, `2` database error, `3` token used or expired,
/// `4` password not stored, `5` token not marked used after the change, `6`
/// status not updated to used, `7` expired token, `66` status not updated to
/// expired.
#[derive(Debug, PartialEq, Eq, Structural)]
pub enum RestoreOutcome {
    Done,
    Failed(i32),
}

/// The next step of the password change.
#[derive(Debug, PartialEq, Eq, Structural)]
pub enum RestoreNext {
    Perform(RestoreWrite),
    Finish(RestoreOutcome),
}

/// Whether a token in status `status` that expires at `expires_at` may still
/// change a password at time `now`.
pub open spec fn token_usable(status: Seq<char>, expires_at: i64, now: i64) -> bool {
    status == "pending"@ && now <= expires_at
}

/// First decision of the password change, given the token row looked up by
/// the hash of the token (`Err(())` on a database error) and the time `now`:
/// only a pending token that has not expired changes the password.
pub fn restore_check(lookup: Result<Option<TokenRow>, ()>, now: i64) -> (next: RestoreNext)
    ensures
        lookup is Err ==> next == RestoreNext::Finish(RestoreOutcome::Failed(2)),
        lookup matches Ok(None) ==> next == RestoreNext::Finish(RestoreOutcome::Failed(1)),
        lookup matches Ok(Some(row)) ==> {
            &&& row.status@ != "pending"@ ==> next == RestoreNext::Finish(RestoreOutcome::Failed(3))
            &&& row.status@ == "pending"@ && now > row.expires_at ==> next == RestoreNext::Perform(
                RestoreWrite::MarkExpired,
            )
            &&& token_usable(row.status@, row.expires_at, now) ==> next == RestoreNext::Perform(
                RestoreWrite::UpdatePassword(row.user_id),
            )
        },
{
    match lookup {
        Err(()) => RestoreNext::Finish(RestoreOutcome::Failed(2)),
        Ok(None) => RestoreNext::Finish(RestoreOutcome::Failed(1)),
        Ok(Some(row)) => {
            let pending = "pending".to_owned();
            if row.status != pending {
                return RestoreNext::Finish(RestoreOutcome::Failed(3));
            }
            if now > row.expires_at {
                return RestoreNext::Perform(RestoreWrite::MarkExpired);
            }
            RestoreNext::Perform(RestoreWrite::UpdatePassword(row.user_id))
        },
    }
}

/// First decision of the password change; reads the clock once the token is
/// known to be pending.
pub fn restore_begin(lookup: Result<Option<TokenRow>, ()>) -> (next: RestoreNext)
    ensures
        lookup is Err ==> next == RestoreNext::Finish(RestoreOutcome::Failed(2)),
        lookup matches Ok(None) ==> next == RestoreNext::Finish(RestoreOutcome::Failed(1)),
        lookup matches Ok(Some(row)) ==> {
            &&& row.status@ != "pending"@ ==> next == RestoreNext::Finish(RestoreOutcome::Failed(3))
            &&& row.status@ == "pending"@ ==> (next == RestoreNext::Perform(RestoreWrite::MarkExpired)
                || next == RestoreNext::Perform(RestoreWrite::UpdatePassword(row.user_id)))
        },
{
    let now = match &lookup {
        Ok(Some(_)) => unix_now(),
        _ => 0,
    };
    restore_check(lookup, now)
}

/// The step after a write of the password change, given whether it succeeded.
pub open spec fn restore_transition(write: RestoreWrite, ok: bool) -> RestoreNext {
    match write {
        RestoreWrite::MarkExpired => RestoreNext::Finish(RestoreOutcome::Failed(if ok { 7 } else { 66 })),
        RestoreWrite::UpdatePassword(_) => if ok {
            RestoreNext::Perform(RestoreWrite::SpendToken)
        } else {
            RestoreNext::Perform(RestoreWrite::MarkUsed)
        },
        RestoreWrite::SpendToken => if ok {
            RestoreNext::Finish(RestoreOutcome::Done)
        } else {
            RestoreNext::Finish(RestoreOutcome::Failed(5))
        },
        RestoreWrite::MarkUsed => RestoreNext::Finish(RestoreOutcome::Failed(if ok { 4 } else { 6 })),
    }
}

/// The step after a write of the password change: an expired token is
/// reported once marked; a stored password is followed by marking the token
/// used; a failed password write marks the token used as well.
pub fn restore_after(write: RestoreWrite, ok: bool) -> (next: RestoreNext)
    ensures
        next == restore_transition(write, ok),
{
    match write {
        RestoreWrite::MarkExpired => RestoreNext::Finish(RestoreOutcome::Failed(if ok { 7 } else { 66 })),
        RestoreWrite::UpdatePassword(_) => if ok {
            RestoreNext::Perform(RestoreWrite::SpendToken)
        } else {
            RestoreNext::Perform(RestoreWrite::MarkUsed)
        },
        RestoreWrite::SpendToken => if ok {
            RestoreNext::Finish(RestoreOutcome::Done)
        } else {
            RestoreNext::Finish(RestoreOutcome::Failed(5))
        },
        RestoreWrite::MarkUsed => RestoreNext::Finish(RestoreOutcome::Failed(if ok { 4 } else { 6 })),
    }
}


// ---------------------------------------------------------------------------
// Laws
// ---------------------------------------------------------------------------

/// The steps of the password change from `next` when the writes report
/// `results` in turn.
pub open spec fn restore_run(next: RestoreNext, results: Seq<bool>) -> RestoreNext
    decreases results.len(),
{
    match next {
        RestoreNext::Perform(w) => if results.len() > 0 {
            restore_run(restore_transition(w, results[0]), results.drop_first())
        } else {
            next
        },
        RestoreNext::Finish(_) => next,
    }
}

/// A password change that starts by storing the new password ends in success
/// exactly when the password and the token's `used` status are both written.
pub proof fn lemma_restore_done_iff_written(user_id: i32, results: Seq<bool>)
    ensures
        (restore_run(RestoreNext::Perform(RestoreWrite::UpdatePassword(user_id)), results)
            == RestoreNext::Finish(RestoreOutcome::Done)) <==> (results.len() >= 2 && results[0]
            && results[1]),
{
    let start = RestoreNext::Perform(RestoreWrite::UpdatePassword(user_id));
    reveal_with_fuel(restore_run, 3);
    if results.len() == 0 {
    } else {
        let r1 = results.drop_first();
        assert(restore_run(start, results) == restore_run(restore_transition(RestoreWrite::UpdatePassword(user_id), results[0]), r1));
        if results[0] {
            if r1.len() > 0 {
                assert(r1[0] == results[1]);
                let r2 = r1.drop_first();
                assert(restore_run(RestoreNext::Finish(RestoreOutcome::Done), r2) == RestoreNext::Finish(RestoreOutcome::Done));
                assert(restore_run(RestoreNext::Finish(RestoreOutcome::Failed(5)), r2) == RestoreNext::Finish(RestoreOutcome::Failed(5)));
            }
        } else {
            if r1.len() > 0 {
                assert(r1[0] == results[1]);
                let r2 = r1.drop_first();
                assert(restore_run(RestoreNext::Finish(RestoreOutcome::Failed(4)), r2) == RestoreNext::Finish(RestoreOutcome::Failed(4)));
                assert(restore_run(RestoreNext::Finish(RestoreOutcome::Failed(6)), r2) == RestoreNext::Finish(RestoreOutcome::Failed(6)));
            }
        }
    }
}

/// The password change only succeeds after a password write: from an expired
/// token, a failed password write, or any other reply, no sequence of write
/// results reaches success.
pub proof fn lemma_restore_done_needs_update(next: RestoreNext, results: Seq<bool>)
    requires
        restore_run(next, results) == RestoreNext::Finish(RestoreOutcome::Done),
    ensures
        next == RestoreNext::Finish(RestoreOutcome::Done) || next matches RestoreNext::Perform(
            RestoreWrite::UpdatePassword(_),
        ) || next == RestoreNext::Perform(RestoreWrite::SpendToken),
    decreases results.len(),
{
    match next {
        RestoreNext::Perform(w) => {
            if results.len() > 0 {
                let after = restore_transition(w, results[0]);
                assert(restore_run(next, results) == restore_run(after, results.drop_first()));
                lemma_restore_done_needs_update(after, results.drop_first());
            }
        },
        RestoreNext::Finish(_) => {},
    }
}

/// An account whose stored hash was made from `password` under its salt (as
/// [`new_credentials`](crate::auth::new_credentials) makes them) and that is
/// verified accepts `password` at log-in.
pub proof fn lemma_registered_password_accepted(row: UserRow, password: &str)
    requires
        row.verified,
        row.salt matches Some(s) && row.password@ == password_hash(s@, password),
    ensures
        login_accepts(row, password),
{
}

} // verus!
