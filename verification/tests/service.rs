use cryptolab::auth::{generate_jwt, hash_password, new_credentials, AuthError, Claims};
use cryptolab::service::{
    account_to_verify, check_session, login_check, login_outcome, restore_after, restore_check,
    restore_init_after_insert, restore_init_after_mail, restore_init_begin, restore_init_begin_at, restore_url,
    signin_outcome, signin_outcome_with, val_outcome, verify_url, LoginCheck, LoginOutcome,
    RestoreInitOutcome, RestoreInitStep, RestoreNext, RestoreOutcome, RestoreWrite, SigninOutcome,
    TokenRow, UserRow, ValOutcome,
};

fn row(verified: bool, salt: Option<Vec<u8>>, password: Vec<u8>) -> UserRow {
    UserRow { email: "ana@example.com".to_string(), password, verified, salt }
}

#[test]
fn urls_append_path_and_token() {
    assert_eq!(
        verify_url("https://crypto.eddndev.work", "abc"),
        "https://crypto.eddndev.work/frontend/gui/html/verify.html?token=abc"
    );
    assert_eq!(
        restore_url("http://localhost:5500", "t0k"),
        "http://localhost:5500/frontend/gui/html/restore.html?token=t0k"
    );
}

#[test]
fn signin_without_insert_fails() {
    assert!(matches!(signin_outcome(false, "a@b.c", "k", "http://x"), SigninOutcome::InsertFailed));
}

#[test]
fn signin_with_token_sends_link() {
    match signin_outcome_with(Ok("tok".to_string()), "http://x") {
        SigninOutcome::SendVerification(url) => {
            assert_eq!(url, "http://x/frontend/gui/html/verify.html?token=tok")
        }
        other => panic!("unexpected {:?}", other),
    }
    assert!(matches!(signin_outcome_with(Err(AuthError::Jwt), "http://x"), SigninOutcome::TokenFailed));
}

#[test]
fn signin_after_insert_mails_a_valid_token() {
    match signin_outcome(true, "a@b.c", "k", "http://x") {
        SigninOutcome::SendVerification(url) => {
            let token = url.rsplit('=').next().unwrap();
            let claims = cryptolab::auth::validate_jwt(token, "k").expect("valid");
            assert_eq!(claims.sub, "a@b.c");
        }
        other => panic!("unexpected {:?}", other),
    }
}

#[test]
fn login_refusals() {
    assert!(matches!(login_check(Err(()), "pw"), LoginCheck::Refused(LoginOutcome::QueryFailed)));
    assert!(matches!(login_check(Ok(None), "pw"), LoginCheck::Refused(LoginOutcome::UnknownEmail)));
    let (salt, hash) = new_credentials("pw");
    assert!(matches!(
        login_check(Ok(Some(row(false, Some(salt.clone()), hash.clone()))), "pw"),
        LoginCheck::Refused(LoginOutcome::NotVerified)
    ));
    assert!(matches!(
        login_check(Ok(Some(row(true, None, hash.clone()))), "pw"),
        LoginCheck::Refused(LoginOutcome::NeedsReset)
    ));
    assert!(matches!(
        login_check(Ok(Some(row(true, Some(salt), hash))), "other"),
        LoginCheck::Refused(LoginOutcome::WrongPassword)
    ));
}

#[test]
fn registered_password_logs_in() {
    let (salt, hash) = new_credentials("pw");
    match login_check(Ok(Some(row(true, Some(salt), hash))), "pw") {
        LoginCheck::IssueToken(email) => assert_eq!(email, "ana@example.com"),
        other => panic!("unexpected {:?}", other),
    }
}

#[test]
fn login_issues_session_token() {
    let salt = vec![9u8; 16];
    let hash = hash_password(&salt, "pw");
    match login_outcome(Ok(Some(row(true, Some(salt), hash))), "pw", "k") {
        LoginOutcome::Success(t) => {
            assert_eq!(cryptolab::auth::validate_jwt(&t, "k").unwrap().sub, "ana@example.com")
        }
        other => panic!("unexpected {:?}", other),
    }
}

#[test]
fn val_outcome_cases() {
    let c = Claims { sub: "a".to_string(), exp: 100, iat: 50 };
    assert_eq!(val_outcome(Ok(c), 100), ValOutcome::Checked(false));
    let c = Claims { sub: "a".to_string(), exp: 100, iat: 50 };
    assert_eq!(val_outcome(Ok(c), 99), ValOutcome::Checked(true));
    assert_eq!(val_outcome(Err(AuthError::Jwt), 99), ValOutcome::Rejected);
}

#[test]
fn verification_targets_subject() {
    let c = Claims { sub: "a@b.c".to_string(), exp: 100, iat: 50 };
    assert_eq!(account_to_verify(Ok(c)), Some("a@b.c".to_string()));
    assert_eq!(account_to_verify(Err(AuthError::Claims)), None);
}

#[test]
fn restore_init_steps() {
    assert!(matches!(
        restore_init_begin_at(Err(()), 0, Some(5)),
        RestoreInitStep::Finish(RestoreInitOutcome::Failed(2))
    ));
    assert!(matches!(
        restore_init_begin_at(Ok(None), 0, Some(5)),
        RestoreInitStep::Finish(RestoreInitOutcome::Failed(1))
    ));
    assert!(matches!(
        restore_init_begin_at(Ok(Some((3, "ana".to_string()))), 0, None),
        RestoreInitStep::Finish(RestoreInitOutcome::ClockOutOfRange)
    ));
    match restore_init_begin_at(Ok(Some((3, "ana".to_string()))), 100, Some(3700)) {
        RestoreInitStep::InsertToken { user_id, username, issued_at, expires_at } => {
            assert_eq!((user_id, username.as_str(), issued_at, expires_at), (3, "ana", 100, 3700));
        }
        other => panic!("unexpected {:?}", other),
    }
    assert!(matches!(
        restore_init_after_insert(false, "http://x", "raw"),
        RestoreInitStep::Finish(RestoreInitOutcome::Failed(4))
    ));
    match restore_init_after_insert(true, "http://x", "raw") {
        RestoreInitStep::SendMail(url) => {
            assert_eq!(url, "http://x/frontend/gui/html/restore.html?token=raw")
        }
        other => panic!("unexpected {:?}", other),
    }
    assert_eq!(restore_init_after_mail(true), RestoreInitOutcome::Done);
    assert_eq!(restore_init_after_mail(false), RestoreInitOutcome::Failed(5));
}

fn token(status: &str, expires_at: i64) -> TokenRow {
    TokenRow { user_id: 7, expires_at, status: status.to_string() }
}

#[test]
fn restore_check_cases() {
    assert_eq!(restore_check(Err(()), 10), RestoreNext::Finish(RestoreOutcome::Failed(2)));
    assert_eq!(restore_check(Ok(None), 10), RestoreNext::Finish(RestoreOutcome::Failed(1)));
    assert_eq!(
        restore_check(Ok(Some(token("used", 100))), 10),
        RestoreNext::Finish(RestoreOutcome::Failed(3))
    );
    assert_eq!(
        restore_check(Ok(Some(token("pending", 100))), 101),
        RestoreNext::Perform(RestoreWrite::MarkExpired)
    );
    assert_eq!(
        restore_check(Ok(Some(token("pending", 100))), 100),
        RestoreNext::Perform(RestoreWrite::UpdatePassword(7))
    );
}

#[test]
fn restore_transitions() {
    assert_eq!(restore_after(RestoreWrite::MarkExpired, true), RestoreNext::Finish(RestoreOutcome::Failed(7)));
    assert_eq!(restore_after(RestoreWrite::MarkExpired, false), RestoreNext::Finish(RestoreOutcome::Failed(66)));
    assert_eq!(
        restore_after(RestoreWrite::UpdatePassword(7), true),
        RestoreNext::Perform(RestoreWrite::SpendToken)
    );
    assert_eq!(restore_after(RestoreWrite::UpdatePassword(7), false), RestoreNext::Perform(RestoreWrite::MarkUsed));
    assert_eq!(restore_after(RestoreWrite::SpendToken, true), RestoreNext::Finish(RestoreOutcome::Done));
    assert_eq!(restore_after(RestoreWrite::SpendToken, false), RestoreNext::Finish(RestoreOutcome::Failed(5)));
    assert_eq!(restore_after(RestoreWrite::MarkUsed, true), RestoreNext::Finish(RestoreOutcome::Failed(4)));
    assert_eq!(restore_after(RestoreWrite::MarkUsed, false), RestoreNext::Finish(RestoreOutcome::Failed(6)));
}

#[test]
fn restore_done_only_when_both_writes_succeed() {
    for (a, b) in [(true, true), (true, false), (false, true), (false, false)] {
        let mut next = restore_after(RestoreWrite::UpdatePassword(1), a);
        if let RestoreNext::Perform(w) = next {
            next = restore_after(w, b);
        }
        assert_eq!(next == RestoreNext::Finish(RestoreOutcome::Done), a && b);
    }
}

#[test]
fn restore_init_begin_sets_one_hour_expiry() {
    match restore_init_begin(Ok(Some((3, "ana".to_string())))) {
        RestoreInitStep::InsertToken { user_id, issued_at, expires_at, .. } => {
            assert_eq!(user_id, 3);
            assert_eq!(expires_at - issued_at, 3600);
        }
        other => panic!("unexpected {:?}", other),
    }
}

#[test]
fn check_session_of_fresh_and_foreign_tokens() {
    let token = generate_jwt("eve@example.com", "k").unwrap();
    assert_eq!(check_session(&token, "k"), ValOutcome::Checked(true));
    assert_eq!(check_session(&token, "other"), ValOutcome::Rejected);
    assert_eq!(check_session("garbage", "k"), ValOutcome::Rejected);
}
