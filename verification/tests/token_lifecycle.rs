use passlane::codec::{parse_token_line, token_to_line};
use passlane::errors::VaultError;
use passlane::slot::{delete_encryption_key, get_encryption_key, save_encryption_key, SingleSlotStore};
use passlane::token::{AccessTokens, TokenStore};

fn token(access: &str, refresh: Option<&str>, expires_in: Option<i64>, created: i64) -> AccessTokens {
    AccessTokens::new(
        String::from(access),
        refresh.map(String::from),
        expires_in,
        created,
    )
}

#[test]
fn empty_slot_then_store_then_load() {
    let mut slot = TokenStore::new();
    assert!(!slot.has_logged_in());
    let err = slot.get_access_token().expect_err("no token means not authenticated");
    assert_eq!(err, VaultError::NotAuthenticated);

    let t = token("tok-abc", Some("refresh-1"), Some(3600), 1_700_000_000);
    slot.store_access_token(&t);
    assert!(slot.has_logged_in());
    let loaded = slot.get_access_token().expect("stored token loads");
    assert_eq!(loaded, t);
}

#[test]
fn expiry_rule() {
    let never = token("a", None, None, 0);
    assert!(!never.is_expired(i64::MAX));
    let bounded = token("a", None, Some(100), 1_000);
    assert!(!bounded.is_expired(1_099));
    assert!(bounded.is_expired(1_100));
    assert!(bounded.is_expired(5_000));
}

#[test]
fn fresh_token_is_returned_unchanged() {
    let mut slot = TokenStore::new();
    let t = token("fresh", None, Some(1000), 1_000);
    slot.store_access_token(&t);
    let got = slot
        .get_or_refresh(1_500, None, None)
        .expect("an unexpired token needs no collaborator");
    assert_eq!(got, t);
    assert_eq!(slot.get_access_token().unwrap(), t);
}

#[test]
fn refresh_fallback_to_login() {
    // The stored token is expired, the refresh collaborator fails, the
    // login collaborator produces a brand-new token.
    let mut slot = TokenStore::new();
    let expired = token("stale", Some("r"), Some(10), 0);
    slot.store_access_token(&expired);
    let t2 = token("brand-new", Some("r2"), Some(3600), 2_000);
    let got = slot
        .get_or_refresh(1_000, None, Some(t2.clone()))
        .expect("login fallback succeeds");
    assert_eq!(got, t2);
    assert_eq!(slot.get_access_token().unwrap(), t2);
}

#[test]
fn refresh_success_installs_refreshed_token() {
    let mut slot = TokenStore::new();
    slot.store_access_token(&token("stale", Some("r"), Some(10), 0));
    let refreshed = token("renewed", Some("r3"), Some(3600), 3_000);
    let got = slot
        .get_or_refresh(1_000, Some(refreshed.clone()), None)
        .expect("refresh succeeds");
    assert_eq!(got, refreshed);
    assert_eq!(slot.get_access_token().unwrap(), refreshed);
}

#[test]
fn refresh_and_login_both_failing_keeps_old_token() {
    let mut slot = TokenStore::new();
    let expired = token("stale", None, Some(10), 0);
    slot.store_access_token(&expired);
    let err = slot
        .get_or_refresh(1_000, None, None)
        .expect_err("nothing worked");
    assert_eq!(err, VaultError::RemoteVaultFailure);
    assert_eq!(slot.get_access_token().unwrap(), expired);
}

#[test]
fn token_line_round_trip() {
    let t = token("acc-123", Some("ref-456"), Some(3600), 1_700_000_000);
    let line = token_to_line(&t);
    assert_eq!(line, "acc-123,ref-456,3600,1700000000,");
    let back = parse_token_line(&line).expect("own serialization parses");
    assert_eq!(back, t);
}

#[test]
fn token_line_absent_fields() {
    let t = token("only-access", None, None, 7);
    let line = token_to_line(&t);
    assert_eq!(line, "only-access,,0,7,");
    let back = parse_token_line(&line).expect("absent fields parse");
    assert_eq!(back, t);
}

#[test]
fn corrupt_token_lines_are_rejected() {
    assert_eq!(parse_token_line("no commas at all"), Err(VaultError::Corrupt));
    assert_eq!(parse_token_line("a,b,notanumber,5,"), Err(VaultError::Corrupt));
    assert_eq!(parse_token_line("a,b,5,notanumber,"), Err(VaultError::Corrupt));
    assert_eq!(parse_token_line("a,b,5,6,trailing-junk"), Err(VaultError::Corrupt));
    assert_eq!(parse_token_line("a,b,5,"), Err(VaultError::Corrupt));
    assert_eq!(parse_token_line(""), Err(VaultError::Corrupt));
    // Too large for the machine range.
    assert_eq!(parse_token_line("a,b,99999999999999999999,5,"), Err(VaultError::Corrupt));
}

#[test]
fn non_positive_lifetime_reads_as_never_expiring() {
    let back = parse_token_line("acc,,0,42,").expect("zero lifetime parses");
    assert_eq!(back, token("acc", None, None, 42));
}

#[test]
fn error_messages_name_no_secrets() {
    assert_eq!(
        VaultError::NotAuthenticated.message(),
        "Please login first with: passlane -l"
    );
    assert_eq!(VaultError::IncorrectPassphrase.message(), "Incorrect password");
    assert_eq!(VaultError::PassphraseMismatch.message(), "Passwords did not match");
    assert_eq!(VaultError::Corrupt.message(), "Stored data is corrupt");
    assert_eq!(
        VaultError::TokenRefreshFailed.message(),
        "Could not refresh the access token"
    );
    assert_eq!(
        VaultError::IoFailure.message(),
        "Filesystem or entropy source unavailable"
    );
    assert_eq!(
        VaultError::RemoteVaultFailure.message(),
        "The online vault reported an error"
    );
}

#[test]
fn encryption_key_slot() {
    let mut slot: SingleSlotStore<String> = SingleSlotStore::new();
    let err = get_encryption_key(&slot).expect_err("locked vault has no key");
    assert_eq!(err, VaultError::NotAuthenticated);

    assert!(save_encryption_key(&mut slot, "key-material"));
    assert_eq!(get_encryption_key(&slot).expect("unlocked"), "key-material");

    assert!(delete_encryption_key(&mut slot).expect("locking succeeds"));
    let err2 = delete_encryption_key(&mut slot).expect_err("already locked");
    assert_eq!(err2, VaultError::NotAuthenticated);
}
