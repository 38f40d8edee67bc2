use passlane::crypto::{decrypt, encrypt, encrypt_all, hash_passphrase, verify_passphrase};
use passlane::errors::VaultError;
use passlane::facade::{backend_for, copy_plan, delete_plan, update_master_password, AddAction, Backend, DeletePlan, PasswordSource};
use passlane::online_vault::flatten_search_results;
use passlane::guard::MasterGuard;
use passlane::records::Credentials;
use passlane::store::VaultStore;

fn record(service: &str, username: &str, password: &str) -> Credentials {
    Credentials::new(
        String::from(service),
        String::from(username),
        String::from(password),
    )
}

#[test]
fn round_trip_same_passphrase() {
    let r = record("example.com", "alice", "hunter2!");
    let enc = encrypt(&r, "correct-horse");
    let dec = decrypt(&enc, "correct-horse").expect("round trip must succeed");
    assert_eq!(dec, r);
}

#[test]
fn round_trip_empty_and_unicode() {
    let r = record("svc", "u", "");
    let dec = decrypt(&encrypt(&r, "p"), "p").expect("empty password round trip");
    assert_eq!(dec, r);
    let r2 = record("svc", "u", "p\u{00e4}ss\u{20ac}w\u{00f6}rd");
    let dec2 = decrypt(&encrypt(&r2, "kl\u{00e9}"), "kl\u{00e9}").expect("unicode round trip");
    assert_eq!(dec2, r2);
}

#[test]
fn wrong_key_is_detected() {
    let r = record("example.com", "alice", "hunter2!");
    let enc = encrypt(&r, "correct-horse");
    let err = decrypt(&enc, "battery-staple").expect_err("wrong key must fail");
    assert_eq!(err, VaultError::IncorrectPassphrase);
    let err2 = decrypt(&enc, "").expect_err("empty passphrase must fail here");
    assert_eq!(err2, VaultError::IncorrectPassphrase);
}

#[test]
fn corrupt_cipher_is_detected() {
    let r = record("svc", "u", "x");
    let mut enc = encrypt(&r, "pw");
    // Steer the first code onto a surrogate, which decodes to no character,
    // without touching the key check.
    enc.cipher[0] ^= 'x' as u32 ^ 0xD800;
    let err = decrypt(&enc, "pw").expect_err("surrogate code is no character");
    assert_eq!(err, VaultError::Corrupt);
    // An unreadable key check is corruption too, not a wrong passphrase.
    let mut enc2 = encrypt(&r, "pw");
    enc2.check = String::from("\u{0080}");
    let err2 = decrypt(&enc2, "pw").expect_err("unreadable check text");
    assert_eq!(err2, VaultError::Corrupt);
}

#[test]
fn encryption_is_salted_per_call() {
    let r = record("svc", "u", "same-password");
    let e1 = encrypt(&r, "pw");
    let e2 = encrypt(&r, "pw");
    // Each call salts its key check afresh, so nothing at rest repeats.
    assert_ne!(e1.check, e2.check);
    assert_ne!(e1, e2);
    assert_eq!(decrypt(&e1, "pw").unwrap(), r);
    assert_eq!(decrypt(&e2, "pw").unwrap(), r);
    // The passphrase is not recoverable from the stored check: it is a
    // salted bcrypt hash, not an encoding of the key.
    assert!(!e1.check.contains("pw"));
}

#[test]
fn passphrase_hash_verifies_and_rejects() {
    let hash = hash_passphrase("open-sesame");
    assert!(verify_passphrase("open-sesame", &hash));
    assert!(!verify_passphrase("open-sesame!", &hash));
    // The hash is a real bcrypt string, not the passphrase handed back.
    assert_ne!(hash, "open-sesame");
    assert!(!verify_passphrase("open-sesame", "open-sesame"));
}

#[test]
fn scenario_append_search_delete() {
    let mut store = VaultStore::new();
    store.save("correct-horse", &record("alpha.example", "a", "pw-a"));
    store.save("correct-horse", &record("bravo.example", "b", "pw-b"));
    store.save("correct-horse", &record("charlie.example", "c", "pw-c"));

    let all = store.read_all();
    assert_eq!(all.len(), 3);
    assert_eq!(all[0].service, "alpha.example");
    assert_eq!(all[1].service, "bravo.example");
    assert_eq!(all[2].service, "charlie.example");

    let found = store
        .grep(Some("correct-horse"), "bravo")
        .expect("search with the right passphrase succeeds");
    assert_eq!(found.len(), 1);
    assert_eq!(found[0], record("bravo.example", "b", "pw-b"));

    store.delete(&vec![1usize]);
    let rest = store.read_all();
    assert_eq!(rest.len(), 2);
    assert_eq!(rest[0].service, "alpha.example");
    assert_eq!(rest[1].service, "charlie.example");
}

#[test]
fn search_without_passphrase_withholds_passwords() {
    let mut store = VaultStore::new();
    store.save("pw", &record("site.example", "who", "secret"));
    let found = store.grep(None, "site").expect("masked search succeeds");
    assert_eq!(found.len(), 1);
    assert_eq!(found[0].service, "site.example");
    assert_eq!(found[0].username, "who");
    assert_eq!(found[0].password, "");
}

#[test]
fn search_matches_username_and_reports_wrong_passphrase() {
    let mut store = VaultStore::new();
    store.save("pw", &record("site.example", "finn", "secret"));
    let by_user = store.grep(None, "finn").expect("username matches too");
    assert_eq!(by_user.len(), 1);
    let err = store
        .grep(Some("not-the-passphrase"), "site")
        .expect_err("decryption under a wrong passphrase is reported");
    assert_eq!(err, VaultError::IncorrectPassphrase);
    let none = store.grep(Some("pw"), "zebra").expect("no match is not an error");
    assert_eq!(none.len(), 0);
}

#[test]
fn search_is_idempotent() {
    let mut store = VaultStore::new();
    store.save("pw", &record("one.example", "u1", "p1"));
    store.save("pw", &record("two.example", "u2", "p2"));
    let r1 = store.grep(Some("pw"), "example").expect("first search");
    let r2 = store.grep(Some("pw"), "example").expect("second search");
    assert_eq!(r1, r2);
    let m1 = store.grep(None, "two").expect("first masked search");
    let m2 = store.grep(None, "two").expect("second masked search");
    assert_eq!(m1, m2);
}

#[test]
fn delete_with_duplicate_services_removes_only_the_given_row() {
    let mut store = VaultStore::new();
    store.save("pw", &record("dup.example", "first", "p1"));
    store.save("pw", &record("dup.example", "second", "p2"));
    store.delete(&vec![0usize]);
    let rest = store.read_all();
    assert_eq!(rest.len(), 1);
    assert_eq!(rest[0].username, "second");
}

#[test]
fn rotation_with_wrong_passphrase_changes_nothing() {
    let mut guard = MasterGuard::new();
    guard.save_master_password("correct-horse");
    let mut store = VaultStore::new();
    store.save("correct-horse", &record("a.example", "a", "pa"));
    store.save("correct-horse", &record("b.example", "b", "pb"));
    store.save("correct-horse", &record("c.example", "c", "pc"));
    let before = store.read_all();
    let old_hash = guard.hash.clone();

    let err = update_master_password(&mut guard, &mut store, "wrong-horse", "new-pass")
        .expect_err("rotation with a wrong passphrase must fail");
    assert_eq!(err, VaultError::IncorrectPassphrase);

    let after = store.read_all();
    assert_eq!(after.len(), before.len());
    for i in 0..after.len() {
        assert_eq!(after[i], before[i]);
    }
    assert_eq!(guard.hash, old_hash);
}

#[test]
fn rotation_reencrypts_everything() {
    let mut guard = MasterGuard::new();
    guard.save_master_password("old-pass");
    let mut store = VaultStore::new();
    store.save("old-pass", &record("a.example", "a", "pa"));
    store.save("old-pass", &record("b.example", "b", "pb"));

    let count =
        update_master_password(&mut guard, &mut store, "old-pass", "new-pass").expect("rotation");
    assert_eq!(count, 2);

    let found = store.grep(Some("new-pass"), "a.example").expect("new passphrase decrypts");
    assert_eq!(found[0].password, "pa");
    let err = store
        .grep(Some("old-pass"), "a.example")
        .expect_err("old passphrase no longer decrypts");
    assert_eq!(err, VaultError::IncorrectPassphrase);
    let hash = guard.hash.clone().expect("hash still present");
    assert!(verify_passphrase("new-pass", &hash));
    assert!(!verify_passphrase("old-pass", &hash));
}

#[test]
fn verify_master_password_paths() {
    // Registration: the re-entered confirmation must match.
    let mut guard = MasterGuard::new();
    let pw = String::from("first-pass");
    let wrong = String::from("second-pass");
    let err = guard
        .verify_master_password(&pw, true, Some(&wrong))
        .expect_err("mismatched confirmation fails");
    assert_eq!(err, VaultError::PassphraseMismatch);
    assert!(!guard.is_initialized());

    let ok = guard
        .verify_master_password(&pw, true, Some(&pw.clone()))
        .expect("matching confirmation registers");
    assert!(ok);
    assert!(guard.is_initialized());

    // Verification against the stored hash.
    assert!(guard.verify_master_password(&pw, false, None).expect("right passphrase verifies"));
    let err2 = guard
        .verify_master_password(&wrong, false, None)
        .expect_err("wrong passphrase is incorrect");
    assert_eq!(err2, VaultError::IncorrectPassphrase);
}

#[test]
fn import_appends_in_order() {
    let mut store = VaultStore::new();
    store.save("pw", &record("existing.example", "e", "pe"));
    let batch = vec![
        record("one.example", "u1", "p1"),
        record("two.example", "u2", "p2"),
    ];
    let n = store.import(&batch, "pw");
    assert_eq!(n, 2);
    let all = store.read_all();
    assert_eq!(all.len(), 3);
    assert_eq!(all[1].service, "one.example");
    assert_eq!(all[2].service, "two.example");
    let found = store.grep(Some("pw"), "two").expect("imported records decrypt");
    assert_eq!(found[0].password, "p2");
}

#[test]
fn encrypt_all_keeps_order_and_decrypts() {
    let batch = vec![record("s1", "u1", "p1"), record("s2", "u2", "p2")];
    let encs = encrypt_all("pw", &batch);
    assert_eq!(encs.len(), 2);
    assert_eq!(decrypt(&encs[0], "pw").unwrap(), batch[0]);
    assert_eq!(decrypt(&encs[1], "pw").unwrap(), batch[1]);
}

#[test]
fn backend_routing_and_plans() {
    assert_eq!(backend_for(true), Backend::RemoteVault);
    assert_eq!(backend_for(false), Backend::LocalStore);

    assert_eq!(delete_plan(0, None), DeletePlan::Nothing);
    assert_eq!(delete_plan(1, None), DeletePlan::DeleteOne(0));
    assert_eq!(delete_plan(3, None), DeletePlan::Abort);
    assert_eq!(delete_plan(3, Some(usize::MAX)), DeletePlan::DeleteAll);
    assert_eq!(delete_plan(3, Some(2)), DeletePlan::DeleteOne(2));
    assert_eq!(delete_plan(3, Some(7)), DeletePlan::Abort);

    assert_eq!(AddAction::new(false, true, true).password_source(), PasswordSource::Generate);
    assert_eq!(AddAction::new(false, false, true).password_source(), PasswordSource::FromClipboard);
    assert_eq!(AddAction::new(true, false, false).password_source(), PasswordSource::Prompt);
}

#[test]
fn copy_plan_cases() {
    assert_eq!(copy_plan(0, None), None);
    assert_eq!(copy_plan(1, None), Some(0));
    assert_eq!(copy_plan(4, None), None);
    assert_eq!(copy_plan(4, Some(2)), Some(2));
    assert_eq!(copy_plan(4, Some(9)), None);
}

#[test]
fn flatten_remote_results_keeps_order_and_skips_gaps() {
    let vaults = vec![
        Some(vec![
            Some(record("a.example", "a", "pa")),
            None,
            Some(record("b.example", "b", "pb")),
        ]),
        None,
        Some(vec![Some(record("c.example", "c", "pc"))]),
        Some(vec![]),
    ];
    let flat = flatten_search_results(&vaults);
    assert_eq!(flat.len(), 3);
    assert_eq!(flat[0].service, "a.example");
    assert_eq!(flat[1].service, "b.example");
    assert_eq!(flat[2].service, "c.example");
}
