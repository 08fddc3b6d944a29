use registry_identity::errors::ErrorKind;
use registry_identity::model::AuthUser;
use registry_identity::model::Store;
use registry_identity::profile::me;
use registry_identity::verify_email::complete_resend;
use registry_identity::verify_email::confirm_user_email;
use registry_identity::verify_email::regenerate_token_and_send;
use registry_identity::verify_email::update_user;

fn store_with_user() -> (Store, AuthUser) {
    let mut store = Store::new();
    store.add_user(7, String::from("alice"), None);
    let auth = AuthUser { id: 7, gh_login: String::from("alice") };
    (store, auth)
}

#[test]
fn change_email_then_profile_shows_unverified_new_address() {
    let (mut store, auth) = store_with_user();
    let r = update_user(
        &mut store,
        &auth,
        7,
        Some(String::from("  alice@example.com  ")),
        String::from("tok-1"),
        1000,
    );
    let (ok, note) = r.expect("change should succeed");
    assert!(ok.ok);
    assert_eq!(note.email, "alice@example.com");
    assert_eq!(note.gh_login, "alice");
    assert_eq!(note.token, "tok-1");

    let profile = me(&store, 7).expect("profile should exist");
    assert_eq!(profile.user.email, Some(String::from("alice@example.com")));
    assert!(!profile.user.email_verified);
    assert!(profile.user.email_verification_sent);
}

#[test]
fn change_email_rejects_empty_and_absent_addresses() {
    let (mut store, auth) = store_with_user();
    let r = update_user(&mut store, &auth, 7, Some(String::from("   ")), String::from("t"), 1);
    let e = r.err().expect("blank address must be rejected");
    assert_eq!(e.kind, ErrorKind::Validation);
    assert_eq!(e.message(), "empty email rejected");

    let r = update_user(&mut store, &auth, 7, None, String::from("t"), 1);
    let e = r.err().expect("absent address must be rejected");
    assert_eq!(e.kind, ErrorKind::Validation);

    assert_eq!(store.emails.len(), 0);
}

#[test]
fn change_email_requires_matching_identity() {
    let (mut store, auth) = store_with_user();
    let r = update_user(
        &mut store,
        &auth,
        8,
        Some(String::from("a@b.c")),
        String::from("t"),
        1,
    );
    let e = r.err().expect("identity mismatch must be rejected");
    assert_eq!(e.kind, ErrorKind::Authorization);
    assert_eq!(e.message(), "current user does not match requested user");
    assert_eq!(store.emails.len(), 0);
}

#[test]
fn confirm_email_is_idempotent() {
    let (mut store, auth) = store_with_user();
    update_user(
        &mut store,
        &auth,
        7,
        Some(String::from("a@b.c")),
        String::from("tok-1"),
        1,
    )
    .expect("change should succeed");

    let token = String::from("tok-1");
    let first = confirm_user_email(&mut store, &token).expect("first confirm succeeds");
    assert!(first.ok);
    let profile = me(&store, 7).expect("profile");
    assert!(profile.user.email_verified);

    let second = confirm_user_email(&mut store, &token).expect("second confirm succeeds");
    assert!(second.ok);
    let profile = me(&store, 7).expect("profile");
    assert!(profile.user.email_verified);
}

#[test]
fn confirm_unknown_token_fails_without_state_change() {
    let (mut store, auth) = store_with_user();
    update_user(
        &mut store,
        &auth,
        7,
        Some(String::from("a@b.c")),
        String::from("tok-1"),
        1,
    )
    .expect("change should succeed");

    let token = String::from("no-such-token");
    let e = confirm_user_email(&mut store, &token).err().expect("unknown token must fail");
    assert_eq!(e.kind, ErrorKind::NotFound);
    assert_eq!(e.message(), "Email belonging to token not found.");
    let profile = me(&store, 7).expect("profile");
    assert!(!profile.user.email_verified);
}

#[test]
fn two_changes_leave_one_row_with_the_later_content() {
    let (mut store, auth) = store_with_user();
    update_user(
        &mut store,
        &auth,
        7,
        Some(String::from("first@example.com")),
        String::from("tok-1"),
        1,
    )
    .expect("first change");
    update_user(
        &mut store,
        &auth,
        7,
        Some(String::from("second@example.com")),
        String::from("tok-2"),
        2,
    )
    .expect("second change");

    assert_eq!(store.emails.len(), 1);
    assert_eq!(store.emails[0].email, "second@example.com");
    assert_eq!(store.emails[0].token, "tok-2");
    assert!(!store.emails[0].verified);
    let profile = me(&store, 7).expect("profile");
    assert_eq!(profile.user.email, Some(String::from("second@example.com")));
    assert!(!profile.user.email_verified);
}

#[test]
fn stale_token_no_longer_matches_after_change() {
    let (mut store, auth) = store_with_user();
    update_user(
        &mut store,
        &auth,
        7,
        Some(String::from("first@example.com")),
        String::from("tok-1"),
        1,
    )
    .expect("first change");
    update_user(
        &mut store,
        &auth,
        7,
        Some(String::from("second@example.com")),
        String::from("tok-2"),
        2,
    )
    .expect("second change");

    let stale = String::from("tok-1");
    let e = confirm_user_email(&mut store, &stale).err().expect("stale token must fail");
    assert_eq!(e.kind, ErrorKind::NotFound);
}

#[test]
fn resend_without_email_row_fails_and_sends_nothing() {
    let (mut store, auth) = store_with_user();
    let r = regenerate_token_and_send(&mut store, &auth, 7, String::from("tok-9"), 5);
    let e = r.err().expect("resend without a row must fail");
    assert_eq!(e.kind, ErrorKind::NotFound);
    assert_eq!(e.message(), "Email could not be found");
    assert_eq!(store.emails.len(), 0);
}

#[test]
fn resend_rotates_token_and_keeps_address() {
    let (mut store, auth) = store_with_user();
    update_user(
        &mut store,
        &auth,
        7,
        Some(String::from("a@b.c")),
        String::from("tok-1"),
        1,
    )
    .expect("change");
    let note = regenerate_token_and_send(&mut store, &auth, 7, String::from("tok-2"), 2)
        .expect("resend succeeds");
    assert_eq!(note.email, "a@b.c");
    assert_eq!(note.token, "tok-2");
    assert_eq!(store.emails[0].token, "tok-2");
    assert_eq!(store.emails[0].email, "a@b.c");
}

#[test]
fn resend_requires_matching_identity() {
    let (mut store, auth) = store_with_user();
    let e = regenerate_token_and_send(&mut store, &auth, 9, String::from("t"), 1)
        .err()
        .expect("identity mismatch must be rejected");
    assert_eq!(e.kind, ErrorKind::Authorization);
}

#[test]
fn resend_dispatch_outcome_decides_the_reply() {
    let ok = complete_resend(true).expect("delivered resend succeeds");
    assert!(ok.ok);
    let e = complete_resend(false).err().expect("failed dispatch is surfaced");
    assert_eq!(e.kind, ErrorKind::TransientStore);
    assert_eq!(e.message(), "Error in sending email");
}

#[test]
fn profile_of_unknown_user_is_not_found() {
    let store = Store::new();
    let e = me(&store, 1).err().expect("missing user");
    assert_eq!(e.kind, ErrorKind::NotFound);
    assert_eq!(e.message(), "user not found");
}

#[test]
fn profile_without_email_row_reports_nothing_sent() {
    let (store, _auth) = store_with_user();
    let profile = me(&store, 7).expect("profile");
    assert_eq!(profile.user.email, None);
    assert!(!profile.user.email_verified);
    assert!(!profile.user.email_verification_sent);
}
