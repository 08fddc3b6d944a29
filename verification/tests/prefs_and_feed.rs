use registry_identity::errors::ErrorKind;
use registry_identity::model::OwnerKind;
use registry_identity::model::OwnerRow;
use registry_identity::model::Store;
use registry_identity::prefs::candidate_rows;
use registry_identity::prefs::update_email_notifications;
use registry_identity::prefs::upsert_owner;
use registry_identity::profile::me;
use registry_identity::profile::updates;
use registry_identity::strutil::str_le;
use registry_identity::strutil::trim;

fn owner(package_id: i32, owner_id: i32, kind: OwnerKind, flag: bool) -> OwnerRow {
    OwnerRow { package_id, owner_id, owner_kind: kind, email_notifications: flag }
}

/// A user owning two packages, one other user owning a third.
fn prefs_store() -> Store {
    let mut store = Store::new();
    store.add_user(1, String::from("alice"), None);
    store.add_user(2, String::from("bob"), None);
    store.add_package(10, String::from("beta"));
    store.add_package(11, String::from("alpha"));
    store.add_package(12, String::from("gamma"));
    upsert_owner(&mut store, owner(10, 1, OwnerKind::User, true));
    upsert_owner(&mut store, owner(11, 1, OwnerKind::User, false));
    upsert_owner(&mut store, owner(12, 2, OwnerKind::User, true));
    store
}

fn flags_of(store: &Store, uid: i32) -> Vec<(i32, bool)> {
    let profile = me(store, uid).expect("profile");
    profile
        .owned_crates
        .iter()
        .map(|c| (c.id, c.email_notifications))
        .collect()
}

#[test]
fn sync_applies_submitted_flags_and_passes_others_through() {
    let mut store = prefs_store();
    let r = update_email_notifications(&mut store, 1, Some(vec![(10, false)]));
    assert!(r.expect("sync succeeds").ok);
    // alpha (11) keeps false untouched, beta (10) flips to false.
    assert_eq!(flags_of(&store, 1), vec![(11, false), (10, false)]);
    // the other user's row is untouched
    assert_eq!(flags_of(&store, 2), vec![(12, true)]);
}

#[test]
fn sync_is_idempotent() {
    let mut store = prefs_store();
    update_email_notifications(&mut store, 1, Some(vec![(10, false), (11, true)]))
        .expect("first sync");
    let once: Vec<(i32, bool)> = flags_of(&store, 1);
    update_email_notifications(&mut store, 1, Some(vec![(10, false), (11, true)]))
        .expect("second sync");
    assert_eq!(flags_of(&store, 1), once);
    assert_eq!(once, vec![(11, true), (10, false)]);
}

#[test]
fn sync_ignores_packages_the_user_does_not_own() {
    let mut store = prefs_store();
    let rows_before = store.owners.len();
    let r = update_email_notifications(&mut store, 1, Some(vec![(12, false), (99, true)]));
    assert!(r.expect("sync succeeds").ok);
    assert_eq!(store.owners.len(), rows_before);
    assert_eq!(flags_of(&store, 1), vec![(11, false), (10, true)]);
    assert_eq!(flags_of(&store, 2), vec![(12, true)]);
}

#[test]
fn sync_rejects_an_undecodable_payload() {
    let mut store = prefs_store();
    let e = update_email_notifications(&mut store, 1, None).err().expect("must fail");
    assert_eq!(e.kind, ErrorKind::Validation);
    assert_eq!(e.message(), "invalid json request");
    assert_eq!(flags_of(&store, 1), vec![(11, false), (10, true)]);
}

#[test]
fn sync_last_submitted_value_for_a_package_wins() {
    let mut store = prefs_store();
    update_email_notifications(&mut store, 1, Some(vec![(10, false), (10, true)]))
        .expect("sync succeeds");
    assert_eq!(flags_of(&store, 1), vec![(11, false), (10, true)]);
}

#[test]
fn candidate_rows_cover_owned_packages_with_effective_values() {
    let current = vec![
        owner(10, 1, OwnerKind::User, true),
        owner(11, 1, OwnerKind::User, false),
        owner(12, 2, OwnerKind::User, true),
        owner(10, 3, OwnerKind::Team, true),
    ];
    let cands = candidate_rows(&current, 1, &vec![(11, true), (12, false)]);
    assert_eq!(cands.len(), 2);
    assert_eq!((cands[0].package_id, cands[0].email_notifications), (10, true));
    assert_eq!((cands[1].package_id, cands[1].email_notifications), (11, true));
    assert!(cands.iter().all(|c| c.owner_id == 1));
}

#[test]
fn owned_packages_are_ordered_by_name_ascending() {
    let store = prefs_store();
    let profile = me(&store, 1).expect("profile");
    let names: Vec<&str> = profile.owned_crates.iter().map(|c| c.name.as_str()).collect();
    assert_eq!(names, vec!["alpha", "beta"]);
}

/// alice follows two of three packages; versions carry distinct timestamps.
fn feed_store() -> Store {
    let mut store = Store::new();
    store.add_user(1, String::from("alice"), None);
    store.add_user(2, String::from("bob"), None);
    store.add_package(10, String::from("beta"));
    store.add_package(11, String::from("alpha"));
    store.add_package(12, String::from("gamma"));
    store.add_follow(1, 10);
    store.add_follow(1, 11);
    store.add_version(100, 10, String::from("0.1.0"), 50, Some(2));
    store.add_version(101, 11, String::from("1.0.0"), 70, None);
    store.add_version(102, 10, String::from("0.2.0"), 90, Some(2));
    store.add_version(103, 12, String::from("3.0.0"), 80, Some(2));
    store
}

#[test]
fn feed_is_ordered_newest_first_and_pages_report_more() {
    let store = feed_store();
    let page = updates(&store, 1, 0, 2);
    let stamps: Vec<i64> = page.versions.iter().map(|e| e.version.created_at).collect();
    assert_eq!(stamps, vec![90, 70]);
    assert!(stamps[0] > stamps[1]);
    assert!(page.more);

    let rest = updates(&store, 1, 2, 2);
    let stamps: Vec<i64> = rest.versions.iter().map(|e| e.version.created_at).collect();
    assert_eq!(stamps, vec![50]);
    assert!(!rest.more);

    let beyond = updates(&store, 1, 3, 2);
    assert!(beyond.versions.is_empty());
    assert!(!beyond.more);
}

#[test]
fn feed_excludes_unfollowed_packages_and_joins_names() {
    let store = feed_store();
    let page = updates(&store, 1, 0, 10);
    assert_eq!(page.versions.len(), 3);
    assert!(page.versions.iter().all(|e| e.crate_name != "gamma"));
    assert_eq!(page.versions[0].crate_name, "beta");
    assert_eq!(page.versions[0].version.num, "0.2.0");
    let publisher = page.versions[0].published_by.as_ref().expect("publisher");
    assert_eq!(publisher.gh_login, "bob");
    assert!(page.versions[1].published_by.is_none());
    assert!(!page.more);
}

#[test]
fn feed_of_a_user_following_nothing_is_empty() {
    let store = feed_store();
    let page = updates(&store, 2, 0, 10);
    assert!(page.versions.is_empty());
    assert!(!page.more);
}

#[test]
fn trim_strips_surrounding_whitespace_only() {
    assert_eq!(trim("  a b\t\n"), "a b");
    assert_eq!(trim("plain"), "plain");
    assert_eq!(trim(" \t\r\n"), "");
}

#[test]
fn string_order_is_lexicographic() {
    assert!(str_le("alpha", "beta"));
    assert!(!str_le("beta", "alpha"));
    assert!(str_le("alp", "alpha"));
    assert!(str_le("same", "same"));
}
