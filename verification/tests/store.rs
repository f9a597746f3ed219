use octosync::calendar::Timestamp;
use octosync::store::{
    format_of, store_format, DepartedUser, LoadError, PurgedUser, SaveAction, StoreFormat, User,
    UserStore, USERS_FILE_NAME, USERS_V1_FILE_NAME,
};
use std::collections::HashMap;

fn time(text: &str) -> Timestamp {
    let t = chrono::DateTime::parse_from_rfc3339(text).unwrap();
    Timestamp {
        secs: t.timestamp(),
        nanos: t.timestamp_subsec_nanos(),
    }
}

fn user() -> User {
    User::new(12345, "testuser".to_string(), 1000, Some(1000))
}

fn departed_at() -> Timestamp {
    time("2026-08-14T09:00:00Z")
}

fn departed_user() -> DepartedUser {
    DepartedUser {
        id: 456,
        name: "bob".to_string(),
        uid: 1005,
        gid: Some(1005),
        departed_at: departed_at(),
        expired_at: Some(departed_at()),
        purge_started_at: None,
    }
}

fn purged_user() -> PurgedUser {
    PurgedUser {
        id: 789,
        name: "carol".to_string(),
        uid: 1006,
        gid: Some(1006),
        departed_at: departed_at(),
        purged_at: time("2027-02-14T09:00:00Z"),
    }
}

#[test]
fn account_identity_conversion() {
    let departed = departed_user();
    let user = User::from(&departed);
    assert_eq!(user.id, departed.id);
    assert_eq!(user.name, departed.name);
    assert_eq!(user.uid, departed.uid);
    assert_eq!(user.gid, departed.gid);
}

#[test]
fn getters_give_the_fields() {
    let user = user();
    assert_eq!((user.id(), user.name(), user.uid(), user.gid()), (12345, "testuser", 1000, Some(1000)));
    let d = departed_user();
    assert_eq!((d.id(), d.name(), d.uid(), d.gid()), (456, "bob", 1005, Some(1005)));
    assert_eq!(d.departed_at(), departed_at());
    assert_eq!(d.expired_at(), Some(departed_at()));
    assert_eq!(d.purge_started_at(), None);
    let p = purged_user();
    assert_eq!((p.id(), p.name(), p.uid(), p.gid()), (789, "carol", 1006, Some(1006)));
    assert_eq!(p.departed_at(), departed_at());
    assert_eq!(p.purged_at(), time("2027-02-14T09:00:00Z"));
}

#[test]
fn depart_user_moves_an_active_user_to_the_tombstones() {
    let mut store = UserStore::new(false);
    let user = user();
    store.data_mut().insert(user.id, user.clone());

    store.depart_user(user.clone(), departed_at());

    assert!(store.data().is_empty());
    let departed = &store.departed()[&user.id];
    assert_eq!(departed.name, user.name);
    assert_eq!(departed.uid, user.uid);
    assert_eq!(departed.gid, user.gid);
    assert_eq!(departed.departed_at, departed_at());
    assert_eq!(departed.expired_at, None);
    assert_eq!(departed.purge_started_at, None);
    assert_eq!(User::from(departed), user);
}

#[test]
fn mark_purged_moves_a_departed_tombstone_to_the_purged_map() {
    let mut store = UserStore::new(false);
    let departed = departed_user();
    store.departed_mut().insert(departed.id, departed.clone());
    let purged_at = time("2027-03-01T00:00:00.5Z");

    store.mark_purged(&departed.id, purged_at);

    assert!(store.departed().is_empty());
    let purged = &store.purged()[&departed.id];
    assert_eq!(purged.name, departed.name);
    assert_eq!(purged.uid, departed.uid);
    assert_eq!(purged.gid, departed.gid);
    assert_eq!(purged.departed_at, departed.departed_at);
    assert_eq!(purged.purged_at, purged_at);
}

#[test]
fn marks_of_unknown_members_change_nothing() {
    let mut store = UserStore::new(false);
    let departed = departed_user();
    store.departed_mut().insert(departed.id, departed.clone());
    store.mark_expired(&1, departed_at());
    store.mark_purge_started(&1, departed_at());
    store.clear_purge_started(&1);
    store.mark_purged(&1, departed_at());
    assert_eq!(store.departed().len(), 1);
    assert_eq!(store.departed()[&departed.id], departed);
    assert!(store.purged().is_empty());
}

#[test]
fn marks_change_the_tombstone() {
    let mut store = UserStore::new(false);
    store.depart_user(user(), departed_at());
    let later = time("2026-09-01T00:00:00Z");

    store.mark_expired(&12345, later);
    assert_eq!(store.departed()[&12345].expired_at(), Some(later));
    store.mark_purge_started(&12345, later);
    assert_eq!(store.departed()[&12345].purge_started_at(), Some(later));
    store.clear_purge_started(&12345);
    assert_eq!(store.departed()[&12345].purge_started_at(), None);
    assert_eq!(store.departed()[&12345].expired_at(), Some(later));
}

#[test]
fn prune_rejoined_drops_tombstones_of_active_users() {
    let mut store = UserStore::new(false);
    let rejoined = user();
    let departed = departed_user();
    store.depart_user(rejoined.clone(), departed_at());
    store.departed_mut().insert(departed.id, departed.clone());
    store.data_mut().insert(rejoined.id, rejoined.clone());

    store.prune_rejoined();

    assert!(!store.departed().contains_key(&rejoined.id));
    assert_eq!(store.departed()[&departed.id], departed);
}

/// A member who rejoins after their account was purged spends the purged tombstone, exactly like
/// a departed one
#[test]
fn prune_rejoined_drops_purged_tombstones_of_active_users() {
    let mut store = UserStore::new(false);
    let purged = purged_user();
    let rejoined = User::new(purged.id, purged.name.clone(), purged.uid, purged.gid);
    store.purged_mut().insert(purged.id, purged.clone());
    store.data_mut().insert(rejoined.id, rejoined);

    store.prune_rejoined();

    assert!(store.purged().is_empty());
}

/// A store in dry-run mode previews everything in memory but never persists
#[test]
fn dry_run_save_writes_nothing() {
    let mut store = UserStore::new(true);
    let user = user();
    store.data_mut().insert(user.id, user);

    assert_eq!(store.begin_save(), SaveAction::Skip);
    assert!(store.dry_run());
}

#[test]
fn dry_run_over_a_v1_file_creates_no_files() {
    let mut store = UserStore::new(true);
    store.install_v1(HashMap::from([(12345, user())]));
    assert_eq!(store.begin_save(), SaveAction::Skip);
    assert_eq!(store.begin_save(), SaveAction::Skip);
}

#[test]
fn save_after_v1_migration_writes_v2_and_backs_up_v1() {
    let mut store = UserStore::new(false);
    store.install_v1(HashMap::from([(12345, user())]));
    assert_eq!(store.data()[&12345], user());
    assert!(store.departed().is_empty());
    assert!(store.purged().is_empty());
    assert_eq!(store.begin_save(), SaveAction::Write { backup_first: true });
}

/// The backup is taken by the first save only: a second save must not copy the new file over the
/// rollback copy of the old one.
#[test]
fn second_save_does_not_overwrite_the_v1_backup() {
    let mut store = UserStore::new(false);
    store.install_v1(HashMap::from([(12345, user())]));
    assert_eq!(store.begin_save(), SaveAction::Write { backup_first: true });
    store.backed_up();
    store.depart_user(user(), departed_at());
    assert_eq!(store.begin_save(), SaveAction::Write { backup_first: false });
}

/// A save whose copy failed leaves the backup outstanding
#[test]
fn failed_backup_stays_outstanding() {
    let mut store = UserStore::new(false);
    store.install_v1(HashMap::from([(12345, user())]));
    assert_eq!(store.begin_save(), SaveAction::Write { backup_first: true });
    // The copy failed, so it is not reported
    store.depart_user(user(), departed_at());
    store.prune_rejoined();
    assert_eq!(store.begin_save(), SaveAction::Write { backup_first: true });
    store.backed_up();
    assert_eq!(store.begin_save(), SaveAction::Write { backup_first: false });
}

/// The store that a sync goes on with still owes the backup of the file that was loaded
#[test]
fn successor_keeps_tombstones_and_an_outstanding_backup() {
    let mut store = UserStore::new(false);
    store.install_v1(HashMap::from([(12345, user())]));
    store.depart_user(user(), departed_at());
    store.purged_mut().insert(789, purged_user());
    let next = store.successor();
    assert!(next.data().is_empty());
    assert_eq!(next.departed().len(), 1);
    assert_eq!(next.purged()[&789], purged_user());
    assert_eq!(next.begin_save(), SaveAction::Write { backup_first: true });
}

#[test]
fn round_trip_with_departed_and_purged_users() {
    let mut store = UserStore::new(false);
    store.install_v2(
        HashMap::from([(12345, user())]),
        HashMap::from([(456, departed_user())]),
        HashMap::from([(789, purged_user())]),
    );
    assert_eq!(store.data()[&12345], user());
    assert_eq!(store.departed()[&456], departed_user());
    assert_eq!(store.purged()[&789], purged_user());
    // The file was in the current format already, no backup is made
    assert_eq!(store.begin_save(), SaveAction::Write { backup_first: false });
}

#[test]
fn file_without_version_is_in_the_first_format() {
    let content = r#"{ "12345": { "id": 12345, "name": "testuser", "uid": 1000 } }"#;
    assert!(matches!(store_format(content), Ok(StoreFormat::V1)));
    assert!(matches!(store_format("{}"), Ok(StoreFormat::V1)));
    assert!(matches!(store_format("[]"), Ok(StoreFormat::V1)));
}

/// Loading a v1 file migrates it in memory only
#[test]
fn v1_file_is_migrated_in_memory_without_writing() {
    let content = r#"{ "12345": { "id": 12345, "name": "testuser", "uid": 1000 } }"#;
    assert!(matches!(store_format(content), Ok(StoreFormat::V1)));
    let value: serde_json::Value = serde_json::from_str(content).unwrap();
    let mut users = HashMap::new();
    for (key, entry) in value.as_object().unwrap() {
        let id: u64 = key.parse().unwrap();
        let name = entry["name"].as_str().unwrap().to_string();
        let uid = entry["uid"].as_u64().unwrap() as u32;
        users.insert(id, User::new(id, name, uid, None));
    }

    let mut store = UserStore::new(false);
    store.install_v1(users);

    assert_eq!(store.data().len(), 1);
    assert_eq!(store.data()[&12345].name, "testuser");
    assert!(store.departed().is_empty());
}

#[test]
fn v2_file_without_tombstone_keys_parses() {
    assert!(matches!(
        store_format(r#"{ "version": 2, "users": {} }"#),
        Ok(StoreFormat::V2)
    ));
}

#[test]
fn unknown_newer_version_is_an_error() {
    let Err(err) = store_format(r#"{ "version": 3, "users": {} }"#) else {
        panic!("accepted");
    };
    assert!(err.message("/data/users.json").contains("version 3"));
    assert_eq!(
        err.message("/data/users.json"),
        "Unsupported users database version 3 in '/data/users.json', this binary supports version 2"
    );
}

#[test]
fn version_must_be_a_number() {
    for (content, version) in [
        (r#"{ "version": "2" }"#, "\"2\""),
        (r#"{ "version": null }"#, "null"),
        (r#"{ "version": -2 }"#, "-2"),
        (r#"{ "version": 2.0 }"#, "2.0"),
    ] {
        match store_format(content) {
            Err(LoadError::UnsupportedVersion(found)) => assert_eq!(found, version),
            _ => panic!("accepted {content}"),
        }
    }
}

#[test]
fn load_invalid_json() {
    let Err(err) = store_format("{ invalid json content") else {
        panic!("accepted");
    };
    assert!(matches!(err, LoadError::NotJson));
    assert_eq!(err.message("x"), "Failed to parse users database from 'x'");
}

#[test]
fn format_depends_on_the_version_field() {
    assert!(matches!(format_of(None), Err(LoadError::NotJson)));
    assert!(matches!(format_of(Some(None)), Ok(StoreFormat::V1)));
    assert!(matches!(format_of(Some(Some((Some(2), "2".to_string())))), Ok(StoreFormat::V2)));
    assert!(matches!(
        format_of(Some(Some((Some(1), "1".to_string())))),
        Err(LoadError::UnsupportedVersion(v)) if v == "1"
    ));
    assert!(matches!(
        format_of(Some(Some((None, "\"x\"".to_string())))),
        Err(LoadError::UnsupportedVersion(v)) if v == "\"x\""
    ));
}

#[test]
fn file_names() {
    assert_eq!(USERS_FILE_NAME, "users.json");
    assert_eq!(USERS_V1_FILE_NAME, "users-v1.json");
}

#[test]
fn multiple_users() {
    let mut store = UserStore::new(false);
    for i in 0..10 {
        let user = User::new(1000 + i, format!("user{}", i), 3000 + i as u32, Some(3000 + i as u32));
        store.data_mut().insert(user.id, user);
    }
    assert_eq!(store.data().len(), 10);
    for i in 0..10 {
        let user_id = 1000 + i;
        assert!(store.data().contains_key(&user_id));
        assert_eq!(store.data()[&user_id].name, format!("user{}", i));
        assert_eq!(store.data()[&user_id].uid, 3000 + i as u32);
    }
}
