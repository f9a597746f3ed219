use octosync::members::{
    collect_processed, member_map, membership_has_no_stored_users, partition_stale_users, settle,
    would_disable_all_users, GitHubUser, MemberMap,
};
use octosync::store::{User, UserMap, UserStore};

fn user(id: u64, name: &str) -> User {
    User::new(id, name.to_string(), 1000 + id as u32, Some(2000 + id as u32))
}

fn user_map(users: &[User]) -> UserMap {
    users.iter().map(|u| (u.id(), u.clone())).collect()
}

fn members_of(users: &[User]) -> MemberMap {
    users.iter().map(|u| (u.id(), u.name().to_string())).collect()
}

fn store_of(users: &[User]) -> UserStore {
    let mut store = UserStore::new(false);
    *store.data_mut() = user_map(users);
    store
}

/// Regression test: every member is still in the organization, but all processing failed and the
/// new store is empty. No account may be disabled. Every member must be retried.
#[test]
fn all_members_failed_processing_disables_nobody() {
    let users = [user(1, "a"), user(2, "b"), user(3, "c")];
    let old = user_map(&users);
    let new = user_map(&[]);
    let members = members_of(&users);

    let (retry, leavers) = partition_stale_users(&old, &new, &members);

    assert_eq!(retry.len(), 3);
    assert!(leavers.is_empty());
}

#[test]
fn user_absent_from_member_list_is_a_leaver() {
    let remaining = user(1, "a");
    let left = user(2, "b");
    let old = user_map(&[remaining.clone(), left.clone()]);
    let new = user_map(&[remaining]);
    let members = members_of(std::slice::from_ref(&old[&1]));

    let (retry, leavers) = partition_stale_users(&old, &new, &members);

    assert!(retry.is_empty());
    assert_eq!(leavers, vec![&left]);
}

#[test]
fn successfully_processed_user_is_neither_retried_nor_departed() {
    let processed = user(1, "a");
    let old = user_map(std::slice::from_ref(&processed));
    let new = user_map(std::slice::from_ref(&processed));
    let members = members_of(&[processed]);

    let (retry, leavers) = partition_stale_users(&old, &new, &members);

    assert!(retry.is_empty());
    assert!(leavers.is_empty());
}

#[test]
fn failed_member_is_retried_while_absent_member_is_a_leaver() {
    let processed = user(1, "a");
    let failed = user(2, "b");
    let left = user(3, "c");
    let old = user_map(&[processed.clone(), failed.clone(), left.clone()]);
    let new = user_map(std::slice::from_ref(&processed));
    let members = members_of(&[processed, failed.clone()]);

    let (retry, leavers) = partition_stale_users(&old, &new, &members);

    assert_eq!(retry, vec![&failed]);
    assert_eq!(leavers, vec![&left]);
}

/// The sync rejects an empty member list before processing. The later mass-disablement safeguard
/// remains as a second check.
#[test]
fn empty_member_list_puts_all_users_in_leaver_bucket_and_trips_guard() {
    let users = [user(1, "a"), user(2, "b")];
    let old = user_map(&users);
    let new = user_map(&[]);
    let members = members_of(&[]);

    let (retry, leavers) = partition_stale_users(&old, &new, &members);

    assert!(retry.is_empty());
    assert_eq!(leavers.len(), 2);
    assert!(would_disable_all_users(&old, &leavers));
}

#[test]
fn new_member_in_new_store_only_is_untouched() {
    let joined = user(1, "a");
    let old = user_map(&[]);
    let new = user_map(std::slice::from_ref(&joined));
    let members = members_of(&[joined]);

    let (retry, leavers) = partition_stale_users(&old, &new, &members);

    assert!(retry.is_empty());
    assert!(leavers.is_empty());
}

/// An empty member list must stop the sync before any group is created or user is processed.
#[test]
fn empty_member_list_contains_no_stored_users() {
    let stored = user_map(&[user(1, "a"), user(2, "b")]);

    assert!(membership_has_no_stored_users(&stored, &members_of(&[])));
}

/// A mis-scoped installation returns members, just not the managed ones.
#[test]
fn membership_with_only_unrelated_users_contains_no_stored_users() {
    let stored = user_map(&[user(1, "a")]);

    assert!(membership_has_no_stored_users(
        &stored,
        &members_of(&[user(2, "b")])
    ));
}

/// One surviving member is enough to trust the list. The users missing from it are real leavers.
#[test]
fn membership_with_a_stored_user_is_accepted() {
    let kept = user(1, "a");
    let stored = user_map(&[kept.clone(), user(2, "b")]);

    assert!(!membership_has_no_stored_users(
        &stored,
        &members_of(&[kept])
    ));
}

/// A first run has no stored users to protect.
#[test]
fn empty_store_does_not_trigger_guard() {
    assert!(!membership_has_no_stored_users(
        &user_map(&[]),
        &members_of(&[])
    ));
}

#[test]
fn disabling_every_stored_user_trips_the_guard() {
    let users = [user(1, "a"), user(2, "b")];
    let old = user_map(&users);
    let leavers: Vec<&User> = old.values().collect();

    assert!(would_disable_all_users(&old, &leavers));
}

#[test]
fn disabling_a_subset_is_allowed() {
    let users = [user(1, "a"), user(2, "b")];
    let old = user_map(&users);
    let leavers = vec![&old[&1]];

    assert!(!would_disable_all_users(&old, &leavers));
}

#[test]
fn nothing_to_disable_is_allowed() {
    let old = user_map(&[user(1, "a")]);

    assert!(!would_disable_all_users(&old, &vec![]));
}

/// A single-user store where that user really left still triggers the safeguard. The explicit
/// deletion is the intentional path for this case.
#[test]
fn disabling_the_only_stored_user_trips_the_guard() {
    let only = user(1, "a");
    let old = user_map(std::slice::from_ref(&only));
    let leavers: Vec<&User> = old.values().collect();

    assert!(would_disable_all_users(&old, &leavers));
}

#[test]
fn last_login_of_an_id_counts() {
    let github = |id: u64, login: &str| GitHubUser {
        id,
        login: login.to_string(),
    };
    let members = member_map(&vec![github(1, "a"), github(2, "b"), github(1, "c")]);
    assert_eq!(members.len(), 2);
    assert_eq!(members[&1], "c");
    assert_eq!(members[&2], "b");
}

#[test]
fn settling_keeps_failed_members_and_names_leavers() {
    let old = store_of(&[user(1, "a"), user(2, "b"), user(3, "c")]);
    let new = store_of(&[user(1, "a2"), user(4, "d")]);
    let settled = settle(&old, new, &members_of(&[user(1, "a2"), user(2, "b"), user(4, "d")]));
    assert!(!settled.refused);
    assert_eq!(settled.leavers, vec![user(3, "c")]);
    assert_eq!(settled.store.data().len(), 3);
    assert_eq!(settled.store.data()[&1].name(), "a2");
    assert_eq!(settled.store.data()[&2], user(2, "b"));
    assert!(!settled.store.data().contains_key(&3));
}

#[test]
fn settling_keeps_everybody_when_all_would_be_disabled() {
    let old = store_of(&[user(1, "a"), user(2, "b")]);
    let settled = settle(&old, UserStore::new(false), &members_of(&[]));
    assert!(settled.refused);
    assert_eq!(settled.leavers.len(), 2);
    assert_eq!(settled.store.data().len(), 2);
}

#[test]
fn processed_members_are_collected_by_id() {
    let mut old = store_of(&[user(9, "gone")]);
    old.depart_user(
        user(1, "a"),
        octosync::calendar::Timestamp { secs: 0, nanos: 0 },
    );
    old.depart_user(
        user(5, "e"),
        octosync::calendar::Timestamp { secs: 0, nanos: 0 },
    );
    let new = collect_processed(&old, vec![Some(user(1, "a")), None, Some(user(2, "b"))]);
    assert_eq!(new.data().len(), 2);
    assert_eq!(new.data()[&1], user(1, "a"));
    // The rejoined member's departure record is spent, the other one is kept
    assert!(!new.departed().contains_key(&1));
    assert!(new.departed().contains_key(&5));
}
