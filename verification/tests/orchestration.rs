use octosync::accounts::{
    first_member_step, next_member_step, plan_creation, MemberReply, MemberStep,
};
use octosync::calendar::Timestamp;
use octosync::departures::{DepartureReply, DepartureStep, Departures};
use octosync::members::{collect_processed, GitHubUser, MemberMap};
use octosync::octosync::{Octosync, SyncFailure, SyncReply, SyncRun, SyncStep};
use octosync::public_keys::PublicKeys;
use octosync::purge::{
    refusal_message, Purge, PurgeReply, PurgeStep, DEFAULT_PURGE_AFTER_DAYS,
};
use octosync::store::{DepartedMap, PurgedMap, SaveAction, User, UserMap, UserStore};
use octosync::user_manager::messages::{AccountIds, PurgeOutcome};
use octosync::user_manager::Backend;
use std::collections::{HashSet, VecDeque};

const RETENTION_DAYS: u32 = 180;
const ORG: &str = "acme";
const DAY: i64 = 86400;

fn user(id: u64, name: &str) -> User {
    User::new(id, name.to_string(), 1000 + id as u32, Some(2000 + id as u32))
}

fn author(id: u64, login: &str) -> GitHubUser {
    GitHubUser {
        id,
        login: login.to_string(),
    }
}

fn member_map(users: &[User]) -> MemberMap {
    users.iter().map(|u| (u.id(), u.name().to_string())).collect()
}

fn now() -> Timestamp {
    Timestamp {
        secs: 1_800_000_000,
        nanos: 250,
    }
}

/// A departure timestamp safely past the retention period
fn old_departure() -> Timestamp {
    Timestamp {
        secs: now().secs - (RETENTION_DAYS as i64 + 30) * DAY,
        nanos: 0,
    }
}

/// A current member unrelated to the departure records under test. The purge refuses an empty
/// member list, so a different member represents a nonmember.
fn other_member() -> User {
    user(99, "zoe")
}

/// What was last written to disk
#[derive(Default)]
struct Disk {
    users: UserMap,
    departed: DepartedMap,
    purged: PurgedMap,
    writes: usize,
}

impl Disk {
    fn save(&mut self, store: &UserStore) {
        if store.begin_save() != SaveAction::Skip {
            self.users = store.data().clone();
            self.departed = store.departed().clone();
            self.purged = store.purged().clone();
            self.writes += 1;
        }
    }
}

/// Runs departures, giving each account the next scripted answer. Returns who was disabled.
fn run_departures(
    mut departures: Departures,
    store: &mut UserStore,
    disk: &mut Disk,
    script: &[bool],
) -> Vec<String> {
    let mut script: VecDeque<bool> = script.iter().copied().collect();
    let mut seen = Vec::new();
    loop {
        match departures.step() {
            DepartureStep::SaveDepartures | DepartureStep::SaveResults => {
                disk.save(store);
                departures.advance(store, DepartureReply::Saved);
            }
            DepartureStep::Disable => {
                // The departure is on disk before the account is touched
                if !store.dry_run() {
                    assert!(disk.departed.contains_key(&departures.user().id()));
                }
                seen.push(departures.user().name().to_string());
                let reply = if script.pop_front().expect("no scripted response left") {
                    DepartureReply::Disabled(now())
                } else {
                    DepartureReply::Failed
                };
                departures.advance(store, reply);
            }
            DepartureStep::Finished => return seen,
            DepartureStep::SaveFailed => panic!("save failed"),
        }
    }
}

fn depart_and_disable(
    store: &mut UserStore,
    disk: &mut Disk,
    leavers: Vec<User>,
    members: &MemberMap,
    script: &[bool],
) -> Vec<String> {
    let departures = Departures::start(store, leavers, members, now());
    run_departures(departures, store, disk, script)
}

/// Runs a purge, giving each account the next scripted answer. Returns how many were attempted.
fn run_purge(
    mut purge: Purge,
    store: &mut UserStore,
    disk: &mut Disk,
    script: &[PurgeReply],
) -> usize {
    let mut script: VecDeque<PurgeReply> = script.iter().copied().collect();
    let mut attempts = 0;
    loop {
        match purge.step() {
            PurgeStep::SaveMarker | PurgeStep::SaveResult | PurgeStep::SaveAll => {
                disk.save(store);
                purge.advance(store, PurgeReply::Saved);
            }
            PurgeStep::Purge => {
                let record = &store.departed()[&purge.user().id()];
                assert!(record.purge_started_at().is_some());
                assert_eq!(purge.cutoff().secs, now().secs - RETENTION_DAYS as i64 * DAY);
                attempts += 1;
                let reply = script.pop_front().expect("no scripted response left");
                purge.advance(store, reply);
            }
            PurgeStep::Finished => return attempts,
            PurgeStep::SaveFailed | PurgeStep::Refused => panic!("purge ended early"),
        }
    }
}

fn purge_disabled_accounts(
    store: &mut UserStore,
    disk: &mut Disk,
    members: &MemberMap,
    script: &[PurgeReply],
) -> usize {
    let purge = Purge::start(store, members, now(), RETENTION_DAYS);
    run_purge(purge, store, disk, script)
}

/// A dry run must not write the users database.
#[test]
fn dry_run_does_not_write_the_store() {
    let mut store = UserStore::new(true);
    let mut disk = Disk::default();
    depart_and_disable(
        &mut store,
        &mut disk,
        vec![user(1, "alice")],
        &member_map(&[]),
        &[true],
    );

    // The departure exists in memory but nothing was persisted
    assert!(store.departed().contains_key(&1));
    assert!(disk.departed.is_empty());
    assert_eq!(disk.writes, 0);
}

#[test]
fn process_user_creates_missing_user_and_tolerates_failed_key_fetch() {
    let store = UserStore::new(false);
    let step = first_member_step(&author(1, "alice"), &store);
    assert!(matches!(step, MemberStep::Create(_)));
    let step = next_member_step(step, MemberReply::Account(user(1, "alice")));
    assert!(matches!(step, MemberStep::SyncGroups(_)));
    let step = next_member_step(step, MemberReply::Done);
    assert!(matches!(step, MemberStep::FetchKeys(_)));
    // The keys are skipped, not synced
    match next_member_step(step, MemberReply::Failed) {
        MemberStep::Processed(processed) => assert_eq!(processed.name(), "alice"),
        _ => panic!("not processed"),
    }
}

#[test]
fn process_user_updates_a_stored_user() {
    let mut store = UserStore::new(false);
    store.data_mut().insert(1, user(1, "alice"));
    let step = first_member_step(&author(1, "alice-renamed"), &store);
    match &step {
        MemberStep::Update(stored) => assert_eq!(stored, &user(1, "alice")),
        _ => panic!("not updated"),
    }
    let step = next_member_step(step, MemberReply::Account(user(1, "alice-renamed")));
    let step = next_member_step(step, MemberReply::Done);
    let step = next_member_step(step, MemberReply::Keys(PublicKeys::default()));
    match &step {
        MemberStep::UpdateKeys(updated, keys) => {
            assert_eq!(updated.name(), "alice-renamed");
            assert!(keys.is_empty());
        }
        _ => panic!("keys not updated"),
    }
    match next_member_step(step, MemberReply::Done) {
        MemberStep::Processed(processed) => assert_eq!(processed.name(), "alice-renamed"),
        _ => panic!("not processed"),
    }
}

#[test]
fn process_user_fails_when_the_group_sync_fails() {
    let step = MemberStep::SyncGroups(user(1, "alice"));
    assert!(matches!(
        next_member_step(step, MemberReply::Failed),
        MemberStep::GroupsFailed
    ));
}

#[test]
fn other_failures_of_processing_a_member() {
    assert!(matches!(
        next_member_step(MemberStep::Update(user(1, "a")), MemberReply::Failed),
        MemberStep::UpdateFailed
    ));
    let ids = AccountIds::Stored { uid: 1, gid: None };
    assert!(matches!(
        next_member_step(MemberStep::Create(ids), MemberReply::Failed),
        MemberStep::CreateFailed
    ));
    assert!(matches!(
        next_member_step(
            MemberStep::UpdateKeys(user(1, "a"), PublicKeys::default()),
            MemberReply::Failed
        ),
        MemberStep::KeysFailed
    ));
}

#[test]
fn process_members_leaves_a_failed_member_out_of_the_new_store() {
    let new_store = collect_processed(&UserStore::new(false), vec![None]);
    assert!(new_store.data().is_empty());
}

#[test]
fn process_members_collects_a_processed_member_into_the_new_store() {
    let new_store = collect_processed(&UserStore::new(false), vec![Some(user(1, "alice"))]);
    let stored = new_store.data().get(&1).unwrap();
    assert_eq!(stored.name(), "alice");
}

/// A rejoining member has a departure record but no active record. The account is restored with
/// its retained UID and GID, then the departure record is dropped.
#[test]
fn process_members_recreates_a_rejoined_member_with_the_stored_ids() {
    let mut old_store = UserStore::new(false);
    old_store.depart_user(user(1, "alice"), now());

    match plan_creation(&author(1, "alice"), &old_store) {
        Ok(AccountIds::Stored { uid, gid }) => assert_eq!((uid, gid), (1001, Some(2001))),
        _ => panic!("IDs not restored"),
    }
    let new_store = collect_processed(&old_store, vec![Some(user(1, "alice"))]);
    assert!(new_store.data().contains_key(&1));
    assert!(new_store.departed().is_empty());
}

/// A member whose account was purged gets the same IDs with a new account
#[test]
fn purged_member_gets_the_stored_ids_back() {
    let mut store = UserStore::new(false);
    store.depart_user(user(1, "alice"), now());
    store.mark_purged(&1, now());
    match plan_creation(&author(1, "alice"), &store) {
        Ok(AccountIds::Stored { uid, gid }) => assert_eq!((uid, gid), (1001, Some(2001))),
        _ => panic!("IDs not restored"),
    }
}

/// A brand-new member's creation carries IDs retained for departed members.
#[test]
fn process_members_reserves_departed_ids_for_a_new_member() {
    let mut old_store = UserStore::new(false);
    old_store.depart_user(user(1, "alice"), now());

    match plan_creation(&author(2, "bob"), &old_store) {
        Ok(AccountIds::Fresh {
            reserved_uids,
            reserved_gids,
        }) => {
            assert_eq!(reserved_uids, HashSet::from([1001]));
            assert_eq!(reserved_gids, HashSet::from([2001]));
        }
        _ => panic!("not fresh"),
    }
}

#[test]
fn purged_ids_are_reserved_too() {
    let mut store = UserStore::new(false);
    store.depart_user(user(1, "alice"), now());
    store.mark_purged(&1, now());
    store.depart_user(User::new(3, "carl".to_string(), 7, None), now());
    match plan_creation(&author(2, "bob"), &store) {
        Ok(AccountIds::Fresh {
            reserved_uids,
            reserved_gids,
        }) => {
            assert_eq!(reserved_uids, HashSet::from([1001, 7]));
            assert_eq!(reserved_gids, HashSet::from([2001]));
        }
        _ => panic!("not fresh"),
    }
}

/// A departed member's login claimed by a different person must not adopt the disabled account.
#[test]
fn recycled_login_of_a_departed_member_is_refused() {
    let mut old_store = UserStore::new(false);
    old_store.depart_user(user(1, "alice"), now());

    let Err(err) = plan_creation(&author(2, "alice"), &old_store) else {
        panic!("accepted");
    };
    assert!(err.message().contains("recycled"));
    assert_eq!(
        err.message(),
        "Login 'alice' belonged to the departed member with GitHub ID 1, but the joining member \
         has GitHub ID 2: the login was recycled by a different person, refusing to create the user"
    );
    assert!(matches!(
        first_member_step(&author(2, "alice"), &old_store),
        MemberStep::Refused(_)
    ));
}

/// Departure records survive member processing.
#[test]
fn process_members_keeps_the_departure_when_restoration_fails() {
    let mut old_store = UserStore::new(false);
    old_store.depart_user(user(1, "alice"), now());

    let new_store = collect_processed(&old_store, vec![None]);

    assert!(new_store.data().is_empty());
    assert!(new_store.departed().contains_key(&1));
}

/// A departure is saved before the account is disabled. A failure therefore leaves a durable
/// record for the next sync.
#[test]
fn depart_and_disable_keeps_the_record_when_disabling_fails() {
    let mut store = UserStore::new(false);
    let mut saved = Disk::default();
    depart_and_disable(
        &mut store,
        &mut saved,
        vec![user(1, "alice")],
        &member_map(&[]),
        &[false],
    );

    let departure = &saved.departed[&1];
    assert_eq!(departure.name(), "alice");
    // No completion timestamp means the next sync retries the disablement.
    assert!(departure.expired_at().is_none());
    assert!(saved.users.is_empty());
}

/// A departure whose disablement never completed is retried by a later sync.
#[test]
fn depart_and_disable_retries_an_unfinished_departure() {
    let mut store = UserStore::new(false);
    let mut disk = Disk::default();
    store.depart_user(user(1, "alice"), now());

    // No members left in this sync. The unfinished departure alone drives disablement.
    let disabled_users =
        depart_and_disable(&mut store, &mut disk, vec![], &member_map(&[]), &[true]);

    assert_eq!(disabled_users, ["alice"]);
    assert!(store.departed()[&1].expired_at().is_some());
}

/// A rejoining member whose account was restored but whose group or key sync then failed keeps
/// their unfinished departure for this sync.
#[test]
fn depart_and_disable_skips_unfinished_departure_for_current_member() {
    let mut store = UserStore::new(false);
    let mut disk = Disk::default();
    let alice = user(1, "alice");
    store.depart_user(alice.clone(), now());

    let disabled_users =
        depart_and_disable(&mut store, &mut disk, vec![], &member_map(&[alice]), &[]);

    assert!(disabled_users.is_empty());
    // The departure remains unfinished for a later successful sync to remove.
    assert!(store.departed()[&1].expired_at().is_none());
}

/// A completed disablement is not repeated during the retention period.
#[test]
fn depart_and_disable_skips_a_finished_departure() {
    let mut store = UserStore::new(false);
    let mut disk = Disk::default();
    store.depart_user(user(1, "alice"), now());
    store.mark_expired(&1, now());

    let disabled_users =
        depart_and_disable(&mut store, &mut disk, vec![], &member_map(&[]), &[]);

    assert!(disabled_users.is_empty());
}

/// Every pending account has its turn once, whatever came of the others
#[test]
fn each_pending_account_is_disabled_once() {
    let mut store = UserStore::new(false);
    let mut disk = Disk::default();
    store.depart_user(user(4, "dora"), now());
    let mut seen = depart_and_disable(
        &mut store,
        &mut disk,
        vec![user(1, "alice"), user(2, "bob"), user(3, "carl")],
        &member_map(&[]),
        &[true, false, true, false],
    );
    seen.sort();
    assert_eq!(seen, ["alice", "bob", "carl", "dora"]);
    let unfinished = store.departed().values().filter(|d| d.expired_at().is_none());
    assert_eq!(unfinished.count(), 2);
}

/// Every candidate has its turn once, whatever came of the others
#[test]
fn each_candidate_is_attempted_once() {
    let mut store = UserStore::new(false);
    let mut disk = Disk::default();
    for (id, name) in [(1, "alice"), (2, "bob"), (3, "carl")] {
        store.depart_user(user(id, name), old_departure());
    }
    let attempts = purge_disabled_accounts(
        &mut store,
        &mut disk,
        &member_map(&[other_member()]),
        &[
            PurgeReply::Failed,
            PurgeReply::Outcome(PurgeOutcome::Deleted),
            PurgeReply::Outcome(PurgeOutcome::NotDisabledLongEnough),
        ],
    );
    assert_eq!(attempts, 3);
    assert_eq!((disk.departed.len(), disk.purged.len()), (2, 1));
}

#[test]
fn failed_save_ends_the_departures() {
    let mut store = UserStore::new(false);
    let mut departures =
        Departures::start(&mut store, vec![user(1, "alice")], &member_map(&[]), now());
    departures.advance(&mut store, DepartureReply::Failed);
    assert_eq!(departures.step(), DepartureStep::SaveFailed);
}

/// The deletion disables every account and retains each departure record, so UIDs remain
/// available for later account restoration.
#[test]
fn delete_command_keeps_departure_records() {
    let octosync = Octosync::new(false, std::path::PathBuf::from("/data"), true);
    let mut store = octosync.empty_store();
    let mut saved = Disk::default();
    store.data_mut().insert(1, user(1, "alice"));

    let departures = octosync.delete(&mut store, now());
    run_departures(departures, &mut store, &mut saved, &[true]);

    assert!(saved.users.is_empty());
    assert_eq!(saved.departed[&1].name(), "alice");
    assert_eq!(saved.departed[&1].uid(), 1001);
}

#[test]
fn deletes_an_account_past_the_retention_period() {
    let mut store = UserStore::new(false);
    let mut saved = Disk::default();
    store.depart_user(user(1, "alice"), old_departure());

    let attempts = purge_disabled_accounts(
        &mut store,
        &mut saved,
        &member_map(&[other_member()]),
        &[PurgeReply::Outcome(PurgeOutcome::Deleted)],
    );

    assert_eq!(attempts, 1);
    assert!(store.departed().is_empty());
    // The retained record keeps the UID available for a later rejoin.
    let purged = &saved.purged[&1];
    assert_eq!(purged.name(), "alice");
    assert_eq!(purged.uid(), 1001);
    assert_eq!(purged.purged_at(), now());
}

/// A recent departure is not eligible for account deletion.
#[test]
fn recent_departure_is_not_deleted() {
    let mut store = UserStore::new(false);
    let mut disk = Disk::default();
    store.depart_user(user(1, "alice"), now());

    let attempts = purge_disabled_accounts(
        &mut store,
        &mut disk,
        &member_map(&[other_member()]),
        &[PurgeReply::Outcome(PurgeOutcome::Deleted)],
    );

    assert_eq!(attempts, 0);
    assert!(store.departed().contains_key(&1));
    assert!(store.purged().is_empty());
}

#[test]
fn accounts_are_kept_for_half_a_year_by_default() {
    assert_eq!(DEFAULT_PURGE_AFTER_DAYS, 180);
}

/// The retention period ends on the nanosecond
#[test]
fn retention_period_is_exact() {
    let cutoff = Timestamp {
        secs: now().secs - RETENTION_DAYS as i64 * DAY,
        nanos: now().nanos,
    };
    let just_after = Timestamp {
        secs: cutoff.secs,
        nanos: cutoff.nanos + 1,
    };
    for (departed_at, expected) in [(cutoff, 1), (just_after, 0)] {
        let mut store = UserStore::new(false);
        store.depart_user(user(1, "alice"), departed_at);
        let attempts = purge_disabled_accounts(
            &mut store,
            &mut Disk::default(),
            &member_map(&[other_member()]),
            &[PurgeReply::Outcome(PurgeOutcome::Deleted)],
        );
        assert_eq!(attempts, expected);
    }
}

/// A current member's account is never deleted, regardless of the retained departure date.
#[test]
fn current_org_member_is_not_deleted() {
    let mut store = UserStore::new(false);
    let mut disk = Disk::default();
    let alice = user(1, "alice");
    store.depart_user(alice.clone(), old_departure());

    let attempts = purge_disabled_accounts(
        &mut store,
        &mut disk,
        &member_map(&[alice]),
        &[PurgeReply::Outcome(PurgeOutcome::Deleted)],
    );

    assert_eq!(attempts, 0);
    assert!(store.departed().contains_key(&1));
    assert!(store.purged().is_empty());
}

/// The departure date and shadow expiry disagree, so the departure record remains.
#[test]
fn account_side_disagreement_keeps_the_departure() {
    let mut store = UserStore::new(false);
    let mut disk = Disk::default();
    store.depart_user(user(1, "alice"), old_departure());
    store.depart_user(user(2, "bob"), old_departure());

    purge_disabled_accounts(
        &mut store,
        &mut disk,
        &member_map(&[other_member()]),
        &[
            PurgeReply::Outcome(PurgeOutcome::NotDisabledLongEnough),
            PurgeReply::Outcome(PurgeOutcome::NoAccount),
        ],
    );

    assert_eq!(store.departed().len(), 2);
    assert!(store.purged().is_empty());
    assert!(store.departed()[&1].purge_started_at().is_none());
    assert!(store.departed()[&2].purge_started_at().is_none());
}

/// A failed purge keeps the departure record for a later retry.
#[test]
fn failed_purge_keeps_the_departure() {
    let mut store = UserStore::new(false);
    let mut disk = Disk::default();
    store.depart_user(user(1, "alice"), old_departure());

    purge_disabled_accounts(
        &mut store,
        &mut disk,
        &member_map(&[other_member()]),
        &[PurgeReply::Failed],
    );

    assert!(store.departed().contains_key(&1));
    assert!(store.purged().is_empty());
}

/// An empty member list makes every departure record look eligible, so the purge refuses it.
#[test]
fn empty_member_list_refuses_the_purge() {
    let mut store = UserStore::new(false);
    store.depart_user(user(1, "alice"), old_departure());

    let purge = Purge::start(&mut store, &member_map(&[]), now(), RETENTION_DAYS);

    assert_eq!(purge.step(), PurgeStep::Refused);
    assert!(refusal_message(ORG).contains("returned no members"));
    assert_eq!(
        refusal_message(ORG),
        "Refusing to purge: GitHub org 'acme' returned no members, which would make every \
         departure record eligible. No accounts were deleted."
    );
    assert!(store.departed().contains_key(&1));
    assert!(store.departed()[&1].purge_started_at().is_none());
}

/// Without members, the retention period does not matter
#[test]
fn refused_purge_needs_no_cutoff() {
    let mut store = UserStore::new(false);
    let purge = Purge::start(&mut store, &member_map(&[]), now(), u32::MAX);
    assert_eq!(purge.step(), PurgeStep::Refused);
}

/// A store containing only departure records has no active user left to detect a broken member
/// list, so the guard must not depend on active users.
#[test]
fn empty_member_list_is_refused_with_departures_only() {
    let mut store = UserStore::new(false);
    store.depart_user(user(1, "alice"), old_departure());
    store.depart_user(user(2, "bob"), old_departure());

    assert!(store.data().is_empty());
    let purge = Purge::start(&mut store, &member_map(&[]), now(), RETENTION_DAYS);
    assert_eq!(purge.step(), PurgeStep::Refused);
    assert_eq!(store.departed().len(), 2);
}

/// A failure may happen after the account was removed, so the persisted marker is retained for
/// the next run to resolve.
#[test]
fn failed_purge_keeps_the_pending_marker() {
    let mut store = UserStore::new(false);
    let mut saved = Disk::default();
    store.depart_user(user(1, "alice"), old_departure());

    purge_disabled_accounts(
        &mut store,
        &mut saved,
        &member_map(&[other_member()]),
        &[PurgeReply::Failed],
    );

    assert!(saved.departed[&1].purge_started_at().is_some());
}

/// The account is gone and the departure record shows an interrupted purge. The next run
/// completes the unfinished store update.
#[test]
fn interrupted_purge_is_completed_on_the_next_run() {
    let mut store = UserStore::new(false);
    let mut disk = Disk::default();
    store.depart_user(user(1, "alice"), old_departure());
    store.mark_purge_started(&1, old_departure());

    purge_disabled_accounts(
        &mut store,
        &mut disk,
        &member_map(&[other_member()]),
        &[PurgeReply::Outcome(PurgeOutcome::NoAccount)],
    );

    assert!(store.departed().is_empty());
    assert_eq!(store.purged()[&1].name(), "alice");
}

/// Without a marker, a missing account may have been deleted independently. Its departure record
/// must remain.
#[test]
fn account_deleted_by_an_operator_keeps_its_departure() {
    let mut store = UserStore::new(false);
    let mut disk = Disk::default();
    store.depart_user(user(1, "alice"), old_departure());

    purge_disabled_accounts(
        &mut store,
        &mut disk,
        &member_map(&[other_member()]),
        &[PurgeReply::Outcome(PurgeOutcome::NoAccount)],
    );

    assert!(store.departed().contains_key(&1));
    assert!(store.purged().is_empty());
}

/// Each purge result is persisted before the next account is attempted.
#[test]
fn each_purge_is_saved_before_the_next_one_starts() {
    let mut store = UserStore::new(false);
    let mut saved = Disk::default();
    store.depart_user(user(1, "alice"), old_departure());
    store.depart_user(user(2, "bob"), old_departure());

    purge_disabled_accounts(
        &mut store,
        &mut saved,
        &member_map(&[other_member()]),
        &[
            PurgeReply::Outcome(PurgeOutcome::Deleted),
            PurgeReply::Failed,
        ],
    );

    // One account was deleted and one purge failed. Both outcomes are saved. The processing order
    // is not fixed, so only the counts are asserted.
    assert_eq!(saved.purged.len(), 1);
    assert_eq!(saved.departed.len(), 1);
    // The marker and the result of each account, and the end
    assert_eq!(saved.writes, 5);
}

#[test]
fn failed_save_ends_the_purge() {
    let mut store = UserStore::new(false);
    store.depart_user(user(1, "alice"), old_departure());
    let members = member_map(&[other_member()]);
    let mut purge = Purge::start(&mut store, &members, now(), RETENTION_DAYS);
    assert_eq!(purge.step(), PurgeStep::SaveMarker);
    purge.advance(&mut store, PurgeReply::Failed);
    assert_eq!(purge.step(), PurgeStep::SaveFailed);
}

/// A record for a permanently deleted account is not processed by account disablement again.
#[test]
fn deleted_record_is_not_disabled_again() {
    let mut store = UserStore::new(false);
    let mut disk = Disk::default();
    store.depart_user(user(1, "alice"), old_departure());
    store.mark_purged(&1, now());

    let disabled_users =
        depart_and_disable(&mut store, &mut disk, vec![], &member_map(&[]), &[]);

    assert!(disabled_users.is_empty());
}

fn sync_of(users: &[User], members: &[User]) -> SyncRun {
    let octosync = Octosync::new(false, std::path::PathBuf::from("/data"), true);
    let mut store = octosync.empty_store();
    for u in users {
        store.data_mut().insert(u.id(), u.clone());
    }
    octosync.sync(store, member_map(members), RETENTION_DAYS)
}

#[test]
fn sync_refuses_an_untrusted_member_list() {
    let sync = sync_of(&[user(1, "a"), user(2, "b")], &[user(3, "c")]);
    assert_eq!(
        sync.step(),
        SyncStep::Failed(SyncFailure::NoStoredUserIsMember)
    );
    assert_eq!(
        SyncFailure::NoStoredUserIsMember.message(2, ORG, 1),
        "Refusing to sync: none of the 2 stored users is in the fetched member list of org 'acme' \
         (1 members). Nothing was changed on the system. Run the 'delete' command to disable all \
         users intentionally."
    );
    assert_eq!(
        SyncFailure::WouldDisableAll.message(2, ORG, 1),
        "Refusing to disable all 2 stored users in a single sync. None of them is in the fetched \
         member list of org 'acme' (1 members). All users are kept in the store. Run the 'delete' \
         command to disable them intentionally."
    );
    assert_eq!(SyncFailure::NoMembers.message(0, ORG, 0), refusal_message(ORG));
    assert_eq!(SyncFailure::Groups.message(0, ORG, 0), "Failed to create the groups");
    assert_eq!(SyncFailure::Save.message(0, ORG, 0), "Failed to save the users database");
}

#[test]
fn sync_runs_from_groups_to_the_purge() {
    let stayed = user(1, "a");
    let failed = user(2, "b");
    let left = user(3, "c");
    let mut sync = sync_of(
        &[stayed.clone(), failed.clone(), left.clone()],
        &[stayed.clone(), failed.clone()],
    );
    assert_eq!(sync.step(), SyncStep::EnsureGroups);
    sync.advance(SyncReply::Done, now());
    assert_eq!(sync.step(), SyncStep::ProcessMembers);
    assert_eq!(sync.loaded().data().len(), 3);
    sync.advance(SyncReply::Processed(vec![Some(stayed.clone()), None]), now());

    // The departure is saved before the account is disabled
    assert_eq!(sync.step(), SyncStep::Save);
    assert_eq!(sync.store().data().len(), 2);
    assert_eq!(sync.store().data()[&2], failed);
    assert_eq!(sync.store().departed()[&3].departed_at(), now());
    assert_eq!(
        sync.begin_save(),
        SaveAction::Write {
            backup_first: false
        }
    );
    sync.advance(SyncReply::Departure(DepartureReply::Saved), now());
    assert_eq!(sync.step(), SyncStep::Disable);
    assert_eq!(sync.departures().unwrap().user(), &left);
    sync.advance(SyncReply::Departure(DepartureReply::Disabled(now())), now());
    assert_eq!(sync.step(), SyncStep::Save);
    sync.advance(SyncReply::Departure(DepartureReply::Saved), now());

    // The departure is too recent to be purged now, but not a year later
    assert!(sync.departures().is_none());
    assert_eq!(sync.purge().unwrap().step(), PurgeStep::SaveAll);
    sync.advance(SyncReply::Purge(PurgeReply::Saved), now());
    assert_eq!(sync.step(), SyncStep::Finished);
    assert_eq!(sync.members().len(), 2);
    // The leaver's IDs are kept
    assert_eq!(User::from(&sync.store().departed()[&3]), left);
}

/// The backup of a v1 file is made by the first save of a sync whose copy succeeds
#[test]
fn sync_backs_up_a_v1_file_once() {
    let octosync = Octosync::new(false, std::path::PathBuf::from("/data"), true);
    let mut store = octosync.empty_store();
    store.install_v1(UserMap::from([(1, user(1, "a"))]));
    let mut sync = octosync.sync(store, member_map(&[user(1, "a")]), RETENTION_DAYS);
    sync.advance(SyncReply::Done, now());
    sync.advance(SyncReply::Processed(vec![Some(user(1, "a"))]), now());
    assert_eq!(sync.step(), SyncStep::Save);
    assert_eq!(sync.begin_save(), SaveAction::Write { backup_first: true });
    assert_eq!(sync.begin_save(), SaveAction::Write { backup_first: true });
    sync.backed_up();
    assert_eq!(sync.begin_save(), SaveAction::Write { backup_first: false });
    sync.advance(SyncReply::Departure(DepartureReply::Saved), now());
    assert_eq!(sync.step(), SyncStep::Save);
    assert_eq!(sync.begin_save(), SaveAction::Write { backup_first: false });
}

#[test]
fn sync_purges_what_is_due() {
    let octosync = Octosync::new(false, std::path::PathBuf::from("/data"), true);
    let mut store = octosync.empty_store();
    store.depart_user(user(1, "alice"), old_departure());
    store.mark_expired(&1, old_departure());
    let mut sync = octosync.sync(store, member_map(&[other_member()]), RETENTION_DAYS);
    sync.advance(SyncReply::Done, now());
    sync.advance(SyncReply::Processed(vec![Some(other_member())]), now());
    sync.advance(SyncReply::Departure(DepartureReply::Saved), now());
    sync.advance(SyncReply::Departure(DepartureReply::Saved), now());
    assert_eq!(sync.purge().unwrap().step(), PurgeStep::SaveMarker);
    sync.advance(SyncReply::Purge(PurgeReply::Saved), now());
    assert_eq!(sync.step(), SyncStep::Purge);
    assert_eq!(sync.purge().unwrap().user().name(), "alice");
    sync.advance(
        SyncReply::Purge(PurgeReply::Outcome(PurgeOutcome::Deleted)),
        now(),
    );
    sync.advance(SyncReply::Purge(PurgeReply::Saved), now());
    sync.advance(SyncReply::Purge(PurgeReply::Saved), now());
    assert_eq!(sync.step(), SyncStep::Finished);
    let record = &sync.store().purged()[&1];
    assert_eq!((record.uid(), record.gid()), (1001, Some(2001)));
}

#[test]
fn sync_fails_with_its_steps() {
    let a = user(1, "a");
    let mut sync = sync_of(&[a.clone()], &[a.clone()]);
    sync.advance(SyncReply::Failed, now());
    assert_eq!(sync.step(), SyncStep::Failed(SyncFailure::Groups));

    let mut sync = sync_of(&[a.clone()], &[a.clone()]);
    sync.advance(SyncReply::Done, now());
    sync.advance(SyncReply::Processed(vec![Some(a.clone())]), now());
    sync.advance(SyncReply::Departure(DepartureReply::Failed), now());
    assert_eq!(sync.step(), SyncStep::Failed(SyncFailure::Save));

    // Nobody is stored and nobody is a member: the purge refuses
    let mut sync = sync_of(&[], &[]);
    sync.advance(SyncReply::Done, now());
    sync.advance(SyncReply::Processed(vec![]), now());
    sync.advance(SyncReply::Departure(DepartureReply::Saved), now());
    sync.advance(SyncReply::Departure(DepartureReply::Saved), now());
    assert_eq!(sync.step(), SyncStep::Failed(SyncFailure::NoMembers));
}

#[test]
fn commands_know_their_directory_and_backend() {
    let dir = std::path::PathBuf::from("/data");
    for (dry_run, on_linux, linux) in [
        (false, true, true),
        (true, true, false),
        (false, false, false),
        (true, false, false),
    ] {
        let octosync = Octosync::new(dry_run, dir.clone(), on_linux);
        assert_eq!(octosync.data_dir(), &dir);
        assert_eq!(octosync.empty_store().dry_run(), dry_run);
        let backend = octosync.into_user_manager().into_backend();
        assert_eq!(matches!(backend, Backend::Linux(_)), linux);
    }
}

#[test]
fn purge_command_starts_a_purge() {
    let octosync = Octosync::new(true, std::path::PathBuf::from("/data"), false);
    let mut store = octosync.empty_store();
    store.depart_user(user(1, "alice"), old_departure());
    let purge = octosync.purge(
        &mut store,
        &member_map(&[other_member()]),
        now(),
        RETENTION_DAYS,
    );
    assert_eq!(purge.step(), PurgeStep::SaveMarker);
    assert_eq!(store.departed()[&1].purge_started_at(), Some(now()));
}
