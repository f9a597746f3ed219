use octosync::calendar::Timestamp;
use octosync::members::GitHubUser;
use octosync::names::NameSet;
use octosync::public_keys::PublicKeys;
use octosync::store::User;
use octosync::user_manager::backends::linux::{
    after_lookup, created_user, current_supplementary_groups, expiry_args, first_disable_step,
    fresh_id, groupadd_args, groups_args, needed_gid, next_disable_step, next_kill_step,
    plan_account, plan_update, processes_of_uid, purge_check, rename_args, resolve_account_checked,
    restores_account, useradd_args, userdel_args, Account, CreatePlan, CreateStep, DisableStep,
    EnsureReply, EnsureStep, EnsuringGroups, KillReply, KillStep, LinuxUserManager, Membership,
    Process, UpdatePlan,
};
use octosync::user_manager::backends::login_defs::{
    id_range, IdRange, DEFAULT_FIRST_ID, DEFAULT_LAST_ID,
};
use octosync::user_manager::backends::shadow::shadow_expiry;
use octosync::user_manager::backends::mock::MockUserManager;
use octosync::user_manager::messages::{
    AccountIds, CreateUser, PurgeAccount, PurgeOutcome, UpdateUser,
};
use octosync::user_manager::{supplementary_groups_update, UserManager};
use std::collections::HashSet;

fn set(groups: &[&str]) -> NameSet {
    let mut r = NameSet::new();
    for group in groups {
        r.insert(group.to_string());
    }
    r
}

fn groups(groups: &[&str]) -> Vec<String> {
    groups.iter().map(|group| group.to_string()).collect()
}

#[test]
fn replaces_out_of_band_memberships() {
    let update = supplementary_groups_update(&groups(&["developers"]), "alice", &set(&["docker"]));
    assert_eq!(update, Some(groups(&["developers"])));
}

#[test]
fn primary_group_is_excluded() {
    let update =
        supplementary_groups_update(&groups(&["alice", "developers"]), "alice", &set(&[]));
    assert_eq!(update, Some(groups(&["developers"])));
}

#[test]
fn no_update_when_groups_match() {
    let update = supplementary_groups_update(
        &groups(&["developers", "ops"]),
        "alice",
        &set(&["developers", "ops"]),
    );
    assert_eq!(update, None);
}

#[test]
fn empty_desired_set_clears_groups() {
    let update = supplementary_groups_update(&groups(&[]), "alice", &set(&["docker"]));
    assert_eq!(update, Some(groups(&[])));
}

#[test]
fn duplicate_groups_are_deduplicated_and_sorted() {
    let update = supplementary_groups_update(
        &groups(&["ops", "developers", "ops"]),
        "alice",
        &set(&[]),
    );
    assert_eq!(update, Some(groups(&["developers", "ops"])));
}

fn alice() -> GitHubUser {
    GitHubUser {
        id: 1,
        login: "alice".to_string(),
    }
}

fn stored(name: &str, gid: Option<u32>) -> User {
    User::new(1, name.to_string(), 1001, gid)
}

fn account(name: &str, uid: u32, gid: u32) -> Account {
    Account {
        name: name.to_string(),
        uid,
        gid,
    }
}

fn create(ids: AccountIds) -> CreateUser {
    CreateUser {
        gh_user: alice(),
        ids,
    }
}

fn fresh(uids: &[u32], gids: &[u32]) -> AccountIds {
    AccountIds::Fresh {
        reserved_uids: uids.iter().copied().collect(),
        reserved_gids: gids.iter().copied().collect(),
    }
}

#[test]
fn messages_carry_their_arguments() {
    let manager = UserManager::new(true, true);
    let user = stored("alice", None);
    let now = Timestamp { secs: 5, nanos: 6 };
    assert_eq!(manager.create_user(&alice(), fresh(&[], &[])).gh_user.login, "alice");
    assert_eq!(manager.update_user(&alice(), &user).available_user, user);
    assert_eq!(manager.disable_user(&user).user, user);
    assert_eq!(manager.purge_user(&user, now).disabled_before, now);
    assert_eq!(
        manager.sync_supplementary_groups(&user, &groups(&["a", "b"])).groups,
        groups(&["a", "b"])
    );
    assert_eq!(manager.ensure_groups_exist(&groups(&["a"])).groups, groups(&["a"]));
    let keys = PublicKeys::from_str("ssh-ed25519 AAAAC3NzaC1lZDI1NTE5AAAAIBV7RbtHsMgxdZoHYjAxh4myaRJ0ujTrHkww1YmbpY67 key1@host");
    let sent = manager.update_authorized_keys(&user, &keys).keys;
    assert_eq!(sent.len(), 1);
    assert_eq!(sent.to_text(), keys.to_text());
}

#[test]
fn mock_hands_out_the_next_number_that_is_not_reserved() {
    let mut mock = MockUserManager::new(1000);
    let first = mock.create_user(&create(fresh(&[], &[])));
    assert_eq!(first, User::new(1, "alice".to_string(), 1001, Some(1001)));
    let second = mock.create_user(&create(fresh(&[1002], &[1003])));
    assert_eq!((second.uid(), second.gid()), (1004, Some(1004)));
}

#[test]
fn mock_numbers_wrap_around_like_uids() {
    let mut mock = MockUserManager::new(u32::MAX as usize);
    assert_eq!(mock.create_user(&create(fresh(&[], &[]))).uid(), 0);
}

#[test]
fn mock_restores_stored_ids() {
    let mut mock = MockUserManager::new(1000);
    let known = mock.create_user(&create(AccountIds::Stored {
        uid: 7,
        gid: Some(8),
    }));
    assert_eq!((known.uid(), known.gid()), (7, Some(8)));
    let unknown = mock.create_user(&create(AccountIds::Stored { uid: 7, gid: None }));
    assert_eq!((unknown.uid(), unknown.gid()), (7, Some(7)));
    // Restored accounts use up no number
    assert_eq!(mock.create_user(&create(fresh(&[], &[]))).uid(), 1001);
}

#[test]
fn mock_updates_take_the_current_login() {
    let mock = MockUserManager::new(1000);
    for (name, exists) in [("alice", true), ("alice", false), ("old", true), ("old", false)] {
        let msg = UpdateUser {
            gh_user: alice(),
            available_user: stored(name, Some(5)),
        };
        assert_eq!(mock.update_user(&msg, exists), stored("alice", Some(5)));
    }
}

#[test]
fn mock_previews_the_purge() {
    let mock = MockUserManager::new(1000);
    let msg = PurgeAccount {
        user: stored("alice", None),
        disabled_before: Timestamp { secs: 0, nanos: 0 },
    };
    assert_eq!(mock.purge_account(&msg), PurgeOutcome::Deleted);
}

#[test]
fn account_must_match_the_store() {
    let user = stored("alice", None);
    let own = account("alice", 1001, 1);
    let foreign = account("alice", 1002, 1);
    let other = account("bob", 1001, 1);
    assert!(resolve_account_checked(&user, Some(&own), Some(&own)).unwrap());
    assert!(!resolve_account_checked(&user, None, None).unwrap());
    assert_eq!(
        resolve_account_checked(&user, Some(&foreign), None)
            .unwrap_err()
            .message(),
        "User 'alice' has UID 1002 in the system but UID 1001 in the store, refusing to delete"
    );
    assert_eq!(
        resolve_account_checked(&user, None, Some(&other))
            .unwrap_err()
            .message(),
        "No user named 'alice' in the system, but UID 1001 belongs to 'bob', refusing to delete"
    );
}

/// The IDs of fresh accounts on a machine without settings of its own
fn usual() -> IdRange {
    id_range("")
}

fn ids(numbers: &[u32]) -> HashSet<u32> {
    numbers.iter().copied().collect()
}

#[test]
fn fresh_ids_start_at_the_lowest_that_is_available() {
    assert_eq!(
        fresh_id(usual(), &ids(&[1000]), &ids(&[1001]), &ids(&[1002, 1005]), &ids(&[1003])),
        Some(1004)
    );
    let none = ids(&[]);
    assert_eq!(fresh_id(usual(), &none, &none, &none, &none), Some(1000));
}

#[test]
fn fresh_ids_end_with_the_range() {
    let none = ids(&[]);
    let but_last: HashSet<u32> = (1000..60000).collect();
    assert_eq!(fresh_id(usual(), &none, &none, &but_last, &none), Some(60000));
    assert_eq!(fresh_id(usual(), &none, &none, &but_last, &ids(&[60000])), None);
    let full: HashSet<u32> = (1000..=60000).collect();
    assert_eq!(
        plan_account(&create(fresh(&[], &[])), None, usual(), &full, &none),
        CreatePlan::NoIdLeft
    );
}

#[test]
fn fresh_ids_come_from_the_range_of_the_machine() {
    let none = ids(&[]);
    let range = IdRange {
        first: 5000,
        last: 5001,
    };
    let join = create(fresh(&[5000], &[]));
    assert_eq!(
        plan_account(&join, None, range, &none, &none),
        CreatePlan::Add {
            uid: 5001,
            gid: None
        }
    );
    assert_eq!(
        plan_account(&join, None, range, &none, &ids(&[5001])),
        CreatePlan::NoIdLeft
    );
    // An account may have a number outside
    assert_eq!(
        plan_account(&join, Some(&account("alice", 1500, 1500)), range, &none, &none),
        CreatePlan::Reuse
    );
    let top = IdRange {
        first: u32::MAX,
        last: u32::MAX,
    };
    assert_eq!(fresh_id(top, &none, &none, &none, &none), Some(u32::MAX));
    assert_eq!(fresh_id(top, &ids(&[u32::MAX]), &none, &none, &none), None);
    let empty = IdRange { first: 2, last: 1 };
    assert_eq!(fresh_id(empty, &none, &none, &none, &none), None);
}

#[test]
fn the_settings_say_which_ids_fresh_accounts_get() {
    let range = |settings: &str| {
        let r = id_range(settings);
        (r.first, r.last)
    };
    assert_eq!(range(""), (1000, 60000));
    assert_eq!((DEFAULT_FIRST_ID, DEFAULT_LAST_ID), (1000, 60000));
    assert_eq!(range("UID_MIN 5000\nUID_MAX\t 6000\n"), (5000, 6000));
    assert_eq!(range("  UID_MIN\t\t 500 # lower\n"), (500, 60000));
    assert_eq!(range("#UID_MIN 500\n# UID_MAX 600\n"), (1000, 60000));
    assert_eq!(range("SYS_UID_MIN 100\nSYS_UID_MAX 999\n"), (1000, 60000));
    assert_eq!(range("UID_MIN 500\nUID_MIN 700\n"), (700, 60000));
    assert_eq!(range("UID_MIN\nUID_MAX many\n"), (1000, 60000));
    assert_eq!(range("UID_MAX 4294967295\n"), (1000, u32::MAX));
    assert_eq!(range("UID_MAX 4294967296\n"), (1000, 60000));
}

/// Only fresh IDs are planned again, and each time the plan has a greater one
#[test]
fn taken_ids_are_planned_again() {
    let join = create(fresh(&[], &[]));
    let rejoin = create(AccountIds::Stored {
        uid: 1001,
        gid: Some(2001),
    });
    let without_gid = create(AccountIds::Stored {
        uid: 1001,
        gid: None,
    });
    assert_eq!(needed_gid(&join.ids, 1000), Some(1000));
    assert_eq!(needed_gid(&rejoin.ids, 1001), Some(2001));
    assert_eq!(needed_gid(&without_gid.ids, 1001), None);
    for msg in [&join, &rejoin, &without_gid] {
        assert_eq!(after_lookup(&msg.ids, false), CreateStep::Add);
    }
    assert_eq!(after_lookup(&join.ids, true), CreateStep::PlanAgain);
    assert_eq!(after_lookup(&rejoin.ids, true), CreateStep::Refuse);
    assert_eq!(after_lookup(&without_gid.ids, true), CreateStep::Refuse);
    let mut taken_gids = ids(&[]);
    for uid in 1000..1003 {
        assert_eq!(
            plan_account(&join, None, usual(), &ids(&[]), &taken_gids),
            CreatePlan::Add { uid, gid: None }
        );
        taken_gids.insert(uid);
    }
}

#[test]
fn only_rejoining_members_get_their_account_enabled() {
    assert!(restores_account(&AccountIds::Stored {
        uid: 1001,
        gid: None,
    }));
    assert!(!restores_account(&fresh(&[], &[])));
}

#[test]
fn accounts_are_reused_or_added() {
    let none = ids(&[]);
    let rejoin = create(AccountIds::Stored {
        uid: 1001,
        gid: Some(1001),
    });
    assert_eq!(
        plan_account(&rejoin, Some(&account("alice", 1001, 1001)), usual(), &none, &none),
        CreatePlan::Reuse
    );
    assert_eq!(
        plan_account(&rejoin, Some(&account("alice", 1001, 5)), usual(), &none, &none),
        CreatePlan::UnsafeIds
    );
    assert_eq!(
        plan_account(&rejoin, None, usual(), &none, &none),
        CreatePlan::Add {
            uid: 1001,
            gid: Some(1001)
        }
    );
    let join = create(fresh(&[1000], &[]));
    assert_eq!(
        plan_account(&join, None, usual(), &ids(&[1001]), &ids(&[1002])),
        CreatePlan::Add {
            uid: 1003,
            gid: None
        }
    );
    assert_eq!(
        plan_account(&join, Some(&account("alice", 1000, 9)), usual(), &none, &none),
        CreatePlan::UnsafeIds
    );
    assert_eq!(
        plan_account(&join, Some(&account("alice", 1500, 1500)), usual(), &none, &none),
        CreatePlan::Reuse
    );
}

/// A rejoining member gets neither somebody else's UID nor somebody else's group
#[test]
fn stored_ids_must_be_available() {
    let none = ids(&[]);
    let rejoin = create(AccountIds::Stored {
        uid: 1001,
        gid: Some(2001),
    });
    for (uids, gids, plan) in [
        (ids(&[1001]), none.clone(), CreatePlan::UnsafeIds),
        (none.clone(), ids(&[2001]), CreatePlan::UnsafeIds),
        (
            ids(&[2001]),
            ids(&[1001]),
            CreatePlan::Add {
                uid: 1001,
                gid: Some(2001),
            },
        ),
    ] {
        assert_eq!(plan_account(&rejoin, None, usual(), &uids, &gids), plan);
    }
    let without_gid = create(AccountIds::Stored {
        uid: 1001,
        gid: None,
    });
    assert_eq!(
        plan_account(&without_gid, None, usual(), &none, &ids(&[1001])),
        CreatePlan::Add {
            uid: 1001,
            gid: None
        }
    );
}

#[test]
fn shadow_file_gives_the_expiry() {
    let content = "root:*:19000:0:99999:7:::\n\
                   alice:!:19000:0:99999:7::20100:\n\
                   bob:!:19000:0:99999:7::-1:\n\
                   carl:!:1\n\
                   alice:!:19000:0:99999:7::1:\n\
                   dora:!:::::::9\n\
                   emil:!::::::9223372036854775807:\n\
                   fred:!::::::9223372036854775808:\n\
                   gina:!::::::12x:\n";
    assert_eq!(shadow_expiry(content, "alice"), Some(20100));
    assert_eq!(shadow_expiry(content, "emil"), Some(i64::MAX));
    for none in ["root", "bob", "carl", "dora", "fred", "gina", "ali", "", "nobody"] {
        assert_eq!(shadow_expiry(content, none), None, "{none}");
    }
    assert_eq!(shadow_expiry("", "alice"), None);
}

#[test]
fn created_user_has_the_ids_of_the_account() {
    let join = create(fresh(&[1000], &[1000]));
    assert_eq!(
        created_user(&join, &account("alice", 1002, 1003)),
        Some(User::new(1, "alice".to_string(), 1002, Some(1003)))
    );
    assert_eq!(created_user(&join, &account("alice", 1000, 1003)), None);
    assert_eq!(created_user(&join, &account("alice", 1002, 1000)), None);
    let rejoin = create(AccountIds::Stored {
        uid: 1001,
        gid: None,
    });
    assert_eq!(
        created_user(&rejoin, &account("alice", 1001, 77)),
        Some(User::new(1, "alice".to_string(), 1001, Some(77)))
    );
    assert_eq!(created_user(&rejoin, &account("alice", 1002, 77)), None);
}

#[test]
fn stored_accounts_are_reconciled() {
    let msg = |name: &str, gid: Option<u32>| UpdateUser {
        gh_user: alice(),
        available_user: stored(name, gid),
    };
    // Up to date, and the GID is filled in where it is not known
    let own = account("alice", 1001, 42);
    assert!(matches!(
        plan_update(&msg("alice", None), Some(&own), Some(&own)),
        UpdatePlan::Keep(user) if user == stored("alice", Some(42))
    ));
    assert!(matches!(
        plan_update(&msg("alice", Some(7)), Some(&own), Some(&own)),
        UpdatePlan::Keep(user) if user == stored("alice", Some(7))
    ));
    // Renamed on GitHub
    let former = account("old", 1001, 42);
    assert!(matches!(
        plan_update(&msg("old", None), Some(&former), Some(&former)),
        UpdatePlan::Rename(user) if user == stored("alice", Some(42))
    ));
    // Gone
    assert!(matches!(
        plan_update(&msg("old", None), None, None),
        UpdatePlan::Recreate
    ));
    // Collisions
    let stranger = account("mallory", 1001, 42);
    assert!(matches!(
        plan_update(&msg("old", None), Some(&stranger), None),
        UpdatePlan::UidOfOther(name) if name == "mallory"
    ));
    // The account has the login already, but the stored name is somebody else's by now
    let renamed = account("alice", 1001, 42);
    let other = account("old", 2000, 42);
    assert!(matches!(
        plan_update(&msg("old", None), Some(&renamed), Some(&other)),
        UpdatePlan::NameOfOther(2000)
    ));
    assert!(matches!(
        plan_update(&msg("old", None), Some(&renamed), None),
        UpdatePlan::Keep(user) if user == stored("alice", Some(42))
    ));
    let namesake = account("old", 2000, 42);
    assert!(matches!(
        plan_update(&msg("old", None), None, Some(&namesake)),
        UpdatePlan::NameOfOther(2000)
    ));
}

#[test]
fn command_arguments() {
    assert_eq!(
        useradd_args("alice", 1001, None),
        groups(&[
            "--create-home",
            "--shell",
            "/bin/bash",
            "--password",
            "!",
            "--uid",
            "1001",
            "alice"
        ])
    );
    assert_eq!(
        useradd_args("alice", 1001, Some(1002))[7..],
        groups(&["--gid", "1002", "alice"])[..]
    );
    assert_eq!(
        rename_args("old", "alice"),
        groups(&["--home", "/home/alice", "--move-home", "--login", "alice", "old"])
    );
    assert_eq!(
        groups_args("alice", &groups(&["a", "b"])),
        groups(&["--groups", "a,b", "alice"])
    );
    assert_eq!(
        groups_args("alice", &groups(&[])),
        groups(&["--groups", "", "alice"])
    );
    assert_eq!(
        groupadd_args("alice", Some(1002)),
        groups(&["--gid", "1002", "alice"])
    );
    assert_eq!(groupadd_args("developers", None), groups(&["developers"]));
    let at = |secs| Timestamp { secs, nanos: 0 };
    assert_eq!(
        expiry_args("alice", Some(at(1705276800))),
        groups(&["--expiredate", "2024-01-15", "alice"])
    );
    assert_eq!(
        expiry_args("alice", Some(at(1705276799))),
        groups(&["--expiredate", "2024-01-14", "alice"])
    );
    assert_eq!(
        expiry_args("alice", None),
        groups(&["--expiredate", "", "alice"])
    );
    assert_eq!(userdel_args("alice"), groups(&["--remove", "alice"]));
    assert_eq!(format!("{:?}", LinuxUserManager::new()), "LinuxUserManager");
}

#[test]
fn current_groups_leave_out_the_primary_one_and_deleted_ones() {
    let membership = |gid: u32, name: Option<&str>| Membership {
        gid,
        name: name.map(|n| n.to_string()),
    };
    let current = current_supplementary_groups(
        &vec![
            membership(1, Some("alice")),
            membership(2, Some("ops")),
            membership(3, None),
            membership(4, Some("dev")),
        ],
        1,
    );
    assert_eq!(current.to_list(), groups(&["dev", "ops"]));
}

#[test]
fn processes_are_selected_by_their_real_uid() {
    let process = |pid: i32, ruid: Option<u32>| Process { pid, ruid };
    let list = vec![
        process(10, Some(1001)),
        process(11, Some(0)),
        process(12, None),
        process(13, Some(1001)),
    ];
    assert_eq!(processes_of_uid(&list, 1001), vec![10, 13]);
}

#[test]
fn processes_are_terminated_before_they_are_killed() {
    let running = |elapsed_ms: u64| KillReply::Processes { elapsed_ms };
    assert_eq!(
        next_kill_step(KillStep::List, KillReply::NoProcesses),
        KillStep::Stopped
    );
    let mut step = next_kill_step(KillStep::List, running(0));
    assert_eq!(step, KillStep::Terminate);
    step = next_kill_step(step, KillReply::Done);
    assert_eq!(step, KillStep::Wait);
    step = next_kill_step(step, KillReply::Done);
    assert_eq!(step, KillStep::ListAgain);
    assert_eq!(next_kill_step(step, running(2999)), KillStep::Wait);
    assert_eq!(next_kill_step(step, KillReply::NoProcesses), KillStep::Stopped);
    assert_eq!(next_kill_step(step, KillReply::Failed), KillStep::ListFailed);
    assert_eq!(next_kill_step(KillStep::List, KillReply::Failed), KillStep::ListFailed);
    step = next_kill_step(step, running(3000));
    assert_eq!(step, KillStep::Kill);
    assert_eq!(next_kill_step(step, KillReply::Done), KillStep::Stopped);
}

#[test]
fn disabling_takes_every_step() {
    assert_eq!(first_disable_step(false), DisableStep::Disabled);
    let mut step = first_disable_step(true);
    let mut steps = vec![step];
    while step != DisableStep::Disabled {
        assert_eq!(next_disable_step(step, false), DisableStep::Failed);
        step = next_disable_step(step, true);
        steps.push(step);
    }
    assert_eq!(
        steps,
        vec![
            DisableStep::Expire,
            DisableStep::RemoveKeys,
            DisableStep::RemoveCrontab,
            DisableStep::RemoveJobs,
            DisableStep::EndSessions,
            DisableStep::StopProcesses,
            DisableStep::ClearGroups,
            DisableStep::Disabled,
        ]
    );
}

#[test]
fn accounts_are_deleted_only_when_expired_before_the_cutoff() {
    let cutoff = Timestamp {
        secs: 10 * 86400,
        nanos: 0,
    };
    assert_eq!(purge_check(false, Some(1), cutoff), Some(PurgeOutcome::NoAccount));
    assert_eq!(
        purge_check(true, None, cutoff),
        Some(PurgeOutcome::NotDisabledLongEnough)
    );
    assert_eq!(
        purge_check(true, Some(11), cutoff),
        Some(PurgeOutcome::NotDisabledLongEnough)
    );
    assert_eq!(purge_check(true, Some(10), cutoff), None);
    assert_eq!(
        purge_check(true, Some(i64::MAX), cutoff),
        Some(PurgeOutcome::NotDisabledLongEnough)
    );
}

#[test]
fn missing_groups_are_created() {
    let mut run = EnsuringGroups::start(groups(&["a", "b"]));
    assert_eq!(run.step(), EnsureStep::Check);
    assert_eq!(run.group(), "a");
    run.advance(EnsureReply::Exists);
    assert_eq!(run.group(), "b");
    run.advance(EnsureReply::Missing);
    assert_eq!(run.step(), EnsureStep::Create);
    assert_eq!(run.group(), "b");
    run.advance(EnsureReply::Exists);
    assert_eq!(run.step(), EnsureStep::Finished);
    assert_eq!(EnsuringGroups::start(vec![]).step(), EnsureStep::Finished);
}

#[test]
fn failures_end_the_creation_of_groups() {
    let mut run = EnsuringGroups::start(groups(&["a"]));
    run.advance(EnsureReply::Failed);
    assert_eq!(run.step(), EnsureStep::CheckFailed);
    let mut run = EnsuringGroups::start(groups(&["a"]));
    run.advance(EnsureReply::Missing);
    run.advance(EnsureReply::Failed);
    assert_eq!(run.step(), EnsureStep::CreateFailed);
}
