//! The backend that manages the accounts of a Linux machine with the shadow-utils commands.
//!
//! Each function here says what to do, given what the system said of its accounts. The commands
//! are run, one at a time, by whoever drives the backend.
use crate::accounts::{ids_to_use, retained_ids_are_for_their_owner};
use crate::calendar::{day, in_range, is_day, Timestamp};
use crate::names::NameSet;
use crate::numerals::{number_of, numerals_are_read_back};
use crate::store::{StoreView, User, UserId};
use crate::text::{decimal, decimal_of, join, joined, same_text, texts};
use crate::user_manager::backends::login_defs::IdRange;
use crate::user_manager::messages::{
    AccountIds, CreateUser, IdsView, PurgeOutcome, UpdateUser,
};
use std::collections::HashSet;
use vstd::prelude::*;

verus! {

/// The Linux backend.
#[derive(Debug)]
pub struct LinuxUserManager {}

/// An account of the system.
#[derive(Debug)]
pub struct Account {
    /// Its name.
    pub name: String,
    /// Its UID.
    pub uid: u32,
    /// The GID of its primary group.
    pub gid: u32,
}

/// The refusal to touch an account, because the system has it with other data than the store.
#[derive(Debug)]
pub enum AccountMismatch {
    /// There is no account of that name, but the UID belongs to another account.
    UidOfOther { name: String, uid: u32, other: String },
    /// The account of that name has another UID.
    OtherUid { name: String, found: u32, stored: u32 },
}

impl AccountMismatch {
    /// What to report.
    pub fn message(&self) -> (r: String)
        ensures
            r@ == match self {
                AccountMismatch::UidOfOther { name, uid, other } => "No user named '"@ + name@
                    + "' in the system, but UID "@ + decimal(*uid as nat) + " belongs to '"@
                    + other@ + "', refusing to delete"@,
                AccountMismatch::OtherUid { name, found, stored } => "User '"@ + name@
                    + "' has UID "@ + decimal(*found as nat) + " in the system but UID "@ + decimal(
                    *stored as nat,
                ) + " in the store, refusing to delete"@,
            },
    {
        match self {
            AccountMismatch::UidOfOther { name, uid, other } => {
                let mut r = "No user named '".to_owned();
                r.append(name.as_str());
                r.append("' in the system, but UID ");
                r.append(decimal_of(*uid as u64).as_str());
                r.append(" belongs to '");
                r.append(other.as_str());
                r.append("', refusing to delete");
                r
            },
            AccountMismatch::OtherUid { name, found, stored } => {
                let mut r = "User '".to_owned();
                r.append(name.as_str());
                r.append("' has UID ");
                r.append(decimal_of(*found as u64).as_str());
                r.append(" in the system but UID ");
                r.append(decimal_of(*stored as u64).as_str());
                r.append(" in the store, refusing to delete");
                r
            },
        }
    }
}

/// Whether the platform account of a stored user exists, refusing when name and UID do not match.
/// The accounts are those that the system has under the user's name and under their UID.
///
/// An account under a different name may be this user's or an unrelated one that reuses the UID.
/// That cannot be decided, so it is refused instead of orphaning the account or deleting a wrong
/// one.
pub fn resolve_account_checked(
    user: &User,
    by_name: Option<&Account>,
    by_uid: Option<&Account>,
) -> (r: Result<bool, AccountMismatch>)
    ensures
        match by_name {
            Some(account) => if account.uid == user.uid {
                r == Ok::<bool, AccountMismatch>(true)
            } else {
                r == Err::<bool, AccountMismatch>(
                    AccountMismatch::OtherUid {
                        name: user.name,
                        found: account.uid,
                        stored: user.uid,
                    },
                )
            },
            None => match by_uid {
                Some(other) => r == Err::<bool, AccountMismatch>(
                    AccountMismatch::UidOfOther {
                        name: user.name,
                        uid: user.uid,
                        other: other.name,
                    },
                ),
                None => r == Ok::<bool, AccountMismatch>(false),
            },
        },
{
    match by_name {
        Some(account) => if account.uid == user.uid {
            Ok(true)
        } else {
            Err(
                AccountMismatch::OtherUid {
                    name: user.name.clone(),
                    found: account.uid,
                    stored: user.uid,
                },
            )
        },
        None => match by_uid {
            Some(other) => Err(
                AccountMismatch::UidOfOther {
                    name: user.name.clone(),
                    uid: user.uid,
                    other: other.name.clone(),
                },
            ),
            None => Ok(false),
        },
    }
}

/// Whether an account has the IDs that were asked for: exactly the stored ones, or none that is
/// reserved.
pub open spec fn accepts(ids: IdsView, uid: u32, gid: u32) -> bool {
    match ids {
        IdsView::Stored { uid: stored, gid: group } => uid == stored && (group is None || group
            == Some(gid)),
        IdsView::Fresh { reserved_uids, reserved_gids } => !reserved_uids.contains(uid)
            && !reserved_gids.contains(gid),
    }
}

/// Whether an account has the IDs that were asked for.
fn has_accepted_ids(ids: &AccountIds, account: &Account) -> (r: bool)
    ensures
        r == accepts(ids@, account.uid, account.gid),
{
    broadcast use vstd::std_specs::hash::group_hash_axioms;

    match ids {
        AccountIds::Stored { uid, gid } => account.uid == *uid && match gid {
            Some(gid) => account.gid == *gid,
            None => true,
        },
        AccountIds::Fresh { reserved_uids, reserved_gids } => !reserved_uids.contains(
            &account.uid,
        ) && !reserved_gids.contains(&account.gid),
    }
}

/// Whether a fresh account may get an ID, both as its UID and as its GID: it lies in the range
/// for fresh accounts, and is neither reserved nor taken.
pub open spec fn is_available(
    id: u32,
    range: IdRange,
    reserved: Set<u32>,
    taken: Set<u32>,
) -> bool {
    range.first <= id <= range.last && !reserved.contains(id) && !taken.contains(id)
}

/// Whether an ID is the lowest that a fresh account may get, or there is none.
pub open spec fn is_fresh_id(
    r: Option<u32>,
    range: IdRange,
    reserved: Set<u32>,
    taken: Set<u32>,
) -> bool {
    match r {
        Some(id) => {
            &&& is_available(id, range, reserved, taken)
            &&& forall|n: u32| n < id ==> !#[trigger] is_available(n, range, reserved, taken)
        },
        None => forall|n: u32| !#[trigger] is_available(n, range, reserved, taken),
    }
}

/// The lowest ID for a fresh account that is neither reserved nor taken by an account or a group
/// of the system, if there is one. The range is that of the machine.
pub fn fresh_id(
    range: IdRange,
    reserved_uids: &HashSet<u32>,
    reserved_gids: &HashSet<u32>,
    taken_uids: &HashSet<u32>,
    taken_gids: &HashSet<u32>,
) -> (r: Option<u32>)
    ensures
        is_fresh_id(
            r,
            range,
            reserved_uids@.union(reserved_gids@),
            taken_uids@.union(taken_gids@),
        ),
{
    let ghost reserved = reserved_uids@.union(reserved_gids@);
    let ghost taken = taken_uids@.union(taken_gids@);
    let mut id: u32 = range.first;
    while id <= range.last
        invariant
            range.first <= id,
            reserved == reserved_uids@.union(reserved_gids@),
            taken == taken_uids@.union(taken_gids@),
            forall|n: u32| n < id ==> !#[trigger] is_available(n, range, reserved, taken),
        decreases u32::MAX - id,
    {
        broadcast use vstd::std_specs::hash::group_hash_axioms;

        if !reserved_uids.contains(&id) && !reserved_gids.contains(&id) && !taken_uids.contains(&id)
            && !taken_gids.contains(&id) {
            return Some(id);
        }
        assert(!is_available(id, range, reserved, taken));
        if id == u32::MAX {
            return None;
        }
        id = id + 1;
    }
    None
}

/// How an account comes to be.
#[derive(Debug, Clone, Copy, PartialEq, Eq, Structural)]
pub enum CreatePlan {
    /// The account of that name exists and is used.
    Reuse,
    /// An account is added with these IDs. Without a GID, it gets a private group. For a fresh
    /// account, that group can have the number of the account.
    Add { uid: u32, gid: Option<u32> },
    /// The account of that name exists with IDs that it must not have, or the account needs an ID
    /// that somebody else has.
    UnsafeIds,
    /// There is no ID left for the account.
    NoIdLeft,
}

/// Whether a plan is the one for a login without an account, given the UIDs and GIDs that the
/// system has taken.
pub open spec fn is_plan(
    ids: IdsView,
    plan: CreatePlan,
    range: IdRange,
    taken_uids: Set<u32>,
    taken_gids: Set<u32>,
) -> bool {
    match ids {
        IdsView::Stored { uid, gid } => plan == if taken_uids.contains(uid) || (gid is Some
            && taken_gids.contains(gid->0)) {
            CreatePlan::UnsafeIds
        } else {
            CreatePlan::Add { uid, gid }
        },
        IdsView::Fresh { reserved_uids, reserved_gids } => {
            let reserved = reserved_uids.union(reserved_gids);
            let taken = taken_uids.union(taken_gids);
            match plan {
                CreatePlan::Add { uid, gid } => gid is None && is_fresh_id(
                    Some(uid),
                    range,
                    reserved,
                    taken,
                ),
                CreatePlan::NoIdLeft => is_fresh_id(None, range, reserved, taken),
                _ => false,
            }
        },
    }
}

/// Decide how the account of a user comes to be, given the account that has their login, and the
/// UIDs and GIDs that the system has taken. Where there is no account yet, stored IDs must both be
/// available, and fresh ones come from the range of the machine.
pub fn plan_account(
    msg: &CreateUser,
    existing: Option<&Account>,
    range: IdRange,
    taken_uids: &HashSet<u32>,
    taken_gids: &HashSet<u32>,
) -> (r: CreatePlan)
    ensures
        match existing {
            Some(account) => r == if accepts(msg.ids@, account.uid, account.gid) {
                CreatePlan::Reuse
            } else {
                CreatePlan::UnsafeIds
            },
            None => is_plan(msg.ids@, r, range, taken_uids@, taken_gids@),
        },
{
    broadcast use vstd::std_specs::hash::group_hash_axioms;

    if let Some(account) = existing {
        return if has_accepted_ids(&msg.ids, account) {
            CreatePlan::Reuse
        } else {
            CreatePlan::UnsafeIds
        };
    }
    match &msg.ids {
        AccountIds::Stored { uid, gid } => {
            let group_taken = match gid {
                Some(gid) => taken_gids.contains(gid),
                None => false,
            };
            if taken_uids.contains(uid) || group_taken {
                CreatePlan::UnsafeIds
            } else {
                CreatePlan::Add { uid: *uid, gid: *gid }
            }
        },
        AccountIds::Fresh { reserved_uids, reserved_gids } => match fresh_id(
            range,
            reserved_uids,
            reserved_gids,
            taken_uids,
            taken_gids,
        ) {
            Some(uid) => CreatePlan::Add { uid, gid: None },
            None => CreatePlan::NoIdLeft,
        },
    }
}

/// The GID that must be free for an account to be added: the stored one, where it is known. A fresh
/// account takes the GID of its own number, for its private group.
pub open spec fn needed_group(ids: IdsView, uid: u32) -> Option<u32> {
    match ids {
        IdsView::Stored { uid: _, gid } => gid,
        IdsView::Fresh { reserved_uids: _, reserved_gids: _ } => Some(uid),
    }
}

/// The GID to look up before an account is added with the given UID.
pub fn needed_gid(ids: &AccountIds, uid: u32) -> (r: Option<u32>)
    ensures
        r == needed_group(ids@, uid),
{
    match ids {
        AccountIds::Stored { uid: _, gid } => *gid,
        AccountIds::Fresh { reserved_uids: _, reserved_gids: _ } => Some(uid),
    }
}

/// What follows once the IDs of an account to add were looked up.
#[derive(Debug, Clone, Copy, PartialEq, Eq, Structural)]
pub enum CreateStep {
    /// Add the account.
    Add,
    /// Plan again, knowing what is taken.
    PlanAgain,
    /// Refuse to add it: somebody else has an ID that it must have.
    Refuse,
}

/// What to do once the IDs of an account to add were looked up, given whether one of them is
/// taken. Only fresh IDs can be planned again.
pub fn after_lookup(ids: &AccountIds, taken: bool) -> (r: CreateStep)
    ensures
        r == if !taken {
            CreateStep::Add
        } else if ids@ is Fresh {
            CreateStep::PlanAgain
        } else {
            CreateStep::Refuse
        },
{
    if !taken {
        return CreateStep::Add;
    }
    match ids {
        AccountIds::Stored { uid: _, gid: _ } => CreateStep::Refuse,
        AccountIds::Fresh { reserved_uids: _, reserved_gids: _ } => CreateStep::PlanAgain,
    }
}

/// Whether an account that is reused is to be enabled again, by lifting its shadow expiry. This is
/// so for a rejoining member, whose departure has disabled it.
pub fn restores_account(ids: &AccountIds) -> (r: bool)
    ensures
        r == (ids@ is Stored),
{
    match ids {
        AccountIds::Stored { uid: _, gid: _ } => true,
        AccountIds::Fresh { reserved_uids: _, reserved_gids: _ } => false,
    }
}

/// An account is added only with a UID that nobody has, and only where the GID that it needs is
/// free.
pub proof fn added_ids_are_nobody_elses(
    ids: IdsView,
    plan: CreatePlan,
    range: IdRange,
    taken_uids: Set<u32>,
    taken_gids: Set<u32>,
)
    requires
        is_plan(ids, plan, range, taken_uids, taken_gids),
        plan is Add,
    ensures
        !taken_uids.contains(plan->Add_uid),
        needed_group(ids, plan->Add_uid) matches Some(gid) ==> !taken_gids.contains(gid),
        ids is Stored ==> plan->Add_gid == needed_group(ids, plan->Add_uid),
{
}

/// Planning comes to an end: once the ID of a plan for a fresh account turns out to be taken, the
/// next plan has a greater one, or there is none left. A plan with stored IDs is not followed by
/// another one.
pub proof fn planning_goes_forward(
    ids: IdsView,
    first: CreatePlan,
    second: CreatePlan,
    range: IdRange,
    taken_uids: Set<u32>,
    taken_gids: Set<u32>,
    more_uids: Set<u32>,
    more_gids: Set<u32>,
)
    requires
        is_plan(ids, first, range, taken_uids, taken_gids),
        is_plan(ids, second, range, more_uids, more_gids),
        first is Add,
        taken_uids.subset_of(more_uids),
        taken_gids.subset_of(more_gids),
        more_uids.contains(first->Add_uid) || needed_group(ids, first->Add_uid) is Some
            && more_gids.contains(needed_group(ids, first->Add_uid)->0),
    ensures
        ids is Fresh && second is Add ==> first->Add_uid < second->Add_uid <= range.last,
        ids is Stored ==> second is UnsafeIds,
{
    if let IdsView::Fresh { reserved_uids, reserved_gids } = ids {
        let reserved = reserved_uids.union(reserved_gids);
        let before = taken_uids.union(taken_gids);
        let after = more_uids.union(more_gids);
        if second is Add && second->Add_uid <= first->Add_uid {
            assert(is_available(second->Add_uid, range, reserved, after));
            assert(is_available(second->Add_uid, range, reserved, before));
        }
    }
}

/// The user of an account that was reused or added, unless it has IDs that it must not have.
pub fn created_user(msg: &CreateUser, account: &Account) -> (r: Option<User>)
    ensures
        r == if accepts(msg.ids@, account.uid, account.gid) {
            Some(
                User {
                    id: msg.gh_user.id,
                    name: msg.gh_user.login,
                    uid: account.uid,
                    gid: Some(account.gid),
                },
            )
        } else {
            None
        },
{
    if has_accepted_ids(&msg.ids, account) {
        Some(
            User {
                id: msg.gh_user.id,
                name: msg.gh_user.login.clone(),
                uid: account.uid,
                gid: Some(account.gid),
            },
        )
    } else {
        None
    }
}

/// Whatever account is used for a rejoining member has the IDs that were retained for them. One
/// for a new member has none that is retained for anybody.
pub proof fn created_accounts_have_safe_ids(
    s: StoreView,
    owner: UserId,
    other: UserId,
    uid: u32,
    gid: u32,
)
    requires
        s.departed.contains_key(owner),
        !s.departed.contains_key(other),
        !s.purged.contains_key(other),
    ensures
        accepts(ids_to_use(s, owner), uid, gid) ==> uid == s.departed[owner].uid && (
        s.departed[owner].gid is Some ==> Some(gid) == s.departed[owner].gid),
        accepts(ids_to_use(s, other), uid, gid) ==> uid != s.departed[owner].uid && Some(gid)
            != s.departed[owner].gid,
{
    retained_ids_are_for_their_owner(s, owner, other);
}

/// As [`created_accounts_have_safe_ids`], for a member whose account was purged.
pub proof fn purged_ids_stay_safe(s: StoreView, owner: UserId, other: UserId, uid: u32, gid: u32)
    requires
        s.purged.contains_key(owner),
        !s.departed.contains_key(owner),
        !s.departed.contains_key(other),
        !s.purged.contains_key(other),
    ensures
        accepts(ids_to_use(s, owner), uid, gid) ==> uid == s.purged[owner].uid && (
        s.purged[owner].gid is Some ==> Some(gid) == s.purged[owner].gid),
        accepts(ids_to_use(s, other), uid, gid) ==> uid != s.purged[owner].uid && Some(gid)
            != s.purged[owner].gid,
{
    retained_ids_are_for_their_owner(s, owner, other);
}

/// How a stored account is reconciled with the current GitHub user.
pub enum UpdatePlan {
    /// The account is up to date. This is the user to store.
    Keep(User),
    /// The account is gone. It is added again with its stored name, UID and GID.
    Recreate,
    /// The account has its stored name and gets the current login. This is the user to store then.
    Rename(User),
    /// The stored UID belongs to an account of another name.
    UidOfOther(String),
    /// The stored name belongs to an account with another UID.
    NameOfOther(u32),
}

/// The user to store for an account. A GID that is not known yet is that of the account.
pub open spec fn reconciled(msg: UpdateUser, gid: u32) -> User {
    User {
        id: msg.available_user.id,
        name: msg.gh_user.login,
        uid: msg.available_user.uid,
        gid: match msg.available_user.gid {
            Some(known) => Some(known),
            None => Some(gid),
        },
    }
}

/// Decide how a stored account is reconciled with the current GitHub user, given the accounts
/// that the system has under the stored UID and under the stored name.
pub fn plan_update(
    msg: &UpdateUser,
    by_uid: Option<&Account>,
    by_name: Option<&Account>,
) -> (r: UpdatePlan)
    ensures
        match by_uid {
            None => match by_name {
                None => r is Recreate,
                Some(other) => r == UpdatePlan::NameOfOther(other.uid),
            },
            Some(account) => if by_name is Some && by_name->0.uid != msg.available_user.uid {
                r == UpdatePlan::NameOfOther(by_name->0.uid)
            } else if account.name@ == msg.gh_user.login@ {
                r == UpdatePlan::Keep(reconciled(*msg, account.gid))
            } else if account.name@ == msg.available_user.name@ {
                r == UpdatePlan::Rename(reconciled(*msg, account.gid))
            } else {
                r == UpdatePlan::UidOfOther(account.name)
            },
        },
{
    match by_uid {
        None => match by_name {
            None => UpdatePlan::Recreate,
            Some(other) => UpdatePlan::NameOfOther(other.uid),
        },
        Some(account) => {
            if let Some(other) = by_name {
                if other.uid != msg.available_user.uid {
                    return UpdatePlan::NameOfOther(other.uid);
                }
            }
            let is_current = same_text(account.name.as_str(), msg.gh_user.login.as_str());
            let is_stored = same_text(account.name.as_str(), msg.available_user.name.as_str());
            if !is_current && !is_stored {
                return UpdatePlan::UidOfOther(account.name.clone());
            }
            let user = User {
                id: msg.available_user.id,
                name: msg.gh_user.login.clone(),
                uid: msg.available_user.uid,
                gid: match msg.available_user.gid {
                    Some(known) => Some(known),
                    None => Some(account.gid),
                },
            };
            if is_current {
                UpdatePlan::Keep(user)
            } else {
                UpdatePlan::Rename(user)
            }
        },
    }
}

/// Puts a string literal behind a list of arguments.
fn push_arg(args: &mut Vec<String>, arg: &str)
    ensures
        texts(final(args)@) == texts(old(args)@).push(arg@),
{
    let ghost before = args@;
    args.push(arg.to_owned());
    assert(texts(args@) == texts(before).push(arg@));
}

/// The arguments of `useradd` for an account without a password.
pub open spec fn useradd_arguments(login: Seq<char>, uid: u32, gid: Option<u32>) -> Seq<Seq<char>> {
    let always = seq![
        "--create-home"@,
        "--shell"@,
        "/bin/bash"@,
        "--password"@,
        "!"@,
        "--uid"@,
        decimal(uid as nat),
    ];
    match gid {
        Some(gid) => always + seq!["--gid"@, decimal(gid as nat), login],
        None => always + seq![login],
    }
}

/// The arguments of `useradd` for an account without a password.
pub fn useradd_args(login: &str, uid: u32, gid: Option<u32>) -> (r: Vec<String>)
    ensures
        texts(r@) == useradd_arguments(login@, uid, gid),
{
    let mut r: Vec<String> = Vec::new();
    assert(texts(r@) == Seq::<Seq<char>>::empty());
    push_arg(&mut r, "--create-home");
    push_arg(&mut r, "--shell");
    push_arg(&mut r, "/bin/bash");
    push_arg(&mut r, "--password");
    push_arg(&mut r, "!");
    push_arg(&mut r, "--uid");
    push_arg(&mut r, decimal_of(uid as u64).as_str());
    if let Some(gid) = gid {
        push_arg(&mut r, "--gid");
        push_arg(&mut r, decimal_of(gid as u64).as_str());
    }
    push_arg(&mut r, login);
    assert(texts(r@) == useradd_arguments(login@, uid, gid));
    r
}

/// The arguments of `usermod` that rename an account and move its home directory.
pub fn rename_args(name: &str, login: &str) -> (r: Vec<String>)
    ensures
        texts(r@) == seq![
            "--home"@,
            "/home/"@ + login@,
            "--move-home"@,
            "--login"@,
            login@,
            name@,
        ],
{
    let mut home = "/home/".to_owned();
    home.append(login);
    let mut r: Vec<String> = Vec::new();
    assert(texts(r@) == Seq::<Seq<char>>::empty());
    push_arg(&mut r, "--home");
    push_arg(&mut r, home.as_str());
    push_arg(&mut r, "--move-home");
    push_arg(&mut r, "--login");
    push_arg(&mut r, login);
    push_arg(&mut r, name);
    assert(texts(r@) == seq![
        "--home"@,
        "/home/"@ + login@,
        "--move-home"@,
        "--login"@,
        login@,
        name@,
    ]);
    r
}

/// The arguments of `usermod` that replace the supplementary groups of an account.
pub fn groups_args(name: &str, groups: &Vec<String>) -> (r: Vec<String>)
    ensures
        texts(r@) == seq!["--groups"@, joined(texts(groups@), ","@), name@],
{
    let mut r: Vec<String> = Vec::new();
    assert(texts(r@) == Seq::<Seq<char>>::empty());
    push_arg(&mut r, "--groups");
    push_arg(&mut r, join(groups, ",").as_str());
    push_arg(&mut r, name);
    assert(texts(r@) == seq!["--groups"@, joined(texts(groups@), ","@), name@]);
    r
}

/// The arguments of `groupadd`, for a group with a given GID or any.
pub fn groupadd_args(group: &str, gid: Option<u32>) -> (r: Vec<String>)
    ensures
        texts(r@) == match gid {
            Some(gid) => seq!["--gid"@, decimal(gid as nat), group@],
            None => seq![group@],
        },
{
    let mut r: Vec<String> = Vec::new();
    assert(texts(r@) == Seq::<Seq<char>>::empty());
    if let Some(gid) = gid {
        push_arg(&mut r, "--gid");
        push_arg(&mut r, decimal_of(gid as u64).as_str());
        push_arg(&mut r, group);
        assert(texts(r@) == seq!["--gid"@, decimal(gid as nat), group@]);
    } else {
        push_arg(&mut r, group);
        assert(texts(r@) == seq![group@]);
    }
    r
}

/// The arguments of `usermod` that let an account expire on the day of a point in time, or lift
/// its expiry.
pub fn expiry_args(name: &str, at: Option<Timestamp>) -> (r: Vec<String>)
    requires
        at is Some ==> in_range(at->0),
    ensures
        match at {
            Some(at) => exists|text: Seq<char>| #[trigger]
                is_day(text, at.secs as int) && texts(r@) == seq!["--expiredate"@, text, name@],
            None => texts(r@) == seq!["--expiredate"@, ""@, name@],
        },
{
    let mut r: Vec<String> = Vec::new();
    assert(texts(r@) == Seq::<Seq<char>>::empty());
    push_arg(&mut r, "--expiredate");
    match at {
        Some(at) => {
            let text = day(at);
            push_arg(&mut r, text.as_str());
            push_arg(&mut r, name);
            assert(texts(r@) == seq!["--expiredate"@, text@, name@]);
            assert(is_day(text@, at.secs as int));
        },
        None => {
            push_arg(&mut r, "");
            push_arg(&mut r, name);
            assert(texts(r@) == seq!["--expiredate"@, ""@, name@]);
        },
    }
    r
}

/// The arguments of `userdel` that delete an account and its home directory.
pub fn userdel_args(name: &str) -> (r: Vec<String>)
    ensures
        texts(r@) == seq!["--remove"@, name@],
{
    let mut r: Vec<String> = Vec::new();
    assert(texts(r@) == Seq::<Seq<char>>::empty());
    push_arg(&mut r, "--remove");
    push_arg(&mut r, name);
    assert(texts(r@) == seq!["--remove"@, name@]);
    r
}

/// A group that a user is in: its GID, and its name unless it was deleted meanwhile.
pub struct Membership {
    /// The GID of the group.
    pub gid: u32,
    /// The name of the group, if it still exists.
    pub name: Option<String>,
}

/// Whether a membership is one in a supplementary group of the given name.
pub open spec fn is_supplementary(m: Membership, primary_gid: u32, name: Seq<char>) -> bool {
    m.gid != primary_gid && m.name is Some && m.name->0@ == name
}

/// The names of the supplementary groups among the memberships of a user.
pub open spec fn supplementary_names(list: Seq<Membership>, primary_gid: u32) -> Set<Seq<char>> {
    Set::new(
        |name: Seq<char>|
            exists|i: int|
                0 <= i < list.len() && is_supplementary(#[trigger] list[i], primary_gid, name),
    )
}

/// The names of the supplementary groups the user is currently a member of, without the primary
/// group. A group that was deleted meanwhile has no name and is skipped.
pub fn current_supplementary_groups(list: &Vec<Membership>, primary_gid: u32) -> (r: NameSet)
    ensures
        r@ == supplementary_names(list@, primary_gid),
{
    let mut r = NameSet::new();
    let mut i: usize = 0;
    assert(r@ =~= supplementary_names(list@.take(0), primary_gid));
    while i < list.len()
        invariant
            i <= list@.len(),
            r@ == supplementary_names(list@.take(i as int), primary_gid),
        decreases list@.len() - i,
    {
        let ghost before = r@;
        if list[i].gid != primary_gid {
            if let Some(name) = &list[i].name {
                r.insert(name.clone());
            }
        }
        proof {
            let seen = list@.take(i as int);
            let next = list@.take(i + 1);
            assert forall|name: Seq<char>| supplementary_names(next, primary_gid).contains(name)
                == r@.contains(name) by {
                if before.contains(name) {
                    let k = choose|k: int|
                        0 <= k < seen.len() && is_supplementary(
                            #[trigger] seen[k],
                            primary_gid,
                            name,
                        );
                    assert(is_supplementary(next[k], primary_gid, name));
                }
                if is_supplementary(list@[i as int], primary_gid, name) {
                    assert(is_supplementary(next[i as int], primary_gid, name));
                }
                if supplementary_names(next, primary_gid).contains(name) {
                    let k = choose|k: int|
                        0 <= k < next.len() && is_supplementary(
                            #[trigger] next[k],
                            primary_gid,
                            name,
                        );
                    if k < i {
                        assert(is_supplementary(seen[k], primary_gid, name));
                    }
                }
            }
            assert(r@ =~= supplementary_names(next, primary_gid));
        }
        i = i + 1;
    }
    assert(list@.take(list@.len() as int) == list@);
    r
}

/// A process: its PID, and its real UID unless it exited meanwhile.
#[derive(Debug, Clone, Copy, PartialEq, Eq, Structural)]
pub struct Process {
    /// The PID.
    pub pid: i32,
    /// The real UID, if the process still exists.
    pub ruid: Option<u32>,
}

/// The PIDs of the processes of a user, in the order of the processes.
pub open spec fn pids_of(list: Seq<Process>, uid: u32) -> Seq<i32>
    decreases list.len(),
{
    if list.len() == 0 {
        Seq::empty()
    } else {
        let rest = pids_of(list.drop_last(), uid);
        if list.last().ruid == Some(uid) {
            rest.push(list.last().pid)
        } else {
            rest
        }
    }
}

/// PIDs of all processes whose real UID is `uid`. Processes that exit while being inspected are
/// skipped.
pub fn processes_of_uid(list: &Vec<Process>, uid: u32) -> (r: Vec<i32>)
    ensures
        r@ == pids_of(list@, uid),
{
    let mut r: Vec<i32> = Vec::new();
    let mut i: usize = 0;
    while i < list.len()
        invariant
            i <= list@.len(),
            r@ == pids_of(list@.take(i as int), uid),
        decreases list@.len() - i,
    {
        assert(list@.take(i + 1).drop_last() == list@.take(i as int));
        if let Some(ruid) = list[i].ruid {
            if ruid == uid {
                r.push(list[i].pid);
            }
        }
        i = i + 1;
    }
    assert(list@.take(list@.len() as int) == list@);
    r
}

/// Milliseconds that a terminated process gets to exit before it is killed.
pub const KILL_GRACE_PERIOD_MS: u64 = 3000;

/// Milliseconds between looks at terminated processes.
pub const KILL_POLL_INTERVAL_MS: u64 = 200;

/// A step of stopping the processes of a user, or where that ends.
#[derive(Debug, Clone, Copy, PartialEq, Eq, Structural)]
pub enum KillStep {
    /// List the processes.
    List,
    /// Ask them to terminate.
    Terminate,
    /// Wait for the poll interval.
    Wait,
    /// List the processes that still run.
    ListAgain,
    /// Kill them.
    Kill,
    /// No process is left to stop.
    Stopped,
    /// The processes could not be listed.
    ListFailed,
}

/// What came of a step of stopping processes.
#[derive(Debug, Clone, Copy, PartialEq, Eq, Structural)]
pub enum KillReply {
    /// The signals were sent, or the time has passed.
    Done,
    /// There are no processes.
    NoProcesses,
    /// There are processes, this long after they were asked to terminate.
    Processes { elapsed_ms: u64 },
    /// The processes could not be listed.
    Failed,
}

/// What follows a step of stopping processes.
pub open spec fn kill_next(step: KillStep, reply: KillReply) -> KillStep {
    match (step, reply) {
        (KillStep::List, KillReply::NoProcesses) => KillStep::Stopped,
        (KillStep::List, KillReply::Processes { elapsed_ms: _ }) => KillStep::Terminate,
        (KillStep::List, _) => KillStep::ListFailed,
        (KillStep::Terminate, _) => KillStep::Wait,
        (KillStep::Wait, _) => KillStep::ListAgain,
        (KillStep::ListAgain, KillReply::NoProcesses) => KillStep::Stopped,
        (KillStep::ListAgain, KillReply::Processes { elapsed_ms }) => if elapsed_ms
            >= KILL_GRACE_PERIOD_MS {
            KillStep::Kill
        } else {
            KillStep::Wait
        },
        (KillStep::ListAgain, _) => KillStep::ListFailed,
        (KillStep::Kill, _) => KillStep::Stopped,
        (end, _) => end,
    }
}

/// Whether a step is still to be taken, and not an end.
pub open spec fn stopping(step: KillStep) -> bool {
    !(step is Stopped || step is ListFailed)
}

/// What to do after a step of stopping processes.
pub fn next_kill_step(step: KillStep, reply: KillReply) -> (r: KillStep)
    requires
        stopping(step),
    ensures
        r == kill_next(step, reply),
{
    match step {
        KillStep::List => match reply {
            KillReply::NoProcesses => KillStep::Stopped,
            KillReply::Processes { elapsed_ms: _ } => KillStep::Terminate,
            _ => KillStep::ListFailed,
        },
        KillStep::Terminate => KillStep::Wait,
        KillStep::Wait => KillStep::ListAgain,
        KillStep::ListAgain => match reply {
            KillReply::NoProcesses => KillStep::Stopped,
            KillReply::Processes { elapsed_ms } => if elapsed_ms >= KILL_GRACE_PERIOD_MS {
                KillStep::Kill
            } else {
                KillStep::Wait
            },
            _ => KillStep::ListFailed,
        },
        KillStep::Kill => KillStep::Stopped,
        end => end,
    }
}

/// Processes are killed only if they still run when the grace period is over.
pub proof fn killing_is_the_last_resort(step: KillStep, reply: KillReply)
    requires
        stopping(step),
        kill_next(step, reply) is Kill,
    ensures
        step is ListAgain,
        reply matches KillReply::Processes { elapsed_ms } && elapsed_ms >= KILL_GRACE_PERIOD_MS,
{
}

/// A step of disabling an account, or where that ends.
#[derive(Debug, Clone, Copy, PartialEq, Eq, Structural)]
pub enum DisableStep {
    /// Set the shadow expiry.
    Expire,
    /// Remove every authorized key.
    RemoveKeys,
    /// Remove the crontab.
    RemoveCrontab,
    /// Remove the queued jobs.
    RemoveJobs,
    /// End running sessions.
    EndSessions,
    /// Stop running processes.
    StopProcesses,
    /// Remove the supplementary groups.
    ClearGroups,
    /// The account is disabled, or there is none.
    Disabled,
    /// A step failed.
    Failed,
}

/// What follows a step of disabling an account.
pub open spec fn disable_next(step: DisableStep, done: bool) -> DisableStep {
    if !done {
        DisableStep::Failed
    } else {
        match step {
            DisableStep::Expire => DisableStep::RemoveKeys,
            DisableStep::RemoveKeys => DisableStep::RemoveCrontab,
            DisableStep::RemoveCrontab => DisableStep::RemoveJobs,
            DisableStep::RemoveJobs => DisableStep::EndSessions,
            DisableStep::EndSessions => DisableStep::StopProcesses,
            DisableStep::StopProcesses => DisableStep::ClearGroups,
            DisableStep::ClearGroups => DisableStep::Disabled,
            end => end,
        }
    }
}

/// Whether a step is still to be taken, and not an end.
pub open spec fn disabling(step: DisableStep) -> bool {
    !(step is Disabled || step is Failed)
}

/// The first step of disabling the account of a user, given whether it exists. New logins are
/// blocked before anything else.
pub fn first_disable_step(account_exists: bool) -> (r: DisableStep)
    ensures
        r == if account_exists {
            DisableStep::Expire
        } else {
            DisableStep::Disabled
        },
{
    if account_exists {
        DisableStep::Expire
    } else {
        DisableStep::Disabled
    }
}

/// What to do after a step of disabling an account.
pub fn next_disable_step(step: DisableStep, done: bool) -> (r: DisableStep)
    requires
        disabling(step),
    ensures
        r == disable_next(step, done),
{
    if !done {
        return DisableStep::Failed;
    }
    match step {
        DisableStep::Expire => DisableStep::RemoveKeys,
        DisableStep::RemoveKeys => DisableStep::RemoveCrontab,
        DisableStep::RemoveCrontab => DisableStep::RemoveJobs,
        DisableStep::RemoveJobs => DisableStep::EndSessions,
        DisableStep::EndSessions => DisableStep::StopProcesses,
        DisableStep::StopProcesses => DisableStep::ClearGroups,
        DisableStep::ClearGroups => DisableStep::Disabled,
        end => end,
    }
}

/// The step that is reached from the first one when the replies are as given.
pub open spec fn disable_run(replies: Seq<bool>) -> DisableStep
    decreases replies.len(),
{
    if replies.len() == 0 {
        DisableStep::Expire
    } else {
        disable_next(disable_run(replies.drop_last()), replies.last())
    }
}

/// How many steps precede one of disabling an account.
spec fn place(step: DisableStep) -> int {
    match step {
        DisableStep::Expire => 0,
        DisableStep::RemoveKeys => 1,
        DisableStep::RemoveCrontab => 2,
        DisableStep::RemoveJobs => 3,
        DisableStep::EndSessions => 4,
        DisableStep::StopProcesses => 5,
        DisableStep::ClearGroups => 6,
        DisableStep::Disabled => 7,
        DisableStep::Failed => -1,
    }
}

/// An existing account counts as disabled only when each of the steps has succeeded.
pub proof fn disabled_means_every_step_succeeded(replies: Seq<bool>)
    requires
        disable_run(replies) is Disabled,
        forall|i: int|
            0 <= i < replies.len() ==> disabling(disable_run(#[trigger] replies.take(i))),
    ensures
        replies == seq![true, true, true, true, true, true, true],
{
    lemma_place(replies);
    assert(replies == seq![true, true, true, true, true, true, true]);
}

/// While nothing has failed, every step so far has led to the next one.
proof fn lemma_place(replies: Seq<bool>)
    requires
        place(disable_run(replies)) >= 0,
        forall|i: int|
            0 <= i < replies.len() ==> disabling(disable_run(#[trigger] replies.take(i))),
    ensures
        replies.len() == place(disable_run(replies)),
        forall|i: int| 0 <= i < replies.len() ==> #[trigger] replies[i],
    decreases replies.len(),
{
    if replies.len() > 0 {
        let rest = replies.drop_last();
        assert(replies.take(replies.len() - 1) == rest);
        assert(disabling(disable_run(rest)));
        assert forall|i: int| 0 <= i < rest.len() implies disabling(
            disable_run(#[trigger] rest.take(i)),
        ) by {
            assert(rest.take(i) == replies.take(i));
        }
        lemma_place(rest);
        assert forall|i: int| 0 <= i < replies.len() implies #[trigger] replies[i] by {
            if i < rest.len() {
                assert(rest[i]);
            }
        }
    }
}

/// Whether an account may be deleted, given whether it exists and the day of its shadow expiry,
/// counted from 1970-01-01. `None` means that it may. An account that does not expire, or that
/// was expired after the cutoff, is kept.
pub fn purge_check(account_exists: bool, expiry_day: Option<i64>, cutoff: Timestamp) -> (r: Option<
    PurgeOutcome,
>)
    ensures
        r == if !account_exists {
            Some(PurgeOutcome::NoAccount)
        } else if expiry_day is Some && expiry_day->0 * 86400 <= cutoff.secs {
            None
        } else {
            Some(PurgeOutcome::NotDisabledLongEnough)
        },
{
    if !account_exists {
        return Some(PurgeOutcome::NoAccount);
    }
    match expiry_day {
        Some(day) => if (day as i128) * 86400 <= cutoff.secs as i128 {
            None
        } else {
            Some(PurgeOutcome::NotDisabledLongEnough)
        },
        None => Some(PurgeOutcome::NotDisabledLongEnough),
    }
}

/// A step of creating missing groups, or where that ends.
#[derive(Debug, Clone, Copy, PartialEq, Eq, Structural)]
pub enum EnsureStep {
    /// Find out whether the current group exists.
    Check,
    /// Create the current group.
    Create,
    /// Every group exists.
    Finished,
    /// It could not be found out whether the current group exists.
    CheckFailed,
    /// The current group could not be created.
    CreateFailed,
}

/// What came of a step of creating missing groups.
#[derive(Debug, Clone, Copy, PartialEq, Eq, Structural)]
pub enum EnsureReply {
    /// The group exists, or was created.
    Exists,
    /// The group does not exist.
    Missing,
    /// It failed.
    Failed,
}

/// The creation of missing groups.
pub struct EnsuringGroups {
    groups: Vec<String>,
    next: usize,
    step: EnsureStep,
}

/// The creation of missing groups as contracts see it.
pub struct EnsureView {
    /// The groups.
    pub groups: Seq<String>,
    /// How many of them exist for sure.
    pub next: int,
    /// The step to take.
    pub step: EnsureStep,
}

impl View for EnsuringGroups {
    type V = EnsureView;

    closed spec fn view(&self) -> EnsureView {
        EnsureView { groups: self.groups@, next: self.next as int, step: self.step }
    }
}

/// The creation of missing groups at a group, or past them all.
pub open spec fn at_group(e: EnsureView, next: int) -> EnsureView {
    EnsureView {
        next,
        step: if next < e.groups.len() {
            EnsureStep::Check
        } else {
            EnsureStep::Finished
        },
        ..e
    }
}

/// What follows a step of creating missing groups.
pub open spec fn ensure_next(e: EnsureView, reply: EnsureReply) -> EnsureView {
    match (e.step, reply) {
        (EnsureStep::Check | EnsureStep::Create, EnsureReply::Exists) => at_group(e, e.next + 1),
        (EnsureStep::Check, EnsureReply::Missing) => EnsureView { step: EnsureStep::Create, ..e },
        (EnsureStep::Check, _) => EnsureView { step: EnsureStep::CheckFailed, ..e },
        (EnsureStep::Create, _) => EnsureView { step: EnsureStep::CreateFailed, ..e },
        _ => e,
    }
}

/// What every state of the creation keeps: there is a current group while there is work to do,
/// and none once it is finished.
pub open spec fn ensure_valid(e: EnsureView) -> bool {
    &&& 0 <= e.next <= e.groups.len()
    &&& e.step is Finished <==> e.next == e.groups.len()
}

impl EnsuringGroups {
    /// The creation of those of the groups that are missing.
    pub fn start(groups: Vec<String>) -> (r: Self)
        ensures
            r@ == at_group(
                EnsureView { groups: groups@, next: 0, step: EnsureStep::Finished },
                0,
            ),
            ensure_valid(r@),
    {
        let step = if groups.len() > 0 {
            EnsureStep::Check
        } else {
            EnsureStep::Finished
        };
        EnsuringGroups { groups, next: 0, step }
    }

    /// The step to take, or where the creation ended.
    pub fn step(&self) -> (r: EnsureStep)
        ensures
            r == self@.step,
    {
        self.step
    }

    /// The current group.
    pub fn group(&self) -> (r: &String)
        requires
            0 <= self@.next < self@.groups.len(),
        ensures
            *r == self@.groups[self@.next],
    {
        &self.groups[self.next]
    }

    /// Goes on after a step.
    pub fn advance(&mut self, reply: EnsureReply)
        requires
            ensure_valid(old(self)@),
            old(self)@.step is Check || old(self)@.step is Create,
        ensures
            final(self)@ == ensure_next(old(self)@, reply),
            ensure_valid(final(self)@),
    {
        let creating = match self.step {
            EnsureStep::Create => true,
            _ => false,
        };
        match reply {
            EnsureReply::Exists => {
                let count: usize = self.groups.len();
                assert(self.next < count);
                self.next = self.next + 1;
                self.step = if self.next < count {
                    EnsureStep::Check
                } else {
                    EnsureStep::Finished
                };
            },
            EnsureReply::Missing => {
                self.step = if creating {
                    EnsureStep::CreateFailed
                } else {
                    EnsureStep::Create
                };
            },
            EnsureReply::Failed => {
                self.step = if creating {
                    EnsureStep::CreateFailed
                } else {
                    EnsureStep::CheckFailed
                };
            },
        }
    }
}

/// A group counts as existing only when the system said so or it was created. It is created only
/// when it is missing.
pub proof fn groups_are_created_when_missing(e: EnsureView, reply: EnsureReply)
    requires
        ensure_valid(e),
        e.step is Check || e.step is Create,
    ensures
        ensure_next(e, reply).next == e.next + 1 <==> reply is Exists,
        ensure_next(e, reply).step is Create ==> e.step is Check && reply is Missing,
        ensure_next(e, reply).groups == e.groups,
{
}

impl LinuxUserManager {
    /// The backend of this machine.
    pub fn new() -> (r: Self)
        ensures
            r == (LinuxUserManager {}),
    {
        LinuxUserManager {}
    }
}

/// The texts of arguments are those of each of them.
proof fn lemma_texts(args: Seq<String>)
    ensures
        texts(args).len() == args.len(),
        forall|i: int| 0 <= i < args.len() ==> (#[trigger] args[i])@ == texts(args)[i],
{
}

/// The arguments that add an account give it exactly the UID that was asked for, and exactly the
/// GID if one was, for the login. They create its home directory and leave it without a password.
pub proof fn added_account_gets_the_ids_asked_for(
    login: &str,
    uid: u32,
    gid: Option<u32>,
    args: Vec<String>,
)
    requires
        call_ensures(useradd_args, (login, uid, gid), args),
    ensures
        args@.len() == if gid is Some {
            10int
        } else {
            8int
        },
        args@[0]@ == "--create-home"@,
        args@[1]@ == "--shell"@,
        args@[2]@ == "/bin/bash"@,
        args@[3]@ == "--password"@,
        args@[4]@ == "!"@,
        args@[5]@ == "--uid"@,
        number_of(args@[6]@) == uid,
        forall|i: int| 0 <= i < args@[6]@.len() ==> '0' <= #[trigger] args@[6]@[i] <= '9',
        gid is Some ==> args@[7]@ == "--gid"@,
        gid is Some ==> number_of(args@[8]@) == gid->0,
        gid is Some ==> forall|i: int|
            0 <= i < args@[8]@.len() ==> '0' <= #[trigger] args@[8]@[i] <= '9',
        args@.last()@ == login@,
{
    lemma_texts(args@);
    numerals_are_read_back(uid as nat);
    if gid is Some {
        numerals_are_read_back(gid->0 as nat);
    }
}

/// Accounts that are added with different IDs, or under different logins, have different
/// arguments.
pub proof fn added_accounts_are_told_apart(
    login: &str,
    uid: u32,
    gid: Option<u32>,
    args: Vec<String>,
    other_login: &str,
    other_uid: u32,
    other_gid: Option<u32>,
    other_args: Vec<String>,
)
    requires
        call_ensures(useradd_args, (login, uid, gid), args),
        call_ensures(useradd_args, (other_login, other_uid, other_gid), other_args),
        texts(args@) == texts(other_args@),
    ensures
        login@ == other_login@,
        uid == other_uid,
        gid == other_gid,
{
    added_account_gets_the_ids_asked_for(login, uid, gid, args);
    added_account_gets_the_ids_asked_for(other_login, other_uid, other_gid, other_args);
    lemma_texts(args@);
    lemma_texts(other_args@);
}

/// A rename gives the account the new login and moves its home directory to the one of that name.
pub proof fn renaming_moves_the_home(name: &str, login: &str, args: Vec<String>)
    requires
        call_ensures(rename_args, (name, login), args),
    ensures
        args@.len() == 6,
        args@[0]@ == "--home"@,
        args@[1]@ == "/home/"@ + login@,
        args@[2]@ == "--move-home"@,
        args@[3]@ == "--login"@,
        args@[4]@ == login@,
        args@[5]@ == name@,
{
    lemma_texts(args@);
}

/// The supplementary groups of an account are replaced by all the given ones. Without any, all are
/// taken away. One more group stands behind a comma.
pub proof fn all_groups_are_given(
    name: &str,
    groups: &Vec<String>,
    more: &Vec<String>,
    args: Vec<String>,
    more_args: Vec<String>,
)
    requires
        call_ensures(groups_args, (name, groups), args),
        call_ensures(groups_args, (name, more), more_args),
        more@.len() == groups@.len() + 1,
        more@.take(groups@.len() as int) == groups@,
    ensures
        args@.len() == 3,
        args@[0]@ == "--groups"@,
        args@[2]@ == name@,
        groups@.len() == 0 ==> args@[1]@.len() == 0,
        groups@.len() == 0 ==> more_args@[1]@ == more@[0]@,
        groups@.len() > 0 ==> more_args@[1]@ == args@[1]@ + seq![','] + more@.last()@,
{
    lemma_texts(args@);
    lemma_texts(more_args@);
    let a = texts(groups@);
    let b = texts(more@);
    assert(b.drop_last() == a) by {
        assert forall|i: int| 0 <= i < a.len() implies b.drop_last()[i] == a[i] by {
            assert(more@.take(groups@.len() as int)[i] == more@[i]);
        }
    }
    assert(b.last() == more@.last()@);
    reveal_strlit(",");
    assert(","@ == seq![',']);
}

/// A group is added under its name, with exactly the GID that was asked for, if one was.
pub proof fn added_group_gets_the_gid_asked_for(group: &str, gid: Option<u32>, args: Vec<String>)
    requires
        call_ensures(groupadd_args, (group, gid), args),
    ensures
        gid is None ==> args@.len() == 1,
        gid is Some ==> args@.len() == 3 && args@[0]@ == "--gid"@ && number_of(args@[1]@) == gid->0
            && forall|i: int|
            0 <= i < args@[1]@.len() ==> '0' <= #[trigger] args@[1]@[i] <= '9',
        args@.last()@ == group@,
{
    lemma_texts(args@);
    if gid is Some {
        numerals_are_read_back(gid->0 as nat);
    }
}

/// An account expires on the day of the point in time, and not at all where there is none. The day
/// depends on nothing but the point in time.
pub proof fn account_expires_on_the_day(
    name: &str,
    at: Option<Timestamp>,
    args: Vec<String>,
    other: &str,
    other_at: Option<Timestamp>,
    other_args: Vec<String>,
)
    requires
        call_ensures(expiry_args, (name, at), args),
        call_ensures(expiry_args, (other, other_at), other_args),
    ensures
        args@.len() == 3,
        args@[0]@ == "--expiredate"@,
        args@[2]@ == name@,
        at is None ==> args@[1]@.len() == 0,
        at is Some ==> is_day(args@[1]@, at->0.secs as int),
        at is Some && other_at is Some && at->0.secs as int / 86400 == other_at->0.secs as int
            / 86400 ==> args@[1]@ == other_args@[1]@,
{
    lemma_texts(args@);
    lemma_texts(other_args@);
    reveal_strlit("");
    if at is Some && other_at is Some && at->0.secs as int / 86400 == other_at->0.secs as int
        / 86400 {
        crate::calendar::day_is_unique(
            args@[1]@,
            at->0.secs as int,
            other_args@[1]@,
            other_at->0.secs as int,
        );
    }
}

/// A deletion takes the account of the given name, and its home directory with it.
pub proof fn deletion_takes_the_home(name: &str, args: Vec<String>)
    requires
        call_ensures(userdel_args, (name,), args),
    ensures
        args@.len() == 2,
        args@[0]@ == "--remove"@,
        args@[1]@ == name@,
{
    lemma_texts(args@);
}

/// A fresh ID lies in the range, is neither reserved nor taken, be it as a UID or as a GID, and no
/// smaller one in the range is free. There is none only if every one in the range is reserved or
/// taken.
pub proof fn fresh_ids_are_the_lowest_free(
    range: IdRange,
    reserved_uids: &HashSet<u32>,
    reserved_gids: &HashSet<u32>,
    taken_uids: &HashSet<u32>,
    taken_gids: &HashSet<u32>,
    r: Option<u32>,
    n: u32,
)
    requires
        call_ensures(fresh_id, (range, reserved_uids, reserved_gids, taken_uids, taken_gids), r),
    ensures
        r is Some ==> range.first <= r->0 <= range.last,
        r is Some ==> !reserved_uids@.contains(r->0) && !reserved_gids@.contains(r->0)
            && !taken_uids@.contains(r->0) && !taken_gids@.contains(r->0),
        range.first <= n <= range.last && (r is None || n < r->0) ==> reserved_uids@.contains(n)
            || reserved_gids@.contains(n) || taken_uids@.contains(n) || taken_gids@.contains(n),
{
    let reserved = reserved_uids@.union(reserved_gids@);
    let taken = taken_uids@.union(taken_gids@);
    if range.first <= n <= range.last && !reserved_uids@.contains(n) && !reserved_gids@.contains(n)
        && !taken_uids@.contains(n) && !taken_gids@.contains(n) {
        assert(is_available(n, range, reserved, taken));
    }
}

/// A rejoining member without an account gets one with exactly their UID and GID, unless one of
/// them is somebody else's by now.
pub proof fn rejoining_member_is_added_with_their_ids(
    msg: &CreateUser,
    range: IdRange,
    taken_uids: &HashSet<u32>,
    taken_gids: &HashSet<u32>,
    plan: CreatePlan,
)
    requires
        call_ensures(
            plan_account,
            (msg, None::<&Account>, range, taken_uids, taken_gids),
            plan,
        ),
        msg.ids is Stored,
    ensures
        ({
            let taken = taken_uids@.contains(msg.ids->uid) || (msg.ids->gid is Some
                && taken_gids@.contains(msg.ids->gid->0));
            &&& taken ==> plan is UnsafeIds
            &&& !taken ==> plan is Add && plan->Add_uid == msg.ids->uid && plan->Add_gid
                == msg.ids->gid
        }),
{
    assert(msg.ids@ is Stored);
}

/// A new member without an account gets one with the lowest ID of the range that is neither
/// reserved nor taken, if there is any.
pub proof fn new_member_is_added_with_a_free_id(
    msg: &CreateUser,
    range: IdRange,
    taken_uids: &HashSet<u32>,
    taken_gids: &HashSet<u32>,
    plan: CreatePlan,
    n: u32,
)
    requires
        call_ensures(
            plan_account,
            (msg, None::<&Account>, range, taken_uids, taken_gids),
            plan,
        ),
        msg.ids is Fresh,
    ensures
        plan is Add || plan is NoIdLeft,
        plan is Add ==> {
            let id = plan->Add_uid;
            &&& plan->Add_gid is None
            &&& range.first <= id <= range.last
            &&& !msg.ids->reserved_uids@.contains(id)
            &&& !msg.ids->reserved_gids@.contains(id)
            &&& !taken_uids@.contains(id)
            &&& !taken_gids@.contains(id)
        },
        range.first <= n <= range.last && (plan is NoIdLeft || n < plan->Add_uid)
            ==> msg.ids->reserved_uids@.contains(n) || msg.ids->reserved_gids@.contains(n)
            || taken_uids@.contains(n) || taken_gids@.contains(n),
{
    assert(msg.ids@ is Fresh);
    let reserved = msg.ids->reserved_uids@.union(msg.ids->reserved_gids@);
    let taken = taken_uids@.union(taken_gids@);
    if range.first <= n <= range.last && !reserved.contains(n) && !taken.contains(n) {
        assert(is_available(n, range, reserved, taken));
    }
}

/// An existing account is used for a rejoining member only if it has their UID, and their GID if
/// that is known. For a new member, it is used only if nobody's IDs are reserved with it. An account
/// that may not be used is never replaced.
pub proof fn existing_account_must_have_safe_ids(
    msg: &CreateUser,
    account: &Account,
    range: IdRange,
    taken_uids: &HashSet<u32>,
    taken_gids: &HashSet<u32>,
    plan: CreatePlan,
)
    requires
        call_ensures(
            plan_account,
            (msg, Some(account), range, taken_uids, taken_gids),
            plan,
        ),
    ensures
        plan is Reuse || plan is UnsafeIds,
        msg.ids is Stored ==> (plan is Reuse <==> account.uid == msg.ids->uid && (msg.ids->gid is None
            || msg.ids->gid == Some(account.gid))),
        msg.ids is Fresh ==> (plan is Reuse <==> !msg.ids->reserved_uids@.contains(account.uid)
            && !msg.ids->reserved_gids@.contains(account.gid)),
{
}

/// The user of an account has the GitHub ID and login of the member, and the IDs of the account.
/// There is none if the account lacks the IDs of a rejoining member, or has reserved ones.
pub proof fn created_user_is_the_members(msg: &CreateUser, account: &Account, r: Option<User>)
    requires
        call_ensures(created_user, (msg, account), r),
    ensures
        msg.ids is Stored ==> (r is Some <==> account.uid == msg.ids->uid && (msg.ids->gid is None
            || msg.ids->gid == Some(account.gid))),
        msg.ids is Fresh ==> (r is Some <==> !msg.ids->reserved_uids@.contains(account.uid)
            && !msg.ids->reserved_gids@.contains(account.gid)),
        r is Some ==> {
            &&& r->0.id == msg.gh_user.id
            &&& r->0.name == msg.gh_user.login
            &&& r->0.uid == account.uid
            &&& r->0.gid == Some(account.gid)
        },
{
}

/// Before an account is added, a stored GID is looked up, and the number of the account for a fresh
/// one. It is added only if nothing was taken. Only an account with fresh IDs is planned again.
pub proof fn taken_ids_are_not_added(
    ids: &AccountIds,
    uid: u32,
    gid: Option<u32>,
    taken: bool,
    step: CreateStep,
    restores: bool,
)
    requires
        call_ensures(needed_gid, (ids, uid), gid),
        call_ensures(after_lookup, (ids, taken), step),
        call_ensures(restores_account, (ids,), restores),
    ensures
        ids is Stored ==> gid == ids->gid,
        ids is Fresh ==> gid == Some(uid),
        step is Add <==> !taken,
        step is PlanAgain <==> taken && ids is Fresh,
        step is Refuse <==> taken && ids is Stored,
        restores <==> ids is Stored,
{
}

/// An account is taken for the stored user's only if it has both their name and their UID. It is
/// taken for gone only if the system has neither.
pub proof fn accounts_are_resolved_by_name_and_uid(
    user: &User,
    by_name: Option<&Account>,
    by_uid: Option<&Account>,
    r: Result<bool, AccountMismatch>,
)
    requires
        call_ensures(resolve_account_checked, (user, by_name, by_uid), r),
    ensures
        (r matches Ok(found) && found) <==> by_name is Some && by_name->0.uid == user.uid,
        (r matches Ok(found) && !found) <==> by_name is None && by_uid is None,
        r is Err <==> by_name is Some && by_name->0.uid != user.uid || by_name is None
            && by_uid is Some,
        r matches Err(AccountMismatch::OtherUid { name, found, stored }) ==> name == user.name
            && by_name is Some && found == by_name->0.uid && stored == user.uid,
        r matches Err(AccountMismatch::UidOfOther { name, uid, other }) ==> name == user.name && uid
            == user.uid && by_uid is Some && other == by_uid->0.name,
{
}

/// An update never touches somebody else's account, keeps the member's IDs and ends with their
/// current login. An account is renamed only from its stored name, and added again only if the
/// system has neither its UID nor its name.
pub proof fn updates_touch_the_members_account_only(
    msg: &UpdateUser,
    by_uid: Option<&Account>,
    by_name: Option<&Account>,
    plan: UpdatePlan,
)
    requires
        call_ensures(plan_update, (msg, by_uid, by_name), plan),
    ensures
        plan is Recreate <==> by_uid is None && by_name is None,
        by_name is Some && by_name->0.uid != msg.available_user.uid ==> plan
            == UpdatePlan::NameOfOther(by_name->0.uid),
        plan is Keep ==> by_uid is Some && by_uid->0.name@ == msg.gh_user.login@,
        plan is Rename ==> by_uid is Some && by_uid->0.name@ == msg.available_user.name@
            && msg.available_user.name@ != msg.gh_user.login@,
        plan is UidOfOther <==> by_uid is Some && by_uid->0.name@ != msg.gh_user.login@
            && by_uid->0.name@ != msg.available_user.name@ && (by_name is None || by_name->0.uid
            == msg.available_user.uid),
        plan is NameOfOther <==> by_name is Some && (by_uid is None || by_name->0.uid
            != msg.available_user.uid),
        plan is Keep || plan is Rename ==> {
            let user = if plan is Keep {
                plan->Keep_0
            } else {
                plan->Rename_0
            };
            &&& user.id == msg.available_user.id
            &&& user.name == msg.gh_user.login
            &&& user.uid == msg.available_user.uid
            &&& msg.available_user.gid is Some ==> user.gid == msg.available_user.gid
            &&& msg.available_user.gid is None ==> user.gid == Some(by_uid->0.gid)
        },
{
}

/// A name is that of a supplementary group of the user if and only if they are in a group of that
/// name that is not their primary one and still exists.
pub proof fn primary_group_is_not_supplementary(
    list: &Vec<Membership>,
    primary_gid: u32,
    r: NameSet,
    name: Seq<char>,
)
    requires
        call_ensures(current_supplementary_groups, (list, primary_gid), r),
    ensures
        r@.contains(name) <==> exists|i: int|
            0 <= i < list@.len() && (#[trigger] list@[i]).gid != primary_gid && list@[i].name is Some
                && list@[i].name->0@ == name,
{
    if exists|i: int|
        0 <= i < list@.len() && (#[trigger] list@[i]).gid != primary_gid && list@[i].name is Some
            && list@[i].name->0@ == name {
        let i = choose|i: int|
            0 <= i < list@.len() && (#[trigger] list@[i]).gid != primary_gid && list@[i].name
                is Some && list@[i].name->0@ == name;
        assert(is_supplementary(list@[i], primary_gid, name));
    }
}

/// A process is stopped with the user's if and only if its real UID is theirs. The processes come
/// in order, and as often as they are listed.
pub proof fn only_processes_of_the_user_are_stopped(
    list: &Vec<Process>,
    shorter: &Vec<Process>,
    uid: u32,
    r: Vec<i32>,
    shorter_r: Vec<i32>,
)
    requires
        call_ensures(processes_of_uid, (list, uid), r),
        call_ensures(processes_of_uid, (shorter, uid), shorter_r),
        list@.len() > 0,
        shorter@ == list@.drop_last(),
    ensures
        list@.last().ruid == Some(uid) ==> r@ == shorter_r@.push(list@.last().pid),
        list@.last().ruid != Some(uid) ==> r@ == shorter_r@,
        shorter@.len() == 0 ==> shorter_r@.len() == 0,
{
}

/// Processes are asked to terminate as soon as there are any, and looked at again and again. They
/// are killed if they still run three seconds later, and not before. Stopping ends once there are
/// none or they were killed, and fails only where they cannot be listed.
pub proof fn processes_are_terminated_then_killed(step: KillStep, reply: KillReply, next: KillStep)
    requires
        call_ensures(next_kill_step, (step, reply), next),
    ensures
        (step is List || step is ListAgain) && reply is NoProcesses ==> next is Stopped,
        (step is List || step is ListAgain) && (reply is Failed || reply is Done) ==> next
            is ListFailed,
        step is List && reply is Processes ==> next is Terminate,
        step is Terminate ==> next is Wait,
        step is Wait ==> next is ListAgain,
        step is ListAgain && reply is Processes && reply->elapsed_ms >= 3000 ==> next is Kill,
        step is ListAgain && reply is Processes && reply->elapsed_ms < 3000 ==> next is Wait,
        step is Kill ==> next is Stopped,
{
}

/// Disabling an account blocks logins first, then takes away keys, scheduled work, sessions,
/// processes and groups, in this order. It goes on only after success, and nothing is left out. An
/// account that does not exist counts as disabled.
pub proof fn disabling_leaves_nothing_out(
    account_exists: bool,
    first: DisableStep,
    step: DisableStep,
    done: bool,
    next: DisableStep,
)
    requires
        call_ensures(first_disable_step, (account_exists,), first),
        call_ensures(next_disable_step, (step, done), next),
    ensures
        account_exists ==> first is Expire,
        !account_exists ==> first is Disabled,
        !done ==> next is Failed,
        done && step is Expire ==> next is RemoveKeys,
        done && step is RemoveKeys ==> next is RemoveCrontab,
        done && step is RemoveCrontab ==> next is RemoveJobs,
        done && step is RemoveJobs ==> next is EndSessions,
        done && step is EndSessions ==> next is StopProcesses,
        done && step is StopProcesses ==> next is ClearGroups,
        done && step is ClearGroups ==> next is Disabled,
{
}

/// An account is deleted only if it exists and expired on a day that began by the cutoff. One that
/// does not expire is kept, and a missing one is reported as such.
pub proof fn only_long_expired_accounts_are_deleted(
    account_exists: bool,
    expiry_day: Option<i64>,
    cutoff: Timestamp,
    r: Option<PurgeOutcome>,
)
    requires
        call_ensures(purge_check, (account_exists, expiry_day, cutoff), r),
    ensures
        r is None <==> account_exists && expiry_day is Some && expiry_day->0 * 86400 <= cutoff.secs,
        r == Some(PurgeOutcome::NoAccount) <==> !account_exists,
        r != Some(PurgeOutcome::Deleted),
{
}

/// Each group has its turn, in order. It is created if and only if it is missing, and the creation
/// is finished only once every group exists. The first failure ends it.
pub proof fn every_missing_group_is_created(
    groups: Vec<String>,
    start: EnsuringGroups,
    e: &mut EnsuringGroups,
    reply: EnsureReply,
)
    requires
        call_ensures(EnsuringGroups::start, (groups,), start),
        call_ensures(EnsuringGroups::advance, (e, reply), ()),
        old(e)@.step is Check || old(e)@.step is Create,
    ensures
        start@.groups == groups@,
        start@.next == 0,
        groups@.len() > 0 ==> start@.step is Check,
        groups@.len() == 0 ==> start@.step is Finished,
        final(e)@.groups == old(e)@.groups,
        reply is Exists ==> final(e)@.next == old(e)@.next + 1,
        !(reply is Exists) ==> final(e)@.next == old(e)@.next,
        reply is Exists && old(e)@.next + 1 < old(e)@.groups.len() ==> final(e)@.step is Check,
        reply is Exists && old(e)@.next + 1 >= old(e)@.groups.len() ==> final(e)@.step is Finished,
        reply is Missing && old(e)@.step is Check ==> final(e)@.step is Create,
        reply is Failed && old(e)@.step is Check ==> final(e)@.step is CheckFailed,
        !(reply is Exists) && old(e)@.step is Create ==> final(e)@.step is CreateFailed,
{
}

/// The creation of missing groups shows its step and the group that it is at.
pub proof fn creation_shows_where_it_is(e: &EnsuringGroups, step: EnsureStep, group: &String)
    requires
        0 <= e@.next < e@.groups.len(),
        call_ensures(EnsuringGroups::step, (e,), step),
        call_ensures(EnsuringGroups::group, (e,), group),
    ensures
        step == e@.step,
        *group == e@.groups[e@.next],
{
}

} // verus!
