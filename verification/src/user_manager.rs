//! Management of platform users through messages that one backend handles, one at a time.
pub mod backends;
pub mod messages;

use crate::calendar::Timestamp;
use crate::members::GitHubUser;
use crate::names::{lists, NameSet};
use crate::public_keys::PublicKeys;
use crate::store::User;
use crate::text::{same_text, texts};
use crate::user_manager::backends::linux::LinuxUserManager;
use crate::user_manager::backends::mock::MockUserManager;
use crate::user_manager::messages::{
    AccountIds, CreateUser, DisableAccount, EnsureGroupsExist, PurgeAccount,
    SyncSupplementaryGroups, UpdateAuthorizedKeys, UpdateUser,
};
use vstd::prelude::*;

verus! {

/// Where the numbers of mock-created users begin.
pub const MOCK_BASE_UID: usize = 1000;

/// The backend of a user manager.
pub enum Backend {
    /// Previews actions without changing users, groups or files on the system.
    Mock(MockUserManager),
    /// Manages the accounts of the machine.
    Linux(LinuxUserManager),
}

/// A platform user manager.
pub struct UserManager {
    backend: Backend,
}

impl UserManager {
    /// The backend that handles the messages.
    pub closed spec fn backend_view(&self) -> Backend {
        self.backend
    }

    /// A manager for the platform, which is Linux or not. A dry run previews actions only.
    pub fn new(dry_run: bool, on_linux: bool) -> (r: Self)
        ensures
            r.backend_view() is Linux <==> !dry_run && on_linux,
            r.backend_view() matches Backend::Mock(mock) ==> mock.last_number() == MOCK_BASE_UID,
    {
        if dry_run || !on_linux {
            UserManager { backend: Backend::Mock(MockUserManager::new(MOCK_BASE_UID)) }
        } else {
            UserManager { backend: Backend::Linux(LinuxUserManager::new()) }
        }
    }

    /// The backend that handles the messages.
    pub fn into_backend(self) -> (r: Backend)
        ensures
            r == self.backend_view(),
    {
        self.backend
    }

    /// The message that creates a user.
    pub fn create_user(&self, gh_user: &GitHubUser, ids: AccountIds) -> (r: CreateUser)
        ensures
            r == (CreateUser { gh_user: *gh_user, ids }),
    {
        CreateUser { gh_user: gh_user.clone(), ids }
    }

    /// The message that reconciles a stored user with the current GitHub user.
    pub fn update_user(&self, gh_user: &GitHubUser, available_user: &User) -> (r: UpdateUser)
        ensures
            r == (UpdateUser { gh_user: *gh_user, available_user: *available_user }),
    {
        UpdateUser { gh_user: gh_user.clone(), available_user: available_user.clone() }
    }

    /// The message that disables the account of a departed member.
    pub fn disable_user(&self, user: &User) -> (r: DisableAccount)
        ensures
            r == (DisableAccount { user: *user }),
    {
        DisableAccount { user: user.clone() }
    }

    /// The message that deletes the account of a departed member.
    pub fn purge_user(&self, user: &User, disabled_before: Timestamp) -> (r: PurgeAccount)
        ensures
            r == (PurgeAccount { user: *user, disabled_before }),
    {
        PurgeAccount { user: user.clone(), disabled_before }
    }

    /// The message that replaces the supplementary groups of a user.
    pub fn sync_supplementary_groups(&self, user: &User, groups: &Vec<String>) -> (r:
        SyncSupplementaryGroups)
        ensures
            r.user == *user,
            r.groups@ == groups@,
    {
        SyncSupplementaryGroups { user: user.clone(), groups: copied(groups) }
    }

    /// The message that creates missing groups.
    pub fn ensure_groups_exist(&self, groups: &Vec<String>) -> (r: EnsureGroupsExist)
        ensures
            r.groups@ == groups@,
    {
        EnsureGroupsExist { groups: copied(groups) }
    }

    /// The message that replaces the managed keys of a user.
    pub fn update_authorized_keys(&self, user: &User, keys: &PublicKeys) -> (r:
        UpdateAuthorizedKeys)
        ensures
            r.user == *user,
            r.keys@ == keys@,
    {
        UpdateAuthorizedKeys { user: user.clone(), keys: keys.clone() }
    }
}

/// A list of the same strings.
fn copied(list: &Vec<String>) -> (r: Vec<String>)
    ensures
        r@ == list@,
{
    let mut r: Vec<String> = Vec::new();
    let mut i: usize = 0;
    while i < list.len()
        invariant
            i <= list@.len(),
            r@ == list@.take(i as int),
        decreases list@.len() - i,
    {
        r.push(list[i].clone());
        i = i + 1;
    }
    assert(list@.take(list@.len() as int) == list@);
    r
}

/// The supplementary groups that a user is to have: the given ones, without the primary group.
pub open spec fn desired_groups(groups: Seq<Seq<char>>, primary_group: Seq<char>) -> Set<Seq<char>> {
    groups.to_set().remove(primary_group)
}

/// Compute the supplementary groups to set for a user, or `None` when the current memberships
/// already match and no update is needed.
///
/// The result is exactly `groups` without the user's primary group, regardless of the current
/// memberships, sorted and without duplicates.
pub fn supplementary_groups_update(
    groups: &Vec<String>,
    primary_group: &str,
    current: &NameSet,
) -> (r: Option<Vec<String>>)
    ensures
        r is None <==> desired_groups(texts(groups@), primary_group@) == current@,
        r is Some ==> lists(texts(r->0@), desired_groups(texts(groups@), primary_group@)),
{
    let mut desired = NameSet::new();
    let mut i: usize = 0;
    assert(desired@ == desired_groups(texts(groups@.take(0)), primary_group@));
    while i < groups.len()
        invariant
            i <= groups@.len(),
            desired@ == desired_groups(texts(groups@.take(i as int)), primary_group@),
        decreases groups@.len() - i,
    {
        let ghost before = texts(groups@.take(i as int));
        let ghost name = groups@[i as int]@;
        proof {
            assert(texts(groups@.take(i + 1)) == before.push(name));
            crate::names::lemma_push_to_set(before, name);
        }
        if !same_text(groups[i].as_str(), primary_group) {
            desired.insert(groups[i].clone());
            assert(before.to_set().insert(name).remove(primary_group@)
                == before.to_set().remove(primary_group@).insert(name));
        } else {
            assert(before.to_set().insert(name).remove(primary_group@) == before.to_set().remove(
                primary_group@,
            ));
        }
        i = i + 1;
    }
    assert(groups@.take(groups@.len() as int) == groups@);
    if desired.same(current) {
        None
    } else {
        Some(desired.to_list())
    }
}

/// A user ends up in exactly the given groups, without their primary one, whatever groups they are
/// in now. Nothing is done only if they are in exactly those already. The groups come in order,
/// each once.
pub proof fn memberships_are_replaced(
    groups: &Vec<String>,
    primary_group: &str,
    current: &NameSet,
    r: Option<Vec<String>>,
    name: Seq<char>,
)
    requires
        call_ensures(supplementary_groups_update, (groups, primary_group, current), r),
    ensures
        ({
            let wanted = name != primary_group@ && exists|i: int|
                0 <= i < groups@.len() && (#[trigger] groups@[i])@ == name;
            &&& r is Some ==> (wanted <==> exists|i: int|
                0 <= i < r->0@.len() && (#[trigger] r->0@[i])@ == name)
            &&& r is None ==> (wanted <==> current@.contains(name))
        }),
        r is Some ==> forall|i: int, j: int|
            0 <= i < j < r->0@.len() ==> (#[trigger] r->0@[i])@ != (#[trigger] r->0@[j])@,
        (forall|g: Seq<char>| #[trigger]
            current@.contains(g) <==> g != primary_group@ && exists|i: int|
                0 <= i < groups@.len() && (#[trigger] groups@[i])@ == g) ==> r is None,
{
    let names = texts(groups@);
    let wanted = desired_groups(names, primary_group@);
    assert forall|g: Seq<char>| #[trigger] wanted.contains(g) <==> g != primary_group@ && exists|
        i: int,
    |
        0 <= i < groups@.len() && (#[trigger] groups@[i])@ == g by {
        if names.contains(g) {
            let i = names.index_of(g);
            assert(groups@[i]@ == g);
        }
        if exists|i: int| 0 <= i < groups@.len() && (#[trigger] groups@[i])@ == g {
            let i = choose|i: int| 0 <= i < groups@.len() && (#[trigger] groups@[i])@ == g;
            assert(names[i] == g);
        }
        assert(names.to_set().contains(g) == names.contains(g));
    }
    if r is Some {
        let list = texts(r->0@);
        assert(list.to_set().contains(name) == list.contains(name));
        if list.contains(name) {
            assert(r->0@[list.index_of(name)]@ == name);
        }
        if exists|i: int| 0 <= i < r->0@.len() && (#[trigger] r->0@[i])@ == name {
            let i = choose|i: int| 0 <= i < r->0@.len() && (#[trigger] r->0@[i])@ == name;
            assert(list[i] == name);
        }
        assert forall|i: int, j: int| 0 <= i < j < r->0@.len() implies (#[trigger] r->0@[i])@ != (
        #[trigger] r->0@[j])@ by {
            assert(list[i] == r->0@[i]@ && list[j] == r->0@[j]@);
        }
    }
    if forall|g: Seq<char>| #[trigger]
        current@.contains(g) <==> g != primary_group@ && exists|i: int|
            0 <= i < groups@.len() && (#[trigger] groups@[i])@ == g {
        assert(wanted =~= current@);
    }
}

/// Every message is about the user that it was asked for, with all that was given for them.
pub proof fn messages_carry_what_was_asked_for(
    manager: &UserManager,
    gh_user: &GitHubUser,
    user: &User,
    ids: AccountIds,
    cutoff: Timestamp,
    groups: &Vec<String>,
    keys: &PublicKeys,
    create: CreateUser,
    update: UpdateUser,
    disable: DisableAccount,
    purge: PurgeAccount,
    sync: SyncSupplementaryGroups,
    ensure: EnsureGroupsExist,
    install: UpdateAuthorizedKeys,
)
    requires
        call_ensures(UserManager::create_user, (manager, gh_user, ids), create),
        call_ensures(UserManager::update_user, (manager, gh_user, user), update),
        call_ensures(UserManager::disable_user, (manager, user), disable),
        call_ensures(UserManager::purge_user, (manager, user, cutoff), purge),
        call_ensures(UserManager::sync_supplementary_groups, (manager, user, groups), sync),
        call_ensures(UserManager::ensure_groups_exist, (manager, groups), ensure),
        call_ensures(UserManager::update_authorized_keys, (manager, user, keys), install),
    ensures
        create.gh_user == *gh_user,
        create.ids == ids,
        update.gh_user == *gh_user,
        update.available_user == *user,
        disable.user == *user,
        purge.user == *user,
        purge.disabled_before == cutoff,
        sync.user == *user,
        sync.groups@ == groups@,
        ensure.groups@ == groups@,
        install.user == *user,
        install.keys@ == keys@,
{
}

/// Accounts of the machine are managed on Linux only, and not in a dry run. Everything else is
/// previewed, with numbers from the base on.
pub proof fn only_real_runs_manage_accounts(
    dry_run: bool,
    on_linux: bool,
    manager: UserManager,
    backend: Backend,
)
    requires
        call_ensures(UserManager::new, (dry_run, on_linux), manager),
        call_ensures(UserManager::into_backend, (manager,), backend),
    ensures
        backend is Linux <==> !dry_run && on_linux,
        backend is Mock ==> backend->Mock_0.last_number() == 1000,
{
}

} // verus!
