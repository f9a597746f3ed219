//! The account of a member: which IDs it gets, and the steps that bring it up to date.
use crate::members::GitHubUser;
use crate::public_keys::PublicKeys;
use crate::store::{StoreView, User, UserId, UserStore};
use crate::text::{decimal, decimal_of, same_text};
use crate::user_manager::messages::{AccountIds, IdsView};
use std::collections::HashSet;
use vstd::prelude::*;
use vstd::std_specs::iter::IteratorSpec;

verus! {

/// The refusal to create an account, because the login belonged to a departed member who is
/// somebody else.
#[derive(Debug)]
pub struct RecycledLogin {
    /// The login.
    pub login: String,
    /// GitHub ID of the departed member.
    pub departed_id: UserId,
    /// GitHub ID of the joining member.
    pub joining_id: UserId,
}

impl RecycledLogin {
    /// What to report.
    pub fn message(&self) -> (r: String)
        ensures
            r@ == "Login '"@ + self.login@ + "' belonged to the departed member with GitHub ID "@
                + decimal(self.departed_id as nat) + ", but the joining member has GitHub ID "@
                + decimal(self.joining_id as nat)
                + ": the login was recycled by a different person, refusing to create the user"@,
    {
        let mut r = "Login '".to_owned();
        r.append(self.login.as_str());
        r.append("' belonged to the departed member with GitHub ID ");
        r.append(decimal_of(self.departed_id).as_str());
        r.append(", but the joining member has GitHub ID ");
        r.append(decimal_of(self.joining_id).as_str());
        r.append(": the login was recycled by a different person, refusing to create the user");
        r
    }
}

/// Whether a departed member with the given ID had the login.
pub open spec fn had_login(s: StoreView, login: Seq<char>, id: UserId) -> bool {
    exists|k: UserId| #[trigger]
        s.departed.contains_key(k) && s.departed[k].name@ == login && s.departed[k].id == id
}

/// Whether any departed member had the login.
pub open spec fn is_departed_login(s: StoreView, login: Seq<char>) -> bool {
    exists|id: UserId| #[trigger] had_login(s, login, id)
}

/// The UIDs that are retained for departed and purged members.
pub open spec fn reserved_uids(s: StoreView) -> Set<u32> {
    Set::new(
        |uid: u32|
            (exists|k: UserId| #[trigger] s.departed.contains_key(k) && s.departed[k].uid == uid)
                || (exists|k: UserId| #[trigger] s.purged.contains_key(k) && s.purged[k].uid == uid),
    )
}

/// The GIDs that are retained for departed and purged members.
pub open spec fn reserved_gids(s: StoreView) -> Set<u32> {
    Set::new(
        |gid: u32|
            (exists|k: UserId| #[trigger]
                s.departed.contains_key(k) && s.departed[k].gid == Some(gid)) || (exists|k: UserId|
             #[trigger]
                s.purged.contains_key(k) && s.purged[k].gid == Some(gid)),
    )
}

/// The IDs of the account to create for a member: those retained for them, be it from their
/// departure or from before their account was purged, or else fresh ones.
pub open spec fn ids_to_use(s: StoreView, id: UserId) -> IdsView {
    if s.departed.contains_key(id) {
        IdsView::Stored { uid: s.departed[id].uid, gid: s.departed[id].gid }
    } else if s.purged.contains_key(id) {
        IdsView::Stored { uid: s.purged[id].uid, gid: s.purged[id].gid }
    } else {
        IdsView::Fresh { reserved_uids: reserved_uids(s), reserved_gids: reserved_gids(s) }
    }
}

/// The departed member that had the login, if there is one. If there are several, it may be any of
/// them.
fn departed_with_login(store: &UserStore, login: &str) -> (r: Option<UserId>)
    ensures
        match r {
            Some(id) => had_login(store@, login@, id),
            None => !is_departed_login(store@, login@),
        },
{
    broadcast use vstd::std_specs::hash::group_hash_axioms;

    let departed = store.departed();
    let ghost all = departed.iter().remaining();
    for pair in it: departed.iter()
        invariant
            departed@ == store@.departed,
            it.seq() == all,
            forall|i: int|
                0 <= i < all.len() ==> departed@.contains_key(*(#[trigger] all[i]).0)
                    && departed@[*all[i].0] == *all[i].1,
            forall|i: int| 0 <= i < it.index() ==> (#[trigger] all[i]).1.name@ != login@,
    {
        let (key, departure) = pair;
        assert(all[it.index() as int].1 == departure);
        if same_text(departure.name.as_str(), login) {
            assert(store@.departed.contains_key(*key));
            return Some(departure.id);
        }
    }
    proof {
        if is_departed_login(store@, login@) {
            let id = choose|id: UserId| #[trigger] had_login(store@, login@, id);
            let k = choose|k: UserId| #[trigger]
                store@.departed.contains_key(k) && store@.departed[k].name@ == login@
                    && store@.departed[k].id == id;
            assert(all.contains((&k, &departed@[k])));
            assert(all[all.index_of((&k, &departed@[k]))].1.name@ == login@);
        }
    }
    None
}

/// Adds the IDs of departed members.
fn add_departed_ids(store: &UserStore, uids: &mut HashSet<u32>, gids: &mut HashSet<u32>)
    ensures
        forall|uid: u32| #[trigger]
            final(uids)@.contains(uid) <==> old(uids)@.contains(uid) || exists|k: UserId| #[trigger]
                store@.departed.contains_key(k) && store@.departed[k].uid == uid,
        forall|gid: u32| #[trigger]
            final(gids)@.contains(gid) <==> old(gids)@.contains(gid) || exists|k: UserId| #[trigger]
                store@.departed.contains_key(k) && store@.departed[k].gid == Some(gid),
{
    broadcast use vstd::std_specs::hash::group_hash_axioms;

    let departed = store.departed();
    let ghost all = departed.iter().remaining();
    for pair in it: departed.iter()
        invariant
            departed@ == store@.departed,
            it.seq() == all,
            forall|i: int|
                0 <= i < all.len() ==> departed@.contains_key(*(#[trigger] all[i]).0)
                    && departed@[*all[i].0] == *all[i].1,
            forall|uid: u32| #[trigger]
                uids@.contains(uid) <==> old(uids)@.contains(uid) || exists|i: int|
                    0 <= i < it.index() && (#[trigger] all[i]).1.uid == uid,
            forall|gid: u32| #[trigger]
                gids@.contains(gid) <==> old(gids)@.contains(gid) || exists|i: int|
                    0 <= i < it.index() && (#[trigger] all[i]).1.gid == Some(gid),
    {
        broadcast use vstd::std_specs::hash::group_hash_axioms;

        let (key, departure) = pair;
        assert(all[it.index() as int].1 == departure);
        uids.insert(departure.uid);
        if let Some(gid) = departure.gid {
            gids.insert(gid);
        }
    }
    proof {
        assert forall|k: UserId| store@.departed.contains_key(k) implies exists|i: int|
            0 <= i < all.len() && *(#[trigger] all[i]).1 == store@.departed[k] by {
            let i = all.index_of((&k, &departed@[k]));
            assert(all.contains((&k, &departed@[k])));
            assert(*all[i].1 == store@.departed[k]);
        }
    }
}

/// Adds the IDs of purged members.
fn add_purged_ids(store: &UserStore, uids: &mut HashSet<u32>, gids: &mut HashSet<u32>)
    ensures
        forall|uid: u32| #[trigger]
            final(uids)@.contains(uid) <==> old(uids)@.contains(uid) || exists|k: UserId| #[trigger]
                store@.purged.contains_key(k) && store@.purged[k].uid == uid,
        forall|gid: u32| #[trigger]
            final(gids)@.contains(gid) <==> old(gids)@.contains(gid) || exists|k: UserId| #[trigger]
                store@.purged.contains_key(k) && store@.purged[k].gid == Some(gid),
{
    broadcast use vstd::std_specs::hash::group_hash_axioms;

    let purged = store.purged();
    let ghost all = purged.iter().remaining();
    for pair in it: purged.iter()
        invariant
            purged@ == store@.purged,
            it.seq() == all,
            forall|i: int|
                0 <= i < all.len() ==> purged@.contains_key(*(#[trigger] all[i]).0)
                    && purged@[*all[i].0] == *all[i].1,
            forall|uid: u32| #[trigger]
                uids@.contains(uid) <==> old(uids)@.contains(uid) || exists|i: int|
                    0 <= i < it.index() && (#[trigger] all[i]).1.uid == uid,
            forall|gid: u32| #[trigger]
                gids@.contains(gid) <==> old(gids)@.contains(gid) || exists|i: int|
                    0 <= i < it.index() && (#[trigger] all[i]).1.gid == Some(gid),
    {
        broadcast use vstd::std_specs::hash::group_hash_axioms;

        let (key, record) = pair;
        assert(all[it.index() as int].1 == record);
        uids.insert(record.uid);
        if let Some(gid) = record.gid {
            gids.insert(gid);
        }
    }
    proof {
        assert forall|k: UserId| store@.purged.contains_key(k) implies exists|i: int|
            0 <= i < all.len() && *(#[trigger] all[i]).1 == store@.purged[k] by {
            let i = all.index_of((&k, &purged@[k]));
            assert(all.contains((&k, &purged@[k])));
            assert(*all[i].1 == store@.purged[k]);
        }
    }
}

/// Decide how to create the platform user of a member, reusing retained IDs when the member
/// rejoins. A brand-new member must not receive an ID retained for a departed member.
///
/// A recycled login is refused, rather than expose the departed member's account. Where several
/// departed members had the login, any of them may be the one that decides.
pub fn plan_creation(gh_user: &GitHubUser, store: &UserStore) -> (r: Result<
    AccountIds,
    RecycledLogin,
>)
    ensures
        match r {
            Ok(ids) => {
                &&& ids@ == ids_to_use(store@, gh_user.id)
                &&& is_departed_login(store@, gh_user.login@) ==> had_login(
                    store@,
                    gh_user.login@,
                    gh_user.id,
                )
            },
            Err(refusal) => {
                &&& refusal.login == gh_user.login
                &&& refusal.joining_id == gh_user.id
                &&& refusal.departed_id != gh_user.id
                &&& had_login(store@, gh_user.login@, refusal.departed_id)
            },
        },
        is_departed_login(store@, gh_user.login@) && !had_login(
            store@,
            gh_user.login@,
            gh_user.id,
        ) ==> r is Err,
        (forall|id: UserId| #[trigger]
            had_login(store@, gh_user.login@, id) ==> id == gh_user.id) ==> r is Ok,
{
    broadcast use vstd::std_specs::hash::group_hash_axioms;

    if let Some(departed_id) = departed_with_login(store, gh_user.login.as_str()) {
        if departed_id != gh_user.id {
            return Err(
                RecycledLogin {
                    login: gh_user.login.clone(),
                    departed_id,
                    joining_id: gh_user.id,
                },
            );
        }
    }
    if let Some(departure) = store.departed().get(&gh_user.id) {
        return Ok(AccountIds::Stored { uid: departure.uid, gid: departure.gid });
    }
    if let Some(record) = store.purged().get(&gh_user.id) {
        return Ok(AccountIds::Stored { uid: record.uid, gid: record.gid });
    }
    let mut uids: HashSet<u32> = HashSet::new();
    let mut gids: HashSet<u32> = HashSet::new();
    add_departed_ids(store, &mut uids, &mut gids);
    add_purged_ids(store, &mut uids, &mut gids);
    assert(uids@ =~= reserved_uids(store@));
    assert(gids@ =~= reserved_gids(store@));
    Ok(AccountIds::Fresh { reserved_uids: uids, reserved_gids: gids })
}

/// A member who departed or was purged gets their own IDs back. Anybody else is kept from all
/// IDs that are retained.
pub proof fn retained_ids_are_for_their_owner(s: StoreView, owner: UserId, other: UserId)
    requires
        s.departed.contains_key(owner) || s.purged.contains_key(owner),
        !s.departed.contains_key(other),
        !s.purged.contains_key(other),
    ensures
        ids_to_use(s, other) is Fresh,
        s.departed.contains_key(owner) ==> {
            &&& ids_to_use(s, owner) == (IdsView::Stored {
                uid: s.departed[owner].uid,
                gid: s.departed[owner].gid,
            })
            &&& ids_to_use(s, other)->reserved_uids.contains(s.departed[owner].uid)
            &&& s.departed[owner].gid is Some ==> ids_to_use(s, other)->reserved_gids.contains(
                s.departed[owner].gid->0,
            )
        },
        s.purged.contains_key(owner) ==> {
            &&& s.departed.contains_key(owner) || ids_to_use(s, owner) == (IdsView::Stored {
                uid: s.purged[owner].uid,
                gid: s.purged[owner].gid,
            })
            &&& ids_to_use(s, other)->reserved_uids.contains(s.purged[owner].uid)
            &&& s.purged[owner].gid is Some ==> ids_to_use(s, other)->reserved_gids.contains(
                s.purged[owner].gid->0,
            )
        },
{
}

/// A step of processing a member, or where processing ends.
pub enum MemberStep {
    /// Update the account of a stored user.
    Update(User),
    /// Create an account.
    Create(AccountIds),
    /// Sync the supplementary groups of the account.
    SyncGroups(User),
    /// Fetch the public keys of the account from GitHub.
    FetchKeys(User),
    /// Update the authorized keys of the account.
    UpdateKeys(User, PublicKeys),
    /// The member is processed.
    Processed(User),
    /// No account is created for the member.
    Refused(RecycledLogin),
    /// The account could not be updated.
    UpdateFailed,
    /// The account could not be created.
    CreateFailed,
    /// The supplementary groups could not be synced.
    GroupsFailed,
    /// The authorized keys could not be updated.
    KeysFailed,
}

/// What came of a step of processing a member.
pub enum MemberReply {
    /// The account is as given.
    Account(User),
    /// The keys on GitHub are as given.
    Keys(PublicKeys),
    /// It succeeded.
    Done,
    /// It failed.
    Failed,
}

/// Whether a reply is one that the step can have.
pub open spec fn answers(step: MemberStep, reply: MemberReply) -> bool {
    match step {
        MemberStep::Update(_) | MemberStep::Create(_) => reply is Account || reply is Failed,
        MemberStep::FetchKeys(_) => reply is Keys || reply is Failed,
        MemberStep::SyncGroups(_) | MemberStep::UpdateKeys(_, _) => reply is Done
            || reply is Failed,
        _ => false,
    }
}

/// What follows a step of processing a member.
pub open spec fn member_next(step: MemberStep, reply: MemberReply) -> MemberStep {
    match (step, reply) {
        (
            MemberStep::Update(_) | MemberStep::Create(_),
            MemberReply::Account(user),
        ) => MemberStep::SyncGroups(user),
        (MemberStep::Update(_), _) => MemberStep::UpdateFailed,
        (MemberStep::Create(_), _) => MemberStep::CreateFailed,
        (MemberStep::SyncGroups(user), MemberReply::Done) => MemberStep::FetchKeys(user),
        (MemberStep::SyncGroups(_), _) => MemberStep::GroupsFailed,
        (MemberStep::FetchKeys(user), MemberReply::Keys(keys)) => MemberStep::UpdateKeys(
            user,
            keys,
        ),
        (MemberStep::FetchKeys(user), _) => MemberStep::Processed(user),
        (MemberStep::UpdateKeys(user, _), MemberReply::Done) => MemberStep::Processed(user),
        (MemberStep::UpdateKeys(_, _), _) => MemberStep::KeysFailed,
        (end, _) => end,
    }
}

/// The first step of processing a member: the account of a stored user is updated, and another
/// member gets one.
pub fn first_member_step(gh_user: &GitHubUser, store: &UserStore) -> (r: MemberStep)
    ensures
        store@.users.contains_key(gh_user.id) ==> r == MemberStep::Update(
            store@.users[gh_user.id],
        ),
        !store@.users.contains_key(gh_user.id) ==> match r {
            MemberStep::Create(ids) => {
                &&& ids@ == ids_to_use(store@, gh_user.id)
                &&& is_departed_login(store@, gh_user.login@) ==> had_login(
                    store@,
                    gh_user.login@,
                    gh_user.id,
                )
            },
            MemberStep::Refused(refusal) => {
                &&& refusal.login == gh_user.login
                &&& refusal.joining_id == gh_user.id
                &&& refusal.departed_id != gh_user.id
                &&& had_login(store@, gh_user.login@, refusal.departed_id)
            },
            _ => false,
        },
        !store@.users.contains_key(gh_user.id) && is_departed_login(store@, gh_user.login@)
            && !had_login(store@, gh_user.login@, gh_user.id) ==> r is Refused,
        !store@.users.contains_key(gh_user.id) && (forall|id: UserId| #[trigger]
            had_login(store@, gh_user.login@, id) ==> id == gh_user.id) ==> r is Create,
{
    broadcast use vstd::std_specs::hash::group_hash_axioms;

    match store.data().get(&gh_user.id) {
        Some(user) => MemberStep::Update(user.clone()),
        None => match plan_creation(gh_user, store) {
            Ok(ids) => MemberStep::Create(ids),
            Err(refusal) => MemberStep::Refused(refusal),
        },
    }
}

/// What to do after a step of processing a member. Existing keys stay in place when GitHub cannot
/// give the current ones.
pub fn next_member_step(step: MemberStep, reply: MemberReply) -> (r: MemberStep)
    requires
        answers(step, reply),
    ensures
        r == member_next(step, reply),
{
    match (step, reply) {
        (MemberStep::Update(_), MemberReply::Account(user)) => MemberStep::SyncGroups(user),
        (MemberStep::Create(_), MemberReply::Account(user)) => MemberStep::SyncGroups(user),
        (MemberStep::Update(_), _) => MemberStep::UpdateFailed,
        (MemberStep::Create(_), _) => MemberStep::CreateFailed,
        (MemberStep::SyncGroups(user), MemberReply::Done) => MemberStep::FetchKeys(user),
        (MemberStep::SyncGroups(_), _) => MemberStep::GroupsFailed,
        (MemberStep::FetchKeys(user), MemberReply::Keys(keys)) => MemberStep::UpdateKeys(
            user,
            keys,
        ),
        (MemberStep::FetchKeys(user), _) => MemberStep::Processed(user),
        (MemberStep::UpdateKeys(user, _), MemberReply::Done) => MemberStep::Processed(user),
        (MemberStep::UpdateKeys(_, _), _) => MemberStep::KeysFailed,
        (end, _) => end,
    }
}

/// Authorized keys are touched only with keys that were fetched. A failed fetch leaves them alone
/// and the member is processed all the same.
pub proof fn failed_fetch_keeps_the_keys(step: MemberStep, reply: MemberReply)
    requires
        answers(step, reply),
    ensures
        member_next(step, reply) is UpdateKeys ==> step is FetchKeys && reply is Keys
            && member_next(step, reply)->UpdateKeys_1 == reply->Keys_0,
        step is FetchKeys && reply is Failed ==> member_next(step, reply)
            == MemberStep::Processed(step->FetchKeys_0),
{
}

/// The outcome of a processed member is the account that the backend gave.
pub proof fn processed_account_is_the_backends(
    first: MemberStep,
    account: User,
    groups: MemberReply,
    fetched: MemberReply,
    updated: MemberReply,
)
    requires
        first is Update || first is Create,
    ensures
        ({
            let a = member_next(first, MemberReply::Account(account));
            let b = member_next(a, groups);
            let c = member_next(b, fetched);
            let d = member_next(c, updated);
            &&& a == MemberStep::SyncGroups(account)
            &&& c is Processed ==> c->Processed_0 == account
            &&& d is Processed ==> d->Processed_0 == account
        }),
{
}

/// Every successful fetch of keys leads to an update with exactly those keys, be there any or
/// none. A member counts as processed only when that update succeeded, or when GitHub could not
/// give the keys.
pub proof fn fetched_keys_are_installed(step: MemberStep, reply: MemberReply, next: MemberStep)
    requires
        call_ensures(next_member_step, (step, reply), next),
        step is Update || step is Create ==> reply is Account || reply is Failed,
        step is SyncGroups || step is UpdateKeys ==> reply is Done || reply is Failed,
        step is FetchKeys ==> reply is Keys || reply is Failed,
        step is Update || step is Create || step is SyncGroups || step is FetchKeys || step
            is UpdateKeys,
    ensures
        step is FetchKeys && reply is Keys ==> next == MemberStep::UpdateKeys(
            step->FetchKeys_0,
            reply->Keys_0,
        ),
        next is UpdateKeys <==> step is FetchKeys && reply is Keys,
        next is Processed <==> step is UpdateKeys && reply is Done || step is FetchKeys
            && reply is Failed,
        next is Processed ==> next->Processed_0 == if step is UpdateKeys {
            step->UpdateKeys_0
        } else {
            step->FetchKeys_0
        },
{
}

/// An account that the backend gives gets its groups, and then its keys are fetched. Any failure
/// before that ends the processing, each in its own way.
pub proof fn accounts_get_groups_before_keys(step: MemberStep, reply: MemberReply, next: MemberStep)
    requires
        call_ensures(next_member_step, (step, reply), next),
        step is Update || step is Create ==> reply is Account || reply is Failed,
        step is SyncGroups || step is UpdateKeys ==> reply is Done || reply is Failed,
        step is FetchKeys ==> reply is Keys || reply is Failed,
        step is Update || step is Create || step is SyncGroups || step is FetchKeys || step
            is UpdateKeys,
    ensures
        reply is Account ==> next == MemberStep::SyncGroups(reply->Account_0),
        next is SyncGroups ==> reply is Account,
        step is SyncGroups && reply is Done ==> next == MemberStep::FetchKeys(step->SyncGroups_0),
        next is FetchKeys ==> step is SyncGroups && reply is Done,
        next is UpdateFailed <==> step is Update && reply is Failed,
        next is CreateFailed <==> step is Create && reply is Failed,
        next is GroupsFailed <==> step is SyncGroups && reply is Failed,
        next is KeysFailed <==> step is UpdateKeys && reply is Failed,
{
}

/// A member who departed gets the UID and GID of their departure record back, and one whose
/// account was purged those of before the purge.
pub proof fn rejoining_member_gets_their_ids_back(
    gh_user: &GitHubUser,
    store: &UserStore,
    r: Result<AccountIds, RecycledLogin>,
)
    requires
        call_ensures(plan_creation, (gh_user, store), r),
        r is Ok,
    ensures
        store@.departed.contains_key(gh_user.id) ==> {
            &&& r->Ok_0 is Stored
            &&& r->Ok_0->uid == store@.departed[gh_user.id].uid
            &&& r->Ok_0->gid == store@.departed[gh_user.id].gid
        },
        store@.purged.contains_key(gh_user.id) && !store@.departed.contains_key(gh_user.id) ==> {
            &&& r->Ok_0 is Stored
            &&& r->Ok_0->uid == store@.purged[gh_user.id].uid
            &&& r->Ok_0->gid == store@.purged[gh_user.id].gid
        },
{
}

/// A new member is kept from the UID and GID of everybody who departed or was purged, and from
/// nothing else.
pub proof fn new_member_is_kept_from_retained_ids(
    gh_user: &GitHubUser,
    store: &UserStore,
    r: Result<AccountIds, RecycledLogin>,
    id: u32,
)
    requires
        call_ensures(plan_creation, (gh_user, store), r),
        r is Ok,
        !store@.departed.contains_key(gh_user.id),
        !store@.purged.contains_key(gh_user.id),
    ensures
        r->Ok_0 is Fresh,
        r->Ok_0->reserved_uids@.contains(id) <==> {
            ||| exists|k: UserId| #[trigger] store@.departed.contains_key(k)
                && store@.departed[k].uid == id
            ||| exists|k: UserId| #[trigger] store@.purged.contains_key(k)
                && store@.purged[k].uid == id
        },
        r->Ok_0->reserved_gids@.contains(id) <==> {
            ||| exists|k: UserId| #[trigger] store@.departed.contains_key(k)
                && store@.departed[k].gid == Some(id)
            ||| exists|k: UserId| #[trigger] store@.purged.contains_key(k)
                && store@.purged[k].gid == Some(id)
        },
{
    let ids = r->Ok_0;
    assert(ids@ is Fresh);
    assert(ids@->reserved_uids.contains(id) == ids->reserved_uids@.contains(id));
    assert(ids@->reserved_gids.contains(id) == ids->reserved_gids@.contains(id));
}

/// A login that belonged to departed members is refused to anybody who is none of them. It is
/// never refused where nobody else had it.
pub proof fn recycled_login_is_refused(
    gh_user: &GitHubUser,
    store: &UserStore,
    r: Result<AccountIds, RecycledLogin>,
    k: UserId,
)
    requires
        call_ensures(plan_creation, (gh_user, store), r),
    ensures
        store@.departed.contains_key(k) && store@.departed[k].name@ == gh_user.login@ && (forall|
            j: UserId,
        | #[trigger]
            store@.departed.contains_key(j) && store@.departed[j].name@ == gh_user.login@
                ==> store@.departed[j].id != gh_user.id) ==> r is Err,
        (forall|j: UserId| #[trigger]
            store@.departed.contains_key(j) && store@.departed[j].name@ == gh_user.login@
                ==> store@.departed[j].id == gh_user.id) ==> r is Ok,
        r is Err ==> {
            &&& r->Err_0.login@ == gh_user.login@
            &&& r->Err_0.joining_id == gh_user.id
            &&& r->Err_0.departed_id != gh_user.id
            &&& exists|j: UserId| #[trigger]
                store@.departed.contains_key(j) && store@.departed[j].name@ == gh_user.login@
                    && store@.departed[j].id == r->Err_0.departed_id
        },
{
    let login = gh_user.login@;
    if store@.departed.contains_key(k) && store@.departed[k].name@ == login && (forall|j: UserId|
     #[trigger]
        store@.departed.contains_key(j) && store@.departed[j].name@ == login
            ==> store@.departed[j].id != gh_user.id) {
        assert(had_login(store@, login, store@.departed[k].id));
        assert(!had_login(store@, login, gh_user.id));
    }
    if forall|j: UserId| #[trigger]
        store@.departed.contains_key(j) && store@.departed[j].name@ == login
            ==> store@.departed[j].id == gh_user.id {
        assert forall|id: UserId| #[trigger] had_login(store@, login, id) implies id
            == gh_user.id by {}
    }
}

/// A stored user is updated as they are stored, and never gets a second account. Anybody else gets
/// an account by the rules of [`plan_creation`].
pub proof fn stored_users_are_updated(gh_user: &GitHubUser, store: &UserStore, first: MemberStep)
    requires
        call_ensures(first_member_step, (gh_user, store), first),
    ensures
        store@.users.contains_key(gh_user.id) ==> first == MemberStep::Update(
            store@.users[gh_user.id],
        ),
        !store@.users.contains_key(gh_user.id) ==> first is Create || first is Refused,
        !store@.users.contains_key(gh_user.id) && store@.departed.contains_key(gh_user.id)
            && first is Create ==> first->Create_0 is Stored && first->Create_0->uid
            == store@.departed[gh_user.id].uid && first->Create_0->gid
            == store@.departed[gh_user.id].gid,
        !store@.users.contains_key(gh_user.id) && !store@.departed.contains_key(gh_user.id)
            && store@.purged.contains_key(gh_user.id) && first is Create ==> first->Create_0
            is Stored && first->Create_0->uid == store@.purged[gh_user.id].uid
            && first->Create_0->gid == store@.purged[gh_user.id].gid,
        !store@.users.contains_key(gh_user.id) && !store@.departed.contains_key(gh_user.id)
            && !store@.purged.contains_key(gh_user.id) && first is Create ==> first->Create_0
            is Fresh,
        !store@.users.contains_key(gh_user.id) && (forall|j: UserId| #[trigger]
            store@.departed.contains_key(j) && store@.departed[j].name@ == gh_user.login@
                ==> store@.departed[j].id == gh_user.id) ==> first is Create,
        !store@.users.contains_key(gh_user.id) && (exists|j: UserId| #[trigger]
            store@.departed.contains_key(j) && store@.departed[j].name@ == gh_user.login@) && (
        forall|j: UserId| #[trigger]
            store@.departed.contains_key(j) && store@.departed[j].name@ == gh_user.login@
                ==> store@.departed[j].id != gh_user.id) ==> first is Refused,
{
    let login = gh_user.login@;
    if forall|j: UserId| #[trigger]
        store@.departed.contains_key(j) && store@.departed[j].name@ == login
            ==> store@.departed[j].id == gh_user.id {
        assert forall|id: UserId| #[trigger] had_login(store@, login, id) implies id
            == gh_user.id by {}
    }
    if exists|j: UserId| #[trigger]
        store@.departed.contains_key(j) && store@.departed[j].name@ == login {
        let j = choose|j: UserId| #[trigger]
            store@.departed.contains_key(j) && store@.departed[j].name@ == login;
        assert(had_login(store@, login, store@.departed[j].id));
    }
}

} // verus!
