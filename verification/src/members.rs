//! What the fetched member list means for the stored users: who stays, who is retried and who
//! has left, and when the list is not to be trusted.
use crate::listing::{are_kept_keys, kept_keys, kept_keys_are_kept, keys_of};
use crate::store::{StoreView, User, UserId, UserMap, UserStore};
use std::collections::HashMap;
use vstd::prelude::*;

verus! {

/// The logins of the current members by their GitHub ID.
pub type MemberMap = HashMap<UserId, String>;

/// A GitHub user as the API returns it.
#[derive(Debug)]
pub struct GitHubUser {
    /// GitHub user ID.
    pub id: UserId,
    /// GitHub login.
    pub login: String,
}

impl Clone for GitHubUser {
    fn clone(&self) -> (r: Self)
        ensures
            r == *self,
    {
        GitHubUser { id: self.id, login: self.login.clone() }
    }
}

/// Whether the list holds the users of the map that are kept, each once and in any order.
pub open spec fn lists_users(
    list: Seq<User>,
    map: Map<UserId, User>,
    keep: spec_fn(User) -> bool,
) -> bool {
    exists|keys: Seq<UserId>|
        #![trigger are_kept_keys(keys, map, keep)]
        are_kept_keys(keys, map, keep) && list == keys.map_values(|k: UserId| map[k])
}

/// The members by their GitHub ID. Where an ID occurs twice, the last login counts.
pub open spec fn members_by_id(users: Seq<GitHubUser>) -> Map<UserId, String>
    decreases users.len(),
{
    if users.len() == 0 {
        Map::empty()
    } else {
        members_by_id(users.drop_last()).insert(users.last().id, users.last().login)
    }
}

/// The members by their GitHub ID.
pub fn member_map(users: &Vec<GitHubUser>) -> (r: MemberMap)
    ensures
        r@ == members_by_id(users@),
{
    broadcast use vstd::std_specs::hash::group_hash_axioms;

    let mut r: MemberMap = HashMap::new();
    let mut i: usize = 0;
    while i < users.len()
        invariant
            i <= users@.len(),
            r@ == members_by_id(users@.take(i as int)),
        decreases users@.len() - i,
    {
        broadcast use vstd::std_specs::hash::group_hash_axioms;

        proof {
            assert(users@.take(i + 1).drop_last() == users@.take(i as int));
        }
        r.insert(users[i].id, users[i].login.clone());
        i = i + 1;
    }
    assert(users@.take(users@.len() as int) == users@);
    r
}

/// Whether there are stored users, and none of them is a member.
pub open spec fn no_stored_user_is_member(
    stored: Map<UserId, User>,
    members: Map<UserId, String>,
) -> bool {
    stored.len() > 0 && forall|id: UserId| #[trigger]
        stored.contains_key(id) ==> !members.contains_key(id)
}

/// Whether no stored user appears in the fetched membership.
///
/// This is the same failure that [`would_disable_all_users`] catches, seen before any platform
/// operation runs: a member list that lacks every managed account is not to be trusted. An empty
/// store needs no guard.
pub fn membership_has_no_stored_users(stored: &UserMap, members: &MemberMap) -> (r: bool)
    ensures
        r == no_stored_user_is_member(stored@, members@),
{
    broadcast use vstd::std_specs::hash::group_hash_axioms;

    if stored.is_empty() {
        assert(stored@.len() == 0);
        return false;
    }
    assert(stored@.len() > 0) by {
        let id = choose|id: UserId| stored@.dom().contains(id);
        if stored@.len() == 0 {
            assert(stored@.dom() =~= Set::empty());
        }
    }
    let ids = keys_of(stored);
    let mut i: usize = 0;
    while i < ids.len()
        invariant
            i <= ids@.len(),
            ids@.to_set() == stored@.dom(),
            stored@.len() > 0,
            forall|j: int| 0 <= j < i ==> !members@.contains_key(#[trigger] ids@[j]),
        decreases ids@.len() - i,
    {
        broadcast use vstd::std_specs::hash::group_hash_axioms;

        if members.contains_key(&ids[i]) {
            assert(ids@.to_set().contains(ids@[i as int]));
            return false;
        }
        i = i + 1;
    }
    assert forall|id: UserId| stored@.contains_key(id) implies !members@.contains_key(id) by {
        assert(ids@.to_set().contains(id));
        assert(ids@[ids@.index_of(id)] == id);
    }
    true
}

/// Whether a stored user was not processed although they are a member.
pub open spec fn is_to_retry(
    user: User,
    new_users: Map<UserId, User>,
    members: Map<UserId, String>,
) -> bool {
    !new_users.contains_key(user.id) && members.contains_key(user.id)
}

/// Whether a stored user was not processed and is no member.
pub open spec fn is_leaver(
    user: User,
    new_users: Map<UserId, User>,
    members: Map<UserId, String>,
) -> bool {
    !new_users.contains_key(user.id) && !members.contains_key(user.id)
}

/// Separate failed current members, which remain for retry, from actual leavers, going by the
/// fetched member list.
pub fn partition_stale_users<'a>(
    old_users: &'a UserMap,
    new_users: &UserMap,
    members: &MemberMap,
) -> (r: (Vec<&'a User>, Vec<&'a User>))
    ensures
        lists_users(r.0@.unref(), old_users@, |u: User| is_to_retry(u, new_users@, members@)),
        lists_users(r.1@.unref(), old_users@, |u: User| is_leaver(u, new_users@, members@)),
{
    broadcast use vstd::std_specs::hash::group_hash_axioms;

    let ghost map = old_users@;
    let ghost keep_retry = |u: User| is_to_retry(u, new_users@, members@);
    let ghost keep_leaver = |u: User| is_leaver(u, new_users@, members@);
    let ids = keys_of(old_users);
    let mut retry: Vec<&'a User> = Vec::new();
    let mut leavers: Vec<&'a User> = Vec::new();
    let mut i: usize = 0;
    while i < ids.len()
        invariant
            i <= ids@.len(),
            map == old_users@,
            ids@.to_set() == map.dom(),
            keep_retry == (|u: User| is_to_retry(u, new_users@, members@)),
            keep_leaver == (|u: User| is_leaver(u, new_users@, members@)),
            retry@.unref() == kept_keys(ids@.take(i as int), map, keep_retry).map_values(
                |k: UserId| map[k],
            ),
            leavers@.unref() == kept_keys(ids@.take(i as int), map, keep_leaver).map_values(
                |k: UserId| map[k],
            ),
        decreases ids@.len() - i,
    {
        broadcast use vstd::std_specs::hash::group_hash_axioms;

        let ghost next = ids@.take(i + 1);
        let ghost old_retry = retry@;
        let ghost old_leavers = leavers@;
        proof {
            assert(next.drop_last() == ids@.take(i as int));
            assert(ids@.to_set().contains(ids@[i as int]));
        }
        if let Some(user) = old_users.get(&ids[i]) {
            if !new_users.contains_key(&user.id) {
                if members.contains_key(&user.id) {
                    retry.push(user);
                    assert(retry@.unref() == old_retry.unref().push(*user));
                } else {
                    leavers.push(user);
                    assert(leavers@.unref() == old_leavers.unref().push(*user));
                }
            }
        }
        assert(retry@.unref() == kept_keys(next, map, keep_retry).map_values(|k: UserId| map[k]));
        assert(leavers@.unref() == kept_keys(next, map, keep_leaver).map_values(
            |k: UserId| map[k],
        ));
        i = i + 1;
    }
    proof {
        assert(ids@.take(ids@.len() as int) == ids@);
        kept_keys_are_kept(ids@, map, keep_retry);
        kept_keys_are_kept(ids@, map, keep_leaver);
    }
    (retry, leavers)
}

/// Refuse a sync that would disable every previously stored account.
pub fn would_disable_all_users(old_users: &UserMap, leavers: &Vec<&User>) -> (r: bool)
    ensures
        r == (leavers@.len() > 0 && leavers@.len() == old_users@.len()),
{
    leavers.len() != 0 && leavers.len() == old_users.len()
}

/// The store with each of the users as an active one.
pub open spec fn with_users(s: StoreView, list: Seq<User>) -> StoreView
    decreases list.len(),
{
    if list.len() == 0 {
        s
    } else {
        let rest = with_users(s, list.drop_last());
        StoreView { users: rest.users.insert(list.last().id, list.last()), ..rest }
    }
}

/// The store with each user that was processed as an active one. A member whose processing failed
/// has no user.
pub open spec fn with_processed(s: StoreView, list: Seq<Option<User>>) -> StoreView
    decreases list.len(),
{
    if list.len() == 0 {
        s
    } else {
        let rest = with_processed(s, list.drop_last());
        match list.last() {
            Some(user) => StoreView { users: rest.users.insert(user.id, user), ..rest },
            None => rest,
        }
    }
}

/// Collect the members that were processed into a new store. Successful processing drops the
/// departure records of a rejoining member.
pub fn collect_processed(old: &UserStore, processed: Vec<Option<User>>) -> (r: UserStore)
    ensures
        r@ == crate::store::without_rejoined(
            with_processed(StoreView { users: Map::empty(), ..old@ }, processed@),
        ),
{
    let mut r = old.successor();
    let ghost start = r@;
    let mut i: usize = 0;
    while i < processed.len()
        invariant
            i <= processed@.len(),
            r@ == with_processed(start, processed@.take(i as int)),
        decreases processed@.len() - i,
    {
        broadcast use vstd::std_specs::hash::group_hash_axioms;

        let ghost before = r@;
        assert(processed@.take(i + 1).drop_last() == processed@.take(i as int));
        if let Some(user) = &processed[i] {
            r.data_mut().insert(user.id, user.clone());
            assert(r@ =~= StoreView { users: before.users.insert(user.id, *user), ..before });
        }
        i = i + 1;
    }
    assert(processed@.take(processed@.len() as int) == processed@);
    r.prune_rejoined();
    r
}

/// Makes each of the users an active one.
fn keep_users(store: &mut UserStore, list: &Vec<&User>)
    ensures
        final(store)@ == with_users(old(store)@, list@.unref()),
{
    let ghost all = list@.unref();
    let mut i: usize = 0;
    while i < list.len()
        invariant
            i <= list@.len(),
            all == list@.unref(),
            store@ == with_users(old(store)@, all.take(i as int)),
        decreases list@.len() - i,
    {
        broadcast use vstd::std_specs::hash::group_hash_axioms;

        let ghost before = store@;
        let user = list[i];
        proof {
            assert(all.take(i + 1).drop_last() == all.take(i as int));
            assert(all[i as int] == *user);
        }
        store.data_mut().insert(user.id, user.clone());
        assert(store@ =~= StoreView { users: before.users.insert(user.id, *user), ..before });
        i = i + 1;
    }
    assert(all.take(all.len() as int) == all);
}

/// What processing the members comes to.
pub struct Settlement {
    /// The store to go on with.
    pub store: UserStore,
    /// The users who have left.
    pub leavers: Vec<User>,
    /// Whether nobody is to be disabled, because every stored user would be.
    pub refused: bool,
}

/// Whether a store and leavers are what processing the members comes to.
pub open spec fn is_settled(
    store: StoreView,
    leavers: Seq<User>,
    refused: bool,
    old: StoreView,
    new: StoreView,
    members: Map<UserId, String>,
    retry: Seq<User>,
) -> bool {
    &&& lists_users(retry, old.users, |u: User| is_to_retry(u, new.users, members))
    &&& lists_users(leavers, old.users, |u: User| is_leaver(u, new.users, members))
    &&& refused == (leavers.len() > 0 && leavers.len() == old.users.len())
    &&& store == if refused {
        with_users(with_users(new, retry), leavers)
    } else {
        with_users(new, retry)
    }
}

/// Keep members whose processing failed for a retry, and find out who has left. Where every stored
/// user would be disabled, all of them are kept.
pub fn settle(old: &UserStore, new: UserStore, members: &MemberMap) -> (r: Settlement)
    ensures
        exists|retry: Seq<User>|
            #[trigger] is_settled(r.store@, r.leavers@, r.refused, old@, new@, members@, retry),
{
    let ghost before = new@;
    let mut store = new;
    let (retry, leaving) = partition_stale_users(old.data(), store.data(), members);
    keep_users(&mut store, &retry);
    let refused = would_disable_all_users(old.data(), &leaving);
    let mut leavers: Vec<User> = Vec::new();
    let mut i: usize = 0;
    while i < leaving.len()
        invariant
            i <= leaving@.len(),
            leavers@ == leaving@.unref().take(i as int),
        decreases leaving@.len() - i,
    {
        leavers.push(leaving[i].clone());
        i = i + 1;
    }
    assert(leavers@ == leaving@.unref());
    if refused {
        keep_users(&mut store, &leaving);
    }
    let r = Settlement { store, leavers, refused };
    assert(is_settled(r.store@, r.leavers@, r.refused, old@, before, members@, retry@.unref()));
    r
}

/// What is listed is kept.
proof fn lemma_listed(list: Seq<User>, map: Map<UserId, User>, keep: spec_fn(User) -> bool, i: int)
    requires
        lists_users(list, map, keep),
        0 <= i < list.len(),
    ensures
        keep(list[i]),
        exists|k: UserId| #[trigger] map.contains_key(k) && map[k] == list[i],
{
    let keys = choose|keys: Seq<UserId>|
        #![trigger are_kept_keys(keys, map, keep)]
        are_kept_keys(keys, map, keep) && list == keys.map_values(|k: UserId| map[k]);
    assert(keys.contains(keys[i]));
    assert(map.contains_key(keys[i]) && map[keys[i]] == list[i]);
}

/// A member is never taken for a leaver, and nobody else is retried.
pub proof fn members_do_not_leave(
    retry: Seq<User>,
    leavers: Seq<User>,
    old_users: Map<UserId, User>,
    new_users: Map<UserId, User>,
    members: Map<UserId, String>,
)
    requires
        lists_users(retry, old_users, |u: User| is_to_retry(u, new_users, members)),
        lists_users(leavers, old_users, |u: User| is_leaver(u, new_users, members)),
    ensures
        forall|i: int|
            0 <= i < leavers.len() ==> !members.contains_key((#[trigger] leavers[i]).id),
        forall|i: int| 0 <= i < retry.len() ==> members.contains_key((#[trigger] retry[i]).id),
{
    assert forall|i: int| 0 <= i < leavers.len() implies !members.contains_key(
        (#[trigger] leavers[i]).id,
    ) by {
        lemma_listed(leavers, old_users, |u: User| is_leaver(u, new_users, members), i);
    }
    assert forall|i: int| 0 <= i < retry.len() implies members.contains_key(
        (#[trigger] retry[i]).id,
    ) by {
        lemma_listed(retry, old_users, |u: User| is_to_retry(u, new_users, members), i);
    }
}

/// Every stored user was processed, is retried or has left, and only one of these.
pub proof fn every_stored_user_is_accounted_for(
    retry: Seq<User>,
    leavers: Seq<User>,
    old_users: Map<UserId, User>,
    new_users: Map<UserId, User>,
    members: Map<UserId, String>,
    id: UserId,
)
    requires
        lists_users(retry, old_users, |u: User| is_to_retry(u, new_users, members)),
        lists_users(leavers, old_users, |u: User| is_leaver(u, new_users, members)),
        old_users.contains_key(id),
    ensures
        new_users.contains_key(old_users[id].id) || retry.contains(old_users[id])
            || leavers.contains(old_users[id]),
        retry.contains(old_users[id]) ==> !new_users.contains_key(old_users[id].id)
            && !leavers.contains(old_users[id]),
        leavers.contains(old_users[id]) ==> !new_users.contains_key(old_users[id].id),
{
    let user = old_users[id];
    let keep_retry = |u: User| is_to_retry(u, new_users, members);
    let keep_leaver = |u: User| is_leaver(u, new_users, members);
    let a = choose|keys: Seq<UserId>|
        #![trigger are_kept_keys(keys, old_users, keep_retry)]
        are_kept_keys(keys, old_users, keep_retry) && retry == keys.map_values(
            |k: UserId| old_users[k],
        );
    let b = choose|keys: Seq<UserId>|
        #![trigger are_kept_keys(keys, old_users, keep_leaver)]
        are_kept_keys(keys, old_users, keep_leaver) && leavers == keys.map_values(
            |k: UserId| old_users[k],
        );
    if is_to_retry(user, new_users, members) {
        assert(a.contains(id));
        assert(retry[a.index_of(id)] == user);
    }
    if is_leaver(user, new_users, members) {
        assert(b.contains(id));
        assert(leavers[b.index_of(id)] == user);
    }
    if retry.contains(user) {
        lemma_listed(retry, old_users, keep_retry, retry.index_of(user));
    }
    if leavers.contains(user) {
        lemma_listed(leavers, old_users, keep_leaver, leavers.index_of(user));
    }
}

/// Once a member list holds one of the stored users, the sync cannot come to disable all of them.
pub proof fn trusted_list_disables_not_everyone(
    leavers: Seq<User>,
    old_users: Map<UserId, User>,
    new_users: Map<UserId, User>,
    members: Map<UserId, String>,
)
    requires
        old_users.dom().finite(),
        forall|id: UserId| #[trigger] old_users.contains_key(id) ==> old_users[id].id == id,
        !no_stored_user_is_member(old_users, members),
        lists_users(leavers, old_users, |u: User| is_leaver(u, new_users, members)),
    ensures
        leavers.len() == 0 || leavers.len() < old_users.len(),
{
    let keep = |u: User| is_leaver(u, new_users, members);
    let keys = choose|keys: Seq<UserId>|
        #![trigger are_kept_keys(keys, old_users, keep)]
        are_kept_keys(keys, old_users, keep) && leavers == keys.map_values(
            |k: UserId| old_users[k],
        );
    if leavers.len() > 0 {
        assert(keys.contains(keys[0]));
        assert(old_users.dom().contains(keys[0]));
        if old_users.len() == 0 {
            assert(old_users.dom() =~= Set::empty());
        }
        let id = choose|id: UserId| old_users.contains_key(id) && members.contains_key(id);
        assert(old_users.contains_key(id) && members.contains_key(id));
        keys.unique_seq_to_set();
        assert forall|k: UserId| keys.to_set().contains(k) implies old_users.dom().contains(k) by {
            assert(keys.contains(k));
        }
        assert(!keys.contains(id)) by {
            assert(!keep(old_users[id]));
        }
        keys.to_set().lemma_subset_not_in_lt(old_users.dom(), id);
    }
}

/// Who is an active user once users were added.
pub proof fn lemma_with_users(s: StoreView, list: Seq<User>)
    ensures
        with_users(s, list).departed == s.departed,
        with_users(s, list).purged == s.purged,
        with_users(s, list).dry_run == s.dry_run,
        with_users(s, list).migrated_from_v1 == s.migrated_from_v1,
        forall|id: UserId| #[trigger]
            s.users.contains_key(id) ==> with_users(s, list).users.contains_key(id),
        forall|i: int|
            0 <= i < list.len() ==> with_users(s, list).users.contains_key((#[trigger] list[i]).id),
    decreases list.len(),
{
    if list.len() > 0 {
        lemma_with_users(s, list.drop_last());
        assert forall|i: int| 0 <= i < list.len() implies with_users(s, list).users.contains_key(
            (#[trigger] list[i]).id,
        ) by {
            if i < list.len() - 1 {
                assert(list.drop_last()[i] == list[i]);
            }
        }
    }
}

/// After settling, a stored user is still active unless they have left, and nobody has left if
/// the sync was refused. Tombstones do not change.
pub proof fn settling_drops_leavers_only(
    store: StoreView,
    leavers: Seq<User>,
    refused: bool,
    old: StoreView,
    new: StoreView,
    members: Map<UserId, String>,
    retry: Seq<User>,
    id: UserId,
)
    requires
        is_settled(store, leavers, refused, old, new, members, retry),
        old.users.contains_key(id),
        old.users[id].id == id,
    ensures
        store.users.contains_key(id) || leavers.contains(old.users[id]) && !refused,
        store.departed == new.departed,
        store.purged == new.purged,
{
    every_stored_user_is_accounted_for(retry, leavers, old.users, new.users, members, id);
    lemma_with_users(new, retry);
    lemma_with_users(with_users(new, retry), leavers);
    let user = old.users[id];
    if retry.contains(user) {
        assert(retry[retry.index_of(user)] == user);
        assert(with_users(new, retry).users.contains_key(id));
    }
    if leavers.contains(user) {
        assert(leavers[leavers.index_of(user)] == user);
    }
}

/// An ID is one of a member if and only if somebody in the fetched list has it, however long the
/// list is. The login is that of the last one in the list who has the ID.
pub proof fn everybody_in_the_list_is_a_member(users: &Vec<GitHubUser>, map: MemberMap, id: UserId)
    requires
        call_ensures(member_map, (users,), map),
    ensures
        map@.contains_key(id) <==> exists|i: int|
            0 <= i < users@.len() && (#[trigger] users@[i]).id == id,
        forall|i: int|
            0 <= i < users@.len() && (#[trigger] users@[i]).id == id && (forall|j: int|
                i < j < users@.len() ==> (#[trigger] users@[j]).id != id) ==> map@[id]
                == users@[i].login,
{
    lemma_member_ids(users@, id);
    assert forall|i: int|
        0 <= i < users@.len() && (#[trigger] users@[i]).id == id && (forall|j: int|
            i < j < users@.len() ==> (#[trigger] users@[j]).id != id) implies map@[id]
        == users@[i].login by {
        lemma_last_login(users@, i);
    }
}

/// Who is a member.
proof fn lemma_member_ids(users: Seq<GitHubUser>, id: UserId)
    ensures
        members_by_id(users).contains_key(id) <==> exists|i: int|
            0 <= i < users.len() && (#[trigger] users[i]).id == id,
    decreases users.len(),
{
    if users.len() > 0 {
        let rest = users.drop_last();
        lemma_member_ids(rest, id);
        if members_by_id(rest).contains_key(id) {
            let i = choose|i: int| 0 <= i < rest.len() && (#[trigger] rest[i]).id == id;
            assert(users[i].id == id);
        }
        assert(users[users.len() - 1] == users.last());
        if exists|i: int| 0 <= i < users.len() && (#[trigger] users[i]).id == id {
            let i = choose|i: int| 0 <= i < users.len() && (#[trigger] users[i]).id == id;
            if i < users.len() - 1 {
                assert(rest[i].id == id);
            }
        }
    }
}

/// The last of those with an ID gives the login.
proof fn lemma_last_login(users: Seq<GitHubUser>, i: int)
    requires
        0 <= i < users.len(),
        forall|j: int| i < j < users.len() ==> (#[trigger] users[j]).id != users[i].id,
    ensures
        members_by_id(users)[users[i].id] == users[i].login,
    decreases users.len(),
{
    let rest = users.drop_last();
    if i < users.len() - 1 {
        assert(users[users.len() - 1].id != users[i].id);
        assert forall|j: int| i < j < rest.len() implies (#[trigger] rest[j]).id != rest[i].id by {
            assert(users[j].id != users[i].id);
        }
        lemma_last_login(rest, i);
    }
}

/// A fetched list is not trusted if and only if somebody is stored and none of them is in it.
pub proof fn list_without_stored_users_is_not_trusted(
    stored: &UserMap,
    members: &MemberMap,
    r: bool,
)
    requires
        call_ensures(membership_has_no_stored_users, (stored, members), r),
    ensures
        r <==> (exists|id: UserId| #[trigger] stored@.contains_key(id)) && (forall|id: UserId|
         #[trigger]
            stored@.contains_key(id) ==> !members@.contains_key(id)),
{
    broadcast use vstd::std_specs::hash::group_hash_axioms;

    if exists|id: UserId| #[trigger] stored@.contains_key(id) {
        let id = choose|id: UserId| #[trigger] stored@.contains_key(id);
        assert(stored@.dom().contains(id));
        if stored@.len() == 0 {
            assert(stored@.dom() =~= Set::empty());
        }
    } else {
        assert(stored@.dom() =~= Set::empty());
    }
}

/// All users would be disabled if and only if somebody would be, and as many as are stored.
pub proof fn disabling_everybody_is_noticed(old_users: &UserMap, leavers: &Vec<&User>, r: bool)
    requires
        call_ensures(would_disable_all_users, (old_users, leavers), r),
    ensures
        r <==> leavers@.len() > 0 && leavers@.len() == old_users@.dom().len(),
{
}

/// Of the stored users that were not processed, the members are retried and the others have left.
/// Each is in one of the lists, once.
pub proof fn stale_users_are_retried_or_have_left(
    old_users: &UserMap,
    new_users: &UserMap,
    members: &MemberMap,
    r: (Vec<&User>, Vec<&User>),
    id: UserId,
)
    requires
        call_ensures(partition_stale_users, (old_users, new_users, members), r),
        forall|k: UserId| #[trigger] old_users@.contains_key(k) ==> old_users@[k].id == k,
    ensures
        (exists|i: int| 0 <= i < r.0@.len() && (#[trigger] r.0@[i]).id == id) <==> {
            &&& old_users@.contains_key(id)
            &&& !new_users@.contains_key(id)
            &&& members@.contains_key(id)
        },
        (exists|i: int| 0 <= i < r.1@.len() && (#[trigger] r.1@[i]).id == id) <==> {
            &&& old_users@.contains_key(id)
            &&& !new_users@.contains_key(id)
            &&& !members@.contains_key(id)
        },
        forall|i: int|
            0 <= i < r.0@.len() && (#[trigger] r.0@[i]).id == id ==> *r.0@[i] == old_users@[id],
        forall|i: int|
            0 <= i < r.1@.len() && (#[trigger] r.1@[i]).id == id ==> *r.1@[i] == old_users@[id],
        forall|i: int, j: int|
            0 <= i < j < r.0@.len() ==> (#[trigger] r.0@[i]).id != (#[trigger] r.0@[j]).id,
        forall|i: int, j: int|
            0 <= i < j < r.1@.len() ==> (#[trigger] r.1@[i]).id != (#[trigger] r.1@[j]).id,
{
    let a = r.0@.unref();
    let b = r.1@.unref();
    lemma_listed_users(a, old_users@, |u: User| is_to_retry(u, new_users@, members@), id);
    lemma_listed_users(b, old_users@, |u: User| is_leaver(u, new_users@, members@), id);
    assert forall|i: int| 0 <= i < r.0@.len() implies *(#[trigger] r.0@[i]) == a[i] by {}
    assert forall|i: int| 0 <= i < r.1@.len() implies *(#[trigger] r.1@[i]) == b[i] by {}
    if exists|i: int| 0 <= i < a.len() && (#[trigger] a[i]).id == id {
        let i = choose|i: int| 0 <= i < a.len() && (#[trigger] a[i]).id == id;
        assert(r.0@[i].id == id);
    }
    if exists|i: int| 0 <= i < b.len() && (#[trigger] b[i]).id == id {
        let i = choose|i: int| 0 <= i < b.len() && (#[trigger] b[i]).id == id;
        assert(r.1@[i].id == id);
    }
}

/// Who is in a list of the users that are kept, where records stand under their own IDs.
pub proof fn lemma_listed_users(
    list: Seq<User>,
    map: Map<UserId, User>,
    keep: spec_fn(User) -> bool,
    id: UserId,
)
    requires
        lists_users(list, map, keep),
        forall|k: UserId| #[trigger] map.contains_key(k) ==> map[k].id == k,
    ensures
        (exists|i: int| 0 <= i < list.len() && (#[trigger] list[i]).id == id) <==> map.contains_key(
            id,
        ) && keep(map[id]),
        forall|i: int| 0 <= i < list.len() ==> map.contains_key((#[trigger] list[i]).id)
            && list[i] == map[list[i].id],
        forall|i: int, j: int|
            0 <= i < j < list.len() ==> (#[trigger] list[i]).id != (#[trigger] list[j]).id,
{
    let keys = choose|keys: Seq<UserId>|
        #![trigger are_kept_keys(keys, map, keep)]
        are_kept_keys(keys, map, keep) && list == keys.map_values(|k: UserId| map[k]);
    assert forall|i: int| 0 <= i < list.len() implies (#[trigger] list[i]).id == keys[i]
        && map.contains_key(keys[i]) && list[i] == map[keys[i]] && keep(list[i]) by {
        assert(keys.contains(keys[i]));
    }
    if map.contains_key(id) && keep(map[id]) {
        assert(keys.contains(id));
        let i = keys.index_of(id);
        assert(list[i].id == id);
    }
}

/// After processing, a user is active if and only if somebody with that ID was processed, with the
/// account that processing the last of them gave. A departure or purge record stays unless its
/// owner was processed.
pub proof fn processed_members_are_active(
    old: &UserStore,
    processed: Vec<Option<User>>,
    r: UserStore,
    id: UserId,
)
    requires
        call_ensures(collect_processed, (old, processed), r),
    ensures
        r@.users.contains_key(id) <==> exists|i: int|
            0 <= i < processed@.len() && (#[trigger] processed@[i]) is Some && processed@[i]->0.id
                == id,
        forall|i: int|
            0 <= i < processed@.len() && (#[trigger] processed@[i]) is Some && processed@[i]->0.id
                == id && (forall|j: int|
                i < j < processed@.len() && (#[trigger] processed@[j]) is Some
                    ==> processed@[j]->0.id != id) ==> r@.users[id] == processed@[i]->0,
        r@.departed.contains_key(id) <==> old@.departed.contains_key(id) && !r@.users.contains_key(
            id,
        ),
        r@.departed.contains_key(id) ==> r@.departed[id] == old@.departed[id],
        r@.purged.contains_key(id) <==> old@.purged.contains_key(id) && !r@.users.contains_key(id),
        r@.purged.contains_key(id) ==> r@.purged[id] == old@.purged[id],
        r@.dry_run == old@.dry_run,
        r@.migrated_from_v1 == old@.migrated_from_v1,
{
    let start = StoreView { users: Map::empty(), ..old@ };
    lemma_processed_ids(start, processed@, id);
    assert forall|i: int|
        0 <= i < processed@.len() && (#[trigger] processed@[i]) is Some && processed@[i]->0.id == id
            && (forall|j: int|
            i < j < processed@.len() && (#[trigger] processed@[j]) is Some ==> processed@[j]->0.id
                != id) implies r@.users[id] == processed@[i]->0 by {
        lemma_last_processed(start, processed@, i);
    }
}

/// Who is active once the members were processed.
pub proof fn lemma_processed_ids(s: StoreView, list: Seq<Option<User>>, id: UserId)
    requires
        s.users == Map::<UserId, User>::empty(),
    ensures
        with_processed(s, list).users.contains_key(id) <==> exists|i: int|
            0 <= i < list.len() && (#[trigger] list[i]) is Some && list[i]->0.id == id,
        with_processed(s, list).departed == s.departed,
        with_processed(s, list).purged == s.purged,
        with_processed(s, list).dry_run == s.dry_run,
        with_processed(s, list).migrated_from_v1 == s.migrated_from_v1,
    decreases list.len(),
{
    if list.len() > 0 {
        let rest = list.drop_last();
        lemma_processed_ids(s, rest, id);
        if with_processed(s, rest).users.contains_key(id) {
            let i = choose|i: int|
                0 <= i < rest.len() && (#[trigger] rest[i]) is Some && rest[i]->0.id == id;
            assert(list[i] == rest[i]);
        }
        assert(list[list.len() - 1] == list.last());
        if exists|i: int| 0 <= i < list.len() && (#[trigger] list[i]) is Some && list[i]->0.id == id {
            let i = choose|i: int|
                0 <= i < list.len() && (#[trigger] list[i]) is Some && list[i]->0.id == id;
            if i < list.len() - 1 {
                assert(rest[i] == list[i]);
            }
        }
    }
}

/// The last of those who were processed with an ID gives the account.
pub proof fn lemma_last_processed(s: StoreView, list: Seq<Option<User>>, i: int)
    requires
        0 <= i < list.len(),
        list[i] is Some,
        forall|j: int|
            i < j < list.len() && (#[trigger] list[j]) is Some ==> list[j]->0.id != list[i]->0.id,
    ensures
        with_processed(s, list).users[list[i]->0.id] == list[i]->0,
    decreases list.len(),
{
    let rest = list.drop_last();
    if i < list.len() - 1 {
        assert(list[list.len() - 1] is Some ==> list[list.len() - 1]->0.id != list[i]->0.id);
        assert forall|j: int| i < j < rest.len() && (#[trigger] rest[j]) is Some implies rest[j]->0.id
            != rest[i]->0.id by {
            assert(list[j] == rest[j]);
        }
        lemma_last_processed(s, rest, i);
    }
}

/// Settling takes for leavers exactly the stored users who were neither processed nor are members,
/// and keeps all other stored users active. A member whose processing failed keeps their record.
/// Only where every stored user would leave, nobody does.
pub proof fn settling_goes_by_the_member_list(
    old: &UserStore,
    new: UserStore,
    members: &MemberMap,
    r: Settlement,
    id: UserId,
)
    requires
        call_ensures(settle, (old, new, members), r),
        forall|k: UserId| #[trigger] old@.users.contains_key(k) ==> old@.users[k].id == k,
    ensures
        (exists|i: int| 0 <= i < r.leavers@.len() && (#[trigger] r.leavers@[i]).id == id) <==> {
            &&& old@.users.contains_key(id)
            &&& !new@.users.contains_key(id)
            &&& !members@.contains_key(id)
        },
        forall|i: int|
            0 <= i < r.leavers@.len() && (#[trigger] r.leavers@[i]).id == id ==> r.leavers@[i]
                == old@.users[id],
        r.refused <==> r.leavers@.len() > 0 && r.leavers@.len() == old@.users.dom().len(),
        r.store@.users.contains_key(id) <==> {
            ||| new@.users.contains_key(id)
            ||| old@.users.contains_key(id) && (members@.contains_key(id) || r.refused)
        },
        new@.users.contains_key(id) ==> r.store@.users[id] == new@.users[id],
        r.store@.users.contains_key(id) && !new@.users.contains_key(id) ==> r.store@.users[id]
            == old@.users[id],
        r.store@.departed == new@.departed,
        r.store@.purged == new@.purged,
        r.store@.dry_run == new@.dry_run,
        r.store@.migrated_from_v1 == new@.migrated_from_v1,
{
    let retry = choose|retry: Seq<User>|
        #[trigger] is_settled(r.store@, r.leavers@, r.refused, old@, new@, members@, retry);
    let keep_retry = |u: User| is_to_retry(u, new@.users, members@);
    let keep_leaver = |u: User| is_leaver(u, new@.users, members@);
    lemma_listed_users(retry, old@.users, keep_retry, id);
    lemma_listed_users(r.leavers@, old@.users, keep_leaver, id);
    lemma_with_users(new@, retry);
    lemma_users_of(new@, retry, id);
    let kept = with_users(new@, retry);
    lemma_with_users(kept, r.leavers@);
    lemma_users_of(kept, r.leavers@, id);
}

/// Who is active, and with which record, once different users were added.
pub proof fn lemma_users_of(s: StoreView, list: Seq<User>, id: UserId)
    ensures
        with_users(s, list).users.contains_key(id) <==> s.users.contains_key(id) || exists|i: int|
            0 <= i < list.len() && (#[trigger] list[i]).id == id,
        (forall|i: int| 0 <= i < list.len() ==> (#[trigger] list[i]).id != id)
            && s.users.contains_key(id) ==> with_users(s, list).users[id] == s.users[id],
        (exists|i: int| 0 <= i < list.len() && (#[trigger] list[i]).id == id) ==> list.contains(
            with_users(s, list).users[id],
        ) && with_users(s, list).users[id].id == id,
    decreases list.len(),
{
    if list.len() > 0 {
        let rest = list.drop_last();
        let n = list.len() - 1;
        lemma_users_of(s, rest, id);
        assert(list[n] == list.last());
        assert forall|i: int| 0 <= i < rest.len() implies #[trigger] rest[i] == list[i] by {}
        if exists|i: int| 0 <= i < rest.len() && (#[trigger] rest[i]).id == id {
            let i = choose|i: int| 0 <= i < rest.len() && (#[trigger] rest[i]).id == id;
            assert(list[i].id == id);
            let user = with_users(s, rest).users[id];
            let k = rest.index_of(user);
            assert(list[k] == user);
        }
        if exists|i: int| 0 <= i < list.len() && (#[trigger] list[i]).id == id {
            let i = choose|i: int| 0 <= i < list.len() && (#[trigger] list[i]).id == id;
            if i < n {
                assert(rest[i].id == id);
            }
        }
        if forall|i: int| 0 <= i < list.len() ==> (#[trigger] list[i]).id != id {
            assert forall|i: int| 0 <= i < rest.len() implies (#[trigger] rest[i]).id != id by {
                assert(list[i].id != id);
            }
        }
    }
}

/// All users of a map are listed if and only if all are kept.
pub proof fn lemma_all_listed(list: Seq<User>, map: Map<UserId, User>, keep: spec_fn(User) -> bool)
    requires
        lists_users(list, map, keep),
        map.dom().finite(),
    ensures
        list.len() == map.dom().len() <==> (forall|k: UserId| #[trigger]
            map.contains_key(k) ==> keep(map[k])),
        list.len() > 0 ==> exists|k: UserId| #[trigger] map.contains_key(k),
{
    let keys = choose|keys: Seq<UserId>|
        #![trigger are_kept_keys(keys, map, keep)]
        are_kept_keys(keys, map, keep) && list == keys.map_values(|k: UserId| map[k]);
    keys.unique_seq_to_set();
    assert(keys.to_set().subset_of(map.dom())) by {
        assert forall|k: UserId| keys.to_set().contains(k) implies map.dom().contains(k) by {
            assert(keys.contains(k));
        }
    }
    if list.len() > 0 {
        assert(keys.contains(keys[0]));
        assert(map.contains_key(keys[0]));
    }
    if forall|k: UserId| #[trigger] map.contains_key(k) ==> keep(map[k]) {
        assert(keys.to_set() =~= map.dom()) by {
            assert forall|k: UserId| map.dom().contains(k) implies keys.to_set().contains(k) by {
                assert(map.contains_key(k));
                assert(keys.contains(k));
            }
        }
    } else {
        let k = choose|k: UserId| #[trigger] map.contains_key(k) && !keep(map[k]);
        assert(!keys.contains(k));
        keys.to_set().lemma_subset_not_in_lt(map.dom(), k);
    }
}

/// Settling is refused if and only if somebody is stored, and nobody of them was processed or is a
/// member.
pub proof fn settling_is_refused_where_everybody_would_leave(
    old: &UserStore,
    new: UserStore,
    members: &MemberMap,
    r: Settlement,
)
    requires
        call_ensures(settle, (old, new, members), r),
        forall|k: UserId| #[trigger] old@.users.contains_key(k) ==> old@.users[k].id == k,
    ensures
        r.refused <==> (exists|k: UserId| #[trigger] old@.users.contains_key(k)) && (forall|
            k: UserId,
        | #[trigger]
            old@.users.contains_key(k) ==> !new@.users.contains_key(k) && !members@.contains_key(
                k,
            )),
{
    crate::store::active_users_are_finite(*old);
    let retry = choose|retry: Seq<User>|
        #[trigger] is_settled(r.store@, r.leavers@, r.refused, old@, new@, members@, retry);
    let keep = |u: User| is_leaver(u, new@.users, members@);
    lemma_all_listed(r.leavers@, old@.users, keep);
    if exists|k: UserId| #[trigger] old@.users.contains_key(k) {
        let k = choose|k: UserId| #[trigger] old@.users.contains_key(k);
        assert(old@.users.dom().contains(k));
        if old@.users.dom().len() == 0 {
            assert(old@.users.dom() =~= Set::empty());
        }
    }
}

} // verus!
