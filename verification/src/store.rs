//! The users database: active members, departed members and members whose account was purged.
use crate::calendar::Timestamp;
use crate::listing::keys_of;
use crate::text::{decimal, decimal_of};
use std::collections::HashMap;
use vstd::prelude::*;
use vstd::std_specs::convert::FromSpecImpl;

verus! {

/// Name of the users database in the data directory.
pub const USERS_FILE_NAME: &'static str = "users.json";

/// Name of the copy of a database in the first format, kept so that a rollback is possible.
pub const USERS_V1_FILE_NAME: &'static str = "users-v1.json";

/// The format that is written.
pub const STORE_VERSION: u64 = 2;

/// The key that gives a database's format. A database in the first format has none.
pub const VERSION_KEY: &'static str = "version";

/// A GitHub user ID.
pub type UserId = u64;

/// A GitHub member and their Linux account identity.
#[derive(Debug, PartialEq)]
pub struct User {
    /// GitHub user ID, used as the primary key for identifying users in the store.
    pub id: UserId,
    /// GitHub login, used for fetching user information and SSH keys from GitHub.
    pub name: String,
    /// Linux UID associated with this GitHub user.
    pub uid: u32,
    /// GID of the user's primary group. `None` for entries migrated from the first format, until
    /// the next update of the user.
    pub gid: Option<u32>,
}

impl Clone for User {
    fn clone(&self) -> (r: Self)
        ensures
            r == *self,
    {
        User { id: self.id, name: self.name.clone(), uid: self.uid, gid: self.gid }
    }
}

impl User {
    /// A member with an account.
    pub fn new(id: UserId, name: String, uid: u32, gid: Option<u32>) -> (r: Self)
        ensures
            r == (User { id, name, uid, gid }),
    {
        User { id, name, uid, gid }
    }

    /// Get the GitHub user ID.
    pub fn id(&self) -> (r: UserId)
        ensures
            r == self.id,
    {
        self.id
    }

    /// Get the login.
    pub fn name(&self) -> (r: &str)
        ensures
            r@ == self.name@,
    {
        self.name.as_str()
    }

    /// Get the Linux UID.
    pub fn uid(&self) -> (r: u32)
        ensures
            r == self.uid,
    {
        self.uid
    }

    /// Get the GID of the primary group.
    pub fn gid(&self) -> (r: Option<u32>)
        ensures
            r == self.gid,
    {
        self.gid
    }
}

/// Tombstone of a member who left the org. Their account stays on the machine expired, and the
/// tombstone keeps the IDs so a rejoining member gets their old UID and GID back.
#[derive(Debug, PartialEq)]
pub struct DepartedUser {
    /// GitHub user ID, used as the primary key for identifying users in the store.
    pub id: UserId,
    /// GitHub login at the time of departure.
    pub name: String,
    /// Linux UID the account has, reserved for a rejoin.
    pub uid: u32,
    /// GID of the primary group the account has, reserved for a rejoin. `None` when the user
    /// departed before their GID was known.
    pub gid: Option<u32>,
    /// When the member departed.
    pub departed_at: Timestamp,
    /// When the account teardown completed. `None` while it has not run or did not finish, which
    /// is what makes the sync retry it.
    pub expired_at: Option<Timestamp>,
    /// When the removal of the account was started. It is persisted before the account can
    /// disappear, and retained when the result is ambiguous.
    pub purge_started_at: Option<Timestamp>,
}

impl Clone for DepartedUser {
    fn clone(&self) -> (r: Self)
        ensures
            r == *self,
    {
        DepartedUser {
            id: self.id,
            name: self.name.clone(),
            uid: self.uid,
            gid: self.gid,
            departed_at: self.departed_at,
            expired_at: self.expired_at,
            purge_started_at: self.purge_started_at,
        }
    }
}

impl DepartedUser {
    /// Get the GitHub user ID.
    pub fn id(&self) -> (r: UserId)
        ensures
            r == self.id,
    {
        self.id
    }

    /// Get the login the user had when they departed.
    pub fn name(&self) -> (r: &str)
        ensures
            r@ == self.name@,
    {
        self.name.as_str()
    }

    /// Get the Linux UID reserved for a rejoin.
    pub fn uid(&self) -> (r: u32)
        ensures
            r == self.uid,
    {
        self.uid
    }

    /// Get the GID of the primary group reserved for a rejoin, if it is tracked.
    pub fn gid(&self) -> (r: Option<u32>)
        ensures
            r == self.gid,
    {
        self.gid
    }

    /// Get the time the member departed.
    pub fn departed_at(&self) -> (r: Timestamp)
        ensures
            r == self.departed_at,
    {
        self.departed_at
    }

    /// Get the time the account teardown completed, `None` while it still has to run.
    pub fn expired_at(&self) -> (r: Option<Timestamp>)
        ensures
            r == self.expired_at,
    {
        self.expired_at
    }

    /// Get when account removal started but was not confirmed complete.
    pub fn purge_started_at(&self) -> (r: Option<Timestamp>)
        ensures
            r == self.purge_started_at,
    {
        self.purge_started_at
    }
}

/// The account identity of a tombstone.
pub open spec fn identity_of(departed: DepartedUser) -> User {
    User { id: departed.id, name: departed.name, uid: departed.uid, gid: departed.gid }
}

impl FromSpecImpl<&DepartedUser> for User {
    open spec fn obeys_from_spec() -> bool {
        true
    }

    open spec fn from_spec(departed: &DepartedUser) -> User {
        identity_of(*departed)
    }
}

impl From<&DepartedUser> for User {
    /// Account identity of the tombstone, used to address platform operations.
    fn from(departed: &DepartedUser) -> (r: Self) {
        User { id: departed.id, name: departed.name.clone(), uid: departed.uid, gid: departed.gid }
    }
}

/// A purged member whose IDs remain reserved for a rejoin.
#[derive(Debug, PartialEq)]
pub struct PurgedUser {
    /// GitHub user ID, used as the primary key for identifying users in the store.
    pub id: UserId,
    /// GitHub login at the time of departure.
    pub name: String,
    /// Linux UID the account had, reserved for a rejoin.
    pub uid: u32,
    /// GID of the primary group the account had, reserved for a rejoin.
    pub gid: Option<u32>,
    /// When the member departed.
    pub departed_at: Timestamp,
    /// When the expired account and its home directory were purged.
    pub purged_at: Timestamp,
}

impl Clone for PurgedUser {
    fn clone(&self) -> (r: Self)
        ensures
            r == *self,
    {
        PurgedUser {
            id: self.id,
            name: self.name.clone(),
            uid: self.uid,
            gid: self.gid,
            departed_at: self.departed_at,
            purged_at: self.purged_at,
        }
    }
}

impl PurgedUser {
    /// Get the GitHub user ID.
    pub fn id(&self) -> (r: UserId)
        ensures
            r == self.id,
    {
        self.id
    }

    /// Get the login the user had when they departed.
    pub fn name(&self) -> (r: &str)
        ensures
            r@ == self.name@,
    {
        self.name.as_str()
    }

    /// Get the Linux UID reserved for a rejoin.
    pub fn uid(&self) -> (r: u32)
        ensures
            r == self.uid,
    {
        self.uid
    }

    /// Get the GID of the primary group reserved for a rejoin, if it is tracked.
    pub fn gid(&self) -> (r: Option<u32>)
        ensures
            r == self.gid,
    {
        self.gid
    }

    /// Get the time the member departed.
    pub fn departed_at(&self) -> (r: Timestamp)
        ensures
            r == self.departed_at,
    {
        self.departed_at
    }

    /// Get the time the account was purged.
    pub fn purged_at(&self) -> (r: Timestamp)
        ensures
            r == self.purged_at,
    {
        self.purged_at
    }
}

/// The tombstone that an active user leaves behind.
pub open spec fn departed_of(user: User, departed_at: Timestamp) -> DepartedUser {
    DepartedUser {
        id: user.id,
        name: user.name,
        uid: user.uid,
        gid: user.gid,
        departed_at,
        expired_at: None,
        purge_started_at: None,
    }
}

/// The tombstone that is left once the account is purged.
pub open spec fn purged_of(departed: DepartedUser, purged_at: Timestamp) -> PurgedUser {
    PurgedUser {
        id: departed.id,
        name: departed.name,
        uid: departed.uid,
        gid: departed.gid,
        departed_at: departed.departed_at,
        purged_at,
    }
}

/// Active users by their GitHub ID.
pub type UserMap = HashMap<UserId, User>;

/// Departed members by their GitHub ID.
pub type DepartedMap = HashMap<UserId, DepartedUser>;

/// Purged members by their GitHub ID.
pub type PurgedMap = HashMap<UserId, PurgedUser>;

/// A store as contracts see it.
#[verifier::ext_equal]
pub struct StoreView {
    /// Whether nothing is ever written.
    pub dry_run: bool,
    /// Active users.
    pub users: Map<UserId, User>,
    /// Departed members whose account is on the machine.
    pub departed: Map<UserId, DepartedUser>,
    /// Departed members whose account was purged.
    pub purged: Map<UserId, PurgedUser>,
    /// Whether the file on disk is in the first format and has no backup yet.
    pub migrated_from_v1: bool,
}

/// The users database in memory.
pub struct UserStore {
    dry_run: bool,
    users: UserMap,
    departed: DepartedMap,
    purged: PurgedMap,
    migrated_from_v1: bool,
}

impl View for UserStore {
    type V = StoreView;

    closed spec fn view(&self) -> StoreView {
        StoreView {
            dry_run: self.dry_run,
            users: self.users@,
            departed: self.departed@,
            purged: self.purged@,
            migrated_from_v1: self.migrated_from_v1,
        }
    }
}

/// The store without data.
pub open spec fn empty_store(dry_run: bool) -> StoreView {
    StoreView {
        dry_run,
        users: Map::empty(),
        departed: Map::empty(),
        purged: Map::empty(),
        migrated_from_v1: false,
    }
}

/// The store after a user departed.
pub open spec fn with_departure(s: StoreView, user: User, departed_at: Timestamp) -> StoreView {
    StoreView {
        users: s.users.remove(user.id),
        departed: s.departed.insert(user.id, departed_of(user, departed_at)),
        ..s
    }
}

/// The store with another tombstone for a departed member, if there is one already.
pub open spec fn with_tombstone(s: StoreView, id: UserId, departed: DepartedUser) -> StoreView {
    if s.departed.contains_key(id) {
        StoreView { departed: s.departed.insert(id, departed), ..s }
    } else {
        s
    }
}

/// The store after an account teardown completed.
pub open spec fn with_expiry(s: StoreView, id: UserId, at: Timestamp) -> StoreView {
    with_tombstone(s, id, DepartedUser { expired_at: Some(at), ..s.departed[id] })
}

/// The store with another removal marker for a departed member.
pub open spec fn with_marker(s: StoreView, id: UserId, at: Option<Timestamp>) -> StoreView {
    with_tombstone(s, id, DepartedUser { purge_started_at: at, ..s.departed[id] })
}

/// The store after the account of a departed member was purged.
pub open spec fn with_purge(s: StoreView, id: UserId, at: Timestamp) -> StoreView {
    if s.departed.contains_key(id) {
        StoreView {
            departed: s.departed.remove(id),
            purged: s.purged.insert(s.departed[id].id, purged_of(s.departed[id], at)),
            ..s
        }
    } else {
        s
    }
}

/// The store without tombstones of active users.
pub open spec fn without_rejoined(s: StoreView) -> StoreView {
    StoreView {
        departed: s.departed.remove_keys(s.users.dom()),
        purged: s.purged.remove_keys(s.users.dom()),
        ..s
    }
}

/// What saving a store comes to.
#[derive(Debug, Clone, Copy, PartialEq, Eq, Structural)]
pub enum SaveAction {
    /// Write nothing.
    Skip,
    /// Write the database. With `backup_first`, the file on disk is copied before, while it is
    /// still in the first format.
    Write { backup_first: bool },
}

impl UserStore {
    /// Create an empty store without loading data.
    pub fn new(dry_run: bool) -> (r: Self)
        ensures
            r@ == empty_store(dry_run),
    {
        UserStore {
            dry_run,
            users: HashMap::new(),
            departed: HashMap::new(),
            purged: HashMap::new(),
            migrated_from_v1: false,
        }
    }

    /// The store that takes the place of this one, without its active users. The tombstones and an
    /// outstanding backup carry over.
    pub fn successor(&self) -> (r: Self)
        ensures
            r@ == (StoreView { users: Map::empty(), ..self@ }),
    {
        UserStore {
            dry_run: self.dry_run,
            users: HashMap::new(),
            departed: self.departed.clone(),
            purged: self.purged.clone(),
            migrated_from_v1: self.migrated_from_v1,
        }
    }

    /// Whether nothing is ever written.
    pub fn dry_run(&self) -> (r: bool)
        ensures
            r == self@.dry_run,
    {
        self.dry_run
    }

    /// The active users.
    pub fn data(&self) -> (r: &UserMap)
        ensures
            r@ == self@.users,
    {
        &self.users
    }

    /// The active users, to be changed.
    pub fn data_mut(&mut self) -> (r: &mut UserMap)
        ensures
            r@ == old(self)@.users,
            final(self)@ == (StoreView { users: final(r)@, ..old(self)@ }),
    {
        &mut self.users
    }

    /// The departed members whose account is on the machine.
    pub fn departed(&self) -> (r: &DepartedMap)
        ensures
            r@ == self@.departed,
    {
        &self.departed
    }

    /// The departed members, to be changed.
    pub fn departed_mut(&mut self) -> (r: &mut DepartedMap)
        ensures
            r@ == old(self)@.departed,
            final(self)@ == (StoreView { departed: final(r)@, ..old(self)@ }),
    {
        &mut self.departed
    }

    /// The departed members whose account was purged.
    pub fn purged(&self) -> (r: &PurgedMap)
        ensures
            r@ == self@.purged,
    {
        &self.purged
    }

    /// The purged members, to be changed.
    pub fn purged_mut(&mut self) -> (r: &mut PurgedMap)
        ensures
            r@ == old(self)@.purged,
            final(self)@ == (StoreView { purged: final(r)@, ..old(self)@ }),
    {
        &mut self.purged
    }

    /// Turn a user into a departed tombstone, keeping their IDs for a later rejoin.
    pub fn depart_user(&mut self, user: User, departed_at: Timestamp)
        ensures
            final(self)@ == with_departure(old(self)@, user, departed_at),
    {
        broadcast use vstd::std_specs::hash::group_hash_axioms;

        self.users.remove(&user.id);
        let id = user.id;
        self.departed.insert(
            id,
            DepartedUser {
                id,
                name: user.name,
                uid: user.uid,
                gid: user.gid,
                departed_at,
                expired_at: None,
                purge_started_at: None,
            },
        );
    }

    /// Mark a departed user's account teardown as complete.
    pub fn mark_expired(&mut self, id: &UserId, expired_at: Timestamp)
        ensures
            final(self)@ == with_expiry(old(self)@, *id, expired_at),
    {
        broadcast use vstd::std_specs::hash::group_hash_axioms;

        if let Some(mut departed) = self.departed.remove(id) {
            departed.expired_at = Some(expired_at);
            self.departed.insert(*id, departed);
        }
        assert(self@ =~= with_expiry(old(self)@, *id, expired_at));
    }

    /// Record that account removal is about to start.
    pub fn mark_purge_started(&mut self, id: &UserId, started_at: Timestamp)
        ensures
            final(self)@ == with_marker(old(self)@, *id, Some(started_at)),
    {
        self.set_marker(id, Some(started_at));
    }

    /// Clear the removal marker after confirming that no destructive operation ran.
    pub fn clear_purge_started(&mut self, id: &UserId)
        ensures
            final(self)@ == with_marker(old(self)@, *id, None),
    {
        self.set_marker(id, None);
    }

    /// Set or clear the removal marker of a departed member.
    fn set_marker(&mut self, id: &UserId, at: Option<Timestamp>)
        ensures
            final(self)@ == with_marker(old(self)@, *id, at),
    {
        broadcast use vstd::std_specs::hash::group_hash_axioms;

        if let Some(mut departed) = self.departed.remove(id) {
            departed.purge_started_at = at;
            self.departed.insert(*id, departed);
        }
        assert(self@ =~= with_marker(old(self)@, *id, at));
    }

    /// Move a departed tombstone to the purged members.
    pub fn mark_purged(&mut self, id: &UserId, purged_at: Timestamp)
        ensures
            final(self)@ == with_purge(old(self)@, *id, purged_at),
    {
        broadcast use vstd::std_specs::hash::group_hash_axioms;

        if let Some(departed) = self.departed.remove(id) {
            let key = departed.id;
            self.purged.insert(
                key,
                PurgedUser {
                    id: key,
                    name: departed.name,
                    uid: departed.uid,
                    gid: departed.gid,
                    departed_at: departed.departed_at,
                    purged_at,
                },
            );
        }
        assert(self@ =~= with_purge(old(self)@, *id, purged_at));
    }

    /// Drop tombstones for active users.
    pub fn prune_rejoined(&mut self)
        ensures
            final(self)@ == without_rejoined(old(self)@),
    {
        broadcast use vstd::std_specs::hash::group_hash_axioms;

        let ghost before = self@;
        let ids = keys_of(&self.users);
        let mut i: usize = 0;
        assert(self@.departed =~= before.departed.remove_keys(ids@.take(0).to_set()));
        assert(self@.purged =~= before.purged.remove_keys(ids@.take(0).to_set()));
        while i < ids.len()
            invariant
                i <= ids@.len(),
                before == old(self)@,
                self@.users == before.users,
                self@.dry_run == before.dry_run,
                self@.migrated_from_v1 == before.migrated_from_v1,
                self@.departed == before.departed.remove_keys(ids@.take(i as int).to_set()),
                self@.purged == before.purged.remove_keys(ids@.take(i as int).to_set()),
            decreases ids@.len() - i,
        {
            self.departed.remove(&ids[i]);
            self.purged.remove(&ids[i]);
            proof {
                let seen = ids@.take(i as int);
                let next = ids@.take(i + 1);
                assert(next == seen.push(ids@[i as int]));
                assert forall|k: UserId| next.to_set().contains(k) == (seen.to_set().contains(k) || k
                    == ids@[i as int]) by {
                    if seen.contains(k) {
                        assert(next[seen.index_of(k)] == k);
                    }
                    assert(next[i as int] == ids@[i as int]);
                    if next.contains(k) && k != ids@[i as int] {
                        assert(seen[next.index_of(k)] == k);
                    }
                }
                assert(self@.departed =~= before.departed.remove_keys(next.to_set()));
                assert(self@.purged =~= before.purged.remove_keys(next.to_set()));
            }
            i = i + 1;
        }
        assert(ids@.take(ids@.len() as int) == ids@);
        assert(self@ =~= without_rejoined(before));
    }

    /// Take over a database in the first format, which holds active users only. Its backup is
    /// outstanding from now on.
    pub fn install_v1(&mut self, users: UserMap)
        ensures
            final(self)@ == (StoreView {
                dry_run: old(self)@.dry_run,
                users: users@,
                departed: Map::empty(),
                purged: Map::empty(),
                migrated_from_v1: true,
            }),
    {
        self.users = users;
        self.departed = HashMap::new();
        self.purged = HashMap::new();
        self.migrated_from_v1 = true;
    }

    /// Take over a database in the current format.
    pub fn install_v2(&mut self, users: UserMap, departed: DepartedMap, purged: PurgedMap)
        ensures
            final(self)@ == (StoreView {
                users: users@,
                departed: departed@,
                purged: purged@,
                ..old(self)@
            }),
    {
        self.users = users;
        self.departed = departed;
        self.purged = purged;
    }

    /// What saving the store comes to. After a database in the first format was loaded, every save
    /// makes a backup until one has succeeded.
    pub fn begin_save(&self) -> (r: SaveAction)
        ensures
            r == save_action(self@),
    {
        if self.dry_run {
            SaveAction::Skip
        } else {
            SaveAction::Write { backup_first: self.migrated_from_v1 }
        }
    }

    /// Takes note that the backup of the file in the first format was made.
    pub fn backed_up(&mut self)
        ensures
            final(self)@ == with_backup(old(self)@),
    {
        self.migrated_from_v1 = false;
    }
}

/// Whether every record stands under its own GitHub ID.
pub open spec fn keyed(s: StoreView) -> bool {
    &&& forall|id: UserId| #[trigger] s.users.contains_key(id) ==> s.users[id].id == id
    &&& forall|id: UserId| #[trigger] s.departed.contains_key(id) ==> s.departed[id].id == id
    &&& forall|id: UserId| #[trigger] s.purged.contains_key(id) ==> s.purged[id].id == id
}

/// The UID and GID that the store has for a member, be they active, departed or purged.
pub open spec fn ids_for(s: StoreView, id: UserId) -> Option<(u32, Option<u32>)> {
    if s.users.contains_key(id) {
        Some((s.users[id].uid, s.users[id].gid))
    } else if s.departed.contains_key(id) {
        Some((s.departed[id].uid, s.departed[id].gid))
    } else if s.purged.contains_key(id) {
        Some((s.purged[id].uid, s.purged[id].gid))
    } else {
        None
    }
}

/// A departure keeps the whole account identity, so that it can be restored.
pub proof fn departure_keeps_the_identity(user: User, departed_at: Timestamp)
    ensures
        identity_of(departed_of(user, departed_at)) == user,
{
}

/// The UID and GID of a member survive their departure, the teardown and the purge of their
/// account. Nobody else's change on the way.
pub proof fn ids_survive(s: StoreView, id: UserId, at: Timestamp, marker: Option<Timestamp>, other: UserId)
    requires
        keyed(s),
    ensures
        s.users.contains_key(id) ==> ids_for(with_departure(s, s.users[id], at), other) == ids_for(
            s,
            other,
        ),
        ids_for(with_expiry(s, id, at), other) == ids_for(s, other),
        ids_for(with_marker(s, id, marker), other) == ids_for(s, other),
        ids_for(with_purge(s, id, at), other) == ids_for(s, other),
        ids_for(without_rejoined(s), other) == ids_for(s, other),
{
}

/// Every change keeps the records under their own IDs.
pub proof fn records_stay_keyed(
    s: StoreView,
    user: User,
    id: UserId,
    at: Timestamp,
    marker: Option<Timestamp>,
)
    requires
        keyed(s),
    ensures
        keyed(with_departure(s, user, at)),
        keyed(with_expiry(s, id, at)),
        keyed(with_marker(s, id, marker)),
        keyed(with_purge(s, id, at)),
        keyed(without_rejoined(s)),
{
}

/// Once the rejoined are pruned, no active user has a tombstone.
pub proof fn active_users_have_no_tombstone(s: StoreView, id: UserId)
    requires
        s.users.contains_key(id),
    ensures
        !without_rejoined(s).departed.contains_key(id),
        !without_rejoined(s).purged.contains_key(id),
{
}

/// What saving a store comes to.
pub open spec fn save_action(s: StoreView) -> SaveAction {
    if s.dry_run {
        SaveAction::Skip
    } else {
        SaveAction::Write { backup_first: s.migrated_from_v1 }
    }
}

/// The store once the backup of the file in the first format was made.
pub open spec fn with_backup(s: StoreView) -> StoreView {
    StoreView { migrated_from_v1: false, ..s }
}

/// What changes a store once it is loaded.
pub enum StoreEvent {
    /// The active users are replaced.
    Users(Map<UserId, User>),
    /// The departed members are replaced.
    Departed(Map<UserId, DepartedUser>),
    /// The purged members are replaced.
    Purged(Map<UserId, PurgedUser>),
    /// A user departs.
    Departure(User, Timestamp),
    /// An account teardown completes.
    Expiry(UserId, Timestamp),
    /// A removal marker is set or cleared.
    Marker(UserId, Option<Timestamp>),
    /// The account of a departed member is purged.
    Purge(UserId, Timestamp),
    /// The tombstones of active users are dropped.
    Pruning,
    /// The store that takes the place of this one is used instead.
    Succession,
    /// The backup of the file in the first format was made.
    Backup,
}

/// The store after an event.
pub open spec fn store_after(s: StoreView, event: StoreEvent) -> StoreView {
    match event {
        StoreEvent::Users(users) => StoreView { users, ..s },
        StoreEvent::Departed(departed) => StoreView { departed, ..s },
        StoreEvent::Purged(purged) => StoreView { purged, ..s },
        StoreEvent::Departure(user, at) => with_departure(s, user, at),
        StoreEvent::Expiry(id, at) => with_expiry(s, id, at),
        StoreEvent::Marker(id, at) => with_marker(s, id, at),
        StoreEvent::Purge(id, at) => with_purge(s, id, at),
        StoreEvent::Pruning => without_rejoined(s),
        StoreEvent::Succession => StoreView { users: Map::empty(), ..s },
        StoreEvent::Backup => with_backup(s),
    }
}

/// The store after events, in their order.
pub open spec fn store_after_all(s: StoreView, events: Seq<StoreEvent>) -> StoreView
    decreases events.len(),
{
    if events.len() == 0 {
        s
    } else {
        store_after(store_after_all(s, events.drop_last()), events.last())
    }
}

/// Whether one of the events is a backup.
pub open spec fn was_backed_up(events: Seq<StoreEvent>) -> bool {
    exists|i: int| 0 <= i < events.len() && (#[trigger] events[i]) is Backup
}

/// However the store changes, each save makes a backup if a database in the first format was
/// loaded and no backup of it was made so far, and only then. A save whose backup failed does not
/// count, nor does one that was begun only.
pub proof fn backup_is_made_once(s: StoreView, events: Seq<StoreEvent>)
    requires
        !s.dry_run,
    ensures
        save_action(store_after_all(s, events)) == (SaveAction::Write {
            backup_first: s.migrated_from_v1 && !was_backed_up(events),
        }),
    decreases events.len(),
{
    if events.len() > 0 {
        let rest = events.drop_last();
        backup_is_made_once(s, rest);
        if was_backed_up(rest) {
            let i = choose|i: int| 0 <= i < rest.len() && (#[trigger] rest[i]) is Backup;
            assert(events[i] == rest[i]);
        }
        if was_backed_up(events) && !(events.last() is Backup) {
            let i = choose|i: int| 0 <= i < events.len() && (#[trigger] events[i]) is Backup;
            assert(rest[i] == events[i]);
        }
        if events.last() is Backup {
            assert(events[events.len() - 1] is Backup);
        }
    }
}

/// A dry run writes nothing, however the store changes in memory.
pub proof fn dry_run_writes_nothing(s: StoreView, events: Seq<StoreEvent>)
    requires
        s.dry_run,
    ensures
        save_action(store_after_all(s, events)) == SaveAction::Skip,
    decreases events.len(),
{
    if events.len() > 0 {
        dry_run_writes_nothing(s, events.drop_last());
    }
}

/// What `serde_json` finds under a key of a JSON document: nothing if the text is no JSON, then
/// nothing if it is no object or has no such key, then the value as a `u64`, if it is one, and as
/// text.
pub uninterp spec fn json_field(
    content: Seq<char>,
    key: Seq<char>,
) -> Option<Option<(Option<u64>, Seq<char>)>>;

/// Calls `serde_json::from_str` for a `serde_json::Value`, `get` on it with the key, and `as_u64`
/// and `to_string` on what that gives.
///
/// Claimed: the outcome depends on the text and the key alone.
#[verifier::external_body]
fn read_field(content: &str, key: &str) -> (r: Option<Option<(Option<u64>, String)>>)
    ensures
        match r {
            None => json_field(content@, key@) == None::<Option<(Option<u64>, Seq<char>)>>,
            Some(None) => json_field(content@, key@) == Some(None::<(Option<u64>, Seq<char>)>),
            Some(Some((number, text))) => json_field(content@, key@) == Some(
                Some((number, text@)),
            ),
        },
{
    let value: serde_json::Value = serde_json::from_str(content).ok()?;
    Some(value.get(key).map(|field| (field.as_u64(), field.to_string())))
}

/// The format of a database.
#[derive(Debug, Clone, Copy, PartialEq, Eq, Structural)]
pub enum StoreFormat {
    /// A bare map of active users.
    V1,
    /// Active, departed and purged users.
    V2,
}

/// Why a database cannot be loaded.
pub enum LoadError {
    /// It is no JSON.
    NotJson,
    /// It is in a format that is not known, given by its version.
    UnsupportedVersion(String),
}

impl LoadError {
    /// What to report, for the database at the given path.
    pub fn message(&self, path: &str) -> (r: String)
        ensures
            r@ == match self {
                LoadError::NotJson => "Failed to parse users database from '"@ + path@ + "'"@,
                LoadError::UnsupportedVersion(version) =>
                    "Unsupported users database version "@ + version@ + " in '"@ + path@
                        + "', this binary supports version "@ + decimal(STORE_VERSION as nat),
            },
    {
        match self {
            LoadError::NotJson => {
                let mut r = "Failed to parse users database from '".to_owned();
                r.append(path);
                r.append("'");
                r
            },
            LoadError::UnsupportedVersion(version) => {
                let mut r = "Unsupported users database version ".to_owned();
                r.append(version.as_str());
                r.append(" in '");
                r.append(path);
                r.append("', this binary supports version ");
                r.append(decimal_of(STORE_VERSION).as_str());
                r
            },
        }
    }
}

/// The format of a database, given what stands under its version key.
pub fn format_of(field: Option<Option<(Option<u64>, String)>>) -> (r: Result<
    StoreFormat,
    LoadError,
>)
    ensures
        match field {
            None => r is Err && r->Err_0 is NotJson,
            Some(None) => r == Ok::<StoreFormat, LoadError>(StoreFormat::V1),
            Some(Some((number, text))) => if number == Some(STORE_VERSION) {
                r == Ok::<StoreFormat, LoadError>(StoreFormat::V2)
            } else {
                r == Err::<StoreFormat, LoadError>(LoadError::UnsupportedVersion(text))
            },
        },
{
    match field {
        None => Err(LoadError::NotJson),
        Some(None) => Ok(StoreFormat::V1),
        Some(Some((number, text))) => {
            if let Some(version) = number {
                if version == STORE_VERSION {
                    return Ok(StoreFormat::V2);
                }
            }
            Err(LoadError::UnsupportedVersion(text))
        },
    }
}

/// The format of a database.
pub fn store_format(content: &str) -> (r: Result<StoreFormat, LoadError>)
    ensures
        match json_field(content@, VERSION_KEY@) {
            None => r is Err && r->Err_0 is NotJson,
            Some(None) => r == Ok::<StoreFormat, LoadError>(StoreFormat::V1),
            Some(Some((number, text))) => if number == Some(STORE_VERSION) {
                r == Ok::<StoreFormat, LoadError>(StoreFormat::V2)
            } else {
                r is Err && r->Err_0 is UnsupportedVersion && r->Err_0->UnsupportedVersion_0@
                    == text
            },
        },
{
    format_of(read_field(content, VERSION_KEY))
}

/// A user who departs is no active user any more. Their record keeps their login, UID and GID, and
/// says when they departed. Their account is still to be disabled, whatever an earlier record said.
/// Nobody else is touched.
pub proof fn departing_records_the_user(
    store: &mut UserStore,
    user: User,
    departed_at: Timestamp,
    other: UserId,
)
    requires
        call_ensures(UserStore::depart_user, (store, user, departed_at), ()),
    ensures
        !final(store)@.users.contains_key(user.id),
        final(store)@.departed.contains_key(user.id),
        final(store)@.departed[user.id].id == user.id,
        final(store)@.departed[user.id].name == user.name,
        final(store)@.departed[user.id].uid == user.uid,
        final(store)@.departed[user.id].gid == user.gid,
        final(store)@.departed[user.id].departed_at == departed_at,
        final(store)@.departed[user.id].expired_at is None,
        final(store)@.departed[user.id].purge_started_at is None,
        other != user.id ==> final(store)@.users.contains_key(other) == old(store)@.users.contains_key(other) && (
        old(store)@.users.contains_key(other) ==> final(store)@.users[other] == old(store)@.users[other]),
        other != user.id ==> final(store)@.departed.contains_key(other) == old(store)@.departed.contains_key(other) && (
        old(store)@.departed.contains_key(other) ==> final(store)@.departed[other] == old(store)@.departed[other]),
        final(store)@.purged == old(store)@.purged,
        final(store)@.dry_run == old(store)@.dry_run,
        final(store)@.migrated_from_v1 == old(store)@.migrated_from_v1,
{
}

/// A completed teardown is recorded with its time in the departure record, which is otherwise kept.
/// Nobody else is touched, and nobody becomes departed by it.
pub proof fn completed_teardown_is_recorded(store: &mut UserStore, id: &UserId, expired_at: Timestamp, other: UserId)
    requires
        call_ensures(UserStore::mark_expired, (store, id, expired_at), ()),
    ensures
        old(store)@.departed.contains_key(*id) ==> {
            &&& final(store)@.departed.contains_key(*id)
            &&& final(store)@.departed[*id].expired_at == Some(expired_at)
            &&& final(store)@.departed[*id].id == old(store)@.departed[*id].id
            &&& final(store)@.departed[*id].name == old(store)@.departed[*id].name
            &&& final(store)@.departed[*id].uid == old(store)@.departed[*id].uid
            &&& final(store)@.departed[*id].gid == old(store)@.departed[*id].gid
            &&& final(store)@.departed[*id].departed_at == old(store)@.departed[*id].departed_at
            &&& final(store)@.departed[*id].purge_started_at == old(store)@.departed[*id].purge_started_at
        },
        !old(store)@.departed.contains_key(*id) ==> !final(store)@.departed.contains_key(*id),
        other != *id ==> final(store)@.departed.contains_key(other) == old(store)@.departed.contains_key(other) && (
        old(store)@.departed.contains_key(other) ==> final(store)@.departed[other] == old(store)@.departed[other]),
        final(store)@.users == old(store)@.users,
        final(store)@.purged == old(store)@.purged,
        final(store)@.dry_run == old(store)@.dry_run,
        final(store)@.migrated_from_v1 == old(store)@.migrated_from_v1,
{
}

/// The start of a purge is recorded with its time in the departure record, which is otherwise kept.
/// Nobody else is touched.
pub proof fn started_purge_is_recorded(store: &mut UserStore, id: &UserId, started_at: Timestamp, other: UserId)
    requires
        call_ensures(UserStore::mark_purge_started, (store, id, started_at), ()),
    ensures
        old(store)@.departed.contains_key(*id) ==> {
            &&& final(store)@.departed.contains_key(*id)
            &&& final(store)@.departed[*id].purge_started_at == Some(started_at)
            &&& final(store)@.departed[*id].id == old(store)@.departed[*id].id
            &&& final(store)@.departed[*id].name == old(store)@.departed[*id].name
            &&& final(store)@.departed[*id].uid == old(store)@.departed[*id].uid
            &&& final(store)@.departed[*id].gid == old(store)@.departed[*id].gid
            &&& final(store)@.departed[*id].departed_at == old(store)@.departed[*id].departed_at
            &&& final(store)@.departed[*id].expired_at == old(store)@.departed[*id].expired_at
        },
        !old(store)@.departed.contains_key(*id) ==> !final(store)@.departed.contains_key(*id),
        other != *id ==> final(store)@.departed.contains_key(other) == old(store)@.departed.contains_key(other) && (
        old(store)@.departed.contains_key(other) ==> final(store)@.departed[other] == old(store)@.departed[other]),
        final(store)@.users == old(store)@.users,
        final(store)@.purged == old(store)@.purged,
        final(store)@.dry_run == old(store)@.dry_run,
        final(store)@.migrated_from_v1 == old(store)@.migrated_from_v1,
{
}

/// Clearing the marker of a purge takes it out of the departure record, which is otherwise kept.
/// Nobody else is touched.
pub proof fn cleared_purge_is_recorded(store: &mut UserStore, id: &UserId, other: UserId)
    requires
        call_ensures(UserStore::clear_purge_started, (store, id), ()),
    ensures
        old(store)@.departed.contains_key(*id) ==> {
            &&& final(store)@.departed.contains_key(*id)
            &&& final(store)@.departed[*id].purge_started_at == None::<Timestamp>
            &&& final(store)@.departed[*id].id == old(store)@.departed[*id].id
            &&& final(store)@.departed[*id].name == old(store)@.departed[*id].name
            &&& final(store)@.departed[*id].uid == old(store)@.departed[*id].uid
            &&& final(store)@.departed[*id].gid == old(store)@.departed[*id].gid
            &&& final(store)@.departed[*id].departed_at == old(store)@.departed[*id].departed_at
            &&& final(store)@.departed[*id].expired_at == old(store)@.departed[*id].expired_at
        },
        !old(store)@.departed.contains_key(*id) ==> !final(store)@.departed.contains_key(*id),
        other != *id ==> final(store)@.departed.contains_key(other) == old(store)@.departed.contains_key(other) && (
        old(store)@.departed.contains_key(other) ==> final(store)@.departed[other] == old(store)@.departed[other]),
        final(store)@.users == old(store)@.users,
        final(store)@.purged == old(store)@.purged,
        final(store)@.dry_run == old(store)@.dry_run,
        final(store)@.migrated_from_v1 == old(store)@.migrated_from_v1,
{
}

/// A purged member keeps their login, UID, GID and time of departure, in a record that says when
/// the account was purged. The departure record is gone. Nobody else is touched.
pub proof fn purging_keeps_the_ids(
    store: &mut UserStore,
    id: &UserId,
    purged_at: Timestamp,
    other: UserId,
)
    requires
        call_ensures(UserStore::mark_purged, (store, id, purged_at), ()),
        old(store)@.departed.contains_key(*id) ==> old(store)@.departed[*id].id == *id,
    ensures
        !final(store)@.departed.contains_key(*id),
        old(store)@.departed.contains_key(*id) ==> {
            &&& final(store)@.purged.contains_key(*id)
            &&& final(store)@.purged[*id].id == *id
            &&& final(store)@.purged[*id].name == old(store)@.departed[*id].name
            &&& final(store)@.purged[*id].uid == old(store)@.departed[*id].uid
            &&& final(store)@.purged[*id].gid == old(store)@.departed[*id].gid
            &&& final(store)@.purged[*id].departed_at == old(store)@.departed[*id].departed_at
            &&& final(store)@.purged[*id].purged_at == purged_at
        },
        !old(store)@.departed.contains_key(*id) ==> final(store)@ == old(store)@,
        other != *id ==> final(store)@.departed.contains_key(other) == old(store)@.departed.contains_key(other) && (
        old(store)@.departed.contains_key(other) ==> final(store)@.departed[other] == old(store)@.departed[other]),
        other != *id ==> final(store)@.purged.contains_key(other) == old(store)@.purged.contains_key(other) && (
        old(store)@.purged.contains_key(other) ==> final(store)@.purged[other] == old(store)@.purged[other]),
        final(store)@.users == old(store)@.users,
        final(store)@.dry_run == old(store)@.dry_run,
        final(store)@.migrated_from_v1 == old(store)@.migrated_from_v1,
{
}

/// Pruning drops the departure and purge records of active users, and no others.
pub proof fn pruning_drops_records_of_active_users(store: &mut UserStore, id: UserId)
    requires
        call_ensures(UserStore::prune_rejoined, (store,), ()),
    ensures
        final(store)@.departed.contains_key(id) <==> old(store)@.departed.contains_key(id)
            && !old(store)@.users.contains_key(id),
        final(store)@.departed.contains_key(id) ==> final(store)@.departed[id] == old(store)@.departed[id],
        final(store)@.purged.contains_key(id) <==> old(store)@.purged.contains_key(id) && !old(store)@.users.contains_key(id),
        final(store)@.purged.contains_key(id) ==> final(store)@.purged[id] == old(store)@.purged[id],
        final(store)@.users == old(store)@.users,
        final(store)@.dry_run == old(store)@.dry_run,
        final(store)@.migrated_from_v1 == old(store)@.migrated_from_v1,
{
}

/// A departure can be undone: whatever happens to a user's record from their departure to the purge
/// of their account, it has the UID, GID and login that they had.
pub proof fn identity_survives_departure_and_purge(
    departing: &mut UserStore,
    purging: &mut UserStore,
    user: User,
    id: &UserId,
    departed_at: Timestamp,
    purged_at: Timestamp,
)
    requires
        call_ensures(UserStore::depart_user, (departing, user, departed_at), ()),
        *id == user.id,
        old(purging)@ == final(departing)@,
        call_ensures(UserStore::mark_purged, (purging, id, purged_at), ()),
    ensures
        final(purging)@.purged.contains_key(user.id),
        final(purging)@.purged[user.id].uid == user.uid,
        final(purging)@.purged[user.id].gid == user.gid,
        final(purging)@.purged[user.id].name == user.name,
        final(purging)@.purged[user.id].departed_at == departed_at,
        final(purging)@.purged[user.id].purged_at == purged_at,
        !final(purging)@.departed.contains_key(user.id),
        !final(purging)@.users.contains_key(user.id),
{
}

/// Nothing is written in a dry run, and the database is written otherwise. The file on disk is
/// copied before that while it is in the first format and has no copy.
pub proof fn saving_goes_by_the_store(store: &UserStore, action: SaveAction)
    requires
        call_ensures(UserStore::begin_save, (store,), action),
    ensures
        action is Skip <==> store@.dry_run,
        !store@.dry_run ==> action is Write && action->backup_first == store@.migrated_from_v1,
{
}

/// A backup is outstanding once a database in the first format was taken over, and no more once it
/// was made. Taking over does not turn a dry run into a real one.
pub proof fn backup_is_outstanding_until_made(
    store: &mut UserStore,
    users: UserMap,
    later: &mut UserStore,
)
    requires
        call_ensures(UserStore::install_v1, (store, users), ()),
        call_ensures(UserStore::backed_up, (later,), ()),
    ensures
        final(store)@.migrated_from_v1,
        final(store)@.dry_run == old(store)@.dry_run,
        final(store)@.users == users@,
        forall|id: UserId| !final(store)@.departed.contains_key(id),
        forall|id: UserId| !final(store)@.purged.contains_key(id),
        !final(later)@.migrated_from_v1,
        final(later)@.dry_run == old(later)@.dry_run,
        final(later)@.users == old(later)@.users,
        final(later)@.departed == old(later)@.departed,
        final(later)@.purged == old(later)@.purged,
{
}

/// A new store is empty. The successor of a store has none of its active users, and everything
/// else of it.
pub proof fn successor_keeps_all_but_active_users(
    dry_run: bool,
    empty: UserStore,
    store: &UserStore,
    next: UserStore,
    id: UserId,
)
    requires
        call_ensures(UserStore::new, (dry_run,), empty),
        call_ensures(UserStore::successor, (store,), next),
    ensures
        empty@.dry_run == dry_run,
        !empty@.users.contains_key(id),
        !empty@.departed.contains_key(id),
        !empty@.purged.contains_key(id),
        !empty@.migrated_from_v1,
        !next@.users.contains_key(id),
        next@.departed == store@.departed,
        next@.purged == store@.purged,
        next@.dry_run == store@.dry_run,
        next@.migrated_from_v1 == store@.migrated_from_v1,
{
}

/// A document without a version is in the first format, and one with the version 2 in the second.
/// Any other version is refused and reported, and so is what is no JSON.
pub proof fn formats_go_by_the_version(
    field: Option<Option<(Option<u64>, String)>>,
    r: Result<StoreFormat, LoadError>,
)
    requires
        call_ensures(format_of, (field,), r),
    ensures
        (r matches Ok(StoreFormat::V1)) <==> field is Some && field->0 is None,
        (r matches Ok(StoreFormat::V2)) <==> (field matches Some(Some((number, _)))
            && number == Some(2u64)),
        (r matches Err(LoadError::NotJson)) <==> field is None,
        r matches Err(LoadError::UnsupportedVersion(version)) ==> field matches Some(
            Some((_, text)),
        ) && version == text,
{
}

/// The format of a document is the one that its version says.
pub proof fn documents_go_by_their_version(content: &str, r: Result<StoreFormat, LoadError>)
    requires
        call_ensures(store_format, (content,), r),
    ensures
        ({
            let field = json_field(content@, "version"@);
            &&& (r matches Ok(StoreFormat::V1)) <==> field is Some && field->0 is None
            &&& (r matches Ok(StoreFormat::V2)) <==> (field matches Some(
                Some((number, _)),
            ) && number == Some(2u64))
            &&& (r matches Err(LoadError::NotJson)) <==> field is None
            &&& r matches Err(LoadError::UnsupportedVersion(version)) ==> field matches Some(
                Some((_, text)),
            ) && version@ == text
        }),
{
}

/// A store holds finitely many active users.
pub proof fn active_users_are_finite(store: UserStore)
    ensures
        store@.users.dom().finite(),
{
    broadcast use vstd::std_specs::hash::group_hash_axioms;

}

/// Records show what they hold.
pub proof fn records_show_what_they_hold(
    user: &User,
    departed: &DepartedUser,
    purged: &PurgedUser,
    ids: (UserId, UserId, UserId),
    uids: (u32, u32, u32),
    gids: (Option<u32>, Option<u32>, Option<u32>),
    names: (&str, &str, &str),
    times: (Timestamp, Option<Timestamp>, Option<Timestamp>),
    purged_times: (Timestamp, Timestamp),
)
    requires
        call_ensures(User::id, (user,), ids.0),
        call_ensures(DepartedUser::id, (departed,), ids.1),
        call_ensures(PurgedUser::id, (purged,), ids.2),
        call_ensures(User::uid, (user,), uids.0),
        call_ensures(DepartedUser::uid, (departed,), uids.1),
        call_ensures(PurgedUser::uid, (purged,), uids.2),
        call_ensures(User::gid, (user,), gids.0),
        call_ensures(DepartedUser::gid, (departed,), gids.1),
        call_ensures(PurgedUser::gid, (purged,), gids.2),
        call_ensures(User::name, (user,), names.0),
        call_ensures(DepartedUser::name, (departed,), names.1),
        call_ensures(PurgedUser::name, (purged,), names.2),
        call_ensures(DepartedUser::departed_at, (departed,), times.0),
        call_ensures(DepartedUser::expired_at, (departed,), times.1),
        call_ensures(DepartedUser::purge_started_at, (departed,), times.2),
        call_ensures(PurgedUser::departed_at, (purged,), purged_times.0),
        call_ensures(PurgedUser::purged_at, (purged,), purged_times.1),
    ensures
        ids == (user.id, departed.id, purged.id),
        uids == (user.uid, departed.uid, purged.uid),
        gids == (user.gid, departed.gid, purged.gid),
        names.0@ == user.name@,
        names.1@ == departed.name@,
        names.2@ == purged.name@,
        times == (departed.departed_at, departed.expired_at, departed.purge_started_at),
        purged_times == (purged.departed_at, purged.purged_at),
{
}

/// A store shows what it holds, and takes over a database in the current format as it is.
pub proof fn stores_show_what_they_hold(
    store: &UserStore,
    users: &UserMap,
    departed: &DepartedMap,
    purged: &PurgedMap,
    dry_run: bool,
    loading: &mut UserStore,
    new_users: UserMap,
    new_departed: DepartedMap,
    new_purged: PurgedMap,
)
    requires
        call_ensures(UserStore::data, (store,), users),
        call_ensures(UserStore::departed, (store,), departed),
        call_ensures(UserStore::purged, (store,), purged),
        call_ensures(UserStore::dry_run, (store,), dry_run),
        call_ensures(UserStore::install_v2, (loading, new_users, new_departed, new_purged), ()),
    ensures
        users@ == store@.users,
        departed@ == store@.departed,
        purged@ == store@.purged,
        dry_run == store@.dry_run,
        final(loading)@.users == new_users@,
        final(loading)@.departed == new_departed@,
        final(loading)@.purged == new_purged@,
        final(loading)@.dry_run == old(loading)@.dry_run,
        final(loading)@.migrated_from_v1 == old(loading)@.migrated_from_v1,
{
}

} // verus!
