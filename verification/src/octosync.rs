//! The commands: a sync of the members, a deletion of all users, and a purge.
use crate::calendar::Timestamp;
use crate::departures::{
    lemma_departures_keep_others, lemma_leaver_is_recorded, lemma_pending,
};
use crate::departures::{
    answers as departure_answers, departures_next, departures_valid, is_pending,
    leavers_are_recorded, listed_departures_are_kept, lists_departed, members_are_not_disabled,
    store_after_departure, with_departures, DepartureReply, DepartureStep, Departures,
    DeparturesView,
};
use crate::listing::{are_kept_keys, kept_keys, kept_keys_are_kept, keys_of};
use crate::members::{
    collect_processed, is_leaver, is_settled, is_to_retry,
    lists_users, members_do_not_leave, membership_has_no_stored_users, no_stored_user_is_member,
    settle, settling_drops_leavers_only, trusted_list_disables_not_everyone, with_processed,
    with_users, MemberMap, Settlement,
};
use crate::members::{
    lemma_all_listed, lemma_last_processed, lemma_listed_users, lemma_processed_ids, lemma_users_of, lemma_with_users,
};
use crate::purge::lemma_due_candidates;
use crate::purge::{
    answers as purge_answers, has_cutoff, ids_survive_the_purge, is_candidate, is_started,
    purge_consistent, purge_next, purge_starts_consistent, purge_stays_consistent, purge_valid,
    store_after_purge, Purge, PurgeReply, PurgeStep, PurgeView,
};
use crate::store::{
    identity_of, ids_for, keyed, save_action, with_backup, without_rejoined, DepartedUser,
    SaveAction, StoreView, User, UserId, UserStore,
};
use crate::text::{decimal, decimal_of};
use crate::user_manager::UserManager;
use std::collections::HashMap;
use vstd::prelude::*;

verus! {

/// Bounds concurrency of GitHub requests.
pub const MAX_CONCURRENT_USER_SYNCS: usize = 8;

/// Greatest number of entries per page that the GitHub API supports.
pub const GITHUB_MAX_PER_PAGE: u8 = 100;

/// Why a sync ended without success.
#[derive(Debug, Clone, Copy, PartialEq, Eq, Structural)]
pub enum SyncFailure {
    /// None of the stored users is a member, so the member list is not trusted.
    NoStoredUserIsMember,
    /// The groups could not be created.
    Groups,
    /// Every stored user would be disabled.
    WouldDisableAll,
    /// The store could not be saved.
    Save,
    /// The member list is empty, so nothing is purged.
    NoMembers,
}

/// Where a sync stands.
enum Phase {
    EnsureGroups,
    ProcessMembers,
    SaveRefused,
    Departing(Departures),
    Purging(Purge),
    Finished,
    Failed(SyncFailure),
}

/// Where a sync stands, as contracts see it.
pub enum PhaseView {
    /// The groups are to be created.
    EnsureGroups,
    /// The members are to be processed.
    ProcessMembers,
    /// The store is to be saved, because every stored user would be disabled.
    SaveRefused,
    /// The departures are under way.
    Departing(DeparturesView),
    /// The purge is under way.
    Purging(PurgeView),
    /// Everything is done.
    Finished,
    /// The sync ended without success.
    Failed(SyncFailure),
}

/// What a sync is to do next.
#[derive(Debug, Clone, Copy, PartialEq, Eq, Structural)]
pub enum SyncStep {
    /// Create missing groups.
    EnsureGroups,
    /// Process the members, going by the stored users as they were.
    ProcessMembers,
    /// Save the store.
    Save,
    /// Disable the account of the current user.
    Disable,
    /// Delete the account of the current user.
    Purge,
    /// Nothing, everything is done.
    Finished,
    /// Nothing, the sync ended without success.
    Failed(SyncFailure),
}

/// What came of a step.
pub enum SyncReply {
    /// It succeeded.
    Done,
    /// It failed.
    Failed,
    /// The members were processed, with an account for each where that succeeded.
    Processed(Vec<Option<User>>),
    /// A step of the departures had this result.
    Departure(DepartureReply),
    /// A step of the purge had this result.
    Purge(PurgeReply),
}

/// A sync as contracts see it.
pub struct SyncView {
    /// The store as it was loaded.
    pub old: StoreView,
    /// The store that takes its place.
    pub store: StoreView,
    /// The current members.
    pub members: Map<UserId, String>,
    /// The retention period.
    pub purge_after_days: u32,
    /// Where the sync stands.
    pub phase: PhaseView,
}

/// A sync under way.
pub struct SyncRun {
    old: UserStore,
    store: UserStore,
    members: MemberMap,
    purge_after_days: u32,
    phase: Phase,
}

impl View for SyncRun {
    type V = SyncView;

    closed spec fn view(&self) -> SyncView {
        SyncView {
            old: self.old@,
            store: self.store@,
            members: self.members@,
            purge_after_days: self.purge_after_days,
            phase: match self.phase {
                Phase::EnsureGroups => PhaseView::EnsureGroups,
                Phase::ProcessMembers => PhaseView::ProcessMembers,
                Phase::SaveRefused => PhaseView::SaveRefused,
                Phase::Departing(d) => PhaseView::Departing(d@),
                Phase::Purging(p) => PhaseView::Purging(p@),
                Phase::Finished => PhaseView::Finished,
                Phase::Failed(failure) => PhaseView::Failed(failure),
            },
        }
    }
}

/// Whether a reply is one that a sync can have where it stands.
pub open spec fn sync_answers(phase: PhaseView, reply: SyncReply) -> bool {
    match phase {
        PhaseView::EnsureGroups | PhaseView::SaveRefused => reply is Done || reply is Failed,
        PhaseView::ProcessMembers => reply is Processed,
        PhaseView::Departing(d) => reply is Departure && departure_answers(
            d.step,
            reply->Departure_0,
        ),
        PhaseView::Purging(p) => reply is Purge && purge_answers(p.step, reply->Purge_0),
        _ => false,
    }
}

/// Whether what is under way is valid.
pub open spec fn phase_valid(phase: PhaseView) -> bool {
    match phase {
        PhaseView::Departing(d) => departures_valid(d),
        PhaseView::Purging(p) => purge_valid(p),
        _ => true,
    }
}

/// Whether a reply ends the departures, so that the purge begins. The purge needs members.
pub open spec fn reaches_purge(v: SyncView, reply: SyncReply) -> bool {
    &&& v.phase is Departing
    &&& reply is Departure
    &&& departures_next(v.phase->Departing_0, reply->Departure_0).step is Finished
    &&& !v.members.is_empty()
}

/// A sync that begins. Where none of the stored users is a member, it ends right there.
pub open spec fn sync_started(
    old_store: StoreView,
    members: Map<UserId, String>,
    purge_after_days: u32,
) -> SyncView {
    SyncView {
        old: old_store,
        store: StoreView { users: Map::empty(), ..old_store },
        members,
        purge_after_days,
        phase: if no_stored_user_is_member(old_store.users, members) {
            PhaseView::Failed(SyncFailure::NoStoredUserIsMember)
        } else {
            PhaseView::EnsureGroups
        },
    }
}

/// The sync with another store and phase.
pub open spec fn moved(v: SyncView, store: StoreView, phase: PhaseView) -> SyncView {
    SyncView { store, phase, ..v }
}

/// The store of the members that were processed.
pub open spec fn collected(old: StoreView, processed: Seq<Option<User>>) -> StoreView {
    without_rejoined(with_processed(StoreView { users: Map::empty(), ..old }, processed))
}

/// Whether the processed members lead from one state of a sync to another.
pub open spec fn departs(
    v: SyncView,
    w: SyncView,
    processed: Seq<Option<User>>,
    now: Timestamp,
    mid: StoreView,
    leavers: Seq<User>,
    refused: bool,
    retry: Seq<User>,
) -> bool {
    &&& is_settled(mid, leavers, refused, v.old, collected(v.old, processed), v.members, retry)
    &&& if refused {
        w == moved(v, mid, PhaseView::SaveRefused)
    } else {
        &&& w.phase is Departing
        &&& w == moved(v, with_departures(mid, leavers, now), w.phase)
        &&& lists_departed(
            w.phase->Departing_0.pending,
            w.store.departed,
            |d: DepartedUser| is_pending(d, v.members),
        )
        &&& w.phase->Departing_0.next == 0
        &&& w.phase->Departing_0.step == DepartureStep::SaveDepartures
    }
}

/// Whether the end of the departures, which left the given store, leads to the purge.
pub open spec fn begins_purge(
    v: SyncView,
    w: SyncView,
    left: StoreView,
    now: Timestamp,
    p: PurgeView,
) -> bool {
    &&& is_started(p, w.store, left, v.members, now, v.purge_after_days)
    &&& w == moved(
        v,
        w.store,
        if p.step is Refused {
            PhaseView::Failed(SyncFailure::NoMembers)
        } else {
            PhaseView::Purging(p)
        },
    )
}

/// Whether a reply leads from one state of a sync to another.
pub open spec fn sync_leads(v: SyncView, reply: SyncReply, now: Timestamp, w: SyncView) -> bool {
    match (v.phase, reply) {
        (PhaseView::EnsureGroups, SyncReply::Done) => w == moved(
            v,
            v.store,
            PhaseView::ProcessMembers,
        ),
        (PhaseView::EnsureGroups, _) => w == moved(
            v,
            v.store,
            PhaseView::Failed(SyncFailure::Groups),
        ),
        (PhaseView::ProcessMembers, SyncReply::Processed(processed)) => exists|
            mid: StoreView,
            leavers: Seq<User>,
            refused: bool,
            retry: Seq<User>,
        |
            #[trigger] departs(v, w, processed@, now, mid, leavers, refused, retry),
        (PhaseView::SaveRefused, SyncReply::Done) => w == moved(
            v,
            v.store,
            PhaseView::Failed(SyncFailure::WouldDisableAll),
        ),
        (PhaseView::SaveRefused, _) => w == moved(
            v,
            v.store,
            PhaseView::Failed(SyncFailure::Save),
        ),
        (PhaseView::Departing(d), SyncReply::Departure(r)) => {
            let left = store_after_departure(v.store, d, r);
            let e = departures_next(d, r);
            match e.step {
                DepartureStep::Finished => exists|p: PurgeView|
                    #[trigger] begins_purge(v, w, left, now, p),
                DepartureStep::SaveFailed => w == moved(
                    v,
                    left,
                    PhaseView::Failed(SyncFailure::Save),
                ),
                _ => w == moved(v, left, PhaseView::Departing(e)),
            }
        },
        (PhaseView::Purging(p), SyncReply::Purge(r)) => {
            let left = store_after_purge(p, v.store, r);
            let q = purge_next(p, v.store, r);
            match q.step {
                PurgeStep::Finished => w == moved(v, left, PhaseView::Finished),
                PurgeStep::SaveFailed => w == moved(
                    v,
                    left,
                    PhaseView::Failed(SyncFailure::Save),
                ),
                _ => w == moved(v, left, PhaseView::Purging(q)),
            }
        },
        _ => w == v,
    }
}

/// What a sync is to do where it stands.
pub open spec fn step_of(phase: PhaseView) -> SyncStep {
    match phase {
        PhaseView::EnsureGroups => SyncStep::EnsureGroups,
        PhaseView::ProcessMembers => SyncStep::ProcessMembers,
        PhaseView::SaveRefused => SyncStep::Save,
        PhaseView::Departing(d) => match d.step {
            DepartureStep::Disable => SyncStep::Disable,
            _ => SyncStep::Save,
        },
        PhaseView::Purging(p) => match p.step {
            PurgeStep::Purge => SyncStep::Purge,
            _ => SyncStep::Save,
        },
        PhaseView::Finished => SyncStep::Finished,
        PhaseView::Failed(failure) => SyncStep::Failed(failure),
    }
}

impl SyncRun {
    /// A sync of a loaded store with the current members. Nothing is done if none of the stored
    /// users is among them.
    pub fn start(old: UserStore, members: MemberMap, purge_after_days: u32) -> (r: Self)
        ensures
            r@ == sync_started(old@, members@, purge_after_days),
    {
        let phase = if membership_has_no_stored_users(old.data(), &members) {
            Phase::Failed(SyncFailure::NoStoredUserIsMember)
        } else {
            Phase::EnsureGroups
        };
        let store = old.successor();
        SyncRun { old, store, members, purge_after_days, phase }
    }

    /// What to do next.
    pub fn step(&self) -> (r: SyncStep)
        ensures
            r == step_of(self@.phase),
    {
        match &self.phase {
            Phase::EnsureGroups => SyncStep::EnsureGroups,
            Phase::ProcessMembers => SyncStep::ProcessMembers,
            Phase::SaveRefused => SyncStep::Save,
            Phase::Departing(d) => match d.step() {
                DepartureStep::Disable => SyncStep::Disable,
                _ => SyncStep::Save,
            },
            Phase::Purging(p) => match p.step() {
                PurgeStep::Purge => SyncStep::Purge,
                _ => SyncStep::Save,
            },
            Phase::Finished => SyncStep::Finished,
            Phase::Failed(failure) => SyncStep::Failed(*failure),
        }
    }

    /// The store as it was loaded.
    pub fn loaded(&self) -> (r: &UserStore)
        ensures
            r@ == self@.old,
    {
        &self.old
    }

    /// The store that takes its place.
    pub fn store(&self) -> (r: &UserStore)
        ensures
            r@ == self@.store,
    {
        &self.store
    }

    /// The current members.
    pub fn members(&self) -> (r: &MemberMap)
        ensures
            r@ == self@.members,
    {
        &self.members
    }

    /// What saving the store comes to.
    pub fn begin_save(&self) -> (r: SaveAction)
        ensures
            r == save_action(self@.store),
    {
        self.store.begin_save()
    }

    /// Takes note, during a save, that the backup of the file in the first format was made.
    pub fn backed_up(&mut self)
        requires
            step_of(old(self)@.phase) is Save,
        ensures
            final(self)@ == moved(
                old(self)@,
                with_backup(old(self)@.store),
                old(self)@.phase,
            ),
    {
        self.store.backed_up();
    }

    /// The departures, while they are under way.
    pub fn departures(&self) -> (r: Option<&Departures>)
        ensures
            match self@.phase {
                PhaseView::Departing(d) => r is Some && r->0@ == d,
                _ => r is None,
            },
    {
        match &self.phase {
            Phase::Departing(d) => Some(d),
            _ => None,
        }
    }

    /// The purge, while it is under way.
    pub fn purge(&self) -> (r: Option<&Purge>)
        ensures
            match self@.phase {
                PhaseView::Purging(p) => r is Some && r->0@ == p,
                _ => r is None,
            },
    {
        match &self.phase {
            Phase::Purging(p) => Some(p),
            _ => None,
        }
    }

    /// Goes on after a step.
    pub fn advance(&mut self, reply: SyncReply, now: Timestamp)
        requires
            sync_answers(old(self)@.phase, reply),
            phase_valid(old(self)@.phase),
            reaches_purge(old(self)@, reply) ==> has_cutoff(now, old(self)@.purge_after_days),
        ensures
            sync_leads(old(self)@, reply, now, final(self)@),
            phase_valid(final(self)@.phase),
    {
        let ghost v = self@;
        let mut phase = Phase::Finished;
        std::mem::swap(&mut phase, &mut self.phase);
        let ghost u = self@;
        match (phase, reply) {
            (Phase::EnsureGroups, SyncReply::Done) => {
                self.phase = Phase::ProcessMembers;
            },
            (Phase::EnsureGroups, _) => {
                self.phase = Phase::Failed(SyncFailure::Groups);
            },
            (Phase::ProcessMembers, SyncReply::Processed(processed)) => {
                let ghost list = processed@;
                self.settle_members(processed, now);
                proof {
                    let (mid, leavers, refused, retry) = choose|
                        mid: StoreView,
                        leavers: Seq<User>,
                        refused: bool,
                        retry: Seq<User>,
                    |
                        #[trigger] departs(u, self@, list, now, mid, leavers, refused, retry);
                    assert(departs(v, self@, list, now, mid, leavers, refused, retry));
                }
            },
            (Phase::SaveRefused, SyncReply::Done) => {
                self.phase = Phase::Failed(SyncFailure::WouldDisableAll);
            },
            (Phase::SaveRefused, _) => {
                self.phase = Phase::Failed(SyncFailure::Save);
            },
            (Phase::Departing(departures), SyncReply::Departure(r)) => {
                let mut departures = departures;
                departures.advance(&mut self.store, r);
                match departures.step() {
                    DepartureStep::Finished => {
                        let ghost left = self.store@;
                        let ghost t = self@;
                        self.begin_purge(now);
                        proof {
                            let p = choose|p: PurgeView|
                                #[trigger] begins_purge(t, self@, left, now, p);
                            assert(begins_purge(v, self@, left, now, p));
                        }
                    },
                    DepartureStep::SaveFailed => {
                        self.phase = Phase::Failed(SyncFailure::Save);
                    },
                    _ => {
                        self.phase = Phase::Departing(departures);
                    },
                }
            },
            (Phase::Purging(purge), SyncReply::Purge(r)) => {
                let mut purge = purge;
                purge.advance(&mut self.store, r);
                match purge.step() {
                    PurgeStep::Finished => {
                        self.phase = Phase::Finished;
                    },
                    PurgeStep::SaveFailed => {
                        self.phase = Phase::Failed(SyncFailure::Save);
                    },
                    _ => {
                        self.phase = Phase::Purging(purge);
                    },
                }
            },
            (other, _) => {
                self.phase = other;
            },
        }
    }

    /// Collects the members that were processed, and begins the departures.
    fn settle_members(&mut self, processed: Vec<Option<User>>, now: Timestamp)
        ensures
            exists|mid: StoreView, leavers: Seq<User>, refused: bool, retry: Seq<User>|
                #[trigger] departs(
                    old(self)@,
                    final(self)@,
                    processed@,
                    now,
                    mid,
                    leavers,
                    refused,
                    retry,
                ),
            phase_valid(final(self)@.phase),
    {
        let ghost v = self@;
        let new = collect_processed(&self.old, processed);
        let ghost fresh = new@;
        let Settlement { store, leavers, refused } = settle(&self.old, new, &self.members);
        let ghost mid = store@;
        let ghost left = leavers@;
        let ghost retry = choose|retry: Seq<User>|
            #[trigger] is_settled(mid, left, refused, v.old, fresh, v.members, retry);
        self.store = store;
        if refused {
            self.phase = Phase::SaveRefused;
        } else {
            let departures = Departures::start(&mut self.store, leavers, &self.members, now);
            self.phase = Phase::Departing(departures);
        }
        assert(departs(v, self@, processed@, now, mid, left, refused, retry));
    }

    /// Begins the purge.
    fn begin_purge(&mut self, now: Timestamp)
        requires
            !old(self)@.members.is_empty() ==> has_cutoff(now, old(self)@.purge_after_days),
        ensures
            exists|p: PurgeView| #[trigger] begins_purge(
                old(self)@,
                final(self)@,
                old(self)@.store,
                now,
                p,
            ),
            phase_valid(final(self)@.phase),
    {
        let ghost v = self@;
        let purge = Purge::start(&mut self.store, &self.members, now, self.purge_after_days);
        let ghost p = purge@;
        match purge.step() {
            PurgeStep::Refused => {
                self.phase = Phase::Failed(SyncFailure::NoMembers);
            },
            _ => {
                self.phase = Phase::Purging(purge);
            },
        }
        assert(begins_purge(v, self@, v.store, now, p));
    }
}

/// Whether the list holds all the users of the map, each once and in any order.
pub open spec fn lists_all_users(list: Seq<User>, map: Map<UserId, User>) -> bool {
    lists_users(list, map, |u: User| true)
}

/// All active users.
fn all_users(store: &UserStore) -> (r: Vec<User>)
    ensures
        lists_all_users(r@, store@.users),
{
    let map = store.data();
    let ghost view = map@;
    let ghost keep = |u: User| true;
    let ids = keys_of(map);
    let mut r: Vec<User> = Vec::new();
    let mut i: usize = 0;
    while i < ids.len()
        invariant
            i <= ids@.len(),
            view == map@,
            ids@.to_set() == view.dom(),
            keep == (|u: User| true),
            r@ == kept_keys(ids@.take(i as int), view, keep).map_values(|k: UserId| view[k]),
        decreases ids@.len() - i,
    {
        broadcast use vstd::std_specs::hash::group_hash_axioms;

        let ghost next = ids@.take(i + 1);
        proof {
            assert(next.drop_last() == ids@.take(i as int));
            assert(ids@.to_set().contains(ids@[i as int]));
        }
        if let Some(record) = map.get(&ids[i]) {
            r.push(record.clone());
        }
        assert(r@ == kept_keys(next, view, keep).map_values(|k: UserId| view[k]));
        i = i + 1;
    }
    proof {
        assert(ids@.take(ids@.len() as int) == ids@);
        kept_keys_are_kept(ids@, view, keep);
        assert(are_kept_keys(kept_keys(ids@, view, keep), view, |u: User| true));
    }
    r
}

/// The commands on a data directory.
pub struct Octosync {
    data_dir: std::path::PathBuf,
    dry_run: bool,
    user_manager: UserManager,
}

impl Octosync {
    /// Where the users database is.
    pub closed spec fn directory(&self) -> std::path::PathBuf {
        self.data_dir
    }

    /// Whether actions are previewed only.
    pub closed spec fn previews(&self) -> bool {
        self.dry_run
    }

    /// The manager of the platform's users.
    pub closed spec fn manager(&self) -> UserManager {
        self.user_manager
    }

    /// The commands on a data directory, on Linux or not. A dry run uses the mock backend and
    /// disables store writes.
    pub fn new(dry_run: bool, data_dir: std::path::PathBuf, on_linux: bool) -> (r: Self)
        ensures
            r.previews() == dry_run,
            r.directory() == data_dir,
            r.manager().backend_view() is Linux <==> !dry_run && on_linux,
    {
        Octosync { data_dir, dry_run, user_manager: UserManager::new(dry_run, on_linux) }
    }

    /// Where the users database is.
    pub fn data_dir(&self) -> (r: &std::path::PathBuf)
        ensures
            *r == self.directory(),
    {
        &self.data_dir
    }

    /// The empty store of the data directory.
    pub fn empty_store(&self) -> (r: UserStore)
        ensures
            r@ == crate::store::empty_store(self.previews()),
    {
        UserStore::new(self.dry_run)
    }

    /// The manager of the platform's users.
    pub fn into_user_manager(self) -> (r: UserManager)
        ensures
            r == self.manager(),
    {
        self.user_manager
    }

    /// Sync a loaded store with the current members.
    pub fn sync(&self, store: UserStore, members: MemberMap, purge_after_days: u32) -> (r: SyncRun)
        ensures
            r@ == sync_started(store@, members@, purge_after_days),
    {
        SyncRun::start(store, members, purge_after_days)
    }

    /// Disable the accounts of all users. Despite the command name, the accounts are not deleted,
    /// and the store keeps each departure and its IDs. Everybody counts as departed, whatever the
    /// current members are.
    pub fn delete(&self, store: &mut UserStore, now: Timestamp) -> (r: Departures)
        ensures
            exists|leavers: Seq<User>|
                {
                    &&& #[trigger] lists_all_users(leavers, old(store)@.users)
                    &&& final(store)@ == with_departures(old(store)@, leavers, now)
                },
            lists_departed(
                r@.pending,
                final(store)@.departed,
                |d: DepartedUser| is_pending(d, Map::empty()),
            ),
            r@.next == 0,
            r@.step == DepartureStep::SaveDepartures,
            departures_valid(r@),
    {
        let users = all_users(store);
        let members: MemberMap = HashMap::new();
        assert(lists_all_users(users@, store@.users));
        Departures::start(store, users, &members, now)
    }

    /// Purge eligible departed users, excluding current members.
    pub fn purge(
        &self,
        store: &mut UserStore,
        members: &MemberMap,
        now: Timestamp,
        purge_after_days: u32,
    ) -> (r: Purge)
        requires
            !members@.is_empty() ==> has_cutoff(now, purge_after_days),
        ensures
            is_started(r@, final(store)@, old(store)@, members@, now, purge_after_days),
            purge_valid(r@),
    {
        Purge::start(store, members, now, purge_after_days)
    }
}

impl SyncFailure {
    /// What to report, given the number of stored users, the organization and the number of its
    /// members.
    pub fn message(&self, stored: u64, org: &str, members: u64) -> (r: String)
        ensures
            r@ == match self {
                SyncFailure::NoStoredUserIsMember => "Refusing to sync: none of the "@ + decimal(
                    stored as nat,
                ) + " stored users is in the fetched member list of org '"@ + org@ + "' ("@
                    + decimal(members as nat)
                    + " members). Nothing was changed on the system. Run the 'delete' command to disable all users intentionally."@,
                SyncFailure::WouldDisableAll => "Refusing to disable all "@ + decimal(
                    stored as nat,
                )
                    + " stored users in a single sync. None of them is in the fetched member list of org '"@
                    + org@ + "' ("@ + decimal(members as nat)
                    + " members). All users are kept in the store. Run the 'delete' command to disable them intentionally."@,
                SyncFailure::NoMembers => "Refusing to purge: GitHub org '"@ + org@
                    + "' returned no members, which would make every departure record eligible. No accounts were deleted."@,
                SyncFailure::Groups => "Failed to create the groups"@,
                SyncFailure::Save => "Failed to save the users database"@,
            },
    {
        match self {
            SyncFailure::NoStoredUserIsMember => {
                let mut r = "Refusing to sync: none of the ".to_owned();
                r.append(decimal_of(stored).as_str());
                r.append(" stored users is in the fetched member list of org '");
                r.append(org);
                r.append("' (");
                r.append(decimal_of(members).as_str());
                r.append(
                    " members). Nothing was changed on the system. Run the 'delete' command to disable all users intentionally.",
                );
                r
            },
            SyncFailure::WouldDisableAll => {
                let mut r = "Refusing to disable all ".to_owned();
                r.append(decimal_of(stored).as_str());
                r.append(
                    " stored users in a single sync. None of them is in the fetched member list of org '",
                );
                r.append(org);
                r.append("' (");
                r.append(decimal_of(members).as_str());
                r.append(
                    " members). All users are kept in the store. Run the 'delete' command to disable them intentionally.",
                );
                r
            },
            SyncFailure::NoMembers => crate::purge::refusal_message(org),
            SyncFailure::Groups => "Failed to create the groups".to_owned(),
            SyncFailure::Save => "Failed to save the users database".to_owned(),
        }
    }
}

/// A member list without any of the stored users ends the sync before anything is done: there is
/// no step to take, and no reply to go on with.
pub proof fn untrusted_list_changes_nothing(
    old_store: StoreView,
    members: Map<UserId, String>,
    purge_after_days: u32,
    reply: SyncReply,
)
    requires
        no_stored_user_is_member(old_store.users, members),
    ensures
        ({
            let v = sync_started(old_store, members, purge_after_days);
            &&& step_of(v.phase) == SyncStep::Failed(SyncFailure::NoStoredUserIsMember)
            &&& !sync_answers(v.phase, reply)
        }),
{
}

/// What carries a sync from one state to the next.
pub enum SyncEvent {
    /// The backup of the file in the first format was made during a save.
    Backup,
    /// A step had the given result at the given time.
    Reply(SyncReply, Timestamp),
}

/// Whether an event leads from one state of a sync to another.
pub open spec fn sync_follows(v: SyncView, event: SyncEvent, w: SyncView) -> bool {
    match event {
        SyncEvent::Backup => step_of(v.phase) is Save && w == moved(
            v,
            with_backup(v.store),
            v.phase,
        ),
        SyncEvent::Reply(reply, now) => sync_answers(v.phase, reply) && sync_leads(
            v,
            reply,
            now,
            w,
        ),
    }
}

/// Whether the states are those of one sync from its beginning on, with the events between them.
pub open spec fn is_sync(
    states: Seq<SyncView>,
    events: Seq<SyncEvent>,
    old_store: StoreView,
    members: Map<UserId, String>,
    purge_after_days: u32,
) -> bool {
    &&& states.len() == events.len() + 1
    &&& states[0] == sync_started(old_store, members, purge_after_days)
    &&& forall|i: int|
        0 <= i < events.len() ==> sync_follows(states[i], #[trigger] events[i], states[i + 1])
}

/// Whether nobody whose account is to be disabled or deleted is a member.
pub open spec fn spares_members(v: SyncView) -> bool {
    match v.phase {
        PhaseView::Departing(d) => forall|i: int|
            0 <= i < d.pending.len() ==> !v.members.contains_key((#[trigger] d.pending[i]).id),
        PhaseView::Purging(p) => forall|i: int|
            0 <= i < p.candidates.len() ==> !v.members.contains_key(
                (#[trigger] p.candidates[i]).id,
            ),
        _ => true,
    }
}

/// However a sync goes, it disables or deletes nobody's account who is a member.
pub proof fn sync_spares_members(
    states: Seq<SyncView>,
    events: Seq<SyncEvent>,
    old_store: StoreView,
    members: Map<UserId, String>,
    purge_after_days: u32,
    n: int,
)
    requires
        is_sync(states, events, old_store, members, purge_after_days),
        0 <= n < states.len(),
    ensures
        states[n].members == members,
        spares_members(states[n]),
    decreases n,
{
    if n > 0 {
        sync_spares_members(states, events, old_store, members, purge_after_days, n - 1);
        if let SyncEvent::Reply(reply, now) = events[n - 1] {
            lemma_step_spares_members(states[n - 1], reply, now, states[n]);
        }
    }
}

/// No step of a sync turns to the account of a member.
proof fn lemma_step_spares_members(v: SyncView, reply: SyncReply, now: Timestamp, w: SyncView)
    requires
        spares_members(v),
        sync_leads(v, reply, now, w),
        sync_answers(v.phase, reply),
    ensures
        spares_members(w),
        w.members == v.members,
{
    match (v.phase, reply) {
        (PhaseView::ProcessMembers, SyncReply::Processed(processed)) => {
            let (mid, leavers, refused, retry) = choose|
                mid: StoreView,
                leavers: Seq<User>,
                refused: bool,
                retry: Seq<User>,
            |
                #[trigger] departs(v, w, processed@, now, mid, leavers, refused, retry);
            if !refused {
                let pending = w.phase->Departing_0.pending;
                assert forall|i: int| 0 <= i < pending.len() implies !v.members.contains_key(
                    (#[trigger] pending[i]).id,
                ) by {
                    members_are_not_disabled(pending, w.store, v.members, i);
                }
            }
        },
        (PhaseView::Departing(d), SyncReply::Departure(r)) => {
            let left = store_after_departure(v.store, d, r);
            if departures_next(d, r).step is Finished {
                let p = choose|p: PurgeView| #[trigger] begins_purge(v, w, left, now, p);
                if w.phase is Purging {
                    assert forall|i: int| 0 <= i < p.candidates.len() implies !v.members.contains_key(
                        (#[trigger] p.candidates[i]).id,
                    ) by {
                        listed_departures_are_kept(
                            p.candidates,
                            left.departed,
                            |d: DepartedUser| is_candidate(d, p.cutoff, v.members),
                            i,
                        );
                    }
                }
            }
        },
        _ => {},
    }
}

/// Once the member list holds one of the stored users, the sync is not refused for disabling all
/// of them.
pub proof fn trusted_sync_is_not_refused(
    v: SyncView,
    processed: Vec<Option<User>>,
    now: Timestamp,
    w: SyncView,
)
    requires
        v.phase is ProcessMembers,
        keyed(v.old),
        v.old.users.dom().finite(),
        !no_stored_user_is_member(v.old.users, v.members),
        sync_leads(v, SyncReply::Processed(processed), now, w),
    ensures
        w.phase is Departing,
{
    let (mid, leavers, refused, retry) = choose|
        mid: StoreView,
        leavers: Seq<User>,
        refused: bool,
        retry: Seq<User>,
    |
        #[trigger] departs(v, w, processed@, now, mid, leavers, refused, retry);
    trusted_list_disables_not_everyone(
        leavers,
        v.old.users,
        collected(v.old, processed@).users,
        v.members,
    );
}

/// Departures remove nobody but the leavers from the active users.
proof fn lemma_others_stay_active(s: StoreView, leavers: Seq<User>, at: Timestamp, id: UserId)
    requires
        s.users.contains_key(id),
        forall|i: int| 0 <= i < leavers.len() ==> (#[trigger] leavers[i]).id != id,
    ensures
        with_departures(s, leavers, at).users.contains_key(id),
        with_departures(s, leavers, at).users[id] == s.users[id],
    decreases leavers.len(),
{
    if leavers.len() > 0 {
        let rest = leavers.drop_last();
        assert forall|i: int| 0 <= i < rest.len() implies (#[trigger] rest[i]).id != id by {
            assert(rest[i] == leavers[i]);
        }
        lemma_others_stay_active(s, rest, at, id);
        assert(leavers[leavers.len() - 1].id != id);
    }
}

/// Whether one of the users that were processed has the ID.
pub open spec fn was_processed(processed: Seq<Option<User>>, id: UserId) -> bool {
    exists|i: int|
        0 <= i < processed.len() && (#[trigger] processed[i]) is Some && processed[i]->0.id == id
}

/// Nobody becomes active by processing but those who were processed.
proof fn lemma_not_processed(s: StoreView, processed: Seq<Option<User>>, id: UserId)
    requires
        s.users.is_empty(),
        !was_processed(processed, id),
    ensures
        !with_processed(s, processed).users.contains_key(id),
    decreases processed.len(),
{
    if processed.len() > 0 {
        let rest = processed.drop_last();
        assert(!was_processed(rest, id)) by {
            if was_processed(rest, id) {
                let i = choose|i: int|
                    0 <= i < rest.len() && (#[trigger] rest[i]) is Some && rest[i]->0.id == id;
                assert(processed[i] == rest[i]);
            }
        }
        lemma_not_processed(s, rest, id);
        assert(processed.last() == processed[processed.len() - 1]);
    }
}

/// A stored member who is not processed keeps their record, for a store whose records stand under
/// their own IDs.
proof fn lemma_record_kept(
    v: SyncView,
    w: SyncView,
    processed: Seq<Option<User>>,
    now: Timestamp,
    mid: StoreView,
    leavers: Seq<User>,
    refused: bool,
    retry: Seq<User>,
    id: UserId,
)
    requires
        departs(v, w, processed, now, mid, leavers, refused, retry),
        keyed(v.old),
        v.old.users.contains_key(id),
        v.members.contains_key(id),
        !was_processed(processed, id),
    ensures
        w.store.users.contains_key(id),
        w.store.users[id] == v.old.users[id],
{
    let bare = StoreView { users: Map::empty(), ..v.old };
    let new = collected(v.old, processed);
    lemma_not_processed(bare, processed, id);
    lemma_processed_keyed(bare, processed);
    assert(keyed(new));
    lemma_listed_by_id(retry, v.old.users, |u: User| is_to_retry(u, new.users, v.members));
    lemma_listed_by_id(leavers, v.old.users, |u: User| is_leaver(u, new.users, v.members));
    assert(is_to_retry(v.old.users[id], new.users, v.members));
    let i = retry.index_of(v.old.users[id]);
    assert(retry[i] == v.old.users[id]);
    lemma_made_active(new, retry, id);
    let kept = with_users(new, retry);
    assert(kept.users.contains_key(retry[i].id) && kept.users[retry[i].id] == retry[i]);
    assert forall|j: int| 0 <= j < leavers.len() implies (#[trigger] leavers[j]).id != id by {
        assert(is_leaver(leavers[j], new.users, v.members));
    }
    lemma_made_active(kept, leavers, id);
    if !refused {
        lemma_others_stay_active(mid, leavers, now, id);
    }
}

/// Users that were processed are filed under their IDs.
proof fn lemma_processed_keyed(s: StoreView, processed: Seq<Option<User>>)
    requires
        keyed(s),
    ensures
        keyed(with_processed(s, processed)),
    decreases processed.len(),
{
    if processed.len() > 0 {
        lemma_processed_keyed(s, processed.drop_last());
    }
}

/// A member whose processing failed is still an active user afterwards. They are retried by the
/// next sync, and not taken for somebody who has left. Where records stand under their own IDs, the
/// member keeps theirs, unless a user with that ID was processed.
pub proof fn failed_member_stays_active(
    v: SyncView,
    processed: Vec<Option<User>>,
    now: Timestamp,
    w: SyncView,
    id: UserId,
)
    requires
        v.phase is ProcessMembers,
        v.old.users.contains_key(id),
        v.old.users[id].id == id,
        v.members.contains_key(id),
        sync_leads(v, SyncReply::Processed(processed), now, w),
    ensures
        w.store.users.contains_key(id),
        keyed(v.old) && !was_processed(processed@, id) ==> w.store.users[id] == v.old.users[id],
{
    let (mid, leavers, refused, retry) = choose|
        mid: StoreView,
        leavers: Seq<User>,
        refused: bool,
        retry: Seq<User>,
    |
        #[trigger] departs(v, w, processed@, now, mid, leavers, refused, retry);
    let new = collected(v.old, processed@);
    settling_drops_leavers_only(mid, leavers, refused, v.old, new, v.members, retry, id);
    members_do_not_leave(retry, leavers, v.old.users, new.users, v.members);
    assert(!leavers.contains(v.old.users[id])) by {
        if leavers.contains(v.old.users[id]) {
            let i = leavers.index_of(v.old.users[id]);
            assert(leavers[i].id == id);
        }
    }
    if !refused {
        lemma_others_stay_active(mid, leavers, now, id);
    }
    if keyed(v.old) && !was_processed(processed@, id) {
        lemma_record_kept(v, w, processed@, now, mid, leavers, refused, retry, id);
    }
}

/// A list of users of a store, by their IDs.
proof fn lemma_listed_by_id(list: Seq<User>, map: Map<UserId, User>, keep: spec_fn(User) -> bool)
    requires
        lists_users(list, map, keep),
        forall|id: UserId| #[trigger] map.contains_key(id) ==> map[id].id == id,
    ensures
        forall|i: int|
            0 <= i < list.len() ==> map.contains_key((#[trigger] list[i]).id) && map[list[i].id]
                == list[i] && keep(list[i]),
        forall|a: int, b: int|
            0 <= a < b < list.len() ==> (#[trigger] list[a]).id != (#[trigger] list[b]).id,
        forall|id: UserId| #[trigger]
            map.contains_key(id) && keep(map[id]) ==> list.contains(map[id]),
{
    let keys = choose|keys: Seq<UserId>|
        #![trigger are_kept_keys(keys, map, keep)]
        are_kept_keys(keys, map, keep) && list == keys.map_values(|k: UserId| map[k]);
    assert forall|i: int| 0 <= i < list.len() implies map.contains_key((#[trigger] list[i]).id)
        && map[list[i].id] == list[i] && keep(list[i]) && list[i].id == keys[i] by {
        assert(keys.contains(keys[i]));
        assert(map.contains_key(keys[i]));
    }
    assert forall|a: int, b: int| 0 <= a < b < list.len() implies (#[trigger] list[a]).id != (
    #[trigger] list[b]).id by {
        assert(list[a].id == keys[a] && list[b].id == keys[b]);
    }
    assert forall|id: UserId| #[trigger] map.contains_key(id) && keep(map[id]) implies list.contains(
        map[id],
    ) by {
        assert(keys.contains(id));
        assert(list[keys.index_of(id)] == map[id]);
    }
}

/// Whether every user that was processed is a member.
pub open spec fn are_members(processed: Seq<Option<User>>, members: Map<UserId, String>) -> bool {
    forall|i: int|
        0 <= i < processed.len() && (#[trigger] processed[i]) is Some ==> members.contains_key(
            processed[i]->0.id,
        )
}

/// Users that were processed are filed under their IDs, and nobody else becomes active.
proof fn lemma_processed(
    s: StoreView,
    processed: Seq<Option<User>>,
    members: Map<UserId, String>,
    id: UserId,
)
    requires
        keyed(s),
        s.users.is_empty(),
        are_members(processed, members),
        !members.contains_key(id),
    ensures
        ({
            let t = with_processed(s, processed);
            &&& keyed(t)
            &&& !t.users.contains_key(id)
            &&& t.departed == s.departed
            &&& t.purged == s.purged
        }),
    decreases processed.len(),
{
    if processed.len() > 0 {
        let rest = processed.drop_last();
        assert(are_members(rest, members)) by {
            assert forall|i: int| 0 <= i < rest.len() && (#[trigger] rest[i]) is Some implies
                members.contains_key(rest[i]->0.id) by {
                assert(rest[i] == processed[i]);
            }
        }
        lemma_processed(s, rest, members, id);
        assert(processed.last() == processed[processed.len() - 1]);
    }
}

/// Users are made active under their IDs. Nobody else becomes active, and nothing else changes.
proof fn lemma_made_active(s: StoreView, list: Seq<User>, id: UserId)
    requires
        keyed(s),
        forall|a: int, b: int|
            0 <= a < b < list.len() ==> (#[trigger] list[a]).id != (#[trigger] list[b]).id,
    ensures
        ({
            let t = with_users(s, list);
            &&& keyed(t)
            &&& t.departed == s.departed
            &&& t.purged == s.purged
            &&& (forall|i: int| 0 <= i < list.len() ==> (#[trigger] list[i]).id != id)
                ==> t.users.contains_key(id) == s.users.contains_key(id) && (s.users.contains_key(
                id,
            ) ==> t.users[id] == s.users[id])
            &&& forall|i: int|
                0 <= i < list.len() ==> t.users.contains_key((#[trigger] list[i]).id)
                    && t.users[list[i].id] == list[i]
        }),
    decreases list.len(),
{
    if list.len() > 0 {
        let rest = list.drop_last();
        assert forall|a: int, b: int| 0 <= a < b < rest.len() implies (#[trigger] rest[a]).id != (
        #[trigger] rest[b]).id by {
            assert(rest[a] == list[a] && rest[b] == list[b]);
        }
        lemma_made_active(s, rest, id);
        let t = with_users(s, list);
        assert(list.last() == list[list.len() - 1]);
        assert forall|i: int| 0 <= i < list.len() implies t.users.contains_key(
            (#[trigger] list[i]).id,
        ) && t.users[list[i].id] == list[i] by {
            if i < list.len() - 1 {
                assert(rest[i] == list[i]);
                assert(list[i].id != list[list.len() - 1].id);
            }
        }
        if forall|i: int| 0 <= i < list.len() ==> (#[trigger] list[i]).id != id {
            assert forall|i: int| 0 <= i < rest.len() implies (#[trigger] rest[i]).id != id by {
                assert(rest[i] == list[i]);
            }
        }
    }
}

/// Departures file everybody under their ID and change nobody else's records.
proof fn lemma_departures_of_others(s: StoreView, leavers: Seq<User>, at: Timestamp, id: UserId)
    requires
        keyed(s),
    ensures
        keyed(with_departures(s, leavers, at)),
        (forall|i: int| 0 <= i < leavers.len() ==> (#[trigger] leavers[i]).id != id) ==> ids_for(
            with_departures(s, leavers, at),
            id,
        ) == ids_for(s, id),
    decreases leavers.len(),
{
    if leavers.len() > 0 {
        let rest = leavers.drop_last();
        lemma_departures_of_others(s, rest, at, id);
        assert(leavers.last() == leavers[leavers.len() - 1]);
        if forall|i: int| 0 <= i < leavers.len() ==> (#[trigger] leavers[i]).id != id {
            assert forall|i: int| 0 <= i < rest.len() implies (#[trigger] rest[i]).id != id by {
                assert(rest[i] == leavers[i]);
            }
        }
    }
}

/// Processing the members keeps the IDs of everybody who is none.
proof fn lemma_processing_keeps_ids(
    v: SyncView,
    w: SyncView,
    processed: Seq<Option<User>>,
    now: Timestamp,
    mid: StoreView,
    leavers: Seq<User>,
    refused: bool,
    retry: Seq<User>,
    id: UserId,
)
    requires
        departs(v, w, processed, now, mid, leavers, refused, retry),
        keyed(v.old),
        are_members(processed, v.members),
        !v.members.contains_key(id),
    ensures
        keyed(w.store),
        ids_for(w.store, id) == ids_for(v.old, id),
{
    let bare = StoreView { users: Map::empty(), ..v.old };
    let new = collected(v.old, processed);
    lemma_processed(bare, processed, v.members, id);
    assert(keyed(new));
    assert(!new.users.contains_key(id));
    lemma_listed_by_id(retry, v.old.users, |u: User| is_to_retry(u, new.users, v.members));
    lemma_listed_by_id(leavers, v.old.users, |u: User| is_leaver(u, new.users, v.members));
    assert forall|i: int| 0 <= i < retry.len() implies (#[trigger] retry[i]).id != id by {
        assert(is_to_retry(retry[i], new.users, v.members));
    }
    lemma_made_active(new, retry, id);
    let kept = with_users(new, retry);
    lemma_made_active(kept, leavers, id);
    lemma_departures_of_others(mid, leavers, now, id);
    if v.old.users.contains_key(id) {
        assert(is_leaver(v.old.users[id], new.users, v.members));
        let i = leavers.index_of(v.old.users[id]);
        assert(leavers[i] == v.old.users[id]);
        if !refused {
            leavers_are_recorded(mid, leavers, now, i);
        }
    } else {
        assert forall|i: int| 0 <= i < leavers.len() implies (#[trigger] leavers[i]).id != id by {
            assert(v.old.users.contains_key(leavers[i].id));
        }
    }
}

/// What every state of a sync keeps for somebody who is no member. Before the members are
/// processed, the new store is not in use yet.
spec fn keeps_ids(v: SyncView, old_store: StoreView, id: UserId) -> bool {
    &&& v.old == old_store
    &&& match v.phase {
        PhaseView::EnsureGroups | PhaseView::ProcessMembers | PhaseView::Failed(_) => true,
        PhaseView::SaveRefused | PhaseView::Finished => ids_for(v.store, id) == ids_for(
            old_store,
            id,
        ),
        PhaseView::Departing(_) => keyed(v.store) && ids_for(v.store, id) == ids_for(old_store, id),
        PhaseView::Purging(p) => purge_consistent(p, v.store, v.members) && ids_for(v.store, id)
            == ids_for(old_store, id),
    }
}

/// Every step of a sync keeps the IDs of somebody who is no member.
proof fn lemma_step_keeps_ids(
    v: SyncView,
    reply: SyncReply,
    now: Timestamp,
    w: SyncView,
    old_store: StoreView,
    id: UserId,
)
    requires
        keeps_ids(v, old_store, id),
        keyed(old_store),
        sync_answers(v.phase, reply),
        sync_leads(v, reply, now, w),
        reply matches SyncReply::Processed(processed) ==> are_members(processed@, v.members),
        !v.members.contains_key(id),
    ensures
        keeps_ids(w, old_store, id),
{
    match (v.phase, reply) {
        (PhaseView::ProcessMembers, SyncReply::Processed(processed)) => {
            let (mid, leavers, refused, retry) = choose|
                mid: StoreView,
                leavers: Seq<User>,
                refused: bool,
                retry: Seq<User>,
            |
                #[trigger] departs(v, w, processed@, now, mid, leavers, refused, retry);
            lemma_processing_keeps_ids(
                v,
                w,
                processed@,
                now,
                mid,
                leavers,
                refused,
                retry,
                id,
            );
        },
        (PhaseView::Departing(d), SyncReply::Departure(r)) => {
            let left = store_after_departure(v.store, d, r);
            assert(keyed(left));
            assert(ids_for(left, id) == ids_for(v.store, id));
            if departures_next(d, r).step is Finished {
                let p = choose|p: PurgeView| #[trigger] begins_purge(v, w, left, now, p);
                if !v.members.is_empty() {
                    purge_starts_consistent(
                        p,
                        w.store,
                        left,
                        v.members,
                        now,
                        v.purge_after_days,
                    );
                    assert(ids_for(w.store, id) == ids_for(left, id));
                }
            }
        },
        (PhaseView::Purging(p), SyncReply::Purge(r)) => {
            purge_stays_consistent(p, v.store, v.members, r);
            ids_survive_the_purge(p, v.store, v.members, r, id);
        },
        _ => {},
    }
}

/// However a sync goes, whatever it saves has the same UID and GID for everybody who is no member
/// as the store that was loaded. This takes that only members were processed.
pub proof fn sync_keeps_the_ids_of_leavers(
    states: Seq<SyncView>,
    events: Seq<SyncEvent>,
    old_store: StoreView,
    members: Map<UserId, String>,
    purge_after_days: u32,
    id: UserId,
    n: int,
)
    requires
        is_sync(states, events, old_store, members, purge_after_days),
        keyed(old_store),
        forall|i: int|
            0 <= i < events.len() ==> (#[trigger] events[i] matches SyncEvent::Reply(
                SyncReply::Processed(processed),
                _,
            ) ==> are_members(processed@, members)),
        !members.contains_key(id),
        0 <= n < states.len(),
    ensures
        step_of(states[n].phase) is Save || step_of(states[n].phase) is Finished ==> ids_for(
            states[n].store,
            id,
        ) == ids_for(old_store, id),
{
    lemma_sync_keeps_ids(states, events, old_store, members, purge_after_days, id, n);
}

/// Every state of a sync keeps the IDs of somebody who is no member.
proof fn lemma_sync_keeps_ids(
    states: Seq<SyncView>,
    events: Seq<SyncEvent>,
    old_store: StoreView,
    members: Map<UserId, String>,
    purge_after_days: u32,
    id: UserId,
    n: int,
)
    requires
        is_sync(states, events, old_store, members, purge_after_days),
        keyed(old_store),
        forall|i: int|
            0 <= i < events.len() ==> (#[trigger] events[i] matches SyncEvent::Reply(
                SyncReply::Processed(processed),
                _,
            ) ==> are_members(processed@, members)),
        !members.contains_key(id),
        0 <= n < states.len(),
    ensures
        keeps_ids(states[n], old_store, id),
        states[n].members == members,
    decreases n,
{
    if n > 0 {
        lemma_sync_keeps_ids(states, events, old_store, members, purge_after_days, id, n - 1);
        sync_spares_members(states, events, old_store, members, purge_after_days, n);
        match events[n - 1] {
            SyncEvent::Reply(reply, now) => {
                lemma_step_keeps_ids(states[n - 1], reply, now, states[n], old_store, id);
            },
            SyncEvent::Backup => {
                assert(keeps_ids(states[n], old_store, id));
            },
        }
    }
}

/// Whether two stores agree on what a save comes to.
spec fn same_save(s: StoreView, t: StoreView) -> bool {
    s.dry_run == t.dry_run && s.migrated_from_v1 == t.migrated_from_v1
}

/// Neither processed users nor kept ones nor departures change what a save comes to.
proof fn lemma_same_save(
    s: StoreView,
    processed: Seq<Option<User>>,
    list: Seq<User>,
    at: Timestamp,
)
    ensures
        same_save(with_processed(s, processed), s),
        same_save(with_users(s, list), s),
        same_save(with_departures(s, list, at), s),
    decreases processed.len() + list.len(),
{
    if processed.len() > 0 {
        lemma_same_save(s, processed.drop_last(), list, at);
    }
    if list.len() > 0 {
        lemma_same_save(s, processed, list.drop_last(), at);
    }
}

/// Whether one of the events is a backup.
pub open spec fn backup_was_made(events: Seq<SyncEvent>) -> bool {
    exists|i: int| 0 <= i < events.len() && (#[trigger] events[i]) is Backup
}

/// However a sync goes, each of its saves makes a backup if a database in the first format was
/// loaded and the sync has made no backup of it so far, and only then.
pub proof fn sync_backs_up_before_it_writes(
    states: Seq<SyncView>,
    events: Seq<SyncEvent>,
    old_store: StoreView,
    members: Map<UserId, String>,
    purge_after_days: u32,
    n: int,
)
    requires
        is_sync(states, events, old_store, members, purge_after_days),
        0 <= n < states.len(),
        step_of(states[n].phase) is Save,
        !old_store.dry_run,
    ensures
        save_action(states[n].store) == (SaveAction::Write {
            backup_first: old_store.migrated_from_v1 && !backup_was_made(events.take(n)),
        }),
{
    lemma_sync_saves(states, events, old_store, members, purge_after_days, n);
}

/// What a save of a sync comes to, in every state of the sync.
proof fn lemma_sync_saves(
    states: Seq<SyncView>,
    events: Seq<SyncEvent>,
    old_store: StoreView,
    members: Map<UserId, String>,
    purge_after_days: u32,
    n: int,
)
    requires
        is_sync(states, events, old_store, members, purge_after_days),
        0 <= n < states.len(),
    ensures
        states[n].old == old_store,
        states[n].store.dry_run == old_store.dry_run,
        states[n].store.migrated_from_v1 == (old_store.migrated_from_v1 && !backup_was_made(
            events.take(n),
        )),
        states[n].phase is EnsureGroups || states[n].phase is ProcessMembers ==> !backup_was_made(
            events.take(n),
        ),
    decreases n,
{
    if n > 0 {
        let v = states[n - 1];
        let w = states[n];
        let seen = events.take(n - 1);
        let event = events[n - 1];
        lemma_sync_saves(states, events, old_store, members, purge_after_days, n - 1);
        assert(events.take(n) == seen.push(event));
        assert(backup_was_made(events.take(n)) == (backup_was_made(seen) || event is Backup)) by {
            if backup_was_made(seen) {
                let i = choose|i: int| 0 <= i < seen.len() && (#[trigger] seen[i]) is Backup;
                assert(seen.push(event)[i] is Backup);
            }
            if backup_was_made(seen.push(event)) && !(event is Backup) {
                let i = choose|i: int|
                    0 <= i < seen.push(event).len() && (#[trigger] seen.push(event)[i]) is Backup;
                assert(seen[i] is Backup);
            }
            assert(seen.push(event)[n - 1] == event);
        }
        if let SyncEvent::Reply(reply, now) = event {
            match (v.phase, reply) {
                (PhaseView::ProcessMembers, SyncReply::Processed(processed)) => {
                    let (mid, leavers, refused, retry) = choose|
                        mid: StoreView,
                        leavers: Seq<User>,
                        refused: bool,
                        retry: Seq<User>,
                    |
                        #[trigger] departs(v, w, processed@, now, mid, leavers, refused, retry);
                    let new = collected(v.old, processed@);
                    lemma_same_save(
                        StoreView { users: Map::empty(), ..v.old },
                        processed@,
                        Seq::empty(),
                        now,
                    );
                    lemma_same_save(new, Seq::empty(), retry, now);
                    lemma_same_save(with_users(new, retry), Seq::empty(), leavers, now);
                    lemma_same_save(mid, Seq::empty(), leavers, now);
                },
                (PhaseView::Departing(d), SyncReply::Departure(r)) => {
                    if departures_next(d, r).step is Finished {
                        let left = store_after_departure(v.store, d, r);
                        let p = choose|p: PurgeView| #[trigger] begins_purge(v, w, left, now, p);
                        assert(same_save(w.store, left));
                    }
                },
                _ => {},
            }
        }
    }
}

/// The deletion of all users turns every active user into a departed one with the same identity,
/// for a store whose records stand under their own IDs.
pub proof fn delete_departs_everyone(
    before: StoreView,
    after: StoreView,
    leavers: Seq<User>,
    now: Timestamp,
    id: UserId,
)
    requires
        keyed(before),
        lists_all_users(leavers, before.users),
        after == with_departures(before, leavers, now),
        before.users.contains_key(id),
    ensures
        !after.users.contains_key(id),
        after.departed.contains_key(id),
        identity_of(after.departed[id]) == before.users[id],
        after.departed[id].departed_at == now,
{
    lemma_listed_by_id(leavers, before.users, |u: User| true);
    let i = leavers.index_of(before.users[id]);
    assert(leavers[i] == before.users[id]);
    leavers_are_recorded(before, leavers, now, i);
}

/// A sync starts from the loaded store, without its active users and with everything else. It is
/// refused if and only if somebody is stored and none of them is a member.
pub proof fn sync_starts_unless_nobody_is_a_member(
    old_store: UserStore,
    members: MemberMap,
    purge_after_days: u32,
    r: SyncRun,
)
    requires
        call_ensures(SyncRun::start, (old_store, members, purge_after_days), r),
    ensures
        r@.phase == PhaseView::Failed(SyncFailure::NoStoredUserIsMember) <==> (exists|id: UserId|
         #[trigger]
            old_store@.users.contains_key(id)) && (forall|id: UserId| #[trigger]
            old_store@.users.contains_key(id) ==> !members@.contains_key(id)),
        r@.phase is Failed || r@.phase is EnsureGroups,
        r@.phase is Failed ==> r@.phase->Failed_0 is NoStoredUserIsMember,
        r@.old == old_store@,
        r@.members == members@,
        r@.purge_after_days == purge_after_days,
        forall|id: UserId| !#[trigger] r@.store.users.contains_key(id),
        r@.store.departed == old_store@.departed,
        r@.store.purged == old_store@.purged,
        r@.store.dry_run == old_store@.dry_run,
        r@.store.migrated_from_v1 == old_store@.migrated_from_v1,
{
    crate::store::active_users_are_finite(old_store);
    if exists|id: UserId| #[trigger] old_store@.users.contains_key(id) {
        let id = choose|id: UserId| #[trigger] old_store@.users.contains_key(id);
        assert(old_store@.users.dom().contains(id));
        if old_store@.users.len() == 0 {
            assert(old_store@.users.dom() =~= Set::empty());
        }
    } else {
        assert(old_store@.users.dom() =~= Set::empty());
    }
}

/// The steps of a sync before and after the members are processed.
pub proof fn sync_creates_groups_first(sync: &mut SyncRun, reply: SyncReply, now: Timestamp)
    requires
        call_ensures(SyncRun::advance, (sync, reply, now), ()),
    ensures
        old(sync)@.phase is EnsureGroups ==> final(sync)@.store == old(sync)@.store,
        old(sync)@.phase is EnsureGroups && reply is Done ==> final(sync)@.phase is ProcessMembers,
        old(sync)@.phase is EnsureGroups && reply is Failed ==> final(sync)@.phase
            == PhaseView::Failed(SyncFailure::Groups),
        old(sync)@.phase is SaveRefused ==> final(sync)@.store == old(sync)@.store,
        old(sync)@.phase is SaveRefused && reply is Done ==> final(sync)@.phase
            == PhaseView::Failed(SyncFailure::WouldDisableAll),
        old(sync)@.phase is SaveRefused && reply is Failed ==> final(sync)@.phase
            == PhaseView::Failed(SyncFailure::Save),
        old(sync)@.phase is EnsureGroups || old(sync)@.phase is SaveRefused ==> final(sync)@.members
            == old(sync)@.members && final(sync)@.old == old(sync)@.old && final(sync)@.purge_after_days == old(sync)@.purge_after_days,
{
}

/// Once the members are processed, somebody is an active user if and only if they were processed,
/// or were stored and are a member. Those who were processed have the account that this gave, and a
/// member whose processing failed has their stored record. Every other stored user is recorded as
/// departed now, with their login and IDs, and their account is still to be disabled. The records
/// of those who departed before stay, unless they were processed. This holds unless every stored
/// user would leave.
pub proof fn sync_follows_the_member_list(
    sync: &mut SyncRun,
    processed: Vec<Option<User>>,
    now: Timestamp,
    id: UserId,
)
    requires
        call_ensures(SyncRun::advance, (sync, SyncReply::Processed(processed), now), ()),
        old(sync)@.phase is ProcessMembers,
        forall|k: UserId| #[trigger] old(sync)@.old.users.contains_key(k) ==> old(sync)@.old.users[k].id == k,
        !(final(sync)@.phase is SaveRefused),
    ensures
        final(sync)@.phase is Departing,
        ({
            let before = old(sync)@.old;
            let after = final(sync)@.store;
            let is_member = old(sync)@.members.contains_key(id);
            let done = exists|i: int|
                0 <= i < processed@.len() && (#[trigger] processed@[i]) is Some
                    && processed@[i]->0.id == id;
            &&& after.users.contains_key(id) <==> done || before.users.contains_key(id) && is_member
            &&& before.users.contains_key(id) && is_member && !done ==> after.users[id]
                == before.users[id]
            &&& before.users.contains_key(id) && !is_member && !done ==> {
                &&& after.departed.contains_key(id)
                &&& after.departed[id].id == id
                &&& after.departed[id].name == before.users[id].name
                &&& after.departed[id].uid == before.users[id].uid
                &&& after.departed[id].gid == before.users[id].gid
                &&& after.departed[id].departed_at == now
                &&& after.departed[id].expired_at is None
            }
            &&& done || !before.users.contains_key(id) || is_member
                ==> (after.departed.contains_key(id) <==> before.departed.contains_key(id) && !done)
            &&& (done || !before.users.contains_key(id) || is_member) && after.departed.contains_key(
                id,
            ) ==> after.departed[id] == before.departed[id]
            &&& after.purged.contains_key(id) <==> before.purged.contains_key(id) && !done
            &&& after.purged.contains_key(id) ==> after.purged[id] == before.purged[id]
        }),
        forall|i: int|
            0 <= i < processed@.len() && (#[trigger] processed@[i]) is Some && processed@[i]->0.id
                == id && (forall|j: int|
                i < j < processed@.len() && (#[trigger] processed@[j]) is Some
                    ==> processed@[j]->0.id != id) ==> final(sync)@.store.users[id]
                == processed@[i]->0,
        final(sync)@.store.dry_run == old(sync)@.old.dry_run,
        final(sync)@.store.migrated_from_v1 == old(sync)@.old.migrated_from_v1,
{
    let v = old(sync)@;
    let w = final(sync)@;
    let (mid, leavers, refused, retry) = choose|
        mid: StoreView,
        leavers: Seq<User>,
        refused: bool,
        retry: Seq<User>,
    |
        #[trigger] departs(v, w, processed@, now, mid, leavers, refused, retry);
    let start = StoreView { users: Map::empty(), ..v.old };
    let new = collected(v.old, processed@);
    lemma_processed_ids(start, processed@, id);
    let keep_retry = |u: User| is_to_retry(u, new.users, v.members);
    let keep_leaver = |u: User| is_leaver(u, new.users, v.members);
    lemma_listed_users(retry, v.old.users, keep_retry, id);
    lemma_listed_users(leavers, v.old.users, keep_leaver, id);
    lemma_with_users(new, retry);
    lemma_users_of(new, retry, id);
    lemma_departures_keep_others(mid, leavers, now, id);
    if exists|i: int| 0 <= i < leavers.len() && (#[trigger] leavers[i]).id == id {
        let i = choose|i: int| 0 <= i < leavers.len() && (#[trigger] leavers[i]).id == id;
        lemma_leaver_is_recorded(mid, leavers, now, i);
    }
    assert forall|i: int|
        0 <= i < processed@.len() && (#[trigger] processed@[i]) is Some && processed@[i]->0.id == id
            && (forall|j: int|
            i < j < processed@.len() && (#[trigger] processed@[j]) is Some ==> processed@[j]->0.id
                != id) implies w.store.users[id] == processed@[i]->0 by {
        lemma_last_processed(start, processed@, i);
    }
}

/// A sync is refused after processing if and only if somebody is stored, and nobody of them was
/// processed or is a member. All of them stay active then, as they were.
pub proof fn nobody_leaves_where_everybody_would(
    sync: &mut SyncRun,
    processed: Vec<Option<User>>,
    now: Timestamp,
    id: UserId,
)
    requires
        call_ensures(SyncRun::advance, (sync, SyncReply::Processed(processed), now), ()),
        old(sync)@.phase is ProcessMembers,
        forall|k: UserId| #[trigger] old(sync)@.old.users.contains_key(k) ==> old(sync)@.old.users[k].id == k,
        final(sync)@.phase is SaveRefused,
    ensures
        old(sync)@.old.users.contains_key(id) ==> final(sync)@.store.users.contains_key(id),
        old(sync)@.old.users.contains_key(id) && !(exists|i: int|
            0 <= i < processed@.len() && (#[trigger] processed@[i]) is Some && processed@[i]->0.id
                == id) ==> final(sync)@.store.users[id] == old(sync)@.old.users[id],
        final(sync)@.store.departed.contains_key(id) ==> old(sync)@.old.departed.contains_key(id)
            && final(sync)@.store.departed[id] == old(sync)@.old.departed[id],
        old(sync)@.old.departed.contains_key(id) && !(exists|i: int|
            0 <= i < processed@.len() && (#[trigger] processed@[i]) is Some && processed@[i]->0.id
                == id) ==> final(sync)@.store.departed.contains_key(id),
{
    let v = old(sync)@;
    let w = final(sync)@;
    let (mid, leavers, refused, retry) = choose|
        mid: StoreView,
        leavers: Seq<User>,
        refused: bool,
        retry: Seq<User>,
    |
        #[trigger] departs(v, w, processed@, now, mid, leavers, refused, retry);
    let start = StoreView { users: Map::empty(), ..v.old };
    let new = collected(v.old, processed@);
    lemma_processed_ids(start, processed@, id);
    let keep_retry = |u: User| is_to_retry(u, new.users, v.members);
    let keep_leaver = |u: User| is_leaver(u, new.users, v.members);
    lemma_listed_users(retry, v.old.users, keep_retry, id);
    lemma_listed_users(leavers, v.old.users, keep_leaver, id);
    lemma_with_users(new, retry);
    lemma_users_of(new, retry, id);
    let kept = with_users(new, retry);
    lemma_with_users(kept, leavers);
    lemma_users_of(kept, leavers, id);
}

/// The accounts that a sync disables are those of everybody whose departure is recorded, whose
/// teardown has not completed and who is no member, and departures begin with saving the store.
pub proof fn sync_disables_who_left(
    sync: &mut SyncRun,
    processed: Vec<Option<User>>,
    now: Timestamp,
    id: UserId,
)
    requires
        call_ensures(SyncRun::advance, (sync, SyncReply::Processed(processed), now), ()),
        old(sync)@.phase is ProcessMembers,
        final(sync)@.phase is Departing,
        forall|k: UserId| #[trigger] final(sync)@.store.departed.contains_key(k) ==> final(sync)@.store.departed[k].id == k,
    ensures
        ({
            let d = final(sync)@.phase->Departing_0;
            &&& (exists|i: int| 0 <= i < d.pending.len() && (#[trigger] d.pending[i]).id == id) <==> {
                &&& final(sync)@.store.departed.contains_key(id)
                &&& final(sync)@.store.departed[id].expired_at is None
                &&& !old(sync)@.members.contains_key(id)
            }
            &&& forall|i: int|
                0 <= i < d.pending.len() && (#[trigger] d.pending[i]).id == id ==> d.pending[i].uid
                    == final(sync)@.store.departed[id].uid && d.pending[i].name == final(sync)@.store.departed[id].name
            &&& d.step is SaveDepartures
            &&& d.next == 0
        }),
        final(sync)@.members == old(sync)@.members,
        final(sync)@.purge_after_days == old(sync)@.purge_after_days,
{
    let v = old(sync)@;
    let w = final(sync)@;
    let (mid, leavers, refused, retry) = choose|
        mid: StoreView,
        leavers: Seq<User>,
        refused: bool,
        retry: Seq<User>,
    |
        #[trigger] departs(v, w, processed@, now, mid, leavers, refused, retry);
    lemma_pending(w.phase->Departing_0.pending, w.store, v.members, id);
}

/// A sync ends with a purge by the retention period that it was started with: an account is one to
/// delete if and only if its owner departed that long ago and is no member.
pub proof fn sync_purges_by_its_retention_period(
    sync: &mut SyncRun,
    reply: SyncReply,
    now: Timestamp,
    id: UserId,
)
    requires
        call_ensures(SyncRun::advance, (sync, reply, now), ()),
        old(sync)@.phase is Departing,
        old(sync)@.phase->Departing_0.step is SaveResults,
        reply == SyncReply::Departure(DepartureReply::Saved),
        exists|k: UserId| #[trigger] old(sync)@.members.contains_key(k),
        forall|k: UserId| #[trigger] old(sync)@.store.departed.contains_key(k) ==> old(sync)@.store.departed[k].id == k,
    ensures
        final(sync)@.phase is Purging,
        ({
            let p = final(sync)@.phase->Purging_0;
            let before = old(sync)@.store;
            let days = old(sync)@.purge_after_days;
            &&& (exists|i: int| 0 <= i < p.candidates.len() && (#[trigger] p.candidates[i]).id
                == id) <==> {
                &&& before.departed.contains_key(id)
                &&& !old(sync)@.members.contains_key(id)
                &&& {
                    let at = before.departed[id].departed_at;
                    ||| at.secs + days * 86400 < now.secs
                    ||| at.secs + days * 86400 == now.secs && at.nanos <= now.nanos
                }
            }
            &&& p.cutoff.secs == now.secs - days * 86400
            &&& p.cutoff.nanos == now.nanos
            &&& p.now == now
        }),
        final(sync)@.store.users == old(sync)@.store.users,
        final(sync)@.store.purged == old(sync)@.store.purged,
{
    let v = old(sync)@;
    let w = final(sync)@;
    let p = choose|p: PurgeView| #[trigger] begins_purge(v, w, v.store, now, p);
    let k = choose|k: UserId| #[trigger] v.members.contains_key(k);
    assert(v.members.dom().contains(k));
    assert(!v.members.is_empty());
    lemma_due_candidates(p, w.store, v.store, v.members, now, v.purge_after_days, id);
}

/// A sync without members ends without a purge, and with the store as the departures left it.
pub proof fn sync_without_members_purges_nobody(sync: &mut SyncRun, reply: SyncReply, now: Timestamp)
    requires
        call_ensures(SyncRun::advance, (sync, reply, now), ()),
        old(sync)@.phase is Departing,
        old(sync)@.phase->Departing_0.step is SaveResults,
        reply == SyncReply::Departure(DepartureReply::Saved),
        forall|k: UserId| !#[trigger] old(sync)@.members.contains_key(k),
    ensures
        final(sync)@.phase == PhaseView::Failed(SyncFailure::NoMembers),
        final(sync)@.store == old(sync)@.store,
{
    let v = old(sync)@;
    assert(v.members.dom() =~= Set::empty());
    assert(v.members.is_empty());
    let p = choose|p: PurgeView| #[trigger] begins_purge(v, final(sync)@, v.store, now, p);
}

/// While departures are under way in a sync, a disabled account is recorded as such and a failed
/// attempt is not. The next account has its turn either way.
pub proof fn sync_records_disabled_accounts(
    sync: &mut SyncRun,
    reply: DepartureReply,
    now: Timestamp,
    id: UserId,
)
    requires
        call_ensures(SyncRun::advance, (sync, SyncReply::Departure(reply), now), ()),
        old(sync)@.phase is Departing,
        old(sync)@.phase->Departing_0.step is Disable,
        id == old(sync)@.phase->Departing_0.pending[old(sync)@.phase->Departing_0.next].id,
        old(sync)@.store.departed.contains_key(id),
    ensures
        final(sync)@.phase is Departing,
        final(sync)@.phase->Departing_0.pending == old(sync)@.phase->Departing_0.pending,
        final(sync)@.phase->Departing_0.next == old(sync)@.phase->Departing_0.next + 1,
        final(sync)@.store.departed.contains_key(id),
        reply is Disabled ==> final(sync)@.store.departed[id].expired_at == Some(reply->Disabled_0),
        !(reply is Disabled) ==> final(sync)@.store == old(sync)@.store,
        final(sync)@.store.departed[id].uid == old(sync)@.store.departed[id].uid,
        final(sync)@.store.departed[id].gid == old(sync)@.store.departed[id].gid,
        final(sync)@.store.departed[id].departed_at == old(sync)@.store.departed[id].departed_at,
        final(sync)@.store.users == old(sync)@.store.users,
        final(sync)@.store.purged == old(sync)@.store.purged,
{
}

/// While a purge is under way in a sync, a deleted account moves its owner's record to the purged
/// members. The sync is finished once everything is saved.
pub proof fn sync_records_deleted_accounts(
    sync: &mut SyncRun,
    reply: PurgeReply,
    now: Timestamp,
    id: UserId,
)
    requires
        call_ensures(SyncRun::advance, (sync, SyncReply::Purge(reply), now), ()),
        old(sync)@.phase is Purging,
    ensures
        ({
            let p = old(sync)@.phase->Purging_0;
            let before = old(sync)@.store;
            let after = final(sync)@.store;
            &&& p.step is Purge && 0 <= p.next < p.candidates.len() && id == p.candidates[p.next].id
                && before.departed.contains_key(id) && before.departed[id].id == id && reply
                == PurgeReply::Outcome(crate::user_manager::messages::PurgeOutcome::Deleted) ==> {
                &&& !after.departed.contains_key(id)
                &&& after.purged.contains_key(id)
                &&& after.purged[id].uid == before.departed[id].uid
                &&& after.purged[id].gid == before.departed[id].gid
                &&& after.purged[id].purged_at == p.now
            }
            &&& p.step is Purge && reply is Failed ==> after == before
            &&& p.step is Purge ==> final(sync)@.phase is Purging
                && final(sync)@.phase->Purging_0.step is SaveResult
            &&& p.step is SaveAll && reply is Saved ==> final(sync)@.phase is Finished && after
                == before
            &&& (p.step is SaveMarker || p.step is SaveResult || p.step is SaveAll) && !(reply
                is Saved) ==> final(sync)@.phase == PhaseView::Failed(SyncFailure::Save) && after
                == before
            &&& after.users == before.users
        }),
{
}

/// What a sync says of itself is what it is at.
pub proof fn sync_shows_where_it_is(sync: &SyncRun, step: SyncStep)
    requires
        call_ensures(SyncRun::step, (sync,), step),
    ensures
        sync@.phase is EnsureGroups <==> step is EnsureGroups,
        sync@.phase is ProcessMembers <==> step is ProcessMembers,
        step is Disable <==> sync@.phase is Departing && sync@.phase->Departing_0.step is Disable,
        step is Purge <==> sync@.phase is Purging && sync@.phase->Purging_0.step is Purge,
        step is Finished <==> sync@.phase is Finished,
        step is Failed <==> sync@.phase is Failed,
        step is Failed ==> step->Failed_0 == sync@.phase->Failed_0,
        step is Save <==> {
            ||| sync@.phase is SaveRefused
            ||| sync@.phase is Departing && !(sync@.phase->Departing_0.step is Disable)
            ||| sync@.phase is Purging && !(sync@.phase->Purging_0.step is Purge)
        },
{
}

/// The deletion of all users leaves no active user. Each of them is recorded as departed now, with
/// their login and IDs, and their account is to be disabled, whoever is a member. So are accounts
/// whose teardown has not completed before.
pub proof fn deleting_disables_everybody(
    octosync: &Octosync,
    store: &mut UserStore,
    now: Timestamp,
    d: Departures,
    id: UserId,
)
    requires
        call_ensures(Octosync::delete, (octosync, store, now), d),
        forall|k: UserId| #[trigger] old(store)@.users.contains_key(k) ==> old(store)@.users[k].id
            == k,
        forall|k: UserId| #[trigger] old(store)@.departed.contains_key(k) ==> old(store)@.departed[k].id == k,
    ensures
        !final(store)@.users.contains_key(id),
        old(store)@.users.contains_key(id) ==> {
            &&& final(store)@.departed.contains_key(id)
            &&& final(store)@.departed[id].name == old(store)@.users[id].name
            &&& final(store)@.departed[id].uid == old(store)@.users[id].uid
            &&& final(store)@.departed[id].gid == old(store)@.users[id].gid
            &&& final(store)@.departed[id].departed_at == now
            &&& final(store)@.departed[id].expired_at is None
        },
        !old(store)@.users.contains_key(id) ==> {
            &&& final(store)@.departed.contains_key(id) == old(store)@.departed.contains_key(id)
            &&& old(store)@.departed.contains_key(id) ==> final(store)@.departed[id] == old(store)@.departed[id]
        },
        final(store)@.purged == old(store)@.purged,
        (exists|i: int| 0 <= i < d@.pending.len() && (#[trigger] d@.pending[i]).id == id) <==> {
            ||| old(store)@.users.contains_key(id)
            ||| old(store)@.departed.contains_key(id) && old(store)@.departed[id].expired_at is None
        },
        d@.step is SaveDepartures,
        d@.next == 0,
{
    let before = old(store)@;
    let after = final(store)@;
    let leavers = choose|leavers: Seq<User>|
        {
            &&& #[trigger] lists_all_users(leavers, before.users)
            &&& after == with_departures(before, leavers, now)
        };
    lemma_listed_users(leavers, before.users, |u: User| true, id);
    lemma_departures_keep_others(before, leavers, now, id);
    if before.users.contains_key(id) {
        let i = choose|i: int| 0 <= i < leavers.len() && (#[trigger] leavers[i]).id == id;
        lemma_leaver_is_recorded(before, leavers, now, i);
    }
    assert forall|k: UserId| #[trigger] after.departed.contains_key(k) implies after.departed[k].id
        == k by {
        lemma_departures_keep_others(before, leavers, now, k);
        lemma_listed_users(leavers, before.users, |u: User| true, k);
        if exists|i: int| 0 <= i < leavers.len() && (#[trigger] leavers[i]).id == k {
            let i = choose|i: int| 0 <= i < leavers.len() && (#[trigger] leavers[i]).id == k;
            lemma_leaver_is_recorded(before, leavers, now, i);
        }
    }
    lemma_pending(d@.pending, after, Map::empty(), id);
}

/// The purge command deletes by the retention period that it is given.
pub proof fn purge_command_keeps_the_retention_period(
    octosync: &Octosync,
    store: &mut UserStore,
    members: &MemberMap,
    now: Timestamp,
    purge_after_days: u32,
    p: Purge,
    id: UserId,
)
    requires
        call_ensures(Octosync::purge, (octosync, store, members, now, purge_after_days), p),
        exists|k: UserId| #[trigger] members@.contains_key(k),
        forall|k: UserId| #[trigger] old(store)@.departed.contains_key(k) ==> old(store)@.departed[k].id == k,
    ensures
        (exists|i: int| 0 <= i < p@.candidates.len() && (#[trigger] p@.candidates[i]).id == id) <==> {
            &&& old(store)@.departed.contains_key(id)
            &&& !members@.contains_key(id)
            &&& {
                let at = old(store)@.departed[id].departed_at;
                ||| at.secs + purge_after_days * 86400 < now.secs
                ||| at.secs + purge_after_days * 86400 == now.secs && at.nanos <= now.nanos
            }
        },
        p@.cutoff.secs == now.secs - purge_after_days * 86400,
        p@.cutoff.nanos == now.nanos,
{
    lemma_due_candidates(
        p@,
        final(store)@,
        old(store)@,
        members@,
        now,
        purge_after_days,
        id,
    );
}

/// A dry run never touches the machine: its backend is the one that previews, and nothing that it
/// loads is ever written. Otherwise, the backend of Linux is used on Linux.
pub proof fn dry_run_only_previews(
    dry_run: bool,
    data_dir: std::path::PathBuf,
    on_linux: bool,
    octosync: Octosync,
    store: UserStore,
    manager: UserManager,
    action: SaveAction,
)
    requires
        call_ensures(Octosync::new, (dry_run, data_dir, on_linux), octosync),
        call_ensures(Octosync::empty_store, (&octosync,), store),
        call_ensures(Octosync::into_user_manager, (octosync,), manager),
        call_ensures(UserStore::begin_save, (&store,), action),
    ensures
        manager.backend_view() is Linux <==> !dry_run && on_linux,
        store@.dry_run == dry_run,
        action is Skip <==> dry_run,
{
}

/// The sync command syncs the given store with the given members and retention period.
pub proof fn sync_command_starts_a_sync(
    octosync: &Octosync,
    store: UserStore,
    members: MemberMap,
    purge_after_days: u32,
    r: SyncRun,
)
    requires
        call_ensures(Octosync::sync, (octosync, store, members, purge_after_days), r),
    ensures
        r@.old == store@,
        r@.members == members@,
        r@.purge_after_days == purge_after_days,
        r@.phase is EnsureGroups || r@.phase == PhaseView::Failed(
            SyncFailure::NoStoredUserIsMember,
        ),
        (exists|id: UserId| #[trigger]
            store@.users.contains_key(id) && members@.contains_key(id)) ==> r@.phase is EnsureGroups,
{
}

/// Whatever a sync does, the store that was loaded, the members and the retention period stay as
/// they were.
pub proof fn sync_keeps_what_it_was_given(sync: &mut SyncRun, reply: SyncReply, now: Timestamp)
    requires
        call_ensures(SyncRun::advance, (sync, reply, now), ()),
    ensures
        final(sync)@.old == old(sync)@.old,
        final(sync)@.members == old(sync)@.members,
        final(sync)@.purge_after_days == old(sync)@.purge_after_days,
{
    let v = old(sync)@;
    let w = final(sync)@;
    match (v.phase, reply) {
        (PhaseView::ProcessMembers, SyncReply::Processed(processed)) => {
            let (mid, leavers, refused, retry) = choose|
                mid: StoreView,
                leavers: Seq<User>,
                refused: bool,
                retry: Seq<User>,
            |
                #[trigger] departs(v, w, processed@, now, mid, leavers, refused, retry);
            assert(departs(v, w, processed@, now, mid, leavers, refused, retry));
        },
        (PhaseView::Departing(d), SyncReply::Departure(r)) => {
            if departures_next(d, r).step is Finished {
                let left = store_after_departure(v.store, d, r);
                let p = choose|p: PurgeView| #[trigger] begins_purge(v, w, left, now, p);
                assert(begins_purge(v, w, left, now, p));
            }
        },
        _ => {},
    }
}

/// A sync that processed its members is refused if and only if somebody is stored, and nobody of
/// them was processed or is a member.
pub proof fn sync_is_refused_where_everybody_would_leave(
    sync: &mut SyncRun,
    processed: Vec<Option<User>>,
    now: Timestamp,
)
    requires
        call_ensures(SyncRun::advance, (sync, SyncReply::Processed(processed), now), ()),
        old(sync)@.phase is ProcessMembers,
        old(sync)@.old.users.dom().finite(),
        forall|k: UserId| #[trigger] old(sync)@.old.users.contains_key(k) ==> old(sync)@.old.users[k].id == k,
    ensures
        final(sync)@.phase is SaveRefused <==> (exists|k: UserId| #[trigger]
            old(sync)@.old.users.contains_key(k)) && (forall|k: UserId| #[trigger]
            old(sync)@.old.users.contains_key(k) ==> !old(sync)@.members.contains_key(k)
                && forall|i: int|
                0 <= i < processed@.len() && (#[trigger] processed@[i]) is Some
                    ==> processed@[i]->0.id != k),
{
    let v = old(sync)@;
    let w = final(sync)@;
    let users = v.old.users;
    let (mid, leavers, refused, retry) = choose|
        mid: StoreView,
        leavers: Seq<User>,
        refused: bool,
        retry: Seq<User>,
    |
        #[trigger] departs(v, w, processed@, now, mid, leavers, refused, retry);
    let start = StoreView { users: Map::empty(), ..v.old };
    let new = collected(v.old, processed@);
    let keep = |u: User| is_leaver(u, new.users, v.members);
    lemma_all_listed(leavers, users, keep);
    assert forall|k: UserId| #[trigger] users.contains_key(k) implies (keep(users[k])
        <==> !v.members.contains_key(k) && forall|i: int|
        0 <= i < processed@.len() && (#[trigger] processed@[i]) is Some ==> processed@[i]->0.id
            != k) by {
        lemma_processed_ids(start, processed@, k);
    }
    if exists|k: UserId| #[trigger] users.contains_key(k) {
        let k = choose|k: UserId| #[trigger] users.contains_key(k);
        assert(users.dom().contains(k));
        if users.dom().len() == 0 {
            assert(users.dom() =~= Set::empty());
        }
    }
}

/// While departures are under way in a sync, a save that succeeds leads on and one that fails ends
/// the sync. Neither changes the store. Accounts are disabled one after the other.
pub proof fn sync_runs_the_departures(sync: &mut SyncRun, reply: DepartureReply, now: Timestamp)
    requires
        call_ensures(SyncRun::advance, (sync, SyncReply::Departure(reply), now), ()),
        old(sync)@.phase is Departing,
    ensures
        ({
            let d = old(sync)@.phase->Departing_0;
            let w = final(sync)@;
            &&& d.step is SaveDepartures && reply is Saved ==> {
                &&& w.phase is Departing
                &&& w.phase->Departing_0.pending == d.pending
                &&& w.phase->Departing_0.next == 0
                &&& d.pending.len() > 0 ==> w.phase->Departing_0.step is Disable
                &&& d.pending.len() == 0 ==> w.phase->Departing_0.step is SaveResults
                &&& w.store == old(sync)@.store
            }
            &&& d.step is Disable ==> {
                &&& w.phase is Departing
                &&& w.phase->Departing_0.pending == d.pending
                &&& w.phase->Departing_0.next == d.next + 1
                &&& d.next + 1 < d.pending.len() ==> w.phase->Departing_0.step is Disable
                &&& d.next + 1 >= d.pending.len() ==> w.phase->Departing_0.step is SaveResults
            }
            &&& (d.step is SaveDepartures || d.step is SaveResults) && reply is Failed ==> w.phase
                == PhaseView::Failed(SyncFailure::Save) && w.store == old(sync)@.store
        }),
{
}

/// While a purge is under way in a sync, an account is deleted once its marker is saved, and the
/// next one has its turn once the result is saved.
pub proof fn sync_runs_the_purge(sync: &mut SyncRun, reply: PurgeReply, now: Timestamp)
    requires
        call_ensures(SyncRun::advance, (sync, SyncReply::Purge(reply), now), ()),
        old(sync)@.phase is Purging,
    ensures
        ({
            let p = old(sync)@.phase->Purging_0;
            let w = final(sync)@;
            &&& p.step is SaveMarker && reply is Saved ==> {
                &&& w.phase is Purging
                &&& w.phase->Purging_0.step is Purge
                &&& w.phase->Purging_0.next == p.next
                &&& w.store == old(sync)@.store
            }
            &&& p.step is SaveResult && reply is Saved ==> {
                &&& w.phase is Purging
                &&& w.phase->Purging_0.next == p.next + 1
                &&& p.next + 1 >= p.candidates.len() ==> w.phase->Purging_0.step is SaveAll
                    && w.store == old(sync)@.store
                &&& p.next + 1 < p.candidates.len() ==> {
                    let id = p.candidates[p.next + 1].id;
                    let marked = old(sync)@.store.departed.contains_key(id) && old(sync)@.store.departed[id].purge_started_at is Some;
                    &&& w.phase->Purging_0.interrupted == marked
                    &&& marked ==> w.phase->Purging_0.step is Purge
                    &&& !marked ==> w.phase->Purging_0.step is SaveMarker
                }
            }
            &&& w.phase is Purging ==> w.phase->Purging_0.candidates == p.candidates
                && w.phase->Purging_0.cutoff == p.cutoff && w.phase->Purging_0.now == p.now
        }),
{
}

/// What a sync shows is what it has: the stores, the members, and what is under way.
pub proof fn sync_shows_what_it_has(
    sync: &SyncRun,
    loaded: &UserStore,
    store: &UserStore,
    members: &MemberMap,
    departures: Option<&Departures>,
    purge: Option<&Purge>,
    action: SaveAction,
)
    requires
        call_ensures(SyncRun::loaded, (sync,), loaded),
        call_ensures(SyncRun::store, (sync,), store),
        call_ensures(SyncRun::members, (sync,), members),
        call_ensures(SyncRun::departures, (sync,), departures),
        call_ensures(SyncRun::purge, (sync,), purge),
        call_ensures(SyncRun::begin_save, (sync,), action),
    ensures
        loaded@ == sync@.old,
        store@ == sync@.store,
        members@ == sync@.members,
        departures is Some <==> sync@.phase is Departing,
        departures is Some ==> departures->0@ == sync@.phase->Departing_0,
        purge is Some <==> sync@.phase is Purging,
        purge is Some ==> purge->0@ == sync@.phase->Purging_0,
        action is Skip <==> sync@.store.dry_run,
        !sync@.store.dry_run ==> action is Write && action->backup_first
            == sync@.store.migrated_from_v1,
{
}

/// A backup that was made during a sync is not made again, and changes nothing else.
pub proof fn backup_is_noted(sync: &mut SyncRun)
    requires
        call_ensures(SyncRun::backed_up, (sync,), ()),
    ensures
        !final(sync)@.store.migrated_from_v1,
        final(sync)@.store.users == old(sync)@.store.users,
        final(sync)@.store.departed == old(sync)@.store.departed,
        final(sync)@.store.purged == old(sync)@.store.purged,
        final(sync)@.store.dry_run == old(sync)@.store.dry_run,
        final(sync)@.phase == old(sync)@.phase,
        final(sync)@.old == old(sync)@.old,
        final(sync)@.members == old(sync)@.members,
        final(sync)@.purge_after_days == old(sync)@.purge_after_days,
{
}

} // verus!
