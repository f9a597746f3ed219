//! The purge: permanently deleting departed accounts once the retention period is over.
//!
//! The intent to delete an account is saved before the account can disappear, and every result is
//! saved before the next account is attempted. An interruption in between is therefore not
//! mistaken for somebody else's doing.
use crate::calendar::{days_before, earlier_or_same, in_range, not_after, Timestamp, EARLIEST};
use crate::departures::lists_departed;
use crate::listing::{are_kept_keys, kept_keys, kept_keys_are_kept, keys_of};
use crate::members::MemberMap;
use crate::store::{
    identity_of, ids_for, keyed, with_marker, with_purge, DepartedUser, StoreView, User, UserId,
    UserStore,
};
use crate::user_manager::messages::PurgeOutcome;
use vstd::prelude::*;

verus! {

/// Days after which the account of a departed member is deleted, unless told otherwise.
pub const DEFAULT_PURGE_AFTER_DAYS: u32 = 180;

/// Whether the retention period reaches back to a point in time that has a calendar date.
pub open spec fn has_cutoff(now: Timestamp, purge_after_days: u32) -> bool {
    in_range(now) && EARLIEST <= now.secs - purge_after_days * 86400
}

/// The point in time before which an account must have been disabled to be deleted.
pub open spec fn is_cutoff(cutoff: Timestamp, now: Timestamp, purge_after_days: u32) -> bool {
    cutoff.secs == now.secs - purge_after_days * 86400 && cutoff.nanos == now.nanos
}

/// Whether the account of a departed member may be deleted. That of a current member never is.
pub open spec fn is_candidate(
    departed: DepartedUser,
    cutoff: Timestamp,
    members: Map<UserId, String>,
) -> bool {
    earlier_or_same(departed.departed_at, cutoff) && !members.contains_key(departed.id)
}

/// The step to take, or where the purge ends.
#[derive(Debug, Clone, Copy, PartialEq, Eq, Structural)]
pub enum PurgeStep {
    /// Save the marker of the current account.
    SaveMarker,
    /// Delete the current account.
    Purge,
    /// Save what came of it.
    SaveResult,
    /// Save at the end.
    SaveAll,
    /// Everything is done.
    Finished,
    /// The store could not be saved.
    SaveFailed,
    /// The member list is empty, which would make every departure record eligible.
    Refused,
}

/// What came of a step.
#[derive(Debug, Clone, Copy, PartialEq, Eq, Structural)]
pub enum PurgeReply {
    /// The store was saved.
    Saved,
    /// The account was looked at with the given result.
    Outcome(PurgeOutcome),
    /// It failed.
    Failed,
}

/// A purge under way, as contracts see it.
pub struct PurgeView {
    /// The users whose account may be deleted.
    pub candidates: Seq<User>,
    /// How many of them had their turn.
    pub next: int,
    /// The step to take.
    pub step: PurgeStep,
    /// Whether an earlier run started to delete the current account.
    pub interrupted: bool,
    /// When the purge began.
    pub now: Timestamp,
    /// The point in time before which an account must have been disabled. It means nothing where
    /// the purge was refused.
    pub cutoff: Timestamp,
}

/// A purge under way.
pub struct Purge {
    candidates: Vec<User>,
    next: usize,
    step: PurgeStep,
    interrupted: bool,
    now: Timestamp,
    cutoff: Timestamp,
}

impl View for Purge {
    type V = PurgeView;

    closed spec fn view(&self) -> PurgeView {
        PurgeView {
            candidates: self.candidates@,
            next: self.next as int,
            step: self.step,
            interrupted: self.interrupted,
            now: self.now,
            cutoff: self.cutoff,
        }
    }
}

/// Whether a departure record carries the marker of a deletion that was started.
pub open spec fn has_marker(s: StoreView, id: UserId) -> bool {
    s.departed.contains_key(id) && s.departed[id].purge_started_at is Some
}

/// The purge that turns to a candidate, or past them all.
pub open spec fn at_candidate(p: PurgeView, s: StoreView, next: int) -> PurgeView {
    if next < p.candidates.len() {
        let interrupted = has_marker(s, p.candidates[next].id);
        PurgeView {
            next,
            interrupted,
            step: if interrupted {
                PurgeStep::Purge
            } else {
                PurgeStep::SaveMarker
            },
            ..p
        }
    } else {
        PurgeView { next, step: PurgeStep::SaveAll, ..p }
    }
}

/// The store when the purge turns to a candidate: it gets the marker unless it has one.
pub open spec fn store_at_candidate(p: PurgeView, s: StoreView, next: int) -> StoreView {
    if next < p.candidates.len() && !has_marker(s, p.candidates[next].id) {
        with_marker(s, p.candidates[next].id, Some(p.now))
    } else {
        s
    }
}

/// Whether a reply is one that the step can have.
pub open spec fn answers(step: PurgeStep, reply: PurgeReply) -> bool {
    match step {
        PurgeStep::SaveMarker | PurgeStep::SaveResult | PurgeStep::SaveAll => reply is Saved
            || reply is Failed,
        PurgeStep::Purge => reply is Outcome || reply is Failed,
        _ => false,
    }
}

/// What follows a step.
pub open spec fn purge_next(p: PurgeView, s: StoreView, reply: PurgeReply) -> PurgeView {
    match (p.step, reply) {
        (PurgeStep::SaveMarker, PurgeReply::Saved) => PurgeView { step: PurgeStep::Purge, ..p },
        (PurgeStep::Purge, _) => PurgeView { step: PurgeStep::SaveResult, ..p },
        (PurgeStep::SaveResult, PurgeReply::Saved) => at_candidate(p, s, p.next + 1),
        (PurgeStep::SaveAll, PurgeReply::Saved) => PurgeView { step: PurgeStep::Finished, ..p },
        (PurgeStep::SaveMarker | PurgeStep::SaveResult | PurgeStep::SaveAll, _) => PurgeView {
            step: PurgeStep::SaveFailed,
            ..p
        },
        _ => p,
    }
}

/// The store after an attempt to delete the account of a candidate.
///
/// A missing account counts as deleted only when the marker proves that an earlier purge started
/// it. The marker stays when the attempt failed, because the account may be gone all the same.
pub open spec fn store_after_outcome(
    s: StoreView,
    id: UserId,
    interrupted: bool,
    now: Timestamp,
    reply: PurgeReply,
) -> StoreView {
    match reply {
        PurgeReply::Outcome(PurgeOutcome::Deleted) => with_purge(s, id, now),
        PurgeReply::Outcome(PurgeOutcome::NoAccount) => if interrupted {
            with_purge(s, id, now)
        } else {
            with_marker(s, id, None)
        },
        PurgeReply::Outcome(PurgeOutcome::NotDisabledLongEnough) => with_marker(s, id, None),
        _ => s,
    }
}

/// The store after a step.
pub open spec fn store_after_purge(p: PurgeView, s: StoreView, reply: PurgeReply) -> StoreView {
    match (p.step, reply) {
        (PurgeStep::Purge, _) => store_after_outcome(
            s,
            p.candidates[p.next].id,
            p.interrupted,
            p.now,
            reply,
        ),
        (PurgeStep::SaveResult, PurgeReply::Saved) => store_at_candidate(p, s, p.next + 1),
        _ => s,
    }
}

/// The identities of the departed members whose account may be deleted.
fn candidate_users(store: &UserStore, members: &MemberMap, cutoff: Timestamp) -> (r: Vec<User>)
    ensures
        lists_departed(r@, store@.departed, |d: DepartedUser| is_candidate(d, cutoff, members@)),
{
    let map = store.departed();
    let ghost view = map@;
    let ghost keep = |d: DepartedUser| is_candidate(d, cutoff, members@);
    let ids = keys_of(map);
    let mut r: Vec<User> = Vec::new();
    let mut i: usize = 0;
    while i < ids.len()
        invariant
            i <= ids@.len(),
            view == map@,
            ids@.to_set() == view.dom(),
            keep == (|d: DepartedUser| is_candidate(d, cutoff, members@)),
            r@ == kept_keys(ids@.take(i as int), view, keep).map_values(|k: UserId| identity_of(view[k])),
        decreases ids@.len() - i,
    {
        broadcast use vstd::std_specs::hash::group_hash_axioms;

        let ghost next = ids@.take(i + 1);
        proof {
            assert(next.drop_last() == ids@.take(i as int));
            assert(ids@.to_set().contains(ids@[i as int]));
        }
        if let Some(record) = map.get(&ids[i]) {
            if not_after(record.departed_at, cutoff) && !members.contains_key(&record.id) {
                r.push(User::from(record));
            }
        }
        assert(r@ == kept_keys(next, view, keep).map_values(|k: UserId| identity_of(view[k])));
        i = i + 1;
    }
    proof {
        assert(ids@.take(ids@.len() as int) == ids@);
        kept_keys_are_kept(ids@, view, keep);
        assert(are_kept_keys(kept_keys(ids@, view, keep), view, |d: DepartedUser| is_candidate(d, cutoff, members@)));
    }
    r
}

/// What a refused purge reports.
pub fn refusal_message(org: &str) -> (r: String)
    ensures
        r@ == "Refusing to purge: GitHub org '"@ + org@
            + "' returned no members, which would make every departure record eligible. No accounts were deleted."@,
{
    let mut r = "Refusing to purge: GitHub org '".to_owned();
    r.append(org);
    r.append(
        "' returned no members, which would make every departure record eligible. No accounts were deleted.",
    );
    r
}

/// Whether a purge began as it should, with the given candidates and what they are taken from.
pub open spec fn is_started(
    p: PurgeView,
    after: StoreView,
    before: StoreView,
    members: Map<UserId, String>,
    now: Timestamp,
    purge_after_days: u32,
) -> bool {
    &&& p.now == now
    &&& if members.is_empty() {
        p.step is Refused && after == before
    } else {
        &&& is_cutoff(p.cutoff, now, purge_after_days)
        &&& lists_departed(
            p.candidates,
            before.departed,
            |d: DepartedUser| is_candidate(d, p.cutoff, members),
        )
        &&& p == at_candidate(p, before, 0)
        &&& after == store_at_candidate(p, before, 0)
    }
}

impl Purge {
    /// Finds out whose account may be deleted, and turns to the first of them.
    pub fn start(
        store: &mut UserStore,
        members: &MemberMap,
        now: Timestamp,
        purge_after_days: u32,
    ) -> (r: Self)
        requires
            !members@.is_empty() ==> has_cutoff(now, purge_after_days),
        ensures
            is_started(r@, final(store)@, old(store)@, members@, now, purge_after_days),
            purge_valid(r@),
    {
        if members.is_empty() {
            return Purge {
                candidates: Vec::new(),
                next: 0,
                step: PurgeStep::Refused,
                interrupted: false,
                now,
                cutoff: now,
            };
        }
        let cutoff = days_before(now, purge_after_days);
        let candidates = candidate_users(store, members, cutoff);
        let mut r = Purge {
            candidates,
            next: 0,
            step: PurgeStep::SaveAll,
            interrupted: false,
            now,
            cutoff,
        };
        r.turn_to(store, 0);
        r
    }

    /// Turns to a candidate.
    fn turn_to(&mut self, store: &mut UserStore, next: usize)
        ensures
            final(self)@ == at_candidate(old(self)@, old(store)@, next as int),
            final(store)@ == store_at_candidate(old(self)@, old(store)@, next as int),
    {
        broadcast use vstd::std_specs::hash::group_hash_axioms;

        self.next = next;
        if next < self.candidates.len() {
            let id = self.candidates[next].id;
            let interrupted = match store.departed().get(&id) {
                Some(departure) => match departure.purge_started_at {
                    Some(_) => true,
                    None => false,
                },
                None => false,
            };
            self.interrupted = interrupted;
            if interrupted {
                self.step = PurgeStep::Purge;
            } else {
                store.mark_purge_started(&id, self.now);
                self.step = PurgeStep::SaveMarker;
            }
        } else {
            self.step = PurgeStep::SaveAll;
        }
    }

    /// The step to take, or where the purge ended.
    pub fn step(&self) -> (r: PurgeStep)
        ensures
            r == self@.step,
    {
        self.step
    }

    /// The user whose account is to be deleted.
    pub fn user(&self) -> (r: &User)
        requires
            0 <= self@.next < self@.candidates.len(),
        ensures
            *r == self@.candidates[self@.next],
    {
        &self.candidates[self.next]
    }

    /// The point in time before which the account must have been disabled.
    pub fn cutoff(&self) -> (r: Timestamp)
        ensures
            r == self@.cutoff,
    {
        self.cutoff
    }

    /// Goes on after a step.
    pub fn advance(&mut self, store: &mut UserStore, reply: PurgeReply)
        requires
            answers(old(self)@.step, reply),
            purge_valid(old(self)@),
        ensures
            final(self)@ == purge_next(old(self)@, old(store)@, reply),
            final(store)@ == store_after_purge(old(self)@, old(store)@, reply),
            purge_valid(final(self)@),
    {
        match self.step {
            PurgeStep::SaveMarker => match reply {
                PurgeReply::Saved => {
                    self.step = PurgeStep::Purge;
                },
                _ => {
                    self.step = PurgeStep::SaveFailed;
                },
            },
            PurgeStep::Purge => {
                let id = self.candidates[self.next].id;
                if let PurgeReply::Outcome(outcome) = reply {
                    match outcome {
                        PurgeOutcome::Deleted => store.mark_purged(&id, self.now),
                        PurgeOutcome::NoAccount => {
                            if self.interrupted {
                                store.mark_purged(&id, self.now);
                            } else {
                                store.clear_purge_started(&id);
                            }
                        },
                        PurgeOutcome::NotDisabledLongEnough => store.clear_purge_started(&id),
                    }
                }
                self.step = PurgeStep::SaveResult;
            },
            PurgeStep::SaveResult => match reply {
                PurgeReply::Saved => {
                    let count: usize = self.candidates.len();
                    assert(self.next < count);
                    let next: usize = self.next + 1;
                    self.turn_to(store, next);
                },
                _ => {
                    self.step = PurgeStep::SaveFailed;
                },
            },
            PurgeStep::SaveAll => match reply {
                PurgeReply::Saved => {
                    self.step = PurgeStep::Finished;
                },
                _ => {
                    self.step = PurgeStep::SaveFailed;
                },
            },
            _ => {},
        }
    }
}

/// What every state of a purge keeps: the current user is one of the candidates.
pub open spec fn purge_valid(p: PurgeView) -> bool {
    &&& 0 <= p.next
    &&& p.step is SaveMarker || p.step is Purge || p.step is SaveResult ==> p.next
        < p.candidates.len()
}

/// What every state of a purge keeps, together with the store: the candidates are different
/// departed members and no current ones. The departure records of those whose turn is still to
/// come are in place, and the current one carries the marker.
pub open spec fn purge_consistent(
    p: PurgeView,
    s: StoreView,
    members: Map<UserId, String>,
) -> bool {
    &&& keyed(s)
    &&& purge_valid(p)
    &&& forall|i: int, j: int|
        0 <= i < j < p.candidates.len() ==> (#[trigger] p.candidates[i]).id != (
        #[trigger] p.candidates[j]).id
    &&& forall|i: int|
        0 <= i < p.candidates.len() ==> !members.contains_key((#[trigger] p.candidates[i]).id)
    &&& forall|i: int|
        p.next < i < p.candidates.len() ==> s.departed.contains_key((#[trigger] p.candidates[i]).id)
            && identity_of(s.departed[p.candidates[i].id]) == p.candidates[i]
    &&& p.step is SaveMarker || p.step is Purge ==> has_marker(s, p.candidates[p.next].id)
        && identity_of(s.departed[p.candidates[p.next].id]) == p.candidates[p.next]
}

/// Turning to a candidate whose record is in place keeps a purge consistent.
proof fn lemma_turning(p: PurgeView, s: StoreView, members: Map<UserId, String>, next: int)
    requires
        keyed(s),
        0 <= next,
        forall|i: int, j: int|
            0 <= i < j < p.candidates.len() ==> (#[trigger] p.candidates[i]).id != (
            #[trigger] p.candidates[j]).id,
        forall|i: int|
            0 <= i < p.candidates.len() ==> !members.contains_key((#[trigger] p.candidates[i]).id),
        forall|i: int|
            next <= i < p.candidates.len() ==> s.departed.contains_key(
                (#[trigger] p.candidates[i]).id,
            ) && identity_of(s.departed[p.candidates[i].id]) == p.candidates[i],
    ensures
        purge_consistent(at_candidate(p, s, next), store_at_candidate(p, s, next), members),
{
    let q = at_candidate(p, s, next);
    let t = store_at_candidate(p, s, next);
    if next < p.candidates.len() {
        let id = p.candidates[next].id;
        assert(s.departed.contains_key(id));
        assert forall|i: int| next < i < q.candidates.len() implies t.departed.contains_key(
            (#[trigger] q.candidates[i]).id,
        ) && identity_of(t.departed[q.candidates[i].id]) == q.candidates[i] by {
            assert(p.candidates[next].id != p.candidates[i].id);
            assert(s.departed.contains_key(p.candidates[i].id));
        }
    }
}

/// A purge starts consistent, for a store whose records stand under their own IDs.
pub proof fn purge_starts_consistent(
    p: PurgeView,
    after: StoreView,
    before: StoreView,
    members: Map<UserId, String>,
    now: Timestamp,
    purge_after_days: u32,
)
    requires
        is_started(p, after, before, members, now, purge_after_days),
        keyed(before),
        !members.is_empty(),
    ensures
        purge_consistent(p, after, members),
{
    let keep = |d: DepartedUser| is_candidate(d, p.cutoff, members);
    let keys = choose|keys: Seq<UserId>|
        #![trigger are_kept_keys(keys, before.departed, keep)]
        are_kept_keys(keys, before.departed, keep) && p.candidates == keys.map_values(
            |k: UserId| identity_of(before.departed[k]),
        );
    assert forall|i: int| 0 <= i < p.candidates.len() implies before.departed.contains_key(
        (#[trigger] p.candidates[i]).id,
    ) && identity_of(before.departed[p.candidates[i].id]) == p.candidates[i]
        && !members.contains_key(p.candidates[i].id) && p.candidates[i].id == keys[i] by {
        assert(keys.contains(keys[i]));
        assert(before.departed.contains_key(keys[i]));
        assert(p.candidates[i] == identity_of(before.departed[keys[i]]));
    }
    assert forall|i: int, j: int| 0 <= i < j < p.candidates.len() implies (
    #[trigger] p.candidates[i]).id != (#[trigger] p.candidates[j]).id by {
        assert(p.candidates[i].id == keys[i]);
        assert(p.candidates[j].id == keys[j]);
    }
    lemma_turning(p, before, members, 0);
}

/// The accounts to delete are exactly those whose departure is recorded and lies before the
/// retention period, and who are no members.
pub proof fn exactly_the_due_are_purged(
    p: PurgeView,
    after: StoreView,
    before: StoreView,
    members: Map<UserId, String>,
    now: Timestamp,
    purge_after_days: u32,
    id: UserId,
)
    requires
        is_started(p, after, before, members, now, purge_after_days),
        keyed(before),
        !members.is_empty(),
    ensures
        (exists|i: int| 0 <= i < p.candidates.len() && (#[trigger] p.candidates[i]).id == id) <==> {
            &&& before.departed.contains_key(id)
            &&& is_candidate(before.departed[id], p.cutoff, members)
        },
        is_cutoff(p.cutoff, now, purge_after_days),
{
    let keep = |d: DepartedUser| is_candidate(d, p.cutoff, members);
    let keys = choose|keys: Seq<UserId>|
        #![trigger are_kept_keys(keys, before.departed, keep)]
        are_kept_keys(keys, before.departed, keep) && p.candidates == keys.map_values(
            |k: UserId| identity_of(before.departed[k]),
        );
    assert forall|i: int| 0 <= i < p.candidates.len() implies (#[trigger] p.candidates[i]).id
        == keys[i] && before.departed.contains_key(keys[i]) && keep(before.departed[keys[i]]) by {
        assert(keys.contains(keys[i]));
    }
    if before.departed.contains_key(id) && keep(before.departed[id]) {
        assert(keys.contains(id));
        let i = keys.index_of(id);
        assert(p.candidates[i].id == id);
    }
}

/// Every step keeps a purge consistent.
pub proof fn purge_stays_consistent(
    p: PurgeView,
    s: StoreView,
    members: Map<UserId, String>,
    reply: PurgeReply,
)
    requires
        purge_consistent(p, s, members),
        answers(p.step, reply),
    ensures
        purge_consistent(purge_next(p, s, reply), store_after_purge(p, s, reply), members),
{
    let q = purge_next(p, s, reply);
    let t = store_after_purge(p, s, reply);
    if p.step is SaveResult && reply is Saved {
        lemma_turning(p, s, members, p.next + 1);
    } else if p.step is Purge {
        let id = p.candidates[p.next].id;
        assert forall|i: int| q.next < i < q.candidates.len() implies t.departed.contains_key(
            (#[trigger] q.candidates[i]).id,
        ) && identity_of(t.departed[q.candidates[i].id]) == q.candidates[i] by {
            assert(p.candidates[p.next].id != p.candidates[i].id);
            assert(s.departed.contains_key(p.candidates[i].id));
        }
    }
}

/// An account is deleted only when the store, as it was last saved, says that its deletion was
/// started. Either the marker was just saved, or an earlier run had saved it.
pub proof fn deletion_is_recorded_first(
    p: PurgeView,
    s: StoreView,
    members: Map<UserId, String>,
    reply: PurgeReply,
)
    requires
        purge_consistent(p, s, members),
        answers(p.step, reply),
        purge_next(p, s, reply).step is Purge,
    ensures
        reply is Saved,
        ({
            let q = purge_next(p, s, reply);
            &&& store_after_purge(p, s, reply) == s
            &&& has_marker(s, q.candidates[q.next].id)
            &&& q.interrupted == (p.step is SaveResult || p.interrupted)
        }),
{
}

/// The next account is attempted only when the result of the one before is saved.
pub proof fn result_is_saved_before_the_next(p: PurgeView, s: StoreView, reply: PurgeReply)
    requires
        answers(p.step, reply),
        purge_next(p, s, reply).next != p.next,
    ensures
        p.step is SaveResult,
        reply is Saved,
        purge_next(p, s, reply).next == p.next + 1,
{
}

/// Nobody's account is deleted while they are a member.
pub proof fn members_are_not_purged(p: PurgeView, s: StoreView, members: Map<UserId, String>)
    requires
        purge_consistent(p, s, members),
        p.step is Purge,
    ensures
        !members.contains_key(p.candidates[p.next].id),
{
}

/// A purge changes the record of the current account at most. Active users stay as they are.
pub proof fn others_are_left_alone(
    p: PurgeView,
    s: StoreView,
    members: Map<UserId, String>,
    reply: PurgeReply,
    other: UserId,
)
    requires
        purge_consistent(p, s, members),
        answers(p.step, reply),
        p.step is Purge,
        other != p.candidates[p.next].id,
    ensures
        ({
            let t = store_after_purge(p, s, reply);
            &&& t.users == s.users
            &&& t.departed.contains_key(other) == s.departed.contains_key(other)
            &&& s.departed.contains_key(other) ==> t.departed[other] == s.departed[other]
            &&& t.purged.contains_key(other) == s.purged.contains_key(other)
            &&& s.purged.contains_key(other) ==> t.purged[other] == s.purged[other]
        }),
{
}

/// The UID and GID of every member survive the purge.
pub proof fn ids_survive_the_purge(
    p: PurgeView,
    s: StoreView,
    members: Map<UserId, String>,
    reply: PurgeReply,
    id: UserId,
)
    requires
        purge_consistent(p, s, members),
        answers(p.step, reply),
    ensures
        ids_for(store_after_purge(p, s, reply), id) == ids_for(s, id),
{
}

/// A departure record stays until the deletion is confirmed: by the backend, or by a missing
/// account whose deletion an earlier run had started.
pub proof fn record_stays_until_deletion_is_confirmed(
    p: PurgeView,
    s: StoreView,
    members: Map<UserId, String>,
    reply: PurgeReply,
)
    requires
        purge_consistent(p, s, members),
        answers(p.step, reply),
        p.step is Purge,
    ensures
        ({
            let id = p.candidates[p.next].id;
            let confirmed = reply == PurgeReply::Outcome(PurgeOutcome::Deleted) || reply
                == PurgeReply::Outcome(PurgeOutcome::NoAccount) && p.interrupted;
            let t = store_after_purge(p, s, reply);
            &&& t.departed.contains_key(id) == !confirmed
            &&& confirmed ==> t.purged.contains_key(id)
            &&& reply is Failed ==> has_marker(t, id)
        }),
{
}

/// With an empty member list, nothing is deleted and nothing changes.
pub proof fn empty_member_list_refuses(
    p: PurgeView,
    after: StoreView,
    before: StoreView,
    now: Timestamp,
    purge_after_days: u32,
)
    requires
        is_started(
            p,
            after,
            before,
            Map::<UserId, String>::empty(),
            now,
            purge_after_days,
        ),
    ensures
        p.step is Refused,
        after == before,
{
    assert(Map::<UserId, String>::empty().is_empty());
}

/// Whether the replies lead from each of the states of a purge to the next, given the store at
/// each reply.
pub open spec fn purge_run(
    states: Seq<PurgeView>,
    stores: Seq<StoreView>,
    replies: Seq<PurgeReply>,
) -> bool {
    &&& states.len() == replies.len() + 1
    &&& stores.len() == replies.len()
    &&& forall|i: int|
        0 <= i < replies.len() ==> answers(states[i].step, #[trigger] replies[i]) && states[i + 1]
            == purge_next(states[i], stores[i], replies[i])
}

/// The users whose account the purge attempted to delete in the given states, in order.
pub open spec fn attempts(states: Seq<PurgeView>) -> Seq<User>
    decreases states.len(),
{
    if states.len() == 0 {
        Seq::empty()
    } else {
        let p = states.last();
        let rest = attempts(states.drop_last());
        if p.step is Purge {
            rest.push(p.candidates[p.next])
        } else {
            rest
        }
    }
}

/// A purge that is finished has attempted to delete the account of every candidate exactly once,
/// and in order, whatever came of it.
pub proof fn every_candidate_has_its_turn(
    states: Seq<PurgeView>,
    stores: Seq<StoreView>,
    replies: Seq<PurgeReply>,
    after: StoreView,
    before: StoreView,
    members: Map<UserId, String>,
    now: Timestamp,
    purge_after_days: u32,
)
    requires
        is_started(states[0], after, before, members, now, purge_after_days),
        purge_run(states, stores, replies),
        states.last().step is Finished,
    ensures
        attempts(states) == states[0].candidates,
{
    let n = states.len() - 1;
    if members.is_empty() && replies.len() > 0 {
        assert(answers(states[0].step, replies[0]));
    }
    lemma_attempts(states, stores, replies, n);
    assert(states.drop_last() == states.take(n));
    assert(states[0].candidates.take(states[0].candidates.len() as int) == states[0].candidates);
}

/// How many candidates had their attempt when a purge comes to a state.
spec fn attempted(p: PurgeView) -> int {
    if p.step is SaveResult {
        p.next + 1
    } else if p.step is SaveAll || p.step is Finished {
        p.candidates.len() as int
    } else {
        p.next
    }
}

/// Before each state that no failed save has led to, the candidates before it had their attempt.
proof fn lemma_attempts(
    states: Seq<PurgeView>,
    stores: Seq<StoreView>,
    replies: Seq<PurgeReply>,
    n: int,
)
    requires
        states.len() > 0,
        states[0].next == 0,
        states[0].step is SaveMarker || states[0].step is Purge || states[0].step is SaveAll,
        states[0].step is SaveAll <==> states[0].candidates.len() == 0,
        purge_run(states, stores, replies),
        0 <= n < states.len(),
        !(states[n].step is SaveFailed),
        !(states[n].step is Refused),
    ensures
        purge_valid(states[n]),
        states[n].candidates == states[0].candidates,
        attempts(states.take(n)) == states[0].candidates.take(attempted(states[n])),
    decreases n,
{
    if n > 0 {
        let p = states[n - 1];
        assert(answers(p.step, replies[n - 1]));
        assert(states[n] == purge_next(p, stores[n - 1], replies[n - 1]));
        lemma_attempts(states, stores, replies, n - 1);
        assert(states.take(n).drop_last() == states.take(n - 1));
        assert(states.take(n).last() == p);
        if p.step is Purge {
            assert(p.candidates.take(p.next + 1) == p.candidates.take(p.next).push(
                p.candidates[p.next],
            ));
        }
    } else {
        assert(attempts(states.take(0)) == states[0].candidates.take(attempted(states[0])));
    }
}

/// An account is one to delete if and only if its owner departed, is no member, and departed at
/// least the retention period before now, as long as that was asked for. It is deleted under the
/// name and the IDs of the departure record, and nobody comes twice.
pub proof fn retention_period_is_kept(
    store: &mut UserStore,
    members: &MemberMap,
    now: Timestamp,
    purge_after_days: u32,
    p: Purge,
    id: UserId,
)
    requires
        call_ensures(Purge::start, (store, members, now, purge_after_days), p),
        exists|k: UserId| #[trigger] members@.contains_key(k),
        forall|k: UserId| #[trigger] old(store)@.departed.contains_key(k) ==> old(store)@.departed[k].id == k,
    ensures
        (exists|i: int| 0 <= i < p@.candidates.len() && (#[trigger] p@.candidates[i]).id == id) <==> {
            &&& old(store)@.departed.contains_key(id)
            &&& !members@.contains_key(id)
            &&& {
                let at = old(store)@.departed[id].departed_at;
                ||| at.secs + purge_after_days * 86400 < now.secs
                ||| at.secs + purge_after_days * 86400 == now.secs && at.nanos <= now.nanos
            }
        },
        forall|i: int|
            0 <= i < p@.candidates.len() && (#[trigger] p@.candidates[i]).id == id ==> {
                &&& p@.candidates[i].name == old(store)@.departed[id].name
                &&& p@.candidates[i].uid == old(store)@.departed[id].uid
                &&& p@.candidates[i].gid == old(store)@.departed[id].gid
            },
        forall|i: int, j: int|
            0 <= i < j < p@.candidates.len() ==> (#[trigger] p@.candidates[i]).id != (
            #[trigger] p@.candidates[j]).id,
        p@.cutoff.secs == now.secs - purge_after_days * 86400,
        p@.cutoff.nanos == now.nanos,
        p@.now == now,
        p@.next == 0,
{
    lemma_due_candidates(
        p@,
        final(store)@,
        old(store)@,
        members@,
        now,
        purge_after_days,
        id,
    );
}

/// Whose account is to be deleted when a purge started, where records stand under their own IDs.
pub proof fn lemma_due_candidates(
    p: PurgeView,
    after: StoreView,
    before: StoreView,
    members: Map<UserId, String>,
    now: Timestamp,
    purge_after_days: u32,
    id: UserId,
)
    requires
        is_started(p, after, before, members, now, purge_after_days),
        exists|k: UserId| #[trigger] members.contains_key(k),
        forall|k: UserId| #[trigger] before.departed.contains_key(k) ==> before.departed[k].id == k,
    ensures
        (exists|i: int| 0 <= i < p.candidates.len() && (#[trigger] p.candidates[i]).id == id) <==> {
            &&& before.departed.contains_key(id)
            &&& !members.contains_key(id)
            &&& {
                let at = before.departed[id].departed_at;
                ||| at.secs + purge_after_days * 86400 < now.secs
                ||| at.secs + purge_after_days * 86400 == now.secs && at.nanos <= now.nanos
            }
        },
        forall|i: int|
            0 <= i < p.candidates.len() && (#[trigger] p.candidates[i]).id == id ==> {
                &&& p.candidates[i].name == before.departed[id].name
                &&& p.candidates[i].uid == before.departed[id].uid
                &&& p.candidates[i].gid == before.departed[id].gid
            },
        forall|i: int, j: int|
            0 <= i < j < p.candidates.len() ==> (#[trigger] p.candidates[i]).id != (
            #[trigger] p.candidates[j]).id,
        p.cutoff.secs == now.secs - purge_after_days * 86400,
        p.cutoff.nanos == now.nanos,
        p.now == now,
        p.next == 0,
{
    let k = choose|k: UserId| #[trigger] members.contains_key(k);
    assert(members.dom().contains(k));
    assert(!members.is_empty());
    let keep = |d: DepartedUser| is_candidate(d, p.cutoff, members);
    let keys = choose|keys: Seq<UserId>|
        #![trigger are_kept_keys(keys, before.departed, keep)]
        are_kept_keys(keys, before.departed, keep) && p.candidates == keys.map_values(
            |k: UserId| identity_of(before.departed[k]),
        );
    assert forall|i: int| 0 <= i < p.candidates.len() implies (#[trigger] p.candidates[i]).id
        == keys[i] && before.departed.contains_key(keys[i]) && keep(before.departed[keys[i]]) by {
        assert(keys.contains(keys[i]));
    }
    if before.departed.contains_key(id) && keep(before.departed[id]) {
        assert(keys.contains(id));
        let i = keys.index_of(id);
        assert(p.candidates[i].id == id);
    }
}

/// A longer retention period deletes no account that a shorter one spares.
pub proof fn longer_retention_spares_more(
    store: &mut UserStore,
    other_store: &mut UserStore,
    members: &MemberMap,
    now: Timestamp,
    days: u32,
    more_days: u32,
    p: Purge,
    q: Purge,
    id: UserId,
)
    requires
        call_ensures(Purge::start, (store, members, now, days), p),
        call_ensures(Purge::start, (other_store, members, now, more_days), q),
        days <= more_days,
        old(store)@ == old(other_store)@,
        exists|k: UserId| #[trigger] members@.contains_key(k),
        forall|k: UserId| #[trigger] old(store)@.departed.contains_key(k) ==> old(store)@.departed[k].id == k,
        exists|i: int| 0 <= i < q@.candidates.len() && (#[trigger] q@.candidates[i]).id == id,
    ensures
        exists|i: int| 0 <= i < p@.candidates.len() && (#[trigger] p@.candidates[i]).id == id,
{
    retention_period_is_kept(store, members, now, days, p, id);
    retention_period_is_kept(other_store, members, now, more_days, q, id);
}

/// A purge without members deletes nothing and leaves the store as it is. With members, it is not
/// refused.
pub proof fn purge_needs_members(
    store: &mut UserStore,
    members: &MemberMap,
    now: Timestamp,
    purge_after_days: u32,
    p: Purge,
)
    requires
        call_ensures(Purge::start, (store, members, now, purge_after_days), p),
    ensures
        p@.step is Refused <==> (forall|k: UserId| !#[trigger] members@.contains_key(k)),
        p@.step is Refused ==> final(store)@ == old(store)@,
{
    if forall|k: UserId| !#[trigger] members@.contains_key(k) {
        assert(members@.dom() =~= Set::empty());
        assert(members@.is_empty());
    } else {
        let k = choose|k: UserId| #[trigger] members@.contains_key(k);
        assert(members@.dom().contains(k));
        assert(!members@.is_empty());
    }
}

/// A purge with members begins with its first candidate. That the deletion starts is put into the
/// record and saved first, unless an earlier run has done so. Without candidates, the store is
/// saved as it is.
pub proof fn purge_begins_with_the_first(
    store: &mut UserStore,
    members: &MemberMap,
    now: Timestamp,
    purge_after_days: u32,
    p: Purge,
    other: UserId,
)
    requires
        call_ensures(Purge::start, (store, members, now, purge_after_days), p),
        !(p@.step is Refused),
    ensures
        p@.candidates.len() == 0 ==> p@.step is SaveAll && final(store)@ == old(store)@,
        p@.candidates.len() > 0 ==> {
            let id = p@.candidates[0].id;
            let marked = old(store)@.departed.contains_key(id) && old(store)@.departed[id].purge_started_at is Some;
            &&& p@.interrupted == marked
            &&& marked ==> p@.step is Purge && final(store)@ == old(store)@
            &&& !marked ==> p@.step is SaveMarker
            &&& !marked && old(store)@.departed.contains_key(id) ==> final(store)@.departed.contains_key(id) && final(store)@.departed[id].purge_started_at == Some(now)
            &&& other != id ==> final(store)@.departed.contains_key(other) == old(store)@.departed.contains_key(other) && (old(store)@.departed.contains_key(other) ==> final(store)@.departed[other] == old(store)@.departed[other])
        },
        final(store)@.users == old(store)@.users,
        final(store)@.purged == old(store)@.purged,
{
    assert(p@ == at_candidate(p@, old(store)@, 0));
}

/// A purge goes from one step to the next as its replies say: it deletes once the marker is saved,
/// saves what came of it, and turns to the next candidate only then. A save that fails ends it.
pub proof fn purge_goes_step_by_step(purge: &mut Purge, store: &mut UserStore, reply: PurgeReply)
    requires
        call_ensures(Purge::advance, (purge, store, reply), ()),
    ensures
        final(purge)@.candidates == old(purge)@.candidates,
        final(purge)@.now == old(purge)@.now,
        final(purge)@.cutoff == old(purge)@.cutoff,
        old(purge)@.step is SaveMarker && reply is Saved ==> final(purge)@.step is Purge,
        old(purge)@.step is Purge ==> final(purge)@.step is SaveResult,
        old(purge)@.step is SaveMarker || old(purge)@.step is Purge ==> final(purge)@.next == old(purge)@.next && final(purge)@.interrupted == old(purge)@.interrupted,
        old(purge)@.step is SaveResult && reply is Saved ==> {
            let next = old(purge)@.next + 1;
            &&& final(purge)@.next == next
            &&& next >= old(purge)@.candidates.len() ==> final(purge)@.step is SaveAll
            &&& next < old(purge)@.candidates.len() ==> {
                let id = old(purge)@.candidates[next].id;
                let marked = old(store)@.departed.contains_key(id) && old(store)@.departed[id].purge_started_at is Some;
                &&& final(purge)@.interrupted == marked
                &&& marked ==> final(purge)@.step is Purge
                &&& !marked ==> final(purge)@.step is SaveMarker
            }
        },
        old(purge)@.step is SaveAll && reply is Saved ==> final(purge)@.step is Finished,
        (old(purge)@.step is SaveMarker || old(purge)@.step is SaveResult || old(purge)@.step
            is SaveAll) && !(reply is Saved) ==> final(purge)@.step is SaveFailed,
{
}

/// What an attempt to delete an account does to the store. A deleted account moves its owner's
/// record to the purged members. So does a missing one whose deletion had been started by an
/// earlier run. An account that was not disabled long enough, or was missing before anybody started
/// to delete it, loses the marker. A failed attempt keeps it.
pub proof fn deletion_is_recorded_as_it_went(
    purge: &mut Purge,
    store: &mut UserStore,
    reply: PurgeReply,
    id: UserId,
)
    requires
        call_ensures(Purge::advance, (purge, store, reply), ()),
        old(purge)@.step is Purge,
        0 <= old(purge)@.next < old(purge)@.candidates.len(),
        id == old(purge)@.candidates[old(purge)@.next].id,
        old(store)@.departed.contains_key(id),
        old(store)@.departed[id].id == id,
    ensures
        reply == PurgeReply::Outcome(PurgeOutcome::Deleted) || reply == PurgeReply::Outcome(
            PurgeOutcome::NoAccount,
        ) && old(purge)@.interrupted ==> {
            &&& !final(store)@.departed.contains_key(id)
            &&& final(store)@.purged.contains_key(id)
            &&& final(store)@.purged[id].name == old(store)@.departed[id].name
            &&& final(store)@.purged[id].uid == old(store)@.departed[id].uid
            &&& final(store)@.purged[id].gid == old(store)@.departed[id].gid
            &&& final(store)@.purged[id].departed_at == old(store)@.departed[id].departed_at
            &&& final(store)@.purged[id].purged_at == old(purge)@.now
        },
        reply == PurgeReply::Outcome(PurgeOutcome::NotDisabledLongEnough) || reply
            == PurgeReply::Outcome(PurgeOutcome::NoAccount) && !old(purge)@.interrupted ==> {
            &&& final(store)@.departed.contains_key(id)
            &&& final(store)@.departed[id].purge_started_at is None
            &&& final(store)@.departed[id].uid == old(store)@.departed[id].uid
            &&& final(store)@.departed[id].gid == old(store)@.departed[id].gid
            &&& final(store)@.departed[id].name == old(store)@.departed[id].name
            &&& final(store)@.departed[id].departed_at == old(store)@.departed[id].departed_at
            &&& final(store)@.departed[id].expired_at == old(store)@.departed[id].expired_at
            &&& final(store)@.purged == old(store)@.purged
        },
        reply is Failed ==> final(store)@ == old(store)@,
        final(store)@.users == old(store)@.users,
        forall|k: UserId| #[trigger]
            old(store)@.departed.contains_key(k) && k != id ==> final(store)@.departed.contains_key(
                k,
            ) && final(store)@.departed[k] == old(store)@.departed[k],
        forall|k: UserId| #[trigger]
            old(store)@.purged.contains_key(k) && k != id ==> final(store)@.purged.contains_key(k)
                && final(store)@.purged[k] == old(store)@.purged[k],
{
}

/// Saving changes nothing in the store, but for the marker of the candidate whose turn is next.
pub proof fn saving_marks_the_next_at_most(
    purge: &mut Purge,
    store: &mut UserStore,
    reply: PurgeReply,
    id: UserId,
)
    requires
        call_ensures(Purge::advance, (purge, store, reply), ()),
        !(old(purge)@.step is Purge),
    ensures
        !(old(purge)@.step is SaveResult && reply is Saved && old(purge)@.next + 1 < old(purge)@.candidates.len()) ==> final(store)@ == old(store)@,
        final(store)@.users == old(store)@.users,
        final(store)@.purged == old(store)@.purged,
        final(store)@.departed.contains_key(id) == old(store)@.departed.contains_key(id),
        old(store)@.departed.contains_key(id) && final(store)@.departed[id] != old(store)@.departed[id] ==> {
            &&& id == old(purge)@.candidates[old(purge)@.next + 1].id
            &&& old(store)@.departed[id].purge_started_at is None
            &&& final(store)@.departed[id].purge_started_at == Some(old(purge)@.now)
            &&& final(store)@.departed[id].departed_at == old(store)@.departed[id].departed_at
            &&& final(store)@.departed[id].uid == old(store)@.departed[id].uid
            &&& final(store)@.departed[id].gid == old(store)@.departed[id].gid
        },
        old(purge)@.step is SaveResult && reply is Saved && old(purge)@.next + 1 < old(purge)@.candidates.len() && id == old(purge)@.candidates[old(purge)@.next + 1].id && old(store)@.departed.contains_key(id) && old(store)@.departed[id].purge_started_at is None ==> final(store)@.departed[id].purge_started_at == Some(old(purge)@.now),
{
}

/// What a purge says of itself is what it is at.
pub proof fn purge_shows_where_it_is(purge: &Purge, step: PurgeStep, user: &User, cutoff: Timestamp)
    requires
        0 <= purge@.next < purge@.candidates.len(),
        call_ensures(Purge::step, (purge,), step),
        call_ensures(Purge::user, (purge,), user),
        call_ensures(Purge::cutoff, (purge,), cutoff),
    ensures
        step == purge@.step,
        *user == purge@.candidates[purge@.next],
        cutoff == purge@.cutoff,
{
}

} // verus!
