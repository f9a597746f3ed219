//! Departures: recording who has left, and disabling every account that is due.
//!
//! A departure record gets its completion timestamp only after the account is disabled. A failed
//! or interrupted operation is therefore retried by the next run.
use crate::calendar::Timestamp;
use crate::listing::{are_kept_keys, kept_keys, kept_keys_are_kept, keys_of};
use crate::members::MemberMap;
use crate::store::{
    identity_of, with_departure, with_expiry, DepartedUser, StoreView, User, UserId, UserStore,
};
use vstd::prelude::*;

verus! {

/// Whether the list holds the account identities of the tombstones that are kept, each once and in
/// any order.
pub open spec fn lists_departed(
    list: Seq<User>,
    map: Map<UserId, DepartedUser>,
    keep: spec_fn(DepartedUser) -> bool,
) -> bool {
    exists|keys: Seq<UserId>|
        #![trigger are_kept_keys(keys, map, keep)]
        are_kept_keys(keys, map, keep) && list == keys.map_values(|k: UserId| identity_of(map[k]))
}

/// The identities that are listed are those of tombstones that are kept.
pub proof fn listed_departures_are_kept(
    list: Seq<User>,
    map: Map<UserId, DepartedUser>,
    keep: spec_fn(DepartedUser) -> bool,
    i: int,
)
    requires
        lists_departed(list, map, keep),
        0 <= i < list.len(),
    ensures
        exists|k: UserId| #[trigger]
            map.contains_key(k) && keep(map[k]) && list[i] == identity_of(map[k]),
{
    let keys = choose|keys: Seq<UserId>|
        #![trigger are_kept_keys(keys, map, keep)]
        are_kept_keys(keys, map, keep) && list == keys.map_values(
            |k: UserId| identity_of(map[k]),
        );
    assert(keys.contains(keys[i]));
    assert(map.contains_key(keys[i]));
}

/// Whether the account of a departed member is still to be disabled. That of a current member is
/// not: they may have rejoined, and disabling it again would undo that.
pub open spec fn is_pending(departed: DepartedUser, members: Map<UserId, String>) -> bool {
    departed.expired_at is None && !members.contains_key(departed.id)
}

/// The store after all the users departed.
pub open spec fn with_departures(s: StoreView, leavers: Seq<User>, at: Timestamp) -> StoreView
    decreases leavers.len(),
{
    if leavers.len() == 0 {
        s
    } else {
        with_departure(with_departures(s, leavers.drop_last(), at), leavers.last(), at)
    }
}

/// The step to take, or where the departures end.
#[derive(Debug, Clone, Copy, PartialEq, Eq, Structural)]
pub enum DepartureStep {
    /// Save the departures.
    SaveDepartures,
    /// Disable the account of the current user.
    Disable,
    /// Save what came of it.
    SaveResults,
    /// Everything is done.
    Finished,
    /// The store could not be saved.
    SaveFailed,
}

/// What came of a step.
#[derive(Debug, Clone, Copy, PartialEq, Eq, Structural)]
pub enum DepartureReply {
    /// The store was saved.
    Saved,
    /// The account was disabled at the given time.
    Disabled(Timestamp),
    /// It failed.
    Failed,
}

/// Departures under way, as contracts see them.
pub struct DeparturesView {
    /// The users whose account is to be disabled.
    pub pending: Seq<User>,
    /// How many of them had their turn.
    pub next: int,
    /// The step to take.
    pub step: DepartureStep,
}

/// Departures under way.
pub struct Departures {
    pending: Vec<User>,
    next: usize,
    step: DepartureStep,
}

impl View for Departures {
    type V = DeparturesView;

    closed spec fn view(&self) -> DeparturesView {
        DeparturesView { pending: self.pending@, next: self.next as int, step: self.step }
    }
}

/// Whether a reply is one that the step can have.
pub open spec fn answers(step: DepartureStep, reply: DepartureReply) -> bool {
    match step {
        DepartureStep::SaveDepartures | DepartureStep::SaveResults => reply is Saved
            || reply is Failed,
        DepartureStep::Disable => reply is Disabled || reply is Failed,
        _ => false,
    }
}

/// The departures at the next user whose account is to be disabled, or past them all.
pub open spec fn at_user(d: DeparturesView, next: int) -> DeparturesView {
    DeparturesView {
        next,
        step: if next < d.pending.len() {
            DepartureStep::Disable
        } else {
            DepartureStep::SaveResults
        },
        ..d
    }
}

/// What follows a step.
pub open spec fn departures_next(d: DeparturesView, reply: DepartureReply) -> DeparturesView {
    match (d.step, reply) {
        (DepartureStep::SaveDepartures, DepartureReply::Saved) => at_user(d, 0),
        (DepartureStep::Disable, _) => at_user(d, d.next + 1),
        (DepartureStep::SaveResults, DepartureReply::Saved) => DeparturesView {
            step: DepartureStep::Finished,
            ..d
        },
        (DepartureStep::SaveDepartures | DepartureStep::SaveResults, _) => DeparturesView {
            step: DepartureStep::SaveFailed,
            ..d
        },
        _ => d,
    }
}

/// The store after a step. A failed attempt leaves the record without its completion timestamp.
pub open spec fn store_after_departure(
    s: StoreView,
    d: DeparturesView,
    reply: DepartureReply,
) -> StoreView {
    match (d.step, reply) {
        (DepartureStep::Disable, DepartureReply::Disabled(at)) => with_expiry(
            s,
            d.pending[d.next].id,
            at,
        ),
        _ => s,
    }
}

/// The identities of the departed members whose account is to be disabled.
fn pending_users(store: &UserStore, members: &MemberMap) -> (r: Vec<User>)
    ensures
        lists_departed(r@, store@.departed, |d: DepartedUser| is_pending(d, members@)),
{
    let map = store.departed();
    let ghost view = map@;
    let ghost keep = |d: DepartedUser| is_pending(d, members@);
    let ids = keys_of(map);
    let mut r: Vec<User> = Vec::new();
    let mut i: usize = 0;
    while i < ids.len()
        invariant
            i <= ids@.len(),
            view == map@,
            ids@.to_set() == view.dom(),
            keep == (|d: DepartedUser| is_pending(d, members@)),
            r@ == kept_keys(ids@.take(i as int), view, keep).map_values(|k: UserId| identity_of(view[k])),
        decreases ids@.len() - i,
    {
        broadcast use vstd::std_specs::hash::group_hash_axioms;

        let ghost next = ids@.take(i + 1);
        proof {
            assert(next.drop_last() == ids@.take(i as int));
            assert(ids@.to_set().contains(ids@[i as int]));
        }
        if let Some(record) = map.get(&ids[i]) {
            if record.expired_at.is_none() && !members.contains_key(&record.id) {
                r.push(User::from(record));
            }
        }
        assert(r@ == kept_keys(next, view, keep).map_values(|k: UserId| identity_of(view[k])));
        i = i + 1;
    }
    proof {
        assert(ids@.take(ids@.len() as int) == ids@);
        kept_keys_are_kept(ids@, view, keep);
        assert(are_kept_keys(kept_keys(ids@, view, keep), view, |d: DepartedUser| is_pending(d, members@)));
    }
    r
}

impl Departures {
    /// Records that the users have left, and finds out whose account is to be disabled.
    pub fn start(
        store: &mut UserStore,
        leavers: Vec<User>,
        members: &MemberMap,
        departed_at: Timestamp,
    ) -> (r: Self)
        ensures
            final(store)@ == with_departures(old(store)@, leavers@, departed_at),
            lists_departed(
                r@.pending,
                final(store)@.departed,
                |d: DepartedUser| is_pending(d, members@),
            ),
            r@.next == 0,
            r@.step == DepartureStep::SaveDepartures,
            departures_valid(r@),
    {
        let mut i: usize = 0;
        while i < leavers.len()
            invariant
                i <= leavers@.len(),
                store@ == with_departures(old(store)@, leavers@.take(i as int), departed_at),
            decreases leavers@.len() - i,
        {
            assert(leavers@.take(i + 1).drop_last() == leavers@.take(i as int));
            store.depart_user(leavers[i].clone(), departed_at);
            i = i + 1;
        }
        assert(leavers@.take(leavers@.len() as int) == leavers@);
        let pending = pending_users(store, members);
        Departures { pending, next: 0, step: DepartureStep::SaveDepartures }
    }

    /// The step to take, or where the departures ended.
    pub fn step(&self) -> (r: DepartureStep)
        ensures
            r == self@.step,
    {
        self.step
    }

    /// The user whose account is to be disabled.
    pub fn user(&self) -> (r: &User)
        requires
            0 <= self@.next < self@.pending.len(),
        ensures
            *r == self@.pending[self@.next],
    {
        &self.pending[self.next]
    }

    /// Goes on after a step.
    pub fn advance(&mut self, store: &mut UserStore, reply: DepartureReply)
        requires
            answers(old(self)@.step, reply),
            departures_valid(old(self)@),
        ensures
            final(self)@ == departures_next(old(self)@, reply),
            final(store)@ == store_after_departure(old(store)@, old(self)@, reply),
            departures_valid(final(self)@),
    {
        match self.step {
            DepartureStep::SaveDepartures => match reply {
                DepartureReply::Saved => self.turn_to(0),
                _ => {
                    self.step = DepartureStep::SaveFailed;
                },
            },
            DepartureStep::Disable => {
                if let DepartureReply::Disabled(at) = reply {
                    let id = self.pending[self.next].id;
                    store.mark_expired(&id, at);
                }
                let count: usize = self.pending.len();
                assert(self.next < count);
                let next: usize = self.next + 1;
                self.turn_to(next);
            },
            DepartureStep::SaveResults => match reply {
                DepartureReply::Saved => {
                    self.step = DepartureStep::Finished;
                },
                _ => {
                    self.step = DepartureStep::SaveFailed;
                },
            },
            _ => {},
        }
    }

    /// Turns to a user whose account is to be disabled.
    fn turn_to(&mut self, next: usize)
        ensures
            final(self)@ == at_user(old(self)@, next as int),
    {
        self.next = next;
        self.step = if next < self.pending.len() {
            DepartureStep::Disable
        } else {
            DepartureStep::SaveResults
        };
    }
}

/// What every state of departures keeps: the current user is one of the pending ones.
pub open spec fn departures_valid(d: DeparturesView) -> bool {
    &&& 0 <= d.next <= d.pending.len()
    &&& d.step is Disable ==> d.next < d.pending.len()
}

/// Departures stay valid. An account is disabled only once the departures were saved: no other
/// reply than that of a successful save leads there from the first step.
pub proof fn departures_are_saved_first(d: DeparturesView, reply: DepartureReply)
    requires
        departures_valid(d),
        answers(d.step, reply),
    ensures
        departures_valid(departures_next(d, reply)),
        departures_next(d, reply).pending == d.pending,
        departures_next(d, reply).step is Disable ==> d.step is Disable || d.step is SaveDepartures
            && reply is Saved,
        departures_next(d, reply).step is Finished ==> d.step is SaveResults && reply is Saved,
{
}

/// The account of a current member is never disabled.
pub proof fn members_are_not_disabled(
    pending: Seq<User>,
    s: StoreView,
    members: Map<UserId, String>,
    i: int,
)
    requires
        lists_departed(pending, s.departed, |d: DepartedUser| is_pending(d, members)),
        0 <= i < pending.len(),
    ensures
        !members.contains_key(pending[i].id),
{
    listed_departures_are_kept(
        pending,
        s.departed,
        |d: DepartedUser| is_pending(d, members),
        i,
    );
}

/// A finished teardown is not repeated, and an unfinished one of somebody who is no member is
/// taken up again.
pub proof fn unfinished_departures_are_retried(
    pending: Seq<User>,
    s: StoreView,
    members: Map<UserId, String>,
    id: UserId,
)
    requires
        lists_departed(pending, s.departed, |d: DepartedUser| is_pending(d, members)),
        s.departed.contains_key(id),
        forall|k: UserId| #[trigger] s.departed.contains_key(k) ==> s.departed[k].id == k,
    ensures
        pending.contains(identity_of(s.departed[id])) <==> s.departed[id].expired_at is None
            && !members.contains_key(id),
{
    let keep = |d: DepartedUser| is_pending(d, members);
    let keys = choose|keys: Seq<UserId>|
        #![trigger are_kept_keys(keys, s.departed, keep)]
        are_kept_keys(keys, s.departed, keep) && pending == keys.map_values(
            |k: UserId| identity_of(s.departed[k]),
        );
    let user = identity_of(s.departed[id]);
    if is_pending(s.departed[id], members) {
        assert(keys.contains(id));
        assert(pending[keys.index_of(id)] == user);
    }
    if pending.contains(user) {
        let i = pending.index_of(user);
        assert(keys.contains(keys[i]));
        assert(s.departed.contains_key(keys[i]));
        assert(pending[i].id == keys[i]);
    }
}

/// After departures, each leaver has a record with their identity and is no active user.
pub proof fn leavers_are_recorded(s: StoreView, leavers: Seq<User>, at: Timestamp, i: int)
    requires
        0 <= i < leavers.len(),
        forall|a: int, b: int|
            0 <= a < b < leavers.len() ==> (#[trigger] leavers[a]).id != (#[trigger] leavers[b]).id,
    ensures
        ({
            let after = with_departures(s, leavers, at);
            &&& after.departed.contains_key(leavers[i].id)
            &&& identity_of(after.departed[leavers[i].id]) == leavers[i]
            &&& after.departed[leavers[i].id].departed_at == at
            &&& !after.users.contains_key(leavers[i].id)
        }),
    decreases leavers.len(),
{
    let rest = leavers.drop_last();
    let n = leavers.len() - 1;
    if i < n {
        assert(rest[i] == leavers[i]);
        assert forall|a: int, b: int| 0 <= a < b < rest.len() implies (#[trigger] rest[a]).id != (
        #[trigger] rest[b]).id by {
            assert(rest[a] == leavers[a] && rest[b] == leavers[b]);
        }
        leavers_are_recorded(s, rest, at, i);
        assert(leavers[i].id != leavers[n].id);
    }
}

/// Whether the states are those of departures from their beginning on, with the replies between
/// them.
pub open spec fn departures_run(
    states: Seq<DeparturesView>,
    replies: Seq<DepartureReply>,
) -> bool {
    &&& states.len() == replies.len() + 1
    &&& states[0].next == 0
    &&& states[0].step is SaveDepartures
    &&& forall|i: int|
        0 <= i < replies.len() ==> answers(states[i].step, #[trigger] replies[i]) && states[i + 1]
            == departures_next(states[i], replies[i])
}

/// The users whose account the departures turned to in the given states, in order.
pub open spec fn turned_to(states: Seq<DeparturesView>) -> Seq<User>
    decreases states.len(),
{
    if states.len() == 0 {
        Seq::empty()
    } else {
        let d = states.last();
        let rest = turned_to(states.drop_last());
        if d.step is Disable {
            rest.push(d.pending[d.next])
        } else {
            rest
        }
    }
}

/// Departures that are finished have turned to the account of every pending user exactly once,
/// and in order, whatever came of it.
pub proof fn every_pending_account_has_its_turn(
    states: Seq<DeparturesView>,
    replies: Seq<DepartureReply>,
)
    requires
        departures_run(states, replies),
        states.last().step is Finished,
    ensures
        turned_to(states) == states[0].pending,
{
    let n = states.len() - 1;
    lemma_turns(states, replies, n);
    assert(states.take(n).push(states[n]) == states);
    assert(states.drop_last() == states.take(n));
    assert(states[0].pending.take(states[0].pending.len() as int) == states[0].pending);
}

/// Before each state, the departures have turned to the users that had their turn.
proof fn lemma_turns(states: Seq<DeparturesView>, replies: Seq<DepartureReply>, n: int)
    requires
        departures_run(states, replies),
        0 <= n < states.len(),
    ensures
        departures_valid(states[n]),
        states[n].pending == states[0].pending,
        turned_to(states.take(n)) == states[0].pending.take(states[n].next),
        states[n].step is SaveDepartures ==> states[n].next == 0,
        states[n].step is SaveResults || states[n].step is Finished ==> states[n].next
            == states[0].pending.len(),
    decreases n,
{
    if n > 0 {
        lemma_turns(states, replies, n - 1);
        let d = states[n - 1];
        assert(answers(d.step, replies[n - 1]));
        assert(states[n] == departures_next(d, replies[n - 1]));
        assert(states.take(n).drop_last() == states.take(n - 1));
        assert(states.take(n).last() == d);
        if d.step is Disable {
            assert(d.pending.take(d.next + 1) == d.pending.take(d.next).push(d.pending[d.next]));
        }
    } else {
        assert(turned_to(states.take(0)) == states[0].pending.take(0));
    }
}

/// When departures start, each leaver is recorded as departed at that time, with their login and
/// IDs, and is no active user. Everybody else's records stay as they are.
pub proof fn starting_records_exactly_the_leavers(
    store: &mut UserStore,
    leavers: Vec<User>,
    members: &MemberMap,
    departed_at: Timestamp,
    d: Departures,
    id: UserId,
)
    requires
        call_ensures(Departures::start, (store, leavers, members, departed_at), d),
        forall|a: int, b: int|
            0 <= a < b < leavers@.len() ==> (#[trigger] leavers@[a]).id != (
            #[trigger] leavers@[b]).id,
    ensures
        forall|i: int|
            0 <= i < leavers@.len() && (#[trigger] leavers@[i]).id == id ==> {
                &&& !final(store)@.users.contains_key(id)
                &&& final(store)@.departed.contains_key(id)
                &&& final(store)@.departed[id].id == id
                &&& final(store)@.departed[id].name == leavers@[i].name
                &&& final(store)@.departed[id].uid == leavers@[i].uid
                &&& final(store)@.departed[id].gid == leavers@[i].gid
                &&& final(store)@.departed[id].departed_at == departed_at
                &&& final(store)@.departed[id].expired_at is None
                &&& final(store)@.departed[id].purge_started_at is None
            },
        (forall|i: int| 0 <= i < leavers@.len() ==> (#[trigger] leavers@[i]).id != id) ==> {
            &&& final(store)@.users.contains_key(id) == old(store)@.users.contains_key(id)
            &&& old(store)@.users.contains_key(id) ==> final(store)@.users[id] == old(store)@.users[id]
            &&& final(store)@.departed.contains_key(id) == old(store)@.departed.contains_key(id)
            &&& old(store)@.departed.contains_key(id) ==> final(store)@.departed[id] == old(store)@.departed[id]
        },
        final(store)@.purged == old(store)@.purged,
        final(store)@.dry_run == old(store)@.dry_run,
        final(store)@.migrated_from_v1 == old(store)@.migrated_from_v1,
{
    lemma_departures_keep_others(old(store)@, leavers@, departed_at, id);
    assert forall|i: int| 0 <= i < leavers@.len() && (#[trigger] leavers@[i]).id == id implies {
        &&& !final(store)@.users.contains_key(id)
        &&& final(store)@.departed.contains_key(id)
        &&& final(store)@.departed[id].id == id
        &&& final(store)@.departed[id].name == leavers@[i].name
        &&& final(store)@.departed[id].uid == leavers@[i].uid
        &&& final(store)@.departed[id].gid == leavers@[i].gid
        &&& final(store)@.departed[id].departed_at == departed_at
        &&& final(store)@.departed[id].expired_at is None
        &&& final(store)@.departed[id].purge_started_at is None
    } by {
        lemma_leaver_is_recorded(old(store)@, leavers@, departed_at, i);
    }
}

/// The record of one of different leavers.
pub proof fn lemma_leaver_is_recorded(s: StoreView, leavers: Seq<User>, at: Timestamp, i: int)
    requires
        0 <= i < leavers.len(),
        forall|a: int, b: int|
            0 <= a < b < leavers.len() ==> (#[trigger] leavers[a]).id != (#[trigger] leavers[b]).id,
    ensures
        ({
            let after = with_departures(s, leavers, at);
            let id = leavers[i].id;
            &&& !after.users.contains_key(id)
            &&& after.departed.contains_key(id)
            &&& after.departed[id].id == id
            &&& after.departed[id].name == leavers[i].name
            &&& after.departed[id].uid == leavers[i].uid
            &&& after.departed[id].gid == leavers[i].gid
            &&& after.departed[id].departed_at == at
            &&& after.departed[id].expired_at is None
            &&& after.departed[id].purge_started_at is None
        }),
    decreases leavers.len(),
{
    let rest = leavers.drop_last();
    let n = leavers.len() - 1;
    if i < n {
        assert(rest[i] == leavers[i]);
        assert forall|a: int, b: int| 0 <= a < b < rest.len() implies (#[trigger] rest[a]).id != (
        #[trigger] rest[b]).id by {
            assert(rest[a] == leavers[a] && rest[b] == leavers[b]);
        }
        lemma_leaver_is_recorded(s, rest, at, i);
        assert(leavers[i].id != leavers[n].id);
    }
}

/// Departures of others change nobody's records.
pub proof fn lemma_departures_keep_others(s: StoreView, leavers: Seq<User>, at: Timestamp, id: UserId)
    ensures
        (forall|i: int| 0 <= i < leavers.len() ==> (#[trigger] leavers[i]).id != id) ==> {
            let after = with_departures(s, leavers, at);
            &&& after.users.contains_key(id) == s.users.contains_key(id)
            &&& s.users.contains_key(id) ==> after.users[id] == s.users[id]
            &&& after.departed.contains_key(id) == s.departed.contains_key(id)
            &&& s.departed.contains_key(id) ==> after.departed[id] == s.departed[id]
        },
        with_departures(s, leavers, at).purged == s.purged,
        with_departures(s, leavers, at).dry_run == s.dry_run,
        with_departures(s, leavers, at).migrated_from_v1 == s.migrated_from_v1,
    decreases leavers.len(),
{
    if leavers.len() > 0 {
        let rest = leavers.drop_last();
        lemma_departures_keep_others(s, rest, at, id);
        if forall|i: int| 0 <= i < leavers.len() ==> (#[trigger] leavers[i]).id != id {
            assert forall|i: int| 0 <= i < rest.len() implies (#[trigger] rest[i]).id != id by {
                assert(rest[i] == leavers[i]);
            }
            assert(leavers[leavers.len() - 1].id != id);
        }
    }
}

/// The accounts to disable are those of everybody whose departure is recorded, whose teardown has
/// not completed and who is no member, each once and under the IDs of the record.
pub proof fn unfinished_teardowns_are_pending(
    store: &mut UserStore,
    leavers: Vec<User>,
    members: &MemberMap,
    departed_at: Timestamp,
    d: Departures,
    id: UserId,
)
    requires
        call_ensures(Departures::start, (store, leavers, members, departed_at), d),
        forall|k: UserId| #[trigger] final(store)@.departed.contains_key(k) ==> final(store)@.departed[k].id == k,
    ensures
        (exists|i: int| 0 <= i < d@.pending.len() && (#[trigger] d@.pending[i]).id == id) <==> {
            &&& final(store)@.departed.contains_key(id)
            &&& final(store)@.departed[id].expired_at is None
            &&& !members@.contains_key(id)
        },
        forall|i: int|
            0 <= i < d@.pending.len() && (#[trigger] d@.pending[i]).id == id ==> {
                &&& d@.pending[i].name == final(store)@.departed[id].name
                &&& d@.pending[i].uid == final(store)@.departed[id].uid
                &&& d@.pending[i].gid == final(store)@.departed[id].gid
            },
        forall|i: int, j: int|
            0 <= i < j < d@.pending.len() ==> (#[trigger] d@.pending[i]).id != (
            #[trigger] d@.pending[j]).id,
        d@.step is SaveDepartures,
        d@.next == 0,
{
    lemma_pending(d@.pending, final(store)@, members@, id);
}

/// Who is in a list of pending accounts, where records stand under their own IDs.
pub proof fn lemma_pending(pending: Seq<User>, s: StoreView, members: Map<UserId, String>, id: UserId)
    requires
        lists_departed(pending, s.departed, |d: DepartedUser| is_pending(d, members)),
        forall|k: UserId| #[trigger] s.departed.contains_key(k) ==> s.departed[k].id == k,
    ensures
        (exists|i: int| 0 <= i < pending.len() && (#[trigger] pending[i]).id == id) <==> {
            &&& s.departed.contains_key(id)
            &&& s.departed[id].expired_at is None
            &&& !members.contains_key(id)
        },
        forall|i: int|
            0 <= i < pending.len() ==> s.departed.contains_key((#[trigger] pending[i]).id)
                && pending[i].name == s.departed[pending[i].id].name && pending[i].uid
                == s.departed[pending[i].id].uid && pending[i].gid
                == s.departed[pending[i].id].gid,
        forall|i: int, j: int|
            0 <= i < j < pending.len() ==> (#[trigger] pending[i]).id != (#[trigger] pending[j]).id,
{
    let keep = |d: DepartedUser| is_pending(d, members);
    let keys = choose|keys: Seq<UserId>|
        #![trigger are_kept_keys(keys, s.departed, keep)]
        are_kept_keys(keys, s.departed, keep) && pending == keys.map_values(
            |k: UserId| identity_of(s.departed[k]),
        );
    assert forall|i: int| 0 <= i < pending.len() implies (#[trigger] pending[i]).id == keys[i]
        && s.departed.contains_key(keys[i]) && keep(s.departed[keys[i]]) by {
        assert(keys.contains(keys[i]));
    }
    if s.departed.contains_key(id) && keep(s.departed[id]) {
        assert(keys.contains(id));
        assert(pending[keys.index_of(id)].id == id);
    }
}

/// Departures go from one step to the next as their replies say: accounts are disabled one after
/// the other once the departures are saved, and the results are saved at the end. A failure to
/// disable one account does not keep the others from their turn, and a save that fails ends it.
pub proof fn departures_go_step_by_step(
    d: &mut Departures,
    store: &mut UserStore,
    reply: DepartureReply,
)
    requires
        call_ensures(Departures::advance, (d, store, reply), ()),
    ensures
        final(d)@.pending == old(d)@.pending,
        old(d)@.step is SaveDepartures && reply is Saved ==> final(d)@.next == 0 && if old(d)@.pending.len() > 0 {
            final(d)@.step is Disable
        } else {
            final(d)@.step is SaveResults
        },
        old(d)@.step is Disable ==> final(d)@.next == old(d)@.next + 1 && if old(d)@.next + 1 < old(d)@.pending.len() {
            final(d)@.step is Disable
        } else {
            final(d)@.step is SaveResults
        },
        old(d)@.step is SaveResults && reply is Saved ==> final(d)@.step is Finished,
        (old(d)@.step is SaveDepartures || old(d)@.step is SaveResults) && !(reply is Saved)
            ==> final(d)@.step is SaveFailed,
{
}

/// A teardown counts as completed, at the time that it was, if and only if the account was
/// disabled. Nothing else of any record changes on the way.
pub proof fn only_disabled_accounts_count_as_such(
    d: &mut Departures,
    store: &mut UserStore,
    reply: DepartureReply,
    id: UserId,
)
    requires
        call_ensures(Departures::advance, (d, store, reply), ()),
    ensures
        old(d)@.step is Disable && reply is Disabled && id == old(d)@.pending[old(d)@.next].id && old(store)@.departed.contains_key(id) ==> {
            &&& final(store)@.departed.contains_key(id)
            &&& final(store)@.departed[id].expired_at == Some(reply->Disabled_0)
            &&& final(store)@.departed[id].id == old(store)@.departed[id].id
            &&& final(store)@.departed[id].name == old(store)@.departed[id].name
            &&& final(store)@.departed[id].uid == old(store)@.departed[id].uid
            &&& final(store)@.departed[id].gid == old(store)@.departed[id].gid
            &&& final(store)@.departed[id].departed_at == old(store)@.departed[id].departed_at
            &&& final(store)@.departed[id].purge_started_at == old(store)@.departed[id].purge_started_at
        },
        !(old(d)@.step is Disable && reply is Disabled) ==> final(store)@ == old(store)@,
        old(d)@.step is Disable && id != old(d)@.pending[old(d)@.next].id ==> {
            &&& final(store)@.departed.contains_key(id) == old(store)@.departed.contains_key(id)
            &&& old(store)@.departed.contains_key(id) ==> final(store)@.departed[id] == old(store)@.departed[id]
        },
        final(store)@.users == old(store)@.users,
        final(store)@.purged == old(store)@.purged,
{
}

/// Departures show their step, and the user whose account is to be disabled.
pub proof fn departures_show_where_they_are(d: &Departures, step: DepartureStep, user: &User)
    requires
        0 <= d@.next < d@.pending.len(),
        call_ensures(Departures::step, (d,), step),
        call_ensures(Departures::user, (d,), user),
    ensures
        step == d@.step,
        *user == d@.pending[d@.next],
{
}

} // verus!
