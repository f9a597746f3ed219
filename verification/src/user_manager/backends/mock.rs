//! The backend used for dry runs and where accounts cannot be managed: it says what would come of
//! the messages without changing anything on the system.
use crate::store::User;
use crate::user_manager::messages::{
    AccountIds, CreateUser, IdsView, PurgeAccount, PurgeOutcome, UpdateUser,
};
use std::collections::HashSet;
use vstd::prelude::*;

verus! {

/// The mock backend.
#[derive(Debug)]
pub struct MockUserManager {
    /// The number that the last mock-created user got, or where the numbers begin.
    next_uid: usize,
}

/// The UID that a number stands for. UIDs have 32 bits.
pub open spec fn id_of(number: int) -> u32 {
    (number % 0x1_0000_0000) as u32
}

/// Whether a number stands for an ID that is not reserved.
pub open spec fn is_free(number: int, reserved_uids: Set<u32>, reserved_gids: Set<u32>) -> bool {
    !reserved_uids.contains(id_of(number)) && !reserved_gids.contains(id_of(number))
}

/// Whether one of the numbers behind `from` can be handed out.
pub open spec fn has_free_number(
    from: int,
    reserved_uids: Set<u32>,
    reserved_gids: Set<u32>,
) -> bool {
    exists|n: int|
        from < n <= usize::MAX && #[trigger] is_free(n, reserved_uids, reserved_gids)
}

/// Whether `n` is the first of the numbers behind `from` that can be handed out.
pub open spec fn is_first_free(
    n: int,
    from: int,
    reserved_uids: Set<u32>,
    reserved_gids: Set<u32>,
) -> bool {
    &&& from < n
    &&& is_free(n, reserved_uids, reserved_gids)
    &&& forall|m: int| from < m < n ==> !#[trigger] is_free(m, reserved_uids, reserved_gids)
}

/// The 32 lowest bits of a number.
fn low_bits(number: usize) -> (r: u32)
    ensures
        r == id_of(number as int),
{
    let wide: u64 = number as u64;
    let low: u64 = wide % 0x1_0000_0000;
    low as u32
}

impl MockUserManager {
    /// The number that the last mock-created user got, or where the numbers begin.
    pub closed spec fn last_number(&self) -> usize {
        self.next_uid
    }

    /// A backend whose first mock-created user gets the UID after `base_uid`.
    pub fn new(base_uid: usize) -> (r: Self)
        ensures
            r.last_number() == base_uid,
    {
        MockUserManager { next_uid: base_uid }
    }

    /// The account that would be created. A stored account without a known group gets the private
    /// group of the same number, and a fresh one gets the next number that is reserved neither as
    /// UID nor as GID.
    pub fn create_user(&mut self, msg: &CreateUser) -> (r: User)
        requires
            msg.ids@ matches IdsView::Fresh { reserved_uids, reserved_gids } ==> has_free_number(
                old(self).last_number() as int,
                reserved_uids,
                reserved_gids,
            ),
        ensures
            r.id == msg.gh_user.id,
            r.name == msg.gh_user.login,
            match msg.ids@ {
                IdsView::Stored { uid, gid } => {
                    &&& r.uid == uid
                    &&& r.gid == Some(
                        match gid {
                            Some(gid) => gid,
                            None => uid,
                        },
                    )
                    &&& final(self).last_number() == old(self).last_number()
                },
                IdsView::Fresh { reserved_uids, reserved_gids } => {
                    let n = final(self).last_number() as int;
                    &&& is_first_free(
                        n,
                        old(self).last_number() as int,
                        reserved_uids,
                        reserved_gids,
                    )
                    &&& r.uid == id_of(n)
                    &&& r.gid == Some(id_of(n))
                },
            },
    {
        let (uid, gid): (u32, u32) = match &msg.ids {
            AccountIds::Stored { uid, gid } => (
                *uid,
                match gid {
                    Some(gid) => *gid,
                    None => *uid,
                },
            ),
            AccountIds::Fresh { reserved_uids, reserved_gids } => {
                let id = self.next_free(reserved_uids, reserved_gids);
                (id, id)
            },
        };
        User { id: msg.gh_user.id, name: msg.gh_user.login.clone(), uid, gid: Some(gid) }
    }

    /// Hands out the next number that is not reserved.
    fn next_free(&mut self, reserved_uids: &HashSet<u32>, reserved_gids: &HashSet<u32>) -> (r: u32)
        requires
            has_free_number(old(self).last_number() as int, reserved_uids@, reserved_gids@),
        ensures
            is_first_free(
                final(self).last_number() as int,
                old(self).last_number() as int,
                reserved_uids@,
                reserved_gids@,
            ),
            r == id_of(final(self).last_number() as int),
    {
        let ghost from = self.next_uid as int;
        let ghost bound = choose|n: int|
            from < n <= usize::MAX && #[trigger] is_free(n, reserved_uids@, reserved_gids@);
        loop
            invariant
                from <= self.next_uid < bound <= usize::MAX,
                from == old(self).last_number(),
                is_free(bound, reserved_uids@, reserved_gids@),
                forall|m: int|
                    from < m <= self.next_uid ==> !#[trigger] is_free(
                        m,
                        reserved_uids@,
                        reserved_gids@,
                    ),
            decreases bound - self.next_uid,
        {
            broadcast use vstd::std_specs::hash::group_hash_axioms;

            self.next_uid = self.next_uid + 1;
            let id = low_bits(self.next_uid);
            if !reserved_uids.contains(&id) && !reserved_gids.contains(&id) {
                return id;
            }
            assert(!is_free(self.next_uid as int, reserved_uids@, reserved_gids@));
        }
    }

    /// The account that an update would lead to, given whether the stored account exists. It keeps
    /// its IDs and has the current login.
    pub fn update_user(&self, msg: &UpdateUser, account_exists: bool) -> (r: User)
        ensures
            r.id == msg.available_user.id,
            r.uid == msg.available_user.uid,
            r.gid == msg.available_user.gid,
            r.name@ == msg.gh_user.login@,
    {
        if !account_exists || !crate::text::same_text(
            msg.gh_user.login.as_str(),
            msg.available_user.name.as_str(),
        ) {
            User {
                id: msg.available_user.id,
                name: msg.gh_user.login.clone(),
                uid: msg.available_user.uid,
                gid: msg.available_user.gid,
            }
        } else {
            msg.available_user.clone()
        }
    }

    /// Every account can be purged, so that a dry run previews the deletion.
    pub fn purge_account(&self, _msg: &PurgeAccount) -> (r: PurgeOutcome)
        ensures
            r == PurgeOutcome::Deleted,
    {
        PurgeOutcome::Deleted
    }
}

/// A fresh account never gets an ID that is reserved.
pub proof fn reserved_ids_are_not_handed_out(
    n: int,
    from: int,
    reserved_uids: Set<u32>,
    reserved_gids: Set<u32>,
)
    requires
        is_first_free(n, from, reserved_uids, reserved_gids),
    ensures
        !reserved_uids.contains(id_of(n)),
        !reserved_gids.contains(id_of(n)),
{
}

/// There is a number to hand out while the numbers up to the greatest UID outnumber the reserved
/// IDs.
pub proof fn free_number_exists(from: int, reserved_uids: Set<u32>, reserved_gids: Set<u32>)
    requires
        0 <= from,
        reserved_uids.finite(),
        reserved_gids.finite(),
        from + reserved_uids.len() + reserved_gids.len() < u32::MAX,
    ensures
        has_free_number(from, reserved_uids, reserved_gids),
{
    let reserved = reserved_uids.union(reserved_gids);
    vstd::set_lib::lemma_len_union(reserved_uids, reserved_gids);
    let count = reserved_uids.len() + reserved_gids.len() + 1;
    if !has_free_number(from, reserved_uids, reserved_gids) {
        let taken = Seq::new(count as nat, |i: int| (from + 1 + i) as u32);
        assert(taken.no_duplicates());
        taken.unique_seq_to_set();
        assert forall|id: u32| taken.to_set().contains(id) implies reserved.contains(id) by {
            let i = taken.index_of(id);
            let n = from + 1 + i;
            assert(id_of(n) == id);
            assert(!is_free(n, reserved_uids, reserved_gids));
        }
        vstd::set_lib::lemma_len_subset(taken.to_set(), reserved);
    }
}

/// A previewed account has the member's GitHub ID and login. That of a rejoining member has their
/// IDs. Any other gets the first number behind the last one that is reserved neither as UID nor as
/// GID, for both. Numbers count modulo the number of IDs.
pub proof fn previewed_account_is_the_members(
    mock: &mut MockUserManager,
    msg: &CreateUser,
    r: User,
    m: int,
)
    requires
        call_ensures(MockUserManager::create_user, (mock, msg), r),
    ensures
        r.id == msg.gh_user.id,
        r.name == msg.gh_user.login,
        msg.ids is Stored ==> r.uid == msg.ids->uid,
        msg.ids is Stored && msg.ids->gid is Some ==> r.gid == msg.ids->gid,
        msg.ids is Stored && msg.ids->gid is None ==> r.gid == Some(msg.ids->uid),
        msg.ids is Stored ==> final(mock).last_number() == old(mock).last_number(),
        msg.ids is Fresh ==> {
            &&& old(mock).last_number() < final(mock).last_number()
            &&& r.uid as int == final(mock).last_number() as int % 0x1_0000_0000
            &&& r.gid == Some(r.uid)
            &&& !msg.ids->reserved_uids@.contains(r.uid)
            &&& !msg.ids->reserved_gids@.contains(r.uid)
            &&& old(mock).last_number() < m < final(mock).last_number()
                ==> msg.ids->reserved_uids@.contains((m % 0x1_0000_0000) as u32)
                || msg.ids->reserved_gids@.contains((m % 0x1_0000_0000) as u32)
        },
{
    if msg.ids is Fresh {
        assert(msg.ids@ is Fresh);
        if old(mock).last_number() < m < final(mock).last_number() {
            assert(!is_free(m, msg.ids->reserved_uids@, msg.ids->reserved_gids@));
        }
    }
}

/// A previewed update keeps the member's IDs and has their current login.
pub proof fn previewed_update_keeps_the_ids(
    mock: &MockUserManager,
    msg: &UpdateUser,
    account_exists: bool,
    r: User,
)
    requires
        call_ensures(MockUserManager::update_user, (mock, msg, account_exists), r),
    ensures
        r.id == msg.available_user.id,
        r.uid == msg.available_user.uid,
        r.gid == msg.available_user.gid,
        r.name@ == msg.gh_user.login@,
{
}

} // verus!
