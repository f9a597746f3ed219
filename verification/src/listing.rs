//! Lists of what a map holds, in any order.
use crate::store::UserId;
use std::collections::HashMap;
use vstd::prelude::*;
use vstd::std_specs::iter::IteratorSpec;

verus! {

/// Whether the keys are those that are kept, each once.
pub open spec fn are_kept_keys<V>(
    keys: Seq<UserId>,
    map: Map<UserId, V>,
    keep: spec_fn(V) -> bool,
) -> bool {
    &&& keys.no_duplicates()
    &&& forall|k: UserId| #[trigger]
        keys.contains(k) <==> map.contains_key(k) && keep(map[k])
}

/// Those of the keys that are kept, in the same order.
pub open spec fn kept_keys<V>(
    keys: Seq<UserId>,
    map: Map<UserId, V>,
    keep: spec_fn(V) -> bool,
) -> Seq<UserId>
    decreases keys.len(),
{
    if keys.len() == 0 {
        Seq::empty()
    } else {
        let rest = kept_keys(keys.drop_last(), map, keep);
        if keep(map[keys.last()]) {
            rest.push(keys.last())
        } else {
            rest
        }
    }
}

/// The keys of a map, each once.
pub fn keys_of<V>(map: &HashMap<UserId, V>) -> (r: Vec<UserId>)
    ensures
        r@.to_set() == map@.dom(),
        r@.no_duplicates(),
{
    broadcast use vstd::std_specs::hash::group_hash_axioms;

    let mut r: Vec<UserId> = Vec::new();
    let ghost all = map.keys().remaining();
    for id in it: map.keys()
        invariant
            it.seq() == all,
            r@ == all.unref().take(it.index() as int),
    {
        r.push(*id);
    }
    assert(all.unref().take(all.len() as int) == all.unref());
    r
}

/// Those of all the keys of a map that are kept are the kept keys.
pub proof fn kept_keys_are_kept<V>(
    keys: Seq<UserId>,
    map: Map<UserId, V>,
    keep: spec_fn(V) -> bool,
)
    requires
        keys.no_duplicates(),
        keys.to_set() == map.dom(),
    ensures
        are_kept_keys(kept_keys(keys, map, keep), map, keep),
{
    lemma_kept_keys(keys, map, keep);
    assert forall|k: UserId| #[trigger] kept_keys(keys, map, keep).contains(k) <==>
        map.contains_key(k) && keep(map[k]) by {
        assert(keys.to_set().contains(k) == map.dom().contains(k));
    }
}

/// Which of the keys are kept.
proof fn lemma_kept_keys<V>(keys: Seq<UserId>, map: Map<UserId, V>, keep: spec_fn(V) -> bool)
    requires
        keys.no_duplicates(),
    ensures
        kept_keys(keys, map, keep).no_duplicates(),
        forall|k: UserId| #[trigger]
            kept_keys(keys, map, keep).contains(k) <==> keys.contains(k) && keep(map[k]),
    decreases keys.len(),
{
    if keys.len() > 0 {
        let rest = keys.drop_last();
        lemma_kept_keys(rest, map, keep);
        assert(rest.push(keys.last()) == keys);
        assert(!rest.contains(keys.last())) by {
            if rest.contains(keys.last()) {
                let i = rest.index_of(keys.last());
                assert(keys[i] == keys[keys.len() - 1]);
            }
        }
        lemma_contains_pushed(rest, keys.last());
        lemma_contains_pushed(kept_keys(rest, map, keep), keys.last());
    }
}

/// What a list holds once an item is pushed.
pub proof fn lemma_contains_pushed(list: Seq<UserId>, item: UserId)
    ensures
        forall|k: UserId| #[trigger]
            list.push(item).contains(k) <==> list.contains(k) || k == item,
        list.no_duplicates() && !list.contains(item) ==> list.push(item).no_duplicates(),
{
    let longer = list.push(item);
    assert forall|k: UserId| #[trigger] longer.contains(k) <==> list.contains(k) || k == item by {
        assert(longer[list.len() as int] == item);
        if list.contains(k) {
            assert(longer[list.index_of(k)] == k);
        }
        if longer.contains(k) && k != item {
            assert(list[longer.index_of(k)] == k);
        }
    }
    if list.no_duplicates() && !list.contains(item) {
        assert forall|i: int, j: int|
            0 <= i < longer.len() && 0 <= j < longer.len() && i != j implies longer[i]
            != longer[j] by {
            if i < list.len() && j < list.len() {
                assert(list[i] != list[j]);
            } else if i < list.len() {
                assert(list.contains(list[i]));
            } else {
                assert(list.contains(list[j]));
            }
        }
    }
}

} // verus!
