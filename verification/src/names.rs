//! Sets of names that list their elements in order.
use crate::text::{compare_texts, same_text, text_le, text_lt, texts};
use crate::text::{text_le_antisymmetric, text_le_reflexive, text_le_total, text_le_transitive};
use vstd::prelude::*;

verus! {

/// Whether each text of the list comes strictly before the ones behind it.
pub open spec fn strictly_sorted(list: Seq<Seq<char>>) -> bool {
    forall|i: int, j: int| 0 <= i < j < list.len() ==> text_lt(#[trigger] list[i], #[trigger] list[j])
}

/// Whether the list holds each element of the set once and in order.
pub open spec fn lists(list: Seq<Seq<char>>, set: Set<Seq<char>>) -> bool {
    strictly_sorted(list) && list.to_set() == set
}

/// A set has one listing only.
pub proof fn listing_is_unique(a: Seq<Seq<char>>, b: Seq<Seq<char>>, set: Set<Seq<char>>)
    requires
        lists(a, set),
        lists(b, set),
    ensures
        a == b,
    decreases a.len(),
{
    assert forall|x: Seq<char>| a.contains(x) <==> b.contains(x) by {
        assert(a.to_set().contains(x) == b.to_set().contains(x));
    }
    if a.len() == 0 {
        if b.len() > 0 {
            assert(b.contains(b[0]));
        }
        assert(a == b);
    } else if b.len() == 0 {
        assert(a.contains(a[0]));
    } else {
        let x = a.last();
        let y = b.last();
        assert(a.contains(x) && b.contains(y));
        let i = b.index_of(x);
        let j = a.index_of(y);
        if i < b.len() - 1 {
            assert(text_lt(b[i], b[b.len() - 1]));
            if j < a.len() - 1 {
                assert(text_lt(a[j], a[a.len() - 1]));
                text_le_antisymmetric(x, y);
            }
        }
        assert(x == y);
        let rest = set.remove(x);
        lemma_drop_last(a, set);
        lemma_drop_last(b, set);
        listing_is_unique(a.drop_last(), b.drop_last(), rest);
        assert(a == a.drop_last().push(x));
        assert(b == b.drop_last().push(y));
    }
}

/// The listing without its last text lists the set without it.
proof fn lemma_drop_last(list: Seq<Seq<char>>, set: Set<Seq<char>>)
    requires
        lists(list, set),
        list.len() > 0,
    ensures
        lists(list.drop_last(), set.remove(list.last())),
{
    let short = list.drop_last();
    assert forall|x: Seq<char>| short.to_set().contains(x) == set.remove(list.last()).contains(
        x,
    ) by {
        if short.contains(x) {
            let i = short.index_of(x);
            assert(list[i] == x);
            assert(text_lt(list[i], list[list.len() - 1]));
            assert(list.to_set().contains(x));
        }
        if set.contains(x) && x != list.last() {
            assert(list.to_set().contains(x));
            let i = list.index_of(x);
            assert(short[i] == x);
        }
    }
    assert(short.to_set() == set.remove(list.last()));
}

/// A set of names, kept in order.
pub struct NameSet {
    items: Vec<String>,
}

impl View for NameSet {
    type V = Set<Seq<char>>;

    closed spec fn view(&self) -> Set<Seq<char>> {
        texts(self.items@).to_set()
    }
}

impl NameSet {
    #[verifier::type_invariant]
    spec fn in_order(self) -> bool {
        strictly_sorted(texts(self.items@))
    }

    /// The empty set.
    pub fn new() -> (r: Self)
        ensures
            r@ == Set::<Seq<char>>::empty(),
    {
        let r = NameSet { items: Vec::new() };
        assert(r@ == Set::<Seq<char>>::empty());
        r
    }

    /// Adds a name. A name that is already there stays once.
    pub fn insert(&mut self, name: String)
        ensures
            final(self)@ == old(self)@.insert(name@),
    {
        proof {
            use_type_invariant(&*self);
        }
        let mut items: Vec<String> = Vec::new();
        std::mem::swap(&mut items, &mut self.items);
        let ghost before = texts(items@);
        let mut at: usize = 0;
        while at < items.len() && !compare_texts(name.as_str(), items[at].as_str())
            invariant
                at <= items@.len(),
                before == texts(items@),
                strictly_sorted(before),
                forall|i: int| 0 <= i < at ==> !text_le(name@, #[trigger] before[i]),
            decreases items@.len() - at,
        {
            assert(before[at as int] == items@[at as int]@);
            at = at + 1;
        }
        if at < items.len() && same_text(items[at].as_str(), name.as_str()) {
            proof {
                assert(before[at as int] == name@);
                assert(before.contains(name@));
                assert(before.to_set().insert(name@) == before.to_set());
            }
            self.items = items;
        } else {
            items.insert(at, name);
            proof {
                let after = texts(items@);
                assert(after == before.insert(at as int, name@));
                assert forall|i: int, j: int| 0 <= i < j < after.len() implies text_lt(
                    #[trigger] after[i],
                    #[trigger] after[j],
                ) by {
                    if j < at {
                        assert(text_lt(before[i], before[j]));
                    } else if i < at && j == at {
                        text_le_total(name@, before[i]);
                        text_le_reflexive(name@);
                    } else if i < at {
                        assert(text_lt(before[i], before[j - 1]));
                    } else if i == at {
                        lemma_after(before, name@, at as int, j - 1);
                    } else {
                        assert(text_lt(before[i - 1], before[j - 1]));
                    }
                }
                assert forall|x: Seq<char>| after.to_set().contains(x)
                    == before.to_set().insert(name@).contains(x) by {
                    if before.contains(x) {
                        let i = before.index_of(x);
                        if i < at {
                            assert(after[i] == x);
                        } else {
                            assert(after[i + 1] == x);
                        }
                    }
                    assert(after[at as int] == name@);
                    if after.contains(x) && x != name@ {
                        let i = after.index_of(x);
                        if i < at {
                            assert(before[i] == x);
                        } else {
                            assert(before[i - 1] == x);
                        }
                    }
                }
                assert(after.to_set() == before.to_set().insert(name@));
            }
            self.items = items;
        }
    }

    /// Whether the set holds the name.
    pub fn contains(&self, name: &str) -> (r: bool)
        ensures
            r == self@.contains(name@),
    {
        let ghost list = texts(self.items@);
        let mut i: usize = 0;
        while i < self.items.len()
            invariant
                i <= self.items@.len(),
                list == texts(self.items@),
                forall|j: int| 0 <= j < i ==> #[trigger] list[j] != name@,
            decreases self.items@.len() - i,
        {
            assert(list[i as int] == self.items@[i as int]@);
            if same_text(self.items[i].as_str(), name) {
                assert(list.contains(name@));
                return true;
            }
            i = i + 1;
        }
        assert(!list.contains(name@));
        false
    }

    /// The names in order.
    pub fn to_list(&self) -> (r: Vec<String>)
        ensures
            lists(texts(r@), self@),
    {
        proof {
            use_type_invariant(self);
        }
        let mut r: Vec<String> = Vec::new();
        let mut i: usize = 0;
        while i < self.items.len()
            invariant
                i <= self.items@.len(),
                r@ == self.items@.take(i as int),
            decreases self.items@.len() - i,
        {
            r.push(self.items[i].clone());
            i = i + 1;
        }
        assert(r@ == self.items@);
        r
    }

    /// Whether both sets hold the same names.
    pub fn same(&self, other: &NameSet) -> (r: bool)
        ensures
            r == (self@ == other@),
    {
        proof {
            use_type_invariant(self);
            use_type_invariant(other);
            if self@ == other@ {
                listing_is_unique(texts(self.items@), texts(other.items@), self@);
            }
        }
        let ghost a = texts(self.items@);
        let ghost b = texts(other.items@);
        if self.items.len() != other.items.len() {
            assert(a.len() != b.len());
            return false;
        }
        let mut i: usize = 0;
        while i < self.items.len()
            invariant
                i <= self.items@.len(),
                self.items@.len() == other.items@.len(),
                a == texts(self.items@),
                b == texts(other.items@),
                self@ == other@ ==> a == b,
                forall|j: int| 0 <= j < i ==> #[trigger] a[j] == b[j],
            decreases self.items@.len() - i,
        {
            assert(a[i as int] == self.items@[i as int]@);
            assert(b[i as int] == other.items@[i as int]@);
            if !same_text(self.items[i].as_str(), other.items[i].as_str()) {
                return false;
            }
            i = i + 1;
        }
        assert(a == b);
        true
    }

    /// The set of the names of a list.
    pub fn from_list(names: &Vec<String>) -> (r: Self)
        ensures
            r@ == texts(names@).to_set(),
    {
        let mut r = NameSet::new();
        let mut i: usize = 0;
        assert(texts(names@.take(0)).to_set() == Set::<Seq<char>>::empty());
        while i < names.len()
            invariant
                i <= names@.len(),
                r@ == texts(names@.take(i as int)).to_set(),
            decreases names@.len() - i,
        {
            r.insert(names[i].clone());
            proof {
                lemma_push_to_set(texts(names@.take(i as int)), names@[i as int]@);
                assert(texts(names@.take(i + 1)) == texts(names@.take(i as int)).push(
                    names@[i as int]@,
                ));
            }
            i = i + 1;
        }
        assert(names@.take(names@.len() as int) == names@);
        r
    }
}

/// Pushing a text adds it to the set of the list's texts.
pub proof fn lemma_push_to_set(list: Seq<Seq<char>>, x: Seq<char>)
    ensures
        list.push(x).to_set() == list.to_set().insert(x),
{
    let longer = list.push(x);
    assert forall|y: Seq<char>| longer.to_set().contains(y) == list.to_set().insert(x).contains(
        y,
    ) by {
        assert(longer[list.len() as int] == x);
        if list.contains(y) {
            let i = list.index_of(y);
            assert(longer[i] == y);
        }
        if longer.contains(y) && y != x {
            let i = longer.index_of(y);
            assert(list[i] == y);
        }
    }
    assert(longer.to_set() == list.to_set().insert(x));
}

/// A text that is not after `list[at]` and differs from it comes strictly before what follows.
proof fn lemma_after(list: Seq<Seq<char>>, name: Seq<char>, at: int, j: int)
    requires
        strictly_sorted(list),
        0 <= at <= j < list.len(),
        text_le(name, list[at]),
        name != list[at],
    ensures
        text_lt(name, list[j]),
{
    if at < j {
        assert(text_lt(list[at], list[j]));
        text_le_transitive(name, list[at], list[j]);
        if name == list[j] {
            text_le_antisymmetric(name, list[at]);
        }
    }
}

/// The names of a set are listed each once, those with smaller characters first.
pub proof fn names_are_listed_once_and_in_order(set: &NameSet, list: Vec<String>, name: Seq<char>)
    requires
        call_ensures(NameSet::to_list, (set,), list),
    ensures
        set@.contains(name) <==> exists|i: int|
            0 <= i < list@.len() && (#[trigger] list@[i])@ == name,
        forall|i: int, j: int|
            0 <= i < j < list@.len() ==> (#[trigger] list@[i])@ != (#[trigger] list@[j])@ && text_le(
                list@[i]@,
                list@[j]@,
            ),
{
    let names = texts(list@);
    assert(names.to_set().contains(name) == names.contains(name));
    if names.contains(name) {
        assert(list@[names.index_of(name)]@ == name);
    }
    if exists|i: int| 0 <= i < list@.len() && (#[trigger] list@[i])@ == name {
        let i = choose|i: int| 0 <= i < list@.len() && (#[trigger] list@[i])@ == name;
        assert(names[i] == name);
    }
    assert forall|i: int, j: int| 0 <= i < j < list@.len() implies (#[trigger] list@[i])@ != (
    #[trigger] list@[j])@ && text_le(list@[i]@, list@[j]@) by {
        assert(names[i] == list@[i]@ && names[j] == list@[j]@);
    }
}

/// A set holds the names that were put into it, and no others. Two sets are the same if they hold
/// the same names.
pub proof fn sets_hold_what_was_put_in(
    empty: NameSet,
    set: &mut NameSet,
    name: String,
    later: &NameSet,
    wanted: &str,
    found: bool,
    other: &NameSet,
    same: bool,
)
    requires
        call_ensures(NameSet::new, (), empty),
        call_ensures(NameSet::insert, (set, name), ()),
        later@ == final(set)@,
        call_ensures(NameSet::contains, (later, wanted), found),
        call_ensures(NameSet::same, (later, other), same),
    ensures
        !empty@.contains(wanted@),
        found <==> wanted@ == name@ || old(set)@.contains(wanted@),
        same ==> (other@.contains(wanted@) <==> found),
        (forall|n: Seq<char>| #[trigger] other@.contains(n) <==> later@.contains(n)) ==> same,
{
    if forall|n: Seq<char>| #[trigger] other@.contains(n) <==> later@.contains(n) {
        assert(other@ =~= later@);
    }
}

} // verus!
