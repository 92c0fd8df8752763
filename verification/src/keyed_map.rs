//! A map from keys to values that is searched by what its keys show.
use vstd::prelude::*;

use crate::queue::Queue;
use crate::text::same_text;

verus! {

/// A key that can be told apart from another by its model.
pub trait Key: View {
    /// Whether two keys have the same model.
    fn same(&self, other: &Self) -> (same: bool)
        ensures
            same == (self@ == other@),
    ;
}

impl Key for String {
    fn same(&self, other: &Self) -> (same: bool) {
        same_text(self.as_str(), other.as_str())
    }
}

/// A map from keys to values. No two of its keys have the same model.
pub struct KeyedMap<K: Key, V> {
    slots: Vec<(K, V)>,
}

/// Whether some slot has this key.
spec fn holds<K: Key, V>(slots: Seq<(K, V)>, key: K::V) -> bool {
    exists|i: int| 0 <= i < slots.len() && (#[trigger] slots[i]).0@ == key
}

/// The slot that has this key.
spec fn slot_of<K: Key, V>(slots: Seq<(K, V)>, key: K::V) -> int {
    choose|i: int| 0 <= i < slots.len() && (#[trigger] slots[i]).0@ == key
}

/// The map that the slots make.
spec fn map_of<K: Key, V>(slots: Seq<(K, V)>) -> Map<K::V, V> {
    Map::new(|key: K::V| holds(slots, key), |key: K::V| slots[slot_of(slots, key)].1)
}

/// Whether no key occurs twice.
spec fn distinct<K: Key, V>(slots: Seq<(K, V)>) -> bool {
    forall|i: int, j: int|
        0 <= i < j < slots.len() ==> (#[trigger] slots[i]).0@ != (#[trigger] slots[j]).0@
}

proof fn lemma_slot<K: Key, V>(slots: Seq<(K, V)>, at: int)
    requires
        distinct(slots),
        0 <= at < slots.len(),
    ensures
        map_of(slots).contains_key(slots[at].0@),
        map_of(slots)[slots[at].0@] == slots[at].1,
{
    let key = slots[at].0@;
    assert(slots[at].0@ == key);
    assert(slot_of(slots, key) == at) by {
        let found = slot_of(slots, key);
        if found < at {
            assert(slots[found].0@ != slots[at].0@);
        } else if at < found {
            assert(slots[at].0@ != slots[found].0@);
        }
    }
}

proof fn lemma_absent<K: Key, V>(slots: Seq<(K, V)>, key: K::V)
    requires
        forall|i: int| 0 <= i < slots.len() ==> (#[trigger] slots[i]).0@ != key,
    ensures
        !map_of(slots).contains_key(key),
{
}

impl<K: Key, V> View for KeyedMap<K, V> {
    type V = Map<K::V, V>;

    closed spec fn view(&self) -> Map<K::V, V> {
        map_of(self.slots@)
    }
}

impl<K: Key, V> KeyedMap<K, V> {
    #[verifier::type_invariant]
    spec fn well_formed(self) -> bool {
        distinct(self.slots@)
    }

    /// Makes a map without keys.
    pub fn new() -> (map: Self)
        ensures
            map@ == Map::<K::V, V>::empty(),
    {
        let map = KeyedMap { slots: Vec::new() };
        assert(map@ =~= Map::<K::V, V>::empty());
        map
    }

    /// The key in a slot, if there is such a slot.
    pub closed spec fn key_at(&self, at: usize) -> Option<K::V> {
        if at < self.slots@.len() {
            Some(self.slots@[at as int].0@)
        } else {
            None
        }
    }

    /// Returns the slot of a key, if the map has it.
    pub fn position(&self, key: &K) -> (at: Option<usize>)
        ensures
            match at {
                Some(at) => self.key_at(at) == Some(key@) && self@.contains_key(key@),
                None => !self@.contains_key(key@),
            },
    {
        proof {
            use_type_invariant(self);
        }
        let at = self.slot(key);
        if at < self.slots.len() {
            proof {
                lemma_slot(self.slots@, at as int);
            }
            Some(at)
        } else {
            None
        }
    }

    /// Returns the value in a slot.
    pub fn value_at(&self, at: usize) -> (value: &V)
        requires
            self.key_at(at) is Some,
        ensures
            self@.contains_key(self.key_at(at)->0),
            *value == self@[self.key_at(at)->0],
    {
        proof {
            use_type_invariant(self);
            lemma_slot(self.slots@, at as int);
        }
        &self.slots[at].1
    }

    /// Passes the value in a slot through `f`.
    pub fn update_at<F: FnOnce(V) -> V>(&mut self, at: usize, f: F)
        requires
            old(self).key_at(at) is Some,
            call_requires(f, (old(self)@[old(self).key_at(at)->0],)),
        ensures
            final(self).key_at(at) == old(self).key_at(at),
            exists|value: V|
                {
                    &&& #[trigger] call_ensures(f, (old(self)@[old(self).key_at(at)->0],), value)
                    &&& final(self)@ == old(self)@.insert(old(self).key_at(at)->0, value)
                },
    {
        proof {
            use_type_invariant(&*self);
            lemma_slot(self.slots@, at as int);
        }
        let ghost before = self.slots@;
        let ghost key_model = before[at as int].0@;
        let mut slots: Vec<(K, V)> = Vec::new();
        std::mem::swap(&mut self.slots, &mut slots);
        let (key, value) = slots.remove(at);
        let value = f(value);
        slots.insert(at, (key, value));
        proof {
            assert(slots@ =~= before.update(at as int, (key, value)));
            assert(distinct(slots@)) by {
                assert forall|i: int, j: int| 0 <= i < j < slots@.len() implies (
                #[trigger] slots@[i]).0@ != (#[trigger] slots@[j]).0@ by {
                    assert(slots@[i].0@ == before[i].0@ && slots@[j].0@ == before[j].0@);
                }
            }
            lemma_slot(slots@, at as int);
            let updated = map_of(before).insert(key_model, value);
            assert forall|other: K::V| #[trigger] map_of(slots@).contains_key(other)
                == updated.contains_key(other) by {
                if map_of(before).contains_key(other) {
                    let was = slot_of(before, other);
                    assert(slots@[was].0@ == before[was].0@);
                }
                if map_of(slots@).contains_key(other) {
                    let is = slot_of(slots@, other);
                    assert(before[is].0@ == slots@[is].0@);
                }
            }
            assert forall|other: K::V| #[trigger] map_of(slots@).contains_key(other) implies map_of(
                slots@,
            )[other] == updated[other] by {
                let is = slot_of(slots@, other);
                lemma_slot(before, is);
                if is != at {
                    assert(slots@[is] == before[is]);
                    lemma_slot(slots@, is);
                    if is < at {
                        assert(slots@[is].0@ != slots@[at as int].0@);
                    } else {
                        assert(slots@[at as int].0@ != slots@[is].0@);
                    }
                }
            }
            assert(map_of(slots@) =~= updated);
        }
        self.slots = slots;
    }

    /// Returns the slot of a key, or the number of slots.
    fn slot(&self, key: &K) -> (at: usize)
        ensures
            at <= self.slots@.len(),
            at < self.slots@.len() ==> self.slots@[at as int].0@ == key@,
            at == self.slots@.len() ==> !self@.contains_key(key@),
    {
        let mut at: usize = 0;
        while at < self.slots.len() && !self.slots[at].0.same(key)
            invariant
                at <= self.slots@.len(),
                forall|i: int| 0 <= i < at ==> (#[trigger] self.slots@[i]).0@ != key@,
            decreases self.slots@.len() - at,
        {
            at = at + 1;
        }
        proof {
            if at == self.slots@.len() {
                lemma_absent(self.slots@, key@);
            }
        }
        at
    }

    /// Returns the value of a key, if the map has it.
    pub fn get(&self, key: &K) -> (value: Option<&V>)
        ensures
            match value {
                Some(value) => self@.contains_key(key@) && self@[key@] == *value,
                None => !self@.contains_key(key@),
            },
    {
        proof {
            use_type_invariant(self);
        }
        let at = self.slot(key);
        if at < self.slots.len() {
            proof {
                lemma_slot(self.slots@, at as int);
            }
            Some(&self.slots[at].1)
        } else {
            None
        }
    }

    /// Gives a key a value, in place of the one it has, and returns the slot of the key.
    pub fn insert(&mut self, key: K, value: V) -> (at: usize)
        ensures
            final(self)@ == old(self)@.insert(key@, value),
            final(self).key_at(at) == Some(key@),
    {
        let _ = self.remove(&key);
        proof {
            use_type_invariant(&*self);
        }
        let ghost before = self.slots@;
        let ghost cleared = self@;
        let mut slots: Vec<(K, V)> = Vec::new();
        std::mem::swap(&mut self.slots, &mut slots);
        slots.push((key, value));
        proof {
            assert forall|i: int| 0 <= i < before.len() implies (#[trigger] slots@[i]).0@
                != key@ by {
                lemma_slot(before, i);
            }
            lemma_same_values(before, slots@);
            lemma_slot(slots@, before.len() as int);
            assert forall|other: K::V| other != key@ implies map_of(slots@).contains_key(other)
                == cleared.contains_key(other) by {
                if map_of(slots@).contains_key(other) {
                    let at = slot_of(slots@, other);
                    assert(before[at] == slots@[at]);
                }
            }
            assert(map_of(slots@) =~= cleared.insert(key@, value));
            assert(cleared.insert(key@, value) =~= old(self)@.insert(key@, value));
        }
        let at = slots.len() - 1;
        self.slots = slots;
        at
    }

    /// Takes a key out of the map, and returns the value that it had.
    pub fn remove(&mut self, key: &K) -> (value: Option<V>)
        ensures
            final(self)@ == old(self)@.remove(key@),
            value == lookup(old(self)@, key@),
    {
        proof {
            use_type_invariant(&*self);
        }
        let at = self.slot(key);
        if at == self.slots.len() {
            assert(self@ =~= self@.remove(key@));
            return None;
        }
        let ghost before = self.slots@;
        let mut slots: Vec<(K, V)> = Vec::new();
        std::mem::swap(&mut self.slots, &mut slots);
        let (_, value) = slots.remove(at);
        proof {
            lemma_slot(before, at as int);
            assert(slots@ == before.remove(at as int));
            assert(distinct(slots@)) by {
                assert forall|i: int, j: int| 0 <= i < j < slots@.len() implies (
                #[trigger] slots@[i]).0@ != (#[trigger] slots@[j]).0@ by {
                    let was_i = if i < at { i } else { i + 1 };
                    let was_j = if j < at { j } else { j + 1 };
                    assert(slots@[i] == before[was_i] && slots@[j] == before[was_j]);
                }
            }
            assert forall|other: K::V| #[trigger] map_of(slots@).contains_key(other) implies other
                != key@ && map_of(before).contains_key(other) && map_of(before)[other] == map_of(
                slots@,
            )[other] by {
                let is = slot_of(slots@, other);
                let was = if is < at { is } else { is + 1 };
                assert(slots@[is] == before[was]);
                lemma_slot(before, was);
                lemma_slot(before, at as int);
                if was < at {
                    assert(before[was].0@ != before[at as int].0@);
                } else {
                    assert(before[at as int].0@ != before[was].0@);
                }
            }
            assert forall|other: K::V| other != key@ && #[trigger] map_of(before).contains_key(
                other,
            ) implies map_of(slots@).contains_key(other) by {
                let was = slot_of(before, other);
                let is = if was < at { was } else { was - 1 };
                assert(was != at);
                assert(slots@[is] == before[was]);
            }
            assert(map_of(slots@) =~= map_of(before).remove(key@));
        }
        self.slots = slots;
        Some(value)
    }
}

/// The value of a key, if the map has it.
pub open spec fn lookup<K, V>(map: Map<K, V>, key: K) -> Option<V> {
    if map.contains_key(key) {
        Some(map[key])
    } else {
        None
    }
}

impl<K: Key, V> KeyedMap<K, V> {
    /// Passes every value through `keep`: a key whose value comes back as nothing leaves the map,
    /// any other keeps what came back.
    pub fn retain<F: Fn(V) -> Option<V>>(&mut self, keep: F)
        requires
            forall|value: V| call_requires(keep, (value,)),
        ensures
            forall|key: K::V| #[trigger]
                old(self)@.contains_key(key) ==> call_ensures(
                    keep,
                    (old(self)@[key],),
                    lookup(final(self)@, key),
                ),
            forall|key: K::V| #[trigger]
                final(self)@.contains_key(key) ==> old(self)@.contains_key(key),
    {
        proof {
            use_type_invariant(&*self);
        }
        let ghost before = self.slots@;
        let mut held: Vec<(K, V)> = Vec::new();
        std::mem::swap(&mut self.slots, &mut held);
        let mut rest = Queue::new(held);
        let mut slots: Vec<(K, V)> = Vec::new();
        let ghost mut done: int = 0;
        assert(before.skip(0) =~= before);
        while rest.len() > 0
            invariant
                0 <= done <= before.len(),
                rest@ == before.skip(done),
                distinct(before),
                distinct(slots@),
                forall|value: V| call_requires(keep, (value,)),
                forall|i: int|
                    0 <= i < slots@.len() ==> exists|j: int|
                        0 <= j < done && (#[trigger] before[j]).0@ == (#[trigger] slots@[i]).0@,
                forall|j: int|
                    0 <= j < done ==> call_ensures(
                        keep,
                        ((#[trigger] before[j]).1,),
                        lookup(map_of(slots@), before[j].0@),
                    ),
            decreases rest@.len(),
        {
            let ghost kept = slots@;
            let (key, value) = rest.take();
            assert(before[done] == (key, value));
            assert forall|i: int| 0 <= i < kept.len() implies (#[trigger] kept[i]).0@ != key@ by {
                let j = choose|j: int| 0 <= j < done && (#[trigger] before[j]).0@ == kept[i].0@;
                assert(before[j].0@ != before[done].0@);
            }
            let outcome = keep(value);
            proof {
                lemma_absent(kept, key@);
            }
            match outcome {
                Some(value) => {
                    let ghost pair = (key, value);
                    slots.push((key, value));
                    proof {
                        lemma_same_values(kept, slots@);
                        lemma_slot(slots@, kept.len() as int);
                        assert forall|i: int| 0 <= i < slots@.len() implies exists|j: int|
                            0 <= j < done + 1 && (#[trigger] before[j]).0@ == (
                            #[trigger] slots@[i]).0@ by {
                            if i < kept.len() {
                                let j = choose|j: int|
                                    0 <= j < done && (#[trigger] before[j]).0@ == kept[i].0@;
                                assert(before[j].0@ == slots@[i].0@);
                            } else {
                                assert(before[done].0@ == slots@[i].0@);
                            }
                        }
                        assert forall|j: int| 0 <= j < done implies lookup(
                            map_of(slots@),
                            (#[trigger] before[j]).0@,
                        ) == lookup(map_of(kept), before[j].0@) by {
                            assert(before[j].0@ != before[done].0@);
                            if map_of(slots@).contains_key(before[j].0@) {
                                let at = slot_of(slots@, before[j].0@);
                                assert(kept[at] == slots@[at]);
                            }
                        }
                    }
                },
                None => {},
            }
            proof {
                assert(before.skip(done).skip(1) =~= before.skip(done + 1));
                assert(rest@ =~= before.skip(done + 1));
                done = done + 1;
            }
        }
        proof {
            assert forall|key: K::V| #[trigger] map_of(before).contains_key(key) implies call_ensures(
                keep,
                (map_of(before)[key],),
                lookup(map_of(slots@), key),
            ) by {
                let at = slot_of(before, key);
                assert(before[at].0@ == key);
            }
            assert forall|key: K::V| #[trigger] map_of(slots@).contains_key(key) implies map_of(
                before,
            ).contains_key(key) by {
                let at = slot_of(slots@, key);
                let j = choose|j: int|
                    0 <= j < done && (#[trigger] before[j]).0@ == slots@[at].0@;
                lemma_slot(before, j);
            }
        }
        self.slots = slots;
    }
}

/// Slots that follow others do not change the values of those.
proof fn lemma_same_values<K: Key, V>(fewer: Seq<(K, V)>, more: Seq<(K, V)>)
    requires
        distinct(more),
        fewer.len() <= more.len(),
        forall|i: int| 0 <= i < fewer.len() ==> #[trigger] fewer[i] == more[i],
    ensures
        forall|key: K::V|
            map_of(fewer).contains_key(key) ==> #[trigger] map_of(more).contains_key(key) && map_of(
                more,
            )[key] == map_of(fewer)[key],
{
    assert forall|key: K::V| map_of(fewer).contains_key(key) implies #[trigger] map_of(
        more,
    ).contains_key(key) && map_of(more)[key] == map_of(fewer)[key] by {
        let at = slot_of(fewer, key);
        assert(fewer[at] == more[at]);
        lemma_slot(more, at);
    }
}

/// A value that a key is given is found under every key that shows the same, and under no other; keys
/// that show something else keep what they had. A key that is taken out is not found any more, and
/// what it had is handed back.
pub proof fn law_map_finds_what_it_was_given<K: Key, V>(
    map: &mut KeyedMap<K, V>,
    key: K,
    value: V,
    slot: usize,
    asked: K,
    before: Option<&V>,
    found: Option<&V>,
    next: &mut KeyedMap<K, V>,
    removed: Option<V>,
    after: Option<&V>,
)
    requires
        call_ensures(KeyedMap::<K, V>::get, (map, &asked), before),
        call_ensures(KeyedMap::<K, V>::insert, (map, key, value), slot),
        call_ensures(KeyedMap::<K, V>::get, (final(map), &asked), found),
        *next == *final(map),
        call_ensures(KeyedMap::<K, V>::remove, (next, &key), removed),
        call_ensures(KeyedMap::<K, V>::get, (final(next), &asked), after),
    ensures
        asked@ == key@ ==> (found matches Some(kept) && *kept == value) && after is None,
        asked@ != key@ ==> {
            &&& found is Some <==> before is Some
            &&& before matches Some(kept) ==> *found->0 == *kept
            &&& after is Some <==> before is Some
            &&& before matches Some(kept) ==> *after->0 == *kept
        },
        removed == Some(value),
{
}

/// A new map has no key.
pub proof fn law_new_map_is_empty<K: Key, V>(map: KeyedMap<K, V>, key: K, found: Option<&V>)
    requires
        call_ensures(KeyedMap::<K, V>::new, (), map),
        call_ensures(KeyedMap::<K, V>::get, (&map, &key), found),
    ensures
        found is None,
{
}

} // verus!
