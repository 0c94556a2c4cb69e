//! Dense secondary map: a vector of optional components indexed by the raw
//! index of a handle.

use crate::entity::index::Index32;
use std::marker::PhantomData;
use vstd::prelude::*;

verus! {

/// Dense secondary map to associate new components with existing entities.
///
/// Well suited when nearly every entity has the component. Slots between
/// two components that were never set read as absent.
pub struct ComponentVec<K, V> {
    components: Vec<Option<V>>,
    key: PhantomData<K>,
}

impl<K, V> View for ComponentVec<K, V> {
    type V = Map<u32, V>;

    /// The components by the index of their key.
    closed spec fn view(&self) -> Map<u32, V> {
        map_of(self.components@)
    }
}

/// The set slots of a sequence of slots, as a map from their positions.
spec fn map_of<V>(slots: Seq<Option<V>>) -> Map<u32, V> {
    Map::new(
        |index: u32| (index as int) < slots.len() && slots[index as int].is_some(),
        |index: u32| slots[index as int].unwrap(),
    )
}

/// Setting one slot inserts at its position.
proof fn lemma_map_of_update<V>(slots: Seq<Option<V>>, index: u32)
    requires
        (index as int) < slots.len(),
    ensures
        forall|v: V| #[trigger]
            map_of(slots.update(index as int, Some(v))) == map_of(slots).insert(index, v),
        map_of(slots.update(index as int, None)) == map_of(slots).remove(index),
{
    assert forall|v: V| #[trigger]
        map_of(slots.update(index as int, Some(v))) == map_of(slots).insert(index, v) by {
        assert(map_of(slots.update(index as int, Some(v))) =~= map_of(slots).insert(index, v));
    }
    assert(map_of(slots.update(index as int, None)) =~= map_of(slots).remove(index));
}

impl<K, V> ComponentVec<K, V> where K: Index32 {
    /// The number of slots, set or not: one more than the highest index
    /// that was ever set, or zero.
    pub closed spec fn slots(&self) -> nat {
        self.components@.len()
    }

    /// Every key of the map lies below the number of slots.
    pub proof fn lemma_keys_in_slots(&self)
        ensures
            forall|index: u32| self@.contains_key(index) ==> (index as nat) < self.slots(),
    {
    }

    /// Creates an empty map.
    pub fn new() -> (map: Self)
        ensures
            map@ == Map::<u32, V>::empty(),
            map.slots() == 0,
    {
        let map = Self { components: Vec::new(), key: PhantomData };
        assert(map@ =~= Map::<u32, V>::empty());
        map
    }

    /// Returns `true` if the key has a component in the map.
    pub fn contains_key(&self, key: K) -> (found: bool)
        ensures
            found == self@.contains_key(key.index()),
    {
        let index: usize = key.into_u32() as usize;
        index < self.components.len() && self.components[index].is_some()
    }

    /// Inserts the component for the key and returns the previous component if any.
    ///
    /// Slots between the former end and the key are padded as absent; the
    /// number of slots never shrinks.
    pub fn insert(&mut self, key: K, component: V) -> (previous: Option<V>)
        ensures
            final(self)@ == old(self)@.insert(key.index(), component),
            previous == old(self)@.get(key.index()),
            final(self).slots() == if key.index() < old(self).slots() {
                old(self).slots()
            } else {
                (key.index() + 1) as nat
            },
    {
        let index: usize = key.into_u32() as usize;
        while self.components.len() <= index
            invariant
                self.components@.len() >= old(self).components@.len(),
                self.components@.len() > old(self).components@.len() ==> self.components@.len()
                    <= index + 1,
                forall|i: int|
                    0 <= i < old(self).components@.len() ==> self.components@[i] == old(
                        self,
                    ).components@[i],
                forall|i: int|
                    old(self).components@.len() <= i < self.components@.len()
                        ==> self.components@[i].is_none(),
            decreases index + 1 - self.components@.len(),
        {
            self.components.push(None);
        }
        let mut slot = Some(component);
        let ghost before = self.components@;
        std::mem::swap(&mut self.components[index], &mut slot);
        assert(self.components@ == before.update(index as int, Some(component)));
        assert(final(self)@ =~= old(self)@.insert(key.index(), component));
        slot
    }

    /// Removes the component for the key and returns the removed component if any.
    pub fn remove(&mut self, key: K) -> (removed: Option<V>)
        ensures
            final(self)@ == old(self)@.remove(key.index()),
            removed == old(self)@.get(key.index()),
            final(self).slots() == old(self).slots(),
    {
        let index: usize = key.into_u32() as usize;
        if index < self.components.len() {
            let mut slot = None;
            let ghost before = self.components@;
            std::mem::swap(&mut self.components[index], &mut slot);
            assert(self.components@ == before.update(index as int, None));
            assert(final(self)@ =~= old(self)@.remove(key.index()));
            slot
        } else {
            assert(final(self)@ =~= old(self)@.remove(key.index()));
            None
        }
    }

    /// Returns a shared reference to the component at the given key.
    pub fn get(&self, key: K) -> (component: Option<&V>)
        ensures
            component == match self@.get(key.index()) {
                Some(v) => Some(&v),
                None => None,
            },
    {
        let index: usize = key.into_u32() as usize;
        if index < self.components.len() {
            self.components[index].as_ref()
        } else {
            None
        }
    }

    /// Returns an exclusive reference to the component at the given key.
    ///
    /// What is written through the reference becomes the key's component.
    pub fn get_mut(&mut self, key: K) -> (component: Option<&mut V>)
        ensures
            final(self).slots() == old(self).slots(),
            match component {
                Some(v) => {
                    &&& old(self)@.contains_key(key.index())
                    &&& *v == old(self)@[key.index()]
                    &&& final(self)@ == old(self)@.insert(key.index(), *final(v))
                },
                None => !old(self)@.contains_key(key.index()) && final(self)@ == old(self)@,
            },
    {
        let index: usize = key.into_u32() as usize;
        if index < self.components.len() {
            proof {
                lemma_map_of_update(self.components@, key.index());
            }
            match &mut self.components[index] {
                Some(component) => Some(component),
                None => None,
            }
        } else {
            None
        }
    }

    /// Returns the keys that have a component with shared references to
    /// the components, in the order of the indices of the keys.
    pub fn iter(&self) -> (items: Vec<(K, &V)>)
        ensures
            forall|i: int, j: int|
                0 <= i < j < items@.len() ==> (#[trigger] items@[i]).0.index() < (
                #[trigger] items@[j]).0.index(),
            forall|i: int|
                0 <= i < items@.len() ==> self@.contains_key((#[trigger] items@[i]).0.index())
                    && self@[items@[i].0.index()] == *items@[i].1,
            forall|index: u32|
                self@.contains_key(index) && index != u32::MAX ==> exists|i: int|
                    0 <= i < items@.len() && (#[trigger] items@[i]).0.index() == index,
    {
        let mut items: Vec<(K, &V)> = Vec::new();
        let mut index: usize = 0;
        while index < self.components.len() && index < u32::MAX as usize
            invariant
                index <= self.components@.len(),
                index <= u32::MAX,
                forall|i: int| 0 <= i < items@.len() ==> (#[trigger] items@[i]).0.index() < index,
                forall|i: int, j: int|
                    0 <= i < j < items@.len() ==> (#[trigger] items@[i]).0.index() < (
                    #[trigger] items@[j]).0.index(),
                forall|i: int|
                    0 <= i < items@.len() ==> self@.contains_key((#[trigger] items@[i]).0.index())
                        && self@[items@[i].0.index()] == *items@[i].1,
                forall|at: u32|
                    self@.contains_key(at) && (at as int) < index ==> exists|i: int|
                        0 <= i < items@.len() && (#[trigger] items@[i]).0.index() == at,
            decreases self.components@.len() - index,
        {
            match &self.components[index] {
                Some(component) => {
                    let ghost before = items@;
                    items.push((K::from_u32(index as u32), component));
                    proof {
                        assert(items@[before.len() as int].0.index() == index);
                        assert forall|at: u32|
                            self@.contains_key(at) && (at as int) < index + 1 implies exists|i: int|
                            0 <= i < items@.len() && (#[trigger] items@[i]).0.index() == at by {
                            if (at as int) < index {
                                let i = choose|i: int|
                                    0 <= i < before.len() && (#[trigger] before[i]).0.index() == at;
                                assert(items@[i].0.index() == at);
                            } else {
                                assert(items@[before.len() as int].0.index() == at);
                            }
                        }
                    }
                },
                None => {},
            }
            index = index + 1;
        }
        items
    }

    /// Returns a shared reference to the component of a key that has one.
    pub fn index(&self, key: K) -> (component: &V)
        requires
            self@.contains_key(key.index()),
        ensures
            *component == self@[key.index()],
    {
        let index: usize = key.into_u32() as usize;
        match &self.components[index] {
            Some(component) => component,
            None => vstd::pervasive::unreached(),
        }
    }

    /// Returns an exclusive reference to the component of a key that has one.
    pub fn index_mut(&mut self, key: K) -> (component: &mut V)
        requires
            old(self)@.contains_key(key.index()),
        ensures
            *component == old(self)@[key.index()],
            final(self)@ == old(self)@.insert(key.index(), *final(component)),
            final(self).slots() == old(self).slots(),
    {
        let index: usize = key.into_u32() as usize;
        proof {
            lemma_map_of_update(self.components@, key.index());
        }
        match &mut self.components[index] {
            Some(component) => component,
            None => vstd::pervasive::unreached(),
        }
    }

    /// Clears the map for reusing its memory.
    pub fn clear(&mut self)
        ensures
            final(self)@ == Map::<u32, V>::empty(),
            final(self).slots() == 0,
    {
        self.components.clear();
        assert(final(self)@ =~= Map::<u32, V>::empty());
    }
}

impl<K, V> Clone for ComponentVec<K, V> where K: Index32, V: Clone {
    /// Returns a map that holds a clone of every component at its key.
    fn clone(&self) -> (map: Self)
        ensures
            map.slots() == self.slots(),
            forall|index: u32| #[trigger] map@.contains_key(index) == self@.contains_key(index),
            forall|index: u32|
                self@.contains_key(index) ==> vstd::pervasive::cloned::<V>(
                    self@[index],
                    #[trigger] map@[index],
                ),
    {
        let map = Self { components: self.components.clone(), key: PhantomData };
        assert forall|index: u32| #[trigger]
            map@.contains_key(index) == self@.contains_key(index) by {
            if (index as int) < self.components@.len() {
                assert(vstd::pervasive::cloned::<Option<V>>(
                    self.components@[index as int],
                    map.components@[index as int],
                ));
            }
        }
        assert forall|index: u32| self@.contains_key(index) implies vstd::pervasive::cloned::<V>(
            self@[index],
            #[trigger] map@[index],
        ) by {
            assert(vstd::pervasive::cloned::<Option<V>>(
                self.components@[index as int],
                map.components@[index as int],
            ));
        }
        map
    }
}

} // verus!
