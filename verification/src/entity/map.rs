//! Sparse secondary map: a hash table keyed by the raw index of a handle.

use crate::entity::index::Index32;
use std::collections::hash_map;
use std::collections::HashMap;
use std::marker::PhantomData;
use vstd::prelude::*;
use vstd::std_specs::hash::*;
use vstd::std_specs::iter::IteratorSpec;

verus! {

broadcast use vstd::std_specs::hash::group_hash_axioms;

/// Sparse secondary map to associate new components with existing entities.
///
/// Well suited when only few entities have the component.
pub struct ComponentMap<K, V> {
    components: HashMap<u32, V>,
    key: PhantomData<K>,
}

impl<K, V> View for ComponentMap<K, V> {
    type V = Map<u32, V>;

    /// The components by the index of their key.
    closed spec fn view(&self) -> Map<u32, V> {
        self.components@
    }
}

impl<K, V> ComponentMap<K, V> where K: Index32 {
    /// Every key of the map is the index of a key of the map's key type.
    ///
    /// Holds of every map that was made and filled through the methods of
    /// this type.
    pub open spec fn wf(&self) -> bool {
        forall|index: u32| self@.contains_key(index) ==> index != u32::MAX
    }

    /// Creates an empty map.
    pub fn new() -> (map: Self)
        ensures
            map@ == Map::<u32, V>::empty(),
    {
        Self { components: HashMap::new(), key: PhantomData }
    }

    /// The domain of the map is finite.
    pub proof fn lemma_finite(&self)
        ensures
            self@.dom().finite(),
    {
    }

    /// Returns `true` if the key has a component in the map.
    pub fn contains_key(&self, key: K) -> (found: bool)
        ensures
            found == self@.contains_key(key.index()),
    {
        let index: u32 = key.into_u32();
        self.components.contains_key(&index)
    }

    /// Returns the number of components in the map.
    pub fn len(&self) -> (len: usize)
        ensures
            len == self@.len(),
    {
        self.components.len()
    }

    /// Returns `true` if there are no components in the map.
    pub fn is_empty(&self) -> (empty: bool)
        ensures
            empty == self@.is_empty(),
    {
        self.components.is_empty()
    }

    /// Inserts the component for the key and returns the previous component if any.
    pub fn insert(&mut self, key: K, component: V) -> (previous: Option<V>)
        ensures
            final(self)@ == old(self)@.insert(key.index(), component),
            previous == old(self)@.get(key.index()),
            key.index() != u32::MAX,
    {
        let index: u32 = key.into_u32();
        self.components.insert(index, component)
    }

    /// Removes the component for the key and returns the removed component if any.
    pub fn remove(&mut self, key: K) -> (removed: Option<V>)
        ensures
            final(self)@ == old(self)@.remove(key.index()),
            removed == old(self)@.get(key.index()),
    {
        let index: u32 = key.into_u32();
        self.components.remove(&index)
    }

    /// Returns a shared reference to the component at the given key.
    pub fn get(&self, key: K) -> (component: Option<&V>)
        ensures
            component == match self@.get(key.index()) {
                Some(v) => Some(&v),
                None => None,
            },
    {
        let index: u32 = key.into_u32();
        self.components.get(&index)
    }

    /// Returns an exclusive reference to the component at the given key.
    ///
    /// What is written through the reference becomes the key's component.
    pub fn get_mut(&mut self, key: K) -> (component: Option<&mut V>)
        ensures
            match component {
                Some(v) => {
                    &&& old(self)@.contains_key(key.index())
                    &&& *v == old(self)@[key.index()]
                    &&& final(self)@ == old(self)@.insert(key.index(), *final(v))
                },
                None => !old(self)@.contains_key(key.index()) && final(self)@ == old(self)@,
            },
    {
        let index: u32 = key.into_u32();
        match self.components.entry(index) {
            hash_map::Entry::Occupied(occupied) => Some(occupied.into_mut()),
            hash_map::Entry::Vacant(vacant) => {
                assert(old(self)@.remove(index) =~= old(self)@);
                None
            },
        }
    }

    /// Returns the keys of the map, in no particular order, each once.
    pub fn keys(&self) -> (keys: Vec<K>)
        requires
            self.wf(),
        ensures
            keys@.len() == self@.len(),
            forall|i: int, j: int|
                0 <= i < j < keys@.len() ==> (#[trigger] keys@[i]).index() != (
                #[trigger] keys@[j]).index(),
            forall|i: int| 0 <= i < keys@.len() ==> self@.contains_key((#[trigger] keys@[i]).index()),
            forall|index: u32|
                self@.contains_key(index) ==> exists|i: int|
                    0 <= i < keys@.len() && (#[trigger] keys@[i]).index() == index,
    {
        let mut iter = self.iter();
        let mut keys: Vec<K> = Vec::new();
        let ghost all = iter@;
        loop
            invariant
                keys@.len() + iter@.len() == all.len(),
                forall|i: int| 0 <= i < keys@.len() ==> (#[trigger] keys@[i]).index() == all[i].0,
                iter@ == all.skip(keys@.len() as int),
            ensures
                keys@.len() == all.len(),
            decreases iter@.len(),
        {
            match iter.next() {
                Some((key, _component)) => {
                    keys.push(key);
                    assert(all.skip(keys@.len() - 1).drop_first() =~= all.skip(keys@.len() as int));
                },
                None => {
                    break ;
                },
            }
        }
        proof {
            assert forall|i: int, j: int| 0 <= i < j < keys@.len() implies (
            #[trigger] keys@[i]).index() != (#[trigger] keys@[j]).index() by {
                if all[i].0 == all[j].0 {
                    assert(self@[all[i].0] == all[i].1);
                    assert(self@[all[j].0] == all[j].1);
                    assert(all[i] == all[j]);
                }
            }
            assert forall|index: u32| self@.contains_key(index) implies exists|i: int|
                0 <= i < keys@.len() && (#[trigger] keys@[i]).index() == index by {
                assert(all.contains((index, self@[index])));
                let i = choose|i: int| 0 <= i < all.len() && all[i] == (index, self@[index]);
                assert(keys@[i].index() == index);
            }
        }
        keys
    }

    /// Returns the keys and a shared reference to their components, in no particular order.
    ///
    /// Every component of the map is handed out exactly once.
    pub fn iter(&self) -> (iter: Iter<'_, K, V>)
        requires
            self.wf(),
        ensures
            iter@.len() == self@.len(),
            iter@.no_duplicates(),
            forall|i: int|
                0 <= i < iter@.len() ==> self@.contains_key((#[trigger] iter@[i]).0)
                    && self@[iter@[i].0] == iter@[i].1,
            forall|index: u32| #[trigger]
                self@.contains_key(index) ==> iter@.contains((index, self@[index])),
    {
        let mut items: Vec<(K, &V)> = Vec::new();
        let ghost all = self.components.iter().remaining();
        proof {
            assert forall|j: int| 0 <= j < all.len() implies *(#[trigger] all[j]).0
                != u32::MAX by {
                assert(self.components@.contains_key(*all[j].0));
                assert(self@.contains_key(*all[j].0));
            }
        }
        for pair in it: self.components.iter()
            invariant
                it.seq() == all,
                items@.len() == it.index(),
                forall|j: int|
                    0 <= j < items@.len() ==> (#[trigger] items@[j]).0.index() == *all[j].0
                        && items@[j].1 == all[j].1,
                forall|j: int| 0 <= j < all.len() ==> *(#[trigger] all[j]).0 != u32::MAX,
        {
            let (key, component) = pair;
            items.push((K::from_u32(*key), component));
        }
        let iter = Iter { items, position: 0 };
        proof {
            assert(iter@.len() == all.len());
            assert forall|i: int| 0 <= i < iter@.len() implies (#[trigger] iter@[i]) == (
                *all[i].0,
                *all[i].1,
            ) by {}
            assert forall|i: int, j: int| 0 <= i < j < iter@.len() implies iter@[i] != iter@[j] by {
                if iter@[i] == iter@[j] {
                    assert(all[i] == all[j]);
                }
            }
            assert forall|index: u32| #[trigger] self@.contains_key(index) implies iter@.contains(
                (index, self@[index]),
            ) by {
                assert(all.contains((&index, &self@[index])));
                let i = choose|i: int| 0 <= i < all.len() && all[i] == (&index, &self@[index]);
                assert(iter@[i] == (index, self@[index]));
            }
        }
        iter
    }

    /// Returns a shared reference to the component of a key that has one.
    pub fn index(&self, key: K) -> (component: &V)
        requires
            self@.contains_key(key.index()),
        ensures
            *component == self@[key.index()],
    {
        let index: u32 = key.into_u32();
        match self.components.get(&index) {
            Some(component) => component,
            None => vstd::pervasive::unreached(),
        }
    }

    /// Returns an exclusive reference to the component of a key that has one.
    pub fn index_mut(&mut self, key: K) -> (component: &mut V)
        requires
            old(self)@.contains_key(key.index()),
        ensures
            *component == old(self)@[key.index()],
            final(self)@ == old(self)@.insert(key.index(), *final(component)),
    {
        let index: u32 = key.into_u32();
        match self.components.entry(index) {
            hash_map::Entry::Occupied(occupied) => occupied.into_mut(),
            hash_map::Entry::Vacant(vacant) => vstd::pervasive::unreached(),
        }
    }

    /// Clears the component map for reusing its memory.
    pub fn clear(&mut self)
        ensures
            final(self)@ == Map::<u32, V>::empty(),
    {
        self.components.clear();
    }

    /// Gets the given key's corresponding entry in the map for in-place manipulation.
    ///
    /// The entry knows the key's present component. Whatever component the
    /// entry is left with is the key's component in the map afterwards; an
    /// entry left without one removes the key.
    pub fn entry(&mut self, key: K) -> (entry: Entry<'_, K, V>)
        ensures
            key.index() != u32::MAX,
            entry.wf(),
            match entry {
                Entry::Occupied(o) => {
                    &&& old(self)@.contains_key(key.index())
                    &&& o.occupied.spec_key() == key.index()
                    &&& o.occupied.value() == old(self)@[key.index()]
                    &&& final(self)@ == match o.occupied.final_value() {
                        Some(v) => old(self)@.insert(key.index(), v),
                        None => old(self)@.remove(key.index()),
                    }
                },
                Entry::Vacant(v) => {
                    &&& !old(self)@.contains_key(key.index())
                    &&& v.vacant.spec_key() == key.index()
                    &&& final(self)@ == match v.vacant.final_value() {
                        Some(v) => old(self)@.insert(key.index(), v),
                        None => old(self)@,
                    }
                },
            },
    {
        let index: u32 = key.into_u32();
        match self.components.entry(index) {
            hash_map::Entry::Occupied(occupied) => Entry::Occupied(
                OccupiedEntry { occupied, key: PhantomData },
            ),
            hash_map::Entry::Vacant(vacant) => {
                assert(old(self)@.remove(index) =~= old(self)@);
                Entry::Vacant(VacantEntry { vacant, key: PhantomData })
            },
        }
    }
}

impl<K, V> Clone for ComponentMap<K, V> where V: Clone {
    fn clone(&self) -> (map: Self)
        ensures
            map@ == self@,
    {
        Self { components: self.components.clone(), key: PhantomData }
    }
}

impl<K, V> Default for ComponentMap<K, V> {
    fn default() -> (map: Self)
        ensures
            map@ == Map::<u32, V>::empty(),
    {
        Self { components: HashMap::new(), key: PhantomData }
    }
}

/// A view into a single entry in a map, which may either be vacant or occupied.
///
/// This enum is constructed from the entry method on `ComponentMap`.
pub enum Entry<'a, K: 'a, V: 'a> {
    Occupied(OccupiedEntry<'a, K, V>),
    Vacant(VacantEntry<'a, K, V>),
}

impl<'a, K, V> Entry<'a, K, V> where K: Index32 {
    /// The entry's key is the index of a key of the map's key type.
    pub open spec fn wf(self) -> bool {
        match self {
            Entry::Occupied(o) => o.wf(),
            Entry::Vacant(v) => v.wf(),
        }
    }

    /// Ensures a value is in the entry by inserting the default if empty,
    /// and returns a mutable reference to the value in the entry.
    pub fn or_insert(self, default: V) -> (value: &'a mut V)
        ensures
            match self {
                Entry::Occupied(o) => *value == o.occupied.value() && o.occupied.final_value()
                    == Some(*final(value)),
                Entry::Vacant(v) => *value == default && v.vacant.final_value() == Some(
                    *final(value),
                ),
            },
    {
        match self {
            Entry::Occupied(occupied) => occupied.into_mut(),
            Entry::Vacant(vacant) => vacant.insert(default),
        }
    }

    /// Ensures a value is in the entry by inserting the result of the default
    /// function if empty, and returns a mutable reference to the value in the entry.
    pub fn or_insert_with<F: FnOnce() -> V>(self, default: F) -> (value: &'a mut V)
        requires
            self is Vacant ==> default.requires(()),
        ensures
            match self {
                Entry::Occupied(o) => *value == o.occupied.value() && o.occupied.final_value()
                    == Some(*final(value)),
                Entry::Vacant(v) => default.ensures((), *value) && v.vacant.final_value() == Some(
                    *final(value),
                ),
            },
    {
        match self {
            Entry::Occupied(occupied) => occupied.into_mut(),
            Entry::Vacant(vacant) => vacant.insert(default()),
        }
    }

    /// Returns this entry's key.
    pub fn key(&self) -> (key: K)
        requires
            self.wf(),
        ensures
            key.index() == match *self {
                Entry::Occupied(o) => o.occupied.spec_key(),
                Entry::Vacant(v) => v.vacant.spec_key(),
            },
    {
        match self {
            Entry::Occupied(occupied) => occupied.key(),
            Entry::Vacant(vacant) => vacant.key(),
        }
    }

    /// Modifies an occupied entry before any potential inserts into the map.
    ///
    /// The function computes the new value from the present one; a vacant
    /// entry is handed back as it is.
    pub fn and_modify<F>(self, f: F) -> (entry: Self) where F: FnOnce(&V) -> V
        requires
            self matches Entry::Occupied(o) ==> f.requires((&o.occupied.value(),)),
        ensures
            match self {
                Entry::Occupied(o) => {
                    &&& entry matches Entry::Occupied(m)
                    &&& m.occupied.spec_key() == o.occupied.spec_key()
                    &&& f.ensures((&o.occupied.value(),), m.occupied.value())
                    &&& m.occupied.final_value() == o.occupied.final_value()
                },
                Entry::Vacant(v) => entry == self,
            },
    {
        match self {
            Entry::Occupied(mut occupied) => {
                let value = f(occupied.get());
                occupied.insert(value);
                Entry::Occupied(occupied)
            },
            Entry::Vacant(vacant) => Entry::Vacant(vacant),
        }
    }
}

impl<'a, K, V> Entry<'a, K, V> where K: Index32, V: Default {
    /// Ensures a value is in the entry by inserting the default value if empty,
    /// and returns a mutable reference to the value in the entry.
    pub fn or_default(self) -> (value: &'a mut V)
        ensures
            match self {
                Entry::Occupied(o) => *value == o.occupied.value() && o.occupied.final_value()
                    == Some(*final(value)),
                Entry::Vacant(v) => V::default.ensures((), *value) && v.vacant.final_value()
                    == Some(*final(value)),
            },
    {
        match self {
            Entry::Occupied(occupied) => occupied.into_mut(),
            Entry::Vacant(vacant) => vacant.insert(V::default()),
        }
    }
}

impl<'a, K, V> OccupiedEntry<'a, K, V> where K: Index32 {
    /// The entry's key is the index of a key of the map's key type.
    pub open spec fn wf(self) -> bool {
        self.occupied.spec_key() != u32::MAX
    }

    /// Returns the key from the entry.
    pub fn key(&self) -> (key: K)
        requires
            self.wf(),
        ensures
            key.index() == self.occupied.spec_key(),
    {
        K::from_u32(*self.occupied.key())
    }

    /// Take the ownership of the key and value from the map.
    pub fn remove_entry(self) -> (entry: (K, V))
        requires
            self.wf(),
        ensures
            entry.0.index() == self.occupied.spec_key(),
            entry.1 == self.occupied.value(),
            self.occupied.final_value() == None::<V>,
    {
        let (key, component) = self.occupied.remove_entry();
        (K::from_u32(key), component)
    }

    /// Gets a reference to the value in the entry.
    pub fn get(&self) -> (value: &V)
        ensures
            *value == self.occupied.value(),
    {
        self.occupied.get()
    }

    /// Sets the value of the entry, and returns the entry's old value.
    pub fn insert(&mut self, value: V) -> (former: V)
        ensures
            former == old(self).occupied.value(),
            final(self).occupied.spec_key() == old(self).occupied.spec_key(),
            final(self).occupied.value() == value,
            final(self).occupied.final_value() == old(self).occupied.final_value(),
    {
        self.occupied.insert(value)
    }

    /// Takes the value out of the entry, and returns it.
    pub fn remove(self) -> (value: V)
        ensures
            value == self.occupied.value(),
            self.occupied.final_value() == None::<V>,
    {
        self.occupied.remove()
    }

    /// Converts the `OccupiedEntry` into a mutable reference to the value in
    /// the entry with a lifetime bound to the map itself.
    pub fn into_mut(self) -> (value: &'a mut V)
        ensures
            *value == self.occupied.value(),
            self.occupied.final_value() == Some(*final(value)),
    {
        self.occupied.into_mut()
    }

    /// Gets a mutable reference to the value in the entry.
    pub fn get_mut(&mut self) -> (value: &mut V)
        ensures
            *value == old(self).occupied.value(),
            final(self).occupied.spec_key() == old(self).occupied.spec_key(),
            final(self).occupied.value() == *final(value),
            final(self).occupied.final_value() == old(self).occupied.final_value(),
    {
        self.occupied.get_mut()
    }
}

impl<'a, K, V> VacantEntry<'a, K, V> where K: Index32 {
    /// The entry's key is the index of a key of the map's key type.
    pub open spec fn wf(self) -> bool {
        self.vacant.spec_key() != u32::MAX
    }

    /// Returns the key that would be used when inserting a value through the `VacantEntry`.
    pub fn key(&self) -> (key: K)
        requires
            self.wf(),
        ensures
            key.index() == self.vacant.spec_key(),
    {
        K::from_u32(*self.vacant.key())
    }

    /// Sets the value of the entry with the VacantEntry's key, and returns a mutable reference to it.
    pub fn insert(self, value: V) -> (value_ref: &'a mut V)
        ensures
            *value_ref == value,
            self.vacant.final_value() == Some(*final(value_ref)),
    {
        self.vacant.insert(value)
    }
}

/// Iterator yielding keys and a shared reference to their associated components.
pub struct Iter<'a, K, V> {
    items: Vec<(K, &'a V)>,
    position: usize,
}

impl<'a, K, V> View for Iter<'a, K, V> where K: Index32 {
    type V = Seq<(u32, V)>;

    /// The pairs that are still to come, each key by its index.
    closed spec fn view(&self) -> Seq<(u32, V)> {
        Seq::new(
            (self.items@.len() - self.position) as nat,
            |i: int| (self.items@[self.position + i].0.index(), *self.items@[self.position + i].1),
        )
    }
}

impl<'a, K, V> Iter<'a, K, V> {
    #[verifier::type_invariant]
    spec fn inv(self) -> bool {
        self.position <= self.items@.len()
    }
}

impl<'a, K, V> Iter<'a, K, V> where K: Index32 {
    /// Returns the number of pairs that are still to come.
    pub fn len(&self) -> (len: usize)
        ensures
            len == self@.len(),
    {
        proof {
            use_type_invariant(self);
        }
        self.items.len() - self.position
    }

    /// Advances the iterator and returns the next key with its component.
    pub fn next(&mut self) -> (item: Option<(K, &'a V)>)
        ensures
            match item {
                Some((key, component)) => {
                    &&& old(self)@.len() > 0
                    &&& (key.index(), *component) == old(self)@[0]
                    &&& final(self)@ == old(self)@.drop_first()
                },
                None => old(self)@.len() == 0 && final(self)@ == old(self)@,
            },
    {
        proof {
            use_type_invariant(&*self);
        }
        if self.position < self.items.len() {
            let item = self.items[self.position];
            self.position = self.position + 1;
            assert(final(self)@ =~= old(self)@.drop_first());
            Some(item)
        } else {
            None
        }
    }
}

/// A view into an occupied entry in a `ComponentMap`. It is part of the `Entry` enum.
pub struct OccupiedEntry<'a, K, V> {
    /// The entry of the underlying hash table.
    pub occupied: hash_map::OccupiedEntry<'a, u32, V>,
    /// Ties the entry to the key type of its map.
    pub key: PhantomData<K>,
}

/// A view into a vacant entry in a `ComponentMap`. It is part of the `Entry` enum.
pub struct VacantEntry<'a, K, V> {
    /// The entry of the underlying hash table.
    pub vacant: hash_map::VacantEntry<'a, u32, V>,
    /// Ties the entry to the key type of its map.
    pub key: PhantomData<K>,
}

} // verus!
