//! The primary entity storage: allocates dense indices and owns the data.

use crate::entity::index::{Idx, Index32};
use vstd::prelude::*;

verus! {

/// Primary map from indices to the entities they identify.
///
/// Entities are stored in allocation order, so the index of an entity is its
/// position. Entities are never removed.
pub struct EntityArena<T> {
    entities: Vec<T>,
}

impl<T> View for EntityArena<T> {
    type V = Seq<T>;

    closed spec fn view(&self) -> Seq<T> {
        self.entities@
    }
}

impl<T> EntityArena<T> {
    /// Whether the index identifies an entity of this arena.
    pub open spec fn has(&self, idx: Idx<T>) -> bool {
        (idx.index() as int) < self@.len()
    }

    /// The entity that the index identifies.
    pub open spec fn at(&self, idx: Idx<T>) -> T
        recommends
            self.has(idx),
    {
        self@[idx.index() as int]
    }

    /// Creates an empty arena.
    pub fn new() -> (arena: Self)
        ensures
            arena@ == Seq::<T>::empty(),
    {
        Self { entities: Vec::new() }
    }

    /// Returns the number of allocated entities.
    pub fn len(&self) -> (len: usize)
        ensures
            len == self@.len(),
    {
        self.entities.len()
    }

    /// Returns `true` if no entity has been allocated.
    pub fn is_empty(&self) -> (empty: bool)
        ensures
            empty == (self@.len() == 0),
    {
        self.entities.len() == 0
    }

    /// Returns `true` if the index identifies an entity of this arena.
    pub fn contains_key(&self, idx: Idx<T>) -> (found: bool)
        ensures
            found == self.has(idx),
    {
        (idx.into_u32() as usize) < self.entities.len()
    }

    /// Returns the index that the next allocation hands out.
    pub fn next_key(&self) -> (idx: Idx<T>)
        requires
            self@.len() < u32::MAX,
        ensures
            idx.index() == self@.len(),
    {
        Idx::from_u32(self.entities.len() as u32)
    }

    /// Allocates a new entity and returns its index.
    ///
    /// Indices are dense: the new index is the former length.
    pub fn allocate(&mut self, entity: T) -> (idx: Idx<T>)
        requires
            old(self)@.len() < u32::MAX,
        ensures
            final(self)@ == old(self)@.push(entity),
            idx.index() == old(self)@.len(),
    {
        let idx = Idx::from_u32(self.entities.len() as u32);
        self.entities.push(entity);
        idx
    }

    /// Returns a shared reference to the entity at the index, if any.
    pub fn get(&self, idx: Idx<T>) -> (entity: Option<&T>)
        ensures
            entity == if self.has(idx) {
                Some(&self.at(idx))
            } else {
                None
            },
    {
        let i: usize = idx.into_u32() as usize;
        if i < self.entities.len() {
            Some(&self.entities[i])
        } else {
            None
        }
    }

    /// Returns an exclusive reference to the entity at the index, if any.
    ///
    /// What is written through the reference becomes the entity.
    pub fn get_mut(&mut self, idx: Idx<T>) -> (entity: Option<&mut T>)
        ensures
            match entity {
                Some(e) => {
                    &&& old(self).has(idx)
                    &&& *e == old(self).at(idx)
                    &&& final(self)@ == old(self)@.update(idx.index() as int, *final(e))
                },
                None => !old(self).has(idx) && final(self)@ == old(self)@,
            },
    {
        let i: usize = idx.into_u32() as usize;
        if i < self.entities.len() {
            Some(&mut self.entities[i])
        } else {
            None
        }
    }

    /// Returns the indices of the entities with shared references to them,
    /// in the order of the indices.
    pub fn iter(&self) -> (items: Vec<(Idx<T>, &T)>)
        ensures
            items@.len() == if self@.len() <= u32::MAX {
                self@.len()
            } else {
                u32::MAX as nat
            },
            forall|i: int|
                0 <= i < items@.len() ==> (#[trigger] items@[i]).0.index() == i && *items@[i].1
                    == self@[i],
    {
        let mut items: Vec<(Idx<T>, &T)> = Vec::new();
        let mut i: usize = 0;
        while i < self.entities.len() && i < u32::MAX as usize
            invariant
                i <= self@.len(),
                i <= u32::MAX,
                items@.len() == i,
                forall|j: int|
                    0 <= j < items@.len() ==> (#[trigger] items@[j]).0.index() == j && *items@[j].1
                        == self@[j],
            decreases self@.len() - i,
        {
            items.push((Idx::from_u32(i as u32), &self.entities[i]));
            i = i + 1;
        }
        items
    }

    /// Returns a shared reference to the entity at the index.
    pub fn index(&self, idx: Idx<T>) -> (entity: &T)
        requires
            self.has(idx),
        ensures
            *entity == self.at(idx),
    {
        &self.entities[idx.into_u32() as usize]
    }

    /// Returns an exclusive reference to the entity at the index.
    pub fn index_mut(&mut self, idx: Idx<T>) -> (entity: &mut T)
        requires
            old(self).has(idx),
        ensures
            *entity == old(self).at(idx),
            final(self)@ == old(self)@.update(idx.index() as int, *final(entity)),
    {
        &mut self.entities[idx.into_u32() as usize]
    }
}

impl<T: Clone> Clone for EntityArena<T> {
    /// Returns an arena that holds a clone of every entity at its index.
    fn clone(&self) -> (arena: Self)
        ensures
            arena@.len() == self@.len(),
            forall|i: int|
                0 <= i < self@.len() ==> vstd::pervasive::cloned::<T>(self@[i], #[trigger] arena@[i]),
    {
        Self { entities: self.entities.clone() }
    }
}

} // verus!
