//! The primary store: the map from entity ids to components that a group
//! index is kept beside.
use crate::id_set::{bitset_ids, has_id};
use crate::walk::{lemma_take_ends, lemma_take_one_more};
use specs::BitSet;
use std::collections::hash_map::Entry;
use std::collections::HashMap;
use vstd::prelude::*;
use vstd::std_specs::hash::*;
use vstd::std_specs::iter::IteratorSpec;

verus! {

broadcast use group_hash_axioms;

/// What a group index needs of the store it indexes. The store checks
/// nothing: an id handed to `get`, `get_mut` or `remove` must have a
/// component.
pub trait PrimaryStore<C>: Sized {
    /// The component of each entity that has one.
    spec fn contents(&self) -> Map<u32, C>;

    /// Whether a store of this type can always be made.
    spec fn always_made() -> bool;

    /// An empty store, or the reason why none could be made.
    fn try_default() -> (made: Result<Self, String>)
        ensures
            Self::always_made() ==> made is Ok,
            made matches Ok(store) ==> store.contents() == Map::<u32, C>::empty(),
    ;

    /// Every entity outside `live` loses its component.
    fn clean(&mut self, live: &BitSet)
        ensures
            final(self).contents() == old(self).contents().restrict(bitset_ids(*live)),
    ;

    /// The component of `id`.
    fn get(&self, id: u32) -> (value: &C)
        requires
            self.contents().contains_key(id),
        ensures
            *value == self.contents()[id],
    ;

    /// The component of `id`, to be written through.
    fn get_mut(&mut self, id: u32) -> (value: &mut C)
        requires
            old(self).contents().contains_key(id),
        ensures
            *value == old(self).contents()[id],
            final(self).contents() == old(self).contents().insert(id, *final(value)),
    ;

    /// Gives `id` the component `value`, in place of the one it may have.
    fn insert(&mut self, id: u32, value: C)
        ensures
            final(self).contents() == old(self).contents().insert(id, value),
    ;

    /// Takes the component of `id` out of the store.
    fn remove(&mut self, id: u32) -> (value: C)
        requires
            old(self).contents().contains_key(id),
        ensures
            value == old(self).contents()[id],
            final(self).contents() == old(self).contents().remove(id),
    ;
}

/// A primary store over a hash map.
pub struct MapStorage<C> {
    slots: HashMap<u32, C>,
}

impl<C> MapStorage<C> {
    /// Whether `id` has a component.
    pub fn contains(&self, id: u32) -> (present: bool)
        ensures
            present == self.contents().contains_key(id),
    {
        self.slots.contains_key(&id)
    }
}

impl<C> PrimaryStore<C> for MapStorage<C> {
    closed spec fn contents(&self) -> Map<u32, C> {
        self.slots@
    }

    open spec fn always_made() -> bool {
        true
    }

    fn try_default() -> (made: Result<Self, String>) {
        Ok(MapStorage { slots: HashMap::new() })
    }

    fn clean(&mut self, live: &BitSet) {
        let ghost before = self.slots@;
        let ghost keys = spec_keys_iter(&self.slots).remaining();
        let mut ids: Vec<u32> = Vec::new();
        for id in walk: self.slots.keys()
            invariant
                walk.seq() == keys,
                ids@.len() == walk.index(),
                forall|i: int| 0 <= i < ids@.len() ==> ids@[i] == *keys[i],
        {
            ids.push(*id);
        }
        assert(ids@ =~= keys.unref());
        let mut at: usize = 0;
        proof {
            lemma_take_ends(ids@);
            assert(self.slots@ =~= before.remove_keys(
                ids@.take(0).to_set().difference(bitset_ids(*live)),
            ));
        }
        while at < ids.len()
            invariant
                at <= ids.len(),
                self.slots@ == before.remove_keys(
                    ids@.take(at as int).to_set().difference(bitset_ids(*live)),
                ),
            decreases ids.len() - at,
        {
            let id: u32 = ids[at];
            proof {
                lemma_take_one_more(ids@, at as int);
            }
            if !has_id(live, id) {
                self.slots.remove(&id);
            }
            at += 1;
            assert(self.slots@ =~= before.remove_keys(
                ids@.take(at as int).to_set().difference(bitset_ids(*live)),
            ));
        }
        proof {
            lemma_take_ends(ids@);
            assert(self.slots@ =~= before.restrict(bitset_ids(*live)));
        }
    }

    fn get(&self, id: u32) -> (value: &C) {
        match self.slots.get(&id) {
            Some(value) => value,
            None => vstd::pervasive::unreached(),
        }
    }

    fn get_mut(&mut self, id: u32) -> (value: &mut C) {
        match self.slots.entry(id) {
            Entry::Occupied(slot) => slot.into_mut(),
            Entry::Vacant(_) => vstd::pervasive::unreached(),
        }
    }

    fn insert(&mut self, id: u32, value: C) {
        self.slots.insert(id, value);
    }

    fn remove(&mut self, id: u32) -> (value: C) {
        match self.slots.remove(&id) {
            Some(value) => value,
            None => vstd::pervasive::unreached(),
        }
    }
}

} // verus!
