//! The group index: a primary store together with the grouping of its
//! entities by component value, kept up to date lazily.
use crate::id_set::{
    add_id, bitset_ids, bitset_layers_agree, drain_ids, id_limit, new_set, remove_id,
    set_is_empty,
};
use crate::laws::{
    law_no_empty_groups, lemma_reconcile_settles, lemma_regrouped_none, lemma_regrouped_one_more,
};
use crate::model::IndexState;
use crate::store::{MapStorage, PrimaryStore};
use crate::walk::{
    lemma_drop_last_to_set, lemma_push_to_set, lemma_take_ends, lemma_take_one_more,
};
use specs::BitSet;
use std::collections::hash_map::Entry;
use std::collections::{HashMap, HashSet};
use std::hash::Hash;
use vstd::prelude::*;
use vstd::std_specs::hash::*;
use vstd::std_specs::iter::IteratorSpec;

verus! {

broadcast use group_hash_axioms;

/// What the index asks of its value type: that values which `==` calls equal
/// are the same value and hash alike, and that a clone is the value itself.
pub open spec fn lawful_value<C: Clone>() -> bool {
    &&& obeys_key_model::<C>()
    &&& forall|a: C, b: C| #[trigger] call_ensures(C::clone, (&a,), b) ==> a == b
}

/// The grouping that a map of bit sets stands for.
pub open spec fn group_sets<C>(groups: Map<C, BitSet>) -> Map<C, Set<u32>> {
    groups.map_values(|set: BitSet| bitset_ids(set))
}

/// Why no index could be bound: the primary store could not be made.
#[derive(Debug, PartialEq, Eq)]
pub struct StoreInitError {
    /// What the store said of its failure.
    pub message: String,
}

/// A primary store of type `T` with a group index over its components.
pub struct GroupedStorage<C, T = MapStorage<C>> {
    groups: HashMap<C, BitSet>,
    dirty_entities: BitSet,
    dirty_groups: HashSet<C>,
    empty_groups: Vec<C>,
    storage: T,
}

impl<C, T: PrimaryStore<C>> View for GroupedStorage<C, T> {
    type V = IndexState<C>;

    closed spec fn view(&self) -> IndexState<C> {
        IndexState {
            store: self.storage.contents(),
            groups: group_sets(self.groups@),
            dirty_entities: bitset_ids(self.dirty_entities),
            dirty_groups: self.dirty_groups@,
        }
    }
}

impl<C: Hash + Eq + Clone, T: PrimaryStore<C>> GroupedStorage<C, T> {
    /// What the index relies on in its own fields: bit sets whose layers
    /// agree, dirty ids that a bit set can hold, and an empty scratch list.
    pub closed spec fn sound(&self) -> bool {
        &&& lawful_value::<C>()
        &&& bitset_layers_agree(self.dirty_entities)
        &&& Self::groups_agree(self.groups@)
        &&& forall|id: u32| #[trigger]
            bitset_ids(self.dirty_entities).contains(id) ==> id < id_limit()
        &&& self.empty_groups@.len() == 0
    }

    /// The index is well formed: every write keeps it so.
    pub open spec fn wf(&self) -> bool {
        &&& self.sound()
        &&& self@.tracks_empty_groups()
    }

    /// Whether the layers of every bit set in `groups` agree.
    spec fn groups_agree(groups: Map<C, BitSet>) -> bool {
        forall|value: C| #[trigger]
            groups.contains_key(value) ==> bitset_layers_agree(groups[value])
    }

    /// Adds `id` to the group of `component`, which is made if there is none.
    fn add_to_group(groups: &mut HashMap<C, BitSet>, id: u32, component: C)
        requires
            lawful_value::<C>(),
            Self::groups_agree(old(groups)@),
            id < id_limit(),
        ensures
            Self::groups_agree(final(groups)@),
            group_sets(final(groups)@) == group_sets(old(groups)@).insert(
                component,
                (if old(groups)@.contains_key(component) {
                    bitset_ids(old(groups)@[component])
                } else {
                    Set::empty()
                }).insert(id),
            ),
    {
        let group = groups.entry(component).or_insert(new_set());
        add_id(group, id);
        assert(group_sets(groups@) =~= group_sets(old(groups)@).insert(
            component,
            (if old(groups)@.contains_key(component) {
                bitset_ids(old(groups)@[component])
            } else {
                Set::empty()
            }).insert(id),
        ));
    }

    /// Takes `id` out of the group of `component`, if there is one, and marks
    /// the group dirty if that leaves it empty.
    fn remove_from_group(
        groups: &mut HashMap<C, BitSet>,
        dirty_groups: &mut HashSet<C>,
        id: u32,
        component: &C,
    )
        requires
            lawful_value::<C>(),
            Self::groups_agree(old(groups)@),
        ensures
            Self::groups_agree(final(groups)@),
            old(groups)@.contains_key(*component) ==> {
                let rest = bitset_ids(old(groups)@[*component]).remove(id);
                &&& group_sets(final(groups)@) == group_sets(old(groups)@).insert(*component, rest)
                &&& final(dirty_groups)@ == if rest.is_empty() {
                    old(dirty_groups)@.insert(*component)
                } else {
                    old(dirty_groups)@
                }
            },
            !old(groups)@.contains_key(*component) ==> {
                &&& group_sets(final(groups)@) == group_sets(old(groups)@)
                &&& final(dirty_groups)@ == old(dirty_groups)@
            },
    {
        match groups.entry(component.clone()) {
            Entry::Occupied(mut slot) => {
                let group = slot.get_mut();
                remove_id(group, id);
                if set_is_empty(group) {
                    dirty_groups.insert(component.clone());
                }
            },
            Entry::Vacant(_) => {},
        }
        proof {
            if old(groups)@.contains_key(*component) {
                let rest = bitset_ids(old(groups)@[*component]).remove(id);
                assert(group_sets(groups@) =~= group_sets(old(groups)@).insert(*component, rest));
            } else {
                assert(groups@ =~= old(groups)@);
            }
        }
    }

    /// An index over `storage`, with no group and nothing pending.
    pub fn with_store(storage: T) -> (index: Self)
        requires
            lawful_value::<C>(),
        ensures
            index.wf(),
            index@ == IndexState::fresh(storage.contents()),
    {
        let index = GroupedStorage {
            groups: HashMap::new(),
            dirty_entities: new_set(),
            dirty_groups: HashSet::new(),
            empty_groups: Vec::new(),
            storage,
        };
        assert(index@ =~= IndexState::fresh(storage.contents()));
        index
    }

    /// The index over the store that was made, or the error that says why
    /// none was.
    pub fn bind(made: Result<T, String>) -> (bound: Result<Self, StoreInitError>)
        requires
            lawful_value::<C>(),
        ensures
            match made {
                Ok(storage) => bound matches Ok(index) && index.wf() && index@
                    == IndexState::fresh(storage.contents()),
                Err(message) => bound matches Err(error) && error.message == message,
            },
    {
        match made {
            Ok(storage) => Ok(Self::with_store(storage)),
            Err(message) => Err(StoreInitError { message }),
        }
    }

    /// An index over a new, empty store; fails where the store cannot be
    /// made.
    pub fn try_default() -> (bound: Result<Self, StoreInitError>)
        requires
            lawful_value::<C>(),
        ensures
            T::always_made() ==> bound is Ok,
            bound matches Ok(index) ==> index.wf() && index@ == IndexState::<C>::fresh(
                Map::empty(),
            ),
    {
        Self::bind(T::try_default())
    }

    /// Drops the components of the entities outside `live` from the store,
    /// past the index: groups and pending work stay as they are.
    pub fn clean(&mut self, live: &BitSet)
        requires
            old(self).wf(),
        ensures
            final(self).wf(),
            final(self)@ == old(self)@.clean(bitset_ids(*live)),
    {
        self.storage.clean(live);
        assert(self@ =~= old(self)@.clean(bitset_ids(*live)));
    }

    /// The store under the index.
    pub fn store(&self) -> (store: &T)
        ensures
            store.contents() == self@.store,
    {
        &self.storage
    }

    /// The component of `id`.
    pub fn get(&self, id: u32) -> (value: &C)
        requires
            self@.store.contains_key(id),
        ensures
            *value == self@.store[id],
    {
        self.storage.get(id)
    }

    /// Gives `id` the component `value` and marks it dirty. No group
    /// changes: an entity that is a member of a group stays one until it is
    /// mutated or removed, also where `value` is not the value it had.
    pub fn insert(&mut self, id: u32, value: C)
        requires
            old(self).wf(),
            id < id_limit(),
        ensures
            final(self).wf(),
            final(self)@ == old(self)@.insert(id, value),
    {
        add_id(&mut self.dirty_entities, id);
        self.storage.insert(id, value);
        assert(self@ =~= old(self)@.insert(id, value));
    }

    /// Hands out the component of `id` for writing. Before that, `id` is
    /// marked dirty and leaves the group of the value it has now; where the
    /// written value belongs is found at the next reconciliation.
    pub fn get_mut(&mut self, id: u32) -> (value: &mut C)
        requires
            old(self).wf(),
            old(self)@.store.contains_key(id),
            id < id_limit(),
        ensures
            *value == old(self)@.store[id],
            final(self).wf(),
            final(self)@ == old(self)@.begin_mutate(id).write(id, *final(value)),
    {
        add_id(&mut self.dirty_entities, id);
        let component = self.storage.get(id);
        Self::remove_from_group(&mut self.groups, &mut self.dirty_groups, id, component);
        assert(self@ =~= old(self)@.begin_mutate(id));
        self.storage.get_mut(id)
    }

    /// Takes the component of `id` out of the store. `id` is no longer
    /// dirty, and leaves the group of the value it had.
    pub fn remove(&mut self, id: u32) -> (value: C)
        requires
            old(self).wf(),
            old(self)@.store.contains_key(id),
        ensures
            final(self).wf(),
            value == old(self)@.store[id],
            final(self)@ == old(self)@.remove(id),
    {
        let component = self.storage.remove(id);
        remove_id(&mut self.dirty_entities, id);
        Self::remove_from_group(&mut self.groups, &mut self.dirty_groups, id, &component);
        assert(self@ =~= old(self)@.remove(id));
        component
    }
}

/// A storage that keeps a group index and answers the query for the groups
/// on the word of its caller: that the index is well formed, and that every
/// dirty entity still has a component.
pub trait UnprotectedGrouped<C>: View<V = IndexState<C>> {
    /// The storage is fit for the query, and every query leaves it so.
    spec fn well_formed(&self) -> bool;

    /// Reconciles the index with the store and returns the groups.
    fn get_groups(&mut self) -> (groups: &HashMap<C, BitSet>)
        requires
            old(self).well_formed(),
            old(self)@.reconcilable(),
        ensures
            final(self).well_formed(),
            final(self)@ == old(self)@.reconcile(),
            group_sets(groups@) == final(self)@.groups,
            final(self)@.no_empty_group(),
            old(self)@.consistent() ==> final(self)@.groups_match_store(),
    ;
}

impl<C: Hash + Eq + Clone, T: PrimaryStore<C>> UnprotectedGrouped<C> for GroupedStorage<C, T> {
    open spec fn well_formed(&self) -> bool {
        self.wf()
    }

    fn get_groups(&mut self) -> (groups: &HashMap<C, BitSet>) {
        let ghost before = self@;
        let ids = drain_ids(&mut self.dirty_entities);
        let mut at: usize = 0;
        proof {
            lemma_take_ends(ids@);
            lemma_regrouped_none(before);
        }
        while at < ids.len()
            invariant
                at <= ids.len(),
                lawful_value::<C>(),
                before == old(self)@,
                before.reconcilable(),
                ids@.to_set() == before.dirty_entities,
                forall|id: u32| #[trigger] before.dirty_entities.contains(id) ==> id < id_limit(),
                Self::groups_agree(self.groups@),
                self.storage == old(self).storage,
                self.dirty_groups == old(self).dirty_groups,
                self.empty_groups@.len() == 0,
                bitset_layers_agree(self.dirty_entities),
                bitset_ids(self.dirty_entities) == Set::<u32>::empty(),
                group_sets(self.groups@) == before.regrouped(ids@.take(at as int).to_set()),
            decreases ids.len() - at,
        {
            let id: u32 = ids[at];
            proof {
                assert(ids@.to_set().contains(id));
                lemma_take_one_more(ids@, at as int);
                lemma_regrouped_one_more(before, ids@.take(at as int).to_set(), id);
            }
            let component = self.storage.get(id).clone();
            Self::add_to_group(&mut self.groups, id, component);
            at += 1;
        }
        let ghost regrouped = group_sets(self.groups@);
        let ghost suspects = spec_hash_keys_iter(&self.dirty_groups).remaining().unref();
        proof {
            lemma_take_ends(suspects);
        }
        for dirty_group in walk: self.dirty_groups.iter()
            invariant
                lawful_value::<C>(),
                walk.seq().unref() == suspects,
                Self::groups_agree(self.groups@),
                group_sets(self.groups@) == regrouped,
                self.storage == old(self).storage,
                self.dirty_groups == old(self).dirty_groups,
                bitset_layers_agree(self.dirty_entities),
                bitset_ids(self.dirty_entities) == Set::<u32>::empty(),
                self.empty_groups@.to_set() == IndexState::empty_among(
                    regrouped,
                    suspects.take(walk.index()).to_set(),
                ),
        {
            let ghost staged = self.empty_groups@;
            proof {
                assert(*dirty_group == suspects[walk.index()]);
                lemma_take_one_more(suspects, walk.index());
                lemma_push_to_set(staged, *dirty_group);
            }
            if let Some(group) = self.groups.get(dirty_group) {
                if set_is_empty(group) {
                    self.empty_groups.push(dirty_group.clone());
                }
            }
            assert(self.empty_groups@.to_set() =~= IndexState::empty_among(
                regrouped,
                suspects.take(walk.index() + 1).to_set(),
            ));
        }
        let ghost doomed = IndexState::empty_among(regrouped, before.dirty_groups);
        assert(self.empty_groups@.to_set() == doomed);
        self.dirty_groups.clear();

        let ghost mut dropped = Set::<C>::empty();
        assert(group_sets(self.groups@) =~= regrouped.remove_keys(dropped));
        while self.empty_groups.len() > 0
            invariant
                lawful_value::<C>(),
                Self::groups_agree(self.groups@),
                group_sets(self.groups@) == regrouped.remove_keys(dropped),
                dropped.subset_of(doomed),
                doomed.subset_of(dropped.union(self.empty_groups@.to_set())),
                self.empty_groups@.to_set().subset_of(doomed),
                self.storage == old(self).storage,
                self.dirty_groups@ == Set::<C>::empty(),
                bitset_layers_agree(self.dirty_entities),
                bitset_ids(self.dirty_entities) == Set::<u32>::empty(),
            decreases self.empty_groups.len(),
        {
            proof {
                lemma_drop_last_to_set(self.empty_groups@);
            }
            let ghost kept = self.groups@;
            if let Some(empty_group) = self.empty_groups.pop() {
                self.groups.remove(&empty_group);
                proof {
                    assert(self.groups@ == kept.remove(empty_group));
                    assert(group_sets(self.groups@) =~= group_sets(kept).remove(empty_group));
                    dropped = dropped.insert(empty_group);
                    assert(group_sets(self.groups@) =~= regrouped.remove_keys(dropped));
                }
            }
        }
        proof {
            assert(self.empty_groups@.to_set() =~= Set::<C>::empty());
            assert(dropped =~= doomed);
            assert(self@ =~= before.reconcile());
            law_no_empty_groups(before);
            if before.consistent() {
                lemma_reconcile_settles(before);
            }
        }
        &self.groups
    }
}

/// The way to the groups for whoever may write to the index. The query
/// reconciles before it answers, so that pending work is never seen.
pub trait Grouped<C>: View<V = IndexState<C>> {
    /// The index is fit for the query, and every query leaves it so.
    spec fn well_formed(&self) -> bool;

    /// The groups, reconciled with the store.
    fn get_groups(&mut self) -> (groups: &HashMap<C, BitSet>)
        requires
            old(self).well_formed(),
            old(self)@.reconcilable(),
        ensures
            final(self).well_formed(),
            final(self)@ == old(self)@.reconcile(),
            group_sets(groups@) == final(self)@.groups,
            final(self)@.no_empty_group(),
            old(self)@.consistent() ==> final(self)@.groups_match_store(),
    ;
}

impl<C, S: UnprotectedGrouped<C>> Grouped<C> for S {
    open spec fn well_formed(&self) -> bool {
        UnprotectedGrouped::well_formed(self)
    }

    fn get_groups(&mut self) -> (groups: &HashMap<C, BitSet>) {
        UnprotectedGrouped::get_groups(self)
    }
}

} // verus!
