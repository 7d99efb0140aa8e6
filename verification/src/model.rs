use vstd::prelude::*;

verus! {

/// What a group index is, as mathematics: the primary store it sits on, the
/// grouping derived from it, and the work that the next reconciliation owes.
#[verifier::ext_equal]
#[verifier::reject_recursive_types(C)]
pub struct IndexState<C> {
    /// The component of each entity that has one.
    pub store: Map<u32, C>,
    /// The entities recorded under each component value.
    pub groups: Map<C, Set<u32>>,
    /// Entities inserted or handed out for writing since the last
    /// reconciliation.
    pub dirty_entities: Set<u32>,
    /// Values whose group was seen to become empty since the last
    /// reconciliation.
    pub dirty_groups: Set<C>,
}

/// One write to a group index, or one query of it.
pub enum Change<C> {
    Insert(u32, C),
    Mutate(u32, C),
    Remove(u32),
    Reconcile,
}

impl<C> IndexState<C> {
    /// An index that was just bound to `store`: no group, nothing pending.
    pub open spec fn fresh(store: Map<u32, C>) -> Self {
        IndexState {
            store,
            groups: Map::empty(),
            dirty_entities: Set::empty(),
            dirty_groups: Set::empty(),
        }
    }

    /// The entities recorded under `value`; none where there is no such group.
    pub open spec fn members(self, value: C) -> Set<u32> {
        if self.groups.contains_key(value) {
            self.groups[value]
        } else {
            Set::empty()
        }
    }

    /// Whether `id` is recorded under `value`.
    pub open spec fn grouped_under(self, id: u32, value: C) -> bool {
        self.groups.contains_key(value) && self.groups[value].contains(id)
    }

    // ----- the writes -----

    /// `id` gets `value`, and is marked dirty; no group changes.
    pub open spec fn insert(self, id: u32, value: C) -> Self {
        IndexState {
            store: self.store.insert(id, value),
            dirty_entities: self.dirty_entities.insert(id),
            ..self
        }
    }

    /// `id` leaves the group of `value`, if there is one; a group that is
    /// empty afterwards is marked dirty.
    pub open spec fn leave_group(self, id: u32, value: C) -> Self {
        if self.groups.contains_key(value) {
            let rest = self.groups[value].remove(id);
            IndexState {
                groups: self.groups.insert(value, rest),
                dirty_groups: if rest.is_empty() {
                    self.dirty_groups.insert(value)
                } else {
                    self.dirty_groups
                },
                ..self
            }
        } else {
            self
        }
    }

    /// `id` is about to be written: it is marked dirty and leaves the group
    /// of the value it has now.
    pub open spec fn begin_mutate(self, id: u32) -> Self
        recommends
            self.store.contains_key(id),
    {
        IndexState { dirty_entities: self.dirty_entities.insert(id), ..self }.leave_group(
            id,
            self.store[id],
        )
    }

    /// The write that follows `begin_mutate`: only the store changes.
    pub open spec fn write(self, id: u32, value: C) -> Self {
        IndexState { store: self.store.insert(id, value), ..self }
    }

    /// A whole mutation of `id` to `value`.
    pub open spec fn mutate(self, id: u32, value: C) -> Self
        recommends
            self.store.contains_key(id),
    {
        self.begin_mutate(id).write(id, value)
    }

    /// `id` loses its component: it is no longer dirty, and it leaves the
    /// group of the value it had.
    pub open spec fn remove(self, id: u32) -> Self
        recommends
            self.store.contains_key(id),
    {
        IndexState {
            store: self.store.remove(id),
            dirty_entities: self.dirty_entities.remove(id),
            ..self
        }.leave_group(id, self.store[id])
    }

    /// Every entity outside `live` loses its component; nothing else changes.
    pub open spec fn clean(self, live: Set<u32>) -> Self {
        IndexState { store: self.store.restrict(live), ..self }
    }

    // ----- reconciliation -----

    /// Whether `id` is one of `ids` and has `value` now.
    pub open spec fn joins(self, ids: Set<u32>, id: u32, value: C) -> bool {
        ids.contains(id) && self.store.contains_key(id) && self.store[id] == value
    }

    /// The grouping after each entity of `ids` was added to the group of the
    /// value it has now.
    pub open spec fn regrouped(self, ids: Set<u32>) -> Map<C, Set<u32>> {
        Map::new(
            |value: C|
                self.groups.contains_key(value) || exists|id: u32| #[trigger]
                    self.joins(ids, id, value),
            |value: C| self.members(value).union(Set::new(|id: u32| self.joins(ids, id, value))),
        )
    }

    /// The values in `suspects` whose group in `groups` is empty.
    pub open spec fn empty_among(groups: Map<C, Set<u32>>, suspects: Set<C>) -> Set<C> {
        Set::new(
            |value: C|
                suspects.contains(value) && groups.contains_key(value) && groups[value].is_empty(),
        )
    }

    /// `groups` without the groups that are empty and named in `suspects`.
    pub open spec fn pruned(groups: Map<C, Set<u32>>, suspects: Set<C>) -> Map<C, Set<u32>> {
        groups.remove_keys(Self::empty_among(groups, suspects))
    }

    /// The index after a reconciliation: the dirty entities are grouped by
    /// the values they have now, then the dirty groups that are empty are
    /// dropped, and nothing is pending any more.
    pub open spec fn reconcile(self) -> Self {
        IndexState {
            store: self.store,
            groups: Self::pruned(self.regrouped(self.dirty_entities), self.dirty_groups),
            dirty_entities: Set::empty(),
            dirty_groups: Set::empty(),
        }
    }

    // ----- what holds of an index -----

    /// Every group that is empty is marked dirty.
    pub open spec fn tracks_empty_groups(self) -> bool {
        forall|value: C|
            #[trigger] self.groups.contains_key(value) && self.groups[value].is_empty()
                ==> self.dirty_groups.contains(value)
    }

    /// Every dirty entity has a component, so a reconciliation can read it.
    pub open spec fn reconcilable(self) -> bool {
        self.dirty_entities.subset_of(self.store.dom())
    }

    /// No group is empty.
    pub open spec fn no_empty_group(self) -> bool {
        forall|value: C| #[trigger]
            self.groups.contains_key(value) ==> !self.groups[value].is_empty()
    }

    /// Every member of a group has a component, which is that group's value.
    pub open spec fn members_hold_their_value(self) -> bool {
        forall|value: C, id: u32| #[trigger]
            self.grouped_under(id, value) ==> self.store.contains_key(id) && self.store[id]
                == value
    }

    /// Every entity with a component is dirty or a member of its value's
    /// group.
    pub open spec fn settled_are_grouped(self) -> bool {
        forall|id: u32| #[trigger]
            self.store.contains_key(id) && !self.dirty_entities.contains(id)
                ==> self.grouped_under(id, self.store[id])
    }

    /// The index agrees with its store up to the pending work.
    pub open spec fn consistent(self) -> bool {
        &&& self.tracks_empty_groups()
        &&& self.reconcilable()
        &&& self.members_hold_their_value()
        &&& self.settled_are_grouped()
    }

    /// The grouping is that of the store: each entity with a component is a
    /// member of its value's group and of no other.
    pub open spec fn groups_match_store(self) -> bool {
        forall|id: u32| #[trigger]
            self.store.contains_key(id) ==> {
                &&& self.grouped_under(id, self.store[id])
                &&& forall|value: C| #[trigger]
                    self.grouped_under(id, value) ==> value == self.store[id]
            }
    }

    // ----- sequences of changes -----

    /// Whether `id` is a member of the group of the value it has now, while
    /// that value differs from `value`.
    pub open spec fn grouped_under_other(self, id: u32, value: C) -> bool {
        self.store.contains_key(id) && self.store[id] != value && self.grouped_under(
            id,
            self.store[id],
        )
    }

    /// Whether `change` may be made now: a mutation or a removal needs a
    /// component to work on, and an insertion must not overwrite the value
    /// of an entity that is a member of that value's group.
    pub open spec fn admits(self, change: Change<C>) -> bool {
        match change {
            Change::Insert(id, value) => !self.grouped_under_other(id, value),
            Change::Mutate(id, _) => self.store.contains_key(id),
            Change::Remove(id) => self.store.contains_key(id),
            Change::Reconcile => true,
        }
    }

    /// The index after `change`.
    pub open spec fn apply(self, change: Change<C>) -> Self {
        match change {
            Change::Insert(id, value) => self.insert(id, value),
            Change::Mutate(id, value) => self.mutate(id, value),
            Change::Remove(id) => self.remove(id),
            Change::Reconcile => self.reconcile(),
        }
    }

    /// Whether the changes may be made one after the other.
    pub open spec fn admits_all(self, changes: Seq<Change<C>>) -> bool
        decreases changes.len(),
    {
        changes.len() == 0 || (self.admits(changes[0]) && self.apply(changes[0]).admits_all(
            changes.drop_first(),
        ))
    }

    /// The index after the changes, made one after the other.
    pub open spec fn apply_all(self, changes: Seq<Change<C>>) -> Self
        decreases changes.len(),
    {
        if changes.len() == 0 {
            self
        } else {
            self.apply(changes[0]).apply_all(changes.drop_first())
        }
    }
}

} // verus!
