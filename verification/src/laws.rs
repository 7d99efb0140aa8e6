//! What holds of every group index, proved of its model.
use crate::model::{Change, IndexState};
use vstd::prelude::*;

verus! {

/// Regrouping no entity leaves the grouping as it is.
pub proof fn lemma_regrouped_none<C>(s: IndexState<C>)
    ensures
        s.regrouped(Set::empty()) == s.groups,
{
    assert(s.regrouped(Set::empty()) =~~= s.groups);
}

/// Regrouping one entity more adds it to the group of its value, in the
/// grouping that the others gave.
pub proof fn lemma_regrouped_one_more<C>(s: IndexState<C>, ids: Set<u32>, id: u32)
    requires
        s.store.contains_key(id),
    ensures
        s.regrouped(ids.insert(id)) == ({
            let before = s.regrouped(ids);
            let value = s.store[id];
            before.insert(
                value,
                (if before.contains_key(value) {
                    before[value]
                } else {
                    Set::empty()
                }).insert(id),
            )
        }),
{
    let before = s.regrouped(ids);
    let value = s.store[id];
    let after = before.insert(
        value,
        (if before.contains_key(value) {
            before[value]
        } else {
            Set::empty()
        }).insert(id),
    );
    let more = ids.insert(id);
    assert(s.joins(more, id, value));
    assert forall|v: C| #[trigger] s.regrouped(more).contains_key(v) <==> after.contains_key(v) by {
        if s.regrouped(more).contains_key(v) && !s.groups.contains_key(v) {
            let e = choose|e: u32| s.joins(more, e, v);
            if e != id {
                assert(s.joins(ids, e, v));
            }
        }
        if before.contains_key(v) && !s.groups.contains_key(v) {
            let e = choose|e: u32| s.joins(ids, e, v);
            assert(s.joins(more, e, v));
        }
    }
    assert forall|v: C| #[trigger] after.contains_key(v) implies s.regrouped(more)[v]
        =~= after[v] by {
        let joined = Set::new(|e: u32| s.joins(ids, e, v));
        let joined_more = Set::new(|e: u32| s.joins(more, e, v));
        assert(s.regrouped(more).contains_key(v));
        assert(s.regrouped(more)[v] =~= s.members(v).union(joined_more));
        if before.contains_key(v) {
            assert(before[v] =~= s.members(v).union(joined));
        } else {
            assert(s.members(v) =~= Set::empty());
            assert(joined =~= Set::empty()) by {
                assert forall|e: u32| !joined.contains(e) by {
                    assert(!s.joins(ids, e, v));
                }
            }
        }
        if v == value {
            assert(joined_more =~= joined.insert(id));
            assert(s.members(v).union(joined_more) =~= s.members(v).union(joined).insert(id));
        } else {
            assert(joined_more =~= joined);
        }
    }
    assert(s.regrouped(more) =~= after);
}

/// After a reconciliation no group is empty, nothing is pending, and the
/// index is as well kept as before.
pub proof fn law_no_empty_groups<C>(s: IndexState<C>)
    requires
        s.tracks_empty_groups(),
    ensures
        s.reconcile().no_empty_group(),
        s.reconcile().tracks_empty_groups(),
        s.reconcile().reconcilable(),
{
    let after = s.reconcile();
    let regrouped = s.regrouped(s.dirty_entities);
    assert forall|value: C| #[trigger]
        after.groups.contains_key(value) implies !after.groups[value].is_empty() by {
        if after.groups[value].is_empty() {
            assert(regrouped[value] =~= Set::empty());
            if s.groups.contains_key(value) {
                assert(s.groups[value] =~= Set::empty()) by {
                    assert forall|e: u32| !s.groups[value].contains(e) by {
                        if s.groups[value].contains(e) {
                            assert(regrouped[value].contains(e));
                        }
                    }
                }
                assert(s.dirty_groups.contains(value));
            } else {
                let e = choose|e: u32| s.joins(s.dirty_entities, e, value);
                assert(regrouped[value].contains(e));
            }
        }
    }
}

/// A second reconciliation, with no write since the first, changes nothing.
pub proof fn law_reconcile_idempotent<C>(s: IndexState<C>)
    ensures
        s.reconcile().reconcile() == s.reconcile(),
{
    let once = s.reconcile();
    lemma_regrouped_none(once);
    assert(IndexState::empty_among(once.groups, Set::empty()) =~= Set::empty());
    assert(once.reconcile().groups =~= once.groups);
}

/// An index over an empty store, with no group and nothing pending, is
/// consistent.
pub proof fn lemma_fresh_is_consistent<C>()
    ensures
        IndexState::<C>::fresh(Map::empty()).consistent(),
{
}

/// A consistent index stays consistent under an insertion that does not
/// overwrite the value of an entity that is a member of that value's group.
pub proof fn lemma_insert_keeps_consistent<C>(s: IndexState<C>, id: u32, value: C)
    requires
        s.consistent(),
        !s.grouped_under_other(id, value),
    ensures
        s.insert(id, value).consistent(),
{
    let after = s.insert(id, value);
    assert forall|v: C, e: u32| #[trigger] after.grouped_under(e, v) implies {
        &&& after.store.contains_key(e)
        &&& after.store[e] == v
    } by {
        assert(s.grouped_under(e, v));
    }
    assert forall|e: u32|
        #[trigger] after.store.contains_key(e) && !after.dirty_entities.contains(e)
        implies after.grouped_under(e, after.store[e]) by {
        assert(s.grouped_under(e, s.store[e]));
    }
}

/// A consistent index stays consistent when an entity leaves the group of
/// the value it has and is marked dirty.
pub proof fn lemma_begin_mutate_keeps_consistent<C>(s: IndexState<C>, id: u32)
    requires
        s.consistent(),
        s.store.contains_key(id),
    ensures
        s.begin_mutate(id).consistent(),
        forall|value: C| !s.begin_mutate(id).grouped_under(id, value),
        s.begin_mutate(id).dirty_entities.contains(id),
{
    let after = s.begin_mutate(id);
    assert forall|v: C, e: u32| #[trigger] after.grouped_under(e, v) implies {
        &&& s.grouped_under(e, v)
        &&& e != id
    } by {
        if e == id {
            assert(s.grouped_under(id, v));
        }
    }
    assert forall|e: u32|
        #[trigger] after.store.contains_key(e) && !after.dirty_entities.contains(e)
        implies after.grouped_under(e, after.store[e]) by {
        assert(s.grouped_under(e, s.store[e]));
    }
    assert forall|v: C| !after.grouped_under(id, v) by {
        if after.grouped_under(id, v) {
            assert(s.grouped_under(id, v));
        }
    }
}

/// A consistent index stays consistent under a mutation of an entity that
/// has a component.
pub proof fn lemma_mutate_keeps_consistent<C>(s: IndexState<C>, id: u32, value: C)
    requires
        s.consistent(),
        s.store.contains_key(id),
    ensures
        s.mutate(id, value).consistent(),
{
    lemma_begin_mutate_keeps_consistent(s, id);
    let begun = s.begin_mutate(id);
    let after = s.mutate(id, value);
    assert forall|v: C, e: u32| #[trigger] after.grouped_under(e, v) implies {
        &&& after.store.contains_key(e)
        &&& after.store[e] == v
    } by {
        assert(begun.grouped_under(e, v));
    }
    assert forall|e: u32|
        #[trigger] after.store.contains_key(e) && !after.dirty_entities.contains(e)
        implies after.grouped_under(e, after.store[e]) by {
        assert(begun.grouped_under(e, begun.store[e]));
    }
}

/// A consistent index stays consistent under the removal of an entity that
/// has a component.
pub proof fn lemma_remove_keeps_consistent<C>(s: IndexState<C>, id: u32)
    requires
        s.consistent(),
        s.store.contains_key(id),
    ensures
        s.remove(id).consistent(),
{
    let after = s.remove(id);
    assert forall|v: C, e: u32| #[trigger] after.grouped_under(e, v) implies {
        &&& after.store.contains_key(e)
        &&& after.store[e] == v
    } by {
        assert(s.grouped_under(e, v));
    }
    assert forall|e: u32|
        #[trigger] after.store.contains_key(e) && !after.dirty_entities.contains(e)
        implies after.grouped_under(e, after.store[e]) by {
        assert(s.grouped_under(e, s.store[e]));
    }
}

/// Reconciling a consistent index gives the grouping of its store, and an
/// index that is consistent again.
pub proof fn lemma_reconcile_settles<C>(s: IndexState<C>)
    requires
        s.consistent(),
    ensures
        s.reconcile().consistent(),
        s.reconcile().groups_match_store(),
{
    let after = s.reconcile();
    let regrouped = s.regrouped(s.dirty_entities);
    law_no_empty_groups(s);
    assert forall|v: C, e: u32| #[trigger] after.grouped_under(e, v) implies {
        &&& after.store.contains_key(e)
        &&& after.store[e] == v
    } by {
        assert(regrouped.contains_key(v) && regrouped[v].contains(e));
        if !s.joins(s.dirty_entities, e, v) {
            assert(s.grouped_under(e, v));
        }
    }
    assert forall|e: u32| #[trigger] after.store.contains_key(e)
        implies after.grouped_under(e, after.store[e]) by {
        let v = s.store[e];
        if s.dirty_entities.contains(e) {
            assert(s.joins(s.dirty_entities, e, v));
        } else {
            assert(s.grouped_under(e, v));
        }
        assert(regrouped.contains_key(v) && regrouped[v].contains(e));
    }
    assert forall|e: u32, v: C|
        after.store.contains_key(e) && #[trigger] after.grouped_under(e, v)
        implies v == after.store[e] by {}
}

/// A consistent index stays consistent under every change that it admits.
pub proof fn lemma_change_keeps_consistent<C>(s: IndexState<C>, change: Change<C>)
    requires
        s.consistent(),
        s.admits(change),
    ensures
        s.apply(change).consistent(),
{
    match change {
        Change::Insert(id, value) => lemma_insert_keeps_consistent(s, id, value),
        Change::Mutate(id, value) => lemma_mutate_keeps_consistent(s, id, value),
        Change::Remove(id) => lemma_remove_keeps_consistent(s, id),
        Change::Reconcile => lemma_reconcile_settles(s),
    }
}

/// A consistent index stays consistent under every sequence of changes that
/// it admits, and a reconciliation after them gives the grouping of the
/// store.
pub proof fn lemma_changes_keep_consistent<C>(s: IndexState<C>, changes: Seq<Change<C>>)
    requires
        s.consistent(),
        s.admits_all(changes),
    ensures
        s.apply_all(changes).consistent(),
        s.apply_all(changes).reconcile().groups_match_store(),
    decreases changes.len(),
{
    if changes.len() == 0 {
        lemma_reconcile_settles(s);
    } else {
        lemma_change_keeps_consistent(s, changes[0]);
        lemma_changes_keep_consistent(s.apply(changes[0]), changes.drop_first());
    }
}

/// Grouping is correct: after any sequence of insertions, mutations,
/// removals and reconciliations on a new index over an empty store, a
/// reconciliation leaves every entity that has a component in the group of
/// its value and in no other group. The sequence must be one that the index
/// admits: a mutation or a removal is of an entity that has a component, and
/// no insertion overwrites the value of an entity that is a member of that
/// value's group.
pub proof fn law_grouping_correct<C>(changes: Seq<Change<C>>)
    requires
        IndexState::<C>::fresh(Map::empty()).admits_all(changes),
    ensures
        IndexState::<C>::fresh(Map::empty()).apply_all(
            changes,
        ).reconcile().groups_match_store(),
{
    lemma_fresh_is_consistent::<C>();
    lemma_changes_keep_consistent(IndexState::<C>::fresh(Map::empty()), changes);
}

/// A reconciliation can always follow the writes: an insertion, a mutation
/// or a removal of an entity that has a component leaves every dirty entity
/// with a component, and so does a clean that spares the dirty entities.
pub proof fn law_writes_keep_reconcilable<C>(
    s: IndexState<C>,
    id: u32,
    value: C,
    live: Set<u32>,
)
    requires
        s.reconcilable(),
    ensures
        s.insert(id, value).reconcilable(),
        s.store.contains_key(id) ==> s.begin_mutate(id).reconcilable(),
        s.store.contains_key(id) ==> s.mutate(id, value).reconcilable(),
        s.remove(id).reconcilable(),
        s.dirty_entities.subset_of(live) ==> s.clean(live).reconcilable(),
        s.reconcile().reconcilable(),
{
}

/// What a reconciliation makes of the group of `value`: the members it had,
/// and the dirty entities that have `value` now.
pub proof fn lemma_members_after_reconcile<C>(s: IndexState<C>, value: C)
    ensures
        s.reconcile().members(value) == s.members(value).union(
            Set::new(|id: u32| s.joins(s.dirty_entities, id, value)),
        ),
        s.reconcile().groups.contains_key(value) ==> !s.dirty_groups.contains(value)
            || !s.reconcile().members(value).is_empty(),
{
    let regrouped = s.regrouped(s.dirty_entities);
    let joined = Set::new(|id: u32| s.joins(s.dirty_entities, id, value));
    if regrouped.contains_key(value) {
        assert(regrouped[value] =~= s.members(value).union(joined));
    } else {
        assert(s.members(value) =~= Set::empty());
        assert(joined =~= Set::empty()) by {
            assert forall|e: u32| !joined.contains(e) by {
                assert(!s.joins(s.dirty_entities, e, value));
            }
        }
    }
    assert(s.reconcile().members(value) =~= s.members(value).union(joined));
}

/// Move: an entity that is a member of the group of its value `a`, once
/// mutated to `b` and reconciled, is a member of the group of `b`; where `b`
/// is another value, it has left the group of `a`, which is gone if that
/// left it empty and stays with its other members if not. Against what a
/// reconciliation without the mutation shows, only these two groups differ.
pub proof fn law_move<C>(s: IndexState<C>, id: u32, b: C)
    requires
        s.store.contains_key(id),
        s.grouped_under(id, s.store[id]),
    ensures
        ({
            let a = s.store[id];
            let seen = s.reconcile();
            let after = s.mutate(id, b).reconcile();
            &&& after.store == s.store.insert(id, b)
            &&& after.grouped_under(id, b)
            &&& after.members(b) == seen.members(b).insert(id)
            &&& a != b ==> {
                &&& !after.grouped_under(id, a)
                &&& after.members(a) == seen.members(a).remove(id)
                &&& after.groups.contains_key(a) <==> !seen.members(a).remove(id).is_empty()
            }
            &&& forall|value: C|
                value != a && value != b ==> (#[trigger] after.members(value)) == seen.members(
                    value,
                )
        }),
{
    let a = s.store[id];
    let seen = s.reconcile();
    let moved = s.mutate(id, b);
    let after = moved.reconcile();
    assert(moved.joins(moved.dirty_entities, id, b));
    assert forall|value: C| #[trigger]
        after.members(value) == (if value == b {
            seen.members(value).insert(id)
        } else if value == a {
            seen.members(value).remove(id)
        } else {
            seen.members(value)
        }) by {
        lemma_members_after_reconcile(s, value);
        lemma_members_after_reconcile(moved, value);
        let joined = Set::new(|e: u32| s.joins(s.dirty_entities, e, value));
        let joined_moved = Set::new(|e: u32| moved.joins(moved.dirty_entities, e, value));
        assert forall|e: u32| e != id implies (joined_moved.contains(e) <==> joined.contains(
            e,
        )) by {
            let joins_moved = moved.joins(moved.dirty_entities, e, value);
            assert(joins_moved <==> s.joins(s.dirty_entities, e, value));
        }
        if value == b {
            assert(joined_moved.insert(id) =~= joined.insert(id));
            assert(moved.members(value).insert(id) =~= s.members(value).insert(id));
            assert(after.members(value) =~= seen.members(value).insert(id));
        } else if value == a {
            assert(joined_moved =~= joined.remove(id));
            assert(moved.members(value) =~= s.members(value).remove(id));
            assert(after.members(value) =~= seen.members(value).remove(id));
        } else {
            assert(joined_moved =~= joined);
            assert(moved.members(value) =~= s.members(value));
            assert(after.members(value) =~= seen.members(value));
        }
    }
    assert(after.members(b) == seen.members(b).insert(id));
    assert(after.members(b).contains(id));
    if a != b {
        assert(after.members(a) == seen.members(a).remove(id));
        lemma_members_after_reconcile(moved, a);
        let regrouped = moved.regrouped(moved.dirty_entities);
        assert(regrouped.contains_key(a));
        if seen.members(a).remove(id).is_empty() {
            assert(regrouped[a] =~= Set::empty()) by {
                assert(regrouped[a] =~= after.members(a)) by {
                    if !after.groups.contains_key(a) {
                        let dropped = IndexState::empty_among(regrouped, moved.dirty_groups);
                        assert(dropped.contains(a));
                    }
                }
            }
            assert(s.members(a).remove(id) =~= Set::empty()) by {
                assert forall|e: u32| !s.members(a).remove(id).contains(e) by {
                    if s.members(a).remove(id).contains(e) {
                        assert(regrouped[a].contains(e));
                    }
                }
            }
            assert(moved.dirty_groups.contains(a));
            assert(!after.groups.contains_key(a));
        } else {
            assert(after.groups.contains_key(a)) by {
                if !after.groups.contains_key(a) {
                    assert(after.members(a) =~= Set::empty());
                }
            }
        }
    }
}

/// Revert before reconcile: an entity that is a member of the group of its
/// value `a`, mutated to `b` and back to `a` with no reconciliation in
/// between, is a member of the group of `a` after the next one, so that
/// group is there. On a consistent index the reconciliation gives what it
/// would have given without the two mutations.
pub proof fn law_revert_before_reconcile<C>(s: IndexState<C>, id: u32, b: C)
    requires
        s.store.contains_key(id),
        s.grouped_under(id, s.store[id]),
    ensures
        s.mutate(id, b).mutate(id, s.store[id]).reconcile().grouped_under(id, s.store[id]),
        s.consistent() ==> s.mutate(id, b).mutate(id, s.store[id]).reconcile() == s.reconcile(),
{
    let a = s.store[id];
    let away = s.mutate(id, b);
    let back = away.mutate(id, a);
    let after = back.reconcile();
    let seen = s.reconcile();
    assert(back.joins(back.dirty_entities, id, a));
    assert(after.grouped_under(id, a)) by {
        let regrouped = back.regrouped(back.dirty_entities);
        assert(regrouped.contains_key(a) && regrouped[a].contains(id));
    }
    if s.consistent() {
        assert(back.store =~= s.store);
        lemma_mutate_keeps_consistent(s, id, b);
        lemma_mutate_keeps_consistent(away, id, a);
        law_no_empty_groups(s);
        law_no_empty_groups(back);
        assert forall|value: C| #[trigger] after.members(value) == seen.members(value) by {
            lemma_members_after_reconcile(s, value);
            lemma_members_after_reconcile(back, value);
            let joined = Set::new(|e: u32| s.joins(s.dirty_entities, e, value));
            let joined_back = Set::new(|e: u32| back.joins(back.dirty_entities, e, value));
            assert forall|e: u32| e != id implies (joined_back.contains(e) <==> joined.contains(
                e,
            )) by {
                let joins_back = back.joins(back.dirty_entities, e, value);
                assert(joins_back <==> s.joins(s.dirty_entities, e, value));
            }
            assert forall|e: u32| e != id implies (back.members(value).contains(e)
                <==> s.members(value).contains(e)) by {}
            if value == a {
                assert(joined_back.contains(id));
                assert(s.members(value).contains(id));
            } else {
                assert(!joined_back.contains(id));
                assert(!joined.contains(id));
                assert(!s.members(value).contains(id)) by {
                    if s.members(value).contains(id) {
                        assert(s.grouped_under(id, value));
                    }
                }
                assert(!back.members(value).contains(id));
            }
            assert(after.members(value) =~= seen.members(value));
        }
        assert(after.groups =~= seen.groups) by {
            assert forall|value: C|
                after.groups.contains_key(value) <==> seen.groups.contains_key(value) by {
                assert(after.members(value) == seen.members(value));
                if after.groups.contains_key(value) && !seen.groups.contains_key(value) {
                    assert(seen.members(value) =~= Set::empty());
                }
                if seen.groups.contains_key(value) && !after.groups.contains_key(value) {
                    assert(after.members(value) =~= Set::empty());
                }
            }
            assert forall|value: C| #[trigger] after.groups.contains_key(value)
                implies after.groups[value] == seen.groups[value] by {
                assert(after.members(value) == seen.members(value));
            }
        }
        assert(after =~= seen);
    }
}

/// A shared group survives a partial removal: of two members of the group
/// of their common value, the removal of one, reconciled, leaves the group
/// there with the other in it and the removed one out of it.
pub proof fn law_shared_group_survives<C>(s: IndexState<C>, gone: u32, stays: u32)
    requires
        gone != stays,
        s.store.contains_key(gone),
        s.grouped_under(gone, s.store[gone]),
        s.grouped_under(stays, s.store[gone]),
    ensures
        s.remove(gone).reconcile().grouped_under(stays, s.store[gone]),
        !s.remove(gone).reconcile().grouped_under(gone, s.store[gone]),
{
    let a = s.store[gone];
    let removed = s.remove(gone);
    let after = removed.reconcile();
    let regrouped = removed.regrouped(removed.dirty_entities);
    assert(removed.grouped_under(stays, a));
    assert(regrouped.contains_key(a) && regrouped[a].contains(stays));
    assert(!regrouped[a].is_empty());
    assert(!removed.joins(removed.dirty_entities, gone, a));
}

} // verus!
