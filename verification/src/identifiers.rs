//! Sequences and sets of archive identifiers, as the contracts speak of them.
//!
//! An identifier is an opaque string; two identifiers are the same when their
//! characters are.

use vstd::prelude::*;

verus! {

/// The identifiers that a sequence of strings holds, in the same order.
pub open spec fn views(v: Seq<String>) -> Seq<Seq<char>> {
    v.map_values(|s: String| s@)
}

/// The work that is left: the identifiers of `inventory` that `completed`
/// does not hold, each once, in the order in which the inventory first names
/// them.
pub open spec fn pending_ids(inventory: Seq<Seq<char>>, completed: Set<Seq<char>>) -> Seq<
    Seq<char>,
>
    decreases inventory.len(),
{
    if inventory.len() == 0 {
        Seq::empty()
    } else {
        let earlier = pending_ids(inventory.drop_last(), completed);
        let id = inventory.last();
        if completed.contains(id) || earlier.contains(id) {
            earlier
        } else {
            earlier.push(id)
        }
    }
}

/// Pushing a string onto a vector pushes its identifier onto the views.
pub proof fn lemma_views_push(v: Seq<String>, s: String)
    ensures
        views(v.push(s)) == views(v).push(s@),
{
    assert(views(v.push(s)) =~= views(v).push(s@));
}

/// The pending identifiers are those of the inventory that are not
/// completed, and none of them occurs twice.
pub proof fn lemma_pending_ids(inventory: Seq<Seq<char>>, completed: Set<Seq<char>>)
    ensures
        pending_ids(inventory, completed).no_duplicates(),
        pending_ids(inventory, completed).to_set() == inventory.to_set().difference(completed),
    decreases inventory.len(),
{
    let pending = pending_ids(inventory, completed);
    if inventory.len() == 0 {
        assert(pending.to_set() =~= inventory.to_set().difference(completed));
    } else {
        let shorter = inventory.drop_last();
        let earlier = pending_ids(shorter, completed);
        let id = inventory.last();
        lemma_pending_ids(shorter, completed);
        assert(inventory == shorter.push(id));
        shorter.lemma_push_to_set_commute(id);
        assert(inventory.to_set() == shorter.to_set().insert(id));
        if completed.contains(id) || earlier.contains(id) {
            assert(earlier.contains(id) ==> earlier.to_set().contains(id));
            assert(pending.to_set() =~= inventory.to_set().difference(completed));
        } else {
            earlier.lemma_push_to_set_commute(id);
            assert(pending.to_set() =~= inventory.to_set().difference(completed));
            assert forall|i: int, j: int|
                0 <= i < pending.len() && 0 <= j < pending.len() && i != j implies pending[i]
                != pending[j] by {
                if i < earlier.len() && j < earlier.len() {
                } else if i < earlier.len() {
                    assert(earlier.contains(earlier[i]));
                } else {
                    assert(earlier.contains(earlier[j]));
                }
            }
        }
    }
}

/// The pending identifiers and the completed ones that the inventory names
/// make up the inventory, and no pending identifier is completed.
pub proof fn law_pending_splits_inventory(inventory: Seq<Seq<char>>, completed: Set<Seq<char>>)
    ensures
        pending_ids(inventory, completed).to_set().union(
            completed.intersect(inventory.to_set()),
        ) == inventory.to_set(),
        pending_ids(inventory, completed).to_set().disjoint(completed),
{
    lemma_pending_ids(inventory, completed);
    assert(pending_ids(inventory, completed).to_set().union(
        completed.intersect(inventory.to_set()),
    ) =~= inventory.to_set());
}

/// Where the log holds nothing but identifiers of the inventory, the pending
/// set and the completed set together are the inventory.
pub proof fn law_pending_and_completed_make_inventory(
    inventory: Seq<Seq<char>>,
    completed: Set<Seq<char>>,
)
    requires
        completed.subset_of(inventory.to_set()),
    ensures
        pending_ids(inventory, completed).to_set().union(completed) == inventory.to_set(),
{
    lemma_pending_ids(inventory, completed);
    assert(pending_ids(inventory, completed).to_set().union(completed) =~= inventory.to_set());
}

/// An identifier of the inventory that the log does not hold is pending.
pub proof fn law_unlogged_id_is_pending(
    inventory: Seq<Seq<char>>,
    completed: Set<Seq<char>>,
    id: Seq<char>,
)
    requires
        inventory.contains(id),
        !completed.contains(id),
    ensures
        pending_ids(inventory, completed).contains(id),
{
    lemma_pending_ids(inventory, completed);
    assert(inventory.to_set().contains(id));
    assert(pending_ids(inventory, completed).to_set().contains(id));
}

/// Nothing is pending exactly when the log holds every identifier of the
/// inventory.
pub proof fn law_nothing_pending(inventory: Seq<Seq<char>>, completed: Set<Seq<char>>)
    ensures
        pending_ids(inventory, completed).len() == 0 <==> inventory.to_set().subset_of(completed),
{
    let pending = pending_ids(inventory, completed);
    lemma_pending_ids(inventory, completed);
    if pending.len() == 0 {
        assert forall|id: Seq<char>| inventory.to_set().contains(id) implies completed.contains(
            id,
        ) by {
            if !completed.contains(id) {
                assert(pending.to_set().contains(id));
                assert(pending.contains(id));
            }
        }
    } else {
        assert(pending.contains(pending[0]));
        assert(pending.to_set().contains(pending[0]));
    }
}

} // verus!
