//! Which record each entity became.

use std::collections::HashMap;
use std::hash::Hash;
use vstd::prelude::*;
use crate::token::NULL;

verus! {

/// The index of the record an entity became, or the null pointer.
pub open spec fn id_of<T>(ids: Map<T, i32>, key: T) -> int {
    if ids.contains_key(key) {
        ids[key] as int
    } else {
        NULL as int
    }
}

/// The index of the record an entity became, or the null pointer.
pub fn lookup(ids: &HashMap<usize, i32>, key: usize) -> (id: i32)
    ensures
        id == id_of(ids@, key),
{
    match ids.get(&key) {
        Some(id) => *id,
        None => NULL,
    }
}

/// The index of the record that follows an entity in a list: that of the
/// entity behind its first place. Null at the end of the list, for an entity
/// that is not in it, and where the next one has no record.
pub open spec fn next_record<T>(order: Seq<T>, key: T, ids: Map<T, i32>) -> int {
    match order.index_of_first(key) {
        Some(at) => if at + 1 < order.len() {
            id_of(ids, order[at + 1])
        } else {
            NULL as int
        },
        None => NULL as int,
    }
}

/// The record after `key` in an ownership list, or null at the end.
///
/// ACIS strings siblings together rather than listing them, so a shell holds
/// its first face and every face holds the next. Getting this wrong loses every
/// face after the first without anything else noticing.
pub fn next_in<T: Copy + PartialEq + Hash + Eq>(
    order: &[T],
    key: T,
    ids: &HashMap<T, i32>,
) -> (id: i32)
    requires
        vstd::laws_eq::obeys_concrete_eq::<T>(),
        vstd::std_specs::hash::obeys_key_model::<T>(),
    ensures
        id == next_record(order@, key, ids@),
{
    let mut at: usize = 0;
    while at < order.len()
        invariant
            vstd::laws_eq::obeys_concrete_eq::<T>(),
            vstd::std_specs::hash::obeys_key_model::<T>(),
            at <= order@.len(),
            forall|j: int| 0 <= j < at ==> order@[j] != key,
        decreases order@.len() - at,
    {
        proof {
            reveal(vstd::laws_eq::obeys_concrete_eq);
        }
        if order[at] == key {
            proof {
                assert(order@.contains(order@[at as int]));
                order@.index_of_first_ensures(key);
            }
            if at + 1 < order.len() {
                return match ids.get(&order[at + 1]) {
                    Some(id) => *id,
                    None => NULL,
                };
            }
            return NULL;
        }
        at = at + 1;
    }
    proof {
        order@.index_of_first_ensures(key);
    }
    NULL
}

/// In a list that names no entity twice, each entity is followed by the next
/// one: its record points at the record of the next, and the last one's at
/// nothing.
pub proof fn siblings_follow_each_other<T>(order: Seq<T>, ids: Map<T, i32>, at: int)
    requires
        order.no_duplicates(),
        0 <= at < order.len(),
    ensures
        next_record(order, order[at], ids) == if at + 1 < order.len() {
            id_of(ids, order[at + 1])
        } else {
            NULL as int
        },
{
    order.index_of_first_ensures(order[at]);
    assert(order.contains(order[at]));
}

/// An entity has the index noted for it, and minus one where none was.
pub proof fn unknown_entities_are_null<T>(ids: Map<T, i32>, key: T)
    ensures
        ids.contains_key(key) ==> id_of(ids, key) == ids[key],
        !ids.contains_key(key) ==> id_of(ids, key) == -1,
{
}

/// What follows an entity in a list is what stands behind its first place: with
/// the index noted for that, and minus one where none was noted, where nothing
/// stands there, and where the entity has no place in the list.
pub proof fn the_first_place_decides<T>(order: Seq<T>, key: T, ids: Map<T, i32>, at: int)
    ensures
        0 <= at < order.len() && order[at] == key && (forall|j: int|
            0 <= j < at ==> (#[trigger] order[j]) != key) ==> next_record(order, key, ids) == if at
            + 1 < order.len() && ids.contains_key(order[at + 1]) {
            ids[order[at + 1]] as int
        } else {
            -1
        },
        (forall|j: int| 0 <= j < order.len() ==> (#[trigger] order[j]) != key) ==> next_record(
            order,
            key,
            ids,
        ) == -1,
{
    order.index_of_first_ensures(key);
    if 0 <= at < order.len() && order[at] == key && (forall|j: int|
        0 <= j < at ==> (#[trigger] order[j]) != key) {
        assert(order.contains(order[at]));
        let found = order.index_of_first(key).unwrap();
        assert(order[found] == key);
        assert(found == at);
    }
}

} // verus!
