//! Maps of storage slots.

use std::collections::BTreeMap;
use vstd::prelude::*;

use crate::types::H256;

verus! {

broadcast use {vstd::laws_cmp::group_laws_cmp, vstd::std_specs::btree::group_btree_axioms};

/// `slots` with the values of `changes` in place of its own; no slot comes in or goes.
pub open spec fn refreshed(slots: Map<H256, H256>, changes: Map<H256, H256>) -> Map<H256, H256> {
    Map::new(
        |slot: H256| slots.contains_key(slot),
        |slot: H256|
            if changes.contains_key(slot) {
                changes[slot]
            } else {
                slots[slot]
            },
    )
}

/// Whether `key` is among the first `n` keys.
pub(crate) open spec fn met<K, V>(entries: Seq<(&K, &V)>, n: int, key: K) -> bool {
    exists|i: int| 0 <= i < n && *(#[trigger] entries[i]).0 == key
}

/// Gives the slots of `slots` the values that `changes` has for them.
pub(crate) fn refresh(slots: &mut BTreeMap<H256, H256>, changes: &BTreeMap<H256, H256>)
    ensures
        final(slots)@ == refreshed(old(slots)@, changes@),
{
    for entry in iter: changes.iter()
        invariant
            slots@.dom() =~= old(slots)@.dom(),
            forall|slot: H256| #[trigger] slots@.contains_key(slot) ==> slots@[slot] == if met(
                iter.seq(),
                iter.index() as int,
                slot,
            ) {
                changes@[slot]
            } else {
                old(slots)@[slot]
            },
    {
        let slot: H256 = *entry.0;
        let value: H256 = *entry.1;
        if slots.contains_key(&slot) {
            slots.insert(slot, value);
        }
    }
    assert(slots@ =~= refreshed(old(slots)@, changes@));
}

/// Adds the slots of `changes` to `slots`; where both have one, that of `changes` stays.
pub(crate) fn overlay(slots: &mut BTreeMap<H256, H256>, changes: &BTreeMap<H256, H256>)
    ensures
        final(slots)@ == old(slots)@.union_prefer_right(changes@),
{
    for entry in iter: changes.iter()
        invariant
            forall|slot: H256| #[trigger]
                slots@.contains_key(slot) <==> old(slots)@.contains_key(slot) || met(
                    iter.seq(),
                    iter.index() as int,
                    slot,
                ),
            forall|slot: H256| #[trigger] slots@.contains_key(slot) ==> slots@[slot] == if met(
                iter.seq(),
                iter.index() as int,
                slot,
            ) {
                changes@[slot]
            } else {
                old(slots)@[slot]
            },
    {
        slots.insert(*entry.0, *entry.1);
    }
    assert(slots@ =~= old(slots)@.union_prefer_right(changes@));
}

} // verus!
