//! The four operator classes: carry capacity and starting kit.

use vstd::prelude::*;

use crate::items::{by_id, item_name, item_stats, Item, HACKER_DEVICE, MEDICAL_BAG, PIPE_BAT, SCRAP_PISTOL, TAGGER};
use crate::run::ClassKind;

verus! {

/// What a class carries (its health and speed are tuned with the physics).
#[derive(Clone, Debug)]
pub struct ClassDef {
    pub kind: ClassKind,
    pub name: &'static str,
    pub inventory_slots: usize,
    /// Item ids granted at spawn, in slot order; they fit in the slots.
    pub starting_items: Vec<u32>,
}

/// `(name, inventory slots, starting items)` of a class.
pub open spec fn class_spec(kind: ClassKind) -> (Seq<char>, usize, Seq<u32>) {
    match kind {
        ClassKind::Soldier => ("Soldier"@, 4usize, seq![PIPE_BAT, SCRAP_PISTOL]),
        ClassKind::Medic => ("Medic"@, 3usize, seq![MEDICAL_BAG]),
        ClassKind::Scout => ("Scout"@, 2usize, seq![TAGGER]),
        ClassKind::Tech => ("Tech"@, 2usize, seq![HACKER_DEVICE]),
    }
}

/// The definition of a class.
pub fn class_def(kind: ClassKind) -> (r: ClassDef)
    ensures
        r.kind == kind,
        r.name@ == class_spec(kind).0,
        r.inventory_slots == class_spec(kind).1,
        r.starting_items@ == class_spec(kind).2,
{
    let r = match kind {
        ClassKind::Soldier => ClassDef {
            kind,
            name: "Soldier",
            inventory_slots: 4,
            starting_items: vec![PIPE_BAT, SCRAP_PISTOL],
        },
        ClassKind::Medic => ClassDef { kind, name: "Medic", inventory_slots: 3, starting_items: vec![MEDICAL_BAG] },
        ClassKind::Scout => ClassDef { kind, name: "Scout", inventory_slots: 2, starting_items: vec![TAGGER] },
        ClassKind::Tech => ClassDef { kind, name: "Tech", inventory_slots: 2, starting_items: vec![HACKER_DEVICE] },
    };
    proof {
        reveal_strlit("Soldier");
        reveal_strlit("Medic");
        reveal_strlit("Scout");
        reveal_strlit("Tech");
        assert(r.starting_items@ =~= class_spec(kind).2);
    }
    r
}

/// The inventory a player of class `kind` starts with: one slot per class
/// slot, the starting kit in the first slots in order, the rest empty.
pub fn class_loadout(kind: ClassKind) -> (r: Vec<Option<Item>>)
    ensures
        r@.len() == class_spec(kind).1,
        forall|k: int|
            0 <= k < r@.len() ==> (#[trigger] r@[k] matches Some(it) ==> k < class_spec(kind).2.len() && it.id
                == class_spec(kind).2[k] && it.name@ == item_name(it.id) && (it.weight_g, it.value) == item_stats(
                it.id,
            )->0) && (k < class_spec(kind).2.len() <==> r@[k] is Some),
{
    let def = class_def(kind);
    let mut inv: Vec<Option<Item>> = Vec::new();
    let mut k: usize = 0;
    while k < def.inventory_slots
        invariant
            k <= def.inventory_slots,
            def.inventory_slots == class_spec(kind).1,
            def.starting_items@ == class_spec(kind).2,
            def.starting_items@.len() <= def.inventory_slots,
            forall|j: int| 0 <= j < def.starting_items@.len() ==> item_stats(#[trigger] def.starting_items@[j]) is Some,
            inv@.len() == k,
            forall|j: int|
                0 <= j < k ==> (#[trigger] inv@[j] matches Some(it) ==> j < class_spec(kind).2.len() && it.id
                    == class_spec(kind).2[j] && it.name@ == item_name(it.id) && (it.weight_g, it.value) == item_stats(
                    it.id,
                )->0) && (j < class_spec(kind).2.len() <==> inv@[j] is Some),
        decreases def.inventory_slots - k,
    {
        let ghost before = inv@;
        if k < def.starting_items.len() {
            inv.push(by_id(def.starting_items[k]));
        } else {
            inv.push(None);
        }
        proof {
            assert forall|j: int| 0 <= j < k + 1 implies (#[trigger] inv@[j] matches Some(it) ==> j < class_spec(kind).2.len()
                && it.id == class_spec(kind).2[j] && it.name@ == item_name(it.id) && (it.weight_g, it.value) == item_stats(
                it.id,
            )->0) && (j < class_spec(kind).2.len() <==> inv@[j] is Some) by {
                if j < k {
                    assert(inv@[j] == before[j]);
                }
            }
        }
        k += 1;
    }
    inv
}

} // verus!
