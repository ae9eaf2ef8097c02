//! Equipment slots: finding what is worn in a slot and putting equipment on
//! or taking it off.
use vstd::prelude::*;
use crate::data::{Game, Messages, Object, Slot, UseResult};
use crate::object::{dequip_messages, equip_messages, with_equipped};

verus! {

/// Whether `o` is equipment worn in `slot`.
pub open spec fn equipped_in(o: Object, slot: Slot) -> bool {
    o.equipment matches Some(e) && e.equipped && e.slot == slot
}

/// The index of the first item of `inv` worn in `slot`, if any.
pub open spec fn first_equipped(inv: Seq<Object>, slot: Slot) -> Option<int>
    decreases inv.len(),
{
    if inv.len() == 0 {
        None
    } else {
        match first_equipped(inv.drop_last(), slot) {
            Some(i) => Some(i),
            None => if equipped_in(inv.last(), slot) { Some(inv.len() - 1) } else { None },
        }
    }
}

/// At most one item of the inventory is worn in each slot.
pub open spec fn one_per_slot(inv: Seq<Object>) -> bool {
    forall|i: int, j: int, s: Slot|
        0 <= i < inv.len() && 0 <= j < inv.len() && #[trigger] equipped_in(inv[i], s) && #[trigger] equipped_in(inv[j], s) ==> i == j
}

pub proof fn lemma_first_equipped(inv: Seq<Object>, slot: Slot)
    ensures
        first_equipped(inv, slot) matches Some(i) ==> {
            &&& 0 <= i < inv.len()
            &&& equipped_in(inv[i], slot)
            &&& forall|k: int| 0 <= k < i ==> !equipped_in(#[trigger] inv[k], slot)
        },
        first_equipped(inv, slot) is None ==> forall|k: int| 0 <= k < inv.len() ==> !equipped_in(#[trigger] inv[k], slot),
    decreases inv.len(),
{
    if inv.len() > 0 {
        let rest = inv.drop_last();
        lemma_first_equipped(rest, slot);
        assert(inv.last() == inv[inv.len() - 1]);
        assert forall|k: int| 0 <= k < rest.len() implies #[trigger] rest[k] == inv[k] by {}
        match first_equipped(rest, slot) {
            Some(i) => {
                assert(rest[i] == inv[i]);
                assert forall|k: int| 0 <= k < i implies !equipped_in(#[trigger] inv[k], slot) by {
                    assert(rest[k] == inv[k]);
                }
            },
            None => {
                assert forall|k: int| 0 <= k < rest.len() implies !equipped_in(#[trigger] inv[k], slot) by {
                    assert(rest[k] == inv[k]);
                }
            },
        }
    }
}

/// The index of the first item of the inventory worn in `slot`, if any.
pub fn get_equipped_in_slot(slot: Slot, inventory: &[Object]) -> (r: Option<usize>)
    ensures
        r matches Some(i) ==> first_equipped(inventory@, slot) == Some(i as int),
        r is None ==> first_equipped(inventory@, slot) is None,
{
    proof { lemma_first_equipped(inventory@, slot); }
    let mut i: usize = 0;
    while i < inventory.len()
        invariant
            i <= inventory@.len(),
            forall|k: int| 0 <= k < i ==> !equipped_in(#[trigger] inventory@[k], slot),
        decreases inventory@.len() - i,
    {
        let worn = match &inventory[i].equipment {
            Some(e) => e.equipped && e.slot == slot,
            None => false,
        };
        assert(worn == equipped_in(inventory@[i as int], slot));
        if worn {
            proof {
                lemma_first_equipped(inventory@, slot);
                match first_equipped(inventory@, slot) {
                    Some(j) => {
                        if j < i {
                            assert(!equipped_in(inventory@[j], slot));
                        } else if j > i {
                            assert(!equipped_in(inventory@[i as int], slot));
                        }
                    },
                    None => {
                        assert(!equipped_in(inventory@[i as int], slot));
                    },
                }
            }
            return Some(i);
        }
        i = i + 1;
    }
    None
}

/// The inventory after toggling the equipment at `id`: an equipped item is
/// taken off; otherwise whatever is worn in its slot is taken off and it is
/// put on.
pub open spec fn toggled(inv: Seq<Object>, id: int) -> Seq<Object> {
    let o = inv[id];
    let e = o.equipment->0;
    if e.equipped {
        inv.update(id, with_equipped(o, false))
    } else {
        match first_equipped(inv, e.slot) {
            Some(c) => inv.update(c, with_equipped(inv[c], false)).update(id, with_equipped(o, true)),
            None => inv.update(id, with_equipped(o, true)),
        }
    }
}

/// The messages toggling the equipment at `id` logs.
pub open spec fn toggle_messages(inv: Seq<Object>, id: int) -> Seq<(Seq<char>, crate::colors::Color)> {
    let o = inv[id];
    let e = o.equipment->0;
    if e.equipped {
        dequip_messages(o)
    } else {
        match first_equipped(inv, e.slot) {
            Some(c) => dequip_messages(inv[c]) + equip_messages(o),
            None => equip_messages(o),
        }
    }
}

/// The outcome of toggling the equipment at `id` of `g`'s inventory:
/// cancelled for anything that is not equipment.
pub open spec fn toggle_outcome(g: Game, id: int, g2: Game, r: UseResult) -> bool {
    &&& g.inventory@[id].equipment is None ==> {
        &&& r == UseResult::Cancelled
        &&& g2 == g
    }
    &&& g.inventory@[id].equipment is Some ==> {
        &&& r == UseResult::UsedAndKept
        &&& g2.map == g.map
        &&& g2.dungeon_level == g.dungeon_level
        &&& g2.inventory@ == toggled(g.inventory@, id)
        &&& g2.messages() == g.messages() + toggle_messages(g.inventory@, id)
    }
}

/// Puts on or takes off the equipment at `inventory_id`. Equipping first
/// takes off whatever is worn in the same slot. Anything that is not
/// equipment cannot be toggled and the use is cancelled.
pub fn toggle_equipment(inventory_id: usize, game: &mut Game) -> (r: UseResult)
    requires
        inventory_id < old(game).inventory@.len(),
    ensures
        toggle_outcome(*old(game), inventory_id as int, *final(game), r),
{
    let equipment = match game.inventory[inventory_id].equipment {
        Some(e) => e,
        None => return UseResult::Cancelled,
    };
    proof { lemma_first_equipped(game.inventory@, equipment.slot); }
    if equipment.equipped {
        game.inventory[inventory_id].dequip(&mut game.log);
    } else {
        let current = get_equipped_in_slot(equipment.slot, &game.inventory);
        if let Some(current) = current {
            game.inventory[current].dequip(&mut game.log);
        }
        game.inventory[inventory_id].equip(&mut game.log);
    }
    proof {
        assert(crate::data::log_view(game.log@) =~= old(game).messages() + toggle_messages(old(game).inventory@, inventory_id as int));
    }
    UseResult::UsedAndKept
}

/// Toggling equipment keeps at most one item worn per slot.
pub proof fn lemma_toggle_one_per_slot(inv: Seq<Object>, id: int)
    requires
        one_per_slot(inv),
        0 <= id < inv.len(),
        inv[id].equipment is Some,
    ensures
        one_per_slot(toggled(inv, id)),
{
    let after = toggled(inv, id);
    let o = inv[id];
    let e = o.equipment->0;
    lemma_first_equipped(inv, e.slot);
    assert forall|i: int, j: int, s: Slot|
        0 <= i < after.len() && 0 <= j < after.len() && #[trigger] equipped_in(after[i], s) && #[trigger] equipped_in(after[j], s) implies i == j by {
        if e.equipped {
            if i != id && j != id {
                assert(after[i] == inv[i] && after[j] == inv[j]);
            }
        } else {
            match first_equipped(inv, e.slot) {
                Some(c) => {
                    if i != id && j != id {
                        if i != c && j != c {
                            assert(after[i] == inv[i] && after[j] == inv[j]);
                        }
                    } else if i == id && j != id {
                        if j != c {
                            assert(after[j] == inv[j]);
                            assert(s == e.slot);
                        }
                    } else if j == id && i != id {
                        if i != c {
                            assert(after[i] == inv[i]);
                            assert(s == e.slot);
                        }
                    }
                },
                None => {
                    if i != id && j != id {
                        assert(after[i] == inv[i] && after[j] == inv[j]);
                    } else if i == id && j != id {
                        assert(after[j] == inv[j]);
                        assert(s == e.slot);
                    } else if j == id && i != id {
                        assert(after[i] == inv[i]);
                        assert(s == e.slot);
                    }
                },
            }
        }
    }
}

} // verus!
