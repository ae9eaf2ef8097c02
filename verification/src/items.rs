//! Picking items up, dropping them and using them.
use vstd::prelude::*;
use crate::colors;
use crate::data::{add_message, add_str_message, Game, Item, Object, UseResult};
use crate::equipment::{first_equipped, get_equipped_in_slot, lemma_first_equipped, one_per_slot, equipped_in, toggle_equipment, toggle_outcome};
use crate::spellcasting::{cast_confuse, cast_fireball, cast_heal, cast_lightning, confuse_outcome, fireball_is_safe, fireball_ok, fireball_outcome, heal_is_safe, heal_ok, heal_outcome, lightning_is_safe, lightning_ok, lightning_outcome};
use crate::targeting::FovGrid;
use crate::object::{dequip_messages, equip_messages, with_equipped};
use crate::text::push_str;
use crate::{INVENTORY_CAPACITY, PLAYER};

verus! {

pub open spec fn full_text(name: Seq<char>) -> Seq<char> {
    "Your inventory is full, cannot pick up "@ + name + "."@
}

pub open spec fn picked_text(name: Seq<char>) -> Seq<char> {
    "You picked up a "@ + name + "!"@
}

pub open spec fn dropped_text(name: Seq<char>) -> Seq<char> {
    "You dropped a "@ + name + "."@
}

/// Whether picking up `o` into `inv` puts it on at once: it is equipment and
/// nothing (itself included) is worn in its slot.
pub open spec fn auto_equips(inv: Seq<Object>, o: Object) -> bool {
    o.equipment matches Some(e) && first_equipped(inv.push(o), e.slot) is None
}

/// The inventory after trying to pick up `o`: unchanged when full, else `o`
/// added at the end, put on if it auto-equips.
pub open spec fn inventory_after_pickup(inv: Seq<Object>, o: Object) -> Seq<Object> {
    if inv.len() >= INVENTORY_CAPACITY {
        inv
    } else if auto_equips(inv, o) {
        inv.push(with_equipped(o, true))
    } else {
        inv.push(o)
    }
}

/// The outcome of picking up the object at `id`: when the inventory is
/// full only a message says so; otherwise the object leaves the map (the
/// last object takes its place), joins the inventory and is put on if it
/// auto-equips.
pub open spec fn pickup_outcome(id: int, objs: Seq<Object>, g: Game, objs2: Seq<Object>, g2: Game) -> bool {
    let o = objs[id];
    &&& g2.map == g.map
    &&& g2.dungeon_level == g.dungeon_level
    &&& g2.inventory@ == inventory_after_pickup(g.inventory@, o)
    &&& g.inventory@.len() >= INVENTORY_CAPACITY ==> {
        &&& objs2 == objs
        &&& g2.messages() == g.messages().push((full_text(o.name@), colors::spec_red()))
    }
    &&& g.inventory@.len() < INVENTORY_CAPACITY ==> ({
        let msgs = g.messages().push((picked_text(o.name@), colors::spec_green()));
        &&& objs2 == objs.update(id, objs.last()).drop_last()
        &&& auto_equips(g.inventory@, o) ==> g2.messages() == msgs + equip_messages(o)
        &&& !auto_equips(g.inventory@, o) ==> g2.messages() == msgs
    })
}

/// Picks up the object at `object_id` into the inventory, unless the
/// inventory is full. The object leaves the map (the last object takes its
/// place); if it is equipment and nothing is worn in its slot it is put on.
pub fn pick_item_up(object_id: usize, objects: &mut Vec<Object>, game: &mut Game)
    requires
        object_id < old(objects)@.len(),
    ensures
        pickup_outcome(object_id as int, old(objects)@, *old(game), final(objects)@, *final(game)),
{
    if game.inventory.len() >= INVENTORY_CAPACITY {
        let mut msg = String::new();
        push_str(&mut msg, "Your inventory is full, cannot pick up ");
        push_str(&mut msg, objects[object_id].name.as_str());
        push_str(&mut msg, ".");
        add_message(&mut game.log, msg, colors::red());
    } else {
        let item = objects.swap_remove(object_id);
        let mut msg = String::new();
        push_str(&mut msg, "You picked up a ");
        push_str(&mut msg, item.name.as_str());
        push_str(&mut msg, "!");
        add_message(&mut game.log, msg, colors::green());
        let index = game.inventory.len();
        let slot = match item.equipment {
            Some(e) => Some(e.slot),
            None => None,
        };
        let ghost o = item;
        let ghost log1 = crate::data::log_view(game.log@);
        game.inventory.push(item);
        if let Some(slot) = slot {
            if get_equipped_in_slot(slot, &game.inventory).is_none() {
                game.inventory[index].equip(&mut game.log);
                assert(game.inventory@ =~= old(game).inventory@.push(with_equipped(o, true)));
            } else {
                assert(crate::data::log_view(game.log@) =~= log1);
            }
        }
    }
}

/// Drops the inventory item at `inventory_id` at the player's feet, taking
/// it off first if it is equipment.
pub fn drop_item(inventory_id: usize, objects: &mut Vec<Object>, game: &mut Game)
    requires
        inventory_id < old(game).inventory@.len(),
        old(objects)@.len() > PLAYER,
    ensures
        ({
            let o = old(game).inventory@[inventory_id as int];
            let p = old(objects)@[PLAYER as int];
            let off = if o.equipment is Some { with_equipped(o, false) } else { o };
            let dmsgs = if o.equipment is Some { dequip_messages(o) } else { seq![] };
            &&& final(game).inventory@ == old(game).inventory@.remove(inventory_id as int)
            &&& final(objects)@ == old(objects)@.push(Object { x: p.x, y: p.y, ..off })
            &&& final(game).messages() == old(game).messages() + dmsgs + seq![(dropped_text(o.name@), colors::spec_yellow())]
            &&& final(game).map == old(game).map
            &&& final(game).dungeon_level == old(game).dungeon_level
        }),
{
    let mut item = game.inventory.remove(inventory_id);
    let ghost log0 = crate::data::log_view(game.log@);
    if item.equipment.is_some() {
        item.dequip(&mut game.log);
    } else {
        assert(crate::data::log_view(game.log@) =~= log0 + seq![]);
    }
    item.set_pos(objects[PLAYER].x, objects[PLAYER].y);
    let mut msg = String::new();
    push_str(&mut msg, "You dropped a ");
    push_str(&mut msg, item.name.as_str());
    push_str(&mut msg, ".");
    add_message(&mut game.log, msg, colors::yellow());
    objects.push(item);
    assert(crate::data::log_view(game.log@) =~= old(game).messages() + (if old(game).inventory@[inventory_id as int].equipment is Some {
        dequip_messages(old(game).inventory@[inventory_id as int])
    } else {
        seq![]
    }) + seq![(dropped_text(old(game).inventory@[inventory_id as int].name@), colors::spec_yellow())]);
}

/// What the player chose as the target of an item, if it needs one.
pub enum Target {
    /// The item needs no target chosen.
    Untargeted,
    /// The monster picked, if any.
    Monster(Option<usize>),
    /// The tile picked, if any.
    Tile(Option<(i32, i32)>),
}

/// The kind of target an item needs chosen before it is used.
#[derive(Clone, Copy, Debug, PartialEq, Eq, Structural)]
pub enum TargetKind {
    /// Nothing to choose.
    NoTarget,
    /// A monster within the range given.
    MonsterInRange(i32),
    /// Any tile in view.
    AnyTile,
}

pub open spec fn spec_target_kind(item: Option<Item>) -> TargetKind {
    match item {
        Some(Item::Confuse) => TargetKind::MonsterInRange(crate::CONFUSE_RANGE),
        Some(Item::Fireball) => TargetKind::AnyTile,
        _ => TargetKind::NoTarget,
    }
}

/// The kind of target the item needs: confusion a monster within
/// `CONFUSE_RANGE`, a fireball a tile, the others none.
pub fn target_kind(item: Option<Item>) -> (k: TargetKind)
    ensures
        k == spec_target_kind(item),
{
    match item {
        Some(Item::Confuse) => TargetKind::MonsterInRange(crate::CONFUSE_RANGE),
        Some(Item::Fireball) => TargetKind::AnyTile,
        _ => TargetKind::NoTarget,
    }
}

pub open spec fn target_monster(t: Target) -> Option<usize> {
    match t {
        Target::Monster(m) => m,
        _ => None,
    }
}

pub open spec fn target_tile(t: Target) -> Option<(i32, i32)> {
    match t {
        Target::Tile(p) => p,
        _ => None,
    }
}

pub open spec fn cannot_use_text(name: Seq<char>) -> Seq<char> {
    "The "@ + name + " cannot be used."@
}

/// The outcome of the effect of an item of kind `kind`.
pub open spec fn effect_outcome(
    kind: Item,
    id: int,
    objs: Seq<Object>,
    g: Game,
    fov: Seq<Vec<bool>>,
    target: Target,
    objs2: Seq<Object>,
    g2: Game,
    r: UseResult,
) -> bool {
    match kind {
        Item::Heal => heal_outcome(objs, g, objs2, g2, r),
        Item::Lightning => lightning_outcome(objs, fov, g, objs2, g2, r),
        Item::Confuse => confuse_outcome(objs, g, target_monster(target), objs2, g2, r),
        Item::Fireball => fireball_outcome(objs, g, target_tile(target), objs2, g2, r),
        Item::Sword | Item::Shield => objs2 == objs && toggle_outcome(g, id, g2, r),
    }
}

/// What happens to the item after its effect: used up items leave the
/// inventory, a cancelled use is logged.
pub open spec fn after_use(g: Game, r: UseResult, id: int, g2: Game) -> bool {
    match r {
        UseResult::UsedUp => {
            &&& g2.inventory@ == g.inventory@.remove(id)
            &&& g2.map == g.map
            &&& g2.dungeon_level == g.dungeon_level
            &&& g2.messages() == g.messages()
        },
        UseResult::UsedAndKept => g2 == g,
        UseResult::Cancelled => {
            &&& g.same_but_log(g2)
            &&& g2.messages() == g.messages().push(("Cancelled"@, colors::spec_white()))
        },
    }
}

/// The item at `id` can be used with the target chosen without overflow or
/// failure.
pub open spec fn use_ok(id: int, objs: Seq<Object>, g: Game, fov: Seq<Vec<bool>>, target: Target) -> bool {
    &&& 0 <= id < g.inventory@.len()
    &&& match g.inventory@[id].item {
        Some(Item::Heal) => heal_ok(objs, g),
        Some(Item::Lightning) => lightning_ok(objs, fov),
        Some(Item::Confuse) => target_monster(target) matches Some(m) ==> m < objs.len(),
        Some(Item::Fireball) => fireball_ok(objs, target_tile(target)),
        _ => true,
    }
}

/// Whether the inventory item at `inventory_id` can be used on the target
/// chosen without overflow or failure.
pub fn can_use(inventory_id: usize, objects: &[Object], game: &Game, fov: &FovGrid, target: &Target) -> (b: bool)
    ensures
        b == use_ok(inventory_id as int, objects@, *game, fov@, *target),
{
    if inventory_id >= game.inventory.len() {
        return false;
    }
    match game.inventory[inventory_id].item {
        Some(Item::Heal) => heal_is_safe(objects, game),
        Some(Item::Lightning) => lightning_is_safe(objects, fov),
        Some(Item::Confuse) => match target {
            Target::Monster(Some(m)) => *m < objects.len(),
            _ => true,
        },
        Some(Item::Fireball) => match target {
            Target::Tile(t) => fireball_is_safe(objects, *t),
            _ => fireball_is_safe(objects, None),
        },
        _ => true,
    }
}

/// Uses the inventory item at `inventory_id` on the target chosen: its
/// effect happens, then a used-up item leaves the inventory and a cancelled
/// use is logged. Objects that are not items cannot be used.
pub fn use_item(inventory_id: usize, objects: &mut [Object], game: &mut Game, fov: &FovGrid, target: Target)
    requires
        use_ok(inventory_id as int, old(objects)@, *old(game), fov@, target),
    ensures
        ({
            let o = old(game).inventory@[inventory_id as int];
            match o.item {
                None => {
                    &&& final(objects)@ == old(objects)@
                    &&& old(game).same_but_log(*final(game))
                    &&& final(game).messages() == old(game).messages().push((cannot_use_text(o.name@), colors::spec_white()))
                },
                Some(kind) => exists|r: UseResult, g: Game|
                    effect_outcome(kind, inventory_id as int, old(objects)@, *old(game), fov@, target, final(objects)@, g, r)
                        && #[trigger] after_use(g, r, inventory_id as int, *final(game)),
            }
        }),
{
    if let Some(item) = game.inventory[inventory_id].item {
        let r = match item {
            Item::Heal => cast_heal(inventory_id, objects, game),
            Item::Lightning => cast_lightning(inventory_id, objects, game, fov),
            Item::Confuse => {
                let m = match target {
                    Target::Monster(m) => m,
                    _ => None,
                };
                cast_confuse(inventory_id, objects, game, m)
            },
            Item::Fireball => {
                let t = match target {
                    Target::Tile(t) => t,
                    _ => None,
                };
                cast_fireball(inventory_id, objects, game, t)
            },
            Item::Sword => toggle_equipment(inventory_id, game),
            Item::Shield => toggle_equipment(inventory_id, game),
        };
        let ghost gm = *game;
        match r {
            UseResult::UsedUp => {
                game.inventory.remove(inventory_id);
            },
            UseResult::UsedAndKept => {},
            UseResult::Cancelled => {
                add_str_message(&mut game.log, "Cancelled", colors::white());
            },
        }
        assert(after_use(gm, r, inventory_id as int, *game));
    } else {
        let mut msg = String::new();
        push_str(&mut msg, "The ");
        push_str(&mut msg, game.inventory[inventory_id].name.as_str());
        push_str(&mut msg, " cannot be used.");
        add_message(&mut game.log, msg, colors::white());
    }
}

/// Picking up never takes the inventory beyond its capacity.
pub proof fn lemma_pickup_within_capacity(inv: Seq<Object>, o: Object)
    requires
        inv.len() <= INVENTORY_CAPACITY,
    ensures
        inventory_after_pickup(inv, o).len() <= INVENTORY_CAPACITY,
{
}

/// Picking up an item that is not worn keeps at most one item worn per
/// slot.
pub proof fn lemma_pickup_one_per_slot(inv: Seq<Object>, o: Object)
    requires
        one_per_slot(inv),
        !(o.equipment matches Some(e) && e.equipped),
    ensures
        one_per_slot(inventory_after_pickup(inv, o)),
{
    let after = inventory_after_pickup(inv, o);
    if inv.len() < INVENTORY_CAPACITY {
        assert forall|i: int, j: int, s: crate::data::Slot|
            0 <= i < after.len() && 0 <= j < after.len() && #[trigger] equipped_in(after[i], s) && #[trigger] equipped_in(after[j], s) implies i == j by {
            if auto_equips(inv, o) {
                let e = o.equipment->0;
                lemma_first_equipped(inv.push(o), e.slot);
                if i < inv.len() && j < inv.len() {
                    assert(after[i] == inv[i] && after[j] == inv[j]);
                } else if i < inv.len() {
                    assert(after[i] == inv.push(o)[i]);
                    assert(s == e.slot);
                } else if j < inv.len() {
                    assert(after[j] == inv.push(o)[j]);
                    assert(s == e.slot);
                }
            } else {
                if i < inv.len() && j < inv.len() {
                    assert(after[i] == inv[i] && after[j] == inv[j]);
                }
            }
        }
    }
}

/// Dropping an item keeps at most one item worn per slot.
pub proof fn lemma_drop_one_per_slot(inv: Seq<Object>, id: int)
    requires
        one_per_slot(inv),
        0 <= id < inv.len(),
    ensures
        one_per_slot(inv.remove(id)),
{
    let after = inv.remove(id);
    assert forall|i: int, j: int, s: crate::data::Slot|
        0 <= i < after.len() && 0 <= j < after.len() && #[trigger] equipped_in(after[i], s) && #[trigger] equipped_in(after[j], s) implies i == j by {
        let i2 = if i < id { i } else { i + 1 };
        let j2 = if j < id { j } else { j + 1 };
        assert(after[i] == inv[i2]);
        assert(after[j] == inv[j2]);
    }
}

/// Picking up into an inventory with room moves the object from the map to
/// the end of the inventory: the map loses exactly one object, the
/// inventory gains exactly one, the same object (put on when its slot is
/// free); from a full inventory nothing moves.
pub proof fn lemma_pickup_moves_one(id: int, objs: Seq<Object>, g: Game, objs2: Seq<Object>, g2: Game)
    requires
        0 <= id < objs.len(),
        pickup_outcome(id, objs, g, objs2, g2),
    ensures
        g.inventory@.len() < INVENTORY_CAPACITY ==> {
            &&& objs2.len() == objs.len() - 1
            &&& g2.inventory@.len() == g.inventory@.len() + 1
            &&& g2.inventory@.drop_last() == g.inventory@
            &&& g2.inventory@.last() == objs[id] || g2.inventory@.last() == with_equipped(objs[id], true)
            &&& forall|k: int| 0 <= k < objs2.len() && k != id ==> objs2[k] == objs[k]
        },
        g.inventory@.len() >= INVENTORY_CAPACITY ==> objs2 == objs && g2.inventory@ == g.inventory@,
{
    let o = objs[id];
    if g.inventory@.len() < INVENTORY_CAPACITY {
        if auto_equips(g.inventory@, o) {
            assert(g2.inventory@.drop_last() =~= g.inventory@);
        } else {
            assert(g2.inventory@.drop_last() =~= g.inventory@);
        }
    }
}

} // verus!
