//! Building the dungeon: rooms, tunnels, what blocks movement, placing
//! monsters and items, and generating each level's map.
use vstd::prelude::*;
use crate::colors;
use crate::colors::Color;
use crate::data::{spec_new_object, Ai, DeathCallback, Equipment, Fighter, Item, Object, Rect, Slot, Tile, TileMap, Transition};
use crate::rng::{random_range, total_weight, weighted_index};
use crate::util::{from_dungeon_level, spec_from_dungeon_level};
use crate::targeting::{in_fov, FovGrid};
use crate::rng::random_bool;
use crate::{MAP_HEIGHT, MAP_WIDTH, MAX_ROOMS, PLAYER, ROOM_MAX_SIZE, ROOM_MIN_SIZE};

verus! {

/// Whether `(x, y)` lies inside the walls of `room`.
pub open spec fn in_room(room: Rect, x: int, y: int) -> bool {
    room.x1 < x < room.x2 && room.y1 < y < room.y2
}

/// Whether `(x, y)` is a tile of `map`.
pub open spec fn in_bounds(map: Seq<Vec<Tile>>, x: int, y: int) -> bool {
    0 <= x < map.len() && 0 <= y < map[x]@.len()
}

/// `new` has the shape of `old`: as many columns, each as long.
pub open spec fn same_shape(old: Seq<Vec<Tile>>, new: Seq<Vec<Tile>>) -> bool {
    &&& new.len() == old.len()
    &&& forall|x: int| 0 <= x < old.len() ==> (#[trigger] new[x])@.len() == old[x]@.len()
}

/// `new` is `old` with the tiles for which `dig` holds made empty.
pub open spec fn dug(old: Seq<Vec<Tile>>, new: Seq<Vec<Tile>>, dig: spec_fn(int, int) -> bool) -> bool {
    &&& same_shape(old, new)
    &&& forall|x: int, y: int| #[trigger] in_bounds(old, x, y) ==> new[x]@[y] == (if dig(x, y) {
        Tile::spec_empty()
    } else {
        old[x]@[y]
    })
}

/// Whether some object that blocks stands at `(x, y)`.
pub open spec fn blocking_object_at(objects: Seq<Object>, x: int, y: int) -> bool {
    exists|i: int| 0 <= i < objects.len() && (#[trigger] objects[i]).blocks && objects[i].x == x && objects[i].y == y
}

/// Whether `(x, y)` is blocked by the map or by an object.
pub open spec fn spec_is_blocked(map: Seq<Vec<Tile>>, objects: Seq<Object>, x: int, y: int) -> bool {
    map[x]@[y].blocked || blocking_object_at(objects, x, y)
}

fn set_empty(map: &mut TileMap, x: usize, y: usize)
    requires
        in_bounds(old(map)@, x as int, y as int),
    ensures
        same_shape(old(map)@, final(map)@),
        forall|i: int, j: int| #[trigger] in_bounds(old(map)@, i, j) ==> final(map)@[i]@[j] == (if i == x && j == y {
            Tile::spec_empty()
        } else {
            old(map)@[i]@[j]
        }),
{
    map[x][y] = Tile::empty();
}

/// A tile after the player looked at the map: a tile seen is explored from
/// then on.
pub open spec fn looked_at(t: Tile, seen: bool) -> Tile {
    Tile { explored: t.explored || seen, ..t }
}

/// Marks every tile the player sees as explored; nothing else changes.
pub fn mark_explored(map: &mut TileMap, fov: &FovGrid)
    ensures
        same_shape(old(map)@, final(map)@),
        forall|x: int, y: int| #[trigger] in_bounds(old(map)@, x, y) ==> final(map)@[x]@[y] == looked_at(
            old(map)@[x]@[y],
            in_fov(fov@, x, y),
        ),
{
    let mut x: usize = 0;
    while x < map.len()
        invariant
            x <= map@.len(),
            same_shape(old(map)@, map@),
            forall|i: int, j: int| #[trigger] in_bounds(old(map)@, i, j) ==> map@[i]@[j] == (if i < x {
                looked_at(old(map)@[i]@[j], in_fov(fov@, i, j))
            } else {
                old(map)@[i]@[j]
            }),
        decreases map@.len() - x,
    {
        let mut y: usize = 0;
        while y < map[x].len()
            invariant
                x < map@.len(),
                y <= map@[x as int]@.len(),
                same_shape(old(map)@, map@),
                forall|i: int, j: int| #[trigger] in_bounds(old(map)@, i, j) ==> map@[i]@[j] == (if i < x || (i == x && j < y) {
                    looked_at(old(map)@[i]@[j], in_fov(fov@, i, j))
                } else {
                    old(map)@[i]@[j]
                }),
            decreases map@[x as int]@.len() - y,
        {
            let seen = x < fov.len() && y < fov[x].len() && fov[x][y];
            let t = map[x][y];
            map[x][y] = Tile { explored: t.explored || seen, ..t };
            y = y + 1;
        }
        x = x + 1;
    }
}

/// Digs out the inside of a room: every tile strictly inside its walls
/// becomes empty floor; every other tile is unchanged.
pub fn create_room(room: Rect, map: &mut TileMap)
    requires
        room.x1 < i32::MAX,
        room.x1 + 1 < room.x2 ==> room.y1 < i32::MAX,
        room.x1 + 1 < room.x2 && room.y1 + 1 < room.y2 ==> {
            &&& 0 <= room.x1 + 1
            &&& room.x2 <= old(map)@.len()
            &&& 0 <= room.y1 + 1
            &&& forall|x: int| room.x1 < x < room.x2 ==> room.y2 <= (#[trigger] old(map)@[x])@.len()
        },
    ensures
        dug(old(map)@, final(map)@, |x: int, y: int| in_room(room, x, y)),
{
    if room.x1 + 1 >= room.x2 || room.y1 + 1 >= room.y2 {
        assert(dug(old(map)@, map@, |x: int, y: int| in_room(room, x, y)));
        return;
    }
    let mut x = room.x1 + 1;
    while x < room.x2
        invariant
            room.x1 < x <= room.x2,
            room.y1 + 1 < room.y2,
            0 <= room.x1 + 1,
            room.x2 <= old(map)@.len(),
            0 <= room.y1 + 1,
            forall|i: int| room.x1 < i < room.x2 ==> room.y2 <= (#[trigger] old(map)@[i])@.len(),
            dug(old(map)@, map@, |i: int, j: int| in_room(room, i, j) && i < x),
        decreases room.x2 - x,
    {
        let mut y = room.y1 + 1;
        while y < room.y2
            invariant
                room.x1 < x < room.x2,
                room.y1 < y <= room.y2,
                0 <= room.x1 + 1,
                room.x2 <= old(map)@.len(),
                0 <= room.y1 + 1,
                forall|i: int| room.x1 < i < room.x2 ==> room.y2 <= (#[trigger] old(map)@[i])@.len(),
                dug(old(map)@, map@, |i: int, j: int| in_room(room, i, j) && (i < x || (i == x && j < y))),
            decreases room.y2 - y,
        {
            let ghost prev = map@;
            assert(room.y2 <= old(map)@[x as int]@.len());
            set_empty(map, x as usize, y as usize);
            assert forall|i: int, j: int| #[trigger] in_bounds(old(map)@, i, j) implies map@[i]@[j] == (if in_room(room, i, j) && (i < x || (i == x && j < y + 1)) {
                Tile::spec_empty()
            } else {
                old(map)@[i]@[j]
            }) by {
                assert(in_bounds(prev, i, j));
            }
            y = y + 1;
        }
        x = x + 1;
    }
}

pub open spec fn min(a: int, b: int) -> int {
    if a < b { a } else { b }
}

pub open spec fn max(a: int, b: int) -> int {
    if a < b { b } else { a }
}

/// Digs a horizontal tunnel on row `y` from column `x1` to column `x2`, both
/// included; every other tile is unchanged.
pub fn create_h_tunnel(x1: i32, x2: i32, y: i32, map: &mut TileMap)
    requires
        max(x1 as int, x2 as int) < i32::MAX,
        0 <= min(x1 as int, x2 as int),
        max(x1 as int, x2 as int) < old(map)@.len(),
        0 <= y,
        forall|i: int| min(x1 as int, x2 as int) <= i <= max(x1 as int, x2 as int) ==> y < (#[trigger] old(map)@[i])@.len(),
    ensures
        dug(old(map)@, final(map)@, |i: int, j: int| j == y && min(x1 as int, x2 as int) <= i <= max(x1 as int, x2 as int)),
{
    let lo = if x1 < x2 { x1 } else { x2 };
    let hi = if x1 < x2 { x2 } else { x1 };
    let mut x = lo;
    while x < hi + 1
        invariant
            lo == min(x1 as int, x2 as int),
            hi == max(x1 as int, x2 as int),
            hi < i32::MAX,
            0 <= lo <= x <= hi + 1,
            hi < old(map)@.len(),
            0 <= y,
            forall|i: int| lo <= i <= hi ==> y < (#[trigger] old(map)@[i])@.len(),
            dug(old(map)@, map@, |i: int, j: int| j == y && lo <= i < x),
        decreases hi + 1 - x,
    {
        let ghost prev = map@;
        assert(y < old(map)@[x as int]@.len());
        set_empty(map, x as usize, y as usize);
        assert forall|i: int, j: int| #[trigger] in_bounds(old(map)@, i, j) implies map@[i]@[j] == (if j == y && lo <= i < x + 1 {
            Tile::spec_empty()
        } else {
            old(map)@[i]@[j]
        }) by {
            assert(in_bounds(prev, i, j));
        }
        x = x + 1;
    }
}

/// Digs a vertical tunnel in column `x` from row `y1` to row `y2`, both
/// included; every other tile is unchanged.
pub fn create_v_tunnel(y1: i32, y2: i32, x: i32, map: &mut TileMap)
    requires
        max(y1 as int, y2 as int) < i32::MAX,
        0 <= min(y1 as int, y2 as int),
        0 <= x < old(map)@.len(),
        max(y1 as int, y2 as int) < old(map)@[x as int]@.len(),
    ensures
        dug(old(map)@, final(map)@, |i: int, j: int| i == x && min(y1 as int, y2 as int) <= j <= max(y1 as int, y2 as int)),
{
    let lo = if y1 < y2 { y1 } else { y2 };
    let hi = if y1 < y2 { y2 } else { y1 };
    let mut y = lo;
    while y < hi + 1
        invariant
            lo == min(y1 as int, y2 as int),
            hi == max(y1 as int, y2 as int),
            hi < i32::MAX,
            0 <= lo <= y <= hi + 1,
            0 <= x < old(map)@.len(),
            hi < old(map)@[x as int]@.len(),
            dug(old(map)@, map@, |i: int, j: int| i == x && lo <= j < y),
        decreases hi + 1 - y,
    {
        let ghost prev = map@;
        set_empty(map, x as usize, y as usize);
        assert forall|i: int, j: int| #[trigger] in_bounds(old(map)@, i, j) implies map@[i]@[j] == (if i == x && lo <= j < y + 1 {
            Tile::spec_empty()
        } else {
            old(map)@[i]@[j]
        }) by {
            assert(in_bounds(prev, i, j));
        }
        y = y + 1;
    }
}

/// Whether `(x, y)` is blocked: by a blocking tile, or by an object that
/// blocks standing there.
pub fn is_blocked(x: i32, y: i32, map: &TileMap, objects: &[Object]) -> (b: bool)
    requires
        in_bounds(map@, x as int, y as int),
    ensures
        b == spec_is_blocked(map@, objects@, x as int, y as int),
{
    if map[x as usize][y as usize].blocked {
        return true;
    }
    let mut i: usize = 0;
    while i < objects.len()
        invariant
            i <= objects@.len(),
            forall|k: int| 0 <= k < i ==> !((#[trigger] objects@[k]).blocks && objects@[k].x == x && objects@[k].y == y),
        decreases objects@.len() - i,
    {
        if objects[i].blocks && objects[i].x == x && objects[i].y == y {
            assert(blocking_object_at(objects@, x as int, y as int)) by {
                assert(objects@[i as int].blocks);
            }
            return true;
        }
        i = i + 1;
    }
    false
}

/// The look, name and stats of each kind of monster: an orc, a troll, a
/// draco.
pub open spec fn monster_look(kind: int) -> (char, Color, Seq<char>, Fighter) {
    if kind == 0 {
        ('o', colors::spec_desaturated_green(), "orc"@, Fighter {
            base_max_hp: 20, hp: 20, base_power: 4, base_defense: 0, on_death: DeathCallback::Monster, xp: 35,
        })
    } else if kind == 1 {
        ('T', colors::spec_darker_green(), "troll"@, Fighter {
            base_max_hp: 30, hp: 16, base_power: 8, base_defense: 2, on_death: DeathCallback::Monster, xp: 100,
        })
    } else {
        ('d', colors::spec_dark_blue(), "draco"@, Fighter {
            base_max_hp: 25, hp: 25, base_power: 5, base_defense: 1, on_death: DeathCallback::Monster, xp: 65,
        })
    }
}

/// `o` is a living, blocking monster of the given kind, with basic
/// behaviour.
pub open spec fn is_monster(o: Object, kind: int) -> bool {
    let (c, color, name, f) = monster_look(kind);
    &&& spec_new_object(o.x, o.y, c, color, name, true, Object { alive: false, fighter: None, ai: None, ..o })
    &&& o.alive
    &&& o.fighter == Some(f)
    &&& o.ai == Some(Ai::Basic)
}

/// The kinds of items, in the order of the item table.
pub open spec fn item_kind(kind: int) -> Item {
    if kind == 0 { Item::Heal }
    else if kind == 1 { Item::Lightning }
    else if kind == 2 { Item::Fireball }
    else if kind == 3 { Item::Confuse }
    else if kind == 4 { Item::Sword }
    else { Item::Shield }
}

/// The look and name of each kind of item.
pub open spec fn item_look(kind: int) -> (char, Color, Seq<char>) {
    if kind == 0 { ('!', colors::spec_violet(), "healing potion"@) }
    else if kind == 1 { ('#', colors::spec_light_yellow(), "scroll of lightning bolt"@) }
    else if kind == 2 { ('#', colors::spec_orange(), "scroll of fireball"@) }
    else if kind == 3 { ('#', colors::spec_light_azure(), "scroll of confusion"@) }
    else if kind == 4 { ('/', colors::spec_sky(), "sword"@) }
    else { ('[', colors::spec_darker_orange(), "shield"@) }
}

/// The equipment an item of the given kind is, if any: a sword in the right
/// hand gives 3 power, a shield in the left hand gives 1 defense.
pub open spec fn item_equipment(kind: int) -> Option<Equipment> {
    if kind == 4 {
        Some(Equipment { equipped: false, slot: Slot::RightHand, power_bonus: 3, defense_bonus: 0, max_hp_bonus: 0 })
    } else if kind == 5 {
        Some(Equipment { equipped: false, slot: Slot::LeftHand, power_bonus: 0, defense_bonus: 1, max_hp_bonus: 0 })
    } else {
        None
    }
}

/// `o` is a freshly made item of the given kind (not yet always visible).
pub open spec fn is_item(o: Object, kind: int) -> bool {
    let (c, color, name) = item_look(kind);
    &&& spec_new_object(o.x, o.y, c, color, name, false, Object { item: None, equipment: None, ..o })
    &&& o.item == Some(item_kind(kind))
    &&& o.equipment == item_equipment(kind)
}

pub open spec fn max_monsters_table() -> Seq<Transition> {
    seq![Transition { level: 1, value: 2 }, Transition { level: 4, value: 3 }, Transition { level: 6, value: 5 }]
}

pub open spec fn troll_table() -> Seq<Transition> {
    seq![
        Transition { level: 2, value: 5 },
        Transition { level: 3, value: 15 },
        Transition { level: 5, value: 30 },
        Transition { level: 7, value: 60 },
    ]
}

pub open spec fn draco_table() -> Seq<Transition> {
    seq![
        Transition { level: 1, value: 5 },
        Transition { level: 3, value: 20 },
        Transition { level: 5, value: 60 },
        Transition { level: 7, value: 80 },
    ]
}

pub open spec fn max_items_table() -> Seq<Transition> {
    seq![Transition { level: 1, value: 1 }, Transition { level: 4, value: 2 }]
}

/// A table with a single row.
pub open spec fn from_level(level: u32, value: u32) -> Seq<Transition> {
    seq![Transition { level, value }]
}

/// The chances of an orc, a troll and a draco at a dungeon level.
pub open spec fn monster_weights(level: u32) -> Seq<u32> {
    seq![80u32, spec_from_dungeon_level(troll_table(), level), spec_from_dungeon_level(draco_table(), level)]
}

/// The chances of each kind of item at a dungeon level.
pub open spec fn item_weights(level: u32) -> Seq<u32> {
    seq![
        35u32,
        spec_from_dungeon_level(from_level(4, 25), level),
        spec_from_dungeon_level(from_level(4, 25), level),
        spec_from_dungeon_level(from_level(2, 10), level),
        spec_from_dungeon_level(from_level(4, 5), level),
        spec_from_dungeon_level(from_level(8, 15), level),
    ]
}

/// `o` is a monster of a kind that has a chance at this level.
pub open spec fn spawned_monster(o: Object, level: u32) -> bool {
    exists|kind: int| 0 <= kind < 3 && monster_weights(level)[kind] > 0 && #[trigger] is_monster(o, kind)
}

/// `o` is an always visible item of a kind that has a chance at this level.
pub open spec fn spawned_item(o: Object, level: u32) -> bool {
    &&& o.always_visible
    &&& exists|kind: int| 0 <= kind < 6 && item_weights(level)[kind] > 0 && #[trigger] is_item(unseen(o), kind)
}

/// The object as it was made, before being marked always visible.
pub open spec fn unseen(o: Object) -> Object {
    Object { always_visible: false, ..o }
}

/// The object at `k` stands inside `room`, on a tile that was free when it
/// was placed: not blocked by the map nor by any object before it.
pub open spec fn well_placed(map: Seq<Vec<Tile>>, room: Rect, objs: Seq<Object>, k: int) -> bool {
    &&& in_room(room, objs[k].x as int, objs[k].y as int)
    &&& !spec_is_blocked(map, objs.take(k), objs[k].x as int, objs[k].y as int)
}

/// The inside of `room` is not empty and lies on the map.
pub open spec fn room_on_map(room: Rect, map: Seq<Vec<Tile>>) -> bool {
    &&& room.x1 + 1 < room.x2
    &&& room.y1 + 1 < room.y2
    &&& forall|x: int, y: int| in_room(room, x, y) ==> #[trigger] in_bounds(map, x, y)
}

/// Makes a monster of the given kind at `(x, y)`.
pub fn new_monster(x: i32, y: i32, kind: usize) -> (o: Object)
    requires
        kind < 3,
    ensures
        is_monster(o, kind as int),
        o.x == x,
        o.y == y,
{
    let mut monster = if kind == 0 {
        let mut orc = Object::new(x, y, 'o', colors::desaturated_green(), "orc", true);
        orc.fighter = Some(Fighter {
            base_max_hp: 20, hp: 20, base_power: 4, base_defense: 0, on_death: DeathCallback::Monster, xp: 35,
        });
        orc.ai = Some(Ai::Basic);
        orc
    } else if kind == 1 {
        let mut troll = Object::new(x, y, 'T', colors::darker_green(), "troll", true);
        troll.fighter = Some(Fighter {
            base_max_hp: 30, hp: 16, base_power: 8, base_defense: 2, on_death: DeathCallback::Monster, xp: 100,
        });
        troll.ai = Some(Ai::Basic);
        troll
    } else {
        let mut draco = Object::new(x, y, 'd', colors::dark_blue(), "draco", true);
        draco.fighter = Some(Fighter {
            base_max_hp: 25, hp: 25, base_power: 5, base_defense: 1, on_death: DeathCallback::Monster, xp: 65,
        });
        draco.ai = Some(Ai::Basic);
        draco
    };
    monster.alive = true;
    monster
}

/// Makes an item of the given kind at `(x, y)`.
pub fn new_item(x: i32, y: i32, kind: usize) -> (o: Object)
    requires
        kind < 6,
    ensures
        is_item(o, kind as int),
        o.x == x,
        o.y == y,
{
    if kind == 0 {
        let mut object = Object::new(x, y, '!', colors::violet(), "healing potion", false);
        object.item = Some(Item::Heal);
        object
    } else if kind == 1 {
        let mut object = Object::new(x, y, '#', colors::light_yellow(), "scroll of lightning bolt", false);
        object.item = Some(Item::Lightning);
        object
    } else if kind == 2 {
        let mut object = Object::new(x, y, '#', colors::orange(), "scroll of fireball", false);
        object.item = Some(Item::Fireball);
        object
    } else if kind == 3 {
        let mut object = Object::new(x, y, '#', colors::light_azure(), "scroll of confusion", false);
        object.item = Some(Item::Confuse);
        object
    } else if kind == 4 {
        let mut object = Object::new(x, y, '/', colors::sky(), "sword", false);
        object.item = Some(Item::Sword);
        object.equipment = Some(Equipment {
            equipped: false, slot: Slot::RightHand, power_bonus: 3, defense_bonus: 0, max_hp_bonus: 0,
        });
        object
    } else {
        let mut object = Object::new(x, y, '[', colors::darker_orange(), "shield", false);
        object.item = Some(Item::Shield);
        object.equipment = Some(Equipment {
            equipped: false, slot: Slot::LeftHand, power_bonus: 0, defense_bonus: 1, max_hp_bonus: 0,
        });
        object
    }
}

/// `after` is `before` with monsters and then items placed in `room`: the
/// monsters are at `before.len()..m`, at most as many as the level allows,
/// and the items at `m..`, at most as many as the level allows; each stands
/// inside the room on a tile that was free, and is of a kind that has a
/// chance at this level.
pub open spec fn placed(
    map: Seq<Vec<Tile>>,
    room: Rect,
    level: u32,
    before: Seq<Object>,
    after: Seq<Object>,
    m: int,
) -> bool {
    &&& before.len() <= m <= after.len()
    &&& after.take(before.len() as int) == before
    &&& m - before.len() <= spec_from_dungeon_level(max_monsters_table(), level)
    &&& after.len() - m <= spec_from_dungeon_level(max_items_table(), level)
    &&& forall|k: int| before.len() <= k < m ==> well_placed(map, room, after, k) && spawned_monster(#[trigger] after[k], level)
    &&& forall|k: int| m <= k < after.len() ==> well_placed(map, room, after, k) && spawned_item(#[trigger] after[k], level)
}

pub proof fn lemma_from_dungeon_level_bound(table: Seq<Transition>, level: u32, bound: u32)
    requires
        forall|i: int| 0 <= i < table.len() ==> (#[trigger] table[i]).value <= bound,
    ensures
        spec_from_dungeon_level(table, level) <= bound,
    decreases table.len(),
{
    if table.len() > 0 {
        let rest = table.drop_last();
        assert forall|i: int| 0 <= i < rest.len() implies (#[trigger] rest[i]).value <= bound by {
            assert(rest[i] == table[i]);
        }
        lemma_from_dungeon_level_bound(rest, level, bound);
        assert(table.last() == table[table.len() - 1]);
    }
}

pub proof fn lemma_total_weight_bounds(s: Seq<u32>, bound: int)
    requires
        forall|i: int| 0 <= i < s.len() ==> #[trigger] s[i] <= bound,
    ensures
        0 <= total_weight(s) <= s.len() * bound,
        s.len() > 0 ==> total_weight(s) >= s[0],
    decreases s.len(),
{
    if s.len() > 0 {
        let rest = s.drop_last();
        assert forall|i: int| 0 <= i < rest.len() implies #[trigger] rest[i] <= bound by {
            assert(rest[i] == s[i]);
        }
        lemma_total_weight_bounds(rest, bound);
        assert(s.last() == s[s.len() - 1]);
        if rest.len() > 0 {
            assert(rest[0] == s[0]);
        }
        assert(s.len() * bound == rest.len() * bound + bound) by (nonlinear_arith)
            requires s.len() == rest.len() + 1;
    }
}

proof fn lemma_take_push(objs: Seq<Object>, o: Object, k: int)
    requires
        0 <= k <= objs.len(),
    ensures
        objs.push(o).take(k) == objs.take(k),
{
    assert(objs.push(o).take(k) =~= objs.take(k));
}

/// Whether a drawn kind has a chance at this level: a monster kind of the
/// monster table, or an item kind of the item table.
pub open spec fn kind_ok(level: u32, kind: int, items: bool) -> bool {
    if items {
        0 <= kind < 6 && item_weights(level)[kind] > 0
    } else {
        0 <= kind < 3 && monster_weights(level)[kind] > 0
    }
}

/// One draw `(x, y, kind)` placed: when the spot is free the object of the
/// drawn kind is added there (an item always visible), otherwise nothing
/// changes.
pub open spec fn draw_step(map: Seq<Vec<Tile>>, objs: Seq<Object>, objs2: Seq<Object>, d: (i32, i32, usize), items: bool) -> bool {
    if spec_is_blocked(map, objs, d.0 as int, d.1 as int) {
        objs2 == objs
    } else {
        &&& objs2.len() == objs.len() + 1
        &&& objs2.drop_last() == objs
        &&& objs2.last().x == d.0
        &&& objs2.last().y == d.1
        &&& if items {
            objs2.last().always_visible && is_item(unseen(objs2.last()), d.2 as int)
        } else {
            is_monster(objs2.last(), d.2 as int)
        }
    }
}

/// `after` is `before` with the draws placed one after the other.
pub open spec fn drawn_placed(map: Seq<Vec<Tile>>, before: Seq<Object>, after: Seq<Object>, draws: Seq<(i32, i32, usize)>, items: bool) -> bool {
    exists|states: Seq<Seq<Object>>| {
        &&& states.len() == draws.len() + 1
        &&& states[0] == before
        &&& states.last() == after
        &&& forall|i: int| 0 <= i < draws.len() ==> #[trigger] draw_step(map, states[i], states[i + 1], draws[i], items)
    }
}

/// Places drawn monsters (or items): for each draw in order, the object of
/// the drawn kind goes to the drawn spot if that spot is not blocked.
pub fn place_drawn(room: Rect, map: &TileMap, objects: &mut Vec<Object>, level: u32, draws: &Vec<(i32, i32, usize)>, items: bool)
    requires
        room_on_map(room, map@),
        forall|i: int| 0 <= i < draws@.len() ==> in_room(room, (#[trigger] draws@[i]).0 as int, draws@[i].1 as int)
            && kind_ok(level, draws@[i].2 as int, items),
    ensures
        drawn_placed(map@, old(objects)@, final(objects)@, draws@, items),
        old(objects)@.len() <= final(objects)@.len() <= old(objects)@.len() + draws@.len(),
        final(objects)@.take(old(objects)@.len() as int) == old(objects)@,
        forall|k: int| old(objects)@.len() <= k < final(objects)@.len() ==> well_placed(map@, room, final(objects)@, k)
            && (if items { spawned_item(#[trigger] final(objects)@[k], level) } else { spawned_monster(final(objects)@[k], level) }),
{
    let ghost start = objects@;
    let ghost mut states: Seq<Seq<Object>> = seq![objects@];
    let mut i: usize = 0;
    while i < draws.len()
        invariant
            room_on_map(room, map@),
            forall|j: int| 0 <= j < draws@.len() ==> in_room(room, (#[trigger] draws@[j]).0 as int, draws@[j].1 as int)
                && kind_ok(level, draws@[j].2 as int, items),
            i <= draws@.len(),
            start == old(objects)@,
            states.len() == i + 1,
            states[0] == start,
            states.last() == objects@,
            forall|j: int| 0 <= j < i ==> #[trigger] draw_step(map@, states[j], states[j + 1], draws@[j], items),
            start.len() <= objects@.len() <= start.len() + i,
            objects@.take(start.len() as int) == start,
            forall|k: int| start.len() <= k < objects@.len() ==> well_placed(map@, room, objects@, k)
                && (if items { spawned_item(#[trigger] objects@[k], level) } else { spawned_monster(objects@[k], level) }),
        decreases draws@.len() - i,
    {
        let (x, y, kind) = draws[i];
        assert(draws@[i as int] == (x, y, kind));
        assert(in_room(room, x as int, y as int));
        let ghost prev = objects@;
        if !is_blocked(x, y, map, objects) {
            if items {
                let mut item = new_item(x, y, kind);
                item.always_visible = true;
                objects.push(item);
                proof {
                    assert(is_item(unseen(objects@[prev.len() as int]), kind as int));
                    assert(kind_ok(level, kind as int, items));
                }
            } else {
                let monster = new_monster(x, y, kind);
                objects.push(monster);
                proof { assert(kind_ok(level, kind as int, items)); }
            }
            proof {
                let o = objects@.last();
                lemma_take_push(prev, o, start.len() as int);
                lemma_take_push(prev, o, prev.len() as int);
                assert(prev.take(prev.len() as int) =~= prev);
                assert(objects@.drop_last() =~= prev);
                assert(objects@[prev.len() as int] == o);
                assert forall|k: int| start.len() <= k < objects@.len() implies well_placed(map@, room, objects@, k)
                    && (if items { spawned_item(#[trigger] objects@[k], level) } else { spawned_monster(objects@[k], level) }) by {
                    if k < prev.len() {
                        lemma_take_push(prev, o, k);
                        assert(objects@[k] == prev[k]);
                    }
                }
            }
        }
        proof {
            let old_states = states;
            states = states.push(objects@);
            assert(draw_step(map@, prev, objects@, draws@[i as int], items));
            assert forall|j: int| 0 <= j < i + 1 implies #[trigger] draw_step(map@, states[j], states[j + 1], draws@[j], items) by {
                if j < i {
                    assert(states[j] == old_states[j]);
                    assert(states[j + 1] == old_states[j + 1]);
                }
            }
        }
        i = i + 1;
    }
}

/// The draws are spots inside `room` with kinds that have a chance at this
/// level.
pub open spec fn draws_ok(room: Rect, level: u32, draws: Seq<(i32, i32, usize)>, items: bool) -> bool {
    forall|i: int| 0 <= i < draws.len() ==> in_room(room, (#[trigger] draws[i]).0 as int, draws[i].1 as int)
        && kind_ok(level, draws[i].2 as int, items)
}

/// Places the monsters and items of a new room: up to the level's number of
/// monsters and then up to the level's number of items, each at a random
/// spot inside the room and of a kind drawn by the level's chances, placed
/// where the spot is not blocked. Items are always visible once seen.
pub fn place_objects(room: Rect, map: &TileMap, objects: &mut Vec<Object>, level: u32)
    requires
        room_on_map(room, map@),
    ensures
        exists|m: int| placed(map@, room, level, old(objects)@, final(objects)@, m),
        exists|monster_draws: Seq<(i32, i32, usize)>, item_draws: Seq<(i32, i32, usize)>, mid: Seq<Object>| {
            &&& monster_draws.len() <= spec_from_dungeon_level(max_monsters_table(), level)
            &&& item_draws.len() <= spec_from_dungeon_level(max_items_table(), level)
            &&& draws_ok(room, level, monster_draws, false)
            &&& draws_ok(room, level, item_draws, true)
            &&& #[trigger] drawn_placed(map@, old(objects)@, mid, monster_draws, false)
            &&& #[trigger] drawn_placed(map@, mid, final(objects)@, item_draws, true)
        },
{
    let table = vec![Transition { level: 1, value: 2 }, Transition { level: 4, value: 3 }, Transition { level: 6, value: 5 }];
    assert(table@ =~= max_monsters_table());
    let max_monsters = from_dungeon_level(&table, level);
    proof { lemma_from_dungeon_level_bound(max_monsters_table(), level, 5); }
    let num_monsters = random_range(0, max_monsters as i32 + 1);

    let table = vec![
        Transition { level: 2, value: 5 },
        Transition { level: 3, value: 15 },
        Transition { level: 5, value: 30 },
        Transition { level: 7, value: 60 },
    ];
    assert(table@ =~= troll_table());
    let troll_chance = from_dungeon_level(&table, level);
    let table = vec![
        Transition { level: 1, value: 5 },
        Transition { level: 3, value: 20 },
        Transition { level: 5, value: 60 },
        Transition { level: 7, value: 80 },
    ];
    assert(table@ =~= draco_table());
    let draco_chance = from_dungeon_level(&table, level);
    proof {
        lemma_from_dungeon_level_bound(troll_table(), level, 80);
        lemma_from_dungeon_level_bound(draco_table(), level, 80);
    }
    let monster_chances = vec![80u32, troll_chance, draco_chance];
    assert(monster_chances@ =~= monster_weights(level));
    proof { lemma_total_weight_bounds(monster_chances@, 80); }

    let mut monster_draws: Vec<(i32, i32, usize)> = Vec::new();
    let mut i: i32 = 0;
    while i < num_monsters
        invariant
            0 <= i <= num_monsters <= max_monsters + 1,
            room_on_map(room, map@),
            monster_chances@ == monster_weights(level),
            0 < total_weight(monster_chances@) <= u32::MAX,
            monster_draws@.len() == i,
            draws_ok(room, level, monster_draws@, false),
        decreases num_monsters - i,
    {
        let x = random_range(room.x1 + 1, room.x2);
        let y = random_range(room.y1 + 1, room.y2);
        let kind = weighted_index(&monster_chances);
        let ghost prev = monster_draws@;
        monster_draws.push((x, y, kind));
        proof {
            assert forall|j: int| 0 <= j < monster_draws@.len() implies in_room(room, (#[trigger] monster_draws@[j]).0 as int, monster_draws@[j].1 as int)
                && kind_ok(level, monster_draws@[j].2 as int, false) by {
                if j < prev.len() {
                    assert(monster_draws@[j] == prev[j]);
                }
            }
        }
        i = i + 1;
    }
    place_drawn(room, map, objects, level, &monster_draws, false);
    let ghost mid = objects@;

    let table = vec![Transition { level: 1, value: 1 }, Transition { level: 4, value: 2 }];
    assert(table@ =~= max_items_table());
    let max_items = from_dungeon_level(&table, level);
    proof { lemma_from_dungeon_level_bound(max_items_table(), level, 2); }
    let table = vec![Transition { level: 4, value: 25 }];
    assert(table@ =~= from_level(4, 25));
    let w1 = from_dungeon_level(&table, level);
    let w2 = from_dungeon_level(&table, level);
    let table = vec![Transition { level: 2, value: 10 }];
    assert(table@ =~= from_level(2, 10));
    let w3 = from_dungeon_level(&table, level);
    let table = vec![Transition { level: 4, value: 5 }];
    assert(table@ =~= from_level(4, 5));
    let w4 = from_dungeon_level(&table, level);
    let table = vec![Transition { level: 8, value: 15 }];
    assert(table@ =~= from_level(8, 15));
    let w5 = from_dungeon_level(&table, level);
    proof {
        lemma_from_dungeon_level_bound(from_level(4, 25), level, 25);
        lemma_from_dungeon_level_bound(from_level(2, 10), level, 10);
        lemma_from_dungeon_level_bound(from_level(4, 5), level, 5);
        lemma_from_dungeon_level_bound(from_level(8, 15), level, 15);
    }
    let item_chances = vec![35u32, w1, w2, w3, w4, w5];
    assert(item_chances@ =~= item_weights(level));
    proof { lemma_total_weight_bounds(item_chances@, 35); }
    let num_items = random_range(0, max_items as i32 + 1);

    let mut item_draws: Vec<(i32, i32, usize)> = Vec::new();
    let mut j: i32 = 0;
    while j < num_items
        invariant
            0 <= j <= num_items <= max_items + 1,
            room_on_map(room, map@),
            item_chances@ == item_weights(level),
            0 < total_weight(item_chances@) <= u32::MAX,
            item_draws@.len() == j,
            draws_ok(room, level, item_draws@, true),
        decreases num_items - j,
    {
        let x = random_range(room.x1 + 1, room.x2);
        let y = random_range(room.y1 + 1, room.y2);
        let kind = weighted_index(&item_chances);
        let ghost prev = item_draws@;
        item_draws.push((x, y, kind));
        proof {
            assert forall|k: int| 0 <= k < item_draws@.len() implies in_room(room, (#[trigger] item_draws@[k]).0 as int, item_draws@[k].1 as int)
                && kind_ok(level, item_draws@[k].2 as int, true) by {
                if k < prev.len() {
                    assert(item_draws@[k] == prev[k]);
                }
            }
        }
        j = j + 1;
    }
    place_drawn(room, map, objects, level, &item_draws, true);
    proof {
        let start = old(objects)@;
        let m = mid.len() as int;
        assert(objects@.take(start.len() as int) =~= mid.take(start.len() as int));
        assert forall|k: int| start.len() <= k < m implies well_placed(map@, room, objects@, k) && spawned_monster(#[trigger] objects@[k], level) by {
            assert(objects@.take(k) =~= mid.take(k));
            assert(objects@[k] == objects@.take(m)[k]);
        }
        assert(placed(map@, room, level, start, objects@, m));
        assert(drawn_placed(map@, mid, objects@, item_draws@, true));
    }
}

/// The map has `MAP_WIDTH` columns of `MAP_HEIGHT` tiles.
pub open spec fn map_wf(map: Seq<Vec<Tile>>) -> bool {
    &&& map.len() == MAP_WIDTH
    &&& forall|x: int| 0 <= x < map.len() ==> (#[trigger] map[x])@.len() == MAP_HEIGHT
}

/// Whether `(x, y)` lies inside the outer walls of the map.
pub open spec fn in_interior(x: int, y: int) -> bool {
    1 <= x < MAP_WIDTH - 1 && 1 <= y < MAP_HEIGHT - 1
}

/// Every tile on the edge of the map blocks.
pub open spec fn walled(map: Seq<Vec<Tile>>) -> bool {
    forall|x: int, y: int| #[trigger] in_bounds(map, x, y) && !in_interior(x, y) ==> map[x]@[y].blocked
}

/// The object stands on an empty tile inside the walls of the map.
pub open spec fn on_floor(map: Seq<Vec<Tile>>, o: Object) -> bool {
    &&& in_interior(o.x as int, o.y as int)
    &&& map[o.x as int]@[o.y as int] == Tile::spec_empty()
}

/// `o` is the stairs: an always visible, non-blocking white `<`.
pub open spec fn is_stairs(o: Object) -> bool {
    &&& spec_new_object(o.x, o.y, '<', colors::spec_white(), "stairs"@, false, Object { always_visible: false, ..o })
    &&& o.always_visible
}

/// A room as the map generator makes them: at least `ROOM_MIN_SIZE` wide and
/// high, with its walls on the map.
pub open spec fn room_ok(r: Rect) -> bool {
    &&& 0 <= r.x1
    &&& r.x2 < MAP_WIDTH
    &&& 0 <= r.y1
    &&& r.y2 < MAP_HEIGHT
    &&& r.x1 + ROOM_MIN_SIZE <= r.x2
    &&& r.y1 + ROOM_MIN_SIZE <= r.y2
}

/// Every tile inside the room is empty.
pub open spec fn room_dug(map: Seq<Vec<Tile>>, r: Rect) -> bool {
    forall|x: int, y: int| #[trigger] in_room(r, x, y) ==> map[x]@[y] == Tile::spec_empty()
}

pub proof fn lemma_dug(old: Seq<Vec<Tile>>, new: Seq<Vec<Tile>>, dig: spec_fn(int, int) -> bool)
    requires
        dug(old, new, dig),
        map_wf(old),
        forall|x: int, y: int| #[trigger] dig(x, y) ==> in_interior(x, y),
    ensures
        map_wf(new),
        walled(old) ==> walled(new),
        forall|x: int, y: int| in_bounds(old, x, y) && old[x]@[y] == Tile::spec_empty() ==> #[trigger] new[x]@[y] == Tile::spec_empty(),
        forall|x: int, y: int| in_bounds(old, x, y) && #[trigger] dig(x, y) ==> new[x]@[y] == Tile::spec_empty(),
{
    assert forall|x: int| 0 <= x < new.len() implies (#[trigger] new[x])@.len() == MAP_HEIGHT by {
        assert(new[x]@.len() == old[x]@.len());
    }
    if walled(old) {
        assert forall|x: int, y: int| #[trigger] in_bounds(new, x, y) && !in_interior(x, y) implies new[x]@[y].blocked by {
            assert(in_bounds(old, x, y));
            if dig(x, y) {}
        }
    }
    assert forall|x: int, y: int| in_bounds(old, x, y) && old[x]@[y] == Tile::spec_empty() implies #[trigger] new[x]@[y] == Tile::spec_empty() by {
        assert(in_bounds(old, x, y));
    }
    assert forall|x: int, y: int| in_bounds(old, x, y) && #[trigger] dig(x, y) implies new[x]@[y] == Tile::spec_empty() by {
        assert(in_bounds(old, x, y));
    }
}

proof fn lemma_center_in_room(r: Rect)
    requires
        room_ok(r),
    ensures
        r.spec_center().0 == (r.x1 + r.x2) / 2,
        r.spec_center().1 == (r.y1 + r.y2) / 2,
        r.x1 + 3 <= r.spec_center().0 <= r.x2 - 3,
        r.y1 + 3 <= r.spec_center().1 <= r.y2 - 3,
        in_room(r, r.spec_center().0, r.spec_center().1),
        in_interior(r.spec_center().0, r.spec_center().1),
{
}

/// Whether `(x, y)` lies on the L-shaped tunnel from the centre `p` of one
/// room to the centre `c` of the next: along the row of `p` then the column
/// of `c` when `horizontal_first`, else along the column of `p` then the row
/// of `c`.
pub open spec fn on_tunnel(p: (int, int), c: (int, int), horizontal_first: bool, x: int, y: int) -> bool {
    if horizontal_first {
        ||| (y == p.1 && min(p.0, c.0) <= x <= max(p.0, c.0))
        ||| (x == c.0 && min(p.1, c.1) <= y <= max(p.1, c.1))
    } else {
        ||| (x == p.0 && min(p.1, c.1) <= y <= max(p.1, c.1))
        ||| (y == c.1 && min(p.0, c.0) <= x <= max(p.0, c.0))
    }
}

/// Whether `(x, y)` is dug out by the rooms made so far: it lies inside one
/// of them, or on the tunnel that joins a room to the one before it (laid
/// out as the coin flip of that room chose).
pub open spec fn carved(rooms: Seq<Rect>, flips: Seq<bool>, x: int, y: int) -> bool
    decreases rooms.len(),
{
    if rooms.len() == 0 {
        false
    } else {
        let n = rooms.len() - 1;
        ||| carved(rooms.drop_last(), flips.drop_last(), x, y)
        ||| in_room(rooms[n], x, y)
        ||| (n > 0 && on_tunnel(rooms[n - 1].spec_center(), rooms[n].spec_center(), flips[n], x, y))
    }
}

/// Every tile of the map is floor where the rooms and tunnels are carved,
/// and wall everywhere else.
pub open spec fn map_carved(map: Seq<Vec<Tile>>, rooms: Seq<Rect>, flips: Seq<bool>) -> bool {
    forall|x: int, y: int| #[trigger] in_bounds(map, x, y) ==> map[x]@[y] == (if carved(rooms, flips, x, y) {
        Tile::spec_empty()
    } else {
        Tile::spec_wall()
    })
}

/// The layout of a level: between one and `MAX_ROOMS` rooms on the map, no
/// room overlapping an earlier one, each room joined to the one before by a
/// tunnel, and nothing else dug.
pub open spec fn level_layout(map: Seq<Vec<Tile>>, rooms: Seq<Rect>, flips: Seq<bool>) -> bool {
    &&& 1 <= rooms.len() <= MAX_ROOMS
    &&& flips.len() == rooms.len()
    &&& forall|i: int| 0 <= i < rooms.len() ==> room_ok(#[trigger] rooms[i])
    &&& forall|i: int, j: int| 0 <= i < j < rooms.len() ==> !(#[trigger] rooms[j]).spec_intersects(#[trigger] rooms[i])
    &&& map_carved(map, rooms, flips)
}

/// `o` stands inside one of the rooms.
pub open spec fn in_some_room(rooms: Seq<Rect>, o: Object) -> bool {
    exists|i: int| 0 <= i < rooms.len() && #[trigger] in_room(rooms[i], o.x as int, o.y as int)
}

/// The level is laid out as `make_map` builds it: rooms and tunnels as in
/// `level_layout`, the player at the centre of the first room, the stairs
/// (last) at the centre of the last room, and every monster and item in
/// between inside one of the rooms.
pub open spec fn level_laid_out(objs: Seq<Object>, map: Seq<Vec<Tile>>) -> bool {
    exists|rooms: Seq<Rect>, flips: Seq<bool>| {
        &&& #[trigger] level_layout(map, rooms, flips)
        &&& objs[PLAYER as int].x == rooms[0].spec_center().0
        &&& objs[PLAYER as int].y == rooms[0].spec_center().1
        &&& objs.last().x == rooms.last().spec_center().0
        &&& objs.last().y == rooms.last().spec_center().1
        &&& forall|k: int| PLAYER < k < objs.len() - 1 ==> in_some_room(rooms, #[trigger] objs[k])
    }
}

/// A new level for `player`: a full-size map walled all around; the player
/// (moved, nothing else changed) first, then monsters and items of kinds the
/// level allows, then the stairs last; everything stands on floor.
pub open spec fn level_made(player: Object, objs: Seq<Object>, map: Seq<Vec<Tile>>, level: u32) -> bool {
    &&& map_wf(map)
    &&& walled(map)
    &&& objs.len() >= 2
    &&& objs[PLAYER as int] == (Object { x: objs[PLAYER as int].x, y: objs[PLAYER as int].y, ..player })
    &&& forall|k: int| 0 <= k < objs.len() ==> on_floor(map, #[trigger] objs[k])
    &&& forall|k: int| PLAYER < k < objs.len() - 1 ==> spawned_monster(#[trigger] objs[k], level) || spawned_item(objs[k], level)
    &&& is_stairs(objs.last())
}

/// Builds the map of a new level: up to `MAX_ROOMS` rooms of random size and
/// place that do not overlap, each filled with monsters and items and joined
/// to the previous one by an L-shaped tunnel; the player is put in the centre
/// of the first room and the stairs in the centre of the last. Only the
/// player is kept of the objects given.
pub fn make_map(objects: &mut Vec<Object>, level: u32) -> (map: TileMap)
    requires
        old(objects)@.len() >= 1,
    ensures
        level_made(old(objects)@[PLAYER as int], final(objects)@, map@, level),
        level_laid_out(final(objects)@, map@),
{
    let mut map: TileMap = Vec::new();
    let mut cx: i32 = 0;
    while cx < MAP_WIDTH
        invariant
            0 <= cx <= MAP_WIDTH,
            map@.len() == cx,
            forall|x: int| 0 <= x < cx ==> (#[trigger] map@[x])@.len() == MAP_HEIGHT,
            forall|x: int, y: int| 0 <= x < cx && 0 <= y < MAP_HEIGHT ==> #[trigger] map@[x]@[y] == Tile::spec_wall(),
        decreases MAP_WIDTH - cx,
    {
        let mut column: Vec<Tile> = Vec::new();
        let mut cy: i32 = 0;
        while cy < MAP_HEIGHT
            invariant
                0 <= cy <= MAP_HEIGHT,
                column@.len() == cy,
                forall|y: int| 0 <= y < cy ==> #[trigger] column@[y] == Tile::spec_wall(),
            decreases MAP_HEIGHT - cy,
        {
            column.push(Tile::wall());
            cy = cy + 1;
        }
        map.push(column);
        cx = cx + 1;
    }
    assert(walled(map@));

    objects.truncate(1);
    let ghost player = old(objects)@[PLAYER as int];
    let mut rooms: Vec<Rect> = Vec::new();
    let ghost mut flips: Seq<bool> = seq![];
    assert(map_carved(map@, rooms@, flips));

    let mut n: i32 = 0;
    while n < MAX_ROOMS
        invariant
            0 <= n <= MAX_ROOMS,
            rooms@.len() <= n,
            flips.len() == rooms@.len(),
            map_carved(map@, rooms@, flips),
            forall|i: int, j: int| 0 <= i < j < rooms@.len() ==> !(#[trigger] rooms@[j]).spec_intersects(#[trigger] rooms@[i]),
            forall|k: int| PLAYER < k < objects@.len() ==> in_some_room(rooms@, #[trigger] objects@[k]),
            map_wf(map@),
            walled(map@),
            forall|i: int| 0 <= i < rooms@.len() ==> room_ok(#[trigger] rooms@[i]) && room_dug(map@, rooms@[i]),
            objects@.len() >= 1,
            objects@[PLAYER as int] == (Object { x: objects@[PLAYER as int].x, y: objects@[PLAYER as int].y, ..player }),
            rooms@.len() > 0 ==> objects@[PLAYER as int].x == rooms@[0].spec_center().0 && objects@[PLAYER as int].y == rooms@[0].spec_center().1,
            forall|k: int| PLAYER < k < objects@.len() ==> on_floor(map@, #[trigger] objects@[k]),
            forall|k: int| PLAYER < k < objects@.len() ==> spawned_monster(#[trigger] objects@[k], level) || spawned_item(objects@[k], level),
            rooms@.len() == 0 ==> objects@.len() == 1,
            n > 0 ==> rooms@.len() > 0,
        decreases MAX_ROOMS - n,
    {
        let w = random_range(ROOM_MIN_SIZE, ROOM_MAX_SIZE + 1);
        let h = random_range(ROOM_MIN_SIZE, ROOM_MAX_SIZE + 1);
        let x = random_range(0, MAP_WIDTH - w);
        let y = random_range(0, MAP_HEIGHT - h);
        let new_room = Rect::new(x, y, w, h);

        let mut failed = false;
        let mut i: usize = 0;
        while i < rooms.len()
            invariant
                i <= rooms@.len(),
                rooms@.len() == 0 ==> !failed,
                !failed ==> forall|k: int| 0 <= k < i ==> !new_room.spec_intersects(#[trigger] rooms@[k]),
            decreases rooms@.len() - i,
        {
            if new_room.intersects_with(&rooms[i]) {
                failed = true;
            }
            i = i + 1;
        }

        if !failed {
            let ghost map0 = map@;
            let ghost objs0 = objects@;
            create_room(new_room, &mut map);
            proof {
                lemma_dug(map0, map@, |i: int, j: int| in_room(new_room, i, j));
                assert(room_ok(new_room));
                assert forall|x: int, y: int| #[trigger] in_room(new_room, x, y) implies map@[x]@[y] == Tile::spec_empty() && in_bounds(map@, x, y) by {
                    assert(in_bounds(map0, x, y));
                }
                assert(room_dug(map@, new_room));
                assert(room_on_map(new_room, map@));
            }
            let ghost map1 = map@;
            place_objects(new_room, &map, objects, level);
            let ghost m = choose|m: int| placed(map1, new_room, level, objs0, objects@, m);
            proof {
                assert forall|k: int| PLAYER < k < objects@.len() implies on_floor(map@, #[trigger] objects@[k])
                    && (spawned_monster(objects@[k], level) || spawned_item(objects@[k], level)) by {
                    if k < objs0.len() {
                        assert(objects@[k] == objs0.take(objs0.len() as int)[k]);
                        assert(in_bounds(map0, objs0[k].x as int, objs0[k].y as int));
                    } else {
                        assert(well_placed(map1, new_room, objects@, k));
                        assert(in_room(new_room, objects@[k].x as int, objects@[k].y as int));
                        if k < m {
                            assert(spawned_monster(objects@[k], level));
                        } else {
                            assert(spawned_item(objects@[k], level));
                        }
                    }
                }
                assert(objects@[PLAYER as int] == objs0.take(objs0.len() as int)[PLAYER as int]);
                assert forall|i: int| 0 <= i < rooms@.len() implies room_ok(#[trigger] rooms@[i]) && room_dug(map@, rooms@[i]) by {
                    assert forall|x: int, y: int| #[trigger] in_room(rooms@[i], x, y) implies map@[x]@[y] == Tile::spec_empty() by {
                        assert(in_bounds(map0, x, y));
                    }
                }
                lemma_center_in_room(new_room);
                assert forall|k: int| objs0.len() <= k < objects@.len() implies in_room(new_room, (#[trigger] objects@[k]).x as int, objects@[k].y as int) by {
                    assert(well_placed(map1, new_room, objects@, k));
                }
                assert forall|k: int| PLAYER < k < objs0.len() implies #[trigger] objects@[k] == objs0[k] by {
                    assert(objects@[k] == objs0.take(objs0.len() as int)[k]);
                }
            }
            let ghost objs_placed = objects@;
            let (new_x, new_y) = new_room.center();
            let ghost mut flip = false;
            let ghost map_room = map@;

            if rooms.len() == 0 {
                objects[PLAYER].set_pos(new_x, new_y);
            } else {
                let (prev_x, prev_y) = rooms[rooms.len() - 1].center();
                proof { lemma_center_in_room(rooms@[rooms@.len() - 1]); }
                let ghost before = map@;
                let horizontal_first = random_bool();
                proof { flip = horizontal_first; }
                let ghost pc = (prev_x as int, prev_y as int);
                let ghost nc = (new_x as int, new_y as int);
                if horizontal_first {
                    create_h_tunnel(prev_x, new_x, prev_y, &mut map);
                    proof { lemma_dug(before, map@, |i: int, j: int| j == prev_y && min(prev_x as int, new_x as int) <= i <= max(prev_x as int, new_x as int)); }
                    let ghost mid = map@;
                    assert forall|x: int, y: int| in_bounds(before, x, y) && before[x]@[y] == Tile::spec_empty() implies #[trigger] mid[x]@[y] == Tile::spec_empty() && in_bounds(mid, x, y) by {}
                    create_v_tunnel(prev_y, new_y, new_x, &mut map);
                    proof { lemma_dug(mid, map@, |i: int, j: int| i == new_x && min(prev_y as int, new_y as int) <= j <= max(prev_y as int, new_y as int)); }
                    assert forall|x: int, y: int| #[trigger] in_bounds(before, x, y) implies in_bounds(map@, x, y) && map@[x]@[y] == (if on_tunnel(pc, nc, true, x, y) {
                        Tile::spec_empty()
                    } else {
                        before[x]@[y]
                    }) by {
                        assert(in_bounds(mid, x, y));
                    }
                } else {
                    create_v_tunnel(prev_y, new_y, prev_x, &mut map);
                    proof { lemma_dug(before, map@, |i: int, j: int| i == prev_x && min(prev_y as int, new_y as int) <= j <= max(prev_y as int, new_y as int)); }
                    let ghost mid = map@;
                    assert forall|x: int, y: int| in_bounds(before, x, y) && before[x]@[y] == Tile::spec_empty() implies #[trigger] mid[x]@[y] == Tile::spec_empty() && in_bounds(mid, x, y) by {}
                    create_h_tunnel(prev_x, new_x, new_y, &mut map);
                    proof { lemma_dug(mid, map@, |i: int, j: int| j == new_y && min(prev_x as int, new_x as int) <= i <= max(prev_x as int, new_x as int)); }
                    assert forall|x: int, y: int| #[trigger] in_bounds(before, x, y) implies in_bounds(map@, x, y) && map@[x]@[y] == (if on_tunnel(pc, nc, false, x, y) {
                        Tile::spec_empty()
                    } else {
                        before[x]@[y]
                    }) by {
                        assert(in_bounds(mid, x, y));
                    }
                }
                assert(pc == rooms@[rooms@.len() - 1].spec_center());
                assert(nc == new_room.spec_center());
                proof {
                    assert forall|k: int| PLAYER < k < objects@.len() implies on_floor(map@, #[trigger] objects@[k]) by {
                        assert(in_bounds(before, objects@[k].x as int, objects@[k].y as int));
                    }
                    assert forall|i: int| 0 <= i < rooms@.len() + 0 implies room_dug(map@, #[trigger] rooms@[i]) by {
                        assert forall|x: int, y: int| #[trigger] in_room(rooms@[i], x, y) implies map@[x]@[y] == Tile::spec_empty() by {
                            assert(in_bounds(before, x, y));
                        }
                    }
                    assert forall|x: int, y: int| #[trigger] in_room(new_room, x, y) implies map@[x]@[y] == Tile::spec_empty() by {
                        assert(in_bounds(before, x, y));
                        assert(before[x]@[y] == Tile::spec_empty());
                    }
                }
            }
            proof {
                let rs = rooms@.push(new_room);
                let fs = flips.push(flip);
                assert(rs.drop_last() =~= rooms@);
                assert(fs.drop_last() =~= flips);
                assert forall|x: int, y: int| #[trigger] in_bounds(map@, x, y) implies map@[x]@[y] == (if carved(rs, fs, x, y) {
                    Tile::spec_empty()
                } else {
                    Tile::spec_wall()
                }) by {
                    assert(in_bounds(map0, x, y));
                    assert(in_bounds(map_room, x, y));
                    assert(rs[rs.len() - 1] == new_room);
                    if rooms@.len() > 0 {
                        assert(rs[rs.len() - 2] == rooms@[rooms@.len() - 1]);
                    }
                }
                assert forall|i: int, j: int| 0 <= i < j < rs.len() implies !(#[trigger] rs[j]).spec_intersects(#[trigger] rs[i]) by {
                    if j == rooms@.len() {
                        assert(rs[i] == rooms@[i]);
                        assert(!new_room.spec_intersects(rooms@[i]));
                    } else {
                        assert(rs[i] == rooms@[i] && rs[j] == rooms@[j]);
                    }
                }
                assert forall|k: int| PLAYER < k < objects@.len() implies in_some_room(rs, #[trigger] objects@[k]) by {
                    assert(objects@[k] == objs_placed[k]);
                    if k < objs0.len() {
                        assert(objs_placed[k] == objs0[k]);
                        assert(in_some_room(rooms@, objs0[k]));
                        let i = choose|i: int| 0 <= i < rooms@.len() && #[trigger] in_room(rooms@[i], objs0[k].x as int, objs0[k].y as int);
                        assert(rs[i] == rooms@[i]);
                        assert(in_room(rs[i], objects@[k].x as int, objects@[k].y as int));
                    } else {
                        assert(in_room(new_room, objs_placed[k].x as int, objs_placed[k].y as int));
                        assert(rs[rooms@.len() as int] == new_room);
                        assert(in_room(rs[rooms@.len() as int], objects@[k].x as int, objects@[k].y as int));
                    }
                }
                flips = fs;
            }
            rooms.push(new_room);
        }
        n = n + 1;
    }

    let (last_room_x, last_room_y) = rooms[rooms.len() - 1].center();
    proof { lemma_center_in_room(rooms@[rooms@.len() - 1]); }
    let mut stairs = Object::new(last_room_x, last_room_y, '<', colors::white(), "stairs", false);
    stairs.always_visible = true;
    proof {
        lemma_center_in_room(rooms@[0]);
    }
    let ghost before_stairs = objects@;
    objects.push(stairs);
    assert(level_layout(map@, rooms@, flips));
    assert forall|k: int| PLAYER < k < objects@.len() - 1 implies in_some_room(rooms@, #[trigger] objects@[k]) by {
        assert(objects@[k] == before_stairs[k]);
    }
    map
}

} // verus!
