//! Moving objects around and the player's move-or-attack.
use vstd::prelude::*;
use crate::data::{Game, Object, TileMap};
use crate::mapping::{in_bounds, in_interior, is_blocked, map_wf, max, spec_is_blocked, walled};
use crate::object::{attack_is_ok, attack_ok, attack_result};
use crate::util::mut_two;
use crate::PLAYER;

verus! {

/// The objects after the one at `id` moved by `(dx, dy)`, if the tile there
/// is not blocked; otherwise unchanged.
pub open spec fn moved_by(objects: Seq<Object>, map: Seq<Vec<crate::data::Tile>>, id: int, dx: int, dy: int) -> Seq<Object> {
    let o = objects[id];
    if spec_is_blocked(map, objects, o.x + dx, o.y + dy) {
        objects
    } else {
        objects.update(id, Object { x: (o.x + dx) as i32, y: (o.y + dy) as i32, ..o })
    }
}

/// `(dx, dy)` leads from the object at `id` to a tile of the map.
pub open spec fn step_ok(objects: Seq<Object>, map: Seq<Vec<crate::data::Tile>>, id: int, dx: int, dy: int) -> bool {
    &&& 0 <= id < objects.len()
    &&& in_bounds(map, objects[id].x + dx, objects[id].y + dy)
    &&& objects[id].x + dx <= i32::MAX
    &&& objects[id].y + dy <= i32::MAX
}

/// Moves the object at `id` by `(dx, dy)` unless the tile there is blocked.
pub fn move_by(id: usize, dx: i32, dy: i32, objects: &mut [Object], game: &mut Game)
    requires
        step_ok(old(objects)@, old(game).map@, id as int, dx as int, dy as int),
    ensures
        final(objects)@ == moved_by(old(objects)@, old(game).map@, id as int, dx as int, dy as int),
        *final(game) == *old(game),
{
    let (x, y) = objects[id].pos();
    if !is_blocked(x + dx, y + dy, &game.map, objects) {
        objects[id].set_pos(x + dx, y + dy);
    }
}

/// The step, -1, 0 or 1, along an axis on which the target is `d` away when
/// it is `other` away along the other axis: the rounded component of the
/// unit vector toward the target.
pub open spec fn step_toward(d: int, other: int) -> int {
    if d != 0 && 3 * d * d >= other * other {
        if d > 0 { 1 } else { -1 }
    } else {
        0
    }
}

pub open spec fn abs(v: int) -> int {
    if v < 0 { -v } else { v }
}

/// -1, 0 or 1, as `v` is negative, zero or positive.
pub open spec fn sign(v: int) -> int {
    if v < 0 { -1 } else if v > 0 { 1 } else { 0 }
}

/// The step taken toward a target `(dx, dy)` away: for offsets of at most
/// 4096 tiles along each axis, the rounded components of the unit vector
/// toward the target (`step_toward`). Farther away, where the rounding of
/// 32-bit floats may differ, only this is stated: along each axis the step
/// is 0 or one tile toward the target, and it is one tile along the axis on
/// which the target is farthest (along both when they tie).
pub open spec fn toward_step(dx: int, dy: int, sx: int, sy: int) -> bool {
    if -4096 <= dx <= 4096 && -4096 <= dy <= 4096 {
        sx == step_toward(dx, dy) && sy == step_toward(dy, dx)
    } else {
        &&& sx == 0 || sx == sign(dx)
        &&& sy == 0 || sy == sign(dy)
        &&& abs(dx) >= abs(dy) ==> sx == sign(dx)
        &&& abs(dy) >= abs(dx) ==> sy == sign(dy)
    }
}

/// The rounded step along the axis on which the target is farthest is one
/// tile toward it.
proof fn lemma_step_toward_dominant(d: int, o: int)
    requires
        abs(d) >= abs(o),
    ensures
        step_toward(d, o) == sign(d),
{
    if d != 0 {
        assert(3 * d * d >= o * o) by (nonlinear_arith)
            requires abs(d) >= abs(o), d != 0, abs(d) == (if d < 0 { -d } else { d }), abs(o) == (if o < 0 { -o } else { o });
    }
}

/// A step toward a target never overshoots it along either axis and brings
/// the mover exactly one tile closer, counting distance as the larger of the
/// two axis offsets.
pub proof fn lemma_toward_step_closer(dx: int, dy: int, sx: int, sy: int)
    requires
        toward_step(dx, dy, sx, sy),
        !(dx == 0 && dy == 0),
    ensures
        abs(dx - sx) <= abs(dx),
        abs(dy - sy) <= abs(dy),
        max(abs(dx - sx), abs(dy - sy)) == max(abs(dx), abs(dy)) - 1,
{
    if abs(dx) >= abs(dy) {
        lemma_step_toward_dominant(dx, dy);
    }
    if abs(dy) >= abs(dx) {
        lemma_step_toward_dominant(dy, dx);
    }
}

/// The offset from the object at `id` to `(target_x, target_y)` can be
/// computed without overflow.
pub open spec fn toward_ok(objects: Seq<Object>, id: int, target_x: int, target_y: int) -> bool {
    let dx = target_x - objects[id].x;
    let dy = target_y - objects[id].y;
    &&& 0 <= id < objects.len()
    &&& i32::MIN <= dx <= i32::MAX
    &&& i32::MIN <= dy <= i32::MAX
    &&& dx * dx + dy * dy <= i32::MAX
}

/// Moves the object at `id` one step toward `(target_x, target_y)`: along
/// each axis by the rounded component of the unit vector toward the target.
pub fn move_toward(id: usize, target_x: i32, target_y: i32, objects: &mut [Object], game: &mut Game)
    requires
        toward_ok(old(objects)@, id as int, target_x as int, target_y as int),
        ({
            let o = old(objects)@[id as int];
            let dx = target_x - o.x;
            let dy = target_y - o.y;
            step_ok(old(objects)@, old(game).map@, id as int, step_toward(dx, dy), step_toward(dy, dx))
        }),
    ensures
        ({
            let o = old(objects)@[id as int];
            let dx = target_x - o.x;
            let dy = target_y - o.y;
            exists|sx: int, sy: int| #[trigger] toward_step(dx, dy, sx, sy)
                && final(objects)@ == moved_by(old(objects)@, old(game).map@, id as int, sx, sy)
        }),
        *final(game) == *old(game),
{
    let dx: i64 = target_x as i64 - objects[id].x as i64;
    let dy: i64 = target_y as i64 - objects[id].y as i64;
    assert(0 <= dx * dx) by (nonlinear_arith);
    assert(0 <= dy * dy) by (nonlinear_arith);
    let dx2: i64 = dx * dx;
    let dy2: i64 = dy * dy;
    assert(3 * dx * dx == 3 * (dx * dx)) by (nonlinear_arith);
    assert(3 * dy * dy == 3 * (dy * dy)) by (nonlinear_arith);
    let step_x: i32 = if dx != 0 && 3 * dx2 >= dy2 { if dx > 0 { 1 } else { -1 } } else { 0 };
    let step_y: i32 = if dy != 0 && 3 * dy2 >= dx2 { if dy > 0 { 1 } else { -1 } } else { 0 };
    move_by(id, step_x, step_y, objects, game);
    proof {
        if abs(dx as int) >= abs(dy as int) {
            lemma_step_toward_dominant(dx as int, dy as int);
        }
        if abs(dy as int) >= abs(dx as int) {
            lemma_step_toward_dominant(dy as int, dx as int);
        }
    }
    assert(toward_step(dx as int, dy as int, step_x as int, step_y as int));
}

/// Whether `o` can be attacked at `(x, y)`: it is a fighter standing there.
pub open spec fn fighter_at(o: Object, x: int, y: int) -> bool {
    o.fighter is Some && o.x == x && o.y == y
}

/// The index of the first fighter standing at `(x, y)`, if any.
pub open spec fn first_fighter_at(objects: Seq<Object>, x: int, y: int) -> Option<int>
    decreases objects.len(),
{
    if objects.len() == 0 {
        None
    } else {
        match first_fighter_at(objects.drop_last(), x, y) {
            Some(i) => Some(i),
            None => if fighter_at(objects.last(), x, y) { Some(objects.len() - 1) } else { None },
        }
    }
}

pub proof fn lemma_first_fighter_at(objects: Seq<Object>, x: int, y: int)
    ensures
        first_fighter_at(objects, x, y) matches Some(i) ==> {
            &&& 0 <= i < objects.len()
            &&& fighter_at(objects[i], x, y)
            &&& forall|k: int| 0 <= k < i ==> !fighter_at(#[trigger] objects[k], x, y)
        },
        first_fighter_at(objects, x, y) is None ==> forall|k: int| 0 <= k < objects.len() ==> !fighter_at(#[trigger] objects[k], x, y),
    decreases objects.len(),
{
    if objects.len() > 0 {
        let rest = objects.drop_last();
        lemma_first_fighter_at(rest, x, y);
        assert(objects.last() == objects[objects.len() - 1]);
        assert forall|k: int| 0 <= k < rest.len() implies #[trigger] rest[k] == objects[k] by {}
        match first_fighter_at(rest, x, y) {
            Some(i) => {
                assert(rest[i] == objects[i]);
                assert forall|k: int| 0 <= k < i implies !fighter_at(#[trigger] objects[k], x, y) by {
                    assert(rest[k] == objects[k]);
                }
            },
            None => {
                assert forall|k: int| 0 <= k < rest.len() implies !fighter_at(#[trigger] objects[k], x, y) by {
                    assert(rest[k] == objects[k]);
                }
            },
        }
    }
}

/// Finds the first fighter standing at `(x, y)`.
pub fn fighter_index_at(objects: &[Object], x: i32, y: i32) -> (r: Option<usize>)
    ensures
        r matches Some(i) ==> first_fighter_at(objects@, x as int, y as int) == Some(i as int),
        r is None ==> first_fighter_at(objects@, x as int, y as int) is None,
{
    proof { lemma_first_fighter_at(objects@, x as int, y as int); }
    let mut i: usize = 0;
    while i < objects.len()
        invariant
            i <= objects@.len(),
            forall|k: int| 0 <= k < i ==> !fighter_at(#[trigger] objects@[k], x as int, y as int),
        decreases objects@.len() - i,
    {
        if objects[i].fighter.is_some() && objects[i].x == x && objects[i].y == y {
            proof {
                lemma_first_fighter_at(objects@, x as int, y as int);
                if first_fighter_at(objects@, x as int, y as int) != Some(i as int) {
                    assert(fighter_at(objects@[i as int], x as int, y as int));
                }
            }
            return Some(i);
        }
        i = i + 1;
    }
    None
}

/// The player can move by `(dx, dy)` or attack there without overflow or
/// failure.
pub open spec fn move_or_attack_ok(objs: Seq<Object>, g: Game, dx: int, dy: int) -> bool {
    &&& objs.len() > PLAYER
    &&& i32::MIN <= objs[PLAYER as int].x + dx <= i32::MAX
    &&& i32::MIN <= objs[PLAYER as int].y + dy <= i32::MAX
    &&& ({
        let p = objs[PLAYER as int];
        match first_fighter_at(objs, p.x + dx, p.y + dy) {
            Some(t) => t != PLAYER && attack_ok(p, objs[t], g.inventory@),
            None => step_ok(objs, g.map@, PLAYER as int, dx, dy),
        }
    })
}

/// Whether `(dx, dy)` leads from the object at `id` to a tile of the map.
pub fn step_is_ok(objects: &[Object], map: &TileMap, id: usize, dx: i32, dy: i32) -> (b: bool)
    ensures
        b == step_ok(objects@, map@, id as int, dx as int, dy as int),
{
    if id >= objects.len() {
        return false;
    }
    let x: i64 = objects[id].x as i64 + dx as i64;
    let y: i64 = objects[id].y as i64 + dy as i64;
    if x < 0 || y < 0 || x > i32::MAX as i64 || y > i32::MAX as i64 {
        return false;
    }
    if x as usize >= map.len() {
        return false;
    }
    (y as usize) < map[x as usize].len()
}

/// Whether the player can move by `(dx, dy)` or attack there without
/// overflow or failure.
pub fn move_or_attack_is_ok(objects: &[Object], game: &Game, dx: i32, dy: i32) -> (b: bool)
    ensures
        b == move_or_attack_ok(objects@, *game, dx as int, dy as int),
{
    if objects.len() == 0 {
        return false;
    }
    let x: i64 = objects[PLAYER].x as i64 + dx as i64;
    let y: i64 = objects[PLAYER].y as i64 + dy as i64;
    if x < i32::MIN as i64 || y < i32::MIN as i64 || x > i32::MAX as i64 || y > i32::MAX as i64 {
        return false;
    }
    match fighter_index_at(objects, x as i32, y as i32) {
        Some(t) => {
            proof { lemma_first_fighter_at(objects@, x as int, y as int); }
            t != PLAYER && attack_is_ok(&objects[PLAYER], &objects[t], game)
        },
        None => step_is_ok(objects, &game.map, PLAYER, dx, dy),
    }
}

/// The player attacks the first fighter on the tile at `(dx, dy)` from it,
/// or moves there when there is none (and the tile is free).
pub open spec fn move_or_attack_outcome(objs: Seq<Object>, g: Game, dx: int, dy: int, objs2: Seq<Object>, g2: Game) -> bool {
    let p = objs[PLAYER as int];
    match first_fighter_at(objs, p.x + dx, p.y + dy) {
        Some(t) => {
            &&& objs2.len() == objs.len()
            &&& forall|k: int| 0 <= k < objs.len() && k != PLAYER && k != t ==> objs2[k] == objs[k]
            &&& g.same_but_log(g2)
            &&& attack_result(p, objs[t], g.inventory@, objs2[PLAYER as int], objs2[t], g.messages(), g2.messages())
        },
        None => {
            &&& objs2 == moved_by(objs, g.map@, PLAYER as int, dx, dy)
            &&& g2 == g
        },
    }
}

/// The player moves by `(dx, dy)`, or attacks the first fighter standing
/// on the tile there.
pub fn player_move_or_attack(dx: i32, dy: i32, objects: &mut [Object], game: &mut Game)
    requires
        move_or_attack_ok(old(objects)@, *old(game), dx as int, dy as int),
    ensures
        move_or_attack_outcome(old(objects)@, *old(game), dx as int, dy as int, final(objects)@, *final(game)),
{
    let x = objects[PLAYER].x + dx;
    let y = objects[PLAYER].y + dy;
    let target_id = fighter_index_at(objects, x, y);
    match target_id {
        Some(target_id) => {
            proof { lemma_first_fighter_at(old(objects)@, x as int, y as int); }
            let (player, target) = mut_two(PLAYER, target_id, objects);
            player.attack(target, game);
        },
        None => {
            move_by(PLAYER, dx, dy, objects, game);
        },
    }
}

/// Every object stands inside the walls of the map.
pub open spec fn objects_inside(objs: Seq<Object>) -> bool {
    forall|k: int| 0 <= k < objs.len() ==> in_interior((#[trigger] objs[k]).x as int, objs[k].y as int)
}

/// The map has its full size and its edge blocks, and every object stands
/// inside its walls.
pub open spec fn world_ok(objs: Seq<Object>, map: Seq<Vec<crate::data::Tile>>) -> bool {
    &&& map_wf(map)
    &&& walled(map)
    &&& objects_inside(objs)
}

/// In a sound world every object can try to step to any neighbouring tile,
/// and can walk toward any object.
pub proof fn lemma_steps_ok(objs: Seq<Object>, map: Seq<Vec<crate::data::Tile>>, id: int)
    requires
        world_ok(objs, map),
        0 <= id < objs.len(),
    ensures
        forall|dx: int, dy: int| -1 <= dx <= 1 && -1 <= dy <= 1 ==> #[trigger] step_ok(objs, map, id, dx, dy),
        forall|t: int| 0 <= t < objs.len() ==> toward_ok(objs, id, #[trigger] objs[t].x as int, objs[t].y as int),
{
    assert(in_interior(objs[id].x as int, objs[id].y as int));
    assert forall|dx: int, dy: int| -1 <= dx <= 1 && -1 <= dy <= 1 implies #[trigger] step_ok(objs, map, id, dx, dy) by {
        assert(map[objs[id].x + dx]@.len() == crate::MAP_HEIGHT);
    }
    assert forall|t: int| 0 <= t < objs.len() implies toward_ok(objs, id, #[trigger] objs[t].x as int, objs[t].y as int) by {
        assert(in_interior(objs[t].x as int, objs[t].y as int));
        let dx = objs[t].x - objs[id].x;
        let dy = objs[t].y - objs[id].y;
        assert(dx * dx <= 80 * 80) by (nonlinear_arith) requires -80 <= dx <= 80;
        assert(dy * dy <= 80 * 80) by (nonlinear_arith) requires -80 <= dy <= 80;
    }
}

/// A move keeps the world sound, changes only the position of the object
/// moved, and keeps every object.
pub proof fn lemma_moved_by(objs: Seq<Object>, map: Seq<Vec<crate::data::Tile>>, id: int, dx: int, dy: int)
    requires
        world_ok(objs, map),
        step_ok(objs, map, id, dx, dy),
    ensures
        world_ok(moved_by(objs, map, id, dx, dy), map),
        moved_by(objs, map, id, dx, dy).len() == objs.len(),
        forall|k: int| 0 <= k < objs.len() && k != id ==> #[trigger] moved_by(objs, map, id, dx, dy)[k] == objs[k],
        ({
            let n = moved_by(objs, map, id, dx, dy)[id];
            n == (Object { x: n.x, y: n.y, ..objs[id] })
        }),
{
    let o = objs[id];
    if !spec_is_blocked(map, objs, o.x + dx, o.y + dy) {
        let n = moved_by(objs, map, id, dx, dy);
        assert(in_bounds(map, o.x + dx, o.y + dy));
        assert forall|k: int| 0 <= k < n.len() implies in_interior((#[trigger] n[k]).x as int, n[k].y as int) by {
            if k == id {
                assert(!map[o.x + dx]@[o.y + dy].blocked);
            } else {
                assert(n[k] == objs[k]);
            }
        }
    }
}

/// A move by `(dx, dy)` changes nothing but the position of the object
/// moved: it lands exactly `(dx, dy)` away when that tile is free of
/// blocking tiles and blocking objects, and stays put otherwise.
pub proof fn lemma_move_effect(objs: Seq<Object>, map: Seq<Vec<crate::data::Tile>>, id: int, dx: int, dy: int)
    requires
        0 <= id < objs.len(),
        i32::MIN <= objs[id].x + dx <= i32::MAX,
        i32::MIN <= objs[id].y + dy <= i32::MAX,
    ensures
        ({
            let o = objs[id];
            let n = moved_by(objs, map, id, dx, dy);
            let free = !map[o.x + dx]@[o.y + dy].blocked
                && forall|k: int| 0 <= k < objs.len() ==> !((#[trigger] objs[k]).blocks && objs[k].x == o.x + dx && objs[k].y == o.y + dy);
            &&& n.len() == objs.len()
            &&& forall|k: int| 0 <= k < objs.len() && k != id ==> n[k] == objs[k]
            &&& n[id] == (Object { x: n[id].x, y: n[id].y, ..o })
            &&& free ==> n[id].x == o.x + dx && n[id].y == o.y + dy
            &&& !free ==> n == objs
        }),
{
}

} // verus!
