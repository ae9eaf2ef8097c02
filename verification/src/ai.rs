//! How monsters act on their turn.
use vstd::prelude::*;
use crate::colors;
use crate::data::{add_message, Ai, Game, Object};
use crate::movement::{abs, lemma_moved_by, lemma_steps_ok, move_by, move_toward, moved_by, step_is_ok, step_ok, step_toward, toward_ok, toward_step, world_ok};
use crate::object::{attack_is_ok, item_bounded, attack_ok, attack_result, gain_xp, hurt, inventory_ok, lemma_attack_ok, object_within, objects_within, remains, kills, attack_damage};
use crate::STAT_LIMIT;
use crate::rng::random_range;
use crate::spellcasting::same_except;
use crate::targeting::{dist2, in_fov, is_in_fov, FovGrid};
use crate::text::push_str;
use crate::util::mut_two;
use crate::PLAYER;

verus! {

/// Whether the monster at `id` would attack the player: it is in view,
/// next to the player, and the player fights on with hit points left.
pub open spec fn attacks_player(objs: Seq<Object>, fov: Seq<Vec<bool>>, id: int) -> bool {
    let m = objs[id];
    let p = objs[PLAYER as int];
    &&& in_fov(fov, m.x as int, m.y as int)
    &&& dist2(m, p) < 4
    &&& p.fighter matches Some(f) && f.hp > 0
}

/// What a monster with basic behaviour does: when the player sees it, it
/// walks toward the player if two or more tiles away, else it attacks the
/// player if the player still fights; out of view it does nothing.
pub open spec fn basic_outcome(id: int, objs: Seq<Object>, g: Game, fov: Seq<Vec<bool>>, objs2: Seq<Object>, g2: Game) -> bool {
    let m = objs[id];
    let p = objs[PLAYER as int];
    if !in_fov(fov, m.x as int, m.y as int) {
        objs2 == objs && g2 == g
    } else if dist2(m, p) >= 4 {
        let dx = p.x - m.x;
        let dy = p.y - m.y;
        &&& exists|sx: int, sy: int| #[trigger] toward_step(dx, dy, sx, sy) && objs2 == moved_by(objs, g.map@, id, sx, sy)
        &&& g2 == g
    } else if p.fighter matches Some(f) && f.hp > 0 {
        &&& same_except(objs, objs2, id, PLAYER as int)
        &&& g.same_but_log(g2)
        &&& attack_result(m, p, g.inventory@, objs2[id], objs2[PLAYER as int], g.messages(), g2.messages())
    } else {
        objs2 == objs && g2 == g
    }
}

/// A monster with basic behaviour can act without overflow or failure: the
/// step toward a player in view two or more tiles away leads onto the map,
/// and an attack on the player is computable.
pub open spec fn basic_ok(id: int, objs: Seq<Object>, g: Game, fov: Seq<Vec<bool>>) -> bool {
    let m = objs[id];
    let p = objs[PLAYER as int];
    let dx = p.x - m.x;
    let dy = p.y - m.y;
    &&& 0 <= id < objs.len()
    &&& objs.len() > PLAYER
    &&& in_fov(fov, m.x as int, m.y as int) && dist2(m, p) >= 4 ==> {
        &&& toward_ok(objs, id, p.x as int, p.y as int)
        &&& step_ok(objs, g.map@, id, step_toward(dx, dy), step_toward(dy, dx))
    }
    &&& attacks_player(objs, fov, id) ==> id != PLAYER && attack_ok(objs[id], objs[PLAYER as int], g.inventory@)
}

/// Every step of at most one tile from the object at `id` leads onto the map.
pub open spec fn neighbours_ok(objs: Seq<Object>, map: Seq<Vec<crate::data::Tile>>, id: int) -> bool {
    forall|dx: int, dy: int| -1 <= dx <= 1 && -1 <= dy <= 1 ==> #[trigger] step_ok(objs, map, id, dx, dy)
}

/// The turn of a monster with basic behaviour; it keeps that behaviour.
pub fn ai_basic(monster_id: usize, objects: &mut [Object], game: &mut Game, fov: &FovGrid) -> (ai: Ai)
    requires
        basic_ok(monster_id as int, old(objects)@, *old(game), fov@),
    ensures
        ai == Ai::Basic,
        basic_outcome(monster_id as int, old(objects)@, *old(game), fov@, final(objects)@, *final(game)),
{
    let (monster_x, monster_y) = objects[monster_id].pos();
    if is_in_fov(fov, monster_x, monster_y) {
        let d = objects[monster_id].distance_squared(objects[PLAYER].x, objects[PLAYER].y);
        if d >= 4 {
            let (player_x, player_y) = objects[PLAYER].pos();
            move_toward(monster_id, player_x, player_y, objects, game);
        } else {
            let player_fights = match objects[PLAYER].fighter {
                Some(f) => f.hp > 0,
                None => false,
            };
            if player_fights {
                let (monster, player) = mut_two(monster_id, PLAYER, objects);
                monster.attack(player, game);
            }
        }
    }
    Ai::Basic
}

pub open spec fn stumble_text(name: Seq<char>) -> Seq<char> {
    "The "@ + name + " stumbles around in a daze!"@
}

pub open spec fn unconfused_text(name: Seq<char>) -> Seq<char> {
    "The "@ + name + " is no longer confused."@
}

/// The turn of a confused monster: while turns remain it stumbles one step
/// in a random direction (or stays) and has one turn less; after that it
/// comes back to its previous behaviour.
pub fn ai_confused(monster_id: usize, previous_ai: Box<Ai>, num_turns: i32, objects: &mut [Object], game: &mut Game) -> (ai: Ai)
    requires
        monster_id < old(objects)@.len(),
        num_turns >= 0 ==> neighbours_ok(old(objects)@, old(game).map@, monster_id as int),
    ensures
        old(game).same_but_log(*final(game)),
        num_turns >= 0 ==> {
            &&& ai == (Ai::Confused { previous_ai, num_turns: (num_turns - 1) as i32 })
            &&& exists|dx: int, dy: int| -1 <= dx <= 1 && -1 <= dy <= 1
                && final(objects)@ == #[trigger] moved_by(old(objects)@, old(game).map@, monster_id as int, dx, dy)
            &&& final(game).messages() == old(game).messages().push(
                (stumble_text(old(objects)@[monster_id as int].name@), colors::spec_red()),
            )
        },
        num_turns < 0 ==> {
            &&& ai == *previous_ai
            &&& final(objects)@ == old(objects)@
            &&& final(game).messages() == old(game).messages().push(
                (unconfused_text(old(objects)@[monster_id as int].name@), colors::spec_red()),
            )
        },
{
    if num_turns >= 0 {
        let mut msg = String::new();
        push_str(&mut msg, "The ");
        push_str(&mut msg, objects[monster_id].name.as_str());
        push_str(&mut msg, " stumbles around in a daze!");
        add_message(&mut game.log, msg, colors::red());
        let dx = random_range(-1, 2);
        let dy = random_range(-1, 2);
        proof {
            assert(crate::movement::step_ok(objects@, game.map@, monster_id as int, dx as int, dy as int));
        }
        move_by(monster_id, dx, dy, objects, game);
        Ai::Confused { previous_ai, num_turns: num_turns - 1 }
    } else {
        let mut msg = String::new();
        push_str(&mut msg, "The ");
        push_str(&mut msg, objects[monster_id].name.as_str());
        push_str(&mut msg, " is no longer confused.");
        add_message(&mut game.log, msg, colors::red());
        *previous_ai
    }
}

/// An object with a behaviour is a monster that fights and dies as one.
pub open spec fn monster_ok(o: Object) -> bool {
    o.ai is Some ==> (o.fighter matches Some(f) && f.on_death == crate::data::DeathCallback::Monster)
}

/// What holds of the game between turns, with stats bounded by `limit`:
/// the world is sound, the inventory is valid, the player has no behaviour
/// and fights while alive, every object with a behaviour fights, every
/// equipment bonus is bounded, and no stat, level or dungeon level is so
/// large that a turn could overflow.
pub open spec fn play_inv(objs: Seq<Object>, g: Game, limit: int) -> bool {
    &&& objs.len() > PLAYER
    &&& world_ok(objs, g.map@)
    &&& inventory_ok(g.inventory@)
    &&& objs[PLAYER as int].ai is None
    &&& forall|k: int| 0 <= k < objs.len() ==> monster_ok(#[trigger] objs[k])
    &&& forall|k: int| 0 <= k < objs.len() ==> item_bounded(#[trigger] objs[k])
    &&& objs[PLAYER as int].alive ==> objs[PLAYER as int].fighter is Some
    &&& objects_within(objs, 2 * limit)
    &&& objs[PLAYER as int].fighter is Some ==> objects_within(objs, limit)
    &&& 0 <= objs[PLAYER as int].level <= limit
    &&& g.dungeon_level <= limit
}

/// What holds with a bound on the stats holds with twice the bound.
pub proof fn lemma_play_inv_grows(objs: Seq<Object>, g: Game)
    requires
        play_inv(objs, g, STAT_LIMIT as int),
    ensures
        play_inv(objs, g, 2 * STAT_LIMIT),
{
    assert forall|k: int| 0 <= k < objs.len() implies object_within(#[trigger] objs[k], 4 * STAT_LIMIT) && object_within(objs[k], 2 * STAT_LIMIT) by {
        assert(object_within(objs[k], 2 * STAT_LIMIT));
    }
}

/// The objects with the one at `id` given the behaviour `ai`.
pub open spec fn with_ai(objs: Seq<Object>, id: int, ai: Option<Ai>) -> Seq<Object> {
    objs.update(id, Object { ai, ..objs[id] })
}

/// What the turn of the monster at `id` does, by its behaviour.
pub open spec fn turn_outcome(id: int, objs: Seq<Object>, g: Game, fov: Seq<Vec<bool>>, objs2: Seq<Object>, g2: Game) -> bool {
    let t = with_ai(objs, id, None);
    match objs[id].ai {
        None => objs2 == objs && g2 == g,
        Some(Ai::Basic) => exists|mid: Seq<Object>|
            #[trigger] basic_outcome(id, t, g, fov, mid, g2) && objs2 == with_ai(mid, id, Some(Ai::Basic)),
        Some(Ai::Confused { previous_ai, num_turns }) => if num_turns >= 0 {
            &&& g.same_but_log(g2)
            &&& g2.messages() == g.messages().push((stumble_text(objs[id].name@), colors::spec_red()))
            &&& exists|dx: int, dy: int| -1 <= dx <= 1 && -1 <= dy <= 1
                && objs2 == with_ai(#[trigger] moved_by(t, g.map@, id, dx, dy), id, Some(Ai::Confused { previous_ai, num_turns: (num_turns - 1) as i32 }))
        } else {
            &&& g.same_but_log(g2)
            &&& g2.messages() == g.messages().push((unconfused_text(objs[id].name@), colors::spec_red()))
            &&& objs2 == with_ai(objs, id, Some(*previous_ai))
        },
    }
}

/// A monster can take its turn without overflow or failure.
pub open spec fn take_turn_ok(id: int, objs: Seq<Object>, g: Game, fov: Seq<Vec<bool>>) -> bool {
    &&& 0 <= id < objs.len()
    &&& objs.len() > PLAYER
    &&& match objs[id].ai {
        Some(Ai::Basic) => basic_ok(id, with_ai(objs, id, None), g, fov),
        Some(Ai::Confused { num_turns, .. }) => num_turns >= 0 ==> neighbours_ok(objs, g.map@, id),
        None => true,
    }
}

fn neighbours_are_ok(objects: &[Object], map: &crate::data::TileMap, id: usize) -> (b: bool)
    ensures
        b == neighbours_ok(objects@, map@, id as int),
{
    let mut dx: i32 = -1;
    while dx <= 1
        invariant
            -1 <= dx <= 2,
            forall|a: int, c: int| -1 <= a < dx && -1 <= c <= 1 ==> #[trigger] step_ok(objects@, map@, id as int, a, c),
        decreases 2 - dx,
    {
        let mut dy: i32 = -1;
        while dy <= 1
            invariant
                -1 <= dx <= 1,
                -1 <= dy <= 2,
                forall|a: int, c: int| -1 <= a < dx && -1 <= c <= 1 ==> #[trigger] step_ok(objects@, map@, id as int, a, c),
                forall|c: int| -1 <= c < dy ==> #[trigger] step_ok(objects@, map@, id as int, dx as int, c),
            decreases 2 - dy,
        {
            if !step_is_ok(objects, map, id, dx, dy) {
                return false;
            }
            dy = dy + 1;
        }
        dx = dx + 1;
    }
    true
}

fn basic_is_ok(id: usize, objects: &[Object], game: &Game, fov: &FovGrid) -> (b: bool)
    requires
        id < objects@.len(),
    ensures
        b == basic_ok(id as int, with_ai(objects@, id as int, None), *game, fov@),
{
    let ghost t = with_ai(objects@, id as int, None);
    if objects.len() <= PLAYER {
        return false;
    }
    let m = &objects[id];
    let p = &objects[PLAYER];
    proof {
        assert(t[id as int].x == m.x && t[id as int].y == m.y);
        assert(t[PLAYER as int].x == p.x && t[PLAYER as int].y == p.y && t[PLAYER as int].fighter == p.fighter);
        assert forall|a: int, c: int| #[trigger] step_ok(t, game.map@, id as int, a, c) == step_ok(objects@, game.map@, id as int, a, c) by {}
    }
    let in_view = is_in_fov(fov, m.x, m.y);
    let d = m.distance_squared(p.x, p.y);
    if in_view && d >= 4 {
        let dx: i64 = p.x as i64 - m.x as i64;
        let dy: i64 = p.y as i64 - m.y as i64;
        if d > i32::MAX as i128 {
            return false;
        }
        assert(0 <= dx * dx) by (nonlinear_arith);
        assert(0 <= dy * dy) by (nonlinear_arith);
        let dx2: i64 = dx * dx;
        let dy2: i64 = dy * dy;
        assert(3 * dx * dx == 3 * (dx * dx)) by (nonlinear_arith);
        assert(3 * dy * dy == 3 * (dy * dy)) by (nonlinear_arith);
        let step_x: i32 = if dx != 0 && 3 * dx2 >= dy2 { if dx > 0 { 1 } else { -1 } } else { 0 };
        let step_y: i32 = if dy != 0 && 3 * dy2 >= dx2 { if dy > 0 { 1 } else { -1 } } else { 0 };
        assert(-0x10000 <= dx <= 0x10000) by (nonlinear_arith)
            requires 0 <= dy * dy, dx * dx + dy * dy <= 0x7fff_ffff;
        assert(-0x10000 <= dy <= 0x10000) by (nonlinear_arith)
            requires 0 <= dx * dx, dx * dx + dy * dy <= 0x7fff_ffff;
        assert(step_x == step_toward(dx as int, dy as int));
        assert(step_y == step_toward(dy as int, dx as int));
        assert(toward_ok(t, id as int, t[PLAYER as int].x as int, t[PLAYER as int].y as int));
        return step_is_ok(objects, &game.map, id, step_x, step_y);
    }
    let fights = match p.fighter {
        Some(f) => f.hp > 0,
        None => false,
    };
    if in_view && fights {
        if id == PLAYER {
            return false;
        }
        proof {
            assert(t[id as int] == (Object { ai: None, ..objects@[id as int] }));
            assert(t[PLAYER as int] == objects@[PLAYER as int]);
        }
        attack_is_ok(m, p, game)
    } else {
        true
    }
}

/// Whether the monster at `id` can take its turn without overflow or
/// failure.
pub fn turn_is_ok(id: usize, objects: &[Object], game: &Game, fov: &FovGrid) -> (b: bool)
    ensures
        b == take_turn_ok(id as int, objects@, *game, fov@),
{
    if id >= objects.len() || objects.len() <= PLAYER {
        return false;
    }
    match &objects[id].ai {
        None => true,
        Some(Ai::Confused { num_turns, .. }) => {
            if *num_turns < 0 {
                true
            } else {
                neighbours_are_ok(objects, &game.map, id)
            }
        },
        Some(Ai::Basic) => basic_is_ok(id, objects, game, fov),
    }
}

/// In a sound game every monster can take its turn.
pub proof fn lemma_turn_ok(id: int, objs: Seq<Object>, g: Game, fov: Seq<Vec<bool>>)
    requires
        play_inv(objs, g, 2 * STAT_LIMIT),
        0 <= id < objs.len(),
    ensures
        take_turn_ok(id, objs, g, fov),
{
    let t = with_ai(objs, id, None);
    lemma_steps_ok(objs, g.map@, id);
    if objs[id].ai is Some {
        assert(id != PLAYER);
        assert(world_ok(t, g.map@)) by {
            assert forall|k: int| 0 <= k < t.len() implies crate::mapping::in_interior((#[trigger] t[k]).x as int, t[k].y as int) by {
                assert(crate::mapping::in_interior(objs[k].x as int, objs[k].y as int));
            }
        }
        lemma_steps_ok(t, g.map@, id);
        let m = t[id];
        let p = t[PLAYER as int];
        let dx = p.x - m.x;
        let dy = p.y - m.y;
        assert(-1 <= step_toward(dx, dy) <= 1);
        assert(-1 <= step_toward(dy, dx) <= 1);
        assert(step_ok(t, g.map@, id, step_toward(dx, dy), step_toward(dy, dx)));
        assert(toward_ok(t, id, t[PLAYER as int].x as int, t[PLAYER as int].y as int));
        if attacks_player(t, fov, id) {
            assert(monster_ok(objs[id]));
            assert(object_within(objs[id], 4 * STAT_LIMIT));
            assert(object_within(objs[PLAYER as int], 4 * STAT_LIMIT));
            lemma_attack_ok(t[id], t[PLAYER as int], g.inventory@);
        }
    }
}

proof fn lemma_attack_keeps_inv(objs: Seq<Object>, g: Game, id: int, objs2: Seq<Object>, g2: Game, limit: int)
    requires
        0 <= limit <= 2 * STAT_LIMIT,
        play_inv(objs, g, limit),
        0 <= id < objs.len(),
        id != PLAYER,
        objs[id].fighter is Some,
        same_except(objs, objs2, id, PLAYER as int),
        g.same_but_log(g2),
        attack_result(objs[id], objs[PLAYER as int], g.inventory@, objs2[id], objs2[PLAYER as int], g.messages(), g2.messages()),
        objs[PLAYER as int].fighter matches Some(f) && f.hp > 0,
    ensures
        play_inv(objs2, g2, limit),
{
    let m = objs[id];
    let p = objs[PLAYER as int];
    let damage = attack_damage(m, p, g.inventory@);
    let dies = damage > 0 && kills(p, damage);
    assert(object_within(m, limit));
    assert(object_within(p, limit));
    crate::object::lemma_stats_bounded(m, g.inventory@, limit);
    crate::object::lemma_stats_bounded(p, g.inventory@, limit);
    assert(crate::movement::objects_inside(objs2)) by {
        assert forall|k: int| 0 <= k < objs2.len() implies crate::mapping::in_interior((#[trigger] objs2[k]).x as int, objs2[k].y as int) by {
            assert(crate::mapping::in_interior(objs[k].x as int, objs[k].y as int));
        }
    }
    assert forall|k: int| 0 <= k < objs2.len() implies monster_ok(#[trigger] objs2[k]) by {
        assert(monster_ok(objs[k]));
    }
    if dies {
        assert forall|k: int| 0 <= k < objs2.len() implies object_within(#[trigger] objs2[k], 2 * limit) by {
            assert(object_within(objs[k], limit));
        }
    } else {
        assert forall|k: int| 0 <= k < objs2.len() implies object_within(#[trigger] objs2[k], limit) by {
            assert(object_within(objs[k], limit));
        }
    }
}

proof fn lemma_with_ai_inv(objs: Seq<Object>, g: Game, id: int, a: Option<Ai>, limit: int)
    requires
        0 <= limit <= 2 * STAT_LIMIT,
        play_inv(objs, g, limit),
        0 <= id < objs.len(),
        id != PLAYER,
        a is Some ==> (objs[id].fighter matches Some(f) && f.on_death == crate::data::DeathCallback::Monster),
    ensures
        play_inv(with_ai(objs, id, a), g, limit),
{
    let n = with_ai(objs, id, a);
    assert forall|k: int| 0 <= k < n.len() implies crate::mapping::in_interior((#[trigger] n[k]).x as int, n[k].y as int) by {
        assert(crate::mapping::in_interior(objs[k].x as int, objs[k].y as int));
    }
    assert forall|k: int| 0 <= k < n.len() implies monster_ok(#[trigger] n[k]) by {
        assert(monster_ok(objs[k]));
    }
    assert forall|k: int| 0 <= k < n.len() implies object_within(#[trigger] n[k], 2 * limit) by {
        assert(object_within(objs[k], 2 * limit));
    }
    if n[PLAYER as int].fighter is Some {
        assert forall|k: int| 0 <= k < n.len() implies object_within(#[trigger] n[k], limit) by {
            assert(object_within(objs[k], limit));
        }
    }
}

/// A move keeps the game sound.
pub proof fn lemma_move_inv(objs: Seq<Object>, g: Game, id: int, dx: int, dy: int, limit: int)
    requires
        0 <= limit <= 2 * STAT_LIMIT,
        play_inv(objs, g, limit),
        crate::movement::step_ok(objs, g.map@, id, dx, dy),
    ensures
        play_inv(moved_by(objs, g.map@, id, dx, dy), g, limit),
{
    lemma_moved_by(objs, g.map@, id, dx, dy);
    let n = moved_by(objs, g.map@, id, dx, dy);
    assert forall|k: int| 0 <= k < n.len() implies monster_ok(#[trigger] n[k]) by {
        assert(monster_ok(objs[k]));
    }
    assert forall|k: int| 0 <= k < n.len() implies object_within(#[trigger] n[k], 2 * limit) by {
        assert(object_within(objs[k], 2 * limit));
    }
    if n[PLAYER as int].fighter is Some {
        assert forall|k: int| 0 <= k < n.len() implies object_within(#[trigger] n[k], limit) by {
            assert(object_within(objs[k], limit));
        }
    }
}

/// A monster's turn keeps the game sound: whatever it does, what held of the
/// game between turns still holds.
pub proof fn lemma_turn_keeps_inv(id: int, objs: Seq<Object>, g: Game, fov: Seq<Vec<bool>>, objs2: Seq<Object>, g2: Game, limit: int)
    requires
        0 <= limit <= 2 * STAT_LIMIT,
        play_inv(objs, g, limit),
        0 <= id < objs.len(),
        turn_outcome(id, objs, g, fov, objs2, g2),
        g.same_but_log(g2),
    ensures
        play_inv(objs2, g2, limit),
{
    let t = with_ai(objs, id, None);
    match objs[id].ai {
        None => {},
        Some(ai) => {
            assert(id != PLAYER);
            assert(monster_ok(objs[id]));
            lemma_with_ai_inv(objs, g, id, None, limit);
            match ai {
                Ai::Basic => {
                    let mid = choose|mid: Seq<Object>| #[trigger] basic_outcome(id, t, g, fov, mid, g2) && objs2 == with_ai(mid, id, Some(Ai::Basic));
                    let m = t[id];
                    let p = t[PLAYER as int];
                    if !in_fov(fov, m.x as int, m.y as int) {
                    } else if dist2(m, p) >= 4 {
                        lemma_steps_ok(t, g.map@, id);
                        let dx = p.x - m.x;
                        let dy = p.y - m.y;
                        let (sx, sy) = choose|sx: int, sy: int| #[trigger] toward_step(dx, dy, sx, sy) && mid == moved_by(t, g.map@, id, sx, sy);
                        assert(-1 <= sx <= 1 && -1 <= sy <= 1);
                        lemma_move_inv(t, g, id, sx, sy, limit);
                        lemma_moved_by(t, g.map@, id, sx, sy);
                    } else if p.fighter matches Some(f) && f.hp > 0 {
                        lemma_attack_keeps_inv(t, g, id, mid, g2, limit);
                    }
                    lemma_with_ai_inv(mid, g2, id, Some(Ai::Basic), limit);
                },
                Ai::Confused { previous_ai, num_turns } => {
                    if num_turns >= 0 {
                        let (dx, dy) = choose|dx: int, dy: int| -1 <= dx <= 1 && -1 <= dy <= 1
                            && objs2 == with_ai(#[trigger] moved_by(t, g.map@, id, dx, dy), id, Some(Ai::Confused { previous_ai, num_turns: (num_turns - 1) as i32 }));
                        lemma_steps_ok(t, g.map@, id);
                        lemma_move_inv(t, g, id, dx, dy, limit);
                        lemma_moved_by(t, g.map@, id, dx, dy);
                        lemma_with_ai_inv(moved_by(t, g.map@, id, dx, dy), g2, id, Some(Ai::Confused { previous_ai, num_turns: (num_turns - 1) as i32 }), limit);
                    } else {
                        lemma_with_ai_inv(t, g2, id, Some(*previous_ai), limit);
                        assert(with_ai(t, id, Some(*previous_ai)) =~= objs2);
                    }
                },
            }
        },
    }
}

/// The turn of the monster at `id`, by its behaviour; it keeps its
/// behaviour or moves on to the next one.
pub fn ai_take_turn(monster_id: usize, objects: &mut [Object], game: &mut Game, fov: &FovGrid)
    requires
        take_turn_ok(monster_id as int, old(objects)@, *old(game), fov@),
    ensures
        turn_outcome(monster_id as int, old(objects)@, *old(game), fov@, final(objects)@, *final(game)),
        old(game).same_but_log(*final(game)),
        final(objects)@.len() == old(objects)@.len(),
{
    let ghost objs = objects@;
    let ghost g = *game;
    let ghost id = monster_id as int;
    if let Some(ai) = objects[monster_id].ai.take() {
        let ghost t = objects@;
        assert(t =~= with_ai(objs, id, None));
        proof {
            match objs[id].ai {
                Some(Ai::Confused { num_turns, .. }) => {
                    if num_turns >= 0 {
                        assert forall|dx: int, dy: int| -1 <= dx <= 1 && -1 <= dy <= 1 implies #[trigger] step_ok(t, g.map@, id, dx, dy) by {
                            assert(step_ok(objs, g.map@, id, dx, dy));
                        }
                    }
                },
                _ => {},
            }
        }
        let new_ai = match ai {
            Ai::Basic => ai_basic(monster_id, objects, game, fov),
            Ai::Confused { previous_ai, num_turns } => ai_confused(monster_id, previous_ai, num_turns, objects, game),
        };
        let ghost mid = objects@;
        let ghost g2 = *game;
        objects[monster_id].ai = Some(new_ai);
        assert(objects@ =~= with_ai(mid, id, Some(new_ai)));
        proof {
            match objs[id].ai {
                Some(Ai::Basic) => {
                    assert(basic_outcome(id, t, g, fov@, mid, g2));
                },
                Some(Ai::Confused { previous_ai, num_turns }) => {
                    if num_turns >= 0 {
                        let (dx, dy) = choose|dx: int, dy: int| -1 <= dx <= 1 && -1 <= dy <= 1
                            && mid == #[trigger] moved_by(t, g.map@, id, dx, dy);
                        assert(objects@ == with_ai(moved_by(t, g.map@, id, dx, dy), id, Some(Ai::Confused { previous_ai, num_turns: (num_turns - 1) as i32 })));
                    } else {
                        assert(objects@ =~= with_ai(objs, id, Some(*previous_ai)));
                    }
                },
                None => {},
            }
        }
    } else {
        assert(objects@ =~= objs);
    }
}

} // verus!

verus! {

/// The behaviour a monster has after one more turn: confusion with turns
/// left counts down by one, worn-off confusion gives back the behaviour from
/// before, and the basic behaviour stays.
pub open spec fn next_ai(a: Ai) -> Ai {
    match a {
        Ai::Basic => Ai::Basic,
        Ai::Confused { previous_ai, num_turns } => if num_turns >= 0 {
            Ai::Confused { previous_ai, num_turns: (num_turns - 1) as i32 }
        } else {
            *previous_ai
        },
    }
}

/// A monster's turn moves its behaviour on by one step.
pub proof fn lemma_turn_next_ai(id: int, objs: Seq<Object>, g: Game, fov: Seq<Vec<bool>>, objs2: Seq<Object>, g2: Game)
    requires
        0 <= id < objs.len(),
        objs[id].ai is Some,
        objs2.len() == objs.len(),
        turn_outcome(id, objs, g, fov, objs2, g2),
    ensures
        objs2[id].ai == Some(next_ai(objs[id].ai->0)),
{
    let t = with_ai(objs, id, None);
    match objs[id].ai {
        Some(Ai::Basic) => {
            let mid = choose|mid: Seq<Object>| #[trigger] basic_outcome(id, t, g, fov, mid, g2) && objs2 == with_ai(mid, id, Some(Ai::Basic));
            assert(objs2[id] == mid.update(id, Object { ai: Some(Ai::Basic), ..mid[id] })[id]);
        },
        Some(Ai::Confused { previous_ai, num_turns }) => {
            if num_turns >= 0 {
                let (dx, dy) = choose|dx: int, dy: int| -1 <= dx <= 1 && -1 <= dy <= 1
                    && objs2 == with_ai(#[trigger] moved_by(t, g.map@, id, dx, dy), id, Some(Ai::Confused { previous_ai, num_turns: (num_turns - 1) as i32 }));
            }
        },
        None => {},
    }
}

/// A monster confused for `n` more turns, taking its turns one after the
/// other: after `k` turns, for `k` up to `n + 1`, it is confused for `n - k`
/// more turns; on turn `n + 2` its behaviour from before comes back.
pub proof fn lemma_confusion_counts_down(states: Seq<(Seq<Object>, Game)>, id: int, fov: Seq<Vec<bool>>, previous: Ai, n: i32)
    requires
        states.len() >= 1,
        n >= 0,
        0 <= id < states[0].0.len(),
        states[0].0[id].ai == Some(Ai::Confused { previous_ai: Box::new(previous), num_turns: n }),
        forall|i: int| 0 <= i < states.len() ==> (#[trigger] states[i]).0.len() == states[0].0.len(),
        forall|i: int| 0 <= i < states.len() - 1 ==> #[trigger] turn_outcome(id, states[i].0, states[i].1, fov, states[i + 1].0, states[i + 1].1),
        states.len() - 1 <= n + 2,
    ensures
        states.len() - 1 <= n + 1 ==> states.last().0[id].ai == Some(Ai::Confused { previous_ai: Box::new(previous), num_turns: (n - (states.len() - 1)) as i32 }),
        states.len() - 1 == n + 2 ==> states.last().0[id].ai == Some(previous),
    decreases states.len(),
{
    if states.len() > 1 {
        let rest = states.drop_last();
        assert forall|i: int| 0 <= i < rest.len() implies (#[trigger] rest[i]).0.len() == rest[0].0.len() by {
            assert(rest[i] == states[i]);
        }
        assert forall|i: int| 0 <= i < rest.len() - 1 implies #[trigger] turn_outcome(id, rest[i].0, rest[i].1, fov, rest[i + 1].0, rest[i + 1].1) by {
            assert(rest[i] == states[i] && rest[i + 1] == states[i + 1]);
            assert(turn_outcome(id, states[i].0, states[i].1, fov, states[i + 1].0, states[i + 1].1));
        }
        lemma_confusion_counts_down(rest, id, fov, previous, n);
        let k = states.len() - 2;
        assert(rest.last() == states[k]);
        assert(states[0].0.len() == states[k].0.len() && states[k + 1].0.len() == states[k].0.len());
        assert(turn_outcome(id, states[k].0, states[k].1, fov, states[k + 1].0, states[k + 1].1));
        lemma_turn_next_ai(id, states[k].0, states[k].1, fov, states[k + 1].0, states[k + 1].1);
    }
}

/// A monster with basic behaviour attacks only a player on a neighbouring
/// tile: from two or more tiles away along either axis it never touches the
/// player nor logs anything, and when it sees the player two or more tiles
/// away it takes a step toward the player; when it sees a living player on a
/// neighbouring tile it attacks.
pub proof fn lemma_basic_attacks_only_adjacent(id: int, objs: Seq<Object>, g: Game, fov: Seq<Vec<bool>>, objs2: Seq<Object>, g2: Game)
    requires
        0 <= id < objs.len(),
        objs.len() > PLAYER,
        id != PLAYER,
        basic_outcome(id, objs, g, fov, objs2, g2),
    ensures
        ({
            let m = objs[id];
            let p = objs[PLAYER as int];
            let dx = p.x - m.x;
            let dy = p.y - m.y;
            &&& (abs(dx) >= 2 || abs(dy) >= 2) ==> g2 == g && objs2[PLAYER as int] == p
            &&& in_fov(fov, m.x as int, m.y as int) && (abs(dx) >= 2 || abs(dy) >= 2) ==> exists|sx: int, sy: int|
                #[trigger] toward_step(dx, dy, sx, sy) && objs2 == moved_by(objs, g.map@, id, sx, sy)
            &&& in_fov(fov, m.x as int, m.y as int) && abs(dx) <= 1 && abs(dy) <= 1 && (p.fighter matches Some(f) && f.hp > 0)
                ==> attack_result(m, p, g.inventory@, objs2[id], objs2[PLAYER as int], g.messages(), g2.messages())
        }),
{
    let m = objs[id];
    let p = objs[PLAYER as int];
    let dx = p.x - m.x;
    let dy = p.y - m.y;
    assert(dist2(m, p) == dx * dx + dy * dy);
    if abs(dx) >= 2 || abs(dy) >= 2 {
        assert(dx * dx + dy * dy >= 4) by (nonlinear_arith)
            requires abs(dx) >= 2 || abs(dy) >= 2, abs(dx) == (if dx < 0 { -dx } else { dx }), abs(dy) == (if dy < 0 { -dy } else { dy });
    }
    if abs(dx) <= 1 && abs(dy) <= 1 {
        assert(dx * dx + dy * dy <= 2) by (nonlinear_arith)
            requires abs(dx) <= 1, abs(dy) <= 1, abs(dx) == (if dx < 0 { -dx } else { dx }), abs(dy) == (if dy < 0 { -dy } else { dy });
    }
}

} // verus!
