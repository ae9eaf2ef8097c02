//! Starting a game, going down to the next level, and the monsters' part
//! of each game turn.
use vstd::prelude::*;
use crate::ai::{ai_take_turn, lemma_turn_keeps_inv, play_inv, take_turn_ok, turn_outcome};
use crate::colors;
use crate::data::{add_str_message, half, spec_new_object, DeathCallback, Equipment, Fighter, Game, Item, Object, PlayerAction, Slot};
use crate::mapping::{is_item, is_monster, item_equipment, level_laid_out, level_made, make_map, monster_look, on_floor, spawned_item, spawned_monster};
use crate::object::{fits_i32, healed, inventory_ok, item_bounded, object_within};
use crate::targeting::FovGrid;
use crate::{PLAYER, STAT_LIMIT};

verus! {

/// One step of the monsters' part of a turn: the object at `i` takes its
/// turn if it has a behaviour; otherwise nothing changes.
pub open spec fn turn_step(i: int, fov: Seq<Vec<bool>>, s: (Seq<Object>, Game), s2: (Seq<Object>, Game)) -> bool {
    if s.0[i].ai is Some {
        turn_outcome(i, s.0, s.1, fov, s2.0, s2.1)
    } else {
        s2 == s
    }
}

/// How far the monsters' part of a turn got: all objects (`Ok`), or up to
/// the monster at `Err(i)` whose turn cannot be taken without overflow or
/// failure.
pub open spec fn turns_done(r: Result<(), usize>, n: int) -> int {
    match r {
        Ok(()) => n,
        Err(i) => i as int,
    }
}

/// The monsters' part of a turn, from `(objs, g)` to `(objs2, g2)`: the
/// objects take their turns in order, as far as `r` tells; at `Err(i)` the
/// object at `i` has a behaviour but cannot take its turn.
pub open spec fn monsters_outcome(
    objs: Seq<Object>,
    g: Game,
    fov: Seq<Vec<bool>>,
    objs2: Seq<Object>,
    g2: Game,
    r: Result<(), usize>,
) -> bool {
    &&& objs2.len() == objs.len()
    &&& g.same_but_log(g2)
    &&& r matches Err(i) ==> i < objs.len()
    &&& exists|states: Seq<(Seq<Object>, Game)>| {
        &&& states.len() == turns_done(r, objs.len() as int) + 1
        &&& states[0] == (objs, g)
        &&& states.last() == (objs2, g2)
        &&& forall|i: int| 0 <= i < turns_done(r, objs.len() as int) ==> #[trigger] turn_step(i, fov, states[i], states[i + 1])
        &&& r matches Err(i) ==> objs2[i as int].ai is Some && !take_turn_ok(i as int, objs2, g2, fov)
    }
}

/// Every object with a behaviour takes its turn, in order. The turn of a
/// monster that cannot act without overflow or failure is not taken: the
/// monsters' part stops there with `Err` and its index. In a sound game
/// every turn is taken and the game stays sound.
pub fn monsters_take_turns(objects: &mut [Object], game: &mut Game, fov: &FovGrid) -> (r: Result<(), usize>)
    ensures
        monsters_outcome(old(objects)@, *old(game), fov@, final(objects)@, *final(game), r),
        play_inv(old(objects)@, *old(game), 2 * STAT_LIMIT) ==> r is Ok && play_inv(final(objects)@, *final(game), 2 * STAT_LIMIT),
{
    let ghost sound = play_inv(objects@, *game, 2 * STAT_LIMIT);
    let ghost mut states: Seq<(Seq<Object>, Game)> = seq![(objects@, *game)];
    let n = objects.len();
    let mut id: usize = 0;
    while id < n
        invariant
            n == objects@.len(),
            n == old(objects)@.len(),
            id <= n,
            sound == play_inv(old(objects)@, *old(game), 2 * STAT_LIMIT),
            sound ==> play_inv(objects@, *game, 2 * STAT_LIMIT),
            old(game).same_but_log(*game),
            states.len() == id + 1,
            states[0] == (old(objects)@, *old(game)),
            states.last() == (objects@, *game),
            forall|i: int| 0 <= i < id ==> #[trigger] turn_step(i, fov@, states[i], states[i + 1]),
        decreases n - id,
    {
        let ghost before = (objects@, *game);
        if objects[id].ai.is_some() {
            if !crate::ai::turn_is_ok(id, objects, game, fov) {
                proof {
                    if sound {
                        crate::ai::lemma_turn_ok(id as int, objects@, *game, fov@);
                    }
                }
                return Err(id);
            }
            ai_take_turn(id, objects, game, fov);
            proof {
                if sound {
                    lemma_turn_keeps_inv(id as int, before.0, before.1, fov@, objects@, *game, 2 * STAT_LIMIT);
                }
            }
        }
        proof {
            let s2 = (objects@, *game);
            assert(turn_step(id as int, fov@, before, s2));
            let old_states = states;
            states = states.push(s2);
            assert forall|i: int| 0 <= i < id + 1 implies #[trigger] turn_step(i, fov@, states[i], states[i + 1]) by {
                if i < id {
                    assert(states[i] == old_states[i]);
                    assert(states[i + 1] == old_states[i + 1]);
                }
            }
        }
        id = id + 1;
    }
    Ok(())
}

/// Everything a new level puts on the map besides the player is sound:
/// with the player sound too, the whole game is.
pub proof fn lemma_level_made_inv(player: Object, objs: Seq<Object>, g: Game, level: u32, limit: int)
    requires
        level_made(player, objs, g.map@, level),
        inventory_ok(g.inventory@),
        100 <= limit,
        player.ai is None,
        player.alive ==> player.fighter is Some,
        object_within(player, limit),
        item_bounded(player),
        0 <= player.level <= limit,
        g.dungeon_level <= limit,
    ensures
        play_inv(objs, g, limit),
{
    assert forall|k: int| 0 <= k < objs.len() implies {
        &&& crate::mapping::in_interior((#[trigger] objs[k]).x as int, objs[k].y as int)
        &&& crate::ai::monster_ok(objs[k])
        &&& item_bounded(objs[k])
        &&& object_within(objs[k], limit)
    } by {
        assert(on_floor(g.map@, objs[k]));
        if k == PLAYER {
        } else if k == objs.len() - 1 {
        } else if spawned_monster(objs[k], level) {
            let kind = choose|kind: int| 0 <= kind < 3 && crate::mapping::monster_weights(level)[kind] > 0 && #[trigger] is_monster(objs[k], kind);
        } else {
            assert(spawned_item(objs[k], level));
            let kind = choose|kind: int| 0 <= kind < 6 && crate::mapping::item_weights(level)[kind] > 0 && #[trigger] is_item(crate::mapping::unseen(objs[k]), kind);
        }
    }
    assert(crate::movement::objects_inside(objs));
    assert(crate::object::objects_within(objs, 2 * limit)) by {
        assert forall|k: int| 0 <= k < objs.len() implies object_within(#[trigger] objs[k], 2 * limit) by {
            assert(object_within(objs[k], limit));
        }
    }
}

pub open spec fn rest_text() -> Seq<char> {
    "You take a moment to rst, and recover your strength."@
}

pub open spec fn descend_text() -> Seq<char> {
    "After a rare moment of peace, you descend deeper into the catacombs..."@
}

/// Going down: the player rests and heals by half of its maximum hit
/// points, and the game moves on to a new level one deeper.
pub open spec fn next_level_outcome(objs: Seq<Object>, g: Game, objs2: Seq<Object>, g2: Game) -> bool {
    let p = objs[PLAYER as int];
    let max_hp = p.spec_max_hp(g.inventory@);
    &&& g2.dungeon_level == g.dungeon_level + 1
    &&& g2.inventory == g.inventory
    &&& level_made(healed(p, half(max_hp), max_hp), objs2, g2.map@, g2.dungeon_level)
    &&& level_laid_out(objs2, g2.map@)
    &&& g2.messages() == g.messages().push((rest_text(), colors::spec_violet())).push((descend_text(), colors::spec_red()))
}

/// The player can go down without overflow or failure.
pub open spec fn next_level_ok(objs: Seq<Object>, g: Game) -> bool {
    let p = objs[PLAYER as int];
    &&& objs.len() > PLAYER
    &&& fits_i32(p.spec_max_hp(g.inventory@))
    &&& p.fighter matches Some(f) ==> fits_i32(f.hp + half(p.spec_max_hp(g.inventory@)))
    &&& g.dungeon_level < u32::MAX
}

/// Whether the player can go down without overflow or failure.
pub fn next_level_is_ok(objects: &[Object], game: &Game) -> (b: bool)
    ensures
        b == next_level_ok(objects@, *game),
{
    if objects.len() == 0 {
        return false;
    }
    let p = &objects[PLAYER];
    let m = p.max_hp_exact(game);
    if m < i32::MIN as i128 || m > i32::MAX as i128 {
        return false;
    }
    let h: i128 = if m >= 0 { m / 2 } else { -((-m) / 2) };
    let hp_ok = match p.fighter {
        Some(f) => {
            let v: i128 = f.hp as i128 + h;
            i32::MIN as i128 <= v && v <= i32::MAX as i128
        },
        None => true,
    };
    hp_ok && game.dungeon_level < u32::MAX
}

/// Goes down to the next level: the player rests, healing by half of its
/// maximum hit points, and a new level one deeper is generated.
pub fn next_level(objects: &mut Vec<Object>, game: &mut Game)
    requires
        next_level_ok(old(objects)@, *old(game)),
    ensures
        next_level_outcome(old(objects)@, *old(game), final(objects)@, *final(game)),
{
    add_str_message(&mut game.log, "You take a moment to rst, and recover your strength.", colors::violet());
    let max_hp: i64 = objects[PLAYER].max_hp(game) as i64;
    let heal_hp: i64 = if max_hp >= 0 { max_hp / 2 } else { -((-max_hp) / 2) };
    objects[PLAYER].heal(heal_hp as i32, game);
    add_str_message(
        &mut game.log,
        "After a rare moment of peace, you descend deeper into the catacombs...",
        colors::red(),
    );
    game.dungeon_level = game.dungeon_level + 1;
    game.map = make_map(objects, game.dungeon_level);
}

/// The player a new game starts with, still at the origin.
pub open spec fn is_new_player(o: Object) -> bool {
    &&& spec_new_object(o.x, o.y, '@', colors::spec_white(), "Player"@, true, Object { alive: false, fighter: None, ..o })
    &&& o.alive
    &&& o.fighter == Some(Fighter {
        base_max_hp: 100, hp: 100, base_defense: 1, base_power: 4, on_death: DeathCallback::Player, xp: 0,
    })
}

/// The dagger the player starts with, worn in the left hand.
pub open spec fn is_dagger(o: Object) -> bool {
    &&& spec_new_object(0, 0, '-', colors::spec_sky(), "dagger"@, false, Object { item: None, equipment: None, ..o })
    &&& o.item == Some(Item::Sword)
    &&& o.equipment == Some(Equipment {
        equipped: true, slot: Slot::LeftHand, defense_bonus: 0, power_bonus: 2, max_hp_bonus: 0,
    })
}

/// The player of a new game as it was before being put on the map.
pub open spec fn start_player(objs: Seq<Object>) -> Object {
    Object { x: 0, y: 0, ..objs[PLAYER as int] }
}

pub open spec fn welcome_text() -> Seq<char> {
    "Welcome, stranger, to the Mysterious Mysteries of the Abysslike Catacombs! Prepare to die."@
}

/// Starts a new game: a fresh player on the first level, with a dagger in
/// hand and a welcome message.
pub fn new_game() -> (r: (Vec<Object>, Game))
    ensures
        is_new_player(start_player(r.0@)),
        level_made(start_player(r.0@), r.0@, r.1.map@, 1),
        level_laid_out(r.0@, r.1.map@),
        r.1.dungeon_level == 1,
        r.1.inventory@.len() == 1,
        is_dagger(r.1.inventory@[0]),
        r.1.messages() == seq![(welcome_text(), colors::spec_red())],
        play_inv(r.0@, r.1, STAT_LIMIT as int),
{
    let mut player = Object::new(0, 0, '@', colors::white(), "Player", true);
    player.alive = true;
    player.fighter = Some(Fighter {
        base_max_hp: 100, hp: 100, base_defense: 1, base_power: 4, on_death: DeathCallback::Player, xp: 0,
    });
    let ghost p = player;
    let mut objects = vec![player];
    let level: u32 = 1;
    let map = make_map(&mut objects, level);
    let mut game = Game { map, log: Vec::new(), inventory: Vec::new(), dungeon_level: 1 };
    let mut dagger = Object::new(0, 0, '-', colors::sky(), "dagger", false);
    dagger.item = Some(Item::Sword);
    dagger.equipment = Some(Equipment {
        equipped: true, slot: Slot::LeftHand, defense_bonus: 0, power_bonus: 2, max_hp_bonus: 0,
    });
    game.inventory.push(dagger);
    add_str_message(
        &mut game.log,
        "Welcome, stranger, to the Mysterious Mysteries of the Abysslike Catacombs! Prepare to die.",
        colors::red(),
    );
    proof {
        assert(crate::data::log_view(game.log@) =~= seq![(welcome_text(), colors::spec_red())]);
        assert(level_made(p, objects@, game.map@, 1));
        assert(is_new_player(p));
        assert(inventory_ok(game.inventory@)) by {
            assert(item_bounded(game.inventory@[0]));
        }
        lemma_level_made_inv(p, objects@, game, 1, STAT_LIMIT as int);
        assert(start_player(objects@) == p);
    }
    (objects, game)
}

fn item_is_bounded(o: &Object) -> (b: bool)
    ensures
        b == item_bounded(*o),
{
    match o.equipment {
        Some(e) => -STAT_LIMIT <= e.power_bonus && e.power_bonus <= STAT_LIMIT && -STAT_LIMIT <= e.defense_bonus
            && e.defense_bonus <= STAT_LIMIT && -STAT_LIMIT <= e.max_hp_bonus && e.max_hp_bonus <= STAT_LIMIT,
        None => true,
    }
}

fn is_within(o: &Object, limit: i32) -> (b: bool)
    requires
        0 <= limit <= 2 * STAT_LIMIT,
    ensures
        b == object_within(*o, limit as int),
{
    match o.fighter {
        Some(f) => -limit <= f.base_max_hp && f.base_max_hp <= limit && -limit <= f.hp && f.hp <= limit + 26 * STAT_LIMIT
            && -limit <= f.base_defense && f.base_defense <= limit && -limit <= f.base_power && f.base_power <= limit
            && -limit <= f.xp && f.xp <= limit,
        None => true,
    }
}

fn is_monster_ok(o: &Object) -> (b: bool)
    ensures
        b == crate::ai::monster_ok(*o),
{
    match o.ai {
        Some(_) => match o.fighter {
            Some(f) => f.on_death == DeathCallback::Monster,
            None => false,
        },
        None => true,
    }
}

/// Whether the map has its full size and its edge blocks.
pub fn map_is_sound(map: &crate::data::TileMap) -> (b: bool)
    ensures
        b == (crate::mapping::map_wf(map@) && crate::mapping::walled(map@)),
{
    if map.len() != crate::MAP_WIDTH as usize {
        return false;
    }
    let mut x: usize = 0;
    while x < map.len()
        invariant
            map@.len() == crate::MAP_WIDTH,
            x <= map@.len(),
            forall|i: int| 0 <= i < x ==> (#[trigger] map@[i])@.len() == crate::MAP_HEIGHT,
            forall|i: int, j: int| 0 <= i < x && #[trigger] crate::mapping::in_bounds(map@, i, j) && !crate::mapping::in_interior(i, j) ==> map@[i]@[j].blocked,
        decreases map@.len() - x,
    {
        if map[x].len() != crate::MAP_HEIGHT as usize {
            return false;
        }
        let mut y: usize = 0;
        while y < map[x].len()
            invariant
                map@.len() == crate::MAP_WIDTH,
                x < map@.len(),
                y <= map@[x as int]@.len(),
                map@[x as int]@.len() == crate::MAP_HEIGHT,
                forall|i: int| 0 <= i < x ==> (#[trigger] map@[i])@.len() == crate::MAP_HEIGHT,
                forall|i: int, j: int| 0 <= i < x && #[trigger] crate::mapping::in_bounds(map@, i, j) && !crate::mapping::in_interior(i, j) ==> map@[i]@[j].blocked,
                forall|j: int| 0 <= j < y && !crate::mapping::in_interior(x as int, j) ==> #[trigger] map@[x as int]@[j].blocked,
            decreases map@[x as int]@.len() - y,
        {
            let interior = 1 <= x && x < (crate::MAP_WIDTH - 1) as usize && 1 <= y && y < (crate::MAP_HEIGHT - 1) as usize;
            if !interior && !map[x][y].blocked {
                assert(crate::mapping::in_bounds(map@, x as int, y as int));
                return false;
            }
            y = y + 1;
        }
        x = x + 1;
    }
    true
}

/// Whether the game is sound between turns, with stats within
/// `STAT_LIMIT`: what the player's and the monsters' turns need.
pub fn game_is_sound(objects: &[Object], game: &Game) -> (b: bool)
    ensures
        b == play_inv(objects@, *game, STAT_LIMIT as int),
{
    if objects.len() == 0 || !map_is_sound(&game.map) {
        return false;
    }
    if game.inventory.len() > crate::INVENTORY_CAPACITY {
        return false;
    }
    let mut i: usize = 0;
    while i < game.inventory.len()
        invariant
            i <= game.inventory@.len(),
            forall|k: int| 0 <= k < i ==> item_bounded(#[trigger] game.inventory@[k]),
        decreases game.inventory@.len() - i,
    {
        if !item_is_bounded(&game.inventory[i]) {
            return false;
        }
        i = i + 1;
    }
    assert(inventory_ok(game.inventory@));
    let player = &objects[PLAYER];
    if player.ai.is_some() || (player.alive && player.fighter.is_none()) {
        return false;
    }
    if player.level < 0 || player.level > STAT_LIMIT || game.dungeon_level > STAT_LIMIT as u32 {
        return false;
    }
    let limit: i32 = if player.fighter.is_some() { STAT_LIMIT } else { 2 * STAT_LIMIT };
    let mut k: usize = 0;
    while k < objects.len()
        invariant
            k <= objects@.len(),
            objects@.len() > PLAYER,
            limit == (if objects@[PLAYER as int].fighter is Some { STAT_LIMIT as int } else { 2 * STAT_LIMIT }),
            forall|j: int| 0 <= j < k ==> {
                &&& crate::mapping::in_interior((#[trigger] objects@[j]).x as int, objects@[j].y as int)
                &&& crate::ai::monster_ok(objects@[j])
                &&& item_bounded(objects@[j])
                &&& object_within(objects@[j], limit as int)
            },
        decreases objects@.len() - k,
    {
        let o = &objects[k];
        let inside = 1 <= o.x && o.x < crate::MAP_WIDTH - 1 && 1 <= o.y && o.y < crate::MAP_HEIGHT - 1;
        if !inside || !is_monster_ok(o) || !item_is_bounded(o) || !is_within(o, limit) {
            return false;
        }
        k = k + 1;
    }
    proof {
        assert forall|j: int| 0 <= j < objects@.len() implies object_within(#[trigger] objects@[j], 2 * STAT_LIMIT) by {
            assert(object_within(objects@[j], limit as int));
        }
        assert(crate::movement::objects_inside(objects@));
    }
    true
}

} // verus!

verus! {

/// What the game loop does once a key press has been handled.
#[derive(Clone, Copy, Debug, PartialEq, Eq, Structural)]
pub enum TurnEnd {
    /// Play on.
    Continue,
    /// Save the game and leave.
    SaveAndQuit,
}

/// What the end of a turn of the game loop does: leaving saves and quits
/// with nothing changed; a turn taken by the living player is followed by
/// the monsters' turns (`Err` giving the monster whose turn could not be
/// taken); otherwise nothing happens.
pub open spec fn end_turn_outcome(
    action: PlayerAction,
    objs: Seq<Object>,
    g: Game,
    fov: Seq<Vec<bool>>,
    objs2: Seq<Object>,
    g2: Game,
    r: Result<TurnEnd, usize>,
) -> bool {
    let monsters_act = objs.len() > PLAYER && objs[PLAYER as int].alive && action == PlayerAction::TookTurn;
    if action == PlayerAction::Exit {
        &&& r == Ok::<TurnEnd, usize>(TurnEnd::SaveAndQuit)
        &&& objs2 == objs
        &&& g2 == g
    } else if monsters_act {
        &&& r matches Ok(e) ==> e == TurnEnd::Continue
        &&& monsters_outcome(objs, g, fov, objs2, g2, match r {
            Ok(_) => Ok(()),
            Err(i) => Err(i),
        })
    } else {
        &&& r == Ok::<TurnEnd, usize>(TurnEnd::Continue)
        &&& objs2 == objs
        &&& g2 == g
    }
}

/// The end of a turn of the game loop (see `end_turn_outcome`).
pub fn end_turn(action: PlayerAction, objects: &mut [Object], game: &mut Game, fov: &FovGrid) -> (r: Result<TurnEnd, usize>)
    ensures
        end_turn_outcome(action, old(objects)@, *old(game), fov@, final(objects)@, *final(game), r),
        play_inv(old(objects)@, *old(game), 2 * STAT_LIMIT) ==> r is Ok && play_inv(final(objects)@, *final(game), 2 * STAT_LIMIT),
{
    if action == PlayerAction::Exit {
        return Ok(TurnEnd::SaveAndQuit);
    }
    if objects.len() > PLAYER && objects[PLAYER].alive && action == PlayerAction::TookTurn {
        match monsters_take_turns(objects, game, fov) {
            Ok(()) => Ok(TurnEnd::Continue),
            Err(i) => Err(i),
        }
    } else {
        proof {
            if play_inv(objects@, *game, 2 * STAT_LIMIT) {}
        }
        Ok(TurnEnd::Continue)
    }
}

/// The game loop: over the turns of a game, the end of a turn saves and
/// quits exactly when the player leaves, so the game ends at the first turn
/// the player leaves; the monsters act (and a turn can fail) only after a
/// turn the living player took; any other turn changes nothing at its end.
pub proof fn lemma_game_loop(
    actions: Seq<PlayerAction>,
    befores: Seq<(Seq<Object>, Game)>,
    afters: Seq<(Seq<Object>, Game)>,
    fovs: Seq<Seq<Vec<bool>>>,
    results: Seq<Result<TurnEnd, usize>>,
)
    requires
        befores.len() == actions.len(),
        afters.len() == actions.len(),
        fovs.len() == actions.len(),
        results.len() == actions.len(),
        forall|i: int| 0 <= i < actions.len() ==> #[trigger] end_turn_outcome(
            actions[i],
            befores[i].0,
            befores[i].1,
            fovs[i],
            afters[i].0,
            afters[i].1,
            results[i],
        ),
    ensures
        forall|i: int| 0 <= i < actions.len() ==> (#[trigger] results[i] == Ok::<TurnEnd, usize>(TurnEnd::SaveAndQuit) <==> actions[i] == PlayerAction::Exit),
        forall|i: int| 0 <= i < actions.len() && !(befores[i].0.len() > PLAYER && befores[i].0[PLAYER as int].alive && actions[i] == PlayerAction::TookTurn)
            ==> #[trigger] afters[i] == befores[i] && results[i] is Ok,
{
    assert forall|i: int| 0 <= i < actions.len() implies (#[trigger] results[i] == Ok::<TurnEnd, usize>(TurnEnd::SaveAndQuit) <==> actions[i] == PlayerAction::Exit) by {
        assert(end_turn_outcome(actions[i], befores[i].0, befores[i].1, fovs[i], afters[i].0, afters[i].1, results[i]));
    }
    assert forall|i: int| 0 <= i < actions.len() && !(befores[i].0.len() > PLAYER && befores[i].0[PLAYER as int].alive && actions[i] == PlayerAction::TookTurn)
        implies #[trigger] afters[i] == befores[i] && results[i] is Ok by {
        assert(end_turn_outcome(actions[i], befores[i].0, befores[i].1, fovs[i], afters[i].0, afters[i].1, results[i]));
    }
}

} // verus!
