//! What the scrolls and potions do: healing, lightning, confusion and
//! fireballs.
use vstd::prelude::*;
use crate::colors;
use crate::colors::Color;
use crate::data::{add_message, add_str_message, log_view, Ai, DeathCallback, Game, Object, UseResult};
use crate::object::{damage_is_ok, damage_ok, death_message, fits_i32, gain_xp, healed, hurt, kills, remains, would_kill};
use crate::targeting::{closest_monster, dist2, dist2_to, spec_closest_monster, FovGrid};
use crate::text::{decimal, push_decimal, push_str};
use crate::{CONFUSE_NUM_TURNS, FIREBALL_DAMAGE, FIREBALL_RADIUS, HEAL_AMOUNT, LIGHTNING_DAMAGE, LIGHTNING_RANGE, PLAYER};

verus! {

pub open spec fn lightning_text(name: Seq<char>) -> Seq<char> {
    "A lightning bolt strikes the "@ + name + " with a deafening thunderclap! It damages for "@ + decimal(
        LIGHTNING_DAMAGE as int,
    ) + " points."@
}

pub open spec fn no_enemy_text() -> Seq<char> {
    "No enemy is close enough to strike."@
}

pub open spec fn target_prompt_text() -> Seq<char> {
    "Left-click a target tile for the faireball, or right-click to cancel."@
}

pub open spec fn vacant_text(name: Seq<char>) -> Seq<char> {
    "The eyes of "@ + name + " look vacant, and he starts to stumble around!"@
}

pub open spec fn explode_text() -> Seq<char> {
    "The fireball explodes, burning everything within "@ + decimal(FIREBALL_RADIUS as int) + " tiles!"@
}

pub open spec fn burn_text(name: Seq<char>) -> Seq<char> {
    "The "@ + name + " is burned for "@ + decimal(FIREBALL_DAMAGE as int) + " points of damage."@
}

/// Objects outside the first `i` are unchanged, and the others differ only
/// where stated.
pub open spec fn same_except(a: Seq<Object>, b: Seq<Object>, i: int, j: int) -> bool {
    &&& b.len() == a.len()
    &&& forall|k: int| 0 <= k < a.len() && k != i && k != j ==> #[trigger] b[k] == a[k]
}

/// The outcome of a healing potion: nothing for a player who cannot fight;
/// cancelled at full health; otherwise the player heals by `HEAL_AMOUNT`.
pub open spec fn heal_outcome(objs: Seq<Object>, g: Game, objs2: Seq<Object>, g2: Game, r: UseResult) -> bool {
    let p = objs[PLAYER as int];
    &&& g.same_but_log(g2)
    &&& match p.fighter {
        None => r == UseResult::Cancelled && objs2 == objs && g2.messages() == g.messages(),
        Some(f) => if f.hp == p.spec_max_hp(g.inventory@) {
            &&& r == UseResult::Cancelled
            &&& objs2 == objs
            &&& g2.messages() == g.messages().push(("You are already at full health."@, colors::spec_red()))
        } else {
            &&& r == UseResult::UsedUp
            &&& objs2 == objs.update(PLAYER as int, healed(p, HEAL_AMOUNT as int, p.spec_max_hp(g.inventory@)))
            &&& g2.messages() == g.messages().push(("Your wounds start to feel better!"@, colors::spec_light_violet()))
        },
    }
}

/// A healing potion can be drunk without overflow.
pub open spec fn heal_ok(objs: Seq<Object>, g: Game) -> bool {
    &&& objs.len() > PLAYER
    &&& objs[PLAYER as int].fighter matches Some(f) ==> {
        &&& fits_i32(objs[PLAYER as int].spec_max_hp(g.inventory@))
        &&& f.hp != objs[PLAYER as int].spec_max_hp(g.inventory@) ==> f.hp + HEAL_AMOUNT <= i32::MAX
    }
}

/// Heals the player by `HEAL_AMOUNT`, unless already at full health.
pub fn cast_heal(_inventory_id: usize, objects: &mut [Object], game: &mut Game) -> (r: UseResult)
    requires
        heal_ok(old(objects)@, *old(game)),
    ensures
        heal_outcome(old(objects)@, *old(game), final(objects)@, *final(game), r),
{
    let fighter = objects[PLAYER].fighter;
    if let Some(fighter) = fighter {
        if fighter.hp == objects[PLAYER].max_hp(game) {
            add_str_message(&mut game.log, "You are already at full health.", colors::red());
            return UseResult::Cancelled;
        }
        add_str_message(&mut game.log, "Your wounds start to feel better!", colors::light_violet());
        objects[PLAYER].heal(HEAL_AMOUNT, game);
        return UseResult::UsedUp;
    }
    UseResult::Cancelled
}

/// The outcome of a lightning scroll: the closest monster in view within
/// `LIGHTNING_RANGE` takes `LIGHTNING_DAMAGE`; the player gains its
/// experience if it dies. Cancelled when there is no such monster.
pub open spec fn lightning_outcome(objs: Seq<Object>, fov: Seq<Vec<bool>>, g: Game, objs2: Seq<Object>, g2: Game, r: UseResult) -> bool {
    &&& g.same_but_log(g2)
    &&& match spec_closest_monster(objs, fov, LIGHTNING_RANGE as int) {
        None => {
            &&& r == UseResult::Cancelled
            &&& objs2 == objs
            &&& g2.messages() == g.messages().push((no_enemy_text(), colors::spec_red()))
        },
        Some(i) => {
            let o = objs[i];
            let h = hurt(o, LIGHTNING_DAMAGE as int);
            let msgs = g.messages().push((lightning_text(o.name@), colors::spec_light_blue()));
            &&& r == UseResult::UsedUp
            &&& same_except(objs, objs2, PLAYER as int, i)
            &&& !kills(o, LIGHTNING_DAMAGE as int) ==> {
                &&& objs2[i] == h
                &&& objs2[PLAYER as int] == objs[PLAYER as int]
                &&& g2.messages() == msgs
            }
            &&& kills(o, LIGHTNING_DAMAGE as int) ==> {
                &&& remains(h, objs2[i])
                &&& objs2[PLAYER as int] == gain_xp(objs[PLAYER as int], o.fighter->0.xp as int)
                &&& g2.messages() == msgs.push(death_message(h))
            }
        },
    }
}

/// A lightning scroll can be read without overflow or failure.
pub open spec fn lightning_ok(objs: Seq<Object>, fov: Seq<Vec<bool>>) -> bool {
    &&& objs.len() > PLAYER
    &&& spec_closest_monster(objs, fov, LIGHTNING_RANGE as int) matches Some(i) ==> {
        &&& damage_ok(objs[i], LIGHTNING_DAMAGE as int)
        &&& kills(objs[i], LIGHTNING_DAMAGE as int) ==> {
            &&& objs[PLAYER as int].fighter is Some
            &&& i32::MIN <= objs[PLAYER as int].fighter->0.xp + objs[i].fighter->0.xp <= i32::MAX
        }
    }
}

/// Strikes the closest monster in view within `LIGHTNING_RANGE` for
/// `LIGHTNING_DAMAGE`.
pub fn cast_lightning(_inventory_id: usize, objects: &mut [Object], game: &mut Game, fov: &FovGrid) -> (r: UseResult)
    requires
        lightning_ok(old(objects)@, fov@),
    ensures
        lightning_outcome(old(objects)@, fov@, *old(game), final(objects)@, *final(game), r),
{
    let monster_id = closest_monster(LIGHTNING_RANGE, objects, fov);
    proof { crate::targeting::lemma_closest_monster(objects@, fov@, LIGHTNING_RANGE as int, objects@.len() as int); }
    if let Some(monster_id) = monster_id {
        let mut msg = String::new();
        push_str(&mut msg, "A lightning bolt strikes the ");
        push_str(&mut msg, objects[monster_id].name.as_str());
        push_str(&mut msg, " with a deafening thunderclap! It damages for ");
        push_decimal(&mut msg, LIGHTNING_DAMAGE as i64);
        push_str(&mut msg, " points.");
        add_message(&mut game.log, msg, colors::light_blue());
        if let Some(xp) = objects[monster_id].take_damage(LIGHTNING_DAMAGE, game) {
            if let Some(f) = &mut objects[PLAYER].fighter {
                f.xp = f.xp + xp;
            }
        }
        UseResult::UsedUp
    } else {
        add_str_message(&mut game.log, "No enemy is close enough to strike.", colors::red());
        UseResult::Cancelled
    }
}

/// The behaviour a monster returns to once confusion wears off: the one it
/// had, or the basic one.
pub open spec fn previous_ai(o: Object) -> Ai {
    match o.ai {
        Some(a) => a,
        None => Ai::Basic,
    }
}

/// The outcome of a confusion scroll on the monster chosen, if any: it is
/// confused for `CONFUSE_NUM_TURNS` turns, keeping its behaviour for after.
pub open spec fn confuse_outcome(objs: Seq<Object>, g: Game, target: Option<usize>, objs2: Seq<Object>, g2: Game, r: UseResult) -> bool {
    let msgs = g.messages().push((target_prompt_text(), colors::spec_light_cyan()));
    &&& g.same_but_log(g2)
    &&& match target {
        None => {
            &&& r == UseResult::Cancelled
            &&& objs2 == objs
            &&& g2.messages() == msgs.push((no_enemy_text(), colors::spec_red()))
        },
        Some(m) => {
            let o = objs[m as int];
            &&& r == UseResult::UsedUp
            &&& objs2 == objs.update(m as int, Object {
                ai: Some(Ai::Confused { previous_ai: Box::new(previous_ai(o)), num_turns: CONFUSE_NUM_TURNS }),
                ..o
            })
            &&& g2.messages() == msgs.push((vacant_text(o.name@), colors::spec_light_green()))
        },
    }
}

/// Confuses the monster the player picked, if any.
pub fn cast_confuse(_inventory_id: usize, objects: &mut [Object], game: &mut Game, target: Option<usize>) -> (r: UseResult)
    requires
        target matches Some(m) ==> m < old(objects)@.len(),
    ensures
        confuse_outcome(old(objects)@, *old(game), target, final(objects)@, *final(game), r),
{
    add_str_message(
        &mut game.log,
        "Left-click a target tile for the faireball, or right-click to cancel.",
        colors::light_cyan(),
    );
    if let Some(monster_id) = target {
        let old_ai = match objects[monster_id].ai.take() {
            Some(a) => a,
            None => Ai::Basic,
        };
        assert(old_ai == previous_ai(old(objects)@[monster_id as int]));
        objects[monster_id].ai = Some(Ai::Confused { previous_ai: Box::new(old_ai), num_turns: CONFUSE_NUM_TURNS });
        assert(objects@ == old(objects)@.update(monster_id as int, Object {
            ai: Some(Ai::Confused { previous_ai: Box::new(previous_ai(old(objects)@[monster_id as int])), num_turns: CONFUSE_NUM_TURNS }),
            ..old(objects)@[monster_id as int]
        }));
        let mut msg = String::new();
        push_str(&mut msg, "The eyes of ");
        push_str(&mut msg, objects[monster_id].name.as_str());
        push_str(&mut msg, " look vacant, and he starts to stumble around!");
        add_message(&mut game.log, msg, colors::light_green());
        UseResult::UsedUp
    } else {
        add_str_message(&mut game.log, "No enemy is close enough to strike.", colors::red());
        UseResult::Cancelled
    }
}

/// Whether the fireball at `(x, y)` burns `o`: a fighter closer than
/// `FIREBALL_RADIUS`.
pub open spec fn burns(o: Object, x: int, y: int) -> bool {
    dist2_to(o, x, y) < FIREBALL_RADIUS * FIREBALL_RADIUS && o.fighter is Some
}

/// `n` is `o` after the fireball at `(x, y)`.
pub open spec fn burned(o: Object, n: Object, x: int, y: int) -> bool {
    if burns(o, x, y) {
        if kills(o, FIREBALL_DAMAGE as int) {
            remains(hurt(o, FIREBALL_DAMAGE as int), n)
        } else {
            n == hurt(o, FIREBALL_DAMAGE as int)
        }
    } else {
        n == o
    }
}

/// The messages the fireball logs about `o`.
pub open spec fn burn_messages(o: Object, x: int, y: int) -> Seq<(Seq<char>, Color)> {
    if burns(o, x, y) {
        seq![(burn_text(o.name@), colors::spec_orange())] + if kills(o, FIREBALL_DAMAGE as int) {
            seq![death_message(hurt(o, FIREBALL_DAMAGE as int))]
        } else {
            seq![]
        }
    } else {
        seq![]
    }
}

/// The messages the fireball logs about the objects, in order.
pub open spec fn fireball_messages(objs: Seq<Object>, x: int, y: int) -> Seq<(Seq<char>, Color)>
    decreases objs.len(),
{
    if objs.len() == 0 {
        seq![]
    } else {
        fireball_messages(objs.drop_last(), x, y) + burn_messages(objs.last(), x, y)
    }
}

/// The experience the player gains from the fireball: that of every object
/// other than the player that it kills.
pub open spec fn fireball_xp(objs: Seq<Object>, x: int, y: int) -> int
    decreases objs.len(),
{
    if objs.len() == 0 {
        0
    } else {
        let o = objs.last();
        fireball_xp(objs.drop_last(), x, y) + if objs.len() - 1 != PLAYER && burns(o, x, y) && kills(o, FIREBALL_DAMAGE as int) {
            o.fighter->0.xp as int
        } else {
            0
        }
    }
}

/// The player after a fireball it survives.
pub open spec fn burned_alive(o: Object, x: int, y: int) -> Object {
    if burns(o, x, y) { hurt(o, FIREBALL_DAMAGE as int) } else { o }
}

/// The outcome of a fireball scroll aimed at the tile chosen, if any: every
/// fighter closer than `FIREBALL_RADIUS` takes `FIREBALL_DAMAGE`, and the
/// player gains the experience of those that die.
pub open spec fn fireball_outcome(objs: Seq<Object>, g: Game, tile: Option<(i32, i32)>, objs2: Seq<Object>, g2: Game, r: UseResult) -> bool {
    let msgs = g.messages().push((target_prompt_text(), colors::spec_light_cyan()));
    &&& g.same_but_log(g2)
    &&& match tile {
        None => {
            &&& r == UseResult::Cancelled
            &&& objs2 == objs
            &&& g2.messages() == msgs
        },
        Some((x, y)) => {
            &&& r == UseResult::UsedUp
            &&& objs2.len() == objs.len()
            &&& forall|k: int| PLAYER < k < objs.len() ==> burned(#[trigger] objs[k], objs2[k], x as int, y as int)
            &&& objs2[PLAYER as int] == gain_xp(burned_alive(objs[PLAYER as int], x as int, y as int), fireball_xp(objs, x as int, y as int))
            &&& g2.messages() == msgs.push((explode_text(), colors::spec_orange())) + fireball_messages(objs, x as int, y as int)
        },
    }
}

/// A fireball at the tile chosen can be cast without overflow or failure:
/// the player can fight and survives it, no hit points overflow, and the
/// experience gained adds up within range.
pub open spec fn fireball_ok(objs: Seq<Object>, tile: Option<(i32, i32)>) -> bool {
    &&& objs.len() > PLAYER
    &&& tile matches Some((x, y)) ==> {
        let p = objs[PLAYER as int];
        &&& p.fighter is Some
        &&& !(burns(p, x as int, y as int) && kills(p, FIREBALL_DAMAGE as int))
        &&& forall|k: int| 0 <= k < objs.len() && burns(#[trigger] objs[k], x as int, y as int) ==> damage_ok(objs[k], FIREBALL_DAMAGE as int)
        &&& forall|n: int| 0 <= n <= objs.len() ==> i32::MIN <= #[trigger] fireball_xp(objs.take(n), x as int, y as int) <= i32::MAX
        &&& i32::MIN <= p.fighter->0.xp + fireball_xp(objs, x as int, y as int) <= i32::MAX
    }
}

/// Casts a fireball at the tile chosen, if any.
pub fn cast_fireball(_inventory_id: usize, objects: &mut [Object], game: &mut Game, tile: Option<(i32, i32)>) -> (r: UseResult)
    requires
        fireball_ok(old(objects)@, tile),
    ensures
        fireball_outcome(old(objects)@, *old(game), tile, final(objects)@, *final(game), r),
{
    add_str_message(
        &mut game.log,
        "Left-click a target tile for the faireball, or right-click to cancel.",
        colors::light_cyan(),
    );
    let (x, y) = match tile {
        Some(tile_pos) => tile_pos,
        None => return UseResult::Cancelled,
    };
    let mut msg = String::new();
    push_str(&mut msg, "The fireball explodes, burning everything within ");
    push_decimal(&mut msg, FIREBALL_RADIUS as i64);
    push_str(&mut msg, " tiles!");
    add_message(&mut game.log, msg, colors::orange());

    let ghost objs = old(objects)@;
    let ghost msgs0 = log_view(game.log@);
    let mut xp_to_gain: i32 = 0;
    let mut id: usize = 0;
    assert(objs.take(0) =~= Seq::<Object>::empty());
    assert(msgs0 =~= msgs0 + fireball_messages(objs.take(0), x as int, y as int));
    while id < objects.len()
        invariant
            objs == old(objects)@,
            fireball_ok(objs, tile),
            tile == Some((x, y)),
            objects@.len() == objs.len(),
            id <= objs.len(),
            forall|k: int| 0 <= k < id && k != PLAYER ==> burned(#[trigger] objs[k], objects@[k], x as int, y as int),
            id > PLAYER ==> objects@[PLAYER as int] == burned_alive(objs[PLAYER as int], x as int, y as int),
            forall|k: int| id <= k < objs.len() ==> #[trigger] objects@[k] == objs[k],
            xp_to_gain == fireball_xp(objs.take(id as int), x as int, y as int),
            log_view(game.log@) == msgs0 + fireball_messages(objs.take(id as int), x as int, y as int),
            old(game).same_but_log(*game),
        decreases objs.len() - id,
    {
        assert(objs.take(id + 1).drop_last() =~= objs.take(id as int));
        assert(objs.take(id + 1).last() == objs[id as int]);
        let d = objects[id].distance_squared(x, y);
        if d < (FIREBALL_RADIUS * FIREBALL_RADIUS) as i128 && objects[id].fighter.is_some() {
            let mut msg = String::new();
            push_str(&mut msg, "The ");
            push_str(&mut msg, objects[id].name.as_str());
            push_str(&mut msg, " is burned for ");
            push_decimal(&mut msg, FIREBALL_DAMAGE as i64);
            push_str(&mut msg, " points of damage.");
            add_message(&mut game.log, msg, colors::orange());
            let ghost log1 = log_view(game.log@);
            let res = objects[id].take_damage(FIREBALL_DAMAGE, game);
            if let Some(xp) = res {
                if id != PLAYER {
                    assert(i32::MIN <= fireball_xp(objs.take(id + 1), x as int, y as int) <= i32::MAX);
                    xp_to_gain = xp_to_gain + xp;
                }
            }
            proof {
                assert(log_view(game.log@) =~= msgs0 + fireball_messages(objs.take(id + 1), x as int, y as int));
            }
        } else {
            proof {
                assert(log_view(game.log@) =~= msgs0 + fireball_messages(objs.take(id + 1), x as int, y as int));
            }
        }
        id = id + 1;
    }
    assert(objs.take(objs.len() as int) =~= objs);
    if let Some(f) = &mut objects[PLAYER].fighter {
        f.xp = f.xp + xp_to_gain;
    }
    assert(log_view(game.log@) =~= old(game).messages().push((target_prompt_text(), colors::spec_light_cyan()))
        .push((explode_text(), colors::spec_orange())) + fireball_messages(objs, x as int, y as int));
    UseResult::UsedUp
}

fn would_burn(o: &Object, x: i32, y: i32) -> (b: bool)
    ensures
        b == burns(*o, x as int, y as int),
{
    o.distance_squared(x, y) < (FIREBALL_RADIUS * FIREBALL_RADIUS) as i128 && o.fighter.is_some()
}

/// Whether a healing potion can be drunk without overflow.
pub fn heal_is_safe(objects: &[Object], game: &Game) -> (b: bool)
    ensures
        b == heal_ok(objects@, *game),
{
    if objects.len() == 0 {
        return false;
    }
    let p = &objects[PLAYER];
    match p.fighter {
        Some(f) => {
            let max_hp = p.max_hp_exact(game);
            i32::MIN as i128 <= max_hp && max_hp <= i32::MAX as i128 && (f.hp as i128 == max_hp
                || f.hp as i64 + HEAL_AMOUNT as i64 <= i32::MAX as i64)
        },
        None => true,
    }
}

/// Whether a lightning scroll can be read without overflow or failure.
pub fn lightning_is_safe(objects: &[Object], fov: &FovGrid) -> (b: bool)
    ensures
        b == lightning_ok(objects@, fov@),
{
    if objects.len() == 0 {
        return false;
    }
    let found = closest_monster(LIGHTNING_RANGE, objects, fov);
    proof { crate::targeting::lemma_closest_monster(objects@, fov@, LIGHTNING_RANGE as int, objects@.len() as int); }
    match found {
        Some(i) => {
            let o = &objects[i];
            if !damage_is_ok(o, LIGHTNING_DAMAGE) {
                return false;
            }
            if would_kill(o, LIGHTNING_DAMAGE) {
                match objects[PLAYER].fighter {
                    Some(f) => {
                        let sum = f.xp as i64 + o.fighter.unwrap().xp as i64;
                        i32::MIN as i64 <= sum && sum <= i32::MAX as i64
                    },
                    None => false,
                }
            } else {
                true
            }
        },
        None => true,
    }
}

/// Whether a fireball at the tile chosen can be cast without overflow or
/// failure.
pub fn fireball_is_safe(objects: &[Object], tile: Option<(i32, i32)>) -> (b: bool)
    ensures
        b == fireball_ok(objects@, tile),
{
    if objects.len() == 0 {
        return false;
    }
    let (x, y) = match tile {
        Some(t) => t,
        None => return true,
    };
    let p = &objects[PLAYER];
    if p.fighter.is_none() {
        return false;
    }
    if !damage_is_ok(p, FIREBALL_DAMAGE) {
        if would_burn(p, x, y) {
            return false;
        }
    } else if would_burn(p, x, y) && would_kill(p, FIREBALL_DAMAGE) {
        return false;
    }
    let ghost objs = objects@;
    let mut total: i64 = 0;
    let mut k: usize = 0;
    assert(objs.take(0) =~= Seq::<Object>::empty());
    while k < objects.len()
        invariant
            objs == objects@,
            tile == Some((x, y)),
            objs.len() > PLAYER,
            k <= objs.len(),
            total == fireball_xp(objs.take(k as int), x as int, y as int),
            i32::MIN <= total <= i32::MAX,
            forall|j: int| 0 <= j < k && burns(#[trigger] objs[j], x as int, y as int) ==> damage_ok(objs[j], FIREBALL_DAMAGE as int),
            forall|n: int| 0 <= n <= k ==> i32::MIN <= #[trigger] fireball_xp(objs.take(n), x as int, y as int) <= i32::MAX,
        decreases objs.len() - k,
    {
        let o = &objects[k];
        assert(objs.take(k + 1).drop_last() =~= objs.take(k as int));
        assert(objs.take(k + 1).last() == objs[k as int]);
        if would_burn(o, x, y) {
            if !damage_is_ok(o, FIREBALL_DAMAGE) {
                assert(burns(objs[k as int], x as int, y as int));
                return false;
            }
            if k != PLAYER && would_kill(o, FIREBALL_DAMAGE) {
                total = total + o.fighter.unwrap().xp as i64;
                if total < i32::MIN as i64 || total > i32::MAX as i64 {
                    assert(total == fireball_xp(objs.take(k + 1), x as int, y as int));
                    return false;
                }
            }
        }
        proof {
            assert forall|n: int| 0 <= n <= k + 1 implies i32::MIN <= #[trigger] fireball_xp(objs.take(n), x as int, y as int) <= i32::MAX by {
                if n == k + 1 {
                } else {
                }
            }
        }
        k = k + 1;
    }
    assert(objs.take(objs.len() as int) =~= objs);
    let sum = p.fighter.unwrap().xp as i64 + total;
    i32::MIN as i64 <= sum && sum <= i32::MAX as i64
}

} // verus!

verus! {

/// The experience a fireball gives adds up over the objects: none from no
/// objects, and one more object adds exactly its experience when the
/// fireball burns and kills it and it is not the player, nothing otherwise.
pub proof fn lemma_fireball_xp_adds_up(objs: Seq<Object>, o: Object, x: int, y: int)
    ensures
        fireball_xp(Seq::<Object>::empty(), x, y) == 0,
        fireball_xp(objs.push(o), x, y) == fireball_xp(objs, x, y) + if objs.len() != PLAYER && burns(o, x, y)
            && kills(o, FIREBALL_DAMAGE as int) {
            o.fighter->0.xp as int
        } else {
            0
        },
{
    assert(objs.push(o).drop_last() =~= objs);
}

/// Two monsters killed by one fireball both give their experience: the
/// player gains the sum of theirs.
pub proof fn lemma_fireball_xp_of_two_kills(p: Object, a: Object, b: Object, x: int, y: int)
    requires
        !(burns(p, x, y) && kills(p, FIREBALL_DAMAGE as int)),
        burns(a, x, y) && kills(a, FIREBALL_DAMAGE as int),
        burns(b, x, y) && kills(b, FIREBALL_DAMAGE as int),
    ensures
        fireball_xp(seq![p, a, b], x, y) == a.fighter->0.xp + b.fighter->0.xp,
{
    lemma_fireball_xp_adds_up(Seq::<Object>::empty(), p, x, y);
    assert(seq![p] =~= Seq::<Object>::empty().push(p));
    lemma_fireball_xp_adds_up(seq![p], a, x, y);
    assert(seq![p, a] =~= seq![p].push(a));
    lemma_fireball_xp_adds_up(seq![p, a], b, x, y);
    assert(seq![p, a, b] =~= seq![p, a].push(b));
}

/// A fireball cast at a tile changes the player's experience by exactly the
/// experience of the fighters it kills (other than the player).
pub proof fn lemma_fireball_player_gains_xp(objs: Seq<Object>, g: Game, x: i32, y: i32, objs2: Seq<Object>, g2: Game, r: UseResult)
    requires
        fireball_ok(objs, Some((x, y))),
        fireball_outcome(objs, g, Some((x, y)), objs2, g2, r),
    ensures
        objs2[PLAYER as int].fighter is Some,
        objs2[PLAYER as int].fighter->0.xp == objs[PLAYER as int].fighter->0.xp + fireball_xp(objs, x as int, y as int),
{
}

/// The fireball burns the fighters within two tiles along both axes of the
/// tile it is cast at, and none three or more tiles away along either axis;
/// nothing that does not fight is burned.
pub proof fn lemma_fireball_reach(o: Object, x: int, y: int)
    ensures
        o.fighter is None ==> !burns(o, x, y),
        o.fighter is Some && -2 <= o.x - x <= 2 && -2 <= o.y - y <= 2 ==> burns(o, x, y),
        o.x - x >= 3 || o.x - x <= -3 || o.y - y >= 3 || o.y - y <= -3 ==> !burns(o, x, y),
{
    let dx = o.x - x;
    let dy = o.y - y;
    assert(dist2_to(o, x, y) == (x - o.x) * (x - o.x) + (y - o.y) * (y - o.y));
    if -2 <= dx <= 2 && -2 <= dy <= 2 {
        assert((x - o.x) * (x - o.x) + (y - o.y) * (y - o.y) <= 8) by (nonlinear_arith)
            requires -2 <= o.x - x <= 2, -2 <= o.y - y <= 2;
    }
    if dx >= 3 || dx <= -3 || dy >= 3 || dy <= -3 {
        assert((x - o.x) * (x - o.x) + (y - o.y) * (y - o.y) >= 9) by (nonlinear_arith)
            requires o.x - x >= 3 || o.x - x <= -3 || o.y - y >= 3 || o.y - y <= -3;
    }
}

/// A lightning bolt takes exactly 40 hit points (`LIGHTNING_DAMAGE`) from the
/// monster it strikes, which is in view and no farther than
/// `LIGHTNING_RANGE` (closer than one tile more), with no monster in view
/// closer; the player is unchanged unless the monster dies, and then gains
/// exactly its experience.
pub proof fn lemma_lightning_strike(objs: Seq<Object>, fov: Seq<Vec<bool>>, g: Game, objs2: Seq<Object>, g2: Game, r: UseResult)
    requires
        lightning_ok(objs, fov),
        lightning_outcome(objs, fov, g, objs2, g2, r),
    ensures
        spec_closest_monster(objs, fov, LIGHTNING_RANGE as int) matches Some(i) ==> {
            &&& 0 <= i < objs.len()
            &&& i != PLAYER
            &&& objs[i].fighter is Some
            &&& crate::targeting::in_fov(fov, objs[i].x as int, objs[i].y as int)
            &&& dist2(objs[PLAYER as int], objs[i]) < 36
            &&& forall|k: int| 0 <= k < objs.len() && crate::targeting::visible_monster(objs, fov, k)
                ==> dist2(objs[PLAYER as int], #[trigger] objs[k]) >= dist2(objs[PLAYER as int], objs[i])
            &&& r == UseResult::UsedUp
            &&& !kills(objs[i], LIGHTNING_DAMAGE as int) ==> objs2[i].fighter->0.hp == objs[i].fighter->0.hp - 40
                && objs2[PLAYER as int] == objs[PLAYER as int]
            &&& kills(objs[i], LIGHTNING_DAMAGE as int) ==> objs2[PLAYER as int].fighter->0.xp
                == objs[PLAYER as int].fighter->0.xp + objs[i].fighter->0.xp
        },
        spec_closest_monster(objs, fov, LIGHTNING_RANGE as int) is None ==> r == UseResult::Cancelled && objs2 == objs,
{
    crate::targeting::lemma_closest_monster(objs, fov, LIGHTNING_RANGE as int, objs.len() as int);
}

/// A healing potion raises the player's hit points by 40 (`HEAL_AMOUNT`), but
/// never above the maximum; at full health it is not used up.
pub proof fn lemma_heal_amount(objs: Seq<Object>, g: Game, objs2: Seq<Object>, g2: Game, r: UseResult)
    requires
        heal_ok(objs, g),
        heal_outcome(objs, g, objs2, g2, r),
        objs[PLAYER as int].fighter is Some,
        objs[PLAYER as int].fighter->0.hp <= objs[PLAYER as int].spec_max_hp(g.inventory@),
    ensures
        ({
            let f = objs[PLAYER as int].fighter->0;
            let max_hp = objs[PLAYER as int].spec_max_hp(g.inventory@);
            let h = objs2[PLAYER as int].fighter->0.hp;
            &&& f.hp == max_hp ==> r == UseResult::Cancelled && objs2 == objs
            &&& f.hp < max_hp ==> r == UseResult::UsedUp && f.hp < h <= max_hp && h <= f.hp + 40
                && (h == max_hp || h == f.hp + 40)
        }),
{
}

/// The confusion scroll confuses the monster chosen for exactly
/// `CONFUSE_NUM_TURNS` turns, keeping its behaviour for after, and touches no
/// other object.
pub proof fn lemma_confuse_effect(objs: Seq<Object>, g: Game, m: usize, objs2: Seq<Object>, g2: Game, r: UseResult)
    requires
        m < objs.len(),
        confuse_outcome(objs, g, Some(m), objs2, g2, r),
    ensures
        r == UseResult::UsedUp,
        objs2.len() == objs.len(),
        objs2[m as int].ai matches Some(Ai::Confused { num_turns, .. }) && num_turns == 10,
        forall|k: int| 0 <= k < objs.len() && k != m ==> objs2[k] == objs[k],
        objs2[m as int].x == objs[m as int].x && objs2[m as int].y == objs[m as int].y,
        objs2[m as int].fighter == objs[m as int].fighter,
{
}

/// A fireball takes exactly 25 hit points (`FIREBALL_DAMAGE`) from every
/// monster it burns that survives, kills the others, and leaves what it
/// does not burn as it was.
pub proof fn lemma_fireball_effect(o: Object, n: Object, x: int, y: int)
    requires
        burned(o, n, x, y),
        o.fighter matches Some(f) ==> f.hp - 25 >= i32::MIN,
    ensures
        !burns(o, x, y) ==> n == o,
        burns(o, x, y) && o.fighter->0.hp > 25 ==> n.fighter->0.hp == o.fighter->0.hp - 25 && n.x == o.x && n.y == o.y,
        burns(o, x, y) && o.fighter->0.hp <= 25 ==> n.fighter is None && !n.alive,
{
    if burns(o, x, y) && kills(o, FIREBALL_DAMAGE as int) {
        let h = hurt(o, FIREBALL_DAMAGE as int);
        match h.fighter->0.on_death {
            DeathCallback::Player => {},
            DeathCallback::Monster => {},
        }
    }
}

} // verus!
