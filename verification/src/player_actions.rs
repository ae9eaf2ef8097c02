//! Levelling up the player.
use vstd::prelude::*;
use crate::colors;
use crate::data::{add_message, Fighter, Game, Object};
use crate::text::{decimal, push_decimal, push_str};
use crate::{LEVEL_UP_BASE, LEVEL_UP_FACTOR, PLAYER};

verus! {

/// The experience needed to level up from `level`.
pub open spec fn level_up_xp(level: int) -> int {
    LEVEL_UP_BASE + level * LEVEL_UP_FACTOR
}

/// The player's experience; none without fighting stats.
pub open spec fn xp_of(o: Object) -> int {
    match o.fighter {
        Some(f) => f.xp as int,
        None => 0,
    }
}

pub open spec fn level_up_text(level: int) -> Seq<char> {
    "Your battle skills grow stronger! You reached level "@ + decimal(level) + "!"@
}

/// The player can check for a level up without overflow or failure.
pub open spec fn level_up_ok(objs: Seq<Object>) -> bool {
    let p = objs[PLAYER as int];
    &&& objs.len() > PLAYER
    &&& i32::MIN <= p.level * LEVEL_UP_FACTOR <= i32::MAX
    &&& i32::MIN <= level_up_xp(p.level as int) <= i32::MAX
    &&& p.level < i32::MAX
    &&& p.fighter is None ==> level_up_xp(p.level as int) > 0
}

/// Whether the player can check for a level up without overflow or failure.
pub fn level_up_is_ok(objects: &[Object]) -> (b: bool)
    ensures
        b == level_up_ok(objects@),
{
    if objects.len() == 0 {
        return false;
    }
    let p = &objects[PLAYER];
    let scaled: i64 = p.level as i64 * LEVEL_UP_FACTOR as i64;
    let needed: i64 = LEVEL_UP_BASE as i64 + scaled;
    if scaled < i32::MIN as i64 || scaled > i32::MAX as i64 || needed < i32::MIN as i64 || needed > i32::MAX as i64 {
        return false;
    }
    p.level < i32::MAX && (p.fighter.is_some() || needed > 0)
}

/// When the player has the experience needed for the next level, its level
/// goes up by one, this is announced, and the experience it costs is
/// returned for the player to choose a stat to raise; otherwise nothing
/// happens.
pub fn level_up(objects: &mut [Object], game: &mut Game) -> (cost: Option<i32>)
    requires
        level_up_ok(old(objects)@),
    ensures
        ({
            let p = old(objects)@[PLAYER as int];
            let needed = level_up_xp(p.level as int);
            if xp_of(p) >= needed {
                &&& cost == Some(needed as i32)
                &&& p.fighter is Some
                &&& final(objects)@ == old(objects)@.update(PLAYER as int, Object { level: (p.level + 1) as i32, ..p })
                &&& old(game).same_but_log(*final(game))
                &&& final(game).messages() == old(game).messages().push((level_up_text(p.level + 1), colors::spec_yellow()))
            } else {
                &&& cost is None
                &&& final(objects)@ == old(objects)@
                &&& *final(game) == *old(game)
            }
        }),
{
    let level_up_xp = LEVEL_UP_BASE + objects[PLAYER].level * LEVEL_UP_FACTOR;
    let xp = match objects[PLAYER].fighter {
        Some(f) => f.xp,
        None => 0,
    };
    if xp >= level_up_xp {
        objects[PLAYER].level = objects[PLAYER].level + 1;
        let mut msg = String::new();
        push_str(&mut msg, "Your battle skills grow stronger! You reached level ");
        push_decimal(&mut msg, objects[PLAYER].level as i64);
        push_str(&mut msg, "!");
        add_message(&mut game.log, msg, colors::yellow());
        Some(level_up_xp)
    } else {
        None
    }
}

/// The fighter after spending `cost` experience to raise the stat chosen:
/// 0 gives 20 more maximum hit points (and heals them), 1 one more power,
/// 2 one more defense.
pub open spec fn raised(f: Fighter, cost: int, choice: int) -> Fighter {
    let f2 = Fighter { xp: (f.xp - cost) as i32, ..f };
    if choice == 0 {
        Fighter { base_max_hp: (f.base_max_hp + 20) as i32, hp: (f.hp + 20) as i32, ..f2 }
    } else if choice == 1 {
        Fighter { base_power: (f.base_power + 1) as i32, ..f2 }
    } else {
        Fighter { base_defense: (f.base_defense + 1) as i32, ..f2 }
    }
}

/// The stat chosen can be raised without overflow or failure.
pub open spec fn raise_ok(objs: Seq<Object>, cost: int, choice: int) -> bool {
    &&& objs.len() > PLAYER
    &&& 0 <= choice < 3
    &&& objs[PLAYER as int].fighter matches Some(f) && {
        &&& i32::MIN <= f.xp - cost <= i32::MAX
        &&& choice == 0 ==> f.base_max_hp + 20 <= i32::MAX && f.hp + 20 <= i32::MAX
        &&& choice == 1 ==> f.base_power + 1 <= i32::MAX
        &&& choice == 2 ==> f.base_defense + 1 <= i32::MAX
    }
}

/// Whether the stat chosen can be raised without overflow or failure.
pub fn raise_is_ok(objects: &[Object], cost: i32, choice: usize) -> (b: bool)
    ensures
        b == raise_ok(objects@, cost as int, choice as int),
{
    if objects.len() == 0 || choice >= 3 {
        return false;
    }
    match objects[PLAYER].fighter {
        Some(f) => {
            let xp: i64 = f.xp as i64 - cost as i64;
            i32::MIN as i64 <= xp && xp <= i32::MAX as i64 && if choice == 0 {
                f.base_max_hp as i64 + 20 <= i32::MAX as i64 && f.hp as i64 + 20 <= i32::MAX as i64
            } else if choice == 1 {
                f.base_power as i64 + 1 <= i32::MAX as i64
            } else {
                f.base_defense as i64 + 1 <= i32::MAX as i64
            }
        },
        None => false,
    }
}

/// Spends the experience of a level up on the stat the player chose.
pub fn raise_stat(objects: &mut [Object], cost: i32, choice: usize)
    requires
        raise_ok(old(objects)@, cost as int, choice as int),
    ensures
        ({
            let p = old(objects)@[PLAYER as int];
            final(objects)@ == old(objects)@.update(PLAYER as int, Object {
                fighter: Some(raised(p.fighter->0, cost as int, choice as int)),
                ..p
            })
        }),
{
    if let Some(fighter) = &mut objects[PLAYER].fighter {
        fighter.xp = fighter.xp - cost;
        if choice == 0 {
            fighter.base_max_hp = fighter.base_max_hp + 20;
            fighter.hp = fighter.hp + 20;
        } else if choice == 1 {
            fighter.base_power = fighter.base_power + 1;
        } else {
            fighter.base_defense = fighter.base_defense + 1;
        }
    }
}

/// Spending the experience of a level up always lowers the experience by
/// exactly the cost and raises exactly one stat.
pub proof fn lemma_raise_spends_cost(f: Fighter, cost: int, choice: int)
    requires
        0 <= choice < 3,
        i32::MIN <= f.xp - cost <= i32::MAX,
        f.base_max_hp + 20 <= i32::MAX,
        f.hp + 20 <= i32::MAX,
        f.base_power + 1 <= i32::MAX,
        f.base_defense + 1 <= i32::MAX,
    ensures
        raised(f, cost, choice).xp == f.xp - cost,
        raised(f, cost, choice).base_max_hp + raised(f, cost, choice).base_power + raised(f, cost, choice).base_defense
            == f.base_max_hp + f.base_power + f.base_defense + if choice == 0 { 20int } else { 1int },
{
}

/// What each choice raises, exactly: Constitution adds 20 to both the
/// maximum and the current hit points (it does not heal beyond that),
/// Strength adds 1 power, Agility 1 defense; the experience spent is the
/// cost; nothing else about the fighter changes.
pub proof fn lemma_raise_effects(f: Fighter, cost: int, choice: int)
    requires
        0 <= choice < 3,
        i32::MIN <= f.xp - cost <= i32::MAX,
        choice == 0 ==> f.base_max_hp + 20 <= i32::MAX && f.hp + 20 <= i32::MAX,
        choice == 1 ==> f.base_power + 1 <= i32::MAX,
        choice == 2 ==> f.base_defense + 1 <= i32::MAX,
    ensures
        raised(f, cost, choice).xp == f.xp - cost,
        raised(f, cost, choice).on_death == f.on_death,
        raised(f, cost, choice).hp == f.hp + if choice == 0 { 20int } else { 0 },
        raised(f, cost, choice).base_max_hp == f.base_max_hp + if choice == 0 { 20int } else { 0 },
        raised(f, cost, choice).base_power == f.base_power + if choice == 1 { 1int } else { 0 },
        raised(f, cost, choice).base_defense == f.base_defense + if choice == 2 { 1int } else { 0 },
        choice == 0 ==> raised(f, cost, choice).base_max_hp - raised(f, cost, choice).hp == f.base_max_hp - f.hp,
{
}

/// The experience needed for the next level is 200 at level 0 and grows
/// by 150 with each level.
pub proof fn lemma_level_up_threshold(level: int)
    ensures
        level_up_xp(0) == 200,
        level_up_xp(level + 1) == level_up_xp(level) + 150,
{
}

} // verus!
