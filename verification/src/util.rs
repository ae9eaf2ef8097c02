//! Helpers shared by the game rules: two distinct mutable borrows of a list,
//! level tables, and what happens when the player or a monster dies.
use vstd::prelude::*;
use crate::colors::{dark_orange, dark_red, spec_dark_orange, spec_dark_red, spec_white, white};
use crate::object::fits_i32;
use crate::PLAYER;
use crate::data::{add_message, add_str_message, Game, Object, Transition};
use crate::text::{decimal, push_decimal, push_str};

verus! {

/// Mutable references to two distinct elements of `items`, in the order of
/// the indices given.
pub fn mut_two<T>(first_index: usize, second_index: usize, items: &mut [T]) -> (ret: (&mut T, &mut T))
    requires
        first_index != second_index,
        first_index < old(items)@.len(),
        second_index < old(items)@.len(),
    ensures
        *ret.0 == old(items)@[first_index as int],
        *ret.1 == old(items)@[second_index as int],
        final(items)@ == old(items)@.update(first_index as int, *final(ret.0)).update(
            second_index as int,
            *final(ret.1),
        ),
{
    let split_at_index = if first_index < second_index { second_index } else { first_index };
    let (first_slice, second_slice) = items.split_at_mut(split_at_index);
    if first_index < second_index {
        (&mut first_slice[first_index], &mut second_slice[0])
    } else {
        (&mut second_slice[0], &mut first_slice[second_index])
    }
}

/// The value of the last row of `table` whose level is at most `level`, or 0
/// when there is none.
pub open spec fn spec_from_dungeon_level(table: Seq<Transition>, level: u32) -> u32
    decreases table.len(),
{
    if table.len() == 0 {
        0
    } else if level >= table.last().level {
        table.last().value
    } else {
        spec_from_dungeon_level(table.drop_last(), level)
    }
}

/// Looks up a value that depends on the dungeon level: the value of the last
/// row whose level is at most `level`, 0 when no row qualifies.
pub fn from_dungeon_level(table: &[Transition], level: u32) -> (v: u32)
    ensures
        v == spec_from_dungeon_level(table@, level),
{
    let mut i: usize = table.len();
    assert(table@.subrange(0, i as int) =~= table@);
    while i > 0
        invariant
            i <= table@.len(),
            spec_from_dungeon_level(table@, level) == spec_from_dungeon_level(
                table@.subrange(0, i as int),
                level,
            ),
        decreases i,
    {
        assert(table@.subrange(0, i as int).drop_last() =~= table@.subrange(0, i - 1));
        if level >= table[i - 1].level {
            return table[i - 1].value;
        }
        i = i - 1;
    }
    0
}

/// The player after death: a red `%`, no longer alive, without fighting
/// stats, renamed "The remains of <name>. R.I.P."; nothing else changes.
pub open spec fn player_remains(o: Object, n: Object) -> bool {
    &&& n == (Object {
        char: '%',
        color: spec_dark_red(),
        alive: false,
        fighter: None,
        name: n.name,
        ..o
    })
    &&& n.name@ == "The remains of "@ + o.name@ + ". R.I.P."@
}

/// A monster after death: a red `%` that does not block, is not alive, has
/// neither fighting stats nor behaviour, renamed "The stinking remains of a
/// <name>"; nothing else changes.
pub open spec fn monster_remains(o: Object, n: Object) -> bool {
    &&& n == (Object {
        char: '%',
        color: spec_dark_red(),
        blocks: false,
        alive: false,
        fighter: None,
        ai: None,
        name: n.name,
        ..o
    })
    &&& n.name@ == "The stinking remains of a "@ + o.name@
}

/// The message logged when a monster with `xp` experience dies.
pub open spec fn monster_death_text(name: Seq<char>, xp: i32) -> Seq<char> {
    name + " dies in agony! You gain "@ + decimal(xp as int) + " XP."@
}

/// The player dies: "You died!" is logged and the player becomes remains.
pub fn player_death(player: &mut Object, game: &mut Game)
    ensures
        player_remains(*old(player), *final(player)),
        old(game).same_but_log(*final(game)),
        final(game).messages() == old(game).messages().push(("You died!"@, spec_dark_red())),
{
    add_str_message(&mut game.log, "You died!", dark_red());
    player.char = '%';
    player.color = dark_red();
    player.alive = false;
    player.fighter = None;
    let mut name = String::new();
    push_str(&mut name, "The remains of ");
    push_str(&mut name, player.name.as_str());
    push_str(&mut name, ". R.I.P.");
    player.name = name;
}

/// A monster dies: the experience it gives is announced and it becomes
/// remains.
pub fn monster_death(monster: &mut Object, game: &mut Game)
    requires
        old(monster).fighter is Some,
    ensures
        monster_remains(*old(monster), *final(monster)),
        old(game).same_but_log(*final(game)),
        final(game).messages() == old(game).messages().push(
            (monster_death_text(old(monster).name@, old(monster).fighter->0.xp), spec_dark_orange()),
        ),
{
    let xp = monster.fighter.unwrap().xp;
    let mut msg = String::new();
    push_str(&mut msg, monster.name.as_str());
    push_str(&mut msg, " dies in agony! You gain ");
    push_decimal(&mut msg, xp as i64);
    push_str(&mut msg, " XP.");
    add_message(&mut game.log, msg, dark_orange());
    monster.char = '%';
    monster.color = dark_red();
    monster.blocks = false;
    monster.fighter = None;
    monster.ai = None;
    monster.alive = false;
    let mut name = String::new();
    push_str(&mut name, "The stinking remains of a ");
    push_str(&mut name, monster.name.as_str());
    monster.name = name;
}

pub open spec fn growl_text(name: Seq<char>, power: int) -> Seq<char> {
    name + " power is "@ + decimal(power) + " and he growls."@
}

/// A debugging aid: while the player is alive, logs its power.
pub fn growl(objects: &mut Vec<Object>, game: &mut Game)
    requires
        old(objects)@.len() > PLAYER,
        old(objects)@[PLAYER as int].alive ==> fits_i32(old(objects)@[PLAYER as int].spec_power(old(game).inventory@)),
    ensures
        final(objects)@ == old(objects)@,
        old(game).same_but_log(*final(game)),
        ({
            let p = old(objects)@[PLAYER as int];
            if p.alive {
                final(game).messages() == old(game).messages().push(
                    (growl_text(p.name@, p.spec_power(old(game).inventory@)), spec_white()),
                )
            } else {
                final(game).messages() == old(game).messages()
            }
        }),
{
    if objects[PLAYER].alive {
        let power = objects[PLAYER].power(game);
        let mut msg = String::new();
        push_str(&mut msg, objects[PLAYER].name.as_str());
        push_str(&mut msg, " power is ");
        push_decimal(&mut msg, power as i64);
        push_str(&mut msg, " and he growls.");
        add_message(&mut game.log, msg, white());
    }
}

} // verus!
