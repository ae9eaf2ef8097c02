# catacombs

A small tcod roguelike, "Mysterious Mysteries of the Abysslike Catacombs",
whose game logic is a Verus-verified library.

## Layout

- `src/` — the verified library: map generation (`mapping`), movement and
  combat (`movement`, `object`), items, equipment and spells (`items`,
  `equipment`, `spellcasting`), targeting and field of view (`targeting`),
  monster behaviour (`ai`), level ups (`player_actions`), key bindings
  (`controls`), new games and descending (`meta`), plus the game data
  (`data`), colours, decimal formatting and the random draws (`rng`, through
  the `rand` crate).
- `tests/` — tests of the library on concrete values.
- `app/` — the program around the library: the tcod window, rendering,
  menus, mouse targeting, the game loop and saving with serde.

## What is proved

Every function of `src/` has a contract over spec functions, and Verus checks
it free of overflow and panics. Where the game's arithmetic could overflow,
the precondition is the exact condition that the values computed fit their
integer types (for example the attack damage, the healed hit points, the
experience gained); bonuses are summed exactly, so only the totals must fit.
For each such precondition the library has a function that decides it
(`keys_are_ok`, `can_use`, `turn_is_ok`, `level_up_is_ok`, `raise_is_ok`,
`next_level_is_ok`), and the monsters' turn stops with an error at a monster
whose turn cannot be taken.

The randomness comes from three calls into `rand`, trusted as stated: a
number in a range, a coin flip (`random_bool`, of which nothing more is
stated: either value may come), and a weighted index (one with a positive
weight).

Among the properties proved:

- the inventory never holds more than its capacity, and at most one item is
  worn per slot after picking up, dropping or toggling equipment;
- the lightning bolt strikes a visible monster in range that is at least as
  close as every other;
- every generated level is a full-size map walled all around whose floor is
  exactly its non-overlapping rooms and the L-shaped tunnels joining each
  room to the one before; the player stands at the centre of the first room
  and the stairs at the centre of the last;
- each room's monsters and items are the ones drawn, each placed at its
  drawn spot exactly when that spot is free;
- once the player is dead, no key changes the game;
- the game ends (and is saved) exactly at the first turn the player leaves,
  and the monsters act only after a turn the living player took;
- a monster confused for `n` more turns stays confused, counting down, for
  `n + 1` turns and gets its behaviour back on the turn after;
- a step toward a target never overshoots it and brings the mover one tile
  closer, counting distance as the larger of the two axis offsets;
- a game is "sound" when the map is 80 by 43 and walled, every object is
  inside it, the inventory holds at most 26 items, and stats and bonuses are
  within `STAT_LIMIT` (100 000). In a sound game every key press and every
  monster's turn can be taken, and a monster's turn or the player's move
  keeps the game sound (with the stat bound doubled by a kill). These bounds
  are the hypothesis of those laws only: no function requires them;
- the decisions of a key press, a level up and each spell are stated exactly,
  down to the messages they log.
