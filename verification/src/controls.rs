//! What the player's keys do, and the names shown under the mouse.
use vstd::prelude::*;
use vstd::string::StringExecFns;
use crate::ai::{monster_ok, play_inv, lemma_move_inv};
use crate::colors;
use crate::data::{add_str_message, half, Game, Object, PlayerAction};
use crate::mapping::{level_laid_out, level_made};
use crate::meta::{descend_text, next_level, next_level_is_ok, next_level_ok, next_level_outcome, rest_text};
use crate::movement::{move_or_attack_is_ok, first_fighter_at, lemma_first_fighter_at, move_or_attack_ok, move_or_attack_outcome, player_move_or_attack};
use crate::items::{pick_item_up, pickup_outcome};
use crate::object::{fits_i32, attack_damage, attack_result, healed, item_bounded, kills, lemma_stats_bounded, object_within, objects_within};
use crate::player_actions::level_up_xp;
use crate::targeting::{in_fov, is_in_fov, FovGrid};
use crate::text::{decimal, push_decimal, push_str};
use crate::{PLAYER, STAT_LIMIT};

verus! {

/// The key codes the game tells apart.
#[derive(Clone, Copy, Debug, PartialEq, Eq, Structural)]
pub enum KeyCode {
    Text,
    Up,
    Down,
    Left,
    Right,
    Enter,
    Escape,
    Other,
}

/// A key press: its code, the printable character, whether alt was held,
/// and the text typed.
pub struct Key {
    pub code: KeyCode,
    pub printable: char,
    pub alt: bool,
    pub text: String,
}

/// What the interface is asked to do after a key press.
pub enum UiRequest {
    Nothing,
    /// Show the inventory to pick an item to drop.
    DropMenu,
    /// Show the inventory to pick an item to use.
    InventoryMenu,
    /// Show this character information.
    CharacterScreen(String),
    ToggleFullscreen,
    /// A new level was generated: the field of view must be rebuilt.
    InitFov,
}

/// What a key asks for.
#[derive(Clone, Copy, Debug, PartialEq, Eq, Structural)]
pub enum Command {
    Move(i32, i32),
    WaitOrDescend,
    Grab,
    Drop,
    Inventory,
    Descend,
    Character,
    Fullscreen,
    Exit,
    Nothing,
}

/// The command of a key press, by the game's key bindings: while the player
/// is alive, typed `w x a d q e z c` and the arrow keys move (or attack),
/// typed `s` waits or goes down the stairs, `g` grabs, `o` drops, `i` opens
/// the inventory, `<` goes down, `u` shows the character; at any time
/// alt+Enter toggles fullscreen and Escape exits.
pub open spec fn key_command(code: KeyCode, printable: char, alt: bool, text: Seq<char>, alive: bool) -> Command {
    if code == KeyCode::Text && alive {
        if text == "w"@ { Command::Move(0i32, -1i32) }
        else if text == "x"@ { Command::Move(0, 1) }
        else if text == "a"@ { Command::Move(-1i32, 0i32) }
        else if text == "d"@ { Command::Move(1, 0) }
        else if text == "q"@ { Command::Move(-1i32, -1i32) }
        else if text == "e"@ { Command::Move(1i32, -1i32) }
        else if text == "z"@ { Command::Move(-1i32, 1i32) }
        else if text == "c"@ { Command::Move(1, 1) }
        else if text == "s"@ { Command::WaitOrDescend }
        else { Command::Nothing }
    } else if code == KeyCode::Up && alive {
        Command::Move(0i32, -1i32)
    } else if code == KeyCode::Down && alive {
        Command::Move(0, 1)
    } else if code == KeyCode::Left && alive {
        Command::Move(-1i32, 0i32)
    } else if code == KeyCode::Right && alive {
        Command::Move(1, 0)
    } else if printable == 'g' && alive {
        Command::Grab
    } else if printable == 'o' && alive {
        Command::Drop
    } else if printable == 'i' && alive {
        Command::Inventory
    } else if printable == '<' && alive {
        Command::Descend
    } else if printable == 'u' && alive {
        Command::Character
    } else if code == KeyCode::Enter && alt {
        Command::Fullscreen
    } else if code == KeyCode::Escape {
        Command::Exit
    } else {
        Command::Nothing
    }
}

/// Whether the stairs are where the player stands.
pub open spec fn on_stairs(objs: Seq<Object>) -> bool {
    exists|k: int| 0 <= k < objs.len() && #[trigger] stairs_at(objs[k], objs[PLAYER as int].x, objs[PLAYER as int].y)
}

pub open spec fn stairs_at(o: Object, x: i32, y: i32) -> bool {
    o.x == x && o.y == y && o.name@ == "stairs"@
}

pub open spec fn item_at(o: Object, x: i32, y: i32) -> bool {
    o.x == x && o.y == y && o.item is Some
}

/// The index of the first item where `(x, y)` is, if any.
pub open spec fn first_item_at(objs: Seq<Object>, x: i32, y: i32) -> Option<int>
    decreases objs.len(),
{
    if objs.len() == 0 {
        None
    } else {
        match first_item_at(objs.drop_last(), x, y) {
            Some(i) => Some(i),
            None => if item_at(objs.last(), x, y) { Some(objs.len() - 1) } else { None },
        }
    }
}

pub proof fn lemma_first_item_at(objs: Seq<Object>, x: i32, y: i32)
    ensures
        first_item_at(objs, x, y) matches Some(i) ==> {
            &&& 0 <= i < objs.len()
            &&& item_at(objs[i], x, y)
            &&& forall|k: int| 0 <= k < i ==> !item_at(#[trigger] objs[k], x, y)
        },
        first_item_at(objs, x, y) is None ==> forall|k: int| 0 <= k < objs.len() ==> !item_at(#[trigger] objs[k], x, y),
    decreases objs.len(),
{
    if objs.len() > 0 {
        let rest = objs.drop_last();
        lemma_first_item_at(rest, x, y);
        assert(objs.last() == objs[objs.len() - 1]);
        assert forall|k: int| 0 <= k < rest.len() implies #[trigger] rest[k] == objs[k] by {}
        match first_item_at(rest, x, y) {
            Some(i) => {
                assert(rest[i] == objs[i]);
                assert forall|k: int| 0 <= k < i implies !item_at(#[trigger] objs[k], x, y) by {
                    assert(rest[k] == objs[k]);
                }
            },
            None => {
                assert forall|k: int| 0 <= k < rest.len() implies !item_at(#[trigger] objs[k], x, y) by {
                    assert(rest[k] == objs[k]);
                }
            },
        }
    }
}

/// The character information shown by `u`.
pub open spec fn character_text(level: int, xp: int, level_up: int, max_hp: int, attack: int, defense: int) -> Seq<char> {
    "Character information:\n\n\nLevel: "@ + decimal(level) + "\n\nExperience: "@ + decimal(xp)
        + "\n\nXP to level up: "@ + decimal(level_up) + "\n\n\n\nMaximum HP: "@ + decimal(max_hp)
        + "\n\nAttack: "@ + decimal(attack) + "\n\nDefense: "@ + decimal(defense)
}

pub open spec fn tv_text() -> Seq<char> {
    "You cant do that on television!"@
}

/// Going down the stairs: it is announced, then the player rests and the
/// game moves on to a new level (see `next_level`).
pub open spec fn descend_outcome(objs: Seq<Object>, g: Game, objs2: Seq<Object>, g2: Game) -> bool {
    let p = objs[PLAYER as int];
    let max_hp = p.spec_max_hp(g.inventory@);
    &&& g2.dungeon_level == g.dungeon_level + 1
    &&& g2.inventory == g.inventory
    &&& level_made(healed(p, half(max_hp), max_hp), objs2, g2.map@, g2.dungeon_level)
    &&& level_laid_out(objs2, g2.map@)
    &&& g2.messages() == g.messages().push((tv_text(), colors::spec_dark_orange())).push(
        (rest_text(), colors::spec_violet()),
    ).push((descend_text(), colors::spec_red()))
}

/// What a key press does to the game, and the action and request it
/// yields.
pub open spec fn keys_outcome(
    cmd: Command,
    objs: Seq<Object>,
    g: Game,
    objs2: Seq<Object>,
    g2: Game,
    action: PlayerAction,
    request: UiRequest,
) -> bool {
    let p = objs[PLAYER as int];
    let unchanged = objs2 == objs && g2 == g;
    match cmd {
        Command::Move(dx, dy) => {
            &&& action == PlayerAction::TookTurn
            &&& request is Nothing
            &&& move_or_attack_outcome(objs, g, dx as int, dy as int, objs2, g2)
        },
        Command::WaitOrDescend => if on_stairs(objs) {
            &&& action == PlayerAction::DidntTakeTurn
            &&& request is InitFov
            &&& descend_outcome(objs, g, objs2, g2)
        } else {
            &&& action == PlayerAction::TookTurn
            &&& request is Nothing
            &&& unchanged
        },
        Command::Grab => {
            &&& action == PlayerAction::DidntTakeTurn
            &&& request is Nothing
            &&& match first_item_at(objs, p.x, p.y) {
                Some(i) => pickup_outcome(i, objs, g, objs2, g2),
                None => unchanged,
            }
        },
        Command::Drop => action == PlayerAction::DidntTakeTurn && request is DropMenu && unchanged,
        Command::Inventory => action == PlayerAction::DidntTakeTurn && request is InventoryMenu && unchanged,
        Command::Descend => {
            &&& action == PlayerAction::DidntTakeTurn
            &&& if on_stairs(objs) {
                request is InitFov && descend_outcome(objs, g, objs2, g2)
            } else {
                request is Nothing && unchanged
            }
        },
        Command::Character => {
            &&& action == PlayerAction::DidntTakeTurn
            &&& unchanged
            &&& match p.fighter {
                Some(f) => request matches UiRequest::CharacterScreen(s) && s@ == character_text(
                    p.level as int,
                    f.xp as int,
                    level_up_xp(p.level as int),
                    f.base_max_hp as int,
                    p.spec_power(g.inventory@),
                    f.base_defense as int,
                ),
                None => request is Nothing,
            }
        },
        Command::Fullscreen => action == PlayerAction::DidntTakeTurn && request is ToggleFullscreen && unchanged,
        Command::Exit => action == PlayerAction::Exit && request is Nothing && unchanged,
        Command::Nothing => action == PlayerAction::DidntTakeTurn && request is Nothing && unchanged,
    }
}

/// Once the player is dead no key changes the game or takes a turn: the only
/// keys left toggle fullscreen or leave.
pub proof fn lemma_dead_player_cannot_act(
    code: KeyCode,
    printable: char,
    alt: bool,
    text: Seq<char>,
    objs: Seq<Object>,
    g: Game,
    objs2: Seq<Object>,
    g2: Game,
    action: PlayerAction,
    request: UiRequest,
)
    requires
        keys_outcome(key_command(code, printable, alt, text, false), objs, g, objs2, g2, action, request),
    ensures
        objs2 == objs,
        g2 == g,
        action != PlayerAction::TookTurn,
        action == PlayerAction::Exit <==> code == KeyCode::Escape,
        request is ToggleFullscreen <==> code == KeyCode::Enter && alt,
{
}

/// The player's move or attack keeps the game sound, with stats allowed to
/// double (a kill adds the victim's experience).
pub proof fn lemma_player_move_inv(objs: Seq<Object>, g: Game, dx: int, dy: int, objs2: Seq<Object>, g2: Game)
    requires
        play_inv(objs, g, STAT_LIMIT as int),
        -1 <= dx <= 1,
        -1 <= dy <= 1,
        !(dx == 0 && dy == 0),
        objs[PLAYER as int].alive,
        move_or_attack_outcome(objs, g, dx, dy, objs2, g2),
    ensures
        play_inv(objs2, g2, 2 * STAT_LIMIT),
{
    let p = objs[PLAYER as int];
    lemma_first_fighter_at(objs, p.x + dx, p.y + dy);
    match first_fighter_at(objs, p.x + dx, p.y + dy) {
        Some(t) => {
            let o = objs[t];
            let damage = attack_damage(p, o, g.inventory@);
            assert(object_within(p, STAT_LIMIT as int));
            assert(object_within(o, STAT_LIMIT as int));
            lemma_stats_bounded(p, g.inventory@, STAT_LIMIT as int);
            lemma_stats_bounded(o, g.inventory@, STAT_LIMIT as int);
            assert(t != PLAYER);
            assert(crate::movement::objects_inside(objs2)) by {
                assert forall|k: int| 0 <= k < objs2.len() implies crate::mapping::in_interior((#[trigger] objs2[k]).x as int, objs2[k].y as int) by {
                    assert(crate::mapping::in_interior(objs[k].x as int, objs[k].y as int));
                }
            }
            assert forall|k: int| 0 <= k < objs2.len() implies monster_ok(#[trigger] objs2[k]) && item_bounded(objs2[k]) && object_within(objs2[k], 2 * STAT_LIMIT) by {
                assert(monster_ok(objs[k]));
                assert(item_bounded(objs[k]));
                assert(object_within(objs[k], STAT_LIMIT as int));
            }
            assert(objects_within(objs2, 4 * STAT_LIMIT)) by {
                assert forall|k: int| 0 <= k < objs2.len() implies object_within(#[trigger] objs2[k], 4 * STAT_LIMIT) by {
                    assert(object_within(objs2[k], 2 * STAT_LIMIT));
                }
            }
        },
        None => {
            lemma_move_inv(objs, g, PLAYER as int, dx, dy, STAT_LIMIT as int);
            let n = objs2;
            assert forall|k: int| 0 <= k < n.len() implies object_within(#[trigger] n[k], 4 * STAT_LIMIT) && object_within(n[k], 2 * STAT_LIMIT) by {
                assert(object_within(n[k], 2 * STAT_LIMIT));
            }
        },
    }
}

/// Whether the stairs are where the player stands.
pub fn player_on_stairs(objects: &[Object]) -> (b: bool)
    requires
        objects@.len() > PLAYER,
    ensures
        b == on_stairs(objects@),
{
    let x = objects[PLAYER].x;
    let y = objects[PLAYER].y;
    let stairs = String::from_str("stairs");
    let mut k: usize = 0;
    while k < objects.len()
        invariant
            k <= objects@.len(),
            objects@.len() > PLAYER,
            x == objects@[PLAYER as int].x,
            y == objects@[PLAYER as int].y,
            stairs@ == "stairs"@,
            forall|i: int| 0 <= i < k ==> !stairs_at(#[trigger] objects@[i], x, y),
        decreases objects@.len() - k,
    {
        if objects[k].x == x && objects[k].y == y && objects[k].name == stairs {
            assert(stairs_at(objects@[k as int], x, y));
            return true;
        }
        k = k + 1;
    }
    false
}

/// The index of the first item where `(x, y)` is, if any.
pub fn item_index_at(objects: &[Object], x: i32, y: i32) -> (r: Option<usize>)
    ensures
        r matches Some(i) ==> first_item_at(objects@, x, y) == Some(i as int),
        r is None ==> first_item_at(objects@, x, y) is None,
{
    let mut k: usize = 0;
    while k < objects.len()
        invariant
            k <= objects@.len(),
            forall|i: int| 0 <= i < k ==> !item_at(#[trigger] objects@[i], x, y),
        decreases objects@.len() - k,
    {
        if objects[k].x == x && objects[k].y == y && objects[k].item.is_some() {
            proof {
                lemma_first_item_at(objects@, x, y);
                match first_item_at(objects@, x, y) {
                    Some(j) => {
                        if j < k {
                            assert(!item_at(objects@[j], x, y));
                        } else if j > k {
                            assert(item_at(objects@[k as int], x, y));
                        }
                    },
                    None => {
                        assert(item_at(objects@[k as int], x, y));
                    },
                }
            }
            return Some(k);
        }
        k = k + 1;
    }
    proof { lemma_first_item_at(objects@, x, y); }
    None
}

fn is_text(key: &Key, t: &str) -> (b: bool)
    ensures
        b == (key.text@ == t@),
{
    key.text == String::from_str(t)
}

/// The character screen can be computed without overflow: the experience
/// of the next level, and the player's attack when it fights.
pub open spec fn character_ok(p: Object, g: Game) -> bool {
    &&& fits_i32(p.level * crate::LEVEL_UP_FACTOR)
    &&& fits_i32(level_up_xp(p.level as int))
    &&& p.fighter is Some ==> fits_i32(p.spec_power(g.inventory@))
}

/// The command can be carried out without overflow or failure: a move needs
/// the tile it leads to on the map (and an attack there to be computable),
/// going down needs the rest to be computable, the character screen its
/// numbers; the other commands need nothing.
pub open spec fn keys_ok(cmd: Command, objs: Seq<Object>, g: Game) -> bool {
    &&& objs.len() > PLAYER
    &&& match cmd {
        Command::Move(dx, dy) => move_or_attack_ok(objs, g, dx as int, dy as int),
        Command::WaitOrDescend => on_stairs(objs) ==> next_level_ok(objs, g),
        Command::Descend => on_stairs(objs) ==> next_level_ok(objs, g),
        Command::Character => character_ok(objs[PLAYER as int], g),
        _ => true,
    }
}

/// In a sound game every key press can be handled: what `handle_keys`
/// needs of the game always holds between turns.
pub proof fn lemma_sound_keys_ok(code: KeyCode, printable: char, alt: bool, text: Seq<char>, objs: Seq<Object>, g: Game)
    requires
        play_inv(objs, g, STAT_LIMIT as int),
    ensures
        keys_ok(key_command(code, printable, alt, text, objs[PLAYER as int].alive), objs, g),
{
    let p = objs[PLAYER as int];
    let cmd = key_command(code, printable, alt, text, p.alive);
    assert(object_within(p, 2 * STAT_LIMIT));
    lemma_stats_bounded(p, g.inventory@, 2 * STAT_LIMIT);
    match cmd {
        Command::Move(dx, dy) => {
            crate::movement::lemma_steps_ok(objs, g.map@, PLAYER as int);
            assert(crate::movement::step_ok(objs, g.map@, PLAYER as int, dx as int, dy as int));
            lemma_first_fighter_at(objs, p.x + dx, p.y + dy);
            match first_fighter_at(objs, p.x + dx, p.y + dy) {
                Some(t) => {
                    assert(t != PLAYER);
                    assert(object_within(p, 4 * STAT_LIMIT));
                    assert(object_within(objs[t], 4 * STAT_LIMIT));
                    crate::object::lemma_attack_ok(p, objs[t], g.inventory@);
                },
                None => {},
            }
        },
        _ => {},
    }
}

/// The character information of the player, who fights.
fn character_info(objects: &[Object], game: &Game) -> (s: String)
    requires
        objects@.len() > PLAYER,
        character_ok(objects@[PLAYER as int], *game),
        objects@[PLAYER as int].fighter is Some,
    ensures
        ({
            let p = objects@[PLAYER as int];
            let f = p.fighter->0;
            s@ == character_text(p.level as int, f.xp as int, level_up_xp(p.level as int), f.base_max_hp as int, p.spec_power(game.inventory@), f.base_defense as int)
        }),
{
    let player = &objects[PLAYER];
    let level = player.level;
    let level_up_xp = crate::LEVEL_UP_BASE + player.level * crate::LEVEL_UP_FACTOR;
    let fighter = player.fighter.unwrap();
    let power = player.power(game);
    let mut msg = String::new();
    push_str(&mut msg, "Character information:\n\n\nLevel: ");
    push_decimal(&mut msg, level as i64);
    push_str(&mut msg, "\n\nExperience: ");
    push_decimal(&mut msg, fighter.xp as i64);
    push_str(&mut msg, "\n\nXP to level up: ");
    push_decimal(&mut msg, level_up_xp as i64);
    push_str(&mut msg, "\n\n\n\nMaximum HP: ");
    push_decimal(&mut msg, fighter.base_max_hp as i64);
    push_str(&mut msg, "\n\nAttack: ");
    push_decimal(&mut msg, power as i64);
    push_str(&mut msg, "\n\nDefense: ");
    push_decimal(&mut msg, fighter.base_defense as i64);
    msg
}

fn descend(objects: &mut Vec<Object>, game: &mut Game)
    requires
        next_level_ok(old(objects)@, *old(game)),
    ensures
        descend_outcome(old(objects)@, *old(game), final(objects)@, *final(game)),
{
    add_str_message(&mut game.log, "You cant do that on television!", colors::dark_orange());
    next_level(objects, game);
}

fn move_player(dx: i32, dy: i32, objects: &mut Vec<Object>, game: &mut Game)
    requires
        move_or_attack_ok(old(objects)@, *old(game), dx as int, dy as int),
        -1 <= dx <= 1,
        -1 <= dy <= 1,
        !(dx == 0 && dy == 0),
        old(objects)@[PLAYER as int].alive,
    ensures
        move_or_attack_outcome(old(objects)@, *old(game), dx as int, dy as int, final(objects)@, *final(game)),
        play_inv(old(objects)@, *old(game), STAT_LIMIT as int) ==> play_inv(final(objects)@, *final(game), 2 * STAT_LIMIT),
{
    let ghost objs = objects@;
    let ghost g = *game;
    player_move_or_attack(dx, dy, objects, game);
    proof {
        if play_inv(objs, g, STAT_LIMIT as int) {
            lemma_player_move_inv(objs, g, dx as int, dy as int, objects@, *game);
        }
    }
}

/// The command of a key press while the player is alive or not.
pub fn command_of(key: &Key, alive: bool) -> (c: Command)
    ensures
        c == key_command(key.code, key.printable, key.alt, key.text@, alive),
{
    if key.code == KeyCode::Text && alive {
        if is_text(key, "w") { Command::Move(0, -1) }
        else if is_text(key, "x") { Command::Move(0, 1) }
        else if is_text(key, "a") { Command::Move(-1, 0) }
        else if is_text(key, "d") { Command::Move(1, 0) }
        else if is_text(key, "q") { Command::Move(-1, -1) }
        else if is_text(key, "e") { Command::Move(1, -1) }
        else if is_text(key, "z") { Command::Move(-1, 1) }
        else if is_text(key, "c") { Command::Move(1, 1) }
        else if is_text(key, "s") { Command::WaitOrDescend }
        else { Command::Nothing }
    } else if key.code == KeyCode::Up && alive {
        Command::Move(0, -1)
    } else if key.code == KeyCode::Down && alive {
        Command::Move(0, 1)
    } else if key.code == KeyCode::Left && alive {
        Command::Move(-1, 0)
    } else if key.code == KeyCode::Right && alive {
        Command::Move(1, 0)
    } else if key.printable == 'g' && alive {
        Command::Grab
    } else if key.printable == 'o' && alive {
        Command::Drop
    } else if key.printable == 'i' && alive {
        Command::Inventory
    } else if key.printable == '<' && alive {
        Command::Descend
    } else if key.printable == 'u' && alive {
        Command::Character
    } else if key.code == KeyCode::Enter && key.alt {
        Command::Fullscreen
    } else if key.code == KeyCode::Escape {
        Command::Exit
    } else {
        Command::Nothing
    }
}

/// Whether the character screen can be computed without overflow.
pub fn character_is_ok(p: &Object, game: &Game) -> (b: bool)
    ensures
        b == character_ok(*p, *game),
{
    let scaled: i64 = p.level as i64 * crate::LEVEL_UP_FACTOR as i64;
    let needed: i64 = crate::LEVEL_UP_BASE as i64 + scaled;
    if scaled < i32::MIN as i64 || scaled > i32::MAX as i64 || needed < i32::MIN as i64 || needed > i32::MAX as i64 {
        return false;
    }
    if p.fighter.is_some() {
        let power = p.power_exact(game);
        i32::MIN as i128 <= power && power <= i32::MAX as i128
    } else {
        true
    }
}

/// Whether the command can be carried out without overflow or failure.
pub fn keys_are_ok(cmd: Command, objects: &[Object], game: &Game) -> (b: bool)
    ensures
        b == keys_ok(cmd, objects@, *game),
{
    if objects.len() == 0 {
        return false;
    }
    match cmd {
        Command::Move(dx, dy) => move_or_attack_is_ok(objects, game, dx, dy),
        Command::WaitOrDescend => !player_on_stairs(objects) || next_level_is_ok(objects, game),
        Command::Descend => !player_on_stairs(objects) || next_level_is_ok(objects, game),
        Command::Character => character_is_ok(&objects[PLAYER], game),
        _ => true,
    }
}

/// Handles a key press: moves or attacks, waits, goes down the stairs,
/// picks an item up, or asks the interface for a menu, the character screen,
/// fullscreen or exit (see `key_command`). A turn taken leaves the game
/// sound for the monsters' turn.
pub fn handle_keys(key: &Key, objects: &mut Vec<Object>, game: &mut Game) -> (r: (PlayerAction, UiRequest))
    requires
        keys_ok(
            key_command(key.code, key.printable, key.alt, key.text@, old(objects)@[PLAYER as int].alive),
            old(objects)@,
            *old(game),
        ),
    ensures
        keys_outcome(
            key_command(key.code, key.printable, key.alt, key.text@, old(objects)@[PLAYER as int].alive),
            old(objects)@,
            *old(game),
            final(objects)@,
            *final(game),
            r.0,
            r.1,
        ),
        play_inv(old(objects)@, *old(game), STAT_LIMIT as int) && r.0 == PlayerAction::TookTurn ==> play_inv(
            final(objects)@,
            *final(game),
            2 * STAT_LIMIT,
        ),
{
    let player_alive = objects[PLAYER].alive;
    if key.code == KeyCode::Text && player_alive {
        if is_text(key, "w") {
            move_player(0, -1, objects, game);
            return (PlayerAction::TookTurn, UiRequest::Nothing);
        } else if is_text(key, "x") {
            move_player(0, 1, objects, game);
            return (PlayerAction::TookTurn, UiRequest::Nothing);
        } else if is_text(key, "a") {
            move_player(-1, 0, objects, game);
            return (PlayerAction::TookTurn, UiRequest::Nothing);
        } else if is_text(key, "d") {
            move_player(1, 0, objects, game);
            return (PlayerAction::TookTurn, UiRequest::Nothing);
        } else if is_text(key, "q") {
            move_player(-1, -1, objects, game);
            return (PlayerAction::TookTurn, UiRequest::Nothing);
        } else if is_text(key, "e") {
            move_player(1, -1, objects, game);
            return (PlayerAction::TookTurn, UiRequest::Nothing);
        } else if is_text(key, "z") {
            move_player(-1, 1, objects, game);
            return (PlayerAction::TookTurn, UiRequest::Nothing);
        } else if is_text(key, "c") {
            move_player(1, 1, objects, game);
            return (PlayerAction::TookTurn, UiRequest::Nothing);
        } else if is_text(key, "s") {
            if player_on_stairs(objects) {
                descend(objects, game);
                return (PlayerAction::DidntTakeTurn, UiRequest::InitFov);
            } else {
                proof {
                    if play_inv(objects@, *game, STAT_LIMIT as int) {
                        crate::ai::lemma_play_inv_grows(objects@, *game);
                    }
                }
                return (PlayerAction::TookTurn, UiRequest::Nothing);
            }
        } else {
            return (PlayerAction::DidntTakeTurn, UiRequest::Nothing);
        }
    }
    if key.code == KeyCode::Up && player_alive {
        move_player(0, -1, objects, game);
        return (PlayerAction::TookTurn, UiRequest::Nothing);
    }
    if key.code == KeyCode::Down && player_alive {
        move_player(0, 1, objects, game);
        return (PlayerAction::TookTurn, UiRequest::Nothing);
    }
    if key.code == KeyCode::Left && player_alive {
        move_player(-1, 0, objects, game);
        return (PlayerAction::TookTurn, UiRequest::Nothing);
    }
    if key.code == KeyCode::Right && player_alive {
        move_player(1, 0, objects, game);
        return (PlayerAction::TookTurn, UiRequest::Nothing);
    }
    if key.printable == 'g' && player_alive {
        let item_id = item_index_at(objects, objects[PLAYER].x, objects[PLAYER].y);
        if let Some(item_id) = item_id {
            proof { lemma_first_item_at(objects@, objects@[PLAYER as int].x, objects@[PLAYER as int].y); }
            pick_item_up(item_id, objects, game);
        }
        return (PlayerAction::DidntTakeTurn, UiRequest::Nothing);
    }
    if key.printable == 'o' && player_alive {
        return (PlayerAction::DidntTakeTurn, UiRequest::DropMenu);
    }
    if key.printable == 'i' && player_alive {
        return (PlayerAction::DidntTakeTurn, UiRequest::InventoryMenu);
    }
    if key.printable == '<' && player_alive {
        if player_on_stairs(objects) {
            descend(objects, game);
            return (PlayerAction::DidntTakeTurn, UiRequest::InitFov);
        }
        return (PlayerAction::DidntTakeTurn, UiRequest::Nothing);
    }
    if key.printable == 'u' && player_alive {
        if objects[PLAYER].fighter.is_some() {
            let msg = character_info(objects, game);
            return (PlayerAction::DidntTakeTurn, UiRequest::CharacterScreen(msg));
        }
        return (PlayerAction::DidntTakeTurn, UiRequest::Nothing);
    }
    if key.code == KeyCode::Enter && key.alt {
        return (PlayerAction::DidntTakeTurn, UiRequest::ToggleFullscreen);
    }
    if key.code == KeyCode::Escape {
        return (PlayerAction::Exit, UiRequest::Nothing);
    }
    (PlayerAction::DidntTakeTurn, UiRequest::Nothing)
}

/// The names of the objects at `(x, y)` that the player sees, in order.
pub open spec fn names_under(objs: Seq<Object>, fov: Seq<Vec<bool>>, x: int, y: int) -> Seq<Seq<char>>
    decreases objs.len(),
{
    if objs.len() == 0 {
        seq![]
    } else {
        let rest = names_under(objs.drop_last(), fov, x, y);
        let o = objs.last();
        if o.x == x && o.y == y && in_fov(fov, o.x as int, o.y as int) {
            rest.push(o.name@)
        } else {
            rest
        }
    }
}

/// The texts joined with `sep` between each two.
pub open spec fn join(texts: Seq<Seq<char>>, sep: Seq<char>) -> Seq<char>
    decreases texts.len(),
{
    if texts.len() == 0 {
        seq![]
    } else if texts.len() == 1 {
        texts[0]
    } else {
        join(texts.drop_last(), sep) + sep + texts.last()
    }
}

/// The names of the objects the player sees under the mouse at `(x, y)`,
/// separated by commas.
pub fn get_names_under_mouse(x: i32, y: i32, objects: &[Object], fov: &FovGrid) -> (names: String)
    ensures
        names@ == join(names_under(objects@, fov@, x as int, y as int), ", "@),
{
    let mut names = String::new();
    let mut any = false;
    let mut k: usize = 0;
    assert(objects@.take(0) =~= Seq::<Object>::empty());
    while k < objects.len()
        invariant
            k <= objects@.len(),
            any == (names_under(objects@.take(k as int), fov@, x as int, y as int).len() > 0),
            names@ == join(names_under(objects@.take(k as int), fov@, x as int, y as int), ", "@),
        decreases objects@.len() - k,
    {
        let ghost before = names_under(objects@.take(k as int), fov@, x as int, y as int);
        assert(objects@.take(k + 1).drop_last() =~= objects@.take(k as int));
        assert(objects@.take(k + 1).last() == objects@[k as int]);
        if objects[k].x == x && objects[k].y == y && is_in_fov(fov, objects[k].x, objects[k].y) {
            if any {
                push_str(&mut names, ", ");
            }
            push_str(&mut names, objects[k].name.as_str());
            any = true;
            proof {
                let after = before.push(objects@[k as int].name@);
                assert(after.drop_last() =~= before);
                if before.len() == 0 {
                    assert(names@ =~= join(after, ", "@));
                }
            }
        }
        k = k + 1;
    }
    assert(objects@.take(objects@.len() as int) =~= objects@);
    names
}

/// The movement keys of a living player: the arrow keys and `w x a d` move
/// one tile up, down, left and right (up is toward row 0), `q e z c` one
/// tile diagonally up-left, up-right, down-left and down-right, whatever
/// else the key press carries.
pub proof fn lemma_movement_keys(printable: char, alt: bool, text: Seq<char>)
    ensures
        key_command(KeyCode::Up, printable, alt, text, true) == Command::Move(0i32, -1i32),
        key_command(KeyCode::Down, printable, alt, text, true) == Command::Move(0i32, 1i32),
        key_command(KeyCode::Left, printable, alt, text, true) == Command::Move(-1i32, 0i32),
        key_command(KeyCode::Right, printable, alt, text, true) == Command::Move(1i32, 0i32),
        key_command(KeyCode::Text, printable, alt, "w"@, true) == Command::Move(0i32, -1i32),
        key_command(KeyCode::Text, printable, alt, "x"@, true) == Command::Move(0i32, 1i32),
        key_command(KeyCode::Text, printable, alt, "a"@, true) == Command::Move(-1i32, 0i32),
        key_command(KeyCode::Text, printable, alt, "d"@, true) == Command::Move(1i32, 0i32),
        key_command(KeyCode::Text, printable, alt, "q"@, true) == Command::Move(-1i32, -1i32),
        key_command(KeyCode::Text, printable, alt, "e"@, true) == Command::Move(1i32, -1i32),
        key_command(KeyCode::Text, printable, alt, "z"@, true) == Command::Move(-1i32, 1i32),
        key_command(KeyCode::Text, printable, alt, "c"@, true) == Command::Move(1i32, 1i32),
{
    reveal_strlit("w");
    reveal_strlit("x");
    reveal_strlit("a");
    reveal_strlit("d");
    reveal_strlit("q");
    reveal_strlit("e");
    reveal_strlit("z");
    reveal_strlit("c");
    assert("x"@ != "w"@) by { assert("x"@[0] != "w"@[0]); }
    assert("a"@ != "w"@) by { assert("a"@[0] != "w"@[0]); }
    assert("a"@ != "x"@) by { assert("a"@[0] != "x"@[0]); }
    assert("d"@ != "w"@) by { assert("d"@[0] != "w"@[0]); }
    assert("d"@ != "x"@) by { assert("d"@[0] != "x"@[0]); }
    assert("d"@ != "a"@) by { assert("d"@[0] != "a"@[0]); }
    assert("q"@ != "w"@) by { assert("q"@[0] != "w"@[0]); }
    assert("q"@ != "x"@) by { assert("q"@[0] != "x"@[0]); }
    assert("q"@ != "a"@) by { assert("q"@[0] != "a"@[0]); }
    assert("q"@ != "d"@) by { assert("q"@[0] != "d"@[0]); }
    assert("e"@ != "w"@) by { assert("e"@[0] != "w"@[0]); }
    assert("e"@ != "x"@) by { assert("e"@[0] != "x"@[0]); }
    assert("e"@ != "a"@) by { assert("e"@[0] != "a"@[0]); }
    assert("e"@ != "d"@) by { assert("e"@[0] != "d"@[0]); }
    assert("e"@ != "q"@) by { assert("e"@[0] != "q"@[0]); }
    assert("z"@ != "w"@) by { assert("z"@[0] != "w"@[0]); }
    assert("z"@ != "x"@) by { assert("z"@[0] != "x"@[0]); }
    assert("z"@ != "a"@) by { assert("z"@[0] != "a"@[0]); }
    assert("z"@ != "d"@) by { assert("z"@[0] != "d"@[0]); }
    assert("z"@ != "q"@) by { assert("z"@[0] != "q"@[0]); }
    assert("z"@ != "e"@) by { assert("z"@[0] != "e"@[0]); }
    assert("c"@ != "w"@) by { assert("c"@[0] != "w"@[0]); }
    assert("c"@ != "x"@) by { assert("c"@[0] != "x"@[0]); }
    assert("c"@ != "a"@) by { assert("c"@[0] != "a"@[0]); }
    assert("c"@ != "d"@) by { assert("c"@[0] != "d"@[0]); }
    assert("c"@ != "q"@) by { assert("c"@[0] != "q"@[0]); }
    assert("c"@ != "e"@) by { assert("c"@[0] != "e"@[0]); }
    assert("c"@ != "z"@) by { assert("c"@[0] != "z"@[0]); }
}

/// A living player's move key moves the player one tile in its direction
/// when that tile is free and no fighter stands there, and the turn is
/// taken; the game is otherwise unchanged.
pub proof fn lemma_move_key_moves(
    code: KeyCode,
    printable: char,
    alt: bool,
    text: Seq<char>,
    dx: i32,
    dy: i32,
    objs: Seq<Object>,
    g: Game,
    objs2: Seq<Object>,
    g2: Game,
    action: PlayerAction,
    request: UiRequest,
)
    requires
        objs.len() > PLAYER,
        key_command(code, printable, alt, text, true) == Command::Move(dx, dy),
        keys_outcome(Command::Move(dx, dy), objs, g, objs2, g2, action, request),
        first_fighter_at(objs, objs[PLAYER as int].x + dx, objs[PLAYER as int].y + dy) is None,
        !crate::mapping::spec_is_blocked(g.map@, objs, objs[PLAYER as int].x + dx, objs[PLAYER as int].y + dy),
        i32::MIN <= objs[PLAYER as int].x + dx <= i32::MAX,
        i32::MIN <= objs[PLAYER as int].y + dy <= i32::MAX,
    ensures
        action == PlayerAction::TookTurn,
        objs2[PLAYER as int].x == objs[PLAYER as int].x + dx,
        objs2[PLAYER as int].y == objs[PLAYER as int].y + dy,
        g2 == g,
{
}

} // verus!
