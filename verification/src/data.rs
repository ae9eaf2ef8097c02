//! The game's data: tiles and the map, rooms, objects (the player, monsters,
//! items, stairs), their fighting stats, behaviours and equipment, and the
//! game state that holds the map, the message log and the inventory.
use vstd::prelude::*;
use vstd::string::StringExecFns;
use crate::colors::Color;

verus! {

/// A map tile.
#[derive(Clone, Copy, Debug, PartialEq, Eq, Structural)]
pub struct Tile {
    pub blocked: bool,
    pub explored: bool,
    pub block_sight: bool,
}

impl Tile {
    pub open spec fn spec_empty() -> Tile {
        Tile { blocked: false, explored: false, block_sight: false }
    }

    pub open spec fn spec_wall() -> Tile {
        Tile { blocked: true, explored: false, block_sight: true }
    }

    /// A floor tile: it blocks neither movement nor sight.
    pub fn empty() -> (t: Tile)
        ensures
            t == Tile::spec_empty(),
    {
        Tile { blocked: false, explored: false, block_sight: false }
    }

    /// A wall tile: it blocks movement and sight.
    pub fn wall() -> (t: Tile)
        ensures
            t == Tile::spec_wall(),
    {
        Tile { blocked: true, explored: false, block_sight: true }
    }
}

/// The map, indexed as `map[x][y]`.
pub type TileMap = Vec<Vec<Tile>>;

/// A rectangle on the map, used for a room.
#[derive(Clone, Copy, Debug, PartialEq, Eq, Structural)]
pub struct Rect {
    pub x1: i32,
    pub y1: i32,
    pub x2: i32,
    pub y2: i32,
}

/// Division by two that rounds toward zero, as `/` does on `i32`.
pub open spec fn half(n: int) -> int {
    if n >= 0 { n / 2 } else { -((-n) / 2) }
}

impl Rect {
    pub open spec fn spec_center(self) -> (int, int) {
        (half(self.x1 + self.x2), half(self.y1 + self.y2))
    }

    pub open spec fn spec_intersects(self, other: Rect) -> bool {
        &&& self.x1 <= other.x2
        &&& self.x2 >= other.x1
        &&& self.y1 <= other.y2
        &&& self.y2 >= other.y1
    }

    /// The rectangle with top-left corner `(x, y)`, width `w` and height `h`.
    pub fn new(x: i32, y: i32, w: i32, h: i32) -> (r: Rect)
        requires
            i32::MIN <= x + w <= i32::MAX,
            i32::MIN <= y + h <= i32::MAX,
        ensures
            r == (Rect { x1: x, y1: y, x2: (x + w) as i32, y2: (y + h) as i32 }),
    {
        Rect { x1: x, y1: y, x2: x + w, y2: y + h }
    }

    /// The centre of the rectangle.
    pub fn center(&self) -> (c: (i32, i32))
        ensures
            c.0 == self.spec_center().0,
            c.1 == self.spec_center().1,
    {
        let sx: i64 = self.x1 as i64 + self.x2 as i64;
        let sy: i64 = self.y1 as i64 + self.y2 as i64;
        let cx: i64 = if sx >= 0 { sx / 2 } else { -((-sx) / 2) };
        let cy: i64 = if sy >= 0 { sy / 2 } else { -((-sy) / 2) };
        (cx as i32, cy as i32)
    }

    /// Whether the two rectangles overlap (touching counts).
    pub fn intersects_with(&self, other: &Rect) -> (b: bool)
        ensures
            b == self.spec_intersects(*other),
    {
        (self.x1 <= other.x2) && (self.x2 >= other.x1) && (self.y1 <= other.y2)
            && (self.y2 >= other.y1)
    }
}

/// Overlap is symmetric: a rectangle overlaps another exactly when the other
/// overlaps it.
pub proof fn lemma_intersects_symmetric(a: Rect, b: Rect)
    ensures
        a.spec_intersects(b) == b.spec_intersects(a),
{
}

/// The centre of a rectangle lies within it.
pub proof fn lemma_center_inside(r: Rect)
    requires
        r.x1 <= r.x2,
        r.y1 <= r.y2,
    ensures
        r.x1 <= r.spec_center().0 <= r.x2,
        r.y1 <= r.spec_center().1 <= r.y2,
{
}

/// A row of a table that gives a value from a dungeon level on.
#[derive(Clone, Copy, Debug, PartialEq, Eq, Structural)]
pub struct Transition {
    pub level: u32,
    pub value: u32,
}

/// What happens when a fighter dies.
#[derive(Clone, Copy, Debug, PartialEq, Eq, Structural)]
pub enum DeathCallback {
    Player,
    Monster,
}

/// Fighting stats of an object that can fight.
#[derive(Clone, Copy, Debug, PartialEq, Eq, Structural)]
pub struct Fighter {
    pub base_max_hp: i32,
    pub hp: i32,
    pub base_defense: i32,
    pub base_power: i32,
    pub on_death: DeathCallback,
    pub xp: i32,
}

/// How a monster behaves on its turn.
#[derive(Debug)]
pub enum Ai {
    Basic,
    Confused { previous_ai: Box<Ai>, num_turns: i32 },
}

/// The kinds of items.
#[derive(Clone, Copy, Debug, PartialEq, Eq, Structural)]
pub enum Item {
    Heal,
    Lightning,
    Confuse,
    Fireball,
    Sword,
    Shield,
}

/// Where a piece of equipment is worn.
#[derive(Clone, Copy, Debug, PartialEq, Eq, Structural)]
pub enum Slot {
    LeftHand,
    RightHand,
    Head,
}

/// An object that can be equipped, with the bonuses it gives while equipped.
#[derive(Clone, Copy, Debug, PartialEq, Eq, Structural)]
pub struct Equipment {
    pub slot: Slot,
    pub equipped: bool,
    pub max_hp_bonus: i32,
    pub power_bonus: i32,
    pub defense_bonus: i32,
}

/// What using an item did with it.
#[derive(Clone, Copy, Debug, PartialEq, Eq, Structural)]
pub enum UseResult {
    UsedUp,
    UsedAndKept,
    Cancelled,
}

/// What the player's key press amounted to.
#[derive(Clone, Copy, Debug, PartialEq, Eq, Structural)]
pub enum PlayerAction {
    TookTurn,
    DidntTakeTurn,
    Exit,
}

/// Anything on the map: the player, a monster, an item, the stairs.
#[derive(Debug)]
pub struct Object {
    pub x: i32,
    pub y: i32,
    pub char: char,
    pub color: Color,
    pub name: String,
    pub blocks: bool,
    pub alive: bool,
    pub fighter: Option<Fighter>,
    pub ai: Option<Ai>,
    pub item: Option<Item>,
    pub always_visible: bool,
    pub level: i32,
    pub equipment: Option<Equipment>,
}

/// The message log: each message with its colour, oldest first.
pub type Messages = Vec<(String, Color)>;

/// The state of a game besides its objects.
pub struct Game {
    pub map: TileMap,
    pub log: Messages,
    pub inventory: Vec<Object>,
    pub dungeon_level: u32,
}

/// A fresh object of the given look that has no other part yet.
pub open spec fn spec_new_object(x: i32, y: i32, c: char, color: Color, name: Seq<char>, blocks: bool, o: Object) -> bool {
    &&& o.x == x
    &&& o.y == y
    &&& o.char == c
    &&& o.color == color
    &&& o.name@ == name
    &&& o.blocks == blocks
    &&& !o.alive
    &&& o.fighter is None
    &&& o.ai is None
    &&& o.item is None
    &&& !o.always_visible
    &&& o.level == 1
    &&& o.equipment is None
}

impl Object {
    /// A new object with neither fighting stats, behaviour, item kind nor
    /// equipment; it is not alive and is at level 1.
    pub fn new(x: i32, y: i32, char: char, color: Color, name: &str, blocks: bool) -> (o: Object)
        ensures
            spec_new_object(x, y, char, color, name@, blocks, o),
    {
        Object {
            x,
            y,
            char,
            color,
            name: String::from_str(name),
            blocks,
            alive: false,
            fighter: None,
            ai: None,
            item: None,
            always_visible: false,
            level: 1,
            equipment: None,
        }
    }

    /// The object's position.
    pub fn pos(&self) -> (p: (i32, i32))
        ensures
            p == (self.x, self.y),
    {
        (self.x, self.y)
    }

    /// Moves the object to `(x, y)`, changing nothing else.
    pub fn set_pos(&mut self, x: i32, y: i32)
        ensures
            *final(self) == (Object { x, y, ..*old(self) }),
    {
        self.x = x;
        self.y = y;
    }

    /// The square of the distance from the object to `(x, y)`.
    pub fn distance_squared(&self, x: i32, y: i32) -> (d: i128)
        ensures
            d == (x - self.x) * (x - self.x) + (y - self.y) * (y - self.y),
    {
        let dx: i128 = x as i128 - self.x as i128;
        let dy: i128 = y as i128 - self.y as i128;
        assert(0 <= dx * dx <= 0x4_0000_0000_0000_0000int) by (nonlinear_arith)
            requires -0x1_0000_0000int <= dx <= 0x1_0000_0000int;
        assert(0 <= dy * dy <= 0x4_0000_0000_0000_0000int) by (nonlinear_arith)
            requires -0x1_0000_0000int <= dy <= 0x1_0000_0000int;
        dx * dx + dy * dy
    }
}

/// A message as text and colour.
pub open spec fn message_view(m: (String, Color)) -> (Seq<char>, Color) {
    (m.0@, m.1)
}

/// The message log as texts and colours.
pub open spec fn log_view(log: Seq<(String, Color)>) -> Seq<(Seq<char>, Color)> {
    log.map_values(|m: (String, Color)| message_view(m))
}

impl Game {
    /// The messages of the log, oldest first.
    pub open spec fn messages(self) -> Seq<(Seq<char>, Color)> {
        log_view(self.log@)
    }

    /// `other` is this game with possibly more messages logged: the map,
    /// the inventory and the dungeon level are the same.
    pub open spec fn same_but_log(self, other: Game) -> bool {
        &&& other.map == self.map
        &&& other.inventory == self.inventory
        &&& other.dungeon_level == self.dungeon_level
    }
}

/// Adds a message to the end of the log.
pub fn add_message(log: &mut Messages, text: String, color: Color)
    ensures
        log_view(final(log)@) == log_view(old(log)@).push((text@, color)),
{
    log.push((text, color));
    assert(log_view(final(log)@) =~= log_view(old(log)@).push((text@, color)));
}

/// Adds a message with literal text to the end of the log.
pub fn add_str_message(log: &mut Messages, text: &str, color: Color)
    ensures
        log_view(final(log)@) == log_view(old(log)@).push((text@, color)),
{
    add_message(log, String::from_str(text), color);
}

} // verus!
