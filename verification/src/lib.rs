//! Game logic of a small dungeon crawler: map generation, movement, combat,
//! items, spells, monster behaviour and the key bindings that drive them.
use vstd::prelude::*;

pub mod data;
pub mod colors;
pub mod text;
pub mod rng;
pub mod util;
pub mod object;
pub mod mapping;
pub mod movement;
pub mod equipment;
pub mod items;
pub mod targeting;
pub mod spellcasting;
pub mod ai;
pub mod meta;
pub mod player_actions;
pub mod controls;

verus! {

/// Index of the player in the list of objects.
pub const PLAYER: usize = 0;

pub const MAP_WIDTH: i32 = 80;
pub const MAP_HEIGHT: i32 = 43;
pub const ROOM_MAX_SIZE: i32 = 10;
pub const ROOM_MIN_SIZE: i32 = 6;
pub const MAX_ROOMS: i32 = 30;

pub const LEVEL_UP_BASE: i32 = 200;
pub const LEVEL_UP_FACTOR: i32 = 150;

pub const HEAL_AMOUNT: i32 = 40;
pub const LIGHTNING_RANGE: i32 = 5;
pub const LIGHTNING_DAMAGE: i32 = 40;
pub const CONFUSE_RANGE: i32 = 8;
pub const CONFUSE_NUM_TURNS: i32 = 10;
pub const FIREBALL_RADIUS: i32 = 3;
pub const FIREBALL_DAMAGE: i32 = 25;

/// Number of items the inventory can hold.
pub const INVENTORY_CAPACITY: usize = 26;

} // verus!

verus! {

/// Bound on every stat and bonus under which a whole turn of the game is
/// free of arithmetic overflow.
pub const STAT_LIMIT: i32 = 100_000;

} // verus!
