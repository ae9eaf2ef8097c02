use catacombs::colors;
use catacombs::data::{Ai, DeathCallback, Equipment, Fighter, Game, Item, Object, Rect, Slot, Tile, Transition};
use catacombs::mapping::{create_h_tunnel, create_room, create_v_tunnel, is_blocked};
use catacombs::movement::{move_by, move_toward, player_move_or_attack};
use catacombs::text::push_decimal;
use catacombs::util::{from_dungeon_level, monster_death, mut_two, player_death};

fn wall_map(w: usize, h: usize) -> Vec<Vec<Tile>> {
    vec![vec![Tile::wall(); h]; w]
}

fn floor_map(w: usize, h: usize) -> Vec<Vec<Tile>> {
    vec![vec![Tile::empty(); h]; w]
}

fn game_with(map: Vec<Vec<Tile>>) -> Game {
    Game { map, log: vec![], inventory: vec![], dungeon_level: 1 }
}

fn player_at(x: i32, y: i32) -> Object {
    let mut p = Object::new(x, y, '@', colors::white(), "Player", true);
    p.alive = true;
    p.fighter = Some(Fighter { base_max_hp: 100, hp: 100, base_defense: 1, base_power: 4, on_death: DeathCallback::Player, xp: 0 });
    p
}

fn orc_at(x: i32, y: i32, hp: i32) -> Object {
    let mut o = Object::new(x, y, 'o', colors::desaturated_green(), "orc", true);
    o.alive = true;
    o.fighter = Some(Fighter { base_max_hp: 20, hp, base_defense: 0, base_power: 4, on_death: DeathCallback::Monster, xp: 35 });
    o.ai = Some(Ai::Basic);
    o
}

fn last_message(game: &Game) -> String {
    game.log.last().unwrap().0.clone()
}

#[test]
fn decimal_text() {
    let mut s = String::new();
    push_decimal(&mut s, -123);
    assert_eq!(s, "-123");
    let mut s = String::from("x");
    push_decimal(&mut s, 0);
    assert_eq!(s, "x0");
    let mut s = String::new();
    push_decimal(&mut s, i64::MIN);
    assert_eq!(s, i64::MIN.to_string());
    let mut s = String::new();
    push_decimal(&mut s, 4070);
    assert_eq!(s, "4070");
}

#[test]
fn dungeon_level_table() {
    let table = [
        Transition { level: 1, value: 2 },
        Transition { level: 4, value: 3 },
        Transition { level: 6, value: 5 },
    ];
    assert_eq!(from_dungeon_level(&table, 0), 0);
    assert_eq!(from_dungeon_level(&table, 1), 2);
    assert_eq!(from_dungeon_level(&table, 3), 2);
    assert_eq!(from_dungeon_level(&table, 4), 3);
    assert_eq!(from_dungeon_level(&table, 9), 5);
    assert_eq!(from_dungeon_level(&[], 9), 0);
}

#[test]
fn room_is_dug_inside_its_walls() {
    let mut map = wall_map(10, 10);
    create_room(Rect::new(1, 1, 4, 4), &mut map);
    for x in 0..10 {
        for y in 0..10 {
            let inside = x > 1 && x < 5 && y > 1 && y < 5;
            assert_eq!(map[x][y].blocked, !inside, "tile {} {}", x, y);
        }
    }
    assert_eq!(map[3][3], Tile::empty());
}

#[test]
fn tunnels_include_both_ends() {
    let mut map = wall_map(10, 10);
    create_h_tunnel(6, 2, 3, &mut map);
    for x in 0..10 {
        assert_eq!(map[x][3].blocked, !(2..=6).contains(&x));
        assert!(map[x][4].blocked);
    }
    create_v_tunnel(1, 4, 8, &mut map);
    for y in 0..10 {
        assert_eq!(map[8][y].blocked, !(1..=4).contains(&y) && y != 3);
    }
}

#[test]
fn blocked_by_walls_and_blocking_objects() {
    let mut map = floor_map(5, 5);
    map[0][0] = Tile::wall();
    let objects = vec![player_at(2, 2), Object::new(3, 3, '!', colors::violet(), "potion", false)];
    assert!(is_blocked(0, 0, &map, &objects));
    assert!(is_blocked(2, 2, &map, &objects));
    assert!(!is_blocked(3, 3, &map, &objects));
    assert!(!is_blocked(1, 1, &map, &objects));
}

#[test]
fn move_by_stops_at_obstacles() {
    let mut map = floor_map(5, 5);
    map[3][2] = Tile::wall();
    let mut game = game_with(map);
    let mut objects = vec![player_at(2, 2)];
    move_by(0, 1, 0, &mut objects, &mut game);
    assert_eq!(objects[0].pos(), (2, 2));
    move_by(0, 0, 1, &mut objects, &mut game);
    assert_eq!(objects[0].pos(), (2, 3));
}

#[test]
fn move_toward_steps_by_rounded_direction() {
    let mut game = game_with(floor_map(20, 20));
    let mut objects = vec![player_at(5, 5), orc_at(10, 6, 20)];
    move_toward(1, 5, 5, &mut objects, &mut game);
    assert_eq!(objects[1].pos(), (9, 6));
    let mut objects = vec![player_at(5, 5), orc_at(8, 9, 20)];
    move_toward(1, 5, 5, &mut objects, &mut game);
    assert_eq!(objects[1].pos(), (7, 8));
    let mut objects = vec![player_at(5, 5), orc_at(6, 10, 20)];
    move_toward(1, 5, 5, &mut objects, &mut game);
    assert_eq!(objects[1].pos(), (6, 9));
}

#[test]
fn player_attacks_fighter_in_the_way() {
    let mut game = game_with(floor_map(10, 10));
    let mut objects = vec![player_at(2, 2), orc_at(3, 2, 20)];
    player_move_or_attack(1, 0, &mut objects, &mut game);
    assert_eq!(objects[0].pos(), (2, 2));
    assert_eq!(objects[1].fighter.unwrap().hp, 16);
    assert_eq!(last_message(&game), "Player attacks orc for 4 hit points.");
}

#[test]
fn killing_a_monster_gives_its_experience() {
    let mut game = game_with(floor_map(10, 10));
    let mut objects = vec![player_at(2, 2), orc_at(3, 2, 3)];
    player_move_or_attack(1, 0, &mut objects, &mut game);
    assert_eq!(objects[0].fighter.unwrap().xp, 35);
    let orc = &objects[1];
    assert!(orc.fighter.is_none());
    assert!(orc.ai.is_none());
    assert!(!orc.blocks);
    assert!(!orc.alive);
    assert_eq!(orc.char, '%');
    assert_eq!(orc.name, "The stinking remains of a orc");
    assert_eq!(game.log.len(), 2);
    assert_eq!(game.log[0].0, "Player attacks orc for 4 hit points.");
    assert_eq!(game.log[1], ("orc dies in agony! You gain 35 XP.".to_string(), colors::dark_orange()));
}

#[test]
fn attack_without_effect() {
    let mut game = game_with(floor_map(10, 10));
    let mut orc = orc_at(3, 2, 20);
    orc.fighter.as_mut().unwrap().base_defense = 10;
    let mut objects = vec![player_at(2, 2), orc];
    player_move_or_attack(1, 0, &mut objects, &mut game);
    assert_eq!(objects[1].fighter.unwrap().hp, 20);
    assert_eq!(last_message(&game), "Player attacks orc but it has no effect!");
}

#[test]
fn player_moves_when_nothing_is_in_the_way() {
    let mut game = game_with(floor_map(10, 10));
    let mut objects = vec![player_at(2, 2), orc_at(5, 5, 20)];
    player_move_or_attack(-1, 1, &mut objects, &mut game);
    assert_eq!(objects[0].pos(), (1, 3));
    assert!(game.log.is_empty());
}

#[test]
fn deaths() {
    let mut game = game_with(floor_map(3, 3));
    let mut p = player_at(1, 1);
    player_death(&mut p, &mut game);
    assert_eq!(p.name, "The remains of Player. R.I.P.");
    assert!(p.fighter.is_none());
    assert!(!p.alive);
    assert_eq!(p.color, colors::dark_red());
    assert_eq!(game.log[0], ("You died!".to_string(), colors::dark_red()));
    let mut o = orc_at(1, 1, 0);
    monster_death(&mut o, &mut game);
    assert_eq!(o.name, "The stinking remains of a orc");
    assert_eq!(game.log[1].0, "orc dies in agony! You gain 35 XP.");
}

#[test]
fn mut_two_gives_both_elements() {
    let mut v = vec![1, 2, 3, 4];
    {
        let (a, b) = mut_two(3, 1, &mut v);
        assert_eq!((*a, *b), (4, 2));
        *a = 40;
        *b = 20;
    }
    assert_eq!(v, vec![1, 20, 3, 40]);
}

#[test]
fn rect_center_and_overlap() {
    let r = Rect::new(2, 3, 6, 7);
    assert_eq!(r.center(), (5, 6));
    assert!(r.intersects_with(&Rect::new(8, 10, 2, 2)));
    assert!(!r.intersects_with(&Rect::new(9, 3, 2, 2)));
    assert_eq!(Rect::new(-5, -5, 2, 2).center(), (-4, -4));
    assert_eq!(Rect::new(-5, -6, 2, 3).center(), (-4, -4));
}

#[test]
fn overlap_is_symmetric_and_centres_lie_inside() {
    let rooms = [
        Rect::new(2, 3, 6, 7),
        Rect::new(8, 10, 2, 2),
        Rect::new(9, 3, 2, 2),
        Rect::new(-3, 0, 3, 1),
        Rect::new(0, 0, 0, 0),
    ];
    for a in &rooms {
        for b in &rooms {
            assert_eq!(a.intersects_with(b), b.intersects_with(a));
        }
        let (cx, cy) = a.center();
        assert!(a.x1 <= cx && cx <= a.x2 && a.y1 <= cy && cy <= a.y2);
    }
}

#[test]
fn new_object_defaults() {
    let o = Object::new(4, 5, '!', colors::violet(), "healing potion", false);
    assert_eq!(o.pos(), (4, 5));
    assert_eq!(o.level, 1);
    assert!(!o.alive && !o.always_visible && !o.blocks);
    assert!(o.fighter.is_none() && o.item.is_none() && o.equipment.is_none() && o.ai.is_none());
    let _ = Equipment { slot: Slot::Head, equipped: false, max_hp_bonus: 0, power_bonus: 0, defense_bonus: 0 };
    let _ = Item::Heal;
}

#[test]
fn an_empty_room_at_the_edge_digs_nothing() {
    let mut map = floor_map(3, 3);
    map[1][1] = Tile::wall();
    let room = Rect { x1: 1, y1: i32::MAX, x2: 2, y2: i32::MAX };
    create_room(room, &mut map);
    assert!(map[1][1].blocked);
    assert!(!map[0][0].blocked);
}

#[test]
fn far_moves_keep_heading_for_the_target() {
    let mut g = game_with(floor_map(2, 2));
    let mut objects = vec![player_at(0, 0)];
    move_toward(0, 10000, 9000, &mut objects, &mut g);
    assert_eq!(objects[0].pos(), (1, 1));
    objects[0].set_pos(0, 0);
    move_toward(0, 9000, 100, &mut objects, &mut g);
    assert_eq!(objects[0].pos(), (1, 0));
    objects[0].set_pos(0, 0);
    move_toward(0, 3, 5000, &mut objects, &mut g);
    assert_eq!(objects[0].pos(), (0, 1));
}
