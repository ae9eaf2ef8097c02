use catacombs::ai::{ai_basic, ai_confused, ai_take_turn, turn_is_ok};
use catacombs::colors;
use catacombs::controls::{character_is_ok, command_of, get_names_under_mouse, handle_keys, keys_are_ok, Command, Key, KeyCode, UiRequest};
use catacombs::data::{Ai, DeathCallback, Equipment, Fighter, Game, Item, Object, PlayerAction, Slot, Tile, UseResult};
use catacombs::equipment::{get_equipped_in_slot, toggle_equipment};
use catacombs::items::{can_use, drop_item, pick_item_up, target_kind, use_item, Target, TargetKind};
use catacombs::mapping::{make_map, mark_explored, new_item, new_monster, place_drawn, place_objects};
use catacombs::meta::{end_turn, game_is_sound, monsters_take_turns, new_game, next_level, next_level_is_ok, TurnEnd};
use catacombs::player_actions::{level_up, level_up_is_ok, raise_is_ok, raise_stat};
use catacombs::spellcasting::{cast_confuse, cast_fireball, cast_heal, cast_lightning, fireball_is_safe, heal_is_safe, lightning_is_safe};
use catacombs::targeting::{closest_monster, monster_at, tile_targetable};
use catacombs::util::growl;
use catacombs::data::Rect;

const W: usize = 80;
const H: usize = 43;

fn walled_floor() -> Vec<Vec<Tile>> {
    let mut map = vec![vec![Tile::empty(); H]; W];
    for x in 0..W {
        for y in 0..H {
            if x == 0 || y == 0 || x == W - 1 || y == H - 1 {
                map[x][y] = Tile::wall();
            }
        }
    }
    map
}

fn game() -> Game {
    Game { map: walled_floor(), log: vec![], inventory: vec![], dungeon_level: 1 }
}

fn all_visible() -> Vec<Vec<bool>> {
    vec![vec![true; H]; W]
}

fn player_at(x: i32, y: i32) -> Object {
    let mut p = Object::new(x, y, '@', colors::white(), "Player", true);
    p.alive = true;
    p.fighter = Some(Fighter { base_max_hp: 100, hp: 100, base_defense: 1, base_power: 4, on_death: DeathCallback::Player, xp: 0 });
    p
}

fn orc_at(x: i32, y: i32) -> Object {
    new_monster(x, y, 0)
}

fn sword() -> Object {
    new_item(0, 0, 4)
}

fn shield() -> Object {
    new_item(0, 0, 5)
}

fn text_key(t: &str) -> Key {
    Key { code: KeyCode::Text, printable: '\0', alt: false, text: t.to_string() }
}

fn printable_key(c: char) -> Key {
    Key { code: KeyCode::Other, printable: c, alt: false, text: String::new() }
}

fn messages(g: &Game) -> Vec<String> {
    g.log.iter().map(|m| m.0.clone()).collect()
}

#[test]
fn monster_templates() {
    let troll = new_monster(3, 4, 1);
    assert_eq!(troll.name, "troll");
    assert_eq!(troll.char, 'T');
    assert_eq!(troll.fighter.unwrap(), Fighter { base_max_hp: 30, hp: 16, base_power: 8, base_defense: 2, on_death: DeathCallback::Monster, xp: 100 });
    assert!(troll.alive && troll.blocks);
    let draco = new_monster(3, 4, 2);
    assert_eq!(draco.fighter.unwrap().xp, 65);
    let s = shield();
    assert_eq!(s.item, Some(Item::Shield));
    assert_eq!(s.equipment.unwrap().defense_bonus, 1);
    assert_eq!(new_item(1, 1, 1).name, "scroll of lightning bolt");
}

#[test]
fn pick_up_equips_when_slot_is_free() {
    let mut g = game();
    let mut objects = vec![player_at(5, 5), sword(), orc_at(7, 7)];
    pick_item_up(1, &mut objects, &mut g);
    assert_eq!(objects.len(), 2);
    assert_eq!(objects[1].name, "orc");
    assert_eq!(g.inventory.len(), 1);
    assert!(g.inventory[0].equipment.unwrap().equipped);
    assert_eq!(messages(&g), vec!["You picked up a sword!", "Equipped sword on right hand."]);
    let mut objects = vec![player_at(5, 5), sword()];
    pick_item_up(1, &mut objects, &mut g);
    assert!(!g.inventory[1].equipment.unwrap().equipped);
    assert_eq!(get_equipped_in_slot(Slot::RightHand, &g.inventory), Some(0));
    assert_eq!(get_equipped_in_slot(Slot::LeftHand, &g.inventory), None);
}

#[test]
fn full_inventory_refuses() {
    let mut g = game();
    for _ in 0..26 {
        g.inventory.push(new_item(0, 0, 0));
    }
    let mut objects = vec![player_at(5, 5), sword()];
    pick_item_up(1, &mut objects, &mut g);
    assert_eq!(objects.len(), 2);
    assert_eq!(g.inventory.len(), 26);
    assert_eq!(g.log[0], ("Your inventory is full, cannot pick up sword.".to_string(), colors::red()));
}

#[test]
fn dropped_item_lies_at_the_players_feet_unequipped() {
    let mut g = game();
    let mut objects = vec![player_at(5, 6)];
    let mut s = sword();
    s.equipment.as_mut().unwrap().equipped = true;
    g.inventory.push(s);
    drop_item(0, &mut objects, &mut g);
    assert!(g.inventory.is_empty());
    assert_eq!(objects[1].pos(), (5, 6));
    assert!(!objects[1].equipment.unwrap().equipped);
    assert_eq!(messages(&g), vec!["Dequipped sword from right hand.", "You dropped a sword."]);
}

#[test]
fn toggling_keeps_one_item_per_slot() {
    let mut g = game();
    let mut a = shield();
    a.equipment.as_mut().unwrap().equipped = true;
    g.inventory.push(a);
    g.inventory.push(shield());
    let r = toggle_equipment(1, &mut g);
    assert_eq!(r, UseResult::UsedAndKept);
    assert!(!g.inventory[0].equipment.unwrap().equipped);
    assert!(g.inventory[1].equipment.unwrap().equipped);
    assert_eq!(messages(&g), vec!["Dequipped shield from left hand.", "Equipped shield on left hand."]);
    g.inventory.push(new_item(0, 0, 0));
    assert_eq!(toggle_equipment(2, &mut g), UseResult::Cancelled);
}

#[test]
fn healing() {
    let mut g = game();
    let mut objects = vec![player_at(5, 5)];
    assert_eq!(cast_heal(0, &mut objects, &mut g), UseResult::Cancelled);
    assert_eq!(messages(&g), vec!["You are already at full health."]);
    objects[0].fighter.as_mut().unwrap().hp = 30;
    assert_eq!(cast_heal(0, &mut objects, &mut g), UseResult::UsedUp);
    assert_eq!(objects[0].fighter.unwrap().hp, 70);
    objects[0].fighter.as_mut().unwrap().hp = 90;
    cast_heal(0, &mut objects, &mut g);
    assert_eq!(objects[0].fighter.unwrap().hp, 100);
}

#[test]
fn lightning_strikes_the_closest_visible_monster() {
    let mut g = game();
    let mut objects = vec![player_at(10, 10), orc_at(13, 10), orc_at(12, 11), orc_at(11, 13)];
    let fov = all_visible();
    assert_eq!(closest_monster(5, &objects, &fov), Some(2));
    let r = cast_lightning(0, &mut objects, &mut g, &fov);
    assert_eq!(r, UseResult::UsedUp);
    assert!(objects[2].fighter.is_none());
    assert_eq!(objects[0].fighter.unwrap().xp, 35);
    assert_eq!(messages(&g)[0], "A lightning bolt strikes the orc with a deafening thunderclap! It damages for 40 points.");
    let mut far = vec![player_at(10, 10), orc_at(16, 10)];
    assert_eq!(closest_monster(5, &far, &fov), None);
    assert_eq!(cast_lightning(0, &mut far, &mut g, &fov), UseResult::Cancelled);
    assert_eq!(messages(&g).last().unwrap(), "No enemy is close enough to strike.");
    let mut hidden = vec![vec![true; H]; W];
    hidden[12][11] = false;
    assert_eq!(closest_monster(5, &objects, &hidden), Some(1));
}

#[test]
fn confusion_wraps_the_old_behaviour() {
    let mut g = game();
    let mut objects = vec![player_at(10, 10), orc_at(12, 12)];
    assert_eq!(cast_confuse(0, &mut objects, &mut g, Some(1)), UseResult::UsedUp);
    match &objects[1].ai {
        Some(Ai::Confused { previous_ai, num_turns }) => {
            assert_eq!(*num_turns, 10);
            assert!(matches!(**previous_ai, Ai::Basic));
        },
        _ => panic!("not confused"),
    }
    assert_eq!(messages(&g)[1], "The eyes of orc look vacant, and he starts to stumble around!");
    assert_eq!(cast_confuse(0, &mut objects, &mut g, None), UseResult::Cancelled);
}

#[test]
fn fireball_burns_everything_close() {
    let mut g = game();
    let mut objects = vec![player_at(10, 10), orc_at(20, 20), orc_at(21, 20), orc_at(24, 20)];
    objects[2].fighter.as_mut().unwrap().hp = 30;
    let r = cast_fireball(0, &mut objects, &mut g, Some((20, 21)));
    assert_eq!(r, UseResult::UsedUp);
    assert!(objects[1].fighter.is_none());
    assert_eq!(objects[2].fighter.unwrap().hp, 5);
    assert_eq!(objects[3].fighter.unwrap().hp, 20);
    assert_eq!(objects[0].fighter.unwrap().xp, 35);
    assert_eq!(
        messages(&g),
        vec![
            "Left-click a target tile for the faireball, or right-click to cancel.",
            "The fireball explodes, burning everything within 3 tiles!",
            "The orc is burned for 25 points of damage.",
            "orc dies in agony! You gain 35 XP.",
            "The orc is burned for 25 points of damage.",
        ]
    );
    assert_eq!(cast_fireball(0, &mut objects, &mut g, None), UseResult::Cancelled);
}

#[test]
fn using_items() {
    let mut g = game();
    let mut objects = vec![player_at(10, 10)];
    let fov = all_visible();
    g.inventory.push(new_item(0, 0, 0));
    g.inventory.push(Object::new(0, 0, '?', colors::white(), "rock", false));
    use_item(0, &mut objects, &mut g, &fov, Target::Untargeted);
    assert_eq!(g.inventory.len(), 2);
    assert_eq!(messages(&g), vec!["You are already at full health.", "Cancelled"]);
    objects[0].fighter.as_mut().unwrap().hp = 50;
    use_item(0, &mut objects, &mut g, &fov, Target::Untargeted);
    assert_eq!(g.inventory.len(), 1);
    assert_eq!(objects[0].fighter.unwrap().hp, 90);
    use_item(0, &mut objects, &mut g, &fov, Target::Untargeted);
    assert_eq!(messages(&g).last().unwrap(), "The rock cannot be used.");
    assert_eq!(target_kind(Some(Item::Confuse)), TargetKind::MonsterInRange(8));
    assert_eq!(target_kind(Some(Item::Fireball)), TargetKind::AnyTile);
    assert_eq!(target_kind(Some(Item::Heal)), TargetKind::NoTarget);
}

#[test]
fn targeting_helpers() {
    let objects = vec![player_at(10, 10), orc_at(12, 10), Object::new(12, 10, '!', colors::violet(), "potion", false)];
    let fov = all_visible();
    assert_eq!(monster_at(12, 10, &objects), Some(1));
    assert_eq!(monster_at(10, 10, &objects), None);
    assert!(tile_targetable(13, 10, Some(3), &objects, &fov));
    assert!(!tile_targetable(14, 10, Some(3), &objects, &fov));
    assert!(tile_targetable(30, 30, None, &objects, &fov));
    assert!(!tile_targetable(-1, 3, None, &objects, &fov));
    assert!(!tile_targetable(11, 10, Some(-1), &objects, &fov));
}

#[test]
fn basic_monster_walks_then_attacks() {
    let mut g = game();
    let fov = all_visible();
    let mut objects = vec![player_at(10, 10), orc_at(15, 10)];
    assert!(matches!(ai_basic(1, &mut objects, &mut g, &fov), Ai::Basic));
    assert_eq!(objects[1].pos(), (14, 10));
    let mut objects = vec![player_at(10, 10), orc_at(11, 11)];
    ai_basic(1, &mut objects, &mut g, &fov);
    assert_eq!(objects[0].fighter.unwrap().hp, 97);
    assert_eq!(messages(&g), vec!["orc attacks Player for 3 hit points."]);
    let mut blind = vec![vec![true; H]; W];
    blind[15][10] = false;
    let mut objects = vec![player_at(10, 10), orc_at(15, 10)];
    ai_basic(1, &mut objects, &mut g, &blind);
    assert_eq!(objects[1].pos(), (15, 10));
}

#[test]
fn confusion_wears_off() {
    let mut g = game();
    let mut objects = vec![player_at(10, 10), orc_at(20, 20)];
    let ai = ai_confused(1, Box::new(Ai::Basic), 3, &mut objects, &mut g);
    match ai {
        Ai::Confused { num_turns, .. } => assert_eq!(num_turns, 2),
        _ => panic!(),
    }
    let (x, y) = objects[1].pos();
    assert!((19..=21).contains(&x) && (19..=21).contains(&y));
    assert_eq!(messages(&g), vec!["The orc stumbles around in a daze!"]);
    let ai = ai_confused(1, Box::new(Ai::Basic), -1, &mut objects, &mut g);
    assert!(matches!(ai, Ai::Basic));
    assert_eq!(messages(&g)[1], "The orc is no longer confused.");
}

#[test]
fn monster_turns() {
    let mut g = game();
    let fov = all_visible();
    let mut objects = vec![player_at(10, 10), orc_at(11, 10), orc_at(20, 10)];
    objects[2].ai = Some(Ai::Confused { previous_ai: Box::new(Ai::Basic), num_turns: -1 });
    ai_take_turn(2, &mut objects, &mut g, &fov);
    assert!(matches!(objects[2].ai, Some(Ai::Basic)));
    monsters_take_turns(&mut objects, &mut g, &fov);
    assert_eq!(objects[0].fighter.unwrap().hp, 97);
    assert_eq!(objects[2].pos(), (19, 10));
    assert!(matches!(objects[1].ai, Some(Ai::Basic)));
}

#[test]
fn level_up_spends_experience() {
    let mut g = game();
    let mut objects = vec![player_at(10, 10)];
    assert_eq!(level_up(&mut objects, &mut g), None);
    objects[0].fighter.as_mut().unwrap().xp = 360;
    assert_eq!(level_up(&mut objects, &mut g), Some(350));
    assert_eq!(objects[0].level, 2);
    assert_eq!(messages(&g), vec!["Your battle skills grow stronger! You reached level 2!"]);
    raise_stat(&mut objects, 350, 0);
    let f = objects[0].fighter.unwrap();
    assert_eq!((f.xp, f.base_max_hp, f.hp), (10, 120, 120));
    raise_stat(&mut objects, 0, 1);
    raise_stat(&mut objects, 0, 2);
    let f = objects[0].fighter.unwrap();
    assert_eq!((f.base_power, f.base_defense), (5, 2));
}

#[test]
fn equipment_counts_for_the_player_only() {
    let mut g = game();
    let mut s = sword();
    s.equipment.as_mut().unwrap().equipped = true;
    g.inventory.push(s);
    let p = player_at(1, 1);
    assert_eq!(p.power(&g), 7);
    assert_eq!(p.defense(&g), 1);
    assert_eq!(p.max_hp(&g), 100);
    let o = orc_at(2, 2);
    assert_eq!(o.power(&g), 4);
    let mut objects = vec![p];
    growl(&mut objects, &mut g);
    assert_eq!(messages(&g), vec!["Player power is 7 and he growls."]);
}

#[test]
fn names_under_the_mouse() {
    let mut objects = vec![player_at(10, 10), orc_at(12, 10), new_item(12, 10, 0), orc_at(13, 10)];
    objects[1].name = "orc".to_string();
    let fov = all_visible();
    assert_eq!(get_names_under_mouse(12, 10, &objects, &fov), "orc, healing potion");
    assert_eq!(get_names_under_mouse(1, 1, &objects, &fov), "");
    let dark = vec![vec![false; H]; W];
    assert_eq!(get_names_under_mouse(12, 10, &objects, &dark), "");
}

#[test]
fn keys() {
    let mut g = game();
    let mut objects = vec![player_at(10, 10)];
    let (a, r) = handle_keys(&text_key("w"), &mut objects, &mut g);
    assert_eq!(a, PlayerAction::TookTurn);
    assert!(matches!(r, UiRequest::Nothing));
    assert_eq!(objects[0].pos(), (10, 9));
    let up = Key { code: KeyCode::Up, printable: '\0', alt: false, text: String::new() };
    handle_keys(&up, &mut objects, &mut g);
    assert_eq!(objects[0].pos(), (10, 8));
    let (a, _) = handle_keys(&text_key("y"), &mut objects, &mut g);
    assert_eq!(a, PlayerAction::DidntTakeTurn);
    let (a, r) = handle_keys(&printable_key('o'), &mut objects, &mut g);
    assert_eq!(a, PlayerAction::DidntTakeTurn);
    assert!(matches!(r, UiRequest::DropMenu));
    let (_, r) = handle_keys(&printable_key('i'), &mut objects, &mut g);
    assert!(matches!(r, UiRequest::InventoryMenu));
    let (_, r) = handle_keys(&printable_key('u'), &mut objects, &mut g);
    match r {
        UiRequest::CharacterScreen(s) => assert_eq!(
            s,
            "Character information:\n\n\nLevel: 1\n\nExperience: 0\n\nXP to level up: 350\n\n\n\nMaximum HP: 100\n\nAttack: 4\n\nDefense: 1"
        ),
        _ => panic!(),
    }
    let esc = Key { code: KeyCode::Escape, printable: '\0', alt: false, text: String::new() };
    assert_eq!(handle_keys(&esc, &mut objects, &mut g).0, PlayerAction::Exit);
    let full = Key { code: KeyCode::Enter, printable: '\r', alt: true, text: String::new() };
    assert!(matches!(handle_keys(&full, &mut objects, &mut g).1, UiRequest::ToggleFullscreen));
    let (a, _) = handle_keys(&text_key("s"), &mut objects, &mut g);
    assert_eq!(a, PlayerAction::TookTurn);
    objects.push(new_item(10, 8, 0));
    handle_keys(&printable_key('g'), &mut objects, &mut g);
    assert_eq!(g.inventory.len(), 1);
    assert_eq!(objects.len(), 1);
}

#[test]
fn dead_player_cannot_act_but_can_exit() {
    let mut g = game();
    let mut objects = vec![player_at(10, 10)];
    objects[0].alive = false;
    let (a, _) = handle_keys(&text_key("w"), &mut objects, &mut g);
    assert_eq!(a, PlayerAction::DidntTakeTurn);
    assert_eq!(objects[0].pos(), (10, 10));
    let esc = Key { code: KeyCode::Escape, printable: '\0', alt: false, text: String::new() };
    assert_eq!(handle_keys(&esc, &mut objects, &mut g).0, PlayerAction::Exit);
}

fn check_level(objects: &[Object], map: &Vec<Vec<Tile>>) {
    assert_eq!(map.len(), W);
    for x in 0..W {
        assert_eq!(map[x].len(), H);
        for y in 0..H {
            if x == 0 || y == 0 || x == W - 1 || y == H - 1 {
                assert!(map[x][y].blocked);
            }
        }
    }
    for o in objects {
        assert!(!map[o.x as usize][o.y as usize].blocked);
    }
    let stairs = objects.last().unwrap();
    assert_eq!(stairs.name, "stairs");
    assert!(stairs.always_visible);
}

#[test]
fn generated_levels_are_sound() {
    for level in 1..8 {
        let mut objects = vec![player_at(0, 0), orc_at(3, 3)];
        let map = make_map(&mut objects, level);
        check_level(&objects, &map);
        assert_eq!(objects[0].name, "Player");
        for o in &objects[1..objects.len() - 1] {
            assert!(o.fighter.is_some() || o.item.is_some());
            if level < 3 {
                assert!(o.name != "troll" || level >= 2);
                assert!(o.name != "scroll of fireball" && o.name != "shield");
            }
        }
    }
}

#[test]
fn placing_objects_stays_in_the_room() {
    let map = walled_floor();
    let room = Rect::new(10, 10, 6, 6);
    for _ in 0..20 {
        let mut objects = vec![player_at(1, 1)];
        place_objects(room, &map, &mut objects, 1);
        assert!(objects.len() <= 1 + 2 + 1);
        for o in &objects[1..] {
            assert!(o.x > 10 && o.x < 16 && o.y > 10 && o.y < 16);
            assert!(o.name != "troll");
        }
    }
}

#[test]
fn a_new_game_is_sound() {
    let (objects, g) = new_game();
    check_level(&objects, &g.map);
    assert_eq!(g.dungeon_level, 1);
    assert_eq!(g.inventory.len(), 1);
    assert_eq!(g.inventory[0].name, "dagger");
    assert_eq!(g.inventory[0].equipment, Some(Equipment { slot: Slot::LeftHand, equipped: true, max_hp_bonus: 0, power_bonus: 2, defense_bonus: 0 }));
    assert_eq!(messages(&g), vec!["Welcome, stranger, to the Mysterious Mysteries of the Abysslike Catacombs! Prepare to die."]);
    assert!(game_is_sound(&objects, &g));
    assert_eq!(objects[0].power(&g), 6);
}

#[test]
fn going_down_heals_and_deepens() {
    let (mut objects, mut g) = new_game();
    objects[0].fighter.as_mut().unwrap().hp = 10;
    next_level(&mut objects, &mut g);
    assert_eq!(g.dungeon_level, 2);
    assert_eq!(objects[0].fighter.unwrap().hp, 60);
    check_level(&objects, &g.map);
    assert_eq!(messages(&g)[1..].to_vec(), vec![
        "You take a moment to rst, and recover your strength.",
        "After a rare moment of peace, you descend deeper into the catacombs...",
    ]);
    let stairs = objects.len() - 1;
    let (sx, sy) = objects[stairs].pos();
    objects[0].set_pos(sx, sy);
    let (a, r) = handle_keys(&printable_key('<'), &mut objects, &mut g);
    assert_eq!(a, PlayerAction::DidntTakeTurn);
    assert!(matches!(r, UiRequest::InitFov));
    assert_eq!(g.dungeon_level, 3);
    assert_eq!(messages(&g)[3], "You cant do that on television!");
}

#[test]
fn soundness_check_rejects_broken_games() {
    let (mut objects, g) = new_game();
    assert!(game_is_sound(&objects, &g));
    objects[0].ai = Some(Ai::Basic);
    assert!(!game_is_sound(&objects, &g));
    objects[0].ai = None;
    objects[0].fighter.as_mut().unwrap().xp = 1_000_000;
    assert!(!game_is_sound(&objects, &g));
}

#[test]
fn safety_checks_before_using_items() {
    let mut g = game();
    g.inventory.push(new_item(0, 0, 0));
    g.inventory.push(new_item(0, 0, 3));
    g.inventory.push(new_item(0, 0, 2));
    let objects = vec![player_at(10, 10), orc_at(12, 10)];
    let fov = all_visible();
    assert!(heal_is_safe(&objects, &g));
    assert!(lightning_is_safe(&objects, &fov));
    assert!(fireball_is_safe(&objects, None));
    assert!(fireball_is_safe(&objects, Some((12, 10))));
    assert!(can_use(0, &objects, &g, &fov, &Target::Untargeted));
    assert!(can_use(1, &objects, &g, &fov, &Target::Monster(Some(1))));
    assert!(!can_use(1, &objects, &g, &fov, &Target::Monster(Some(7))));
    assert!(can_use(2, &objects, &g, &fov, &Target::Tile(Some((12, 10)))));
    assert!(!can_use(3, &objects, &g, &fov, &Target::Untargeted));

    // A player one hit from death would be killed by its own fireball.
    let mut weak = vec![player_at(10, 10), orc_at(12, 10)];
    weak[0].fighter.as_mut().unwrap().hp = 5;
    assert!(!fireball_is_safe(&weak, Some((10, 10))));
    assert!(fireball_is_safe(&weak, Some((30, 30))));
    assert!(!can_use(2, &weak, &g, &fov, &Target::Tile(Some((10, 10)))));

    // Hit points at the top of the range cannot be healed further.
    let mut full = vec![player_at(10, 10)];
    full[0].fighter.as_mut().unwrap().hp = i32::MAX;
    assert!(!heal_is_safe(&full, &g));

    // Experience that would overflow when the monster dies.
    let mut rich = vec![player_at(10, 10), orc_at(12, 10)];
    rich[0].fighter.as_mut().unwrap().xp = i32::MAX;
    rich[1].fighter.as_mut().unwrap().hp = 1;
    assert!(!lightning_is_safe(&rich, &fov));
    assert!(lightning_is_safe(&rich, &vec![vec![false; H]; W]));
    assert!(!heal_is_safe(&[], &g));
}

#[test]
fn seen_tiles_become_explored() {
    let mut map = walled_floor();
    let mut fov = vec![vec![false; H]; W];
    fov[3][4] = true;
    fov[0][0] = true;
    mark_explored(&mut map, &fov);
    assert!(map[3][4].explored && !map[3][4].blocked);
    assert!(map[0][0].explored && map[0][0].blocked && map[0][0].block_sight);
    assert!(!map[4][3].explored);
    let explored: usize = map.iter().map(|c| c.iter().filter(|t| t.explored).count()).sum();
    assert_eq!(explored, 2);
    // Once explored, a tile stays so when out of sight.
    mark_explored(&mut map, &vec![vec![false; H]; W]);
    assert!(map[3][4].explored);
    // A short grid marks nothing beyond it.
    let mut map2 = walled_floor();
    mark_explored(&mut map2, &vec![vec![true; 2]; 1]);
    assert!(map2[0][1].explored && !map2[0][2].explored && !map2[1][0].explored);
}


fn arrow(code: KeyCode) -> Key {
    Key { code, printable: '\0', alt: false, text: String::new() }
}

#[test]
fn moving_on_a_small_map() {
    let mut p = Object::new(1, 1, '@', colors::white(), "Player", true);
    p.alive = true;
    let mut objects = vec![p];
    let mut g = Game { map: vec![vec![Tile::empty(); 3]; 3], log: vec![], inventory: vec![], dungeon_level: 1 };
    let key = arrow(KeyCode::Up);
    let command = command_of(&key, true);
    assert!(command == Command::Move(0, -1));
    assert!(keys_are_ok(command, &objects, &g));
    let (action, request) = handle_keys(&key, &mut objects, &mut g);
    assert_eq!(action, PlayerAction::TookTurn);
    assert!(matches!(request, UiRequest::Nothing));
    assert_eq!(objects.len(), 1);
    assert_eq!(objects[0].pos(), (1, 0));
    assert!(g.log.is_empty());
    // One more step up would leave the map.
    assert!(!keys_are_ok(command_of(&key, true), &objects, &g));
}

#[test]
fn escape_and_a_dead_player_need_nothing_of_the_game() {
    let mut p = Object::new(500, -7, '%', colors::dark_red(), "remains", false);
    p.alive = false;
    let mut objects = vec![p];
    let mut g = Game { map: vec![], log: vec![], inventory: vec![], dungeon_level: 9 };
    for key in [text_key("w"), arrow(KeyCode::Left), printable_key('g'), printable_key('u'), arrow(KeyCode::Escape)] {
        let command = command_of(&key, false);
        assert!(keys_are_ok(command, &objects, &g));
        let (action, request) = handle_keys(&key, &mut objects, &mut g);
        assert!(matches!(request, UiRequest::Nothing));
        if key.code == KeyCode::Escape {
            assert_eq!(action, PlayerAction::Exit);
        } else {
            assert_eq!(action, PlayerAction::DidntTakeTurn);
        }
    }
    assert_eq!(objects[0].pos(), (500, -7));
    assert!(g.log.is_empty() && g.map.is_empty() && g.dungeon_level == 9);
}

#[test]
fn checks_before_the_keys() {
    let g = game();
    let mut objects = vec![player_at(10, 10), orc_at(11, 10)];
    assert!(keys_are_ok(Command::Move(1, 0), &objects, &g));
    // An attack whose power cannot be computed in 32 bits.
    objects[0].fighter.as_mut().unwrap().base_power = i32::MAX;
    let mut g2 = game();
    let mut sword_on = sword();
    sword_on.equipment.as_mut().unwrap().equipped = true;
    g2.inventory.push(sword_on);
    assert!(!keys_are_ok(Command::Move(1, 0), &objects, &g2));
    assert!(!character_is_ok(&objects[0], &g2));
    assert!(keys_are_ok(Command::Move(-1, 0), &objects, &g2));
    assert!(character_is_ok(&objects[1], &g2));
    assert!(keys_are_ok(Command::Exit, &objects, &g2));
    assert!(!keys_are_ok(Command::Exit, &[], &g2));
    // Going down needs the rest to fit.
    assert!(next_level_is_ok(&objects, &g));
    objects[0].fighter.as_mut().unwrap().hp = i32::MAX;
    assert!(!next_level_is_ok(&objects, &g));
    let mut deep = game();
    deep.dungeon_level = u32::MAX;
    assert!(!next_level_is_ok(&[player_at(1, 1)], &deep));
}

#[test]
fn level_up_checks() {
    let mut objects = vec![player_at(10, 10)];
    assert!(level_up_is_ok(&objects));
    assert!(raise_is_ok(&objects, 200, 0));
    assert!(!raise_is_ok(&objects, 200, 3));
    objects[0].level = i32::MAX / 100;
    assert!(!level_up_is_ok(&objects));
    objects[0].level = 1;
    objects[0].fighter.as_mut().unwrap().base_power = i32::MAX;
    assert!(!raise_is_ok(&objects, 200, 1));
    assert!(raise_is_ok(&objects, 200, 2));
    objects[0].fighter = None;
    assert!(!raise_is_ok(&objects, 200, 2));
    assert!(!level_up_is_ok(&[]));
}

#[test]
fn end_of_a_turn() {
    let mut g = game();
    let fov = all_visible();
    let mut objects = vec![player_at(10, 10), orc_at(20, 10)];
    assert_eq!(end_turn(PlayerAction::Exit, &mut objects, &mut g, &fov), Ok(TurnEnd::SaveAndQuit));
    assert_eq!(objects[1].pos(), (20, 10));
    assert_eq!(end_turn(PlayerAction::DidntTakeTurn, &mut objects, &mut g, &fov), Ok(TurnEnd::Continue));
    assert_eq!(objects[1].pos(), (20, 10));
    assert_eq!(end_turn(PlayerAction::TookTurn, &mut objects, &mut g, &fov), Ok(TurnEnd::Continue));
    assert_eq!(objects[1].pos(), (19, 10));
    // A dead player's turn is not followed by the monsters'.
    objects[0].alive = false;
    assert_eq!(end_turn(PlayerAction::TookTurn, &mut objects, &mut g, &fov), Ok(TurnEnd::Continue));
    assert_eq!(objects[1].pos(), (19, 10));
}

#[test]
fn a_turn_that_cannot_be_taken_stops_the_monsters() {
    let mut g = Game { map: vec![vec![Tile::empty(); 3]; 3], log: vec![], inventory: vec![], dungeon_level: 1 };
    let fov = vec![vec![false; 3]; 3];
    let mut objects = vec![player_at(2, 2), orc_at(1, 1), orc_at(0, 0), orc_at(1, 2)];
    objects[2].ai = Some(Ai::Confused { previous_ai: Box::new(Ai::Basic), num_turns: 2 });
    objects[3].ai = Some(Ai::Confused { previous_ai: Box::new(Ai::Basic), num_turns: 2 });
    assert!(turn_is_ok(1, &objects, &g, &fov));
    assert!(!turn_is_ok(2, &objects, &g, &fov));
    assert!(turn_is_ok(0, &objects, &g, &fov));
    assert_eq!(monsters_take_turns(&mut objects, &mut g, &fov), Err(2));
    // The monster at 3 did not act: it is still confused for two turns.
    assert!(matches!(objects[3].ai, Some(Ai::Confused { num_turns: 2, .. })));
    // Once confusion has worn off the monster needs nothing around it.
    objects[2].ai = Some(Ai::Confused { previous_ai: Box::new(Ai::Basic), num_turns: -1 });
    assert!(turn_is_ok(2, &objects, &g, &fov));
}

#[test]
fn confusion_wears_off_anywhere() {
    let mut g = Game { map: vec![], log: vec![], inventory: vec![], dungeon_level: 1 };
    let mut objects = vec![player_at(-40, 900), orc_at(-50, 1000)];
    let ai = ai_confused(1, Box::new(Ai::Basic), -1, &mut objects, &mut g);
    assert!(matches!(ai, Ai::Basic));
    assert_eq!(objects[1].pos(), (-50, 1000));
    assert_eq!(messages(&g), vec!["The orc is no longer confused."]);
}

#[test]
fn drawn_monsters_and_items_go_where_the_spot_is_free() {
    let map = walled_floor();
    let room = Rect::new(10, 10, 6, 6);
    let mut objects = vec![player_at(1, 1)];
    place_drawn(room, &map, &mut objects, 3, &vec![(12, 12, 0), (12, 12, 1), (13, 14, 2)], false);
    assert_eq!(objects.len(), 3);
    assert_eq!((objects[1].name.as_str(), objects[1].pos()), ("orc", (12, 12)));
    assert_eq!((objects[2].name.as_str(), objects[2].pos()), ("draco", (13, 14)));
    place_drawn(room, &map, &mut objects, 4, &vec![(12, 12, 0), (14, 11, 4), (14, 11, 1)], true);
    assert_eq!(objects.len(), 5);
    assert_eq!((objects[3].name.as_str(), objects[3].pos()), ("sword", (14, 11)));
    assert!(objects[3].always_visible);
    assert_eq!((objects[4].name.as_str(), objects[4].pos()), ("scroll of lightning bolt", (14, 11)));
}

/// The floor tiles reachable from `(x, y)` by orthogonal steps.
fn reachable(map: &Vec<Vec<Tile>>, x: usize, y: usize) -> Vec<Vec<bool>> {
    let mut seen = vec![vec![false; H]; W];
    let mut todo = vec![(x, y)];
    while let Some((a, b)) = todo.pop() {
        if seen[a][b] || map[a][b].blocked {
            continue;
        }
        seen[a][b] = true;
        todo.push((a - 1, b));
        todo.push((a + 1, b));
        todo.push((a, b - 1));
        todo.push((a, b + 1));
    }
    seen
}

#[test]
fn generated_levels_are_walls_and_connected_floor() {
    for level in 1..10 {
        let mut objects = vec![player_at(0, 0)];
        let map = make_map(&mut objects, level);
        for column in &map {
            for t in column {
                assert!(*t == Tile::wall() || *t == Tile::empty());
            }
        }
        let (px, py) = objects[0].pos();
        let seen = reachable(&map, px as usize, py as usize);
        for x in 0..W {
            for y in 0..H {
                assert_eq!(seen[x][y], !map[x][y].blocked);
            }
        }
        let (sx, sy) = objects.last().unwrap().pos();
        assert!(seen[sx as usize][sy as usize]);
    }
}

#[test]
fn every_key_can_be_handled_in_a_new_game() {
    let (objects, g) = new_game();
    assert!(game_is_sound(&objects, &g));
    let keys = vec![
        text_key("w"), text_key("x"), text_key("a"), text_key("d"), text_key("q"), text_key("e"), text_key("z"),
        text_key("c"), text_key("s"), arrow(KeyCode::Up), arrow(KeyCode::Down), arrow(KeyCode::Left),
        arrow(KeyCode::Right), printable_key('g'), printable_key('o'), printable_key('i'), printable_key('<'),
        printable_key('u'), arrow(KeyCode::Escape), Key { code: KeyCode::Enter, printable: '\0', alt: true, text: String::new() },
    ];
    for key in &keys {
        for alive in [true, false] {
            assert!(keys_are_ok(command_of(key, alive), &objects, &g));
        }
    }
}

#[test]
fn an_item_that_cannot_be_used_needs_no_objects() {
    let mut g = game();
    let mut junk = Object::new(0, 0, '?', colors::white(), "rock", false);
    junk.item = None;
    g.inventory.push(junk);
    let fov = all_visible();
    let mut objects: Vec<Object> = vec![];
    assert!(can_use(0, &objects, &g, &fov, &Target::Untargeted));
    use_item(0, &mut objects, &mut g, &fov, Target::Untargeted);
    assert!(objects.is_empty());
    assert_eq!(g.inventory.len(), 1);
    assert_eq!(messages(&g), vec!["The rock cannot be used."]);
}

#[test]
fn healing_at_full_health_at_the_top_of_the_range() {
    let mut g = game();
    let mut objects = vec![player_at(10, 10)];
    {
        let f = objects[0].fighter.as_mut().unwrap();
        f.base_max_hp = i32::MAX;
        f.hp = i32::MAX;
    }
    assert!(heal_is_safe(&objects, &g));
    assert_eq!(cast_heal(0, &mut objects, &mut g), UseResult::Cancelled);
    assert_eq!(objects[0].fighter.unwrap().hp, i32::MAX);
    assert_eq!(messages(&g), vec!["You are already at full health."]);
    objects[0].fighter.as_mut().unwrap().hp = i32::MAX - 1;
    assert!(!heal_is_safe(&objects, &g));
}

/// Tiles reachable from `(x, y)` over floor by orthogonal steps, on any map.
fn reachable_on(map: &Vec<Vec<Tile>>, x: usize, y: usize) -> Vec<Vec<bool>> {
    let mut seen: Vec<Vec<bool>> = map.iter().map(|c| vec![false; c.len()]).collect();
    let mut todo = vec![(x, y)];
    while let Some((a, b)) = todo.pop() {
        if seen[a][b] || map[a][b].blocked {
            continue;
        }
        seen[a][b] = true;
        todo.push((a - 1, b));
        todo.push((a + 1, b));
        todo.push((a, b - 1));
        todo.push((a, b + 1));
    }
    seen
}

#[test]
fn going_down_builds_a_connected_level() {
    let (mut objects, mut g) = new_game();
    for _ in 0..3 {
        next_level(&mut objects, &mut g);
        let (px, py) = objects[0].pos();
        let seen = reachable_on(&g.map, px as usize, py as usize);
        for x in 0..W {
            for y in 0..H {
                assert!(g.map[x][y] == Tile::wall() || g.map[x][y] == Tile::empty());
                assert_eq!(seen[x][y], !g.map[x][y].blocked);
            }
        }
        let (sx, sy) = objects.last().unwrap().pos();
        assert!(seen[sx as usize][sy as usize]);
    }
}

#[test]
fn confusion_counts_down_over_turns() {
    let mut g = game();
    let fov = all_visible();
    let mut objects = vec![player_at(10, 10), orc_at(40, 20)];
    objects[1].ai = Some(Ai::Confused { previous_ai: Box::new(Ai::Basic), num_turns: 2 });
    for expected in [1, 0, -1] {
        ai_take_turn(1, &mut objects, &mut g, &fov);
        match &objects[1].ai {
            Some(Ai::Confused { num_turns, previous_ai }) => {
                assert_eq!(*num_turns, expected);
                assert!(matches!(**previous_ai, Ai::Basic));
            }
            _ => panic!("still confused"),
        }
    }
    ai_take_turn(1, &mut objects, &mut g, &fov);
    assert!(matches!(objects[1].ai, Some(Ai::Basic)));
}
