//! What objects do to each other: their stats with equipment bonuses,
//! taking damage and dying, attacking, healing, equipping and dequipping.
use vstd::prelude::*;
use vstd::string::StringExecFns;
use crate::colors::{Color, light_green, light_yellow, red, white, spec_dark_orange, spec_dark_red, spec_light_green, spec_light_yellow, spec_red, spec_white};
use crate::data::{add_message, log_view, DeathCallback, Equipment, Fighter, Game, Messages, Object, Slot};
use crate::text::{decimal, push_decimal, push_str};
use crate::util::{monster_death, monster_death_text, monster_remains, player_death, player_remains};
use crate::STAT_LIMIT;
use crate::INVENTORY_CAPACITY;

verus! {

/// Whether a name is the player's.
pub open spec fn is_player_name(name: Seq<char>) -> bool {
    name == "Player"@
}

/// The equipment of the items of `inv` that are equipped, in inventory order.
pub open spec fn equipped_list(inv: Seq<Object>) -> Seq<Equipment>
    decreases inv.len(),
{
    if inv.len() == 0 {
        seq![]
    } else {
        let rest = equipped_list(inv.drop_last());
        match inv.last().equipment {
            Some(e) => if e.equipped { rest.push(e) } else { rest },
            None => rest,
        }
    }
}

pub open spec fn power_bonus_total(l: Seq<Equipment>) -> int
    decreases l.len(),
{
    if l.len() == 0 { 0 } else { power_bonus_total(l.drop_last()) + l.last().power_bonus }
}

pub open spec fn defense_bonus_total(l: Seq<Equipment>) -> int
    decreases l.len(),
{
    if l.len() == 0 { 0 } else { defense_bonus_total(l.drop_last()) + l.last().defense_bonus }
}

pub open spec fn max_hp_bonus_total(l: Seq<Equipment>) -> int
    decreases l.len(),
{
    if l.len() == 0 { 0 } else { max_hp_bonus_total(l.drop_last()) + l.last().max_hp_bonus }
}

/// Every bonus of the equipment is at most `STAT_LIMIT` in size.
pub open spec fn equipment_bounded(e: Equipment) -> bool {
    &&& -STAT_LIMIT <= e.power_bonus <= STAT_LIMIT
    &&& -STAT_LIMIT <= e.defense_bonus <= STAT_LIMIT
    &&& -STAT_LIMIT <= e.max_hp_bonus <= STAT_LIMIT
}

/// The bonuses of the object's equipment, if any, are bounded.
pub open spec fn item_bounded(o: Object) -> bool {
    o.equipment matches Some(e) ==> equipment_bounded(e)
}

/// The inventory is within its capacity and its bonuses are bounded.
pub open spec fn inventory_ok(inv: Seq<Object>) -> bool {
    &&& inv.len() <= INVENTORY_CAPACITY
    &&& forall|i: int| 0 <= i < inv.len() ==> item_bounded(#[trigger] inv[i])
}

/// Whether a value fits in an `i32`.
pub open spec fn fits_i32(v: int) -> bool {
    i32::MIN <= v <= i32::MAX
}

/// The display name of a slot.
pub open spec fn slot_text(s: Slot) -> Seq<char> {
    match s {
        Slot::LeftHand => "left hand"@,
        Slot::RightHand => "right hand"@,
        Slot::Head => "head"@,
    }
}

pub open spec fn attack_text(attacker: Seq<char>, target: Seq<char>, damage: int) -> Seq<char> {
    attacker + " attacks "@ + target + " for "@ + decimal(damage) + " hit points."@
}

pub open spec fn no_effect_text(attacker: Seq<char>, target: Seq<char>) -> Seq<char> {
    attacker + " attacks "@ + target + " but it has no effect!"@
}

pub proof fn lemma_equipped_list_bounded(inv: Seq<Object>)
    requires
        forall|i: int| 0 <= i < inv.len() ==> item_bounded(#[trigger] inv[i]),
    ensures
        equipped_list(inv).len() <= inv.len(),
        forall|j: int| 0 <= j < equipped_list(inv).len() ==> equipment_bounded(#[trigger] equipped_list(inv)[j]),
    decreases inv.len(),
{
    if inv.len() > 0 {
        let rest = inv.drop_last();
        assert forall|i: int| 0 <= i < rest.len() implies item_bounded(#[trigger] rest[i]) by {
            assert(rest[i] == inv[i]);
        }
        lemma_equipped_list_bounded(rest);
        assert(inv.last() == inv[inv.len() - 1]);
    }
}

impl Object {
    /// The equipment that counts for this object: the equipped items of the
    /// inventory for the player, nothing for any other object.
    pub open spec fn spec_all_equipped(self, inv: Seq<Object>) -> Seq<Equipment> {
        if is_player_name(self.name@) { equipped_list(inv) } else { seq![] }
    }

    pub open spec fn base_power(self) -> int {
        match self.fighter { Some(f) => f.base_power as int, None => 0 }
    }

    pub open spec fn base_defense(self) -> int {
        match self.fighter { Some(f) => f.base_defense as int, None => 0 }
    }

    pub open spec fn base_max_hp(self) -> int {
        match self.fighter { Some(f) => f.base_max_hp as int, None => 0 }
    }

    /// Attack power: the base power plus the power bonuses of the equipment.
    pub open spec fn spec_power(self, inv: Seq<Object>) -> int {
        self.base_power() + power_bonus_total(self.spec_all_equipped(inv))
    }

    /// Defense: the base defense plus the defense bonuses of the equipment.
    pub open spec fn spec_defense(self, inv: Seq<Object>) -> int {
        self.base_defense() + defense_bonus_total(self.spec_all_equipped(inv))
    }

    /// Maximum hit points: the base maximum plus the bonuses of the equipment.
    pub open spec fn spec_max_hp(self, inv: Seq<Object>) -> int {
        self.base_max_hp() + max_hp_bonus_total(self.spec_all_equipped(inv))
    }

    /// Whether this object is the player, judged by its name.
    pub fn is_player(&self) -> (b: bool)
        ensures
            b == is_player_name(self.name@),
    {
        self.name == String::from_str("Player")
    }

    /// The equipment that counts for this object's stats.
    pub fn get_all_equipped(&self, game: &Game) -> (l: Vec<Equipment>)
        ensures
            l@ == self.spec_all_equipped(game.inventory@),
    {
        let mut l: Vec<Equipment> = Vec::new();
        if self.is_player() {
            let n = game.inventory.len();
            let mut i: usize = 0;
            while i < n
                invariant
                    n == game.inventory@.len(),
                    i <= n,
                    l@ == equipped_list(game.inventory@.take(i as int)),
                decreases n - i,
            {
                assert(game.inventory@.take(i + 1).drop_last() =~= game.inventory@.take(i as int));
                if let Some(e) = game.inventory[i].equipment {
                    if e.equipped {
                        l.push(e);
                    }
                }
                i = i + 1;
            }
            assert(game.inventory@.take(n as int) =~= game.inventory@);
        }
        l
    }

    /// Attack power with equipment bonuses. The bonuses are summed exactly, so
    /// only the result has to fit in an `i32`.
    pub fn power(&self, game: &Game) -> (v: i32)
        requires
            fits_i32(self.spec_power(game.inventory@)),
        ensures
            v == self.spec_power(game.inventory@),
    {
        self.power_exact(game) as i32
    }

    /// Attack power with equipment bonuses as an exact sum, whatever its size.
    pub fn power_exact(&self, game: &Game) -> (v: i128)
        ensures
            v == self.spec_power(game.inventory@),
    {
        let l = self.get_all_equipped(game);
        let mut total: i128 = 0;
        let mut i: usize = 0;
        while i < l.len()
            invariant
                l@ == self.spec_all_equipped(game.inventory@),
                i <= l@.len(),
                total == power_bonus_total(l@.take(i as int)),
                -(i as int) * 0x8000_0000 <= total <= (i as int) * 0x8000_0000,
            decreases l@.len() - i,
        {
            assert(l@.take(i + 1).drop_last() =~= l@.take(i as int));
            total = total + l[i].power_bonus as i128;
            i = i + 1;
        }
        assert(l@.take(l@.len() as int) =~= l@);
        let base: i128 = match self.fighter { Some(f) => f.base_power as i128, None => 0 };
        base + total
    }

    /// Defense with equipment bonuses, summed exactly.
    pub fn defense(&self, game: &Game) -> (v: i32)
        requires
            fits_i32(self.spec_defense(game.inventory@)),
        ensures
            v == self.spec_defense(game.inventory@),
    {
        self.defense_exact(game) as i32
    }

    /// Defense with equipment bonuses as an exact sum, whatever its size.
    pub fn defense_exact(&self, game: &Game) -> (v: i128)
        ensures
            v == self.spec_defense(game.inventory@),
    {
        let l = self.get_all_equipped(game);
        let mut total: i128 = 0;
        let mut i: usize = 0;
        while i < l.len()
            invariant
                l@ == self.spec_all_equipped(game.inventory@),
                i <= l@.len(),
                total == defense_bonus_total(l@.take(i as int)),
                -(i as int) * 0x8000_0000 <= total <= (i as int) * 0x8000_0000,
            decreases l@.len() - i,
        {
            assert(l@.take(i + 1).drop_last() =~= l@.take(i as int));
            total = total + l[i].defense_bonus as i128;
            i = i + 1;
        }
        assert(l@.take(l@.len() as int) =~= l@);
        let base: i128 = match self.fighter { Some(f) => f.base_defense as i128, None => 0 };
        base + total
    }

    /// Maximum hit points with equipment bonuses, summed exactly.
    pub fn max_hp(&self, game: &Game) -> (v: i32)
        requires
            fits_i32(self.spec_max_hp(game.inventory@)),
        ensures
            v == self.spec_max_hp(game.inventory@),
    {
        self.max_hp_exact(game) as i32
    }

    /// Maximum hit points with equipment bonuses as an exact sum, whatever its size.
    pub fn max_hp_exact(&self, game: &Game) -> (v: i128)
        ensures
            v == self.spec_max_hp(game.inventory@),
    {
        let l = self.get_all_equipped(game);
        let mut total: i128 = 0;
        let mut i: usize = 0;
        while i < l.len()
            invariant
                l@ == self.spec_all_equipped(game.inventory@),
                i <= l@.len(),
                total == max_hp_bonus_total(l@.take(i as int)),
                -(i as int) * 0x8000_0000 <= total <= (i as int) * 0x8000_0000,
            decreases l@.len() - i,
        {
            assert(l@.take(i + 1).drop_last() =~= l@.take(i as int));
            total = total + l[i].max_hp_bonus as i128;
            i = i + 1;
        }
        assert(l@.take(l@.len() as int) =~= l@);
        let base: i128 = match self.fighter { Some(f) => f.base_max_hp as i128, None => 0 };
        base + total
    }
}

/// Every stat of the fighter is at most `limit` in size; the hit points
/// may also reach a maximum raised by equipment bonuses.
pub open spec fn fighter_within(f: Fighter, limit: int) -> bool {
    &&& -limit <= f.base_max_hp <= limit
    &&& -limit <= f.hp <= limit + 26 * STAT_LIMIT
    &&& -limit <= f.base_defense <= limit
    &&& -limit <= f.base_power <= limit
    &&& -limit <= f.xp <= limit
}

/// The stats of the object, if it fights, are at most `limit` in size.
pub open spec fn object_within(o: Object, limit: int) -> bool {
    o.fighter matches Some(f) ==> fighter_within(f, limit)
}

/// The stats of every object that fights are at most `limit` in size.
pub open spec fn objects_within(objs: Seq<Object>, limit: int) -> bool {
    forall|k: int| 0 <= k < objs.len() ==> object_within(#[trigger] objs[k], limit)
}

pub proof fn lemma_bonus_totals_bounded(l: Seq<Equipment>)
    requires
        forall|j: int| 0 <= j < l.len() ==> equipment_bounded(#[trigger] l[j]),
    ensures
        -l.len() * STAT_LIMIT <= power_bonus_total(l) <= l.len() * STAT_LIMIT,
        -l.len() * STAT_LIMIT <= defense_bonus_total(l) <= l.len() * STAT_LIMIT,
        -l.len() * STAT_LIMIT <= max_hp_bonus_total(l) <= l.len() * STAT_LIMIT,
    decreases l.len(),
{
    if l.len() > 0 {
        let rest = l.drop_last();
        assert forall|j: int| 0 <= j < rest.len() implies equipment_bounded(#[trigger] rest[j]) by {
            assert(rest[j] == l[j]);
        }
        lemma_bonus_totals_bounded(rest);
        assert(equipment_bounded(l[l.len() - 1]));
        assert(l.len() * STAT_LIMIT == rest.len() * STAT_LIMIT + STAT_LIMIT) by (nonlinear_arith)
            requires l.len() == rest.len() + 1;
    }
}

/// With bounded stats and a valid inventory, the power, defense and maximum
/// hit points are bounded too.
pub proof fn lemma_stats_bounded(o: Object, inv: Seq<Object>, limit: int)
    requires
        inventory_ok(inv),
        object_within(o, limit),
        0 <= limit,
    ensures
        -(limit + 26 * STAT_LIMIT) <= o.spec_power(inv) <= limit + 26 * STAT_LIMIT,
        -(limit + 26 * STAT_LIMIT) <= o.spec_defense(inv) <= limit + 26 * STAT_LIMIT,
        -(limit + 26 * STAT_LIMIT) <= o.spec_max_hp(inv) <= limit + 26 * STAT_LIMIT,
{
    lemma_equipped_list_bounded(inv);
    let l = o.spec_all_equipped(inv);
    assert forall|j: int| 0 <= j < l.len() implies equipment_bounded(#[trigger] l[j]) by {
        if is_player_name(o.name@) {}
    }
    lemma_bonus_totals_bounded(l);
    assert(l.len() <= 26);
    assert(l.len() * STAT_LIMIT <= 26 * STAT_LIMIT) by (nonlinear_arith)
        requires l.len() <= 26;
}

/// Between objects whose stats are at most `4 * STAT_LIMIT` in size, an
/// attack by a fighter is free of overflow.
pub proof fn lemma_attack_ok(a: Object, t: Object, inv: Seq<Object>)
    requires
        inventory_ok(inv),
        object_within(a, 4 * STAT_LIMIT),
        object_within(t, 4 * STAT_LIMIT),
        a.fighter is Some,
    ensures
        attack_ok(a, t, inv),
{
    lemma_stats_bounded(a, inv, 4 * STAT_LIMIT);
    lemma_stats_bounded(t, inv, 4 * STAT_LIMIT);
}

/// The object after `damage` is dealt to it: a fighter loses that many hit
/// points when the damage is positive; anything else is unchanged.
pub open spec fn hurt(o: Object, damage: int) -> Object {
    match o.fighter {
        Some(f) => if damage > 0 {
            Object { fighter: Some(Fighter { hp: (f.hp - damage) as i32, ..f }), ..o }
        } else {
            o
        },
        None => o,
    }
}

/// Whether dealing `damage` to the object leaves a fighter with no hit
/// points left.
pub open spec fn kills(o: Object, damage: int) -> bool {
    hurt(o, damage).fighter matches Some(f) && f.hp <= 0
}

/// Dealing `damage` to the object does not overflow its hit points.
pub open spec fn damage_ok(o: Object, damage: int) -> bool {
    damage > 0 ==> (o.fighter matches Some(f) ==> f.hp - damage >= i32::MIN)
}

/// `n` is what is left of the fighter `o` after it died, as its death
/// callback has it.
pub open spec fn remains(o: Object, n: Object) -> bool {
    match o.fighter {
        Some(f) => match f.on_death {
            DeathCallback::Player => player_remains(o, n),
            DeathCallback::Monster => monster_remains(o, n),
        },
        None => false,
    }
}

/// The message logged when the fighter `o` dies.
pub open spec fn death_message(o: Object) -> (Seq<char>, Color) {
    match o.fighter {
        Some(f) => match f.on_death {
            DeathCallback::Player => ("You died!"@, spec_dark_red()),
            DeathCallback::Monster => (monster_death_text(o.name@, f.xp), spec_dark_orange()),
        },
        None => (seq![], spec_white()),
    }
}

/// The message logged when `attacker` strikes `target` for `damage`.
pub open spec fn attack_message(attacker: Object, target: Object, damage: int) -> (Seq<char>, Color) {
    if damage > 0 {
        (attack_text(attacker.name@, target.name@, damage), spec_white())
    } else {
        (no_effect_text(attacker.name@, target.name@), spec_white())
    }
}

/// The object with `xp` more experience.
pub open spec fn gain_xp(o: Object, xp: int) -> Object {
    match o.fighter {
        Some(f) => Object { fighter: Some(Fighter { xp: (f.xp + xp) as i32, ..f }), ..o },
        None => o,
    }
}

/// The damage `attacker` deals to `target`: power minus defense.
pub open spec fn attack_damage(attacker: Object, target: Object, inv: Seq<Object>) -> int {
    attacker.spec_power(inv) - target.spec_defense(inv)
}

/// `attacker` can attack `target` without any overflow or failure.
pub open spec fn attack_ok(attacker: Object, target: Object, inv: Seq<Object>) -> bool {
    let damage = attack_damage(attacker, target, inv);
    &&& fits_i32(attacker.spec_power(inv))
    &&& fits_i32(target.spec_defense(inv))
    &&& fits_i32(damage)
    &&& damage_ok(target, damage)
    &&& kills(target, damage) ==> {
        &&& attacker.fighter is Some
        &&& i32::MIN <= attacker.fighter->0.xp + target.fighter->0.xp <= i32::MAX
    }
}

/// The outcome of `a` attacking `t`, as `a2` and `t2` and the log going
/// from `log` to `log2`: the attack is announced (or its lack of effect); a
/// positive damage is dealt to the target; if the target dies the attacker
/// gains its experience and its death is logged.
pub open spec fn attack_result(
    a: Object,
    t: Object,
    inv: Seq<Object>,
    a2: Object,
    t2: Object,
    log: Seq<(Seq<char>, Color)>,
    log2: Seq<(Seq<char>, Color)>,
) -> bool {
    let damage = attack_damage(a, t, inv);
    let msgs = log.push(attack_message(a, t, damage));
    let dies = damage > 0 && kills(t, damage);
    &&& !dies ==> {
        &&& a2 == a
        &&& t2 == hurt(t, damage)
        &&& log2 == msgs
    }
    &&& dies ==> {
        &&& a2 == gain_xp(a, t.fighter->0.xp as int)
        &&& remains(hurt(t, damage), t2)
        &&& log2 == msgs.push(death_message(hurt(t, damage)))
    }
}

/// The object healed by `amount`, never above `max_hp`.
pub open spec fn healed(o: Object, amount: int, max_hp: int) -> Object {
    match o.fighter {
        Some(f) => {
            let hp = if f.hp + amount > max_hp { max_hp } else { f.hp + amount };
            Object { fighter: Some(Fighter { hp: hp as i32, ..f }), ..o }
        },
        None => o,
    }
}

pub open spec fn equip_text(name: Seq<char>, s: Slot) -> Seq<char> {
    "Equipped "@ + name + " on "@ + slot_text(s) + "."@
}

pub open spec fn dequip_text(name: Seq<char>, s: Slot) -> Seq<char> {
    "Dequipped "@ + name + " from "@ + slot_text(s) + "."@
}

pub open spec fn cannot_equip_text(name: Seq<char>) -> Seq<char> {
    "Can't equip "@ + name + " because it's not an Equipment."@
}

pub open spec fn cannot_dequip_text(name: Seq<char>) -> Seq<char> {
    "Can't dequip "@ + name + " because it's not an Equipment."@
}

/// The object with its equipment marked as equipped or not.
pub open spec fn with_equipped(o: Object, equipped: bool) -> Object {
    match o.equipment {
        Some(e) => Object { equipment: Some(Equipment { equipped, ..e }), ..o },
        None => o,
    }
}

/// The messages that equipping the object logs.
pub open spec fn equip_messages(o: Object) -> Seq<(Seq<char>, Color)> {
    match o.equipment {
        Some(e) => if e.equipped { seq![] } else { seq![(equip_text(o.name@, e.slot), spec_light_green())] },
        None => seq![(cannot_equip_text(o.name@), spec_red())],
    }
}

/// The messages that dequipping the object logs.
pub open spec fn dequip_messages(o: Object) -> Seq<(Seq<char>, Color)> {
    match o.equipment {
        Some(e) => if e.equipped { seq![(dequip_text(o.name@, e.slot), spec_light_yellow())] } else { seq![] },
        None => seq![(cannot_dequip_text(o.name@), spec_red())],
    }
}

/// Whether the inventory is within its capacity with bounded bonuses.
pub fn inventory_is_ok(inv: &Vec<Object>) -> (b: bool)
    ensures
        b == inventory_ok(inv@),
{
    if inv.len() > INVENTORY_CAPACITY {
        return false;
    }
    let mut i: usize = 0;
    while i < inv.len()
        invariant
            i <= inv@.len(),
            forall|k: int| 0 <= k < i ==> item_bounded(#[trigger] inv@[k]),
        decreases inv@.len() - i,
    {
        let ok = match inv[i].equipment {
            Some(e) => -STAT_LIMIT <= e.power_bonus && e.power_bonus <= STAT_LIMIT && -STAT_LIMIT <= e.defense_bonus
                && e.defense_bonus <= STAT_LIMIT && -STAT_LIMIT <= e.max_hp_bonus && e.max_hp_bonus <= STAT_LIMIT,
            None => true,
        };
        if !ok {
            return false;
        }
        i = i + 1;
    }
    true
}

/// Whether dealing `damage` to the object keeps its hit points in range.
pub fn damage_is_ok(o: &Object, damage: i32) -> (b: bool)
    ensures
        b == damage_ok(*o, damage as int),
{
    match o.fighter {
        Some(f) => damage <= 0 || f.hp as i64 - damage as i64 >= i32::MIN as i64,
        None => true,
    }
}

/// Whether dealing `damage` to the object leaves it a fighter with no hit
/// points.
pub fn would_kill(o: &Object, damage: i32) -> (b: bool)
    requires
        damage_ok(*o, damage as int),
    ensures
        b == kills(*o, damage as int),
{
    match o.fighter {
        Some(f) => if damage > 0 { f.hp - damage <= 0 } else { f.hp <= 0 },
        None => false,
    }
}

/// Whether `attacker` can attack `target` without overflow or failure.
pub fn attack_is_ok(attacker: &Object, target: &Object, game: &Game) -> (b: bool)
    ensures
        b == attack_ok(*attacker, *target, game.inventory@),
{
    let power = attacker.power_exact(game);
    let defense = target.defense_exact(game);
    if power < i32::MIN as i128 || power > i32::MAX as i128 || defense < i32::MIN as i128 || defense > i32::MAX as i128 {
        return false;
    }
    let damage = power - defense;
    if damage < i32::MIN as i128 || damage > i32::MAX as i128 {
        return false;
    }
    let damage = damage as i32;
    if !damage_is_ok(target, damage) {
        return false;
    }
    if would_kill(target, damage) {
        match (attacker.fighter, target.fighter) {
            (Some(a), Some(t)) => {
                let sum = a.xp as i64 + t.xp as i64;
                i32::MIN as i64 <= sum && sum <= i32::MAX as i64
            },
            _ => false,
        }
    } else {
        true
    }
}

/// The display name of a slot.
pub fn slot_name(s: Slot) -> (t: &'static str)
    ensures
        t@ == slot_text(s),
{
    match s {
        Slot::LeftHand => "left hand",
        Slot::RightHand => "right hand",
        Slot::Head => "head",
    }
}

impl Object {
    /// Deals `damage` to the object. A fighter loses that many hit points
    /// when the damage is positive; if it then has none left it dies (its
    /// death callback runs) and the experience it was worth is returned.
    pub fn take_damage(&mut self, damage: i32, game: &mut Game) -> (xp: Option<i32>)
        requires
            damage_ok(*old(self), damage as int),
        ensures
            xp == (if kills(*old(self), damage as int) { Some(old(self).fighter->0.xp) } else { None }),
            old(game).same_but_log(*final(game)),
            !kills(*old(self), damage as int) ==> {
                &&& *final(self) == hurt(*old(self), damage as int)
                &&& final(game).messages() == old(game).messages()
            },
            kills(*old(self), damage as int) ==> {
                &&& remains(hurt(*old(self), damage as int), *final(self))
                &&& final(game).messages() == old(game).messages().push(
                    death_message(hurt(*old(self), damage as int)),
                )
            },
    {
        let ghost h = hurt(*old(self), damage as int);
        if let Some(f) = &mut self.fighter {
            if damage > 0 {
                f.hp = f.hp - damage;
            }
        }
        assert(*self == h);
        if let Some(fighter) = self.fighter {
            if fighter.hp <= 0 {
                self.alive = false;
                match fighter.on_death {
                    DeathCallback::Player => player_death(self, game),
                    DeathCallback::Monster => monster_death(self, game),
                }
                return Some(fighter.xp);
            }
        }
        None
    }

    /// Attacks `target`: the damage is this object's power minus the target's
    /// defense. When it is positive the attack is announced and the target
    /// takes the damage; if the target dies this object gains its experience.
    /// Otherwise the log says the attack had no effect.
    pub fn attack(&mut self, target: &mut Object, game: &mut Game)
        requires
            attack_ok(*old(self), *old(target), old(game).inventory@),
        ensures
            old(game).same_but_log(*final(game)),
            attack_result(
                *old(self),
                *old(target),
                old(game).inventory@,
                *final(self),
                *final(target),
                old(game).messages(),
                final(game).messages(),
            ),
    {
        let damage = self.power(game) - target.defense(game);
        if damage > 0 {
            let mut msg = String::new();
            push_str(&mut msg, self.name.as_str());
            push_str(&mut msg, " attacks ");
            push_str(&mut msg, target.name.as_str());
            push_str(&mut msg, " for ");
            push_decimal(&mut msg, damage as i64);
            push_str(&mut msg, " hit points.");
            add_message(&mut game.log, msg, white());
            if let Some(xp) = target.take_damage(damage, game) {
                if let Some(f) = &mut self.fighter {
                    f.xp = f.xp + xp;
                }
            }
        } else {
            let mut msg = String::new();
            push_str(&mut msg, self.name.as_str());
            push_str(&mut msg, " attacks ");
            push_str(&mut msg, target.name.as_str());
            push_str(&mut msg, " but it has no effect!");
            add_message(&mut game.log, msg, white());
        }
    }

    /// Heals a fighter by `amount` hit points, never above its maximum.
    pub fn heal(&mut self, amount: i32, game: &Game)
        requires
            fits_i32(old(self).spec_max_hp(game.inventory@)),
            old(self).fighter matches Some(f) ==> fits_i32(f.hp + amount),
        ensures
            *final(self) == healed(*old(self), amount as int, old(self).spec_max_hp(game.inventory@)),
    {
        let max_hp = self.max_hp(game);
        if let Some(f) = &mut self.fighter {
            f.hp = f.hp + amount;
            if f.hp > max_hp {
                f.hp = max_hp;
            }
        }
    }

    /// Equips the object if it is equipment that is not equipped yet.
    pub fn equip(&mut self, log: &mut Messages)
        ensures
            *final(self) == (if old(self).equipment is Some { with_equipped(*old(self), true) } else { *old(self) }),
            log_view(final(log)@) == log_view(old(log)@) + equip_messages(*old(self)),
    {
        match &mut self.equipment {
            Some(e) => {
                if !e.equipped {
                    e.equipped = true;
                    let mut msg = String::new();
                    push_str(&mut msg, "Equipped ");
                    push_str(&mut msg, self.name.as_str());
                    push_str(&mut msg, " on ");
                    push_str(&mut msg, slot_name(e.slot));
                    push_str(&mut msg, ".");
                    add_message(log, msg, light_green());
                } else {
                    assert(log_view(log@) =~= log_view(old(log)@) + equip_messages(*old(self)));
                }
            },
            None => {
                let mut msg = String::new();
                push_str(&mut msg, "Can't equip ");
                push_str(&mut msg, self.name.as_str());
                push_str(&mut msg, " because it's not an Equipment.");
                add_message(log, msg, red());
            },
        }
    }

    /// Dequips the object if it is equipment that is equipped.
    pub fn dequip(&mut self, log: &mut Messages)
        ensures
            *final(self) == (if old(self).equipment is Some { with_equipped(*old(self), false) } else { *old(self) }),
            log_view(final(log)@) == log_view(old(log)@) + dequip_messages(*old(self)),
    {
        match &mut self.equipment {
            Some(e) => {
                if e.equipped {
                    e.equipped = false;
                    let mut msg = String::new();
                    push_str(&mut msg, "Dequipped ");
                    push_str(&mut msg, self.name.as_str());
                    push_str(&mut msg, " from ");
                    push_str(&mut msg, slot_name(e.slot));
                    push_str(&mut msg, ".");
                    add_message(log, msg, light_yellow());
                } else {
                    assert(log_view(log@) =~= log_view(old(log)@) + dequip_messages(*old(self)));
                }
            },
            None => {
                let mut msg = String::new();
                push_str(&mut msg, "Can't dequip ");
                push_str(&mut msg, self.name.as_str());
                push_str(&mut msg, " because it's not an Equipment.");
                add_message(log, msg, red());
            },
        }
    }
}

/// The damage of an attack is the attacker's power, as the character screen
/// shows it (`power`, with equipment bonuses), minus the target's defense.
/// For the player, one more equipped item in the inventory adds exactly its
/// power bonus to the damage dealt to a monster and takes exactly its
/// defense bonus off the damage taken from one; an item not equipped changes
/// nothing. With nothing equipped the damage is the base power minus the
/// base defense, and a monster's attack on another does not depend on the
/// inventory.
pub proof fn lemma_attack_damage(a: Object, t: Object, inv: Seq<Object>, o: Object)
    ensures
        attack_damage(a, t, inv) == a.spec_power(inv) - t.spec_defense(inv),
        is_player_name(a.name@) && !is_player_name(t.name@) && (o.equipment matches Some(e) && e.equipped)
            ==> attack_damage(a, t, inv.push(o)) == attack_damage(a, t, inv) + o.equipment->0.power_bonus,
        !is_player_name(a.name@) && is_player_name(t.name@) && (o.equipment matches Some(e) && e.equipped)
            ==> attack_damage(a, t, inv.push(o)) == attack_damage(a, t, inv) - o.equipment->0.defense_bonus,
        !(o.equipment matches Some(e) && e.equipped) ==> attack_damage(a, t, inv.push(o)) == attack_damage(a, t, inv),
        attack_damage(a, t, Seq::<Object>::empty()) == a.base_power() - t.base_defense(),
        !is_player_name(a.name@) && !is_player_name(t.name@) ==> attack_damage(a, t, inv) == attack_damage(a, t, Seq::<Object>::empty()),
{
    assert(inv.push(o).drop_last() =~= inv);
    assert(equipped_list(Seq::<Object>::empty()) =~= Seq::<Equipment>::empty());
    match o.equipment {
        Some(e) => {
            if e.equipped {
                let l = equipped_list(inv);
                assert(equipped_list(inv.push(o)) == l.push(e));
                assert(l.push(e).drop_last() =~= l);
            }
        },
        None => {},
    }
}

/// Damage takes exactly that many hit points from a fighter when it is
/// positive and changes nothing else; no damage changes nothing. The
/// fighter is killed exactly when its hit points fall to 0 or below.
pub proof fn lemma_hurt_and_kills(o: Object, damage: int)
    requires
        damage_ok(o, damage),
    ensures
        damage <= 0 || o.fighter is None ==> hurt(o, damage) == o,
        o.fighter is Some && damage > 0 ==> {
            let f = o.fighter->0;
            &&& hurt(o, damage).fighter->0.hp == f.hp - damage
            &&& hurt(o, damage) == (Object { fighter: Some(Fighter { hp: hurt(o, damage).fighter->0.hp, ..f }), ..o })
            &&& kills(o, damage) == (f.hp - damage <= 0)
        },
        o.fighter is Some && damage <= 0 ==> kills(o, damage) == (o.fighter->0.hp <= 0),
        o.fighter is None ==> !kills(o, damage),
{
}

/// Healing never raises the hit points above the maximum nor by more than
/// the amount: it adds the amount, or stops at the maximum when that is
/// lower. Nothing but the hit points changes.
pub proof fn lemma_healed(o: Object, amount: int, max_hp: int)
    requires
        o.fighter matches Some(f) ==> fits_i32(f.hp + amount) && fits_i32(max_hp),
    ensures
        o.fighter is None ==> healed(o, amount, max_hp) == o,
        o.fighter is Some ==> {
            let f = o.fighter->0;
            let h = healed(o, amount, max_hp).fighter->0.hp;
            &&& h <= max_hp
            &&& h <= f.hp + amount
            &&& h == max_hp || h == f.hp + amount
            &&& healed(o, amount, max_hp) == (Object { fighter: Some(Fighter { hp: h, ..f }), ..o })
        },
{
}

/// Gaining experience adds exactly that much to a fighter's experience and
/// changes nothing else.
pub proof fn lemma_gain_xp(o: Object, xp: int)
    requires
        o.fighter matches Some(f) ==> fits_i32(f.xp + xp),
    ensures
        o.fighter is None ==> gain_xp(o, xp) == o,
        o.fighter is Some ==> gain_xp(o, xp).fighter->0.xp == o.fighter->0.xp + xp
            && gain_xp(o, xp) == (Object { fighter: Some(Fighter { xp: gain_xp(o, xp).fighter->0.xp, ..o.fighter->0 }), ..o }),
{
}

/// An attack: with positive damage the target loses exactly that many hit
/// points, and if that kills it the attacker gains exactly its experience;
/// otherwise the attacker is unchanged. Without positive damage nothing
/// changes. Either way one message announces the attack, and a death adds
/// one more.
pub proof fn lemma_attack_effect(
    a: Object,
    t: Object,
    inv: Seq<Object>,
    a2: Object,
    t2: Object,
    log: Seq<(Seq<char>, Color)>,
    log2: Seq<(Seq<char>, Color)>,
)
    requires
        attack_ok(a, t, inv),
        t.fighter is Some,
        attack_result(a, t, inv, a2, t2, log, log2),
    ensures
        ({
            let d = a.spec_power(inv) - t.spec_defense(inv);
            let dies = d > 0 && t.fighter->0.hp - d <= 0;
            &&& d <= 0 ==> a2 == a && t2 == t && log2.len() == log.len() + 1
            &&& d > 0 && !dies ==> a2 == a && t2.fighter->0.hp == t.fighter->0.hp - d && log2.len() == log.len() + 1
            &&& dies ==> t2.fighter is None && !t2.alive && log2.len() == log.len() + 2
            &&& dies && a.fighter is Some ==> a2.fighter->0.xp == a.fighter->0.xp + t.fighter->0.xp
        }),
{
    let d = attack_damage(a, t, inv);
    if d > 0 && kills(t, d) {
        let h = hurt(t, d);
        assert(h.fighter is Some);
        match h.fighter->0.on_death {
            DeathCallback::Player => {},
            DeathCallback::Monster => {},
        }
    }
}

} // verus!
