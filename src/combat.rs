use vstd::prelude::*;
use rltk::RandomNumberGenerator;
use crate::spatial::{EntityId, SpatialIndex, holds, other_than};
use crate::map::GameMap;
use crate::dice::roll_dice;

verus! {

/// One attribute: its base value, what equipment and effects add, and the bonus it gives.
#[derive(PartialEq, Eq, Structural, Clone, Copy, Debug)]
pub struct Attribute {
    pub base: i32,
    pub modifiers: i32,
    pub bonus: i32,
}

#[derive(PartialEq, Eq, Structural, Clone, Copy, Debug)]
pub struct Attributes {
    pub might: Attribute,
    pub fitness: Attribute,
    pub quickness: Attribute,
    pub intelligence: Attribute,
}

#[derive(PartialEq, Eq, Structural, Clone, Copy, Debug)]
pub enum Skill {
    Melee,
    Defense,
    Magic,
}

/// Trained skills: a level for each skill the entity has.
#[derive(PartialEq, Eq, Structural, Clone, Copy, Debug)]
pub struct Skills {
    pub melee: Option<i32>,
    pub defense: Option<i32>,
    pub magic: Option<i32>,
}

#[derive(PartialEq, Eq, Structural, Clone, Copy, Debug)]
pub struct Pool {
    pub max: i32,
    pub current: i32,
}

/// Hit points, mana, experience and wealth of an entity.
#[derive(PartialEq, Eq, Structural, Clone, Copy, Debug)]
pub struct Pools {
    pub hit_points: Pool,
    pub mana: Pool,
    pub xp: i32,
    pub level: i32,
    /// Weight carried, in whole pounds.
    pub total_weight: i32,
    /// Initiative penalty of what is carried, rounded down.
    pub total_initiative_penalty: i32,
    pub gold: i32,
    pub god_mode: bool,
}

#[derive(PartialEq, Eq, Structural, Clone, Copy, Debug)]
pub enum WeaponAttribute {
    Might,
    Quickness,
}

#[derive(PartialEq, Eq, Structural, Clone, Copy, Debug)]
pub struct MeleeWeapon {
    pub attribute: WeaponAttribute,
    pub dmg_n_dice: i32,
    pub dmg_die_type: i32,
    pub dmg_bonus: i32,
    pub hit_bonus: i32,
}

/// An attack a creature makes without a weapon.
#[derive(PartialEq, Eq, Structural, Clone, Copy, Debug)]
pub struct NaturalAttack {
    pub dmg_n_dice: i32,
    pub dmg_die_type: i32,
    pub dmg_bonus: i32,
    pub hit_bonus: i32,
}

/// Bonus that an attribute value gives: half its distance from 10, rounded toward zero.
pub open spec fn spec_attr_bonus(value: int) -> int {
    if value >= 10 {
        (value - 10) / 2
    } else {
        -((10 - value) / 2)
    }
}

pub fn attr_bonus(value: i32) -> (r: i32)
    ensures
        r == spec_attr_bonus(value as int),
{
    ((value as i64 - 10) / 2) as i32
}

/// Hit points of a player of the given fitness and level.
pub open spec fn spec_player_hp_at_level(fitness: int, level: int) -> int {
    15 + (15 + spec_attr_bonus(fitness)) * level
}

/// Mana of a player of the given intelligence and level.
pub open spec fn spec_mana_at_level(intelligence: int, level: int) -> int {
    let per = 4 + spec_attr_bonus(intelligence);
    (if per < 1 { 1 } else { per }) * level
}

/// The level-up formulas give values that fit an `i32`.
pub open spec fn level_values_fit(fitness: int, intelligence: int, level: int) -> bool {
    &&& i32::MIN <= spec_player_hp_at_level(fitness, level) <= i32::MAX
    &&& i32::MIN <= spec_mana_at_level(intelligence, level) <= i32::MAX
}

pub fn player_hp_at_level(fitness: i32, level: i32) -> (r: i32)
    requires
        i32::MIN <= spec_player_hp_at_level(fitness as int, level as int) <= i32::MAX,
    ensures
        r == spec_player_hp_at_level(fitness as int, level as int),
{
    let per = 15 + attr_bonus(fitness) as i64;
    proof {
        assert(-0x1_0000_0000 <= per <= 0x1_0000_0000);
        assert(-0x1_0000_0000_0000_0000int <= per * level <= 0x1_0000_0000_0000_0000int) by (nonlinear_arith)
            requires
                -0x1_0000_0000 <= per <= 0x1_0000_0000,
                i32::MIN <= level <= i32::MAX,
        ;
    }
    (15 + (per as i128) * (level as i128)) as i32
}

pub fn mana_at_level(intelligence: i32, level: i32) -> (r: i32)
    requires
        i32::MIN <= spec_mana_at_level(intelligence as int, level as int) <= i32::MAX,
    ensures
        r == spec_mana_at_level(intelligence as int, level as int),
{
    let mut per = 4 + attr_bonus(intelligence) as i64;
    if per < 1 {
        per = 1;
    }
    proof {
        assert(-0x1_0000_0000_0000_0000int <= per * level <= 0x1_0000_0000_0000_0000int) by (nonlinear_arith)
            requires
                -0x1_0000_0000 <= per <= 0x1_0000_0000,
                i32::MIN <= level <= i32::MAX,
        ;
    }
    ((per as i128) * (level as i128)) as i32
}

/// Level of a skill, or -4 for an untrained one.
pub open spec fn spec_skill_bonus(skill: Skill, skills: Skills) -> int {
    let v = match skill {
        Skill::Melee => skills.melee,
        Skill::Defense => skills.defense,
        Skill::Magic => skills.magic,
    };
    match v {
        Some(l) => l as int,
        None => -4,
    }
}

pub fn skill_bonus(skill: Skill, skills: &Skills) -> (r: i32)
    ensures
        r == spec_skill_bonus(skill, *skills),
{
    let v = match skill {
        Skill::Melee => skills.melee,
        Skill::Defense => skills.defense,
        Skill::Magic => skills.magic,
    };
    match v {
        Some(l) => l,
        None => -4,
    }
}

/// Whether an attack lands: a natural 1 always misses, a natural 20 always hits, and any
/// other roll hits when the modified roll beats the armour class.
pub open spec fn spec_attack_hits(natural_roll: int, modified_roll: int, armor_class: int) -> bool {
    natural_roll != 1 && (natural_roll == 20 || modified_roll > armor_class)
}

pub fn attack_hits(natural_roll: i32, modified_roll: i64, armor_class: i64) -> (r: bool)
    ensures
        r == spec_attack_hits(natural_roll as int, modified_roll as int, armor_class as int),
{
    natural_roll != 1 && (natural_roll == 20 || modified_roll > armor_class)
}

/// A natural 1 misses whatever the bonuses, and a natural 20 hits whatever the defence.
pub proof fn lemma_natural_rolls_decide(modified_roll: int, armor_class: int)
    ensures
        !spec_attack_hits(1, modified_roll, armor_class),
        spec_attack_hits(20, modified_roll, armor_class),
{
}

/// What the attacker brings to a melee attack.
#[derive(PartialEq, Eq, Structural, Clone, Copy, Debug)]
pub struct Attacker {
    pub attributes: Attributes,
    pub skills: Skills,
    pub weapon: MeleeWeapon,
    /// The attacker is well fed, which steadies its aim.
    pub well_fed: bool,
}

/// What the target brings to its defence.
#[derive(PartialEq, Eq, Structural, Clone, Copy, Debug)]
pub struct Defender {
    pub attributes: Attributes,
    pub skills: Skills,
    /// Natural armour class: 10 unless the creature's hide says otherwise.
    pub base_armor_class: i32,
    /// Sum of the armour classes of what the target wears, rounded down.
    pub armor_item_bonus: i32,
}

/// The outcome of one melee attack.
#[derive(PartialEq, Eq, Structural, Clone, Copy, Debug)]
pub enum MeleeOutcome {
    /// The attack landed for this much damage.
    Hit { damage: i32 },
    /// The natural roll was 1.
    Fumble,
    /// The attack did not beat the defence.
    Miss,
}

/// The attack roll before the die: attribute, skill, weapon and status bonuses.
pub open spec fn hit_bonus(a: Attacker) -> int {
    (if a.weapon.attribute == WeaponAttribute::Might {
        a.attributes.might.bonus as int
    } else {
        a.attributes.quickness.bonus as int
    }) + spec_skill_bonus(Skill::Melee, a.skills) + a.weapon.hit_bonus + (if a.well_fed {
        1int
    } else {
        0
    })
}

/// The armour class an attack must beat.
pub open spec fn armor_class(d: Defender) -> int {
    d.base_armor_class + d.attributes.quickness.bonus + spec_skill_bonus(Skill::Defense, d.skills)
        + d.armor_item_bonus
}

/// Damage of a hit whose weapon dice came to `base`: the dice plus the might bonus and
/// the melee skill, plus the weapon's bonus; never below
/// zero, and capped at `i32::MAX`.
pub open spec fn hit_damage(a: Attacker, base: int) -> int {
    let raw = base + a.attributes.might.bonus + spec_skill_bonus(Skill::Melee, a.skills)
        + a.weapon.dmg_bonus;
    if raw < 0 {
        0
    } else if raw > i32::MAX {
        i32::MAX as int
    } else {
        raw
    }
}

/// The outcome of an attack whose d20 came up `natural_roll` and whose damage dice, if it
/// lands, come to `base_damage`.
pub open spec fn spec_resolve_attack(a: Attacker, d: Defender, natural_roll: int, base_damage: int) -> MeleeOutcome {
    if spec_attack_hits(natural_roll, natural_roll + hit_bonus(a), armor_class(d)) {
        MeleeOutcome::Hit { damage: hit_damage(a, base_damage) as i32 }
    } else if natural_roll == 1 {
        MeleeOutcome::Fumble
    } else {
        MeleeOutcome::Miss
    }
}

/// Settles an attack from its rolls.
pub fn resolve_attack(attacker: &Attacker, defender: &Defender, natural_roll: i32, base_damage: i32) -> (r: MeleeOutcome)
    ensures
        r == spec_resolve_attack(*attacker, *defender, natural_roll as int, base_damage as int),
{
    let attr = if attacker.weapon.attribute == WeaponAttribute::Might {
        attacker.attributes.might.bonus
    } else {
        attacker.attributes.quickness.bonus
    };
    let status: i64 = if attacker.well_fed {
        1
    } else {
        0
    };
    let skill = skill_bonus(Skill::Melee, &attacker.skills) as i64;
    let modified = natural_roll as i64 + attr as i64 + skill + attacker.weapon.hit_bonus as i64 + status;
    let ac = defender.base_armor_class as i64 + defender.attributes.quickness.bonus as i64
        + skill_bonus(Skill::Defense, &defender.skills) as i64 + defender.armor_item_bonus as i64;
    if attack_hits(natural_roll, modified, ac) {
        let raw = base_damage as i64 + attacker.attributes.might.bonus as i64 + skill
            + attacker.weapon.dmg_bonus as i64;
        let dmg: i32 = if raw < 0 {
            0
        } else if raw > i32::MAX as i64 {
            i32::MAX
        } else {
            raw as i32
        };
        MeleeOutcome::Hit { damage: dmg }
    } else if natural_roll == 1 {
        MeleeOutcome::Fumble
    } else {
        MeleeOutcome::Miss
    }
}

/// The weapon an attacker fights with: an equipped melee weapon; else one of its natural
/// attacks (the one numbered `pick`, counting from 1, where it has several); else a 1d4
/// punch.
pub open spec fn spec_select_weapon(natural: Seq<NaturalAttack>, equipped: Option<MeleeWeapon>, pick: int) -> MeleeWeapon {
    match equipped {
        Some(w) => w,
        None => if natural.len() == 0 {
            MeleeWeapon { attribute: WeaponAttribute::Might, hit_bonus: 0, dmg_n_dice: 1, dmg_die_type: 4, dmg_bonus: 0 }
        } else {
            let n = if natural.len() == 1 { natural[0] } else { natural[pick - 1] };
            MeleeWeapon {
                attribute: WeaponAttribute::Might,
                hit_bonus: n.hit_bonus,
                dmg_n_dice: n.dmg_n_dice,
                dmg_die_type: n.dmg_die_type,
                dmg_bonus: n.dmg_bonus,
            }
        },
    }
}

/// Picks the weapon for an attack, drawing which natural attack to use where there are
/// several and no weapon is equipped.
pub fn select_weapon(
    rng: &mut RandomNumberGenerator,
    natural: &Vec<NaturalAttack>,
    equipped: Option<MeleeWeapon>,
) -> (r: MeleeWeapon)
    requires
        natural.len() < i32::MAX,
    ensures
        natural.len() > 0 ==> exists|pick: int|
            1 <= pick <= natural.len() && r == #[trigger] spec_select_weapon(natural@, equipped, pick),
        natural.len() <= 1 ==> r == spec_select_weapon(natural@, equipped, 1),
{
    let mut weapon = MeleeWeapon {
        attribute: WeaponAttribute::Might,
        hit_bonus: 0,
        dmg_n_dice: 1,
        dmg_die_type: 4,
        dmg_bonus: 0,
    };
    let mut pick: i32 = 1;
    if natural.len() > 0 {
        let idx: usize = if natural.len() == 1 {
            0
        } else {
            pick = roll_dice(rng, 1, natural.len() as i32);
            (pick - 1) as usize
        };
        let n = natural[idx];
        weapon.hit_bonus = n.hit_bonus;
        weapon.dmg_n_dice = n.dmg_n_dice;
        weapon.dmg_die_type = n.dmg_die_type;
        weapon.dmg_bonus = n.dmg_bonus;
    }
    match equipped {
        Some(w) => {
            weapon = w;
        },
        None => {},
    }
    proof {
        if natural.len() == 0 {
            assert(weapon == spec_select_weapon(natural@, equipped, 1));
        }
        assert(weapon == spec_select_weapon(natural@, equipped, pick as int));
    }
    weapon
}

/// The weapon's damage dice can be rolled without overflow.
pub open spec fn dice_ok(w: MeleeWeapon) -> bool {
    0 <= w.dmg_n_dice && 1 <= w.dmg_die_type < i32::MAX && w.dmg_n_dice * w.dmg_die_type <= i32::MAX
}

/// Makes one melee attack: rolls a d20 and, if the attack lands, the weapon's damage dice.
/// Dead attackers and dead targets do not fight (`None`).
pub fn melee_attack(
    rng: &mut RandomNumberGenerator,
    attacker: &Attacker,
    attacker_hp: i32,
    defender: &Defender,
    defender_hp: i32,
) -> (r: Option<MeleeOutcome>)
    requires
        dice_ok(attacker.weapon),
    ensures
        r is None <==> (attacker_hp <= 0 || defender_hp <= 0),
        r matches Some(o) ==> exists|natural: int, base: int|
            1 <= natural <= 20 && attacker.weapon.dmg_n_dice <= base <= attacker.weapon.dmg_n_dice
                * attacker.weapon.dmg_die_type && o == #[trigger] spec_resolve_attack(
                *attacker,
                *defender,
                natural,
                base,
            ),
{
    if attacker_hp <= 0 || defender_hp <= 0 {
        return None;
    }
    let natural = roll_dice(rng, 1, 20);
    let base = roll_dice(rng, attacker.weapon.dmg_n_dice, attacker.weapon.dmg_die_type);
    let o = resolve_attack(attacker, defender, natural, base);
    proof {
        assert(o == spec_resolve_attack(*attacker, *defender, natural as int, base as int));
    }
    Some(o)
}

/// What damage did to its victim.
#[derive(PartialEq, Eq, Structural, Clone, Copy, Debug)]
pub struct DamageResult {
    /// The victim's hit points are below 1.
    pub dead: bool,
    /// The blow that brought the victim below 1 hit point came from the player.
    pub killed_by_player: bool,
}

/// `v`, kept within `i32`.
pub open spec fn clamp_i32(v: int) -> int {
    if v < i32::MIN {
        i32::MIN as int
    } else if v > i32::MAX {
        i32::MAX as int
    } else {
        v
    }
}

/// Sum of the first `k` amounts.
pub open spec fn total_damage(amounts: Seq<(i32, bool)>, k: int) -> int
    decreases k,
{
    if k <= 0 {
        0
    } else {
        total_damage(amounts, k - 1) + amounts[k - 1].0 as int
    }
}

/// Some amount in the list came from the player.
pub open spec fn any_from_player(amounts: Seq<(i32, bool)>) -> bool {
    exists|j: int| 0 <= j < amounts.len() && (#[trigger] amounts[j]).1
}

/// Applies this tick's damage to a victim: the amounts are summed and the sum is taken off
/// its hit points (kept within `i32`); a victim in god mode takes none. The player is
/// credited with the kill where the victim was alive, is now below 1 hit point, and some of
/// the damage came from the player.
pub fn apply_damage(victim: &mut Pools, amounts: &Vec<(i32, bool)>) -> (r: DamageResult)
    ensures
        old(victim).god_mode ==> *final(victim) == *old(victim),
        !old(victim).god_mode ==> final(victim).hit_points.current == clamp_i32(
            old(victim).hit_points.current - total_damage(amounts@, amounts.len() as int),
        ),
        *final(victim) == (Pools {
            hit_points: Pool { current: final(victim).hit_points.current, ..old(victim).hit_points },
            ..*old(victim)
        }),
        r.dead == (final(victim).hit_points.current < 1),
        r.killed_by_player == (!old(victim).god_mode && old(victim).hit_points.current >= 1
            && final(victim).hit_points.current < 1 && any_from_player(amounts@)),
{
    if victim.god_mode {
        return DamageResult { dead: victim.hit_points.current < 1, killed_by_player: false };
    }
    let mut total: i128 = 0;
    let mut from_player = false;
    let mut k: usize = 0;
    while k < amounts.len()
        invariant
            k <= amounts.len(),
            total == total_damage(amounts@, k as int),
            -(k as int) * 0x8000_0000 <= total <= (k as int) * 0x8000_0000,
            from_player == exists|j: int| 0 <= j < k && (#[trigger] amounts@[j]).1,
        decreases amounts.len() - k,
    {
        let (amount, fp) = amounts[k];
        total = total + amount as i128;
        if fp {
            from_player = true;
        }
        proof {
            if exists|j: int| 0 <= j < k + 1 && (#[trigger] amounts@[j]).1 {
                let j = choose|j: int| 0 <= j < k + 1 && (#[trigger] amounts@[j]).1;
                if j < k {
                    assert(amounts@[j].1);
                }
            }
            if fp {
                assert(amounts@[k as int].1);
            }
        }
        k = k + 1;
    }
    let before = victim.hit_points.current;
    let v = before as i128 - total;
    let after: i32 = if v < i32::MIN as i128 {
        i32::MIN
    } else if v > i32::MAX as i128 {
        i32::MAX
    } else {
        v as i32
    };
    victim.hit_points.current = after;
    DamageResult { dead: after < 1, killed_by_player: before >= 1 && after < 1 && from_player }
}

/// The player's pools after gaining `xp_gain` experience and `gold_gain` gold: reaching
/// `level * 1000` experience raises the level by one, and the new level's hit points and
/// mana become both maximum and current.
pub open spec fn spec_gain_experience(p: Pools, attrs: Attributes, xp_gain: int, gold_gain: int) -> Pools {
    let xp = p.xp + xp_gain;
    let gold = p.gold + gold_gain;
    if xp >= p.level * 1000 {
        let level = p.level + 1;
        let hp = spec_player_hp_at_level(attrs.fitness.base + attrs.fitness.modifiers, level);
        let mana = spec_mana_at_level(attrs.intelligence.base + attrs.intelligence.modifiers, level);
        Pools {
            xp: xp as i32,
            gold: gold as i32,
            level: level as i32,
            hit_points: Pool { max: hp as i32, current: hp as i32 },
            mana: Pool { max: mana as i32, current: mana as i32 },
            ..p
        }
    } else {
        Pools { xp: xp as i32, gold: gold as i32, ..p }
    }
}

/// The experience and gold can be added, and a level gained, without leaving `i32`.
pub open spec fn gain_fits(p: Pools, attrs: Attributes, xp_gain: int, gold_gain: int) -> bool {
    &&& i32::MIN <= p.xp + xp_gain <= i32::MAX
    &&& i32::MIN <= p.gold + gold_gain <= i32::MAX
    &&& p.level < i32::MAX
    &&& level_values_fit(
        attrs.fitness.base + attrs.fitness.modifiers,
        attrs.intelligence.base + attrs.intelligence.modifiers,
        p.level + 1,
    )
    &&& i32::MIN <= attrs.fitness.base + attrs.fitness.modifiers <= i32::MAX
    &&& i32::MIN <= attrs.intelligence.base + attrs.intelligence.modifiers <= i32::MAX
}

/// Credits the player with a kill's experience and gold, levelling up where the
/// experience reaches `level * 1000`.
pub fn gain_experience(player: &mut Pools, attrs: &Attributes, xp_gain: i32, gold_gain: i32)
    requires
        gain_fits(*old(player), *attrs, xp_gain as int, gold_gain as int),
    ensures
        *final(player) == spec_gain_experience(*old(player), *attrs, xp_gain as int, gold_gain as int),
{
    player.xp = player.xp + xp_gain;
    player.gold = player.gold + gold_gain;
    if player.xp as i64 >= player.level as i64 * 1000 {
        player.level = player.level + 1;
        let fitness = attrs.fitness.base + attrs.fitness.modifiers;
        let intelligence = attrs.intelligence.base + attrs.intelligence.modifiers;
        let hp = player_hp_at_level(fitness, player.level);
        let mana = mana_at_level(intelligence, player.level);
        player.hit_points = Pool { max: hp, current: hp };
        player.mana = Pool { max: mana, current: mana };
    }
}

/// A player at level 1 with no experience who is credited 100 experience at a time does
/// not level up at 900, and levels up to 2 at 1000, with hit points and mana full at the
/// new level's maximum.
pub proof fn lemma_tenth_kill_levels_up(p: Pools, attrs: Attributes)
    requires
        p.level == 1,
        p.xp == 0,
        gain_fits(p, attrs, 100, 0),
        level_values_fit(
            attrs.fitness.base + attrs.fitness.modifiers,
            attrs.intelligence.base + attrs.intelligence.modifiers,
            2,
        ),
    ensures
        ({
            let p9 = Pools { xp: 900, ..p };
            &&& spec_gain_experience(Pools { xp: 800, ..p }, attrs, 100, 0) == p9
            &&& spec_gain_experience(p9, attrs, 100, 0).level == 2
            &&& spec_gain_experience(p9, attrs, 100, 0).xp == 1000
            &&& spec_gain_experience(p9, attrs, 100, 0).hit_points.current == spec_gain_experience(
                p9,
                attrs,
                100,
                0,
            ).hit_points.max
            &&& spec_gain_experience(p9, attrs, 100, 0).hit_points.max == spec_player_hp_at_level(
                attrs.fitness.base + attrs.fitness.modifiers,
                2,
            )
            &&& spec_gain_experience(p9, attrs, 100, 0).mana.current == spec_gain_experience(
                p9,
                attrs,
                100,
                0,
            ).mana.max
            &&& spec_gain_experience(p9, attrs, 100, 0).mana.max == spec_mana_at_level(
                attrs.intelligence.base + attrs.intelligence.modifiers,
                2,
            )
        }),
        forall|k: int|
            0 <= k < 10 ==> #[trigger] spec_gain_experience(Pools { xp: (100 * k) as i32, ..p }, attrs, 100, 0).level
                == if k == 9 { 2int } else { 1int },
{
}

/// Where an item is.
#[derive(PartialEq, Eq, Structural, Clone, Copy, Debug)]
pub enum ItemLocation {
    OnGround { x: i32, y: i32 },
    InBackpack { owner: EntityId },
    Equipped { owner: EntityId, slot: EquipmentSlot },
}

/// Where on the body an item is worn.
#[derive(PartialEq, Eq, Structural, Clone, Copy, Debug)]
pub enum EquipmentSlot {
    Melee,
    Shield,
    Head,
    Torso,
    Legs,
    Feet,
    Hands,
}

/// An item and where it is.
#[derive(PartialEq, Eq, Structural, Clone, Copy, Debug)]
pub struct ItemState {
    pub item: EntityId,
    pub location: ItemLocation,
}

/// Whether `owner` carries or wears the item at `loc`.
pub open spec fn owned_by(loc: ItemLocation, owner: EntityId) -> bool {
    match loc {
        ItemLocation::InBackpack { owner: o } => o == owner,
        ItemLocation::Equipped { owner: o, .. } => o == owner,
        ItemLocation::OnGround { .. } => false,
    }
}

/// Drops everything `victim` carries or wears onto tile (`x`, `y`); other items stay.
pub fn drop_carried_items(items: &mut Vec<ItemState>, victim: EntityId, x: i32, y: i32)
    ensures
        final(items).len() == old(items).len(),
        forall|k: int|
            0 <= k < final(items).len() ==> #[trigger] final(items)[k] == (if owned_by(
                old(items)[k].location,
                victim,
            ) {
                ItemState { item: old(items)[k].item, location: ItemLocation::OnGround { x, y } }
            } else {
                old(items)[k]
            }),
{
    let ghost before = items@;
    let mut k: usize = 0;
    while k < items.len()
        invariant
            k <= items.len(),
            items.len() == before.len(),
            forall|j: int| k <= j < items.len() ==> #[trigger] items[j] == before[j],
            forall|j: int|
                0 <= j < k ==> #[trigger] items[j] == (if owned_by(before[j].location, victim) {
                    ItemState { item: before[j].item, location: ItemLocation::OnGround { x, y } }
                } else {
                    before[j]
                }),
        decreases items.len() - k,
    {
        let it = items[k];
        let owned = match it.location {
            ItemLocation::InBackpack { owner } => owner == victim,
            ItemLocation::Equipped { owner, .. } => owner == victim,
            ItemLocation::OnGround { .. } => false,
        };
        if owned {
            items.set(k, ItemState { item: it.item, location: ItemLocation::OnGround { x, y } });
        }
        k = k + 1;
    }
}

/// Applies a tick's damage to a victim standing on tile `idx` of `map`: the tile takes a
/// bloodstain wherever damage was queued, and a victim that drops below 1 hit point is taken
/// off the spatial index at once, so nothing later in the tick finds it there.
pub fn apply_damage_and_index(
    map: &mut GameMap,
    index: &mut SpatialIndex,
    victim: EntityId,
    idx: usize,
    pools: &mut Pools,
    amounts: &Vec<(i32, bool)>,
) -> (r: DamageResult)
    requires
        old(map).wf(),
        old(index).wf(),
        old(index).len() == old(map).tiles.len(),
        idx < old(index).len(),
    ensures
        final(map).wf(),
        *final(map) == (GameMap { bloodstains: final(map).bloodstains, ..*old(map) }),
        final(map).bloodstains@ == (if amounts.len() > 0 {
            old(map).bloodstains@.update(idx as int, true)
        } else {
            old(map).bloodstains@
        }),
        final(index).wf(),
        final(index).len() == old(index).len(),
        final(index).terrain_blocked == old(index).terrain_blocked,
        r.dead == (final(pools).hit_points.current < 1),
        r.dead ==> final(index).content(idx as int) == old(index).content(idx as int).filter(
            other_than(victim),
        ),
        r.dead ==> !holds(final(index).content(idx as int), victim),
        forall|i: int|
            0 <= i < final(index).len() && i != idx ==> #[trigger] final(index).content(i) == old(index).content(i),
        !r.dead ==> *final(index) == *old(index),
        old(pools).god_mode ==> *final(pools) == *old(pools),
        !old(pools).god_mode ==> final(pools).hit_points.current == clamp_i32(
            old(pools).hit_points.current - total_damage(amounts@, amounts.len() as int),
        ),
        *final(pools) == (Pools {
            hit_points: Pool { current: final(pools).hit_points.current, ..old(pools).hit_points },
            ..*old(pools)
        }),
        r.killed_by_player == (!old(pools).god_mode && old(pools).hit_points.current >= 1
            && final(pools).hit_points.current < 1 && any_from_player(amounts@)),
{
    if amounts.len() > 0 {
        map.bloodstains.set(idx, true);
    }
    let r = apply_damage(pools, amounts);
    if r.dead {
        index.remove_entity(victim, idx);
    }
    r
}

/// Once a dying entity has been taken off its tile, listing that tile's occupants does not
/// yield it.
pub proof fn lemma_dead_not_listed(s: &SpatialIndex, idx: int, victim: EntityId, listed: Seq<EntityId>)
    requires
        0 <= idx < s.len(),
        !holds(s.content(idx), victim),
        listed.len() == s.content(idx).len(),
        forall|k: int| 0 <= k < listed.len() ==> listed[k] == s.content(idx)[k].0,
    ensures
        forall|k: int| 0 <= k < listed.len() ==> listed[k] != victim,
{
    assert forall|k: int| 0 <= k < listed.len() implies listed[k] != victim by {
        if listed[k] == victim {
            assert(s.content(idx)[k].0 == victim);
        }
    }
}

} // verus!
