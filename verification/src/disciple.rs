//! A disciple's body and standing: age curves, resource pools, condition,
//! and the mirrors of older attribute fields.
use vstd::prelude::*;
use crate::country::clamp_int;
use crate::model::{Aptitudes, AcquiredAttributes, Disciple, DiscipleCondition, ResourcePool, SkillProgress};
use crate::chance::{chance, rand_range};
use crate::country::trunc_div;
use rand::rngs::StdRng;

verus! {

/// `v` held within `lo..=hi` (with `lo` winning when the bounds cross).
pub open spec fn spec_clamp(v: int, lo: int, hi: int) -> int {
    let a = if v > lo { v } else { lo };
    if a < hi { a } else { hi }
}

/// `v` raised to at least `lo`, then lowered to at most `hi`.
pub fn clamp(v: i32, lo: i32, hi: i32) -> (r: i32)
    ensures
        r == spec_clamp(v as int, lo as int, hi as int),
{
    let a = if v > lo { v } else { lo };
    if a < hi { a } else { hi }
}

/// Qi gained from age: three points a year from 15 to 35, then four points
/// lost a year.
pub open spec fn spec_age_qi_modifier(age: int) -> int {
    if age <= 35 {
        (if age - 14 < 0 { 0 } else { age - 14 }) * 3
    } else {
        63 - (age - 35) * 4
    }
}

/// Spirit gained from age: two points a year from 15 to 35, then three
/// points lost a year.
pub open spec fn spec_age_spirit_modifier(age: int) -> int {
    if age <= 35 {
        (if age - 14 < 0 { 0 } else { age - 14 }) * 2
    } else {
        42 - (age - 35) * 3
    }
}

/// Ages whose modifiers fit in `i32`.
pub open spec fn age_fits(age: int) -> bool {
    i32::MIN + 14 <= age <= i32::MAX / 4
}

/// Qi modifier of an age (see `spec_age_qi_modifier`).
pub fn age_qi_modifier(age: i32) -> (r: i32)
    requires
        age_fits(age as int),
    ensures
        r == spec_age_qi_modifier(age as int),
{
    if age <= 35 {
        let years = if age - 14 < 0 { 0 } else { age - 14 };
        years * 3
    } else {
        63 - (age - 35) * 4
    }
}

/// Spirit modifier of an age (see `spec_age_spirit_modifier`).
pub fn age_spirit_modifier(age: i32) -> (r: i32)
    requires
        age_fits(age as int),
    ensures
        r == spec_age_spirit_modifier(age as int),
{
    if age <= 35 {
        let years = if age - 14 < 0 { 0 } else { age - 14 };
        years * 2
    } else {
        42 - (age - 35) * 3
    }
}

/// Maximum qi: 20, four per constitution, half the inner force, and the age modifier.
pub open spec fn spec_qi_maximum(age: int, aptitude: Aptitudes, max_neili: int) -> int {
    20 + aptitude.constitution * 4 + trunc_half(max_neili) + spec_age_qi_modifier(age)
}

/// Maximum spirit: 20, four per intelligence, half the energy, and the age modifier.
pub open spec fn spec_spirit_maximum(age: int, aptitude: Aptitudes, max_energy: int) -> int {
    20 + aptitude.intelligence * 4 + trunc_half(max_energy) + spec_age_spirit_modifier(age)
}

/// The sums of a maximum fit in `i32`.
pub open spec fn pool_sum_fits(a: int, b: int, c: int) -> bool {
    &&& i32::MIN <= a * 4 <= i32::MAX
    &&& i32::MIN <= 20 + a * 4 <= i32::MAX
    &&& i32::MIN <= 20 + a * 4 + b <= i32::MAX
    &&& i32::MIN <= 20 + a * 4 + b + c <= i32::MAX
}

/// Maximum qi (see `spec_qi_maximum`).
pub fn qi_maximum(age: i32, aptitude: &Aptitudes, max_neili: i32) -> (r: i32)
    requires
        age_fits(age as int),
        pool_sum_fits(aptitude.constitution as int, trunc_half(max_neili as int), spec_age_qi_modifier(age as int)),
    ensures
        r == spec_qi_maximum(age as int, *aptitude, max_neili as int),
{
    20 + aptitude.constitution * 4 + max_neili / 2 + age_qi_modifier(age)
}

/// Maximum spirit (see `spec_spirit_maximum`).
pub fn spirit_maximum(age: i32, aptitude: &Aptitudes, max_energy: i32) -> (r: i32)
    requires
        age_fits(age as int),
        pool_sum_fits(aptitude.intelligence as int, trunc_half(max_energy as int), spec_age_spirit_modifier(age as int)),
    ensures
        r == spec_spirit_maximum(age as int, *aptitude, max_energy as int),
{
    20 + aptitude.intelligence * 4 + max_energy / 2 + age_spirit_modifier(age)
}

/// Rust's `x / 2` on integers.
pub open spec fn trunc_half(x: int) -> int {
    crate::country::trunc_div(x, 2)
}

/// The condition a disciple's pools imply: dead without qi or spirit
/// capacity, then seriously injured at no qi, unconscious at no spirit,
/// exhausted at no energy, healthy otherwise.
pub open spec fn spec_condition(a: AcquiredAttributes) -> DiscipleCondition {
    if a.qi.maximum < 1 || a.spirit.maximum < 1 {
        DiscipleCondition::Dead
    } else if a.qi.current <= 0 {
        DiscipleCondition::SeriouslyInjured
    } else if a.spirit.current <= 0 {
        DiscipleCondition::Unconscious
    } else if a.energy.current <= 0 {
        DiscipleCondition::Exhausted
    } else {
        DiscipleCondition::Healthy
    }
}

/// Sets the condition from the pools, and `alive` from the condition.
pub fn refresh_condition(d: &mut Disciple)
    ensures
        *final(d) == (Disciple {
            condition: spec_condition(old(d).attributes),
            alive: spec_condition(old(d).attributes) != DiscipleCondition::Dead,
            ..*old(d)
        }),
{
    let a = d.attributes;
    let condition = if a.qi.maximum < 1 || a.spirit.maximum < 1 {
        DiscipleCondition::Dead
    } else if a.qi.current <= 0 {
        DiscipleCondition::SeriouslyInjured
    } else if a.spirit.current <= 0 {
        DiscipleCondition::Unconscious
    } else if a.energy.current <= 0 {
        DiscipleCondition::Exhausted
    } else {
        DiscipleCondition::Healthy
    };
    d.condition = condition;
    d.alive = condition != DiscipleCondition::Dead;
}

/// `d` with its condition and life read afresh from its pools.
pub open spec fn refreshed(d: Disciple) -> Disciple {
    Disciple {
        condition: spec_condition(d.attributes),
        alive: spec_condition(d.attributes) != DiscipleCondition::Dead,
        ..d
    }
}

/// A disciple can act: alive, at home and healthy.
pub open spec fn spec_can_act(d: Disciple) -> bool {
    d.alive && d.away_months <= 0 && d.condition == DiscipleCondition::Healthy
}

/// Whether a disciple can act this month.
pub fn can_act(d: &Disciple) -> (r: bool)
    ensures
        r == spec_can_act(*d),
{
    d.alive && d.away_months <= 0 && d.condition == DiscipleCondition::Healthy
}

/// Talent as the mean of the five aptitudes.
pub open spec fn spec_talent(a: Aptitudes) -> int {
    crate::country::trunc_div(a.strength + a.intelligence + a.constitution + a.agility + a.fortune, 5)
}

/// The aptitude sum fits in `i32` at every step.
pub open spec fn aptitudes_fit(a: Aptitudes) -> bool {
    &&& i32::MIN <= a.strength + a.intelligence <= i32::MAX
    &&& i32::MIN <= a.strength + a.intelligence + a.constitution <= i32::MAX
    &&& i32::MIN <= a.strength + a.intelligence + a.constitution + a.agility <= i32::MAX
    &&& i32::MIN <= a.strength + a.intelligence + a.constitution + a.agility + a.fortune <= i32::MAX
}

/// The older fields mirror the current attributes: talent is the mean
/// aptitude, inner power the inner-force capacity, loyalty the sect loyalty
/// within `0..=100`, and the disciple is alive unless dead.
pub open spec fn synced(d: Disciple) -> Disciple {
    Disciple {
        talent: spec_talent(d.aptitudes) as i32,
        inner_power: d.attributes.neili.maximum,
        loyalty: clamp_int(d.attributes.sect_loyalty as int, 0, 100) as i32,
        alive: d.condition != DiscipleCondition::Dead,
        ..d
    }
}

/// Refreshes the older mirror fields from the current attributes.
pub fn sync_legacy_attributes(d: &mut Disciple)
    requires
        aptitudes_fit(old(d).aptitudes),
    ensures
        *final(d) == synced(*old(d)),
{
    let a = d.aptitudes;
    d.talent = (a.strength + a.intelligence + a.constitution + a.agility + a.fortune) / 5;
    d.inner_power = d.attributes.neili.maximum;
    let l = d.attributes.sect_loyalty;
    d.loyalty = if l < 0 { 0 } else if l > 100 { 100 } else { l };
    d.alive = d.condition != DiscipleCondition::Dead;
}

/// Changes made through the older fields, taken into the current attributes:
/// a dead disciple loses its qi; otherwise inner power sets the inner-force
/// capacity (current force moves by the same amount, within the capacity),
/// loyalty sets sect loyalty, and condition and mirrors are refreshed.
pub open spec fn absorbed(d: Disciple) -> Disciple {
    if !d.alive {
        let a = AcquiredAttributes { qi: ResourcePool { current: 0, maximum: 0 }, ..d.attributes };
        synced(Disciple { attributes: a, condition: DiscipleCondition::Dead, ..d })
    } else {
        let delta = d.inner_power - d.attributes.neili.maximum;
        let maximum = if d.inner_power < 0 { 0 } else { d.inner_power as int };
        let current = clamp_int(d.attributes.neili.current + delta, 0, maximum);
        let a = AcquiredAttributes {
            neili: ResourcePool { current: current as i32, maximum: maximum as i32 },
            sect_loyalty: clamp_int(d.loyalty as int, 0, 100) as i32,
            ..d.attributes
        };
        let refreshed = Disciple { attributes: a, ..d };
        synced(Disciple {
            condition: spec_condition(a),
            alive: spec_condition(a) != DiscipleCondition::Dead,
            ..refreshed
        })
    }
}

/// Takes changes made through the older fields into the current attributes.
pub fn absorb_legacy_attributes(d: &mut Disciple)
    requires
        aptitudes_fit(old(d).aptitudes),
        i32::MIN <= old(d).inner_power - old(d).attributes.neili.maximum <= i32::MAX,
        i32::MIN <= old(d).attributes.neili.current + (old(d).inner_power - old(d).attributes.neili.maximum)
            <= i32::MAX,
    ensures
        *final(d) == absorbed(*old(d)),
{
    if !d.alive {
        d.attributes.qi.maximum = 0;
        d.attributes.qi.current = 0;
        d.condition = DiscipleCondition::Dead;
        sync_legacy_attributes(d);
        return;
    }
    let neili_delta = d.inner_power - d.attributes.neili.maximum;
    let maximum = if d.inner_power < 0 { 0 } else { d.inner_power };
    d.attributes.neili.maximum = maximum;
    let current = d.attributes.neili.current + neili_delta;
    d.attributes.neili.current = if current < 0 { 0 } else if current > maximum { maximum } else { current };
    let l = d.loyalty;
    d.attributes.sect_loyalty = if l < 0 { 0 } else if l > 100 { 100 } else { l };
    refresh_condition(d);
    sync_legacy_attributes(d);
}

/// A pool gains `amount`, within `0..=max(maximum, 0)`.
pub open spec fn recovered(pool: ResourcePool, amount: int) -> ResourcePool {
    ResourcePool {
        current: clamp_int(pool.current + amount, 0, if pool.maximum < 0 { 0 } else { pool.maximum as int }) as i32,
        ..pool
    }
}

/// A pool gains `amount`, within its capacity and never below zero.
pub fn recover(pool: &mut ResourcePool, amount: i32)
    requires
        i32::MIN <= old(pool).current + amount <= i32::MAX,
    ensures
        *final(pool) == recovered(*old(pool), amount as int),
{
    let top = if pool.maximum < 0 { 0 } else { pool.maximum };
    let v = pool.current + amount;
    pool.current = if v < 0 { 0 } else if v > top { top } else { v };
}

/// Capacities after a birthday: the age modifiers move by their yearly steps;
/// bonuses from training or medicine are kept.
pub open spec fn aged(d: Disciple) -> Disciple {
    let age = d.age + 1;
    let qi_max = d.attributes.qi.maximum + spec_age_qi_modifier(age) - spec_age_qi_modifier(d.age as int);
    let spirit_max = d.attributes.spirit.maximum + spec_age_spirit_modifier(age)
        - spec_age_spirit_modifier(d.age as int);
    let qi_top = if qi_max < 0 { 0 } else { qi_max };
    let spirit_top = if spirit_max < 0 { 0 } else { spirit_max };
    let a = AcquiredAttributes {
        qi: ResourcePool {
            current: (if d.attributes.qi.current < qi_top { d.attributes.qi.current as int } else { qi_top }) as i32,
            maximum: qi_max as i32,
        },
        spirit: ResourcePool {
            current: (if d.attributes.spirit.current < spirit_top { d.attributes.spirit.current as int } else { spirit_top }) as i32,
            maximum: spirit_max as i32,
        },
        ..d.attributes
    };
    let aged = Disciple { age: age as i32, attributes: a, ..d };
    synced(Disciple {
        condition: spec_condition(a),
        alive: spec_condition(a) != DiscipleCondition::Dead,
        ..aged
    })
}

/// The birthday arithmetic fits in `i32`.
pub open spec fn birthday_fits(d: Disciple) -> bool {
    &&& d.age < i32::MAX
    &&& age_fits(d.age as int)
    &&& age_fits(d.age + 1)
    &&& aptitudes_fit(d.aptitudes)
    &&& i32::MIN <= d.attributes.qi.maximum + spec_age_qi_modifier(d.age + 1) - spec_age_qi_modifier(d.age as int) <= i32::MAX
    &&& i32::MIN <= d.attributes.spirit.maximum + spec_age_spirit_modifier(d.age + 1) - spec_age_spirit_modifier(d.age as int) <= i32::MAX
}

/// A disciple grows a year older on the anniversary of joining. Age brings
/// only fixed point changes; capacity gained from training or medicine stays.
pub fn apply_birthday(d: &mut Disciple)
    requires
        birthday_fits(*old(d)),
    ensures
        *final(d) == aged(*old(d)),
{
    let old_age = d.age;
    d.age = d.age + 1;
    let qi_step = age_qi_modifier(d.age) - age_qi_modifier(old_age);
    let spirit_step = age_spirit_modifier(d.age) - age_spirit_modifier(old_age);
    d.attributes.qi.maximum = d.attributes.qi.maximum + qi_step;
    d.attributes.spirit.maximum = d.attributes.spirit.maximum + spirit_step;
    let qi_top = if d.attributes.qi.maximum < 0 { 0 } else { d.attributes.qi.maximum };
    let spirit_top = if d.attributes.spirit.maximum < 0 { 0 } else { d.attributes.spirit.maximum };
    if d.attributes.qi.current > qi_top {
        d.attributes.qi.current = qi_top;
    }
    if d.attributes.spirit.current > spirit_top {
        d.attributes.spirit.current = spirit_top;
    }
    refresh_condition(d);
    sync_legacy_attributes(d);
}

/// `d` as an older save's disciple is brought up to date: one with no skill
/// progress yet gets its pools rebuilt from the older fields (inner force and
/// loyalty, qi and spirit at their maxima); then condition and the older
/// mirrors are refreshed. (The skill progress itself is stated apart.)
pub open spec fn hydrated(d: Disciple) -> Disciple {
    let base = if d.proficiencies.size() == 0 {
        let qi = spec_qi_maximum(d.age as int, d.aptitudes, d.inner_power as int) as i32;
        let spirit = spec_spirit_maximum(d.age as int, d.aptitudes, d.attributes.energy.maximum as int) as i32;
        Disciple {
            attributes: AcquiredAttributes {
                neili: ResourcePool { current: d.inner_power, maximum: d.inner_power },
                sect_loyalty: d.loyalty,
                qi: ResourcePool { current: qi, maximum: qi },
                spirit: ResourcePool { current: spirit, maximum: spirit },
                ..d.attributes
            },
            ..d
        }
    } else {
        d
    };
    synced(refreshed(base))
}

/// The arithmetic of `hydrated` fits in `i32`.
pub open spec fn hydration_fits(d: Disciple) -> bool {
    &&& aptitudes_fit(d.aptitudes)
    &&& d.proficiencies.size() == 0 ==> {
        &&& age_fits(d.age as int)
        &&& pool_sum_fits(d.aptitudes.constitution as int, trunc_half(d.inner_power as int), spec_age_qi_modifier(d.age as int))
        &&& pool_sum_fits(d.aptitudes.intelligence as int, trunc_half(d.attributes.energy.maximum as int), spec_age_spirit_modifier(d.age as int))
    }
}

/// Brings a disciple of an older save up to date (see `hydrated`); one with
/// no skill progress starts its own art at level 25.
pub fn hydrate_v2_disciple(d: &mut Disciple)
    requires
        hydration_fits(*old(d)),
    ensures
        *final(d) == (Disciple { proficiencies: final(d).proficiencies, ..hydrated(*old(d)) }),
        old(d).proficiencies.size() == 0 ==> {
            &&& final(d).proficiencies.has(old(d).martial_art@)
            &&& final(d).proficiencies.at(old(d).martial_art@) == SkillProgress { level: 25, experience: 0 }
            &&& forall|k: Seq<char>| k != old(d).martial_art@ ==> !final(d).proficiencies.has(k)
        },
        old(d).proficiencies.size() != 0 ==> final(d).proficiencies == old(d).proficiencies,
{
    if d.proficiencies.len() == 0 {
        d.attributes.neili = ResourcePool { current: d.inner_power, maximum: d.inner_power };
        d.attributes.sect_loyalty = d.loyalty;
        let qi = qi_maximum(d.age, &d.aptitudes, d.inner_power);
        d.attributes.qi = ResourcePool { current: qi, maximum: qi };
        let spirit = spirit_maximum(d.age, &d.aptitudes, d.attributes.energy.maximum);
        d.attributes.spirit = ResourcePool { current: spirit, maximum: spirit };
        let art = d.martial_art.clone();
        proof {
            d.proficiencies.lemma_empty_has_none();
        }
        d.proficiencies.insert(art.as_str(), SkillProgress::new(25, 0));
    }
    refresh_condition(d);
    sync_legacy_attributes(d);
}

/// A pool gains `amount` (computed without overflow).
fn recover_by(pool: &mut ResourcePool, amount: i64)
    requires
        -(i32::MAX as int) <= amount <= i32::MAX,
    ensures
        *final(pool) == recovered(*old(pool), amount as int),
{
    let top: i64 = if pool.maximum < 0 { 0 } else { pool.maximum as i64 };
    let v: i64 = pool.current as i64 + amount;
    pool.current = if v < 0 { 0 } else if v > top { top as i32 } else { v as i32 };
}

/// A living disciple's month: one more month in the sect (a birthday on each
/// twelfth), pools recover by the aptitudes, and loyalty moves with the
/// sect's morale and a roll of `roll`, within `0..=100`.
pub open spec fn grown(d: Disciple, morale: int, roll: int) -> Disciple {
    let d1 = Disciple { months_in_sect: (d.months_in_sect + 1) as i32, ..d };
    let d2 = if d1.months_in_sect % 12 == 0 { aged(d1) } else { d1 };
    let a = d2.attributes;
    let con = d2.aptitudes.constitution as int;
    let wit = d2.aptitudes.intelligence as int;
    let a2 = AcquiredAttributes {
        neili: recovered(a.neili, 2 + trunc_div(con, 10)),
        energy: recovered(a.energy, 3 + trunc_div(wit, 10)),
        qi: recovered(a.qi, 6 + trunc_div(con, 4)),
        spirit: recovered(a.spirit, 6 + trunc_div(wit, 4)),
        ..a
    };
    let delta = trunc_div(morale - 50, 20) + roll;
    let a3 = AcquiredAttributes { sect_loyalty: clamp_int(a2.sect_loyalty + delta, 0, 100) as i32, ..a2 };
    synced(refreshed(Disciple { attributes: a3, ..d2 }))
}

/// The month's growth of `d` fits in `i32`.
pub open spec fn growth_fits(d: Disciple) -> bool {
    d.alive ==> {
        &&& d.months_in_sect < i32::MAX
        &&& aptitudes_fit(d.aptitudes)
        &&& (d.months_in_sect + 1) % 12 == 0 ==> birthday_fits(Disciple { months_in_sect: (d.months_in_sect + 1) as i32, ..d })
    }
}

/// The month of one living disciple, with its loyalty roll already made.
pub fn grow_disciple(d: &mut Disciple, morale: i32, roll: i32)
    requires
        old(d).alive,
        growth_fits(*old(d)),
        -2 <= roll <= 2,
    ensures
        *final(d) == grown(*old(d), morale as int, roll as int),
{
    d.months_in_sect = d.months_in_sect + 1;
    if d.months_in_sect % 12 == 0 {
        apply_birthday(d);
    }
    let con = d.aptitudes.constitution as i64;
    let wit = d.aptitudes.intelligence as i64;
    recover_by(&mut d.attributes.neili, 2 + con / 10);
    recover_by(&mut d.attributes.energy, 3 + wit / 10);
    recover_by(&mut d.attributes.qi, 6 + con / 4);
    recover_by(&mut d.attributes.spirit, 6 + wit / 4);
    let delta: i64 = (morale as i64 - 50) / 20 + roll as i64;
    let l: i64 = d.attributes.sect_loyalty as i64 + delta;
    d.attributes.sect_loyalty = if l < 0 { 0 } else if l > 100 { 100 } else { l as i32 };
    refresh_condition(d);
    sync_legacy_attributes(d);
}

/// The month's growth of a roster: each living disciple ages a month (see
/// `grown`), with a loyalty roll in `-2..=2`; the dead are left as they are.
pub fn monthly_growth(rng: &mut StdRng, disciples: &mut [Disciple], morale: i32)
    requires
        forall|i: int| 0 <= i < old(disciples)@.len() ==> growth_fits(#[trigger] old(disciples)@[i]),
    ensures
        final(disciples)@.len() == old(disciples)@.len(),
        forall|i: int| 0 <= i < old(disciples)@.len() ==> {
            let d = #[trigger] old(disciples)@[i];
            if d.alive {
                exists|roll: int| -2 <= roll <= 2 && final(disciples)@[i] == grown(d, morale as int, roll)
            } else {
                final(disciples)@[i] == d
            }
        },
{
    let ghost ds = disciples@;
    let mut i: usize = 0;
    while i < disciples.len()
        invariant
            i <= ds.len(),
            disciples@.len() == ds.len(),
            ds == old(disciples)@,
            forall|j: int| 0 <= j < ds.len() ==> growth_fits(#[trigger] ds[j]),
            forall|j: int| 0 <= j < i ==> {
                let d = #[trigger] ds[j];
                if d.alive {
                    exists|roll: int| -2 <= roll <= 2 && disciples@[j] == grown(d, morale as int, roll)
                } else {
                    disciples@[j] == d
                }
            },
            forall|j: int| i <= j < ds.len() ==> #[trigger] disciples@[j] == ds[j],
        decreases ds.len() - i,
    {
        if disciples[i].alive {
            let roll = rand_range(rng, -2, 2);
            grow_disciple(&mut disciples[i], morale, roll);
            proof {
                assert(disciples@[i as int] == grown(ds[i as int], morale as int, roll as int));
            }
        }
        i = i + 1;
    }
}

/// Who leaves of the first `n` disciples: a living disciple with loyalty
/// below 15 whose coin shows `true`.
pub open spec fn deserts(d: Disciple, coin: bool) -> bool {
    d.alive && d.attributes.sect_loyalty < 15 && coin
}

/// The roster after the desertion check over the first `n` disciples: the
/// dead and the deserters are gone, the others stay in order.
pub open spec fn stayers(ds: Seq<Disciple>, coins: Seq<bool>, n: int) -> Seq<Disciple>
    decreases n,
{
    if n <= 0 {
        Seq::empty()
    } else if !ds[n - 1].alive || deserts(ds[n - 1], coins[n - 1]) {
        stayers(ds, coins, n - 1)
    } else {
        stayers(ds, coins, n - 1).push(ds[n - 1])
    }
}

/// Names of the deserters among the first `n` disciples, in roster order.
pub open spec fn deserter_names(ds: Seq<Disciple>, coins: Seq<bool>, n: int) -> Seq<Seq<char>>
    decreases n,
{
    if n <= 0 {
        Seq::empty()
    } else if deserts(ds[n - 1], coins[n - 1]) {
        deserter_names(ds, coins, n - 1).push(ds[n - 1].name@)
    } else {
        deserter_names(ds, coins, n - 1)
    }
}

/// The month's desertions: the dead leave the roster, and each living
/// disciple with loyalty below 15 leaves with one chance in four. Returns the
/// deserters' names in roster order.
pub fn check_desertion(rng: &mut StdRng, disciples: &mut Vec<Disciple>) -> (names: Vec<String>)
    ensures
        exists|coins: Seq<bool>| {
            &&& coins.len() == old(disciples)@.len()
            &&& final(disciples)@ == stayers(old(disciples)@, coins, coins.len() as int)
            &&& names@.map_values(|s: String| s@) == deserter_names(old(disciples)@, coins, coins.len() as int)
        },
{
    let ghost ds = disciples@;
    let mut roster: Vec<Disciple> = Vec::new();
    std::mem::swap(&mut roster, disciples);
    let mut names: Vec<String> = Vec::new();
    let ghost mut coins: Seq<bool> = Seq::empty();
    let ghost mut i: int = 0;
    while roster.len() > 0
        invariant
            0 <= i <= ds.len(),
            roster@ == ds.skip(i),
            coins.len() == i,
            disciples@ == stayers(ds, coins, i),
            names@.map_values(|s: String| s@) == deserter_names(ds, coins, i),
        decreases roster@.len(),
    {
        let d = roster.remove(0);
        proof {
            assert(d == ds[i]);
        }
        let mut coin = false;
        if d.alive && d.attributes.sect_loyalty < 15 {
            coin = chance(rng, 1, 4);
        }
        let ghost before = coins;
        proof {
            coins = coins.push(coin);
            lemma_coin_prefix(ds, before, coins, i);
        }
        if !d.alive {
        } else if d.attributes.sect_loyalty < 15 && coin {
            let name = d.name;
            names.push(name);
            proof {
                assert(names@.map_values(|s: String| s@) =~= deserter_names(ds, coins, i + 1));
            }
        } else {
            disciples.push(d);
        }
        proof {
            i = i + 1;
            assert(roster@ =~= ds.skip(i));
        }
    }
    proof {
        assert(ds.skip(i).len() == 0);
    }
    names
}

/// The check over the first `n` disciples reads only their own coins.
proof fn lemma_coin_prefix(ds: Seq<Disciple>, a: Seq<bool>, b: Seq<bool>, n: int)
    requires
        0 <= n <= a.len(),
        n <= b.len(),
        forall|j: int| 0 <= j < n ==> a[j] == b[j],
    ensures
        stayers(ds, a, n) == stayers(ds, b, n),
        deserter_names(ds, a, n) == deserter_names(ds, b, n),
    decreases n,
{
    if n > 0 {
        lemma_coin_prefix(ds, a, b, n - 1);
    }
}

/// Sum of the scores of the living among the first `n` disciples.
pub open spec fn living_score_sum(ds: Seq<Disciple>, scores: Seq<i32>, n: int) -> int
    decreases n,
{
    if n <= 0 {
        0
    } else {
        living_score_sum(ds, scores, n - 1) + (if ds[n - 1].alive { scores[n - 1] as int } else { 0int })
    }
}

/// How many of the first `n` disciples are alive.
pub open spec fn living_count(ds: Seq<Disciple>, n: int) -> int
    decreases n,
{
    if n <= 0 {
        0
    } else {
        living_count(ds, n - 1) + (if ds[n - 1].alive { 1int } else { 0int })
    }
}

/// Combat power of a roster whose members score `scores`: the mean score of
/// the living plus five for each of them, or 10 when nobody lives.
pub open spec fn combat_power(ds: Seq<Disciple>, scores: Seq<i32>) -> int {
    let n = living_count(ds, ds.len() as int);
    if n == 0 {
        10
    } else {
        trunc_div(living_score_sum(ds, scores, ds.len() as int), n) + n * 5
    }
}

/// The sums of `combat_power` fit in `i32`.
pub open spec fn combat_power_fits(ds: Seq<Disciple>, scores: Seq<i32>) -> bool {
    &&& forall|n: int| 0 <= n <= ds.len() ==> i32::MIN <= #[trigger] living_score_sum(ds, scores, n) <= i32::MAX
    &&& living_count(ds, ds.len() as int) * 5 <= i32::MAX
    &&& i32::MIN <= combat_power(ds, scores) <= i32::MAX
}

pub proof fn lemma_living_count_bounds(ds: Seq<Disciple>, n: int)
    requires
        0 <= n,
    ensures
        0 <= living_count(ds, n) <= n,
    decreases n,
{
    if n > 0 {
        lemma_living_count_bounds(ds, n - 1);
    }
}

/// Combat power of a roster (see `combat_power`), from each member's combat
/// score `scores[i]`.
pub fn get_sect_combat_power(disciples: &[Disciple], scores: &[i32]) -> (r: i32)
    requires
        scores@.len() == disciples@.len(),
        combat_power_fits(disciples@, scores@),
    ensures
        r == combat_power(disciples@, scores@),
{
    let ghost ds = disciples@;
    let mut total: i32 = 0;
    let mut count: i32 = 0;
    let mut i: usize = 0;
    while i < disciples.len()
        invariant
            i <= ds.len(),
            ds == disciples@,
            scores@.len() == ds.len(),
            combat_power_fits(ds, scores@),
            total == living_score_sum(ds, scores@, i as int),
            count == living_count(ds, i as int),
        decreases ds.len() - i,
    {
        proof {
            assert(i32::MIN <= living_score_sum(ds, scores@, i as int + 1) <= i32::MAX);
            lemma_living_count_bounds(ds, i as int + 1);
            lemma_living_count_mono(ds, i as int + 1, ds.len() as int);
        }
        if disciples[i].alive {
            total = total + scores[i];
            count = count + 1;
        }
        i = i + 1;
    }
    proof {
        lemma_living_count_bounds(ds, ds.len() as int);
    }
    if count == 0 {
        10
    } else {
        total / count + count * 5
    }
}

proof fn lemma_living_count_mono(ds: Seq<Disciple>, a: int, b: int)
    requires
        0 <= a <= b,
    ensures
        living_count(ds, a) <= living_count(ds, b),
    decreases b - a,
{
    if a < b {
        lemma_living_count_mono(ds, a, b - 1);
    }
}

} // verus!
