//! New disciples: names, starting arts and attributes, and the recruits a
//! month brings.
use vstd::prelude::*;
use rand::rngs::StdRng;
use crate::chance::{chance, pick_index, rand_range};
use crate::country::{clamp_int, trunc_div};
use crate::disciple::{qi_maximum, spirit_maximum, spec_qi_maximum, spec_spirit_maximum, spec_talent, sync_legacy_attributes};
use crate::model::{AcquiredAttributes, Aptitudes, Disciple, DiscipleCondition, DiscipleRank, ResourcePool, SkillProgress, player_sect_id};
use crate::text::{decimal_text, decimal_wide};

verus! {

/// Surnames a new disciple may bear.
pub open spec fn surnames() -> Seq<Seq<char>> {
    seq!["风"@, "云"@, "萧"@, "柳"@, "慕容"@, "上官"@, "南宫"@, "令狐"@, "沈"@, "陆"@, "叶"@, "林"@, "楚"@, "苏"@, "燕"@, "秦"@, "白"@, "莫"@, "顾"@, "谢"@]
}

/// Given names of men.
pub open spec fn given_names_male() -> Seq<Seq<char>> {
    seq!["清扬"@, "无忌"@, "破军"@, "铁心"@, "孤鸿"@, "凌霄"@, "子陵"@, "天行"@, "断水"@, "逐云"@, "惊鸿"@, "寒江"@, "远山"@, "行空"@, "九渊"@, "纯钧"@, "赤霄"@, "湛卢"@, "承影"@, "泰阿"@]
}

/// Given names of women.
pub open spec fn given_names_female() -> Seq<Seq<char>> {
    seq!["若兰"@, "灵素"@, "紫烟"@, "幽月"@, "凝霜"@, "凤歌"@, "雪晴"@, "梦蝶"@, "碧落"@, "紫菱"@, "冰雁"@, "霜华"@, "念慈"@, "倚天"@, "芷若"@, "飞燕"@, "语嫣"@, "龙儿"@, "莫愁"@, "秋水"@]
}

fn surname_at(i: usize) -> (r: &'static str)
    requires
        i < 20,
    ensures
        r@ == surnames()[i as int],
{
    if i == 0 {
        "风"
    } else if i == 1 {
        "云"
    } else if i == 2 {
        "萧"
    } else if i == 3 {
        "柳"
    } else if i == 4 {
        "慕容"
    } else if i == 5 {
        "上官"
    } else if i == 6 {
        "南宫"
    } else if i == 7 {
        "令狐"
    } else if i == 8 {
        "沈"
    } else if i == 9 {
        "陆"
    } else if i == 10 {
        "叶"
    } else if i == 11 {
        "林"
    } else if i == 12 {
        "楚"
    } else if i == 13 {
        "苏"
    } else if i == 14 {
        "燕"
    } else if i == 15 {
        "秦"
    } else if i == 16 {
        "白"
    } else if i == 17 {
        "莫"
    } else if i == 18 {
        "顾"
    } else {
        "谢"
    }
}

fn male_name_at(i: usize) -> (r: &'static str)
    requires
        i < 20,
    ensures
        r@ == given_names_male()[i as int],
{
    if i == 0 {
        "清扬"
    } else if i == 1 {
        "无忌"
    } else if i == 2 {
        "破军"
    } else if i == 3 {
        "铁心"
    } else if i == 4 {
        "孤鸿"
    } else if i == 5 {
        "凌霄"
    } else if i == 6 {
        "子陵"
    } else if i == 7 {
        "天行"
    } else if i == 8 {
        "断水"
    } else if i == 9 {
        "逐云"
    } else if i == 10 {
        "惊鸿"
    } else if i == 11 {
        "寒江"
    } else if i == 12 {
        "远山"
    } else if i == 13 {
        "行空"
    } else if i == 14 {
        "九渊"
    } else if i == 15 {
        "纯钧"
    } else if i == 16 {
        "赤霄"
    } else if i == 17 {
        "湛卢"
    } else if i == 18 {
        "承影"
    } else {
        "泰阿"
    }
}

fn female_name_at(i: usize) -> (r: &'static str)
    requires
        i < 20,
    ensures
        r@ == given_names_female()[i as int],
{
    if i == 0 {
        "若兰"
    } else if i == 1 {
        "灵素"
    } else if i == 2 {
        "紫烟"
    } else if i == 3 {
        "幽月"
    } else if i == 4 {
        "凝霜"
    } else if i == 5 {
        "凤歌"
    } else if i == 6 {
        "雪晴"
    } else if i == 7 {
        "梦蝶"
    } else if i == 8 {
        "碧落"
    } else if i == 9 {
        "紫菱"
    } else if i == 10 {
        "冰雁"
    } else if i == 11 {
        "霜华"
    } else if i == 12 {
        "念慈"
    } else if i == 13 {
        "倚天"
    } else if i == 14 {
        "芷若"
    } else if i == 15 {
        "飞燕"
    } else if i == 16 {
        "语嫣"
    } else if i == 17 {
        "龙儿"
    } else if i == 18 {
        "莫愁"
    } else {
        "秋水"
    }
}

/// A full name: surname `s` with male or female given name `g`.
pub open spec fn full_name(s: int, g: int, male: bool) -> Seq<char> {
    surnames()[s] + (if male { given_names_male()[g] } else { given_names_female()[g] })
}

/// `name` is a surname of the list followed by a given name of the lists.
pub open spec fn listed_name(name: Seq<char>) -> bool {
    exists|s: int, g: int, male: bool| 0 <= s < 20 && 0 <= g < 20 && name == #[trigger] full_name(s, g, male)
}

/// A name drawn from the lists: a surname, then a man's or a woman's given
/// name with even chances.
pub fn generate_name(rng: &mut StdRng) -> (name: String)
    ensures
        listed_name(name@),
{
    let s = pick_index(rng, 20);
    let male = chance(rng, 1, 2);
    let g = pick_index(rng, 20);
    let mut name = surname_at(s).to_owned();
    if male {
        name.append(male_name_at(g));
    } else {
        name.append(female_name_at(g));
    }
    proof {
        assert(name@ == full_name(s as int, g as int, male));
    }
    name
}

/// The arts a new disciple may start with: the basic arts of every library.
pub open spec fn starter_arts() -> Seq<Seq<char>> {
    seq!["basic_unarmed"@, "basic_dodge"@, "basic_force"@, "basic_sword"@]
}

fn starter_art_at(i: usize) -> (r: &'static str)
    requires
        i < 4,
    ensures
        r@ == starter_arts()[i as int],
{
    if i == 0 {
        "basic_unarmed"
    } else if i == 1 {
        "basic_dodge"
    } else if i == 2 {
        "basic_force"
    } else {
        "basic_sword"
    }
}

/// Milliseconds since the Unix epoch by the system clock.
///
/// Trusted: calls std's `SystemTime::elapsed` on `UNIX_EPOCH` and converts the
/// duration to whole milliseconds. The clock lies outside the proofs, so
/// nothing is claimed of the value; a clock set before the epoch reads as 0.
#[verifier::external_body]
fn clock_millis() -> (r: u64) {
    match std::time::UNIX_EPOCH.elapsed() {
        Ok(d) => d.as_millis() as u64,
        Err(_) => 0,
    }
}

/// An id stamped from the clock and a four-digit number.
pub open spec fn stamp_id(millis: nat, k: int) -> Seq<char> {
    "d"@ + decimal_text(millis) + "_"@ + decimal_text(k as nat)
}

/// A starting aptitude: a roll of `r` raised by a quarter of the talent bonus,
/// within `8..=40`.
pub open spec fn aptitude_roll(r: int, bonus: int) -> int {
    clamp_int(r + trunc_div(bonus, 4), 8, 40)
}

/// `v` is a starting aptitude for the talent bonus `bonus`.
pub open spec fn rolled_aptitude(v: int, bonus: int) -> bool {
    exists|r: int| 12 <= r <= 30 && v == #[trigger] aptitude_roll(r, bonus)
}

/// The attributes a new disciple starts with: inner force `neili` and energy
/// `30 + intelligence` at their maxima, loyalty, morality from fortune, and qi
/// and spirit at the maxima their age and aptitudes give.
pub open spec fn starting_attributes(age: int, apt: Aptitudes, loyalty: int, neili: int) -> AcquiredAttributes {
    let energy = 30 + apt.intelligence;
    let qi = spec_qi_maximum(age, apt, neili) as i32;
    let spirit = spec_spirit_maximum(age, apt, energy) as i32;
    AcquiredAttributes {
        neili: ResourcePool { current: neili as i32, maximum: neili as i32 },
        energy: ResourcePool { current: energy as i32, maximum: energy as i32 },
        sect_loyalty: loyalty as i32,
        morality: clamp_int(40 + trunc_div(apt.fortune as int, 2), 0, 100) as i32,
        qi: ResourcePool { current: qi, maximum: qi },
        spirit: ResourcePool { current: spirit, maximum: spirit },
        attainment: 0,
        reputation: 0,
    }
}

/// Bounds within which a new disciple's attributes are computed.
pub open spec fn modest(apt: Aptitudes) -> bool {
    &&& 5 <= apt.strength <= 40
    &&& 5 <= apt.intelligence <= 40
    &&& 5 <= apt.constitution <= 40
    &&& 5 <= apt.agility <= 40
    &&& 5 <= apt.fortune <= 40
}

fn initial_attributes(age: i32, apt: &Aptitudes, loyalty: i32, neili: i32) -> (a: AcquiredAttributes)
    requires
        modest(*apt),
        15 <= age <= 28,
        0 <= loyalty <= 100,
        0 <= neili <= 100,
    ensures
        a == starting_attributes(age as int, *apt, loyalty as int, neili as int),
{
    let energy = 30 + apt.intelligence;
    let qi = qi_maximum(age, apt, neili);
    let spirit = spirit_maximum(age, apt, energy);
    let f = 40 + apt.fortune / 2;
    AcquiredAttributes {
        neili: ResourcePool { current: neili, maximum: neili },
        energy: ResourcePool { current: energy, maximum: energy },
        sect_loyalty: loyalty,
        morality: if f < 0 { 0 } else if f > 100 { 100 } else { f },
        qi: ResourcePool { current: qi, maximum: qi },
        spirit: ResourcePool { current: spirit, maximum: spirit },
        attainment: 0,
        reputation: 0,
    }
}

/// `d` is a freshly generated disciple for the talent bonus `bonus`: rolled
/// aptitudes (four raised by the bonus, fortune in `8..=32`), talent their
/// mean, inner force `20..=45`, age `15..=28`, loyalty `40..=70`, a starter
/// art at level 50, a listed name, a clock-stamped id, the starting
/// attributes, and otherwise a healthy outer disciple of the player's sect.
pub open spec fn recruited(d: Disciple, bonus: int) -> bool {
    &&& rolled_aptitude(d.aptitudes.strength as int, bonus)
    &&& rolled_aptitude(d.aptitudes.intelligence as int, bonus)
    &&& rolled_aptitude(d.aptitudes.constitution as int, bonus)
    &&& rolled_aptitude(d.aptitudes.agility as int, bonus)
    &&& 8 <= d.aptitudes.fortune <= 32
    &&& d.talent == spec_talent(d.aptitudes)
    &&& 20 <= d.inner_power <= 45
    &&& 15 <= d.age <= 28
    &&& 40 <= d.loyalty <= 70
    &&& d.months_in_sect == 0
    &&& starter_arts().contains(d.martial_art@)
    &&& d.proficiencies.has(d.martial_art@)
    &&& d.proficiencies.at(d.martial_art@) == (SkillProgress { level: 50, experience: 0 })
    &&& forall|k: Seq<char>| k != d.martial_art@ ==> !d.proficiencies.has(k)
    &&& listed_name(d.name@)
    &&& exists|ms: nat, k: int| 1000 <= k <= 9999 && d.id@ == #[trigger] stamp_id(ms, k)
    &&& d.attributes == starting_attributes(d.age as int, d.aptitudes, d.loyalty as int, d.inner_power as int)
    &&& d.alive
    &&& d.rank == DiscipleRank::Outer
    &&& d.condition == DiscipleCondition::Healthy
    &&& d.sect_id matches Some(s) && s@ == player_sect_id()
    &&& d.master_id is None
    &&& d.department is None
    &&& d.away_months == 0
    &&& d.merit == 0
    &&& d.private_books@.len() == 0
    &&& d.action is None
}

fn roll_aptitude(rng: &mut StdRng, bonus: i32) -> (v: i32)
    ensures
        rolled_aptitude(v as int, bonus as int),
        8 <= v <= 40,
{
    let r = rand_range(rng, 12, 30);
    let v = r + bonus / 4;
    let c = if v < 8 { 8 } else if v > 40 { 40 } else { v };
    proof {
        assert(c == aptitude_roll(r as int, bonus as int));
    }
    c
}

/// A new disciple (see `recruited`): the rolls come in the order aptitudes,
/// inner force, age, starting art, id number, name, loyalty.
pub fn generate_disciple(rng: &mut StdRng, talent_bonus: i32) -> (d: Disciple)
    ensures
        recruited(d, talent_bonus as int),
{
    let strength = roll_aptitude(rng, talent_bonus);
    let intelligence = roll_aptitude(rng, talent_bonus);
    let constitution = roll_aptitude(rng, talent_bonus);
    let agility = roll_aptitude(rng, talent_bonus);
    let fortune = rand_range(rng, 8, 32);
    let aptitudes = Aptitudes { strength, intelligence, constitution, agility, fortune };
    let talent = (strength + intelligence + constitution + agility + fortune) / 5;
    let inner_power = rand_range(rng, 20, 45);
    let age = rand_range(rng, 15, 28);
    let art = starter_art_at(pick_index(rng, 4));
    let millis = clock_millis();
    let k = rand_range(rng, 1000, 9999);
    let mut id = String::from_str("d");
    let stamp = decimal_wide(millis);
    id.append(stamp.as_str());
    id.append("_");
    let number = decimal_wide(k as u64);
    id.append(number.as_str());
    let name = generate_name(rng);
    let loyalty = rand_range(rng, 40, 70);
    let mut d = Disciple::new();
    d.id = id;
    d.name = name;
    d.talent = talent;
    d.inner_power = inner_power;
    d.martial_art = art.to_owned();
    d.loyalty = loyalty;
    d.months_in_sect = 0;
    d.alive = true;
    d.age = age;
    d.aptitudes = aptitudes;
    d.attributes = initial_attributes(age, &aptitudes, loyalty, inner_power);
    proof {
        d.proficiencies.lemma_empty_has_none();
        assert(d.id@ == stamp_id(millis as nat, k as int));
    }
    d.proficiencies.insert(art, SkillProgress::new(50, 0));
    sync_legacy_attributes(&mut d);
    d
}

/// The two disciples a new sect starts with: one generated with talent bonus
/// 15, loyalty `60..=80` and inner force `25..=40`, one with bonus 10, loyalty
/// `55..=75` and inner force `20..=35`; each is renamed once more.
pub fn generate_starting_disciples(rng: &mut StdRng) -> (r: Vec<Disciple>)
    ensures
        r@.len() == 2,
        listed_name(r@[0].name@),
        listed_name(r@[1].name@),
        60 <= r@[0].attributes.sect_loyalty <= 80,
        60 <= r@[0].loyalty <= 80,
        25 <= r@[0].attributes.neili.maximum <= 40,
        r@[0].attributes.neili.current == r@[0].attributes.neili.maximum,
        r@[0].inner_power == r@[0].attributes.neili.maximum,
        55 <= r@[1].attributes.sect_loyalty <= 75,
        55 <= r@[1].loyalty <= 75,
        20 <= r@[1].attributes.neili.maximum <= 35,
        r@[1].attributes.neili.current == r@[1].attributes.neili.maximum,
        r@[1].inner_power == r@[1].attributes.neili.maximum,
{
    let mut d1 = generate_disciple(rng, 15);
    d1.attributes.sect_loyalty = rand_range(rng, 60, 80);
    let n1 = rand_range(rng, 25, 40);
    d1.attributes.neili = ResourcePool { current: n1, maximum: n1 };
    d1.name = generate_name(rng);
    sync_legacy_attributes(&mut d1);
    let mut d2 = generate_disciple(rng, 10);
    d2.attributes.sect_loyalty = rand_range(rng, 55, 75);
    let n2 = rand_range(rng, 20, 35);
    d2.attributes.neili = ResourcePool { current: n2, maximum: n2 };
    d2.name = generate_name(rng);
    sync_legacy_attributes(&mut d2);
    let mut r: Vec<Disciple> = Vec::new();
    r.push(d1);
    r.push(d2);
    r
}

} // verus!
