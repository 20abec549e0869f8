//! The head of the sect creates a martial art of its own: the name is
//! checked, the grade comes from the sect's research, the strength from the
//! scripture hall, its elder and a flash of inspiration.
use vstd::prelude::*;
use vstd::string::StrSliceExecFns;
use rand::rngs::StdRng;
use crate::chance::rand_range;
use crate::elder_duties::{scaled, scaled_output};
use crate::game::GameState;
use crate::ledger::Ledger;
use crate::lineage::{disciple_index, find_disciple};
use crate::management::{int_text, refused, silver_short_text, spend};
use crate::text::decimal_wide;
use crate::model::{BuildingKind, Disciple};
use crate::recruitment::{require_hall, ruined_text};
use crate::arts::{art_combat, art_is_combat};
use crate::sect::{
    building_level, list_contains, text_listed, building_effectiveness, building_index, competence_fits, elder_competence_percent, find_building, spec_building_effectiveness, spec_elder_competence,
    ArtCategory, ArtTier, CreatedArt, SectAttributes, SectState,
};

verus! {

/// A character `str::trim` takes for white space.
pub open spec fn is_blank(c: char) -> bool {
    let u = c as u32;
    ||| 0x9 <= u <= 0xd
    ||| u == 0x20 || u == 0x85 || u == 0xa0 || u == 0x1680
    ||| 0x2000 <= u <= 0x200a
    ||| u == 0x2028 || u == 0x2029 || u == 0x202f || u == 0x205f || u == 0x3000
}

fn blank(c: char) -> (r: bool)
    ensures
        r == is_blank(c),
{
    let u = c as u32;
    (0x9 <= u && u <= 0xd) || u == 0x20 || u == 0x85 || u == 0xa0 || u == 0x1680 || (0x2000 <= u && u <= 0x200a) || u == 0x2028
        || u == 0x2029 || u == 0x202f || u == 0x205f || u == 0x3000
}

/// `s` without its leading white space.
pub open spec fn trim_front(s: Seq<char>) -> Seq<char>
    decreases s.len(),
{
    if s.len() > 0 && is_blank(s[0]) {
        trim_front(s.drop_first())
    } else {
        s
    }
}

/// `s` without its trailing white space.
pub open spec fn trim_back(s: Seq<char>) -> Seq<char>
    decreases s.len(),
{
    if s.len() > 0 && is_blank(s.last()) {
        trim_back(s.drop_last())
    } else {
        s
    }
}

/// `s` without white space at either end.
pub open spec fn trimmed(s: Seq<char>) -> Seq<char> {
    trim_back(trim_front(s))
}

/// The text `s` without white space at either end (see `trimmed`).
pub fn trim_text(s: &str) -> (r: &str)
    ensures
        r@ == trimmed(s@),
{
    let n = s.unicode_len();
    let mut a: usize = 0;
    proof {
        assert(s@.subrange(0, n as int) =~= s@);
    }
    while a < n && blank(s.get_char(a))
        invariant
            n == s@.len(),
            a <= n,
            trim_front(s@) == trim_front(s@.subrange(a as int, n as int)),
        decreases n - a,
    {
        proof {
            assert(s@.subrange(a as int, n as int).drop_first() =~= s@.subrange(a as int + 1, n as int));
        }
        a = a + 1;
    }
    proof {
        assert(trim_front(s@.subrange(a as int, n as int)) == s@.subrange(a as int, n as int));
    }
    let mut b: usize = n;
    while b > a && blank(s.get_char(b - 1))
        invariant
            n == s@.len(),
            a <= b <= n,
            trim_back(s@.subrange(a as int, n as int)) == trim_back(s@.subrange(a as int, b as int)),
        decreases b - a,
    {
        proof {
            assert(s@.subrange(a as int, b as int).drop_last() =~= s@.subrange(a as int, b as int - 1));
        }
        b = b - 1;
    }
    proof {
        assert(trim_back(s@.subrange(a as int, b as int)) == s@.subrange(a as int, b as int));
    }
    s.substring_char(a, b)
}

/// What the catalog says of the basic skill chosen as the art's root: its
/// canonical id, whether the catalog lists it, and whether it is a basic
/// fighting skill.
#[derive(Clone, Debug)]
pub struct BasicArtRating {
    pub id: String,
    pub listed: bool,
    pub combat_basic: bool,
}

/// The catalog's words for the new art: the label of its kind (for a weapon
/// art, with the chosen weapon's name), the discipline named in the news, and
/// the names of the three grades.
#[derive(Clone, Debug)]
pub struct ArtLabels {
    pub art_type: String,
    pub discipline: String,
    pub chore_tier: String,
    pub outer_tier: String,
    pub inner_tier: String,
}

/// The grade a sect's research reaches: inner once some art is researched
/// to 260, outer once to 130, else chore.
pub open spec fn research_tier(research: Ledger<i64>) -> ArtTier {
    if exists|k: Seq<char>| #[trigger] research.has(k) && research.at(k) >= 260 {
        ArtTier::Inner
    } else if exists|k: Seq<char>| #[trigger] research.has(k) && research.at(k) >= 130 {
        ArtTier::Outer
    } else {
        ArtTier::Chore
    }
}

/// The power of a grade.
pub open spec fn tier_power(t: ArtTier) -> int {
    match t {
        ArtTier::Chore => 3,
        ArtTier::Outer => 6,
        ArtTier::Inner => 10,
    }
}

/// The difficulty of a grade.
pub open spec fn tier_difficulty(t: ArtTier) -> int {
    match t {
        ArtTier::Chore => 16,
        ArtTier::Outer => 30,
        ArtTier::Inner => 48,
    }
}

/// The talent a grade asks for.
pub open spec fn tier_talent(t: ArtTier) -> int {
    match t {
        ArtTier::Chore => 15,
        ArtTier::Outer => 25,
        ArtTier::Inner => 35,
    }
}

/// The silver a grade costs.
pub open spec fn tier_cost(t: ArtTier) -> int {
    match t {
        ArtTier::Chore => 80,
        ArtTier::Outer => 160,
        ArtTier::Inner => 280,
    }
}

/// The name of a grade in `labels`.
pub open spec fn tier_name(labels: ArtLabels, t: ArtTier) -> Seq<char> {
    match t {
        ArtTier::Chore => labels.chore_tier@,
        ArtTier::Outer => labels.outer_tier@,
        ArtTier::Inner => labels.inner_tier@,
    }
}

/// The kind is a fighting one.
pub open spec fn combat_category(c: ArtCategory) -> bool {
    c != ArtCategory::Other
}

/// The elder heading the scripture hall, when the hall has one on the roster.
pub open spec fn scripture_elder(s: GameState) -> Option<Disciple> {
    let b = building_index(s.sect.buildings@, "scripture"@);
    if b < 0 {
        None
    } else {
        match s.sect.buildings@[b].elder_id {
            None => None,
            Some(eid) => {
                let i = disciple_index(s.disciples@, eid@);
                if i < 0 {
                    None
                } else {
                    Some(s.disciples@[i])
                }
            },
        }
    }
}

/// The elder's insight in percent: its competence at the scripture hall, or
/// 85 without an elder.
pub open spec fn elder_wisdom(s: GameState) -> int {
    match scripture_elder(s) {
        Some(d) => spec_elder_competence(d, BuildingKind::Scripture),
        None => 85,
    }
}

/// The art's strength: the grade's power scaled by the hall's effectiveness
/// and the elder's insight, at least half the power, plus the inspiration.
pub open spec fn effective_power(power: int, level: int, wisdom: int, inspiration: int) -> int {
    let scaled_power = power * level / 100 * wisdom / 100;
    (if scaled_power > power / 2 { scaled_power } else { power / 2 }) + inspiration
}

/// Attack, defence and speed of an art of kind `c` and strength `e`.
pub open spec fn art_stats(c: ArtCategory, e: int) -> (int, int, int) {
    match c {
        ArtCategory::Unarmed => (e + 2, e, e),
        ArtCategory::Dodge => (e, e, e + 2),
        ArtCategory::Force => (e + 1, e + 2, e),
        _ => (e + 2, e + 1, e + 1),
    }
}

/// The new art's id: the count of arts created before it and its name.
pub open spec fn created_id(s: GameState, name: Seq<char>) -> Seq<char> {
    "player_created_"@ + int_text(s.sect.created_martial_arts@.len() as int) + "_"@ + name
}

/// The art created in `s` named `name` of kind `c` on the root `basic`,
/// with the inspiration `insp`.
pub open spec fn new_art(s: GameState, name: Seq<char>, c: ArtCategory, basic: BasicArtRating, labels: ArtLabels, insp: int, a: CreatedArt) -> bool {
    let t = research_tier(s.sect.martial_research);
    let e = effective_power(tier_power(t), spec_building_effectiveness(s.sect, "scripture"@), elder_wisdom(s), insp);
    let (atk, def, spd) = art_stats(c, e);
    &&& a.id@ == created_id(s, name)
    &&& a.name@ == name
    &&& a.is_combat
    &&& a.category == c
    &&& a.tier == t
    &&& a.art_type@ == labels.art_type@
    &&& a.desc@ == s.sect.name@ + "自创的"@ + name + "武学，融汇门中造诣与一己悟性。"@
    &&& a.atk == atk && a.def == def && a.spd == spd
    &&& a.req_talent == tier_talent(t)
    &&& a.basic_skill@ == basic.id@
    &&& a.difficulty == tier_difficulty(t)
}

/// The refusal, when there is one, of the checks made before anything is
/// drawn or paid, in order: a name empty or longer than eight characters, a
/// kind that is no fighting one, a root the catalog does not list, a root
/// that is no basic fighting skill, a weapon art without its weapon, a
/// ruined scripture hall.
pub open spec fn pre_refusal(s: GameState, name: Seq<char>, c: ArtCategory, basic: BasicArtRating, weapon_chosen: bool) -> Option<Seq<char>> {
    if name.len() == 0 || name.len() > 8 {
        Some("武学名称须有一至八个汉字。"@)
    } else if !combat_category(c) {
        Some("自创武学须为战斗武学（拳脚/轻功/内功/兵器）。"@)
    } else if !basic.listed {
        Some("所选根基武学谱中无载。"@)
    } else if !basic.combat_basic {
        Some("根基须为战斗基础技能。"@)
    } else if c == ArtCategory::Weapon && !weapon_chosen {
        Some("兵器武学须择一剑/刀/棍/枪/鞭。"@)
    } else if spec_building_effectiveness(s.sect, "scripture"@) <= 0 {
        Some(ruined_text("藏经阁"@))
    } else {
        None
    }
}

/// What `create_martial_art` does with the inspiration `insp`: the refusals,
/// in order, for a name that is empty or longer than eight characters once
/// trimmed, a kind that is no fighting one, a root the catalog does not list,
/// a root that is no basic fighting skill, a weapon art without its weapon,
/// a ruined scripture hall, and a treasury short of the grade's cost, each
/// changing nothing; otherwise the cost is paid, the art (see `new_art`)
/// joins the sect's created arts, the arts learnt and the public books, its
/// research starts at 50 and the scaled output of a fifth of the hall's
/// effectiveness and 5, prestige rises by 5 and the grade's power (to at most
/// 1000), and the news names the discipline, the grade, the art and the
/// elder who helped.
pub open spec fn art_created(
    before: GameState,
    raw_name: Seq<char>,
    c: ArtCategory,
    basic: BasicArtRating,
    weapon_chosen: bool,
    labels: ArtLabels,
    insp: int,
    after: GameState,
    r: Result<String, String>,
) -> bool {
    let name = trimmed(raw_name);
    let t = research_tier(before.sect.martial_research);
    let level = spec_building_effectiveness(before.sect, "scripture"@);
    let cost = tier_cost(t);
    if pre_refusal(before, name, c, basic, weapon_chosen) is Some {
        after == before && refused(r, pre_refusal(before, name, c, basic, weapon_chosen)->0)
    } else if before.sect.attributes.silver < cost {
        after == before && refused(r, silver_short_text(cost - before.sect.attributes.silver))
    } else {
        let id = created_id(before, name);
        let p = before.sect.attributes.prestige + 5 + tier_power(t);
        let note = match scripture_elder(before) {
            Some(d) => "，"@ + d.name@ + "参详提点尤多"@,
            None => ""@,
        };
        &&& 0 <= insp <= tier_power(t) + 7
        &&& after == (GameState {
            sect: SectState {
                attributes: SectAttributes {
                    silver: (before.sect.attributes.silver - cost) as i32,
                    prestige: (if p > 1000 { 1000 } else { p }) as i32,
                    ..before.sect.attributes
                },
                created_martial_arts: after.sect.created_martial_arts,
                public_books: after.sect.public_books,
                martial_research: after.sect.martial_research,
                ..before.sect
            },
            martial_arts_learned: after.martial_arts_learned,
            ..before
        })
        &&& after.sect.created_martial_arts@.len() == before.sect.created_martial_arts@.len() + 1
        &&& after.sect.created_martial_arts@.drop_last() == before.sect.created_martial_arts@
        &&& new_art(before, name, c, basic, labels, insp, after.sect.created_martial_arts@.last())
        &&& after.martial_arts_learned@.len() == before.martial_arts_learned@.len() + 1
        &&& after.martial_arts_learned@.drop_last() == before.martial_arts_learned@
        &&& after.martial_arts_learned@.last()@ == id
        &&& after.sect.public_books@.len() == before.sect.public_books@.len() + 1
        &&& after.sect.public_books@.drop_last() == before.sect.public_books@
        &&& after.sect.public_books@.last()@ == id
        &&& after.sect.martial_research.has(id)
        &&& after.sect.martial_research.at(id) == 50 + scaled(5 + level / 5, level)
        &&& forall|k: Seq<char>| k != id ==> (#[trigger] after.sect.martial_research.has(k) == before.sect.martial_research.has(k))
        &&& forall|k: Seq<char>|
            k != id && #[trigger] before.sect.martial_research.has(k) ==> after.sect.martial_research.at(k)
                == before.sect.martial_research.at(k)
        &&& r matches Ok(text) && text@ == "掌门悟通"@ + labels.discipline@ + "，亲创"@ + tier_name(labels, t) + "《"@ + name + "》，本派武学又开新天"@
            + note + "。"@
    }
}

fn tier_of(research: &Ledger<i64>) -> (t: ArtTier)
    ensures
        t == research_tier(*research),
{
    let n = research.len();
    let mut hi = false;
    let mut mid = false;
    let mut i: usize = 0;
    while i < n
        invariant
            i <= n,
            n == research.size(),
            hi == (exists|j: int| 0 <= j < i && #[trigger] research.at(research.names()[j]) >= 260),
            mid == (exists|j: int| 0 <= j < i && #[trigger] research.at(research.names()[j]) >= 130),
        decreases n - i,
    {
        let (k, v) = research.entry_at(i);
        if v >= 260 {
            hi = true;
        }
        if v >= 130 {
            mid = true;
        }
        proof {
            assert(research.at(research.names()[i as int]) == v);
        }
        i = i + 1;
    }
    proof {
        if hi {
            let j = choose|j: int| 0 <= j < n && #[trigger] research.at(research.names()[j]) >= 260;
            research.lemma_named_has(j);
            assert(research.has(research.names()[j]) && research.at(research.names()[j]) >= 260);
        } else if exists|k: Seq<char>| #[trigger] research.has(k) && research.at(k) >= 260 {
            let k = choose|k: Seq<char>| #[trigger] research.has(k) && research.at(k) >= 260;
            research.lemma_has_named(k);
            let j = choose|j: int| 0 <= j < research.size() && #[trigger] research.names()[j] == k;
            assert(research.at(research.names()[j]) >= 260);
        }
        if mid {
            let j = choose|j: int| 0 <= j < n && #[trigger] research.at(research.names()[j]) >= 130;
            research.lemma_named_has(j);
            assert(research.has(research.names()[j]) && research.at(research.names()[j]) >= 130);
        } else if exists|k: Seq<char>| #[trigger] research.has(k) && research.at(k) >= 130 {
            let k = choose|k: Seq<char>| #[trigger] research.has(k) && research.at(k) >= 130;
            research.lemma_has_named(k);
            let j = choose|j: int| 0 <= j < research.size() && #[trigger] research.names()[j] == k;
            assert(research.at(research.names()[j]) >= 130);
        }
    }
    if hi {
        ArtTier::Inner
    } else if mid {
        ArtTier::Outer
    } else {
        ArtTier::Chore
    }
}

fn scripture_elder_at(state: &GameState) -> (r: Option<usize>)
    ensures
        match r {
            Some(i) => i < state.disciples@.len() && scripture_elder(*state) == Some(state.disciples@[i as int]),
            None => scripture_elder(*state) is None,
        },
{
    match find_building(&state.sect.buildings, "scripture") {
        None => None,
        Some(b) => match &state.sect.buildings[b].elder_id {
            None => None,
            Some(eid) => find_disciple(&state.disciples, eid.as_str()),
        },
    }
}

fn news(labels: &ArtLabels, t: ArtTier, name: &str, note: &str) -> (r: String)
    ensures
        r@ == "掌门悟通"@ + labels.discipline@ + "，亲创"@ + tier_name(*labels, t) + "《"@ + name@ + "》，本派武学又开新天"@ + note@ + "。"@,
{
    let mut text = String::from_str("掌门悟通");
    text.append(labels.discipline.as_str());
    text.append("，亲创");
    text.append(
        match t {
            ArtTier::Chore => labels.chore_tier.as_str(),
            ArtTier::Outer => labels.outer_tier.as_str(),
            ArtTier::Inner => labels.inner_tier.as_str(),
        },
    );
    text.append("《");
    text.append(name);
    text.append("》，本派武学又开新天");
    text.append(note);
    text.append("。");
    text
}

fn precheck(state: &GameState, nm: &str, category: ArtCategory, basic: &BasicArtRating, weapon_chosen: bool) -> (r: Result<i32, String>)
    ensures
        match pre_refusal(*state, nm@, category, *basic, weapon_chosen) {
            Some(text) => refused(r, text),
            None => r == Ok::<i32, String>(spec_building_effectiveness(state.sect, "scripture"@) as i32),
        },
        0 <= spec_building_effectiveness(state.sect, "scripture"@) <= i32::MAX,
{
    let _hall = building_effectiveness(&state.sect, "scripture");
    let len = nm.unicode_len();
    if len == 0 || len > 8 {
        return Err(String::from_str("武学名称须有一至八个汉字。"));
    }
    if category == ArtCategory::Other {
        return Err(String::from_str("自创武学须为战斗武学（拳脚/轻功/内功/兵器）。"));
    }
    if !basic.listed {
        return Err(String::from_str("所选根基武学谱中无载。"));
    }
    if !basic.combat_basic {
        return Err(String::from_str("根基须为战斗基础技能。"));
    }
    if category == ArtCategory::Weapon && !weapon_chosen {
        return Err(String::from_str("兵器武学须择一剑/刀/棍/枪/鞭。"));
    }
    require_hall(state, "scripture", "藏经阁")
}

fn build_art(
    state: &GameState,
    nm: &str,
    category: ArtCategory,
    basic: &BasicArtRating,
    labels: &ArtLabels,
    t: ArtTier,
    level: i32,
    wisdom: i32,
    insp: i32,
) -> (a: CreatedArt)
    requires
        t == research_tier(state.sect.martial_research),
        level == spec_building_effectiveness(state.sect, "scripture"@),
        wisdom == elder_wisdom(*state),
        85 <= wisdom <= 130,
        0 <= insp <= tier_power(t) + 7,
        level >= 0,
    ensures
        new_art(*state, nm@, category, *basic, *labels, insp as int, a),
{
    let power: i64 = match t {
        ArtTier::Chore => 3,
        ArtTier::Outer => 6,
        ArtTier::Inner => 10,
    };
    let lv: i64 = level as i64;
    let ws: i64 = wisdom as i64;
    proof {
        assert(0 <= power * lv <= 10 * 0x8000_0000) by (nonlinear_arith)
            requires
                0 <= power <= 10,
                0 <= lv <= 0x8000_0000,
        ;
        assert(0 <= (power * lv / 100) * ws <= (10 * 0x8000_0000 / 100) * 130) by (nonlinear_arith)
            requires
                0 <= power * lv <= 10 * 0x8000_0000,
                85 <= ws <= 130,
        ;
    }
    let scaled_power: i64 = power * lv / 100 * ws / 100;
    let e: i64 = (if scaled_power > power / 2 { scaled_power } else { power / 2 }) + insp as i64;
    let ei: i32 = e as i32;
    let (atk, def, spd) = match category {
        ArtCategory::Unarmed => (ei + 2, ei, ei),
        ArtCategory::Dodge => (ei, ei, ei + 2),
        ArtCategory::Force => (ei + 1, ei + 2, ei),
        _ => (ei + 2, ei + 1, ei + 1),
    };
    let mut id = String::from_str("player_created_");
    id.append(decimal_wide(state.sect.created_martial_arts.len() as u64).as_str());
    id.append("_");
    id.append(nm);
    let mut desc = state.sect.name.clone();
    desc.append("自创的");
    desc.append(nm);
    desc.append("武学，融汇门中造诣与一己悟性。");
    CreatedArt {
        id,
        name: String::from_str(nm),
        is_combat: true,
        category,
        tier: t,
        art_type: labels.art_type.clone(),
        desc,
        atk,
        def,
        spd,
        req_talent: match t {
            ArtTier::Chore => 15,
            ArtTier::Outer => 25,
            ArtTier::Inner => 35,
        },
        basic_skill: basic.id.clone(),
        difficulty: match t {
            ArtTier::Chore => 16,
            ArtTier::Outer => 30,
            ArtTier::Inner => 48,
        },
    }
}

fn record_art(state: &mut GameState, art: CreatedArt, research: i64, gain: i32)
    requires
        0 <= gain <= 15,
    ensures
        ({
            let before = *old(state);
            let after = *final(state);
            let id = art.id@;
            let p = before.sect.attributes.prestige + gain;
            &&& after == (GameState {
                sect: SectState {
                    attributes: SectAttributes { prestige: (if p > 1000 { 1000 } else { p }) as i32, ..before.sect.attributes },
                    created_martial_arts: after.sect.created_martial_arts,
                    public_books: after.sect.public_books,
                    martial_research: after.sect.martial_research,
                    ..before.sect
                },
                martial_arts_learned: after.martial_arts_learned,
                ..before
            })
            &&& after.sect.created_martial_arts@ == before.sect.created_martial_arts@.push(art)
            &&& after.martial_arts_learned@.len() == before.martial_arts_learned@.len() + 1
            &&& after.martial_arts_learned@.drop_last() == before.martial_arts_learned@
            &&& after.martial_arts_learned@.last()@ == id
            &&& after.sect.public_books@.len() == before.sect.public_books@.len() + 1
            &&& after.sect.public_books@.drop_last() == before.sect.public_books@
            &&& after.sect.public_books@.last()@ == id
            &&& after.sect.martial_research.has(id)
            &&& after.sect.martial_research.at(id) == research
            &&& forall|k: Seq<char>| k != id ==> (#[trigger] after.sect.martial_research.has(k) == before.sect.martial_research.has(k))
            &&& forall|k: Seq<char>|
                k != id && #[trigger] before.sect.martial_research.has(k) ==> after.sect.martial_research.at(k)
                    == before.sect.martial_research.at(k)
        }),
{
    let ghost start = *state;
    let id = art.id.clone();
    state.sect.created_martial_arts.push(art);
    state.martial_arts_learned.push(id.clone());
    state.sect.public_books.push(id.clone());
    state.sect.martial_research.insert(id.as_str(), research);
    let p: i64 = state.sect.attributes.prestige as i64 + gain as i64;
    state.sect.attributes.prestige = if p > 1000 { 1000 } else { p as i32 };
    proof {
        assert(state.martial_arts_learned@.drop_last() =~= start.martial_arts_learned@);
        assert(state.sect.public_books@.drop_last() =~= start.sect.public_books@);
    }
}

/// The head creates a martial art named `name` (trimmed) of kind
/// `category`, rooted in the basic skill `basic` the catalog rated, with a
/// weapon chosen or not (`weapon_basic`) and the catalog's words `labels`
/// (see `art_created`): the checks come first and change nothing when they
/// refuse; the inspiration is drawn from `0..=power + 7` of the grade the
/// sect's research reaches; then the grade's cost is paid and the art
/// recorded.
#[verifier::rlimit(30)]
pub fn create_martial_art(
    rng: &mut StdRng,
    state: &mut GameState,
    name: &str,
    category: ArtCategory,
    basic: &BasicArtRating,
    weapon_basic: Option<&str>,
    labels: &ArtLabels,
) -> (r: Result<String, String>)
    requires
        scripture_elder(*old(state)) matches Some(d) ==> competence_fits(d, BuildingKind::Scripture),
    ensures
        exists|insp: int| #[trigger] art_created(*old(state), name@, category, *basic, weapon_basic is Some, *labels, insp, *final(state), r),
{
    let ghost start = *state;
    let nm = trim_text(name);
    let level = match precheck(state, nm, category, basic, weapon_basic.is_some()) {
        Ok(v) => v,
        Err(e) => {
            let r = Err(e);
            proof {
                assert(art_created(start, name@, category, *basic, weapon_basic is Some, *labels, 0, *state, r));
            }
            return r;
        },
    };
    let t = tier_of(&state.sect.martial_research);
    let power: i32 = match t {
        ArtTier::Chore => 3,
        ArtTier::Outer => 6,
        ArtTier::Inner => 10,
    };
    let elder = scripture_elder_at(state);
    let wisdom: i32 = match elder {
        Some(i) => elder_competence_percent(&state.disciples[i], BuildingKind::Scripture),
        None => 85,
    };
    let note: String = match elder {
        Some(i) => {
            let mut n = String::from_str("，");
            n.append(state.disciples[i].name.as_str());
            n.append("参详提点尤多");
            n
        },
        None => String::from_str(""),
    };
    let insp = rand_range(rng, 0, power + 7);
    let art = build_art(state, nm, category, basic, labels, t, level, wisdom, insp);
    let cost: i32 = match t {
        ArtTier::Chore => 80,
        ArtTier::Outer => 160,
        ArtTier::Inner => 280,
    };
    match spend(state, cost) {
        Err(e) => {
            let r = Err(e);
            proof {
                assert(art_created(start, name@, category, *basic, weapon_basic is Some, *labels, insp as int, *state, r));
            }
            return r;
        },
        Ok(()) => {},
    }
    let ghost paid = *state;
    let ghost a = art;
    let research: i64 = 50 + scaled_output(5 + level / 5, level) as i64;
    record_art(state, art, research, 5 + power);
    let text = news(labels, t, nm, note.as_str());
    let r = Ok(text);
    proof {
        assert(state.sect.created_martial_arts@.drop_last() =~= start.sect.created_martial_arts@);
        assert(state.sect.created_martial_arts@.last() == a);
        assert(new_art(start, trimmed(name@), category, *basic, *labels, insp as int, a));
        assert(note@ == match scripture_elder(start) {
            Some(d) => "，"@ + d.name@ + "参详提点尤多"@,
            None => ""@,
        });
        assert(state.sect.attributes.silver == start.sect.attributes.silver - tier_cost(t));
        assert(state.sect.martial_research.at(a.id@) == 50 + scaled(5 + level / 5, level as int));
        assert(a.id@ == created_id(start, trimmed(name@)));
        assert(pre_refusal(start, trimmed(name@), category, *basic, weapon_basic is Some) is None);
        assert(!(start.sect.attributes.silver < tier_cost(t)));
        assert(0 <= insp <= tier_power(t) + 7);
        let pp = start.sect.attributes.prestige + 5 + tier_power(t);
        assert(*state == (GameState {
            sect: SectState {
                attributes: SectAttributes {
                    silver: (start.sect.attributes.silver - tier_cost(t)) as i32,
                    prestige: (if pp > 1000 { 1000 } else { pp }) as i32,
                    ..start.sect.attributes
                },
                created_martial_arts: state.sect.created_martial_arts,
                public_books: state.sect.public_books,
                martial_research: state.sect.martial_research,
                ..start.sect
            },
            martial_arts_learned: state.martial_arts_learned,
            ..start
        }));
        assert(text@ == "掌门悟通"@ + labels.discipline@ + "，亲创"@ + tier_name(*labels, t) + "《"@ + trimmed(name@) + "》，本派武学又开新天"@
            + note@ + "。"@);
        let id = created_id(start, trimmed(name@));
        assert(state.martial_arts_learned@.last()@ == id);
        assert(state.sect.public_books@.last()@ == id);
        assert(state.sect.martial_research.has(id));
        assert(state.sect.created_martial_arts@.len() == start.sect.created_martial_arts@.len() + 1);
        assert(r matches Ok(tx) && tx@ == "掌门悟通"@ + labels.discipline@ + "，亲创"@ + tier_name(*labels, t) + "《"@ + trimmed(name@) + "》，本派武学又开新天"@
            + note@ + "。"@);
        let sl = spec_building_effectiveness(start.sect, "scripture"@);
        assert(sl == level);
        assert(state.sect.martial_research.at(id) == 50 + scaled(5 + sl / 5, sl));
        assert(research_tier(start.sect.martial_research) == t);
        assert(forall|k: Seq<char>| k != id ==> (#[trigger] state.sect.martial_research.has(k) == start.sect.martial_research.has(k)));
        assert(paid.sect.martial_research == start.sect.martial_research);
        assert forall|k: Seq<char>|
            k != id && #[trigger] start.sect.martial_research.has(k) implies state.sect.martial_research.at(k)
                == start.sect.martial_research.at(k) by {
            assert(paid.sect.martial_research.has(k));
        }
        assert(state.sect.public_books@.drop_last() == start.sect.public_books@);
        assert(state.martial_arts_learned@.drop_last() == start.martial_arts_learned@);
        assert(new_art(start, trimmed(name@), category, *basic, *labels, insp as int, state.sect.created_martial_arts@.last()));
        assert(art_created(start, name@, category, *basic, weapon_basic is Some, *labels, insp as int, *state, r));
    }
    r
}

/// The level of the scripture hall, 0 without one.
pub open spec fn scripture_level(s: SectState) -> int {
    let b = building_index(s.buildings@, "scripture"@);
    if b < 0 {
        0
    } else {
        s.buildings@[b].level as int
    }
}

/// The research of the art `id` can rise by a round of joint study within
/// the machine's integers.
pub open spec fn joint_study_fits(s: GameState, id: Seq<char>) -> bool {
    &&& 20 + scripture_level(s.sect) * 6 <= i32::MAX
    &&& 20 + scripture_level(s.sect) * 6 >= i32::MIN
    &&& s.sect.martial_research.has(id) ==> s.sect.martial_research.at(id) <= i64::MAX - i32::MAX
}

/// What `research_martial` does for the art `id` shown as `shown`: refused,
/// changing nothing, when the library lacks its book, when neither the
/// catalog nor the sect's own arts know it, when it is no fighting art, when
/// the scripture hall is ruined, or when the treasury is short of 40 taels;
/// otherwise 40 taels are paid and the art's research (50 when it had none)
/// rises by the scaled output of 20 and six per level of the hall.
pub open spec fn joint_study(before: GameState, id: Seq<char>, shown: Seq<char>, after: GameState, r: Result<String, String>) -> bool {
    let level = spec_building_effectiveness(before.sect, "scripture"@);
    let gain = scaled(20 + scripture_level(before.sect) * 6, level);
    let silver = before.sect.attributes.silver;
    let research = before.sect.martial_research;
    if !text_listed(before.sect.public_books@, id) {
        after == before && refused(r, "藏经阁中并无此门武学典籍。"@)
    } else if art_combat(id, before.sect.created_martial_arts@) is None {
        after == before && refused(r, "武学谱中并无这册典籍。"@)
    } else if art_combat(id, before.sect.created_martial_arts@) == Some(false) {
        after == before && refused(r, "知识义理不设门派参研等级上限，无须耗银合参。"@)
    } else if level <= 0 {
        after == before && refused(r, ruined_text("藏经阁"@))
    } else if silver < 40 {
        after == before && refused(r, silver_short_text(40 - silver))
    } else {
        &&& after == (GameState {
            sect: SectState {
                attributes: SectAttributes { silver: (silver - 40) as i32, ..before.sect.attributes },
                martial_research: after.sect.martial_research,
                ..before.sect
            },
            ..before
        })
        &&& after.sect.martial_research.has(id)
        &&& after.sect.martial_research.at(id) == (if research.has(id) { research.at(id) as int } else { 50 }) + gain
        &&& forall|k: Seq<char>| k != id ==> (#[trigger] after.sect.martial_research.has(k) == research.has(k))
        &&& forall|k: Seq<char>| k != id && #[trigger] research.has(k) ==> after.sect.martial_research.at(k) == research.at(k)
        &&& r matches Ok(t) && t@ == "传功、掌书两房合参"@ + shown + "，门派造诣上限增了"@ + int_text(gain) + "点。"@
    }
}

/// The scripture hall and the martial office study the art `martial_art_id`
/// together (shown as `art_name`; see `joint_study`).
pub fn research_martial(state: &mut GameState, martial_art_id: &str, art_name: &str) -> (r: Result<String, String>)
    requires
        joint_study_fits(*old(state), martial_art_id@),
    ensures
        joint_study(*old(state), martial_art_id@, art_name@, *final(state), r),
{
    let ghost start = *state;
    if !list_contains(&state.sect.public_books, martial_art_id) {
        return Err(String::from_str("藏经阁中并无此门武学典籍。"));
    }
    match art_is_combat(martial_art_id, &state.sect.created_martial_arts) {
        None => return Err(String::from_str("武学谱中并无这册典籍。")),
        Some(false) => return Err(String::from_str("知识义理不设门派参研等级上限，无须耗银合参。")),
        Some(true) => {},
    }
    let effectiveness = match require_hall(state, "scripture", "藏经阁") {
        Ok(v) => v,
        Err(e) => return Err(e),
    };
    let hall_level = building_level(&state.sect, "scripture");
    let base: i32 = (20 + hall_level as i64 * 6) as i32;
    match spend(state, 40) {
        Err(e) => return Err(e),
        Ok(()) => {},
    }
    let gain = scaled_output(base, effectiveness);
    let current: i64 = match state.sect.martial_research.get(martial_art_id) {
        Some(v) => v,
        None => 50,
    };
    state.sect.martial_research.insert(martial_art_id, current + gain as i64);
    let mut t = String::from_str("传功、掌书两房合参");
    t.append(art_name);
    t.append("，门派造诣上限增了");
    t.append(crate::management::int_string(gain as i64).as_str());
    t.append("点。");
    proof {
        assert(state.sect.martial_research.at(martial_art_id@) == (if start.sect.martial_research.has(martial_art_id@) {
            start.sect.martial_research.at(martial_art_id@) as int
        } else {
            50
        }) + scaled(20 + scripture_level(start.sect) * 6, spec_building_effectiveness(start.sect, "scripture"@)));
    }
    Ok(t)
}

/// The position of the first of `arts` (catalog ids and names) not yet
/// learnt by the sect, or -1 when all are.
pub open spec fn first_unlearnt(learnt: Seq<String>, arts: Seq<(String, String)>) -> int {
    if exists|i: int| 0 <= i < arts.len() && !text_listed(learnt, (#[trigger] arts[i]).0@) {
        choose|i: int|
            0 <= i < arts.len() && !text_listed(learnt, (#[trigger] arts[i]).0@) && forall|j: int|
                0 <= j < i ==> text_listed(learnt, (#[trigger] arts[j]).0@)
    } else {
        -1
    }
}

/// What `research_new_martial` does with the catalog's fighting arts of the
/// sect `arts` (ids and shown names, in catalog order): refused, changing
/// nothing, when the scripture hall is ruined, when every one is learnt
/// already, or when the treasury is short of 120 taels; otherwise the first
/// one not learnt is: 120 taels are paid, the art is learnt, its book joins
/// the library when missing, its research starts at 50 and the scaled
/// output of 10, and prestige rises by 5 (to at most 1000).
pub open spec fn new_research(before: GameState, arts: Seq<(String, String)>, after: GameState, r: Result<String, String>) -> bool {
    let level = spec_building_effectiveness(before.sect, "scripture"@);
    let i = first_unlearnt(before.martial_arts_learned@, arts);
    let silver = before.sect.attributes.silver;
    if level <= 0 {
        after == before && refused(r, ruined_text("藏经阁"@))
    } else if i < 0 {
        after == before && refused(r, "本门自创武学已尽数参明。"@)
    } else if silver < 120 {
        after == before && refused(r, silver_short_text(120 - silver))
    } else {
        let id = arts[i].0@;
        let p = before.sect.attributes.prestige + 5;
        let books = before.sect.public_books@;
        &&& after == (GameState {
            sect: SectState {
                attributes: SectAttributes {
                    silver: (silver - 120) as i32,
                    prestige: (if p > 1000 { 1000 } else { p }) as i32,
                    ..before.sect.attributes
                },
                public_books: after.sect.public_books,
                martial_research: after.sect.martial_research,
                ..before.sect
            },
            martial_arts_learned: after.martial_arts_learned,
            ..before
        })
        &&& after.martial_arts_learned@.len() == before.martial_arts_learned@.len() + 1
        &&& after.martial_arts_learned@.drop_last() == before.martial_arts_learned@
        &&& after.martial_arts_learned@.last()@ == id
        &&& if text_listed(books, id) {
            after.sect.public_books@ == books
        } else {
            after.sect.public_books@.len() == books.len() + 1 && after.sect.public_books@.drop_last() == books
                && after.sect.public_books@.last()@ == id
        }
        &&& after.sect.martial_research.has(id)
        &&& after.sect.martial_research.at(id) == 50 + scaled(10, level)
        &&& forall|k: Seq<char>| k != id ==> (#[trigger] after.sect.martial_research.has(k) == before.sect.martial_research.has(k))
        &&& forall|k: Seq<char>|
            k != id && #[trigger] before.sect.martial_research.has(k) ==> after.sect.martial_research.at(k)
                == before.sect.martial_research.at(k)
        &&& r matches Ok(t) && t@ == "群策群力，终于创成"@ + arts[i].1@ + "，本派武学又开一脉。"@
    }
}

fn first_unlearnt_at(learnt: &Vec<String>, arts: &Vec<(String, String)>) -> (r: Option<usize>)
    ensures
        match r {
            Some(i) => i < arts@.len() && first_unlearnt(learnt@, arts@) == i,
            None => first_unlearnt(learnt@, arts@) == -1,
        },
{
    let mut i: usize = 0;
    while i < arts.len()
        invariant
            i <= arts@.len(),
            forall|j: int| 0 <= j < i ==> text_listed(learnt@, (#[trigger] arts@[j]).0@),
        decreases arts@.len() - i,
    {
        if !list_contains(learnt, arts[i].0.as_str()) {
            proof {
                let k = choose|k: int|
                    0 <= k < arts@.len() && !text_listed(learnt@, (#[trigger] arts@[k]).0@) && forall|j: int|
                        0 <= j < k ==> text_listed(learnt@, (#[trigger] arts@[j]).0@);
                if k < i {
                    assert(text_listed(learnt@, arts@[k].0@));
                } else if k > i {
                    assert(text_listed(learnt@, arts@[i as int].0@));
                }
            }
            return Some(i);
        }
        i = i + 1;
    }
    None
}

/// The sect works out the next of its own fighting arts the catalog lists
/// (`arts`, ids and shown names; see `new_research`).
pub fn research_new_martial(state: &mut GameState, arts: &Vec<(String, String)>) -> (r: Result<String, String>)
    ensures
        new_research(*old(state), arts@, *final(state), r),
{
    let ghost start = *state;
    let effectiveness = match require_hall(state, "scripture", "藏经阁") {
        Ok(v) => v,
        Err(e) => return Err(e),
    };
    let i = match first_unlearnt_at(&state.martial_arts_learned, arts) {
        Some(i) => i,
        None => return Err(String::from_str("本门自创武学已尽数参明。")),
    };
    match spend(state, 120) {
        Err(e) => return Err(e),
        Ok(()) => {},
    }
    let id = arts[i].0.clone();
    state.martial_arts_learned.push(id.clone());
    if !list_contains(&state.sect.public_books, id.as_str()) {
        state.sect.public_books.push(id.clone());
    }
    state.sect.martial_research.insert(id.as_str(), 50 + scaled_output(10, effectiveness) as i64);
    let p: i64 = state.sect.attributes.prestige as i64 + 5;
    state.sect.attributes.prestige = if p > 1000 { 1000 } else { p as i32 };
    let mut t = String::from_str("群策群力，终于创成");
    t.append(arts[i].1.as_str());
    t.append("，本派武学又开一脉。");
    proof {
        assert(state.martial_arts_learned@.drop_last() =~= start.martial_arts_learned@);
        if !text_listed(start.sect.public_books@, id@) {
            assert(state.sect.public_books@.drop_last() =~= start.sect.public_books@);
        }
    }
    Ok(t)
}

/// `books` without every copy of `id`, the others in their order.
pub open spec fn without_book(books: Seq<String>, id: Seq<char>) -> Seq<String>
    decreases books.len(),
{
    if books.len() == 0 {
        Seq::empty()
    } else {
        without_book(books.drop_last(), id) + (if books.last()@ == id {
            Seq::empty()
        } else {
            seq![books.last()]
        })
    }
}

/// The first disciple of `ds` who keeps a private copy of `id`, or -1.
pub open spec fn first_holder(ds: Seq<Disciple>, id: Seq<char>) -> int {
    if exists|i: int| 0 <= i < ds.len() && text_listed((#[trigger] ds[i]).private_books@, id) {
        choose|i: int|
            0 <= i < ds.len() && text_listed((#[trigger] ds[i]).private_books@, id) && forall|j: int|
                0 <= j < i ==> !text_listed((#[trigger] ds[j]).private_books@, id)
    } else {
        -1
    }
}

/// What `donate_book` does with the book `id` shown as `shown`: refused,
/// changing nothing, when neither the catalog nor the sect's own arts know
/// it, when the library holds it already, or when no disciple keeps a private
/// copy; otherwise the first disciple who keeps one gives up every copy, the
/// book joins the library, the art is learnt when it was not, and the news
/// names the giver.
pub open spec fn book_donated(before: GameState, id: Seq<char>, shown: Seq<char>, after: GameState, r: Result<String, String>) -> bool {
    let i = first_holder(before.disciples@, id);
    let learnt = before.martial_arts_learned@;
    if art_combat(id, before.sect.created_martial_arts@) is None {
        after == before && refused(r, "武学谱中并无这册典籍。"@)
    } else if text_listed(before.sect.public_books@, id) {
        after == before && refused(r, "此典籍早已收在藏经阁中。"@)
    } else if i < 0 {
        after == before && refused(r, "门中无人持有此册私藏。"@)
    } else {
        let d = before.disciples@[i];
        &&& after == (GameState {
            disciples: after.disciples,
            sect: SectState { public_books: after.sect.public_books, ..before.sect },
            martial_arts_learned: after.martial_arts_learned,
            ..before
        })
        &&& after.disciples@.len() == before.disciples@.len()
        &&& forall|j: int| 0 <= j < before.disciples@.len() && j != i ==> #[trigger] after.disciples@[j] == before.disciples@[j]
        &&& after.disciples@[i] == (Disciple { private_books: after.disciples@[i].private_books, ..d })
        &&& after.disciples@[i].private_books@ == without_book(d.private_books@, id)
        &&& after.sect.public_books@.len() == before.sect.public_books@.len() + 1
        &&& after.sect.public_books@.drop_last() == before.sect.public_books@
        &&& after.sect.public_books@.last()@ == id
        &&& if text_listed(learnt, id) {
            after.martial_arts_learned@ == learnt
        } else {
            after.martial_arts_learned@.len() == learnt.len() + 1 && after.martial_arts_learned@.drop_last() == learnt
                && after.martial_arts_learned@.last()@ == id
        }
        &&& r matches Ok(t) && t@ == d.name@ + "献出私藏，"@ + shown + "自此列入藏经阁公册。"@
    }
}

fn first_holder_at(ds: &Vec<Disciple>, id: &str) -> (r: Option<usize>)
    ensures
        match r {
            Some(i) => i < ds@.len() && first_holder(ds@, id@) == i,
            None => first_holder(ds@, id@) == -1,
        },
{
    let mut i: usize = 0;
    while i < ds.len()
        invariant
            i <= ds@.len(),
            forall|j: int| 0 <= j < i ==> !text_listed((#[trigger] ds@[j]).private_books@, id@),
        decreases ds@.len() - i,
    {
        if list_contains(&ds[i].private_books, id) {
            proof {
                let k = choose|k: int|
                    0 <= k < ds@.len() && text_listed((#[trigger] ds@[k]).private_books@, id@) && forall|j: int|
                        0 <= j < k ==> !text_listed((#[trigger] ds@[j]).private_books@, id@);
                if k < i {
                    assert(!text_listed(ds@[k].private_books@, id@));
                } else if k > i {
                    assert(!text_listed(ds@[i as int].private_books@, id@));
                }
            }
            return Some(i);
        }
        i = i + 1;
    }
    None
}

fn drop_copies(books: &Vec<String>, id: &str) -> (r: Vec<String>)
    ensures
        r@ == without_book(books@, id@),
{
    let mut kept: Vec<String> = Vec::new();
    let mut k: usize = 0;
    while k < books.len()
        invariant
            k <= books@.len(),
            kept@ == without_book(books@.take(k as int), id@),
        decreases books@.len() - k,
    {
        proof {
            assert(books@.take(k as int + 1).drop_last() =~= books@.take(k as int));
        }
        if !crate::text::text_eq(books[k].as_str(), id) {
            kept.push(books[k].clone());
        }
        proof {
            let t = books@.take(k as int + 1);
            if t.last()@ == id@ {
                assert(kept@ =~= without_book(t, id@));
            } else {
                assert(kept@ =~= without_book(t, id@));
            }
        }
        k = k + 1;
    }
    proof {
        assert(books@.take(books@.len() as int) =~= books@);
    }
    kept
}

/// A disciple gives the private copy of the book `martial_art_id` (shown as
/// `art_name`) to the library (see `book_donated`).
pub fn donate_book(state: &mut GameState, martial_art_id: &str, art_name: &str) -> (r: Result<String, String>)
    ensures
        book_donated(*old(state), martial_art_id@, art_name@, *final(state), r),
{
    let ghost start = *state;
    if art_is_combat(martial_art_id, &state.sect.created_martial_arts).is_none() {
        return Err(String::from_str("武学谱中并无这册典籍。"));
    }
    if list_contains(&state.sect.public_books, martial_art_id) {
        return Err(String::from_str("此典籍早已收在藏经阁中。"));
    }
    let i = match first_holder_at(&state.disciples, martial_art_id) {
        None => return Err(String::from_str("门中无人持有此册私藏。")),
        Some(i) => i,
    };
    let kept = drop_copies(&state.disciples[i].private_books, martial_art_id);
    state.disciples[i].private_books = kept;
    let mut t = state.disciples[i].name.clone();
    t.append("献出私藏，");
    t.append(art_name);
    t.append("自此列入藏经阁公册。");
    state.sect.public_books.push(String::from_str(martial_art_id));
    if !list_contains(&state.martial_arts_learned, martial_art_id) {
        state.martial_arts_learned.push(String::from_str(martial_art_id));
    }
    proof {
        assert(state.sect.public_books@.drop_last() =~= start.sect.public_books@);
        if !text_listed(start.martial_arts_learned@, martial_art_id@) {
            assert(state.martial_arts_learned@.drop_last() =~= start.martial_arts_learned@);
        }
    }
    Ok(t)
}

} // verus!
