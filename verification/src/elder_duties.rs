//! The monthly duties of the hall elders: each elder carries out the duty
//! chosen for the hall, with an output scaled by the hall's effectiveness and
//! the elder's competence.
use vstd::prelude::*;
use crate::arts::{art_combat, art_is_combat};
use crate::chance::{rand_range, roll_below};
use crate::event::{lands_at, lemma_prefix_monotone, total_weight, weight_prefix, weight_total, weighted_position};
use crate::economy::{medicine_label, medicine_name, pill_recipe, recipe_of, Medicine, PillRecipe};
use crate::game::GameState;
use crate::ledger::Ledger;
use crate::disciple::{can_act, spec_can_act};
use crate::management::{
    duty_allowed, elder_duties, consume_inventory, halls_modest, int_string, int_text, level_of, refused, require_inventory, silver_short_text, spend,
    stock_short_text, under_construction, upgrade_cost,
};
use crate::model::{BuildingKind, Disciple, DiscipleRank, MoralDirection};
use crate::recruit::{generate_disciple, recruited};
use crate::recruitment::{require_hall, ruined_text};
use crate::sect::{competence_fits, elder_competence_percent, spec_building_effectiveness, spec_elder_competence, building_index, building_level, clamp_i64_to_i32, find_building, is_first_building, sat32, trunc_div, Building, CreatedArt, SectAttributes, SectState};
use rand::rngs::StdRng;
use crate::text::text_eq;

verus! {

/// The texts of a result.
pub open spec fn result_text(r: Result<String, String>) -> Result<Seq<char>, Seq<char>> {
    match r {
        Ok(t) => Ok(t@),
        Err(t) => Err(t@),
    }
}

// ---------------------------------------------------------------------------
// Scaling.

/// The output of `base` at `e` percent effectiveness: the product (held in
/// `i32`) over 100, and at least 1.
pub open spec fn scaled(base: int, e: int) -> int {
    let v = trunc_div(sat32(base * (if e < 0 { 0 } else { e })), 100);
    if v < 1 { 1 } else { v }
}

/// The output of `base` at `effectiveness` percent (see `scaled`).
pub fn scaled_output(base: i32, effectiveness: i32) -> (r: i32)
    ensures
        r == scaled(base as int, effectiveness as int),
        r >= 1,
{
    let e: i64 = if effectiveness < 0 { 0 } else { effectiveness as i64 };
    proof {
        assert(-2147483648 * 2147483647 <= base as int * e <= 2147483647 * 2147483647) by (nonlinear_arith)
            requires
                -2147483648 <= base <= 2147483647,
                0 <= e <= 2147483647,
        ;
    }
    let m = clamp_i64_to_i32(base as i64 * e);
    let v = m / 100;
    if v < 1 { 1 } else { v }
}

/// A hall's effectiveness scaled by its elder's competence, both in percent.
pub open spec fn duty_effectiveness(hall: int, competence: int) -> int {
    trunc_div(sat32(hall * competence), 100)
}

// ---------------------------------------------------------------------------
// Duties that act on the sect's standing.

/// The value `v` raised by `g`, but not above `cap`.
pub open spec fn raised(v: int, g: int, cap: int) -> int {
    if v + g > cap { cap } else { v + g }
}

/// The sect's attributes `a` with morale set to `v`.
pub open spec fn with_attributes(s: GameState, a: SectAttributes) -> GameState {
    GameState { sect: SectState { attributes: a, ..s.sect }, ..s }
}

/// `instruct`: morale rises by `scaled(3, e)`, not above 100.
pub open spec fn instructed(s: GameState, e: int) -> (GameState, Seq<char>) {
    let g = scaled(3, e);
    let a = s.sect.attributes;
    (
        with_attributes(s, SectAttributes { morale: raised(a.morale as int, g, 100) as i32, ..a }),
        "整饬教习，门人志气提升"@ + int_text(g) + "点"@,
    )
}

fn instruct(state: &mut GameState, e: i32) -> (r: String)
    ensures
        (*final(state), r@) == instructed(*old(state), e as int),
{
    let g = scaled_output(3, e);
    let v: i64 = state.sect.attributes.morale as i64 + g as i64;
    state.sect.attributes.morale = if v > 100 { 100 } else { v as i32 };
    let mut t = String::from_str("整饬教习，门人志气提升");
    let n = int_string(g as i64);
    t.append(n.as_str());
    t.append("点");
    t
}

/// `scout`: prestige rises by `scaled(3, e)`, not above 1000.
pub open spec fn scouted(s: GameState, e: int) -> (GameState, Seq<char>) {
    let g = scaled(3, e);
    let a = s.sect.attributes;
    (
        with_attributes(s, SectAttributes { prestige: raised(a.prestige as int, g, 1000) as i32, ..a }),
        "遣人查探江湖消息，本派声望提升"@ + int_text(g) + "点"@,
    )
}

fn scout(state: &mut GameState, e: i32) -> (r: String)
    ensures
        (*final(state), r@) == scouted(*old(state), e as int),
{
    let g = scaled_output(3, e);
    let v: i64 = state.sect.attributes.prestige as i64 + g as i64;
    state.sect.attributes.prestige = if v > 1000 { 1000 } else { v as i32 };
    let mut t = String::from_str("遣人查探江湖消息，本派声望提升");
    let n = int_string(g as i64);
    t.append(n.as_str());
    t.append("点");
    t
}

/// `treat`: the head's injury falls by `scaled(8, e)`, not below 0.
pub open spec fn treated(s: GameState, e: int) -> (GameState, Seq<char>) {
    let g = scaled(8, e);
    (
        GameState { injury: (if s.injury - g < 0 { 0 } else { s.injury - g }) as i32, ..s },
        "亲自诊治，掌门伤势减轻"@ + int_text(g) + "点"@,
    )
}

fn treat(state: &mut GameState, e: i32) -> (r: String)
    ensures
        (*final(state), r@) == treated(*old(state), e as int),
{
    let g = scaled_output(8, e);
    let v: i64 = state.injury as i64 - g as i64;
    state.injury = if v < 0 { 0 } else { v as i32 };
    let mut t = String::from_str("亲自诊治，掌门伤势减轻");
    let n = int_string(g as i64);
    t.append(n.as_str());
    t.append("点");
    t
}

/// `correspond`: every relation of the sect rises by `scaled(2, e)`, not
/// above 100.
pub open spec fn corresponded(s: GameState, e: int, after: GameState, phrase: Seq<char>) -> bool {
    let g = scaled(2, e);
    &&& phrase == "修书诸派，各派交情提升"@ + int_text(g) + "点"@
    &&& forall|k: Seq<char>| after.sect.relations.has(k) == s.sect.relations.has(k)
    &&& forall|k: Seq<char>| #[trigger] s.sect.relations.has(k) ==> after.sect.relations.at(k) == raised(s.sect.relations.at(k) as int, g, 100)
    &&& after == (GameState { sect: SectState { relations: after.sect.relations, ..s.sect }, ..s })
}

fn correspond(state: &mut GameState, e: i32) -> (r: String)
    ensures
        corresponded(*old(state), e as int, *final(state), r@),
{
    let g = scaled_output(2, e);
    state.sect.relations.raise_all(g, 100);
    let mut t = String::from_str("修书诸派，各派交情提升");
    let n = int_string(g as i64);
    t.append(n.as_str());
    t.append("点");
    t
}

/// `arbitrate`, by the sect's moral direction: the righteous gain morality,
/// the neutral morale, the villainous lose morality and take silver; morality
/// and morale are then held within `0..=100`.
pub open spec fn arbitrated(s: GameState, e: int) -> (GameState, Seq<char>) {
    let a = s.sect.attributes;
    let (morality, morale, silver) = match s.sect.moral_direction {
        MoralDirection::Righteous => (a.morality + scaled(3, e), a.morale as int, a.silver as int),
        MoralDirection::Neutral => (a.morality as int, a.morale + scaled(2, e), a.silver as int),
        MoralDirection::Villainous => (a.morality - scaled(3, e), a.morale as int, a.silver + scaled(18, e)),
    };
    (
        with_attributes(s, SectAttributes {
            morality: crate::country::clamp_int(morality, 0, 100) as i32,
            morale: crate::country::clamp_int(morale, 0, 100) as i32,
            silver: silver as i32,
            ..a
        }),
        "依本派门风处置一桩江湖事务"@,
    )
}

/// The silver an arbitration may bring fits in `i32`.
pub open spec fn arbitration_fits(s: GameState, e: int) -> bool {
    s.sect.moral_direction == MoralDirection::Villainous ==> s.sect.attributes.silver + scaled(18, e) <= i32::MAX
}

fn arbitrate(state: &mut GameState, e: i32) -> (r: String)
    requires
        arbitration_fits(*old(state), e as int),
    ensures
        (*final(state), r@) == arbitrated(*old(state), e as int),
{
    let a = state.sect.attributes;
    let mut morality: i64 = a.morality as i64;
    let mut morale: i64 = a.morale as i64;
    let mut silver: i32 = a.silver;
    match state.sect.moral_direction {
        MoralDirection::Righteous => {
            morality = morality + scaled_output(3, e) as i64;
        },
        MoralDirection::Neutral => {
            morale = morale + scaled_output(2, e) as i64;
        },
        MoralDirection::Villainous => {
            morality = morality - scaled_output(3, e) as i64;
            silver = silver + scaled_output(18, e);
        },
    }
    state.sect.attributes.morality = if morality < 0 { 0 } else if morality > 100 { 100 } else { morality as i32 };
    state.sect.attributes.morale = if morale < 0 { 0 } else if morale > 100 { 100 } else { morale as i32 };
    state.sect.attributes.silver = silver;
    String::from_str("依本派门风处置一桩江湖事务")
}

/// The silver an audit may recover fits in `i32`.
pub open spec fn audit_fits(s: GameState, e: int) -> bool {
    s.sect.attributes.silver + scaled(24, e) <= i32::MAX
}

/// `audit` with the draw `roll` (in `0..=12`): silver rises by
/// `scaled(12 + roll, e)`.
pub open spec fn audited(s: GameState, e: int, roll: int) -> (GameState, Seq<char>) {
    let g = scaled(12 + roll, e);
    let a = s.sect.attributes;
    (with_attributes(s, SectAttributes { silver: (a.silver + g) as i32, ..a }), "清点旧账，追回库银"@ + int_text(g) + "两"@)
}

proof fn lemma_scaled_monotone(a: int, b: int, e: int)
    requires
        a <= b,
    ensures
        scaled(a, e) <= scaled(b, e),
{
    let f = if e < 0 { 0 } else { e };
    assert(a * f <= b * f) by (nonlinear_arith)
        requires
            a <= b,
            f >= 0,
    ;
}

fn audit(state: &mut GameState, e: i32, roll: i32) -> (r: String)
    requires
        0 <= roll <= 12,
        audit_fits(*old(state), e as int),
    ensures
        (*final(state), r@) == audited(*old(state), e as int, roll as int),
{
    let g = scaled_output(12 + roll, e);
    proof {
        lemma_scaled_monotone(12 + roll, 24, e as int);
    }
    state.sect.attributes.silver = state.sect.attributes.silver + g;
    let mut t = String::from_str("清点旧账，追回库银");
    let n = int_string(g as i64);
    t.append(n.as_str());
    t.append("两");
    t
}

// ---------------------------------------------------------------------------
// Duties that act on the roster and the halls.

/// `drill`: every living disciple gains `scaled(2, e)` merit.
pub open spec fn drilled_roster(ds: Seq<Disciple>, g: int) -> Seq<Disciple> {
    ds.map_values(|d: Disciple| if d.alive { Disciple { merit: (d.merit + g) as i64, ..d } } else { d })
}

/// The merit a drill adds fits in `i64`.
pub open spec fn drill_fits(s: GameState, e: int) -> bool {
    forall|i: int| 0 <= i < s.disciples@.len() ==> (#[trigger] s.disciples@[i]).merit + scaled(2, e) <= i64::MAX
}

/// `drill` (see `drilled_roster`).
pub open spec fn drilled(s: GameState, e: int) -> (GameState, Seq<char>) {
    let g = scaled(2, e);
    (GameState { disciples: s.disciples, ..s }, "主持月考，门人各添"@ + int_text(g) + "点功绩"@)
}

fn drill(state: &mut GameState, e: i32) -> (r: String)
    requires
        drill_fits(*old(state), e as int),
    ensures
        final(state).disciples@ == drilled_roster(old(state).disciples@, scaled(2, e as int)),
        *final(state) == (GameState { disciples: final(state).disciples, ..*old(state) }),
        r@ == drilled(*old(state), e as int).1,
{
    let g = scaled_output(2, e);
    let ghost ds = state.disciples@;
    let n = state.disciples.len();
    let mut i: usize = 0;
    while i < n
        invariant
            n == ds.len(),
            state.disciples@.len() == n,
            i <= n,
            g >= 1,
            forall|j: int| 0 <= j < n ==> ds[j].merit + g <= i64::MAX,
            forall|j: int| 0 <= j < n ==> #[trigger] state.disciples@[j] == (if j < i {
                drilled_roster(ds, g as int)[j]
            } else {
                ds[j]
            }),
            *state == (GameState { disciples: state.disciples, ..*old(state) }),
        decreases n - i,
    {
        assert(state.disciples@[i as int] == ds[i as int]);
        let m: i64 = state.disciples[i].merit;
        if state.disciples[i].alive {
            state.disciples[i].merit = m + g as i64;
        }
        i = i + 1;
    }
    assert(state.disciples@ =~= drilled_roster(ds, g as int));
    let mut t = String::from_str("主持月考，门人各添");
    let m = int_string(g as i64);
    t.append(m.as_str());
    t.append("点功绩");
    t
}

/// `maintain`: with 8 silver and 2 iron at hand they are spent and every hall
/// recovers `scaled(4, e)` condition, else `scaled(2, e)`; never above 100.
pub open spec fn maintained_halls(bs: Seq<Building>, g: int) -> Seq<Building> {
    bs.map_values(|b: Building| Building { condition: raised(b.condition as int, g, 100) as i32, ..b })
}

/// Whether maintenance finds its silver and iron.
pub open spec fn maintenance_supplied(s: GameState) -> bool {
    s.sect.attributes.silver >= 8 && s.sect.inventory.amount("精铁"@) >= 2
}

fn maintain(state: &mut GameState, e: i32) -> (r: String)
    ensures
        ({
            let s = *old(state);
            let supplied = maintenance_supplied(s);
            let g = scaled(if supplied { 4 } else { 2 }, e as int);
            &&& final(state).sect.buildings@ == maintained_halls(s.sect.buildings@, g)
            &&& if supplied {
                &&& final(state).sect.attributes == (SectAttributes { silver: (s.sect.attributes.silver - 8) as i32, ..s.sect.attributes })
                &&& final(state).sect.inventory.amount("精铁"@) == s.sect.inventory.amount("精铁"@) - 2
                &&& forall|k: Seq<char>| k != "精铁"@ ==> #[trigger] final(state).sect.inventory.has(k) == s.sect.inventory.has(k)
                &&& forall|k: Seq<char>| k != "精铁"@ && #[trigger] s.sect.inventory.has(k) ==> final(state).sect.inventory.at(k) == s.sect.inventory.at(k)
                &&& final(state).sect.inventory.has("精铁"@)
                &&& r@ == "耗库银八两、精铁两份巡检诸堂，所有建筑完好度恢复"@ + int_text(g) + "点"@
            } else {
                &&& final(state).sect.attributes == s.sect.attributes
                &&& final(state).sect.inventory == s.sect.inventory
                &&& r@ == "库银或精铁不足，仅作最低限度维护，所有建筑完好度恢复"@ + int_text(g) + "点"@
            }
            &&& *final(state) == (GameState {
                sect: SectState {
                    buildings: final(state).sect.buildings,
                    attributes: final(state).sect.attributes,
                    inventory: final(state).sect.inventory,
                    ..s.sect
                },
                ..s
            })
        }),
{
    proof {
        reveal_strlit("精铁");
    }
    let supplied = state.sect.attributes.silver >= 8 && state.sect.inventory.amount_of("精铁") >= 2;
    let base: i32 = if supplied {
        state.sect.attributes.silver = state.sect.attributes.silver - 8;
        state.sect.inventory.add("精铁", -2);
        4
    } else {
        2
    };
    let g = scaled_output(base, e);
    let ghost bs = state.sect.buildings@;
    let ghost mid = *state;
    let n = state.sect.buildings.len();
    let mut i: usize = 0;
    while i < n
        invariant
            n == bs.len(),
            state.sect.buildings@.len() == n,
            i <= n,
            forall|j: int| 0 <= j < n ==> #[trigger] state.sect.buildings@[j] == (if j < i {
                maintained_halls(bs, g as int)[j]
            } else {
                bs[j]
            }),
            *state == (GameState { sect: SectState { buildings: state.sect.buildings, ..mid.sect }, ..mid }),
        decreases n - i,
    {
        let c: i64 = state.sect.buildings[i].condition as i64 + g as i64;
        state.sect.buildings[i].condition = if c > 100 { 100 } else { c as i32 };
        i = i + 1;
    }
    assert(state.sect.buildings@ =~= maintained_halls(bs, g as int));
    let mut t = if supplied {
        String::from_str("耗库银八两、精铁两份巡检诸堂，所有建筑完好度恢复")
    } else {
        String::from_str("库银或精铁不足，仅作最低限度维护，所有建筑完好度恢复")
    };
    let m = int_string(g as i64);
    t.append(m.as_str());
    t.append("点");
    t
}

/// `supervise`: every hall under construction gains `scaled(6, e)` invested
/// work, not beyond the work it needs.
pub open spec fn supervised_halls(bs: Seq<Building>, g: int) -> Seq<Building> {
    bs.map_values(
        |b: Building|
            if b.work_required > 0 {
                Building {
                    work_invested: (if b.work_invested + g > b.work_required { b.work_required as int } else { b.work_invested + g }) as i32,
                    ..b
                }
            } else {
                b
            },
    )
}

fn supervise(state: &mut GameState, e: i32) -> (r: String)
    ensures
        final(state).sect.buildings@ == supervised_halls(old(state).sect.buildings@, scaled(6, e as int)),
        *final(state) == (GameState { sect: SectState { buildings: final(state).sect.buildings, ..old(state).sect }, ..*old(state) }),
        r@ == "亲临工地督造，各处营造进度增加"@ + int_text(scaled(6, e as int)) + "点"@,
{
    let g = scaled_output(6, e);
    let ghost bs = state.sect.buildings@;
    let n = state.sect.buildings.len();
    let mut i: usize = 0;
    while i < n
        invariant
            n == bs.len(),
            state.sect.buildings@.len() == n,
            i <= n,
            forall|j: int| 0 <= j < n ==> #[trigger] state.sect.buildings@[j] == (if j < i {
                supervised_halls(bs, g as int)[j]
            } else {
                bs[j]
            }),
            *state == (GameState { sect: SectState { buildings: state.sect.buildings, ..old(state).sect }, ..*old(state) }),
        decreases n - i,
    {
        if state.sect.buildings[i].work_required > 0 {
            let v: i64 = state.sect.buildings[i].work_invested as i64 + g as i64;
            let req = state.sect.buildings[i].work_required;
            state.sect.buildings[i].work_invested = if v > req as i64 { req } else { v as i32 };
        }
        i = i + 1;
    }
    assert(state.sect.buildings@ =~= supervised_halls(bs, g as int));
    let mut t = String::from_str("亲临工地督造，各处营造进度增加");
    let m = int_string(g as i64);
    t.append(m.as_str());
    t.append("点");
    t
}

// ---------------------------------------------------------------------------
// Duties that act on the stores.

/// The stock `after` is `before` with `delta` more of `item`, the entry for
/// `item` present, and every other entry as it was.
pub open spec fn stock_moved(before: Ledger<i32>, after: Ledger<i32>, item: Seq<char>, delta: int) -> bool {
    &&& after.has(item)
    &&& after.amount(item) == before.amount(item) + delta
    &&& forall|k: Seq<char>| k != item ==> #[trigger] after.has(k) == before.has(k)
    &&& forall|k: Seq<char>| k != item && #[trigger] before.has(k) ==> after.at(k) == before.at(k)
}

/// The herbs a purchase adds fit in `i32`.
pub open spec fn purchase_fits(s: GameState, e: int) -> bool {
    s.sect.inventory.amount("草药"@) + scaled(5, e) <= i32::MAX
}

/// `purchase`: refused under 15 silver; otherwise 15 silver buy
/// `scaled(5, e)` herbs.
pub open spec fn purchased(s: GameState, e: int, after: GameState, r: Result<Seq<char>, Seq<char>>) -> bool {
    let a = s.sect.attributes;
    if a.silver < 15 {
        r == Err::<Seq<char>, Seq<char>>("库银不足以采买物资。"@) && after == s
    } else {
        let q = scaled(5, e);
        &&& r == Ok::<Seq<char>, Seq<char>>("下山采买，耗库银十五两，为库中添了"@ + int_text(q) + "份草药"@)
        &&& stock_moved(s.sect.inventory, after.sect.inventory, "草药"@, q)
        &&& after == (GameState {
            sect: SectState {
                attributes: SectAttributes { silver: (a.silver - 15) as i32, ..a },
                inventory: after.sect.inventory,
                ..s.sect
            },
            ..s
        })
    }
}

fn purchase(state: &mut GameState, e: i32) -> (r: Result<String, String>)
    requires
        purchase_fits(*old(state), e as int),
    ensures
        purchased(*old(state), e as int, *final(state), result_text(r)),
{
    if state.sect.attributes.silver < 15 {
        return Err(String::from_str("库银不足以采买物资。"));
    }
    let q = scaled_output(5, e);
    proof {
        reveal_strlit("草药");
    }
    state.sect.attributes.silver = state.sect.attributes.silver - 15;
    state.sect.inventory.add("草药", q);
    let mut t = String::from_str("下山采买，耗库银十五两，为库中添了");
    let n = int_string(q as i64);
    t.append(n.as_str());
    t.append("份草药");
    Ok(t)
}

// ---------------------------------------------------------------------------
// Duties that raise the sect's research.

/// Research held for `book`, or 50 for a book never researched.
pub open spec fn research_base(m: Map<Seq<char>, i64>, book: Seq<char>) -> int {
    if m.contains_key(book) { m[book] as int } else { 50 }
}

/// The research after adding `g` for each of the first `n` public books that
/// is a combat art.
pub open spec fn curated(m: Map<Seq<char>, i64>, books: Seq<String>, created: Seq<CreatedArt>, g: int, n: int) -> Map<Seq<char>, i64>
    decreases n,
{
    if n <= 0 {
        m
    } else {
        let prev = curated(m, books, created, g, n - 1);
        let b = books[n - 1]@;
        if art_combat(b, created) == Some(true) {
            prev.insert(b, (research_base(prev, b) + g) as i64)
        } else {
            prev
        }
    }
}

/// Each addition of curation fits in `i64`.
pub open spec fn curation_fits(m: Map<Seq<char>, i64>, books: Seq<String>, created: Seq<CreatedArt>, g: int, n: int) -> bool
    decreases n,
{
    if n <= 0 {
        true
    } else {
        let prev = curated(m, books, created, g, n - 1);
        let b = books[n - 1]@;
        &&& curation_fits(m, books, created, g, n - 1)
        &&& (art_combat(b, created) == Some(true) ==> research_base(prev, b) + g <= i64::MAX)
    }
}

pub(crate) fn add_research(research: &mut Ledger<i64>, book: &str, g: i32)
    requires
        research_base(old(research).as_map(), book@) + g <= i64::MAX,
        g >= 1,
    ensures
        final(research).as_map() == old(research).as_map().insert(book@, (research_base(old(research).as_map(), book@) + g) as i64),
{
    let base: i64 = match research.get(book) {
        Some(v) => v,
        None => 50,
    };
    research.insert(book, base + g as i64);
    assert(research.as_map() =~= old(research).as_map().insert(book@, (base + g) as i64));
}

/// `curate`: every public combat book gains `scaled(4, e)` research (see
/// `curated`).
fn curate(state: &mut GameState, e: i32) -> (r: String)
    requires
        curation_fits(
            old(state).sect.martial_research.as_map(),
            old(state).sect.public_books@,
            old(state).sect.created_martial_arts@,
            scaled(4, e as int),
            old(state).sect.public_books@.len() as int,
        ),
    ensures
        final(state).sect.martial_research.as_map() == curated(
            old(state).sect.martial_research.as_map(),
            old(state).sect.public_books@,
            old(state).sect.created_martial_arts@,
            scaled(4, e as int),
            old(state).sect.public_books@.len() as int,
        ),
        *final(state) == (GameState { sect: SectState { martial_research: final(state).sect.martial_research, ..old(state).sect }, ..*old(state) }),
        r@ == "校勘武学群籍，各册门派可授上限提升"@ + int_text(scaled(4, e as int)) + "级"@,
{
    let g = scaled_output(4, e);
    let ghost m = state.sect.martial_research.as_map();
    let n = state.sect.public_books.len();
    let mut i: usize = 0;
    while i < n
        invariant
            n == state.sect.public_books@.len(),
            i <= n,
            g >= 1,
            g == scaled(4, e as int),
            m == old(state).sect.martial_research.as_map(),
            curation_fits(m, state.sect.public_books@, state.sect.created_martial_arts@, g as int, n as int),
            state.sect.martial_research.as_map() == curated(m, state.sect.public_books@, state.sect.created_martial_arts@, g as int, i as int),
            *state == (GameState { sect: SectState { martial_research: state.sect.martial_research, ..old(state).sect }, ..*old(state) }),
        decreases n - i,
    {
        proof {
            lemma_curation_fits_prefix(m, state.sect.public_books@, state.sect.created_martial_arts@, g as int, i as int + 1, n as int);
        }
        if art_is_combat(state.sect.public_books[i].as_str(), &state.sect.created_martial_arts) == Some(true) {
            let book = state.sect.public_books[i].clone();
            add_research(&mut state.sect.martial_research, book.as_str(), g);
        }
        i = i + 1;
    }
    let mut t = String::from_str("校勘武学群籍，各册门派可授上限提升");
    let k = int_string(g as i64);
    t.append(k.as_str());
    t.append("级");
    t
}

proof fn lemma_curation_fits_prefix(m: Map<Seq<char>, i64>, books: Seq<String>, created: Seq<CreatedArt>, g: int, a: int, b: int)
    requires
        0 <= a <= b,
        curation_fits(m, books, created, g, b),
    ensures
        curation_fits(m, books, created, g, a),
    decreases b - a,
{
    if a < b {
        lemma_curation_fits_prefix(m, books, created, g, a, b - 1);
    }
}

/// The first public book from position `i` on that is a combat art.
pub open spec fn first_combat_book(books: Seq<String>, created: Seq<CreatedArt>, i: int) -> Option<Seq<char>>
    decreases books.len() - i,
{
    if i < 0 || i >= books.len() {
        None
    } else if art_combat(books[i]@, created) == Some(true) {
        Some(books[i]@)
    } else {
        first_combat_book(books, created, i + 1)
    }
}

pub(crate) fn first_combat_index(books: &Vec<String>, created: &Vec<CreatedArt>) -> (r: Option<usize>)
    ensures
        match r {
            Some(i) => i < books@.len() && first_combat_book(books@, created@, 0) == Some(books@[i as int]@),
            None => first_combat_book(books@, created@, 0) is None,
        },
{
    let n = books.len();
    let mut i: usize = 0;
    while i < n
        invariant
            n == books@.len(),
            i <= n,
            first_combat_book(books@, created@, 0) == first_combat_book(books@, created@, i as int),
        decreases n - i,
    {
        if art_is_combat(books[i].as_str(), created) == Some(true) {
            return Some(i);
        }
        i = i + 1;
    }
    None
}

/// `comprehend`: the first public combat book gains `scaled(18, e)` research.
pub open spec fn comprehended(m: Map<Seq<char>, i64>, book: Option<Seq<char>>, g: int) -> Map<Seq<char>, i64> {
    match book {
        Some(b) => m.insert(b, (research_base(m, b) + g) as i64),
        None => m,
    }
}

/// The research comprehension adds fits in `i64`.
pub open spec fn comprehension_fits(s: GameState, e: int) -> bool {
    match first_combat_book(s.sect.public_books@, s.sect.created_martial_arts@, 0) {
        Some(b) => research_base(s.sect.martial_research.as_map(), b) + scaled(18, e) <= i64::MAX,
        None => true,
    }
}

fn comprehend(state: &mut GameState, e: i32) -> (r: String)
    requires
        comprehension_fits(*old(state), e as int),
    ensures
        final(state).sect.martial_research.as_map() == comprehended(
            old(state).sect.martial_research.as_map(),
            first_combat_book(old(state).sect.public_books@, old(state).sect.created_martial_arts@, 0),
            scaled(18, e as int),
        ),
        *final(state) == (GameState { sect: SectState { martial_research: final(state).sect.martial_research, ..old(state).sect }, ..*old(state) }),
        r@ == "邀集门人合参一册武学，其门派可授上限提升"@ + int_text(scaled(18, e as int)) + "级"@,
{
    let g = scaled_output(18, e);
    match first_combat_index(&state.sect.public_books, &state.sect.created_martial_arts) {
        Some(i) => {
            let book = state.sect.public_books[i].clone();
            add_research(&mut state.sect.martial_research, book.as_str(), g);
        },
        None => {},
    }
    let mut t = String::from_str("邀集门人合参一册武学，其门派可授上限提升");
    let k = int_string(g as i64);
    t.append(k.as_str());
    t.append("级");
    t
}

// ---------------------------------------------------------------------------
// Brewing.

/// How readily a pill is brewed when no recipe is named: 9 for the pills
/// of regular pace (wound and qi), 3 for the slow foundation pill.
pub open spec fn rate_weight(m: Medicine) -> int {
    match m {
        Medicine::Wound => 9,
        Medicine::Qi => 9,
        Medicine::Foundation => 3,
    }
}

/// The recipes an elder may pick from, in catalogue order: wound, qi and
/// foundation pills (the recipes of `recipe_of`).
pub open spec fn catalog_recipe(i: int) -> PillRecipe {
    if i == 0 {
        PillRecipe { medicine: Medicine::Wound, herb_cost: 4, quantity: 2, months: 1, silver_cost: 8 }
    } else if i == 1 {
        PillRecipe { medicine: Medicine::Qi, herb_cost: 6, quantity: 1, months: 2, silver_cost: 12 }
    } else {
        PillRecipe { medicine: Medicine::Foundation, herb_cost: 12, quantity: 1, months: 3, silver_cost: 20 }
    }
}

/// The recipe the draw `roll` lands on, for `herbs` herbs in store.
pub open spec fn drawn_recipe(herbs: int, roll: int) -> PillRecipe {
    catalog_recipe(choose|i: int| lands_at(brew_weights(herbs), roll, i))
}

/// `r` is one of the catalogue's recipes.
pub open spec fn is_catalog_recipe(r: PillRecipe) -> bool {
    r == catalog_recipe(0) || r == catalog_recipe(1) || r == catalog_recipe(2)
}

/// Weight of a recipe when no recipe is named: its rate weight, tripled when
/// the herbs suffice for it.
pub open spec fn brew_weight(r: PillRecipe, herbs: int) -> int {
    if herbs < r.herb_cost { rate_weight(r.medicine) } else { rate_weight(r.medicine) * 3 }
}

/// Weight of `recipe` for an elder who brews without a named recipe (see
/// `brew_weight`).
pub fn elder_brew_weight(recipe: PillRecipe, herbs: i32) -> (r: i32)
    ensures
        r == brew_weight(recipe, herbs as int),
        1 <= r <= 27,
{
    let w: i32 = match recipe.medicine {
        Medicine::Wound => 9,
        Medicine::Qi => 9,
        Medicine::Foundation => 3,
    };
    if herbs < recipe.herb_cost { w } else { w * 3 }
}

/// The weights of the catalogue's recipes for `herbs` herbs in store.
pub open spec fn brew_weights(herbs: int) -> Seq<u32> {
    seq![
        brew_weight(catalog_recipe(0), herbs) as u32,
        brew_weight(catalog_recipe(1), herbs) as u32,
        brew_weight(catalog_recipe(2), herbs) as u32,
    ]
}

fn catalog_recipe_at(i: usize) -> (r: PillRecipe)
    requires
        i < 3,
    ensures
        r == catalog_recipe(i as int),
{
    if i == 0 {
        PillRecipe { medicine: Medicine::Wound, herb_cost: 4, quantity: 2, months: 1, silver_cost: 8 }
    } else if i == 1 {
        PillRecipe { medicine: Medicine::Qi, herb_cost: 6, quantity: 1, months: 2, silver_cost: 12 }
    } else {
        PillRecipe { medicine: Medicine::Foundation, herb_cost: 12, quantity: 1, months: 3, silver_cost: 20 }
    }
}

/// The pills a brew may add fit in `i32`, whichever recipe is brewed.
pub open spec fn brew_fits(s: GameState, e: int) -> bool {
    forall|m: Medicine| s.sect.inventory.amount(medicine_label(m)) + #[trigger] scaled(quantity_of(m), e) <= i32::MAX
}

/// Pills one brew of `m` yields before scaling.
pub open spec fn quantity_of(m: Medicine) -> int {
    match m {
        Medicine::Wound => 2,
        Medicine::Qi => 1,
        Medicine::Foundation => 1,
    }
}

/// A brew of `recipe`: refused when herbs or silver are short; otherwise the
/// herbs and silver are spent and `scaled(quantity, e)` pills stored.
pub open spec fn brewed(s: GameState, e: int, recipe: PillRecipe, after: GameState, r: Result<Seq<char>, Seq<char>>) -> bool {
    let herbs = s.sect.inventory.amount("草药"@);
    let a = s.sect.attributes;
    let name = medicine_label(recipe.medicine);
    if herbs < recipe.herb_cost {
        r == Err::<Seq<char>, Seq<char>>("炼制"@ + name + "尚缺"@ + int_text(recipe.herb_cost - herbs) + "份草药。"@) && after == s
    } else if a.silver < recipe.silver_cost {
        r == Err::<Seq<char>, Seq<char>>("炼制"@ + name + "尚缺"@ + int_text(recipe.silver_cost - a.silver) + "两库银。"@) && after == s
    } else {
        let q = scaled(recipe.quantity as int, e);
        &&& r == Ok::<Seq<char>, Seq<char>>(
            "试炼一炉"@ + name + "，耗草药"@ + int_text(recipe.herb_cost as int) + "份、库银"@ + int_text(recipe.silver_cost as int)
                + "两，得药"@ + int_text(q) + "份"@,
        )
        &&& exists|mid: Ledger<i32>|
            stock_moved(s.sect.inventory, mid, "草药"@, -recipe.herb_cost) && #[trigger] stock_moved(mid, after.sect.inventory, name, q)
        &&& after == (GameState {
            sect: SectState {
                attributes: SectAttributes { silver: (a.silver - recipe.silver_cost) as i32, ..a },
                inventory: after.sect.inventory,
                ..s.sect
            },
            ..s
        })
    }
}

fn brew(state: &mut GameState, e: i32, recipe: PillRecipe) -> (r: Result<String, String>)
    requires
        brew_fits(*old(state), e as int),
        is_catalog_recipe(recipe),
    ensures
        brewed(*old(state), e as int, recipe, *final(state), result_text(r)),
{
    proof {
        reveal_strlit("草药");
        reveal_strlit("金疮药");
        reveal_strlit("养气丹");
        reveal_strlit("培元丹");
    }
    let herbs = state.sect.inventory.amount_of("草药");
    let name = medicine_name(recipe.medicine);
    if herbs < recipe.herb_cost {
        let mut t = String::from_str("炼制");
        t.append(name);
        t.append("尚缺");
        let n = int_string(recipe.herb_cost as i64 - herbs as i64);
        t.append(n.as_str());
        t.append("份草药。");
        return Err(t);
    }
    if state.sect.attributes.silver < recipe.silver_cost {
        let mut t = String::from_str("炼制");
        t.append(name);
        t.append("尚缺");
        let n = int_string(recipe.silver_cost as i64 - state.sect.attributes.silver as i64);
        t.append(n.as_str());
        t.append("两库银。");
        return Err(t);
    }
    let q = scaled_output(recipe.quantity, e);
    assert(state.sect.inventory.amount(medicine_label(recipe.medicine)) + scaled(quantity_of(recipe.medicine), e as int) <= i32::MAX);
    state.sect.attributes.silver = state.sect.attributes.silver - recipe.silver_cost;
    state.sect.inventory.add("草药", -recipe.herb_cost);
    let ghost mid = state.sect.inventory;
    state.sect.inventory.add(name, q);
    assert(stock_moved(mid, state.sect.inventory, medicine_label(recipe.medicine), q as int));
    let mut t = String::from_str("试炼一炉");
    t.append(name);
    t.append("，耗草药");
    let a = int_string(recipe.herb_cost as i64);
    t.append(a.as_str());
    t.append("份、库银");
    let b = int_string(recipe.silver_cost as i64);
    t.append(b.as_str());
    t.append("两，得药");
    let c = int_string(q as i64);
    t.append(c.as_str());
    t.append("份");
    Ok(t)
}

// ---------------------------------------------------------------------------
// Recruiting by the affairs elder.

/// `recruit` with the newcomer `d`: refused under 25 silver; otherwise 25
/// silver are spent and `d` joins as a chore disciple.
pub open spec fn elder_recruited(s: GameState, d: Disciple, after: GameState, r: Result<Seq<char>, Seq<char>>) -> bool {
    let a = s.sect.attributes;
    if a.silver < 25 {
        r == Err::<Seq<char>, Seq<char>>("库银不足以张罗纳徒。"@) && after == s
    } else {
        &&& r == Ok::<Seq<char>, Seq<char>>("代掌门访得一名新人，先收入杂役名册"@)
        &&& recruited(d, trunc_div(a.prestige as int, 20))
        &&& after.disciples@ == s.disciples@.push(Disciple { rank: DiscipleRank::Chore, ..d })
        &&& after == (GameState {
            disciples: after.disciples,
            sect: SectState { attributes: SectAttributes { silver: (a.silver - 25) as i32, ..a }, ..s.sect },
            ..s
        })
    }
}

fn elder_recruit(rng: &mut StdRng, state: &mut GameState) -> (r: Result<String, String>)
    requires
        old(state).disciples@.len() < usize::MAX,
    ensures
        exists|d: Disciple| #[trigger] elder_recruited(*old(state), d, *final(state), result_text(r)),
{
    if state.sect.attributes.silver < 25 {
        let r = Err(String::from_str("库银不足以张罗纳徒。"));
        assert(elder_recruited(*old(state), vstd::pervasive::arbitrary::<Disciple>(), *state, Err("库银不足以张罗纳徒。"@)));
        return r;
    }
    state.sect.attributes.silver = state.sect.attributes.silver - 25;
    let mut d = generate_disciple(rng, state.sect.attributes.prestige / 20);
    let ghost drawn = d;
    d.rank = DiscipleRank::Chore;
    state.disciples.push(d);
    assert(elder_recruited(*old(state), drawn, *state, Ok("代掌门访得一名新人，先收入杂役名册"@)));
    Ok(String::from_str("代掌门访得一名新人，先收入杂役名册"))
}

// ---------------------------------------------------------------------------
// Expansion by the logistics elder.

/// A hall that may be raised: nothing is under construction there, and it is
/// the logistics office or below the office's level `ll`.
pub open spec fn expandable(b: Building, ll: int) -> bool {
    b.work_required == 0 && (b.kind == BuildingKind::Logistics || b.level < ll)
}

/// The halls among the first `n` that may be raised, in order.
pub open spec fn expandables(bs: Seq<Building>, ll: int, n: int) -> Seq<Building>
    decreases n,
{
    if n <= 0 {
        Seq::empty()
    } else {
        let rest = expandables(bs, ll, n - 1);
        if expandable(bs[n - 1], ll) { rest.push(bs[n - 1]) } else { rest }
    }
}

/// The highest level among the first `n` halls of `cs`.
pub open spec fn top_level(cs: Seq<Building>, n: int) -> int
    decreases n,
{
    if n <= 0 {
        i32::MIN as int
    } else {
        let m = top_level(cs, n - 1);
        if cs[n - 1].level > m { cs[n - 1].level as int } else { m }
    }
}

/// The draw weights of the halls `cs` when none is named: one more than the
/// levels they lag behind the highest.
pub open spec fn expansion_weights(cs: Seq<Building>) -> Seq<u32> {
    let top = top_level(cs, cs.len() as int);
    Seq::new(cs.len(), |i: int| (top - cs[i].level + 1) as u32)
}

/// The hall of `cs` the draw `roll` lands on.
pub open spec fn drawn_hall(cs: Seq<Building>, roll: int) -> Seq<char> {
    cs[choose|i: int| lands_at(expansion_weights(cs), roll, i)].id@
}

/// Some hall of `cs` has id `id`.
pub open spec fn offered(cs: Seq<Building>, id: Seq<char>) -> bool {
    exists|j: int| 0 <= j < cs.len() && (#[trigger] cs[j]).id@ == id
}

/// The hall to raise: the named one when it may be raised, else the drawn one.
pub open spec fn expansion_pick(cs: Seq<Building>, target: Option<String>, roll: int) -> Seq<char> {
    match target {
        Some(t) => if offered(cs, t@) { t@ } else { drawn_hall(cs, roll) },
        None => drawn_hall(cs, roll),
    }
}

/// The halls that may be raised in `s`.
pub open spec fn expansion_candidates(s: GameState) -> Seq<Building> {
    expandables(s.sect.buildings@, level_of(s.sect, "logistics"@), s.sect.buildings@.len() as int)
}

/// The arithmetic of an expansion fits the machine integers: levels within a
/// million either way, the draw weights summing within `i32`, and the costs
/// within `i32` for every hall.
pub open spec fn expansion_fits(s: GameState) -> bool {
    &&& halls_modest(s.sect)
    &&& weight_total(expansion_weights(expansion_candidates(s))) <= i32::MAX
    &&& forall|i: int| 0 <= i < s.sect.buildings@.len() ==> {
        &&& s.sect.attributes.silver - upgrade_cost((#[trigger] s.sect.buildings@[i]).level as int).0 <= i32::MAX
        &&& s.sect.inventory.amount("精铁"@) - upgrade_cost(s.sect.buildings@[i].level as int).1 <= i32::MAX
    }
}

/// `expand` with the draw `roll`: refused when no hall may be raised;
/// otherwise the picked hall (see `expansion_pick`) is set to be raised as by
/// the head's own order, paying silver and iron (refused when short).
pub open spec fn expanded(s: GameState, target: Option<String>, roll: int, after: GameState, r: Result<Seq<char>, Seq<char>>) -> bool {
    let cs = expansion_candidates(s);
    if cs.len() == 0 {
        r == Err::<Seq<char>, Seq<char>>("眼下各处皆在施工，无处可再立项扩建。"@) && after == s
    } else {
        let ti = building_index(s.sect.buildings@, expansion_pick(cs, target, roll));
        let b = s.sect.buildings@[ti];
        let (silver, iron) = upgrade_cost(b.level as int);
        let stock = s.sect.inventory.amount("精铁"@);
        if stock < iron {
            r == Err::<Seq<char>, Seq<char>>(stock_short_text("精铁"@, iron - stock)) && after == s
        } else if s.sect.attributes.silver < silver {
            r == Err::<Seq<char>, Seq<char>>(silver_short_text(silver - s.sect.attributes.silver)) && after == s
        } else {
            &&& 0 <= ti
            &&& r == Ok::<Seq<char>, Seq<char>>(
                "拨库银"@ + int_text(silver) + "两、精铁"@ + int_text(iron) + "份督率杂役扩建"@ + b.name@ + "，立项"@
                    + int_text((b.level + 1) * 20) + "点工作量"@,
            )
            &&& after.sect.buildings@ == s.sect.buildings@.update(ti, under_construction(b))
            &&& stock_moved(s.sect.inventory, after.sect.inventory, "精铁"@, -iron)
            &&& after == (GameState {
                sect: SectState {
                    buildings: after.sect.buildings,
                    attributes: SectAttributes { silver: (s.sect.attributes.silver - silver) as i32, ..s.sect.attributes },
                    inventory: after.sect.inventory,
                    ..s.sect
                },
                ..s
            })
        }
    }
}

pub proof fn lemma_top_bounds(cs: Seq<Building>, n: int)
    requires
        0 <= n <= cs.len(),
    ensures
        forall|j: int| 0 <= j < n ==> (#[trigger] cs[j]).level <= top_level(cs, n),
        n > 0 ==> exists|j: int| 0 <= j < n && (#[trigger] cs[j]).level == top_level(cs, n),
    decreases n,
{
    if n > 0 {
        lemma_top_bounds(cs, n - 1);
        if cs[n - 1].level > top_level(cs, n - 1) {
            assert(cs[n - 1].level == top_level(cs, n));
        } else if n - 1 > 0 {
            let w = choose|j: int| 0 <= j < n - 1 && (#[trigger] cs[j]).level == top_level(cs, n - 1);
            assert(cs[w].level == top_level(cs, n));
        } else {
            assert(cs[0].level == top_level(cs, n));
        }
    }
}

pub proof fn lemma_expandables_from(bs: Seq<Building>, ll: int, n: int)
    requires
        0 <= n <= bs.len(),
    ensures
        expandables(bs, ll, n).len() <= n,
        forall|k: int| 0 <= k < expandables(bs, ll, n).len() ==> exists|j: int| 0 <= j < n && bs[j] == #[trigger] expandables(bs, ll, n)[k],
    decreases n,
{
    if n > 0 {
        lemma_expandables_from(bs, ll, n - 1);
        let prev = expandables(bs, ll, n - 1);
        assert forall|k: int| 0 <= k < expandables(bs, ll, n).len() implies exists|j: int| 0 <= j < n && bs[j] == #[trigger] expandables(bs, ll, n)[k] by {
            if k < prev.len() {
                assert(expandables(bs, ll, n)[k] == prev[k]);
                let j = choose|j: int| 0 <= j < n - 1 && bs[j] == #[trigger] prev[k];
                assert(0 <= j < n && bs[j] == expandables(bs, ll, n)[k]);
            } else {
                assert(bs[n - 1] == expandables(bs, ll, n)[k]);
            }
        }
    }
}

proof fn lemma_weights_positive(cs: Seq<Building>)
    requires
        cs.len() > 0,
        forall|j: int| 0 <= j < cs.len() ==> -1_000_000 <= (#[trigger] cs[j]).level <= 1_000_000,
    ensures
        weight_total(expansion_weights(cs)) >= 1,
        forall|j: int| 0 <= j < cs.len() ==> #[trigger] expansion_weights(cs)[j] == top_level(cs, cs.len() as int) - cs[j].level + 1,
{
    let n = cs.len() as int;
    lemma_top_bounds(cs, n);
    let ws = expansion_weights(cs);
    assert forall|j: int| 0 <= j < n implies #[trigger] ws[j] == top_level(cs, n) - cs[j].level + 1 by {
        let w = choose|w: int| 0 <= w < n && (#[trigger] cs[w]).level == top_level(cs, n);
        assert(cs[w].level <= 1_000_000);
    }
    lemma_prefix_monotone(ws, 1, n);
    assert(weight_prefix(ws, 1) == weight_prefix(ws, 0) + ws[0]);
}

fn expansion_list(bs: &Vec<Building>, ll: i32) -> (r: Vec<usize>)
    ensures
        r@.len() == expandables(bs@, ll as int, bs@.len() as int).len(),
        forall|k: int| 0 <= k < r@.len() ==> (#[trigger] r@[k]) < bs@.len() && bs@[r@[k] as int] == expandables(bs@, ll as int, bs@.len() as int)[k],
{
    let mut r: Vec<usize> = Vec::new();
    let mut i: usize = 0;
    while i < bs.len()
        invariant
            i <= bs@.len(),
            r@.len() == expandables(bs@, ll as int, i as int).len(),
            forall|k: int| 0 <= k < r@.len() ==> (#[trigger] r@[k]) < i && bs@[r@[k] as int] == expandables(bs@, ll as int, i as int)[k],
        decreases bs@.len() - i,
    {
        let b = &bs[i];
        if b.work_required == 0 && (b.kind == BuildingKind::Logistics || b.level < ll) {
            r.push(i);
        }
        i = i + 1;
    }
    r
}

fn expansion_draw_weights(bs: &Vec<Building>, cands: &Vec<usize>, Ghost(cs): Ghost<Seq<Building>>) -> (ws: Vec<u32>)
    requires
        cs.len() == cands@.len(),
        cs.len() > 0,
        forall|k: int| 0 <= k < cands@.len() ==> (#[trigger] cands@[k]) < bs@.len() && bs@[cands@[k] as int] == cs[k],
        forall|j: int| 0 <= j < cs.len() ==> -1_000_000 <= (#[trigger] cs[j]).level <= 1_000_000,
    ensures
        ws@ == expansion_weights(cs),
{
    let n = cands.len();
    let mut top: i32 = i32::MIN;
    let mut k: usize = 0;
    while k < n
        invariant
            n == cands@.len(),
            n == cs.len(),
            k <= n,
            top == top_level(cs, k as int),
            forall|j: int| 0 <= j < cands@.len() ==> (#[trigger] cands@[j]) < bs@.len() && bs@[cands@[j] as int] == cs[j],
        decreases n - k,
    {
        let level = bs[cands[k]].level;
        if level > top {
            top = level;
        }
        k = k + 1;
    }
    proof {
        lemma_top_bounds(cs, n as int);
        let w = choose|w: int| 0 <= w < n && (#[trigger] cs[w]).level == top_level(cs, n as int);
        assert(cs[w].level <= 1_000_000);
    }
    let mut ws: Vec<u32> = Vec::new();
    let mut k: usize = 0;
    while k < n
        invariant
            n == cands@.len(),
            n == cs.len(),
            k <= n,
            top == top_level(cs, n as int),
            -1_000_000 <= top <= 1_000_000,
            forall|j: int| 0 <= j < n ==> (#[trigger] cs[j]).level <= top,
            forall|j: int| 0 <= j < n ==> -1_000_000 <= (#[trigger] cs[j]).level <= 1_000_000,
            forall|j: int| 0 <= j < cands@.len() ==> (#[trigger] cands@[j]) < bs@.len() && bs@[cands@[j] as int] == cs[j],
            ws@.len() == k,
            forall|j: int| 0 <= j < k ==> (#[trigger] ws@[j]) == expansion_weights(cs)[j],
        decreases n - k,
    {
        let level = bs[cands[k]].level;
        assert(cs[k as int].level <= top);
        ws.push((top - level + 1) as u32);
        k = k + 1;
    }
    assert(ws@ =~= expansion_weights(cs));
    ws
}

fn find_offered(bs: &Vec<Building>, cands: &Vec<usize>, t: &str) -> (r: Option<usize>)
    requires
        forall|j: int| 0 <= j < cands@.len() ==> (#[trigger] cands@[j]) < bs@.len(),
    ensures
        match r {
            Some(k) => k < cands@.len() && bs@[cands@[k as int] as int].id@ == t@,
            None => forall|j: int| 0 <= j < cands@.len() ==> bs@[(#[trigger] cands@[j]) as int].id@ != t@,
        },
{
    let mut k: usize = 0;
    while k < cands.len()
        invariant
            k <= cands@.len(),
            forall|j: int| 0 <= j < cands@.len() ==> (#[trigger] cands@[j]) < bs@.len(),
            forall|j: int| 0 <= j < k ==> bs@[(#[trigger] cands@[j]) as int].id@ != t@,
        decreases cands@.len() - k,
    {
        if crate::text::text_eq(bs[cands[k]].id.as_str(), t) {
            return Some(k);
        }
        k = k + 1;
    }
    None
}

/// The position of the hall to raise, and the draw made for it.
fn pick_expansion(rng: &mut StdRng, state: &GameState, target: &Option<String>, cands: &Vec<usize>) -> (r: (usize, Ghost<int>))
    requires
        expansion_fits(*state),
        cands@.len() == expansion_candidates(*state).len(),
        cands@.len() > 0,
        forall|k: int| 0 <= k < cands@.len() ==> (#[trigger] cands@[k]) < state.sect.buildings@.len()
            && state.sect.buildings@[cands@[k] as int] == expansion_candidates(*state)[k],
    ensures
        r.0 < state.sect.buildings@.len(),
        building_index(state.sect.buildings@, expansion_pick(expansion_candidates(*state), *target, r.1@)) == r.0,
{
    let ghost s = *state;
    let ghost cs = expansion_candidates(s);
    proof {
        lemma_expandables_from(s.sect.buildings@, level_of(s.sect, "logistics"@), s.sect.buildings@.len() as int);
        assert forall|j: int| 0 <= j < cs.len() implies -1_000_000 <= (#[trigger] cs[j]).level <= 1_000_000 by {
            let i = choose|i: int| 0 <= i < s.sect.buildings@.len() && s.sect.buildings@[i] == #[trigger] cs[j];
            assert(-1_000_000 <= s.sect.buildings@[i].level <= 1_000_000);
        }
    }
    let named: Option<usize> = match target {
        Some(t) => find_offered(&state.sect.buildings, cands, t.as_str()),
        None => None,
    };
    match named {
        Some(k) => {
            assert(offered(cs, target->0@)) by {
                assert(cs[k as int].id@ == target->0@);
            }
            let ti = match find_building(&state.sect.buildings, target.as_ref().unwrap().as_str()) {
                Some(ti) => ti,
                None => {
                    proof {
                        assert(state.sect.buildings@[cands@[k as int] as int].id@ == target->0@);
                    }
                    0
                },
            };
            (ti, Ghost(0))
        },
        None => {
            proof {
                if target is Some {
                    assert forall|j: int| 0 <= j < cs.len() implies (#[trigger] cs[j]).id@ != target->0@ by {
                        assert(state.sect.buildings@[cands@[j] as int] == cs[j]);
                    }
                    assert(!offered(cs, target->0@));
                }
            }
            let ws = expansion_draw_weights(&state.sect.buildings, cands, Ghost(cs));
            proof {
                lemma_weights_positive(cs);
            }
            let total = total_weight(&ws);
            let draw = roll_below(rng, total);
            let pos = weighted_position(&ws, draw);
            proof {
                let roll = draw as int;
                crate::event::lemma_landing_unique(ws@, roll, pos as int, choose|i: int| lands_at(expansion_weights(cs), roll, i));
                assert(drawn_hall(cs, roll) == cs[pos as int].id@);
            }
            let id = state.sect.buildings[cands[pos]].id.clone();
            let ti = match find_building(&state.sect.buildings, id.as_str()) {
                Some(ti) => ti,
                None => {
                    proof {
                        assert(state.sect.buildings@[cands@[pos as int] as int].id@ == id@);
                    }
                    0
                },
            };
            (ti, Ghost(draw as int))
        },
    }
}

/// Sets hall `ti` to be raised, paying its silver and iron.
fn raise_hall(state: &mut GameState, ti: usize) -> (r: Result<String, String>)
    requires
        ti < old(state).sect.buildings@.len(),
        expansion_fits(*old(state)),
    ensures
        ({
            let s = *old(state);
            let b = s.sect.buildings@[ti as int];
            let (silver, iron) = upgrade_cost(b.level as int);
            let stock = s.sect.inventory.amount("精铁"@);
            if stock < iron {
                result_text(r) == Err::<Seq<char>, Seq<char>>(stock_short_text("精铁"@, iron - stock)) && *final(state) == s
            } else if s.sect.attributes.silver < silver {
                result_text(r) == Err::<Seq<char>, Seq<char>>(silver_short_text(silver - s.sect.attributes.silver)) && *final(state) == s
            } else {
                &&& result_text(r) == Ok::<Seq<char>, Seq<char>>(
                    "拨库银"@ + int_text(silver) + "两、精铁"@ + int_text(iron) + "份督率杂役扩建"@ + b.name@ + "，立项"@
                        + int_text((b.level + 1) * 20) + "点工作量"@,
                )
                &&& final(state).sect.buildings@ == s.sect.buildings@.update(ti as int, under_construction(b))
                &&& stock_moved(s.sect.inventory, final(state).sect.inventory, "精铁"@, -iron)
                &&& *final(state) == (GameState {
                    sect: SectState {
                        buildings: final(state).sect.buildings,
                        attributes: SectAttributes { silver: (s.sect.attributes.silver - silver) as i32, ..s.sect.attributes },
                        inventory: final(state).sect.inventory,
                        ..s.sect
                    },
                    ..s
                })
            }
        }),
{
    proof {
        reveal_strlit("精铁");
    }
    let level = state.sect.buildings[ti].level;
    assert(-1_000_000 <= state.sect.buildings@[ti as int].level <= 1_000_000);
    let silver_cost = 80 + level * 60;
    let iron_cost = 3 + level * 2;
    match require_inventory(state, "精铁", iron_cost) {
        Err(e) => return Err(e),
        Ok(()) => {},
    }
    match spend(state, silver_cost) {
        Err(e) => return Err(e),
        Ok(()) => {},
    }
    consume_inventory(state, "精铁", iron_cost);
    let work = (level + 1) * 20;
    state.sect.buildings[ti].work_required = work;
    state.sect.buildings[ti].work_invested = 0;
    state.sect.buildings[ti].upgrading_months = (work + 9) / 10;
    assert(state.sect.buildings@ =~= old(state).sect.buildings@.update(ti as int, under_construction(old(state).sect.buildings@[ti as int])));
    let mut t = String::from_str("拨库银");
    let a = int_string(silver_cost as i64);
    t.append(a.as_str());
    t.append("两、精铁");
    let b = int_string(iron_cost as i64);
    t.append(b.as_str());
    t.append("份督率杂役扩建");
    t.append(state.sect.buildings[ti].name.as_str());
    t.append("，立项");
    let c = int_string(work as i64);
    t.append(c.as_str());
    t.append("点工作量");
    Ok(t)
}

fn expand(rng: &mut StdRng, state: &mut GameState, target: &Option<String>) -> (r: Result<String, String>)
    requires
        expansion_fits(*old(state)),
    ensures
        exists|roll: int| #[trigger] expanded(*old(state), *target, roll, *final(state), result_text(r)),
{
    proof {
        reveal_strlit("logistics");
    }
    let ghost s = *state;
    let ll = building_level(&state.sect, "logistics");
    let cands = expansion_list(&state.sect.buildings, ll);
    if cands.len() == 0 {
        let r = Err(String::from_str("眼下各处皆在施工，无处可再立项扩建。"));
        assert(expanded(s, *target, 0, *state, result_text(r)));
        return r;
    }
    let (ti, Ghost(roll)) = pick_expansion(rng, state, target, &cands);
    let r = raise_hall(state, ti);
    assert(expanded(s, *target, roll, *state, result_text(r)));
    r
}

// ---------------------------------------------------------------------------
// A duty from start to end.

/// Position `i` is the first living inner disciple of `ds` with id `id`.
pub open spec fn is_first_serving(ds: Seq<Disciple>, id: Seq<char>, i: int) -> bool {
    &&& 0 <= i < ds.len()
    &&& serving(ds[i], id)
    &&& forall|j: int| 0 <= j < i ==> !serving(#[trigger] ds[j], id)
}

/// `d` is a living inner disciple with id `id`.
pub open spec fn serving(d: Disciple, id: Seq<char>) -> bool {
    d.id@ == id && d.alive && d.rank == DiscipleRank::Inner
}

/// Position of the first living inner disciple with id `id`, or -1.
pub open spec fn serving_index(ds: Seq<Disciple>, id: Seq<char>) -> int {
    if exists|i: int| is_first_serving(ds, id, i) {
        choose|i: int| is_first_serving(ds, id, i)
    } else {
        -1
    }
}

fn find_serving(ds: &Vec<Disciple>, id: &str) -> (r: Option<usize>)
    ensures
        match r {
            Some(i) => i < ds@.len() && serving_index(ds@, id@) == i,
            None => serving_index(ds@, id@) == -1,
        },
{
    let mut i: usize = 0;
    while i < ds.len()
        invariant
            i <= ds@.len(),
            forall|j: int| 0 <= j < i ==> !serving(#[trigger] ds@[j], id@),
        decreases ds@.len() - i,
    {
        if text_eq_id(&ds[i], id) && ds[i].alive && ds[i].rank == DiscipleRank::Inner {
            proof {
                assert(is_first_serving(ds@, id@, i as int));
                let k = choose|k: int| is_first_serving(ds@, id@, k);
                if k < i {
                    assert(!serving(ds@[k], id@));
                } else if k > i {
                    assert(!serving(ds@[i as int], id@));
                }
            }
            return Some(i);
        }
        i = i + 1;
    }
    proof {
        if exists|k: int| is_first_serving(ds@, id@, k) {
            let k = choose|k: int| is_first_serving(ds@, id@, k);
            assert(!serving(ds@[k], id@));
        }
    }
    None
}

fn text_eq_id(d: &Disciple, id: &str) -> (r: bool)
    ensures
        r == (d.id@ == id@),
{
    crate::text::text_eq(d.id.as_str(), id)
}

/// Why the elder of hall `building_id` cannot carry out `duty_id`, or else
/// the hall's position, the elder's position and the effectiveness of the
/// duty (the hall's effectiveness scaled by the elder's competence).
pub open spec fn duty_ready(s: GameState, building_id: Seq<char>, duty_id: Seq<char>) -> Result<(int, int, int), Seq<char>> {
    let bs = s.sect.buildings@;
    let bi = building_index(bs, building_id);
    let b = bs[bi];
    if bi < 0 {
        Err("门中并无此处建筑。"@)
    } else if b.elder_action_used {
        Err("这位长老本月已办过一桩堂务。"@)
    } else {
        match b.elder_id {
            None => Err("此处长老席位尚缺，无人主持堂务。"@),
            Some(eid) => {
                let ei = serving_index(s.disciples@, eid@);
                let hall = spec_building_effectiveness(s.sect, building_id);
                if ei < 0 {
                    Err("现任长老已无法理事，请重新择任。"@)
                } else if !spec_can_act(s.disciples@[ei]) {
                    Err("这位长老眼下伤病或外出，无法主持堂务。"@)
                } else if !elder_duties(b.kind).contains(duty_id) {
                    Err("这桩事务不在该堂职掌之内。"@)
                } else if hall <= 0 {
                    Err(ruined_text(b.name@))
                } else {
                    Ok((bi, ei, duty_effectiveness(hall, spec_elder_competence(s.disciples@[ei], b.kind))))
                }
            },
        }
    }
}

/// The amounts the duty `duty` may add at effectiveness `e` fit their types.
pub open spec fn effect_fits(s: GameState, e: int, duty: Seq<char>) -> bool {
    if duty == "drill"@ {
        drill_fits(s, e)
    } else if duty == "curate"@ {
        curation_fits(
            s.sect.martial_research.as_map(),
            s.sect.public_books@,
            s.sect.created_martial_arts@,
            scaled(4, e),
            s.sect.public_books@.len() as int,
        )
    } else if duty == "comprehend"@ {
        comprehension_fits(s, e)
    } else if duty == "audit"@ {
        audit_fits(s, e)
    } else if duty == "purchase"@ {
        purchase_fits(s, e)
    } else if duty == "brew"@ {
        brew_fits(s, e)
    } else if duty == "recruit"@ {
        s.disciples@.len() < usize::MAX
    } else if duty == "arbitrate"@ {
        arbitration_fits(s, e)
    } else if duty == "expand"@ {
        expansion_fits(s)
    } else {
        true
    }
}

/// The arithmetic of the duty fits the machine integers.
pub open spec fn duty_fits(s: GameState, building_id: Seq<char>, duty_id: Seq<char>) -> bool {
    match duty_ready(s, building_id, duty_id) {
        Err(_) => true,
        Ok((bi, ei, e)) => competence_fits(s.disciples@[ei], s.sect.buildings@[bi].kind) && effect_fits(s, e, duty_id),
    }
}

/// `maintain` (see `maintain`).
pub open spec fn maintained(s: GameState, e: int, after: GameState, phrase: Seq<char>) -> bool {
    let supplied = maintenance_supplied(s);
    let g = scaled(if supplied { 4 } else { 2 }, e);
    &&& after.sect.buildings@ == maintained_halls(s.sect.buildings@, g)
    &&& if supplied {
        &&& after.sect.attributes == (SectAttributes { silver: (s.sect.attributes.silver - 8) as i32, ..s.sect.attributes })
        &&& stock_moved(s.sect.inventory, after.sect.inventory, "精铁"@, -2)
        &&& phrase == "耗库银八两、精铁两份巡检诸堂，所有建筑完好度恢复"@ + int_text(g) + "点"@
    } else {
        &&& after.sect.attributes == s.sect.attributes
        &&& after.sect.inventory == s.sect.inventory
        &&& phrase == "库银或精铁不足，仅作最低限度维护，所有建筑完好度恢复"@ + int_text(g) + "点"@
    }
    &&& after == (GameState {
        sect: SectState {
            buildings: after.sect.buildings,
            attributes: after.sect.attributes,
            inventory: after.sect.inventory,
            ..s.sect
        },
        ..s
    })
}

/// What the duty `duty` does at effectiveness `e`, with the hall's target
/// `target`: `after` is the state and `phrase` the account of the work, or
/// the refusal.
pub open spec fn duty_effect(s: GameState, e: int, duty: Seq<char>, target: Option<String>, after: GameState, phrase: Result<Seq<char>, Seq<char>>) -> bool {
    if duty == "instruct"@ {
        after == instructed(s, e).0 && phrase == Ok::<Seq<char>, Seq<char>>(instructed(s, e).1)
    } else if duty == "drill"@ {
        &&& after.disciples@ == drilled_roster(s.disciples@, scaled(2, e))
        &&& after == (GameState { disciples: after.disciples, ..s })
        &&& phrase == Ok::<Seq<char>, Seq<char>>(drilled(s, e).1)
    } else if duty == "curate"@ {
        &&& after.sect.martial_research.as_map() == curated(
            s.sect.martial_research.as_map(),
            s.sect.public_books@,
            s.sect.created_martial_arts@,
            scaled(4, e),
            s.sect.public_books@.len() as int,
        )
        &&& after == (GameState { sect: SectState { martial_research: after.sect.martial_research, ..s.sect }, ..s })
        &&& phrase == Ok::<Seq<char>, Seq<char>>("校勘武学群籍，各册门派可授上限提升"@ + int_text(scaled(4, e)) + "级"@)
    } else if duty == "comprehend"@ {
        &&& after.sect.martial_research.as_map() == comprehended(
            s.sect.martial_research.as_map(),
            first_combat_book(s.sect.public_books@, s.sect.created_martial_arts@, 0),
            scaled(18, e),
        )
        &&& after == (GameState { sect: SectState { martial_research: after.sect.martial_research, ..s.sect }, ..s })
        &&& phrase == Ok::<Seq<char>, Seq<char>>("邀集门人合参一册武学，其门派可授上限提升"@ + int_text(scaled(18, e)) + "级"@)
    } else if duty == "audit"@ {
        exists|roll: int| 0 <= roll <= 12 && after == #[trigger] audited(s, e, roll).0 && phrase == Ok::<Seq<char>, Seq<char>>(audited(s, e, roll).1)
    } else if duty == "purchase"@ {
        purchased(s, e, after, phrase)
    } else if duty == "treat"@ {
        after == treated(s, e).0 && phrase == Ok::<Seq<char>, Seq<char>>(treated(s, e).1)
    } else if duty == "brew"@ {
        match target {
            Some(t) => match recipe_of(t@) {
                None => phrase == Err::<Seq<char>, Seq<char>>("百草堂中并无此方。"@) && after == s,
                Some(recipe) => brewed(s, e, recipe, after, phrase),
            },
            None => {
                let herbs = s.sect.inventory.amount("草药"@);
                exists|roll: int| 0 <= roll < weight_total(brew_weights(herbs)) && #[trigger] brewed(s, e, drawn_recipe(herbs, roll), after, phrase)
            },
        }
    } else if duty == "correspond"@ {
        phrase matches Ok(p) && corresponded(s, e, after, p)
    } else if duty == "scout"@ {
        after == scouted(s, e).0 && phrase == Ok::<Seq<char>, Seq<char>>(scouted(s, e).1)
    } else if duty == "recruit"@ {
        exists|d: Disciple| #[trigger] elder_recruited(s, d, after, phrase)
    } else if duty == "arbitrate"@ {
        after == arbitrated(s, e).0 && phrase == Ok::<Seq<char>, Seq<char>>(arbitrated(s, e).1)
    } else if duty == "maintain"@ {
        phrase matches Ok(p) && maintained(s, e, after, p)
    } else if duty == "supervise"@ {
        &&& after.sect.buildings@ == supervised_halls(s.sect.buildings@, scaled(6, e))
        &&& after == (GameState { sect: SectState { buildings: after.sect.buildings, ..s.sect }, ..s })
        &&& phrase == Ok::<Seq<char>, Seq<char>>("亲临工地督造，各处营造进度增加"@ + int_text(scaled(6, e)) + "点"@)
    } else {
        exists|roll: int| #[trigger] expanded(s, target, roll, after, phrase)
    }
}

/// `after` is `s` with the elder of hall `bi` marked as having acted this month.
pub open spec fn finished(s: GameState, bi: int, after: GameState) -> bool {
    &&& after.sect.buildings@ == s.sect.buildings@.update(bi, Building { elder_action_used: true, ..s.sect.buildings@[bi] })
    &&& after == (GameState { sect: SectState { buildings: after.sect.buildings, ..s.sect }, ..s })
}

/// What `execute_elder_duty` does: the refusals of `duty_ready`, or the duty's
/// effect (see `duty_effect`, with the hall's target); a duty carried out
/// marks the elder as having acted and is told as the elder's name, "本月",
/// the account and a full stop.
pub open spec fn elder_duty_outcome(s: GameState, building_id: Seq<char>, duty_id: Seq<char>, after: GameState, r: Result<String, String>) -> bool {
    match duty_ready(s, building_id, duty_id) {
        Err(t) => refused(r, t) && after == s,
        Ok((bi, ei, e)) => exists|mid: GameState, phrase: Result<Seq<char>, Seq<char>>|
            #[trigger] duty_effect(s, e, duty_id, s.sect.buildings@[bi].duty_target, mid, phrase) && match phrase {
                Err(t) => refused(r, t) && after == mid,
                Ok(p) => {
                    &&& r matches Ok(t) && t@ == s.disciples@[ei].name@ + "本月"@ + p + "。"@
                    &&& finished(mid, bi, after)
                },
            },
    }
}

fn copy_opt(o: &Option<String>) -> (r: Option<String>)
    ensures
        r == *o,
{
    match o {
        Some(t) => Some(t.clone()),
        None => None,
    }
}

proof fn lemma_recipe_in_catalog(id: Seq<char>)
    ensures
        recipe_of(id) matches Some(r) ==> is_catalog_recipe(r),
{
}

/// Has the elder of the hall `building_id` carry out the duty `duty_id` (see
/// `elder_duty_outcome`).
pub fn execute_elder_duty(rng: &mut StdRng, state: &mut GameState, building_id: &str, duty_id: &str) -> (r: Result<String, String>)
    requires
        duty_fits(*old(state), building_id@, duty_id@),
    ensures
        elder_duty_outcome(*old(state), building_id@, duty_id@, *final(state), r),
{
    let ghost s = *state;
    let bi = match find_building(&state.sect.buildings, building_id) {
        Some(i) => i,
        None => return Err(String::from_str("门中并无此处建筑。")),
    };
    if state.sect.buildings[bi].elder_action_used {
        return Err(String::from_str("这位长老本月已办过一桩堂务。"));
    }
    let eid = match &state.sect.buildings[bi].elder_id {
        Some(x) => x.clone(),
        None => return Err(String::from_str("此处长老席位尚缺，无人主持堂务。")),
    };
    let ei = match find_serving(&state.disciples, eid.as_str()) {
        Some(i) => i,
        None => return Err(String::from_str("现任长老已无法理事，请重新择任。")),
    };
    if !can_act(&state.disciples[ei]) {
        return Err(String::from_str("这位长老眼下伤病或外出，无法主持堂务。"));
    }
    let kind = state.sect.buildings[bi].kind;
    if !duty_allowed(kind, duty_id) {
        return Err(String::from_str("这桩事务不在该堂职掌之内。"));
    }
    let hall_name = state.sect.buildings[bi].name.clone();
    let hall = match require_hall(state, building_id, hall_name.as_str()) {
        Ok(v) => v,
        Err(t) => return Err(t),
    };
    let competence = elder_competence_percent(&state.disciples[ei], kind);
    proof {
        assert(0 <= hall as int * competence <= 2147483647 * 130) by (nonlinear_arith)
            requires
                0 <= hall <= 2147483647,
                85 <= competence <= 130,
        ;
    }
    let e: i32 = clamp_i64_to_i32(hall as i64 * competence as i64) / 100;
    let elder_name = state.disciples[ei].name.clone();
    let target = copy_opt(&state.sect.buildings[bi].duty_target);
    let ghost d = duty_id@;
    proof {
        reveal_strlit("instruct");
        reveal_strlit("drill");
        reveal_strlit("curate");
        reveal_strlit("comprehend");
        reveal_strlit("audit");
        reveal_strlit("purchase");
        reveal_strlit("treat");
        reveal_strlit("brew");
        reveal_strlit("correspond");
        reveal_strlit("scout");
        reveal_strlit("recruit");
        reveal_strlit("arbitrate");
        reveal_strlit("maintain");
        reveal_strlit("supervise");
        reveal_strlit("expand");
        reveal_strlit("草药");
    }
    let phrase: Result<String, String> = if text_eq(duty_id, "instruct") {
        Ok(instruct(state, e))
    } else if text_eq(duty_id, "drill") {
        Ok(drill(state, e))
    } else if text_eq(duty_id, "curate") {
        Ok(curate(state, e))
    } else if text_eq(duty_id, "comprehend") {
        Ok(comprehend(state, e))
    } else if text_eq(duty_id, "audit") {
        let roll = rand_range(rng, 0, 12);
        let p = audit(state, e, roll);
        assert(0 <= roll <= 12 && *state == audited(s, e as int, roll as int).0);
        Ok(p)
    } else if text_eq(duty_id, "purchase") {
        purchase(state, e)
    } else if text_eq(duty_id, "treat") {
        Ok(treat(state, e))
    } else if text_eq(duty_id, "brew") {
        match &target {
            Some(t) => match pill_recipe(t.as_str()) {
                None => Err(String::from_str("百草堂中并无此方。")),
                Some(recipe) => {
                    proof {
                        lemma_recipe_in_catalog(t@);
                    }
                    brew(state, e, recipe)
                },
            },
            None => {
                let herbs = state.sect.inventory.amount_of("草药");
                let ws = brew_draw_weights(herbs);
                let total = total_weight(&ws);
                let draw = roll_below(rng, total);
                let pos = weighted_position(&ws, draw);
                proof {
                    crate::event::lemma_landing_unique(ws@, draw as int, pos as int, choose|i: int| lands_at(ws@, draw as int, i));
                }
                let recipe = catalog_recipe_at(pos);
                let p = brew(state, e, recipe);
                assert(brewed(s, e as int, drawn_recipe(herbs as int, draw as int), *state, result_text(p)));
                p
            },
        }
    } else if text_eq(duty_id, "correspond") {
        Ok(correspond(state, e))
    } else if text_eq(duty_id, "scout") {
        Ok(scout(state, e))
    } else if text_eq(duty_id, "recruit") {
        elder_recruit(rng, state)
    } else if text_eq(duty_id, "arbitrate") {
        Ok(arbitrate(state, e))
    } else if text_eq(duty_id, "maintain") {
        Ok(maintain(state, e))
    } else if text_eq(duty_id, "supervise") {
        Ok(supervise(state, e))
    } else {
        expand(rng, state, &target)
    };
    let ghost mid = *state;
    assert(duty_effect(s, e as int, d, s.sect.buildings@[bi as int].duty_target, mid, result_text(phrase)));
    match phrase {
        Err(t) => Err(t),
        Ok(p) => {
            state.sect.buildings[bi].elder_action_used = true;
            assert(state.sect.buildings@ =~= mid.sect.buildings@.update(bi as int, Building { elder_action_used: true, ..mid.sect.buildings@[bi as int] }));
            let mut t = elder_name;
            t.append("本月");
            t.append(p.as_str());
            t.append("。");
            Ok(t)
        },
    }
}

fn brew_draw_weights(herbs: i32) -> (ws: Vec<u32>)
    ensures
        ws@ == brew_weights(herbs as int),
        weight_total(ws@) >= 1,
        weight_total(ws@) <= 81,
{
    let w0 = elder_brew_weight(catalog_recipe_at(0), herbs) as u32;
    let w1 = elder_brew_weight(catalog_recipe_at(1), herbs) as u32;
    let w2 = elder_brew_weight(catalog_recipe_at(2), herbs) as u32;
    let mut ws: Vec<u32> = Vec::new();
    ws.push(w0);
    ws.push(w1);
    ws.push(w2);
    assert(ws@ =~= brew_weights(herbs as int));
    assert(weight_prefix(ws@, 3) == w0 + w1 + w2) by {
        reveal_with_fuel(weight_prefix, 4);
    }
    ws
}

} // verus!
