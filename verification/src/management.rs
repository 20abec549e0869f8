//! The head's management requests: policy and moral direction, halls,
//! recruiting, ranks and departments, masters, elders and their duties, the
//! furnace queue, expulsions, sect orders and the heritage core.
use vstd::prelude::*;
use rand::rngs::StdRng;
use crate::chance::chance;
use crate::country::clamp_int;
use crate::disciple::{aptitudes_fit, sync_legacy_attributes, synced};
use crate::economy::{furnace_recipes, medicine_label, medicine_name, pill_recipe, recipe_of, PillRecipe};
use crate::game::GameState;
use crate::ledger::Ledger;
use crate::lineage::{disciple_index, find_disciple, master_kept, normalize_master_assignments};
use crate::model::{BuildingKind, Department, Disciple, DiscipleRank, GameEvent, MoralDirection, SectPolicy};
use crate::sect::{count_rank, rank_count, rank_limits, spec_rank_limits, elder_kept, normalize_elder_assignments, toggle_heritage_art, text_listed, text_removed, Building, SectOrder, SectState, building_effectiveness, building_index, building_level, find_building, is_first_building, spec_building_effectiveness};
use crate::text::{decimal_text, decimal_wide, join_text, text_eq};

verus! {

/// Rust's decimal writing of a whole number: a minus sign before the digits
/// of a negative one.
pub open spec fn int_text(v: int) -> Seq<char> {
    if v < 0 { "-"@ + decimal_text((-v) as nat) } else { decimal_text(v as nat) }
}

/// Writes a whole number in decimal digits.
pub fn int_string(v: i64) -> (r: String)
    requires
        v > i64::MIN,
    ensures
        r@ == int_text(v as int),
{
    if v < 0 {
        let mut s = String::from_str("-");
        let digits = decimal_wide((0 - v) as u64);
        s.append(digits.as_str());
        s
    } else {
        decimal_wide(v as u64)
    }
}

/// Display name of a policy.
pub open spec fn policy_label(p: SectPolicy) -> Seq<char> {
    match p {
        SectPolicy::Balanced => "持中守成"@,
        SectPolicy::Martial => "崇武精进"@,
        SectPolicy::Scholarly => "研经明理"@,
        SectPolicy::Chivalrous => "行侠尚义"@,
        SectPolicy::Mercantile => "通商裕库"@,
        SectPolicy::Reclusive => "闭门清修"@,
    }
}

/// Display name of a policy.
pub fn policy_name(p: SectPolicy) -> (r: &'static str)
    ensures
        r@ == policy_label(p),
{
    match p {
        SectPolicy::Balanced => "持中守成",
        SectPolicy::Martial => "崇武精进",
        SectPolicy::Scholarly => "研经明理",
        SectPolicy::Chivalrous => "行侠尚义",
        SectPolicy::Mercantile => "通商裕库",
        SectPolicy::Reclusive => "闭门清修",
    }
}

/// Display name of a moral direction.
pub open spec fn direction_label(d: MoralDirection) -> Seq<char> {
    match d {
        MoralDirection::Righteous => "行侠仗义"@,
        MoralDirection::Neutral => "独善其身"@,
        MoralDirection::Villainous => "为非作歹"@,
    }
}

/// Display name of a moral direction.
pub fn moral_direction_name(d: MoralDirection) -> (r: &'static str)
    ensures
        r@ == direction_label(d),
{
    match d {
        MoralDirection::Righteous => "行侠仗义",
        MoralDirection::Neutral => "独善其身",
        MoralDirection::Villainous => "为非作歹",
    }
}

/// The line for a new policy.
pub open spec fn policy_text(p: SectPolicy) -> Seq<char> {
    "门中上下奉行“"@ + policy_label(p) + "”之策，自本月起各有侧重。"@
}

/// The line for a new moral direction.
pub open spec fn direction_text(d: MoralDirection) -> Seq<char> {
    "执事堂颁下门风新训，本派自此以“"@ + direction_label(d) + "”为行事准绳。"@
}

/// What `set_policy` does: the sect follows `policy`, nothing else changes.
pub open spec fn policy_outcome(before: GameState, policy: SectPolicy, after: GameState, r: Result<String, String>) -> bool {
    &&& r matches Ok(t) && t@ == policy_text(policy)
    &&& after == (GameState { sect: SectState { policy, ..before.sect }, ..before })
}

/// Sets the sect's policy.
pub fn set_policy(state: &mut GameState, policy: SectPolicy) -> (r: String)
    ensures
        *final(state) == (GameState { sect: SectState { policy, ..old(state).sect }, ..*old(state) }),
        r@ == policy_text(policy),
{
    state.sect.policy = policy;
    let mut s = String::from_str("门中上下奉行“");
    s.append(policy_name(policy));
    s.append("”之策，自本月起各有侧重。");
    s
}

/// What `set_moral_direction` does: the sect follows `direction`, nothing else changes.
pub open spec fn direction_outcome(before: GameState, direction: MoralDirection, after: GameState, r: Result<String, String>) -> bool {
    &&& r matches Ok(t) && t@ == direction_text(direction)
    &&& after == (GameState { sect: SectState { moral_direction: direction, ..before.sect }, ..before })
}

/// Sets the sect's moral direction.
pub fn set_moral_direction(state: &mut GameState, direction: MoralDirection) -> (r: String)
    ensures
        *final(state) == (GameState { sect: SectState { moral_direction: direction, ..old(state).sect }, ..*old(state) }),
        r@ == direction_text(direction),
{
    state.sect.moral_direction = direction;
    let mut s = String::from_str("执事堂颁下门风新训，本派自此以“");
    s.append(moral_direction_name(direction));
    s.append("”为行事准绳。");
    s
}

/// `r` is a refusal with the text `text`.
pub open spec fn refused<T>(r: Result<T, String>, text: Seq<char>) -> bool {
    r matches Err(e) && e@ == text
}

/// The refusal for silver short by `missing` taels.
pub open spec fn silver_short_text(missing: int) -> Seq<char> {
    "库银不足，尚缺"@ + int_text(missing) + "两。"@
}

/// The refusal for `item` short by `missing`.
pub open spec fn stock_short_text(item: Seq<char>, missing: int) -> Seq<char> {
    item + "不足，尚缺"@ + int_text(missing) + "份。"@
}

/// Pays `amount` from the sect's silver, or refuses when it is short.
pub fn spend(state: &mut GameState, amount: i32) -> (r: Result<(), String>)
    requires
        old(state).sect.attributes.silver - amount <= i32::MAX,
    ensures
        old(state).sect.attributes.silver < amount ==> *final(state) == *old(state)
            && refused(r, silver_short_text(amount - old(state).sect.attributes.silver)),
        old(state).sect.attributes.silver >= amount ==> r is Ok && *final(state) == (GameState {
            sect: SectState {
                attributes: crate::sect::SectAttributes { silver: (old(state).sect.attributes.silver - amount) as i32, ..old(state).sect.attributes },
                ..old(state).sect
            },
            ..*old(state)
        }),
{
    if state.sect.attributes.silver < amount {
        let mut s = String::from_str("库银不足，尚缺");
        let n = int_string(amount as i64 - state.sect.attributes.silver as i64);
        s.append(n.as_str());
        s.append("两。");
        return Err(s);
    }
    state.sect.attributes.silver = state.sect.attributes.silver - amount;
    Ok(())
}

/// Refuses when the stores hold less than `amount` of `item`.
pub fn require_inventory(state: &GameState, item: &str, amount: i32) -> (r: Result<(), String>)
    ensures
        state.sect.inventory.amount(item@) < amount ==> refused(r, stock_short_text(item@, amount - state.sect.inventory.amount(item@))),
        state.sect.inventory.amount(item@) >= amount ==> r is Ok,
{
    let stock = state.sect.inventory.amount_of(item);
    if stock < amount {
        let mut s = item.to_owned();
        s.append("不足，尚缺");
        let n = int_string(amount as i64 - stock as i64);
        s.append(n.as_str());
        s.append("份。");
        return Err(s);
    }
    Ok(())
}

/// Silver and iron for raising a hall from `level`.
pub open spec fn upgrade_cost(level: int) -> (int, int) {
    (80 + level * 60, 3 + level * 2)
}

/// Silver and iron for mending `missing` points of condition.
pub open spec fn repair_cost(missing: int) -> (int, int) {
    (if missing * 2 < 10 { 10 } else { missing * 2 }, if (missing + 24) / 25 < 1 { 1 } else { (missing + 24) / 25 })
}

/// Hall levels and conditions lie where the costs and works fit in `i32`.
pub open spec fn halls_modest(sect: SectState) -> bool {
    forall|i: int| 0 <= i < sect.buildings@.len() ==> {
        &&& -1_000_000 <= (#[trigger] sect.buildings@[i]).level <= 1_000_000
        &&& -1_000_000 <= sect.buildings@[i].condition
    }
}

/// Takes `amount` of `item` from the stores.
pub fn consume_inventory(state: &mut GameState, item: &str, amount: i32)
    requires
        amount > i32::MIN,
        i32::MIN <= old(state).sect.inventory.amount(item@) - amount <= i32::MAX,
    ensures
        *final(state) == (GameState { sect: SectState { inventory: final(state).sect.inventory, ..old(state).sect }, ..*old(state) }),
        final(state).sect.inventory.has(item@),
        final(state).sect.inventory.amount(item@) == old(state).sect.inventory.amount(item@) - amount,
        forall|k: Seq<char>| k != item@ ==> #[trigger] final(state).sect.inventory.has(k) == old(state).sect.inventory.has(k),
        forall|k: Seq<char>| k != item@ && #[trigger] old(state).sect.inventory.has(k) ==> final(state).sect.inventory.at(k) == old(state).sect.inventory.at(k),
{
    state.sect.inventory.add(item, -amount);
}

/// Level of the first hall with id `id`, or 0 when there is none.
pub open spec fn level_of(sect: SectState, id: Seq<char>) -> int {
    let i = building_index(sect.buildings@, id);
    if i < 0 { 0 } else { sect.buildings@[i].level as int }
}

/// A hall set to work on its next level: the work needed is 20 per level it
/// will reach, and the months a tenth of that, rounded up.
pub open spec fn under_construction(b: Building) -> Building {
    let work = (b.level + 1) * 20;
    Building { work_required: work as i32, work_invested: 0, upgrading_months: crate::country::trunc_div(work + 9, 10) as i32, ..b }
}

/// The refusal for a hall that would outgrow the logistics office.
pub open spec fn outgrown_text(name: Seq<char>, level: int, logistics: int) -> Seq<char> {
    name + "已是"@ + int_text(level) + "级，而庶务堂仅"@ + int_text(logistics) + "级。请先将庶务堂升至"@ + int_text(level + 1) + "级以上方可续建。"@
}

/// The line for a hall set to be raised.
pub open spec fn upgrade_text(silver: int, iron: int, name: Seq<char>, work: int) -> Seq<char> {
    "拨库银"@ + int_text(silver) + "两、精铁"@ + int_text(iron) + "份扩建"@ + name + "，尚需杂役投入"@ + int_text(work) + "点工作量。"@
}

/// The arithmetic of raising the hall `id` fits in `i32`.
pub open spec fn upgrade_fits(s: GameState, id: Seq<char>) -> bool {
    let i = building_index(s.sect.buildings@, id);
    i >= 0 ==> {
        let level = s.sect.buildings@[i].level as int;
        &&& -1_000_000 <= level <= 1_000_000
        &&& s.sect.attributes.silver - upgrade_cost(level).0 <= i32::MAX
        &&& s.sect.inventory.amount("精铁"@) - upgrade_cost(level).1 <= i32::MAX
    }
}

/// What `upgrade_building` does: `after` and `r` are the state and result it leaves
/// for the state `before`.
pub open spec fn upgrade_outcome(before: GameState, building_id: Seq<char>, after: GameState, r: Result<String, String>) -> bool {
    ({
        let s = before;
        let i = building_index(s.sect.buildings@, building_id);
        let b = s.sect.buildings@[i];
        let logistics = level_of(s.sect, "logistics"@);
        let (silver, iron) = upgrade_cost(b.level as int);
        if i < 0 {
            refused(r, "门中并无此处建筑。"@) && after == s
        } else if b.work_required > 0 {
            refused(r, "此处尚在施工，不可再兴土木。"@) && after == s
        } else if b.kind != BuildingKind::Logistics && b.level >= logistics {
            refused(r, outgrown_text(b.name@, b.level as int, logistics)) && after == s
        } else if s.sect.inventory.amount("精铁"@) < iron {
            refused(r, stock_short_text("精铁"@, iron - s.sect.inventory.amount("精铁"@))) && after == s
        } else if s.sect.attributes.silver < silver {
            refused(r, silver_short_text(silver - s.sect.attributes.silver)) && after == s
        } else {
            &&& r matches Ok(t) && t@ == upgrade_text(silver, iron, b.name@, (b.level + 1) * 20)
            &&& after.sect.buildings@ == s.sect.buildings@.update(i, under_construction(b))
            &&& after.sect.attributes.silver == s.sect.attributes.silver - silver
            &&& after.sect.inventory.amount("精铁"@) == s.sect.inventory.amount("精铁"@) - iron
            &&& forall|k: Seq<char>| k != "精铁"@ ==> #[trigger] after.sect.inventory.amount(k) == s.sect.inventory.amount(k)
            &&& after == (GameState {
                sect: SectState {
                    buildings: after.sect.buildings,
                    attributes: crate::sect::SectAttributes { silver: after.sect.attributes.silver, ..s.sect.attributes },
                    inventory: after.sect.inventory,
                    ..s.sect
                },
                ..s
            })
        }
    })
}

/// Sets a hall to be raised a level. Refused when there is no such hall, when
/// it is already under construction, when a hall other than the logistics
/// office would outgrow the logistics office, or when iron or silver is
/// short; otherwise pays `80 + 60 * level` silver and `3 + 2 * level` iron and
/// sets the work (see `under_construction`).
pub fn upgrade_building(state: &mut GameState, building_id: &str) -> (r: Result<String, String>)
    requires
        upgrade_fits(*old(state), building_id@),
    ensures
        upgrade_outcome(*old(state), building_id@, *final(state), r),
{
    let i = match find_building(&state.sect.buildings, building_id) {
        Some(i) => i,
        None => return Err(String::from_str("门中并无此处建筑。")),
    };
    if state.sect.buildings[i].work_required > 0 {
        return Err(String::from_str("此处尚在施工，不可再兴土木。"));
    }
    let level = state.sect.buildings[i].level;
    if state.sect.buildings[i].kind != BuildingKind::Logistics {
        let logistics = building_level(&state.sect, "logistics");
        if level >= logistics {
            let mut s = state.sect.buildings[i].name.clone();
            s.append("已是");
            let a = int_string(level as i64);
            s.append(a.as_str());
            s.append("级，而庶务堂仅");
            let b = int_string(logistics as i64);
            s.append(b.as_str());
            s.append("级。请先将庶务堂升至");
            let c = int_string(level as i64 + 1);
            s.append(c.as_str());
            s.append("级以上方可续建。");
            return Err(s);
        }
    }
    let silver_cost = 80 + level * 60;
    let iron_cost = 3 + level * 2;
    match require_inventory(state, "精铁", iron_cost) {
        Err(e) => return Err(e),
        Ok(()) => {},
    }
    match spend(state, silver_cost) {
        Err(e) => return Err(e),
        Ok(()) => {},
    }
    proof {
        reveal_strlit("精铁");
    }
    consume_inventory(state, "精铁", iron_cost);
    let work = (level + 1) * 20;
    state.sect.buildings[i].work_required = work;
    state.sect.buildings[i].work_invested = 0;
    state.sect.buildings[i].upgrading_months = (work + 9) / 10;
    let mut s = String::from_str("拨库银");
    let a = int_string(silver_cost as i64);
    s.append(a.as_str());
    s.append("两、精铁");
    let b = int_string(iron_cost as i64);
    s.append(b.as_str());
    s.append("份扩建");
    s.append(state.sect.buildings[i].name.as_str());
    s.append("，尚需杂役投入");
    let c = int_string(work as i64);
    s.append(c.as_str());
    s.append("点工作量。");
    assert(state.sect.buildings@ =~= old(state).sect.buildings@.update(i as int, under_construction(old(state).sect.buildings@[i as int])));
    Ok(s)
}

/// The line for a hall brought back from ruin without materials.
pub open spec fn rescue_text(name: Seq<char>) -> Seq<char> {
    "暂无材料可用，掌门亲自组织临时抢修"@ + name + "，堂舍恢复至25%效力；后续可再按常规费用修缮。"@
}

/// The line for a mended hall.
pub open spec fn repair_text(silver: int, iron: int, name: Seq<char>) -> Seq<char> {
    "拨库银"@ + int_text(silver) + "两、精铁"@ + int_text(iron) + "份修葺"@ + name + "，梁柱瓦石焕然一新。"@
}

/// The arithmetic of mending the hall `id` fits in `i32`.
pub open spec fn repair_fits(s: GameState, id: Seq<char>) -> bool {
    let i = building_index(s.sect.buildings@, id);
    i >= 0 ==> {
        let missing = 100 - s.sect.buildings@[i].condition;
        &&& s.sect.buildings@[i].condition >= -1_000_000
        &&& s.sect.inventory.amount("精铁"@) - repair_cost(missing).1 >= i32::MIN
    }
}

/// What `repair_building` does: `after` and `r` are the state and result it leaves
/// for the state `before`.
pub open spec fn repair_outcome(before: GameState, building_id: Seq<char>, after: GameState, r: Result<String, String>) -> bool {
    ({
        let s = before;
        let i = building_index(s.sect.buildings@, building_id);
        let b = s.sect.buildings@[i];
        let missing = 100 - b.condition;
        let (silver, iron) = repair_cost(missing);
        if i < 0 {
            refused(r, "门中并无此处建筑。"@) && after == s
        } else if missing <= 0 {
            refused(r, "此处完好，无须修缮。"@) && after == s
        } else if b.condition <= 0 {
            &&& r matches Ok(t) && t@ == rescue_text(b.name@)
            &&& after.sect.buildings@ == s.sect.buildings@.update(i, Building { condition: 25, ..b })
            &&& after == (GameState { sect: SectState { buildings: after.sect.buildings, ..s.sect }, ..s })
        } else if s.sect.inventory.amount("精铁"@) < iron {
            refused(r, stock_short_text("精铁"@, iron - s.sect.inventory.amount("精铁"@))) && after == s
        } else if s.sect.attributes.silver < silver {
            refused(r, silver_short_text(silver - s.sect.attributes.silver)) && after == s
        } else {
            &&& r matches Ok(t) && t@ == repair_text(silver, iron, b.name@)
            &&& after.sect.buildings@ == s.sect.buildings@.update(i, Building { condition: 100, ..b })
            &&& after.sect.attributes.silver == s.sect.attributes.silver - silver
            &&& after.sect.inventory.amount("精铁"@) == s.sect.inventory.amount("精铁"@) - iron
            &&& forall|k: Seq<char>| k != "精铁"@ ==> #[trigger] after.sect.inventory.amount(k) == s.sect.inventory.amount(k)
            &&& after == (GameState {
                sect: SectState {
                    buildings: after.sect.buildings,
                    attributes: crate::sect::SectAttributes { silver: after.sect.attributes.silver, ..s.sect.attributes },
                    inventory: after.sect.inventory,
                    ..s.sect
                },
                ..s
            })
        }
    })
}

/// Mends a hall. Refused when there is no such hall or it lacks nothing. A
/// destroyed hall is propped up to condition 25 for free; any other is mended
/// to 100 for `max(2 * missing, 10)` silver and one iron per 25 missing
/// points, rounded up (refused when iron or silver is short).
pub fn repair_building(state: &mut GameState, building_id: &str) -> (r: Result<String, String>)
    requires
        repair_fits(*old(state), building_id@),
    ensures
        repair_outcome(*old(state), building_id@, *final(state), r),
{
    let i = match find_building(&state.sect.buildings, building_id) {
        Some(i) => i,
        None => return Err(String::from_str("门中并无此处建筑。")),
    };
    let condition = state.sect.buildings[i].condition;
    let missing: i32 = 100 - condition;
    if missing <= 0 {
        return Err(String::from_str("此处完好，无须修缮。"));
    }
    if condition <= 0 {
        state.sect.buildings[i].condition = 25;
        let mut s = String::from_str("暂无材料可用，掌门亲自组织临时抢修");
        s.append(state.sect.buildings[i].name.as_str());
        s.append("，堂舍恢复至25%效力；后续可再按常规费用修缮。");
        return Ok(s);
    }
    let silver_cost = if missing * 2 < 10 { 10 } else { missing * 2 };
    let iron_cost = if (missing + 24) / 25 < 1 { 1 } else { (missing + 24) / 25 };
    match require_inventory(state, "精铁", iron_cost) {
        Err(e) => return Err(e),
        Ok(()) => {},
    }
    match spend(state, silver_cost) {
        Err(e) => return Err(e),
        Ok(()) => {},
    }
    consume_inventory(state, "精铁", iron_cost);
    state.sect.buildings[i].condition = 100;
    let mut s = String::from_str("拨库银");
    let a = int_string(silver_cost as i64);
    s.append(a.as_str());
    s.append("两、精铁");
    let b = int_string(iron_cost as i64);
    s.append(b.as_str());
    s.append("份修葺");
    s.append(state.sect.buildings[i].name.as_str());
    s.append("，梁柱瓦石焕然一新。");
    Ok(s)
}

/// The sect orders by id: name, months in force, silver cost, and the bonus
/// they grant.
pub open spec fn order_terms(id: Seq<char>) -> Option<(Seq<char>, int, int, Seq<char>, int)> {
    if id == "diligent"@ {
        Some(("勤修令"@, 3, 60, "martial"@, 15))
    } else if id == "righteous"@ {
        Some(("尚义令"@, 4, 80, "morality"@, 12))
    } else if id == "frugal"@ {
        Some(("节用令"@, 4, 50, "income"@, 12))
    } else if id == "rest"@ {
        Some(("调息令"@, 2, 45, "recovery"@, 18))
    } else {
        None
    }
}

/// `o` is the order `id` as issued: its terms, with its bonus the only entry.
pub open spec fn issued_order(o: SectOrder, id: Seq<char>) -> bool {
    match order_terms(id) {
        Some((name, months, cost, key, value)) => {
            &&& o.id@ == id
            &&& o.name@ == name
            &&& o.remaining_months == months
            &&& o.silver_cost == cost
            &&& o.effect.has(key)
            &&& o.effect.at(key) == value
            &&& forall|k: Seq<char>| k != key ==> !o.effect.has(k)
        },
        None => false,
    }
}

/// The order `id`, if there is one (see `order_terms`).
pub fn order_definition(id: &str) -> (r: Option<SectOrder>)
    ensures
        match r {
            Some(o) => issued_order(o, id@),
            None => order_terms(id@) is None,
        },
{
    let (name, months, cost, key, value) = if text_eq(id, "diligent") {
        ("勤修令", 3, 60, "martial", 15)
    } else if text_eq(id, "righteous") {
        ("尚义令", 4, 80, "morality", 12)
    } else if text_eq(id, "frugal") {
        ("节用令", 4, 50, "income", 12)
    } else if text_eq(id, "rest") {
        ("调息令", 2, 45, "recovery", 18)
    } else {
        return None;
    };
    let mut effect: Ledger<i32> = Ledger::new();
    effect.insert(key, value);
    Some(SectOrder {
        id: id.to_owned(),
        name: name.to_owned(),
        remaining_months: months,
        silver_cost: cost,
        effect,
    })
}

/// An order with id `id` is in force.
pub open spec fn order_active(orders: Seq<SectOrder>, id: Seq<char>) -> bool {
    exists|i: int| 0 <= i < orders.len() && (#[trigger] orders[i]).id@ == id
}

/// The line for an issued order.
pub open spec fn order_text(name: Seq<char>, months: int) -> Seq<char> {
    "掌门颁下“"@ + name + "”，门中奉行"@ + int_text(months) + "个月。"@
}

/// What `issue_order` does: `after` and `r` are the state and result it leaves
/// for the state `before`.
pub open spec fn order_outcome(before: GameState, order_id: Seq<char>, after: GameState, r: Result<String, String>) -> bool {
    ({
        let s = before;
        if order_active(s.sect.active_orders@, order_id) {
            refused(r, "此令尚在施行，不宜重复颁布。"@) && after == s
        } else {
            match order_terms(order_id) {
                None => refused(r, "并无这道门派令。"@) && after == s,
                Some((name, months, cost, key, value)) => if s.sect.attributes.silver < cost {
                    refused(r, silver_short_text(cost - s.sect.attributes.silver)) && after == s
                } else {
                    &&& r matches Ok(t) && t@ == order_text(name, months)
                    &&& after.sect.active_orders@.len() == s.sect.active_orders@.len() + 1
                    &&& after.sect.active_orders@.drop_last() == s.sect.active_orders@
                    &&& issued_order(after.sect.active_orders@.last(), order_id)
                    &&& after == (GameState {
                        sect: SectState {
                            active_orders: after.sect.active_orders,
                            attributes: crate::sect::SectAttributes { silver: (s.sect.attributes.silver - cost) as i32, ..s.sect.attributes },
                            ..s.sect
                        },
                        ..s
                    })
                },
            }
        }
    })
}

/// Issues a sect order. Refused while an order of that id is in force, for an
/// unknown id, or when the silver is short; otherwise pays its cost and puts
/// it in force.
pub fn issue_order(state: &mut GameState, order_id: &str) -> (r: Result<String, String>)
    ensures
        order_outcome(*old(state), order_id@, *final(state), r),
{
    let mut k: usize = 0;
    while k < state.sect.active_orders.len()
        invariant
            k <= state.sect.active_orders@.len(),
            forall|j: int| 0 <= j < k ==> (#[trigger] state.sect.active_orders@[j]).id@ != order_id@,
        decreases state.sect.active_orders@.len() - k,
    {
        if text_eq(state.sect.active_orders[k].id.as_str(), order_id) {
            return Err(String::from_str("此令尚在施行，不宜重复颁布。"));
        }
        k = k + 1;
    }
    let order = match order_definition(order_id) {
        Some(o) => o,
        None => return Err(String::from_str("并无这道门派令。")),
    };
    match spend(state, order.silver_cost) {
        Err(e) => return Err(e),
        Ok(()) => {},
    }
    let mut s = String::from_str("掌门颁下“");
    s.append(order.name.as_str());
    s.append("”，门中奉行");
    let m = int_string(order.remaining_months as i64);
    s.append(m.as_str());
    s.append("个月。");
    let ghost before = state.sect.active_orders@;
    state.sect.active_orders.push(order);
    proof {
        assert(state.sect.active_orders@.drop_last() =~= before);
    }
    Ok(s)
}

/// What `set_heritage_art` does: only the heritage core changes (see
/// `toggle_heritage_art`).
pub open spec fn heritage_outcome(before: GameState, art_id: Seq<char>, after: GameState, r: Result<String, String>) -> bool {
    let held = text_listed(before.sect.public_books@, art_id) || exists|i: int|
        0 <= i < before.sect.created_martial_arts@.len() && (#[trigger] before.sect.created_martial_arts@[i]).id@ == art_id;
    &&& after == (GameState { sect: SectState { heritage_arts: after.sect.heritage_arts, ..before.sect }, ..before })
    &&& if !held {
        refused(r, "藏经阁公册中无此武学。"@) && after.sect.heritage_arts == before.sect.heritage_arts
    } else if text_listed(before.sect.heritage_arts@, art_id) {
        &&& r matches Ok(t) && t@ == "此武学已从传承核心中移出。"@
        &&& after.sect.heritage_arts@ =~= text_removed(before.sect.heritage_arts@, art_id)
    } else {
        &&& r matches Ok(t) && t@ == "此武学已纳为本门传承核心。"@
        &&& after.sect.heritage_arts@.len() == before.sect.heritage_arts@.len() + 1
        &&& after.sect.heritage_arts@.drop_last() =~= before.sect.heritage_arts@
        &&& after.sect.heritage_arts@.last()@ == art_id
    }
}

/// Takes an art into the heritage core or out of it (see `toggle_heritage_art`).
pub fn set_heritage_art(state: &mut GameState, art_id: &str) -> (r: Result<String, String>)
    ensures
        heritage_outcome(*old(state), art_id@, *final(state), r),
{
    toggle_heritage_art(&mut state.sect, art_id)
}

/// The texts of a list of strings.
pub open spec fn texts_of(v: Seq<String>) -> Seq<Seq<char>> {
    v.map_values(|x: String| x@)
}

/// The first problem among the first `n` ids of a furnace queue: an unknown
/// recipe, or one listed twice.
pub open spec fn queue_problem(ids: Seq<Seq<char>>, n: int) -> Option<Seq<char>>
    decreases n,
{
    if n <= 0 {
        None
    } else {
        match queue_problem(ids, n - 1) {
            Some(t) => Some(t),
            None => if recipe_of(ids[n - 1]) is None {
                Some("百草堂中并无药方“"@ + ids[n - 1] + "”。"@)
            } else if ids.take(n - 1).contains(ids[n - 1]) {
                Some("常设药序中不宜重复列入同一药方。"@)
            } else {
                None
            },
        }
    }
}

proof fn lemma_problem_persists(ids: Seq<Seq<char>>, n: int, m: int)
    requires
        0 <= n <= m,
        queue_problem(ids, n) is Some,
    ensures
        queue_problem(ids, m) == queue_problem(ids, n),
    decreases m - n,
{
    if n < m {
        lemma_problem_persists(ids, n, m - 1);
    }
}

/// Names of the pills of the first `n` recipe ids.
pub open spec fn queue_names(ids: Seq<Seq<char>>, n: int) -> Seq<Seq<char>>
    decreases n,
{
    if n <= 0 {
        Seq::empty()
    } else {
        match recipe_of(ids[n - 1]) {
            Some(r) => queue_names(ids, n - 1).push(medicine_label(r.medicine)),
            None => queue_names(ids, n - 1),
        }
    }
}

/// The line for a new furnace queue.
pub open spec fn queue_text(ids: Seq<Seq<char>>) -> Seq<char> {
    if ids.len() == 0 {
        "百草堂已封存常设药炉，暂不自行炼药。"@
    } else {
        "百草堂重录常设药序："@ + join_text(queue_names(ids, ids.len() as int), "、"@) + "；往后依次循环开炉。"@
    }
}

pub fn join_names(names: &Vec<String>) -> (r: String)
    ensures
        r@ == join_text(names@.map_values(|s: String| s@), "、"@),
{
    let mut r = String::new();
    let mut k: usize = 0;
    while k < names.len()
        invariant
            k <= names@.len(),
            r@ == join_text(names@.map_values(|s: String| s@).take(k as int), "、"@),
        decreases names@.len() - k,
    {
        let ghost prev = names@.map_values(|s: String| s@).take(k as int);
        if k > 0 {
            r.append("、");
        }
        r.append(names[k].as_str());
        proof {
            let next = names@.map_values(|s: String| s@).take(k as int + 1);
            assert(next.drop_last() =~= prev);
            if k == 0 {
                assert(next =~= seq![names@[0]@]);
            }
        }
        k = k + 1;
    }
    proof {
        assert(names@.map_values(|s: String| s@).take(k as int) =~= names@.map_values(|s: String| s@));
    }
    r
}

/// What `set_auto_brew_queue` does: `after` and `r` are the state and result it leaves
/// for the state `before`.
pub open spec fn queue_outcome(before: GameState, recipe_ids: Seq<String>, after: GameState, r: Result<String, String>) -> bool {
    ({
        let s = before;
        let ids = texts_of(recipe_ids);
        if ids.len() > 3 {
            refused(r, "常设药序至多列3张不同药方。"@) && after == s
        } else {
            match queue_problem(ids, ids.len() as int) {
                Some(t) => refused(r, t) && after == s,
                None => {
                    &&& r matches Ok(t) && t@ == queue_text(ids)
                    &&& after.sect.auto_brew_queue@ == recipe_ids
                    &&& after == (GameState {
                        sect: SectState {
                            auto_brew_queue: after.sect.auto_brew_queue,
                            auto_brew_index: 0,
                            auto_brew_progress: 0,
                            ..s.sect
                        },
                        ..s
                    })
                },
            }
        }
    })
}

/// Sets the background furnace's queue of recipes. Refused with more than
/// three recipes, or at the first unknown or repeated recipe; otherwise the
/// queue starts afresh at its first recipe.
pub fn set_auto_brew_queue(state: &mut GameState, recipe_ids: Vec<String>) -> (r: Result<String, String>)
    ensures
        queue_outcome(*old(state), recipe_ids@, *final(state), r),
{
    let ghost ids = texts_of(recipe_ids@);
    if recipe_ids.len() > 3 {
        return Err(String::from_str("常设药序至多列3张不同药方。"));
    }
    let mut names: Vec<String> = Vec::new();
    let mut k: usize = 0;
    while k < recipe_ids.len()
        invariant
            k <= recipe_ids@.len(),
            recipe_ids@.len() <= 3,
            *state == *old(state),
            ids == texts_of(recipe_ids@),
            queue_problem(ids, k as int) is None,
            texts_of(names@) == queue_names(ids, k as int),
        decreases recipe_ids@.len() - k,
    {
        let id = recipe_ids[k].as_str();
        proof {
            assert(ids[k as int] == id@);
        }
        match pill_recipe(id) {
            None => {
                let mut t = String::from_str("百草堂中并无药方“");
                t.append(id);
                t.append("”。");
                proof {
                    assert(t@ == "百草堂中并无药方“"@ + ids[k as int] + "”。"@);
                    assert(queue_problem(ids, k as int + 1) == Some(t@));
                    lemma_problem_persists(ids, k as int + 1, ids.len() as int);
                }
                return Err(t);
            },
            Some(recipe) => {
                let mut j: usize = 0;
                while j < k
                    invariant
                        j <= k,
                        k < recipe_ids@.len(),
                        recipe_ids@.len() <= 3,
                        *state == *old(state),
                        ids == texts_of(recipe_ids@),
                        ids[k as int] == id@,
                        queue_problem(ids, k as int) is None,
                        recipe_of(ids[k as int]) is Some,
                        forall|q: int| 0 <= q < j ==> ids[q] != ids[k as int],
                    decreases k - j,
                {
                    proof {
                        assert(ids[j as int] == recipe_ids@[j as int]@);
                    }
                    if text_eq(recipe_ids[j].as_str(), id) {
                        proof {
                            assert(ids.take(k as int)[j as int] == ids[k as int]);
                            assert(ids.take(k as int).contains(ids[k as int]));
                            assert(queue_problem(ids, k as int + 1) == Some("常设药序中不宜重复列入同一药方。"@));
                            lemma_problem_persists(ids, k as int + 1, ids.len() as int);
                        }
                        return Err(String::from_str("常设药序中不宜重复列入同一药方。"));
                    }
                    j = j + 1;
                }
                proof {
                    assert(!ids.take(k as int).contains(ids[k as int]));
                }
                let ghost before = texts_of(names@);
                names.push(medicine_name(recipe.medicine).to_owned());
                proof {
                    assert(texts_of(names@) =~= before.push(medicine_label(recipe.medicine)));
                }
            },
        }
        k = k + 1;
    }
    let text = if recipe_ids.len() == 0 {
        String::from_str("百草堂已封存常设药炉，暂不自行炼药。")
    } else {
        let mut t = String::from_str("百草堂重录常设药序：");
        let joined = join_names(&names);
        t.append(joined.as_str());
        t.append("；往后依次循环开炉。");
        t
    };
    state.sect.auto_brew_queue = recipe_ids;
    state.sect.auto_brew_index = 0;
    state.sect.auto_brew_progress = 0;
    Ok(text)
}

/// The duties an elder may take up in a hall of kind `kind`, the usual one first.
pub open spec fn elder_duties(kind: BuildingKind) -> Seq<Seq<char>> {
    match kind {
        BuildingKind::Practice => seq!["instruct"@, "drill"@],
        BuildingKind::Scripture => seq!["curate"@, "comprehend"@],
        BuildingKind::Warehouse => seq!["audit"@, "purchase"@],
        BuildingKind::HerbHall => seq!["treat"@, "brew"@],
        BuildingKind::Intelligence => seq!["correspond"@, "scout"@],
        BuildingKind::Affairs => seq!["recruit"@, "arbitrate"@],
        BuildingKind::Logistics => seq!["maintain"@, "supervise"@, "expand"@],
    }
}

/// Whether `duty` belongs to halls of kind `kind`.
pub fn duty_allowed(kind: BuildingKind, duty: &str) -> (r: bool)
    ensures
        r == elder_duties(kind).contains(duty@),
{
    let r = match kind {
        BuildingKind::Practice => text_eq(duty, "instruct") || text_eq(duty, "drill"),
        BuildingKind::Scripture => text_eq(duty, "curate") || text_eq(duty, "comprehend"),
        BuildingKind::Warehouse => text_eq(duty, "audit") || text_eq(duty, "purchase"),
        BuildingKind::HerbHall => text_eq(duty, "treat") || text_eq(duty, "brew"),
        BuildingKind::Intelligence => text_eq(duty, "correspond") || text_eq(duty, "scout"),
        BuildingKind::Affairs => text_eq(duty, "recruit") || text_eq(duty, "arbitrate"),
        BuildingKind::Logistics => text_eq(duty, "maintain") || text_eq(duty, "supervise") || text_eq(duty, "expand"),
    };
    proof {
        let ds = elder_duties(kind);
        if ds.contains(duty@) {
            let q = choose|q: int| 0 <= q < ds.len() && ds[q] == duty@;
            assert(ds[q] == duty@);
        }
        if r {
            if ds.len() == 2 {
                assert(ds[0] == duty@ || ds[1] == duty@);
            } else {
                assert(ds[0] == duty@ || ds[1] == duty@ || ds[2] == duty@);
            }
        }
    }
    r
}

/// The usual duty of a hall of kind `kind`.
pub fn default_elder_duty(kind: BuildingKind) -> (r: &'static str)
    ensures
        r@ == elder_duties(kind)[0],
{
    match kind {
        BuildingKind::Practice => "instruct",
        BuildingKind::Scripture => "curate",
        BuildingKind::Warehouse => "audit",
        BuildingKind::HerbHall => "treat",
        BuildingKind::Intelligence => "correspond",
        BuildingKind::Affairs => "recruit",
        BuildingKind::Logistics => "maintain",
    }
}

/// The text of an optional string.
pub open spec fn opt_view(o: Option<String>) -> Option<Seq<char>> {
    match o {
        Some(s) => Some(s@),
        None => None,
    }
}

/// What `set_elder_duty` does: `after` and `r` are the state and result it leaves
/// for the state `before`.
pub open spec fn duty_outcome(before: GameState, building_id: Seq<char>, duty_id: Seq<char>, duty_target: Option<String>, after: GameState, r: Result<String, String>) -> bool {
    ({
        let s = before;
        let i = building_index(s.sect.buildings@, building_id);
        let b = s.sect.buildings@[i];
        if duty_id == "brew"@ && (match duty_target { Some(t) => recipe_of(t@) is None, None => false }) {
            refused(r, "百草堂中并无此方。"@) && after == s
        } else if i < 0 {
            refused(r, "门中并无此处建筑。"@) && after == s
        } else if !elder_duties(b.kind).contains(duty_id) {
            refused(r, "这桩事务不在该堂职掌之内。"@) && after == s
        } else {
            let keeps_target = duty_id == "expand"@ || duty_id == "brew"@;
            let nb = after.sect.buildings@[i];
            &&& r matches Ok(t) && t@ == b.elder_title@ + "已择定下月堂务，过月即依此办理。"@
            &&& after.sect.buildings@.len() == s.sect.buildings@.len()
            &&& forall|j: int| 0 <= j < s.sect.buildings@.len() && j != i ==> #[trigger] after.sect.buildings@[j] == s.sect.buildings@[j]
            &&& nb == (Building { selected_duty: nb.selected_duty, duty_target: nb.duty_target, elder_action_used: false, ..b })
            &&& opt_view(nb.selected_duty) == Some(duty_id)
            &&& opt_view(nb.duty_target) == (if keeps_target { opt_view(duty_target) } else { opt_view(b.duty_target) })
            &&& after == (GameState { sect: SectState { buildings: after.sect.buildings, ..s.sect }, ..s })
        }
    })
}

/// Chooses a hall elder's duty for the coming months. Refused for a brew of
/// an unknown recipe, for an unknown hall, or for a duty outside the hall's
/// charge. The expansion and brewing duties also keep their target.
pub fn set_elder_duty(state: &mut GameState, building_id: &str, duty_id: &str, duty_target: Option<String>) -> (r: Result<String, String>)
    ensures
        duty_outcome(*old(state), building_id@, duty_id@, duty_target, *final(state), r),
{
    if text_eq(duty_id, "brew") {
        match &duty_target {
            Some(t) => {
                if pill_recipe(t.as_str()).is_none() {
                    return Err(String::from_str("百草堂中并无此方。"));
                }
            },
            None => {},
        }
    }
    let i = match find_building(&state.sect.buildings, building_id) {
        Some(i) => i,
        None => return Err(String::from_str("门中并无此处建筑。")),
    };
    if !duty_allowed(state.sect.buildings[i].kind, duty_id) {
        return Err(String::from_str("这桩事务不在该堂职掌之内。"));
    }
    if text_eq(duty_id, "expand") || text_eq(duty_id, "brew") {
        state.sect.buildings[i].duty_target = duty_target;
    }
    state.sect.buildings[i].selected_duty = Some(duty_id.to_owned());
    state.sect.buildings[i].elder_action_used = false;
    let mut t = state.sect.buildings[i].elder_title.clone();
    t.append("已择定下月堂务，过月即依此办理。");
    Ok(t)
}

/// The line for an expelled disciple.
pub open spec fn expel_text(name: Seq<char>) -> Seq<char> {
    name + "被逐出山门，自此恩义两断。"@
}

/// What `expel` does: `after` and `r` are the state and result it leaves
/// for the state `before`.
pub open spec fn expel_outcome(before: GameState, disciple_id: Seq<char>, after: GameState, r: Result<String, String>) -> bool {
    ({
        let s = before;
        let i = disciple_index(s.disciples@, disciple_id);
        if i < 0 {
            refused(r, "查无此人。"@) && after == s
        } else {
            let rest = s.disciples@.remove(i);
            &&& r matches Ok(t) && t@ == expel_text(s.disciples@[i].name@)
            &&& after.disciples@.len() == rest.len()
            &&& forall|j: int| 0 <= j < rest.len() ==> #[trigger] after.disciples@[j] == (if master_kept(rest, j) {
                rest[j]
            } else {
                Disciple { master_id: None, ..rest[j] }
            })
            &&& after.sect.buildings@.len() == s.sect.buildings@.len()
            &&& forall|b: int| 0 <= b < s.sect.buildings@.len() ==> #[trigger] after.sect.buildings@[b] == (if elder_kept(s.sect.buildings@, rest, b) {
                s.sect.buildings@[b]
            } else {
                Building { elder_id: None, elder_action_used: false, ..s.sect.buildings@[b] }
            })
            &&& after.sect.attributes.morale == (if s.sect.attributes.morale - 4 < 0 { 0 } else { s.sect.attributes.morale - 4 })
            &&& after == (GameState {
                disciples: after.disciples,
                sect: SectState {
                    buildings: after.sect.buildings,
                    attributes: crate::sect::SectAttributes { morale: after.sect.attributes.morale, ..s.sect.attributes },
                    ..s.sect
                },
                ..s
            })
        }
    })
}

/// Expels a disciple (the first with that id). The halls lose an elder who
/// no longer qualifies, the remaining roster's master links are normalized,
/// and morale falls by 4 (not below 0). Refused when nobody has that id.
pub fn expel(state: &mut GameState, disciple_id: &str) -> (r: Result<String, String>)
    ensures
        expel_outcome(*old(state), disciple_id@, *final(state), r),
{
    let i = match find_disciple(&state.disciples, disciple_id) {
        Some(i) => i,
        None => return Err(String::from_str("查无此人。")),
    };
    let gone = state.disciples.remove(i);
    normalize_elder_assignments(&mut state.sect, &state.disciples);
    normalize_master_assignments(&mut state.disciples);
    let m: i64 = state.sect.attributes.morale as i64 - 4;
    state.sect.attributes.morale = if m < 0 { 0 } else { m as i32 };
    let mut t = gone.name;
    t.append("被逐出山门，自此恩义两断。");
    Ok(t)
}

/// Merit a rank calls for.
pub open spec fn rank_merit(rank: DiscipleRank) -> int {
    match rank {
        DiscipleRank::Chore => 0,
        DiscipleRank::Outer => 10,
        DiscipleRank::Inner => 40,
    }
}

/// Display name of a rank.
pub open spec fn rank_label(rank: DiscipleRank) -> Seq<char> {
    match rank {
        DiscipleRank::Chore => "杂役"@,
        DiscipleRank::Outer => "外门"@,
        DiscipleRank::Inner => "内门"@,
    }
}

/// Display name of a rank.
pub fn rank_name(rank: DiscipleRank) -> (r: &'static str)
    ensures
        r@ == rank_label(rank),
{
    match rank {
        DiscipleRank::Chore => "杂役",
        DiscipleRank::Outer => "外门",
        DiscipleRank::Inner => "内门",
    }
}

fn same_department(a: Option<Department>, b: Option<Department>) -> (r: bool)
    ensures
        r == (a == b),
{
    match (a, b) {
        (Some(x), Some(y)) => x == y,
        (None, None) => true,
        _ => false,
    }
}

/// The quota of `rank` in `ds` for `sect`, if the rank has one.
pub open spec fn rank_quota(sect: SectState, ds: Seq<Disciple>, rank: DiscipleRank) -> Option<int> {
    match rank {
        DiscipleRank::Chore => None,
        DiscipleRank::Outer => Some(spec_rank_limits(sect, ds).0),
        DiscipleRank::Inner => Some(spec_rank_limits(sect, ds).1),
    }
}

/// The refusal for a full rank.
pub open spec fn quota_full_text(rank: DiscipleRank, count: int, limit: int) -> Seq<char> {
    rank_label(rank) + "名额已满（现有"@ + int_text(count) + "/上限"@ + int_text(limit) + "）。"@
}

/// `d` appointed to `rank` and `department`, with four more loyalty (not
/// above 100) and its mirrors refreshed.
pub open spec fn appointed(d: Disciple, rank: DiscipleRank, department: Option<Department>) -> Disciple {
    let l = d.attributes.sect_loyalty + 4;
    synced(Disciple {
        rank,
        department,
        attributes: crate::model::AcquiredAttributes { sect_loyalty: (if l > 100 { 100 } else { l }) as i32, ..d.attributes },
        ..d
    })
}

/// The roster after master links are normalized.
pub open spec fn masters_normalized(before: Seq<Disciple>, after: Seq<Disciple>) -> bool {
    &&& after.len() == before.len()
    &&& forall|j: int| 0 <= j < before.len() ==> #[trigger] after[j] == (if master_kept(before, j) {
        before[j]
    } else {
        Disciple { master_id: None, ..before[j] }
    })
}

/// The halls after elders are checked against the roster `ds`.
pub open spec fn elders_normalized(before: Seq<Building>, ds: Seq<Disciple>, after: Seq<Building>) -> bool {
    &&& after.len() == before.len()
    &&& forall|b: int| 0 <= b < before.len() ==> #[trigger] after[b] == (if elder_kept(before, ds, b) {
        before[b]
    } else {
        Building { elder_id: None, elder_action_used: false, ..before[b] }
    })
}

/// What `set_personnel` does: `after` and `r` are the state and result it leaves
/// for the state `before`.
pub open spec fn personnel_outcome(before: GameState, disciple_id: Seq<char>, rank: DiscipleRank, department: Option<Department>, after: GameState, r: Result<String, String>) -> bool {
    ({
        let s = before;
        let ds = s.disciples@;
        let i = disciple_index(ds, disciple_id);
        let d = ds[i];
        let count = rank_count(ds, rank, ds.len() as int);
        if i < 0 {
            refused(r, "查无此人。"@) && after == s
        } else if d.rank == rank && d.department == department {
            refused(r, "此人的品秩与职司均未改变，无须重复任用。"@) && after == s
        } else if d.rank != rank && (rank_quota(s.sect, ds, rank) matches Some(limit) && count >= limit) {
            refused(r, quota_full_text(rank, count, rank_quota(s.sect, ds, rank).unwrap())) && after == s
        } else if d.merit < rank_merit(rank) {
            refused(r, "此人功绩尚浅，须有"@ + int_text(rank_merit(rank)) + "点功绩方可任用。"@) && after == s
        } else {
            let updated = ds.update(i, appointed(d, rank, department));
            &&& r matches Ok(t) && t@ == "经掌门考校，"@ + d.name@ + "获授新职，门中众人皆来道贺。"@
            &&& masters_normalized(updated, after.disciples@)
            &&& elders_normalized(s.sect.buildings@, updated, after.sect.buildings@)
            &&& after == (GameState {
                disciples: after.disciples,
                sect: SectState { buildings: after.sect.buildings, ..s.sect },
                ..s
            })
        }
    })
}

/// Gives a disciple a new rank and department. Refused when nobody has that
/// id, when nothing would change, when the new rank's quota is full, or when
/// the disciple's merit falls short of the rank (0, 10 or 40); otherwise the
/// disciple is appointed (see `appointed`), and elders and master links are
/// checked against the new roster.
pub fn set_personnel(state: &mut GameState, disciple_id: &str, rank: DiscipleRank, department: Option<Department>) -> (r: Result<String, String>)
    requires
        ({
            let i = disciple_index(old(state).disciples@, disciple_id@);
            i >= 0 ==> aptitudes_fit(old(state).disciples@[i].aptitudes)
        }),
    ensures
        personnel_outcome(*old(state), disciple_id@, rank, department, *final(state), r),
{
    let i = match find_disciple(&state.disciples, disciple_id) {
        Some(i) => i,
        None => return Err(String::from_str("查无此人。")),
    };
    let current_rank = state.disciples[i].rank;
    if current_rank == rank && same_department(state.disciples[i].department, department) {
        return Err(String::from_str("此人的品秩与职司均未改变，无须重复任用。"));
    }
    if current_rank != rank {
        let (outer_limit, inner_limit) = rank_limits(&state.sect, &state.disciples);
        let count = count_rank(&state.disciples, rank);
        let limit: Option<usize> = match rank {
            DiscipleRank::Chore => None,
            DiscipleRank::Outer => Some(outer_limit),
            DiscipleRank::Inner => Some(inner_limit),
        };
        match limit {
            Some(limit) => {
                if count >= limit {
                    let mut t = rank_name(rank).to_owned();
                    t.append("名额已满（现有");
                    let a = decimal_wide(count as u64);
                    t.append(a.as_str());
                    t.append("/上限");
                    let b = decimal_wide(limit as u64);
                    t.append(b.as_str());
                    t.append("）。");
                    return Err(t);
                }
            },
            None => {},
        }
    }
    let required: i64 = match rank {
        DiscipleRank::Chore => 0,
        DiscipleRank::Outer => 10,
        DiscipleRank::Inner => 40,
    };
    if state.disciples[i].merit < required {
        let mut t = String::from_str("此人功绩尚浅，须有");
        let a = int_string(required);
        t.append(a.as_str());
        t.append("点功绩方可任用。");
        return Err(t);
    }
    let ghost ds = state.disciples@;
    state.disciples[i].rank = rank;
    state.disciples[i].department = department;
    let l: i64 = state.disciples[i].attributes.sect_loyalty as i64 + 4;
    state.disciples[i].attributes.sect_loyalty = if l > 100 { 100 } else { l as i32 };
    sync_legacy_attributes(&mut state.disciples[i]);
    assert(state.disciples@ =~= ds.update(i as int, appointed(ds[i as int], rank, department)));
    let mut t = String::from_str("经掌门考校，");
    t.append(state.disciples[i].name.as_str());
    t.append("获授新职，门中众人皆来道贺。");
    normalize_elder_assignments(&mut state.sect, &state.disciples);
    normalize_master_assignments(&mut state.disciples);
    Ok(t)
}

} // verus!
