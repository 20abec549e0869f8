//! Quick brews ordered by the head: the herb hall starts a batch that lands
//! in the stores when its months run out.
use vstd::prelude::*;
use crate::economy::{medicine_label, medicine_name, pill_recipe, recipe_of};
use crate::elder_duties::stock_moved;
use crate::game::GameState;
use crate::management::{consume_inventory, int_string, int_text, refused};
use crate::recruitment::{require_hall, ruined_text};
use crate::sect::{spec_building_effectiveness, trunc_div, ProductionTask, SectAttributes, SectState};
use crate::text::decimal_wide;

verus! {

/// Months of a quick brew of a recipe needing `months` at full pace: two
/// thirds of them (rounded up), stretched by the hall's effectiveness `eff`
/// percent (rounded up).
pub open spec fn quick_brew_months(months: int, eff: int) -> int {
    let quick = trunc_div(months * 2 + 2, 3);
    trunc_div(quick * 100 + eff - 1, eff)
}

/// The id of a batch: the recipe id, the year, the month and the number of
/// batches already under way, joined by underscores.
pub open spec fn batch_id(recipe_id: Seq<char>, year: int, month: int, n: int) -> Seq<char> {
    recipe_id + "_"@ + int_text(year) + "_"@ + int_text(month) + "_"@ + int_text(n)
}

/// What `brew_pill` does: `after` and `r` are the state and result it leaves
/// for the state `before`.
pub open spec fn brew_pill_outcome(before: GameState, recipe_id: Seq<char>, after: GameState, r: Result<String, String>) -> bool {
    match recipe_of(recipe_id) {
        None => refused(r, "百草堂中并无此方。"@) && after == before,
        Some(rc) => {
            let eff = spec_building_effectiveness(before.sect, "herb_hall"@);
            let herbs = before.sect.inventory.amount("草药"@);
            let a = before.sect.attributes;
            let name = medicine_label(rc.medicine);
            if eff <= 0 {
                refused(r, ruined_text("百草堂"@)) && after == before
            } else if herbs < rc.herb_cost {
                refused(r, "草药不足，尚缺"@ + int_text(rc.herb_cost - herbs) + "份。"@) && after == before
            } else if a.silver < rc.silver_cost {
                refused(r, "库银不足以开炉，尚缺"@ + int_text(rc.silver_cost - a.silver) + "两。"@) && after == before
            } else {
                let months = quick_brew_months(rc.months as int, eff);
                let ps = after.sect.productions@;
                let t = ps.last();
                &&& r matches Ok(text) && text@ == "掌门命百草堂快速开炉炼制"@ + name + "，耗草药"@ + int_text(rc.herb_cost as int) + "份、库银"@
                    + int_text(rc.silver_cost as int) + "两，需时"@ + int_text(months) + "个月。"@
                &&& stock_moved(before.sect.inventory, after.sect.inventory, "草药"@, -rc.herb_cost)
                &&& ps.len() == before.sect.productions@.len() + 1
                &&& ps.drop_last() == before.sect.productions@
                &&& t.id@ == batch_id(recipe_id, before.year as int, before.month as int, before.sect.productions@.len() as int)
                &&& t.name@ == name
                &&& t.output_item@ == name
                &&& t.quantity == rc.quantity
                &&& t.remaining_months == months
                &&& after == (GameState {
                    sect: SectState {
                        attributes: SectAttributes { silver: (a.silver - rc.silver_cost) as i32, ..a },
                        inventory: after.sect.inventory,
                        productions: after.sect.productions,
                        ..before.sect
                    },
                    ..before
                })
            }
        },
    }
}

/// Starts a quick brew of a recipe in the herb hall. Refused for an unknown
/// recipe, while the herb hall is ruined, or when herbs or silver are short;
/// otherwise the herbs and silver are spent and a batch set to land after
/// `quick_brew_months`.
pub fn brew_pill(state: &mut GameState, recipe_id: &str) -> (r: Result<String, String>)
    requires
        old(state).sect.productions@.len() < usize::MAX,
    ensures
        brew_pill_outcome(*old(state), recipe_id@, *final(state), r),
{
    proof {
        reveal_strlit("草药");
    }
    let rc = match pill_recipe(recipe_id) {
        Some(rc) => rc,
        None => return Err(String::from_str("百草堂中并无此方。")),
    };
    let eff = match require_hall(state, "herb_hall", "百草堂") {
        Ok(e) => e,
        Err(t) => return Err(t),
    };
    let herbs = state.sect.inventory.amount_of("草药");
    if herbs < rc.herb_cost {
        let mut t = String::from_str("草药不足，尚缺");
        let n = int_string(rc.herb_cost as i64 - herbs as i64);
        t.append(n.as_str());
        t.append("份。");
        return Err(t);
    }
    if state.sect.attributes.silver < rc.silver_cost {
        let mut t = String::from_str("库银不足以开炉，尚缺");
        let n = int_string(rc.silver_cost as i64 - state.sect.attributes.silver as i64);
        t.append(n.as_str());
        t.append("两。");
        return Err(t);
    }
    state.sect.attributes.silver = state.sect.attributes.silver - rc.silver_cost;
    consume_inventory(state, "草药", rc.herb_cost);
    let quick = (rc.months * 2 + 2) / 3;
    let months = (quick * 100 + eff - 1) / eff;
    let name = medicine_name(rc.medicine);
    let mut id = recipe_id.to_owned();
    id.append("_");
    let y = int_string(state.year as i64);
    id.append(y.as_str());
    id.append("_");
    let m = int_string(state.month as i64);
    id.append(m.as_str());
    id.append("_");
    let k = decimal_wide(state.sect.productions.len() as u64);
    id.append(k.as_str());
    let ghost before = state.sect.productions@;
    state.sect.productions.push(ProductionTask {
        id,
        name: name.to_owned(),
        output_item: name.to_owned(),
        quantity: rc.quantity,
        remaining_months: months,
    });
    assert(state.sect.productions@.drop_last() =~= before);
    let mut t = String::from_str("掌门命百草堂快速开炉炼制");
    t.append(name);
    t.append("，耗草药");
    let a = int_string(rc.herb_cost as i64);
    t.append(a.as_str());
    t.append("份、库银");
    let b = int_string(rc.silver_cost as i64);
    t.append(b.as_str());
    t.append("两，需时");
    let c = int_string(months as i64);
    t.append(c.as_str());
    t.append("个月。");
    Ok(t)
}

} // verus!
