//! Dealings with allied sects through the intelligence pavilion: calling
//! for aid, and trading the sect's goods.
use vstd::prelude::*;
use rand::rngs::StdRng;
use crate::chance::rand_range;
use crate::country::trunc_div;
use crate::game::GameState;
use crate::management::{int_string, int_text, refused, silver_short_text, spend};
use crate::model::{AcquiredAttributes, Disciple, DiscipleRank};
use crate::recruit::{generate_disciple, recruited};
use crate::recruitment::{require_hall, ruined_text};
use crate::sect::{spec_building_effectiveness, SectAttributes, SectState};
use crate::text::text_eq;

verus! {

/// `i` is the first of the other sects with the id `id`.
pub open spec fn is_first_sect(ss: Seq<SectState>, id: Seq<char>, i: int) -> bool {
    &&& 0 <= i < ss.len()
    &&& ss[i].id@ == id
    &&& forall|j: int| 0 <= j < i ==> (#[trigger] ss[j]).id@ != id
}

/// Position of the first other sect with the id `id`, or -1 when none has it.
pub open spec fn sect_index(ss: Seq<SectState>, id: Seq<char>) -> int {
    if exists|i: int| is_first_sect(ss, id, i) {
        choose|i: int| is_first_sect(ss, id, i)
    } else {
        -1
    }
}

/// Position of the first other sect with the id `id`.
pub fn find_sect(state: &GameState, id: &str) -> (r: Option<usize>)
    ensures
        match r {
            Some(i) => i as int == sect_index(state.npc_sects@, id@) && is_first_sect(state.npc_sects@, id@, i as int),
            None => sect_index(state.npc_sects@, id@) == -1,
        },
{
    let mut i: usize = 0;
    while i < state.npc_sects.len()
        invariant
            i <= state.npc_sects@.len(),
            forall|j: int| 0 <= j < i ==> (#[trigger] state.npc_sects@[j]).id@ != id@,
        decreases state.npc_sects@.len() - i,
    {
        if text_eq(state.npc_sects[i].id.as_str(), id) {
            proof {
                assert(is_first_sect(state.npc_sects@, id@, i as int));
                let k = choose|k: int| is_first_sect(state.npc_sects@, id@, k);
                if k < i {
                    assert(state.npc_sects@[k].id@ != id@);
                } else if k > i {
                    assert(state.npc_sects@[i as int].id@ != id@);
                }
            }
            return Some(i);
        }
        i = i + 1;
    }
    None
}

/// The name of the other sect `id`, or the id itself when none has it.
pub open spec fn spec_sect_name(s: GameState, id: Seq<char>) -> Seq<char> {
    let i = sect_index(s.npc_sects@, id);
    if i >= 0 {
        s.npc_sects@[i].name@
    } else {
        id
    }
}

/// The name of the other sect `id`, or the id itself.
pub fn sect_name(state: &GameState, id: &str) -> (r: String)
    ensures
        r@ == spec_sect_name(*state, id@),
{
    match find_sect(state, id) {
        Some(i) => state.npc_sects[i].name.clone(),
        None => String::from_str(id),
    }
}

/// How the other sect `id` stands towards the player's sect, or zero.
pub open spec fn their_regard(s: GameState, id: Seq<char>) -> int {
    let i = sect_index(s.npc_sects@, id);
    if i >= 0 {
        s.npc_sects@[i].relations.amount("player"@)
    } else {
        0
    }
}

/// The player's sect and the other sect `id` are allies: each stands at
/// least 70 towards the other.
pub open spec fn spec_is_ally(s: GameState, id: Seq<char>) -> bool {
    let mine = s.sect.relations.amount(id);
    let theirs = their_regard(s, id);
    (if mine < theirs {
        mine
    } else {
        theirs
    }) >= 70
}

/// Whether the other sect `id` is an ally.
pub fn is_ally(state: &GameState, id: &str) -> (r: bool)
    ensures
        r == spec_is_ally(*state, id@),
{
    let mine = state.sect.relations.amount_of(id);
    let theirs = match find_sect(state, id) {
        Some(i) => state.npc_sects[i].relations.amount_of("player"),
        None => 0,
    };
    (if mine < theirs { mine } else { theirs }) >= 70
}

/// The refusal for a sect that is no ally.
pub open spec fn no_ally_text() -> Seq<char> {
    "此派与本门尚未结盟。"@
}

/// The relations of `new` are those of `old` with `delta` added towards
/// `other`, and nothing else of the sect changed but `attrs`.
pub open spec fn regard_raised(old: SectState, new: SectState, other: Seq<char>, delta: int, attrs: SectAttributes) -> bool {
    &&& new.relations.as_map() == old.relations.as_map().insert(other, (old.relations.amount(other) + delta) as i32)
    &&& new == SectState { relations: new.relations, attributes: attrs, ..old }
}

/// `after` is `before` with both sides' regard raised by `gain`, the player's
/// sect's attributes set to `attrs`, and the roster and count `ds`, `total`.
pub open spec fn ties_raised(before: GameState, after: GameState, id: Seq<char>, gain: int, attrs: SectAttributes) -> bool {
    let i = sect_index(before.npc_sects@, id);
    &&& 0 <= i < before.npc_sects@.len()
    &&& regard_raised(before.sect, after.sect, id, gain, attrs)
    &&& after.npc_sects@.len() == before.npc_sects@.len()
    &&& regard_raised(before.npc_sects@[i], after.npc_sects@[i], "player"@, gain, before.npc_sects@[i].attributes)
    &&& forall|j: int| 0 <= j < before.npc_sects@.len() && j != i ==> #[trigger] after.npc_sects@[j] == before.npc_sects@[j]
}

/// The regard of both sides may grow by `gain` within `i32`.
pub open spec fn ties_fit(s: GameState, id: Seq<char>, gain: int) -> bool {
    &&& s.sect.relations.amount(id) + gain <= i32::MAX
    &&& their_regard(s, id) + gain <= i32::MAX
}

pub(crate) fn raise_ties(state: &mut GameState, id: &str, i: usize, gain: i32)
    requires
        1 <= gain,
        i as int == sect_index(old(state).npc_sects@, id@),
        0 <= i < old(state).npc_sects@.len(),
        ties_fit(*old(state), id@, gain as int),
    ensures
        ties_raised(*old(state), *final(state), id@, gain as int, old(state).sect.attributes),
        *final(state) == (GameState { sect: final(state).sect, npc_sects: final(state).npc_sects, ..*old(state) }),
{
    state.sect.relations.add(id, gain);
    state.npc_sects[i].relations.add("player", gain);
    proof {
        assert(state.sect.relations.as_map() =~= old(state).sect.relations.as_map().insert(
            id@,
            (old(state).sect.relations.amount(id@) + gain) as i32,
        ));
        let o = old(state).npc_sects@[i as int];
        assert(state.npc_sects@[i as int].relations.as_map() =~= o.relations.as_map().insert(
            "player"@,
            (o.relations.amount("player"@) + gain) as i32,
        ));
    }
}

/// The line of an ally's aid.
pub open spec fn aid_text(ally: Seq<char>, name: Seq<char>, gain: int) -> Seq<char> {
    ally + "遣精锐弟子"@ + name + (if gain >= 8 {
        "，两派情谊愈加深厚"@
    } else {
        ""@
    }) + "来援，自此列入本派门墙。"@
}

/// The ally `id` answered the call: 80 silver paid, both sides' regard up by
/// `gain` (`5..=9`), and the recruit `d` (drawn with a twentieth of the
/// prestige as talent bonus) joins the player's sect as a chore disciple of
/// loyalty 70.
pub open spec fn aid_given(before: GameState, id: Seq<char>, after: GameState, r: Result<String, String>, gain: int, d: Disciple) -> bool {
    let paid = SectAttributes { silver: (before.sect.attributes.silver - 80) as i32, ..before.sect.attributes };
    let n = after.disciples@.last();
    &&& 5 <= gain <= 9
    &&& recruited(d, trunc_div(before.sect.attributes.prestige as int, 20))
    &&& ties_raised(before, after, id, gain, paid)
    &&& after.disciples@ == before.disciples@.push(n)
    &&& (match n.sect_id {
        Some(x) => x@ == "player"@,
        None => false,
    })
    &&& n == Disciple {
        sect_id: n.sect_id,
        rank: DiscipleRank::Chore,
        attributes: AcquiredAttributes { sect_loyalty: 70, ..d.attributes },
        ..d
    }
    &&& after == GameState {
        sect: after.sect,
        npc_sects: after.npc_sects,
        disciples: after.disciples,
        total_disciples_recruited: (before.total_disciples_recruited + 1) as i32,
        ..before
    }
    &&& r matches Ok(t) && t@ == aid_text(spec_sect_name(before, id), d.name@, gain)
}

/// What `call_aid` does.
pub open spec fn aid_outcome(before: GameState, id: Seq<char>, after: GameState, r: Result<String, String>) -> bool {
    if spec_building_effectiveness(before.sect, "intelligence"@) <= 0 {
        refused(r, ruined_text("天枢阁"@)) && after == before
    } else if !spec_is_ally(before, id) {
        refused(r, no_ally_text()) && after == before
    } else if before.sect.attributes.silver < 80 {
        refused(r, silver_short_text(80 - before.sect.attributes.silver)) && after == before
    } else {
        exists|gain: int, d: Disciple| #[trigger] aid_given(before, id, after, r, gain, d)
    }
}

/// Calls on the ally `id` for aid through the intelligence pavilion:
/// refused while the pavilion is ruined, when `id` is no ally, or when the
/// 80 silver it costs are short.
pub fn call_aid(rng: &mut StdRng, state: &mut GameState, id: &str) -> (r: Result<String, String>)
    requires
        old(state).disciples@.len() < usize::MAX,
        old(state).total_disciples_recruited < i32::MAX,
        ties_fit(*old(state), id@, 9),
    ensures
        aid_outcome(*old(state), id@, *final(state), r),
{
    match require_hall(state, "intelligence", "天枢阁") {
        Ok(_) => {},
        Err(e) => return Err(e),
    }
    if !is_ally(state, id) {
        return Err(String::from_str("此派与本门尚未结盟。"));
    }
    let i = match find_sect(state, id) {
        Some(i) => i,
        None => return Err(String::from_str("江湖中查无此派。")),
    };
    match spend(state, 80) {
        Ok(()) => {},
        Err(e) => return Err(e),
    }
    let gain = rand_range(rng, 5, 9);
    let ghost paid = *state;
    raise_ties(state, id, i, gain);
    let ally_name = state.npc_sects[i].name.clone();
    let prestige = state.sect.attributes.prestige;
    let mut recruit = generate_disciple(rng, prestige / 20);
    let ghost d = recruit;
    recruit.sect_id = Some(String::from_str("player"));
    recruit.rank = DiscipleRank::Chore;
    recruit.attributes.sect_loyalty = 70;
    let name = recruit.name.clone();
    state.disciples.push(recruit);
    state.total_disciples_recruited = state.total_disciples_recruited + 1;
    let mut text = ally_name;
    text.append("遣精锐弟子");
    text.append(name.as_str());
    if gain >= 8 {
        text.append("，两派情谊愈加深厚");
    }
    text.append("来援，自此列入本派门墙。");
    let r = Ok(text);
    proof {
        reveal_strlit("");
        assert(aid_given(*old(state), id@, *state, r, gain as int, d));
    }
    r
}

/// The goods an ally buys, and the silver each share fetches.
pub open spec fn trade_price(item: Seq<char>) -> int {
    if item == "草药"@ {
        3
    } else if item == "精铁"@ {
        5
    } else {
        2
    }
}

/// The goods an ally buys: herbs, iron and grain.
pub open spec fn tradable(item: Seq<char>) -> bool {
    item == "草药"@ || item == "精铁"@ || item == "粮秣"@
}

/// The refusal for a stock short of `quantity` shares of `item`.
pub open spec fn trade_short_text(item: Seq<char>, quantity: int) -> Seq<char> {
    "门中"@ + item + "不足"@ + int_text(quantity) + "份。"@
}

/// The line of a trade with an ally.
pub open spec fn trade_text(quantity: int, item: Seq<char>, silver: int, ally: Seq<char>, gain: int) -> Seq<char> {
    "以"@ + int_text(quantity) + "份"@ + item + "易得"@ + int_text(silver) + "两库银，"@ + ally + "商人甚感满意，双方交情添了"@
        + int_text(gain) + "分。"@
}

/// The trade took place: the shares left the stores, their price came into
/// the treasury, and both sides' regard rose by `gain` (`2..=4`).
pub open spec fn trade_done(before: GameState, id: Seq<char>, item: Seq<char>, quantity: int, after: GameState, r: Result<String, String>, gain: int) -> bool {
    let silver = quantity * trade_price(item);
    let attrs = SectAttributes { silver: (before.sect.attributes.silver + silver) as i32, ..before.sect.attributes };
    let stocked = SectState { inventory: after.sect.inventory, ..before.sect };
    let mid = GameState { sect: stocked, ..before };
    &&& 2 <= gain <= 4
    &&& after.sect.inventory.as_map() == before.sect.inventory.as_map().insert(
        item,
        (before.sect.inventory.amount(item) - quantity) as i32,
    )
    &&& ties_raised(mid, after, id, gain, attrs)
    &&& after == GameState { sect: after.sect, npc_sects: after.npc_sects, ..before }
    &&& r matches Ok(t) && t@ == trade_text(quantity, item, silver, spec_sect_name(before, id), gain)
}

/// What `trade` does.
pub open spec fn trade_outcome(before: GameState, id: Seq<char>, item: Seq<char>, quantity: int, after: GameState, r: Result<String, String>) -> bool {
    if spec_building_effectiveness(before.sect, "intelligence"@) <= 0 {
        refused(r, ruined_text("天枢阁"@)) && after == before
    } else if !spec_is_ally(before, id) {
        refused(r, no_ally_text()) && after == before
    } else if quantity <= 0 || quantity > 50 {
        refused(r, "交易数量须在一至五十份之间。"@) && after == before
    } else if !tradable(item) {
        refused(r, "只可交易草药、精铁或粮秣。"@) && after == before
    } else if before.sect.inventory.amount(item) < quantity {
        refused(r, trade_short_text(item, quantity)) && after == before
    } else {
        exists|gain: int| #[trigger] trade_done(before, id, item, quantity, after, r, gain)
    }
}

/// Sells `quantity` shares of `item` to the ally `id` through the
/// intelligence pavilion: refused while the pavilion is ruined, when `id` is
/// no ally, for a quantity outside `1..=50`, for goods other than herbs,
/// iron and grain, or when the stores are short.
pub fn trade(rng: &mut StdRng, state: &mut GameState, id: &str, item: &str, quantity: i32) -> (r: Result<String, String>)
    requires
        old(state).sect.attributes.silver + 250 <= i32::MAX,
        ties_fit(*old(state), id@, 4),
    ensures
        trade_outcome(*old(state), id@, item@, quantity as int, *final(state), r),
{
    match require_hall(state, "intelligence", "天枢阁") {
        Ok(_) => {},
        Err(e) => return Err(e),
    }
    if !is_ally(state, id) {
        return Err(String::from_str("此派与本门尚未结盟。"));
    }
    if quantity <= 0 || quantity > 50 {
        return Err(String::from_str("交易数量须在一至五十份之间。"));
    }
    let per_unit: i32 = if text_eq(item, "草药") {
        3
    } else if text_eq(item, "精铁") {
        5
    } else if text_eq(item, "粮秣") {
        2
    } else {
        return Err(String::from_str("只可交易草药、精铁或粮秣。"));
    };
    let available = state.sect.inventory.amount_of(item);
    if available < quantity {
        let mut t = String::from_str("门中");
        t.append(item);
        t.append("不足");
        t.append(int_string(quantity as i64).as_str());
        t.append("份。");
        return Err(t);
    }
    let i = match find_sect(state, id) {
        Some(i) => i,
        None => return Err(String::from_str("江湖中查无此派。")),
    };
    state.sect.inventory.add(item, 0 - quantity);
    let silver_gain = quantity * per_unit;
    state.sect.attributes.silver = state.sect.attributes.silver + silver_gain;
    let gain = rand_range(rng, 2, 4);
    let ghost stocked = *state;
    proof {
        assert(state.sect.inventory.as_map() =~= old(state).sect.inventory.as_map().insert(
            item@,
            (old(state).sect.inventory.amount(item@) - quantity) as i32,
        ));
    }
    raise_ties(state, id, i, gain);
    let ally_name = state.npc_sects[i].name.clone();
    let mut text = String::from_str("以");
    text.append(int_string(quantity as i64).as_str());
    text.append("份");
    text.append(item);
    text.append("易得");
    text.append(int_string(silver_gain as i64).as_str());
    text.append("两库银，");
    text.append(ally_name.as_str());
    text.append("商人甚感满意，双方交情添了");
    text.append(int_string(gain as i64).as_str());
    text.append("分。");
    let r = Ok(text);
    proof {
        assert(trade_done(*old(state), id@, item@, quantity as int, *state, r, gain as int));
    }
    r
}

} // verus!
