//! The monthly household of the player's sect: the herb hall's background
//! furnace, stipends and rations, travel rations, treatment of the injured
//! and the wear of the halls.
use vstd::prelude::*;
use rand::rngs::StdRng;
use crate::chance::rand_range;
use crate::disciple::{aptitudes_fit, can_act, refresh_condition, refreshed, spec_can_act, sync_legacy_attributes, synced};
use crate::game::GameState;
use crate::lineage::{opt_text, opt_text_eq};
use crate::model::{AcquiredAttributes, ActionKind, ActionPlan, BuildingKind, Disciple, DiscipleCondition, DiscipleRank, GameEvent, ResourcePool};
use crate::sect::{Building, SectState, building_effectiveness, spec_building_effectiveness};
use crate::text::{decimal, decimal_text, text_eq};

verus! {

/// The pills of the background furnace.
#[derive(Clone, Copy, Debug, PartialEq, Eq, Structural)]
pub enum Medicine {
    Wound,
    Qi,
    Foundation,
}

/// Stock name of a pill.
pub open spec fn medicine_label(m: Medicine) -> Seq<char> {
    match m {
        Medicine::Wound => "金疮药"@,
        Medicine::Qi => "养气丹"@,
        Medicine::Foundation => "培元丹"@,
    }
}

/// Stock name of a pill.
pub fn medicine_name(m: Medicine) -> (r: &'static str)
    ensures
        r@ == medicine_label(m),
{
    match m {
        Medicine::Wound => "金疮药",
        Medicine::Qi => "养气丹",
        Medicine::Foundation => "培元丹",
    }
}

/// A furnace recipe: herbs and silver it takes, pills it yields, and the
/// months it needs at full effectiveness.
#[derive(Clone, Copy, Debug, PartialEq, Eq, Structural)]
pub struct PillRecipe {
    pub medicine: Medicine,
    pub herb_cost: i32,
    pub quantity: i32,
    pub months: i32,
    pub silver_cost: i32,
}

/// The recipe with id `id`, if there is one.
pub open spec fn recipe_of(id: Seq<char>) -> Option<PillRecipe> {
    if id == "wound"@ {
        Some(PillRecipe { medicine: Medicine::Wound, herb_cost: 4, quantity: 2, months: 1, silver_cost: 8 })
    } else if id == "qi"@ {
        Some(PillRecipe { medicine: Medicine::Qi, herb_cost: 6, quantity: 1, months: 2, silver_cost: 12 })
    } else if id == "foundation"@ {
        Some(PillRecipe { medicine: Medicine::Foundation, herb_cost: 12, quantity: 1, months: 3, silver_cost: 20 })
    } else {
        None
    }
}

/// The recipe with id `id`, if there is one.
pub fn pill_recipe(id: &str) -> (r: Option<PillRecipe>)
    ensures
        r == recipe_of(id@),
{
    if text_eq(id, "wound") {
        Some(PillRecipe { medicine: Medicine::Wound, herb_cost: 4, quantity: 2, months: 1, silver_cost: 8 })
    } else if text_eq(id, "qi") {
        Some(PillRecipe { medicine: Medicine::Qi, herb_cost: 6, quantity: 1, months: 2, silver_cost: 12 })
    } else if text_eq(id, "foundation") {
        Some(PillRecipe { medicine: Medicine::Foundation, herb_cost: 12, quantity: 1, months: 3, silver_cost: 20 })
    } else {
        None
    }
}

/// The known recipes of a queue of recipe ids, in queue order; unknown ids are skipped.
pub open spec fn queue_recipes(q: Seq<Seq<char>>) -> Seq<PillRecipe>
    decreases q.len(),
{
    if q.len() == 0 {
        Seq::empty()
    } else {
        let rest = queue_recipes(q.drop_last());
        match recipe_of(q.last()) {
            Some(r) => rest.push(r),
            None => rest,
        }
    }
}

/// The ids of the furnace queue.
pub open spec fn queue_ids(sect: SectState) -> Seq<Seq<char>> {
    sect.auto_brew_queue@.map_values(|s: String| s@)
}

/// The recipes the furnace cycles through.
pub open spec fn furnace_recipes(sect: SectState) -> Seq<PillRecipe> {
    queue_recipes(queue_ids(sect))
}

fn known_recipes(sect: &SectState) -> (rs: Vec<PillRecipe>)
    ensures
        rs@ == furnace_recipes(*sect),
{
    let mut rs: Vec<PillRecipe> = Vec::new();
    let mut k: usize = 0;
    while k < sect.auto_brew_queue.len()
        invariant
            k <= sect.auto_brew_queue@.len(),
            rs@ == queue_recipes(queue_ids(*sect).take(k as int)),
        decreases sect.auto_brew_queue@.len() - k,
    {
        let found = pill_recipe(sect.auto_brew_queue[k].as_str());
        proof {
            assert(queue_ids(*sect).take(k as int + 1).drop_last() =~= queue_ids(*sect).take(k as int));
        }
        match found {
            Some(r) => rs.push(r),
            None => {},
        }
        k = k + 1;
    }
    proof {
        assert(queue_ids(*sect).take(k as int) =~= queue_ids(*sect));
    }
    rs
}

/// Position `i` is the first hall of kind `kind`.
pub open spec fn is_first_of_kind(bs: Seq<Building>, kind: BuildingKind, i: int) -> bool {
    &&& 0 <= i < bs.len()
    &&& bs[i].kind == kind
    &&& forall|j: int| 0 <= j < i ==> (#[trigger] bs[j]).kind != kind
}

/// Position of the first hall of kind `kind`.
pub fn find_kind(bs: &Vec<Building>, kind: BuildingKind) -> (r: Option<usize>)
    ensures
        match r {
            Some(i) => is_first_of_kind(bs@, kind, i as int),
            None => forall|j: int| 0 <= j < bs@.len() ==> (#[trigger] bs@[j]).kind != kind,
        },
{
    let mut i: usize = 0;
    while i < bs.len()
        invariant
            i <= bs@.len(),
            forall|j: int| 0 <= j < i ==> (#[trigger] bs@[j]).kind != kind,
        decreases bs@.len() - i,
    {
        if bs[i].kind == kind {
            return Some(i);
        }
        i = i + 1;
    }
    None
}

/// `d` may run the herb hall's furnace as its elder `elder`: the same id, an
/// inner disciple of the sect `sect_id`, and able to act.
pub open spec fn active_elder(d: Disciple, elder: Seq<char>, sect_id: Seq<char>) -> bool {
    &&& d.id@ == elder
    &&& d.rank == DiscipleRank::Inner
    &&& opt_text(d.sect_id) == Some(sect_id)
    &&& spec_can_act(d)
}

/// The first herb hall has an elder who is on the roster and able to act.
pub open spec fn herb_elder_active(state: GameState) -> bool {
    exists|h: int| {
        &&& is_first_of_kind(state.sect.buildings@, BuildingKind::HerbHall, h)
        &&& state.sect.buildings@[h].elder_id matches Some(e)
        &&& exists|j: int| 0 <= j < state.disciples@.len() && active_elder(#[trigger] state.disciples@[j], e@, state.sect.id@)
    }
}

fn has_active_herb_elder(state: &GameState) -> (r: bool)
    ensures
        r == herb_elder_active(*state),
{
    let h = match find_kind(&state.sect.buildings, BuildingKind::HerbHall) {
        Some(h) => h,
        None => {
            proof {
                assert forall|h: int| !is_first_of_kind(state.sect.buildings@, BuildingKind::HerbHall, h) by {
                    if 0 <= h < state.sect.buildings@.len() {
                        assert(state.sect.buildings@[h].kind != BuildingKind::HerbHall);
                    }
                }
            }
            return false;
        },
    };
    proof {
        assert forall|g: int| #[trigger] is_first_of_kind(state.sect.buildings@, BuildingKind::HerbHall, g) implies g == h by {
            if g < h {
                assert(state.sect.buildings@[g].kind != BuildingKind::HerbHall);
            } else if g > h {
                assert(state.sect.buildings@[h as int].kind != BuildingKind::HerbHall);
            }
        }
    }
    let elder = match &state.sect.buildings[h].elder_id {
        Some(e) => e,
        None => return false,
    };
    let sect_id = Some(state.sect.id.clone());
    let mut j: usize = 0;
    while j < state.disciples.len()
        invariant
            j <= state.disciples@.len(),
            opt_text(sect_id) == Some(state.sect.id@),
            is_first_of_kind(state.sect.buildings@, BuildingKind::HerbHall, h as int),
            state.sect.buildings@[h as int].elder_id == Some(*elder),
            forall|g: int| #[trigger] is_first_of_kind(state.sect.buildings@, BuildingKind::HerbHall, g) ==> g == h,
            forall|k: int| 0 <= k < j ==> !active_elder(#[trigger] state.disciples@[k], elder@, state.sect.id@),
        decreases state.disciples@.len() - j,
    {
        let d = &state.disciples[j];
        if text_eq(d.id.as_str(), elder.as_str()) && d.rank == DiscipleRank::Inner
            && opt_text_eq(&d.sect_id, &sect_id) && can_act(d) {
            proof {
                assert(active_elder(state.disciples@[j as int], elder@, state.sect.id@));
                assert(is_first_of_kind(state.sect.buildings@, BuildingKind::HerbHall, h as int));
            }
            return true;
        }
        j = j + 1;
    }
    false
}

/// Months since the start of the first year, counting the current one.
pub open spec fn elapsed_month(state: GameState) -> int {
    (state.year - 1) * 12 + state.month
}

/// The state with the furnace's fields of the sect replaced by those of `new`.
pub open spec fn with_furnace_of(old: GameState, new: GameState) -> GameState {
    GameState {
        sect: SectState {
            auto_brew_index: new.sect.auto_brew_index,
            auto_brew_progress: new.sect.auto_brew_progress,
            attributes: new.sect.attributes,
            inventory: new.sect.inventory,
            ..old.sect
        },
        ..old
    }
}

/// Herbs, and the pill stocks the furnace adds to, leave room for one brew.
pub open spec fn furnace_fits(sect: SectState) -> bool {
    forall|r: PillRecipe| furnace_recipes(sect).contains(r) ==> sect.inventory.amount(medicine_label(r.medicine)) + r.quantity <= i32::MAX
}

proof fn lemma_stock_names_differ()
    ensures
        "草药"@ != medicine_label(Medicine::Wound),
        "草药"@ != medicine_label(Medicine::Qi),
        "草药"@ != medicine_label(Medicine::Foundation),
{
    reveal_strlit("草药");
    reveal_strlit("金疮药");
    reveal_strlit("养气丹");
    reveal_strlit("培元丹");
    assert("草药"@[0] != "金疮药"@[0]);
    assert("草药"@[0] != "养气丹"@[0]);
    assert("草药"@[0] != "培元丹"@[0]);
}

/// Recipe positions and their quantities.
proof fn lemma_queue_recipes_small(q: Seq<Seq<char>>)
    ensures
        forall|i: int| 0 <= i < queue_recipes(q).len() ==> {
            &&& 1 <= (#[trigger] queue_recipes(q)[i]).herb_cost <= 12
            &&& 1 <= queue_recipes(q)[i].quantity <= 2
            &&& 1 <= queue_recipes(q)[i].months <= 3
            &&& 0 <= queue_recipes(q)[i].silver_cost <= 20
        },
        queue_recipes(q).len() <= q.len(),
    decreases q.len(),
{
    if q.len() > 0 {
        lemma_queue_recipes_small(q.drop_last());
    }
}

/// One month of the herb hall's background furnace.
///
/// With no known recipe in the queue the furnace resets. Otherwise it works
/// on the recipe at the (wrapped) index: it waits while herbs are short, while
/// the hall is out of use, or, without an active elder, in odd months; it
/// counts a month of progress until the recipe's months scaled by the hall's
/// effectiveness are reached; then, if the silver suffices, it pays silver
/// and herbs, stocks the pills and moves on to the next recipe.
pub fn advance_auto_brew(state: &mut GameState)
    requires
        furnace_fits(old(state).sect),
    ensures
        *final(state) == with_furnace_of(*old(state), *final(state)),
        ({
            let o = old(state).sect;
            let f = final(state).sect;
            let rs = furnace_recipes(o);
            if rs.len() == 0 {
                &&& f.auto_brew_index == 0
                &&& f.auto_brew_progress == 0
                &&& f.attributes == o.attributes
                &&& f.inventory == o.inventory
            } else {
                let idx = (o.auto_brew_index as int) % (rs.len() as int);
                let r = rs[idx];
                let eff = spec_building_effectiveness(o, "herb_hall"@);
                let waits = o.inventory.amount("草药"@) < r.herb_cost || eff <= 0
                    || (!herb_elder_active(*old(state)) && elapsed_month(*old(state)) % 2 != 0);
                let next = o.auto_brew_progress + 1;
                let required = (r.months * 100 + eff - 1) / eff;
                if waits || next < required || o.attributes.silver < r.silver_cost {
                    &&& f.auto_brew_index == idx
                    &&& f.auto_brew_progress == (if !waits && next < required { next } else { o.auto_brew_progress as int })
                    &&& f.attributes == o.attributes
                    &&& f.inventory == o.inventory
                } else {
                    &&& f.auto_brew_index == (idx + 1) % (rs.len() as int)
                    &&& f.auto_brew_progress == 0
                    &&& f.attributes == (crate::sect::SectAttributes { silver: (o.attributes.silver - r.silver_cost) as i32, ..o.attributes })
                    &&& f.inventory.amount("草药"@) == o.inventory.amount("草药"@) - r.herb_cost
                    &&& f.inventory.amount(medicine_label(r.medicine)) == o.inventory.amount(medicine_label(r.medicine)) + r.quantity
                    &&& forall|k: Seq<char>| k != "草药"@ && k != medicine_label(r.medicine) ==> f.inventory.has(k) == o.inventory.has(k)
                    &&& forall|k: Seq<char>| k != "草药"@ && k != medicine_label(r.medicine) && #[trigger] o.inventory.has(k) ==> f.inventory.at(k) == o.inventory.at(k)
                }
            }
        }),
{
    let recipes = known_recipes(&state.sect);
    proof {
        lemma_queue_recipes_small(queue_ids(state.sect));
    }
    if recipes.len() == 0 {
        state.sect.auto_brew_index = 0;
        state.sect.auto_brew_progress = 0;
        return;
    }
    let idx = state.sect.auto_brew_index % recipes.len();
    state.sect.auto_brew_index = idx;
    let recipe = recipes[idx];
    let herbs = state.sect.inventory.amount_of("草药");
    if herbs < recipe.herb_cost {
        return;
    }
    let effectiveness = building_effectiveness(&state.sect, "herb_hall");
    if effectiveness <= 0 {
        return;
    }
    let has_elder = has_active_herb_elder(state);
    let elapsed: i64 = (state.year as i64 - 1) * 12 + state.month as i64;
    if !has_elder && elapsed % 2 != 0 {
        return;
    }
    let required: i64 = (recipe.months as i64 * 100 + effectiveness as i64 - 1) / effectiveness as i64;
    let next: i64 = state.sect.auto_brew_progress as i64 + 1;
    if next < required {
        state.sect.auto_brew_progress = next as i32;
        return;
    }
    if state.sect.attributes.silver < recipe.silver_cost {
        return;
    }
    proof {
        lemma_stock_names_differ();
        assert(furnace_recipes(state.sect).contains(recipe));
    }
    state.sect.attributes.silver = state.sect.attributes.silver - recipe.silver_cost;
    state.sect.inventory.add("草药", -recipe.herb_cost);
    state.sect.inventory.add(medicine_name(recipe.medicine), recipe.quantity);
    state.sect.auto_brew_progress = 0;
    state.sect.auto_brew_index = (idx + 1) % recipes.len();
}

/// Rations a disciple eats in a month.
pub open spec fn ration_need() -> int {
    3
}

/// Rations `d` eats this month: what it carries, up to three.
pub open spec fn eaten(d: Disciple) -> int {
    if d.personal_rations < 0 { 0 } else if d.personal_rations > 3 { 3 } else { d.personal_rations as int }
}

/// `v` lowered by `by`, but not below zero.
pub open spec fn drop_to_zero(v: int, by: int) -> int {
    if v - by < 0 { 0 } else { v - by }
}

/// `d` goes hungry this month: alive and carrying fewer than three rations.
pub open spec fn goes_hungry(d: Disciple) -> bool {
    d.alive && eaten(d) < 3
}

/// `d` after a month's meals: a living disciple eats up to three of its
/// rations; each missing ration costs three qi, one energy and one point of
/// sect loyalty (none below zero), after which condition and the older
/// mirrors are refreshed.
pub open spec fn after_meals(d: Disciple) -> Disciple {
    if !d.alive {
        d
    } else {
        let e = eaten(d);
        let rest = drop_to_zero(d.personal_rations as int, e);
        let missing = 3 - e;
        if missing <= 0 {
            Disciple { personal_rations: rest as i32, ..d }
        } else {
            let a = d.attributes;
            let hungry = Disciple {
                personal_rations: rest as i32,
                attributes: AcquiredAttributes {
                    qi: ResourcePool { current: drop_to_zero(a.qi.current as int, missing * 3) as i32, ..a.qi },
                    energy: ResourcePool { current: drop_to_zero(a.energy.current as int, missing) as i32, ..a.energy },
                    sect_loyalty: drop_to_zero(a.sect_loyalty as int, missing) as i32,
                    ..a
                },
                ..d
            };
            synced(refreshed(hungry))
        }
    }
}

/// How many of the first `n` disciples go hungry.
pub open spec fn hungry_count(ds: Seq<Disciple>, n: int) -> int
    decreases n,
{
    if n <= 0 {
        0
    } else {
        hungry_count(ds, n - 1) + (if goes_hungry(ds[n - 1]) { 1int } else { 0int })
    }
}

/// The chronicle line for a disciple short of `missing` rations.
pub open spec fn hunger_text(name: Seq<char>, missing: int) -> Seq<char> {
    name + "本月缺了"@ + decimal_text(missing as nat) + "份口粮，只得忍饥行事，气血与门心均有损。"@
}

/// The hunger lines for the first `n` disciples, in roster order.
pub open spec fn hunger_texts(ds: Seq<Disciple>, n: int) -> Seq<Seq<char>>
    decreases n,
{
    if n <= 0 {
        Seq::empty()
    } else if goes_hungry(ds[n - 1]) {
        hunger_texts(ds, n - 1).push(hunger_text(ds[n - 1].name@, 3 - eaten(ds[n - 1])))
    } else {
        hunger_texts(ds, n - 1)
    }
}

/// The line for the other sects' members short of rations.
pub open spec fn world_hunger_text(count: int) -> Seq<char> {
    "江湖诸派本月共有"@ + decimal_text(count as nat) + "名门人粮饷不继，各自设法筹措。"@
}

/// A chronicle entry of the given kind.
pub open spec fn entry_is(e: GameEvent, text: Seq<char>, mood: Seq<char>, year: i32, month: i32, category: Seq<char>) -> bool {
    &&& e.text@ == text
    &&& e.mood@ == mood
    &&& e.year == year
    &&& e.month == month
    &&& e.category@ == category
}

fn hunger_note(name: &str, missing: i32) -> (r: String)
    requires
        0 < missing <= 3,
    ensures
        r@ == hunger_text(name@, missing as int),
{
    let mut s = name.to_owned();
    s.append("本月缺了");
    let digits = decimal(missing as u32);
    s.append(digits.as_str());
    s.append("份口粮，只得忍饥行事，气血与门心均有损。");
    s
}

fn world_hunger_note(count: usize) -> (r: String)
    requires
        count <= u32::MAX,
    ensures
        r@ == world_hunger_text(count as int),
{
    let mut s = String::from_str("江湖诸派本月共有");
    let digits = decimal(count as u32);
    s.append(digits.as_str());
    s.append("名门人粮饷不继，各自设法筹措。");
    s
}

/// The aptitude sums of the disciples who may go hungry fit in `i32`.
pub open spec fn roster_fits(ds: Seq<Disciple>) -> bool {
    forall|i: int| 0 <= i < ds.len() ==> (goes_hungry(#[trigger] ds[i]) ==> aptitudes_fit(ds[i].aptitudes))
}

/// A month of meals for a roster. Each living member eats up to three of the
/// rations it carries; a shortage costs qi, energy and loyalty (see
/// `after_meals`). For the player's roster each hungry member gets a
/// chronicle line; for other rosters one line counts them. Returns the lines
/// and the number of hungry members.
pub fn consume_monthly_rations(disciples: &mut [Disciple], year: i32, month: i32, player: bool) -> (r: (Vec<GameEvent>, usize))
    requires
        roster_fits(old(disciples)@),
        old(disciples)@.len() <= u32::MAX,
    ensures
        final(disciples)@.len() == old(disciples)@.len(),
        forall|i: int| 0 <= i < old(disciples)@.len() ==> #[trigger] final(disciples)@[i] == after_meals(old(disciples)@[i]),
        r.1 == hungry_count(old(disciples)@, old(disciples)@.len() as int),
        player ==> r.0@.len() == r.1,
        player ==> forall|k: int| 0 <= k < r.0@.len() ==> entry_is(#[trigger] r.0@[k],
            hunger_texts(old(disciples)@, old(disciples)@.len() as int)[k], "bad"@, year, month, "sect"@),
        !player ==> r.0@.len() == (if r.1 > 0 { 1int } else { 0int }),
        !player && r.1 > 0 ==> entry_is(r.0@[0], world_hunger_text(r.1 as int), "neutral"@, year, month, "world"@),
{
    let ghost ds = disciples@;
    let mut events: Vec<GameEvent> = Vec::new();
    let mut shortages: usize = 0;
    let mut i: usize = 0;
    while i < disciples.len()
        invariant
            ds == old(disciples)@,
            roster_fits(ds),
            ds.len() <= u32::MAX,
            i <= disciples@.len(),
            disciples@.len() == ds.len(),
            forall|j: int| 0 <= j < i ==> #[trigger] disciples@[j] == after_meals(ds[j]),
            forall|j: int| i <= j < ds.len() ==> #[trigger] disciples@[j] == ds[j],
            shortages == hungry_count(ds, i as int),
            shortages <= i,
            player ==> events@.len() == shortages,
            player ==> forall|k: int| 0 <= k < events@.len() ==> entry_is(#[trigger] events@[k],
                hunger_texts(ds, i as int)[k], "bad"@, year, month, "sect"@),
            player ==> hunger_texts(ds, i as int).len() == shortages,
            !player ==> events@.len() == 0,
        decreases ds.len() - i,
    {
        if disciples[i].alive {
            let carried = disciples[i].personal_rations;
            let eat: i32 = if carried < 0 { 0 } else if carried > 3 { 3 } else { carried };
            disciples[i].personal_rations = if carried - eat < 0 { 0 } else { carried - eat };
            let missing = 3 - eat;
            if missing > 0 {
                shortages = shortages + 1;
                let qi = disciples[i].attributes.qi.current as i64 - missing as i64 * 3;
                disciples[i].attributes.qi.current = if qi < 0 { 0 } else { qi as i32 };
                let energy = disciples[i].attributes.energy.current as i64 - missing as i64;
                disciples[i].attributes.energy.current = if energy < 0 { 0 } else { energy as i32 };
                let loyalty = disciples[i].attributes.sect_loyalty as i64 - missing as i64;
                disciples[i].attributes.sect_loyalty = if loyalty < 0 { 0 } else { loyalty as i32 };
                refresh_condition(&mut disciples[i]);
                proof {
                    assert(goes_hungry(ds[i as int]));
                }
                sync_legacy_attributes(&mut disciples[i]);
                if player {
                    let text = hunger_note(disciples[i].name.as_str(), missing);
                    events.push(GameEvent {
                        text,
                        mood: String::from_str("bad"),
                        year,
                        month,
                        category: String::from_str("sect"),
                    });
                }
            }
        }
        proof {
            assert(disciples@[i as int] == after_meals(ds[i as int]));
        }
        i = i + 1;
    }
    if !player && shortages > 0 {
        let text = world_hunger_note(shortages);
        events.push(GameEvent {
            text,
            mood: String::from_str("neutral"),
            year,
            month,
            category: String::from_str("world"),
        });
    }
    (events, shortages)
}

/// Grain and iron the halls call for in a month, and what the stores paid.
#[derive(Clone, Copy, Debug, PartialEq, Eq, Structural)]
pub struct BuildingMaintenance {
    pub grain_due: i32,
    pub grain_paid: i32,
    pub iron_due: i32,
    pub iron_paid: i32,
}

impl BuildingMaintenance {
    /// Both dues were paid in full.
    pub fn fully_supplied(self) -> (r: bool)
        ensures
            r == (self.grain_paid >= self.grain_due && self.iron_paid >= self.iron_due),
    {
        self.grain_paid >= self.grain_due && self.iron_paid >= self.iron_due
    }
}

/// Sum of the levels of the first `n` halls, each counted as at least zero.
pub open spec fn level_sum(bs: Seq<Building>, n: int) -> int
    decreases n,
{
    if n <= 0 {
        0
    } else {
        level_sum(bs, n - 1) + (if bs[n - 1].level < 0 { 0 } else { bs[n - 1].level as int })
    }
}

/// What the stores hold of `item`, counted as at least zero.
pub open spec fn stock_of(sect: SectState, item: Seq<char>) -> int {
    let a = sect.inventory.amount(item);
    if a < 0 { 0 } else { a }
}

/// The halls' monthly dues: a seventh of their total levels in grain and a
/// fourteenth in iron, rounded up, with what the stores can pay of each.
pub open spec fn maintenance_of(sect: SectState) -> BuildingMaintenance {
    let total = level_sum(sect.buildings@, sect.buildings@.len() as int);
    let grain_due = (total + 6) / 7;
    let iron_due = (total + 13) / 14;
    BuildingMaintenance {
        grain_due: grain_due as i32,
        grain_paid: (if stock_of(sect, "粮秣"@) < grain_due { stock_of(sect, "粮秣"@) } else { grain_due }) as i32,
        iron_due: iron_due as i32,
        iron_paid: (if stock_of(sect, "精铁"@) < iron_due { stock_of(sect, "精铁"@) } else { iron_due }) as i32,
    }
}

/// Extra wear from short supply: two points for each due not paid in full.
pub open spec fn supply_penalty(m: BuildingMaintenance) -> int {
    (if m.grain_paid < m.grain_due { 2int } else { 0int }) + (if m.iron_paid < m.iron_due { 2int } else { 0int })
}

/// A hall's condition after a month's wear: one to three points, one to three
/// more below condition 30, and the supply penalty, never below zero.
pub open spec fn worn(before: Building, after: Building, penalty: int) -> bool {
    exists|base: int, extra: int| {
        &&& 1 <= base <= 3
        &&& (if before.condition < 30 { 1 <= extra <= 3 } else { extra == 0 })
        &&& after == #[trigger] worn_by(before, base, extra, penalty)
    }
}

/// A hall with `base + extra + penalty` points of wear taken off its condition.
pub open spec fn worn_by(before: Building, base: int, extra: int, penalty: int) -> Building {
    Building { condition: drop_to_zero(before.condition as int, base + extra + penalty) as i32, ..before }
}

proof fn lemma_level_sum_bounds(bs: Seq<Building>, n: int)
    requires
        0 <= n <= bs.len(),
    ensures
        0 <= level_sum(bs, n) <= level_sum(bs, bs.len() as int),
    decreases bs.len() - n,
{
    lemma_level_sum_nonneg(bs, n);
    if n < bs.len() {
        lemma_level_sum_bounds(bs, n + 1);
    }
}

proof fn lemma_level_sum_nonneg(bs: Seq<Building>, n: int)
    ensures
        0 <= level_sum(bs, n),
    decreases n,
{
    if n > 0 {
        lemma_level_sum_nonneg(bs, n - 1);
    }
}

/// The month's wear of the halls. The halls call for grain and iron by their
/// total levels (see `maintenance_of`); the stores pay what they can, and
/// each due left short adds two points of wear to every hall.
pub fn apply_building_wear(rng: &mut StdRng, sect: &mut SectState) -> (m: BuildingMaintenance)
    requires
        level_sum(old(sect).buildings@, old(sect).buildings@.len() as int) <= i32::MAX - 13,
    ensures
        m == maintenance_of(*old(sect)),
        final(sect).inventory.amount("粮秣"@) == old(sect).inventory.amount("粮秣"@) - m.grain_paid,
        final(sect).inventory.amount("精铁"@) == old(sect).inventory.amount("精铁"@) - m.iron_paid,
        forall|k: Seq<char>| k != "粮秣"@ && k != "精铁"@ ==> #[trigger] final(sect).inventory.amount(k) == old(sect).inventory.amount(k),
        final(sect).buildings@.len() == old(sect).buildings@.len(),
        forall|i: int| 0 <= i < old(sect).buildings@.len() ==> worn(old(sect).buildings@[i], #[trigger] final(sect).buildings@[i], supply_penalty(m)),
        *final(sect) == (SectState { inventory: final(sect).inventory, buildings: final(sect).buildings, ..*old(sect) }),
{
    let ghost bs = sect.buildings@;
    let mut total: i32 = 0;
    let mut i: usize = 0;
    while i < sect.buildings.len()
        invariant
            i <= bs.len(),
            bs == sect.buildings@,
            total == level_sum(bs, i as int),
            level_sum(bs, bs.len() as int) <= i32::MAX - 13,
        decreases bs.len() - i,
    {
        proof {
            lemma_level_sum_bounds(bs, i as int + 1);
        }
        let level = sect.buildings[i].level;
        total = total + if level < 0 { 0 } else { level };
        i = i + 1;
    }
    proof {
        lemma_level_sum_nonneg(bs, bs.len() as int);
    }
    let grain_due = (total + 6) / 7;
    let iron_due = (total + 13) / 14;
    let grain_amount = sect.inventory.amount_of("粮秣");
    let iron_amount = sect.inventory.amount_of("精铁");
    let grain_stock = if grain_amount < 0 { 0 } else { grain_amount };
    let iron_stock = if iron_amount < 0 { 0 } else { iron_amount };
    let grain_paid = if grain_stock < grain_due { grain_stock } else { grain_due };
    let iron_paid = if iron_stock < iron_due { iron_stock } else { iron_due };
    let ghost inv0 = sect.inventory;
    proof {
        reveal_strlit("粮秣");
        reveal_strlit("精铁");
        assert("粮秣"@[0] != "精铁"@[0]);
    }
    sect.inventory.add("粮秣", -grain_paid);
    let ghost inv1 = sect.inventory;
    sect.inventory.add("精铁", -iron_paid);
    proof {
        assert forall|k: Seq<char>| k != "粮秣"@ && k != "精铁"@ implies #[trigger] sect.inventory.amount(k) == inv0.amount(k) by {
            if inv1.has(k) {
                assert(sect.inventory.at(k) == inv1.at(k));
            }
            if inv0.has(k) {
                assert(inv1.at(k) == inv0.at(k));
            }
        }
        assert(sect.inventory.amount("粮秣"@) == inv1.amount("粮秣"@)) by {
            if inv1.has("粮秣"@) {
                assert(sect.inventory.at("粮秣"@) == inv1.at("粮秣"@));
            }
        }
    }
    let m = BuildingMaintenance { grain_due, grain_paid, iron_due, iron_paid };
    let penalty: i32 = (if grain_paid < grain_due { 2 } else { 0 }) + (if iron_paid < iron_due { 2 } else { 0 });
    let ghost mid = *sect;
    let mut j: usize = 0;
    while j < sect.buildings.len()
        invariant
            j <= bs.len(),
            sect.buildings@.len() == bs.len(),
            penalty == supply_penalty(m),
            0 <= penalty <= 4,
            forall|k: int| 0 <= k < j ==> worn(bs[k], #[trigger] sect.buildings@[k], penalty as int),
            forall|k: int| j <= k < bs.len() ==> #[trigger] sect.buildings@[k] == bs[k],
            *sect == (SectState { buildings: sect.buildings, ..mid }),
        decreases bs.len() - j,
    {
        let base = rand_range(rng, 1, 3);
        let extra = if sect.buildings[j].condition < 30 { rand_range(rng, 1, 3) } else { 0 };
        let wear: i64 = base as i64 + extra as i64 + penalty as i64;
        let left: i64 = sect.buildings[j].condition as i64 - wear;
        sect.buildings[j].condition = if left < 0 { 0 } else { left as i32 };
        proof {
            assert(sect.buildings@[j as int] == worn_by(bs[j as int], base as int, extra as int, penalty as int));
        }
        j = j + 1;
    }
    m
}

/// `d` wants treatment: alive, at home and not healthy.
pub open spec fn needs_care(d: Disciple) -> bool {
    d.alive && d.away_months <= 0 && d.condition != DiscipleCondition::Healthy
}

/// How many of the first `n` disciples want treatment.
pub open spec fn care_rank(ds: Seq<Disciple>, n: int) -> int
    decreases n,
{
    if n <= 0 {
        0
    } else {
        care_rank(ds, n - 1) + (if needs_care(ds[n - 1]) { 1int } else { 0int })
    }
}

/// Wound medicine left of `stock` after `k` treatments were wanted.
pub open spec fn stock_after(stock: int, k: int) -> int {
    if stock <= 0 { stock } else if k < stock { stock - k } else { 0 }
}

/// Some herb hall has an elder.
pub open spec fn herb_hall_staffed(sect: SectState) -> bool {
    exists|i: int| 0 <= i < sect.buildings@.len() && (#[trigger] sect.buildings@[i]).kind == BuildingKind::HerbHall
        && sect.buildings@[i].elder_id is Some
}

/// Disciple `i` of `ds` is treated: the herb hall is staffed, the disciple
/// wants treatment, and medicine is left when its turn comes.
pub open spec fn treated(staffed: bool, ds: Seq<Disciple>, stock: int, i: int) -> bool {
    staffed && needs_care(ds[i]) && care_rank(ds, i) < stock
}

/// A disciple after one dose of wound medicine: five more qi, up to its
/// maximum, and condition read afresh.
pub open spec fn dosed(d: Disciple) -> Disciple {
    let q = d.attributes.qi.current + 5;
    let top = d.attributes.qi.maximum as int;
    refreshed(Disciple {
        attributes: AcquiredAttributes {
            qi: ResourcePool { current: (if q < top { q } else { top }) as i32, ..d.attributes.qi },
            ..d.attributes
        },
        ..d
    })
}

/// The chronicle line for a treated disciple.
pub open spec fn care_text(name: Seq<char>) -> Seq<char> {
    "百草堂为"@ + name + "用去一份金疮药，伤势减轻5点。"@
}

/// The lines for the treated among the first `n` disciples, in roster order.
pub open spec fn care_texts(staffed: bool, ds: Seq<Disciple>, stock: int, n: int) -> Seq<Seq<char>>
    decreases n,
{
    if n <= 0 {
        Seq::empty()
    } else if treated(staffed, ds, stock, n - 1) {
        care_texts(staffed, ds, stock, n - 1).push(care_text(ds[n - 1].name@))
    } else {
        care_texts(staffed, ds, stock, n - 1)
    }
}

fn herb_hall_has_elder(sect: &SectState) -> (r: bool)
    ensures
        r == herb_hall_staffed(*sect),
{
    let mut i: usize = 0;
    while i < sect.buildings.len()
        invariant
            i <= sect.buildings@.len(),
            forall|j: int| 0 <= j < i ==> !((#[trigger] sect.buildings@[j]).kind == BuildingKind::HerbHall
                && sect.buildings@[j].elder_id is Some),
        decreases sect.buildings@.len() - i,
    {
        if sect.buildings[i].kind == BuildingKind::HerbHall && sect.buildings[i].elder_id.is_some() {
            return true;
        }
        i = i + 1;
    }
    false
}

fn care_note(name: &str) -> (r: String)
    ensures
        r@ == care_text(name@),
{
    let mut s = String::from_str("百草堂为");
    s.append(name);
    s.append("用去一份金疮药，伤势减轻5点。");
    s
}

/// With an elder in a herb hall, each disciple at home who is not healthy
/// takes one wound medicine, in roster order, while medicine lasts: five
/// more qi, up to the maximum. Returns a chronicle line for each.
pub fn treat_injured_disciples(state: &mut GameState) -> (events: Vec<GameEvent>)
    ensures
        ({
            let staffed = herb_hall_staffed(old(state).sect);
            let ds = old(state).disciples@;
            let stock = old(state).sect.inventory.amount(medicine_label(Medicine::Wound));
            &&& final(state).disciples@.len() == ds.len()
            &&& forall|i: int| 0 <= i < ds.len() ==> #[trigger] final(state).disciples@[i]
                == (if treated(staffed, ds, stock, i) { dosed(ds[i]) } else { ds[i] })
            &&& final(state).sect.inventory.amount(medicine_label(Medicine::Wound))
                == (if staffed { stock_after(stock, care_rank(ds, ds.len() as int)) } else { stock })
            &&& forall|k: Seq<char>| k != medicine_label(Medicine::Wound) ==> #[trigger] final(state).sect.inventory.amount(k)
                == old(state).sect.inventory.amount(k)
            &&& events@.len() == care_texts(staffed, ds, stock, ds.len() as int).len()
            &&& forall|k: int| 0 <= k < events@.len() ==> entry_is(#[trigger] events@[k],
                care_texts(staffed, ds, stock, ds.len() as int)[k], "good"@, old(state).year, old(state).month, "sect"@)
        }),
        *final(state) == (GameState {
            disciples: final(state).disciples,
            sect: SectState { inventory: final(state).sect.inventory, ..old(state).sect },
            ..*old(state)
        }),
{
    let mut events: Vec<GameEvent> = Vec::new();
    let ghost ds = state.disciples@;
    let ghost stock0 = state.sect.inventory.amount(medicine_label(Medicine::Wound));
    let staffed = herb_hall_has_elder(&state.sect);
    if !staffed {
        proof {
            assert forall|i: int| 0 <= i < ds.len() implies !treated(staffed, ds, stock0, i) by {}
            lemma_no_care_texts(staffed, ds, stock0, ds.len() as int);
        }
        return events;
    }
    let medicine = medicine_name(Medicine::Wound);
    let ghost start = *state;
    let mut i: usize = 0;
    while i < state.disciples.len()
        invariant
            staffed,
            medicine@ == medicine_label(Medicine::Wound),
            ds == start.disciples@,
            stock0 == start.sect.inventory.amount(medicine_label(Medicine::Wound)),
            i <= ds.len(),
            state.disciples@.len() == ds.len(),
            forall|j: int| 0 <= j < i ==> #[trigger] state.disciples@[j]
                == (if treated(staffed, ds, stock0, j) { dosed(ds[j]) } else { ds[j] }),
            forall|j: int| i <= j < ds.len() ==> #[trigger] state.disciples@[j] == ds[j],
            state.sect.inventory.amount(medicine_label(Medicine::Wound)) == stock_after(stock0, care_rank(ds, i as int)),
            forall|k: Seq<char>| k != medicine_label(Medicine::Wound) ==> #[trigger] state.sect.inventory.amount(k)
                == start.sect.inventory.amount(k),
            0 <= care_rank(ds, i as int) <= i,
            events@.len() == care_texts(staffed, ds, stock0, i as int).len(),
            forall|k: int| 0 <= k < events@.len() ==> entry_is(#[trigger] events@[k],
                care_texts(staffed, ds, stock0, i as int)[k], "good"@, start.year, start.month, "sect"@),
            *state == (GameState {
                disciples: state.disciples,
                sect: SectState { inventory: state.sect.inventory, ..start.sect },
                ..start
            }),
        decreases ds.len() - i,
    {
        let d = &state.disciples[i];
        if d.alive && d.away_months <= 0 && d.condition != DiscipleCondition::Healthy {
            let stock = state.sect.inventory.amount_of(medicine);
            if stock > 0 {
                let ghost inv0 = state.sect.inventory;
                state.sect.inventory.add(medicine, -1);
                proof {
                    assert forall|k: Seq<char>| k != medicine_label(Medicine::Wound) implies #[trigger] state.sect.inventory.amount(k)
                        == inv0.amount(k) by {
                        if inv0.has(k) {
                            assert(state.sect.inventory.at(k) == inv0.at(k));
                        }
                    }
                }
                let q: i64 = state.disciples[i].attributes.qi.current as i64 + 5;
                let top: i64 = state.disciples[i].attributes.qi.maximum as i64;
                state.disciples[i].attributes.qi.current = if q < top { q as i32 } else { top as i32 };
                refresh_condition(&mut state.disciples[i]);
                let text = care_note(state.disciples[i].name.as_str());
                events.push(GameEvent {
                    text,
                    mood: String::from_str("good"),
                    year: state.year,
                    month: state.month,
                    category: String::from_str("sect"),
                });
            }
        }
        i = i + 1;
    }
    events
}

proof fn lemma_no_care_texts(staffed: bool, ds: Seq<Disciple>, stock: int, n: int)
    requires
        !staffed,
    ensures
        care_texts(staffed, ds, stock, n).len() == 0,
    decreases n,
{
    if n > 0 {
        lemma_no_care_texts(staffed, ds, stock, n - 1);
    }
}

/// `d` sets out on a journey this month and has not drawn its travel rations:
/// alive, away, on a sect mission or wandering, with months still to go.
pub open spec fn draws_rations(d: Disciple) -> bool {
    &&& d.alive
    &&& d.away_months > 0
    &&& d.action matches Some(p)
    &&& p.remaining_months > 0
    &&& !p.rations_claimed
    &&& (p.kind == ActionKind::SectMission || p.kind == ActionKind::Wander)
}

/// Travel rations `d` asks for: three for each remaining month.
pub open spec fn rations_requested(d: Disciple) -> int {
    match d.action {
        Some(p) => p.remaining_months * 3,
        None => 0,
    }
}

/// Rations issued to `d` from a grain stock of `stock`: what it asks for, as
/// far as the stock (counted as at least zero) reaches.
pub open spec fn rations_issued(d: Disciple, stock: int) -> int {
    if draws_rations(d) {
        let have = if stock < 0 { 0 } else { stock };
        if rations_requested(d) < have { rations_requested(d) } else { have }
    } else {
        0
    }
}

/// The grain stock when the turn of disciple `i` comes, starting from `stock`.
pub open spec fn grain_before(ds: Seq<Disciple>, i: int, stock: int) -> int
    decreases i,
{
    if i <= 0 {
        stock
    } else {
        let prev = grain_before(ds, i - 1, stock);
        prev - rations_issued(ds[i - 1], prev)
    }
}

/// `d` after drawing `issued` travel rations.
pub open spec fn provisioned(d: Disciple, issued: int) -> Disciple {
    match d.action {
        Some(p) => Disciple {
            personal_rations: (d.personal_rations + issued) as i32,
            action: Some(ActionPlan { rations_claimed: true, ..p }),
            ..d
        },
        None => d,
    }
}

/// The chronicle line for drawn travel rations.
pub open spec fn provision_text(name: Seq<char>, issued: int, requested: int) -> Seq<char> {
    name + "外出前申领口粮"@ + decimal_text(issued as nat) + "份"@ + (if issued < requested { "（库存不足）"@ } else { ""@ }) + "。"@
}

/// The lines for the first `n` disciples that draw rations, in roster order.
pub open spec fn provision_texts(ds: Seq<Disciple>, n: int, stock: int) -> Seq<(Seq<char>, bool)>
    decreases n,
{
    if n <= 0 {
        Seq::empty()
    } else if draws_rations(ds[n - 1]) {
        let issued = rations_issued(ds[n - 1], grain_before(ds, n - 1, stock));
        provision_texts(ds, n - 1, stock).push((
            provision_text(ds[n - 1].name@, issued, rations_requested(ds[n - 1])),
            issued < rations_requested(ds[n - 1]),
        ))
    } else {
        provision_texts(ds, n - 1, stock)
    }
}

/// Each traveller's own rations can take in the whole grain stock.
pub open spec fn provisions_fit(state: GameState) -> bool {
    forall|i: int| 0 <= i < state.disciples@.len() ==>
        (#[trigger] state.disciples@[i]).personal_rations + stock_of(state.sect, "粮秣"@) <= i32::MAX
}

proof fn lemma_grain_before_falls(ds: Seq<Disciple>, i: int, stock: int)
    requires
        0 <= i,
    ensures
        grain_before(ds, i, stock) <= stock,
        stock >= 0 ==> grain_before(ds, i, stock) >= 0,
    decreases i,
{
    if i > 0 {
        lemma_grain_before_falls(ds, i - 1, stock);
    }
}

fn provision_note(name: &str, issued: i32, short: bool) -> (r: String)
    requires
        issued >= 0,
    ensures
        r@ == name@ + "外出前申领口粮"@ + decimal_text(issued as nat) + "份"@ + (if short { "（库存不足）"@ } else { ""@ }) + "。"@,
{
    let mut s = name.to_owned();
    s.append("外出前申领口粮");
    let digits = decimal(issued as u32);
    s.append(digits.as_str());
    s.append("份");
    if short {
        s.append("（库存不足）");
    } else {
        s.append("");
    }
    s.append("。");
    s
}

/// Travellers setting out on a sect mission or a wander draw three rations
/// for each remaining month from the grain store, in roster order, as far as
/// the store reaches; each draw is marked on the plan and noted in the
/// chronicle (mood neutral when the store fell short, good otherwise).
pub fn claim_travel_rations(state: &mut GameState) -> (events: Vec<GameEvent>)
    requires
        provisions_fit(*old(state)),
    ensures
        ({
            let ds = old(state).disciples@;
            let stock = old(state).sect.inventory.amount("粮秣"@);
            let notes = provision_texts(ds, ds.len() as int, stock);
            &&& final(state).disciples@.len() == ds.len()
            &&& forall|i: int| 0 <= i < ds.len() ==> #[trigger] final(state).disciples@[i]
                == (if draws_rations(ds[i]) { provisioned(ds[i], rations_issued(ds[i], grain_before(ds, i, stock))) } else { ds[i] })
            &&& final(state).sect.inventory.amount("粮秣"@) == grain_before(ds, ds.len() as int, stock)
            &&& forall|k: Seq<char>| k != "粮秣"@ ==> #[trigger] final(state).sect.inventory.amount(k) == old(state).sect.inventory.amount(k)
            &&& events@.len() == notes.len()
            &&& forall|k: int| 0 <= k < events@.len() ==> entry_is(#[trigger] events@[k], notes[k].0,
                (if notes[k].1 { "neutral"@ } else { "good"@ }), old(state).year, old(state).month, "sect"@)
        }),
        *final(state) == (GameState {
            disciples: final(state).disciples,
            sect: SectState { inventory: final(state).sect.inventory, ..old(state).sect },
            ..*old(state)
        }),
{
    let mut events: Vec<GameEvent> = Vec::new();
    let ghost start = *state;
    let ghost ds = state.disciples@;
    let ghost stock0 = state.sect.inventory.amount("粮秣"@);
    let mut i: usize = 0;
    while i < state.disciples.len()
        invariant
            ds == start.disciples@,
            stock0 == start.sect.inventory.amount("粮秣"@),
            provisions_fit(start),
            i <= ds.len(),
            state.disciples@.len() == ds.len(),
            forall|j: int| 0 <= j < i ==> #[trigger] state.disciples@[j]
                == (if draws_rations(ds[j]) { provisioned(ds[j], rations_issued(ds[j], grain_before(ds, j, stock0))) } else { ds[j] }),
            forall|j: int| i <= j < ds.len() ==> #[trigger] state.disciples@[j] == ds[j],
            state.sect.inventory.amount("粮秣"@) == grain_before(ds, i as int, stock0),
            forall|k: Seq<char>| k != "粮秣"@ ==> #[trigger] state.sect.inventory.amount(k) == start.sect.inventory.amount(k),
            events@.len() == provision_texts(ds, i as int, stock0).len(),
            forall|k: int| 0 <= k < events@.len() ==> entry_is(#[trigger] events@[k], provision_texts(ds, i as int, stock0)[k].0,
                (if provision_texts(ds, i as int, stock0)[k].1 { "neutral"@ } else { "good"@ }), start.year, start.month, "sect"@),
            *state == (GameState {
                disciples: state.disciples,
                sect: SectState { inventory: state.sect.inventory, ..start.sect },
                ..start
            }),
        decreases ds.len() - i,
    {
        let d = &state.disciples[i];
        if d.alive && d.away_months > 0 {
            match d.action {
                Some(plan) => {
                    if plan.remaining_months > 0 && !plan.rations_claimed
                        && (plan.kind == ActionKind::SectMission || plan.kind == ActionKind::Wander) {
                        let requested: i64 = plan.remaining_months as i64 * 3;
                        let amount = state.sect.inventory.amount_of("粮秣");
                        let have: i64 = if amount < 0 { 0 } else { amount as i64 };
                        let issued: i32 = if requested < have { requested as i32 } else { have as i32 };
                        proof {
                            assert(stock_of(start.sect, "粮秣"@) >= have) by {
                                lemma_grain_before_falls(ds, i as int, stock0);
                            }
                            assert(ds[i as int].personal_rations + stock_of(start.sect, "粮秣"@) <= i32::MAX);
                        }
                        let ghost inv0 = state.sect.inventory;
                        state.sect.inventory.add("粮秣", -issued);
                        proof {
                            assert forall|k: Seq<char>| k != "粮秣"@ implies #[trigger] state.sect.inventory.amount(k)
                                == inv0.amount(k) by {
                                if inv0.has(k) {
                                    assert(state.sect.inventory.at(k) == inv0.at(k));
                                }
                            }
                        }
                        state.disciples[i].personal_rations = state.disciples[i].personal_rations + issued;
                        state.disciples[i].action = Some(ActionPlan { rations_claimed: true, ..plan });
                        let short = (issued as i64) < requested;
                        let text = provision_note(state.disciples[i].name.as_str(), issued, short);
                        events.push(GameEvent {
                            text,
                            mood: if short { String::from_str("neutral") } else { String::from_str("good") },
                            year: state.year,
                            month: state.month,
                            category: String::from_str("sect"),
                        });
                    }
                },
                None => {},
            }
        }
        i = i + 1;
    }
    events
}

/// Which monthly allowance is paid out.
#[derive(Clone, Copy, Debug, PartialEq, Eq, Structural)]
pub enum Stipend {
    Silver,
    Rations,
}

/// Monthly silver and rations by rank: chores 2 and 3, outer disciples 5 and
/// 5, inner disciples 10 and 8.
pub open spec fn allowance(rank: DiscipleRank, kind: Stipend) -> int {
    match (rank, kind) {
        (DiscipleRank::Chore, Stipend::Silver) => 2,
        (DiscipleRank::Chore, Stipend::Rations) => 3,
        (DiscipleRank::Outer, _) => 5,
        (DiscipleRank::Inner, Stipend::Silver) => 10,
        (DiscipleRank::Inner, Stipend::Rations) => 8,
    }
}

/// Monthly silver and rations of a rank.
pub fn rank_allowance(rank: DiscipleRank) -> (r: (i32, i32))
    ensures
        r.0 == allowance(rank, Stipend::Silver),
        r.1 == allowance(rank, Stipend::Rations),
{
    match rank {
        DiscipleRank::Chore => (2, 3),
        DiscipleRank::Outer => (5, 5),
        DiscipleRank::Inner => (10, 8),
    }
}

fn allowance_for(rank: DiscipleRank, kind: Stipend) -> (r: i32)
    ensures
        r == allowance(rank, kind),
{
    let (silver, rations) = rank_allowance(rank);
    match kind {
        Stipend::Silver => silver,
        Stipend::Rations => rations,
    }
}

/// Ranks in order of payment: inner, outer, chore.
pub open spec fn rank_at(k: int) -> DiscipleRank {
    if k == 0 { DiscipleRank::Inner } else if k == 1 { DiscipleRank::Outer } else { DiscipleRank::Chore }
}

/// The first `n` of the roster positions `el` whose disciple holds `rank`.
pub open spec fn members(ds: Seq<Disciple>, el: Seq<usize>, rank: DiscipleRank, n: int) -> Seq<usize>
    decreases n,
{
    if n <= 0 {
        Seq::empty()
    } else if ds[el[n - 1] as int].rank == rank {
        members(ds, el, rank, n - 1).push(el[n - 1])
    } else {
        members(ds, el, rank, n - 1)
    }
}

/// Everyone in `m` gets the full `due`.
pub open spec fn paid_in_full(m: Seq<usize>, due: int) -> Seq<(usize, i32)> {
    Seq::new(m.len(), |p: int| (m[p], due as i32))
}

/// `left` shared out over `m`: an equal part of at most `due` each, and the
/// remainder one by one to the first members while the part is below `due`.
pub open spec fn shared_out(m: Seq<usize>, left: int, due: int) -> Seq<(usize, i32)> {
    let part = if left / (m.len() as int) < due { left / (m.len() as int) } else { due };
    let rest = left - part * m.len();
    Seq::new(m.len(), |p: int| (m[p], (part + (if p < rest && part < due { 1int } else { 0int })) as i32))
}

/// Payments of `left` to the positions `el`, ranks from the `k`-th on: a rank
/// paid in full when `left` covers it, otherwise `left` shared out over it
/// and nothing for the ranks below.
pub open spec fn allocate(ds: Seq<Disciple>, el: Seq<usize>, left: int, k: int, kind: Stipend) -> Seq<(usize, i32)>
    decreases 3 - k,
{
    if k >= 3 {
        Seq::empty()
    } else {
        let m = members(ds, el, rank_at(k), el.len() as int);
        let due = allowance(rank_at(k), kind);
        if m.len() == 0 || left <= 0 {
            allocate(ds, el, left, k + 1, kind)
        } else if left >= due * m.len() {
            paid_in_full(m, due) + allocate(ds, el, left - due * m.len(), k + 1, kind)
        } else {
            shared_out(m, left, due)
        }
    }
}

/// Sum of the amounts of `a`.
pub open spec fn paid_total(a: Seq<(usize, i32)>) -> int
    decreases a.len(),
{
    if a.len() == 0 { 0 } else { paid_total(a.drop_last()) + a.last().1 }
}

/// Sum of the amounts `a` pays to roster position `i`.
pub open spec fn paid_to(a: Seq<(usize, i32)>, i: int) -> int
    decreases a.len(),
{
    if a.len() == 0 {
        0
    } else {
        paid_to(a.drop_last(), i) + (if a.last().0 as int == i { a.last().1 as int } else { 0int })
    }
}

fn members_of(ds: &[Disciple], el: &Vec<usize>, rank: DiscipleRank) -> (m: Vec<usize>)
    requires
        forall|j: int| 0 <= j < el@.len() ==> (#[trigger] el@[j]) < ds@.len(),
    ensures
        m@ == members(ds@, el@, rank, el@.len() as int),
        m@.len() <= el@.len(),
        forall|j: int| 0 <= j < m@.len() ==> (#[trigger] m@[j]) < ds@.len(),
{
    let mut m: Vec<usize> = Vec::new();
    let mut j: usize = 0;
    while j < el.len()
        invariant
            j <= el@.len(),
            forall|q: int| 0 <= q < el@.len() ==> (#[trigger] el@[q]) < ds@.len(),
            m@ == members(ds@, el@, rank, j as int),
            m@.len() <= j,
            forall|q: int| 0 <= q < m@.len() ==> (#[trigger] m@[q]) < ds@.len(),
        decreases el@.len() - j,
    {
        if ds[el[j]].rank == rank {
            m.push(el[j]);
        }
        j = j + 1;
    }
    m
}

/// Stipends paid rank by rank from `available`: inner disciples first, then
/// outer, then chores. A rank the remainder covers is paid in full; a rank it
/// does not cover shares what is left (see `shared_out`) and the ranks below
/// get nothing.
pub fn ranked_allocations(disciples: &[Disciple], eligible: &Vec<usize>, available: i32, kind: Stipend) -> (r: Vec<(usize, i32)>)
    requires
        forall|j: int| 0 <= j < eligible@.len() ==> (#[trigger] eligible@[j]) < disciples@.len(),
        eligible@.len() <= i32::MAX,
    ensures
        r@ == allocate(disciples@, eligible@, if available < 0 { 0 } else { available as int }, 0, kind),
{
    let ghost ds = disciples@;
    let ghost el = eligible@;
    let ghost left0: int = if available < 0 { 0 } else { available as int };
    let mut left: i64 = if available < 0 { 0 } else { available as i64 };
    let mut out: Vec<(usize, i32)> = Vec::new();
    let mut k: usize = 0;
    while k < 3
        invariant
            k <= 3,
            forall|j: int| 0 <= j < el.len() ==> (#[trigger] el[j]) < ds.len(),
            ds == disciples@,
            el == eligible@,
            el.len() <= i32::MAX,
            0 <= left <= i32::MAX,
            out@ + allocate(ds, el, left as int, k as int, kind) == allocate(ds, el, left0, 0, kind),
        decreases 3 - k,
    {
        let rank = if k == 0 { DiscipleRank::Inner } else if k == 1 { DiscipleRank::Outer } else { DiscipleRank::Chore };
        let m = members_of(disciples, eligible, rank);
        let due = allowance_for(rank, kind);
        let ghost before = out@;
        if m.len() == 0 || left <= 0 {
            k = k + 1;
        } else {
            let count: i64 = m.len() as i64;
            proof {
                assert(0 <= due * count <= 10 * (i32::MAX as int)) by (nonlinear_arith)
                    requires
                        0 <= due <= 10,
                        0 <= count <= i32::MAX,
                ;
            }
            let group: i64 = due as i64 * count;
            if left >= group {
                let mut p: usize = 0;
                while p < m.len()
                    invariant
                        p <= m@.len(),
                        out@ == before + paid_in_full(m@, due as int).take(p as int),
                    decreases m@.len() - p,
                {
                    out.push((m[p], due));
                    p = p + 1;
                    proof {
                        assert(out@ =~= before + paid_in_full(m@, due as int).take(p as int));
                    }
                }
                proof {
                    assert(paid_in_full(m@, due as int).take(p as int) =~= paid_in_full(m@, due as int));
                    assert((before + paid_in_full(m@, due as int)) + allocate(ds, el, (left - group) as int, k as int + 1, kind)
                        =~= before + (paid_in_full(m@, due as int) + allocate(ds, el, (left - group) as int, k as int + 1, kind)));
                }
                left = left - group;
                k = k + 1;
            } else {
                let part: i64 = if left / count < due as i64 { left / count } else { due as i64 };
                proof {
                    assert(0 <= part * count <= left) by (nonlinear_arith)
                        requires
                            0 <= part <= left / count,
                            count > 0,
                            left >= 0,
                    ;
                    assert(left / count < due) by (nonlinear_arith)
                        requires
                            left < due * count,
                            count > 0,
                            left >= 0,
                    ;
                }
                let mut rest: i64 = left - part * count;
                let ghost rest0 = rest;
                let mut p: usize = 0;
                while p < m.len()
                    invariant
                        p <= m@.len(),
                        count == m@.len(),
                        count > 0,
                        0 <= part <= due,
                        due <= 10,
                        rest0 == left - part * count,
                        rest as int == (if rest0 - (p as int) < 0 { 0int } else { rest0 - (p as int) }),
                        out@ == before + shared_out(m@, left as int, due as int).take(p as int),
                        part as int == (left as int) / (count as int),
                        part < due,
                    decreases m@.len() - p,
                {
                    let extra: i32 = if rest > 0 && part < due as i64 { 1 } else { 0 };
                    rest = rest - extra as i64;
                    out.push((m[p], part as i32 + extra));
                    p = p + 1;
                    proof {
                        assert(out@ =~= before + shared_out(m@, left as int, due as int).take(p as int));
                    }
                }
                proof {
                    assert(shared_out(m@, left as int, due as int).take(p as int) =~= shared_out(m@, left as int, due as int));
                    assert(allocate(ds, el, left as int, 3, kind) =~= Seq::<(usize, i32)>::empty());
                }
                k = 3;
            }
        }
    }
    proof {
        assert(out@ + allocate(ds, el, left as int, 3, kind) =~= out@);
    }
    out
}

/// The amounts of a payment list lie within `0..=10`.
pub open spec fn amounts_small(a: Seq<(usize, i32)>) -> bool {
    forall|p: int| 0 <= p < a.len() ==> 0 <= (#[trigger] a[p]).1 <= 10
}

proof fn lemma_members_within(ds: Seq<Disciple>, el: Seq<usize>, rank: DiscipleRank, n: int)
    requires
        0 <= n <= el.len(),
    ensures
        members(ds, el, rank, n).len() <= n,
    decreases n,
{
    if n > 0 {
        lemma_members_within(ds, el, rank, n - 1);
    }
}

proof fn lemma_allocate_small(ds: Seq<Disciple>, el: Seq<usize>, left: int, k: int, kind: Stipend)
    requires
        left >= 0,
    ensures
        amounts_small(allocate(ds, el, left, k, kind)),
    decreases 3 - k,
{
    if k < 3 {
        let m = members(ds, el, rank_at(k), el.len() as int);
        let due = allowance(rank_at(k), kind);
        if m.len() == 0 || left <= 0 {
            lemma_allocate_small(ds, el, left, k + 1, kind);
        } else if left >= due * m.len() {
            lemma_allocate_small(ds, el, left - due * m.len(), k + 1, kind);
            let a = paid_in_full(m, due);
            let b = allocate(ds, el, left - due * m.len(), k + 1, kind);
            assert forall|p: int| 0 <= p < (a + b).len() implies 0 <= (#[trigger] (a + b)[p]).1 <= 10 by {
                if p >= a.len() {
                    assert((a + b)[p] == b[p - a.len()]);
                }
            }
        } else {
            let part = if left / (m.len() as int) < due { left / (m.len() as int) } else { due };
            assert(0 <= left / (m.len() as int)) by (nonlinear_arith)
                requires
                    left >= 0,
                    m.len() > 0,
            ;
            assert(part < due) by (nonlinear_arith)
                requires
                    left < due * m.len(),
                    m.len() > 0,
                    left >= 0,
                    part == (if left / (m.len() as int) < due { left / (m.len() as int) } else { due }),
            ;
        }
    }
}

/// Sum of the amounts of the concatenation of two payment lists.
proof fn lemma_paid_total_concat(a: Seq<(usize, i32)>, b: Seq<(usize, i32)>)
    ensures
        paid_total(a + b) == paid_total(a) + paid_total(b),
    decreases b.len(),
{
    if b.len() > 0 {
        lemma_paid_total_concat(a, b.drop_last());
        assert((a + b).drop_last() =~= a + b.drop_last());
    } else {
        assert(a + b =~= a);
    }
}

proof fn lemma_paid_total_full(m: Seq<usize>, due: int, n: int)
    requires
        0 <= n <= m.len(),
        0 <= due <= 10,
    ensures
        paid_total(paid_in_full(m, due).take(n)) == due * n,
    decreases n,
{
    if n > 0 {
        lemma_paid_total_full(m, due, n - 1);
        assert(paid_in_full(m, due).take(n).drop_last() =~= paid_in_full(m, due).take(n - 1));
        assert(paid_in_full(m, due).take(n).last().1 as int == due);
        assert(due * n == due * (n - 1) + due) by (nonlinear_arith);
        let x = paid_in_full(m, due).take(n);
        assert(paid_total(x) == paid_total(x.drop_last()) + x.last().1);
    } else {
        assert(due * n == 0) by (nonlinear_arith)
            requires
                n == 0,
        ;
    }
}

proof fn lemma_paid_total_shared(m: Seq<usize>, left: int, due: int, n: int)
    requires
        0 <= n <= m.len(),
        m.len() > 0,
        0 <= left < due * m.len(),
        0 < due <= 10,
    ensures
        paid_total(shared_out(m, left, due).take(n))
            == (left / (m.len() as int)) * n + (if n < left - (left / (m.len() as int)) * m.len() { n } else { left - (left / (m.len() as int)) * m.len() }),
    decreases n,
{
    let len = m.len() as int;
    assert(left / len < due) by (nonlinear_arith)
        requires
            left < due * len,
            len > 0,
            left >= 0,
    ;
    assert(0 <= left / len) by (nonlinear_arith)
        requires
            left >= 0,
            len > 0,
    ;
    if n > 0 {
        lemma_paid_total_shared(m, left, due, n - 1);
        assert(shared_out(m, left, due).take(n).drop_last() =~= shared_out(m, left, due).take(n - 1));
        let part = left / len;
        let rest = left - part * len;
        assert(shared_out(m, left, due).take(n).last().1 as int == part + (if n - 1 < rest { 1int } else { 0int }));
        assert((left / len) * n == (left / len) * (n - 1) + left / len) by (nonlinear_arith);
        let x = shared_out(m, left, due).take(n);
        assert(paid_total(x) == paid_total(x.drop_last()) + x.last().1);
    } else {
        assert((left / len) * n == 0) by (nonlinear_arith)
            requires
                n == 0,
        ;
        assert(0 <= left - (left / len) * len) by (nonlinear_arith)
            requires
                left >= 0,
                len > 0,
        ;
    }
}

/// Stipends never pay out more than is available: the payments of `left`
/// sum to at most `left`.
pub proof fn lemma_allocation_within_available(ds: Seq<Disciple>, el: Seq<usize>, left: int, k: int, kind: Stipend)
    requires
        left >= 0,
    ensures
        0 <= paid_total(allocate(ds, el, left, k, kind)) <= left,
    decreases 3 - k,
{
    if k < 3 {
        let m = members(ds, el, rank_at(k), el.len() as int);
        let due = allowance(rank_at(k), kind);
        if m.len() == 0 || left <= 0 {
            lemma_allocation_within_available(ds, el, left, k + 1, kind);
        } else if left >= due * m.len() {
            lemma_allocation_within_available(ds, el, left - due * m.len(), k + 1, kind);
            lemma_paid_total_concat(paid_in_full(m, due), allocate(ds, el, left - due * m.len(), k + 1, kind));
            lemma_paid_total_full(m, due, m.len() as int);
            assert(paid_in_full(m, due).take(m.len() as int) =~= paid_in_full(m, due));
        } else {
            let len = m.len() as int;
            lemma_paid_total_shared(m, left, due, len);
            assert(shared_out(m, left, due).take(len) =~= shared_out(m, left, due));
            assert(0 <= (left / len) * len <= left) by (nonlinear_arith)
                requires
                    left >= 0,
                    len > 0,
            ;
        }
    }
}

/// Every payment of `a` goes to a position below `bound`.
pub open spec fn positions_below(a: Seq<(usize, i32)>, bound: int) -> bool {
    forall|p: int| 0 <= p < a.len() ==> ((#[trigger] a[p]).0 as int) < bound
}

proof fn lemma_members_below(ds: Seq<Disciple>, el: Seq<usize>, rank: DiscipleRank, n: int, bound: int)
    requires
        0 <= n <= el.len(),
        forall|j: int| 0 <= j < el.len() ==> ((#[trigger] el[j]) as int) < bound,
    ensures
        forall|p: int| 0 <= p < members(ds, el, rank, n).len() ==> ((#[trigger] members(ds, el, rank, n)[p]) as int) < bound,
    decreases n,
{
    if n > 0 {
        lemma_members_below(ds, el, rank, n - 1, bound);
        let prev = members(ds, el, rank, n - 1);
        if ds[el[n - 1] as int].rank == rank {
            assert forall|p: int| 0 <= p < prev.push(el[n - 1]).len() implies ((#[trigger] prev.push(el[n - 1])[p]) as int) < bound by {
                if p < prev.len() {
                    assert(prev.push(el[n - 1])[p] == prev[p]);
                }
            }
        }
    }
}

proof fn lemma_allocate_below(ds: Seq<Disciple>, el: Seq<usize>, left: int, k: int, kind: Stipend, bound: int)
    requires
        forall|j: int| 0 <= j < el.len() ==> ((#[trigger] el[j]) as int) < bound,
    ensures
        positions_below(allocate(ds, el, left, k, kind), bound),
    decreases 3 - k,
{
    if k < 3 {
        let m = members(ds, el, rank_at(k), el.len() as int);
        let due = allowance(rank_at(k), kind);
        lemma_members_below(ds, el, rank_at(k), el.len() as int, bound);
        if m.len() == 0 || left <= 0 {
            lemma_allocate_below(ds, el, left, k + 1, kind, bound);
        } else if left >= due * m.len() {
            lemma_allocate_below(ds, el, left - due * m.len(), k + 1, kind, bound);
            let a = paid_in_full(m, due);
            let b = allocate(ds, el, left - due * m.len(), k + 1, kind);
            assert forall|p: int| 0 <= p < (a + b).len() implies (((#[trigger] (a + b)[p]).0) as int) < bound by {
                if p >= a.len() {
                    assert((a + b)[p] == b[p - a.len()]);
                }
            }
        }
    }
}

/// With amounts of at least zero, what a prefix pays a position is at least
/// zero and at most what the whole list pays it.
proof fn lemma_paid_to_prefix(a: Seq<(usize, i32)>, t: int, i: int)
    requires
        amounts_small(a),
        0 <= t <= a.len(),
    ensures
        0 <= paid_to(a.take(t), i) <= paid_to(a, i),
    decreases a.len() - t,
{
    lemma_paid_to_nonneg(a.take(t), i);
    if t < a.len() {
        lemma_paid_to_prefix(a, t + 1, i);
        assert(a.take(t + 1).drop_last() =~= a.take(t));
    } else {
        assert(a.take(t) =~= a);
    }
}

proof fn lemma_paid_to_nonneg(a: Seq<(usize, i32)>, i: int)
    requires
        forall|p: int| 0 <= p < a.len() ==> 0 <= (#[trigger] a[p]).1,
    ensures
        0 <= paid_to(a, i),
    decreases a.len(),
{
    if a.len() > 0 {
        lemma_paid_to_nonneg(a.drop_last(), i);
    }
}

/// Adds the payments `a` to each disciple's own silver or rations.
fn hand_out(disciples: &mut [Disciple], a: &Vec<(usize, i32)>, kind: Stipend)
    requires
        amounts_small(a@),
        positions_below(a@, old(disciples)@.len() as int),
        forall|i: int| 0 <= i < old(disciples)@.len() ==> (match kind {
            Stipend::Silver => (#[trigger] old(disciples)@[i]).personal_silver + paid_to(a@, i),
            Stipend::Rations => old(disciples)@[i].personal_rations + paid_to(a@, i),
        }) <= i32::MAX,
    ensures
        final(disciples)@.len() == old(disciples)@.len(),
        forall|i: int| 0 <= i < old(disciples)@.len() ==> #[trigger] final(disciples)@[i] == (match kind {
            Stipend::Silver => Disciple { personal_silver: (old(disciples)@[i].personal_silver + paid_to(a@, i)) as i32, ..old(disciples)@[i] },
            Stipend::Rations => Disciple { personal_rations: (old(disciples)@[i].personal_rations + paid_to(a@, i)) as i32, ..old(disciples)@[i] },
        }),
{
    let ghost ds = disciples@;
    let mut t: usize = 0;
    while t < a.len()
        invariant
            t <= a@.len(),
            ds == old(disciples)@,
            disciples@.len() == ds.len(),
            amounts_small(a@),
            positions_below(a@, ds.len() as int),
            forall|i: int| 0 <= i < ds.len() ==> (match kind {
                Stipend::Silver => (#[trigger] ds[i]).personal_silver + paid_to(a@, i),
                Stipend::Rations => ds[i].personal_rations + paid_to(a@, i),
            }) <= i32::MAX,
            forall|i: int| 0 <= i < ds.len() ==> #[trigger] disciples@[i] == (match kind {
                Stipend::Silver => Disciple { personal_silver: (ds[i].personal_silver + paid_to(a@.take(t as int), i)) as i32, ..ds[i] },
                Stipend::Rations => Disciple { personal_rations: (ds[i].personal_rations + paid_to(a@.take(t as int), i)) as i32, ..ds[i] },
            }),
        decreases a@.len() - t,
    {
        let (index, amount) = a[t];
        proof {
            assert(a@.take(t as int + 1).drop_last() =~= a@.take(t as int));
            lemma_paid_to_prefix(a@, t as int + 1, index as int);
            lemma_paid_to_prefix(a@, t as int, index as int);
            assert forall|i: int| 0 <= i < ds.len() && i != index implies paid_to(a@.take(t as int + 1), i)
                == paid_to(a@.take(t as int), i) by {}
        }
        match kind {
            Stipend::Silver => {
                disciples[index].personal_silver = disciples[index].personal_silver + amount;
            },
            Stipend::Rations => {
                disciples[index].personal_rations = disciples[index].personal_rations + amount;
            },
        }
        t = t + 1;
    }
    proof {
        assert(a@.take(t as int) =~= a@);
    }
}

/// What the month's stipends called for and what was paid.
#[derive(Clone, Copy, Debug, PartialEq, Eq, Structural)]
pub struct PayrollSummary {
    pub silver_due: i32,
    pub silver_paid: i32,
    pub rations_due: i32,
    pub rations_paid: i32,
}

/// `d` draws a stipend: alive and, when a sect is named, of that sect.
pub open spec fn on_payroll(d: Disciple, sect_id: Option<Seq<char>>) -> bool {
    d.alive && match sect_id {
        Some(id) => opt_text(d.sect_id) == Some(id),
        None => true,
    }
}

/// Roster positions among the first `n` that draw a stipend.
pub open spec fn payroll(ds: Seq<Disciple>, sect_id: Option<Seq<char>>, n: int) -> Seq<usize>
    decreases n,
{
    if n <= 0 {
        Seq::empty()
    } else if on_payroll(ds[n - 1], sect_id) {
        payroll(ds, sect_id, n - 1).push((n - 1) as usize)
    } else {
        payroll(ds, sect_id, n - 1)
    }
}

/// Of the first `n` positions of `el`, those whose disciple is at home.
pub open spec fn at_home(ds: Seq<Disciple>, el: Seq<usize>, n: int) -> Seq<usize>
    decreases n,
{
    if n <= 0 {
        Seq::empty()
    } else if ds[el[n - 1] as int].away_months <= 0 {
        at_home(ds, el, n - 1).push(el[n - 1])
    } else {
        at_home(ds, el, n - 1)
    }
}

/// Sum of the allowances of the first `n` positions of `el`.
pub open spec fn dues(ds: Seq<Disciple>, el: Seq<usize>, kind: Stipend, n: int) -> int
    decreases n,
{
    if n <= 0 { 0 } else { dues(ds, el, kind, n - 1) + allowance(ds[el[n - 1] as int].rank, kind) }
}

/// The month's silver payments for `sect`'s roster `ds`.
pub open spec fn silver_payments(sect: SectState, ds: Seq<Disciple>, sect_id: Option<Seq<char>>) -> Seq<(usize, i32)> {
    let el = payroll(ds, sect_id, ds.len() as int);
    allocate(ds, el, if sect.attributes.silver < 0 { 0 } else { sect.attributes.silver as int }, 0, Stipend::Silver)
}

/// The month's ration payments for `sect`'s roster `ds`: only those at home eat from the store.
pub open spec fn ration_payments(sect: SectState, ds: Seq<Disciple>, sect_id: Option<Seq<char>>) -> Seq<(usize, i32)> {
    let el = payroll(ds, sect_id, ds.len() as int);
    allocate(ds, at_home(ds, el, el.len() as int), stock_of(sect, "粮秣"@), 0, Stipend::Rations)
}

proof fn lemma_payroll_shape(ds: Seq<Disciple>, sect_id: Option<Seq<char>>, n: int)
    requires
        0 <= n <= ds.len(),
    ensures
        payroll(ds, sect_id, n).len() <= n,
        forall|j: int| 0 <= j < payroll(ds, sect_id, n).len() ==> ((#[trigger] payroll(ds, sect_id, n)[j]) as int) < n,
    decreases n,
{
    if n > 0 {
        lemma_payroll_shape(ds, sect_id, n - 1);
        let prev = payroll(ds, sect_id, n - 1);
        if on_payroll(ds[n - 1], sect_id) {
            assert forall|j: int| 0 <= j < prev.push((n - 1) as usize).len() implies
                ((#[trigger] prev.push((n - 1) as usize)[j]) as int) < n by {
                if j < prev.len() {
                    assert(prev.push((n - 1) as usize)[j] == prev[j]);
                }
            }
        }
    }
}

proof fn lemma_at_home_shape(ds: Seq<Disciple>, el: Seq<usize>, n: int, bound: int)
    requires
        0 <= n <= el.len(),
        forall|j: int| 0 <= j < el.len() ==> ((#[trigger] el[j]) as int) < bound,
    ensures
        at_home(ds, el, n).len() <= n,
        forall|j: int| 0 <= j < at_home(ds, el, n).len() ==> ((#[trigger] at_home(ds, el, n)[j]) as int) < bound,
    decreases n,
{
    if n > 0 {
        lemma_at_home_shape(ds, el, n - 1, bound);
        let prev = at_home(ds, el, n - 1);
        if ds[el[n - 1] as int].away_months <= 0 {
            assert forall|j: int| 0 <= j < prev.push(el[n - 1]).len() implies
                ((#[trigger] prev.push(el[n - 1])[j]) as int) < bound by {
                if j < prev.len() {
                    assert(prev.push(el[n - 1])[j] == prev[j]);
                }
            }
        }
    }
}

proof fn lemma_dues_bounds(ds: Seq<Disciple>, el: Seq<usize>, kind: Stipend, n: int)
    requires
        0 <= n,
    ensures
        0 <= dues(ds, el, kind, n) <= 10 * n,
    decreases n,
{
    if n > 0 {
        lemma_dues_bounds(ds, el, kind, n - 1);
    }
}

fn payroll_of(ds: &[Disciple], sect_id: Option<&str>) -> (el: Vec<usize>)
    ensures
        el@ == payroll(ds@, match sect_id { Some(s) => Some(s@), None => None }, ds@.len() as int),
{
    let ghost sid = match sect_id { Some(s) => Some(s@), None => None };
    let mut el: Vec<usize> = Vec::new();
    let mut i: usize = 0;
    while i < ds.len()
        invariant
            i <= ds@.len(),
            sid == (match sect_id { Some(s) => Some(s@), None => None::<Seq<char>> }),
            el@ == payroll(ds@, sid, i as int),
        decreases ds@.len() - i,
    {
        let d = &ds[i];
        let member = match sect_id {
            Some(id) => match &d.sect_id {
                Some(own) => text_eq(own.as_str(), id),
                None => false,
            },
            None => true,
        };
        if d.alive && member {
            el.push(i);
        }
        i = i + 1;
    }
    el
}

fn home_of(ds: &[Disciple], el: &Vec<usize>) -> (home: Vec<usize>)
    requires
        forall|j: int| 0 <= j < el@.len() ==> (#[trigger] el@[j]) < ds@.len(),
    ensures
        home@ == at_home(ds@, el@, el@.len() as int),
{
    let mut home: Vec<usize> = Vec::new();
    let mut j: usize = 0;
    while j < el.len()
        invariant
            j <= el@.len(),
            forall|q: int| 0 <= q < el@.len() ==> (#[trigger] el@[q]) < ds@.len(),
            home@ == at_home(ds@, el@, j as int),
        decreases el@.len() - j,
    {
        if ds[el[j]].away_months <= 0 {
            home.push(el[j]);
        }
        j = j + 1;
    }
    home
}

fn dues_of(ds: &[Disciple], el: &Vec<usize>, kind: Stipend) -> (r: i32)
    requires
        forall|j: int| 0 <= j < el@.len() ==> (#[trigger] el@[j]) < ds@.len(),
        el@.len() <= 100_000_000,
    ensures
        r == dues(ds@, el@, kind, el@.len() as int),
{
    let mut total: i32 = 0;
    let mut j: usize = 0;
    while j < el.len()
        invariant
            j <= el@.len(),
            el@.len() <= 100_000_000,
            forall|q: int| 0 <= q < el@.len() ==> (#[trigger] el@[q]) < ds@.len(),
            total == dues(ds@, el@, kind, j as int),
        decreases el@.len() - j,
    {
        proof {
            lemma_dues_bounds(ds@, el@, kind, j as int + 1);
        }
        total = total + allowance_for(ds[el[j]].rank, kind);
        j = j + 1;
    }
    total
}

fn total_paid(a: &Vec<(usize, i32)>, bound: Ghost<int>) -> (r: i32)
    requires
        0 <= paid_total(a@) <= bound@ <= i32::MAX,
        amounts_small(a@),
    ensures
        r == paid_total(a@),
{
    let mut total: i32 = 0;
    let mut t: usize = 0;
    while t < a.len()
        invariant
            t <= a@.len(),
            amounts_small(a@),
            0 <= paid_total(a@) <= bound@ <= i32::MAX,
            total == paid_total(a@.take(t as int)),
        decreases a@.len() - t,
    {
        proof {
            assert(a@.take(t as int + 1).drop_last() =~= a@.take(t as int));
            lemma_paid_total_prefix(a@, t as int + 1);
        }
        total = total + a[t].1;
        t = t + 1;
    }
    proof {
        assert(a@.take(t as int) =~= a@);
    }
    total
}

proof fn lemma_paid_total_prefix(a: Seq<(usize, i32)>, t: int)
    requires
        amounts_small(a),
        0 <= t <= a.len(),
    ensures
        0 <= paid_total(a.take(t)) <= paid_total(a),
    decreases a.len() - t,
{
    if t < a.len() {
        lemma_paid_total_prefix(a, t + 1);
        assert(a.take(t + 1).drop_last() =~= a.take(t));
    } else {
        assert(a.take(t) =~= a);
    }
    lemma_paid_total_nonneg(a.take(t));
}

proof fn lemma_paid_total_nonneg(a: Seq<(usize, i32)>)
    requires
        forall|p: int| 0 <= p < a.len() ==> 0 <= (#[trigger] a[p]).1,
    ensures
        0 <= paid_total(a),
    decreases a.len(),
{
    if a.len() > 0 {
        lemma_paid_total_nonneg(a.drop_last());
    }
}

/// Each disciple's purse and satchel can take this month's stipend.
pub open spec fn stipends_fit(sect: SectState, ds: Seq<Disciple>, sect_id: Option<Seq<char>>) -> bool {
    &&& ds.len() <= 100_000_000
    &&& forall|i: int| 0 <= i < ds.len() ==> (#[trigger] ds[i]).personal_silver + paid_to(silver_payments(sect, ds, sect_id), i) <= i32::MAX
    &&& forall|i: int| 0 <= i < ds.len() ==> (#[trigger] ds[i]).personal_rations + paid_to(ration_payments(sect, ds, sect_id), i) <= i32::MAX
}

/// The month's stipends. Every living disciple of the roster (of `sect_id`
/// when one is named) is due its rank's silver, and those at home its rank's
/// rations. The sect pays from its silver and grain store rank by rank (see
/// `ranked_allocations`) into each disciple's own purse and satchel.
pub fn pay_monthly_stipends(sect: &mut SectState, disciples: &mut [Disciple], sect_id: Option<&str>) -> (r: PayrollSummary)
    requires
        stipends_fit(*old(sect), old(disciples)@, match sect_id { Some(s) => Some(s@), None => None }),
    ensures
        ({
            let sid = match sect_id { Some(s) => Some(s@), None => None };
            let ds = old(disciples)@;
            let el = payroll(ds, sid, ds.len() as int);
            let sp = silver_payments(*old(sect), ds, sid);
            let rp = ration_payments(*old(sect), ds, sid);
            &&& r.silver_due == dues(ds, el, Stipend::Silver, el.len() as int)
            &&& r.rations_due == dues(ds, at_home(ds, el, el.len() as int), Stipend::Rations, at_home(ds, el, el.len() as int).len() as int)
            &&& r.silver_paid == paid_total(sp)
            &&& r.rations_paid == paid_total(rp)
            &&& final(disciples)@.len() == ds.len()
            &&& forall|i: int| 0 <= i < ds.len() ==> #[trigger] final(disciples)@[i] == (Disciple {
                personal_silver: (ds[i].personal_silver + paid_to(sp, i)) as i32,
                personal_rations: (ds[i].personal_rations + paid_to(rp, i)) as i32,
                ..ds[i]
            })
            &&& final(sect).attributes.silver == old(sect).attributes.silver - paid_total(sp)
            &&& final(sect).inventory.amount("粮秣"@) == old(sect).inventory.amount("粮秣"@) - paid_total(rp)
            &&& forall|k: Seq<char>| k != "粮秣"@ ==> #[trigger] final(sect).inventory.amount(k) == old(sect).inventory.amount(k)
        }),
        *final(sect) == (SectState {
            attributes: crate::sect::SectAttributes { silver: final(sect).attributes.silver, ..old(sect).attributes },
            inventory: final(sect).inventory,
            ..*old(sect)
        }),
{
    let ghost sid = match sect_id { Some(s) => Some(s@), None => None };
    let ghost ds = disciples@;
    let eligible = payroll_of(disciples, sect_id);
    proof {
        lemma_payroll_shape(ds, sid, ds.len() as int);
    }
    let home = home_of(disciples, &eligible);
    proof {
        lemma_at_home_shape(ds, eligible@, eligible@.len() as int, ds.len() as int);
    }
    let silver_due = dues_of(disciples, &eligible, Stipend::Silver);
    let rations_due = dues_of(disciples, &home, Stipend::Rations);
    let silver_allocations = ranked_allocations(disciples, &eligible, sect.attributes.silver, Stipend::Silver);
    let grain = sect.inventory.amount_of("粮秣");
    let stock = if grain < 0 { 0 } else { grain };
    let ration_allocations = ranked_allocations(disciples, &home, stock, Stipend::Rations);
    proof {
        let left_s: int = if sect.attributes.silver < 0 { 0 } else { sect.attributes.silver as int };
        lemma_allocation_within_available(ds, eligible@, left_s, 0, Stipend::Silver);
        lemma_allocation_within_available(ds, home@, stock as int, 0, Stipend::Rations);
        lemma_allocate_small(ds, eligible@, left_s, 0, Stipend::Silver);
        lemma_allocate_small(ds, home@, stock as int, 0, Stipend::Rations);
        lemma_allocate_below(ds, eligible@, left_s, 0, Stipend::Silver, ds.len() as int);
        lemma_allocate_below(ds, home@, stock as int, 0, Stipend::Rations, ds.len() as int);
    }
    let silver_paid = total_paid(&silver_allocations, Ghost(if sect.attributes.silver < 0 { 0 } else { sect.attributes.silver as int }));
    let rations_paid = total_paid(&ration_allocations, Ghost(stock as int));
    hand_out(disciples, &silver_allocations, Stipend::Silver);
    let ghost mid = disciples@;
    hand_out(disciples, &ration_allocations, Stipend::Rations);
    sect.attributes.silver = sect.attributes.silver - silver_paid;
    let ghost inv0 = sect.inventory;
    sect.inventory.add("粮秣", -rations_paid);
    proof {
        assert forall|k: Seq<char>| k != "粮秣"@ implies #[trigger] sect.inventory.amount(k) == inv0.amount(k) by {
            if inv0.has(k) {
                assert(sect.inventory.at(k) == inv0.at(k));
            }
        }
        assert forall|i: int| 0 <= i < ds.len() implies #[trigger] disciples@[i] == (Disciple {
            personal_silver: (ds[i].personal_silver + paid_to(silver_allocations@, i)) as i32,
            personal_rations: (ds[i].personal_rations + paid_to(ration_allocations@, i)) as i32,
            ..ds[i]
        }) by {
            assert(mid[i] == Disciple { personal_silver: (ds[i].personal_silver + paid_to(silver_allocations@, i)) as i32, ..ds[i] });
        }
    }
    PayrollSummary { silver_due, silver_paid, rations_due, rations_paid }
}

} // verus!
