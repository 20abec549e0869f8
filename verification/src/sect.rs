//! Sect state: attributes, the seven halls, orders, production and the
//! monthly upkeep that ties them together.
use vstd::prelude::*;
use crate::ledger::Ledger;
use crate::model::{BuildingKind, SectPolicy, MoralDirection, player_sect_id, Disciple, DiscipleRank, Department};
use crate::game::GameState;
use crate::arts::{art_is_combat, art_combat};
use crate::lineage::opt_text;
use crate::text::{text_eq, text_less, text_lt};
use crate::country::{clamp_int, scale_positive, spec_scale_positive};

verus! {

/// Prestige, treasury, morale and reputation of a sect.
#[derive(Clone, Copy, Debug, PartialEq, Eq, Structural)]
pub struct SectAttributes {
    pub prestige: i32,
    pub silver: i32,
    pub morale: i32,
    pub morality: i32,
}

/// One functional hall of a sect.
#[derive(Clone, Debug)]
pub struct Building {
    pub id: String,
    pub name: String,
    pub kind: BuildingKind,
    pub level: i32,
    pub condition: i32,
    pub elder_id: Option<String>,
    pub elder_title: String,
    pub upgrading_months: i32,
    pub work_required: i32,
    pub work_invested: i32,
    pub selected_duty: Option<String>,
    pub duty_target: Option<String>,
    pub elder_action_used: bool,
}

impl Building {
    /// A level-one, undamaged hall with no elder.
    pub fn new(id: &str, name: &str, kind: BuildingKind, elder_title: &str) -> (b: Building)
        ensures
            b.id@ == id@,
            b.name@ == name@,
            b.kind == kind,
            b.elder_title@ == elder_title@,
            b.level == 1,
            b.condition == 100,
            b.elder_id.is_none(),
            b.upgrading_months == 0,
            b.work_required == 0,
            b.work_invested == 0,
            b.selected_duty.is_none(),
            b.duty_target.is_none(),
            !b.elder_action_used,
    {
        Building {
            id: String::from_str(id),
            name: String::from_str(name),
            kind,
            level: 1,
            condition: 100,
            elder_id: None,
            elder_title: String::from_str(elder_title),
            upgrading_months: 0,
            work_required: 0,
            work_invested: 0,
            selected_duty: None,
            duty_target: None,
            elder_action_used: false,
        }
    }
}

/// A sect order in force for some months, with its bonuses by key.
#[derive(Clone, Debug)]
pub struct SectOrder {
    pub id: String,
    pub name: String,
    pub remaining_months: i32,
    pub silver_cost: i32,
    pub effect: Ledger<i32>,
}

/// A production batch that lands in the inventory when its months run out.
#[derive(Clone, Debug, Default)]
pub struct ProductionTask {
    pub id: String,
    pub name: String,
    pub output_item: String,
    pub quantity: i32,
    pub remaining_months: i32,
}

/// Share of living disciples that may hold outer rank, and share of the outer
/// disciples that may hold inner rank, both in percent.
#[derive(Clone, Copy, Debug, PartialEq, Eq, Structural)]
pub struct RankRules {
    pub outer_percent: i32,
    pub inner_percent: i32,
}

/// The kind of a martial art: fist and palm, movement, inner force,
/// weapon, or any kind that is no fighting art.
#[derive(Clone, Copy, Debug, PartialEq, Eq, Structural)]
pub enum ArtCategory {
    Unarmed,
    Dodge,
    Force,
    Weapon,
    Other,
}

/// The grade of a martial art created by a sect.
#[derive(Clone, Copy, Debug, PartialEq, Eq, Structural)]
pub enum ArtTier {
    Chore,
    Outer,
    Inner,
}

/// A martial art created by the sect itself: its id and name, its kind and
/// grade and the kind's label, whether it is a fighting art, its account,
/// attack, defence and speed, the talent it asks for, the basic skill it
/// rests on, and its difficulty.
#[derive(Clone, Debug)]
pub struct CreatedArt {
    pub id: String,
    pub name: String,
    pub is_combat: bool,
    pub category: ArtCategory,
    pub tier: ArtTier,
    pub art_type: String,
    pub desc: String,
    pub atk: i32,
    pub def: i32,
    pub spd: i32,
    pub req_talent: i32,
    pub basic_skill: String,
    pub difficulty: i32,
}

/// The state of one sect.
#[derive(Clone, Debug)]
pub struct SectState {
    pub id: String,
    pub name: String,
    pub country_id: String,
    pub attributes: SectAttributes,
    pub buildings: Vec<Building>,
    pub policy: SectPolicy,
    pub moral_direction: MoralDirection,
    pub active_orders: Vec<SectOrder>,
    pub productions: Vec<ProductionTask>,
    pub inventory: Ledger<i32>,
    pub relations: Ledger<i32>,
    pub martial_research: Ledger<i64>,
    pub public_books: Vec<String>,
    pub heritage_arts: Vec<String>,
    pub created_martial_arts: Vec<CreatedArt>,
    pub rank_rules: RankRules,
    pub auto_brew_queue: Vec<String>,
    pub auto_brew_index: usize,
    pub auto_brew_progress: i32,
}

/// The seven halls, in their fixed order: ids, names, kinds.
pub open spec fn hall_ids() -> Seq<Seq<char>> {
    seq![
        "practice"@, "scripture"@, "warehouse"@, "herb_hall"@, "intelligence"@, "affairs"@,
        "logistics"@,
    ]
}

/// Kind of the hall at position `i` of the fixed order.
pub open spec fn hall_kind(i: int) -> BuildingKind {
    if i == 0 {
        BuildingKind::Practice
    } else if i == 1 {
        BuildingKind::Scripture
    } else if i == 2 {
        BuildingKind::Warehouse
    } else if i == 3 {
        BuildingKind::HerbHall
    } else if i == 4 {
        BuildingKind::Intelligence
    } else if i == 5 {
        BuildingKind::Affairs
    } else {
        BuildingKind::Logistics
    }
}

/// Name of the hall at position `i`.
pub open spec fn hall_name(i: int) -> Seq<char> {
    seq!["演武场"@, "藏经阁"@, "库房"@, "百草堂"@, "天枢阁"@, "执事堂"@, "营造司"@][i]
}

/// Elder title of the hall at position `i` in sect `sect_id`.
pub open spec fn hall_title(sect_id: Seq<char>, i: int) -> Seq<char> {
    if sect_id == "shaolin"@ {
        seq!["罗汉堂首座"@, "藏经阁首座"@, "监院"@, "药王院首座"@, "知客僧"@, "维那"@, "都寺"@][i]
    } else {
        seq!["传功长老"@, "藏经阁主"@, "司库长老"@, "百草堂主"@, "天枢阁主"@, "执事长老"@, "营造长老"@][i]
    }
}

/// The seven fresh halls of the sect `sect_id`, with the elder titles of that sect.
pub fn sect_buildings(sect_id: &str) -> (r: Vec<Building>)
    ensures
        r@.len() == 7,
        forall|i: int| 0 <= i < 7 ==> {
            &&& (#[trigger] r@[i]).id@ == hall_ids()[i]
            &&& r@[i].name@ == hall_name(i)
            &&& r@[i].elder_title@ == hall_title(sect_id@, i)
            &&& r@[i].kind == hall_kind(i)
            &&& r@[i].level == 1
            &&& r@[i].condition == 100
            &&& r@[i].elder_id.is_none()
            &&& r@[i].upgrading_months == 0
            &&& r@[i].work_required == 0
            &&& r@[i].work_invested == 0
            &&& r@[i].selected_duty.is_none()
            &&& r@[i].duty_target.is_none()
            &&& !r@[i].elder_action_used
        },
{
    let shaolin = text_eq(sect_id, "shaolin");
    let titles: [&str; 7] = if shaolin {
        ["罗汉堂首座", "藏经阁首座", "监院", "药王院首座", "知客僧", "维那", "都寺"]
    } else {
        ["传功长老", "藏经阁主", "司库长老", "百草堂主", "天枢阁主", "执事长老", "营造长老"]
    };
    let mut r: Vec<Building> = Vec::new();
    r.push(Building::new("practice", "演武场", BuildingKind::Practice, titles[0]));
    r.push(Building::new("scripture", "藏经阁", BuildingKind::Scripture, titles[1]));
    r.push(Building::new("warehouse", "库房", BuildingKind::Warehouse, titles[2]));
    r.push(Building::new("herb_hall", "百草堂", BuildingKind::HerbHall, titles[3]));
    r.push(Building::new("intelligence", "天枢阁", BuildingKind::Intelligence, titles[4]));
    r.push(Building::new("affairs", "执事堂", BuildingKind::Affairs, titles[5]));
    r.push(Building::new("logistics", "营造司", BuildingKind::Logistics, titles[6]));
    proof {
        reveal_strlit("practice");
        reveal_strlit("scripture");
        reveal_strlit("warehouse");
        reveal_strlit("herb_hall");
        reveal_strlit("intelligence");
        reveal_strlit("affairs");
        reveal_strlit("logistics");
    }
    r
}

/// A fresh player sect: named 无名派, of the southern empire, seven level-one
/// halls in good repair, balanced policy, righteous direction, 40% outer and
/// 15% inner rank quotas, prestige 100, silver 500, morale 70, morality 60;
/// 80 grain, 40 iron and 30 herbs in store; no relations, research, orders,
/// productions, heritage arts or arts of its own; the two books
/// `player_knowledge` and `hunyuan` in the library; and the furnace queue
/// wound, qi, foundation at its start.
pub open spec fn fresh_sect(s: SectState) -> bool {
    &&& s.id@ == player_sect_id()
    &&& s.name@ == "无名派"@
    &&& s.country_id@ == "song"@
    &&& s.buildings@.len() == 7
    &&& forall|i: int| 0 <= i < 7 ==> {
        &&& (#[trigger] s.buildings@[i]).id@ == hall_ids()[i]
        &&& s.buildings@[i].kind == hall_kind(i)
        &&& s.buildings@[i].level == 1
        &&& s.buildings@[i].condition == 100
        &&& s.buildings@[i].elder_id.is_none()
        &&& s.buildings@[i].work_required == 0
    }
    &&& s.policy == SectPolicy::Balanced
    &&& s.moral_direction == MoralDirection::Righteous
    &&& s.active_orders@.len() == 0
    &&& s.productions@.len() == 0
    &&& s.rank_rules == (RankRules { outer_percent: 40, inner_percent: 15 })
    &&& s.attributes == (SectAttributes { prestige: 100, silver: 500, morale: 70, morality: 60 })
    &&& s.inventory.as_map() == map!["粮秣"@ => 80i32, "精铁"@ => 40i32, "草药"@ => 30i32]
    &&& s.relations.as_map() == Map::<Seq<char>, i32>::empty()
    &&& s.martial_research.as_map() == Map::<Seq<char>, i64>::empty()
    &&& s.public_books@.map_values(|b: String| b@) == seq!["player_knowledge"@, "hunyuan"@]
    &&& s.heritage_arts@.len() == 0
    &&& s.created_martial_arts@.len() == 0
    &&& s.auto_brew_queue@.map_values(|b: String| b@) == seq!["wound"@, "qi"@, "foundation"@]
    &&& s.auto_brew_index == 0
    &&& s.auto_brew_progress == 0
}

impl SectState {
    /// A fresh player sect (see `fresh_sect`).
    pub fn new() -> (s: SectState)
        ensures
            fresh_sect(s),
    {
        proof {
            reveal_strlit("player");
            reveal_strlit("song");
        }
        let mut inventory: Ledger<i32> = Ledger::new();
        inventory.insert("粮秣", 80);
        inventory.insert("精铁", 40);
        inventory.insert("草药", 30);
        let mut public_books: Vec<String> = Vec::new();
        public_books.push(String::from_str("player_knowledge"));
        public_books.push(String::from_str("hunyuan"));
        let mut auto_brew_queue: Vec<String> = Vec::new();
        auto_brew_queue.push(String::from_str("wound"));
        auto_brew_queue.push(String::from_str("qi"));
        auto_brew_queue.push(String::from_str("foundation"));
        let s = SectState {
            id: String::from_str("player"),
            name: String::from_str("无名派"),
            country_id: String::from_str("song"),
            attributes: SectAttributes { prestige: 100, silver: 500, morale: 70, morality: 60 },
            buildings: sect_buildings("player"),
            policy: SectPolicy::Balanced,
            moral_direction: MoralDirection::Righteous,
            active_orders: Vec::new(),
            productions: Vec::new(),
            inventory,
            relations: Ledger::new(),
            martial_research: Ledger::new(),
            public_books,
            heritage_arts: Vec::new(),
            created_martial_arts: Vec::new(),
            rank_rules: RankRules { outer_percent: 40, inner_percent: 15 },
            auto_brew_queue,
            auto_brew_index: 0,
            auto_brew_progress: 0,
        };
        proof {
            reveal_strlit("粮秣");
            reveal_strlit("精铁");
            reveal_strlit("草药");
            assert(s.inventory.as_map() =~= map!["粮秣"@ => 80i32, "精铁"@ => 40i32, "草药"@ => 30i32]);
            assert(s.relations.as_map() =~= Map::<Seq<char>, i32>::empty());
            assert(s.martial_research.as_map() =~= Map::<Seq<char>, i64>::empty());
            assert(s.public_books@.map_values(|b: String| b@) =~= seq!["player_knowledge"@, "hunyuan"@]);
            assert(s.auto_brew_queue@.map_values(|b: String| b@) =~= seq!["wound"@, "qi"@, "foundation"@]);
            assert(s.id@ == player_sect_id());
            assert(s.name@ == "无名派"@);
            assert(s.buildings@.len() == 7);
            assert(s.inventory.as_map() == map!["粮秣"@ => 80i32, "精铁"@ => 40i32, "草药"@ => 30i32]);
        }
        s
    }
}

impl Default for SectState {
    fn default() -> (s: SectState)
        ensures
            fresh_sect(s),
    {
        SectState::new()
    }
}

/// Whether position `i` is the first building of `bs` with id `id`.
pub open spec fn is_first_building(bs: Seq<Building>, id: Seq<char>, i: int) -> bool {
    &&& 0 <= i < bs.len()
    &&& bs[i].id@ == id
    &&& forall|j: int| 0 <= j < i ==> (#[trigger] bs[j]).id@ != id
}

/// Position of the first building of `bs` with id `id`, or -1 when none has it.
pub open spec fn building_index(bs: Seq<Building>, id: Seq<char>) -> int {
    if exists|i: int| is_first_building(bs, id, i) {
        choose|i: int| is_first_building(bs, id, i)
    } else {
        -1
    }
}

/// Position of the first building with id `id`.
pub fn find_building(bs: &Vec<Building>, id: &str) -> (r: Option<usize>)
    ensures
        match r {
            Some(i) => building_index(bs@, id@) == i && is_first_building(bs@, id@, i as int),
            None => building_index(bs@, id@) == -1
                && forall|j: int| 0 <= j < bs@.len() ==> (#[trigger] bs@[j]).id@ != id@,
        },
{
    let mut i: usize = 0;
    while i < bs.len()
        invariant
            i <= bs@.len(),
            forall|j: int| 0 <= j < i ==> (#[trigger] bs@[j]).id@ != id@,
        decreases bs@.len() - i,
    {
        if text_eq(bs[i].id.as_str(), id) {
            proof {
                assert(is_first_building(bs@, id@, i as int));
                let k = choose|k: int| is_first_building(bs@, id@, k);
                if k < i {
                    assert(bs@[k].id@ != id@);
                } else if k > i {
                    assert(bs@[i as int].id@ != id@);
                }
            }
            return Some(i);
        }
        i = i + 1;
    }
    proof {
        if exists|k: int| is_first_building(bs@, id@, k) {
            let k = choose|k: int| is_first_building(bs@, id@, k);
            assert(bs@[k].id@ != id@);
        }
    }
    None
}

/// `x` held within the range of `i32`.
pub open spec fn sat32(x: int) -> int {
    clamp_int(x, i32::MIN as int, i32::MAX as int)
}

/// Effectiveness of one hall in percent: 100 at level one and full
/// condition, +20 per further level, scaled by condition; 0 when destroyed.
pub open spec fn hall_effectiveness(level: int, condition: int) -> int {
    let level_factor = sat32(80 + sat32((if level < 1 { 1 } else { level }) * 20));
    sat32(level_factor * clamp_int(condition, 0, 100)) / 100
}

/// Effectiveness of the first hall with id `id`, or 0 when the sect has none.
pub open spec fn spec_building_effectiveness(sect: SectState, id: Seq<char>) -> int {
    let i = building_index(sect.buildings@, id);
    if i < 0 {
        0
    } else {
        hall_effectiveness(sect.buildings@[i].level as int, sect.buildings@[i].condition as int)
    }
}

/// Effectiveness of a hall in percent (see `hall_effectiveness`).
pub fn building_effectiveness(sect: &SectState, building_id: &str) -> (r: i32)
    ensures
        r == spec_building_effectiveness(*sect, building_id@),
        r >= 0,
{
    match find_building(&sect.buildings, building_id) {
        None => 0,
        Some(i) => {
            let b = &sect.buildings[i];
            let level: i64 = if b.level < 1 { 1 } else { b.level as i64 };
            let scaled: i64 = clamp_i64_to_i32(level * 20) as i64;
            let factor: i64 = clamp_i64_to_i32(80 + scaled) as i64;
            let condition: i64 = if b.condition < 0 {
                0
            } else if b.condition > 100 {
                100
            } else {
                b.condition as i64
            };
            proof {
                assert(0 <= factor * condition <= (i32::MAX as int) * 100) by (nonlinear_arith)
                    requires
                        0 <= factor <= i32::MAX,
                        0 <= condition <= 100,
                ;
            }
            let product = clamp_i64_to_i32(factor * condition);
            product / 100
        },
    }
}

/// Clamps a 64-bit value into the range of `i32`.
pub fn clamp_i64_to_i32(x: i64) -> (r: i32)
    ensures
        r == sat32(x as int),
{
    if x < i32::MIN as i64 {
        i32::MIN
    } else if x > i32::MAX as i64 {
        i32::MAX
    } else {
        x as i32
    }
}

/// Level of the first hall with id `id`, or 0 when the sect has none.
pub fn building_level(sect: &SectState, id: &str) -> (r: i32)
    ensures
        r == (if building_index(sect.buildings@, id@) < 0 {
            0
        } else {
            sect.buildings@[building_index(sect.buildings@, id@)].level as int
        }),
{
    match find_building(&sect.buildings, id) {
        None => 0,
        Some(i) => sect.buildings[i].level,
    }
}

// ---------------------------------------------------------------------------
// Bonuses.

/// Bonus of the sect's policy for `key`, in percent.
pub open spec fn spec_policy_bonus(policy: SectPolicy, key: Seq<char>) -> int {
    match policy {
        SectPolicy::Martial => if key == "martial"@ { 20 } else { 0 },
        SectPolicy::Scholarly => if key == "study"@ { 20 } else { 0 },
        SectPolicy::Chivalrous => if key == "morality"@ { 15 } else { 0 },
        SectPolicy::Mercantile => if key == "income"@ { 20 } else { 0 },
        SectPolicy::Reclusive => if key == "recovery"@ { 15 } else { 0 },
        SectPolicy::Balanced => 5,
    }
}

/// Bonus of the sect's policy for `key`: 20 for martial, study and income
/// under the matching policy, 15 for morality and recovery under theirs,
/// 5 for anything under a balanced policy, 0 otherwise.
pub fn policy_bonus(sect: &SectState, key: &str) -> (r: i32)
    ensures
        r == spec_policy_bonus(sect.policy, key@),
{
    match sect.policy {
        SectPolicy::Martial => if text_eq(key, "martial") { 20 } else { 0 },
        SectPolicy::Scholarly => if text_eq(key, "study") { 20 } else { 0 },
        SectPolicy::Chivalrous => if text_eq(key, "morality") { 15 } else { 0 },
        SectPolicy::Mercantile => if text_eq(key, "income") { 20 } else { 0 },
        SectPolicy::Reclusive => if text_eq(key, "recovery") { 15 } else { 0 },
        SectPolicy::Balanced => 5,
    }
}

/// Sum of the `key` bonuses of the first `n` orders that are still in force.
pub open spec fn order_bonus_upto(orders: Seq<SectOrder>, key: Seq<char>, n: int) -> int
    decreases n,
{
    if n <= 0 {
        0
    } else {
        order_bonus_upto(orders, key, n - 1) + (if orders[n - 1].remaining_months > 0 {
            orders[n - 1].effect.amount(key)
        } else {
            0
        })
    }
}

/// Sum of the `key` bonuses of the orders still in force.
pub open spec fn spec_order_bonus(sect: SectState, key: Seq<char>) -> int {
    order_bonus_upto(sect.active_orders@, key, sect.active_orders@.len() as int)
}

/// Every partial sum of the `key` bonuses fits in `i32`.
pub open spec fn order_bonus_fits(sect: SectState, key: Seq<char>) -> bool {
    forall|n: int|
        0 <= n <= sect.active_orders@.len() ==> i32::MIN <= #[trigger] order_bonus_upto(
            sect.active_orders@,
            key,
            n,
        ) <= i32::MAX
}

/// Sum of the `key` bonuses of the sect's orders still in force.
pub fn order_bonus(sect: &SectState, key: &str) -> (r: i32)
    requires
        order_bonus_fits(*sect, key@),
    ensures
        r == spec_order_bonus(*sect, key@),
{
    let mut total: i32 = 0;
    let mut i: usize = 0;
    while i < sect.active_orders.len()
        invariant
            i <= sect.active_orders@.len(),
            order_bonus_fits(*sect, key@),
            total == order_bonus_upto(sect.active_orders@, key@, i as int),
        decreases sect.active_orders@.len() - i,
    {
        let order = &sect.active_orders[i];
        if order.remaining_months > 0 {
            proof {
                assert(i32::MIN <= order_bonus_upto(sect.active_orders@, key@, i + 1) <= i32::MAX);
            }
            total = total + order.effect.amount_of(key);
        }
        i = i + 1;
    }
    total
}

// ---------------------------------------------------------------------------
// Monthly upkeep.

/// Level and condition of the first warehouse: `(max(level, 0), condition in 0..=100)`,
/// or `(0, 0)` when the sect has none.
pub open spec fn warehouse_stats(sect: SectState) -> (int, int) {
    let i = building_index(sect.buildings@, "warehouse"@);
    if i < 0 {
        (0, 0)
    } else {
        let b = sect.buildings@[i];
        (if b.level < 0 { 0 } else { b.level as int }, clamp_int(b.condition as int, 0, 100))
    }
}

/// Passive income from the warehouse: four taels per level, scaled by condition.
pub open spec fn spec_warehouse_income(sect: SectState) -> int {
    let (level, condition) = warehouse_stats(sect);
    sat32(sat32(level * 4) * condition) / 100
}

fn warehouse_income(sect: &SectState) -> (r: i32)
    ensures
        r == spec_warehouse_income(*sect),
        r >= 0,
{
    let (level, condition): (i64, i64) = match find_building(&sect.buildings, "warehouse") {
        None => (0, 0),
        Some(i) => {
            let b = &sect.buildings[i];
            let level: i64 = if b.level < 0 { 0 } else { b.level as i64 };
            let condition: i64 = if b.condition < 0 {
                0
            } else if b.condition > 100 {
                100
            } else {
                b.condition as i64
            };
            (level, condition)
        },
    };
    let scaled = clamp_i64_to_i32(level * 4) as i64;
    proof {
        assert(0 <= scaled * condition <= (i32::MAX as int) * 100) by (nonlinear_arith)
            requires
                0 <= scaled <= i32::MAX,
                0 <= condition <= 100,
        ;
    }
    clamp_i64_to_i32(scaled * condition) / 100
}

/// Sum over the first `n` halls of `max(level, 0)`, saturating at `i32::MAX`.
pub open spec fn total_levels(bs: Seq<Building>, n: int) -> int
    decreases n,
{
    if n <= 0 {
        0
    } else {
        sat32(total_levels(bs, n - 1) + (if bs[n - 1].level < 0 { 0 } else { bs[n - 1].level as int }))
    }
}

/// Sum over the first `n` halls of missing condition points, saturating.
pub open spec fn total_deficit(bs: Seq<Building>, n: int) -> int
    decreases n,
{
    if n <= 0 {
        0
    } else {
        sat32(total_deficit(bs, n - 1) + 100 - clamp_int(bs[n - 1].condition as int, 0, 100))
    }
}

proof fn lemma_totals_nonnegative(bs: Seq<Building>, n: int)
    requires
        0 <= n <= bs.len(),
    ensures
        0 <= total_levels(bs, n) <= i32::MAX,
        0 <= total_deficit(bs, n) <= i32::MAX,
    decreases n,
{
    if n > 0 {
        lemma_totals_nonnegative(bs, n - 1);
    }
}

/// The month's expenses are never negative.
pub proof fn lemma_expense_nonneg(sect: SectState)
    requires
        sect.buildings@.len() <= i32::MAX,
    ensures
        spec_gross_expense(sect) >= 0,
        spec_expense(sect) >= 0,
{
    let bs = sect.buildings@;
    lemma_totals_nonnegative(bs, bs.len() as int);
    let g = spec_gross_expense(sect);
    let frugal = trunc_div(spec_order_bonus(sect, "income"@), 2);
    let keep = 100 - clamp_int(frugal, 0, 40);
    assert(0 <= g * keep) by (nonlinear_arith)
        requires
            g >= 0,
            60 <= keep <= 100,
    ;
}

/// Monthly expense before thrift: 20 base, 2 per hall, 1 per two levels of
/// extra scale, 1 per hundred points of accumulated wear (all saturating).
pub open spec fn spec_gross_expense(sect: SectState) -> int {
    let bs = sect.buildings@;
    let count = bs.len() as int;
    let scale = trunc_div(sat32(total_levels(bs, count) - count), 2);
    let wear = total_deficit(bs, count) / 100;
    sat32(sat32(sat32(20 + sat32(count * 2)) + scale) + wear)
}

/// Monthly expense after the thrift granted by income orders (at most 40%).
pub open spec fn spec_expense(sect: SectState) -> int {
    let frugal = trunc_div(spec_order_bonus(sect, "income"@), 2);
    sat32(spec_gross_expense(sect) * (100 - clamp_int(frugal, 0, 40))) / 100
}

/// Trunc division by a positive divisor (as in Rust).
pub open spec fn trunc_div(a: int, b: int) -> int {
    crate::country::trunc_div(a, b)
}

fn sat_add(a: i32, b: i32) -> (r: i32)
    ensures
        r == sat32(a + b),
{
    clamp_i64_to_i32(a as i64 + b as i64)
}

fn gross_expense(sect: &SectState) -> (r: i32)
    requires
        sect.buildings@.len() <= i32::MAX,
    ensures
        r == spec_gross_expense(*sect),
        r >= 0,
{
    let bs = &sect.buildings;
    let count = bs.len() as i32;
    let mut levels: i32 = 0;
    let mut deficit: i32 = 0;
    let mut i: usize = 0;
    while i < bs.len()
        invariant
            i <= bs@.len(),
            levels == total_levels(bs@, i as int),
            deficit == total_deficit(bs@, i as int),
        decreases bs@.len() - i,
    {
        let b = &bs[i];
        let level = if b.level < 0 { 0 } else { b.level };
        let condition = if b.condition < 0 {
            0
        } else if b.condition > 100 {
            100
        } else {
            b.condition
        };
        levels = sat_add(levels, level);
        deficit = sat_add(deficit, 100 - condition);
        i = i + 1;
    }
    proof {
        lemma_totals_nonnegative(bs@, bs@.len() as int);
    }
    let scale = clamp_i64_to_i32(levels as i64 - count as i64) / 2;
    let wear = deficit / 100;
    let base = clamp_i64_to_i32(20 + clamp_i64_to_i32(count as i64 * 2) as i64);
    sat_add(sat_add(base, scale), wear)
}

/// A hall under construction: once the invested work covers the required
/// work it gains a level and is restored; otherwise its remaining months are
/// the remaining work in tens, rounded up.
pub open spec fn advanced_building(b: Building) -> Building {
    if b.work_required > 0 {
        let remaining = if b.work_required - b.work_invested < 0 { 0 } else { b.work_required - b.work_invested };
        if remaining == 0 {
            Building {
                level: (b.level + 1) as i32,
                condition: 100,
                work_required: 0,
                work_invested: 0,
                upgrading_months: 0,
                ..b
            }
        } else {
            Building { upgrading_months: ((remaining + 9) / 10) as i32, ..b }
        }
    } else {
        b
    }
}

/// The construction arithmetic of a hall fits in `i32`.
pub open spec fn construction_fits(b: Building) -> bool {
    b.work_required > 0 ==> {
        &&& i32::MIN <= b.work_required - b.work_invested <= i32::MAX - 9
        &&& (b.work_required - b.work_invested <= 0 ==> b.level < i32::MAX)
    }
}

fn advance_construction(buildings: &mut Vec<Building>)
    requires
        forall|i: int| 0 <= i < old(buildings)@.len() ==> construction_fits(#[trigger] old(buildings)@[i]),
    ensures
        final(buildings)@ == old(buildings)@.map_values(|b: Building| advanced_building(b)),
{
    let ghost before = buildings@;
    let mut i: usize = 0;
    while i < buildings.len()
        invariant
            i <= buildings@.len(),
            buildings@.len() == before.len(),
            forall|j: int| 0 <= j < before.len() ==> construction_fits(#[trigger] before[j]),
            forall|j: int| 0 <= j < before.len() ==> #[trigger] buildings@[j] == (if j < i {
                advanced_building(before[j])
            } else {
                before[j]
            }),
        decreases buildings@.len() - i,
    {
        if buildings[i].work_required > 0 {
            let diff = buildings[i].work_required - buildings[i].work_invested;
            let remaining = if diff < 0 { 0 } else { diff };
            buildings[i].upgrading_months = (remaining + 9) / 10;
            if remaining == 0 {
                buildings[i].level = buildings[i].level + 1;
                buildings[i].condition = 100;
                buildings[i].work_required = 0;
                buildings[i].work_invested = 0;
                buildings[i].upgrading_months = 0;
            }
        }
        proof {
            assert(buildings@[i as int] == advanced_building(before[i as int]));
        }
        i = i + 1;
    }
    proof {
        assert(buildings@ =~= before.map_values(|b: Building| advanced_building(b)));
    }
}

/// The orders after a month: each loses a month, and those with none left lapse.
pub open spec fn ticked_orders(orders: Seq<SectOrder>) -> Seq<SectOrder>
    decreases orders.len(),
{
    if orders.len() == 0 {
        Seq::empty()
    } else {
        let rest = ticked_orders(orders.drop_last());
        let o = orders.last();
        if o.remaining_months - 1 > 0 {
            rest.push(SectOrder { remaining_months: (o.remaining_months - 1) as i32, ..o })
        } else {
            rest
        }
    }
}

fn tick_orders(orders: &mut Vec<SectOrder>)
    requires
        forall|i: int| 0 <= i < old(orders)@.len() ==> (#[trigger] old(orders)@[i]).remaining_months > i32::MIN,
    ensures
        final(orders)@ == ticked_orders(old(orders)@),
{
    let ghost before = orders@;
    let mut kept: Vec<SectOrder> = Vec::new();
    let mut taken: Vec<SectOrder> = Vec::new();
    std::mem::swap(&mut taken, orders);
    let mut i: usize = 0;
    let n = taken.len();
    // Drain in order: move each order out by swapping it with a fresh one.
    let mut reversed: Vec<SectOrder> = Vec::new();
    while taken.len() > 0
        invariant
            taken@.len() + reversed@.len() == n,
            n == before.len(),
            forall|j: int| 0 <= j < taken@.len() ==> #[trigger] taken@[j] == before[j],
            forall|j: int| 0 <= j < reversed@.len() ==> #[trigger] reversed@[j] == before[n - 1 - j],
        decreases taken@.len(),
    {
        let o = taken.pop().unwrap();
        reversed.push(o);
    }
    while reversed.len() > 0
        invariant
            n == before.len(),
            i == n - reversed@.len(),
            forall|j: int| 0 <= j < reversed@.len() ==> #[trigger] reversed@[j] == before[n - 1 - j],
            forall|j: int| 0 <= j < n ==> (#[trigger] before[j]).remaining_months > i32::MIN,
            kept@ == ticked_orders(before.take(i as int)),
        decreases reversed@.len(),
    {
        let mut o = reversed.pop().unwrap();
        proof {
            assert(o == before[i as int]);
            assert(before.take(i as int + 1).drop_last() =~= before.take(i as int));
            assert(before.take(i as int + 1).last() == before[i as int]);
        }
        o.remaining_months = o.remaining_months - 1;
        if o.remaining_months > 0 {
            kept.push(o);
        }
        i = i + 1;
    }
    proof {
        assert(before.take(n as int) =~= before);
    }
    *orders = kept;
}

/// The production batches after a month: each loses a month; those with none
/// left are delivered and leave the list.
pub open spec fn settled_tasks(tasks: Seq<ProductionTask>) -> Seq<ProductionTask>
    decreases tasks.len(),
{
    if tasks.len() == 0 {
        Seq::empty()
    } else {
        let rest = settled_tasks(tasks.drop_last());
        let t = tasks.last();
        if t.remaining_months - 1 > 0 {
            rest.push(ProductionTask { remaining_months: (t.remaining_months - 1) as i32, ..t })
        } else {
            rest
        }
    }
}

/// Quantity of `item` delivered by the first `n` batches this month.
pub open spec fn delivered(tasks: Seq<ProductionTask>, item: Seq<char>, n: int) -> int
    decreases n,
{
    if n <= 0 {
        0
    } else {
        delivered(tasks, item, n - 1) + (if tasks[n - 1].remaining_months - 1 <= 0
            && tasks[n - 1].output_item@ == item {
            tasks[n - 1].quantity as int
        } else {
            0
        })
    }
}

/// Some batch among the first `n` delivers `item` this month.
pub open spec fn delivers(tasks: Seq<ProductionTask>, item: Seq<char>, n: int) -> bool {
    exists|j: int| 0 <= j < n && (#[trigger] tasks[j]).remaining_months - 1 <= 0 && tasks[j].output_item@ == item
}

/// The stock additions of this month's deliveries fit in `i32` at every step.
pub open spec fn deliveries_fit(sect: SectState) -> bool {
    &&& forall|j: int| 0 <= j < sect.productions@.len() ==> (#[trigger] sect.productions@[j]).remaining_months > i32::MIN
    &&& forall|item: Seq<char>, n: int| 0 <= n <= sect.productions@.len() ==> i32::MIN <= sect.inventory.amount(item)
        + #[trigger] delivered(sect.productions@, item, n) <= i32::MAX
}

fn settle_productions(sect: &mut SectState)
    requires
        deliveries_fit(*old(sect)),
    ensures
        final(sect).productions@ == settled_tasks(old(sect).productions@),
        forall|item: Seq<char>| #[trigger] final(sect).inventory.amount(item) == old(sect).inventory.amount(item)
            + delivered(old(sect).productions@, item, old(sect).productions@.len() as int),
        forall|item: Seq<char>| #[trigger] final(sect).inventory.has(item) == (old(sect).inventory.has(item)
            || delivers(old(sect).productions@, item, old(sect).productions@.len() as int)),
        final(sect).attributes == old(sect).attributes,
        final(sect).buildings == old(sect).buildings,
        final(sect).active_orders == old(sect).active_orders,
        final(sect).policy == old(sect).policy,
        final(sect).moral_direction == old(sect).moral_direction,
        final(sect).id == old(sect).id,
        final(sect).name == old(sect).name,
        final(sect).country_id == old(sect).country_id,
        final(sect).relations == old(sect).relations,
        final(sect).martial_research == old(sect).martial_research,
        final(sect).public_books == old(sect).public_books,
        final(sect).rank_rules == old(sect).rank_rules,
        final(sect).auto_brew_queue == old(sect).auto_brew_queue,
        final(sect).auto_brew_index == old(sect).auto_brew_index,
        final(sect).auto_brew_progress == old(sect).auto_brew_progress,
{
    let ghost before = sect.productions@;
    let ghost inv0 = sect.inventory;
    let n = sect.productions.len();
    let mut taken: Vec<ProductionTask> = Vec::new();
    std::mem::swap(&mut taken, &mut sect.productions);
    let mut reversed: Vec<ProductionTask> = Vec::new();
    while taken.len() > 0
        invariant
            taken@.len() + reversed@.len() == n,
            n == before.len(),
            forall|j: int| 0 <= j < taken@.len() ==> #[trigger] taken@[j] == before[j],
            forall|j: int| 0 <= j < reversed@.len() ==> #[trigger] reversed@[j] == before[n - 1 - j],
        decreases taken@.len(),
    {
        let t = taken.pop().unwrap();
        reversed.push(t);
    }
    let mut kept: Vec<ProductionTask> = Vec::new();
    let mut i: usize = 0;
    while reversed.len() > 0
        invariant
            n == before.len(),
            i == n - reversed@.len(),
            forall|j: int| 0 <= j < reversed@.len() ==> #[trigger] reversed@[j] == before[n - 1 - j],
            forall|j: int| 0 <= j < n ==> (#[trigger] before[j]).remaining_months > i32::MIN,
            forall|item: Seq<char>, m: int| 0 <= m <= n ==> i32::MIN <= inv0.amount(item)
                + #[trigger] delivered(before, item, m) <= i32::MAX,
            kept@ == settled_tasks(before.take(i as int)),
            forall|item: Seq<char>| #[trigger] sect.inventory.amount(item) == inv0.amount(item) + delivered(before, item, i as int),
            forall|item: Seq<char>| #[trigger] sect.inventory.has(item) == (inv0.has(item) || delivers(before, item, i as int)),
            sect.attributes == old(sect).attributes,
            sect.buildings == old(sect).buildings,
            sect.active_orders == old(sect).active_orders,
            sect.policy == old(sect).policy,
            sect.moral_direction == old(sect).moral_direction,
            sect.id == old(sect).id,
            sect.name == old(sect).name,
            sect.country_id == old(sect).country_id,
            sect.relations == old(sect).relations,
            sect.martial_research == old(sect).martial_research,
            sect.public_books == old(sect).public_books,
            sect.rank_rules == old(sect).rank_rules,
            sect.auto_brew_queue == old(sect).auto_brew_queue,
            sect.auto_brew_index == old(sect).auto_brew_index,
            sect.auto_brew_progress == old(sect).auto_brew_progress,
        decreases reversed@.len(),
    {
        let mut t = reversed.pop().unwrap();
        proof {
            assert(t == before[i as int]);
            assert(before.take(i as int + 1).drop_last() =~= before.take(i as int));
            assert(before.take(i as int + 1).last() == before[i as int]);
        }
        t.remaining_months = t.remaining_months - 1;
        let ghost inv_before = sect.inventory;
        if t.remaining_months > 0 {
            kept.push(t);
        } else {
            proof {
                assert(i32::MIN <= inv0.amount(t.output_item@) + delivered(before, t.output_item@, i + 1) <= i32::MAX);
            }
            sect.inventory.add(t.output_item.as_str(), t.quantity);
        }
        proof {
            assert forall|item: Seq<char>| #[trigger] sect.inventory.amount(item) == inv0.amount(item) + delivered(before, item, i + 1) by {
                assert(inv_before.amount(item) == inv0.amount(item) + delivered(before, item, i as int));
                if before[i as int].remaining_months - 1 <= 0 && item != before[i as int].output_item@ {
                    assert(sect.inventory.has(item) == inv_before.has(item));
                    if inv_before.has(item) {
                        assert(sect.inventory.at(item) == inv_before.at(item));
                    }
                }
            }
            assert forall|item: Seq<char>| #[trigger] sect.inventory.has(item) == (inv0.has(item) || delivers(before, item, i + 1)) by {
                if delivers(before, item, i + 1) && !delivers(before, item, i as int) {
                    assert(before[i as int].output_item@ == item);
                }
                if delivers(before, item, i as int) {
                    let j = choose|j: int| 0 <= j < i && (#[trigger] before[j]).remaining_months - 1 <= 0 && before[j].output_item@ == item;
                    assert(delivers(before, item, i + 1));
                }
            }
        }
        i = i + 1;
    }
    proof {
        assert(before.take(n as int) =~= before);
    }
    sect.productions = kept;
}

/// Passive income before the policy and orders: a tenth of prestige, three
/// per disciple and the warehouse.
pub open spec fn spec_base_income(sect: SectState, disciples: int) -> int {
    trunc_div(sect.attributes.prestige as int, 10) + disciples * 3 + spec_warehouse_income(sect)
}

/// Income bonus in percent from policy and orders.
pub open spec fn spec_income_bonus(sect: SectState) -> int {
    spec_policy_bonus(sect.policy, "income"@) + spec_order_bonus(sect, "income"@)
}

/// Income after policy and orders, before the market.
pub open spec fn spec_policy_income(sect: SectState, disciples: int) -> int {
    trunc_div(spec_base_income(sect, disciples) * (100 + spec_income_bonus(sect)), 100)
}

/// This month's income: the policy income scaled once by the market.
pub open spec fn spec_upkeep_income(sect: SectState, disciples: int, market_percent: int) -> int {
    spec_scale_positive(spec_policy_income(sect, disciples), market_percent)
}

/// Treasury after income and expense, never below zero (before the moral direction).
pub open spec fn spec_silver_after(sect: SectState, disciples: int, market_percent: int) -> int {
    let s = sect.attributes.silver + spec_upkeep_income(sect, disciples, market_percent) - spec_expense(sect);
    if s < 0 { 0 } else { s }
}

/// Morality after the morality orders (before the moral direction).
pub open spec fn spec_morality_after(sect: SectState) -> int {
    clamp_int(sect.attributes.morality + trunc_div(spec_order_bonus(sect, "morality"@), 6), 0, 100)
}

/// The sect's attributes after a month of upkeep: a righteous sect gains a
/// point of morality and prestige, a neutral one a point of morale, a
/// villainous one loses two morality and a prestige but gains ten taels.
pub open spec fn upkept_attributes(sect: SectState, disciples: int, market_percent: int) -> SectAttributes {
    let a = sect.attributes;
    let silver = spec_silver_after(sect, disciples, market_percent);
    let morality = spec_morality_after(sect);
    match sect.moral_direction {
        MoralDirection::Righteous => SectAttributes {
            silver: silver as i32,
            morality: (if morality + 1 > 100 { 100 } else { morality + 1 }) as i32,
            prestige: (if a.prestige + 1 > 1000 { 1000 } else { a.prestige + 1 }) as i32,
            morale: a.morale,
        },
        MoralDirection::Neutral => SectAttributes {
            silver: silver as i32,
            morality: morality as i32,
            prestige: a.prestige,
            morale: (if a.morale + 1 > 100 { 100 } else { a.morale + 1 }) as i32,
        },
        MoralDirection::Villainous => SectAttributes {
            silver: (silver + 10) as i32,
            morality: (if morality - 2 < 0 { 0 } else { morality - 2 }) as i32,
            prestige: (if a.prestige - 1 < 0 { 0 } else { a.prestige - 1 }) as i32,
            morale: a.morale,
        },
    }
}

/// The upkeep arithmetic fits in `i32` (as it must for the month to settle).
pub open spec fn upkeep_fits(sect: SectState, disciples: int, market_percent: int) -> bool {
    let a = sect.attributes;
    &&& 0 <= disciples <= i32::MAX
    &&& sect.buildings@.len() <= i32::MAX
    &&& order_bonus_fits(sect, "income"@)
    &&& order_bonus_fits(sect, "morality"@)
    &&& i32::MIN <= trunc_div(a.prestige as int, 10) + disciples * 3 <= i32::MAX
    &&& disciples * 3 <= i32::MAX
    &&& i32::MIN <= spec_base_income(sect, disciples) <= i32::MAX
    &&& i32::MIN <= 100 + spec_income_bonus(sect) <= i32::MAX
    &&& i32::MIN <= spec_base_income(sect, disciples) * (100 + spec_income_bonus(sect)) <= i32::MAX
    &&& a.silver + spec_upkeep_income(sect, disciples, market_percent) <= i32::MAX
    &&& i32::MIN <= a.silver + spec_upkeep_income(sect, disciples, market_percent) - spec_expense(sect)
    &&& i32::MIN <= a.morality + trunc_div(spec_order_bonus(sect, "morality"@), 6) <= i32::MAX
    &&& (sect.moral_direction == MoralDirection::Righteous ==> a.prestige < i32::MAX)
    &&& (sect.moral_direction == MoralDirection::Neutral ==> a.morale < i32::MAX)
    &&& (sect.moral_direction == MoralDirection::Villainous ==> a.prestige > i32::MIN
        && spec_silver_after(sect, disciples, market_percent) + 10 <= i32::MAX)
    &&& forall|i: int| 0 <= i < sect.buildings@.len() ==> construction_fits(#[trigger] sect.buildings@[i])
    &&& forall|i: int| 0 <= i < sect.active_orders@.len() ==> (#[trigger] sect.active_orders@[i]).remaining_months > i32::MIN
    &&& deliveries_fit(sect)
}

/// One month of sect upkeep under a market multiplier: passive income
/// (scaled once by the market), hall and sundry expenses (never scaled),
/// order effects, the moral direction's drift, construction progress, order
/// expiry and production deliveries. Returns `(income, expense)`.
pub fn apply_monthly_upkeep_with_market(sect: &mut SectState, disciples: usize, market_percent: i32) -> (r: (i32, i32))
    requires
        upkeep_fits(*old(sect), disciples as int, market_percent as int),
    ensures
        r.0 == spec_upkeep_income(*old(sect), disciples as int, market_percent as int),
        r.1 == spec_expense(*old(sect)),
        final(sect).attributes == upkept_attributes(*old(sect), disciples as int, market_percent as int),
        final(sect).buildings@ == old(sect).buildings@.map_values(|b: Building| advanced_building(b)),
        final(sect).active_orders@ == ticked_orders(old(sect).active_orders@),
        final(sect).productions@ == settled_tasks(old(sect).productions@),
        forall|item: Seq<char>| #[trigger] final(sect).inventory.amount(item) == old(sect).inventory.amount(item)
            + delivered(old(sect).productions@, item, old(sect).productions@.len() as int),
        forall|item: Seq<char>| #[trigger] final(sect).inventory.has(item) == (old(sect).inventory.has(item)
            || delivers(old(sect).productions@, item, old(sect).productions@.len() as int)),
        final(sect).id == old(sect).id,
        final(sect).name == old(sect).name,
        final(sect).country_id == old(sect).country_id,
        final(sect).policy == old(sect).policy,
        final(sect).moral_direction == old(sect).moral_direction,
        final(sect).relations == old(sect).relations,
        final(sect).martial_research == old(sect).martial_research,
        final(sect).public_books == old(sect).public_books,
        final(sect).rank_rules == old(sect).rank_rules,
        final(sect).auto_brew_queue == old(sect).auto_brew_queue,
        final(sect).auto_brew_index == old(sect).auto_brew_index,
        final(sect).auto_brew_progress == old(sect).auto_brew_progress,
{
    let ghost s0 = *sect;
    let prosperity = sect.attributes.prestige / 10;
    let warehouse = warehouse_income(sect);
    let d = disciples as i32;
    let base_income = prosperity + d * 3 + warehouse;
    let income_bonus = policy_bonus(sect, "income") + order_bonus(sect, "income");
    let policy_income = base_income * (100 + income_bonus) / 100;
    let income = scale_positive(policy_income, market_percent);
    let gross = gross_expense(sect);
    let frugal = order_bonus(sect, "income") / 2;
    let thrift = if frugal < 0 {
        0
    } else if frugal > 40 {
        40
    } else {
        frugal
    };
    proof {
        assert(0 <= gross * (100 - thrift) <= (i32::MAX as int) * 100) by (nonlinear_arith)
            requires
                0 <= gross <= i32::MAX,
                0 <= thrift <= 40,
        ;
    }
    let expense = clamp_i64_to_i32(gross as i64 * (100 - thrift) as i64) / 100;
    let silver = sect.attributes.silver + income - expense;
    sect.attributes.silver = if silver < 0 { 0 } else { silver };
    let morality_bonus = order_bonus(sect, "morality") / 6;
    let morality = sect.attributes.morality + morality_bonus;
    sect.attributes.morality = if morality < 0 {
        0
    } else if morality > 100 {
        100
    } else {
        morality
    };
    match sect.moral_direction {
        MoralDirection::Righteous => {
            let m = sect.attributes.morality + 1;
            sect.attributes.morality = if m > 100 { 100 } else { m };
            let p = sect.attributes.prestige + 1;
            sect.attributes.prestige = if p > 1000 { 1000 } else { p };
        },
        MoralDirection::Neutral => {
            let m = sect.attributes.morale + 1;
            sect.attributes.morale = if m > 100 { 100 } else { m };
        },
        MoralDirection::Villainous => {
            let m = sect.attributes.morality - 2;
            sect.attributes.morality = if m < 0 { 0 } else { m };
            let p = sect.attributes.prestige - 1;
            sect.attributes.prestige = if p < 0 { 0 } else { p };
            sect.attributes.silver = sect.attributes.silver + 10;
        },
    }
    advance_construction(&mut sect.buildings);
    tick_orders(&mut sect.active_orders);
    proof {
        assert(sect.productions == s0.productions);
        assert(sect.inventory == s0.inventory);
    }
    settle_productions(sect);
    (income, expense)
}

/// One month of upkeep at a neutral market.
pub fn apply_monthly_upkeep(sect: &mut SectState, disciples: usize) -> (r: (i32, i32))
    requires
        upkeep_fits(*old(sect), disciples as int, 100),
    ensures
        r.0 == spec_upkeep_income(*old(sect), disciples as int, 100),
        r.1 == spec_expense(*old(sect)),
        final(sect).attributes == upkept_attributes(*old(sect), disciples as int, 100),
        final(sect).buildings@ == old(sect).buildings@.map_values(|b: Building| advanced_building(b)),
        final(sect).active_orders@ == ticked_orders(old(sect).active_orders@),
        final(sect).productions@ == settled_tasks(old(sect).productions@),
{
    apply_monthly_upkeep_with_market(sect, disciples, 100)
}

// ---------------------------------------------------------------------------
// Mirrors of the sect attributes kept for older callers.

/// Copies the player's sect attributes into the top-level mirrors, held within
/// their ranges: prestige `0..=1000`, silver at least 0, morale `0..=100`.
pub fn sync_legacy_fields(state: &mut GameState)
    ensures
        final(state).prestige == clamp_int(old(state).sect.attributes.prestige as int, 0, 1000),
        final(state).silver == (if old(state).sect.attributes.silver < 0 { 0 } else { old(state).sect.attributes.silver as int }),
        final(state).morale == clamp_int(old(state).sect.attributes.morale as int, 0, 100),
        *final(state) == (GameState { prestige: final(state).prestige, silver: final(state).silver, morale: final(state).morale, ..*old(state) }),
{
    let a = state.sect.attributes;
    state.prestige = if a.prestige < 0 { 0 } else if a.prestige > 1000 { 1000 } else { a.prestige };
    state.silver = if a.silver < 0 { 0 } else { a.silver };
    state.morale = if a.morale < 0 { 0 } else if a.morale > 100 { 100 } else { a.morale };
}

/// Takes changes made through the top-level mirrors into the player's sect,
/// held within the same ranges.
pub fn absorb_legacy_fields(state: &mut GameState)
    ensures
        final(state).sect.attributes.prestige == clamp_int(old(state).prestige as int, 0, 1000),
        final(state).sect.attributes.silver == (if old(state).silver < 0 { 0 } else { old(state).silver as int }),
        final(state).sect.attributes.morale == clamp_int(old(state).morale as int, 0, 100),
        final(state).sect.attributes.morality == old(state).sect.attributes.morality,
        final(state).sect == (SectState { attributes: final(state).sect.attributes, ..old(state).sect }),
        final(state).prestige == old(state).prestige,
        final(state).silver == old(state).silver,
        final(state).morale == old(state).morale,
        final(state).countries == old(state).countries,
        final(state).disciples == old(state).disciples,
        *final(state) == (GameState { sect: final(state).sect, ..*old(state) }),
{
    let p = state.prestige;
    let s = state.silver;
    let m = state.morale;
    state.sect.attributes.prestige = if p < 0 { 0 } else if p > 1000 { 1000 } else { p };
    state.sect.attributes.silver = if s < 0 { 0 } else { s };
    state.sect.attributes.morale = if m < 0 { 0 } else if m > 100 { 100 } else { m };
}

// ---------------------------------------------------------------------------
// Martial research and heritage.

/// Research cap of a combat art: the sect's research on it, never below 50
/// and held within `i32`; `None` for a knowledge art or an unknown art.
pub open spec fn spec_research_cap(sect: SectState, art_id: Seq<char>) -> Option<int> {
    match art_combat(art_id, sect.created_martial_arts@) {
        Some(true) => Some(clamp_int(
            if sect.martial_research.has(art_id) { sect.martial_research.at(art_id) as int } else { 0 },
            50,
            i32::MAX as int,
        )),
        _ => None,
    }
}

/// The level to which the sect can teach a combat art: its research on the
/// art, and at least 50 for an art it never researched. Knowledge arts have
/// no such cap.
pub fn martial_research_level_cap(sect: &SectState, art_id: &str) -> (r: Option<i32>)
    ensures
        match (r, spec_research_cap(*sect, art_id@)) {
            (Some(v), Some(c)) => v == c,
            (None, None) => true,
            _ => false,
        },
{
    match art_is_combat(art_id, &sect.created_martial_arts) {
        Some(true) => {
            let research: i64 = match sect.martial_research.get(art_id) {
                Some(v) => v,
                None => 0,
            };
            let capped: i32 = if research < 50 {
                50
            } else if research > i32::MAX as i64 {
                i32::MAX
            } else {
                research as i32
            };
            Some(capped)
        },
        _ => None,
    }
}

/// Whether `id` occurs in `list`.
pub open spec fn text_listed(list: Seq<String>, id: Seq<char>) -> bool {
    exists|i: int| 0 <= i < list.len() && (#[trigger] list[i])@ == id
}

/// Whether `id` occurs in `list`.
pub fn list_contains(list: &Vec<String>, id: &str) -> (r: bool)
    ensures
        r == text_listed(list@, id@),
{
    let mut i: usize = 0;
    while i < list.len()
        invariant
            i <= list@.len(),
            forall|j: int| 0 <= j < i ==> (#[trigger] list@[j])@ != id@,
        decreases list@.len() - i,
    {
        if text_eq(list[i].as_str(), id) {
            return true;
        }
        i = i + 1;
    }
    false
}

/// Whether an art belongs to the sect's core heritage.
pub fn is_heritage_art(sect: &SectState, art_id: &str) -> (r: bool)
    ensures
        r == text_listed(sect.heritage_arts@, art_id@),
{
    list_contains(&sect.heritage_arts, art_id)
}

/// `list` without the entries equal to `id`, in order.
pub open spec fn text_removed(list: Seq<String>, id: Seq<char>) -> Seq<String> {
    list.filter(|s: String| s@ != id)
}

proof fn lemma_removed_absent(l: Seq<String>, id: Seq<char>)
    requires
        !text_listed(l, id),
    ensures
        text_removed(l, id) == l,
    decreases l.len(),
{
    reveal(Seq::filter);
    if l.len() > 0 {
        assert(!text_listed(l.drop_last(), id)) by {
            if text_listed(l.drop_last(), id) {
                let i = choose|i: int| 0 <= i < l.drop_last().len() && (#[trigger] l.drop_last()[i])@ == id;
                assert(l[i]@ == id);
            }
        }
        lemma_removed_absent(l.drop_last(), id);
        assert(l[l.len() - 1]@ != id);
        assert(l.drop_last().push(l.last()) =~= l);
    }
}

/// Taking an art into the heritage core and taking it out again leaves the
/// core as it was: removing the art from the list it was appended to gives
/// back the list.
pub proof fn law_heritage_round_trip(before: Seq<String>, after: Seq<String>, id: Seq<char>)
    requires
        !text_listed(before, id),
        after.len() == before.len() + 1,
        after.drop_last() == before,
        after.last()@ == id,
    ensures
        text_listed(after, id),
        text_removed(after, id) == before,
{
    reveal(Seq::filter);
    assert(after[after.len() - 1]@ == id);
    lemma_removed_absent(before, id);
}

fn remove_all(list: &mut Vec<String>, id: &str)
    ensures
        final(list)@ == text_removed(old(list)@, id@),
{
    let ghost before = list@;
    let mut kept: Vec<String> = Vec::new();
    let mut i: usize = 0;
    while i < list.len()
        invariant
            list@ == before,
            i <= before.len(),
            kept@ == before.take(i as int).filter(|s: String| s@ != id@),
        decreases before.len() - i,
    {
        if !text_eq(list[i].as_str(), id) {
            kept.push(list[i].clone());
        }
        proof {
            assert(before.take(i as int + 1).drop_last() =~= before.take(i as int));
            reveal_with_fuel(Seq::<_>::filter, 1);
        }
        i = i + 1;
    }
    proof {
        assert(before.take(before.len() as int) =~= before);
    }
    *list = kept;
}

/// Adds an art of the public library (or one the sect created) to the
/// sect's core heritage, or takes it out again if it is already there.
/// Fails, changing nothing, for an art the sect does not hold.
pub fn toggle_heritage_art(sect: &mut SectState, art_id: &str) -> (r: Result<String, String>)
    ensures
        ({
            let held = text_listed(old(sect).public_books@, art_id@) || exists|i: int|
                0 <= i < old(sect).created_martial_arts@.len()
                    && (#[trigger] old(sect).created_martial_arts@[i]).id@ == art_id@;
            if !held {
                &&& r matches Err(e) && e@ == "藏经阁公册中无此武学。"@
                &&& *final(sect) == *old(sect)
            } else if text_listed(old(sect).heritage_arts@, art_id@) {
                &&& r matches Ok(t) && t@ == "此武学已从传承核心中移出。"@
                &&& *final(sect) == (SectState { heritage_arts: final(sect).heritage_arts, ..*old(sect) })
                &&& final(sect).heritage_arts@ == text_removed(old(sect).heritage_arts@, art_id@)
            } else {
                &&& r matches Ok(t) && t@ == "此武学已纳为本门传承核心。"@
                &&& *final(sect) == (SectState { heritage_arts: final(sect).heritage_arts, ..*old(sect) })
                &&& final(sect).heritage_arts@.len() == old(sect).heritage_arts@.len() + 1
                &&& final(sect).heritage_arts@.drop_last() == old(sect).heritage_arts@
                &&& final(sect).heritage_arts@.last()@ == art_id@
            }
        }),
{
    let mut exists = list_contains(&sect.public_books, art_id);
    if !exists {
        let mut i: usize = 0;
        while i < sect.created_martial_arts.len()
            invariant
                i <= sect.created_martial_arts@.len(),
                !exists ==> forall|j: int| 0 <= j < i ==> (#[trigger] sect.created_martial_arts@[j]).id@ != art_id@,
                exists ==> exists|j: int| 0 <= j < sect.created_martial_arts@.len()
                    && (#[trigger] sect.created_martial_arts@[j]).id@ == art_id@,
            decreases sect.created_martial_arts@.len() - i,
        {
            if text_eq(sect.created_martial_arts[i].id.as_str(), art_id) {
                exists = true;
            }
            i = i + 1;
        }
    }
    if !exists {
        return Err(String::from_str("藏经阁公册中无此武学。"));
    }
    if list_contains(&sect.heritage_arts, art_id) {
        remove_all(&mut sect.heritage_arts, art_id);
        Ok(String::from_str("此武学已从传承核心中移出。"))
    } else {
        sect.heritage_arts.push(String::from_str(art_id));
        proof {
            assert(sect.heritage_arts@.drop_last() =~= old(sect).heritage_arts@);
        }
        Ok(String::from_str("此武学已纳为本门传承核心。"))
    }
}

/// Extra study efficiency on a heritage art: up to three for a disciple of
/// an early generation, plus a tenth of loyalty above sixty.
pub open spec fn spec_heritage_bonus(sect: SectState, disciple: Disciple, art_id: Seq<char>) -> int {
    if !text_listed(sect.heritage_arts@, art_id) {
        0
    } else {
        let gen = sat32(3 - disciple.lineage_generation);
        let gen_bonus = if gen < 0 { 0 } else { gen };
        let loyalty = disciple.attributes.sect_loyalty - 60;
        gen_bonus + (if loyalty < 0 { 0 } else { loyalty }) / 10
    }
}

/// Extra study efficiency of a disciple on a heritage art (see `spec_heritage_bonus`).
pub fn heritage_bonus(sect: &SectState, disciple: &Disciple, art_id: &str) -> (r: i32)
    requires
        disciple.attributes.sect_loyalty >= i32::MIN + 60,
        spec_heritage_bonus(*sect, *disciple, art_id@) <= i32::MAX,
    ensures
        r == spec_heritage_bonus(*sect, *disciple, art_id@),
{
    if !is_heritage_art(sect, art_id) {
        return 0;
    }
    let gen: i32 = clamp_i64_to_i32(3 - disciple.lineage_generation as i64);
    let gen_bonus: i32 = if gen < 0 { 0 } else { gen };
    let loyalty: i32 = disciple.attributes.sect_loyalty - 60;
    let loyalty_bonus: i32 = (if loyalty < 0 { 0 } else { loyalty }) / 10;
    gen_bonus + loyalty_bonus
}

// ---------------------------------------------------------------------------
// Normalization of older saves.

/// The old name of the wound medicine, replaced by `WOUND_MEDICINE`.
pub open spec fn legacy_wound_medicine() -> Seq<char> {
    "金创药"@
}

/// The name of the wound medicine.
pub open spec fn wound_medicine() -> Seq<char> {
    "金疮药"@
}

proof fn lemma_item_names_distinct()
    ensures
        legacy_wound_medicine() != wound_medicine(),
        legacy_wound_medicine() != "粮秣"@,
        legacy_wound_medicine() != "精铁"@,
        wound_medicine() != "粮秣"@,
        wound_medicine() != "精铁"@,
        "粮秣"@ != "精铁"@,
{
    reveal_strlit("金创药");
    reveal_strlit("金疮药");
    reveal_strlit("粮秣");
    reveal_strlit("精铁");
    assert("金创药"@[1] != "金疮药"@[1]);
    assert("金创药"@[0] != "粮秣"@[0]);
    assert("金创药"@[0] != "精铁"@[0]);
    assert("金疮药"@[0] != "粮秣"@[0]);
    assert("金疮药"@[0] != "精铁"@[0]);
    assert("粮秣"@[0] != "精铁"@[0]);
}

/// Renames a batch that still yields the old medicine name.
pub open spec fn renamed_task(t: ProductionTask) -> bool {
    t.output_item@ == legacy_wound_medicine()
}

/// Moves stock of the old wound-medicine name to the current one, renames
/// batches that still produce it, and makes sure grain and iron have entries
/// (at zero when missing; nothing is given away).
pub fn normalize_inventory(sect: &mut SectState)
    requires
        i32::MIN <= old(sect).inventory.amount(wound_medicine()) + old(sect).inventory.amount(legacy_wound_medicine()) <= i32::MAX,
    ensures
        !final(sect).inventory.has(legacy_wound_medicine()),
        final(sect).inventory.amount(wound_medicine()) == old(sect).inventory.amount(wound_medicine())
            + old(sect).inventory.amount(legacy_wound_medicine()),
        final(sect).inventory.has(wound_medicine()) == (old(sect).inventory.has(wound_medicine())
            || old(sect).inventory.has(legacy_wound_medicine())),
        final(sect).inventory.has("粮秣"@),
        final(sect).inventory.has("精铁"@),
        forall|k: Seq<char>| k != legacy_wound_medicine() && k != wound_medicine() ==>
            #[trigger] final(sect).inventory.amount(k) == old(sect).inventory.amount(k),
        forall|k: Seq<char>| k != legacy_wound_medicine() && k != wound_medicine() && k != "粮秣"@ && k != "精铁"@ ==>
            #[trigger] final(sect).inventory.has(k) == old(sect).inventory.has(k),
        final(sect).productions@.len() == old(sect).productions@.len(),
        forall|i: int| 0 <= i < old(sect).productions@.len() ==> {
            let t = old(sect).productions@[i];
            let u = #[trigger] final(sect).productions@[i];
            if renamed_task(t) {
                &&& u.output_item@ == wound_medicine()
                &&& u.name@ == wound_medicine()
                &&& u.quantity == t.quantity
                &&& u.remaining_months == t.remaining_months
            } else {
                u == t
            }
        },
        *final(sect) == (SectState { inventory: final(sect).inventory, productions: final(sect).productions, ..*old(sect) }),
{
    proof {
        lemma_item_names_distinct();
        reveal_strlit("金创药");
        reveal_strlit("金疮药");
    }
    let ghost inv0 = sect.inventory;
    match sect.inventory.remove("金创药") {
        Some(quantity) => {
            let ghost inv1 = sect.inventory;
            sect.inventory.add("金疮药", quantity);
            proof {
                assert forall|k: Seq<char>| k != legacy_wound_medicine() && k != wound_medicine() implies
                    #[trigger] sect.inventory.amount(k) == inv0.amount(k) by {
                    if inv0.has(k) {
                        assert(inv1.at(k) == inv0.at(k));
                    }
                }
            }
        },
        None => {},
    }
    let ghost inv2 = sect.inventory;
    let ghost tasks0 = sect.productions@;
    let mut i: usize = 0;
    while i < sect.productions.len()
        invariant
            i <= sect.productions@.len(),
            sect.productions@.len() == tasks0.len(),
            sect.inventory == inv2,
            *sect == (SectState { inventory: sect.inventory, productions: sect.productions, ..*old(sect) }),
            forall|j: int| 0 <= j < tasks0.len() ==> {
                let t = tasks0[j];
                let u = #[trigger] sect.productions@[j];
                if j < i && renamed_task(t) {
                    &&& u.output_item@ == wound_medicine()
                    &&& u.name@ == wound_medicine()
                    &&& u.quantity == t.quantity
                    &&& u.remaining_months == t.remaining_months
                } else {
                    u == t
                }
            },
        decreases sect.productions@.len() - i,
    {
        if text_eq(sect.productions[i].output_item.as_str(), "金创药") {
            sect.productions[i].output_item = String::from_str("金疮药");
            sect.productions[i].name = String::from_str("金疮药");
        }
        i = i + 1;
    }
    let ghost inv3 = sect.inventory;
    sect.inventory.add("粮秣", 0);
    let ghost inv4 = sect.inventory;
    sect.inventory.add("精铁", 0);
    proof {
        assert forall|k: Seq<char>| k != "精铁"@ implies (#[trigger] sect.inventory.has(k) == inv4.has(k)) by {}
        assert forall|k: Seq<char>| k != "粮秣"@ implies (#[trigger] inv4.has(k) == inv3.has(k)) by {}
        assert forall|k: Seq<char>| k != legacy_wound_medicine() && k != wound_medicine() implies
            #[trigger] sect.inventory.amount(k) == old(sect).inventory.amount(k) by {
            if k != "精铁"@ && inv4.has(k) {
                assert(sect.inventory.at(k) == inv4.at(k));
            }
            if k != "粮秣"@ && inv3.has(k) {
                assert(inv4.at(k) == inv3.at(k));
            }
            if inv0.has(k) && inv0.has(legacy_wound_medicine()) {
                assert(inv2.amount(k) == inv0.amount(k));
            }
        }
        assert forall|k: Seq<char>| k != legacy_wound_medicine() && k != wound_medicine() && k != "粮秣"@ && k != "精铁"@ implies
            #[trigger] sect.inventory.has(k) == old(sect).inventory.has(k) by {
            assert(inv4.has(k) == inv3.has(k));
        }
    }
}

// ---------------------------------------------------------------------------
// Elders.

/// Some living inner disciple has id `id`.
pub open spec fn eligible_elder(disciples: Seq<Disciple>, id: Seq<char>) -> bool {
    exists|j: int| 0 <= j < disciples.len() && (#[trigger] disciples[j]).alive
        && disciples[j].rank == DiscipleRank::Inner && disciples[j].id@ == id
}

/// Hall `i` keeps its elder: a living inner disciple not already heading an
/// earlier hall.
pub open spec fn elder_kept(bs: Seq<Building>, disciples: Seq<Disciple>, i: int) -> bool {
    match bs[i].elder_id {
        None => true,
        Some(e) => eligible_elder(disciples, e@) && forall|j: int| 0 <= j < i ==> opt_text(#[trigger] bs[j].elder_id) != Some(e@),
    }
}

fn is_eligible_elder(disciples: &Vec<Disciple>, id: &str) -> (r: bool)
    ensures
        r == eligible_elder(disciples@, id@),
{
    let mut i: usize = 0;
    while i < disciples.len()
        invariant
            i <= disciples@.len(),
            forall|j: int| 0 <= j < i ==> !((#[trigger] disciples@[j]).alive && disciples@[j].rank == DiscipleRank::Inner
                && disciples@[j].id@ == id@),
        decreases disciples@.len() - i,
    {
        let d = &disciples[i];
        if d.alive && d.rank == DiscipleRank::Inner && text_eq(d.id.as_str(), id) {
            return true;
        }
        i = i + 1;
    }
    false
}

/// Clears each hall's elder who is not a living inner disciple, and every
/// repeat appointment of one elder after the first hall they head.
pub fn normalize_elder_assignments(sect: &mut SectState, disciples: &Vec<Disciple>)
    ensures
        final(sect).buildings@.len() == old(sect).buildings@.len(),
        forall|i: int| 0 <= i < old(sect).buildings@.len() ==> #[trigger] final(sect).buildings@[i] == (if elder_kept(
            old(sect).buildings@,
            disciples@,
            i,
        ) {
            old(sect).buildings@[i]
        } else {
            Building { elder_id: None, elder_action_used: false, ..old(sect).buildings@[i] }
        }),
        *final(sect) == (SectState { buildings: final(sect).buildings, ..*old(sect) }),
{
    let ghost bs = sect.buildings@;
    let n = sect.buildings.len();
    let mut elders: Vec<Option<String>> = Vec::new();
    let mut i: usize = 0;
    while i < n
        invariant
            n == bs.len(),
            bs == sect.buildings@,
            i <= n,
            elders@.len() == i,
            forall|j: int| 0 <= j < i ==> opt_text(#[trigger] elders@[j]) == opt_text(bs[j].elder_id),
        decreases n - i,
    {
        elders.push(crate::lineage::clone_opt_text(&sect.buildings[i].elder_id));
        i = i + 1;
    }
    let mut i: usize = 0;
    while i < n
        invariant
            n == bs.len(),
            i <= n,
            sect.buildings@.len() == n,
            elders@.len() == n,
            forall|j: int| 0 <= j < n ==> opt_text(#[trigger] elders@[j]) == opt_text(bs[j].elder_id),
            *sect == (SectState { buildings: sect.buildings, ..*old(sect) }),
            bs == old(sect).buildings@,
            forall|j: int| 0 <= j < n ==> #[trigger] sect.buildings@[j] == (if j < i && !elder_kept(bs, disciples@, j) {
                Building { elder_id: None, elder_action_used: false, ..bs[j] }
            } else {
                bs[j]
            }),
        decreases n - i,
    {
        let keep = match &elders[i] {
            None => true,
            Some(e) => {
                if !is_eligible_elder(disciples, e.as_str()) {
                    false
                } else {
                    let mut earlier = false;
                    let mut j: usize = 0;
                    while j < i
                        invariant
                            j <= i,
                            i < n,
                            elders@.len() == n,
                            forall|k: int| 0 <= k < n ==> opt_text(#[trigger] elders@[k]) == opt_text(bs[k].elder_id),
                            earlier ==> exists|k: int| 0 <= k < j && opt_text(#[trigger] bs[k].elder_id) == Some(e@),
                            !earlier ==> forall|k: int| 0 <= k < j ==> opt_text(#[trigger] bs[k].elder_id) != Some(e@),
                        decreases i - j,
                    {
                        match &elders[j] {
                            Some(other) => {
                                if text_eq(other.as_str(), e.as_str()) {
                                    earlier = true;
                                }
                            },
                            None => {},
                        }
                        proof {
                            assert(opt_text(elders@[j as int]) == opt_text(bs[j as int].elder_id));
                        }
                        j = j + 1;
                    }
                    !earlier
                }
            },
        };
        proof {
            assert(opt_text(elders@[i as int]) == opt_text(bs[i as int].elder_id));
        }
        proof {
            assert(sect.buildings@[i as int] == bs[i as int]);
        }
        if !keep {
            sect.buildings[i].elder_id = None;
            sect.buildings[i].elder_action_used = false;
        }
        proof {
            assert(keep == elder_kept(bs, disciples@, i as int));
        }
        i = i + 1;
    }
}

/// The department whose experience suits the head of a hall of kind `kind`.
pub open spec fn expected_department(kind: BuildingKind) -> Department {
    match kind {
        BuildingKind::Practice => Department::Transmission,
        BuildingKind::Scripture => Department::Library,
        BuildingKind::Warehouse => Department::Treasury,
        BuildingKind::HerbHall => Department::Apothecary,
        BuildingKind::Intelligence => Department::ExternalAffairs,
        BuildingKind::Affairs | BuildingKind::Logistics => Department::Stewardship,
    }
}

/// The aptitude that matters for heading a hall of kind `kind`, as (sum, divisor).
pub open spec fn relevant_aptitude_parts(d: Disciple, kind: BuildingKind) -> (int, int) {
    let a = d.aptitudes;
    match kind {
        BuildingKind::Practice => (a.strength + a.constitution + a.agility, 3),
        BuildingKind::Scripture => (a.intelligence as int, 1),
        BuildingKind::Warehouse => (a.intelligence + a.fortune, 2),
        BuildingKind::HerbHall => (a.intelligence + a.constitution, 2),
        BuildingKind::Intelligence => (a.intelligence + a.agility + a.fortune, 3),
        BuildingKind::Affairs => (a.intelligence + a.fortune, 2),
        BuildingKind::Logistics => (a.strength + a.constitution, 2),
    }
}

/// The expertise that matters: force for practice and logistics, knowledge otherwise.
pub open spec fn relevant_expertise(d: Disciple, kind: BuildingKind) -> int {
    match kind {
        BuildingKind::Practice | BuildingKind::Logistics => d.force_level as int,
        _ => d.knowledge_level as int,
    }
}

/// Competence of a disciple heading a hall, in percent within `85..=130`:
/// 100 plus the department fit (+8 matching, -4 another, 0 none), the relevant
/// aptitude above 20 in fours (-5..=8), expertise above 20 in tens (0..=8),
/// and merit in twenty-fives (-6..=6).
pub open spec fn spec_elder_competence(d: Disciple, kind: BuildingKind) -> int {
    let department = match d.department {
        Some(dep) => if dep == expected_department(kind) { 8int } else { -4int },
        None => 0int,
    };
    let (sum, div) = relevant_aptitude_parts(d, kind);
    let aptitude = clamp_int(trunc_div(trunc_div(sum, div) - 20, 4), -5, 8);
    let expertise_raw = relevant_expertise(d, kind);
    let expertise = clamp_int(((if expertise_raw < 20 { 20 } else { expertise_raw }) - 20) / 10, 0, 8);
    let merit = trunc_div(clamp_int(d.merit as int, -150, 150), 25);
    clamp_int(100 + department + aptitude + expertise + merit, 85, 130)
}

/// The aptitude arithmetic of heading a hall of kind `kind` fits in `i32`.
pub open spec fn competence_fits(d: Disciple, kind: BuildingKind) -> bool {
    let (sum, div) = relevant_aptitude_parts(d, kind);
    &&& i32::MIN <= sum <= i32::MAX
    &&& i32::MIN + 20 <= trunc_div(sum, div)
    &&& (div == 3 ==> i32::MIN <= d.aptitudes.strength + d.aptitudes.constitution <= i32::MAX
        && i32::MIN <= d.aptitudes.intelligence + d.aptitudes.agility <= i32::MAX)
}

fn department_matches(department: Department, kind: BuildingKind) -> (r: bool)
    ensures
        r == (department == expected_department(kind)),
{
    let expected = match kind {
        BuildingKind::Practice => Department::Transmission,
        BuildingKind::Scripture => Department::Library,
        BuildingKind::Warehouse => Department::Treasury,
        BuildingKind::HerbHall => Department::Apothecary,
        BuildingKind::Intelligence => Department::ExternalAffairs,
        BuildingKind::Affairs | BuildingKind::Logistics => Department::Stewardship,
    };
    department == expected
}

fn relevant_aptitude(d: &Disciple, kind: BuildingKind) -> (r: i32)
    requires
        competence_fits(*d, kind),
    ensures
        r == trunc_div(relevant_aptitude_parts(*d, kind).0, relevant_aptitude_parts(*d, kind).1),
{
    let a = d.aptitudes;
    match kind {
        BuildingKind::Practice => (a.strength + a.constitution + a.agility) / 3,
        BuildingKind::Scripture => a.intelligence,
        BuildingKind::Warehouse => (a.intelligence + a.fortune) / 2,
        BuildingKind::HerbHall => (a.intelligence + a.constitution) / 2,
        BuildingKind::Intelligence => (a.intelligence + a.agility + a.fortune) / 3,
        BuildingKind::Affairs => (a.intelligence + a.fortune) / 2,
        BuildingKind::Logistics => (a.strength + a.constitution) / 2,
    }
}

fn expertise_of(d: &Disciple, kind: BuildingKind) -> (r: i32)
    ensures
        r == relevant_expertise(*d, kind),
{
    match kind {
        BuildingKind::Practice | BuildingKind::Logistics => d.force_level,
        _ => d.knowledge_level,
    }
}

fn aptitude_adjustment(relevant: i32) -> (r: i32)
    requires
        relevant >= i32::MIN + 20,
    ensures
        r == clamp_int(trunc_div(relevant - 20, 4), -5, 8),
{
    let raw = (relevant - 20) / 4;
    if raw < -5 { -5 } else if raw > 8 { 8 } else { raw }
}

fn expertise_adjustment(expertise: i32) -> (r: i32)
    ensures
        r == clamp_int(((if expertise < 20 { 20 } else { expertise as int }) - 20) / 10, 0, 8),
{
    let floor = if expertise < 20 { 20 } else { expertise };
    let raw = (floor - 20) / 10;
    if raw > 8 { 8 } else { raw }
}

fn merit_adjustment(merit: i64) -> (r: i32)
    ensures
        r == trunc_div(clamp_int(merit as int, -150, 150), 25),
{
    let m: i64 = if merit < -150 { -150 } else if merit > 150 { 150 } else { merit };
    (m / 25) as i32
}

/// How well a disciple would head a hall (see `spec_elder_competence`).
pub fn elder_competence_percent(disciple: &Disciple, kind: BuildingKind) -> (r: i32)
    requires
        competence_fits(*disciple, kind),
    ensures
        r == spec_elder_competence(*disciple, kind),
        85 <= r <= 130,
{
    let department_adjustment: i32 = match disciple.department {
        Some(dep) => if department_matches(dep, kind) { 8 } else { -4 },
        None => 0,
    };
    let aptitude = aptitude_adjustment(relevant_aptitude(disciple, kind));
    let expertise = expertise_adjustment(expertise_of(disciple, kind));
    let merit = merit_adjustment(disciple.merit);
    let total = 100 + department_adjustment + aptitude + expertise + merit;
    if total < 85 {
        85
    } else if total > 130 {
        130
    } else {
        total
    }
}

// ---------------------------------------------------------------------------
// Rank quotas.

/// Number of living disciples among the first `n`.
pub open spec fn alive_count(ds: Seq<Disciple>, n: int) -> int
    decreases n,
{
    if n <= 0 {
        0
    } else {
        alive_count(ds, n - 1) + (if ds[n - 1].alive { 1int } else { 0int })
    }
}

/// Number of living disciples of rank `rank` among the first `n`.
pub open spec fn rank_count(ds: Seq<Disciple>, rank: DiscipleRank, n: int) -> int
    decreases n,
{
    if n <= 0 {
        0
    } else {
        rank_count(ds, rank, n - 1) + (if ds[n - 1].alive && ds[n - 1].rank == rank { 1int } else { 0int })
    }
}

proof fn lemma_counts_bounded(ds: Seq<Disciple>, rank: DiscipleRank, n: int)
    requires
        0 <= n,
    ensures
        0 <= alive_count(ds, n) <= n,
        0 <= rank_count(ds, rank, n) <= alive_count(ds, n),
    decreases n,
{
    if n > 0 {
        lemma_counts_bounded(ds, rank, n - 1);
    }
}

pub fn count_alive(ds: &Vec<Disciple>) -> (r: usize)
    ensures
        r == alive_count(ds@, ds@.len() as int),
{
    let mut c: usize = 0;
    let mut i: usize = 0;
    while i < ds.len()
        invariant
            i <= ds@.len(),
            c == alive_count(ds@, i as int),
            c <= i,
        decreases ds@.len() - i,
    {
        if ds[i].alive {
            c = c + 1;
        }
        i = i + 1;
    }
    c
}

pub fn count_rank(ds: &Vec<Disciple>, rank: DiscipleRank) -> (r: usize)
    ensures
        r == rank_count(ds@, rank, ds@.len() as int),
{
    let mut c: usize = 0;
    let mut i: usize = 0;
    while i < ds.len()
        invariant
            i <= ds@.len(),
            c == rank_count(ds@, rank, i as int),
            c <= i,
        decreases ds@.len() - i,
    {
        proof {
            lemma_counts_bounded(ds@, rank, i as int);
        }
        if ds[i].alive && ds[i].rank == rank {
            c = c + 1;
        }
        i = i + 1;
    }
    c
}

/// `count` scaled by a percentage held within `0..=100`, rounded down.
pub open spec fn quota(count: int, percent: int) -> int {
    count * clamp_int(percent, 0, 100) / 100
}

fn quota_of(count: usize, percent: i32) -> (r: usize)
    ensures
        r == quota(count as int, percent as int),
{
    let p: u128 = if percent < 0 { 0 } else if percent > 100 { 100 } else { percent as u128 };
    proof {
        assert(0 <= count * p <= (usize::MAX as int) * 100) by (nonlinear_arith)
            requires
                0 <= p <= 100,
                0 <= count <= usize::MAX,
        ;
        assert(count * p / 100 <= count) by (nonlinear_arith)
            requires
                0 <= p <= 100,
                0 <= count,
        ;
    }
    ((count as u128 * p) / 100) as usize
}

/// The outer quota and inner quota of a roster: a share of the living
/// disciples may be outer, a share of the living outer ones inner; a sect
/// with any outer disciple always has at least one inner slot.
pub open spec fn spec_rank_limits(sect: SectState, ds: Seq<Disciple>) -> (int, int) {
    let n = ds.len() as int;
    let outer_limit = quota(alive_count(ds, n), sect.rank_rules.outer_percent as int);
    let outer_count = rank_count(ds, DiscipleRank::Outer, n);
    let proportional = quota(outer_count, sect.rank_rules.inner_percent as int);
    let inner_limit = if outer_count > 0 { if proportional < 1 { 1 } else { proportional } } else { 0 };
    (outer_limit, inner_limit)
}

/// The outer and inner rank quotas of a roster (see `spec_rank_limits`).
pub fn rank_limits(sect: &SectState, disciples: &Vec<Disciple>) -> (r: (usize, usize))
    ensures
        (r.0 as int, r.1 as int) == spec_rank_limits(*sect, disciples@),
{
    let alive = count_alive(disciples);
    let outer_limit = quota_of(alive, sect.rank_rules.outer_percent);
    let outer_count = count_rank(disciples, DiscipleRank::Outer);
    let proportional = quota_of(outer_count, sect.rank_rules.inner_percent);
    let inner_limit = if outer_count > 0 {
        if proportional < 1 { 1 } else { proportional }
    } else {
        0
    };
    (outer_limit, inner_limit)
}

/// Recruit `j` is placed before recruit `i`: higher talent first, then by
/// name, and in roster order when both agree.
pub open spec fn recruit_precedes(rs: Seq<Disciple>, j: int, i: int) -> bool {
    ||| rs[j].talent > rs[i].talent
    ||| rs[j].talent == rs[i].talent && text_lt(rs[j].name@, rs[i].name@)
    ||| rs[j].talent == rs[i].talent && rs[j].name@ == rs[i].name@ && j < i
}

/// Number of recruits among the first `n` placed before recruit `i`.
pub open spec fn place_of(rs: Seq<Disciple>, i: int, n: int) -> int
    decreases n,
{
    if n <= 0 {
        0
    } else {
        place_of(rs, i, n - 1) + (if n - 1 != i && recruit_precedes(rs, n - 1, i) { 1int } else { 0int })
    }
}

/// Outer places left for recruits: the outer quota of the roster grown by the
/// living recruits, less the living outer disciples already there.
pub open spec fn recruit_outer_places(sect: SectState, ds: Seq<Disciple>, rs: Seq<Disciple>) -> int {
    let projected = alive_count(ds, ds.len() as int) + alive_count(rs, rs.len() as int);
    let limit = quota(projected, sect.rank_rules.outer_percent as int);
    let current = rank_count(ds, DiscipleRank::Outer, ds.len() as int);
    if limit < current { 0 } else { limit - current }
}

/// Ranks recruits by talent (then name): the best take the free outer places,
/// the rest start as chore disciples.
pub fn assign_recruit_ranks(sect: &SectState, disciples: &Vec<Disciple>, recruits: &mut Vec<Disciple>)
    requires
        disciples@.len() + old(recruits)@.len() <= usize::MAX,
    ensures
        final(recruits)@.len() == old(recruits)@.len(),
        forall|i: int| 0 <= i < old(recruits)@.len() ==> #[trigger] final(recruits)@[i] == (Disciple {
            rank: if place_of(old(recruits)@, i, old(recruits)@.len() as int) < recruit_outer_places(
                *sect,
                disciples@,
                old(recruits)@,
            ) {
                DiscipleRank::Outer
            } else {
                DiscipleRank::Chore
            },
            ..old(recruits)@[i]
        }),
{
    let ghost rs = recruits@;
    let alive_existing = count_alive(disciples);
    let alive_recruits = count_alive(recruits);
    proof {
        lemma_counts_bounded(disciples@, DiscipleRank::Outer, disciples@.len() as int);
        lemma_counts_bounded(rs, DiscipleRank::Outer, rs.len() as int);
    }
    let outer_limit = quota_of(alive_existing + alive_recruits, sect.rank_rules.outer_percent);
    let current_outer = count_rank(disciples, DiscipleRank::Outer);
    let available = if outer_limit < current_outer { 0 } else { outer_limit - current_outer };
    let n = recruits.len();
    let mut i: usize = 0;
    while i < n
        invariant
            n == rs.len(),
            recruits@.len() == n,
            i <= n,
            available == recruit_outer_places(*sect, disciples@, rs),
            forall|j: int| 0 <= j < n ==> (#[trigger] recruits@[j]).talent == rs[j].talent && recruits@[j].name == rs[j].name,
            forall|j: int| 0 <= j < n ==> #[trigger] recruits@[j] == (if j < i {
                Disciple {
                    rank: if place_of(rs, j, n as int) < available as int { DiscipleRank::Outer } else { DiscipleRank::Chore },
                    ..rs[j]
                }
            } else {
                rs[j]
            }),
        decreases n - i,
    {
        let mut place: usize = 0;
        let mut j: usize = 0;
        while j < n
            invariant
                n == rs.len(),
                recruits@.len() == n,
                i < n,
                j <= n,
                place <= j,
                place == place_of(rs, i as int, j as int),
                forall|k: int| 0 <= k < n ==> (#[trigger] recruits@[k]).talent == rs[k].talent && recruits@[k].name == rs[k].name,
            decreases n - j,
        {
            if j != i {
                let tj = recruits[j].talent;
                let ti = recruits[i].talent;
                let before = tj > ti || (tj == ti && (text_less(recruits[j].name.as_str(), recruits[i].name.as_str())
                    || (text_eq(recruits[j].name.as_str(), recruits[i].name.as_str()) && j < i)));
                if before {
                    place = place + 1;
                }
            }
            j = j + 1;
        }
        recruits[i].rank = if place < available { DiscipleRank::Outer } else { DiscipleRank::Chore };
        i = i + 1;
    }
}

// ---------------------------------------------------------------------------
// Migration of older hall layouts.

/// Whether a stored hall with id `id` feeds hall `i` of the seven: the
/// warehouse absorbs the old treasury and stores, the herb hall the old
/// pharmacy, and every other hall only its own id.
pub open spec fn feeds_hall(i: int, id: Seq<char>) -> bool {
    if i == 2 {
        id == "warehouse"@ || id == "treasury"@ || id == "inner_store"@ || id == "outer_store"@
    } else if i == 3 {
        id == "herb_hall"@ || id == "pharmacy"@
    } else {
        id == hall_ids()[i]
    }
}

fn feeds(i: usize, id: &str) -> (r: bool)
    requires
        i < 7,
    ensures
        r == feeds_hall(i as int, id@),
{
    proof {
        reveal_strlit("practice");
        reveal_strlit("scripture");
        reveal_strlit("warehouse");
        reveal_strlit("herb_hall");
        reveal_strlit("intelligence");
        reveal_strlit("affairs");
        reveal_strlit("logistics");
    }
    if i == 2 {
        text_eq(id, "warehouse") || text_eq(id, "treasury") || text_eq(id, "inner_store") || text_eq(id, "outer_store")
    } else if i == 3 {
        text_eq(id, "herb_hall") || text_eq(id, "pharmacy")
    } else if i == 0 {
        text_eq(id, "practice")
    } else if i == 1 {
        text_eq(id, "scripture")
    } else if i == 4 {
        text_eq(id, "intelligence")
    } else if i == 5 {
        text_eq(id, "affairs")
    } else {
        text_eq(id, "logistics")
    }
}

/// Largest `f` over the first `n` stored halls feeding hall `i`.
pub open spec fn fed_max(stored: Seq<Building>, i: int, n: int, f: spec_fn(Building) -> int) -> Option<int>
    decreases n,
{
    if n <= 0 {
        None
    } else {
        let rest = fed_max(stored, i, n - 1, f);
        if feeds_hall(i, stored[n - 1].id@) {
            let v = f(stored[n - 1]);
            match rest {
                Some(r) => Some(if r >= v { r } else { v }),
                None => Some(v),
            }
        } else {
            rest
        }
    }
}

/// Smallest `f` over the first `n` stored halls feeding hall `i`.
pub open spec fn fed_min(stored: Seq<Building>, i: int, n: int, f: spec_fn(Building) -> int) -> Option<int>
    decreases n,
{
    if n <= 0 {
        None
    } else {
        let rest = fed_min(stored, i, n - 1, f);
        if feeds_hall(i, stored[n - 1].id@) {
            let v = f(stored[n - 1]);
            match rest {
                Some(r) => Some(if r <= v { r } else { v }),
                None => Some(v),
            }
        } else {
            rest
        }
    }
}

/// The stored record of hall `i` itself, if kept: the first with its own id.
pub open spec fn own_record(stored: Seq<Building>, i: int) -> int {
    building_index(stored, hall_ids()[i])
}

/// Hall `i` after migration from `stored`, field by field against the fresh hall `fresh`.
pub open spec fn migrated_hall(stored: Seq<Building>, i: int, fresh: Building, b: Building) -> bool {
    let n = stored.len() as int;
    if fed_max(stored, i, n, |x: Building| x.level as int) is None {
        b == fresh
    } else {
        let c = own_record(stored, i);
        &&& b.id == fresh.id
        &&& b.name == fresh.name
        &&& b.kind == fresh.kind
        &&& b.elder_title == fresh.elder_title
        &&& b.level == fed_max(stored, i, n, |x: Building| x.level as int)->0
        &&& b.condition == fed_min(stored, i, n, |x: Building| x.condition as int)->0
        &&& b.upgrading_months == fed_max(stored, i, n, |x: Building| x.upgrading_months as int)->0
        &&& b.work_required == fed_max(stored, i, n, |x: Building| x.work_required as int)->0
        &&& b.work_invested == fed_max(stored, i, n, |x: Building| x.work_invested as int)->0
        &&& if c >= 0 {
            &&& opt_text(b.elder_id) == opt_text(stored[c].elder_id)
            &&& opt_text(b.selected_duty) == opt_text(if stored[c].selected_duty is Some { stored[c].selected_duty } else { fresh.selected_duty })
            &&& opt_text(b.duty_target) == opt_text(stored[c].duty_target)
            &&& b.elder_action_used == stored[c].elder_action_used
        } else {
            &&& b.elder_id == fresh.elder_id
            &&& b.selected_duty == fresh.selected_duty
            &&& b.duty_target == fresh.duty_target
            &&& b.elder_action_used == fresh.elder_action_used
        }
    }
}

/// Agreement of one aggregate with its spec over a prefix.
spec fn agg_ok(v: i32, found: bool, agg: Option<int>) -> bool {
    match agg {
        Some(a) => found && v == a,
        None => !found,
    }
}

/// Rebuilds the seven halls of the sect from an older layout: each hall takes
/// the highest level, lowest condition and the largest construction figures
/// among the stored halls that feed it, and its own stored record's elder,
/// duty and action; a hall with no stored record starts fresh.
pub fn normalize_buildings(sect: &mut SectState)
    ensures
        final(sect).buildings@.len() == 7,
        forall|i: int| 0 <= i < 7 ==> {
            &&& (#[trigger] final(sect).buildings@[i]).id@ == hall_ids()[i]
            &&& final(sect).buildings@[i].kind == hall_kind(i)
            &&& final(sect).buildings@[i].name@ == hall_name(i)
            &&& final(sect).buildings@[i].elder_title@ == hall_title(old(sect).id@, i)
            &&& exists|fresh: Building| {
                &&& fresh.id@ == hall_ids()[i]
                &&& fresh.kind == hall_kind(i)
                &&& fresh.level == 1
                &&& fresh.condition == 100
                &&& fresh.elder_id is None
                &&& fresh.upgrading_months == 0
                &&& fresh.work_required == 0
                &&& fresh.work_invested == 0
                &&& fresh.selected_duty is None
                &&& fresh.duty_target is None
                &&& !fresh.elder_action_used
                &&& migrated_hall(old(sect).buildings@, i, fresh, final(sect).buildings@[i])
            }
        },
        *final(sect) == (SectState { buildings: final(sect).buildings, ..*old(sect) }),
{
    let ghost stored = sect.buildings@;
    let mut taken: Vec<Building> = Vec::new();
    std::mem::swap(&mut taken, &mut sect.buildings);
    let mut normalized = sect_buildings(sect.id.as_str());
    let ghost fresh = normalized@;
    let mut i: usize = 0;
    while i < 7
        invariant
            taken@ == stored,
            stored == old(sect).buildings@,
            fresh.len() == 7,
            normalized@.len() == 7,
            sect.id == old(sect).id,
            *sect == (SectState { buildings: sect.buildings, ..*old(sect) }),
            i <= 7,
            forall|k: int| 0 <= k < 7 ==> {
                &&& (#[trigger] fresh[k]).id@ == hall_ids()[k]
                &&& fresh[k].name@ == hall_name(k)
                &&& fresh[k].elder_title@ == hall_title(old(sect).id@, k)
                &&& fresh[k].kind == hall_kind(k)
                &&& fresh[k].level == 1
                &&& fresh[k].condition == 100
                &&& fresh[k].elder_id is None
                &&& fresh[k].upgrading_months == 0
                &&& fresh[k].work_required == 0
                &&& fresh[k].work_invested == 0
                &&& fresh[k].selected_duty is None
                &&& fresh[k].duty_target is None
                &&& !fresh[k].elder_action_used
            },
            forall|k: int| 0 <= k < 7 ==> if k < i {
                migrated_hall(stored, k, fresh[k], #[trigger] normalized@[k])
            } else {
                normalized@[k] == fresh[k]
            },
        decreases 7 - i,
    {
        let mut found = false;
        let mut level: i32 = 0;
        let mut condition: i32 = 0;
        let mut upgrading: i32 = 0;
        let mut required: i32 = 0;
        let mut invested: i32 = 0;
        let mut j: usize = 0;
        while j < taken.len()
            invariant
                taken@ == stored,
                i < 7,
                j <= stored.len(),
                agg_ok(level, found, fed_max(stored, i as int, j as int, |x: Building| x.level as int)),
                agg_ok(condition, found, fed_min(stored, i as int, j as int, |x: Building| x.condition as int)),
                agg_ok(upgrading, found, fed_max(stored, i as int, j as int, |x: Building| x.upgrading_months as int)),
                agg_ok(required, found, fed_max(stored, i as int, j as int, |x: Building| x.work_required as int)),
                agg_ok(invested, found, fed_max(stored, i as int, j as int, |x: Building| x.work_invested as int)),
            decreases stored.len() - j,
        {
            let b = &taken[j];
            if feeds(i, b.id.as_str()) {
                if !found {
                    level = b.level;
                    condition = b.condition;
                    upgrading = b.upgrading_months;
                    required = b.work_required;
                    invested = b.work_invested;
                    found = true;
                } else {
                    if b.level > level { level = b.level; }
                    if b.condition < condition { condition = b.condition; }
                    if b.upgrading_months > upgrading { upgrading = b.upgrading_months; }
                    if b.work_required > required { required = b.work_required; }
                    if b.work_invested > invested { invested = b.work_invested; }
                }
            }
            j = j + 1;
        }
        if found {
            let own = find_building(&taken, normalized[i].id.as_str());
            let mut b = normalized[i].clone_hall();
            b.level = level;
            b.condition = condition;
            b.upgrading_months = upgrading;
            b.work_required = required;
            b.work_invested = invested;
            match own {
                Some(c) => {
                    let cur = &taken[c];
                    b.elder_id = crate::lineage::clone_opt_text(&cur.elder_id);
                    if cur.selected_duty.is_some() {
                        b.selected_duty = crate::lineage::clone_opt_text(&cur.selected_duty);
                    }
                    b.duty_target = crate::lineage::clone_opt_text(&cur.duty_target);
                    b.elder_action_used = cur.elder_action_used;
                },
                None => {},
            }
            normalized.set(i, b);
        }
        i = i + 1;
    }
    sect.buildings = normalized;
    proof {
        assert forall|k: int| 0 <= k < 7 implies {
            &&& (#[trigger] sect.buildings@[k]).id@ == hall_ids()[k]
            &&& sect.buildings@[k].kind == hall_kind(k)
            &&& sect.buildings@[k].name@ == hall_name(k)
            &&& sect.buildings@[k].elder_title@ == hall_title(old(sect).id@, k)
            &&& exists|f: Building| {
                &&& f.id@ == hall_ids()[k]
                &&& f.kind == hall_kind(k)
                &&& f.level == 1
                &&& f.condition == 100
                &&& f.elder_id is None
                &&& f.upgrading_months == 0
                &&& f.work_required == 0
                &&& f.work_invested == 0
                &&& f.selected_duty is None
                &&& f.duty_target is None
                &&& !f.elder_action_used
                &&& migrated_hall(old(sect).buildings@, k, f, sect.buildings@[k])
            }
        } by {
            assert(migrated_hall(stored, k, fresh[k], sect.buildings@[k]));
        }
    }
}

impl Building {
    /// A copy of the hall, field by field.
    pub fn clone_hall(&self) -> (r: Building)
        ensures
            r == *self,
    {
        Building {
            id: self.id.clone(),
            name: self.name.clone(),
            kind: self.kind,
            level: self.level,
            condition: self.condition,
            elder_id: match &self.elder_id { Some(e) => Some(e.clone()), None => None },
            elder_title: self.elder_title.clone(),
            upgrading_months: self.upgrading_months,
            work_required: self.work_required,
            work_invested: self.work_invested,
            selected_duty: match &self.selected_duty { Some(e) => Some(e.clone()), None => None },
            duty_target: match &self.duty_target { Some(e) => Some(e.clone()), None => None },
            elder_action_used: self.elder_action_used,
        }
    }
}

} // verus!
