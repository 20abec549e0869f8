//! The game state that the monthly rules read and write: disciples, sects,
//! buildings and the chronicle.
use vstd::prelude::*;
use crate::ledger::Ledger;

verus! {

/// Standing of a disciple within the sect.
#[derive(Clone, Copy, Debug, PartialEq, Eq, Structural)]
pub enum DiscipleRank {
    Chore,
    Outer,
    Inner,
}

/// Bodily condition, derived from the disciple's resource pools.
#[derive(Clone, Copy, Debug, PartialEq, Eq, Structural)]
pub enum DiscipleCondition {
    Healthy,
    Exhausted,
    Unconscious,
    SeriouslyInjured,
    Dead,
}

/// The six departments a formal disciple can serve in.
#[derive(Clone, Copy, Debug, PartialEq, Eq, Structural)]
pub enum Department {
    Transmission,
    Library,
    Treasury,
    Apothecary,
    ExternalAffairs,
    Stewardship,
}

/// The seven functional halls of a sect.
#[derive(Clone, Copy, Debug, PartialEq, Eq, Structural)]
pub enum BuildingKind {
    Practice,
    Scripture,
    Warehouse,
    HerbHall,
    Intelligence,
    Affairs,
    Logistics,
}

/// Management policy of a sect.
#[derive(Clone, Copy, Debug, PartialEq, Eq, Structural)]
pub enum SectPolicy {
    Balanced,
    Martial,
    Scholarly,
    Chivalrous,
    Mercantile,
    Reclusive,
}

/// Moral direction of a sect.
#[derive(Clone, Copy, Debug, PartialEq, Eq, Structural)]
pub enum MoralDirection {
    Righteous,
    Neutral,
    Villainous,
}

/// Kinds of monthly action a disciple can carry out.
#[derive(Clone, Copy, Debug, PartialEq, Eq, Structural)]
pub enum ActionKind {
    Practice,
    Read,
    Teach,
    Spar,
    Meditate,
    CultivateNeili,
    TemperBody,
    Recover,
    Gather,
    Produce,
    Construct,
    Maintain,
    Business,
    SectMission,
    Wander,
}

/// A pool with a current value and a maximum.
#[derive(Clone, Copy, Debug, PartialEq, Eq, Structural)]
pub struct ResourcePool {
    pub current: i32,
    pub maximum: i32,
}

/// Innate aptitudes.
#[derive(Clone, Copy, Debug, PartialEq, Eq, Structural)]
pub struct Aptitudes {
    pub strength: i32,
    pub intelligence: i32,
    pub constitution: i32,
    pub agility: i32,
    pub fortune: i32,
}

/// Acquired attributes: qi (health), spirit, inner force, energy and standing.
#[derive(Clone, Copy, Debug, PartialEq, Eq, Structural)]
pub struct AcquiredAttributes {
    pub qi: ResourcePool,
    pub spirit: ResourcePool,
    pub neili: ResourcePool,
    pub energy: ResourcePool,
    pub sect_loyalty: i32,
    pub morality: i32,
    pub attainment: i64,
    pub reputation: i32,
}

/// Level and experience in one skill.
#[derive(Clone, Copy, Debug, PartialEq, Eq, Structural)]
pub struct SkillProgress {
    pub level: i32,
    pub experience: i32,
}

impl SkillProgress {
    pub fn new(level: i32, experience: i32) -> (r: SkillProgress)
        ensures
            r.level == level,
            r.experience == experience,
    {
        SkillProgress { level, experience }
    }
}

/// The action a disciple is carrying out this month or journey.
#[derive(Clone, Copy, Debug, PartialEq, Eq, Structural)]
pub struct ActionPlan {
    pub kind: ActionKind,
    pub remaining_months: i32,
    pub rations_claimed: bool,
}

impl ActionPlan {
    pub fn new(kind: ActionKind) -> (r: ActionPlan)
        ensures
            r.kind == kind,
            r.remaining_months == 0,
            !r.rations_claimed,
    {
        ActionPlan { kind, remaining_months: 0, rations_claimed: false }
    }
}

/// A disciple of the player's sect or of another sect.
///
/// `force_level` and `knowledge_level` hold the disciple's effective inner-force
/// and knowledge skill levels as derived from the prepared skills.
#[derive(Clone, Debug)]
pub struct Disciple {
    pub id: String,
    pub name: String,
    pub sect_id: Option<String>,
    pub alive: bool,
    pub rank: DiscipleRank,
    pub condition: DiscipleCondition,
    pub department: Option<Department>,
    pub aptitudes: Aptitudes,
    pub attributes: AcquiredAttributes,
    pub talent: i32,
    pub inner_power: i32,
    pub loyalty: i32,
    pub age: i32,
    pub months_in_sect: i32,
    pub away_months: i32,
    pub merit: i64,
    pub master_id: Option<String>,
    pub relations: Ledger<i32>,
    pub lineage_generation: i32,
    pub personal_silver: i32,
    pub personal_rations: i32,
    pub martial_art: String,
    pub proficiencies: Ledger<SkillProgress>,
    pub private_books: Vec<String>,
    pub department_months: i32,
    pub department_merit: i64,
    pub force_level: i32,
    pub knowledge_level: i32,
    pub action: Option<ActionPlan>,
    pub npc_position: Option<String>,
}

/// The id under which the player's sect is kept.
pub open spec fn player_sect_id() -> Seq<char> {
    seq!['p', 'l', 'a', 'y', 'e', 'r']
}

impl Disciple {
    /// A healthy outer disciple of the player's sect with average aptitudes.
    pub fn new() -> (d: Disciple)
        ensures
            d.alive,
            d.rank == DiscipleRank::Outer,
            d.condition == DiscipleCondition::Healthy,
            d.sect_id matches Some(s) && s@ == player_sect_id(),
            d.master_id.is_none(),
            d.department.is_none(),
            d.away_months == 0,
            d.merit == 0,
            d.attributes.qi == (ResourcePool { current: 100, maximum: 100 }),
            d.attributes.spirit == (ResourcePool { current: 100, maximum: 100 }),
            d.attributes.neili == (ResourcePool { current: 30, maximum: 30 }),
            d.attributes.energy == (ResourcePool { current: 50, maximum: 50 }),
            d.attributes.sect_loyalty == 60,
            d.aptitudes == (Aptitudes { strength: 20, intelligence: 20, constitution: 20, agility: 20, fortune: 20 }),
            d.force_level == 0,
            d.knowledge_level == 0,
            d.personal_rations == 0,
            d.personal_silver == 0,
            d.lineage_generation == 0,
            d.action.is_none(),
            d.npc_position.is_none(),
            d.attributes.attainment == 0,
            d.attributes.reputation == 0,
            d.private_books@.len() == 0,
            d.proficiencies.size() == 0,
            d.relations.size() == 0,
            d.department_months == 0,
            d.department_merit == 0,
            d.id@ == Seq::<char>::empty(),
            d.name@ == Seq::<char>::empty(),
    {
        let sect = String::from_str("player");
        proof {
            reveal_strlit("player");
        }
        Disciple {
            id: String::new(),
            name: String::new(),
            sect_id: Some(sect),
            alive: true,
            rank: DiscipleRank::Outer,
            condition: DiscipleCondition::Healthy,
            department: None,
            aptitudes: Aptitudes { strength: 20, intelligence: 20, constitution: 20, agility: 20, fortune: 20 },
            attributes: AcquiredAttributes {
                qi: ResourcePool { current: 100, maximum: 100 },
                spirit: ResourcePool { current: 100, maximum: 100 },
                neili: ResourcePool { current: 30, maximum: 30 },
                energy: ResourcePool { current: 50, maximum: 50 },
                sect_loyalty: 60,
                morality: 50,
                attainment: 0,
                reputation: 0,
            },
            talent: 20,
            inner_power: 30,
            loyalty: 60,
            age: 18,
            months_in_sect: 0,
            away_months: 0,
            merit: 0,
            master_id: None,
            relations: Ledger::new(),
            lineage_generation: 0,
            personal_silver: 0,
            personal_rations: 0,
            martial_art: String::from_str("basic_unarmed"),
            proficiencies: Ledger::new(),
            private_books: Vec::new(),
            department_months: 0,
            department_merit: 0,
            force_level: 0,
            knowledge_level: 0,
            action: None,
            npc_position: None,
        }
    }
}

impl Default for Disciple {
    fn default() -> (d: Disciple)
        ensures
            d.alive,
            d.rank == DiscipleRank::Outer,
            d.condition == DiscipleCondition::Healthy,
            d.master_id.is_none(),
    {
        Disciple::new()
    }
}

/// An entry of the chronicle.
#[derive(Clone, Debug)]
pub struct GameEvent {
    pub text: String,
    pub mood: String,
    pub year: i32,
    pub month: i32,
    pub category: String,
}

} // verus!
