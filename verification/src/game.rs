//! The whole game state of one save.
use vstd::prelude::*;
use crate::country::{Country, default_countries, is_canonical_country};
use crate::model::{GameEvent, Disciple};
use crate::sect::SectState;
use crate::event::PendingWorldEvent;

verus! {

/// One save: calendar, the player's sect, other sects, realms and rosters.
///
/// `prestige`, `silver` and `morale` mirror the player's sect attributes for
/// older callers (see `sync_legacy_fields` and `absorb_legacy_fields`).
#[derive(Clone, Debug)]
pub struct GameState {
    pub year: i32,
    pub month: i32,
    pub prestige: i32,
    pub silver: i32,
    pub morale: i32,
    pub injury: i32,
    pub sect: SectState,
    pub npc_sects: Vec<SectState>,
    pub countries: Vec<Country>,
    pub disciples: Vec<Disciple>,
    pub npc_disciples: Vec<Disciple>,
    pub event_log: Vec<GameEvent>,
    pub martial_arts_learned: Vec<String>,
    pub pending_event: Option<PendingWorldEvent>,
    pub decisions_used: i32,
    pub max_decisions: i32,
    pub total_disciples_recruited: i32,
    pub game_over: bool,
    pub game_won: bool,
    pub game_over_reason: String,
    pub world_seed: u64,
    pub tournament_history: Vec<TournamentRecord>,
}

/// What is kept of one year-end tournament: its year, the player's place in
/// the field of `total_sects`, the sect's combat power and the champion's name.
#[derive(Clone, Debug)]
pub struct TournamentRecord {
    pub year: i32,
    pub rank: i32,
    pub total_sects: i32,
    pub power: i32,
    pub champion: String,
}

/// A fresh save: the first month of the first year, a fresh player sect
/// (see `fresh_sect`) mirrored in the top-level prestige, silver and morale,
/// no injury, the four realms, no disciples, other sects, chronicle, learned
/// arts or pending event, no decision used of three, nobody recruited, the
/// game running, world seed 0 and no tournament held.
pub open spec fn fresh_game(s: GameState) -> bool {
    &&& s.year == 1
    &&& s.month == 1
    &&& crate::sect::fresh_sect(s.sect)
    &&& s.prestige == s.sect.attributes.prestige
    &&& s.silver == s.sect.attributes.silver
    &&& s.morale == s.sect.attributes.morale
    &&& s.injury == 0
    &&& s.countries@.len() == 4
    &&& forall|i: int| 0 <= i < 4 ==> is_canonical_country(#[trigger] s.countries@[i], i)
    &&& s.disciples@.len() == 0
    &&& s.npc_disciples@.len() == 0
    &&& s.npc_sects@.len() == 0
    &&& s.event_log@.len() == 0
    &&& s.martial_arts_learned@.len() == 0
    &&& !s.game_over
    &&& !s.game_won
    &&& s.game_over_reason@.len() == 0
    &&& s.pending_event is None
    &&& s.decisions_used == 0
    &&& s.max_decisions == 3
    &&& s.total_disciples_recruited == 0
    &&& s.world_seed == 0
    &&& s.tournament_history@.len() == 0
}

impl GameState {
    /// A fresh save (see `fresh_game`).
    pub fn new() -> (s: GameState)
        ensures
            fresh_game(s),
    {
        let sect = SectState::new();
        GameState {
            year: 1,
            month: 1,
            prestige: sect.attributes.prestige,
            silver: sect.attributes.silver,
            morale: sect.attributes.morale,
            injury: 0,
            sect,
            npc_sects: Vec::new(),
            countries: default_countries(),
            disciples: Vec::new(),
            npc_disciples: Vec::new(),
            event_log: Vec::new(),
            martial_arts_learned: Vec::new(),
            pending_event: None,
            decisions_used: 0,
            max_decisions: 3,
            total_disciples_recruited: 0,
            game_over: false,
            game_won: false,
            game_over_reason: String::new(),
            world_seed: 0,
            tournament_history: Vec::new(),
        }
    }
}

impl Default for GameState {
    fn default() -> (s: GameState)
        ensures
            fresh_game(s),
    {
        GameState::new()
    }
}

} // verus!
