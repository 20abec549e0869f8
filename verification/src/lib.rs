//! Monthly rules of a wuxia sect-management simulation: country standing,
//! sect upkeep and buildings, disciple condition, lineage bookkeeping,
//! event weighting and the monthly stores of grain, herbs and silver.
use vstd::prelude::*;

pub mod text;
pub mod ledger;
pub mod model;
pub mod country;
pub mod game;
pub mod sect;
pub mod lineage;
pub mod arts;
pub mod disciple;
pub mod chance;
pub mod event;
pub mod economy;
pub mod hydrate;
pub mod laws;
pub mod recruit;
pub mod effects;
pub mod management;
pub mod appointments;
pub mod recruitment;
pub mod requests;
pub mod elder_duties;
pub mod elder_month;
pub mod brewing;
pub mod milestones;
pub mod actions;
pub mod interaction;
pub mod decision;
pub mod alliance;
pub mod month_end;
pub mod tournament;
pub mod journey;
pub mod jobs;
pub mod advance;
pub mod creation;
pub mod diplomacy;

verus! {

} // verus!
