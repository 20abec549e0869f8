//! The head's requests as one entry point: the checks every request passes,
//! the handler of each kind, and the chronicle entry a granted request leaves.
use vstd::prelude::*;
use rand::rngs::StdRng;
use crate::brewing::{brew_pill, brew_pill_outcome};
use crate::alliance::{aid_outcome, call_aid, ties_fit, trade, trade_outcome};
use crate::appointments::{assign_elder, assign_master, elder_outcome, master_outcome};
use crate::country::clamp_int;
use crate::disciple::aptitudes_fit;
use crate::game::GameState;
use crate::lineage::disciple_index;
use crate::management::{
    direction_outcome, duty_outcome, expel, expel_outcome, heritage_outcome, issue_order, order_outcome, personnel_outcome,
    policy_outcome, queue_outcome, refused, repair_building, repair_fits, repair_outcome, set_auto_brew_queue,
    set_elder_duty, set_heritage_art, set_moral_direction, set_personnel, set_policy, texts_of, upgrade_building,
    upgrade_fits, upgrade_outcome,
};
use crate::model::{Department, DiscipleRank, GameEvent, MoralDirection, SectPolicy};
use crate::recruitment::{recruit, recruit_outcome};
use crate::sect::sync_legacy_fields;
use crate::sect::{competence_fits, ArtCategory};
use crate::model::BuildingKind;
use crate::creation::{
    art_created, book_donated, create_martial_art, donate_book, joint_study, joint_study_fits, new_research, research_martial, research_new_martial, scripture_elder,
    ArtLabels, BasicArtRating,
};
use crate::diplomacy::{errand_strands, exchange, host_exchange, hosted, hosting_fits, joint_patrol, manual_fits, manual_obtained, patrol_fits, patrolled, seek_manual, visit_paid, ManualRating};
use crate::alliance::spec_is_ally;

verus! {

/// A request of the head to the sect's offices.
#[derive(Clone, Debug)]
#[allow(inconsistent_fields)]
pub enum ManagementRequest {
    SetPolicy { policy: SectPolicy },
    SetMoralDirection { direction: MoralDirection },
    UpgradeBuilding { building_id: String },
    RepairBuilding { building_id: String },
    Recruit,
    SetPersonnel { disciple_id: String, rank: DiscipleRank, department: Option<Department> },
    AssignMaster { disciple_id: String, master_id: Option<String> },
    AssignElder { building_id: String, disciple_id: Option<String> },
    SetElderDuty { building_id: String, duty_id: String, duty_target: Option<String> },
    SetAutoBrewQueue { recipe_ids: Vec<String> },
    Expel { disciple_id: String },
    IssueOrder { order_id: String },
    SetHeritageArt { martial_art_id: String },
    BrewPill { recipe_id: String },
    CallAid { sect_id: String },
    TradeWithAlly { sect_id: String, item: String, quantity: i32 },
    ResearchMartial { martial_art_id: String, art_name: String },
    ResearchNewMartial { arts: Vec<(String, String)> },
    CreateMartialArt { name: String, category: ArtCategory, basic: BasicArtRating, weapon_basic: Option<String>, labels: ArtLabels },
    Exchange { sect_id: String, disciple_id: Option<String> },
    HostExchange { sect_id: String, disciple_id: Option<String> },
    LibraryAdd { martial_art_id: String, art_name: String },
    JointPatrol { sect_id: String, disciple_id: Option<String> },
    RequestManual { sect_id: String, martial_art_id: String, disciple_id: Option<String>, manual: ManualRating },
}

/// Whether the handler of `request` refuses after it has already paid and
/// raised the sect's own regard: a diplomatic errand to an id that names no
/// sect (see `errand_strands`).
pub open spec fn strands(s: GameState, request: ManagementRequest) -> bool {
    match request {
        ManagementRequest::Exchange { sect_id, disciple_id } => errand_strands(s, sect_id@, disciple_id, 45, true),
        ManagementRequest::HostExchange { sect_id, disciple_id } => errand_strands(
            s,
            sect_id@,
            disciple_id,
            40,
            spec_is_ally(s, sect_id@),
        ),
        ManagementRequest::JointPatrol { sect_id, disciple_id } => errand_strands(
            s,
            sect_id@,
            disciple_id,
            60,
            spec_is_ally(s, sect_id@),
        ),
        _ => false,
    }
}

/// Whether a request uses up one of the month's decisions: all do but the
/// choice of an elder's duty and the furnace queue.
pub open spec fn spends_decision(request: ManagementRequest) -> bool {
    match request {
        ManagementRequest::SetElderDuty { .. } => false,
        ManagementRequest::SetAutoBrewQueue { .. } => false,
        _ => true,
    }
}

fn uses_decision(request: &ManagementRequest) -> (r: bool)
    ensures
        r == spends_decision(*request),
{
    match request {
        ManagementRequest::SetElderDuty { .. } => false,
        ManagementRequest::SetAutoBrewQueue { .. } => false,
        _ => true,
    }
}

/// Why no request is heard: the game is over, a world event waits for an
/// answer, or (for a request that uses a decision) the month's decisions are
/// spent.
pub open spec fn gate_refusal(s: GameState, spends: bool) -> Option<Seq<char>> {
    if s.game_over {
        Some(if s.game_won { "此局已经终了，诸务不可再行。"@ } else { "山门已散，诸事皆休。"@ })
    } else if s.pending_event is Some {
        Some("眼前江湖事尚未处置，不宜改动门中卷宗。"@)
    } else if spends && s.decisions_used >= s.max_decisions {
        Some("本月可议之事已尽，请推进月份。"@)
    } else {
        None
    }
}

/// The arithmetic of handling `request` fits the machine integers.
pub open spec fn request_fits(s: GameState, request: ManagementRequest) -> bool {
    match request {
        ManagementRequest::UpgradeBuilding { building_id } => upgrade_fits(s, building_id@),
        ManagementRequest::RepairBuilding { building_id } => repair_fits(s, building_id@),
        ManagementRequest::Recruit => {
            &&& s.disciples@.len() + 2 <= usize::MAX
            &&& s.total_disciples_recruited + 2 <= i32::MAX
        },
        ManagementRequest::SetPersonnel { disciple_id, .. } => {
            let i = disciple_index(s.disciples@, disciple_id@);
            i >= 0 ==> aptitudes_fit(s.disciples@[i].aptitudes)
        },
        ManagementRequest::AssignMaster { disciple_id, .. } => {
            let i = disciple_index(s.disciples@, disciple_id@);
            i >= 0 ==> aptitudes_fit(s.disciples@[i].aptitudes)
        },
        ManagementRequest::BrewPill { .. } => s.sect.productions@.len() < usize::MAX,
        ManagementRequest::CallAid { sect_id } => {
            &&& s.disciples@.len() < usize::MAX
            &&& s.total_disciples_recruited < i32::MAX
            &&& ties_fit(s, sect_id@, 9)
        },
        ManagementRequest::TradeWithAlly { sect_id, .. } => {
            &&& s.sect.attributes.silver + 250 <= i32::MAX
            &&& ties_fit(s, sect_id@, 4)
        },
        ManagementRequest::ResearchMartial { martial_art_id, .. } => joint_study_fits(s, martial_art_id@),
        ManagementRequest::CreateMartialArt { .. } => scripture_elder(s) matches Some(d) ==> competence_fits(d, BuildingKind::Scripture),
        ManagementRequest::Exchange { sect_id, .. } => ties_fit(s, sect_id@, 18),
        ManagementRequest::HostExchange { sect_id, .. } => ties_fit(s, sect_id@, 5) && hosting_fits(s),
        ManagementRequest::JointPatrol { sect_id, .. } => ties_fit(s, sect_id@, 7) && patrol_fits(s),
        ManagementRequest::RequestManual { manual, .. } => manual_fits(s, manual),
        _ => true,
    }
}

/// What the handler of `request` does (the `*_outcome` of each kind): `after`
/// and `r` are the state and result it leaves for the state `before`.
pub open spec fn handled(request: ManagementRequest, before: GameState, after: GameState, r: Result<String, String>) -> bool {
    match request {
        ManagementRequest::SetPolicy { policy } => policy_outcome(before, policy, after, r),
        ManagementRequest::SetMoralDirection { direction } => direction_outcome(before, direction, after, r),
        ManagementRequest::UpgradeBuilding { building_id } => upgrade_outcome(before, building_id@, after, r),
        ManagementRequest::RepairBuilding { building_id } => repair_outcome(before, building_id@, after, r),
        ManagementRequest::Recruit => recruit_outcome(before, after, r),
        ManagementRequest::SetPersonnel { disciple_id, rank, department } => personnel_outcome(
            before,
            disciple_id@,
            rank,
            department,
            after,
            r,
        ),
        ManagementRequest::AssignMaster { disciple_id, master_id } => master_outcome(before, disciple_id@, master_id, after, r),
        ManagementRequest::AssignElder { building_id, disciple_id } => elder_outcome(before, building_id@, disciple_id, after, r),
        ManagementRequest::SetElderDuty { building_id, duty_id, duty_target } => duty_outcome(
            before,
            building_id@,
            duty_id@,
            duty_target,
            after,
            r,
        ),
        ManagementRequest::SetAutoBrewQueue { recipe_ids } => queue_outcome(before, recipe_ids@, after, r),
        ManagementRequest::Expel { disciple_id } => expel_outcome(before, disciple_id@, after, r),
        ManagementRequest::IssueOrder { order_id } => order_outcome(before, order_id@, after, r),
        ManagementRequest::SetHeritageArt { martial_art_id } => heritage_outcome(before, martial_art_id@, after, r),
        ManagementRequest::BrewPill { recipe_id } => brew_pill_outcome(before, recipe_id@, after, r),
        ManagementRequest::CallAid { sect_id } => aid_outcome(before, sect_id@, after, r),
        ManagementRequest::TradeWithAlly { sect_id, item, quantity } => trade_outcome(
            before,
            sect_id@,
            item@,
            quantity as int,
            after,
            r,
        ),
        ManagementRequest::ResearchMartial { martial_art_id, art_name } => joint_study(before, martial_art_id@, art_name@, after, r),
        ManagementRequest::ResearchNewMartial { arts } => new_research(before, arts@, after, r),
        ManagementRequest::CreateMartialArt { name, category, basic, weapon_basic, labels } => exists|insp: int|
            #[trigger] art_created(before, name@, category, basic, weapon_basic is Some, labels, insp, after, r),
        ManagementRequest::Exchange { sect_id, disciple_id } => exists|gain: int, mid: GameState|
            #[trigger] visit_paid(before, sect_id@, disciple_id, gain, mid, after, r),
        ManagementRequest::HostExchange { sect_id, disciple_id } => exists|gain: int, lore: int, tied: GameState, mid: GameState|
            #[trigger] hosted(before, sect_id@, disciple_id, gain, lore, tied, mid, after, r),
        ManagementRequest::LibraryAdd { martial_art_id, art_name } => book_donated(before, martial_art_id@, art_name@, after, r),
        ManagementRequest::JointPatrol { sect_id, disciple_id } => exists|gain: int, tied: GameState, f: int, k: Seq<char>, xp: int, mid: GameState|
            #[trigger] patrolled(before, sect_id@, disciple_id, gain, tied, f, k, xp, mid, after, r),
        ManagementRequest::RequestManual { sect_id, martial_art_id, disciple_id, manual } => exists|mid: GameState|
            #[trigger] manual_obtained(before, sect_id@, martial_art_id@, manual, disciple_id, mid, after, r),
    }
}

/// The chronicle keeps its last 80 entries.
pub open spec fn trimmed_log(log: Seq<GameEvent>) -> Seq<GameEvent> {
    if log.len() > 80 {
        log.skip(log.len() - 80)
    } else {
        log
    }
}

/// Drops the oldest entries of the chronicle beyond the last 80.
pub fn trim_log(state: &mut GameState)
    ensures
        final(state).event_log@ == trimmed_log(old(state).event_log@),
        *final(state) == (GameState { event_log: final(state).event_log, ..*old(state) }),
{
    let ghost log = state.event_log@;
    let n0: usize = state.event_log.len();
    let mut k: usize = 0;
    while state.event_log.len() > 80
        invariant
            log.len() >= 80 ==> state.event_log@ == log.skip(k as int) && k <= log.len() - 80,
            log.len() < 80 ==> state.event_log@ == log && k == 0,
            *state == (GameState { event_log: state.event_log, ..*old(state) }),
            log == old(state).event_log@,
            k + state.event_log@.len() == log.len(),
            log.len() == n0,
        decreases state.event_log@.len(),
    {
        state.event_log.remove(0);
        assert(log.skip(k as int).remove(0) =~= log.skip(k as int + 1));
        k = k + 1;
    }
    proof {
        if log.len() <= 80 {
            assert(log.skip(0) =~= log);
        }
    }
}

/// `e` is the chronicle entry of a granted request: its line, a good mood, the
/// month it was granted in, and the sect's category.
pub open spec fn granted_entry(e: GameEvent, text: Seq<char>, year: i32, month: i32) -> bool {
    &&& e.text@ == text
    &&& e.mood@ == "good"@
    &&& e.year == year
    &&& e.month == month
    &&& e.category@ == "sect"@
}

pub fn copy_event(e: &GameEvent) -> (r: GameEvent)
    ensures
        r == *e,
{
    GameEvent {
        text: e.text.clone(),
        mood: e.mood.clone(),
        year: e.year,
        month: e.month,
        category: e.category.clone(),
    }
}

/// What a granted request leaves once handled into the state `mid` with the
/// line `text`: a decision used (when it spends one), the mirrors refreshed,
/// and the entry (returned alone in `r`) appended to the chronicle.
pub open spec fn recorded(mid: GameState, text: Seq<char>, spends: bool, after: GameState, r: Result<Vec<GameEvent>, String>) -> bool {
    &&& r matches Ok(v) && v@.len() == 1 && granted_entry(v@[0], text, mid.year, mid.month)
        && after.event_log@ == trimmed_log(mid.event_log@.push(v@[0]))
    &&& after == (GameState {
        decisions_used: if spends { (mid.decisions_used + 1) as i32 } else { mid.decisions_used },
        prestige: clamp_int(mid.sect.attributes.prestige as int, 0, 1000) as i32,
        silver: (if mid.sect.attributes.silver < 0 { 0 } else { mid.sect.attributes.silver as int }) as i32,
        morale: clamp_int(mid.sect.attributes.morale as int, 0, 100) as i32,
        event_log: after.event_log,
        ..mid
    })
}

/// What `execute_management` does: the refusal of `gate_refusal`, or the
/// handler's effect (see `handled`) with its refusal passed on as it stands,
/// or the granted request recorded (see `recorded`).
pub open spec fn management_outcome(s: GameState, request: ManagementRequest, after: GameState, r: Result<Vec<GameEvent>, String>) -> bool {
    let spends = spends_decision(request);
    match gate_refusal(s, spends) {
        Some(t) => refused(r, t) && after == s,
        None => exists|mid: GameState, hr: Result<String, String>|
            #[trigger] handled(request, s, mid, hr) && match hr {
                Err(e) => r matches Err(e2) && e2 == e && after == mid,
                Ok(t) => recorded(mid, t@, spends, after, r),
            },
    }
}

/// Handles a request of the head. Nothing is heard while the game is over, a
/// world event waits, or the month's decisions are spent (see
/// `gate_refusal`). Otherwise the request's handler acts (see `handled`); a
/// refusal is passed on as it stands, and a granted request is recorded (see
/// `recorded`).
pub fn execute_management(rng: &mut StdRng, state: &mut GameState, request: ManagementRequest) -> (r: Result<
    Vec<GameEvent>,
    String,
>)
    requires
        request_fits(*old(state), request),
    ensures
        management_outcome(*old(state), request, *final(state), r),
{
    let spends = uses_decision(&request);
    if state.game_over {
        if state.game_won {
            return Err(String::from_str("此局已经终了，诸务不可再行。"));
        }
        return Err(String::from_str("山门已散，诸事皆休。"));
    }
    if state.pending_event.is_some() {
        return Err(String::from_str("眼前江湖事尚未处置，不宜改动门中卷宗。"));
    }
    if spends && state.decisions_used >= state.max_decisions {
        return Err(String::from_str("本月可议之事已尽，请推进月份。"));
    }
    let ghost s = *state;
    let ghost req = request;
    let hr: Result<String, String> = match request {
        ManagementRequest::SetPolicy { policy } => Ok(set_policy(state, policy)),
        ManagementRequest::SetMoralDirection { direction } => Ok(set_moral_direction(state, direction)),
        ManagementRequest::UpgradeBuilding { building_id } => upgrade_building(state, building_id.as_str()),
        ManagementRequest::RepairBuilding { building_id } => repair_building(state, building_id.as_str()),
        ManagementRequest::Recruit => recruit(rng, state),
        ManagementRequest::SetPersonnel { disciple_id, rank, department } => set_personnel(
            state,
            disciple_id.as_str(),
            rank,
            department,
        ),
        ManagementRequest::AssignMaster { disciple_id, master_id } => assign_master(state, disciple_id.as_str(), master_id),
        ManagementRequest::AssignElder { building_id, disciple_id } => assign_elder(state, building_id.as_str(), disciple_id),
        ManagementRequest::SetElderDuty { building_id, duty_id, duty_target } => set_elder_duty(
            state,
            building_id.as_str(),
            duty_id.as_str(),
            duty_target,
        ),
        ManagementRequest::SetAutoBrewQueue { recipe_ids } => set_auto_brew_queue(state, recipe_ids),
        ManagementRequest::Expel { disciple_id } => expel(state, disciple_id.as_str()),
        ManagementRequest::IssueOrder { order_id } => issue_order(state, order_id.as_str()),
        ManagementRequest::SetHeritageArt { martial_art_id } => set_heritage_art(state, martial_art_id.as_str()),
        ManagementRequest::BrewPill { recipe_id } => brew_pill(state, recipe_id.as_str()),
        ManagementRequest::CallAid { sect_id } => call_aid(rng, state, sect_id.as_str()),
        ManagementRequest::TradeWithAlly { sect_id, item, quantity } => trade(
            rng,
            state,
            sect_id.as_str(),
            item.as_str(),
            quantity,
        ),
        ManagementRequest::ResearchMartial { martial_art_id, art_name } => research_martial(state, martial_art_id.as_str(), art_name.as_str()),
        ManagementRequest::ResearchNewMartial { arts } => research_new_martial(state, &arts),
        ManagementRequest::CreateMartialArt { name, category, basic, weapon_basic, labels } => {
            let weapon: Option<&str> = match &weapon_basic {
                Some(w) => Some(w.as_str()),
                None => None,
            };
            create_martial_art(rng, state, name.as_str(), category, &basic, weapon, &labels)
        },
        ManagementRequest::Exchange { sect_id, disciple_id } => exchange(rng, state, sect_id.as_str(), &disciple_id),
        ManagementRequest::HostExchange { sect_id, disciple_id } => host_exchange(rng, state, sect_id.as_str(), &disciple_id),
        ManagementRequest::LibraryAdd { martial_art_id, art_name } => donate_book(state, martial_art_id.as_str(), art_name.as_str()),
        ManagementRequest::JointPatrol { sect_id, disciple_id } => joint_patrol(rng, state, sect_id.as_str(), &disciple_id),
        ManagementRequest::RequestManual { sect_id, martial_art_id, disciple_id, manual } => seek_manual(
            state,
            sect_id.as_str(),
            martial_art_id.as_str(),
            &manual,
            &disciple_id,
        ),
    };
    let ghost mid = *state;
    assert(handled(req, s, mid, hr));
    assert(spends == spends_decision(req));
    let text = match hr {
        Ok(t) => t,
        Err(e) => return Err(e),
    };
    if spends {
        state.decisions_used = state.decisions_used + 1;
    }
    sync_legacy_fields(state);
    let event = GameEvent {
        text,
        mood: String::from_str("good"),
        year: state.year,
        month: state.month,
        category: String::from_str("sect"),
    };
    proof {
        reveal_strlit("good");
        reveal_strlit("sect");
    }
    let kept = copy_event(&event);
    state.event_log.push(kept);
    trim_log(state);
    let mut events: Vec<GameEvent> = Vec::new();
    events.push(event);
    Ok(events)
}

} // verus!
