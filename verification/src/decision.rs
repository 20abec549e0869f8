//! The head's own decisions of the month: posting a recruiting notice,
//! taking on the villages' commissions, and resting from wounds.
use vstd::prelude::*;
use rand::rngs::StdRng;
use crate::chance::rand_range;
use crate::country::clamp_int;
use crate::disciple::{can_act, spec_can_act};
use crate::elder_duties::{scaled, scaled_output};
use crate::game::GameState;
use crate::model::{Disciple, GameEvent};
use crate::recruit::{generate_disciple, recruited};
use crate::recruitment::{enroll_recruits, ranked_recruits, recruit_names};
use crate::requests::{copy_event, granted_entry, trim_log, trimmed_log};
use crate::sect::{building_effectiveness, spec_building_effectiveness, sync_legacy_fields, SectAttributes, SectState};
use crate::text::{decimal, decimal_text, text_eq};
use crate::creation::{new_research, research_new_martial};

verus! {

/// `g` with its top-level mirrors refreshed from the player's sect.
pub open spec fn mirrored(g: GameState) -> GameState {
    GameState {
        prestige: clamp_int(g.sect.attributes.prestige as int, 0, 1000) as i32,
        silver: (if g.sect.attributes.silver < 0 {
            0
        } else {
            g.sect.attributes.silver as int
        }) as i32,
        morale: clamp_int(g.sect.attributes.morale as int, 0, 100) as i32,
        ..g
    }
}

/// `d` is `raw` enrolled in the sect `sect_id`.
pub open spec fn tagged(raw: Disciple, d: Disciple, sect_id: Seq<char>) -> bool {
    &&& d == Disciple { sect_id: d.sect_id, ..raw }
    &&& match d.sect_id {
        Some(x) => x@ == sect_id,
        None => false,
    }
}

/// The notice was posted: 50 silver paid, one or two recruits `rs` drawn
/// (with a talent bonus of 10 while the sect's prestige is above 50),
/// enrolled in the sect as `ts`, ranked against the roster and taken in.
pub open spec fn notice_posted(before: GameState, after: GameState, text: Seq<char>, rs: Seq<Disciple>, ts: Seq<Disciple>) -> bool {
    let s = before;
    let paid = SectState {
        attributes: SectAttributes { silver: (s.sect.attributes.silver - 50) as i32, ..s.sect.attributes },
        ..s.sect
    };
    let bonus = if s.sect.attributes.prestige > 50 {
        10int
    } else {
        0int
    };
    let ranked = ranked_recruits(paid, s.disciples@, ts);
    &&& 1 <= rs.len() <= 2
    &&& ts.len() == rs.len()
    &&& forall|i: int| 0 <= i < rs.len() ==> recruited(#[trigger] rs[i], bonus) && tagged(rs[i], ts[i], s.sect.id@)
    &&& text == "招贤榜贴出，"@ + recruit_names(ranked) + "前来拜山投师。"@
    &&& after.disciples@ == s.disciples@ + ranked
    &&& after == mirrored(
        GameState {
            disciples: after.disciples,
            sect: paid,
            total_disciples_recruited: (s.total_disciples_recruited + rs.len()) as i32,
            ..s
        },
    )
}

/// Posts the recruiting notice for 50 silver; nothing happens when the
/// silver is short.
fn post_notice(rng: &mut StdRng, state: &mut GameState) -> (r: Option<String>)
    requires
        old(state).disciples@.len() + 2 <= usize::MAX,
        old(state).total_disciples_recruited + 2 <= i32::MAX,
    ensures
        r is None ==> *final(state) == *old(state) && old(state).sect.attributes.silver < 50,
        r matches Some(t) ==> old(state).sect.attributes.silver >= 50
            && exists|rs: Seq<Disciple>, ts: Seq<Disciple>| #[trigger] notice_posted(*old(state), *final(state), t@, rs, ts),
{
    if state.sect.attributes.silver < 50 {
        return None;
    }
    state.sect.attributes.silver = state.sect.attributes.silver - 50;
    let count = rand_range(rng, 1, 2);
    let bonus: i32 = if state.sect.attributes.prestige > 50 { 10 } else { 0 };
    let mut recruits: Vec<Disciple> = Vec::new();
    let ghost mut raws: Seq<Disciple> = Seq::empty();
    let mut k: i32 = 0;
    while k < count
        invariant
            0 <= k <= count <= 2,
            recruits@.len() == k,
            raws.len() == k,
            forall|i: int| 0 <= i < k ==> recruited(#[trigger] raws[i], bonus as int) && tagged(raws[i], recruits@[i], state.sect.id@),
        decreases count - k,
    {
        let mut d = generate_disciple(rng, bonus);
        let ghost raw = d;
        d.sect_id = Some(state.sect.id.clone());
        recruits.push(d);
        proof {
            raws = raws.push(raw);
        }
        k = k + 1;
    }
    let ghost ts = recruits@;
    let ghost paid = *state;
    let names = enroll_recruits(state, recruits);
    sync_legacy_fields(state);
    let mut text = String::from_str("招贤榜贴出，");
    text.append(names.as_str());
    text.append("前来拜山投师。");
    let r = Some(text);
    proof {
        let t = r->0;
        assert(notice_posted(*old(state), *state, t@, raws, ts));
    }
    r
}

/// A disciple of the player's sect that can take the month's duty: able to
/// act and with no action under way.
pub open spec fn spec_available(s: GameState, d: Disciple) -> bool {
    &&& match d.sect_id {
        Some(x) => x@ == s.sect.id@,
        None => false,
    }
    &&& spec_can_act(d)
    &&& d.action is None
}

fn available_player_disciple(state: &GameState, d: &Disciple) -> (r: bool)
    ensures
        r == spec_available(*state, *d),
{
    let of_sect = match &d.sect_id {
        Some(x) => text_eq(x.as_str(), state.sect.id.as_str()),
        None => false,
    };
    of_sect && can_act(d) && d.action.is_none()
}

/// Some disciple of the roster can take the month's duty.
pub open spec fn has_available(s: GameState) -> bool {
    exists|i: int| 0 <= i < s.disciples@.len() && spec_available(s, #[trigger] s.disciples@[i])
}

/// `i` is the first disciple of the roster that can take the month's duty.
pub open spec fn first_available(s: GameState, i: int) -> bool {
    &&& 0 <= i < s.disciples@.len()
    &&& spec_available(s, s.disciples@[i])
    &&& forall|j: int| 0 <= j < i ==> !spec_available(s, #[trigger] s.disciples@[j])
}

/// `s + g`, held at `i32::MAX`.
pub open spec fn saturated_add(s: int, g: int) -> int {
    if s + g > i32::MAX {
        i32::MAX as int
    } else {
        s + g
    }
}

/// The commission was done with base rolls `a` (silver) and `b` (prestige):
/// each scaled by the affairs hall's effectiveness, the silver added (held
/// at the `i32` limit), prestige within `0..=1000`, morale +1 within
/// `0..=100`; the first disciple free for duty is named as steward.
pub open spec fn commission_done(before: GameState, after: GameState, text: Seq<char>, a: int, b: int) -> bool {
    let s = before;
    let eff = spec_building_effectiveness(s.sect, "affairs"@);
    let sg = scaled(a, eff);
    let pg = scaled(b, eff);
    let attrs = SectAttributes {
        silver: saturated_add(s.sect.attributes.silver as int, sg) as i32,
        prestige: clamp_int(s.sect.attributes.prestige + pg, 0, 1000) as i32,
        morale: clamp_int(s.sect.attributes.morale + 1, 0, 100) as i32,
        ..s.sect.attributes
    };
    &&& 18 <= a <= 36
    &&& 1 <= b <= 3
    &&& exists|i: int| #[trigger] first_available(s, i) && text == "执事堂以门派名义承接乡里委托，由"@ + s.disciples@[i].name@
        + "当值统筹、门众共同料理，结得银"@ + decimal_text(sg as nat) + "两、声望"@ + decimal_text(pg as nat) + "点。"@
    &&& after == mirrored(GameState { sect: SectState { attributes: attrs, ..s.sect }, ..s })
}

/// Takes on the villages' commissions through the affairs hall, with the
/// first disciple free for duty as steward; nothing happens while the hall
/// is ruined or nobody is free.
fn take_commission(rng: &mut StdRng, state: &mut GameState) -> (r: Option<String>)
    ensures
        r is None ==> *final(state) == *old(state) && (spec_building_effectiveness(old(state).sect, "affairs"@) <= 0
            || !has_available(*old(state))),
        r matches Some(t) ==> spec_building_effectiveness(old(state).sect, "affairs"@) > 0 && has_available(*old(state))
            && exists|a: int, b: int| #[trigger] commission_done(*old(state), *final(state), t@, a, b),
{
    let eff = building_effectiveness(&state.sect, "affairs");
    if eff <= 0 {
        return None;
    }
    let mut i: usize = 0;
    while i < state.disciples.len()
        invariant
            i <= state.disciples@.len(),
            forall|j: int| 0 <= j < i ==> !spec_available(*state, #[trigger] state.disciples@[j]),
        ensures
            i <= state.disciples@.len(),
            forall|j: int| 0 <= j < i ==> !spec_available(*state, #[trigger] state.disciples@[j]),
            i < state.disciples@.len() ==> spec_available(*state, state.disciples@[i as int]),
        decreases state.disciples@.len() - i,
    {
        if available_player_disciple(state, &state.disciples[i]) {
            break;
        }
        i = i + 1;
    }
    if i >= state.disciples.len() {
        return None;
    }
    let ghost start = *state;
    let steward = state.disciples[i].name.clone();
    let a = rand_range(rng, 18, 36);
    let silver_gain = scaled_output(a, eff);
    let b = rand_range(rng, 1, 3);
    let prestige_gain = scaled_output(b, eff);
    let s: i64 = state.sect.attributes.silver as i64 + silver_gain as i64;
    state.sect.attributes.silver = if s > i32::MAX as i64 { i32::MAX } else { s as i32 };
    let p: i64 = state.sect.attributes.prestige as i64 + prestige_gain as i64;
    state.sect.attributes.prestige = if p < 0 { 0 } else if p > 1000 { 1000 } else { p as i32 };
    let m: i64 = state.sect.attributes.morale as i64 + 1;
    state.sect.attributes.morale = if m < 0 { 0 } else if m > 100 { 100 } else { m as i32 };
    sync_legacy_fields(state);
    let mut text = String::from_str("执事堂以门派名义承接乡里委托，由");
    text.append(steward.as_str());
    text.append("当值统筹、门众共同料理，结得银");
    text.append(decimal(silver_gain as u32).as_str());
    text.append("两、声望");
    text.append(decimal(prestige_gain as u32).as_str());
    text.append("点。");
    let r = Some(text);
    proof {
        assert(first_available(start, i as int));
        let t = r->0;
        assert(commission_done(*old(state), *state, t@, a as int, b as int));
    }
    r
}

/// The line of a month of rest.
pub open spec fn rest_text() -> Seq<char> {
    "掌门闭门静养月余，伤势大有好转。"@
}

/// The head rested and healed `heal` points of injury (within `0..=100`);
/// morale fell by 1 (within `0..=100`).
pub open spec fn rested(before: GameState, after: GameState, heal: int) -> bool {
    let s = before;
    &&& 15 <= heal <= 30
    &&& after == mirrored(
        GameState {
            injury: clamp_int(s.injury - heal, 0, 100) as i32,
            sect: SectState {
                attributes: SectAttributes {
                    morale: clamp_int(s.sect.attributes.morale - 1, 0, 100) as i32,
                    ..s.sect.attributes
                },
                ..s.sect
            },
            ..s
        },
    )
}

/// The head rests for a month.
fn rest(rng: &mut StdRng, state: &mut GameState) -> (r: String)
    ensures
        r@ == rest_text(),
        exists|heal: int| #[trigger] rested(*old(state), *final(state), heal),
{
    let heal = rand_range(rng, 15, 30);
    let v: i64 = state.injury as i64 - heal as i64;
    state.injury = if v < 0 { 0 } else if v > 100 { 100 } else { v as i32 };
    let m: i64 = state.sect.attributes.morale as i64 - 1;
    state.sect.attributes.morale = if m < 0 { 0 } else if m > 100 { 100 } else { m as i32 };
    sync_legacy_fields(state);
    proof {
        assert(rested(*old(state), *state, heal as int));
    }
    String::from_str("掌门闭门静养月余，伤势大有好转。")
}

/// A decision taken: its line recorded as a good sect event of the month,
/// one more decision used, and the chronicle cut to its last 80 entries.
pub open spec fn decision_logged(mid: GameState, after: GameState, text: Seq<char>, events: Seq<GameEvent>) -> bool {
    &&& events.len() == 1
    &&& granted_entry(events[0], text, mid.year, mid.month)
    &&& after.event_log@ == trimmed_log(mid.event_log@.push(events[0]))
    &&& after == GameState { decisions_used: (mid.decisions_used + 1) as i32, event_log: after.event_log, ..mid }
}

/// What `execute_decision` does with the decision `id`.
pub open spec fn decision_outcome(before: GameState, after: GameState, id: Seq<char>, arts: Seq<(String, String)>, events: Seq<GameEvent>) -> bool {
    let quiet = after == before && events.len() == 0;
    if before.game_over || before.pending_event is Some {
        quiet
    } else if id == "recruit"@ {
        if before.sect.attributes.silver < 50 {
            quiet
        } else {
            exists|mid: GameState, text: Seq<char>, rs: Seq<Disciple>, ts: Seq<Disciple>|
                #[trigger] notice_posted(before, mid, text, rs, ts) && decision_logged(mid, after, text, events)
        }
    } else if id == "mission"@ {
        if spec_building_effectiveness(before.sect, "affairs"@) <= 0 || !has_available(before) {
            quiet
        } else {
            exists|mid: GameState, text: Seq<char>, a: int, b: int|
                #[trigger] commission_done(before, mid, text, a, b) && decision_logged(mid, after, text, events)
        }
    } else if id == "rest"@ {
        exists|mid: GameState, heal: int| #[trigger] rested(before, mid, heal) && decision_logged(mid, after, rest_text(), events)
    } else if id == "research"@ {
        exists|mid: GameState, hr: Result<String, String>| #[trigger] new_research(before, arts, mid, hr) && match hr {
            Err(_) => quiet,
            Ok(t) => decision_logged(mirrored(mid), after, t@, events),
        }
    } else {
        quiet
    }
}

fn research_decision(state: &mut GameState, arts: &Vec<(String, String)>) -> (r: (Option<String>, Ghost<(GameState, Result<String, String>)>))
    ensures
        new_research(*old(state), arts@, r.1@.0, r.1@.1),
        match r.1@.1 {
            Err(_) => r.0 is None && *final(state) == *old(state),
            Ok(t) => r.0 == Some(t) && *final(state) == mirrored(r.1@.0),
        },
{
    let hr = research_new_martial(state, arts);
    let ghost mid = *state;
    let ghost g = hr;
    match hr {
        Ok(t) => {
            sync_legacy_fields(state);
            (Some(t), Ghost((mid, g)))
        },
        Err(_) => (None, Ghost((mid, g))),
    }
}

/// Carries out one of the head's own decisions: `recruit` posts the
/// recruiting notice, `mission` takes on commissions, `rest` heals the
/// head, `research` works out the next of the sect's own fighting arts that
/// the catalog lists in `arts` (ids and shown names; see `new_research`).
/// Nothing happens once the game is over or while a world event awaits an
/// answer, when a decision cannot be carried out, or for any other id; the
/// decisions that train, study or teach a disciple's skills are not among
/// those handled here. A decision carried out is recorded in the chronicle
/// and counted.
pub fn execute_decision(rng: &mut StdRng, state: &mut GameState, decision_id: &str, arts: &Vec<(String, String)>) -> (events: Vec<GameEvent>)
    requires
        old(state).disciples@.len() + 2 <= usize::MAX,
        old(state).total_disciples_recruited + 2 <= i32::MAX,
        old(state).decisions_used < i32::MAX,
    ensures
        decision_outcome(*old(state), *final(state), decision_id@, arts@, events@),
{
    let mut events: Vec<GameEvent> = Vec::new();
    let ghost start = *state;
    let ghost mut researched: GameState = *state;
    let ghost mut research_result: Result<String, String> = vstd::pervasive::arbitrary();
    proof {
        reveal_strlit("recruit");
        reveal_strlit("mission");
        reveal_strlit("rest");
        reveal_strlit("research");
        assert("research"@[2] != "recruit"@[2]);
        assert("research"@[0] != "mission"@[0]);
        assert("research"@.len() != "rest"@.len());
    }
    if state.game_over || state.pending_event.is_some() {
        return events;
    }
    let text = if text_eq(decision_id, "recruit") {
        post_notice(rng, state)
    } else if text_eq(decision_id, "mission") {
        take_commission(rng, state)
    } else if text_eq(decision_id, "rest") {
        Some(rest(rng, state))
    } else if text_eq(decision_id, "research") {
        let (t, g) = research_decision(state, arts);
        proof {
            researched = g@.0;
            research_result = g@.1;
        }
        t
    } else {
        None
    };
    let text = match text {
        Some(t) => t,
        None => {
            proof {
                if decision_id@ == "research"@ {
                    assert(new_research(start, arts@, researched, research_result));
                }
            }
            return events;
        },
    };
    let ghost mid = *state;
    let e = GameEvent {
        text,
        mood: String::from_str("good"),
        year: state.year,
        month: state.month,
        category: String::from_str("sect"),
    };
    state.decisions_used = state.decisions_used + 1;
    state.event_log.push(copy_event(&e));
    events.push(e);
    trim_log(state);
    proof {
        assert(decision_logged(mid, *state, events@[0].text@, events@));
        if decision_id@ == "research"@ {
            assert(mid == mirrored(researched));
            assert(new_research(start, arts@, researched, research_result));
        }
    }
    events
}

} // verus!
