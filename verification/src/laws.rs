//! Properties of the monthly rules that hold across calls and states.
use vstd::prelude::*;
use crate::country::{clamp_int, normalized_len, normalized_prosperity, normalized_order, spec_scale_positive};
use crate::country::{evolved_prosperity, evolved_order};
use crate::disciple::{spec_age_qi_modifier, spec_age_spirit_modifier};
use crate::event::{lands_at, weight_prefix, lemma_prefix_monotone};
use crate::elder_duties::{duty_effect, duty_ready, elder_duty_outcome};
use crate::appointments::{elder_outcome, enrolled, enrolled_count, master_outcome};
use crate::game::GameState;
use crate::month_end::{month_closed, month_finished, month_turned};
use crate::journey::{encounter_applied, journey_settled, Journey, PersonGains, RoadArts, SectGains, Traveller, TravelEncounterKind};
use crate::country::realms_evolved;
use crate::tournament::{fair_seeding, lemma_seeding_is_fair, spec_seeded_positions, bracket_played, entrants_made, lemma_places_distinct, lemma_seeds_distinct, BracketOutcome, Entrant, aligned_scores, lemma_held_keeps_calendar, CombatScore, TournamentResult};
use crate::country::{is_normalized_from, lemma_normalized_is_fixed, Country};
use crate::event::interactive_table;
use crate::decision::{commission_done, decision_outcome, notice_posted, rested};
use crate::interaction::{
    defected, eligible, encountered, lemma_pool_fresh, month_rounds, placed, pool, pool_weights, round_drawn, round_step,
    sect_at, spec_is_leader, roster, resolved, InteractionKind, Faction,
};
use crate::lineage::{disciple_index, opt_text};
use crate::model::GameEvent;
use crate::advance::{month_advanced, settle_fits};
use crate::event::RandomEvent;
use crate::month_end::MonthOpening;
use crate::requests::{gate_refusal, handled, management_outcome, recorded, spends_decision, trimmed_log, ManagementRequest};
use crate::model::{Disciple, DiscipleRank};
use crate::sect::{lemma_expense_nonneg, SectState, hall_effectiveness, sat32, spec_rank_limits, rank_count, upkept_attributes, upkeep_fits, spec_upkeep_income, spec_policy_income};

verus! {

/// A month moves each realm's prosperity and order by at most one point, and
/// both stay within `0..=100`.
pub proof fn law_realm_moves_at_most_one_step(state: GameState, i: int)
    requires
        0 <= i < normalized_len(state.countries@),
    ensures
        0 <= evolved_prosperity(state, i) <= 100,
        0 <= evolved_order(state, i) <= 100,
        -1 <= evolved_prosperity(state, i) - normalized_prosperity(state.countries@, i) <= 1,
        -1 <= evolved_order(state, i) - normalized_order(state.countries@, i) <= 1,
{
}

/// The monthly upkeep never leaves the treasury below zero.
pub proof fn law_upkeep_keeps_treasury(sect: SectState, disciples: int, market_percent: int)
    requires
        upkeep_fits(sect, disciples, market_percent),
    ensures
        upkept_attributes(sect, disciples, market_percent).silver >= 0,
{
    lemma_expense_nonneg(sect);
}

/// A better market never lowers the month's income, whatever the percents
/// (a negative percent counts as none): the market scales the income once and
/// leaves every expense alone.
pub proof fn law_market_scales_income(sect: SectState, disciples: int, low: int, high: int)
    requires
        low <= high,
    ensures
        0 <= spec_upkeep_income(sect, disciples, low) <= spec_upkeep_income(sect, disciples, high),
{
    let v = spec_policy_income(sect, disciples);
    let lo = if low < 0 { 0 } else { low };
    let hi = if high < 0 { 0 } else { high };
    assert(0 <= lo <= hi);
    if v > 0 {
        assert(v * lo <= v * hi) by (nonlinear_arith)
            requires
                v > 0,
                lo <= hi,
        ;
        assert(0 <= v * lo) by (nonlinear_arith)
            requires
                v > 0,
                lo >= 0,
        ;
        assert(v * lo / 100 <= v * hi / 100) by (nonlinear_arith)
            requires
                v * lo <= v * hi,
        ;
        assert(0 <= v * lo / 100) by (nonlinear_arith)
            requires
                0 <= v * lo,
        ;
    }
}

/// A destroyed hall does nothing, whatever its level.
pub proof fn law_destroyed_hall_stops(level: int, condition: int)
    requires
        condition <= 0,
    ensures
        hall_effectiveness(level, condition) == 0,
{
    let f = sat32(80 + sat32((if level < 1 { 1 } else { level }) * 20));
    assert(f * clamp_int(condition, 0, 100) == 0) by (nonlinear_arith)
        requires
            clamp_int(condition, 0, 100) == 0,
    ;
}

/// Higher levels help and damage hurts: a hall's effectiveness never falls
/// when its level or its condition rises.
pub proof fn law_effectiveness_monotone(l1: int, l2: int, c1: int, c2: int)
    requires
        l1 <= l2,
        c1 <= c2,
    ensures
        0 <= hall_effectiveness(l1, c1) <= hall_effectiveness(l2, c2),
{
    let f1 = sat32(80 + sat32((if l1 < 1 { 1 } else { l1 }) * 20));
    let f2 = sat32(80 + sat32((if l2 < 1 { 1 } else { l2 }) * 20));
    let k1 = clamp_int(c1, 0, 100);
    let k2 = clamp_int(c2, 0, 100);
    assert(0 <= f1 <= f2);
    assert(0 <= k1 <= k2);
    assert(0 <= f1 * k1 <= f2 * k2) by (nonlinear_arith)
        requires
            0 <= f1 <= f2,
            0 <= k1 <= k2,
    ;
    assert(0 <= sat32(f1 * k1) <= sat32(f2 * k2));
    assert(sat32(f1 * k1) / 100 <= sat32(f2 * k2) / 100) by (nonlinear_arith)
        requires
            0 <= sat32(f1 * k1) <= sat32(f2 * k2),
    ;
}

/// A sect with any outer disciple always has at least one inner slot.
pub proof fn law_outer_sect_has_inner_slot(sect: SectState, ds: Seq<Disciple>)
    requires
        rank_count(ds, DiscipleRank::Outer, ds.len() as int) > 0,
    ensures
        spec_rank_limits(sect, ds).1 >= 1,
{
}

/// Age moves qi and spirit capacity by fixed steps: three and two points a
/// year up to 35, then four and three points lost a year.
pub proof fn law_age_steps(age: int)
    requires
        age >= 14,
    ensures
        age < 35 ==> spec_age_qi_modifier(age + 1) - spec_age_qi_modifier(age) == 3,
        age < 35 ==> spec_age_spirit_modifier(age + 1) - spec_age_spirit_modifier(age) == 2,
        age >= 35 ==> spec_age_qi_modifier(age + 1) - spec_age_qi_modifier(age) == -4,
        age >= 35 ==> spec_age_spirit_modifier(age + 1) - spec_age_spirit_modifier(age) == -3,
{
}

/// With every weight positive, every position can be drawn: a roll of the
/// weights before it lands on it.
pub proof fn law_every_position_drawable(ws: Seq<u32>, i: int)
    requires
        0 <= i < ws.len(),
        forall|j: int| 0 <= j < ws.len() ==> #[trigger] ws[j] > 0,
    ensures
        lands_at(ws, weight_prefix(ws, i), i),
{
}

/// Taking the mirrors into the sect and copying them back changes nothing
/// that was already in range: the clamps are idempotent.
pub proof fn law_mirror_round_trip(v: int, lo: int, hi: int)
    requires
        lo <= hi,
    ensures
        clamp_int(clamp_int(v, lo, hi), lo, hi) == clamp_int(v, lo, hi),
        lo <= v <= hi ==> clamp_int(v, lo, hi) == v,
{
}

/// A handler that refuses leaves the state as it found it, but for an
/// errand that strands (see `strands`).
proof fn lemma_handler_refusal_keeps_state(request: ManagementRequest, s: GameState, mid: GameState, hr: Result<String, String>)
    requires
        handled(request, s, mid, hr),
        hr is Err,
        !crate::requests::strands(s, request),
    ensures
        mid == s,
{
}

/// A refused request changes nothing: whichever request the head makes, when
/// it is refused the save is exactly as it was, but for a diplomatic errand
/// to an id that names no sect, which pays and raises the sect's own regard
/// before it finds out (see `strands`).
pub proof fn law_refused_request_changes_nothing(s: GameState, request: ManagementRequest, after: GameState, r: Result<Vec<GameEvent>, String>)
    requires
        management_outcome(s, request, after, r),
        r is Err,
        !crate::requests::strands(s, request),
    ensures
        after == s,
{
    if gate_refusal(s, spends_decision(request)) is None {
        let (mid, hr) = choose|mid: GameState, hr: Result<String, String>|
            #[trigger] handled(request, s, mid, hr) && match hr {
                Err(e) => r matches Err(e2) && e2 == e && after == mid,
                Ok(t) => recorded(mid, t@, spends_decision(request), after, r),
            };
        if hr is Err {
            lemma_handler_refusal_keeps_state(request, s, mid, hr);
        }
    }
}

/// A granted request uses exactly one of the month's decisions when it is of
/// a kind that spends one, and none otherwise; the chronicle then ends with
/// the request's entry and holds at most 80 entries.
pub proof fn law_granted_request_spends_one_decision(s: GameState, request: ManagementRequest, after: GameState, r: Result<Vec<GameEvent>, String>)
    requires
        management_outcome(s, request, after, r),
        r is Ok,
    ensures
        after.decisions_used == s.decisions_used + (if spends_decision(request) { 1int } else { 0int }),
        spends_decision(request) ==> after.decisions_used <= after.max_decisions,
        after.event_log@.len() <= 80,
        r->Ok_0@.len() == 1 && after.event_log@.last() == r->Ok_0@[0],
{
    let (mid, hr) = choose|mid: GameState, hr: Result<String, String>|
        #[trigger] handled(request, s, mid, hr) && match hr {
            Err(e) => r matches Err(e2) && e2 == e && after == mid,
            Ok(t) => recorded(mid, t@, spends_decision(request), after, r),
        };
    lemma_handler_keeps_decisions(request, s, mid, hr);
    let log = mid.event_log@.push(r->Ok_0@[0]);
    if log.len() > 80 {
        assert(trimmed_log(log).last() == log.last());
    }
}

/// A refused request never uses a decision or writes the chronicle, whatever
/// else its handler did before refusing.
pub proof fn law_refused_request_keeps_decisions_and_chronicle(
    s: GameState,
    request: ManagementRequest,
    after: GameState,
    r: Result<Vec<GameEvent>, String>,
)
    requires
        management_outcome(s, request, after, r),
        r is Err,
    ensures
        after.decisions_used == s.decisions_used,
        after.event_log == s.event_log,
{
    if gate_refusal(s, spends_decision(request)) is None {
        let (mid, hr) = choose|mid: GameState, hr: Result<String, String>|
            #[trigger] handled(request, s, mid, hr) && match hr {
                Err(e) => r matches Err(e2) && e2 == e && after == mid,
                Ok(t) => recorded(mid, t@, spends_decision(request), after, r),
            };
        lemma_handler_keeps_decisions(request, s, mid, hr);
    }
}

/// Handlers never touch the month's decisions.
proof fn lemma_handler_keeps_decisions(request: ManagementRequest, s: GameState, mid: GameState, hr: Result<String, String>)
    requires
        handled(request, s, mid, hr),
    ensures
        mid.decisions_used == s.decisions_used,
        mid.max_decisions == s.max_decisions,
        mid.event_log == s.event_log,
{
}

/// A hall elder's refused duty changes nothing.
pub proof fn law_refused_duty_changes_nothing(s: GameState, building_id: Seq<char>, duty_id: Seq<char>, after: GameState, r: Result<String, String>)
    requires
        elder_duty_outcome(s, building_id, duty_id, after, r),
        r is Err,
    ensures
        after == s,
{
    reveal_strlit("instruct");
    reveal_strlit("drill");
    reveal_strlit("curate");
    reveal_strlit("comprehend");
    reveal_strlit("audit");
    reveal_strlit("purchase");
    reveal_strlit("treat");
    reveal_strlit("brew");
    reveal_strlit("correspond");
    reveal_strlit("scout");
    reveal_strlit("recruit");
    reveal_strlit("arbitrate");
    reveal_strlit("maintain");
    reveal_strlit("supervise");
    if duty_ready(s, building_id, duty_id) is Ok {
        let (bi, ei, e) = duty_ready(s, building_id, duty_id)->Ok_0;
        let (mid, phrase) = choose|mid: GameState, phrase: Result<Seq<char>, Seq<char>>|
            #[trigger] duty_effect(s, e, duty_id, s.sect.buildings@[bi].duty_target, mid, phrase) && match phrase {
                Err(t) => crate::management::refused(r, t) && after == mid,
                Ok(p) => {
                    &&& r matches Ok(t) && t@ == s.disciples@[ei].name@ + "本月"@ + p + "。"@
                    &&& crate::elder_duties::finished(mid, bi, after)
                },
            };
        lemma_refused_effect_keeps_state(s, e, duty_id, s.sect.buildings@[bi].duty_target, mid, phrase);
    }
}

proof fn lemma_refused_effect_keeps_state(s: GameState, e: int, duty_id: Seq<char>, target: Option<String>, mid: GameState, phrase: Result<Seq<char>, Seq<char>>)
    requires
        duty_effect(s, e, duty_id, target, mid, phrase),
        phrase is Err,
    ensures
        mid == s,
{
    if duty_id == "instruct"@ {
    } else if duty_id == "drill"@ {
    } else if duty_id == "curate"@ {
    } else if duty_id == "comprehend"@ {
    } else if duty_id == "audit"@ {
    } else if duty_id == "purchase"@ {
    } else if duty_id == "treat"@ {
    } else if duty_id == "brew"@ {
        match target {
            Some(t) => {},
            None => {
                let herbs = s.sect.inventory.amount("草药"@);
                let roll = choose|roll: int| 0 <= roll < crate::event::weight_total(crate::elder_duties::brew_weights(herbs))
                    && #[trigger] crate::elder_duties::brewed(s, e, crate::elder_duties::drawn_recipe(herbs, roll), mid, phrase);
            },
        }
    } else if duty_id == "correspond"@ {
    } else if duty_id == "scout"@ {
    } else if duty_id == "recruit"@ {
        let d = choose|d: Disciple| #[trigger] crate::elder_duties::elder_recruited(s, d, mid, phrase);
    } else if duty_id == "arbitrate"@ {
    } else if duty_id == "maintain"@ {
    } else if duty_id == "supervise"@ {
    } else {
        let roll = choose|roll: int| #[trigger] crate::elder_duties::expanded(s, target, roll, mid, phrase);
    }
}

/// Disciples among the first `n` who are living non-chore apprentices of `master`.
pub open spec fn apprentices(ds: Seq<Disciple>, master: Seq<char>, n: int) -> int
    decreases n,
{
    if n <= 0 {
        0
    } else {
        apprentices(ds, master, n - 1) + (if apprentice_of(ds[n - 1], master) { 1int } else { 0int })
    }
}

/// `d` is a living non-chore apprentice of `master`.
pub open spec fn apprentice_of(d: Disciple, master: Seq<char>) -> bool {
    d.alive && d.rank != DiscipleRank::Chore && opt_text(d.master_id) == Some(master)
}

/// No two disciples share an id.
pub open spec fn ids_distinct(ds: Seq<Disciple>) -> bool {
    forall|i: int, j: int| 0 <= i < j < ds.len() ==> (#[trigger] ds[i]).id@ != (#[trigger] ds[j]).id@
}

proof fn lemma_apprentices_after_rite(ds: Seq<Disciple>, after: Seq<Disciple>, student: Seq<char>, master: Seq<char>, si: int, n: int)
    requires
        0 <= n <= ds.len(),
        after.len() == ds.len(),
        0 <= si < ds.len(),
        ds[si].id@ == student,
        ids_distinct(ds),
        forall|j: int| 0 <= j < ds.len() && j != si ==> apprentice_of(#[trigger] after[j], master) == apprentice_of(ds[j], master),
    ensures
        apprentices(after, master, n) <= enrolled_count(ds, student, master, n) + (if si < n { 1int } else { 0int }),
    decreases n,
{
    if n > 0 {
        lemma_apprentices_after_rite(ds, after, student, master, si, n - 1);
        let j = n - 1;
        if j != si {
            if j < si {
                assert(ds[j].id@ != ds[si].id@);
            } else {
                assert(ds[si].id@ != ds[j].id@);
            }
            assert(enrolled(ds[j], student, master) == apprentice_of(ds[j], master));
        }
    }
}

/// A master never holds more than five living apprentices through the rite:
/// when the head makes `master` the master of a disciple, in a roster where
/// no two disciples share an id, `master` then has at most five living
/// non-chore apprentices.
pub proof fn law_master_keeps_at_most_five_apprentices(
    s: GameState,
    student: Seq<char>,
    master: String,
    after: GameState,
    r: Result<String, String>,
)
    requires
        master_outcome(s, student, Some(master), after, r),
        r is Ok,
        ids_distinct(s.disciples@),
    ensures
        apprentices(after.disciples@, master@, after.disciples@.len() as int) <= 5,
{
    let ds = s.disciples@;
    let si = disciple_index(ds, student);
    let mi = disciple_index(ds, master@);
    let a = after.disciples@;
    assert forall|j: int| 0 <= j < ds.len() && j != si implies apprentice_of(#[trigger] a[j], master@) == apprentice_of(ds[j], master@) by {
        if j == mi {
            assert(a[mi] == (Disciple { relations: a[mi].relations, ..ds[mi] }));
        }
    }
    lemma_apprentices_after_rite(ds, a, student, master@, si, ds.len() as int);
}

/// A disciple heads at most one hall: once the head seats `elder` in the hall
/// `building_id`, no hall with another id has `elder` as its elder.
pub proof fn law_elder_heads_one_hall(s: GameState, building_id: Seq<char>, elder: String, after: GameState, r: Result<String, String>)
    requires
        elder_outcome(s, building_id, Some(elder), after, r),
        r is Ok,
    ensures
        forall|j: int|
            0 <= j < after.sect.buildings@.len() && opt_text((#[trigger] after.sect.buildings@[j]).elder_id) == Some(elder@)
                ==> after.sect.buildings@[j].id@ == building_id,
{
    let bs = s.sect.buildings@;
    let bi = crate::sect::building_index(bs, building_id);
    assert forall|j: int|
        0 <= j < after.sect.buildings@.len() && opt_text((#[trigger] after.sect.buildings@[j]).elder_id) == Some(elder@)
            implies after.sect.buildings@[j].id@ == building_id by {
        if j != bi {
            assert(after.sect.buildings@[j] == bs[j]);
            if bs[j].id@ != building_id {
                assert(crate::appointments::elder_elsewhere(bs, building_id, elder@));
            }
        } else {
            assert(crate::sect::is_first_building(bs, building_id, bi));
        }
    }
}

/// Within a month no pair of sects meets twice: after every round, the
/// pairs that have met are all different.
pub proof fn law_no_pair_meets_twice(
    states: Seq<GameState>,
    useds: Seq<Seq<(Seq<char>, Seq<char>)>>,
    tolds: Seq<Option<(Seq<char>, Seq<char>)>>,
    k: int,
)
    requires
        month_rounds(states, useds, tolds),
        0 <= k < useds.len(),
    ensures
        forall|i: int, j: int| 0 <= i < j < useds[k].len() ==> useds[k][i] != useds[k][j],
    decreases k,
{
    if k > 0 {
        law_no_pair_meets_twice(states, useds, tolds, k - 1);
        let i0 = k - 1;
        assert(round_step(states[i0], states[i0 + 1], useds[i0], useds[i0 + 1], tolds[i0]));
        assert(i0 + 1 == k);
        let (fs, roll, idx) = choose|fs: Seq<Faction>, roll: int, idx: int|
            #[trigger] round_drawn(states[k - 1], states[k], useds[k - 1], useds[k], fs, roll, idx, tolds[k - 1]);
        let p = pool(fs, useds[k - 1]);
        assert(pool_weights(p).len() == p.len());
        lemma_pool_fresh(fs, useds[k - 1], idx);
        let u = useds[k - 1];
        assert forall|i: int, j: int| 0 <= i < j < useds[k].len() implies useds[k][i] != useds[k][j] by {
            if j == u.len() {
                assert(useds[k][i] == u[i]);
            } else {
                assert(useds[k][i] == u[i] && useds[k][j] == u[j]);
            }
        }
    }
}

/// A sparring match, away from the prestige limits, adds one point of
/// prestige to the two sects together: two to the winner, one off the loser.
pub proof fn law_spar_adds_one_prestige(old: GameState, new: GameState, a: Faction, b: Faction, a_wins: bool)
    requires
        placed(old, a, b),
        resolved(old, new, a, b, InteractionKind::Spar, a_wins),
        1 <= sect_at(old, a.slot as int).attributes.prestige <= 998,
        1 <= sect_at(old, b.slot as int).attributes.prestige <= 998,
    ensures
        sect_at(new, a.slot as int).attributes.prestige + sect_at(new, b.slot as int).attributes.prestige
            == sect_at(old, a.slot as int).attributes.prestige + sect_at(old, b.slot as int).attributes.prestige + 1,
{
}

/// A defection moves a real member, never a sect's leader, from one sect's
/// roster to the other's: nobody joins or vanishes, and the mover now
/// belongs to the receiving sect.
pub proof fn law_defection_moves_one_member(
    old: GameState,
    new: GameState,
    a: Faction,
    b: Faction,
    text: Seq<char>,
    a_source: bool,
    draw: int,
    k: int,
    p: int,
    n: Disciple,
)
    requires
        defected(old, new, a, b, text, a_source, draw, k, p, n),
    ensures
        new.disciples@.len() + new.npc_disciples@.len() == old.disciples@.len() + old.npc_disciples@.len(),
        !spec_is_leader(roster(old, (if a_source { a.slot } else { b.slot }) as int)[k]),
        n.sect_id matches Some(t) && t@ == (if a_source { b.id@ } else { a.id@ }),
{
    let source = if a_source { a } else { b };
    assert(eligible(old, source.slot as int, true).contains(k));
    crate::interaction::lemma_eligible_qualifies(old, source.slot as int, true, k);
}

/// A decision of the head either changes nothing and tells nothing, or
/// tells exactly one line, uses exactly one decision, and leaves that line
/// last in a chronicle of at most 80 entries.
pub proof fn law_decision_counts_once(before: GameState, after: GameState, id: Seq<char>, arts: Seq<(String, String)>, events: Seq<GameEvent>)
    requires
        decision_outcome(before, after, id, arts, events),
        before.event_log@.len() <= 80,
        before.decisions_used < i32::MAX,
    ensures
        (events.len() == 0 && after == before) || {
            &&& events.len() == 1
            &&& after.decisions_used == before.decisions_used + 1
            &&& after.event_log@.len() <= 80
            &&& after.event_log@.last() == events[0]
        },
{
    if !(before.game_over || before.pending_event is Some) {
        if id == "recruit"@ {
            if before.sect.attributes.silver >= 50 {
                let (mid, text, rs, ts) = choose|mid: GameState, text: Seq<char>, rs: Seq<Disciple>, ts: Seq<Disciple>|
                    #[trigger] notice_posted(before, mid, text, rs, ts) && crate::decision::decision_logged(mid, after, text, events);
                assert(mid.event_log == before.event_log && mid.decisions_used == before.decisions_used);
            }
        } else if id == "mission"@ {
            if !(crate::sect::spec_building_effectiveness(before.sect, "affairs"@) <= 0 || !crate::decision::has_available(before)) {
                let (mid, text, a, b) = choose|mid: GameState, text: Seq<char>, a: int, b: int|
                    #[trigger] commission_done(before, mid, text, a, b) && crate::decision::decision_logged(mid, after, text, events);
                assert(mid.event_log == before.event_log && mid.decisions_used == before.decisions_used);
            }
        } else if id == "rest"@ {
            let (mid, heal) = choose|mid: GameState, heal: int|
                #[trigger] rested(before, mid, heal) && crate::decision::decision_logged(mid, after, crate::decision::rest_text(), events);
            assert(mid.event_log == before.event_log && mid.decisions_used == before.decisions_used);
        } else if id == "research"@ {
            let (mid, hr) = choose|mid: GameState, hr: Result<String, String>| #[trigger] crate::creation::new_research(before, arts, mid, hr)
                && match hr {
                Err(_) => after == before && events.len() == 0,
                Ok(t) => crate::decision::decision_logged(crate::decision::mirrored(mid), after, t@, events),
            };
            assert(mid.event_log == before.event_log && mid.decisions_used == before.decisions_used);
        }
    }
}

/// Every interactive event has its own id, and each offers two choices
/// with different ids.
pub proof fn law_interactive_ids_distinct()
    ensures
        forall|i: int, j: int|
            0 <= i < j < interactive_table().len() ==> (#[trigger] interactive_table()[i]).0 != (#[trigger] interactive_table()[j]).0,
        forall|i: int|
            0 <= i < interactive_table().len() ==> (#[trigger] interactive_table()[i]).4.len() == 2
                && interactive_table()[i].4[0].0 != interactive_table()[i].4[1].0,
{
    reveal_strlit("accept");
    reveal_strlit("buy");
    reveal_strlit("choice_alliance");
    reveal_strlit("choice_cave");
    reveal_strlit("choice_court");
    reveal_strlit("choice_deviation");
    reveal_strlit("choice_herbs");
    reveal_strlit("choice_provocation");
    reveal_strlit("choice_refugees");
    reveal_strlit("choice_rice");
    reveal_strlit("decline");
    reveal_strlit("explore");
    reveal_strlit("fight");
    reveal_strlit("join");
    reveal_strlit("medicine");
    reveal_strlit("ration");
    reveal_strlit("refuse");
    reveal_strlit("seal");
    reveal_strlit("shelter");
    reveal_strlit("stay");
    reveal_strlit("stock");
    reveal_strlit("talk");
    reveal_strlit("transfer");
    let t = interactive_table();
    assert(t.len() == 8);
    assert forall|i: int, j: int| 0 <= i < j < t.len() implies (#[trigger] t[i]).0 != (#[trigger] t[j]).0 by {
            if i == 0 {
                if j == 0 {
                    
                } else if j == 1 {
                    assert(t[0].0.len() != t[1].0.len());
                } else if j == 2 {
                    assert(t[0].0.len() != t[2].0.len());
                } else if j == 3 {
                    assert(t[0].0.len() != t[3].0.len());
                } else if j == 4 {
                    assert(t[0].0.len() != t[4].0.len());
                } else if j == 5 {
                    assert(t[0].0.len() != t[5].0.len());
                } else if j == 6 {
                    assert(t[0].0.len() != t[6].0.len());
                } else if j == 7 {
                    assert(t[0].0.len() != t[7].0.len());
                }
            } else if i == 1 {
                if j == 0 {
                    
                } else if j == 1 {
                    
                } else if j == 2 {
                    assert(t[1].0.len() != t[2].0.len());
                } else if j == 3 {
                    assert(t[1].0.len() != t[3].0.len());
                } else if j == 4 {
                    assert(t[1].0.len() != t[4].0.len());
                } else if j == 5 {
                    assert(t[1].0[7] != t[5].0[7]);
                } else if j == 6 {
                    assert(t[1].0.len() != t[6].0.len());
                } else if j == 7 {
                    assert(t[1].0.len() != t[7].0.len());
                }
            } else if i == 2 {
                if j == 0 {
                    
                } else if j == 1 {
                    
                } else if j == 2 {
                    
                } else if j == 3 {
                    assert(t[2].0.len() != t[3].0.len());
                } else if j == 4 {
                    assert(t[2].0.len() != t[4].0.len());
                } else if j == 5 {
                    assert(t[2].0.len() != t[5].0.len());
                } else if j == 6 {
                    assert(t[2].0.len() != t[6].0.len());
                } else if j == 7 {
                    assert(t[2].0.len() != t[7].0.len());
                }
            } else if i == 3 {
                if j == 0 {
                    
                } else if j == 1 {
                    
                } else if j == 2 {
                    
                } else if j == 3 {
                    
                } else if j == 4 {
                    assert(t[3].0.len() != t[4].0.len());
                } else if j == 5 {
                    assert(t[3].0.len() != t[5].0.len());
                } else if j == 6 {
                    assert(t[3].0[7] != t[6].0[7]);
                } else if j == 7 {
                    assert(t[3].0.len() != t[7].0.len());
                }
            } else if i == 4 {
                if j == 0 {
                    
                } else if j == 1 {
                    
                } else if j == 2 {
                    
                } else if j == 3 {
                    
                } else if j == 4 {
                    
                } else if j == 5 {
                    assert(t[4].0.len() != t[5].0.len());
                } else if j == 6 {
                    assert(t[4].0.len() != t[6].0.len());
                } else if j == 7 {
                    assert(t[4].0[7] != t[7].0[7]);
                }
            } else if i == 5 {
                if j == 0 {
                    
                } else if j == 1 {
                    
                } else if j == 2 {
                    
                } else if j == 3 {
                    
                } else if j == 4 {
                    
                } else if j == 5 {
                    
                } else if j == 6 {
                    assert(t[5].0.len() != t[6].0.len());
                } else if j == 7 {
                    assert(t[5].0.len() != t[7].0.len());
                }
            } else if i == 6 {
                if j == 0 {
                    
                } else if j == 1 {
                    
                } else if j == 2 {
                    
                } else if j == 3 {
                    
                } else if j == 4 {
                    
                } else if j == 5 {
                    
                } else if j == 6 {
                    
                } else if j == 7 {
                    assert(t[6].0.len() != t[7].0.len());
                }
            } else if i == 7 {
                if j == 0 {
                    
                } else if j == 1 {
                    
                } else if j == 2 {
                    
                } else if j == 3 {
                    
                } else if j == 4 {
                    
                } else if j == 5 {
                    
                } else if j == 6 {
                    
                } else if j == 7 {
                    
                }
            }
    }
    assert forall|i: int| 0 <= i < t.len() implies (#[trigger] t[i]).4.len() == 2 && t[i].4[0].0 != t[i].4[1].0 by {
            if i == 0 {
                assert(t[0].4[0].0.len() != t[0].4[1].0.len());
            } else if i == 1 {
                assert(t[1].4[0].0.len() != t[1].4[1].0.len());
            } else if i == 2 {
                assert(t[2].4[0].0[0] != t[2].4[1].0[0]);
            } else if i == 3 {
                assert(t[3].4[0].0.len() != t[3].4[1].0.len());
            } else if i == 4 {
                assert(t[4].4[0].0.len() != t[4].4[1].0.len());
            } else if i == 5 {
                assert(t[5].4[0].0.len() != t[5].4[1].0.len());
            } else if i == 6 {
                assert(t[6].4[0].0.len() != t[6].4[1].0.len());
            } else if i == 7 {
                assert(t[7].4[0].0[0] != t[7].4[1].0[0]);
            }
    }
}

/// No request is heard once the game is over, while a world event waits for
/// an answer, or (for a request that uses a decision) when the month's
/// decisions are spent: it is refused and the save is left as it was.
pub proof fn law_closed_gate_refuses_requests(s: GameState, request: ManagementRequest, after: GameState, r: Result<Vec<GameEvent>, String>)
    requires
        management_outcome(s, request, after, r),
        s.game_over || s.pending_event is Some || (spends_decision(request) && s.decisions_used >= s.max_decisions),
    ensures
        r is Err,
        after == s,
{
}

/// No decision is carried out once the game is over, while a world event
/// waits for an answer, or for an id that names no decision handled here:
/// nothing is told and the save is left as it was.
pub proof fn law_closed_gate_refuses_decisions(before: GameState, after: GameState, id: Seq<char>, arts: Seq<(String, String)>, events: Seq<GameEvent>)
    requires
        decision_outcome(before, after, id, arts, events),
        before.game_over || before.pending_event is Some || (id != "recruit"@ && id != "mission"@ && id != "rest"@ && id != "research"@),
    ensures
        events.len() == 0,
        after == before,
{
}

/// Normalizing a realm list a second time changes nothing: the same realms,
/// ids, names, prosperity, order and population, in the same order.
pub proof fn law_normalizing_twice_changes_nothing(a: Seq<Country>, b: Seq<Country>, c: Seq<Country>)
    requires
        is_normalized_from(a, b),
        is_normalized_from(b, c),
    ensures
        c.len() == b.len(),
        forall|i: int| 0 <= i < c.len() ==> {
            &&& (#[trigger] c[i]).id@ == b[i].id@
            &&& c[i].name@ == b[i].name@
            &&& c[i].prosperity == b[i].prosperity
            &&& c[i].order == b[i].order
            &&& c[i].population == b[i].population
        },
{
    lemma_normalized_is_fixed(a, b);
    assert forall|i: int| 0 <= i < c.len() implies {
        &&& (#[trigger] c[i]).id@ == b[i].id@
        &&& c[i].name@ == b[i].name@
        &&& c[i].prosperity == b[i].prosperity
        &&& c[i].order == b[i].order
        &&& c[i].population == b[i].population
    } by {
        assert(b[i].id@ == b[i].id@);
    }
}

/// At a month's close a sect with no living disciple and fewer than 20
/// silver, or with neither prestige nor morale left, ends in defeat; an
/// ended game stays ended; and the close never touches the treasury or the
/// prestige.
pub proof fn law_month_close_ends_a_fallen_sect(before: GameState, after: GameState, events: Seq<GameEvent>, d: int, h: int, coins: Seq<bool>)
    requires
        month_closed(before, after, events, d, h, coins),
    ensures
        before.game_over ==> after.game_over,
        after.sect.attributes.silver == before.sect.attributes.silver,
        after.sect.attributes.prestige == before.sect.attributes.prestige,
        (crate::sect::alive_count(after.disciples@, after.disciples@.len() as int) == 0 && after.sect.attributes.silver < 20)
            ==> after.game_over && !after.game_won,
        (after.sect.attributes.prestige <= 0 && after.sect.attributes.morale <= 0) ==> after.game_over && !after.game_won,
        0 <= after.sect.attributes.morale <= 100,
        0 <= after.injury <= 100,
{
}

/// Turning the month never revives or overturns an ended game: a defeat
/// stays a defeat, and a game is won only at the turn of December, with at
/// least 500 prestige, this year's place in the top three and the last two
/// recorded tournaments in the top three; the calendar always moves on, and
/// no decision stays used.
pub proof fn law_turn_keeps_defeat(
    before: GameState,
    after: GameState,
    events: Seq<GameEvent>,
    tournament: Option<(i32, i32)>,
    out: Seq<GameEvent>,
)
    requires
        month_turned(before, after, events, tournament, out),
        1 <= before.month <= 12,
        before.year < i32::MAX,
    ensures
        before.game_over ==> after.game_over && after.game_won == before.game_won,
        after.game_won && !before.game_won ==> {
            let h = before.tournament_history@;
            &&& before.month == 12
            &&& before.sect.attributes.prestige >= 500
            &&& crate::month_end::placing(tournament).0 <= 3
            &&& h.len() >= 2 && h[h.len() - 1].rank <= 3 && h[h.len() - 2].rank <= 3
        },
        after.decisions_used == 0,
        after.pending_event is None,
        after.tournament_history == before.tournament_history,
        if before.month == 12 { after.month == 1 && after.year == before.year + 1 } else { after.month == before.month + 1 && after.year == before.year },
{
    let h = before.tournament_history@;
    let ranks = crate::month_end::history_ranks(before);
    if h.len() >= 2 {
        assert(ranks[h.len() - 1] == h[h.len() - 1].rank);
        assert(ranks[h.len() - 2] == h[h.len() - 2].rank);
    }
}

/// A running game that falls at the close of a month ends lost, and the
/// year-end victory of the same month cannot overwrite the defeat or its
/// reason.
pub proof fn law_fall_outranks_victory(
    before: GameState,
    after: GameState,
    events: Seq<GameEvent>,
    scores: Seq<CombatScore>,
    out: Seq<GameEvent>,
    t: Option<TournamentResult>,
    s1: GameState,
    s2: GameState,
    s3: GameState,
    r: Option<GameEvent>,
    closing: Seq<GameEvent>,
    told: Seq<GameEvent>,
    d: int,
    h: int,
    coins: Seq<bool>,
)
    requires
        month_finished(before, after, events, scores, out, t, s1, s2, s3, r, closing, told, d, h, coins),
        !before.game_over,
        s2.game_over,
    ensures
        after.game_over,
        !after.game_won,
        after.game_over_reason@ == s2.game_over_reason@,
{
    if before.month == 12 {
        let res = t->0;
        lemma_held_keeps_calendar(s2, aligned_scores(s2.disciples@, scores), aligned_scores(s2.npc_disciples@, scores), s3, res);
    }
}

/// Every December's settlement holds one tournament and records it, and no
/// other month does: the history grows by exactly the year's record, whose
/// place is the one reported, and the calendar moves to January of the next
/// year.
pub proof fn law_december_holds_a_tournament(
    before: GameState,
    after: GameState,
    events: Seq<GameEvent>,
    scores: Seq<CombatScore>,
    out: Seq<GameEvent>,
    t: Option<TournamentResult>,
    s1: GameState,
    s2: GameState,
    s3: GameState,
    r: Option<GameEvent>,
    closing: Seq<GameEvent>,
    told: Seq<GameEvent>,
    d: int,
    h: int,
    coins: Seq<bool>,
)
    requires
        month_finished(before, after, events, scores, out, t, s1, s2, s3, r, closing, told, d, h, coins),
        1 <= before.month <= 12,
        before.year < i32::MAX,
    ensures
        t is Some <==> before.month == 12,
        before.month == 12 ==> {
            &&& after.tournament_history@.len() == before.tournament_history@.len() + 1
            &&& after.tournament_history@.drop_last() == before.tournament_history@
            &&& after.tournament_history@.last().rank == t->0.rank
            &&& after.tournament_history@.last().year == before.year
            &&& after.month == 1
            &&& after.year == before.year + 1
        },
        before.month != 12 ==> after.tournament_history == before.tournament_history && after.month == before.month + 1,
        after.decisions_used == 0,
        after.pending_event is None,
        after.event_log@.len() <= 80,
{
    crate::month_end::lemma_close_keeps(s1, s2, closing, d, h, coins);
    if before.month == 12 {
        lemma_held_keeps_calendar(s2, aligned_scores(s2.disciples@, scores), aligned_scores(s2.npc_disciples@, scores), s3, t->0);
    }
}

/// A journey is paid once: settling it keeps the task, destination,
/// difficulty, length and encounter fixed on departure, files an outcome
/// (the one already on file, when there is one) and marks it settled; a
/// second settlement pays nothing and changes nothing.
pub proof fn law_journey_pays_once(
    t: Traveller,
    mission: bool,
    j0: Journey,
    j1: Journey,
    j2: Journey,
    roll1: int,
    roll2: int,
    p0: PersonGains,
    s0: SectGains,
    p1: PersonGains,
    s1: SectGains,
    p2: PersonGains,
    s2: SectGains,
    text1: Seq<char>,
    text2: Seq<char>,
)
    requires
        journey_settled(t, mission, j0, j1, roll1, p0, s0, p1, s1, text1),
        journey_settled(t, mission, j1, j2, roll2, p1, s1, p2, s2, text2),
    ensures
        j1.settled,
        !j0.settled ==> (j1.outcome is Some),
        (j0.outcome is Some) ==> j1.outcome == j0.outcome,
        j1.template_id == j0.template_id,
        j1.destination_id == j0.destination_id,
        j1.difficulty == j0.difficulty,
        j1.total_months == j0.total_months,
        j1.encounter_id == j0.encounter_id,
        j2 == j1,
        p2 == p1,
        s2 == s1,
        text2 == "这份旅程卷宗早已验收，不再重复发赏。"@,
        !mission && !j0.settled ==> s1 == s0,
{
}

/// The realms' monthly drift is a function of the state: two runs on the
/// same state leave the same realms, the same report and the same rest.
pub proof fn law_realms_evolve_deterministically(before: GameState, a1: GameState, a2: GameState, r1: Option<GameEvent>, r2: Option<GameEvent>)
    requires
        realms_evolved(before, a1, r1),
        realms_evolved(before, a2, r2),
    ensures
        a1.countries@.len() == a2.countries@.len(),
        forall|i: int| 0 <= i < a1.countries@.len() ==> {
            &&& (#[trigger] a1.countries@[i]).id@ == a2.countries@[i].id@
            &&& a1.countries@[i].name@ == a2.countries@[i].name@
            &&& a1.countries@[i].population == a2.countries@[i].population
            &&& a1.countries@[i].prosperity == a2.countries@[i].prosperity
            &&& a1.countries@[i].order == a2.countries@[i].order
        },
        (GameState { countries: a2.countries, ..a1 }) == a2,
        (r1 is Some) <==> (r2 is Some),
        match (r1, r2) {
            (Some(e1), Some(e2)) => e1.text@ == e2.text@ && e1.category@ == e2.category@ && e1.mood@ == e2.mood@,
            _ => true,
        },
{
    assert forall|i: int| 0 <= i < a1.countries@.len() implies {
        &&& (#[trigger] a1.countries@[i]).id@ == a2.countries@[i].id@
        &&& a1.countries@[i].name@ == a2.countries@[i].name@
        &&& a1.countries@[i].population == a2.countries@[i].population
        &&& a1.countries@[i].prosperity == a2.countries@[i].prosperity
        &&& a1.countries@[i].order == a2.countries@[i].order
    } by {
        assert(a2.countries@[i].id@ == crate::country::normalized_id(before.countries@, i));
    }
}

/// A friendly spar on the road never takes a traveller's last point of qi:
/// whoever had at least one point keeps at least one.
pub proof fn law_friendly_spar_is_nonlethal(
    t: Traveller,
    mission: bool,
    arts: RoadArts,
    rolls: Seq<int>,
    p0: PersonGains,
    s0: SectGains,
    p: PersonGains,
    s: SectGains,
    text: Seq<char>,
    found: Option<Seq<char>>,
)
    requires
        encounter_applied(t, mission, TravelEncounterKind::FriendlySpar, arts, rolls, p0, s0, p, s, text, found),
        t.disciple.attributes.qi.current + p0.qi >= 1,
    ensures
        t.disciple.attributes.qi.current + p.qi >= 1,
        s == s0,
{
}

/// The year-end bracket ranks the whole field: every sect gets its own
/// place, from first to the number of sects.
pub proof fn law_every_sect_has_its_own_place(es: Seq<Entrant>, outss: Seq<Seq<(i32, i32, i32, i32)>>, b: BracketOutcome)
    requires
        bracket_played(es, outss, b),
    ensures
        forall|i: int| 0 <= i < es.len() ==> 1 <= #[trigger] b.places@[i] <= es.len(),
        forall|i: int, k: int| 0 <= i < es.len() && 0 <= k < es.len() && i != k ==> #[trigger] b.places@[i] != #[trigger] b.places@[k],
{
    assert forall|i: int| 0 <= i < es.len() implies 1 <= #[trigger] b.places@[i] <= es.len() by {
        lemma_places_distinct(es, outss, b, i, i);
    }
    assert forall|i: int, k: int| 0 <= i < es.len() && 0 <= k < es.len() && i != k implies #[trigger] b.places@[i] != #[trigger] b.places@[k] by {
        lemma_places_distinct(es, outss, b, i, k);
    }
}

/// The seeding numbers the whole field: every sect gets its own seed, from
/// 1 to the number of sects.
pub proof fn law_every_sect_has_its_own_seed(s: GameState, sc: Seq<i32>, nsc: Seq<i32>, es: Seq<Entrant>)
    requires
        entrants_made(s, sc, nsc, es),
    ensures
        forall|i: int| 0 <= i < es.len() ==> 1 <= #[trigger] es[i].seed <= es.len(),
        forall|i: int, k: int| 0 <= i < es.len() && 0 <= k < es.len() && i != k ==> #[trigger] es[i].seed != #[trigger] es[k].seed,
{
    assert forall|i: int| 0 <= i < es.len() implies 1 <= #[trigger] es[i].seed <= es.len() by {
        lemma_seeds_distinct(s, sc, nsc, es, i, i);
    }
    assert forall|i: int, k: int| 0 <= i < es.len() && 0 <= k < es.len() && i != k implies #[trigger] es[i].seed != #[trigger] es[k].seed by {
        lemma_seeds_distinct(s, sc, nsc, es, i, k);
    }
}

/// A bracket of `2^k` places (`k >= 1`) is seeded fairly: it holds every
/// seed from 1 to its size exactly once, seed 1 in the first place, and in
/// the first round seed `s` meets seed `size + 1 - s`.
pub proof fn law_seeding_is_fair(k: nat)
    requires
        k >= 1,
    ensures
        spec_seeded_positions(vstd::arithmetic::power2::pow2(k) as int).len() == vstd::arithmetic::power2::pow2(k),
        fair_seeding(spec_seeded_positions(vstd::arithmetic::power2::pow2(k) as int)),
{
    lemma_seeding_is_fair(k);
}

/// An interactive event pauses the month before anything else changes: the
/// calendar, the rosters and the sect stay as they were, the event waits for
/// the head's answer and only its announcement is told. An ordinary month
/// goes straight on to its settlement: once its happening is taken in within
/// bounds, no event waits afterwards and the calendar turns one month past
/// the happening's.
pub proof fn law_interactive_event_pauses_month(
    before: GameState,
    after: GameState,
    scores: Seq<CombatScore>,
    r: crate::advance::MonthReport,
    o: MonthOpening,
    ev: RandomEvent,
    roll: int,
    i: int,
    s1: GameState,
    s2: GameState,
    s3: GameState,
    s4: GameState,
    notes: Seq<Seq<char>>,
    s5: GameState,
    mid: GameState,
    lines: Option<Seq<GameEvent>>,
    t: Option<TournamentResult>,
    f1: GameState,
    f2: GameState,
    f3: GameState,
    rep: Option<GameEvent>,
    closing: Seq<GameEvent>,
    all: Seq<GameEvent>,
    d: int,
    h: int,
    coins: Seq<bool>,
)
    requires
        month_advanced(before, after, scores, r, o, ev, roll, i, s1, s2, s3, s4, notes, s5, mid, lines, t, f1, f2, f3, rep, closing, all, d, h, coins),
    ensures
        o is Paused ==> {
            &&& after.year == before.year && after.month == before.month
            &&& after.disciples == before.disciples && after.sect == before.sect
            &&& after.pending_event is Some
            &&& r.events@.len() == 1 && r.tournament is None
        },
        (o is Settle && lines is Some && settle_fits(mid) && 1 <= mid.month <= 12) ==> {
            &&& after.pending_event is None
            &&& after.month == (if mid.month == 12 { 1 } else { mid.month + 1 })
            &&& (t is Some <==> mid.month == 12)
        },
{
    if o is Settle && lines is Some && settle_fits(mid) && 1 <= mid.month <= 12 {
        law_december_holds_a_tournament(mid, after, lines->0, scores, r.events@, t, f1, f2, f3, rep, closing, all, d, h, coins);
    }
}

/// The year-end ranking puts more bout wins first among sects that went out
/// in the same round with the same match wins: whoever of two such sects won
/// strictly more bouts takes a strictly better place.
pub proof fn law_more_bout_wins_place_ahead(es: Seq<Entrant>, outss: Seq<Seq<(i32, i32, i32, i32)>>, r: BracketOutcome, a: int, b: int)
    requires
        bracket_played(es, outss, r),
        0 <= a < es.len(),
        0 <= b < es.len(),
        a != r.champion as int,
        b != r.champion as int,
        r.standings@[a].elimination_round == r.standings@[b].elimination_round,
        r.standings@[a].match_wins == r.standings@[b].match_wins,
        r.standings@[a].bout_wins > r.standings@[b].bout_wins,
    ensures
        r.places@[a] < r.places@[b],
{
    let st = r.standings@;
    let champ = r.champion as int;
    assert forall|j: int| #[trigger] crate::tournament::ahead(es, st, champ, j, a) implies crate::tournament::ahead(es, st, champ, j, b) by {
    }
    assert(crate::tournament::ahead(es, st, champ, a, b));
    assert(!crate::tournament::ahead(es, st, champ, a, a));
    lemma_fewer_ahead(es, st, champ, a, b, es.len() as int);
}

proof fn lemma_fewer_ahead(es: Seq<Entrant>, st: Seq<crate::tournament::Standing>, champ: int, a: int, b: int, n: int)
    requires
        0 <= n,
        0 <= a,
        forall|j: int| #[trigger] crate::tournament::ahead(es, st, champ, j, a) ==> crate::tournament::ahead(es, st, champ, j, b),
        crate::tournament::ahead(es, st, champ, a, b),
        !crate::tournament::ahead(es, st, champ, a, a),
    ensures
        crate::tournament::count_ahead(es, st, champ, a, n) + (if a < n { 1int } else { 0int }) <= crate::tournament::count_ahead(es, st, champ, b, n),
    decreases n,
{
    if n > 0 {
        lemma_fewer_ahead(es, st, champ, a, b, n - 1);
        let _ = crate::tournament::ahead(es, st, champ, n - 1, a);
    }
}

/// Order follows the sects' temper: in a realm whose sects hold a middling
/// morality (mean strictly between 40 and 60), a high morale (mean at least
/// 70) raises order by one point in the month, and a low morale (mean at
/// most 35) lowers it by one, within `0..=100`.
pub proof fn law_morale_moves_order(before: GameState, after: GameState, r: Option<GameEvent>, i: int)
    requires
        realms_evolved(before, after, r),
        before.npc_sects@.len() < 0x1000_0000,
        0 <= i < after.countries@.len(),
        ({
            let ss = crate::country::all_sects(before);
            let id = crate::country::normalized_id(before.countries@, i);
            let n = ss.len() as int;
            let count = crate::country::sect_count(ss, id, n);
            let morality = crate::country::morality_total(ss, id, n);
            count >= 1 && 40 * count < morality < 60 * count
        }),
    ensures
        ({
            let ss = crate::country::all_sects(before);
            let id = crate::country::normalized_id(before.countries@, i);
            let n = ss.len() as int;
            let count = crate::country::sect_count(ss, id, n);
            let morale = crate::country::morale_total(ss, id, n);
            &&& morale >= 70 * count ==> after.countries@[i].order == clamp_int(normalized_order(before.countries@, i) + 1, 0, 100)
            &&& morale <= 35 * count ==> after.countries@[i].order == clamp_int(normalized_order(before.countries@, i) - 1, 0, 100)
        }),
{
    let ss = crate::country::all_sects(before);
    let id = crate::country::normalized_id(before.countries@, i);
    let n = ss.len() as int;
    crate::country::lemma_totals_bounded(ss, id, n);
    let count = crate::country::sect_count(ss, id, n);
    assert(after.countries@[i].order == crate::country::evolved_order(before, i));
    assert(count <= 0x1000_0001);
    assert(clamp_int(60 * count, i64::MIN as int, i64::MAX as int) == 60 * count);
    assert(clamp_int(40 * count, i64::MIN as int, i64::MAX as int) == 40 * count);
    assert(clamp_int(70 * count, i64::MIN as int, i64::MAX as int) == 70 * count);
    assert(clamp_int(35 * count, i64::MIN as int, i64::MAX as int) == 35 * count);
}

/// In a border quarrel the stronger side encroaches: the side with strictly
/// more prestige (or, with equal prestige, at least as much morality) gains
/// one prestige and the other loses two, within `0..=1000`.
pub proof fn law_stronger_side_encroaches(old: GameState, new: GameState, a: Faction, b: Faction, first: bool)
    requires
        resolved(old, new, a, b, InteractionKind::BorderConflict, first),
        placed(old, a, b),
    ensures
        ({
            let pa = sect_at(old, a.slot as int).attributes.prestige as int;
            let pb = sect_at(old, b.slot as int).attributes.prestige as int;
            let na = sect_at(new, a.slot as int).attributes.prestige as int;
            let nb = sect_at(new, b.slot as int).attributes.prestige as int;
            if a.prestige > b.prestige || (a.prestige == b.prestige && a.morality >= b.morality) {
                na == clamp_int(pa + 1, 0, 1000) && nb == clamp_int(pb - 2, 0, 1000)
            } else {
                na == clamp_int(pa - 2, 0, 1000) && nb == clamp_int(pb + 1, 0, 1000)
            }
        }),
{
}

/// A villainous sect's arbitration fills its treasury: the silver rises by
/// exactly the 18-base output at the duty's effectiveness (so by at least
/// one), and morality falls by the 3-base output, held within `0..=100`.
pub proof fn law_villainous_arbitration_pays(
    s: GameState,
    building_id: Seq<char>,
    after: GameState,
    r: Result<String, String>,
    bi: int,
    ei: int,
    e: int,
)
    requires
        elder_duty_outcome(s, building_id, "arbitrate"@, after, r),
        duty_ready(s, building_id, "arbitrate"@) == Ok::<(int, int, int), Seq<char>>((bi, ei, e)),
        s.sect.moral_direction == crate::model::MoralDirection::Villainous,
        s.sect.attributes.silver + crate::elder_duties::scaled(18, e) <= i32::MAX,
    ensures
        after.sect.attributes.silver == s.sect.attributes.silver + crate::elder_duties::scaled(18, e),
        after.sect.attributes.silver >= s.sect.attributes.silver + 1,
        after.sect.attributes.morality == clamp_int(s.sect.attributes.morality - crate::elder_duties::scaled(3, e), 0, 100),
{
    reveal_strlit("arbitrate");
    reveal_strlit("instruct");
    reveal_strlit("drill");
    reveal_strlit("curate");
    reveal_strlit("comprehend");
    reveal_strlit("audit");
    reveal_strlit("purchase");
    reveal_strlit("treat");
    reveal_strlit("brew");
    reveal_strlit("correspond");
    reveal_strlit("scout");
    reveal_strlit("recruit");
    assert("arbitrate"@[0] != "instruct"@[0]);
    assert("arbitrate"@[0] != "drill"@[0]);
    assert("arbitrate"@[0] != "curate"@[0]);
    assert("arbitrate"@[0] != "comprehend"@[0]);
    assert("arbitrate"@[1] != "audit"@[1]);
    assert("arbitrate"@[0] != "purchase"@[0]);
    assert("arbitrate"@[0] != "treat"@[0]);
    assert("arbitrate"@[0] != "brew"@[0]);
    assert("arbitrate"@[0] != "correspond"@[0]);
    assert("arbitrate"@[0] != "scout"@[0]);
    assert("arbitrate"@[0] != "recruit"@[0]);
    let (mid, phrase) = choose|mid: GameState, phrase: Result<Seq<char>, Seq<char>>|
        #[trigger] duty_effect(s, e, "arbitrate"@, s.sect.buildings@[bi].duty_target, mid, phrase) && match phrase {
            Err(t) => crate::management::refused(r, t) && after == mid,
            Ok(p) => {
                &&& r matches Ok(t) && t@ == s.disciples@[ei].name@ + "本月"@ + p + "。"@
                &&& crate::elder_duties::finished(mid, bi, after)
            },
        };
    assert(mid == crate::elder_duties::arbitrated(s, e).0);
}

/// A partly successful mission pays its sect at most half (rounded down) of
/// what a full success of the same traveller, journey and margin pays, and
/// so strictly less whenever a success pays anything.
pub proof fn law_partial_mission_pays_half(t: Traveller, j: Journey, margin: int)
    requires
        0 <= j.total_months <= 10_000,
        0 <= j.difficulty <= 10_000,
        0 <= t.external_percent <= 1000,
    ensures
        crate::journey::mission_silver(t, j, crate::actions::JourneyOutcome::Partial, margin)
            <= crate::journey::mission_silver(t, j, crate::actions::JourneyOutcome::Success, margin) / 2,
        crate::journey::mission_silver(t, j, crate::actions::JourneyOutcome::Success, margin) >= 1 ==> crate::journey::mission_silver(
            t,
            j,
            crate::actions::JourneyOutcome::Partial,
            margin,
        ) < crate::journey::mission_silver(t, j, crate::actions::JourneyOutcome::Success, margin),
{
    let raw = 28 + j.total_months * 14 + crate::country::trunc_div(j.difficulty as int, 3);
    let bonus = crate::actions::spec_department_bonus(t.disciple.department, crate::model::ActionKind::SectMission);
    let base = crate::actions::spec_department_output(raw, bonus);
    assert(28 <= raw <= 200_000);
    assert(0 <= bonus <= 15);
    assert(raw * bonus <= 3_000_000) by (nonlinear_arith)
        requires
            28 <= raw <= 200_000,
            0 <= bonus <= 15;
    assert(raw * bonus >= 0) by (nonlinear_arith)
        requires
            28 <= raw,
            0 <= bonus;
    assert(28 <= base <= 300_000);
    let q = crate::journey::mission_quality(t, margin);
    assert(60 <= q <= 120);
    let x = base * q;
    assert(0 <= x <= 36_000_000) by (nonlinear_arith)
        requires
            28 <= base <= 300_000,
            60 <= q <= 120,
            x == base * q;
    let sr = x / 100;
    let pr = x / 200;
    assert(2 * pr <= sr) by (nonlinear_arith)
        requires
            0 <= x,
            sr == x / 100,
            pr == x / 200;
    assert(crate::country::trunc_div(x, 100) == sr);
    assert(crate::country::trunc_div(x, 200) == pr);
    let dir: int = match t.moral_direction {
        crate::model::MoralDirection::Righteous => 90int,
        crate::model::MoralDirection::Neutral => 100,
        crate::model::MoralDirection::Villainous => 120,
    };
    assert(0 <= sr <= 360_000);
    assert(0 <= sr * dir <= 43_200_000) by (nonlinear_arith)
        requires
            0 <= sr <= 360_000,
            90 <= dir <= 120;
    assert(0 <= pr * dir <= sr * dir) by (nonlinear_arith)
        requires
            0 <= 2 * pr <= sr,
            90 <= dir <= 120;
    assert(crate::sect::sat32(sr * dir) == sr * dir);
    assert(crate::sect::sat32(pr * dir) == pr * dir);
    let xs = (sr * dir) / 100;
    let xp = (pr * dir) / 100;
    assert(2 * xp <= xs) by (nonlinear_arith)
        requires
            0 <= 2 * pr <= sr,
            90 <= dir <= 120,
            xs == (sr * dir) / 100,
            xp == (pr * dir) / 100;
    assert(crate::country::trunc_div(sr * dir, 100) == xs);
    assert(crate::country::trunc_div(pr * dir, 100) == xp);
    let pc = t.external_percent as int;
    assert(0 <= xs <= 432_000);
    lemma_half_scale(xp, xs, pc);
}

proof fn lemma_half_scale(xp: int, xs: int, pc: int)
    requires
        0 <= 2 * xp <= xs <= 432_000,
        0 <= pc <= 1000,
    ensures
        spec_scale_positive(xp, pc) <= spec_scale_positive(xs, pc) / 2,
        spec_scale_positive(xs, pc) >= 1 ==> spec_scale_positive(xp, pc) < spec_scale_positive(xs, pc),
{
    if xp > 0 {
        let a = xp * pc / 100;
        let b = xs * pc / 100;
        assert(0 <= 2 * a <= b <= 432_000_000) by (nonlinear_arith)
            requires
                0 < 2 * xp <= xs <= 432_000,
                0 <= pc <= 1000,
                a == xp * pc / 100,
                b == xs * pc / 100;
        assert(clamp_int(xp * pc / 100, 0, i32::MAX as int) == a);
        assert(clamp_int(xs * pc / 100, 0, i32::MAX as int) == b);
    } else {
        if xs > 0 {
            assert(xs * pc >= 0) by (nonlinear_arith)
                requires
                    xs > 0,
                    pc >= 0;
        }
    }
}

/// The year-end ranking puts the later stage first and, within a stage, more
/// match wins first: of two sects that were not champion, the one that went
/// out in a later round, or in the same round with strictly more match wins,
/// takes a strictly better place.
pub proof fn law_later_stage_or_more_match_wins_place_ahead(
    es: Seq<Entrant>,
    outss: Seq<Seq<(i32, i32, i32, i32)>>,
    r: BracketOutcome,
    a: int,
    b: int,
)
    requires
        bracket_played(es, outss, r),
        0 <= a < es.len(),
        0 <= b < es.len(),
        a != r.champion as int,
        b != r.champion as int,
        r.standings@[a].elimination_round > r.standings@[b].elimination_round || (r.standings@[a].elimination_round
            == r.standings@[b].elimination_round && r.standings@[a].match_wins > r.standings@[b].match_wins),
    ensures
        r.places@[a] < r.places@[b],
{
    let st = r.standings@;
    let champ = r.champion as int;
    assert forall|j: int| #[trigger] crate::tournament::ahead(es, st, champ, j, a) implies crate::tournament::ahead(es, st, champ, j, b) by {
    }
    assert(crate::tournament::ahead(es, st, champ, a, b));
    assert(!crate::tournament::ahead(es, st, champ, a, a));
    lemma_fewer_ahead(es, st, champ, a, b, es.len() as int);
}

/// Prosperity follows the sects' spirit: in a realm whose sects' warehouses
/// work at a middling mean effectiveness (strictly between 75 and 115), a
/// high morale (mean at least 65) raises prosperity by one point in the
/// month, and a low morale (mean at most 40) lowers it by one, within
/// `0..=100`.
pub proof fn law_morale_moves_prosperity(before: GameState, after: GameState, r: Option<GameEvent>, i: int)
    requires
        realms_evolved(before, after, r),
        before.npc_sects@.len() < 0x1000_0000,
        0 <= i < after.countries@.len(),
        ({
            let ss = crate::country::all_sects(before);
            let id = crate::country::normalized_id(before.countries@, i);
            let n = ss.len() as int;
            let count = crate::country::sect_count(ss, id, n);
            let w = crate::country::warehouse_total(ss, id, n);
            count >= 1 && 75 * count < w < 115 * count
        }),
    ensures
        ({
            let ss = crate::country::all_sects(before);
            let id = crate::country::normalized_id(before.countries@, i);
            let n = ss.len() as int;
            let count = crate::country::sect_count(ss, id, n);
            let morale = crate::country::morale_total(ss, id, n);
            &&& morale >= 65 * count ==> after.countries@[i].prosperity == clamp_int(normalized_prosperity(before.countries@, i) + 1, 0, 100)
            &&& morale <= 40 * count ==> after.countries@[i].prosperity == clamp_int(normalized_prosperity(before.countries@, i) - 1, 0, 100)
        }),
{
    let ss = crate::country::all_sects(before);
    let id = crate::country::normalized_id(before.countries@, i);
    let n = ss.len() as int;
    crate::country::lemma_totals_bounded(ss, id, n);
    let count = crate::country::sect_count(ss, id, n);
    assert(after.countries@[i].prosperity == crate::country::evolved_prosperity(before, i));
    assert(count <= 0x1000_0001);
    assert(clamp_int(65 * count, i64::MIN as int, i64::MAX as int) == 65 * count);
    assert(clamp_int(40 * count, i64::MIN as int, i64::MAX as int) == 40 * count);
    assert(clamp_int(115 * count, i64::MIN as int, i64::MAX as int) == 115 * count);
    assert(clamp_int(75 * count, i64::MIN as int, i64::MAX as int) == 75 * count);
}

/// A righteous sect's arbitration raises its morality by the 3-base output
/// at the duty's effectiveness (within `0..=100`) and leaves its silver and
/// morale; a neutral sect's raises its morale by the 2-base output (within
/// `0..=100`) and leaves its silver and morality.
pub proof fn law_upright_arbitration_pays_no_silver(
    s: GameState,
    building_id: Seq<char>,
    after: GameState,
    r: Result<String, String>,
    bi: int,
    ei: int,
    e: int,
)
    requires
        elder_duty_outcome(s, building_id, "arbitrate"@, after, r),
        duty_ready(s, building_id, "arbitrate"@) == Ok::<(int, int, int), Seq<char>>((bi, ei, e)),
        s.sect.moral_direction != crate::model::MoralDirection::Villainous,
    ensures
        after.sect.attributes.silver == s.sect.attributes.silver,
        s.sect.moral_direction == crate::model::MoralDirection::Righteous ==> {
            &&& after.sect.attributes.morality == clamp_int(s.sect.attributes.morality + crate::elder_duties::scaled(3, e), 0, 100)
            &&& after.sect.attributes.morale == clamp_int(s.sect.attributes.morale as int, 0, 100)
        },
        s.sect.moral_direction == crate::model::MoralDirection::Neutral ==> {
            &&& after.sect.attributes.morale == clamp_int(s.sect.attributes.morale + crate::elder_duties::scaled(2, e), 0, 100)
            &&& after.sect.attributes.morality == clamp_int(s.sect.attributes.morality as int, 0, 100)
        },
{
    reveal_strlit("arbitrate");
    reveal_strlit("instruct");
    reveal_strlit("drill");
    reveal_strlit("curate");
    reveal_strlit("comprehend");
    reveal_strlit("audit");
    reveal_strlit("purchase");
    reveal_strlit("treat");
    reveal_strlit("brew");
    reveal_strlit("correspond");
    reveal_strlit("scout");
    reveal_strlit("recruit");
    assert("arbitrate"@[0] != "instruct"@[0]);
    assert("arbitrate"@[0] != "drill"@[0]);
    assert("arbitrate"@[0] != "curate"@[0]);
    assert("arbitrate"@[0] != "comprehend"@[0]);
    assert("arbitrate"@[1] != "audit"@[1]);
    assert("arbitrate"@[0] != "purchase"@[0]);
    assert("arbitrate"@[0] != "treat"@[0]);
    assert("arbitrate"@[0] != "brew"@[0]);
    assert("arbitrate"@[0] != "correspond"@[0]);
    assert("arbitrate"@[0] != "scout"@[0]);
    assert("arbitrate"@[0] != "recruit"@[0]);
    let (mid, phrase) = choose|mid: GameState, phrase: Result<Seq<char>, Seq<char>>|
        #[trigger] duty_effect(s, e, "arbitrate"@, s.sect.buildings@[bi].duty_target, mid, phrase) && match phrase {
            Err(t) => crate::management::refused(r, t) && after == mid,
            Ok(p) => {
                &&& r matches Ok(t) && t@ == s.disciples@[ei].name@ + "本月"@ + p + "。"@
                &&& crate::elder_duties::finished(mid, bi, after)
            },
        };
    assert(mid == crate::elder_duties::arbitrated(s, e).0);
}

} // verus!
