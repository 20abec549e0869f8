//! The close of a month: morale drifts, the head's wounds mend, disciples
//! desert, an empty treasury drives disciples away, and the sect may fall.
use vstd::prelude::*;
use rand::rngs::StdRng;
use crate::chance::rand_range;
use crate::country::{clamp_int, evolve_monthly, realms_evolved};
use crate::disciple::{check_desertion, deserter_names, stayers};
use crate::game::{GameState, TournamentRecord};
use crate::tournament::{align_scores, aligned_scores, lemma_held_keeps_calendar, lemma_modest_scores_fit, run_tournament, scores_modest, tournament_held, CombatScore, TournamentResult};
use crate::model::{Disciple, GameEvent};
use crate::sect::{alive_count, count_alive, SectAttributes, SectState};
use crate::text::text_eq;
use crate::decision::mirrored;
use crate::management::{int_string, int_text};
use crate::requests::{copy_event, trim_log, trimmed_log};
use crate::sect::sync_legacy_fields;
use crate::chance::chance;
use crate::event::{EventChoice, EventEffect, RandomEvent, interactive_categories, interactive_ids, interactive_weights, lands_at, trigger_interactive_event, weight_total, PendingWorldEvent};
use crate::milestones::{interactive_category, spec_interactive_category};

verus! {

/// `x`, or zero when it is negative.
pub open spec fn floor0(x: int) -> int {
    if x < 0 {
        0
    } else {
        x
    }
}

/// The ids of the first `limit` living disciples among the first `n`.
pub open spec fn first_alive_ids(ds: Seq<Disciple>, limit: int, n: int) -> Seq<Seq<char>>
    decreases n,
{
    if n <= 0 {
        Seq::empty()
    } else {
        let before = first_alive_ids(ds, limit, n - 1);
        if ds[n - 1].alive && before.len() < limit {
            before.push(ds[n - 1].id@)
        } else {
            before
        }
    }
}

/// The first `n` disciples without those whose id is in `ids`.
pub open spec fn kept_without(ds: Seq<Disciple>, ids: Seq<Seq<char>>, n: int) -> Seq<Disciple>
    decreases n,
{
    if n <= 0 {
        Seq::empty()
    } else if ids.contains(ds[n - 1].id@) {
        kept_without(ds, ids, n - 1)
    } else {
        kept_without(ds, ids, n - 1).push(ds[n - 1])
    }
}

/// How many disciples an empty treasury drives away: a third of the
/// living, at least one.
pub open spec fn leave_count(alive: int) -> int {
    if alive / 3 < 1 {
        1
    } else {
        alive / 3
    }
}

/// The roster after an empty treasury: the first `leave_count` living
/// disciples leave, and with them any disciple that shares one of their ids.
pub open spec fn after_departures(ds: Seq<Disciple>) -> Seq<Disciple> {
    let alive = alive_count(ds, ds.len() as int);
    kept_without(ds, first_alive_ids(ds, leave_count(alive), ds.len() as int), ds.len() as int)
}

fn alive_ids(ds: &Vec<Disciple>, limit: usize) -> (r: Vec<String>)
    ensures
        r@.map_values(|s: String| s@) == first_alive_ids(ds@, limit as int, ds@.len() as int),
{
    let mut r: Vec<String> = Vec::new();
    let mut i: usize = 0;
    while i < ds.len()
        invariant
            i <= ds@.len(),
            r@.map_values(|s: String| s@) == first_alive_ids(ds@, limit as int, i as int),
        decreases ds@.len() - i,
    {
        if ds[i].alive && r.len() < limit {
            r.push(ds[i].id.clone());
        }
        i = i + 1;
        proof {
            assert(r@.map_values(|s: String| s@) =~= first_alive_ids(ds@, limit as int, i as int));
        }
    }
    r
}

fn listed(ids: &Vec<String>, id: &str) -> (r: bool)
    ensures
        r == ids@.map_values(|s: String| s@).contains(id@),
{
    let mut i: usize = 0;
    while i < ids.len()
        invariant
            i <= ids@.len(),
            forall|j: int| 0 <= j < i ==> (#[trigger] ids@[j])@ != id@,
        decreases ids@.len() - i,
    {
        if text_eq(ids[i].as_str(), id) {
            proof {
                assert(ids@.map_values(|s: String| s@)[i as int] == id@);
            }
            return true;
        }
        i = i + 1;
    }
    false
}

/// Sends away the disciples an empty treasury drives off (see
/// `after_departures`).
pub fn depart_unpaid(ds: &mut Vec<Disciple>)
    ensures
        final(ds)@ == after_departures(old(ds)@),
{
    let alive = count_alive(ds);
    let count = if alive / 3 < 1 { 1 } else { alive / 3 };
    let leaving = alive_ids(ds, count);
    let ghost ids = leaving@.map_values(|s: String| s@);
    let total: usize = ds.len();
    let ghost start = ds@;
    let mut roster: Vec<Disciple> = Vec::new();
    std::mem::swap(&mut roster, ds);
    let mut i: usize = 0;
    while roster.len() > 0
        invariant
            0 <= i <= start.len(),
            total == start.len(),
            roster@ == start.skip(i as int),
            ds@ == kept_without(start, ids, i as int),
            ids == leaving@.map_values(|s: String| s@),
        decreases roster@.len(),
    {
        let d = roster.remove(0);
        proof {
            assert(d == start[i as int]);
        }
        if !listed(&leaving, d.id.as_str()) {
            ds.push(d);
        }
        i = i + 1;
        proof {
            assert(roster@ =~= start.skip(i as int));
        }
    }
    proof {
        assert(start.skip(i as int).len() == 0);
    }
}

/// A chronicle entry as plain values: text, tone, category, year and month.
pub open spec fn entry_view(e: GameEvent) -> (Seq<char>, Seq<char>, Seq<char>, i32, i32) {
    (e.text@, e.mood@, e.category@, e.year, e.month)
}

/// The lines of a month's close: one for each deserter, then one when the
/// treasury drove disciples away.
pub open spec fn month_end_lines(names: Seq<Seq<char>>, departed: bool, year: i32, month: i32) -> Seq<(Seq<char>, Seq<char>, Seq<char>, i32, i32)> {
    names.map_values(|n: Seq<char>| (n + "叛出师门，不知所踪！"@, "bad"@, "sect"@, year, month)) + (if departed {
        seq![("库银见底，数名弟子辞别而去……"@, "bad"@, "sect"@, year, month)]
    } else {
        Seq::empty()
    })
}

/// Why a sect without disciples or silver ends.
pub open spec fn deserted_reason() -> Seq<char> {
    "门中无弟子，库银枯竭。山门冷落，掌门黯然隐退……"@
}

/// Why a sect without standing or spirit ends.
pub open spec fn fallen_reason() -> Seq<char> {
    "江湖声望尽失，门人志气消沉。本派终究未能撑过难关。"@
}

/// The month closed with morale drift `d` (`-3..=3`), healing `h` (`2..=5`)
/// and desertion coins `coins`: morale moves by `d` within `0..=100`; the
/// wounds mend by `h` within `0..=100`; the deserters (and the dead) leave the
/// roster, each deserter costing 5 morale; with the treasury at or below zero
/// and more than two living disciples, morale drops by 10 more and a third of
/// the living (at least one) leave; the sect falls when nobody lives and
/// fewer than 20 silver remain, or when prestige and morale are both spent
/// (the later reason standing).
pub open spec fn month_closed(before: GameState, after: GameState, events: Seq<GameEvent>, d: int, h: int, coins: Seq<bool>) -> bool {
    let a = before.sect.attributes;
    let m1 = clamp_int(a.morale + d, 0, 100);
    let n0 = before.disciples@.len() as int;
    let ds1 = stayers(before.disciples@, coins, n0);
    let names = deserter_names(before.disciples@, coins, n0);
    let m2 = floor0(m1 - 5 * names.len());
    let departed = a.silver <= 0 && alive_count(ds1, ds1.len() as int) > 2;
    let m3 = if departed {
        floor0(m2 - 10)
    } else {
        m2
    };
    let ds2 = if departed {
        after_departures(ds1)
    } else {
        ds1
    };
    let deserted = alive_count(ds2, ds2.len() as int) == 0 && a.silver < 20;
    let fallen = a.prestige <= 0 && m3 <= 0;
    &&& -3 <= d <= 3
    &&& 2 <= h <= 5
    &&& coins.len() == n0
    &&& after.disciples@ == ds2
    &&& after.game_over_reason@ == (if fallen {
        fallen_reason()
    } else if deserted {
        deserted_reason()
    } else {
        before.game_over_reason@
    })
    &&& after == GameState {
        disciples: after.disciples,
        injury: clamp_int(before.injury - h, 0, 100) as i32,
        sect: SectState { attributes: SectAttributes { morale: m3 as i32, ..a }, ..before.sect },
        game_over: before.game_over || deserted || fallen,
        game_won: if deserted || fallen {
            false
        } else {
            before.game_won
        },
        game_over_reason: after.game_over_reason,
        ..before
    }
    &&& events.map_values(|e: GameEvent| entry_view(e)) == month_end_lines(names, departed, before.year, before.month)
}

fn sect_event(text: String, mood: &str, year: i32, month: i32) -> (e: GameEvent)
    ensures
        entry_view(e) == (text@, mood@, "sect"@, year, month),
{
    GameEvent { text, mood: String::from_str(mood), year, month, category: String::from_str("sect") }
}

/// Closes the month (see `month_closed`): morale drift, the head's healing,
/// desertion, an empty treasury, and the checks for the sect's fall.
pub fn settle_month_end(rng: &mut StdRng, state: &mut GameState) -> (events: Vec<GameEvent>)
    ensures
        exists|d: int, h: int, coins: Seq<bool>| #[trigger] month_closed(*old(state), *final(state), events@, d, h, coins),
{
    let ghost start = *state;
    let d = rand_range(rng, -3, 3);
    let m: i32 = state.sect.attributes.morale;
    let m1: i64 = m as i64 + d as i64;
    state.sect.attributes.morale = if m1 < 0 { 0 } else if m1 > 100 { 100 } else { m1 as i32 };
    let h = rand_range(rng, 2, 5);
    let v: i64 = state.injury as i64 - h as i64;
    state.injury = if v < 0 { 0 } else if v > 100 { 100 } else { v as i32 };
    let names = check_desertion(rng, &mut state.disciples);
    let ghost coins = choose|coins: Seq<bool>| {
        &&& coins.len() == start.disciples@.len()
        &&& state.disciples@ == stayers(start.disciples@, coins, coins.len() as int)
        &&& names@.map_values(|s: String| s@) == deserter_names(start.disciples@, coins, coins.len() as int)
    };
    let ghost m_after_drift = state.sect.attributes.morale as int;
    let ghost pre = *state;
    proof {
        assert(pre.year == start.year && pre.month == start.month);
    }
    let mut events: Vec<GameEvent> = Vec::new();
    let mut k: usize = 0;
    while k < names.len()
        invariant
            k <= names@.len(),
            0 <= m_after_drift <= 100,
            state.sect.attributes.morale == floor0(m_after_drift - 5 * k),
            events@.map_values(|e: GameEvent| entry_view(e)) == names@.map_values(|s: String| s@).take(k as int).map_values(
                |n: Seq<char>| (n + "叛出师门，不知所踪！"@, "bad"@, "sect"@, state.year, state.month),
            ),
            *state == (GameState {
                sect: SectState {
                    attributes: SectAttributes { morale: state.sect.attributes.morale, ..pre.sect.attributes },
                    ..pre.sect
                },
                ..pre
            }),
        decreases names@.len() - k,
    {
        let mut t = names[k].clone();
        t.append("叛出师门，不知所踪！");
        let ghost prev = events@;
        let e = sect_event(t, "bad", state.year, state.month);
        events.push(e);
        let mm: i32 = state.sect.attributes.morale - 5;
        state.sect.attributes.morale = if mm < 0 { 0 } else { mm };
        k = k + 1;
        proof {
            let nv = names@.map_values(|s: String| s@);
            let f = |n: Seq<char>| (n + "叛出师门，不知所踪！"@, "bad"@, "sect"@, state.year, state.month);
            assert(nv.take(k as int) =~= nv.take(k - 1).push(nv[k - 1]));
            assert(nv.take(k as int).map_values(f) =~= nv.take(k - 1).map_values(f).push(f(nv[k - 1])));
            assert(events@.map_values(|e: GameEvent| entry_view(e)) =~= prev.map_values(|e: GameEvent| entry_view(e)).push(entry_view(events@[k - 1])));
            assert(events@.map_values(|e: GameEvent| entry_view(e)) =~= names@.map_values(|s: String| s@).take(k as int).map_values(
                |n: Seq<char>| (n + "叛出师门，不知所踪！"@, "bad"@, "sect"@, state.year, state.month),
            ));
        }
    }
    proof {
        assert(names@.map_values(|s: String| s@).take(k as int) =~= names@.map_values(|s: String| s@));
    }
    let ghost before_departure = events@;
    let mut departed = false;
    if state.sect.attributes.silver <= 0 {
        let alive = count_alive(&state.disciples);
        if alive > 2 {
            departed = true;
            let mm: i32 = state.sect.attributes.morale - 10;
            state.sect.attributes.morale = if mm < 0 { 0 } else { mm };
            depart_unpaid(&mut state.disciples);
            let e = sect_event(String::from_str("库银见底，数名弟子辞别而去……"), "bad", state.year, state.month);
            events.push(e);
        }
    }
    proof {
        assert(events@.map_values(|e: GameEvent| entry_view(e)) =~= month_end_lines(
            names@.map_values(|s: String| s@),
            departed,
            start.year,
            start.month,
        ));
    }
    let alive = count_alive(&state.disciples);
    if alive == 0 && state.sect.attributes.silver < 20 {
        state.game_over = true;
        state.game_won = false;
        state.game_over_reason = String::from_str("门中无弟子，库银枯竭。山门冷落，掌门黯然隐退……");
    }
    if state.sect.attributes.prestige <= 0 && state.sect.attributes.morale <= 0 {
        state.game_over = true;
        state.game_won = false;
        state.game_over_reason = String::from_str("江湖声望尽失，门人志气消沉。本派终究未能撑过难关。");
    }
    proof {
        assert(month_closed(start, *state, events@, d as int, h as int, coins));
    }
    events
}

/// The year's closing line for the tournament place `rank` among `total`
/// sects.
pub open spec fn year_end_text(year: int, rank: int, total: int) -> Seq<char> {
    if year == 2 {
        "两载经营，本派已在江湖立稳山门。第二届论剑名列第"@ + int_text(rank) + "位，共"@ + int_text(total) + "派参与。"@
    } else if year % 5 == 0 {
        int_text(year) + "年经营，本派已历"@ + int_text(year) + "届论剑。本届论剑名列第"@ + int_text(rank)
            + "位，声望与实力已为江湖所公认。"@
    } else {
        "又一年除夕，本派在年终论剑中名列第"@ + int_text(rank) + "位。门人守岁共饮，静待来年。"@
    }
}

/// The places of the save's tournaments so far, oldest first.
pub open spec fn history_ranks(g: GameState) -> Seq<i32> {
    g.tournament_history@.map_values(|t: TournamentRecord| t.rank)
}

/// How many of the last two tournaments in `ranks` ended in the top three.
pub open spec fn recent_podiums(ranks: Seq<i32>) -> int {
    let n = ranks.len() as int;
    (if n >= 1 && ranks[n - 1] <= 3 {
        1int
    } else {
        0int
    }) + (if n >= 2 && ranks[n - 2] <= 3 {
        1int
    } else {
        0int
    })
}

/// The words of a victory with `prestige` points of standing.
pub open spec fn victory_reason(prestige: int) -> Seq<char> {
    "本派连续三届论剑位列三甲，声望盈"@ + int_text(prestige) + "，威震江湖。门中众长老共劝掌门封禅退隐，立此为万世之表。"@
}

/// The tournament place and field of the year, one of one when none was
/// held.
pub open spec fn placing(tournament: Option<(i32, i32)>) -> (int, int) {
    match tournament {
        Some(t) => (t.0 as int, t.1 as int),
        None => (1, 1),
    }
}

/// The game is won at this turn: it is December, the game still runs, the
/// last two tournaments of `ranks` (this year's last) and this year's place
/// are in the top three, and prestige is at least 500.
pub open spec fn wins_at_turn(before: GameState, tournament: Option<(i32, i32)>, ranks: Seq<i32>) -> bool {
    &&& before.month == 12
    &&& !before.game_over
    &&& recent_podiums(ranks) == 2
    &&& placing(tournament).0 <= 3
    &&& before.sect.attributes.prestige >= 500
}

/// The lines the turn of the month adds after the month's own: in December
/// of a running game the year's closing line and, on victory, its
/// proclamation; on entering a new year, its heading.
pub open spec fn turn_lines(before: GameState, tournament: Option<(i32, i32)>, ranks: Seq<i32>) -> Seq<(Seq<char>, Seq<char>, Seq<char>, i32, i32)> {
    let (rank, total) = placing(tournament);
    let year_end = before.month == 12 && !before.game_over;
    let closing = if year_end {
        seq![(year_end_text(before.year as int, rank, total), "good"@, "sect"@, before.year, before.month)]
    } else {
        Seq::empty()
    };
    let victory = if wins_at_turn(before, tournament, ranks) {
        seq![(
            "【威震江湖】"@ + victory_reason(before.sect.attributes.prestige as int),
            "good"@,
            "sect"@,
            before.year,
            before.month,
        )]
    } else {
        Seq::empty()
    };
    let heading = if before.month + 1 > 12 {
        seq![("———— 第"@ + int_text(before.year + 1) + "年 ————"@, "neutral"@, "sect"@, (before.year + 1) as i32, 1i32)]
    } else {
        Seq::empty()
    };
    closing + victory + heading
}

/// The month turned: the month's lines `events` and the turn's own (see
/// `turn_lines`) are told and kept in the chronicle (its last 80 entries);
/// a victory ends the game as won; the calendar moves on a month (a year
/// after December); the decisions are reset, no event is pending, and the
/// top-level mirrors are refreshed.
pub open spec fn month_turned(before: GameState, after: GameState, events: Seq<GameEvent>, tournament: Option<(i32, i32)>, out: Seq<GameEvent>) -> bool {
    let ranks = history_ranks(before);
    let wins = wins_at_turn(before, tournament, ranks);
    let turned = before.month + 1 > 12;
    &&& out.len() >= events.len()
    &&& out.take(events.len() as int) == events
    &&& out.skip(events.len() as int).map_values(|e: GameEvent| entry_view(e)) == turn_lines(before, tournament, ranks)
    &&& after.event_log@ == trimmed_log(before.event_log@ + out)
    &&& after.game_over_reason@ == (if wins {
        victory_reason(before.sect.attributes.prestige as int)
    } else {
        before.game_over_reason@
    })
    &&& after == mirrored(
        GameState {
            year: if turned {
                (before.year + 1) as i32
            } else {
                before.year
            },
            month: if turned {
                1
            } else {
                (before.month + 1) as i32
            },
            decisions_used: 0,
            pending_event: None,
            game_over: before.game_over || wins,
            game_won: before.game_won || wins,
            game_over_reason: after.game_over_reason,
            event_log: after.event_log,
            ..before
        },
    )
}

fn push_line(events: &mut Vec<GameEvent>, text: String, mood: &str, year: i32, month: i32)
    ensures
        final(events)@.len() == old(events)@.len() + 1,
        final(events)@.take(old(events)@.len() as int) == old(events)@,
        entry_view(final(events)@.last()) == (text@, mood@, "sect"@, year, month),
{
    let e = sect_event(text, mood, year, month);
    events.push(e);
    proof {
        assert(events@.take(old(events)@.len() as int) =~= old(events)@);
    }
}

/// Turns the month (see `month_turned`). `tournament` is this year's
/// tournament place and field, held in December; the save's tournament
/// history already holds it.
pub fn turn_month(state: &mut GameState, events: Vec<GameEvent>, tournament: Option<(i32, i32)>) -> (out: Vec<GameEvent>)
    requires
        old(state).year < i32::MAX,
        old(state).month < i32::MAX,
        old(state).month == 12 ==> tournament is Some,
    ensures
        month_turned(*old(state), *final(state), events@, tournament, out@),
{
    let ghost start = *state;
    let ghost given = events@;
    let mut out = events;
    let (rank, total): (i32, i32) = match tournament {
        Some(t) => t,
        None => (1, 1),
    };
    if state.month == 12 && !state.game_over {
        let year = state.year;
        let text = if year == 2 {
            let mut t = String::from_str("两载经营，本派已在江湖立稳山门。第二届论剑名列第");
            t.append(int_string(rank as i64).as_str());
            t.append("位，共");
            t.append(int_string(total as i64).as_str());
            t.append("派参与。");
            t
        } else if year % 5 == 0 {
            let mut t = int_string(year as i64);
            t.append("年经营，本派已历");
            t.append(int_string(year as i64).as_str());
            t.append("届论剑。本届论剑名列第");
            t.append(int_string(rank as i64).as_str());
            t.append("位，声望与实力已为江湖所公认。");
            t
        } else {
            let mut t = String::from_str("又一年除夕，本派在年终论剑中名列第");
            t.append(int_string(rank as i64).as_str());
            t.append("位。门人守岁共饮，静待来年。");
            t
        };
        push_line(&mut out, text, "good", state.year, state.month);
        let n = state.tournament_history.len();
        let mut podiums: i32 = 0;
        if n >= 1 && state.tournament_history[n - 1].rank <= 3 {
            podiums = podiums + 1;
        }
        if n >= 2 && state.tournament_history[n - 2].rank <= 3 {
            podiums = podiums + 1;
        }
        proof {
            assert(recent_podiums(history_ranks(start)) == podiums);
        }
        if podiums == 2 && rank <= 3 && state.sect.attributes.prestige >= 500 {
            state.game_over = true;
            state.game_won = true;
            let mut reason = String::from_str("本派连续三届论剑位列三甲，声望盈");
            reason.append(int_string(state.sect.attributes.prestige as i64).as_str());
            reason.append("，威震江湖。门中众长老共劝掌门封禅退隐，立此为万世之表。");
            let mut line = String::from_str("【威震江湖】");
            line.append(reason.as_str());
            state.game_over_reason = reason;
            push_line(&mut out, line, "good", state.year, state.month);
        }
    }
    let ghost mid = out@;
    if state.month + 1 > 12 {
        state.month = 1;
        state.year = state.year + 1;
        let mut t = String::from_str("———— 第");
        t.append(int_string(state.year as i64).as_str());
        t.append("年 ————");
        push_line(&mut out, t, "neutral", state.year, state.month);
    } else {
        state.month = state.month + 1;
    }
    proof {
        assert(out@.take(given.len() as int) =~= given);
        assert(out@.skip(given.len() as int).map_values(|e: GameEvent| entry_view(e)) =~= turn_lines(start, tournament, history_ranks(start)));
    }
    let ghost pre = *state;
    let mut k: usize = 0;
    while k < out.len()
        invariant
            k <= out@.len(),
            pre.event_log@ == start.event_log@,
            state.event_log@ == start.event_log@ + out@.take(k as int),
            *state == (GameState { event_log: state.event_log, ..pre }),
        decreases out@.len() - k,
    {
        state.event_log.push(copy_event(&out[k]));
        k = k + 1;
        proof {
            assert(state.event_log@ =~= start.event_log@ + out@.take(k as int));
        }
    }
    proof {
        assert(out@.take(k as int) =~= out@);
    }
    trim_log(state);
    state.decisions_used = 0;
    state.pending_event = None;
    sync_legacy_fields(state);
    proof {
        let wins = wins_at_turn(start, tournament, history_ranks(start));
        assert(state.game_over == (start.game_over || wins));
        assert(state.game_won == (start.game_won || wins));
        assert(state.game_over_reason@ == (if wins {
            victory_reason(start.sect.attributes.prestige as int)
        } else {
            start.game_over_reason@
        }));
        assert(state.event_log@ == trimmed_log(start.event_log@ + out@));
    }
    out
}

/// The report `r`, as a line list: one line or none.
pub open spec fn report_lines(r: Option<GameEvent>) -> Seq<GameEvent> {
    match r {
        Some(e) => seq![e],
        None => Seq::empty(),
    }
}

/// The chronicle line of a tournament `t`, held in December of `year`.
pub open spec fn tournament_line(t: TournamentResult, year: i32) -> (Seq<char>, Seq<char>, Seq<char>, i32, i32) {
    (
        "年终论剑！本派在"@ + int_text(t.total_sects as int) + "派中位列第"@ + int_text(t.rank as int) + "名。"@ + t.desc_text@,
        "good"@,
        "sect"@,
        year,
        12,
    )
}

/// The month's settlement went from `before` to `after` through `s1`, `s2`
/// and `s3`: the realms moved (report `r`), then the month closed (closing
/// lines `closing`, drift `d`, healing `h`, desertion coins `coins`); in
/// December the year-end tournament was then held (result `t`, the combat
/// scores `scores` rating both rosters; see `tournament_held`) and told in one
/// more line; then the month turned with that place, telling the lines
/// `events`, the realm report, the closing lines and the tournament's line as
/// `told`, and giving `out`.
pub open spec fn month_finished(
    before: GameState,
    after: GameState,
    events: Seq<GameEvent>,
    scores: Seq<CombatScore>,
    out: Seq<GameEvent>,
    t: Option<TournamentResult>,
    s1: GameState,
    s2: GameState,
    s3: GameState,
    r: Option<GameEvent>,
    closing: Seq<GameEvent>,
    told: Seq<GameEvent>,
    d: int,
    h: int,
    coins: Seq<bool>,
) -> bool {
    let settled = events + report_lines(r) + closing;
    &&& realms_evolved(before, s1, r)
    &&& month_closed(s1, s2, closing, d, h, coins)
    &&& if before.month == 12 {
        &&& t matches Some(res)
        &&& tournament_held(s2, aligned_scores(s2.disciples@, scores), aligned_scores(s2.npc_disciples@, scores), s3, res)
        &&& told.len() == settled.len() + 1
        &&& told.drop_last() == settled
        &&& entry_view(told.last()) == tournament_line(res, s2.year)
        &&& month_turned(s3, after, told, Some((res.rank, res.total_sects)), out)
    } else {
        &&& t is None
        &&& s3 == s2
        &&& told == settled
        &&& month_turned(s2, after, told, None, out)
    }
}

proof fn lemma_stayers_len(ds: Seq<Disciple>, coins: Seq<bool>, n: int)
    requires
        0 <= n,
    ensures
        stayers(ds, coins, n).len() <= n,
    decreases n,
{
    if n > 0 {
        lemma_stayers_len(ds, coins, n - 1);
    }
}

proof fn lemma_kept_len(ds: Seq<Disciple>, ids: Seq<Seq<char>>, n: int)
    requires
        0 <= n,
    ensures
        kept_without(ds, ids, n).len() <= n,
    decreases n,
{
    if n > 0 {
        lemma_kept_len(ds, ids, n - 1);
    }
}

/// The close of a month never enlarges the roster, and leaves the calendar,
/// the other sects, their disciples, the treasury and the tournament history
/// as they were.
pub proof fn lemma_close_keeps(before: GameState, after: GameState, events: Seq<GameEvent>, d: int, h: int, coins: Seq<bool>)
    requires
        month_closed(before, after, events, d, h, coins),
    ensures
        after.disciples@.len() <= before.disciples@.len(),
        after.year == before.year,
        after.month == before.month,
        after.npc_sects == before.npc_sects,
        after.npc_disciples == before.npc_disciples,
        after.sect.attributes.silver == before.sect.attributes.silver,
        after.tournament_history == before.tournament_history,
{
    let n0 = before.disciples@.len() as int;
    lemma_stayers_len(before.disciples@, coins, n0);
    let ds1 = stayers(before.disciples@, coins, n0);
    lemma_kept_len(ds1, first_alive_ids(ds1, leave_count(alive_count(ds1, ds1.len() as int)), ds1.len() as int), ds1.len() as int);
}

fn tournament_event(t: &TournamentResult, year: i32) -> (e: GameEvent)
    ensures
        entry_view(e) == tournament_line(*t, year),
{
    let mut text = String::from_str("年终论剑！本派在");
    text.append(int_string(t.total_sects as i64).as_str());
    text.append("派中位列第");
    text.append(int_string(t.rank as i64).as_str());
    text.append("名。");
    text.append(t.desc_text.as_str());
    sect_event(text, "good", year, 12)
}

/// Settles the month after its happenings `events` (see `month_finished`):
/// the realms move and report, the month closes, in December the year-end
/// tournament is held with the combat scores `scores` and told, and the
/// month turns. Returns all the month's lines, the tournament's result when
/// one was held, and whether the game is over.
#[verifier::rlimit(40)]
pub fn finish_month(
    rng: &mut StdRng,
    state: &mut GameState,
    events: Vec<GameEvent>,
    scores: &Vec<CombatScore>,
) -> (r: (Vec<GameEvent>, Option<TournamentResult>, bool))
    requires
        old(state).year < i32::MAX,
        old(state).month < i32::MAX,
        old(state).npc_sects@.len() < 1024,
        old(state).disciples@.len() <= 10_000,
        old(state).sect.attributes.silver <= i32::MAX - 300,
        scores_modest(scores@),
    ensures
        exists|t: Option<TournamentResult>, s1: GameState, s2: GameState, s3: GameState, rep: Option<GameEvent>, closing: Seq<GameEvent>, told: Seq<GameEvent>, d: int, h: int, coins: Seq<bool>|
            #[trigger] month_finished(*old(state), *final(state), events@, scores@, r.0@, t, s1, s2, s3, rep, closing, told, d, h, coins)
            && r.1 == t,
        r.1 is Some <==> old(state).month == 12,
        r.2 == final(state).game_over,
{
    let ghost given = events@;
    let mut lines = events;
    let report = evolve_monthly(state);
    let ghost s1 = *state;
    let ghost rep = report;
    match report {
        Some(e) => lines.push(e),
        None => {},
    }
    proof {
        assert(lines@ =~= given + report_lines(rep));
    }
    let mut closing = settle_month_end(rng, state);
    let ghost s2 = *state;
    let ghost closed = closing@;
    lines.append(&mut closing);
    let ghost settled = lines@;
    proof {
        assert(settled =~= given + report_lines(rep) + closed);
        let (d, h, coins) = choose|d: int, h: int, coins: Seq<bool>| month_closed(s1, s2, closed, d, h, coins);
        lemma_close_keeps(s1, s2, closed, d, h, coins);
        lemma_modest_scores_fit(s2.disciples@, scores@);
    }
    let ghost mut s3 = s2;
    let ghost mut told = settled;
    let mut held: Option<TournamentResult> = None;
    let out = if state.month == 12 {
        let own = align_scores(&state.disciples, scores);
        let theirs = align_scores(&state.npc_disciples, scores);
        let res = run_tournament(rng, state, &own, &theirs);
        proof {
            lemma_held_keeps_calendar(s2, own@, theirs@, *state, res);
            s3 = *state;
        }
        let line = tournament_event(&res, state.year);
        lines.push(line);
        proof {
            told = lines@;
            assert(told.drop_last() =~= settled);
        }
        let place = Some((res.rank, res.total_sects));
        held = Some(res);
        turn_month(state, lines, place)
    } else {
        turn_month(state, lines, None)
    };
    let over = state.game_over;
    let r = (out, held, over);
    proof {
        let (d, h, coins) = choose|d: int, h: int, coins: Seq<bool>| month_closed(s1, s2, closed, d, h, coins);
        assert(month_finished(*old(state), *state, given, scores@, r.0@, r.1, s1, s2, s3, rep, closed, told, d, h, coins));
    }
    r
}

/// How a month opens.
pub enum MonthOpening {
    /// The game is over; nothing moves.
    Sealed,
    /// A world event still waits for the head's answer; nothing moves.
    Waiting,
    /// A world event now waits for the head's answer; it is announced.
    Paused(GameEvent),
    /// No event calls for an answer; the month goes on to its settlement.
    Settle,
}

/// `p` is the interactive event a roll of `roll` lands on at position `i`
/// of the pool weighed for `sect`.
pub open spec fn interactive_drawn(sect: SectState, p: PendingWorldEvent, roll: int, i: int) -> bool {
    &&& 0 <= roll < weight_total(interactive_weights(sect))
    &&& lands_at(interactive_weights(sect), roll, i)
    &&& p.id@ == interactive_ids()[i]
    &&& p.category@ == interactive_categories()[i]
    &&& p.choices@.len() == 2
    &&& crate::event::pending_view(p) == crate::event::interactive_table()[i]
}

/// The announcement of a pending event.
pub open spec fn announcement_text(p: PendingWorldEvent) -> Seq<char> {
    "【"@ + p.category@ + "】"@ + p.title@ + "："@ + p.text@
}

/// What `open_month` does.
pub open spec fn month_opened(before: GameState, after: GameState, r: MonthOpening) -> bool {
    match r {
        MonthOpening::Sealed => before.game_over && after == before,
        MonthOpening::Waiting => !before.game_over && before.pending_event is Some && after == before,
        MonthOpening::Settle => !before.game_over && before.pending_event is None && after == before,
        MonthOpening::Paused(e) => {
            &&& !before.game_over
            &&& before.pending_event is None
            &&& after.pending_event matches Some(p) && (exists|roll: int, i: int| #[trigger] interactive_drawn(before.sect, p, roll, i))
                && entry_view(e) == (
                announcement_text(p),
                "neutral"@,
                spec_interactive_category(p.category@),
                before.year,
                before.month,
            )
            &&& after.event_log@ == trimmed_log(before.event_log@.push(e))
            &&& after == GameState { pending_event: after.pending_event, event_log: after.event_log, ..before }
        },
    }
}

/// Opens a month: nothing moves once the game is over or while a world event
/// waits; otherwise, with chance 3 in 10, an interactive event drawn by the
/// sect's weights pauses the month until the head answers, and is announced
/// in the chronicle; else the month goes on to its settlement.
pub fn open_month(rng: &mut StdRng, state: &mut GameState) -> (r: MonthOpening)
    ensures
        month_opened(*old(state), *final(state), r),
{
    if state.game_over {
        return MonthOpening::Sealed;
    }
    if state.pending_event.is_some() {
        return MonthOpening::Waiting;
    }
    if !chance(rng, 3, 10) {
        return MonthOpening::Settle;
    }
    let pending = trigger_interactive_event(rng, &state.sect);
    let ghost p = pending;
    let mut text = String::from_str("【");
    text.append(pending.category.as_str());
    text.append("】");
    text.append(pending.title.as_str());
    text.append("：");
    text.append(pending.text.as_str());
    let e = GameEvent {
        text,
        mood: String::from_str("neutral"),
        year: state.year,
        month: state.month,
        category: String::from_str(interactive_category(pending.category.as_str())),
    };
    state.pending_event = Some(pending);
    state.event_log.push(copy_event(&e));
    trim_log(state);
    proof {
        let (roll, i) = choose|roll: int, i: int| {
            &&& 0 <= roll < weight_total(interactive_weights(old(state).sect))
            &&& lands_at(interactive_weights(old(state).sect), roll, i)
            &&& p.id@ == interactive_ids()[i]
            &&& p.category@ == interactive_categories()[i]
            &&& p.choices@.len() == 2
            &&& crate::event::pending_view(p) == crate::event::interactive_table()[i]
        };
        assert(interactive_drawn(old(state).sect, p, roll, i));
    }
    MonthOpening::Paused(e)
}

fn copy_effect(e: &EventEffect) -> (r: EventEffect)
    ensures
        r == *e,
{
    EventEffect {
        prestige: e.prestige,
        silver: e.silver,
        morale: e.morale,
        injury: e.injury,
        free_recruit: e.free_recruit,
        special: match &e.special {
            Some(s) => Some(s.clone()),
            None => None,
        },
        loyalty_loss: e.loyalty_loss,
        loyalty_change: e.loyalty_change,
    }
}

/// `i` is the first choice of `cs` with the id `id`.
pub open spec fn is_first_choice(cs: Seq<EventChoice>, id: Seq<char>, i: int) -> bool {
    &&& 0 <= i < cs.len()
    &&& cs[i].id@ == id
    &&& forall|j: int| 0 <= j < i ==> (#[trigger] cs[j]).id@ != id
}

/// The happening an answer stands for: the event's id and the choice's
/// joined by a colon, the choice's result text, effect and tone.
pub open spec fn answer_event(p: PendingWorldEvent, c: EventChoice, e: RandomEvent) -> bool {
    &&& e.id@ == p.id@ + ":"@ + c.id@
    &&& e.text@ == c.result_text@
    &&& e.effect == c.effect
    &&& e.good == c.good
}

/// What `choose_pending_option` returns for the state `s`.
pub open spec fn option_outcome(s: GameState, option_id: Seq<char>, r: Result<(RandomEvent, &'static str), String>) -> bool {
    if s.game_over {
        r matches Err(t) && t@ == (if s.game_won {
            "此局已经终了，不可再续推月份。"@
        } else {
            "山门已散，往事不可再续。"@
        })
    } else {
        match s.pending_event {
            None => r matches Err(t) && t@ == "眼下并无待决之事。"@,
            Some(p) => if exists|i: int| is_first_choice(p.choices@, option_id, i) {
                let i = choose|i: int| is_first_choice(p.choices@, option_id, i);
                r matches Ok(v) && answer_event(p, p.choices@[i], v.0) && v.1@ == spec_interactive_category(p.category@)
            } else {
                r matches Err(t) && t@ == "掌门所选并非卷宗所列之策。"@
            },
        }
    }
}

/// The head's answer to the waiting event: the happening the chosen option
/// stands for, with the category its lines go under. Refused once the game
/// is over, when no event waits, or for an option the event does not list.
pub fn choose_pending_option(state: &GameState, option_id: &str) -> (r: Result<(RandomEvent, &'static str), String>)
    ensures
        option_outcome(*state, option_id@, r),
{
    if state.game_over {
        return Err(String::from_str(if state.game_won { "此局已经终了，不可再续推月份。" } else { "山门已散，往事不可再续。" }));
    }
    let pending = match &state.pending_event {
        Some(p) => p,
        None => return Err(String::from_str("眼下并无待决之事。")),
    };
    let category = interactive_category(pending.category.as_str());
    let mut i: usize = 0;
    while i < pending.choices.len()
        invariant
            i <= pending.choices@.len(),
            state.pending_event == Some(*pending),
            !state.game_over,
            category@ == spec_interactive_category(pending.category@),
            forall|j: int| 0 <= j < i ==> (#[trigger] pending.choices@[j]).id@ != option_id@,
        decreases pending.choices@.len() - i,
    {
        if text_eq(pending.choices[i].id.as_str(), option_id) {
            let c = &pending.choices[i];
            let mut id = pending.id.clone();
            id.append(":");
            id.append(c.id.as_str());
            let e = RandomEvent { id, text: c.result_text.clone(), effect: copy_effect(&c.effect), good: c.good };
            proof {
                assert(is_first_choice(pending.choices@, option_id@, i as int));
                let k = choose|k: int| is_first_choice(pending.choices@, option_id@, k);
                if k < i {
                    assert(pending.choices@[k].id@ != option_id@);
                } else if k > i {
                    assert(pending.choices@[i as int].id@ != option_id@);
                }
                assert(e.effect == c.effect);
                assert(e.id@ == pending.id@ + ":"@ + c.id@);
                assert(answer_event(*pending, pending.choices@[i as int], e));
            }
            let r = Ok((e, category));
            proof {
                let v = r->Ok_0;
                assert(answer_event(*pending, pending.choices@[i as int], v.0));
                assert(state.pending_event == Some(*pending));
                assert(v.1@ == spec_interactive_category(pending.category@));
                assert(exists|k: int| is_first_choice(pending.choices@, option_id@, k));
            }
            return r;
        }
        i = i + 1;
    }
    Err(String::from_str("掌门所选并非卷宗所列之策。"))
}

} // verus!
