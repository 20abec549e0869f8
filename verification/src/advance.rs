//! The month's advance: an opening that may pause for the head's answer, an
//! ordinary happening or the head's answer, and the settlement that follows.
use vstd::prelude::*;
use vstd::string::StrSliceExecFns;
use rand::rngs::StdRng;
use crate::disciple::{absorb_legacy_attributes, absorbed, aptitudes_fit};
use crate::effects::{apply_event_effect, effect_fits, event_steps, insight_fits, recruit_notes, special_is};
use crate::event::{random_ids, random_table, random_weights, trigger_random_event, event_view, lands_at, weight_total, EventEffect, RandomEvent};
use crate::game::GameState;
use crate::model::{Disciple, GameEvent};
use crate::month_end::{choose_pending_option, entry_view, finish_month, month_finished, month_opened, open_month, option_outcome, MonthOpening};
use crate::sect::{absorb_legacy_fields, SectAttributes, SectState};
use crate::text::text_eq;
use crate::tournament::{scores_modest, CombatScore, TournamentResult};

verus! {

/// What a month's advance gives back: the month's lines, the year-end
/// tournament's result when one was held, and whether the game is over.
pub struct MonthReport {
    pub events: Vec<GameEvent>,
    pub tournament: Option<TournamentResult>,
    pub game_over: bool,
}

/// The ordinary happening `e` is the one a draw of `roll` lands on, at
/// position `i` of the pool weighed for `sect`.
pub open spec fn happening_drawn(sect: SectState, e: RandomEvent, roll: int, i: int) -> bool {
    &&& 0 <= roll < weight_total(random_weights(sect))
    &&& lands_at(random_weights(sect), roll, i)
    &&& e.id@ == random_ids()[i]
    &&& event_view(e) == random_table()[i]
}

/// A happening of the wider world: its id begins with `jh_`.
pub open spec fn world_id(id: Seq<char>) -> bool {
    id.len() >= 3 && id[0] == 'j' && id[1] == 'h' && id[2] == '_'
}

/// The chronicle category of an ordinary happening.
pub open spec fn happening_category(id: Seq<char>) -> Seq<char> {
    if world_id(id) {
        "world"@
    } else {
        "sect"@
    }
}

/// The lines that tell the happening `e` and then each of its `extra` lines,
/// under `category`, dated `year` and `month`: the happening's own line is
/// good or bad as it is, the extra lines are good.
pub open spec fn happening_lines(e: RandomEvent, extra: Seq<Seq<char>>, category: Seq<char>, year: i32, month: i32) -> Seq<
    (Seq<char>, Seq<char>, Seq<char>, i32, i32),
> {
    seq![(e.text@, if e.good { "good"@ } else { "bad"@ }, category, year, month)] + extra.map_values(
        |t: Seq<char>| (t, "good"@, category, year, month),
    )
}

/// A disciple whose older fields can be taken in within `i32`.
pub open spec fn absorb_fits(d: Disciple) -> bool {
    &&& aptitudes_fit(d.aptitudes)
    &&& i32::MIN <= d.inner_power - d.attributes.neili.maximum <= i32::MAX
    &&& i32::MIN <= d.attributes.neili.current + (d.inner_power - d.attributes.neili.maximum) <= i32::MAX
}

/// Every disciple of the roster can take in its older fields.
pub open spec fn roster_fits(ds: Seq<Disciple>) -> bool {
    forall|i: int| 0 <= i < ds.len() ==> absorb_fits(#[trigger] ds[i])
}

/// `after` is `before` with every disciple of the player's roster having
/// taken in its older fields (see `absorbed`).
pub open spec fn roster_absorbed(before: GameState, after: GameState) -> bool {
    &&& after == (GameState { disciples: after.disciples, ..before })
    &&& after.disciples@.len() == before.disciples@.len()
    &&& forall|i: int| 0 <= i < before.disciples@.len() ==> #[trigger] after.disciples@[i] == absorbed(before.disciples@[i])
}

/// `after` is `before` with the top-level prestige, silver and morale taken
/// into the player's sect: prestige held to `0..=1000`, silver to at least
/// 0, morale to `0..=100`.
pub open spec fn fields_absorbed(before: GameState, after: GameState) -> bool {
    after == (GameState {
        sect: SectState {
            attributes: SectAttributes {
                prestige: (if before.prestige < 0 { 0 } else if before.prestige > 1000 { 1000 } else { before.prestige as int }) as i32,
                silver: (if before.silver < 0 { 0 } else { before.silver as int }) as i32,
                morale: (if before.morale < 0 { 0 } else if before.morale > 100 { 100 } else { before.morale as int }) as i32,
                ..before.sect.attributes
            },
            ..before.sect
        },
        ..before
    })
}

/// The happening `e` befell `before`, its lines going under `category`:
/// when its effect would leave `i32`, nothing happens and nothing is told;
/// else its effect takes the save through `s1`..`s4` (see `event_steps`,
/// with `notes` the lines of its special consequence); when a disciple's
/// older fields could then not be taken in within `i32`, the save stays at
/// `s4` and nothing is told; else the roster takes them in (`s5`), the sect
/// the top-level mirrors (`after`), and the lines tell the happening and its
/// extra lines (those of the recruits, then `notes`), dated as `after`.
pub open spec fn underwent(
    before: GameState,
    e: RandomEvent,
    category: Seq<char>,
    after: GameState,
    lines: Option<Seq<GameEvent>>,
    s1: GameState,
    s2: GameState,
    s3: GameState,
    s4: GameState,
    notes: Seq<Seq<char>>,
    s5: GameState,
) -> bool {
    if !effect_fits(before, e.effect) {
        after == before && lines is None
    } else {
        &&& event_steps(before, s1, s2, s3, s4, e.effect, notes)
        &&& if !roster_fits(s4.disciples@) {
            after == s4 && lines is None
        } else {
            &&& roster_absorbed(s4, s5)
            &&& fields_absorbed(s5, after)
            &&& lines matches Some(ls) && ls.map_values(|g: GameEvent| entry_view(g)) == happening_lines(
                e,
                recruit_notes(e.effect) + notes,
                category,
                after.year,
                after.month,
            )
        }
    }
}

/// The bounds the month's settlement keeps within: the calendar can move,
/// fewer than 1024 other sects, at most 10,000 disciples, and room for the
/// month's income in the treasury.
pub open spec fn settle_fits(s: GameState) -> bool {
    &&& s.year < i32::MAX
    &&& s.month < i32::MAX
    &&& s.npc_sects@.len() < 1024
    &&& s.disciples@.len() <= 10_000
    &&& s.sect.attributes.silver <= i32::MAX - 300
}

/// After the month's happening (`mid`, lines `told`), the month settles:
/// within `settle_fits`, as `finish_month` does (see `month_finished`);
/// outside them the save stays at `mid` and the lines are `told` alone.
pub open spec fn settled_after(
    mid: GameState,
    after: GameState,
    told: Seq<GameEvent>,
    scores: Seq<CombatScore>,
    r: MonthReport,
    t: Option<TournamentResult>,
    f1: GameState,
    f2: GameState,
    f3: GameState,
    rep: Option<GameEvent>,
    closing: Seq<GameEvent>,
    all: Seq<GameEvent>,
    d: int,
    h: int,
    coins: Seq<bool>,
) -> bool {
    if settle_fits(mid) {
        &&& month_finished(mid, after, told, scores, r.events@, t, f1, f2, f3, rep, closing, all, d, h, coins)
        &&& r.tournament == t
        &&& r.game_over == after.game_over
    } else {
        &&& after == mid
        &&& r.events@ == told
        &&& r.tournament is None
        &&& r.game_over == mid.game_over
    }
}

fn effect_fits_now(state: &GameState, e: &EventEffect) -> (r: bool)
    ensures
        r == effect_fits(*state, *e),
{
    let silver_ok = match e.silver {
        Some(d) => state.silver as i64 + d as i64 <= i32::MAX as i64,
        None => (state.silver as i64) <= i32::MAX as i64,
    };
    let (grain_ok, herbs_ok, insight_ok) = match &e.special {
        None => (true, true, true),
        Some(t) => {
            let tag = t.as_str();
            let grain_ok = !text_eq(tag, "stock_grain") || state.sect.inventory.amount_of("粮秣") as i64 + 60 <= i32::MAX as i64;
            let herbs_ok = !text_eq(tag, "stock_herbs") || state.sect.inventory.amount_of("草药") as i64 + 18 <= i32::MAX as i64;
            let mut insight_ok = true;
            if text_eq(tag, "epiphany") {
                let mut i: usize = 0;
                while i < state.disciples.len()
                    invariant
                        i <= state.disciples@.len(),
                        insight_ok == (forall|j: int| 0 <= j < i ==> ((#[trigger] state.disciples@[j]).alive ==> state.disciples@[j].inner_power <= i32::MAX - 20)),
                    decreases state.disciples@.len() - i,
                {
                    if state.disciples[i].alive && state.disciples[i].inner_power > i32::MAX - 20 {
                        insight_ok = false;
                    }
                    i = i + 1;
                }
            }
            (grain_ok, herbs_ok, insight_ok)
        },
    };
    silver_ok && grain_ok && herbs_ok && insight_ok
}

fn roster_fits_now(ds: &Vec<Disciple>) -> (r: bool)
    ensures
        r == roster_fits(ds@),
{
    let mut i: usize = 0;
    while i < ds.len()
        invariant
            i <= ds@.len(),
            forall|j: int| 0 <= j < i ==> absorb_fits(#[trigger] ds@[j]),
        decreases ds@.len() - i,
    {
        let d = &ds[i];
        let a = d.aptitudes;
        let s2: i64 = a.strength as i64 + a.intelligence as i64;
        let s3: i64 = s2 + a.constitution as i64;
        let s4: i64 = s3 + a.agility as i64;
        let s5: i64 = s4 + a.fortune as i64;
        let delta: i64 = d.inner_power as i64 - d.attributes.neili.maximum as i64;
        let cur: i64 = d.attributes.neili.current as i64 + delta;
        let lo: i64 = i32::MIN as i64;
        let hi: i64 = i32::MAX as i64;
        if s2 < lo || s2 > hi || s3 < lo || s3 > hi || s4 < lo || s4 > hi || s5 < lo || s5 > hi || delta < lo || delta > hi || cur < lo
            || cur > hi {
            proof {
                assert(!absorb_fits(ds@[i as int]));
            }
            return false;
        }
        i = i + 1;
    }
    true
}

fn absorb_roster(state: &mut GameState)
    requires
        roster_fits(old(state).disciples@),
    ensures
        roster_absorbed(*old(state), *final(state)),
{
    let ghost start = *state;
    let mut i: usize = 0;
    while i < state.disciples.len()
        invariant
            i <= start.disciples@.len(),
            state.disciples@.len() == start.disciples@.len(),
            *state == (GameState { disciples: state.disciples, ..start }),
            roster_fits(start.disciples@),
            forall|j: int| 0 <= j < i ==> #[trigger] state.disciples@[j] == absorbed(start.disciples@[j]),
            forall|j: int| i <= j < start.disciples@.len() ==> #[trigger] state.disciples@[j] == start.disciples@[j],
        decreases start.disciples@.len() - i,
    {
        proof {
            assert(absorb_fits(start.disciples@[i as int]));
        }
        absorb_legacy_attributes(&mut state.disciples[i]);
        i = i + 1;
    }
}

fn told_lines(e: &RandomEvent, extra: Vec<String>, category: &str, year: i32, month: i32) -> (r: Vec<GameEvent>)
    ensures
        r@.map_values(|g: GameEvent| entry_view(g)) == happening_lines(*e, extra@.map_values(|s: String| s@), category@, year, month),
{
    let mut out: Vec<GameEvent> = Vec::new();
    out.push(GameEvent {
        text: e.text.clone(),
        mood: String::from_str(if e.good { "good" } else { "bad" }),
        year,
        month,
        category: String::from_str(category),
    });
    let ghost want = happening_lines(*e, extra@.map_values(|s: String| s@), category@, year, month);
    let mut i: usize = 0;
    while i < extra.len()
        invariant
            i <= extra@.len(),
            out@.len() == i + 1,
            want == happening_lines(*e, extra@.map_values(|s: String| s@), category@, year, month),
            forall|j: int| 0 <= j <= i ==> #[trigger] entry_view(out@[j]) == want[j],
        decreases extra@.len() - i,
    {
        out.push(GameEvent {
            text: extra[i].clone(),
            mood: String::from_str("good"),
            year,
            month,
            category: String::from_str(category),
        });
        proof {
            assert(want[i + 1] == (extra@[i as int]@, "good"@, category@, year, month));
        }
        i = i + 1;
    }
    proof {
        assert(out@.map_values(|g: GameEvent| entry_view(g)) =~= want);
    }
    out
}

/// The happening `e` befalls the save, its lines going under `category`
/// (see `underwent`). Returns its lines, or `None` when it was stopped at
/// the edge of `i32`.
fn undergo(rng: &mut StdRng, state: &mut GameState, e: &RandomEvent, category: &str) -> (r: (Option<Vec<GameEvent>>, Ghost<(GameState, GameState, GameState, GameState, Seq<Seq<char>>, GameState)>))
    ensures
        underwent(*old(state), *e, category@, *final(state), match r.0 { Some(v) => Some(v@), None => None }, r.1@.0, r.1@.1, r.1@.2, r.1@.3, r.1@.4, r.1@.5),
{
    let ghost start = *state;
    if !effect_fits_now(state, &e.effect) {
        return (None, Ghost((start, start, start, start, Seq::empty(), start)));
    }
    let extra = apply_event_effect(rng, state, e);
    let ghost s4 = *state;
    let ghost (s1, s2, s3, notes) = choose|s1: GameState, s2: GameState, s3: GameState, notes: Seq<Seq<char>>|
        #[trigger] event_steps(start, s1, s2, s3, s4, e.effect, notes) && extra@.map_values(|s: String| s@) == recruit_notes(e.effect) + notes;
    if !roster_fits_now(&state.disciples) {
        return (None, Ghost((s1, s2, s3, s4, notes, s4)));
    }
    absorb_roster(state);
    let ghost s5 = *state;
    absorb_legacy_fields(state);
    let lines = told_lines(e, extra, category, state.year, state.month);
    proof {
        assert(fields_absorbed(s5, *state));
    }
    (Some(lines), Ghost((s1, s2, s3, s4, notes, s5)))
}

fn happening_category_of(id: &str) -> (r: &'static str)
    ensures
        r@ == happening_category(id@),
{
    let n = id.unicode_len();
    if n >= 3 && id.get_char(0) == 'j' && id.get_char(1) == 'h' && id.get_char(2) == '_' {
        "world"
    } else {
        "sect"
    }
}

fn settle_fits_now(s: &GameState) -> (r: bool)
    ensures
        r == settle_fits(*s),
{
    s.year < i32::MAX && s.month < i32::MAX && s.npc_sects.len() < 1024 && s.disciples.len() <= 10_000 && s.sect.attributes.silver
        <= i32::MAX - 300
}

/// Settles the month after its happening: `finish_month` within
/// `settle_fits`, else the happening's lines alone (see `settled_after`).
fn settle(rng: &mut StdRng, state: &mut GameState, told: Vec<GameEvent>, scores: &Vec<CombatScore>) -> (r: (MonthReport, Ghost<(Option<TournamentResult>, GameState, GameState, GameState, Option<GameEvent>, Seq<GameEvent>, Seq<GameEvent>, int, int, Seq<bool>)>))
    requires
        scores_modest(scores@),
    ensures
        settled_after(*old(state), *final(state), told@, scores@, r.0, r.1@.0, r.1@.1, r.1@.2, r.1@.3, r.1@.4, r.1@.5, r.1@.6, r.1@.7, r.1@.8, r.1@.9),
{
    let ghost start = *state;
    let ghost given = told@;
    if !settle_fits_now(state) {
        let over = state.game_over;
        let r = MonthReport { events: told, tournament: None, game_over: over };
        return (r, Ghost((None, start, start, start, None, Seq::empty(), Seq::empty(), 0, 0, Seq::empty())));
    }
    let (out, t, over) = finish_month(rng, state, told, scores);
    let ghost w = choose|t0: Option<TournamentResult>, f1: GameState, f2: GameState, f3: GameState, rep: Option<GameEvent>, closing: Seq<GameEvent>, all: Seq<GameEvent>, d: int, h: int, coins: Seq<bool>|
        #[trigger] month_finished(start, *state, given, scores@, out@, t0, f1, f2, f3, rep, closing, all, d, h, coins) && t == t0;
    let r = MonthReport { events: out, tournament: t, game_over: over };
    (r, Ghost(w))
}

/// A month's advance from `before` to `after` giving `r` (see `advance_month`):
/// the opening `o` (see `month_opened`); a sealed game or a waiting event
/// moves nothing and tells nothing; a newly drawn interactive event pauses
/// the month and tells only its announcement; else the ordinary happening
/// `ev` drawn for the sect (`roll`, `i`) befalls the save under its category
/// (see `underwent`), and the month settles after it (see `settled_after`).
pub open spec fn month_advanced(
    before: GameState,
    after: GameState,
    scores: Seq<CombatScore>,
    r: MonthReport,
    o: MonthOpening,
    ev: RandomEvent,
    roll: int,
    i: int,
    s1: GameState,
    s2: GameState,
    s3: GameState,
    s4: GameState,
    notes: Seq<Seq<char>>,
    s5: GameState,
    mid: GameState,
    lines: Option<Seq<GameEvent>>,
    t: Option<TournamentResult>,
    f1: GameState,
    f2: GameState,
    f3: GameState,
    rep: Option<GameEvent>,
    closing: Seq<GameEvent>,
    all: Seq<GameEvent>,
    d: int,
    h: int,
    coins: Seq<bool>,
) -> bool {
    match o {
        MonthOpening::Sealed => {
            &&& month_opened(before, after, o)
            &&& r.events@.len() == 0 && r.tournament is None && r.game_over
        },
        MonthOpening::Waiting => {
            &&& month_opened(before, after, o)
            &&& r.events@.len() == 0 && r.tournament is None && r.game_over == before.game_over
        },
        MonthOpening::Paused(e) => {
            &&& month_opened(before, after, o)
            &&& r.events@ == seq![e] && r.tournament is None && r.game_over == after.game_over
        },
        MonthOpening::Settle => {
            &&& month_opened(before, before, o)
            &&& happening_drawn(before.sect, ev, roll, i)
            &&& underwent(before, ev, happening_category(ev.id@), mid, lines, s1, s2, s3, s4, notes, s5)
            &&& match lines {
                None => after == mid && r.events@.len() == 0 && r.tournament is None && r.game_over == mid.game_over,
                Some(told) => settled_after(mid, after, told, scores, r, t, f1, f2, f3, rep, closing, all, d, h, coins),
            }
        },
    }
}

/// Advances the month (see `month_advanced`): nothing moves once the game is
/// over or while a world event waits for the head's answer; with chance 3 in
/// 10 a newly drawn interactive event pauses the month before anything else
/// changes; otherwise an ordinary happening drawn for the sect befalls it
/// and the month goes straight on to its settlement, the year-end tournament
/// rating both rosters by `scores`.
pub fn advance_month(rng: &mut StdRng, state: &mut GameState, scores: &Vec<CombatScore>) -> (r: MonthReport)
    requires
        scores_modest(scores@),
    ensures
        exists|o: MonthOpening, ev: RandomEvent, roll: int, i: int, s1: GameState, s2: GameState, s3: GameState, s4: GameState,
            notes: Seq<Seq<char>>, s5: GameState, mid: GameState, lines: Option<Seq<GameEvent>>, t: Option<TournamentResult>,
            f1: GameState, f2: GameState, f3: GameState, rep: Option<GameEvent>, closing: Seq<GameEvent>, all: Seq<GameEvent>, d: int,
            h: int, coins: Seq<bool>|
            #[trigger] month_advanced(
                *old(state),
                *final(state),
                scores@,
                r,
                o,
                ev,
                roll,
                i,
                s1,
                s2,
                s3,
                s4,
                notes,
                s5,
                mid,
                lines,
                t,
                f1,
                f2,
                f3,
                rep,
                closing,
                all,
                d,
                h,
                coins,
            ),
{
    let ghost start = *state;
    let o = open_month(rng, state);
    match o {
        MonthOpening::Sealed => {
            let r = MonthReport { events: Vec::new(), tournament: None, game_over: true };
            proof {
                let e = vstd::pervasive::arbitrary::<RandomEvent>();
                assert(month_advanced(start, *state, scores@, r, MonthOpening::Sealed, e, 0, 0, start, start, start, start, Seq::empty(), start, start, None, None, start, start, start, None, Seq::empty(), Seq::empty(), 0, 0, Seq::empty()));
            }
            r
        },
        MonthOpening::Waiting => {
            let over = state.game_over;
            let r = MonthReport { events: Vec::new(), tournament: None, game_over: over };
            proof {
                let e = vstd::pervasive::arbitrary::<RandomEvent>();
                assert(month_advanced(start, *state, scores@, r, MonthOpening::Waiting, e, 0, 0, start, start, start, start, Seq::empty(), start, start, None, None, start, start, start, None, Seq::empty(), Seq::empty(), 0, 0, Seq::empty()));
            }
            r
        },
        MonthOpening::Paused(e) => {
            let ghost g = e;
            let over = state.game_over;
            let r = MonthReport { events: vec![e], tournament: None, game_over: over };
            proof {
                let x = vstd::pervasive::arbitrary::<RandomEvent>();
                assert(r.events@ =~= seq![g]);
                assert(month_advanced(start, *state, scores@, r, MonthOpening::Paused(g), x, 0, 0, start, start, start, start, Seq::empty(), start, start, None, None, start, start, start, None, Seq::empty(), Seq::empty(), 0, 0, Seq::empty()));
            }
            r
        },
        MonthOpening::Settle => {
            let ev = trigger_random_event(rng, &state.sect);
            let ghost (roll, i) = choose|roll: int, i: int| {
                &&& 0 <= roll < weight_total(random_weights(start.sect))
                &&& lands_at(random_weights(start.sect), roll, i)
                &&& ev.id@ == random_ids()[i]
                &&& event_view(ev) == random_table()[i]
            };
            let category = happening_category_of(ev.id.as_str());
            let (lines, w) = undergo(rng, state, &ev, category);
            let ghost mid = *state;
            match lines {
                None => {
                    let over = state.game_over;
                    let r = MonthReport { events: Vec::new(), tournament: None, game_over: over };
                    proof {
                        assert(month_advanced(start, *state, scores@, r, MonthOpening::Settle, ev, roll, i, w@.0, w@.1, w@.2, w@.3, w@.4, w@.5, mid, None, None, start, start, start, None, Seq::empty(), Seq::empty(), 0, 0, Seq::empty()));
                    }
                    r
                },
                Some(told) => {
                    let ghost tl = told@;
                    let (r, f) = settle(rng, state, told, scores);
                    proof {
                        assert(month_advanced(start, *state, scores@, r, MonthOpening::Settle, ev, roll, i, w@.0, w@.1, w@.2, w@.3, w@.4, w@.5, mid, Some(tl), f@.0, f@.1, f@.2, f@.3, f@.4, f@.5, f@.6, f@.7, f@.8, f@.9));
                    }
                    r
                },
            }
        },
    }
}

/// The head's answer `option_id` to the waiting event, from `before` to
/// `after` giving `r` (see `resolve_pending_event`): `pick` is what the
/// answer stands for (see `option_outcome`); a refusal changes nothing and
/// is returned; else the chosen happening befalls the save under the event's
/// category (see `underwent`); when it was stopped at the edge of `i32` the
/// event still waits and nothing is told; else the event is settled and the
/// month goes on to its settlement (see `settled_after`).
pub open spec fn pending_resolved(
    before: GameState,
    option_id: Seq<char>,
    after: GameState,
    scores: Seq<CombatScore>,
    r: Result<MonthReport, String>,
    pick: Result<(RandomEvent, &'static str), String>,
    s1: GameState,
    s2: GameState,
    s3: GameState,
    s4: GameState,
    notes: Seq<Seq<char>>,
    s5: GameState,
    mid: GameState,
    lines: Option<Seq<GameEvent>>,
    t: Option<TournamentResult>,
    f1: GameState,
    f2: GameState,
    f3: GameState,
    rep: Option<GameEvent>,
    closing: Seq<GameEvent>,
    all: Seq<GameEvent>,
    d: int,
    h: int,
    coins: Seq<bool>,
) -> bool {
    &&& option_outcome(before, option_id, pick)
    &&& match pick {
        Err(msg) => after == before && (r matches Err(m) && m@ == msg@),
        Ok(v) => {
            &&& underwent(before, v.0, v.1@, mid, lines, s1, s2, s3, s4, notes, s5)
            &&& match lines {
                None => after == mid && (r matches Ok(m) && m.events@.len() == 0 && m.tournament is None && m.game_over == mid.game_over),
                Some(told) => r matches Ok(m) && settled_after(
                    GameState { pending_event: None, ..mid },
                    after,
                    told,
                    scores,
                    m,
                    t,
                    f1,
                    f2,
                    f3,
                    rep,
                    closing,
                    all,
                    d,
                    h,
                    coins,
                ),
            }
        },
    }
}

/// The head answers the waiting event with `option_id` (see
/// `pending_resolved`): refused once the game is over, when no event waits,
/// or for an option the event does not list; else the answer's happening
/// befalls the save, the event is settled and the month goes on to its
/// settlement, the year-end tournament rating both rosters by `scores`.
pub fn resolve_pending_event(rng: &mut StdRng, state: &mut GameState, option_id: &str, scores: &Vec<CombatScore>) -> (r: Result<
    MonthReport,
    String,
>)
    requires
        scores_modest(scores@),
    ensures
        exists|pick: Result<(RandomEvent, &'static str), String>, s1: GameState, s2: GameState, s3: GameState, s4: GameState,
            notes: Seq<Seq<char>>, s5: GameState, mid: GameState, lines: Option<Seq<GameEvent>>, t: Option<TournamentResult>,
            f1: GameState, f2: GameState, f3: GameState, rep: Option<GameEvent>, closing: Seq<GameEvent>, all: Seq<GameEvent>, d: int,
            h: int, coins: Seq<bool>|
            #[trigger] pending_resolved(
                *old(state),
                option_id@,
                *final(state),
                scores@,
                r,
                pick,
                s1,
                s2,
                s3,
                s4,
                notes,
                s5,
                mid,
                lines,
                t,
                f1,
                f2,
                f3,
                rep,
                closing,
                all,
                d,
                h,
                coins,
            ),
{
    let ghost start = *state;
    let pick = choose_pending_option(state, option_id);
    let ghost gp = pick;
    match pick {
        Err(msg) => {
            let ghost gm = msg;
            let r: Result<MonthReport, String> = Err(msg);
            proof {
                assert(pending_resolved(start, option_id@, *state, scores@, r, gp, start, start, start, start, Seq::empty(), start, start, None, None, start, start, start, None, Seq::empty(), Seq::empty(), 0, 0, Seq::empty()));
            }
            r
        },
        Ok((ev, category)) => {
            let (lines, w) = undergo(rng, state, &ev, category);
            let ghost mid = *state;
            match lines {
                None => {
                    let over = state.game_over;
                    let r: Result<MonthReport, String> = Ok(MonthReport { events: Vec::new(), tournament: None, game_over: over });
                    proof {
                        assert(pending_resolved(start, option_id@, *state, scores@, r, gp, w@.0, w@.1, w@.2, w@.3, w@.4, w@.5, mid, None, None, start, start, start, None, Seq::empty(), Seq::empty(), 0, 0, Seq::empty()));
                    }
                    r
                },
                Some(told) => {
                    let ghost tl = told@;
                    state.pending_event = None;
                    let (m, f) = settle(rng, state, told, scores);
                    let r: Result<MonthReport, String> = Ok(m);
                    proof {
                        assert(pending_resolved(start, option_id@, *state, scores@, r, gp, w@.0, w@.1, w@.2, w@.3, w@.4, w@.5, mid, Some(tl), f@.0, f@.1, f@.2, f@.3, f@.4, f@.5, f@.6, f@.7, f@.8, f@.9));
                    }
                    r
                },
            }
        },
    }
}

} // verus!
