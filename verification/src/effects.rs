//! What a happening does to a save: the sect's numbers, free recruits, its
//! special consequence, and swings of the disciples' loyalty.
use vstd::prelude::*;
use rand::rngs::StdRng;
use crate::chance::{chance, pick_index, rand_range};
use crate::country::clamp_int;
use crate::disciple::{living_count, refresh_condition, refreshed, trunc_half};
use crate::event::{EventEffect, RandomEvent};
use crate::game::GameState;
use crate::model::{AcquiredAttributes, Disciple, ResourcePool};
use crate::ledger::Ledger;
use crate::sect::sat32;
use crate::recruit::{generate_disciple, recruited};
use crate::sect::{SectState, list_contains, text_listed};
use crate::text::text_eq;

verus! {

/// `v` moved by the optional change `delta`, within `lo..=hi`.
pub open spec fn shifted(v: i32, delta: Option<i32>, lo: int, hi: int) -> i32 {
    match delta {
        Some(d) => clamp_int(v + d, lo, hi) as i32,
        None => v,
    }
}

/// The save with the event's changes to prestige (`0..=1000`), silver (at
/// least 0), morale and injury (`0..=100`) applied.
pub open spec fn effect_numbers(s: GameState, e: EventEffect) -> GameState {
    GameState {
        prestige: shifted(s.prestige, e.prestige, 0, 1000),
        silver: match e.silver {
            Some(d) => (if s.silver + d < 0 { 0 } else { s.silver + d }) as i32,
            None => s.silver,
        },
        morale: shifted(s.morale, e.morale, 0, 100),
        injury: shifted(s.injury, e.injury, 0, 100),
        ..s
    }
}

fn shift(v: i32, delta: Option<i32>, lo: i32, hi: i32) -> (r: i32)
    requires
        lo <= hi,
    ensures
        r == shifted(v, delta, lo as int, hi as int),
{
    match delta {
        Some(d) => {
            let w: i64 = v as i64 + d as i64;
            if w < lo as i64 { lo } else if w > hi as i64 { hi } else { w as i32 }
        },
        None => v,
    }
}

/// Applies the event's changes to the sect's numbers (see `effect_numbers`).
pub fn apply_effect_numbers(state: &mut GameState, e: &EventEffect)
    requires
        old(state).silver + (match e.silver { Some(d) => d as int, None => 0 }) <= i32::MAX,
    ensures
        *final(state) == effect_numbers(*old(state), *e),
{
    state.prestige = shift(state.prestige, e.prestige, 0, 1000);
    match e.silver {
        Some(d) => {
            let v: i64 = state.silver as i64 + d as i64;
            state.silver = if v < 0 { 0 } else { v as i32 };
        },
        None => {},
    }
    state.morale = shift(state.morale, e.morale, 0, 100);
    state.injury = shift(state.injury, e.injury, 0, 100);
}

/// `after` is `before` with `count` freshly generated recruits (talent bonus
/// 10) appended to the roster, at least zero of them.
pub open spec fn recruits_joined(before: GameState, after: GameState, count: int) -> bool {
    let n = before.disciples@.len();
    let k = if count < 0 { 0 } else { count };
    &&& after == (GameState { disciples: after.disciples, ..before })
    &&& after.disciples@.len() == n + k
    &&& after.disciples@.take(n as int) == before.disciples@
    &&& forall|i: int| n <= i < after.disciples@.len() ==> recruited(#[trigger] after.disciples@[i], 10)
}

/// Appends `count` freshly generated recruits to the roster.
pub fn join_recruits(rng: &mut StdRng, state: &mut GameState, count: i32)
    ensures
        recruits_joined(*old(state), *final(state), count as int),
{
    let ghost start = *state;
    let mut k: i32 = 0;
    while k < count
        invariant
            0 <= k,
            count >= 0 ==> k <= count,
            count < 0 ==> k == 0,
            *state == (GameState { disciples: state.disciples, ..start }),
            state.disciples@.len() == start.disciples@.len() + k,
            state.disciples@.take(start.disciples@.len() as int) == start.disciples@,
            forall|i: int| start.disciples@.len() <= i < state.disciples@.len() ==> recruited(#[trigger] state.disciples@[i], 10),
        decreases count - k,
    {
        let d = generate_disciple(rng, 10);
        let ghost before = state.disciples@;
        state.disciples.push(d);
        proof {
            assert(state.disciples@.take(start.disciples@.len() as int) =~= before.take(start.disciples@.len() as int));
            assert forall|i: int| start.disciples@.len() <= i < state.disciples@.len() implies recruited(#[trigger] state.disciples@[i], 10) by {
                if i < before.len() {
                    assert(state.disciples@[i] == before[i]);
                }
            }
        }
        k = k + 1;
    }
}

/// `d` after a lost point of heart: with `hit`, loyalty falls by `loss`
/// within `0..=100`.
pub open spec fn disheartened(d: Disciple, hit: bool, loss: int) -> Disciple {
    if hit { Disciple { loyalty: clamp_int(d.loyalty - loss, 0, 100) as i32, ..d } } else { d }
}

/// `d` with loyalty moved by `swing` within `0..=100`.
pub open spec fn swung(d: Disciple, swing: int) -> Disciple {
    Disciple { loyalty: clamp_int(d.loyalty + swing, 0, 100) as i32, ..d }
}

/// A disciple's loyalty after the event's possible loss (when alive and `hit`,
/// of `loss`) and possible swing (when alive, by `swing`).
pub open spec fn loyalty_outcome(d: Disciple, e: EventEffect, hit: bool, loss: int, swing: int) -> Disciple {
    let loses = e.loyalty_loss == Some(true) && d.alive;
    let moves = e.loyalty_change == Some(true) && d.alive;
    if moves {
        swung(disheartened(d, loses && hit, loss), swing)
    } else {
        disheartened(d, loses && hit, loss)
    }
}

/// Disciple `i` of `after` is disciple `i` of `before` after some roll of the
/// event's loyalty effects.
pub open spec fn loyalty_step(before: GameState, after: GameState, e: EventEffect, i: int) -> bool {
    exists|hit: bool, loss: int, swing: int| {
        &&& 5 <= loss <= 15
        &&& -5 <= swing <= 10
        &&& after.disciples@[i] == #[trigger] loyalty_outcome(before.disciples@[i], e, hit, loss, swing)
    }
}

/// `after` is `before` after the event's loyalty effects: with a loyalty loss
/// each living disciple, with three chances in ten, loses 5 to 15 loyalty;
/// then with a loyalty change each living disciple's loyalty moves by -5 to
/// 10; all within `0..=100`. Nothing else changes.
pub open spec fn loyalty_swung(before: GameState, after: GameState, e: EventEffect) -> bool {
    let ds = before.disciples@;
    &&& after == (GameState { disciples: after.disciples, ..before })
    &&& after.disciples@.len() == ds.len()
    &&& forall|i: int| 0 <= i < ds.len() ==> #[trigger] loyalty_step(before, after, e, i)
}

/// Applies the event's loyalty effects (see `loyalty_swung`).
pub fn apply_loyalty_swings(rng: &mut StdRng, state: &mut GameState, e: &EventEffect)
    ensures
        loyalty_swung(*old(state), *final(state), *e),
{
    let ghost start = *state;
    let ghost ds = state.disciples@;
    let loses = match e.loyalty_loss { Some(b) => b, None => false };
    let moves = match e.loyalty_change { Some(b) => b, None => false };
    let ghost mut hits: Seq<bool> = Seq::empty();
    let ghost mut drops: Seq<int> = Seq::empty();
    let mut i: usize = 0;
    while i < state.disciples.len()
        invariant
            i <= ds.len(),
            ds == start.disciples@,
            state.disciples@.len() == ds.len(),
            *state == (GameState { disciples: state.disciples, ..start }),
            loses == (e.loyalty_loss == Some(true)),
            hits.len() == i,
            drops.len() == i,
            forall|j: int| 0 <= j < i ==> 5 <= #[trigger] drops[j] <= 15,
            forall|j: int| 0 <= j < i ==> #[trigger] state.disciples@[j] == disheartened(ds[j], loses && ds[j].alive && hits[j], drops[j]),
            forall|j: int| i <= j < ds.len() ==> #[trigger] state.disciples@[j] == ds[j],
        decreases ds.len() - i,
    {
        let mut hit = false;
        let mut loss: i32 = 5;
        if loses && state.disciples[i].alive {
            hit = chance(rng, 3, 10);
            if hit {
                loss = rand_range(rng, 5, 15);
                let v: i64 = state.disciples[i].loyalty as i64 - loss as i64;
                state.disciples[i].loyalty = if v < 0 { 0 } else if v > 100 { 100 } else { v as i32 };
            }
        }
        proof {
            hits = hits.push(hit);
            drops = drops.push(loss as int);
        }
        i = i + 1;
    }
    let ghost mid = state.disciples@;
    let ghost mut swings: Seq<int> = Seq::empty();
    let mut j: usize = 0;
    while j < state.disciples.len()
        invariant
            j <= ds.len(),
            ds == start.disciples@,
            mid.len() == ds.len(),
            state.disciples@.len() == ds.len(),
            *state == (GameState { disciples: state.disciples, ..start }),
            moves == (e.loyalty_change == Some(true)),
            swings.len() == j,
            forall|q: int| 0 <= q < j ==> -5 <= #[trigger] swings[q] <= 10,
            forall|q: int| 0 <= q < j ==> #[trigger] state.disciples@[q] == (if moves && mid[q].alive { swung(mid[q], swings[q]) } else { mid[q] }),
            forall|q: int| j <= q < ds.len() ==> #[trigger] state.disciples@[q] == mid[q],
            forall|q: int| 0 <= q < ds.len() ==> (#[trigger] mid[q]).alive == ds[q].alive,
        decreases ds.len() - j,
    {
        let mut swing: i32 = 0;
        if moves && state.disciples[j].alive {
            swing = rand_range(rng, -5, 10);
            let v: i64 = state.disciples[j].loyalty as i64 + swing as i64;
            state.disciples[j].loyalty = if v < 0 { 0 } else if v > 100 { 100 } else { v as i32 };
        }
        proof {
            swings = swings.push(swing as int);
        }
        j = j + 1;
    }
    proof {
        assert forall|q: int| 0 <= q < ds.len() implies #[trigger] loyalty_step(start, *state, *e, q) by {
            assert(state.disciples@[q] == loyalty_outcome(ds[q], *e, hits[q], drops[q], swings[q]));
        }
        assert(*state == (GameState { disciples: state.disciples, ..start }));
        assert(state.disciples@.len() == ds.len());
        assert(loyalty_swung(start, *state, *e));
    }
}

/// The special consequence is `tag`.
pub open spec fn special_is(special: Option<String>, tag: Seq<char>) -> bool {
    special matches Some(s) && s@ == tag
}

/// `after` is `before` with only the player's sect's stores changed: `item`
/// gains `n` and every other item is as it was.
pub open spec fn stocked(before: GameState, after: GameState, item: Seq<char>, n: int) -> bool {
    &&& after == (GameState { sect: SectState { inventory: after.sect.inventory, ..before.sect }, ..before })
    &&& after.sect.inventory.has(item)
    &&& after.sect.inventory.amount(item) == before.sect.inventory.amount(item) + n
    &&& ledger_kept_except(before.sect.inventory, after.sect.inventory, item)
}

/// Every name other than `name` has the same entry in both tables.
pub open spec fn ledger_kept_except(a: Ledger<i32>, b: Ledger<i32>, name: Seq<char>) -> bool {
    &&& forall|k: Seq<char>| k != name ==> #[trigger] b.has(k) == a.has(k)
    &&& forall|k: Seq<char>| k != name && #[trigger] a.has(k) ==> b.at(k) == a.at(k)
}

/// `after` is `before` with the player's sect's attributes replaced by `attrs`.
pub open spec fn with_attributes(before: GameState, after: GameState, attrs: crate::sect::SectAttributes) -> bool {
    after == (GameState { sect: SectState { attributes: attrs, ..before.sect }, ..before })
}

/// Position `w` holds the first of the disciples with the least qi.
pub open spec fn is_weakest(ds: Seq<Disciple>, w: int) -> bool {
    &&& 0 <= w < ds.len()
    &&& forall|j: int| 0 <= j < ds.len() ==> ds[w].attributes.qi.current <= (#[trigger] ds[j]).attributes.qi.current
    &&& forall|j: int| 0 <= j < w ==> (#[trigger] ds[j]).attributes.qi.current > ds[w].attributes.qi.current
}

/// `d` brought back to half its qi and half its spirit.
pub open spec fn brought_round(d: Disciple) -> Disciple {
    let a = d.attributes;
    refreshed(Disciple {
        attributes: AcquiredAttributes {
            qi: ResourcePool { current: trunc_half(a.qi.maximum as int) as i32, ..a.qi },
            spirit: ResourcePool { current: trunc_half(a.spirit.maximum as int) as i32, ..a.spirit },
            ..a
        },
        ..d
    })
}

/// The arts a windfall manual may hold, with their names.
pub open spec fn manual_arts() -> Seq<(Seq<char>, Seq<char>)> {
    seq![
        ("basic_unarmed"@, "基本拳脚"@),
        ("basic_dodge"@, "基本轻功"@),
        ("basic_force"@, "基本内功"@),
        ("basic_sword"@, "基本剑法"@),
        ("basic_parry"@, "基本招架"@),
        ("hunyuan"@, "混元功"@),
        ("wudang_foundation"@, "武当心法"@),
        ("wudang_outer_unarmed"@, "武当长拳"@),
        ("wudang_knowledge"@, "武当道藏"@),
    ]
}

fn manual_art_at(i: usize) -> (r: (&'static str, &'static str))
    requires
        i < 9,
    ensures
        r.0@ == manual_arts()[i as int].0,
        r.1@ == manual_arts()[i as int].1,
{
    if i == 0 {
        ("basic_unarmed", "基本拳脚")
    } else if i == 1 {
        ("basic_dodge", "基本轻功")
    } else if i == 2 {
        ("basic_force", "基本内功")
    } else if i == 3 {
        ("basic_sword", "基本剑法")
    } else if i == 4 {
        ("basic_parry", "基本招架")
    } else if i == 5 {
        ("hunyuan", "混元功")
    } else if i == 6 {
        ("wudang_foundation", "武当心法")
    } else if i == 7 {
        ("wudang_outer_unarmed", "武当长拳")
    } else {
        ("wudang_knowledge", "武当道藏")
    }
}

/// Some disciple keeps a manual of art `id` in its own satchel.
pub open spec fn privately_held(ds: Seq<Disciple>, id: Seq<char>) -> bool {
    exists|j: int, p: int| 0 <= j < ds.len() && 0 <= p < ds[j].private_books@.len() && (#[trigger] ds[j].private_books@[p])@ == id
}

/// Art `id` is still unknown to the sect: not in the public library, not
/// learned, and in nobody's satchel.
pub open spec fn unknown_art(s: GameState, id: Seq<char>) -> bool {
    !text_listed(s.sect.public_books@, id) && !text_listed(s.martial_arts_learned@, id) && !privately_held(s.disciples@, id)
}

/// Positions among the first `n` manual arts still unknown to the sect.
pub open spec fn unknown_arts(s: GameState, n: int) -> Seq<int>
    decreases n,
{
    if n <= 0 {
        Seq::empty()
    } else if unknown_art(s, manual_arts()[n - 1].0) {
        unknown_arts(s, n - 1).push(n - 1)
    } else {
        unknown_arts(s, n - 1)
    }
}

/// The chronicle line for a found manual.
pub open spec fn manual_text(owner: Seq<char>, art: Seq<char>) -> Seq<char> {
    owner + "偶得《"@ + art + "》残卷，暂收入个人行囊，可自行研读或献入藏经阁。"@
}

/// `after` is `before` with a manual of unknown art `c` (a position of
/// `manual_arts`) put in the satchel of living disciple `i`.
pub open spec fn manual_found(before: GameState, after: GameState, c: int, i: int) -> bool {
    let ds = before.disciples@;
    &&& 0 <= i < ds.len()
    &&& ds[i].alive
    &&& unknown_arts(before, 9).contains(c)
    &&& after == (GameState { disciples: after.disciples, ..before })
    &&& after.disciples@.len() == ds.len()
    &&& forall|j: int| 0 <= j < ds.len() && j != i ==> #[trigger] after.disciples@[j] == ds[j]
    &&& after.disciples@[i] == (Disciple { private_books: after.disciples@[i].private_books, ..ds[i] })
    &&& after.disciples@[i].private_books@.len() == ds[i].private_books@.len() + 1
    &&& after.disciples@[i].private_books@.drop_last() == ds[i].private_books@
    &&& after.disciples@[i].private_books@.last()@ == manual_arts()[c].0
}

/// `after` is `before` with both sides' relation, between the player's sect
/// and the other sect at position `x`, raised by 8 within `-100..=100`.
pub open spec fn alliance_sealed(before: GameState, after: GameState, x: int) -> bool {
    let other = before.npc_sects@[x];
    let mine = before.sect.id@;
    let theirs = other.id@;
    &&& 0 <= x < before.npc_sects@.len()
    &&& after == (GameState {
        sect: SectState { relations: after.sect.relations, ..before.sect },
        npc_sects: after.npc_sects,
        ..before
    })
    &&& after.npc_sects@.len() == before.npc_sects@.len()
    &&& forall|j: int| 0 <= j < before.npc_sects@.len() && j != x ==> #[trigger] after.npc_sects@[j] == before.npc_sects@[j]
    &&& after.npc_sects@[x] == (SectState { relations: after.npc_sects@[x].relations, ..other })
    &&& after.sect.relations.has(theirs)
    &&& after.sect.relations.amount(theirs) == clamp_int(before.sect.relations.amount(theirs) + 8, -100, 100)
    &&& ledger_kept_except(before.sect.relations, after.sect.relations, theirs)
    &&& after.npc_sects@[x].relations.has(mine)
    &&& after.npc_sects@[x].relations.amount(mine) == clamp_int(other.relations.amount(mine) + 8, -100, 100)
    &&& ledger_kept_except(other.relations, after.npc_sects@[x].relations, mine)
}

/// The chronicle line for a sealed alliance.
pub open spec fn alliance_text(name: Seq<char>) -> Seq<char> {
    "本派与"@ + name + "互致盟书，双方交情各有进益。"@
}

/// The chronicle line for an inspired disciple.
pub open spec fn insight_text(name: Seq<char>) -> Seq<char> {
    name + "听掌门讲道，若有所悟，内力精进！"@
}

/// `after` is `before` (with prestige already raised) where the `k`-th living
/// disciple, at position `i`, gained `gain` inner force, keeping at least 10.
pub open spec fn insight_gained(before: GameState, after: GameState, i: int, gain: int) -> bool {
    let ds = before.disciples@;
    &&& 0 <= i < ds.len()
    &&& ds[i].alive
    &&& 8 <= gain <= 20
    &&& after == (GameState { disciples: after.disciples, ..before })
    &&& after.disciples@ == ds.update(i, Disciple {
        inner_power: (if ds[i].inner_power + gain < 10 { 10 } else { ds[i].inner_power + gain }) as i32,
        ..ds[i]
    })
}

/// `after` and the chronicle lines `notes` follow from `before` by the special
/// consequence `special`:
/// - "manual": a living disciple finds a manual of an art still unknown to the sect;
/// - "stock_grain" / "stock_herbs": 60 grain / 18 herbs into the stores;
/// - "lose_loyalty": every disciple loses 5 loyalty, not below 0;
/// - "heal_disciple": the disciple with the least qi comes round to half its qi and spirit;
/// - "court_service" / "uphold_morality": morality -5 (not below 0) / +3 (not above 100);
/// - "charity": morality +8 (not above 100), the grain store 30 lower (saturating);
/// - "improve_relation": the player's sect and one other sect draw 8 closer;
/// - "epiphany": prestige +3 (within `0..=1000`) and a living disciple gains 8 to 20 inner force;
/// - anything else: nothing.
pub open spec fn special_applied(before: GameState, after: GameState, special: Option<String>, notes: Seq<Seq<char>>) -> bool {
    let a = before.sect.attributes;
    if special_is(special, "manual"@) {
        if unknown_arts(before, 9).len() == 0 || living_count(before.disciples@, before.disciples@.len() as int) == 0 {
            after == before && notes.len() == 0
        } else {
            exists|c: int, i: int| #[trigger] manual_found(before, after, c, i)
                && notes == seq![manual_text(before.disciples@[i].name@, manual_arts()[c].1)]
        }
    } else if special_is(special, "stock_grain"@) {
        stocked(before, after, "粮秣"@, 60) && notes.len() == 0
    } else if special_is(special, "stock_herbs"@) {
        stocked(before, after, "草药"@, 18) && notes.len() == 0
    } else if special_is(special, "lose_loyalty"@) {
        &&& after == (GameState { disciples: after.disciples, ..before })
        &&& after.disciples@.len() == before.disciples@.len()
        &&& forall|i: int| 0 <= i < before.disciples@.len() ==> #[trigger] after.disciples@[i] == (Disciple {
            loyalty: (if before.disciples@[i].loyalty - 5 < 0 { 0 } else { before.disciples@[i].loyalty - 5 }) as i32,
            ..before.disciples@[i]
        })
        &&& notes.len() == 0
    } else if special_is(special, "heal_disciple"@) {
        &&& notes.len() == 0
        &&& if before.disciples@.len() == 0 {
            after == before
        } else {
            exists|w: int| #[trigger] is_weakest(before.disciples@, w)
                && after == (GameState { disciples: after.disciples, ..before })
                && after.disciples@ == before.disciples@.update(w, brought_round(before.disciples@[w]))
        }
    } else if special_is(special, "court_service"@) {
        with_attributes(before, after, crate::sect::SectAttributes { morality: (if a.morality - 5 < 0 { 0 } else { a.morality - 5 }) as i32, ..a })
            && notes.len() == 0
    } else if special_is(special, "uphold_morality"@) {
        with_attributes(before, after, crate::sect::SectAttributes { morality: (if a.morality + 3 > 100 { 100 } else { a.morality + 3 }) as i32, ..a })
            && notes.len() == 0
    } else if special_is(special, "charity"@) {
        let mid = GameState { sect: SectState { attributes: crate::sect::SectAttributes {
            morality: (if a.morality + 8 > 100 { 100 } else { a.morality + 8 }) as i32, ..a }, ..before.sect }, ..before };
        &&& after == (GameState { sect: SectState { inventory: after.sect.inventory, ..mid.sect }, ..mid })
        &&& after.sect.inventory.has("粮秣"@)
        &&& after.sect.inventory.amount("粮秣"@) == sat32(before.sect.inventory.amount("粮秣"@) - 30)
        &&& ledger_kept_except(before.sect.inventory, after.sect.inventory, "粮秣"@)
        &&& notes.len() == 0
    } else if special_is(special, "improve_relation"@) {
        if before.npc_sects@.len() == 0 {
            after == before && notes.len() == 0
        } else {
            exists|x: int| #[trigger] alliance_sealed(before, after, x)
                && notes == seq![alliance_text(before.npc_sects@[x].name@)]
        }
    } else if special_is(special, "epiphany"@) {
        let raised = GameState { prestige: clamp_int(before.prestige + 3, 0, 1000) as i32, ..before };
        if living_count(before.disciples@, before.disciples@.len() as int) == 0 {
            after == raised && notes.len() == 0
        } else {
            exists|i: int, gain: int| #[trigger] insight_gained(raised, after, i, gain)
                && notes == seq![insight_text(before.disciples@[i].name@)]
        }
    } else {
        after == before && notes.len() == 0
    }
}

fn held_privately(ds: &Vec<Disciple>, id: &str) -> (r: bool)
    ensures
        r == privately_held(ds@, id@),
{
    let mut j: usize = 0;
    while j < ds.len()
        invariant
            j <= ds@.len(),
            forall|q: int, p: int| 0 <= q < j && 0 <= p < ds@[q].private_books@.len() ==> (#[trigger] ds@[q].private_books@[p])@ != id@,
        decreases ds@.len() - j,
    {
        let books = &ds[j].private_books;
        let mut p: usize = 0;
        while p < books.len()
            invariant
                j < ds@.len(),
                p <= books@.len(),
                books@ == ds@[j as int].private_books@,
                forall|q: int| 0 <= q < p ==> (#[trigger] books@[q])@ != id@,
            decreases books@.len() - p,
        {
            if text_eq(books[p].as_str(), id) {
                proof {
                    assert(ds@[j as int].private_books@[p as int]@ == id@);
                }
                return true;
            }
            p = p + 1;
        }
        j = j + 1;
    }
    false
}

fn unknown_art_list(state: &GameState) -> (r: Vec<usize>)
    ensures
        r@.len() == unknown_arts(*state, 9).len(),
        forall|q: int| 0 <= q < r@.len() ==> r@[q] as int == #[trigger] unknown_arts(*state, 9)[q],
        forall|q: int| 0 <= q < r@.len() ==> r@[q] < 9,
{
    let mut r: Vec<usize> = Vec::new();
    let mut c: usize = 0;
    while c < 9
        invariant
            c <= 9,
            r@.len() == unknown_arts(*state, c as int).len(),
            forall|q: int| 0 <= q < r@.len() ==> r@[q] as int == #[trigger] unknown_arts(*state, c as int)[q],
            forall|q: int| 0 <= q < r@.len() ==> r@[q] < c,
        decreases 9 - c,
    {
        let (id, _) = manual_art_at(c);
        if !list_contains(&state.sect.public_books, id) && !list_contains(&state.martial_arts_learned, id)
            && !held_privately(&state.disciples, id) {
            r.push(c);
        }
        c = c + 1;
    }
    r
}

/// Position of the `k`-th living disciple.
fn nth_living(ds: &Vec<Disciple>, k: usize) -> (i: usize)
    requires
        k < living_count(ds@, ds@.len() as int),
    ensures
        i < ds@.len(),
        ds@[i as int].alive,
        living_count(ds@, i as int) == k,
{
    let mut seen: usize = 0;
    let mut i: usize = 0;
    while i < ds.len()
        invariant
            i <= ds@.len(),
            seen == living_count(ds@, i as int),
            seen <= k,
            k < living_count(ds@, ds@.len() as int),
        decreases ds@.len() - i,
    {
        if ds[i].alive {
            if seen == k {
                return i;
            }
            seen = seen + 1;
        }
        i = i + 1;
    }
    proof {
        assert(false);
    }
    0
}

fn living_total(ds: &Vec<Disciple>) -> (n: usize)
    ensures
        n == living_count(ds@, ds@.len() as int),
{
    let mut n: usize = 0;
    let mut i: usize = 0;
    while i < ds.len()
        invariant
            i <= ds@.len(),
            n == living_count(ds@, i as int),
            n <= i,
        decreases ds@.len() - i,
    {
        if ds[i].alive {
            n = n + 1;
        }
        i = i + 1;
    }
    n
}

fn manual_note(owner: &str, art: &str) -> (r: String)
    ensures
        r@ == manual_text(owner@, art@),
{
    let mut s = owner.to_owned();
    s.append("偶得《");
    s.append(art);
    s.append("》残卷，暂收入个人行囊，可自行研读或献入藏经阁。");
    s
}

/// A living disciple finds a manual of an art still unknown to the sect.
fn find_manual(rng: &mut StdRng, state: &mut GameState) -> (notes: Vec<String>)
    ensures
        if unknown_arts(*old(state), 9).len() == 0 || living_count(old(state).disciples@, old(state).disciples@.len() as int) == 0 {
            *final(state) == *old(state) && notes@.len() == 0
        } else {
            exists|c: int, i: int| #[trigger] manual_found(*old(state), *final(state), c, i)
                && notes@.map_values(|s: String| s@) == seq![manual_text(old(state).disciples@[i].name@, manual_arts()[c].1)]
        },
{
    let mut notes: Vec<String> = Vec::new();
    let unknown = unknown_art_list(state);
    let living = living_total(&state.disciples);
    if unknown.len() == 0 || living == 0 {
        return notes;
    }
    let k = pick_index(rng, unknown.len());
    let c = unknown[k];
    let owner = nth_living(&state.disciples, pick_index(rng, living));
    let (id, name) = manual_art_at(c);
    let ghost before = *state;
    proof {
        assert(unknown_arts(before, 9)[k as int] == c as int);
        assert(unknown_arts(before, 9).contains(c as int));
    }
    state.disciples[owner].private_books.push(id.to_owned());
    let note = manual_note(state.disciples[owner].name.as_str(), name);
    notes.push(note);
    proof {
        let ds = before.disciples@;
        let i = owner as int;
        assert(*state == (GameState { disciples: state.disciples, ..before }));
        assert(state.disciples@.len() == ds.len());
        assert(forall|j: int| 0 <= j < ds.len() && j != i ==> #[trigger] state.disciples@[j] == ds[j]);
        assert(state.disciples@[i] == (Disciple { private_books: state.disciples@[i].private_books, ..ds[i] }));
        assert(state.disciples@[i].private_books@.len() == ds[i].private_books@.len() + 1);
        assert(state.disciples@[i].private_books@.drop_last() =~= ds[i].private_books@);
        assert(state.disciples@[i].private_books@.last()@ == manual_arts()[c as int].0);
        assert(manual_found(before, *state, c as int, owner as int));
        assert(notes@.map_values(|s: String| s@) =~= seq![manual_text(before.disciples@[owner as int].name@, manual_arts()[c as int].1)]);
    }
    notes
}

/// Puts `n` of `item` into the player's stores.
fn stock_up(state: &mut GameState, item: &str, n: i32)
    requires
        old(state).sect.inventory.amount(item@) + n <= i32::MAX,
        n >= 0,
    ensures
        stocked(*old(state), *final(state), item@, n as int),
{
    state.sect.inventory.add(item, n);
}

/// Every disciple loses 5 loyalty, not below zero.
fn lose_loyalty(state: &mut GameState)
    ensures
        *final(state) == (GameState { disciples: final(state).disciples, ..*old(state) }),
        final(state).disciples@.len() == old(state).disciples@.len(),
        forall|i: int| 0 <= i < old(state).disciples@.len() ==> #[trigger] final(state).disciples@[i] == (Disciple {
            loyalty: (if old(state).disciples@[i].loyalty - 5 < 0 { 0 } else { old(state).disciples@[i].loyalty - 5 }) as i32,
            ..old(state).disciples@[i]
        }),
{
    let ghost start = *state;
    let mut i: usize = 0;
    while i < state.disciples.len()
        invariant
            i <= start.disciples@.len(),
            state.disciples@.len() == start.disciples@.len(),
            *state == (GameState { disciples: state.disciples, ..start }),
            forall|j: int| 0 <= j < i ==> #[trigger] state.disciples@[j] == (Disciple {
                loyalty: (if start.disciples@[j].loyalty - 5 < 0 { 0 } else { start.disciples@[j].loyalty - 5 }) as i32,
                ..start.disciples@[j]
            }),
            forall|j: int| i <= j < start.disciples@.len() ==> #[trigger] state.disciples@[j] == start.disciples@[j],
        decreases start.disciples@.len() - i,
    {
        let l: i64 = state.disciples[i].loyalty as i64 - 5;
        state.disciples[i].loyalty = if l < 0 { 0 } else { l as i32 };
        i = i + 1;
    }
}

/// The disciple with the least qi (the first of them) comes round.
fn heal_weakest(state: &mut GameState)
    ensures
        if old(state).disciples@.len() == 0 {
            *final(state) == *old(state)
        } else {
            exists|w: int| #[trigger] is_weakest(old(state).disciples@, w)
                && *final(state) == (GameState { disciples: final(state).disciples, ..*old(state) })
                && final(state).disciples@ == old(state).disciples@.update(w, brought_round(old(state).disciples@[w]))
        },
{
    if state.disciples.len() == 0 {
        return;
    }
    let ghost ds = state.disciples@;
    let mut w: usize = 0;
    let mut i: usize = 1;
    while i < state.disciples.len()
        invariant
            ds == state.disciples@,
            1 <= i <= ds.len(),
            w < i,
            forall|j: int| 0 <= j < i ==> ds[w as int].attributes.qi.current <= (#[trigger] ds[j]).attributes.qi.current,
            forall|j: int| 0 <= j < w ==> (#[trigger] ds[j]).attributes.qi.current > ds[w as int].attributes.qi.current,
        decreases ds.len() - i,
    {
        if state.disciples[i].attributes.qi.current < state.disciples[w].attributes.qi.current {
            w = i;
        }
        i = i + 1;
    }
    let ghost start = *state;
    let qi_top = state.disciples[w].attributes.qi.maximum;
    let spirit_top = state.disciples[w].attributes.spirit.maximum;
    state.disciples[w].attributes.qi.current = qi_top / 2;
    state.disciples[w].attributes.spirit.current = spirit_top / 2;
    refresh_condition(&mut state.disciples[w]);
    proof {
        assert(is_weakest(ds, w as int));
        assert(state.disciples@ =~= ds.update(w as int, brought_round(ds[w as int])));
    }
}

/// Sets the player's sect's morality.
fn set_morality(state: &mut GameState, morality: i32)
    ensures
        with_attributes(*old(state), *final(state), crate::sect::SectAttributes { morality, ..old(state).sect.attributes }),
{
    state.sect.attributes.morality = morality;
}

/// Charity: morality +8 (not above 100) and 30 grain handed out.
fn give_charity(state: &mut GameState)
    ensures
        ({
            let a = old(state).sect.attributes;
            let mid = GameState { sect: SectState { attributes: crate::sect::SectAttributes {
                morality: (if a.morality + 8 > 100 { 100 } else { a.morality + 8 }) as i32, ..a }, ..old(state).sect }, ..*old(state) };
            &&& *final(state) == (GameState { sect: SectState { inventory: final(state).sect.inventory, ..mid.sect }, ..mid })
            &&& final(state).sect.inventory.has("粮秣"@)
            &&& final(state).sect.inventory.amount("粮秣"@) == sat32(old(state).sect.inventory.amount("粮秣"@) - 30)
            &&& ledger_kept_except(old(state).sect.inventory, final(state).sect.inventory, "粮秣"@)
        }),
{
    let m: i64 = state.sect.attributes.morality as i64 + 8;
    state.sect.attributes.morality = if m > 100 { 100 } else { m as i32 };
    let grain: i64 = state.sect.inventory.amount_of("粮秣") as i64 - 30;
    let left: i32 = if grain < i32::MIN as i64 { i32::MIN } else { grain as i32 };
    state.sect.inventory.insert("粮秣", left);
}

fn alliance_note(name: &str) -> (r: String)
    ensures
        r@ == alliance_text(name@),
{
    let mut s = String::from_str("本派与");
    s.append(name);
    s.append("互致盟书，双方交情各有进益。");
    s
}

/// The player's sect and one other sect, drawn at random, seal an alliance.
fn seal_alliance(rng: &mut StdRng, state: &mut GameState) -> (notes: Vec<String>)
    ensures
        if old(state).npc_sects@.len() == 0 {
            *final(state) == *old(state) && notes@.len() == 0
        } else {
            exists|x: int| #[trigger] alliance_sealed(*old(state), *final(state), x)
                && notes@.map_values(|s: String| s@) == seq![alliance_text(old(state).npc_sects@[x].name@)]
        },
{
    let mut notes: Vec<String> = Vec::new();
    if state.npc_sects.len() == 0 {
        return notes;
    }
    let ghost start = *state;
    let x = pick_index(rng, state.npc_sects.len());
    let other_id = state.npc_sects[x].id.clone();
    let player_id = state.sect.id.clone();
    let mine: i64 = state.sect.relations.amount_of(other_id.as_str()) as i64 + 8;
    state.sect.relations.insert(other_id.as_str(), if mine > 100 { 100 } else if mine < -100 { -100 } else { mine as i32 });
    let theirs: i64 = state.npc_sects[x].relations.amount_of(player_id.as_str()) as i64 + 8;
    state.npc_sects[x].relations.insert(player_id.as_str(), if theirs > 100 { 100 } else if theirs < -100 { -100 } else { theirs as i32 });
    let note = alliance_note(state.npc_sects[x].name.as_str());
    notes.push(note);
    proof {
        assert(alliance_sealed(start, *state, x as int));
        assert(notes@.map_values(|s: String| s@) =~= seq![alliance_text(start.npc_sects@[x as int].name@)]);
    }
    notes
}

fn insight_note(name: &str) -> (r: String)
    ensures
        r@ == insight_text(name@),
{
    let mut s = name.to_owned();
    s.append("听掌门讲道，若有所悟，内力精进！");
    s
}

/// Every living disciple's inner force has room for an insight.
pub open spec fn insight_fits(ds: Seq<Disciple>) -> bool {
    forall|i: int| 0 <= i < ds.len() ==> ((#[trigger] ds[i]).alive ==> ds[i].inner_power <= i32::MAX - 20)
}

/// Prestige rises by 3 and a living disciple, drawn at random, gains 8 to 20
/// inner force.
fn share_insight(rng: &mut StdRng, state: &mut GameState) -> (notes: Vec<String>)
    requires
        insight_fits(old(state).disciples@),
    ensures
        ({
            let raised = GameState { prestige: clamp_int(old(state).prestige + 3, 0, 1000) as i32, ..*old(state) };
            if living_count(old(state).disciples@, old(state).disciples@.len() as int) == 0 {
                *final(state) == raised && notes@.len() == 0
            } else {
                exists|i: int, gain: int| #[trigger] insight_gained(raised, *final(state), i, gain)
                    && notes@.map_values(|s: String| s@) == seq![insight_text(old(state).disciples@[i].name@)]
            }
        }),
{
    let p: i64 = state.prestige as i64 + 3;
    state.prestige = if p < 0 { 0 } else if p > 1000 { 1000 } else { p as i32 };
    let mut notes: Vec<String> = Vec::new();
    let living = living_total(&state.disciples);
    if living == 0 {
        return notes;
    }
    let ghost raised = *state;
    let i = nth_living(&state.disciples, pick_index(rng, living));
    let gain = rand_range(rng, 8, 20);
    let v = state.disciples[i].inner_power + gain;
    state.disciples[i].inner_power = if v < 10 { 10 } else { v };
    let note = insight_note(state.disciples[i].name.as_str());
    notes.push(note);
    proof {
        assert(state.disciples@ =~= raised.disciples@.update(i as int, Disciple {
            inner_power: (if raised.disciples@[i as int].inner_power + gain < 10 { 10 } else { raised.disciples@[i as int].inner_power + gain }) as i32,
            ..raised.disciples@[i as int]
        }));
        assert(insight_gained(raised, *state, i as int, gain as int));
        assert(notes@.map_values(|s: String| s@) =~= seq![insight_text(raised.disciples@[i as int].name@)]);
    }
    notes
}

/// The special consequence's arithmetic fits in `i32`.
pub open spec fn special_fits(s: GameState, special: Option<String>) -> bool {
    &&& special_is(special, "stock_grain"@) ==> s.sect.inventory.amount("粮秣"@) + 60 <= i32::MAX
    &&& special_is(special, "stock_herbs"@) ==> s.sect.inventory.amount("草药"@) + 18 <= i32::MAX
    &&& special_is(special, "epiphany"@) ==> insight_fits(s.disciples@)
}

/// Carries out the special consequence (see `special_applied`).
pub fn apply_special(rng: &mut StdRng, state: &mut GameState, special: &Option<String>) -> (notes: Vec<String>)
    requires
        special_fits(*old(state), *special),
    ensures
        special_applied(*old(state), *final(state), *special, notes@.map_values(|s: String| s@)),
{
    let mut notes: Vec<String> = Vec::new();
    let tag = match special {
        Some(t) => t.as_str(),
        None => {
            proof {
                assert(notes@.map_values(|s: String| s@) =~= Seq::<Seq<char>>::empty());
            }
            return notes;
        },
    };
    proof {
        reveal_strlit("manual");
        reveal_strlit("stock_grain");
        reveal_strlit("stock_herbs");
        reveal_strlit("lose_loyalty");
        reveal_strlit("heal_disciple");
        reveal_strlit("court_service");
        reveal_strlit("uphold_morality");
        reveal_strlit("charity");
        reveal_strlit("improve_relation");
        reveal_strlit("epiphany");
    }
    if text_eq(tag, "manual") {
        notes = find_manual(rng, state);
    } else if text_eq(tag, "stock_grain") {
        stock_up(state, "粮秣", 60);
    } else if text_eq(tag, "stock_herbs") {
        stock_up(state, "草药", 18);
    } else if text_eq(tag, "lose_loyalty") {
        lose_loyalty(state);
    } else if text_eq(tag, "heal_disciple") {
        heal_weakest(state);
    } else if text_eq(tag, "court_service") {
        let m = state.sect.attributes.morality as i64 - 5;
        set_morality(state, if m < 0 { 0 } else { m as i32 });
    } else if text_eq(tag, "uphold_morality") {
        let m = state.sect.attributes.morality as i64 + 3;
        set_morality(state, if m > 100 { 100 } else { m as i32 });
    } else if text_eq(tag, "charity") {
        give_charity(state);
    } else if text_eq(tag, "improve_relation") {
        notes = seal_alliance(rng, state);
    } else if text_eq(tag, "epiphany") {
        notes = share_insight(rng, state);
    }
    proof {
        if notes@.len() == 0 {
            assert(notes@.map_values(|s: String| s@) =~= Seq::<Seq<char>>::empty());
        }
    }
    notes
}

/// The line for free recruits.
pub open spec fn recruit_notes(e: EventEffect) -> Seq<Seq<char>> {
    if e.free_recruit is Some { seq!["数名江湖人士加入本派！"@] } else { Seq::empty() }
}

/// An event's arithmetic fits in `i32`.
pub open spec fn effect_fits(s: GameState, e: EventEffect) -> bool {
    &&& s.silver + (match e.silver { Some(d) => d as int, None => 0 }) <= i32::MAX
    &&& special_fits(s, e.special)
}

/// The four steps of an event lead from `before` through `s1`, `s2` and
/// `s3` to `after`, with `notes` the lines of the special consequence.
pub open spec fn event_steps(before: GameState, s1: GameState, s2: GameState, s3: GameState, after: GameState, e: EventEffect, notes: Seq<Seq<char>>) -> bool {
    &&& s1 == effect_numbers(before, e)
    &&& match e.free_recruit {
        Some(c) => recruits_joined(s1, s2, c as int),
        None => s2 == s1,
    }
    &&& special_applied(s2, s3, e.special, notes)
    &&& loyalty_swung(s3, after, e)
}

/// What an event does to a save, in four steps: its changes to prestige,
/// silver, morale and injury (see `effect_numbers`); its free recruits (see
/// `recruits_joined`); its special consequence (see `special_applied`); and
/// its loyalty effects (see `loyalty_swung`). Returns the chronicle lines of
/// the recruits and of the special consequence, in that order.
pub fn apply_event_effect(rng: &mut StdRng, state: &mut GameState, event: &RandomEvent) -> (extra: Vec<String>)
    requires
        effect_fits(*old(state), event.effect),
    ensures
        exists|s1: GameState, s2: GameState, s3: GameState, notes: Seq<Seq<char>>|
            #[trigger] event_steps(*old(state), s1, s2, s3, *final(state), event.effect, notes)
            && extra@.map_values(|s: String| s@) == recruit_notes(event.effect) + notes,
{
    let e = &event.effect;
    let mut extra: Vec<String> = Vec::new();
    apply_effect_numbers(state, e);
    let ghost s1 = *state;
    match e.free_recruit {
        Some(count) => {
            join_recruits(rng, state, count);
            extra.push(String::from_str("数名江湖人士加入本派！"));
        },
        None => {},
    }
    let ghost s2 = *state;
    proof {
        assert(extra@.map_values(|s: String| s@) =~= recruit_notes(*e));
        if special_is(e.special, "epiphany"@) {
            assert forall|i: int| 0 <= i < s2.disciples@.len() && (#[trigger] s2.disciples@[i]).alive implies s2.disciples@[i].inner_power <= i32::MAX - 20 by {
                if i >= s1.disciples@.len() {
                    assert(recruited(s2.disciples@[i], 10));
                } else {
                    assert(s2.disciples@.take(s1.disciples@.len() as int)[i] == s1.disciples@[i]);
                }
            }
        }
    }
    let mut notes = apply_special(rng, state, &e.special);
    let ghost s3 = *state;
    let ghost special_notes = notes@.map_values(|s: String| s@);
    let ghost head = extra@.map_values(|s: String| s@);
    extra.append(&mut notes);
    proof {
        assert(extra@.map_values(|s: String| s@) =~= head + special_notes);
    }
    apply_loyalty_swings(rng, state, e);
    proof {
        assert(event_steps(*old(state), s1, s2, s3, *state, *e, special_notes));
    }
    extra
}

} // verus!
