//! The month's encounters between sects: sparring, trade, border quarrels,
//! joint hunts, defections, and the doings of the courts and the frontier
//! kingdoms. Each settled month three to five pairs of sects meet, no pair
//! twice, each pair drawing its encounter by weight.
use vstd::prelude::*;
use rand::rngs::StdRng;
use crate::chance::{chance, pick_index, rand_range, roll_below};
use crate::country::clamp_int;
use crate::event::{lands_at, total_weight, weight_prefix, weighted_position};
use crate::game::GameState;
use crate::model::{AcquiredAttributes, Disciple, GameEvent, SectPolicy};
use crate::sect::{SectAttributes, SectState};
use crate::text::{decimal, decimal_text, text_eq, text_less, text_lt};

verus! {

/// The kinds of encounter two sects can have.
#[derive(Clone, Copy, Debug, PartialEq, Eq, Structural)]
pub enum InteractionKind {
    Spar,
    Trade,
    BorderConflict,
    JointBandits,
    Defection,
    YuanSongWar,
    DaliExchange,
    XiaTrade,
    XiaAssassination,
    YuanCourt,
    SongCourt,
    CourtClash,
}

/// What the encounters read of one sect: its place (0 for the player's sect,
/// `i + 1` for the `i`-th other sect), its standing, its living members and
/// how many of them could leave it.
#[derive(Debug)]
pub struct Faction {
    pub slot: usize,
    pub id: String,
    pub name: String,
    pub country: String,
    pub policy: SectPolicy,
    pub prestige: i32,
    pub silver: i32,
    pub morality: i32,
    pub members: usize,
    pub defectors: usize,
}

/// `x`, or zero when it is negative.
pub open spec fn nonneg(x: int) -> int {
    if x < 0 {
        0
    } else {
        x
    }
}

/// The distance between two numbers.
pub open spec fn gap(x: int, y: int) -> int {
    if x < y {
        y - x
    } else {
        x - y
    }
}

/// How strongly members of `source` are drawn to `target`: half the
/// prestige it lacks, the morality it lacks, and how far its own morality
/// falls short of 50; at least 1.
pub open spec fn spec_attraction(source: Faction, target: Faction) -> int {
    let v = nonneg(target.prestige - source.prestige) / 2 + nonneg(target.morality - source.morality) + nonneg(
        50 - source.morality,
    );
    if v < 1 {
        1
    } else {
        v
    }
}

/// How strongly members of `source` are drawn to `target`.
pub fn defection_attraction(source: &Faction, target: &Faction) -> (r: i64)
    ensures
        r == spec_attraction(*source, *target),
{
    let p: i64 = target.prestige as i64 - source.prestige as i64;
    let m: i64 = target.morality as i64 - source.morality as i64;
    let l: i64 = 50 - source.morality as i64;
    let v: i64 = (if p < 0 { 0 } else { p }) / 2 + (if m < 0 { 0 } else { m }) + (if l < 0 { 0 } else { l });
    if v < 1 {
        1
    } else {
        v
    }
}

/// A sect produces goods when it studies, withdraws or keeps the balance, or
/// when it is short of silver.
pub open spec fn spec_is_producer(f: Faction) -> bool {
    ||| f.policy == SectPolicy::Scholarly
    ||| f.policy == SectPolicy::Reclusive
    ||| f.policy == SectPolicy::Balanced
    ||| f.silver < 500
}

/// Whether a sect produces goods.
pub fn is_producer(f: &Faction) -> (r: bool)
    ensures
        r == spec_is_producer(*f),
{
    match f.policy {
        SectPolicy::Scholarly | SectPolicy::Reclusive | SectPolicy::Balanced => true,
        _ => f.silver < 500,
    }
}

/// Two sects trade when one is mercantile and the other produces goods.
pub open spec fn spec_is_trade_pair(a: Faction, b: Faction) -> bool {
    (a.policy == SectPolicy::Mercantile && spec_is_producer(b)) || (b.policy == SectPolicy::Mercantile
        && spec_is_producer(a))
}

/// Whether two sects trade with each other.
pub fn is_trade_pair(a: &Faction, b: &Faction) -> (r: bool)
    ensures
        r == spec_is_trade_pair(*a, *b),
{
    let a_trades = match a.policy {
        SectPolicy::Mercantile => true,
        _ => false,
    };
    let b_trades = match b.policy {
        SectPolicy::Mercantile => true,
        _ => false,
    };
    (a_trades && is_producer(b)) || (b_trades && is_producer(a))
}

/// The two courts: the khanate's guard and the southern privy council.
pub open spec fn spec_is_court(f: Faction) -> bool {
    f.id@ == "court"@ || f.id@ == "song_court"@
}

/// Whether a sect is one of the two courts.
pub fn is_court(f: &Faction) -> (r: bool)
    ensures
        r == spec_is_court(*f),
{
    text_eq(f.id.as_str(), "court") || text_eq(f.id.as_str(), "song_court")
}

/// The two sects belong to the countries `left` and `right`, in either order.
pub open spec fn countries_match(a: Faction, b: Faction, left: Seq<char>, right: Seq<char>) -> bool {
    (a.country@ == left && b.country@ == right) || (a.country@ == right && b.country@ == left)
}

/// Whether the two sects belong to the countries `left` and `right`.
pub fn countries_are(a: &Faction, b: &Faction, left: &str, right: &str) -> (r: bool)
    ensures
        r == countries_match(*a, *b, left@, right@),
{
    (text_eq(a.country.as_str(), left) && text_eq(b.country.as_str(), right)) || (text_eq(
        a.country.as_str(),
        right,
    ) && text_eq(b.country.as_str(), left))
}

/// Weight of an assassination from the western kingdom: the lower its
/// morality, the likelier.
pub open spec fn xia_weight(a: Faction, b: Faction) -> int {
    let m = if a.country@ == "xia"@ {
        a.morality
    } else {
        b.morality
    };
    8 + nonneg(50 - m) / 3
}

/// Weight of a sparring match: the further apart in morality, the likelier.
pub open spec fn spar_weight(a: Faction, b: Faction) -> int {
    8 + gap(a.morality as int, b.morality as int) / 3
}

/// Weight of trade: the more prestige between them, the likelier.
pub open spec fn trade_weight(a: Faction, b: Faction) -> int {
    18 + nonneg(a.prestige + b.prestige) / 30
}

/// Weight of a border quarrel: the lower the lesser morality, the likelier.
pub open spec fn border_weight(a: Faction, b: Faction) -> int {
    let low = if a.morality < b.morality {
        a.morality
    } else {
        b.morality
    };
    8 + nonneg(60 - low) / 2
}

/// Weight of a defection: the stronger pull of the two directions.
pub open spec fn defection_weight(a: Faction, b: Faction) -> int {
    let ab = spec_attraction(a, b);
    let ba = spec_attraction(b, a);
    6 + (if ab < ba {
        ba
    } else {
        ab
    }) / 4
}

/// `s` when `c` holds, nothing otherwise.
pub open spec fn when(c: bool, s: Seq<(InteractionKind, u32)>) -> Seq<(InteractionKind, u32)> {
    if c {
        s
    } else {
        Seq::empty()
    }
}

/// The courts' doings: each court calls on the sect it meets, and sects of
/// the khanate and the southern empire make war.
pub open spec fn court_offers(a: Faction, b: Faction) -> Seq<(InteractionKind, u32)> {
    when(a.id@ == "court"@ || b.id@ == "court"@, seq![(InteractionKind::YuanCourt, 60u32)])
        + when(a.id@ == "song_court"@ || b.id@ == "song_court"@, seq![(InteractionKind::SongCourt, 60u32)])
        + when(countries_match(a, b, "yuan"@, "song"@), seq![(InteractionKind::YuanSongWar, 34u32)])
}

/// The frontier kingdoms' doings abroad: the southern kingdom sends monks,
/// the western kingdom trades and sends assassins.
pub open spec fn kingdom_offers(a: Faction, b: Faction) -> Seq<(InteractionKind, u32)> {
    when(
        a.country@ != b.country@ && (a.country@ == "dali"@ || b.country@ == "dali"@),
        seq![(InteractionKind::DaliExchange, 24u32)],
    ) + when(
        a.country@ != b.country@ && (a.country@ == "xia"@ || b.country@ == "xia"@),
        seq![(InteractionKind::XiaTrade, 18u32), (InteractionKind::XiaAssassination, xia_weight(a, b) as u32)],
    )
}

/// The sects' own doings: sects with members spar, a mercantile sect trades
/// with producers, sects of one country quarrel over borders and, when close
/// in morality, hunt bandits together, and members of either may defect.
pub open spec fn sect_offers(a: Faction, b: Faction) -> Seq<(InteractionKind, u32)> {
    when(a.members > 0 && b.members > 0, seq![(InteractionKind::Spar, spar_weight(a, b) as u32)])
        + when(spec_is_trade_pair(a, b), seq![(InteractionKind::Trade, trade_weight(a, b) as u32)])
        + when(
        a.country@ == b.country@,
        seq![(InteractionKind::BorderConflict, border_weight(a, b) as u32)] + when(
            gap(a.morality as int, b.morality as int) < 30,
            seq![(InteractionKind::JointBandits, 20u32)],
        ),
    ) + when(a.defectors > 0 || b.defectors > 0, seq![(InteractionKind::Defection, defection_weight(a, b) as u32)])
}

/// The encounters open to two sects, with their weights, in the order in
/// which they are offered: the two courts only clash with each other;
/// otherwise the courts' doings, then the kingdoms', then the sects' own.
pub open spec fn spec_candidates(a: Faction, b: Faction) -> Seq<(InteractionKind, u32)> {
    if spec_is_court(a) && spec_is_court(b) {
        seq![(InteractionKind::CourtClash, 180u32)]
    } else {
        court_offers(a, b) + kingdom_offers(a, b) + sect_offers(a, b)
    }
}

fn offer_courts(a: &Faction, b: &Faction) -> (r: Vec<(InteractionKind, u32)>)
    ensures
        r@ == court_offers(*a, *b),
{
    let mut kinds: Vec<(InteractionKind, u32)> = Vec::new();
    let yuan_court = text_eq(a.id.as_str(), "court") || text_eq(b.id.as_str(), "court");
    if yuan_court {
        kinds.push((InteractionKind::YuanCourt, 60));
    }
    let ghost first = kinds@;
    let song_court = text_eq(a.id.as_str(), "song_court") || text_eq(b.id.as_str(), "song_court");
    if song_court {
        kinds.push((InteractionKind::SongCourt, 60));
    }
    let ghost second = kinds@;
    if countries_are(a, b, "yuan", "song") {
        kinds.push((InteractionKind::YuanSongWar, 34));
    }
    proof {
        assert(first =~= when(yuan_court, seq![(InteractionKind::YuanCourt, 60u32)]));
        assert(second =~= first + when(song_court, seq![(InteractionKind::SongCourt, 60u32)]));
        assert(kinds@ =~= second + when(countries_match(*a, *b, "yuan"@, "song"@), seq![(InteractionKind::YuanSongWar, 34u32)]));
    }
    kinds
}

fn offer_kingdoms(a: &Faction, b: &Faction) -> (r: Vec<(InteractionKind, u32)>)
    ensures
        r@ == kingdom_offers(*a, *b),
{
    let mut kinds: Vec<(InteractionKind, u32)> = Vec::new();
    let same_country = text_eq(a.country.as_str(), b.country.as_str());
    let dali = !same_country && (text_eq(a.country.as_str(), "dali") || text_eq(b.country.as_str(), "dali"));
    if dali {
        kinds.push((InteractionKind::DaliExchange, 24));
    }
    let ghost first = kinds@;
    let a_xia = text_eq(a.country.as_str(), "xia");
    let xia = !same_country && (a_xia || text_eq(b.country.as_str(), "xia"));
    if xia {
        kinds.push((InteractionKind::XiaTrade, 18));
        let m: i64 = if a_xia { a.morality as i64 } else { b.morality as i64 };
        let w: i64 = 8 + (if 50 - m < 0 { 0 } else { 50 - m }) / 3;
        kinds.push((InteractionKind::XiaAssassination, w as u32));
    }
    proof {
        assert(first =~= when(dali, seq![(InteractionKind::DaliExchange, 24u32)]));
        assert(kinds@ =~= first + when(
            xia,
            seq![(InteractionKind::XiaTrade, 18u32), (InteractionKind::XiaAssassination, xia_weight(*a, *b) as u32)],
        ));
    }
    kinds
}

fn offer_sect_doings(a: &Faction, b: &Faction) -> (r: Vec<(InteractionKind, u32)>)
    ensures
        r@ == sect_offers(*a, *b),
{
    let mut kinds: Vec<(InteractionKind, u32)> = Vec::new();
    let d: i64 = a.morality as i64 - b.morality as i64;
    let g: i64 = if d < 0 { 0 - d } else { d };
    let spar = a.members > 0 && b.members > 0;
    if spar {
        kinds.push((InteractionKind::Spar, (8 + g / 3) as u32));
    }
    let ghost first = kinds@;
    let trade = is_trade_pair(a, b);
    if trade {
        let p: i64 = a.prestige as i64 + b.prestige as i64;
        kinds.push((InteractionKind::Trade, (18 + (if p < 0 { 0 } else { p }) / 30) as u32));
    }
    let ghost second = kinds@;
    let same_country = text_eq(a.country.as_str(), b.country.as_str());
    let close = g < 30;
    if same_country {
        let low: i64 = if a.morality < b.morality { a.morality as i64 } else { b.morality as i64 };
        kinds.push((InteractionKind::BorderConflict, (8 + (if 60 - low < 0 { 0 } else { 60 - low }) / 2) as u32));
        if close {
            kinds.push((InteractionKind::JointBandits, 20));
        }
    }
    let ghost third = kinds@;
    let defect = a.defectors > 0 || b.defectors > 0;
    if defect {
        let ab = defection_attraction(a, b);
        let ba = defection_attraction(b, a);
        let pull: i64 = if ab < ba { ba } else { ab };
        kinds.push((InteractionKind::Defection, (6 + pull / 4) as u32));
    }
    proof {
        assert(first =~= when(spar, seq![(InteractionKind::Spar, spar_weight(*a, *b) as u32)]));
        assert(second =~= first + when(trade, seq![(InteractionKind::Trade, trade_weight(*a, *b) as u32)]));
        assert(third =~= second + when(
            same_country,
            seq![(InteractionKind::BorderConflict, border_weight(*a, *b) as u32)] + when(
                close,
                seq![(InteractionKind::JointBandits, 20u32)],
            ),
        ));
        assert(kinds@ =~= third + when(defect, seq![(InteractionKind::Defection, defection_weight(*a, *b) as u32)]));
    }
    kinds
}

/// The encounters open to two sects, with their weights.
pub fn pair_candidates(a: &Faction, b: &Faction) -> (r: Vec<(InteractionKind, u32)>)
    ensures
        r@ == spec_candidates(*a, *b),
{
    if is_court(a) && is_court(b) {
        let mut kinds: Vec<(InteractionKind, u32)> = Vec::new();
        kinds.push((InteractionKind::CourtClash, 180));
        proof {
            assert(kinds@ =~= spec_candidates(*a, *b));
        }
        return kinds;
    }
    let mut kinds = offer_courts(a, b);
    let mut kingdoms = offer_kingdoms(a, b);
    let mut doings = offer_sect_doings(a, b);
    kinds.append(&mut kingdoms);
    kinds.append(&mut doings);
    kinds
}

// ---------------------------------------------------------------------------
// Changes to the sects' standing and relations.

/// The sect at `slot`: the player's at 0, the `(slot - 1)`-th other sect after.
pub open spec fn sect_at(s: GameState, slot: int) -> SectState {
    if slot == 0 {
        s.sect
    } else {
        s.npc_sects@[slot - 1]
    }
}

/// The number of places: the player's sect and every other sect.
pub open spec fn slot_count(s: GameState) -> int {
    s.npc_sects@.len() + 1int
}

/// `new` is `old` with the sect at `slot` replaced by `sect`.
pub open spec fn sect_replaced(old: GameState, new: GameState, slot: int, sect: SectState) -> bool {
    if slot == 0 {
        new == GameState { sect, ..old }
    } else {
        &&& new.npc_sects@ == old.npc_sects@.update(slot - 1, sect)
        &&& new == GameState { npc_sects: new.npc_sects, ..old }
    }
}

/// Prestige moved by `delta`, held within `0..=1000`.
pub open spec fn with_prestige(s: SectState, delta: int) -> SectState {
    SectState {
        attributes: SectAttributes {
            prestige: clamp_int(s.attributes.prestige + delta, 0, 1000) as i32,
            ..s.attributes
        },
        ..s
    }
}

/// Silver moved by `delta`, not below zero.
pub open spec fn with_silver(s: SectState, delta: int) -> SectState {
    SectState { attributes: SectAttributes { silver: nonneg(s.attributes.silver + delta) as i32, ..s.attributes }, ..s }
}

/// Morality moved by `delta`, held within `0..=100`.
pub open spec fn with_morality(s: SectState, delta: int) -> SectState {
    SectState {
        attributes: SectAttributes {
            morality: clamp_int(s.attributes.morality + delta, 0, 100) as i32,
            ..s.attributes
        },
        ..s
    }
}

fn change_prestige(state: &mut GameState, slot: usize, delta: i32)
    requires
        slot < slot_count(*old(state)),
    ensures
        sect_replaced(*old(state), *final(state), slot as int, with_prestige(sect_at(*old(state), slot as int), delta as int)),
{
    if slot == 0 {
        let p: i64 = state.sect.attributes.prestige as i64 + delta as i64;
        state.sect.attributes.prestige = if p < 0 { 0 } else if p > 1000 { 1000 } else { p as i32 };
    } else {
        let p: i64 = state.npc_sects[slot - 1].attributes.prestige as i64 + delta as i64;
        state.npc_sects[slot - 1].attributes.prestige = if p < 0 { 0 } else if p > 1000 { 1000 } else { p as i32 };
    }
}

fn change_silver(state: &mut GameState, slot: usize, delta: i32)
    requires
        slot < slot_count(*old(state)),
        i32::MIN <= sect_at(*old(state), slot as int).attributes.silver + delta <= i32::MAX,
    ensures
        sect_replaced(*old(state), *final(state), slot as int, with_silver(sect_at(*old(state), slot as int), delta as int)),
{
    if slot == 0 {
        let v: i32 = state.sect.attributes.silver + delta;
        state.sect.attributes.silver = if v < 0 { 0 } else { v };
    } else {
        let v: i32 = state.npc_sects[slot - 1].attributes.silver + delta;
        state.npc_sects[slot - 1].attributes.silver = if v < 0 { 0 } else { v };
    }
}

fn change_morality(state: &mut GameState, slot: usize, delta: i32)
    requires
        slot < slot_count(*old(state)),
    ensures
        sect_replaced(*old(state), *final(state), slot as int, with_morality(sect_at(*old(state), slot as int), delta as int)),
{
    if slot == 0 {
        let m: i64 = state.sect.attributes.morality as i64 + delta as i64;
        state.sect.attributes.morality = if m < 0 { 0 } else if m > 100 { 100 } else { m as i32 };
    } else {
        let m: i64 = state.npc_sects[slot - 1].attributes.morality as i64 + delta as i64;
        state.npc_sects[slot - 1].attributes.morality = if m < 0 { 0 } else if m > 100 { 100 } else { m as i32 };
    }
}

/// `new` is `old` with its relation towards `other` moved by `delta`, held
/// within `-100..=100` (an absent relation counts as zero).
pub open spec fn related(old: SectState, new: SectState, other: Seq<char>, delta: int) -> bool {
    &&& new.relations.as_map() == old.relations.as_map().insert(
        other,
        clamp_int(old.relations.amount(other) + delta, -100, 100) as i32,
    )
    &&& new == SectState { relations: new.relations, ..old }
}

fn shift_relation(state: &mut GameState, slot: usize, other: &str, delta: i32)
    requires
        slot < slot_count(*old(state)),
    ensures
        final(state).npc_sects@.len() == old(state).npc_sects@.len(),
        related(sect_at(*old(state), slot as int), sect_at(*final(state), slot as int), other@, delta as int),
        sect_replaced(*old(state), *final(state), slot as int, sect_at(*final(state), slot as int)),
{
    if slot == 0 {
        let v: i64 = state.sect.relations.amount_of(other) as i64 + delta as i64;
        state.sect.relations.insert(other, if v < -100 { -100 } else if v > 100 { 100 } else { v as i32 });
        proof {
            assert(state.sect.relations.as_map() =~= old(state).sect.relations.as_map().insert(
                other@,
                clamp_int(old(state).sect.relations.amount(other@) + delta, -100, 100) as i32,
            ));
        }
    } else {
        let v: i64 = state.npc_sects[slot - 1].relations.amount_of(other) as i64 + delta as i64;
        state.npc_sects[slot - 1].relations.insert(other, if v < -100 { -100 } else if v > 100 { 100 } else { v as i32 });
        proof {
            let o = old(state).npc_sects@[slot - 1];
            assert(state.npc_sects@[slot - 1].relations.as_map() =~= o.relations.as_map().insert(
                other@,
                clamp_int(o.relations.amount(other@) + delta, -100, 100) as i32,
            ));
        }
    }
}

/// The two sects' relations towards each other move by `delta`.
fn change_relation(state: &mut GameState, a: &Faction, b: &Faction, delta: i32)
    requires
        a.slot < slot_count(*old(state)),
        b.slot < slot_count(*old(state)),
        a.slot != b.slot,
    ensures
        only_sects_touched(*old(state), *final(state), a.slot as int, b.slot as int),
        related(sect_at(*old(state), a.slot as int), sect_at(*final(state), a.slot as int), b.id@, delta as int),
        related(sect_at(*old(state), b.slot as int), sect_at(*final(state), b.slot as int), a.id@, delta as int),
{
    shift_relation(state, a.slot, b.id.as_str(), delta);
    shift_relation(state, b.slot, a.id.as_str(), delta);
}

/// `new` differs from `old` at most in the sects at places `a` and `b`.
pub open spec fn only_sects_touched(old: GameState, new: GameState, a: int, b: int) -> bool {
    &&& new.npc_sects@.len() == old.npc_sects@.len()
    &&& forall|j: int| 0 <= j < slot_count(old) && j != a && j != b ==> #[trigger] sect_at(new, j) == sect_at(old, j)
    &&& new == GameState { sect: new.sect, npc_sects: new.npc_sects, ..old }
}

/// A sect's standing after an encounter: prestige, silver and morality each
/// moved by its part of `d`, where a part of zero leaves it untouched.
pub open spec fn shifted_standing(s: SectState, d: (int, int, int)) -> SectState {
    let p = if d.0 == 0 {
        s
    } else {
        with_prestige(s, d.0)
    };
    let q = if d.1 == 0 {
        p
    } else {
        with_silver(p, d.1)
    };
    if d.2 == 0 {
        q
    } else {
        with_morality(q, d.2)
    }
}

/// `new` is `old` after an encounter between `a` and `b`: their standings
/// moved by `da` and `db`, their relations towards each other by `drel`,
/// and nothing else changed.
pub open spec fn encountered(
    old: GameState,
    new: GameState,
    a: Faction,
    b: Faction,
    da: (int, int, int),
    db: (int, int, int),
    drel: int,
) -> bool {
    &&& only_sects_touched(old, new, a.slot as int, b.slot as int)
    &&& related(shifted_standing(sect_at(old, a.slot as int), da), sect_at(new, a.slot as int), b.id@, drel)
    &&& related(shifted_standing(sect_at(old, b.slot as int), db), sect_at(new, b.slot as int), a.id@, drel)
}

/// The two sects have distinct places in `s`.
pub open spec fn placed(s: GameState, a: Faction, b: Faction) -> bool {
    &&& a.slot < slot_count(s)
    &&& b.slot < slot_count(s)
    &&& a.slot != b.slot
}

/// Moving the sect's silver by `d` stays within `i32`.
pub open spec fn silver_fits(s: SectState, d: int) -> bool {
    i32::MIN <= s.attributes.silver + d <= i32::MAX
}

/// The deltas of `d` as whole numbers.
pub open spec fn widen(d: (i32, i32, i32)) -> (int, int, int) {
    (d.0 as int, d.1 as int, d.2 as int)
}

fn shift_standing(state: &mut GameState, slot: usize, d: (i32, i32, i32))
    requires
        slot < slot_count(*old(state)),
        silver_fits(sect_at(*old(state), slot as int), d.1 as int),
    ensures
        sect_replaced(*old(state), *final(state), slot as int, shifted_standing(sect_at(*old(state), slot as int), widen(d))),
{
    let ghost s0 = *state;
    proof {
        lemma_replaced_self(s0, slot as int);
    }
    if d.0 != 0 {
        change_prestige(state, slot, d.0);
    }
    let ghost s1 = *state;
    proof {
        lemma_replaced_twice(s0, s0, s1, slot as int, sect_at(s0, slot as int), sect_at(s1, slot as int));
    }
    if d.1 != 0 {
        change_silver(state, slot, d.1);
    }
    let ghost s2 = *state;
    proof {
        lemma_replaced_twice(s0, s1, s2, slot as int, sect_at(s1, slot as int), sect_at(s2, slot as int));
    }
    if d.2 != 0 {
        change_morality(state, slot, d.2);
    }
    proof {
        lemma_replaced_twice(s0, s2, *state, slot as int, sect_at(s2, slot as int), sect_at(*state, slot as int));
    }
}

proof fn lemma_replaced_self(s: GameState, slot: int)
    requires
        0 <= slot < slot_count(s),
    ensures
        sect_replaced(s, s, slot, sect_at(s, slot)),
{
    if slot > 0 {
        assert(s.npc_sects@ =~= s.npc_sects@.update(slot - 1, sect_at(s, slot)));
    }
}

proof fn lemma_replaced_twice(s0: GameState, s1: GameState, s2: GameState, slot: int, x: SectState, y: SectState)
    requires
        0 <= slot < slot_count(s0),
        sect_replaced(s0, s1, slot, x),
        sect_replaced(s1, s2, slot, y) || s2 == s1,
        s2 == s1 ==> y == x,
    ensures
        sect_replaced(s0, s2, slot, y),
        sect_at(s1, slot) == x,
{
    if slot > 0 {
        assert(s1.npc_sects@[slot - 1] == x);
        if s2 != s1 {
            assert(s2.npc_sects@ =~= s0.npc_sects@.update(slot - 1, y));
        }
    }
}

/// Applies an encounter's outcome to both sects.
fn settle(state: &mut GameState, a: &Faction, b: &Faction, da: (i32, i32, i32), db: (i32, i32, i32), drel: i32)
    requires
        placed(*old(state), *a, *b),
        silver_fits(sect_at(*old(state), a.slot as int), da.1 as int),
        silver_fits(sect_at(*old(state), b.slot as int), db.1 as int),
    ensures
        encountered(*old(state), *final(state), *a, *b, widen(da), widen(db), drel as int),
{
    shift_standing(state, a.slot, da);
    shift_standing(state, b.slot, db);
    let ghost mid = *state;
    change_relation(state, a, b, drel);
    proof {
        let o = *old(state);
        assert forall|j: int| 0 <= j < slot_count(o) && j != a.slot && j != b.slot implies #[trigger] sect_at(*state, j) == sect_at(o, j) by {
            assert(sect_at(*state, j) == sect_at(mid, j));
        }
    }
}

// ---------------------------------------------------------------------------
// The encounters.

/// What each side of a trade earns: 15 taels and one for every 25 points of
/// their joint prestige.
pub open spec fn trade_income(a: Faction, b: Faction) -> int {
    15 + nonneg(a.prestige + b.prestige) / 25
}

/// `a` is the stronger of the two: more prestige, or as much and at least as
/// much morality.
pub open spec fn a_stronger(a: Faction, b: Faction) -> bool {
    a.prestige > b.prestige || (a.prestige == b.prestige && a.morality >= b.morality)
}

/// No change to a sect's standing.
pub open spec fn unmoved() -> (int, int, int) {
    (0, 0, 0)
}

/// A change of prestige only.
pub open spec fn fame(d: int) -> (int, int, int) {
    (d, 0, 0)
}

/// The outcome of an encounter of `kind` between `a` and `b`: the changes to
/// `a`'s standing, to `b`'s, and to their relations. `first` is the chance
/// result where the encounter has one: for a sparring match or a war, that
/// `a`'s side (in a war, the khanate's side) wins; for a defection, that a
/// member of `a` leaves; for a court's call, that the call is for men rather
/// than silver or, from the southern court, praise rather than a title.
pub open spec fn encounter_outcome(kind: InteractionKind, a: Faction, b: Faction, first: bool) -> (
    (int, int, int),
    (int, int, int),
    int,
) {
    match kind {
        InteractionKind::Spar => if first {
            (fame(2), fame(-1), 1)
        } else {
            (fame(-1), fame(2), 1)
        },
        InteractionKind::Trade => ((0, trade_income(a, b), 0), (0, trade_income(a, b), 0), 3),
        InteractionKind::BorderConflict => if a_stronger(a, b) {
            (fame(1), fame(-2), -5)
        } else {
            (fame(-2), fame(1), -5)
        },
        InteractionKind::JointBandits => ((1, 0, 1), (1, 0, 1), 4),
        InteractionKind::Defection => if first {
            (fame(-2), fame(1), -8)
        } else {
            (fame(1), fame(-2), -8)
        },
        InteractionKind::YuanSongWar => if (a.country@ == "yuan"@) == first {
            (fame(2), fame(-2), -6)
        } else {
            (fame(-2), fame(2), -6)
        },
        InteractionKind::DaliExchange => ((0, 0, 1), (0, 0, 1), 4),
        InteractionKind::XiaTrade => if a.country@ == "xia"@ {
            ((0, 25, 0), (0, 20, 0), 2)
        } else {
            ((0, 20, 0), (0, 25, 0), 2)
        },
        InteractionKind::XiaAssassination => if a.country@ == "xia"@ {
            (unmoved(), fame(-2), -7)
        } else {
            (fame(-2), unmoved(), -7)
        },
        InteractionKind::YuanCourt => {
            let d = if first {
                fame(-5)
            } else {
                (0, -30, 0)
            };
            if a.id@ == "court"@ {
                (unmoved(), d, -4)
            } else {
                (d, unmoved(), -4)
            }
        },
        InteractionKind::SongCourt => {
            let d = if first {
                fame(3)
            } else {
                (0, 0, 2)
            };
            if a.id@ == "song_court"@ {
                (unmoved(), d, 5)
            } else {
                (d, unmoved(), 5)
            }
        },
        InteractionKind::CourtClash => if (a.id@ == "court"@) == first {
            (fame(3), fame(-3), -10)
        } else {
            (fame(-3), fame(3), -10)
        },
    }
}

/// `new` is `old` after the encounter's outcome.
pub open spec fn resolved(old: GameState, new: GameState, a: Faction, b: Faction, kind: InteractionKind, first: bool) -> bool {
    let o = encounter_outcome(kind, a, b, first);
    encountered(old, new, a, b, o.0, o.1, o.2)
}

/// The outcome's silver changes stay within `i32` for both sects.
pub open spec fn outcome_fits(s: GameState, a: Faction, b: Faction, kind: InteractionKind, first: bool) -> bool {
    let o = encounter_outcome(kind, a, b, first);
    silver_fits(sect_at(s, a.slot as int), o.0.1) && silver_fits(sect_at(s, b.slot as int), o.1.1)
}

/// The tone of the chronicle line for an encounter.
pub open spec fn encounter_mood(kind: InteractionKind) -> Seq<char> {
    match kind {
        InteractionKind::Spar => "neutral"@,
        InteractionKind::Trade => "good"@,
        InteractionKind::BorderConflict => "bad"@,
        InteractionKind::JointBandits => "good"@,
        InteractionKind::Defection => "bad"@,
        InteractionKind::YuanSongWar => "bad"@,
        InteractionKind::DaliExchange => "good"@,
        InteractionKind::XiaTrade => "good"@,
        InteractionKind::XiaAssassination => "bad"@,
        InteractionKind::YuanCourt => "bad"@,
        InteractionKind::SongCourt => "good"@,
        InteractionKind::CourtClash => "bad"@,
    }
}

/// The chronicle line for an encounter that involves no single member.
pub open spec fn encounter_text(kind: InteractionKind, a: Faction, b: Faction, first: bool) -> Seq<char> {
    match kind {
        InteractionKind::Trade => a.name@ + "商队与"@ + b.name@ + "互通货殖，双方各获利"@ + decimal_text(
            trade_income(a, b) as nat,
        ) + "两。"@,
        InteractionKind::BorderConflict => if a_stronger(a, b) {
            a.name@ + "仗势侵占"@ + b.name@ + "地界，后者被迫退让。"@
        } else {
            b.name@ + "仗势侵占"@ + a.name@ + "地界，后者被迫退让。"@
        },
        InteractionKind::JointBandits => a.name@ + "与"@ + b.name@ + "联手清剿邻境悍匪，两派侠名俱增。"@,
        InteractionKind::YuanSongWar => {
            let (yuan, song) = if a.country@ == "yuan"@ {
                (a, b)
            } else {
                (b, a)
            };
            if first {
                "金帐汗国边骑劫掠"@ + song.name@ + "辖境，"@ + song.name@ + "应战失利。"@
            } else {
                "大宋北伐军邀"@ + song.name@ + "为前锋，击退"@ + yuan.name@ + "边骑。"@
            }
        },
        InteractionKind::DaliExchange => {
            let guest = if a.country@ == "dali"@ {
                b
            } else {
                a
            };
            "大理高僧至"@ + guest.name@ + "讲经论武，"@ + guest.name@ + "设斋相迎。"@
        },
        InteractionKind::XiaTrade => {
            let guest = if a.country@ == "xia"@ {
                b
            } else {
                a
            };
            "大夏驼队与"@ + guest.name@ + "开市通商，奇货沿丝路往来不绝。"@
        },
        InteractionKind::XiaAssassination => {
            let target = if a.country@ == "xia"@ {
                b
            } else {
                a
            };
            "大夏刺客潜入"@ + target.name@ + "驿馆行刺，虽未得手，却令江湖震动。"@
        },
        InteractionKind::YuanCourt => {
            let other = if a.id@ == "court"@ {
                b
            } else {
                a
            };
            if first {
                "怯薛军向"@ + other.name@ + "颁下征召令，拒命之后声望受损。"@
            } else {
                "金帐汗国遣使至"@ + other.name@ + "，索要岁币三千两。"@
            }
        },
        InteractionKind::SongCourt => {
            let other = if a.id@ == "song_court"@ {
                b
            } else {
                a
            };
            if first {
                "枢密院传檄天下，褒奖"@ + other.name@ + "忠义之举。"@
            } else {
                "枢密院招安赐封"@ + other.name@ + "，勉其护境安民。"@
            }
        },
        InteractionKind::CourtClash => {
            let (winner, loser) = if (a.id@ == "court"@) == first {
                (a, b)
            } else {
                (b, a)
            };
            "怯薛军与枢密院在边关正面交锋，"@ + winner.name@ + "得胜，"@ + loser.name@ + "败退。"@
        },
        _ => Seq::empty(),
    }
}

/// `s` followed by `t`.
fn cat(s: String, t: &str) -> (r: String)
    ensures
        r@ == s@ + t@,
{
    let mut s = s;
    s.append(t);
    s
}

/// Trade between a mercantile sect and a producer: each side earns the
/// trade income, and relations warm by 3.
fn trade(state: &mut GameState, a: &Faction, b: &Faction) -> (r: (String, &'static str))
    requires
        placed(*old(state), *a, *b),
        outcome_fits(*old(state), *a, *b, InteractionKind::Trade, false),
    ensures
        resolved(*old(state), *final(state), *a, *b, InteractionKind::Trade, false),
        r.0@ == encounter_text(InteractionKind::Trade, *a, *b, false),
        r.1@ == encounter_mood(InteractionKind::Trade),
{
    let p: i64 = a.prestige as i64 + b.prestige as i64;
    let income: i64 = 15 + (if p < 0 { 0 } else { p }) / 25;
    let gain = income as i32;
    settle(state, a, b, (0, gain, 0), (0, gain, 0), 3);
    let text = cat(
        cat(cat(cat(String::from_str(a.name.as_str()), "商队与"), b.name.as_str()), "互通货殖，双方各获利"),
        decimal(gain as u32).as_str(),
    );
    (cat(text, "两。"), "good")
}

/// The stronger sect encroaches on the weaker's land: prestige +1 and -2,
/// relations cool by 5.
fn border_conflict(state: &mut GameState, a: &Faction, b: &Faction) -> (r: (String, &'static str))
    requires
        placed(*old(state), *a, *b),
    ensures
        resolved(*old(state), *final(state), *a, *b, InteractionKind::BorderConflict, false),
        r.0@ == encounter_text(InteractionKind::BorderConflict, *a, *b, false),
        r.1@ == encounter_mood(InteractionKind::BorderConflict),
{
    let a_strong = a.prestige > b.prestige || (a.prestige == b.prestige && a.morality >= b.morality);
    let (strong, weak) = if a_strong { (a, b) } else { (b, a) };
    if a_strong {
        settle(state, a, b, (1, 0, 0), (-2, 0, 0), -5);
    } else {
        settle(state, a, b, (-2, 0, 0), (1, 0, 0), -5);
    }
    let text = cat(cat(cat(String::from_str(strong.name.as_str()), "仗势侵占"), weak.name.as_str()), "地界，后者被迫退让。");
    (text, "bad")
}

/// Two sects of one country hunt bandits together: prestige and morality
/// +1 each, relations warm by 4.
fn joint_bandits(state: &mut GameState, a: &Faction, b: &Faction) -> (r: (String, &'static str))
    requires
        placed(*old(state), *a, *b),
    ensures
        resolved(*old(state), *final(state), *a, *b, InteractionKind::JointBandits, false),
        r.0@ == encounter_text(InteractionKind::JointBandits, *a, *b, false),
        r.1@ == encounter_mood(InteractionKind::JointBandits),
{
    settle(state, a, b, (1, 0, 1), (1, 0, 1), 4);
    let text = cat(cat(cat(String::from_str(a.name.as_str()), "与"), b.name.as_str()), "联手清剿邻境悍匪，两派侠名俱增。");
    (text, "good")
}

/// Monks of the southern kingdom visit a sect abroad: morality +1 on both
/// sides, relations warm by 4.
fn dali_exchange(state: &mut GameState, a: &Faction, b: &Faction) -> (r: (String, &'static str))
    requires
        placed(*old(state), *a, *b),
    ensures
        resolved(*old(state), *final(state), *a, *b, InteractionKind::DaliExchange, false),
        r.0@ == encounter_text(InteractionKind::DaliExchange, *a, *b, false),
        r.1@ == encounter_mood(InteractionKind::DaliExchange),
{
    let guest = if text_eq(a.country.as_str(), "dali") { b } else { a };
    settle(state, a, b, (0, 0, 1), (0, 0, 1), 4);
    let text = cat(
        cat(cat(cat(String::from_str("大理高僧至"), guest.name.as_str()), "讲经论武，"), guest.name.as_str()),
        "设斋相迎。",
    );
    (text, "good")
}

/// A caravan of the western kingdom trades with a sect abroad: 25 taels to
/// the kingdom's sect, 20 to the guest, relations warm by 2.
fn xia_trade(state: &mut GameState, a: &Faction, b: &Faction) -> (r: (String, &'static str))
    requires
        placed(*old(state), *a, *b),
        outcome_fits(*old(state), *a, *b, InteractionKind::XiaTrade, false),
    ensures
        resolved(*old(state), *final(state), *a, *b, InteractionKind::XiaTrade, false),
        r.0@ == encounter_text(InteractionKind::XiaTrade, *a, *b, false),
        r.1@ == encounter_mood(InteractionKind::XiaTrade),
{
    let a_xia = text_eq(a.country.as_str(), "xia");
    let guest = if a_xia { b } else { a };
    if a_xia {
        settle(state, a, b, (0, 25, 0), (0, 20, 0), 2);
    } else {
        settle(state, a, b, (0, 20, 0), (0, 25, 0), 2);
    }
    let text = cat(cat(String::from_str("大夏驼队与"), guest.name.as_str()), "开市通商，奇货沿丝路往来不绝。");
    (text, "good")
}

/// Assassins of the western kingdom strike at a sect abroad: its prestige
/// -2, relations cool by 7.
fn xia_assassination(state: &mut GameState, a: &Faction, b: &Faction) -> (r: (String, &'static str))
    requires
        placed(*old(state), *a, *b),
    ensures
        resolved(*old(state), *final(state), *a, *b, InteractionKind::XiaAssassination, false),
        r.0@ == encounter_text(InteractionKind::XiaAssassination, *a, *b, false),
        r.1@ == encounter_mood(InteractionKind::XiaAssassination),
{
    let a_xia = text_eq(a.country.as_str(), "xia");
    let target = if a_xia { b } else { a };
    if a_xia {
        settle(state, a, b, (0, 0, 0), (-2, 0, 0), -7);
    } else {
        settle(state, a, b, (-2, 0, 0), (0, 0, 0), -7);
    }
    let text = cat(cat(String::from_str("大夏刺客潜入"), target.name.as_str()), "驿馆行刺，虽未得手，却令江湖震动。");
    (text, "bad")
}

/// With rolls `ry` for the khanate's sect and `rs` for the other, the
/// khanate wins the border war: its prestige and roll at least match the
/// other side's.
pub open spec fn war_won(a: Faction, b: Faction, ry: int, rs: int) -> bool {
    let (yuan, song) = if a.country@ == "yuan"@ {
        (a, b)
    } else {
        (b, a)
    };
    yuan.prestige + ry >= song.prestige + rs
}

/// The border war between `a` and `b` was fought with rolls `ry` and `rs`
/// in `0..=70`, turning `old` into `new` and telling `text`.
pub open spec fn war_fought(old: GameState, new: GameState, a: Faction, b: Faction, text: Seq<char>, ry: int, rs: int) -> bool {
    &&& 0 <= ry <= 70
    &&& 0 <= rs <= 70
    &&& resolved(old, new, a, b, InteractionKind::YuanSongWar, war_won(a, b, ry, rs))
    &&& text == encounter_text(InteractionKind::YuanSongWar, a, b, war_won(a, b, ry, rs))
}

/// The khanate's sects raid the southern empire's: each side rolls
/// `0..=70` on top of its prestige; the winner gains 2 prestige and the
/// loser loses 2, and relations cool by 6.
fn yuan_song_war(rng: &mut StdRng, state: &mut GameState, a: &Faction, b: &Faction) -> (r: (String, &'static str))
    requires
        placed(*old(state), *a, *b),
    ensures
        exists|ry: int, rs: int| #[trigger] war_fought(*old(state), *final(state), *a, *b, r.0@, ry, rs),
        r.1@ == encounter_mood(InteractionKind::YuanSongWar),
{
    let a_yuan = text_eq(a.country.as_str(), "yuan");
    let (yuan, song) = if a_yuan { (a, b) } else { (b, a) };
    let ry = rand_range(rng, 0, 70);
    let rs = rand_range(rng, 0, 70);
    let yuan_wins = yuan.prestige as i64 + ry as i64 >= song.prestige as i64 + rs as i64;
    if a_yuan == yuan_wins {
        settle(state, a, b, (2, 0, 0), (-2, 0, 0), -6);
    } else {
        settle(state, a, b, (-2, 0, 0), (2, 0, 0), -6);
    }
    let text = if yuan_wins {
        cat(cat(cat(cat(String::from_str("金帐汗国边骑劫掠"), song.name.as_str()), "辖境，"), song.name.as_str()), "应战失利。")
    } else {
        cat(cat(cat(cat(String::from_str("大宋北伐军邀"), song.name.as_str()), "为前锋，击退"), yuan.name.as_str()), "边骑。")
    };
    proof {
        assert(war_fought(*old(state), *state, *a, *b, text@, ry as int, rs as int));
    }
    let r = (text, "bad");
    proof {
        assert(war_fought(*old(state), *state, *a, *b, r.0@, ry as int, rs as int));
    }
    r
}

/// The court's call of `kind` went the way `first` says, turning `old` into
/// `new` and telling `text`.
pub open spec fn court_called(old: GameState, new: GameState, a: Faction, b: Faction, kind: InteractionKind, text: Seq<char>, first: bool) -> bool {
    &&& resolved(old, new, a, b, kind, first)
    &&& text == encounter_text(kind, a, b, first)
}

/// The khanate's court calls on a sect: relations cool by 4, and on an even
/// chance it demands men (prestige -5 when refused) or tribute (30 taels).
pub fn yuan_court(rng: &mut StdRng, state: &mut GameState, a: &Faction, b: &Faction) -> (r: (String, &'static str))
    requires
        placed(*old(state), *a, *b),
        outcome_fits(*old(state), *a, *b, InteractionKind::YuanCourt, false),
    ensures
        exists|first: bool| #[trigger] court_called(*old(state), *final(state), *a, *b, InteractionKind::YuanCourt, r.0@, first),
        r.1@ == encounter_mood(InteractionKind::YuanCourt),
{
    let a_court = text_eq(a.id.as_str(), "court");
    let other = if a_court { b } else { a };
    let men = chance(rng, 1, 2);
    let d: (i32, i32, i32) = if men { (-5, 0, 0) } else { (0, -30, 0) };
    if a_court {
        settle(state, a, b, (0, 0, 0), d, -4);
    } else {
        settle(state, a, b, d, (0, 0, 0), -4);
    }
    let text = if men {
        cat(cat(String::from_str("怯薛军向"), other.name.as_str()), "颁下征召令，拒命之后声望受损。")
    } else {
        cat(cat(String::from_str("金帐汗国遣使至"), other.name.as_str()), "，索要岁币三千两。")
    };
    proof {
        assert(court_called(*old(state), *state, *a, *b, InteractionKind::YuanCourt, text@, men));
    }
    let r = (text, "bad");
    proof {
        assert(court_called(*old(state), *state, *a, *b, InteractionKind::YuanCourt, r.0@, men));
    }
    r
}

/// The southern court's privy council calls on a sect: relations warm by 5,
/// and on an even chance it praises the sect (prestige +3) or grants it a
/// title (morality +2).
fn song_court(rng: &mut StdRng, state: &mut GameState, a: &Faction, b: &Faction) -> (r: (String, &'static str))
    requires
        placed(*old(state), *a, *b),
    ensures
        exists|first: bool| #[trigger] court_called(*old(state), *final(state), *a, *b, InteractionKind::SongCourt, r.0@, first),
        r.1@ == encounter_mood(InteractionKind::SongCourt),
{
    let a_court = text_eq(a.id.as_str(), "song_court");
    let other = if a_court { b } else { a };
    let praise = chance(rng, 1, 2);
    let d: (i32, i32, i32) = if praise { (3, 0, 0) } else { (0, 0, 2) };
    if a_court {
        settle(state, a, b, (0, 0, 0), d, 5);
    } else {
        settle(state, a, b, d, (0, 0, 0), 5);
    }
    let text = if praise {
        cat(cat(String::from_str("枢密院传檄天下，褒奖"), other.name.as_str()), "忠义之举。")
    } else {
        cat(cat(String::from_str("枢密院招安赐封"), other.name.as_str()), "，勉其护境安民。")
    };
    proof {
        assert(court_called(*old(state), *state, *a, *b, InteractionKind::SongCourt, text@, praise));
    }
    let r = (text, "good");
    proof {
        assert(court_called(*old(state), *state, *a, *b, InteractionKind::SongCourt, r.0@, praise));
    }
    r
}

/// With rolls `ry` for the khanate's court and `rs` for the southern one,
/// the khanate's court wins the clash.
pub open spec fn clash_won(a: Faction, b: Faction, ry: int, rs: int) -> bool {
    let (yuan, song) = if a.id@ == "court"@ {
        (a, b)
    } else {
        (b, a)
    };
    yuan.prestige + ry >= song.prestige + rs
}

/// The two courts clashed with rolls `ry` and `rs` in `0..=80`, turning
/// `old` into `new` and telling `text`.
pub open spec fn clash_fought(old: GameState, new: GameState, a: Faction, b: Faction, text: Seq<char>, ry: int, rs: int) -> bool {
    &&& 0 <= ry <= 80
    &&& 0 <= rs <= 80
    &&& resolved(old, new, a, b, InteractionKind::CourtClash, clash_won(a, b, ry, rs))
    &&& text == encounter_text(InteractionKind::CourtClash, a, b, clash_won(a, b, ry, rs))
}

/// The two courts meet in battle: each rolls `0..=80` on top of its
/// prestige; the winner gains 3 prestige and the loser loses 3, and
/// relations cool by 10.
fn court_clash(rng: &mut StdRng, state: &mut GameState, a: &Faction, b: &Faction) -> (r: (String, &'static str))
    requires
        placed(*old(state), *a, *b),
    ensures
        exists|ry: int, rs: int| #[trigger] clash_fought(*old(state), *final(state), *a, *b, r.0@, ry, rs),
        r.1@ == encounter_mood(InteractionKind::CourtClash),
{
    let a_court = text_eq(a.id.as_str(), "court");
    let (yuan, song) = if a_court { (a, b) } else { (b, a) };
    let ry = rand_range(rng, 0, 80);
    let rs = rand_range(rng, 0, 80);
    let yuan_wins = yuan.prestige as i64 + ry as i64 >= song.prestige as i64 + rs as i64;
    let (winner, loser) = if yuan_wins { (yuan, song) } else { (song, yuan) };
    if a_court == yuan_wins {
        settle(state, a, b, (3, 0, 0), (-3, 0, 0), -10);
    } else {
        settle(state, a, b, (-3, 0, 0), (3, 0, 0), -10);
    }
    let text = cat(
        cat(cat(cat(String::from_str("怯薛军与枢密院在边关正面交锋，"), winner.name.as_str()), "得胜，"), loser.name.as_str()),
        "败退。",
    );
    proof {
        assert(clash_fought(*old(state), *state, *a, *b, text@, ry as int, rs as int));
    }
    let r = (text, "bad");
    proof {
        assert(clash_fought(*old(state), *state, *a, *b, r.0@, ry as int, rs as int));
    }
    r
}

// ---------------------------------------------------------------------------
// Members.

/// The rank an other sect's leader holds.
pub open spec fn leader_title() -> Seq<char> {
    "掌门"@
}

/// The disciple holds the leader's rank.
pub open spec fn titled_leader(d: Disciple) -> bool {
    match d.npc_position {
        Some(p) => p@ == leader_title(),
        None => false,
    }
}

/// The disciple is the first one its sect was founded with (`npc_<sect>_1`).
pub open spec fn first_of_sect(d: Disciple) -> bool {
    match d.sect_id {
        Some(sid) => d.id@ == "npc_"@ + sid@ + "_1"@,
        None => false,
    }
}

/// A sect's leader: by rank, or as the first disciple of the sect.
pub open spec fn spec_is_leader(d: Disciple) -> bool {
    titled_leader(d) || first_of_sect(d)
}

/// Whether the disciple leads a sect.
pub fn is_npc_leader(d: &Disciple) -> (r: bool)
    ensures
        r == spec_is_leader(*d),
{
    let titled = match &d.npc_position {
        Some(p) => text_eq(p.as_str(), "掌门"),
        None => false,
    };
    if titled {
        return true;
    }
    match &d.sect_id {
        Some(sid) => {
            let first = cat(cat(String::from_str("npc_"), sid.as_str()), "_1");
            text_eq(d.id.as_str(), first.as_str())
        },
        None => false,
    }
}

/// The roster a place draws its members from: the player's disciples for
/// place 0, the other sects' disciples otherwise.
pub open spec fn roster(s: GameState, slot: int) -> Seq<Disciple> {
    if slot == 0 {
        s.disciples@
    } else {
        s.npc_disciples@
    }
}

/// `d` is a living member of the sect at `slot`.
pub open spec fn is_member(s: GameState, slot: int, d: Disciple) -> bool {
    d.alive && (slot == 0 || match d.sect_id {
        Some(id) => id@ == s.npc_sects@[slot - 1].id@,
        None => false,
    })
}

/// `d` can be drawn: a member, and no leader when the draw is for someone
/// who leaves.
pub open spec fn qualifies(s: GameState, slot: int, leaving: bool, d: Disciple) -> bool {
    is_member(s, slot, d) && (!leaving || !spec_is_leader(d))
}

/// The positions, among the first `n` of the place's roster, of those who
/// can be drawn, in roster order.
pub open spec fn eligible_upto(s: GameState, slot: int, leaving: bool, n: int) -> Seq<int>
    decreases n,
{
    if n <= 0 {
        Seq::empty()
    } else {
        let before = eligible_upto(s, slot, leaving, n - 1);
        if qualifies(s, slot, leaving, roster(s, slot)[n - 1]) {
            before.push(n - 1)
        } else {
            before
        }
    }
}

/// The positions in the place's roster of those who can be drawn.
pub open spec fn eligible(s: GameState, slot: int, leaving: bool) -> Seq<int> {
    eligible_upto(s, slot, leaving, roster(s, slot).len() as int)
}

/// Every position drawn from qualifies.
pub proof fn lemma_eligible_qualifies(s: GameState, slot: int, leaving: bool, k: int)
    requires
        eligible(s, slot, leaving).contains(k),
    ensures
        0 <= k < roster(s, slot).len(),
        qualifies(s, slot, leaving, roster(s, slot)[k]),
{
    lemma_upto_qualifies(s, slot, leaving, roster(s, slot).len() as int, k);
}

proof fn lemma_upto_qualifies(s: GameState, slot: int, leaving: bool, n: int, k: int)
    requires
        eligible_upto(s, slot, leaving, n).contains(k),
        n <= roster(s, slot).len(),
    ensures
        0 <= k < n,
        qualifies(s, slot, leaving, roster(s, slot)[k]),
    decreases n,
{
    if n > 0 {
        let before = eligible_upto(s, slot, leaving, n - 1);
        if before.contains(k) {
            lemma_upto_qualifies(s, slot, leaving, n - 1, k);
        } else {
            let j = choose|j: int| 0 <= j < eligible_upto(s, slot, leaving, n).len() && eligible_upto(s, slot, leaving, n)[j] == k;
            if j < before.len() {
                assert(before[j] == k);
            }
        }
    }
}

fn can_be_drawn(state: &GameState, slot: usize, leaving: bool, d: &Disciple) -> (r: bool)
    requires
        slot < slot_count(*state),
    ensures
        r == qualifies(*state, slot as int, leaving, *d),
{
    if !d.alive {
        return false;
    }
    if slot > 0 {
        let belongs = match &d.sect_id {
            Some(id) => text_eq(id.as_str(), state.npc_sects[slot - 1].id.as_str()),
            None => false,
        };
        if !belongs {
            return false;
        }
    }
    !leaving || !is_npc_leader(d)
}

/// The roster positions of those who can be drawn from the sect at `slot`.
fn member_positions(state: &GameState, slot: usize, leaving: bool) -> (r: Vec<usize>)
    requires
        slot < slot_count(*state),
    ensures
        r@.len() == eligible(*state, slot as int, leaving).len(),
        forall|k: int| 0 <= k < r@.len() ==> #[trigger] r@[k] as int == eligible(*state, slot as int, leaving)[k],
        forall|k: int| 0 <= k < r@.len() ==> #[trigger] r@[k] < roster(*state, slot as int).len(),
{
    let ds = if slot == 0 { &state.disciples } else { &state.npc_disciples };
    let mut picks: Vec<usize> = Vec::new();
    let mut i: usize = 0;
    while i < ds.len()
        invariant
            slot < slot_count(*state),
            ds@ == roster(*state, slot as int),
            i <= ds@.len(),
            picks@.len() == eligible_upto(*state, slot as int, leaving, i as int).len(),
            forall|k: int| 0 <= k < picks@.len() ==> #[trigger] picks@[k] as int == eligible_upto(*state, slot as int, leaving, i as int)[k],
            forall|k: int| 0 <= k < picks@.len() ==> #[trigger] picks@[k] < i,
        decreases ds@.len() - i,
    {
        if can_be_drawn(state, slot, leaving, &ds[i]) {
            picks.push(i);
        }
        i = i + 1;
    }
    picks
}

/// Draws one of those who can be drawn from the sect at `slot`, if any:
/// returns the position in the place's roster.
fn choose_member(rng: &mut StdRng, state: &GameState, slot: usize, leaving: bool) -> (r: Option<usize>)
    requires
        slot < slot_count(*state),
    ensures
        match r {
            None => eligible(*state, slot as int, leaving).len() == 0,
            Some(i) => eligible(*state, slot as int, leaving).contains(i as int) && i < roster(*state, slot as int).len(),
        },
{
    let picks = member_positions(state, slot, leaving);
    if picks.len() == 0 {
        return None;
    }
    let k = pick_index(rng, picks.len());
    proof {
        assert(eligible(*state, slot as int, leaving)[k as int] == picks@[k as int] as int);
    }
    Some(picks[k])
}

/// A disciple's fighting strength: attainment in twentieths (none when
/// negative, at most `i32::MAX`), talent, inner-force capacity and
/// reputation.
pub open spec fn spec_combat_score(d: Disciple) -> int {
    let t = if d.attributes.attainment < 0 {
        0
    } else {
        d.attributes.attainment / 20
    };
    (if t > i32::MAX {
        i32::MAX as int
    } else {
        t
    }) + d.talent + d.attributes.neili.maximum + d.attributes.reputation
}

/// A disciple's fighting strength.
pub fn combat_score(d: &Disciple) -> (r: i64)
    ensures
        r == spec_combat_score(*d),
{
    let a = d.attributes.attainment;
    let t: i64 = if a < 0 { 0 } else { a / 20 };
    let capped: i64 = if t > i32::MAX as i64 { i32::MAX as i64 } else { t };
    capped + d.talent as i64 + d.attributes.neili.maximum as i64 + d.attributes.reputation as i64
}

/// The chronicle line of a sparring match between the members `left` of `a`
/// and `right` of `b`.
pub open spec fn spar_text(a: Faction, b: Faction, left: Seq<char>, right: Seq<char>, a_wins: bool) -> Seq<char> {
    a.name@ + "弟子"@ + left + "与"@ + b.name@ + "弟子"@ + right + "切磋，"@ + (if a_wins {
        a.name@
    } else {
        b.name@
    }) + "胜出。"@
}

/// The match between the members at positions `li` and `ri` of the two
/// rosters was fought with rolls `x` and `y` in `0..=80`, turning `old`
/// into `new` and telling `text`.
pub open spec fn spar_fought(old: GameState, new: GameState, a: Faction, b: Faction, text: Seq<char>, li: int, ri: int, x: int, y: int) -> bool {
    let left = roster(old, a.slot as int)[li];
    let right = roster(old, b.slot as int)[ri];
    let a_wins = spec_combat_score(left) + x >= spec_combat_score(right) + y;
    &&& eligible(old, a.slot as int, false).contains(li)
    &&& eligible(old, b.slot as int, false).contains(ri)
    &&& 0 <= x <= 80
    &&& 0 <= y <= 80
    &&& resolved(old, new, a, b, InteractionKind::Spar, a_wins)
    &&& text == spar_text(a, b, left.name@, right.name@, a_wins)
}

/// A sparring match: one member drawn from each sect, each rolling `0..=80`
/// on top of its fighting strength; the winner's sect gains 2 prestige, the
/// loser's loses 1, and relations warm by 1. Nothing happens when either
/// sect has no member.
pub fn spar(rng: &mut StdRng, state: &mut GameState, a: &Faction, b: &Faction) -> (r: Option<(String, &'static str)>)
    requires
        placed(*old(state), *a, *b),
    ensures
        r is None ==> *final(state) == *old(state) && (eligible(*old(state), a.slot as int, false).len() == 0
            || eligible(*old(state), b.slot as int, false).len() == 0),
        r matches Some(t) ==> exists|li: int, ri: int, x: int, y: int| #[trigger] spar_fought(*old(state), *final(state), *a, *b, t.0@, li, ri, x, y),
        r matches Some(t) ==> t.1@ == encounter_mood(InteractionKind::Spar),
{
    let li = match choose_member(rng, state, a.slot, false) {
        Some(i) => i,
        None => return None,
    };
    let ri = match choose_member(rng, state, b.slot, false) {
        Some(i) => i,
        None => return None,
    };
    let ghost start = *state;
    let (left_name, left_score) = if a.slot == 0 {
        (state.disciples[li].name.clone(), combat_score(&state.disciples[li]))
    } else {
        (state.npc_disciples[li].name.clone(), combat_score(&state.npc_disciples[li]))
    };
    let (right_name, right_score) = if b.slot == 0 {
        (state.disciples[ri].name.clone(), combat_score(&state.disciples[ri]))
    } else {
        (state.npc_disciples[ri].name.clone(), combat_score(&state.npc_disciples[ri]))
    };
    let x = rand_range(rng, 0, 80);
    let y = rand_range(rng, 0, 80);
    let a_wins = left_score + x as i64 >= right_score + y as i64;
    if a_wins {
        settle(state, a, b, (2, 0, 0), (-1, 0, 0), 1);
    } else {
        settle(state, a, b, (-1, 0, 0), (2, 0, 0), 1);
    }
    let winner = if a_wins { a } else { b };
    let text = cat(
        cat(
            cat(
                cat(
                    cat(cat(cat(cat(String::from_str(a.name.as_str()), "弟子"), left_name.as_str()), "与"), b.name.as_str()),
                    "弟子",
                ),
                right_name.as_str(),
            ),
            "切磋，",
        ),
        winner.name.as_str(),
    );
    let text = cat(text, "胜出。");
    let r = (text, "neutral");
    proof {
        assert(spar_fought(*old(state), *state, *a, *b, r.0@, li as int, ri as int, x as int, y as int));
    }
    let res = Some(r);
    proof {
        let t = res->0;
        assert(spar_fought(*old(state), *state, *a, *b, t.0@, li as int, ri as int, x as int, y as int));
    }
    res
}

/// The place's roster in `new` is `ds`, and nothing else differs from `old`.
pub open spec fn with_roster(old: GameState, slot: int, ds: Seq<Disciple>, new: GameState) -> bool {
    if slot == 0 {
        new.disciples@ == ds && new == GameState { disciples: new.disciples, ..old }
    } else {
        new.npc_disciples@ == ds && new == GameState { npc_disciples: new.npc_disciples, ..old }
    }
}

/// `p` is the first position in `ds` of a disciple with the id `id`.
pub open spec fn first_with_id(ds: Seq<Disciple>, id: Seq<char>, p: int) -> bool {
    &&& 0 <= p < ds.len()
    &&& ds[p].id@ == id
    &&& forall|j: int| 0 <= j < p ==> (#[trigger] ds[j]).id@ != id
}

/// The disciple at `p`, the first with the id `id` in the place's roster,
/// was taken out of it as `d`.
pub open spec fn taken_at(old: GameState, new: GameState, slot: int, id: Seq<char>, p: int, d: Disciple) -> bool {
    &&& first_with_id(roster(old, slot), id, p)
    &&& d == roster(old, slot)[p]
    &&& with_roster(old, slot, roster(old, slot).remove(p), new)
}

/// Takes the first disciple with the id `id` out of the place's roster.
fn take_member(state: &mut GameState, slot: usize, id: &str) -> (r: Option<Disciple>)
    ensures
        r is None ==> *final(state) == *old(state) && forall|j: int|
            0 <= j < roster(*old(state), slot as int).len() ==> (#[trigger] roster(*old(state), slot as int)[j]).id@ != id@,
        r matches Some(d) ==> exists|p: int| #[trigger] taken_at(*old(state), *final(state), slot as int, id@, p, d),
{
    let ghost start = *state;
    let n = if slot == 0 { state.disciples.len() } else { state.npc_disciples.len() };
    let mut i: usize = 0;
    while i < n
        invariant
            *state == start,
            start == *old(state),
            n == roster(start, slot as int).len(),
            i <= n,
            forall|j: int| 0 <= j < i ==> (#[trigger] roster(start, slot as int)[j]).id@ != id@,
        decreases n - i,
    {
        let same = if slot == 0 {
            text_eq(state.disciples[i].id.as_str(), id)
        } else {
            text_eq(state.npc_disciples[i].id.as_str(), id)
        };
        if same {
            let d = if slot == 0 { state.disciples.remove(i) } else { state.npc_disciples.remove(i) };
            let r = Some(d);
            proof {
                assert(taken_at(*old(state), *state, slot as int, id@, i as int, r->0));
            }
            return r;
        }
        i = i + 1;
    }
    None
}

/// Puts the disciple at the end of the place's roster.
fn put_member(state: &mut GameState, slot: usize, d: Disciple)
    ensures
        with_roster(*old(state), slot as int, roster(*old(state), slot as int).push(d), *final(state)),
{
    if slot == 0 {
        state.disciples.push(d);
    } else {
        state.npc_disciples.push(d);
    }
}

/// Which sect a defector leaves: when only one sect has members who could
/// leave, that one; otherwise `a` when the draw, in
/// `0..=attraction(b→a) + attraction(a→b) + 1`, falls below
/// `attraction(a→b) + 1`.
pub open spec fn defection_choice(a: Faction, b: Faction, a_source: bool, draw: int) -> bool {
    if a.defectors == 0 {
        !a_source
    } else if b.defectors == 0 {
        a_source
    } else {
        &&& 0 <= draw <= spec_attraction(b, a) + spec_attraction(a, b) + 1
        &&& a_source == (draw < spec_attraction(a, b) + 1)
    }
}

/// `n` is `d` as a new member of the sect `target_id`: loyalty 50, no
/// department, master or action.
pub open spec fn defected_disciple(d: Disciple, n: Disciple, target_id: Seq<char>) -> bool {
    &&& match n.sect_id {
        Some(t) => t@ == target_id,
        None => false,
    }
    &&& n == Disciple {
        sect_id: n.sect_id,
        loyalty: 50,
        attributes: AcquiredAttributes { sect_loyalty: 50, ..d.attributes },
        department: None,
        master_id: None,
        action: None,
        ..d
    }
}

/// The rosters after the disciple at `p` of the place `from` left for the
/// place `to` as `n`.
pub open spec fn rosters_after_move(old: GameState, new: GameState, from: int, to: int, p: int, n: Disciple) -> bool {
    let taken = roster(old, from).remove(p);
    let dis = if from == 0 {
        taken
    } else {
        old.disciples@
    };
    let npc = if from == 0 {
        old.npc_disciples@
    } else {
        taken
    };
    &&& new.disciples@ == (if to == 0 {
        dis.push(n)
    } else {
        dis
    })
    &&& new.npc_disciples@ == (if to == 0 {
        npc
    } else {
        npc.push(n)
    })
}

/// The chronicle line of a defection.
pub open spec fn defection_text(source: Faction, member: Seq<char>, target: Faction) -> Seq<char> {
    source.name@ + "弟子"@ + member + "叛逃，转投"@ + target.name@ + "门下。"@
}

/// The member drawn at position `k` of the leaving sect's roster (`a`'s when
/// `a_source`) defected: the first disciple with its id, at `p`, moved to
/// the other sect as `n`; the leaving sect lost 2 prestige, the receiving
/// one gained 1, and relations cooled by 8.
pub open spec fn defected(
    old: GameState,
    new: GameState,
    a: Faction,
    b: Faction,
    text: Seq<char>,
    a_source: bool,
    draw: int,
    k: int,
    p: int,
    n: Disciple,
) -> bool {
    let source = if a_source {
        a
    } else {
        b
    };
    let target = if a_source {
        b
    } else {
        a
    };
    let src = roster(old, source.slot as int);
    &&& defection_choice(a, b, a_source, draw)
    &&& eligible(old, source.slot as int, true).contains(k)
    &&& 0 <= k < src.len()
    &&& first_with_id(src, src[k].id@, p)
    &&& defected_disciple(src[p], n, target.id@)
    &&& rosters_after_move(old, new, source.slot as int, target.slot as int, p, n)
    &&& resolved(
        GameState { disciples: new.disciples, npc_disciples: new.npc_disciples, ..old },
        new,
        a,
        b,
        InteractionKind::Defection,
        a_source,
    )
    &&& text == defection_text(source, src[k].name@, target)
}

/// No member could leave the sect the draw chose.
pub open spec fn defection_stalled(old: GameState, a: Faction, b: Faction, a_source: bool, draw: int) -> bool {
    &&& defection_choice(a, b, a_source, draw)
    &&& eligible(old, (if a_source {
        a.slot
    } else {
        b.slot
    }) as int, true).len() == 0
}

/// A member of one sect, never its leader, leaves for the other.
pub fn defection(rng: &mut StdRng, state: &mut GameState, a: &Faction, b: &Faction) -> (r: Option<(String, &'static str)>)
    requires
        placed(*old(state), *a, *b),
        spec_attraction(*a, *b) + spec_attraction(*b, *a) + 2 <= i32::MAX,
    ensures
        r is None ==> *final(state) == *old(state) && exists|a_source: bool, draw: int| #[trigger] defection_stalled(*old(state), *a, *b, a_source, draw),
        r matches Some(t) ==> exists|a_source: bool, draw: int, k: int, p: int, n: Disciple| #[trigger] defected(*old(state), *final(state), *a, *b, t.0@, a_source, draw, k, p, n),
        r matches Some(t) ==> t.1@ == encounter_mood(InteractionKind::Defection),
{
    let toward_b = defection_attraction(a, b);
    let toward_a = defection_attraction(b, a);
    let mut draw: i32 = 0;
    let a_source = if a.defectors == 0 {
        false
    } else if b.defectors == 0 {
        true
    } else {
        draw = rand_range(rng, 0, (toward_a + toward_b + 1) as i32);
        (draw as i64) < toward_b + 1
    };
    let (source, target) = if a_source { (a, b) } else { (b, a) };
    let ghost start = *state;
    let k = match choose_member(rng, state, source.slot, true) {
        Some(k) => k,
        None => {
            proof {
                assert(defection_stalled(start, *a, *b, a_source, draw as int));
            }
            return None;
        },
    };
    let (member_id, member_name) = if source.slot == 0 {
        (state.disciples[k].id.clone(), state.disciples[k].name.clone())
    } else {
        (state.npc_disciples[k].id.clone(), state.npc_disciples[k].name.clone())
    };
    let mut d = match take_member(state, source.slot, member_id.as_str()) {
        Some(d) => d,
        None => {
            proof {
                assert(roster(start, source.slot as int)[k as int].id@ == member_id@);
            }
            return None;
        },
    };
    let ghost p = choose|p: int| #[trigger] taken_at(start, *state, source.slot as int, member_id@, p, d);
    let ghost before_move = d;
    d.sect_id = Some(target.id.clone());
    d.loyalty = 50;
    d.attributes.sect_loyalty = 50;
    d.department = None;
    d.master_id = None;
    d.action = None;
    let ghost moved = d;
    let ghost taken = *state;
    put_member(state, target.slot, d);
    let ghost mid = *state;
    if a_source {
        settle(state, a, b, (-2, 0, 0), (1, 0, 0), -8);
    } else {
        settle(state, a, b, (1, 0, 0), (-2, 0, 0), -8);
    }
    let text = cat(
        cat(cat(cat(cat(String::from_str(source.name.as_str()), "弟子"), member_name.as_str()), "叛逃，转投"), target.name.as_str()),
        "门下。",
    );
    let r = (text, "bad");
    proof {
        assert(defected_disciple(before_move, moved, target.id@));
        assert(mid == (GameState { disciples: state.disciples, npc_disciples: state.npc_disciples, ..start }));
        assert(rosters_after_move(start, *state, source.slot as int, target.slot as int, p, moved));
        assert(defected(start, *state, *a, *b, r.0@, a_source, draw as int, k as int, p, moved));
    }
    let res = Some(r);
    proof {
        let t = res->0;
        assert(defected(*old(state), *state, *a, *b, t.0@, a_source, draw as int, k as int, p, moved));
    }
    res
}

// ---------------------------------------------------------------------------
// The month.

/// `f` is what the encounters read of the sect at `slot` in `s`.
pub open spec fn faction_of(f: Faction, s: GameState, slot: int) -> bool {
    let sect = sect_at(s, slot);
    let members = eligible(s, slot, false).len();
    &&& f.slot == slot
    &&& f.id@ == sect.id@
    &&& f.name@ == sect.name@
    &&& f.country@ == sect.country_id@
    &&& f.policy == sect.policy
    &&& f.prestige == sect.attributes.prestige
    &&& f.silver == sect.attributes.silver
    &&& f.morality == sect.attributes.morality
    &&& f.members == members
    &&& f.defectors == (if members > 1 {
        eligible(s, slot, true).len()
    } else {
        0
    })
}

/// `fs` reads every sect of `s`, in place order.
pub open spec fn snapshot_of(fs: Seq<Faction>, s: GameState) -> bool {
    &&& fs.len() == slot_count(s)
    &&& forall|i: int| 0 <= i < fs.len() ==> #[trigger] faction_of(fs[i], s, i)
}

fn read_faction(state: &GameState, slot: usize) -> (f: Faction)
    requires
        slot < slot_count(*state),
    ensures
        faction_of(f, *state, slot as int),
{
    let sect = if slot == 0 { &state.sect } else { &state.npc_sects[slot - 1] };
    let members = member_positions(state, slot, false).len();
    let defectors = if members > 1 { member_positions(state, slot, true).len() } else { 0 };
    Faction {
        slot,
        id: sect.id.clone(),
        name: sect.name.clone(),
        country: sect.country_id.clone(),
        policy: sect.policy,
        prestige: sect.attributes.prestige,
        silver: sect.attributes.silver,
        morality: sect.attributes.morality,
        members,
        defectors,
    }
}

/// What the encounters read of every sect, the player's first.
pub fn faction_snapshot(state: &GameState) -> (r: Vec<Faction>)
    ensures
        snapshot_of(r@, *state),
{
    let mut fs: Vec<Faction> = Vec::new();
    fs.push(read_faction(state, 0));
    let mut i: usize = 0;
    while i < state.npc_sects.len()
        invariant
            i <= state.npc_sects@.len(),
            fs@.len() == i + 1,
            forall|k: int| 0 <= k < fs@.len() ==> #[trigger] faction_of(fs@[k], *state, k),
        decreases state.npc_sects@.len() - i,
    {
        fs.push(read_faction(state, i + 1));
        i = i + 1;
    }
    fs
}

/// The encounter of `kind` between `a` and `b` took place, turning `old`
/// into `new` and telling `text`.
pub open spec fn encounter_told(old: GameState, new: GameState, a: Faction, b: Faction, kind: InteractionKind, text: Seq<char>) -> bool {
    match kind {
        InteractionKind::Spar => exists|li: int, ri: int, x: int, y: int| #[trigger] spar_fought(old, new, a, b, text, li, ri, x, y),
        InteractionKind::Defection => exists|a_source: bool, draw: int, k: int, p: int, n: Disciple| #[trigger] defected(old, new, a, b, text, a_source, draw, k, p, n),
        InteractionKind::YuanSongWar => exists|ry: int, rs: int| #[trigger] war_fought(old, new, a, b, text, ry, rs),
        InteractionKind::CourtClash => exists|ry: int, rs: int| #[trigger] clash_fought(old, new, a, b, text, ry, rs),
        InteractionKind::YuanCourt => exists|first: bool| #[trigger] court_called(old, new, a, b, kind, text, first),
        InteractionKind::SongCourt => exists|first: bool| #[trigger] court_called(old, new, a, b, kind, text, first),
        _ => resolved(old, new, a, b, kind, false) && text == encounter_text(kind, a, b, false),
    }
}

/// The encounter came to nothing: no member to spar, or none to leave the
/// sect the draw chose; nothing changed.
pub open spec fn encounter_failed(old: GameState, new: GameState, a: Faction, b: Faction, kind: InteractionKind) -> bool {
    &&& new == old
    &&& match kind {
        InteractionKind::Spar => eligible(old, a.slot as int, false).len() == 0 || eligible(old, b.slot as int, false).len() == 0,
        InteractionKind::Defection => exists|a_source: bool, draw: int| #[trigger] defection_stalled(old, a, b, a_source, draw),
        _ => false,
    }
}

/// Every outcome of the encounter keeps silver within `i32`, and the pulls
/// between the two sects leave room for the defection draw.
pub open spec fn encounter_fits(s: GameState, a: Faction, b: Faction, kind: InteractionKind) -> bool {
    &&& placed(s, a, b)
    &&& outcome_fits(s, a, b, kind, true)
    &&& outcome_fits(s, a, b, kind, false)
    &&& spec_attraction(a, b) + spec_attraction(b, a) + 2 <= i32::MAX
}

/// Plays out an encounter of `kind` between `a` and `b`; returns its
/// chronicle line and tone, or nothing when it came to nothing.
fn apply_interaction(rng: &mut StdRng, state: &mut GameState, a: &Faction, b: &Faction, kind: InteractionKind) -> (r: Option<(String, &'static str)>)
    requires
        encounter_fits(*old(state), *a, *b, kind),
    ensures
        r is None ==> encounter_failed(*old(state), *final(state), *a, *b, kind),
        r matches Some(t) ==> encounter_told(*old(state), *final(state), *a, *b, kind, t.0@),
        r matches Some(t) ==> t.1@ == encounter_mood(kind),
{
    match kind {
        InteractionKind::Spar => spar(rng, state, a, b),
        InteractionKind::Trade => Some(trade(state, a, b)),
        InteractionKind::BorderConflict => Some(border_conflict(state, a, b)),
        InteractionKind::JointBandits => Some(joint_bandits(state, a, b)),
        InteractionKind::Defection => defection(rng, state, a, b),
        InteractionKind::YuanSongWar => Some(yuan_song_war(rng, state, a, b)),
        InteractionKind::DaliExchange => Some(dali_exchange(state, a, b)),
        InteractionKind::XiaTrade => Some(xia_trade(state, a, b)),
        InteractionKind::XiaAssassination => Some(xia_assassination(state, a, b)),
        InteractionKind::YuanCourt => Some(yuan_court(rng, state, a, b)),
        InteractionKind::SongCourt => Some(song_court(rng, state, a, b)),
        InteractionKind::CourtClash => Some(court_clash(rng, state, a, b)),
    }
}

/// The key under which a pair of sects is remembered: their ids, the one
/// that does not sort after the other in front.
pub open spec fn pair_key(x: Seq<char>, y: Seq<char>) -> (Seq<char>, Seq<char>) {
    if !text_lt(y, x) {
        (x, y)
    } else {
        (y, x)
    }
}

/// The key under which the pair of sects `a` and `b` is remembered.
pub fn ordered_pair(a: &str, b: &str) -> (r: (String, String))
    ensures
        (r.0@, r.1@) == pair_key(a@, b@),
{
    if !text_less(b, a) {
        (String::from_str(a), String::from_str(b))
    } else {
        (String::from_str(b), String::from_str(a))
    }
}

/// The remembered keys as texts.
pub open spec fn keys_view(used: Seq<(String, String)>) -> Seq<(Seq<char>, Seq<char>)> {
    used.map_values(|k: (String, String)| (k.0@, k.1@))
}

/// Whether the pair of sects `x` and `y` has met already.
fn pair_used(used: &Vec<(String, String)>, x: &str, y: &str) -> (r: bool)
    ensures
        r == keys_view(used@).contains(pair_key(x@, y@)),
{
    let key = ordered_pair(x, y);
    let mut i: usize = 0;
    while i < used.len()
        invariant
            i <= used@.len(),
            (key.0@, key.1@) == pair_key(x@, y@),
            forall|j: int| 0 <= j < i ==> #[trigger] keys_view(used@)[j] != pair_key(x@, y@),
        decreases used@.len() - i,
    {
        if text_eq(used[i].0.as_str(), key.0.as_str()) && text_eq(used[i].1.as_str(), key.1.as_str()) {
            proof {
                assert(keys_view(used@)[i as int] == pair_key(x@, y@));
            }
            return true;
        }
        i = i + 1;
    }
    false
}

/// The encounters open to the pair at places `l` and `r`, tagged with the
/// places; none when the pair has met already.
pub open spec fn pair_pool(fs: Seq<Faction>, used: Seq<(Seq<char>, Seq<char>)>, l: int, r: int) -> Seq<(usize, usize, InteractionKind, u32)> {
    if used.contains(pair_key(fs[l].id@, fs[r].id@)) {
        Seq::empty()
    } else {
        spec_candidates(fs[l], fs[r]).map_values(|c: (InteractionKind, u32)| (l as usize, r as usize, c.0, c.1))
    }
}

/// The encounters open to the pairs `(l, l + 1)` to `(l, r - 1)`.
pub open spec fn pool_row(fs: Seq<Faction>, used: Seq<(Seq<char>, Seq<char>)>, l: int, r: int) -> Seq<(usize, usize, InteractionKind, u32)>
    decreases r - l,
{
    if r <= l + 1 {
        Seq::empty()
    } else {
        pool_row(fs, used, l, r - 1) + pair_pool(fs, used, l, r - 1)
    }
}

/// The encounters open to the pairs whose first place is below `l`.
pub open spec fn pool_rows(fs: Seq<Faction>, used: Seq<(Seq<char>, Seq<char>)>, l: int) -> Seq<(usize, usize, InteractionKind, u32)>
    decreases l,
{
    if l <= 0 {
        Seq::empty()
    } else {
        pool_rows(fs, used, l - 1) + pool_row(fs, used, l - 1, fs.len() as int)
    }
}

/// Every encounter open this round, pair by pair in place order.
pub open spec fn pool(fs: Seq<Faction>, used: Seq<(Seq<char>, Seq<char>)>) -> Seq<(usize, usize, InteractionKind, u32)> {
    pool_rows(fs, used, fs.len() as int)
}

/// The weights of the open encounters.
pub open spec fn pool_weights(p: Seq<(usize, usize, InteractionKind, u32)>) -> Seq<u32> {
    p.map_values(|c: (usize, usize, InteractionKind, u32)| c.3)
}

/// Every open encounter belongs to a pair, first place before second, that
/// has not met yet.
pub proof fn lemma_pool_fresh(fs: Seq<Faction>, used: Seq<(Seq<char>, Seq<char>)>, i: int)
    requires
        0 <= i < pool(fs, used).len(),
        fs.len() <= usize::MAX,
    ensures
        (pool(fs, used)[i].0 as int) < (pool(fs, used)[i].1 as int) < fs.len(),
        !used.contains(pair_key(fs[pool(fs, used)[i].0 as int].id@, fs[pool(fs, used)[i].1 as int].id@)),
{
    lemma_rows_fresh(fs, used, fs.len() as int, i);
}

proof fn lemma_rows_fresh(fs: Seq<Faction>, used: Seq<(Seq<char>, Seq<char>)>, l: int, i: int)
    requires
        0 <= i < pool_rows(fs, used, l).len(),
        l <= fs.len(),
        fs.len() <= usize::MAX,
    ensures
        (pool_rows(fs, used, l)[i].0 as int) < (pool_rows(fs, used, l)[i].1 as int) < fs.len(),
        !used.contains(pair_key(fs[pool_rows(fs, used, l)[i].0 as int].id@, fs[pool_rows(fs, used, l)[i].1 as int].id@)),
    decreases l,
{
    if l > 0 {
        let before = pool_rows(fs, used, l - 1);
        if i < before.len() {
            lemma_rows_fresh(fs, used, l - 1, i);
        } else {
            lemma_row_fresh(fs, used, l - 1, fs.len() as int, i - before.len());
        }
    }
}

proof fn lemma_row_fresh(fs: Seq<Faction>, used: Seq<(Seq<char>, Seq<char>)>, l: int, r: int, i: int)
    requires
        0 <= l,
        0 <= i < pool_row(fs, used, l, r).len(),
        r <= fs.len(),
        fs.len() <= usize::MAX,
    ensures
        (pool_row(fs, used, l, r)[i].0 as int) == l,
        l < (pool_row(fs, used, l, r)[i].1 as int) < r,
        !used.contains(pair_key(fs[l].id@, fs[pool_row(fs, used, l, r)[i].1 as int].id@)),
    decreases r - l,
{
    if r > l + 1 {
        let before = pool_row(fs, used, l, r - 1);
        if i < before.len() {
            lemma_row_fresh(fs, used, l, r - 1, i);
        } else {
            let p = pair_pool(fs, used, l, r - 1);
            assert(pool_row(fs, used, l, r)[i] == p[i - before.len()]);
            let c = spec_candidates(fs[l], fs[r - 1]);
            assert(p[i - before.len()] == (l as usize, (r - 1) as usize, c[i - before.len()].0, c[i - before.len()].1));
        }
    }
}

/// Prestige within `0..=1000` and morality within `0..=100`, as the game
/// keeps them.
pub open spec fn faction_bounded(f: Faction) -> bool {
    0 <= f.prestige <= 1000 && 0 <= f.morality <= 100
}

proof fn lemma_candidate_bounds(a: Faction, b: Faction)
    requires
        faction_bounded(a),
        faction_bounded(b),
    ensures
        spec_candidates(a, b).len() <= 11,
        forall|i: int| 0 <= i < spec_candidates(a, b).len() ==> 6 <= (#[trigger] spec_candidates(a, b)[i]).1 <= 180,
{
    let c = court_offers(a, b);
    let k = kingdom_offers(a, b);
    let s = sect_offers(a, b);
    assert(0 <= xia_weight(a, b) <= 30);
    assert(0 <= spar_weight(a, b) <= 50);
    assert(0 <= trade_weight(a, b) <= 90);
    assert(0 <= border_weight(a, b) <= 40);
    assert(spec_attraction(a, b) <= 650 && spec_attraction(b, a) <= 650);
    assert(6 <= defection_weight(a, b) <= 170);
    assert forall|i: int| 0 <= i < c.len() implies 6 <= (#[trigger] c[i]).1 <= 180 by {}
    assert forall|i: int| 0 <= i < k.len() implies 6 <= (#[trigger] k[i]).1 <= 180 by {}
    assert forall|i: int| 0 <= i < s.len() implies 6 <= (#[trigger] s[i]).1 <= 180 by {}
    if !(spec_is_court(a) && spec_is_court(b)) {
        let all = c + k + s;
        assert forall|i: int| 0 <= i < all.len() implies 6 <= (#[trigger] all[i]).1 <= 180 by {
            if i < c.len() {
                assert(all[i] == c[i]);
            } else if i < c.len() + k.len() {
                assert(all[i] == k[i - c.len()]);
            } else {
                assert(all[i] == s[i - c.len() - k.len()]);
            }
        }
    }
}

/// Gathers every encounter open to a pair that has not met yet.
fn open_candidates(fs: &Vec<Faction>, used: &Vec<(String, String)>) -> (r: Vec<(usize, usize, InteractionKind, u32)>)
    requires
        fs@.len() <= 1001,
        forall|i: int| 0 <= i < fs@.len() ==> faction_bounded(#[trigger] fs@[i]),
    ensures
        r@ == pool(fs@, keys_view(used@)),
        r@.len() <= 11 * fs@.len() * fs@.len(),
        forall|i: int| 0 <= i < r@.len() ==> 6 <= (#[trigger] r@[i]).3 <= 180,
        forall|i: int| 0 <= i < r@.len() ==> (#[trigger] r@[i]).0 < r@[i].1 < fs@.len(),
        forall|i: int| 0 <= i < r@.len() ==> !keys_view(used@).contains(pair_key(fs@[(#[trigger] r@[i]).0 as int].id@, fs@[r@[i].1 as int].id@)),
{
    let n = fs.len();
    let ghost keys = keys_view(used@);
    let mut cands: Vec<(usize, usize, InteractionKind, u32)> = Vec::new();
    let ghost mut steps: int = 0;
    let mut left: usize = 0;
    while left < n
        invariant
            n == fs@.len(),
            n <= 1001,
            left <= n,
            keys == keys_view(used@),
            forall|i: int| 0 <= i < fs@.len() ==> faction_bounded(#[trigger] fs@[i]),
            cands@ == pool_rows(fs@, keys, left as int),
            forall|i: int| 0 <= i < cands@.len() ==> 6 <= (#[trigger] cands@[i]).3 <= 180,
            forall|i: int| 0 <= i < cands@.len() ==> (#[trigger] cands@[i]).0 < cands@[i].1 < n,
            forall|i: int| 0 <= i < cands@.len() ==> !keys.contains(pair_key(fs@[(#[trigger] cands@[i]).0 as int].id@, fs@[cands@[i].1 as int].id@)),
            0 <= steps <= left * n,
            cands@.len() <= 11 * steps,
        decreases n - left,
    {
        let ghost row_start = cands@;
        let mut right: usize = left + 1;
        while right < n
            invariant
                n == fs@.len(),
                n <= 1001,
                left < n,
                left + 1 <= right <= n,
                keys == keys_view(used@),
                forall|i: int| 0 <= i < fs@.len() ==> faction_bounded(#[trigger] fs@[i]),
                row_start == pool_rows(fs@, keys, left as int),
                cands@ == row_start + pool_row(fs@, keys, left as int, right as int),
                forall|i: int| 0 <= i < cands@.len() ==> 6 <= (#[trigger] cands@[i]).3 <= 180,
                forall|i: int| 0 <= i < cands@.len() ==> (#[trigger] cands@[i]).0 < cands@[i].1 < n,
                forall|i: int| 0 <= i < cands@.len() ==> !keys.contains(pair_key(fs@[(#[trigger] cands@[i]).0 as int].id@, fs@[cands@[i].1 as int].id@)),
                0 <= steps <= left * n + right,
                cands@.len() <= 11 * steps,
            decreases n - right,
        {
            let ghost before = cands@;
            let met = pair_used(used, fs[left].id.as_str(), fs[right].id.as_str());
            if !met {
                let kinds = pair_candidates(&fs[left], &fs[right]);
                proof {
                    lemma_candidate_bounds(fs@[left as int], fs@[right as int]);
                }
                let mut k: usize = 0;
                while k < kinds.len()
                    invariant
                        k <= kinds@.len(),
                        kinds@ == spec_candidates(fs@[left as int], fs@[right as int]),
                        kinds@.len() <= 11,
                        forall|i: int| 0 <= i < kinds@.len() ==> 6 <= (#[trigger] kinds@[i]).1 <= 180,
                        forall|i: int| 0 <= i < before.len() ==> 6 <= (#[trigger] before[i]).3 <= 180,
                        forall|i: int| 0 <= i < before.len() ==> (#[trigger] before[i]).0 < before[i].1 < n,
                        forall|i: int| 0 <= i < before.len() ==> !keys.contains(pair_key(fs@[(#[trigger] before[i]).0 as int].id@, fs@[before[i].1 as int].id@)),
                        !keys.contains(pair_key(fs@[left as int].id@, fs@[right as int].id@)),
                        left < right < n,
                        cands@ == before + kinds@.take(k as int).map_values(|c: (InteractionKind, u32)| (left, right, c.0, c.1)),
                    decreases kinds@.len() - k,
                {
                    cands.push((left, right, kinds[k].0, kinds[k].1));
                    k = k + 1;
                    proof {
                        assert(cands@ =~= before + kinds@.take(k as int).map_values(|c: (InteractionKind, u32)| (left, right, c.0, c.1)));
                    }
                }
                proof {
                    assert(kinds@.take(k as int) =~= kinds@);
                    assert(cands@ =~= before + pair_pool(fs@, keys, left as int, right as int));
                    assert forall|i: int| 0 <= i < cands@.len() implies 6 <= (#[trigger] cands@[i]).3 <= 180 by {
                        if i >= before.len() {
                            assert(cands@[i].3 == kinds@[i - before.len()].1);
                        }
                    }
                    assert forall|i: int| 0 <= i < cands@.len() implies (#[trigger] cands@[i]).0 < cands@[i].1 < n by {
                        if i >= before.len() {
                            assert(cands@[i].0 == left && cands@[i].1 == right);
                        }
                    }
                    assert forall|i: int| 0 <= i < cands@.len() implies !keys.contains(pair_key(fs@[(#[trigger] cands@[i]).0 as int].id@, fs@[cands@[i].1 as int].id@)) by {
                        if i >= before.len() {
                            assert(cands@[i].0 == left && cands@[i].1 == right);
                        }
                    }
                }
            } else {
                proof {
                    assert(cands@ =~= before + pair_pool(fs@, keys, left as int, right as int));
                }
            }
            proof {
                assert(cands@ =~= row_start + pool_row(fs@, keys, left as int, right as int + 1));
                steps = steps + 1;
            }
            right = right + 1;
        }
        proof {
            assert((left + 1) * n == left * n + n) by (nonlinear_arith);
            assert(cands@ =~= pool_rows(fs@, keys, left as int + 1));
        }
        left = left + 1;
    }
    proof {
        assert(left == n);
        assert(steps <= n * n);
        assert(cands@.len() <= 11 * n * n) by (nonlinear_arith)
            requires
                cands@.len() <= 11 * steps,
                steps <= n * n,
        ;
    }
    cands
}

/// The standing the game keeps for a sect: prestige within `0..=1000`,
/// morality within `0..=100`, silver not below zero.
pub open spec fn standing_kept(s: SectState) -> bool {
    &&& 0 <= s.attributes.prestige <= 1000
    &&& 0 <= s.attributes.morality <= 100
    &&& 0 <= s.attributes.silver
}

/// Every sect of `st` keeps its standing.
pub open spec fn sects_in_standing(st: GameState) -> bool {
    forall|j: int| 0 <= j < slot_count(st) ==> standing_kept(#[trigger] sect_at(st, j))
}

/// Every sect of `st` has at least `room` taels below the `i32` limit.
pub open spec fn silver_room(st: GameState, room: int) -> bool {
    forall|j: int| 0 <= j < slot_count(st) ==> (#[trigger] sect_at(st, j)).attributes.silver <= i32::MAX - room
}

/// From `old` to `new` every sect kept its standing and gained at most
/// `gain` taels, and the rest of the world beyond the sects and rosters
/// stayed as it was.
pub open spec fn standing_carried(old: GameState, new: GameState, gain: int) -> bool {
    &&& new.npc_sects@.len() == old.npc_sects@.len()
    &&& sects_in_standing(new)
    &&& forall|j: int| 0 <= j < slot_count(old) ==> (#[trigger] sect_at(new, j)).attributes.silver <= sect_at(
        old,
        j,
    ).attributes.silver + gain
    &&& forall|j: int| 0 <= j < slot_count(old) ==> (#[trigger] sect_at(new, j)).id == sect_at(old, j).id
    &&& new.year == old.year
    &&& new.month == old.month
    &&& new.sect.id == old.sect.id
}

proof fn lemma_shifted_kept(s: SectState, d: (int, int, int))
    requires
        standing_kept(s),
        d.1 <= 95,
        s.attributes.silver <= i32::MAX - 95,
    ensures
        standing_kept(shifted_standing(s, d)),
        shifted_standing(s, d).attributes.silver <= s.attributes.silver + 95,
        shifted_standing(s, d).id == s.id,
{
}

proof fn lemma_encountered_keeps(old: GameState, new: GameState, a: Faction, b: Faction, da: (int, int, int), db: (int, int, int), drel: int)
    requires
        encountered(old, new, a, b, da, db, drel),
        placed(old, a, b),
        sects_in_standing(old),
        silver_room(old, 95),
        da.1 <= 95,
        db.1 <= 95,
    ensures
        standing_carried(old, new, 95),
{
    lemma_shifted_kept(sect_at(old, a.slot as int), da);
    lemma_shifted_kept(sect_at(old, b.slot as int), db);
    assert forall|j: int| 0 <= j < slot_count(new) implies standing_kept(#[trigger] sect_at(new, j)) by {
        if j != a.slot && j != b.slot {
            assert(sect_at(new, j) == sect_at(old, j));
        }
    }
    assert forall|j: int| 0 <= j < slot_count(old) implies (#[trigger] sect_at(new, j)).id == sect_at(old, j).id by {
        if j != a.slot && j != b.slot {
            assert(sect_at(new, j) == sect_at(old, j));
        }
    }
    assert(new.sect.id == sect_at(new, 0).id);
}

proof fn lemma_outcome_gain(kind: InteractionKind, a: Faction, b: Faction, first: bool)
    requires
        faction_bounded(a),
        faction_bounded(b),
    ensures
        encounter_outcome(kind, a, b, first).0.1 <= 95,
        encounter_outcome(kind, a, b, first).1.1 <= 95,
        encounter_outcome(kind, a, b, first).0.1 >= -30,
        encounter_outcome(kind, a, b, first).1.1 >= -30,
{
    assert(trade_income(a, b) <= 95);
}

proof fn lemma_resolved_keeps(old: GameState, new: GameState, a: Faction, b: Faction, kind: InteractionKind, first: bool)
    requires
        resolved(old, new, a, b, kind, first),
        placed(old, a, b),
        sects_in_standing(old),
        silver_room(old, 95),
        faction_bounded(a),
        faction_bounded(b),
    ensures
        standing_carried(old, new, 95),
{
    lemma_outcome_gain(kind, a, b, first);
    let o = encounter_outcome(kind, a, b, first);
    lemma_encountered_keeps(old, new, a, b, o.0, o.1, o.2);
}

proof fn lemma_encounter_keeps(old: GameState, new: GameState, a: Faction, b: Faction, kind: InteractionKind, text: Seq<char>)
    requires
        encounter_told(old, new, a, b, kind, text),
        placed(old, a, b),
        sects_in_standing(old),
        silver_room(old, 95),
        faction_bounded(a),
        faction_bounded(b),
    ensures
        standing_carried(old, new, 95),
{
    match kind {
        InteractionKind::Spar => {
            let (li, ri, x, y) = choose|li: int, ri: int, x: int, y: int| #[trigger] spar_fought(old, new, a, b, text, li, ri, x, y);
            let left = roster(old, a.slot as int)[li];
            let right = roster(old, b.slot as int)[ri];
            lemma_resolved_keeps(old, new, a, b, kind, spec_combat_score(left) + x >= spec_combat_score(right) + y);
        },
        InteractionKind::Defection => {
            let (a_source, draw, k, p, n) = choose|a_source: bool, draw: int, k: int, p: int, n: Disciple| #[trigger] defected(old, new, a, b, text, a_source, draw, k, p, n);
            let mid = GameState { disciples: new.disciples, npc_disciples: new.npc_disciples, ..old };
            assert forall|j: int| 0 <= j < slot_count(mid) implies standing_kept(#[trigger] sect_at(mid, j)) by {
                assert(sect_at(mid, j) == sect_at(old, j));
            }
            assert forall|j: int| 0 <= j < slot_count(mid) implies (#[trigger] sect_at(mid, j)).attributes.silver <= i32::MAX - 95 by {
                assert(sect_at(mid, j) == sect_at(old, j));
            }
            lemma_resolved_keeps(mid, new, a, b, kind, a_source);
            assert forall|j: int| 0 <= j < slot_count(old) implies (#[trigger] sect_at(new, j)).attributes.silver <= sect_at(old, j).attributes.silver + 95 by {
                assert(sect_at(mid, j) == sect_at(old, j));
            }
            assert forall|j: int| 0 <= j < slot_count(old) implies (#[trigger] sect_at(new, j)).id == sect_at(old, j).id by {
                assert(sect_at(mid, j) == sect_at(old, j));
            }
        },
        InteractionKind::YuanSongWar => {
            let (ry, rs) = choose|ry: int, rs: int| #[trigger] war_fought(old, new, a, b, text, ry, rs);
            lemma_resolved_keeps(old, new, a, b, kind, war_won(a, b, ry, rs));
        },
        InteractionKind::CourtClash => {
            let (ry, rs) = choose|ry: int, rs: int| #[trigger] clash_fought(old, new, a, b, text, ry, rs);
            lemma_resolved_keeps(old, new, a, b, kind, clash_won(a, b, ry, rs));
        },
        InteractionKind::YuanCourt => {
            let first = choose|first: bool| #[trigger] court_called(old, new, a, b, kind, text, first);
            lemma_resolved_keeps(old, new, a, b, kind, first);
        },
        InteractionKind::SongCourt => {
            let first = choose|first: bool| #[trigger] court_called(old, new, a, b, kind, text, first);
            lemma_resolved_keeps(old, new, a, b, kind, first);
        },
        _ => {
            lemma_resolved_keeps(old, new, a, b, kind, false);
        },
    }
}

/// A round drew the open encounter at `idx` with the roll `roll`, read of
/// `s0` as `fs`: the pair is remembered, and the encounter either came to
/// nothing or took place and told `told` (line and tone).
pub open spec fn round_drawn(
    s0: GameState,
    s1: GameState,
    u0: Seq<(Seq<char>, Seq<char>)>,
    u1: Seq<(Seq<char>, Seq<char>)>,
    fs: Seq<Faction>,
    roll: int,
    idx: int,
    told: Option<(Seq<char>, Seq<char>)>,
) -> bool {
    let p = pool(fs, u0);
    let c = p[idx];
    let a = fs[c.0 as int];
    let b = fs[c.1 as int];
    &&& snapshot_of(fs, s0)
    &&& fs.len() <= usize::MAX
    &&& lands_at(pool_weights(p), roll, idx)
    &&& u1 == u0.push(pair_key(a.id@, b.id@))
    &&& match told {
        None => encounter_failed(s0, s1, a, b, c.2),
        Some(t) => encounter_told(s0, s1, a, b, c.2, t.0) && t.1 == encounter_mood(c.2),
    }
}

/// One round of the month's encounters, from `s0` to `s1`.
pub open spec fn round_step(
    s0: GameState,
    s1: GameState,
    u0: Seq<(Seq<char>, Seq<char>)>,
    u1: Seq<(Seq<char>, Seq<char>)>,
    told: Option<(Seq<char>, Seq<char>)>,
) -> bool {
    exists|fs: Seq<Faction>, roll: int, idx: int| #[trigger] round_drawn(s0, s1, u0, u1, fs, roll, idx, told)
}

/// No pair that has not met yet has an encounter open.
pub open spec fn exhausted(s: GameState, u: Seq<(Seq<char>, Seq<char>)>) -> bool {
    exists|fs: Seq<Faction>| #[trigger] snapshot_of(fs, s) && pool(fs, u).len() == 0
}

/// The places `l` and `m` had not met under `u0`, and `u1` remembers them.
pub open spec fn fresh_pair(s: GameState, u0: Seq<(Seq<char>, Seq<char>)>, u1: Seq<(Seq<char>, Seq<char>)>, l: int, m: int) -> bool {
    let key = pair_key(sect_at(s, l).id@, sect_at(s, m).id@);
    &&& 0 <= l < m < slot_count(s)
    &&& !u0.contains(key)
    &&& u1 == u0.push(key)
}

/// The chronicle line and tone an encounter returned, as texts.
pub open spec fn told_view(o: Option<(String, &'static str)>) -> Option<(Seq<char>, Seq<char>)> {
    match o {
        Some(t) => Some((t.0@, t.1@)),
        None => None,
    }
}

/// The month may run: every sect keeps its standing with room for a
/// month's earnings below the `i32` limit, and there are at most a
/// thousand other sects.
pub open spec fn month_ready(s: GameState) -> bool {
    &&& sects_in_standing(s)
    &&& silver_room(s, 500)
    &&& s.npc_sects@.len() <= 1000
}

proof fn lemma_weight_bounds(ws: Seq<u32>, n: int)
    requires
        0 <= n <= ws.len(),
        forall|i: int| 0 <= i < ws.len() ==> 6 <= #[trigger] ws[i] <= 180,
    ensures
        6 * n <= weight_prefix(ws, n) <= 180 * n,
    decreases n,
{
    if n > 0 {
        lemma_weight_bounds(ws, n - 1);
    }
}

proof fn lemma_faction_bounded(fs: Seq<Faction>, s: GameState, i: int)
    requires
        snapshot_of(fs, s),
        sects_in_standing(s),
        0 <= i < fs.len(),
    ensures
        faction_bounded(fs[i]),
        fs[i].slot == i,
{
    assert(faction_of(fs[i], s, i));
    assert(standing_kept(sect_at(s, i)));
}

proof fn lemma_encounter_fits(s: GameState, fs: Seq<Faction>, l: int, r: int, kind: InteractionKind)
    requires
        snapshot_of(fs, s),
        sects_in_standing(s),
        silver_room(s, 95),
        0 <= l < r < fs.len(),
    ensures
        encounter_fits(s, fs[l], fs[r], kind),
{
    lemma_faction_bounded(fs, s, l);
    lemma_faction_bounded(fs, s, r);
    lemma_outcome_gain(kind, fs[l], fs[r], true);
    lemma_outcome_gain(kind, fs[l], fs[r], false);
    assert(standing_kept(sect_at(s, l)) && standing_kept(sect_at(s, r)));
    assert(sect_at(s, l).attributes.silver <= i32::MAX - 95);
    assert(sect_at(s, r).attributes.silver <= i32::MAX - 95);
    assert(spec_attraction(fs[l], fs[r]) <= 650 && spec_attraction(fs[r], fs[l]) <= 650);
}

/// One round of the month's encounters: reads every sect, gathers the
/// encounters open to pairs that have not met, draws one by weight,
/// remembers the pair and plays the encounter out. Returns nothing when no
/// encounter is open, otherwise what the encounter told, if anything.
fn interaction_round(rng: &mut StdRng, state: &mut GameState, used: &mut Vec<(String, String)>) -> (r: Option<Option<(String, &'static str)>>)
    requires
        sects_in_standing(*old(state)),
        silver_room(*old(state), 95),
        old(state).npc_sects@.len() <= 1000,
    ensures
        r is None ==> *final(state) == *old(state) && final(used)@ == old(used)@ && exhausted(*old(state), keys_view(old(used)@)),
        r matches Some(o) ==> round_step(*old(state), *final(state), keys_view(old(used)@), keys_view(final(used)@), told_view(o)),
        r matches Some(o) ==> standing_carried(*old(state), *final(state), if o is Some { 95int } else { 0int }),
        r is Some ==> exists|l: int, m: int| #[trigger] fresh_pair(*old(state), keys_view(old(used)@), keys_view(final(used)@), l, m),
{
    let factions = faction_snapshot(state);
    proof {
        assert forall|i: int| 0 <= i < factions@.len() implies faction_bounded(#[trigger] factions@[i]) by {
            lemma_faction_bounded(factions@, *state, i);
        }
    }
    let cands = open_candidates(&factions, used);
    if cands.len() == 0 {
        proof {
            assert(snapshot_of(factions@, *state) && pool(factions@, keys_view(used@)).len() == 0);
        }
        return None;
    }
    let mut weights: Vec<u32> = Vec::new();
    let mut i: usize = 0;
    while i < cands.len()
        invariant
            i <= cands@.len(),
            weights@ == pool_weights(cands@).take(i as int),
        decreases cands@.len() - i,
    {
        weights.push(cands[i].3);
        i = i + 1;
        proof {
            assert(weights@ =~= pool_weights(cands@).take(i as int));
        }
    }
    proof {
        assert(weights@ =~= pool_weights(cands@));
        assert forall|k: int| 0 <= k < weights@.len() implies 6 <= #[trigger] weights@[k] <= 180 by {
            assert(weights@[k] == cands@[k].3);
        }
        lemma_weight_bounds(weights@, weights@.len() as int);
        let n = factions@.len();
        assert(cands@.len() <= 11 * n * n);
        assert(11 * n * n <= 11 * 1001 * 1001) by (nonlinear_arith)
            requires
                n <= 1001,
        ;
    }
    let total = total_weight(&weights);
    let roll = roll_below(rng, total);
    let idx = weighted_position(&weights, roll);
    let (l, r, kind, _w) = cands[idx];
    let ghost start = *state;
    let ghost used_before = used@;
    used.push(ordered_pair(factions[l].id.as_str(), factions[r].id.as_str()));
    proof {
        lemma_encounter_fits(*state, factions@, l as int, r as int, kind);
        lemma_faction_bounded(factions@, *state, l as int);
        lemma_faction_bounded(factions@, *state, r as int);
        assert(keys_view(used@) =~= keys_view(used_before).push(pair_key(factions@[l as int].id@, factions@[r as int].id@)));
    }
    let outcome = apply_interaction(rng, state, &factions[l], &factions[r], kind);
    proof {
        let told = told_view(outcome);
        assert(round_drawn(start, *state, keys_view(used_before), keys_view(used@), factions@, roll as int, idx as int, told));
        assert(faction_of(factions@[l as int], start, l as int));
        assert(faction_of(factions@[r as int], start, r as int));
        let c = cands@[idx as int];
        assert(!keys_view(used_before).contains(pair_key(factions@[c.0 as int].id@, factions@[c.1 as int].id@)));
        assert(fresh_pair(start, keys_view(used_before), keys_view(used@), l as int, r as int));
        if outcome is Some {
            let t = outcome->0;
            lemma_encounter_keeps(start, *state, factions@[l as int], factions@[r as int], kind, t.0@);
        }
    }
    Some(outcome)
}

/// The lines the rounds told, in order.
pub open spec fn told_lines(tolds: Seq<Option<(Seq<char>, Seq<char>)>>) -> Seq<(Seq<char>, Seq<char>)>
    decreases tolds.len(),
{
    if tolds.len() == 0 {
        Seq::empty()
    } else {
        let before = told_lines(tolds.drop_last());
        match tolds.last() {
            Some(t) => before.push(t),
            None => before,
        }
    }
}

/// The rounds of a month: round `i` goes from `states[i]` to
/// `states[i + 1]` with the pairs met before it in `useds[i]`; no pair has
/// met at the start.
pub open spec fn month_rounds(
    states: Seq<GameState>,
    useds: Seq<Seq<(Seq<char>, Seq<char>)>>,
    tolds: Seq<Option<(Seq<char>, Seq<char>)>>,
) -> bool {
    &&& states.len() == tolds.len() + 1
    &&& useds.len() == tolds.len() + 1
    &&& useds[0] == Seq::<(Seq<char>, Seq<char>)>::empty()
    &&& forall|i: int| 0 <= i < tolds.len() ==> #[trigger] round_step(states[i], states[i + 1], useds[i], useds[i + 1], tolds[i])
}

/// The month's encounters took `old` to `last`: rounds were played while
/// fewer than `target` (three to five) lines had been told, and stopped once
/// `target` lines were told or no encounter was left open.
pub open spec fn month_played(
    old: GameState,
    last: GameState,
    target: int,
    states: Seq<GameState>,
    useds: Seq<Seq<(Seq<char>, Seq<char>)>>,
    tolds: Seq<Option<(Seq<char>, Seq<char>)>>,
) -> bool {
    let n = tolds.len() as int;
    &&& 3 <= target <= 5
    &&& month_rounds(states, useds, tolds)
    &&& states[0] == old
    &&& states[n] == last
    &&& forall|i: int| 0 <= i < n ==> (#[trigger] told_lines(tolds.take(i))).len() < target
    &&& told_lines(tolds).len() == target || exhausted(last, useds[n])
}

/// The chronicle lines and tones of events, as texts.
pub open spec fn event_lines(es: Seq<GameEvent>) -> Seq<(Seq<char>, Seq<char>)> {
    es.map_values(|e: GameEvent| (e.text@, e.mood@))
}

/// `fin` with the top-level mirrors of `old`.
pub open spec fn unsynced(old: GameState, fin: GameState) -> GameState {
    GameState { prestige: old.prestige, silver: old.silver, morale: old.morale, ..fin }
}

fn world_event(text: String, mood: &str, year: i32, month: i32) -> (e: GameEvent)
    ensures
        e.text@ == text@,
        e.mood@ == mood@,
        e.year == year,
        e.month == month,
        e.category@ == "world"@,
{
    GameEvent { text, mood: String::from_str(mood), year, month, category: String::from_str("world") }
}

/// Each settled month, three to five pairs of sects meet, no pair twice:
/// round after round, every encounter open to a pair that has not met is
/// weighed, one is drawn by weight and played out, until the drawn number
/// of lines is told or no encounter is left. Returns the lines as world
/// events of the current month, and refreshes the top-level mirrors.
pub fn run_monthly_interactions(rng: &mut StdRng, state: &mut GameState) -> (events: Vec<GameEvent>)
    requires
        month_ready(*old(state)),
    ensures
        events@.len() <= 5,
        forall|i: int| 0 <= i < events@.len() ==> (#[trigger] events@[i]).category@ == "world"@
            && events@[i].year == old(state).year && events@[i].month == old(state).month,
        exists|target: int, states: Seq<GameState>, useds: Seq<Seq<(Seq<char>, Seq<char>)>>, tolds: Seq<Option<(Seq<char>, Seq<char>)>>|
            #[trigger] month_played(*old(state), unsynced(*old(state), *final(state)), target, states, useds, tolds)
            && event_lines(events@) == told_lines(tolds),
        standing_carried(*old(state), unsynced(*old(state), *final(state)), 95 * (events@.len() as int)),
        final(state).prestige == clamp_int(final(state).sect.attributes.prestige as int, 0, 1000),
        final(state).silver == final(state).sect.attributes.silver,
        final(state).morale == clamp_int(final(state).sect.attributes.morale as int, 0, 100),
{
    let target: usize = pick_index(rng, 3) + 3;
    let mut used: Vec<(String, String)> = Vec::new();
    let mut events: Vec<GameEvent> = Vec::new();
    let ghost start = *state;
    let ghost n: int = slot_count(start);
    let ghost mut states: Seq<GameState> = seq![start];
    let ghost mut useds: Seq<Seq<(Seq<char>, Seq<char>)>> = seq![Seq::empty()];
    let ghost mut tolds: Seq<Option<(Seq<char>, Seq<char>)>> = Seq::empty();
    let ghost mut met: Set<int> = Set::empty();
    proof {
        assert(keys_view(used@) =~= Seq::<(Seq<char>, Seq<char>)>::empty());
        vstd::set_lib::lemma_int_range(0, n * n);
    }
    loop
        invariant
            3 <= target <= 5,
            n == slot_count(start),
            n <= 1001,
            month_ready(start),
            month_rounds(states, useds, tolds),
            states[0] == start,
            states.last() == *state,
            useds.last() == keys_view(used@),
            event_lines(events@) == told_lines(tolds),
            events@.len() <= target,
            forall|i: int| 0 <= i < tolds.len() ==> (#[trigger] told_lines(tolds.take(i))).len() < target,
            forall|i: int| 0 <= i < events@.len() ==> (#[trigger] events@[i]).category@ == "world"@
                && events@[i].year == start.year && events@[i].month == start.month,
            standing_carried(start, *state, 95 * (events@.len() as int)),
            (state.prestige, state.silver, state.morale) == (start.prestige, start.silver, start.morale),
            met.subset_of(vstd::set_lib::set_int_range(0, n * n)),
            vstd::set_lib::set_int_range(0, n * n).finite(),
            vstd::set_lib::set_int_range(0, n * n).len() == n * n,
            forall|c: int| #[trigger] met.contains(c) ==> keys_view(used@).contains(
                pair_key(sect_at(start, c / n).id@, sect_at(start, c % n).id@),
            ),
        ensures
            3 <= target <= 5,
            month_rounds(states, useds, tolds),
            states[0] == start,
            states.last() == *state,
            useds.last() == keys_view(used@),
            event_lines(events@) == told_lines(tolds),
            events@.len() <= target,
            forall|i: int| 0 <= i < tolds.len() ==> (#[trigger] told_lines(tolds.take(i))).len() < target,
            forall|i: int| 0 <= i < events@.len() ==> (#[trigger] events@[i]).category@ == "world"@
                && events@[i].year == start.year && events@[i].month == start.month,
            standing_carried(start, *state, 95 * (events@.len() as int)),
            (state.prestige, state.silver, state.morale) == (start.prestige, start.silver, start.morale),
            events@.len() == target || exhausted(*state, keys_view(used@)),
        decreases n * n - met.len(),
    {
        if events.len() >= target {
            break;
        }
        proof {
            vstd::set_lib::lemma_len_subset(met, vstd::set_lib::set_int_range(0, n * n));
            assert forall|j: int| 0 <= j < slot_count(*state) implies (#[trigger] sect_at(*state, j)).attributes.silver <= i32::MAX - 95 by {
                assert(sect_at(start, j).attributes.silver <= i32::MAX - 500);
                assert(95 * events@.len() <= 95 * 4);
            }
        }
        let ghost before = *state;
        let ghost used_before = keys_view(used@);
        let round = interaction_round(rng, state, &mut used);
        match round {
            None => {
                break;
            },
            Some(outcome) => {
                let ghost told = told_view(outcome);
                proof {
                    let (l, m) = choose|l: int, m: int| #[trigger] fresh_pair(before, used_before, keys_view(used@), l, m);
                    let code = l * n + m;
                    assert(0 <= l * n) by (nonlinear_arith)
                        requires
                            0 <= l,
                            0 <= n,
                    ;
                    assert((l + 1) * n <= n * n) by (nonlinear_arith)
                        requires
                            0 <= l < n,
                    ;
                    assert((l + 1) * n == l * n + n) by (nonlinear_arith);
                    assert(0 <= code < n * n);
                    vstd::arithmetic::div_mod::lemma_fundamental_div_mod_converse(code, n, l, m);
                    assert(sect_at(before, l).id == sect_at(start, l).id);
                    assert(sect_at(before, m).id == sect_at(start, m).id);
                    assert(!met.contains(code));
                    let ghost old_met = met;
                    met = met.insert(code);
                    assert(met.len() == old_met.len() + 1);
                    assert(met.subset_of(vstd::set_lib::set_int_range(0, n * n)));
                    vstd::set_lib::lemma_len_subset(met, vstd::set_lib::set_int_range(0, n * n));
                    assert forall|c: int| #[trigger] met.contains(c) implies keys_view(used@).contains(
                        pair_key(sect_at(start, c / n).id@, sect_at(start, c % n).id@),
                    ) by {
                        if c != code {
                            let k = pair_key(sect_at(start, c / n).id@, sect_at(start, c % n).id@);
                            let j = choose|j: int| 0 <= j < used_before.len() && used_before[j] == k;
                            assert(keys_view(used@)[j] == k);
                        } else {
                            assert(keys_view(used@)[used_before.len() as int] == pair_key(sect_at(start, l).id@, sect_at(start, m).id@));
                        }
                    }
                    let old_tolds = tolds;
                    states = states.push(*state);
                    useds = useds.push(keys_view(used@));
                    tolds = tolds.push(told);
                    assert(tolds.drop_last() =~= old_tolds);
                    assert forall|i: int| 0 <= i < tolds.len() implies (#[trigger] told_lines(tolds.take(i))).len() < target by {
                        if i < old_tolds.len() {
                            assert(tolds.take(i) =~= old_tolds.take(i));
                        } else {
                            assert(tolds.take(i) =~= old_tolds);
                        }
                    }
                    assert forall|i: int| 0 <= i < tolds.len() implies #[trigger] round_step(states[i], states[i + 1], useds[i], useds[i + 1], tolds[i]) by {
                        if i == tolds.len() - 1 {
                            assert(states[i] == before);
                        }
                    }
                }
                match outcome {
                    Some(t) => {
                        let (text, mood) = t;
                        let e = world_event(text, mood, state.year, state.month);
                        events.push(e);
                        proof {
                            assert(event_lines(events@) =~= told_lines(tolds));
                        }
                    },
                    None => {},
                }
            },
        }
    }
    proof {
        assert(states[tolds.len() as int] == *state);
        assert(useds[tolds.len() as int] == keys_view(used@));
        assert(month_played(start, *state, target as int, states, useds, tolds));
    }
    let ghost last = *state;
    proof {
        assert(standing_kept(sect_at(*state, 0)));
    }
    crate::sect::sync_legacy_fields(state);
    proof {
        assert(unsynced(start, *state) == last);
        assert(month_played(*old(state), unsynced(*old(state), *state), target as int, states, useds, tolds));
    }
    events
}

} // verus!
