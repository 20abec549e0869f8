//! The year-end tournament: a seeded single-elimination bracket in which two
//! sects meet in three bouts, lineup against lineup, until one champion is left.
use vstd::prelude::*;
use rand::rngs::StdRng;
use crate::chance::rand_range;
use crate::sect::{sat32, SectState};
use crate::model::Disciple;
use crate::game::{GameState, TournamentRecord};
use crate::country::clamp_int;
use crate::decision::mirrored;
use crate::disciple::{combat_power, combat_power_fits, get_sect_combat_power};
use crate::disciple::{can_act, spec_can_act};
use crate::text::{text_eq, text_less, text_lt};

verus! {

/// One step of the seeding: each seed `s` of a field of `n` is followed by
/// its opponent `2n + 1 - s` in the field twice as large.
pub open spec fn seed_step(p: Seq<int>) -> Seq<int> {
    Seq::new(2 * p.len(), |i: int| if i % 2 == 0 { p[i / 2] } else { 2 * p.len() + 1 - p[i / 2] })
}

/// The seeding grown from `p` until it holds at least `size` places.
pub open spec fn grown_seeds(p: Seq<int>, size: int, fuel: nat) -> Seq<int>
    decreases fuel,
{
    if p.len() >= size || fuel == 0 {
        p
    } else {
        grown_seeds(seed_step(p), size, (fuel - 1) as nat)
    }
}

/// The seed that stands at each place of a bracket of `size` places: 1 meets
/// the last seed, 2 the second-to-last, and so on, spread so that the best
/// seeds meet as late as possible.
pub open spec fn spec_seeded_positions(size: int) -> Seq<int> {
    if size <= 1 {
        seq![1]
    } else {
        grown_seeds(seq![1, 2], size, size as nat)
    }
}

proof fn lemma_grow_step(p: Seq<int>, size: int, fuel: nat)
    requires
        p.len() < size,
        fuel > 0,
    ensures
        grown_seeds(p, size, fuel) == grown_seeds(seed_step(p), size, (fuel - 1) as nat),
{
}

/// The places of a bracket of `size` places, by seed.
pub fn seeded_positions(size: usize) -> (p: Vec<usize>)
    requires
        size <= 0x1_0000,
    ensures
        p@.map_values(|s: usize| s as int) == spec_seeded_positions(size as int),
        p@.len() <= 2 * size + 1,
        p@.len() >= 1,
        forall|i: int| 0 <= i < p@.len() ==> 1 <= #[trigger] p@[i] <= p@.len(),
{
    if size <= 1 {
        let v: Vec<usize> = vec![1];
        proof {
            assert(v@.map_values(|s: usize| s as int) =~= seq![1int]);
        }
        return v;
    }
    let mut positions: Vec<usize> = vec![1, 2];
    let ghost mut fuel: nat = size as nat;
    let ghost mut steps: nat = 0;
    proof {
        assert(positions@.map_values(|s: usize| s as int) =~= seq![1int, 2]);
    }
    while positions.len() < size
        invariant
            2 <= size <= 0x1_0000,
            positions@.len() >= 2,
            positions@.len() <= 2 * size,
            positions@.len() >= steps + 2,
            fuel == size - steps,
            forall|i: int| 0 <= i < positions@.len() ==> 1 <= #[trigger] positions@[i] <= positions@.len(),
            grown_seeds(positions@.map_values(|s: usize| s as int), size as int, fuel) == spec_seeded_positions(size as int),
        decreases 2 * size - positions@.len(),
    {
        let ghost old_p = positions@.map_values(|s: usize| s as int);
        proof {
            lemma_grow_step(old_p, size as int, fuel);
        }
        let n = positions.len();
        let complement = n * 2 + 1;
        let mut next: Vec<usize> = Vec::new();
        let mut i: usize = 0;
        while i < n
            invariant
                n == positions@.len(),
                n < size <= 0x1_0000,
                complement == 2 * n + 1,
                i <= n,
                next@.len() == 2 * i,
                old_p == positions@.map_values(|s: usize| s as int),
                forall|k: int| 0 <= k < n ==> 1 <= #[trigger] positions@[k] <= n,
                forall|k: int| 0 <= k < 2 * i ==> 1 <= #[trigger] next@[k] <= 2 * n,
                forall|k: int| 0 <= k < 2 * i ==> (#[trigger] next@[k]) as int == seed_step(old_p)[k],
            decreases n - i,
        {
            let s = positions[i];
            next.push(s);
            next.push(complement - s);
            i = i + 1;
        }
        proof {
            assert(next@.map_values(|s: usize| s as int) =~= seed_step(old_p));
            steps = steps + 1;
            fuel = (fuel - 1) as nat;
        }
        positions = next;
    }
    positions
}

/// The name of a round by the size of its field.
pub open spec fn spec_round_name(field_size: int) -> Seq<char> {
    if field_size == 2 {
        "决赛"@
    } else if field_size == 4 {
        "半决赛"@
    } else if field_size == 8 {
        "八强"@
    } else if field_size == 16 {
        "十六强"@
    } else if field_size == 32 {
        "三十二强"@
    } else {
        crate::management::int_text(field_size) + "强"@
    }
}

/// The name of a round whose field holds `field_size` sects.
pub fn round_name(field_size: usize) -> (r: String)
    requires
        field_size <= 0x1_0000,
    ensures
        r@ == spec_round_name(field_size as int),
{
    if field_size == 2 {
        String::from_str("决赛")
    } else if field_size == 4 {
        String::from_str("半决赛")
    } else if field_size == 8 {
        String::from_str("八强")
    } else if field_size == 16 {
        String::from_str("十六强")
    } else if field_size == 32 {
        String::from_str("三十二强")
    } else {
        let mut t = crate::management::int_string(field_size as i64);
        t.append("强");
        t
    }
}

/// A bout's score: the fighter's combat score and a roll of `-12..=12`,
/// at least 1.
pub open spec fn bout_score(score: int, roll: int) -> int {
    let s = sat32(score + roll);
    if s < 1 { 1 } else { s }
}

/// Bout wins and score totals of the two sides after the first `n` of three
/// bouts, lineup `ls` against `rs` (best first), with rolls `lr` and `rr`; an
/// absent fighter scores 0, and a bout against an absent fighter is won by the
/// one present.
pub open spec fn match_tally(ls: Seq<i32>, rs: Seq<i32>, lr: Seq<int>, rr: Seq<int>, n: int) -> (int, int, int, int)
    decreases n,
{
    if n <= 0 {
        (0, 0, 0, 0)
    } else {
        let (lw, rw, lt, rt) = match_tally(ls, rs, lr, rr, n - 1);
        let p = n - 1;
        let lp = p < ls.len();
        let rp = p < rs.len();
        let l = if lp { bout_score(ls[p] as int, lr[p]) } else { 0 };
        let r = if rp { bout_score(rs[p] as int, rr[p]) } else { 0 };
        let left_wins = (lp && !rp) || (lp && rp && l > r);
        let right_wins = (!lp && rp) || (lp && rp && r > l);
        (
            lw + if left_wins { 1int } else { 0 },
            rw + if right_wins { 1int } else { 0 },
            sat32(lt + l),
            sat32(rt + r),
        )
    }
}

/// `out` (bout wins and score totals of both sides) can come of lineup `ls`
/// meeting lineup `rs` over three bouts.
pub open spec fn match_possible(ls: Seq<i32>, rs: Seq<i32>, out: (i32, i32, i32, i32)) -> bool {
    exists|lr: Seq<int>, rr: Seq<int>| #[trigger] rolls_fit(lr, rr) && match_tally(ls, rs, lr, rr, 3) == (
        out.0 as int,
        out.1 as int,
        out.2 as int,
        out.3 as int,
    )
}

/// Three rolls for each side, each in `-12..=12`.
pub open spec fn rolls_fit(lr: Seq<int>, rr: Seq<int>) -> bool {
    &&& lr.len() == 3
    &&& rr.len() == 3
    &&& forall|i: int| 0 <= i < 3 ==> -12 <= #[trigger] lr[i] <= 12
    &&& forall|i: int| 0 <= i < 3 ==> -12 <= #[trigger] rr[i] <= 12
}

fn add_sat(a: i32, b: i32) -> (r: i32)
    ensures
        r == sat32(a + b),
{
    let s: i64 = a as i64 + b as i64;
    if s > i32::MAX as i64 {
        i32::MAX
    } else if s < i32::MIN as i64 {
        i32::MIN
    } else {
        s as i32
    }
}

fn roll_bout(rng: &mut StdRng, score: i32) -> (r: (i32, Ghost<int>))
    ensures
        -12 <= r.1@ <= 12,
        r.0 == bout_score(score as int, r.1@),
{
    let roll = rand_range(rng, -12, 12);
    let s = add_sat(score, roll);
    (if s < 1 { 1 } else { s }, Ghost(roll as int))
}

/// Plays the three bouts of lineup `left` against lineup `right` (best
/// first): each fighter present scores its combat score and a roll of
/// `-12..=12`, at least 1. Returns both sides' bout wins and score totals.
pub fn play_match(rng: &mut StdRng, left: &Vec<i32>, right: &Vec<i32>) -> (r: (i32, i32, i32, i32))
    ensures
        match_possible(left@, right@, r),
{
    let mut lw: i32 = 0;
    let mut rw: i32 = 0;
    let mut lt: i32 = 0;
    let mut rt: i32 = 0;
    let ghost mut lr: Seq<int> = Seq::empty();
    let ghost mut rr: Seq<int> = Seq::empty();
    let mut p: usize = 0;
    while p < 3
        invariant
            p <= 3,
            lr.len() == p,
            rr.len() == p,
            forall|i: int| 0 <= i < p ==> -12 <= #[trigger] lr[i] <= 12,
            forall|i: int| 0 <= i < p ==> -12 <= #[trigger] rr[i] <= 12,
            0 <= lw <= p,
            0 <= rw <= p,
            match_tally(left@, right@, lr, rr, p as int) == (lw as int, rw as int, lt as int, rt as int),
        decreases 3 - p,
    {
        let lp = p < left.len();
        let rp = p < right.len();
        let (l, lg) = if lp { roll_bout(rng, left[p]) } else { (0, Ghost(0int)) };
        let (r, rg) = if rp { roll_bout(rng, right[p]) } else { (0, Ghost(0int)) };
        let ghost plr = lr;
        let ghost prr = rr;
        proof {
            lr = lr.push(lg@);
            rr = rr.push(rg@);
            assert forall|q: int| 0 <= q <= p implies match_tally(left@, right@, lr, rr, q) == match_tally(left@, right@, plr, prr, q) by {
                lemma_tally_prefix(left@, right@, lr, rr, plr, prr, q);
            }
        }
        if (lp && !rp) || (lp && rp && l > r) {
            lw = lw + 1;
        }
        if (!lp && rp) || (lp && rp && r > l) {
            rw = rw + 1;
        }
        lt = add_sat(lt, l);
        rt = add_sat(rt, r);
        p = p + 1;
    }
    proof {
        assert(rolls_fit(lr, rr));
    }
    (lw, rw, lt, rt)
}

proof fn lemma_tally_prefix(ls: Seq<i32>, rs: Seq<i32>, lr: Seq<int>, rr: Seq<int>, lr0: Seq<int>, rr0: Seq<int>, q: int)
    requires
        0 <= q <= lr0.len(),
        lr0.len() == rr0.len(),
        lr.len() >= lr0.len(),
        rr.len() >= rr0.len(),
        forall|i: int| 0 <= i < lr0.len() ==> lr[i] == lr0[i],
        forall|i: int| 0 <= i < rr0.len() ==> rr[i] == rr0[i],
    ensures
        match_tally(ls, rs, lr, rr, q) == match_tally(ls, rs, lr0, rr0, q),
    decreases q,
{
    if q > 0 {
        lemma_tally_prefix(ls, rs, lr, rr, lr0, rr0, q - 1);
    }
}

/// A sect in the bracket: its place in the save (0 for the player's sect, `k`
/// for the `k`-th other sect counted from 1), id, name, seed (1 is the
/// strongest), seeding score and lineup of combat scores, best first.
pub struct Entrant {
    pub slot: usize,
    pub id: String,
    pub name: String,
    pub seed: i32,
    pub seed_score: i32,
    pub lineup: Vec<i32>,
}

/// A sect's record in the bracket: the round it fell in (0 while it stands),
/// its match wins, bout wins and total bout score.
#[derive(Clone, Copy)]
pub struct Standing {
    pub elimination_round: i32,
    pub match_wins: i32,
    pub bout_wins: i32,
    pub total_score: i32,
}

/// The first entrant from `i` on whose seed is `s`.
pub open spec fn seat_from(es: Seq<Entrant>, s: int, i: int) -> Option<usize>
    decreases es.len() - i,
{
    if i < 0 || i >= es.len() {
        None
    } else if es[i].seed == s {
        Some(i as usize)
    } else {
        seat_from(es, s, i + 1)
    }
}

/// The smallest power of two (at least 1) that holds `n` entrants, from `p`
/// on, with the number of halvings `k` it takes to reach a single place.
pub open spec fn shape_from(n: int, p: int, k: int) -> (int, int)
    decreases (if p < n { n - p } else { 0 }),
{
    if p < 1 || p >= n {
        (p, k)
    } else {
        shape_from(n, 2 * p, k + 1)
    }
}

/// The size of the bracket for `n` entrants and its number of rounds.
pub open spec fn bracket_shape(n: int) -> (int, int) {
    shape_from(n, 1, 0)
}

/// The opening field: at each place of the bracket the entrant holding the
/// seed placed there, or nobody (a bye).
pub open spec fn opening_field(es: Seq<Entrant>) -> Seq<Option<usize>> {
    let places = spec_seeded_positions(bracket_shape(es.len() as int).0);
    Seq::new(places.len(), |k: int| seat_from(es, places[k], 0))
}

/// The standings after a meeting of `a` (left) and `b` (right) that ended in
/// `out`, the winner `w` and the loser `l`: both sides' bout wins and totals
/// grow, the winner counts a match won, the loser falls in `round`.
pub open spec fn scored(st: Seq<Standing>, a: usize, b: usize, w: usize, l: usize, round: int, out: (i32, i32, i32, i32)) -> Seq<Standing> {
    let s1 = st.update(a as int, Standing {
        bout_wins: sat32(st[a as int].bout_wins + out.0) as i32,
        total_score: sat32(st[a as int].total_score + out.2) as i32,
        ..st[a as int]
    });
    let s2 = s1.update(b as int, Standing {
        bout_wins: sat32(s1[b as int].bout_wins + out.1) as i32,
        total_score: sat32(s1[b as int].total_score + out.3) as i32,
        ..s1[b as int]
    });
    let s3 = s2.update(w as int, Standing { match_wins: sat32(s2[w as int].match_wins + 1) as i32, ..s2[w as int] });
    s3.update(l as int, Standing { elimination_round: round as i32, ..s3[l as int] })
}

/// Whether the left side advances: more bouts won, else a higher total, else
/// the better (smaller) seed.
pub open spec fn left_advances(out: (i32, i32, i32, i32), lseed: int, rseed: int) -> bool {
    ||| out.0 > out.1
    ||| (out.0 == out.1 && out.2 > out.3)
    ||| (out.0 == out.1 && out.2 == out.3 && lseed < rseed)
}

/// One pairing of the field: a lone side advances on a bye; two sides meet
/// and the one that advances goes on.
pub open spec fn match_step(es: Seq<Entrant>, l: Option<usize>, r: Option<usize>, st: Seq<Standing>, round: int, out: (i32, i32, i32, i32)) -> (Option<usize>, Seq<Standing>) {
    match (l, r) {
        (Some(a), Some(b)) => {
            if left_advances(out, es[a as int].seed as int, es[b as int].seed as int) {
                (Some(a), scored(st, a, b, a, b, round, out))
            } else {
                (Some(b), scored(st, a, b, b, a, round, out))
            }
        },
        (Some(a), None) => (Some(a), st),
        (None, Some(b)) => (Some(b), st),
        (None, None) => (None, st),
    }
}

/// The first `m` pairings of round `round` over the field `cur`, with the
/// match results `outs`: the sides that go on and the standings after.
pub open spec fn round_played(es: Seq<Entrant>, cur: Seq<Option<usize>>, st: Seq<Standing>, round: int, outs: Seq<(i32, i32, i32, i32)>, m: int) -> (Seq<Option<usize>>, Seq<Standing>)
    decreases m,
{
    if m <= 0 {
        (Seq::empty(), st)
    } else {
        let (nx, s) = round_played(es, cur, st, round, outs, m - 1);
        let (w, s2) = match_step(es, cur[2 * (m - 1)], cur[2 * (m - 1) + 1], s, round, outs[m - 1]);
        (nx.push(w), s2)
    }
}

/// The match results `outs` can come of the first `m` pairings of `cur`.
pub open spec fn round_ok(es: Seq<Entrant>, cur: Seq<Option<usize>>, outs: Seq<(i32, i32, i32, i32)>, m: int) -> bool {
    forall|k: int| 0 <= k < m ==> match (#[trigger] cur[2 * k], cur[2 * k + 1]) {
        (Some(a), Some(b)) => match_possible(es[a as int].lineup@, es[b as int].lineup@, outs[k]),
        _ => true,
    }
}

/// The field and standings after the first `k` rounds from `cur0` and `st0`,
/// the results of round `j` being `outss[j - 1]`, and whether those results
/// can come of the meetings.
pub open spec fn after_rounds(es: Seq<Entrant>, cur0: Seq<Option<usize>>, st0: Seq<Standing>, outss: Seq<Seq<(i32, i32, i32, i32)>>, k: int) -> (Seq<Option<usize>>, Seq<Standing>, bool)
    decreases k,
{
    if k <= 0 {
        (cur0, st0, true)
    } else {
        let (c, s, ok) = after_rounds(es, cur0, st0, outss, k - 1);
        let m = c.len() / 2;
        let (nx, s2) = round_played(es, c, s, k, outss[k - 1], m as int);
        (nx, s2, ok && outss[k - 1].len() == m && round_ok(es, c, outss[k - 1], m as int))
    }
}

/// A blank record.
pub open spec fn blank() -> Standing {
    Standing { elimination_round: 0, match_wins: 0, bout_wins: 0, total_score: 0 }
}

/// The stage an entrant reached: the champion above all, the others by the
/// round they fell in.
pub open spec fn stage(st: Seq<Standing>, champ: int, i: int) -> int {
    if i == champ { i32::MAX as int } else { st[i].elimination_round as int }
}

/// Whether entrant `j` places ahead of entrant `i`: a later stage, else more
/// match wins, more bout wins, a higher total, a better seed, an id that
/// sorts first, and last the earlier entry.
pub open spec fn ahead(es: Seq<Entrant>, st: Seq<Standing>, champ: int, j: int, i: int) -> bool {
    let (sj, si) = (stage(st, champ, j), stage(st, champ, i));
    if sj != si {
        sj > si
    } else if st[j].match_wins != st[i].match_wins {
        st[j].match_wins > st[i].match_wins
    } else if st[j].bout_wins != st[i].bout_wins {
        st[j].bout_wins > st[i].bout_wins
    } else if st[j].total_score != st[i].total_score {
        st[j].total_score > st[i].total_score
    } else if es[j].seed != es[i].seed {
        es[j].seed < es[i].seed
    } else if es[j].id@ != es[i].id@ {
        crate::text::text_lt(es[j].id@, es[i].id@)
    } else {
        j < i
    }
}

/// How many of the first `n` entrants place ahead of entrant `i`.
pub open spec fn count_ahead(es: Seq<Entrant>, st: Seq<Standing>, champ: int, i: int, n: int) -> int
    decreases n,
{
    if n <= 0 {
        0
    } else {
        count_ahead(es, st, champ, i, n - 1) + if ahead(es, st, champ, n - 1, i) { 1int } else { 0 }
    }
}

/// What a bracket came to: each entrant's final place, the champion and the
/// records.
pub struct BracketOutcome {
    pub places: Vec<i32>,
    pub champion: usize,
    pub standings: Vec<Standing>,
}

/// The bracket over `es` was played with the round results `outss` and came
/// to `r`: the opening field (see `opening_field`) plays `bracket_shape`'s
/// number of rounds from blank records; the champion is the one left (or the
/// first entrant when nobody is); each entrant's place is one more than the
/// number of entrants ahead of it.
pub open spec fn bracket_played(es: Seq<Entrant>, outss: Seq<Seq<(i32, i32, i32, i32)>>, r: BracketOutcome) -> bool {
    let rounds = bracket_shape(es.len() as int).1;
    let (last, st, ok) = after_rounds(es, opening_field(es), Seq::new(es.len(), |i: int| blank()), outss, rounds);
    let champ: int = if last.len() > 0 && last[0] is Some { last[0]->0 as int } else { 0 };
    &&& ok
    &&& outss.len() == rounds
    &&& r.champion as int == champ
    &&& r.standings@ == st
    &&& r.places@.len() == es.len()
    &&& forall|i: int| 0 <= i < es.len() ==> (#[trigger] r.places@[i]) as int == 1 + count_ahead(es, st, champ, i, es.len() as int)
}

fn seat(es: &Vec<Entrant>, s: i32) -> (r: Option<usize>)
    ensures
        r == seat_from(es@, s as int, 0),
        r matches Some(i) ==> i < es@.len(),
{
    let mut i: usize = 0;
    while i < es.len()
        invariant
            i <= es@.len(),
            seat_from(es@, s as int, 0) == seat_from(es@, s as int, i as int),
        decreases es@.len() - i,
    {
        if es[i].seed == s {
            return Some(i);
        }
        i = i + 1;
    }
    None
}

proof fn lemma_seat_bound(es: Seq<Entrant>, s: int, i: int)
    requires
        0 <= i,
    ensures
        seat_from(es, s, i) matches Some(j) ==> j < es.len(),
    decreases es.len() - i,
{
    if i < es.len() && es[i].seed != s {
        lemma_seat_bound(es, s, i + 1);
    }
}

fn shape_of(n: usize) -> (r: (usize, usize))
    requires
        1 <= n <= 1024,
    ensures
        (r.0 as int, r.1 as int) == bracket_shape(n as int),
        n <= r.0 < 2 * n,
        r.1 < r.0,
{
    let mut p: usize = 1;
    let mut k: usize = 0;
    while p < n
        invariant
            1 <= n <= 1024,
            1 <= p < 2 * n,
            k < p,
            shape_from(n as int, p as int, k as int) == bracket_shape(n as int),
        decreases 2 * n - p,
    {
        p = p * 2;
        k = k + 1;
    }
    (p, k)
}

/// Plays one pairing of round `round` (see `match_step`), updating the
/// records; returns the side that goes on.
fn play_pairing(rng: &mut StdRng, es: &Vec<Entrant>, l: Option<usize>, r: Option<usize>, st: &mut Vec<Standing>, round: i32) -> (res: (Option<usize>, Ghost<(i32, i32, i32, i32)>))
    requires
        l matches Some(a) ==> a < es@.len(),
        r matches Some(b) ==> b < es@.len(),
        old(st)@.len() == es@.len(),
    ensures
        (res.0, final(st)@) == match_step(es@, l, r, old(st)@, round as int, res.1@),
        final(st)@.len() == es@.len(),
        match (l, r) {
            (Some(a), Some(b)) => match_possible(es@[a as int].lineup@, es@[b as int].lineup@, res.1@),
            _ => true,
        },
{
    match (l, r) {
        (Some(a), Some(b)) => {
            let out = play_match(rng, &es[a].lineup, &es[b].lineup);
            let (lw, rw, lt, rt) = out;
            let adv = lw > rw || (lw == rw && lt > rt) || (lw == rw && lt == rt && es[a].seed < es[b].seed);
            let (w, lo) = if adv { (a, b) } else { (b, a) };
            let sa = st[a];
            st.set(a, Standing { bout_wins: add_sat(sa.bout_wins, lw), total_score: add_sat(sa.total_score, lt), ..sa });
            let sb = st[b];
            st.set(b, Standing { bout_wins: add_sat(sb.bout_wins, rw), total_score: add_sat(sb.total_score, rt), ..sb });
            let sw = st[w];
            st.set(w, Standing { match_wins: add_sat(sw.match_wins, 1), ..sw });
            let sl = st[lo];
            st.set(lo, Standing { elimination_round: round, ..sl });
            (Some(w), Ghost(out))
        },
        (Some(a), None) => (Some(a), Ghost((0, 0, 0, 0))),
        (None, Some(b)) => (Some(b), Ghost((0, 0, 0, 0))),
        (None, None) => (None, Ghost((0, 0, 0, 0))),
    }
}

proof fn lemma_round_prefix(es: Seq<Entrant>, cur: Seq<Option<usize>>, st: Seq<Standing>, round: int, outs: Seq<(i32, i32, i32, i32)>, outs2: Seq<(i32, i32, i32, i32)>, m: int)
    requires
        forall|k: int| 0 <= k < m ==> outs2[k] == outs[k],
    ensures
        round_played(es, cur, st, round, outs2, m) == round_played(es, cur, st, round, outs, m),
    decreases m,
{
    if m > 0 {
        lemma_round_prefix(es, cur, st, round, outs, outs2, m - 1);
    }
}

proof fn lemma_after_prefix(es: Seq<Entrant>, cur0: Seq<Option<usize>>, st0: Seq<Standing>, outss: Seq<Seq<(i32, i32, i32, i32)>>, outss2: Seq<Seq<(i32, i32, i32, i32)>>, k: int)
    requires
        forall|j: int| 0 <= j < k ==> outss2[j] == outss[j],
    ensures
        after_rounds(es, cur0, st0, outss2, k) == after_rounds(es, cur0, st0, outss, k),
    decreases k,
{
    if k > 0 {
        lemma_after_prefix(es, cur0, st0, outss, outss2, k - 1);
    }
}

fn is_ahead(es: &Vec<Entrant>, st: &Vec<Standing>, champ: usize, j: usize, i: usize) -> (r: bool)
    requires
        j < es@.len(),
        i < es@.len(),
        st@.len() == es@.len(),
    ensures
        r == ahead(es@, st@, champ as int, j as int, i as int),
{
    let sj: i32 = if j == champ { i32::MAX } else { st[j].elimination_round };
    let si: i32 = if i == champ { i32::MAX } else { st[i].elimination_round };
    if sj != si {
        sj > si
    } else if st[j].match_wins != st[i].match_wins {
        st[j].match_wins > st[i].match_wins
    } else if st[j].bout_wins != st[i].bout_wins {
        st[j].bout_wins > st[i].bout_wins
    } else if st[j].total_score != st[i].total_score {
        st[j].total_score > st[i].total_score
    } else if es[j].seed != es[i].seed {
        es[j].seed < es[i].seed
    } else if !crate::text::text_eq(es[j].id.as_str(), es[i].id.as_str()) {
        crate::text::text_less(es[j].id.as_str(), es[i].id.as_str())
    } else {
        j < i
    }
}

/// Plays the bracket over `es` (see `bracket_played`): the seeded opening
/// field, the rounds, the champion and every entrant's final place.
#[verifier::rlimit(40)]
pub fn simulate_bracket(rng: &mut StdRng, es: &Vec<Entrant>) -> (r: BracketOutcome)
    requires
        1 <= es@.len() <= 1024,
    ensures
        exists|outss: Seq<Seq<(i32, i32, i32, i32)>>| #[trigger] bracket_played(es@, outss, r),
        r.champion < es@.len(),
        r.places@.len() == es@.len(),
{
    let n = es.len();
    let (size, rounds) = shape_of(n);
    let positions = seeded_positions(size);
    let ghost places = spec_seeded_positions(size as int);
    let mut cur: Vec<Option<usize>> = Vec::new();
    let mut k: usize = 0;
    while k < positions.len()
        invariant
            k <= positions@.len(),
            positions@.len() <= 2 * size + 1,
            size < 2048,
            places == positions@.map_values(|s: usize| s as int),
            forall|q: int| 0 <= q < positions@.len() ==> 1 <= #[trigger] positions@[q] <= positions@.len(),
            cur@.len() == k,
            forall|q: int| 0 <= q < k ==> #[trigger] cur@[q] == seat_from(es@, places[q], 0),
            forall|q: int| 0 <= q < k ==> (#[trigger] cur@[q] matches Some(a) ==> a < es@.len()),
        decreases positions@.len() - k,
    {
        let c = seat(es, positions[k] as i32);
        cur.push(c);
        k = k + 1;
    }
    let ghost open = cur@;
    proof {
        assert(open =~= opening_field(es@));
    }
    let mut st: Vec<Standing> = Vec::new();
    let mut q: usize = 0;
    while q < n
        invariant
            q <= n,
            n == es@.len(),
            st@.len() == q,
            forall|t: int| 0 <= t < q ==> #[trigger] st@[t] == blank(),
        decreases n - q,
    {
        st.push(Standing { elimination_round: 0, match_wins: 0, bout_wins: 0, total_score: 0 });
        q = q + 1;
    }
    let ghost zero = st@;
    proof {
        assert(zero =~= Seq::new(es@.len(), |i: int| blank()));
    }
    let ghost mut outss: Seq<Seq<(i32, i32, i32, i32)>> = Seq::empty();
    let mut round: usize = 1;
    while round <= rounds
        invariant
            1 <= round <= rounds + 1,
            rounds < 2048,
            n == es@.len(),
            st@.len() == n,
            outss.len() == round - 1,
            cur@.len() <= 8192,
            forall|t: int| 0 <= t < cur@.len() ==> (#[trigger] cur@[t] matches Some(a) ==> a < n),
            after_rounds(es@, open, zero, outss, round - 1) == (cur@, st@, true),
        decreases rounds + 1 - round,
    {
        let m = cur.len() / 2;
        let ghost st0 = st@;
        let mut next: Vec<Option<usize>> = Vec::new();
        let ghost mut outs: Seq<(i32, i32, i32, i32)> = Seq::empty();
        let mut j: usize = 0;
        while j < m
            invariant
                j <= m,
                m == cur@.len() / 2,
                1 <= round < 2048,
                n == es@.len(),
                st@.len() == n,
                outs.len() == j,
                cur@.len() <= 8192,
                next@.len() == j,
                forall|t: int| 0 <= t < cur@.len() ==> (#[trigger] cur@[t] matches Some(a) ==> a < n),
                forall|t: int| 0 <= t < next@.len() ==> (#[trigger] next@[t] matches Some(a) ==> a < n),
                (next@, st@) == round_played(es@, cur@, st0, round as int, outs, j as int),
                round_ok(es@, cur@, outs, j as int),
            decreases m - j,
        {
            let (w, g) = play_pairing(rng, es, cur[2 * j], cur[2 * j + 1], &mut st, round as i32);
            proof {
                let outs2 = outs.push(g@);
                lemma_round_prefix(es@, cur@, st0, round as int, outs, outs2, j as int);
                assert forall|t: int| 0 <= t < j + 1 implies match (#[trigger] cur@[2 * t], cur@[2 * t + 1]) {
                    (Some(a), Some(b)) => match_possible(es@[a as int].lineup@, es@[b as int].lineup@, outs2[t]),
                    _ => true,
                } by {
                    if t < j {
                        assert(outs2[t] == outs[t]);
                    }
                }
                outs = outs2;
            }
            next.push(w);
            j = j + 1;
        }
        proof {
            let outss2 = outss.push(outs);
            lemma_after_prefix(es@, open, zero, outss, outss2, round - 1);
            outss = outss2;
        }
        cur = next;
        round = round + 1;
    }
    proof {
        assert(cur@.len() > 0 ==> (cur@[0] matches Some(a) ==> a < n));
    }
    let champion: usize = if cur.len() > 0 {
        match cur[0] {
            Some(c) => c,
            None => 0,
        }
    } else {
        0
    };
    let mut placed: Vec<i32> = Vec::new();
    let mut i: usize = 0;
    while i < n
        invariant
            i <= n,
            n == es@.len(),
            n <= 1024,
            st@.len() == n,
            placed@.len() == i,
            forall|t: int| 0 <= t < i ==> (#[trigger] placed@[t]) as int == 1 + count_ahead(es@, st@, champion as int, t, n as int),
        decreases n - i,
    {
        let mut c: i32 = 0;
        let mut j: usize = 0;
        while j < n
            invariant
                j <= n,
                i < n,
                n == es@.len(),
                n <= 1024,
                st@.len() == n,
                0 <= c <= j,
                c == count_ahead(es@, st@, champion as int, i as int, j as int),
            decreases n - j,
        {
            if is_ahead(es, &st, champion, j, i) {
                c = c + 1;
            }
            j = j + 1;
        }
        placed.push(c + 1);
        i = i + 1;
    }
    let r = BracketOutcome { places: placed, champion, standings: st };
    proof {
        assert(bracket_played(es@, outss, r));
    }
    r
}

/// `d` fights for the sect `sect_id` this year: a member who can act.
pub open spec fn fights_for(d: Disciple, sect_id: Seq<char>) -> bool {
    &&& d.sect_id matches Some(x) && x@ == sect_id
    &&& spec_can_act(d)
}

/// Member `j` of `ds` goes before member `i` in a lineup: a higher combat
/// score (`sc`, member by member), else an id that sorts first, else the
/// earlier entry.
pub open spec fn fights_before(ds: Seq<Disciple>, sc: Seq<i32>, j: int, i: int) -> bool {
    ||| sc[j] > sc[i]
    ||| (sc[j] == sc[i] && ds[j].id@ != ds[i].id@ && text_lt(ds[j].id@, ds[i].id@))
    ||| (sc[j] == sc[i] && ds[j].id@ == ds[i].id@ && j < i)
}

/// How many of the first `n` members of `ds` fight for `sect_id` and go
/// before member `i`.
pub open spec fn count_before(ds: Seq<Disciple>, sc: Seq<i32>, sect_id: Seq<char>, i: int, n: int) -> int
    decreases n,
{
    if n <= 0 {
        0
    } else {
        count_before(ds, sc, sect_id, i, n - 1) + if fights_for(ds[n - 1], sect_id) && fights_before(ds, sc, n - 1, i) {
            1int
        } else {
            0
        }
    }
}

/// The first member from `i` on who fights for `sect_id` with exactly `k`
/// fighters before it.
pub open spec fn pick_from(ds: Seq<Disciple>, sc: Seq<i32>, sect_id: Seq<char>, k: int, i: int) -> Option<int>
    decreases ds.len() - i,
{
    if i < 0 || i >= ds.len() {
        None
    } else if fights_for(ds[i], sect_id) && count_before(ds, sc, sect_id, i, ds.len() as int) == k {
        Some(i)
    } else {
        pick_from(ds, sc, sect_id, k, i + 1)
    }
}

/// The score of a pick, as a list of one or none.
pub open spec fn picked_score(sc: Seq<i32>, p: Option<int>) -> Seq<i32> {
    match p {
        Some(i) => seq![sc[i]],
        None => Seq::empty(),
    }
}

/// The lineup of the sect `sect_id` from the roster `ds` with combat scores
/// `sc`: the combat scores of its three best fighters, best first.
pub open spec fn lineup_of(ds: Seq<Disciple>, sc: Seq<i32>, sect_id: Seq<char>) -> Seq<i32> {
    picked_score(sc, pick_from(ds, sc, sect_id, 0, 0)) + picked_score(sc, pick_from(ds, sc, sect_id, 1, 0))
        + picked_score(sc, pick_from(ds, sc, sect_id, 2, 0))
}

fn fights(d: &Disciple, sect_id: &str) -> (r: bool)
    ensures
        r == fights_for(*d, sect_id@),
{
    match &d.sect_id {
        Some(x) => text_eq(x.as_str(), sect_id) && can_act(d),
        None => false,
    }
}

fn goes_before(ds: &Vec<Disciple>, sc: &Vec<i32>, j: usize, i: usize) -> (r: bool)
    requires
        j < ds@.len(),
        i < ds@.len(),
        sc@.len() == ds@.len(),
    ensures
        r == fights_before(ds@, sc@, j as int, i as int),
{
    if sc[j] > sc[i] {
        true
    } else if sc[j] < sc[i] {
        false
    } else if !text_eq(ds[j].id.as_str(), ds[i].id.as_str()) {
        text_less(ds[j].id.as_str(), ds[i].id.as_str())
    } else {
        j < i
    }
}

fn fighters_before(ds: &Vec<Disciple>, sc: &Vec<i32>, sect_id: &str, i: usize) -> (r: usize)
    requires
        i < ds@.len(),
        sc@.len() == ds@.len(),
    ensures
        r as int == count_before(ds@, sc@, sect_id@, i as int, ds@.len() as int),
{
    let mut c: usize = 0;
    let mut j: usize = 0;
    while j < ds.len()
        invariant
            j <= ds@.len(),
            i < ds@.len(),
            sc@.len() == ds@.len(),
            c <= j,
            c as int == count_before(ds@, sc@, sect_id@, i as int, j as int),
        decreases ds@.len() - j,
    {
        if fights(&ds[j], sect_id) && goes_before(ds, sc, j, i) {
            c = c + 1;
        }
        j = j + 1;
    }
    c
}

fn pick(ds: &Vec<Disciple>, sc: &Vec<i32>, sect_id: &str, k: usize) -> (r: Option<usize>)
    requires
        sc@.len() == ds@.len(),
    ensures
        match r {
            Some(i) => pick_from(ds@, sc@, sect_id@, k as int, 0) == Some(i as int) && i < ds@.len(),
            None => pick_from(ds@, sc@, sect_id@, k as int, 0) is None,
        },
{
    let mut i: usize = 0;
    while i < ds.len()
        invariant
            i <= ds@.len(),
            sc@.len() == ds@.len(),
            pick_from(ds@, sc@, sect_id@, k as int, 0) == pick_from(ds@, sc@, sect_id@, k as int, i as int),
        decreases ds@.len() - i,
    {
        if fights(&ds[i], sect_id) && fighters_before(ds, sc, sect_id, i) == k {
            return Some(i);
        }
        i = i + 1;
    }
    None
}

/// The lineup of the sect `sect_id` (see `lineup_of`).
pub fn snapshot_lineup(ds: &Vec<Disciple>, sc: &Vec<i32>, sect_id: &str) -> (r: Vec<i32>)
    requires
        sc@.len() == ds@.len(),
    ensures
        r@ == lineup_of(ds@, sc@, sect_id@),
{
    let mut r: Vec<i32> = Vec::new();
    let mut k: usize = 0;
    let ghost mut acc: Seq<i32> = Seq::empty();
    while k < 3
        invariant
            k <= 3,
            sc@.len() == ds@.len(),
            r@ == (if k == 0 {
                Seq::<i32>::empty()
            } else if k == 1 {
                picked_score(sc@, pick_from(ds@, sc@, sect_id@, 0, 0))
            } else if k == 2 {
                picked_score(sc@, pick_from(ds@, sc@, sect_id@, 0, 0)) + picked_score(sc@, pick_from(ds@, sc@, sect_id@, 1, 0))
            } else {
                lineup_of(ds@, sc@, sect_id@)
            }),
        decreases 3 - k,
    {
        let ghost before = r@;
        match pick(ds, sc, sect_id, k) {
            Some(i) => {
                r.push(sc[i]);
            },
            None => {},
        }
        proof {
            assert(r@ =~= before + picked_score(sc@, pick_from(ds@, sc@, sect_id@, k as int, 0)));
        }
        k = k + 1;
    }
    r
}

/// The sum of the first `n` scores of a lineup, each addition held within
/// `i32`.
pub open spec fn lineup_total(l: Seq<i32>, n: int) -> int
    decreases n,
{
    if n <= 0 { 0 } else { sat32(lineup_total(l, n - 1) + l[n - 1]) }
}

/// The hash of `bytes` folded into `h`, byte by byte.
pub open spec fn mix_bytes(h: u64, bytes: Seq<u8>, n: int) -> u64
    decreases n,
{
    if n <= 0 {
        h
    } else {
        (mix_bytes(h, bytes, n - 1) ^ (bytes[n - 1] as u64)).wrapping_mul(0x0000_0100_0000_01b3u64)
    }
}

/// A fixed nudge of `-12..=12` to a sect's seeding score, drawn from the
/// world's seed, the year and the sect's id by a hash of them.
pub open spec fn seed_noise(world_seed: u64, year: i32, id: Seq<u8>) -> int {
    let y = year as u64;
    let h0 = 0xcbf2_9ce4_8422_2325u64 ^ world_seed ^ ((y << 17u64) | (y >> 47u64));
    let h1 = mix_bytes(h0, id, id.len() as int);
    let h2 = h1 ^ (h1 >> 30u64);
    let h3 = h2.wrapping_mul(0xbf58_476d_1ce4_e5b9u64);
    let h4 = h3 ^ (h3 >> 27u64);
    let h5 = h4.wrapping_mul(0x94d0_49bb_1331_11ebu64);
    let h6 = h5 ^ (h5 >> 31u64);
    (h6 % 25) as int - 12
}

fn noise(world_seed: u64, year: i32, id: &str) -> (r: i32)
    ensures
        r == seed_noise(world_seed, year, vstd::utf8::encode_utf8(id@)),
        -12 <= r <= 12,
{
    let bytes = id.as_bytes();
    let y = year as u64;
    let mut h: u64 = 0xcbf2_9ce4_8422_2325u64 ^ world_seed ^ ((y << 17u64) | (y >> 47u64));
    let ghost h0 = h;
    let mut i: usize = 0;
    while i < bytes.len()
        invariant
            i <= bytes@.len(),
            h == mix_bytes(h0, bytes@, i as int),
        decreases bytes@.len() - i,
    {
        h = (h ^ (bytes[i] as u64)).wrapping_mul(0x0000_0100_0000_01b3u64);
        i = i + 1;
    }
    h = h ^ (h >> 30u64);
    h = h.wrapping_mul(0xbf58_476d_1ce4_e5b9u64);
    h = h ^ (h >> 27u64);
    h = h.wrapping_mul(0x94d0_49bb_1331_11ebu64);
    h = h ^ (h >> 31u64);
    (h % 25) as i32 - 12
}

/// The seeding score of a sect with prestige `prestige`, lineup `lineup` and
/// nudge `nudge`: twice its lineup's total, half its prestige up to 300, and
/// the nudge, each step held within `i32`.
pub open spec fn seeding_score(lineup: Seq<i32>, prestige: int, nudge: int) -> int {
    let p = if prestige < 0 { 0 } else if prestige > 300 { 300 } else { prestige };
    sat32(sat32(sat32(lineup_total(lineup, lineup.len() as int) * 2) + p / 2) + nudge)
}

/// Entrant `f` is seeded ahead of entrant `e`: a higher seeding score, else
/// an id that sorts first, else the earlier entry.
pub open spec fn seeded_before(es: Seq<Entrant>, f: int, e: int) -> bool {
    ||| es[f].seed_score > es[e].seed_score
    ||| (es[f].seed_score == es[e].seed_score && es[f].id@ != es[e].id@ && text_lt(es[f].id@, es[e].id@))
    ||| (es[f].seed_score == es[e].seed_score && es[f].id@ == es[e].id@ && f < e)
}

/// How many of the first `n` entrants are seeded ahead of entrant `e`.
pub open spec fn count_seeded_before(es: Seq<Entrant>, e: int, n: int) -> int
    decreases n,
{
    if n <= 0 {
        0
    } else {
        count_seeded_before(es, e, n - 1) + if seeded_before(es, n - 1, e) { 1int } else { 0 }
    }
}

/// The entrant of `sect` in slot `slot`, before seeds are given: its lineup
/// from `ds` with scores `sc`, and its seeding score for the world seed
/// `world_seed` and year `year`.
pub open spec fn entered(e: Entrant, slot: int, sect: SectState, ds: Seq<Disciple>, sc: Seq<i32>, world_seed: u64, year: i32) -> bool {
    &&& e.slot == slot
    &&& e.id@ == sect.id@
    &&& e.name@ == sect.name@
    &&& e.lineup@ == lineup_of(ds, sc, sect.id@)
    &&& e.seed_score == seeding_score(e.lineup@, sect.attributes.prestige as int, seed_noise(world_seed, year, vstd::utf8::encode_utf8(sect.id@)))
}

/// The sect in slot `k`: the player's sect first, then the other sects.
pub open spec fn slot_sect(s: GameState, k: int) -> SectState {
    if k == 0 { s.sect } else { s.npc_sects@[k - 1] }
}

/// The roster the sect in slot `k` draws its lineup from.
pub open spec fn slot_roster(s: GameState, k: int) -> Seq<Disciple> {
    if k == 0 { s.disciples@ } else { s.npc_disciples@ }
}

/// The combat scores of the roster of slot `k`.
pub open spec fn slot_scores(sc: Seq<i32>, nsc: Seq<i32>, k: int) -> Seq<i32> {
    if k == 0 { sc } else { nsc }
}

/// `es` are the tournament's entrants for the save `s`, the player's
/// disciples scoring `sc` and the other sects' `nsc`: one per sect, in slot
/// order, each with its lineup and seeding score, and seed 1 for the best
/// seeding score (ties by id, then slot), 2 for the next, and so on.
pub open spec fn entrants_made(s: GameState, sc: Seq<i32>, nsc: Seq<i32>, es: Seq<Entrant>) -> bool {
    &&& es.len() == s.npc_sects@.len() + 1
    &&& forall|k: int| 0 <= k < es.len() ==> entered(#[trigger] es[k], k, slot_sect(s, k), slot_roster(s, k), slot_scores(sc, nsc, k), s.world_seed, s.year)
    &&& forall|k: int| 0 <= k < es.len() ==> (#[trigger] es[k]).seed == 1 + count_seeded_before(es, k, es.len() as int)
}

fn total_of(l: &Vec<i32>) -> (r: i32)
    ensures
        r == lineup_total(l@, l@.len() as int),
{
    let mut t: i32 = 0;
    let mut i: usize = 0;
    while i < l.len()
        invariant
            i <= l@.len(),
            t == lineup_total(l@, i as int),
        decreases l@.len() - i,
    {
        t = add_sat(t, l[i]);
        i = i + 1;
    }
    t
}

fn seeding_of(lineup: &Vec<i32>, prestige: i32, nudge: i32) -> (r: i32)
    requires
        -12 <= nudge <= 12,
    ensures
        r == seeding_score(lineup@, prestige as int, nudge as int),
{
    let t = total_of(lineup);
    let doubled: i64 = t as i64 * 2;
    let d: i32 = if doubled > i32::MAX as i64 { i32::MAX } else if doubled < i32::MIN as i64 { i32::MIN } else { doubled as i32 };
    let p: i32 = if prestige < 0 { 0 } else if prestige > 300 { 300 } else { prestige };
    add_sat(add_sat(d, p / 2), nudge)
}

fn slot_lineup(state: &GameState, scores: &Vec<i32>, npc_scores: &Vec<i32>, k: usize) -> (r: Vec<i32>)
    requires
        k <= state.npc_sects@.len(),
        scores@.len() == state.disciples@.len(),
        npc_scores@.len() == state.npc_disciples@.len(),
    ensures
        r@ == lineup_of(slot_roster(*state, k as int), slot_scores(scores@, npc_scores@, k as int), slot_sect(*state, k as int).id@),
{
    if k == 0 {
        snapshot_lineup(&state.disciples, scores, state.sect.id.as_str())
    } else {
        snapshot_lineup(&state.npc_disciples, npc_scores, state.npc_sects[k - 1].id.as_str())
    }
}

fn slot_of(state: &GameState, k: usize) -> (r: &SectState)
    requires
        k <= state.npc_sects@.len(),
    ensures
        *r == slot_sect(*state, k as int),
{
    if k == 0 { &state.sect } else { &state.npc_sects[k - 1] }
}

/// The tournament's entrants for `state` (see `entrants_made`).
#[verifier::rlimit(40)]
pub fn seeded_entrants(state: &GameState, scores: &Vec<i32>, npc_scores: &Vec<i32>) -> (es: Vec<Entrant>)
    requires
        scores@.len() == state.disciples@.len(),
        npc_scores@.len() == state.npc_disciples@.len(),
        state.npc_sects@.len() < 1024,
    ensures
        entrants_made(*state, scores@, npc_scores@, es@),
{
    let n = state.npc_sects.len() + 1;
    let mut ss: Vec<i32> = Vec::new();
    let mut k: usize = 0;
    while k < n
        invariant
            n == state.npc_sects@.len() + 1,
            n <= 1024,
            k <= n,
            scores@.len() == state.disciples@.len(),
            npc_scores@.len() == state.npc_disciples@.len(),
            ss@.len() == k,
            forall|q: int| 0 <= q < k ==> #[trigger] ss@[q] == seeding_score(
                lineup_of(slot_roster(*state, q), slot_scores(scores@, npc_scores@, q), slot_sect(*state, q).id@),
                slot_sect(*state, q).attributes.prestige as int,
                seed_noise(state.world_seed, state.year, vstd::utf8::encode_utf8(slot_sect(*state, q).id@)),
            ),
        decreases n - k,
    {
        let sect = slot_of(state, k);
        let l = slot_lineup(state, scores, npc_scores, k);
        let nudge = noise(state.world_seed, state.year, sect.id.as_str());
        ss.push(seeding_of(&l, sect.attributes.prestige, nudge));
        k = k + 1;
    }
    let mut es: Vec<Entrant> = Vec::new();
    let mut e: usize = 0;
    while e < n
        invariant
            n == state.npc_sects@.len() + 1,
            n <= 1024,
            e <= n,
            ss@.len() == n,
            scores@.len() == state.disciples@.len(),
            npc_scores@.len() == state.npc_disciples@.len(),
            forall|q: int| 0 <= q < n ==> #[trigger] ss@[q] == seeding_score(
                lineup_of(slot_roster(*state, q), slot_scores(scores@, npc_scores@, q), slot_sect(*state, q).id@),
                slot_sect(*state, q).attributes.prestige as int,
                seed_noise(state.world_seed, state.year, vstd::utf8::encode_utf8(slot_sect(*state, q).id@)),
            ),
            es@.len() == e,
            forall|q: int| 0 <= q < e ==> entered(#[trigger] es@[q], q, slot_sect(*state, q), slot_roster(*state, q), slot_scores(scores@, npc_scores@, q), state.world_seed, state.year),
            forall|q: int| 0 <= q < e ==> (#[trigger] es@[q]).seed == 1 + count_ahead_seeded(ss@, *state, q, n as int),
        decreases n - e,
    {
        let mut c: i32 = 0;
        let mut f: usize = 0;
        while f < n
            invariant
                n == state.npc_sects@.len() + 1,
                n <= 1024,
                e < n,
                f <= n,
                ss@.len() == n,
                0 <= c <= f,
                c == count_ahead_seeded(ss@, *state, e as int, f as int),
            decreases n - f,
        {
            let fid = slot_of(state, f).id.as_str();
            let eid = slot_of(state, e).id.as_str();
            let before = ss[f] > ss[e] || (ss[f] == ss[e] && (if !text_eq(fid, eid) { text_less(fid, eid) } else { f < e }));
            if before {
                c = c + 1;
            }
            f = f + 1;
        }
        let sect = slot_of(state, e);
        let lineup = slot_lineup(state, scores, npc_scores, e);
        es.push(Entrant { slot: e, id: sect.id.clone(), name: sect.name.clone(), seed: c + 1, seed_score: ss[e], lineup });
        e = e + 1;
    }
    proof {
        assert forall|q: int| 0 <= q < n implies (#[trigger] es@[q]).seed == 1 + count_seeded_before(es@, q, n as int) by {
            lemma_seed_counts(es@, ss@, *state, q, n as int);
        }
    }
    es
}

/// `ahead` in seeding, over the seeding scores `ss` and the slots' ids.
pub open spec fn seeded_ahead(ss: Seq<i32>, s: GameState, f: int, e: int) -> bool {
    let (fid, eid) = (slot_sect(s, f).id@, slot_sect(s, e).id@);
    ||| ss[f] > ss[e]
    ||| (ss[f] == ss[e] && fid != eid && text_lt(fid, eid))
    ||| (ss[f] == ss[e] && fid == eid && f < e)
}

/// How many of the first `n` slots are seeded ahead of slot `e`.
pub open spec fn count_ahead_seeded(ss: Seq<i32>, s: GameState, e: int, n: int) -> int
    decreases n,
{
    if n <= 0 {
        0
    } else {
        count_ahead_seeded(ss, s, e, n - 1) + if seeded_ahead(ss, s, n - 1, e) { 1int } else { 0 }
    }
}

proof fn lemma_seed_counts(es: Seq<Entrant>, ss: Seq<i32>, s: GameState, e: int, n: int)
    requires
        0 <= n <= es.len(),
        0 <= e < es.len(),
        es.len() == ss.len(),
        es.len() == s.npc_sects@.len() + 1,
        forall|q: int| 0 <= q < es.len() ==> (#[trigger] es[q]).seed_score == ss[q] && es[q].id@ == slot_sect(s, q).id@,
    ensures
        count_seeded_before(es, e, n) == count_ahead_seeded(ss, s, e, n),
    decreases n,
{
    if n > 0 {
        lemma_seed_counts(es, ss, s, e, n - 1);
        assert(es[n - 1].seed_score == ss[n - 1]);
        assert(es[e].seed_score == ss[e]);
    }
}

/// What the player's sect takes from a tournament.
pub struct TournamentResult {
    pub year: i32,
    pub rank: i32,
    pub total_sects: i32,
    pub power: i32,
    pub desc_text: String,
    pub reward_silver: i32,
    pub reward_prestige: i32,
    pub champion: String,
}

/// Silver and prestige for place `rank` of `total`: the champion 300 and 15,
/// the podium 200 and 10, the upper half 100 and 5, the rest 30 and none.
pub open spec fn rewards(rank: int, total: int) -> (int, int) {
    if rank == 1 {
        (300, 15)
    } else if rank <= 3 {
        (200, 10)
    } else if rank <= crate::country::trunc_div(total, 2) {
        (100, 5)
    } else {
        (30, 0)
    }
}

/// The account of place `rank` of `total` with champion `champion`.
pub open spec fn tournament_text(rank: int, total: int, champion: Seq<char>) -> Seq<char> {
    let base = if rank == 1 {
        "本派弟子技压群雄，夺得魁首！一时间名动江湖，四方来贺！"@
    } else if rank <= 3 {
        "本派位列三甲，战绩斐然。门下弟子扬眉吐气，掌门面上有光。"@
    } else if rank <= crate::country::trunc_div(total, 2) {
        "本派位列中游，虽未夺魁，亦属不易。弟子们还需勤加修炼。"@
    } else {
        "本派成绩不佳，位列末流。掌门面上无光，但来日方长，卧薪尝胆便是。"@
    };
    if rank != 1 { base + " 本届魁首为"@ + champion + "。"@ } else { base }
}

/// `v` raised to at least `lo`, then held to at most `hi`.
pub open spec fn floor_then_cap(v: int, lo: int, hi: int) -> int {
    let a = if v < lo { lo } else { v };
    if a > hi { hi } else { a }
}

/// Without other sects the place is reckoned: of `8 + year / 2` sects, the
/// share left after power and prestige (up to 100) each claim their two
/// hundredths, at least 1, moved by `d` and kept within the field.
pub open spec fn reckoned_place(year: int, prestige: int, power: int, d: int) -> (int, int) {
    let total = 8 + crate::country::trunc_div(year, 2);
    let p = if prestige > 100 { 100 } else { prestige };
    let x = total * (200 - power - p);
    let base = if x < 200 { 1 } else { x / 200 };
    (floor_then_cap(base + d, 1, total), total)
}

/// The other sect `sect` after finishing in place `place`: the first three
/// gain 12, 8 or 5 prestige (up to 1000) and 3 morale (up to 100).
pub open spec fn placed_sect(sect: SectState, place: int) -> SectState {
    if place > 3 {
        sect
    } else {
        let gain = if place == 1 { 12int } else if place == 2 { 8 } else { 5 };
        let a = sect.attributes;
        let pr = if a.prestige + gain > 1000 { 1000 } else { a.prestige + gain };
        let mo = if a.morale + 3 > 100 { 100 } else { a.morale + 3 };
        SectState { attributes: crate::sect::SectAttributes { prestige: pr as i32, morale: mo as i32, ..a }, ..sect }
    }
}

/// The other sects after the bracket with places `places` (slot 0 the
/// player's).
pub open spec fn npcs_placed(npcs: Seq<SectState>, places: Seq<i32>) -> Seq<SectState> {
    Seq::new(npcs.len(), |j: int| placed_sect(npcs[j], places[j + 1] as int))
}

/// The tournament closed for the player's sect in place `rank` of `total`,
/// with champion `champion`, power `power`, the other sects now `npcs` and a
/// morale lift of `lift` (`3..=8`): the sect takes its rewards (see
/// `rewards`; the lower half also loses 5 morale first), the morale lift is
/// added within `0..=100`, the record is kept, the mirrors are refreshed, and
/// `r` tells it all.
pub open spec fn tournament_closed(
    before: GameState,
    after: GameState,
    rank: int,
    total: int,
    champion: Seq<char>,
    power: int,
    npcs: Seq<SectState>,
    lift: int,
    r: TournamentResult,
) -> bool {
    let (rs, rp) = rewards(rank, total);
    let a = before.sect.attributes;
    let m1 = if rank == 1 || rank <= 3 || rank <= crate::country::trunc_div(total, 2) { a.morale as int } else { clamp_int(a.morale - 5, 0, 100) };
    let h = after.tournament_history@;
    &&& 3 <= lift <= 8
    &&& r.year == before.year
    &&& r.rank == rank
    &&& r.total_sects == total
    &&& r.power == power
    &&& r.desc_text@ == tournament_text(rank, total, champion)
    &&& r.reward_silver == rs
    &&& r.reward_prestige == rp
    &&& r.champion@ == champion
    &&& h.len() == before.tournament_history@.len() + 1
    &&& h.drop_last() == before.tournament_history@
    &&& h.last().year == before.year && h.last().rank == rank && h.last().total_sects == total
    &&& h.last().power == power && h.last().champion@ == champion
    &&& after == mirrored(GameState {
        sect: SectState {
            attributes: crate::sect::SectAttributes {
                silver: (a.silver + rs) as i32,
                prestige: clamp_int(a.prestige + rp, 0, 1000) as i32,
                morale: clamp_int(m1 + lift, 0, 100) as i32,
                ..a
            },
            ..before.sect
        },
        npc_sects: after.npc_sects,
        tournament_history: after.tournament_history,
        ..before
    })
    &&& after.npc_sects@ == npcs
}

/// The tournament without other sects: the place reckoned with the move
/// `d` (see `reckoned_place`), the champion the player's sect on first place
/// and "江湖群雄" otherwise, then closed with morale lift `lift`.
pub open spec fn reckoned_close(before: GameState, after: GameState, power: int, d: int, lift: int, r: TournamentResult) -> bool {
    let (rank, total) = reckoned_place(before.year as int, before.sect.attributes.prestige as int, power, d);
    &&& -2 <= d <= 2
    &&& tournament_closed(before, after, rank, total, if rank == 1 { before.sect.name@ } else { "江湖群雄"@ }, power, before.npc_sects@, lift, r)
}

/// The tournament with other sects: the entrants `es` played the bracket
/// to `b` with the results `outss`; the player's sect takes its entrant's
/// place in the field of every sect, the champion is the bracket's, the
/// other sects are placed, and the tournament closes with morale lift `lift`.
pub open spec fn bracket_close(
    before: GameState,
    sc: Seq<i32>,
    nsc: Seq<i32>,
    after: GameState,
    es: Seq<Entrant>,
    outss: Seq<Seq<(i32, i32, i32, i32)>>,
    b: BracketOutcome,
    lift: int,
    r: TournamentResult,
) -> bool {
    &&& entrants_made(before, sc, nsc, es)
    &&& bracket_played(es, outss, b)
    &&& tournament_closed(
        before,
        after,
        b.places@[0] as int,
        (before.npc_sects@.len() + 1) as int,
        es[b.champion as int].name@,
        combat_power(before.disciples@, sc),
        npcs_placed(before.npc_sects@, b.places@),
        lift,
        r,
    )
}

/// What the year-end tournament did to `before`, the disciples scoring `sc`
/// and the other sects' disciples `nsc`: without other sects the place is
/// reckoned (see `reckoned_place`), the champion being the player's sect on
/// first place and "江湖群雄" otherwise; with them the entrants (see
/// `entrants_made`) play the bracket (see `bracket_played`), the player's
/// sect takes the place of its entrant, the field counts every sect, the
/// champion is the bracket's, and the first three other sects are rewarded
/// (see `npcs_placed`). Either way the tournament then closes (see
/// `tournament_closed`) with the sect's combat power.
pub open spec fn tournament_held(before: GameState, sc: Seq<i32>, nsc: Seq<i32>, after: GameState, r: TournamentResult) -> bool {
    let power = combat_power(before.disciples@, sc);
    if before.npc_sects@.len() == 0 {
        exists|d: int, lift: int| #[trigger] reckoned_close(before, after, power, d, lift, r)
    } else {
        exists|es: Seq<Entrant>, outss: Seq<Seq<(i32, i32, i32, i32)>>, b: BracketOutcome, lift: int|
            #[trigger] bracket_close(before, sc, nsc, after, es, outss, b, lift, r)
    }
}

fn place_npc(state: &mut GameState, j: usize, place: i32)
    requires
        j < old(state).npc_sects@.len(),
    ensures
        *final(state) == (GameState { npc_sects: final(state).npc_sects, ..*old(state) }),
        final(state).npc_sects@ == old(state).npc_sects@.update(j as int, placed_sect(old(state).npc_sects@[j as int], place as int)),
{
    if place <= 3 {
        let gain: i64 = if place == 1 { 12 } else if place == 2 { 8 } else { 5 };
        let p: i64 = state.npc_sects[j].attributes.prestige as i64 + gain;
        state.npc_sects[j].attributes.prestige = if p > 1000 { 1000 } else { p as i32 };
        let m: i64 = state.npc_sects[j].attributes.morale as i64 + 3;
        state.npc_sects[j].attributes.morale = if m > 100 { 100 } else { m as i32 };
    }
    proof {
        assert(state.npc_sects@ =~= old(state).npc_sects@.update(j as int, placed_sect(old(state).npc_sects@[j as int], place as int)));
    }
}

fn text_for(rank: i32, total: i32, champion: &String) -> (t: String)
    ensures
        t@ == tournament_text(rank as int, total as int, champion@),
{
    let mut t = String::from_str(if rank == 1 {
        "本派弟子技压群雄，夺得魁首！一时间名动江湖，四方来贺！"
    } else if rank <= 3 {
        "本派位列三甲，战绩斐然。门下弟子扬眉吐气，掌门面上有光。"
    } else if rank <= total / 2 {
        "本派位列中游，虽未夺魁，亦属不易。弟子们还需勤加修炼。"
    } else {
        "本派成绩不佳，位列末流。掌门面上无光，但来日方长，卧薪尝胆便是。"
    });
    if rank != 1 {
        t.append(" 本届魁首为");
        t.append(champion.as_str());
        t.append("。");
    }
    t
}

fn close_tournament(rng: &mut StdRng, state: &mut GameState, rank: i32, total: i32, champion: String, power: i32) -> (r: (TournamentResult, Ghost<int>))
    requires
        old(state).sect.attributes.silver <= i32::MAX - 300,
    ensures
        tournament_closed(*old(state), *final(state), rank as int, total as int, champion@, power as int, old(state).npc_sects@, r.1@, r.0),
{
    let ghost start = *state;
    let (rs, rp): (i32, i32) = if rank == 1 { (300, 15) } else if rank <= 3 { (200, 10) } else if rank <= total / 2 { (100, 5) } else { (30, 0) };
    if !(rank == 1 || rank <= 3 || rank <= total / 2) {
        let m: i64 = state.sect.attributes.morale as i64 - 5;
        state.sect.attributes.morale = if m < 0 { 0 } else if m > 100 { 100 } else { m as i32 };
    }
    let desc_text = text_for(rank, total, &champion);
    state.sect.attributes.silver = state.sect.attributes.silver + rs;
    let p: i64 = state.sect.attributes.prestige as i64 + rp as i64;
    state.sect.attributes.prestige = if p < 0 { 0 } else if p > 1000 { 1000 } else { p as i32 };
    let lift = rand_range(rng, 3, 8);
    let m: i64 = state.sect.attributes.morale as i64 + lift as i64;
    state.sect.attributes.morale = if m < 0 { 0 } else if m > 100 { 100 } else { m as i32 };
    let record = TournamentRecord { year: state.year, rank, total_sects: total, power, champion: champion.clone() };
    state.tournament_history.push(record);
    crate::sect::sync_legacy_fields(state);
    let r = TournamentResult {
        year: state.year,
        rank,
        total_sects: total,
        power,
        desc_text,
        reward_silver: rs,
        reward_prestige: rp,
        champion,
    };
    proof {
        assert(state.tournament_history@.drop_last() =~= start.tournament_history@);
    }
    (r, Ghost(lift as int))
}

/// Holds the year-end tournament (see `tournament_held`): `scores` are the
/// combat scores of the player's disciples and `npc_scores` those of the
/// other sects' disciples, member by member.
#[verifier::rlimit(40)]
pub fn run_tournament(rng: &mut StdRng, state: &mut GameState, scores: &Vec<i32>, npc_scores: &Vec<i32>) -> (r: TournamentResult)
    requires
        scores@.len() == old(state).disciples@.len(),
        npc_scores@.len() == old(state).npc_disciples@.len(),
        old(state).npc_sects@.len() < 1024,
        combat_power_fits(old(state).disciples@, scores@),
        old(state).sect.attributes.silver <= i32::MAX - 300,
    ensures
        tournament_held(*old(state), scores@, npc_scores@, *final(state), r),
{
    let ghost start = *state;
    let power = get_sect_combat_power(state.disciples.as_slice(), scores.as_slice());
    if state.npc_sects.len() == 0 {
        let total: i64 = 8 + (state.year / 2) as i64;
        let pr: i32 = state.sect.attributes.prestige;
        let p: i64 = if pr > 100 { 100 } else { pr as i64 };
        let share: i128 = 200 - power as i128 - p as i128;
        proof {
            assert(-0x2_0000_0000 <= share <= 0x2_0000_0000);
            assert(-0x8000_0000 <= total <= 0x8000_0000);
            assert(-0x1_0000_0000_0000_0000 <= total * share <= 0x1_0000_0000_0000_0000) by (nonlinear_arith)
                requires
                    -0x2_0000_0000 <= share <= 0x2_0000_0000,
                    -0x8000_0000 <= total <= 0x8000_0000;
        }
        let x: i128 = total as i128 * share;
        let base: i128 = if x < 200 { 1 } else { x / 200 };
        let d = rand_range(rng, -2, 2);
        let v: i128 = base + d as i128;
        let a: i128 = if v < 1 { 1 } else { v };
        let rank: i128 = if a > total as i128 { total as i128 } else { a };
        let champion = if rank == 1 { state.sect.name.clone() } else { String::from_str("江湖群雄") };
        let (r, lift) = close_tournament(rng, state, rank as i32, total as i32, champion, power);
        proof {
            let (rk, tt) = reckoned_place(start.year as int, start.sect.attributes.prestige as int, power as int, d as int);
            assert(rk == rank && tt == total);
            assert(tournament_closed(start, *state, rk, tt, if rk == 1 { start.sect.name@ } else { "江湖群雄"@ }, power as int, start.npc_sects@, lift@, r));
            assert(reckoned_close(start, *state, power as int, d as int, lift@, r));
        }
        r
    } else {
        let es = seeded_entrants(state, scores, npc_scores);
        let b = simulate_bracket(rng, &es);
        let rank = b.places[0];
        let total = (state.npc_sects.len() + 1) as i32;
        let champion = es[b.champion].name.clone();
        let ghost npcs0 = state.npc_sects@;
        let mut j: usize = 0;
        while j < state.npc_sects.len()
            invariant
                j <= state.npc_sects@.len(),
                npcs0 == start.npc_sects@,
                b.places@.len() == npcs0.len() + 1,
                *state == (GameState { npc_sects: state.npc_sects, ..start }),
                state.npc_sects@.len() == npcs0.len(),
                forall|q: int| 0 <= q < j ==> #[trigger] state.npc_sects@[q] == placed_sect(npcs0[q], b.places@[q + 1] as int),
                forall|q: int| j <= q < npcs0.len() ==> #[trigger] state.npc_sects@[q] == npcs0[q],
            decreases npcs0.len() - j,
        {
            place_npc(state, j, b.places[j + 1]);
            j = j + 1;
        }
        proof {
            assert(state.npc_sects@ =~= npcs_placed(start.npc_sects@, b.places@));
        }
        let ghost mid = *state;
        let (r, lift) = close_tournament(rng, state, rank, total, champion, power);
        proof {
            let outss = choose|outss: Seq<Seq<(i32, i32, i32, i32)>>| bracket_played(es@, outss, b);
            assert(bracket_played(es@, outss, b));
            assert(tournament_closed(start, *state, rank as int, total as int, es@[b.champion as int].name@, power as int, npcs_placed(start.npc_sects@, b.places@), lift@, r));
            assert(bracket_close(start, scores@, npc_scores@, *state, es@, outss, b, lift@, r));
        }
        r
    }
}

/// The combat score of one disciple, as the martial-arts catalog rates it.
pub struct CombatScore {
    pub disciple_id: String,
    pub score: i32,
}

/// The score listed for the disciple `id` from entry `i` on: the first entry
/// with that id, or 0 when none is listed.
pub open spec fn score_from(list: Seq<CombatScore>, id: Seq<char>, i: int) -> i32
    decreases list.len() - i,
{
    if i < 0 || i >= list.len() {
        0
    } else if list[i].disciple_id@ == id {
        list[i].score
    } else {
        score_from(list, id, i + 1)
    }
}

/// The scores listed for the roster `ds`, member by member.
pub open spec fn aligned_scores(ds: Seq<Disciple>, list: Seq<CombatScore>) -> Seq<i32> {
    Seq::new(ds.len(), |i: int| score_from(list, ds[i].id@, 0))
}

/// Every listed score lies within a hundred thousand either way.
pub open spec fn scores_modest(list: Seq<CombatScore>) -> bool {
    forall|i: int| 0 <= i < list.len() ==> -100_000 <= (#[trigger] list[i]).score <= 100_000
}

proof fn lemma_score_from_modest(list: Seq<CombatScore>, id: Seq<char>, i: int)
    requires
        scores_modest(list),
        0 <= i,
    ensures
        -100_000 <= score_from(list, id, i) <= 100_000,
    decreases list.len() - i,
{
    if i < list.len() && list[i].disciple_id@ != id {
        lemma_score_from_modest(list, id, i + 1);
    }
}

fn score_lookup(list: &Vec<CombatScore>, id: &str) -> (r: i32)
    ensures
        r == score_from(list@, id@, 0),
{
    let mut i: usize = 0;
    while i < list.len()
        invariant
            i <= list@.len(),
            score_from(list@, id@, 0) == score_from(list@, id@, i as int),
        decreases list@.len() - i,
    {
        if text_eq(list[i].disciple_id.as_str(), id) {
            return list[i].score;
        }
        i = i + 1;
    }
    0
}

/// The scores listed for the roster `ds` (see `aligned_scores`).
pub fn align_scores(ds: &Vec<Disciple>, list: &Vec<CombatScore>) -> (r: Vec<i32>)
    ensures
        r@ == aligned_scores(ds@, list@),
{
    let mut r: Vec<i32> = Vec::new();
    let mut i: usize = 0;
    while i < ds.len()
        invariant
            i <= ds@.len(),
            r@.len() == i,
            forall|q: int| 0 <= q < i ==> #[trigger] r@[q] == score_from(list@, ds@[q].id@, 0),
        decreases ds@.len() - i,
    {
        r.push(score_lookup(list, ds[i].id.as_str()));
        i = i + 1;
    }
    proof {
        assert(r@ =~= aligned_scores(ds@, list@));
    }
    r
}

proof fn lemma_score_sum_bounds(ds: Seq<Disciple>, sc: Seq<i32>, n: int)
    requires
        0 <= n <= sc.len(),
        forall|i: int| 0 <= i < sc.len() ==> -100_000 <= #[trigger] sc[i] <= 100_000,
    ensures
        -100_000 * n <= crate::disciple::living_score_sum(ds, sc, n) <= 100_000 * n,
    decreases n,
{
    if n > 0 {
        lemma_score_sum_bounds(ds, sc, n - 1);
    }
}

/// Modest scores for a roster of at most ten thousand leave the sect's
/// combat power within `i32`.
pub proof fn lemma_modest_scores_fit(ds: Seq<Disciple>, list: Seq<CombatScore>)
    requires
        ds.len() <= 10_000,
        scores_modest(list),
    ensures
        combat_power_fits(ds, aligned_scores(ds, list)),
{
    let sc = aligned_scores(ds, list);
    assert forall|i: int| 0 <= i < sc.len() implies -100_000 <= #[trigger] sc[i] <= 100_000 by {
        lemma_score_from_modest(list, ds[i].id@, 0);
    }
    assert forall|n: int| 0 <= n <= ds.len() implies i32::MIN <= #[trigger] crate::disciple::living_score_sum(ds, sc, n) <= i32::MAX by {
        lemma_score_sum_bounds(ds, sc, n);
    }
    crate::disciple::lemma_living_count_bounds(ds, ds.len() as int);
    let c = crate::disciple::living_count(ds, ds.len() as int);
    let t = crate::disciple::living_score_sum(ds, sc, ds.len() as int);
    lemma_score_sum_bounds(ds, sc, ds.len() as int);
    if c > 0 {
        assert(-1_000_000_000 <= crate::country::trunc_div(t, c) <= 1_000_000_000) by (nonlinear_arith)
            requires
                c >= 1,
                -1_000_000_000 <= t <= 1_000_000_000,
                crate::country::trunc_div(t, c) == (if t >= 0 { t / c } else { -((-t) / c) }),
        {
        }
    }
}

/// The tournament leaves the calendar and the game's end as they were, and
/// adds exactly its own record to the history.
pub proof fn lemma_held_keeps_calendar(before: GameState, sc: Seq<i32>, nsc: Seq<i32>, after: GameState, r: TournamentResult)
    requires
        tournament_held(before, sc, nsc, after, r),
    ensures
        after.year == before.year,
        after.month == before.month,
        after.game_over == before.game_over,
        after.game_won == before.game_won,
        after.game_over_reason == before.game_over_reason,
        after.tournament_history@.len() == before.tournament_history@.len() + 1,
        after.tournament_history@.drop_last() == before.tournament_history@,
        after.tournament_history@.last().rank == r.rank,
        after.tournament_history@.last().year == before.year,
{
    if before.npc_sects@.len() == 0 {
        let (d, lift) = choose|d: int, lift: int| #[trigger] reckoned_close(before, after, combat_power(before.disciples@, sc), d, lift, r);
        assert(reckoned_close(before, after, combat_power(before.disciples@, sc), d, lift, r));
    } else {
        let (es, outss, b, lift) = choose|es: Seq<Entrant>, outss: Seq<Seq<(i32, i32, i32, i32)>>, b: BracketOutcome, lift: int|
            #[trigger] bracket_close(before, sc, nsc, after, es, outss, b, lift, r);
        assert(bracket_close(before, sc, nsc, after, es, outss, b, lift, r));
    }
}

/// Placing ahead is transitive.
pub proof fn lemma_ahead_transitive(es: Seq<Entrant>, st: Seq<Standing>, champ: int, a: int, b: int, c: int)
    requires
        ahead(es, st, champ, a, b),
        ahead(es, st, champ, b, c),
    ensures
        ahead(es, st, champ, a, c),
{
    let (x, y, z) = (es[a].id@, es[b].id@, es[c].id@);
    if text_lt(x, y) && text_lt(y, z) {
        crate::text::lemma_text_lt_transitive(x, y, z);
    }
    crate::text::lemma_text_lt_irreflexive(x);
    crate::text::lemma_text_lt_irreflexive(y);
    if text_lt(x, y) && text_lt(y, x) {
        crate::text::lemma_text_lt_transitive(x, y, x);
    }
    if text_lt(y, z) && text_lt(z, y) {
        crate::text::lemma_text_lt_transitive(y, z, y);
    }
    if text_lt(x, y) && text_lt(z, x) {
        crate::text::lemma_text_lt_transitive(z, x, y);
        crate::text::lemma_text_lt_irreflexive(z);
        if text_lt(y, z) {
            crate::text::lemma_text_lt_transitive(z, y, z);
        }
    }
    if text_lt(y, z) && text_lt(z, x) {
        crate::text::lemma_text_lt_transitive(y, z, x);
    }
}

/// Of two different entrants one places ahead of the other.
pub proof fn lemma_ahead_total(es: Seq<Entrant>, st: Seq<Standing>, champ: int, i: int, k: int)
    requires
        i != k,
    ensures
        ahead(es, st, champ, i, k) || ahead(es, st, champ, k, i),
{
    if es[i].id@ != es[k].id@ {
        crate::text::lemma_text_lt_total(es[i].id@, es[k].id@);
    }
}

proof fn lemma_count_at_most(es: Seq<Entrant>, st: Seq<Standing>, champ: int, i: int, n: int)
    requires
        0 <= n,
    ensures
        0 <= count_ahead(es, st, champ, i, n) <= n,
        0 <= i < n ==> count_ahead(es, st, champ, i, n) <= n - 1,
    decreases n,
{
    if n > 0 {
        lemma_count_at_most(es, st, champ, i, n - 1);
    }
}

proof fn lemma_count_grows(es: Seq<Entrant>, st: Seq<Standing>, champ: int, k: int, i: int, n: int)
    requires
        0 <= n,
        ahead(es, st, champ, k, i),
    ensures
        count_ahead(es, st, champ, k, n) + (if 0 <= k < n { 1int } else { 0 }) <= count_ahead(es, st, champ, i, n),
    decreases n,
{
    if n > 0 {
        lemma_count_grows(es, st, champ, k, i, n - 1);
        let j = n - 1;
        if ahead(es, st, champ, j, k) {
            lemma_ahead_transitive(es, st, champ, j, k, i);
        }
    }
}

/// In a played bracket every entrant has its own place, from 1 to the
/// number of entrants.
pub proof fn lemma_places_distinct(es: Seq<Entrant>, outss: Seq<Seq<(i32, i32, i32, i32)>>, b: BracketOutcome, i: int, k: int)
    requires
        bracket_played(es, outss, b),
        0 <= i < es.len(),
        0 <= k < es.len(),
    ensures
        1 <= b.places@[i] <= es.len(),
        i != k ==> b.places@[i] != b.places@[k],
{
    let rounds = bracket_shape(es.len() as int).1;
    let (last, st, ok) = after_rounds(es, opening_field(es), Seq::new(es.len(), |q: int| blank()), outss, rounds);
    let champ: int = if last.len() > 0 && last[0] is Some { last[0]->0 as int } else { 0 };
    let n = es.len() as int;
    lemma_count_at_most(es, st, champ, i, n);
    lemma_count_at_most(es, st, champ, k, n);
    if i != k {
        lemma_ahead_total(es, st, champ, i, k);
        if ahead(es, st, champ, k, i) {
            lemma_count_grows(es, st, champ, k, i, n);
        } else {
            lemma_count_grows(es, st, champ, i, k, n);
        }
    }
}

proof fn lemma_seeded_transitive(es: Seq<Entrant>, a: int, b: int, c: int)
    requires
        seeded_before(es, a, b),
        seeded_before(es, b, c),
    ensures
        seeded_before(es, a, c),
{
    let (x, y, z) = (es[a].id@, es[b].id@, es[c].id@);
    crate::text::lemma_text_lt_irreflexive(x);
    crate::text::lemma_text_lt_irreflexive(y);
    crate::text::lemma_text_lt_irreflexive(z);
    if text_lt(x, y) && text_lt(y, z) {
        crate::text::lemma_text_lt_transitive(x, y, z);
    }
    if text_lt(x, y) && text_lt(y, x) {
        crate::text::lemma_text_lt_transitive(x, y, x);
    }
    if text_lt(y, z) && text_lt(z, y) {
        crate::text::lemma_text_lt_transitive(y, z, y);
    }
    if text_lt(x, y) && text_lt(z, x) {
        crate::text::lemma_text_lt_transitive(z, x, y);
        if text_lt(y, z) {
            crate::text::lemma_text_lt_transitive(z, y, z);
        }
    }
    if text_lt(y, z) && text_lt(z, x) {
        crate::text::lemma_text_lt_transitive(y, z, x);
    }
}

proof fn lemma_seed_count_at_most(es: Seq<Entrant>, e: int, n: int)
    requires
        0 <= n,
    ensures
        0 <= count_seeded_before(es, e, n) <= n,
        0 <= e < n ==> count_seeded_before(es, e, n) <= n - 1,
    decreases n,
{
    if n > 0 {
        lemma_seed_count_at_most(es, e, n - 1);
    }
}

proof fn lemma_seed_count_grows(es: Seq<Entrant>, k: int, i: int, n: int)
    requires
        0 <= n,
        seeded_before(es, k, i),
    ensures
        count_seeded_before(es, k, n) + (if 0 <= k < n { 1int } else { 0 }) <= count_seeded_before(es, i, n),
    decreases n,
{
    if n > 0 {
        lemma_seed_count_grows(es, k, i, n - 1);
        if seeded_before(es, n - 1, k) {
            lemma_seeded_transitive(es, n - 1, k, i);
        }
    }
}

/// Every entrant has its own seed, from 1 to the number of entrants.
pub proof fn lemma_seeds_distinct(s: GameState, sc: Seq<i32>, nsc: Seq<i32>, es: Seq<Entrant>, i: int, k: int)
    requires
        entrants_made(s, sc, nsc, es),
        0 <= i < es.len(),
        0 <= k < es.len(),
    ensures
        1 <= es[i].seed <= es.len(),
        i != k ==> es[i].seed != es[k].seed,
{
    let n = es.len() as int;
    assert(es[i].seed == 1 + count_seeded_before(es, i, n));
    assert(es[k].seed == 1 + count_seeded_before(es, k, n));
    lemma_seed_count_at_most(es, i, n);
    lemma_seed_count_at_most(es, k, n);
    if i != k {
        if es[i].id@ != es[k].id@ {
            crate::text::lemma_text_lt_total(es[i].id@, es[k].id@);
        }
        if seeded_before(es, k, i) {
            lemma_seed_count_grows(es, k, i, n);
        } else {
            lemma_seed_count_grows(es, i, k, n);
        }
    }
}

/// A seeding of a field of `p.len()` places: seed 1 first, every seed from 1
/// to the field's size exactly once, and each pair of neighbouring places
/// (first and second, third and fourth, ...) summing to the size plus one.
pub open spec fn fair_seeding(p: Seq<int>) -> bool {
    &&& p.len() >= 2
    &&& p[0] == 1
    &&& forall|i: int| 0 <= i < p.len() ==> 1 <= #[trigger] p[i] <= p.len()
    &&& forall|i: int, j: int| 0 <= i < j < p.len() ==> #[trigger] p[i] != #[trigger] p[j]
    &&& forall|i: int| 0 <= i < p.len() / 2 ==> #[trigger] p[2 * i] + p[2 * i + 1] == p.len() + 1
}

proof fn lemma_step_fair(p: Seq<int>)
    requires
        fair_seeding(p),
    ensures
        fair_seeding(seed_step(p)),
        seed_step(p).len() == 2 * p.len(),
{
    let q = seed_step(p);
    let n = p.len() as int;
    assert forall|i: int| 0 <= i < q.len() implies 1 <= #[trigger] q[i] <= q.len() by {
        assert(0 <= i / 2 < n);
    }
    assert forall|i: int, j: int| 0 <= i < j < q.len() implies #[trigger] q[i] != #[trigger] q[j] by {
        assert(0 <= i / 2 < n && 0 <= j / 2 < n);
        if i % 2 == j % 2 {
            assert(i / 2 != j / 2);
            assert(p[i / 2] != p[j / 2] || i / 2 == j / 2) by {
                if i / 2 < j / 2 {
                    assert(p[i / 2] != p[j / 2]);
                } else if j / 2 < i / 2 {
                    assert(p[j / 2] != p[i / 2]);
                }
            }
        }
    }
    assert forall|i: int| 0 <= i < q.len() / 2 implies #[trigger] q[2 * i] + q[2 * i + 1] == q.len() + 1 by {
        assert((2 * i) / 2 == i && (2 * i + 1) / 2 == i);
        assert((2 * i) % 2 == 0 && (2 * i + 1) % 2 == 1);
    }
    assert(q[0] == p[0]);
}

proof fn lemma_pow2_above(k: nat)
    ensures
        k < vstd::arithmetic::power2::pow2(k),
    decreases k,
{
    vstd::arithmetic::power2::lemma_pow2_pos(k);
    if k > 0 {
        lemma_pow2_above((k - 1) as nat);
        vstd::arithmetic::power2::lemma_pow2_unfold(k);
    }
}

proof fn lemma_grown_fair(p: Seq<int>, j: nat, k: nat, fuel: nat)
    requires
        1 <= j <= k,
        p.len() == vstd::arithmetic::power2::pow2(j),
        fuel >= k - j,
        fair_seeding(p),
    ensures
        grown_seeds(p, vstd::arithmetic::power2::pow2(k) as int, fuel).len() == vstd::arithmetic::power2::pow2(k),
        fair_seeding(grown_seeds(p, vstd::arithmetic::power2::pow2(k) as int, fuel)),
    decreases k - j,
{
    let size = vstd::arithmetic::power2::pow2(k) as int;
    if j < k {
        vstd::arithmetic::power2::lemma_pow2_strictly_increases(j, k);
        vstd::arithmetic::power2::lemma_pow2_unfold(j + 1);
        lemma_step_fair(p);
        lemma_grown_fair(seed_step(p), j + 1, k, (fuel - 1) as nat);
    }
}

/// For a field of a power of two (at least 2) places, the seeding is fair
/// (see `fair_seeding`): the field holds every seed once, seed 1 first, and
/// seed `s` meets seed `size + 1 - s` in the first round.
pub proof fn lemma_seeding_is_fair(k: nat)
    requires
        k >= 1,
    ensures
        spec_seeded_positions(vstd::arithmetic::power2::pow2(k) as int).len() == vstd::arithmetic::power2::pow2(k),
        fair_seeding(spec_seeded_positions(vstd::arithmetic::power2::pow2(k) as int)),
{
    let size = vstd::arithmetic::power2::pow2(k);
    lemma_pow2_above(k);
    vstd::arithmetic::power2::lemma2_to64();
    let start = seq![1int, 2];
    assert(fair_seeding(start));
    lemma_grown_fair(start, 1, k, size);
}

} // verus!
