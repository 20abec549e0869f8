//! The recruiting notice: new disciples drawn, ranked and taken into the roster.
use vstd::prelude::*;
use rand::rngs::StdRng;
use crate::chance::chance;
use crate::game::GameState;
use crate::management::{int_text, join_names, rank_label, rank_name, refused, silver_short_text, spend};
use crate::model::{Disciple, DiscipleRank};
use crate::recruit::{generate_disciple, recruited};
use crate::sect::{assign_recruit_ranks, building_effectiveness, place_of, recruit_outer_places, spec_building_effectiveness, trunc_div, SectAttributes, SectState};
use crate::text::{decimal_wide, join_text};

verus! {

/// The refusal for a ruined hall named `name`.
pub open spec fn ruined_text(name: Seq<char>) -> Seq<char> {
    name + "已经损毁，须先修缮方能理事。"@
}

/// The effectiveness of hall `id`, or a refusal naming the hall `name` when
/// it is ruined.
pub fn require_hall(state: &GameState, id: &str, name: &str) -> (r: Result<i32, String>)
    ensures
        spec_building_effectiveness(state.sect, id@) <= 0 ==> refused(r, ruined_text(name@)),
        spec_building_effectiveness(state.sect, id@) > 0 ==> r == Ok::<i32, String>(
            spec_building_effectiveness(state.sect, id@) as i32,
        ),
{
    let e = building_effectiveness(&state.sect, id);
    if e <= 0 {
        let mut t = name.to_owned();
        t.append("已经损毁，须先修缮方能理事。");
        return Err(t);
    }
    Ok(e)
}

/// The recruits `rs` with the ranks the roster `ds` of `sect` leaves them:
/// the best by talent (then name) take the free outer places, the others
/// start as chore disciples.
pub open spec fn ranked_recruits(sect: SectState, ds: Seq<Disciple>, rs: Seq<Disciple>) -> Seq<Disciple> {
    Seq::new(
        rs.len(),
        |i: int|
            Disciple {
                rank: if place_of(rs, i, rs.len() as int) < recruit_outer_places(sect, ds, rs) {
                    DiscipleRank::Outer
                } else {
                    DiscipleRank::Chore
                },
                ..rs[i]
            },
    )
}

/// A recruit's entry on the notice: the name, and the rank in brackets.
pub open spec fn recruit_entry(d: Disciple) -> Seq<char> {
    d.name@ + "（"@ + rank_label(d.rank) + "）"@
}

/// The notice for the ranked recruits `rs`.
pub open spec fn recruit_text(rs: Seq<Disciple>) -> Seq<char> {
    "招贤榜下新收"@ + join_text(rs.map_values(|d: Disciple| recruit_entry(d)), "、"@) + "，共"@ + int_text(rs.len() as int)
        + "人拜入山门。"@
}

/// The recruits' entries joined for a notice.
pub open spec fn recruit_names(rs: Seq<Disciple>) -> Seq<char> {
    join_text(rs.map_values(|d: Disciple| recruit_entry(d)), "、"@)
}

/// Takes recruits into the roster: they are ranked against the roster (see
/// `ranked_recruits`), appended in their order, and counted. Returns their
/// entries joined for the notice.
pub fn enroll_recruits(state: &mut GameState, recruits: Vec<Disciple>) -> (r: String)
    requires
        old(state).disciples@.len() + recruits@.len() <= usize::MAX,
        recruits@.len() <= i32::MAX,
        old(state).total_disciples_recruited + recruits@.len() <= i32::MAX,
    ensures
        ({
            let s = *old(state);
            let rs = ranked_recruits(s.sect, s.disciples@, recruits@);
            &&& r@ == recruit_names(rs)
            &&& final(state).disciples@ == s.disciples@ + rs
            &&& *final(state) == (GameState {
                disciples: final(state).disciples,
                total_disciples_recruited: (s.total_disciples_recruited + recruits@.len()) as i32,
                ..s
            })
        }),
{
    let ghost rs0 = recruits@;
    let mut recruits = recruits;
    assign_recruit_ranks(&state.sect, &state.disciples, &mut recruits);
    let ghost rs = recruits@;
    assert(rs =~= ranked_recruits(state.sect, state.disciples@, rs0));
    let mut entries: Vec<String> = Vec::new();
    let mut i: usize = 0;
    while i < recruits.len()
        invariant
            i <= recruits@.len(),
            recruits@ == rs,
            entries@.len() == i,
            forall|j: int| 0 <= j < i ==> (#[trigger] entries@[j])@ == recruit_entry(rs[j]),
        decreases recruits@.len() - i,
    {
        let mut e = recruits[i].name.clone();
        e.append("（");
        e.append(rank_name(recruits[i].rank));
        e.append("）");
        entries.push(e);
        i = i + 1;
    }
    let names = join_names(&entries);
    assert(entries@.map_values(|s: String| s@) =~= rs.map_values(|d: Disciple| recruit_entry(d)));
    let count = recruits.len();
    state.disciples.append(&mut recruits);
    state.total_disciples_recruited = state.total_disciples_recruited + count as i32;
    names
}

/// Takes recruits into the roster (see `enroll_recruits`) and writes the
/// notice.
pub fn enlist_recruits(state: &mut GameState, recruits: Vec<Disciple>) -> (r: String)
    requires
        old(state).disciples@.len() + recruits@.len() <= usize::MAX,
        recruits@.len() <= i32::MAX,
        old(state).total_disciples_recruited + recruits@.len() <= i32::MAX,
    ensures
        ({
            let s = *old(state);
            let rs = ranked_recruits(s.sect, s.disciples@, recruits@);
            &&& r@ == recruit_text(rs)
            &&& final(state).disciples@ == s.disciples@ + rs
            &&& *final(state) == (GameState {
                disciples: final(state).disciples,
                total_disciples_recruited: (s.total_disciples_recruited + recruits@.len()) as i32,
                ..s
            })
        }),
{
    let count = recruits.len();
    let names = enroll_recruits(state, recruits);
    let mut t = String::from_str("招贤榜下新收");
    t.append(names.as_str());
    t.append("，共");
    let n = decimal_wide(count as u64);
    t.append(n.as_str());
    t.append("人拜入山门。");
    t
}

/// What `recruit` does: `after` and `r` are the state and result it leaves
/// for the state `before`.
pub open spec fn recruit_outcome(before: GameState, after: GameState, r: Result<String, String>) -> bool {
    ({
        let s = before;
        let silver = s.sect.attributes.silver;
        if spec_building_effectiveness(s.sect, "affairs"@) <= 0 {
            refused(r, ruined_text("执事堂"@)) && after == s
        } else if silver < 50 {
            refused(r, silver_short_text(50 - silver)) && after == s
        } else {
            let paid = SectState { attributes: SectAttributes { silver: (silver - 50) as i32, ..s.sect.attributes }, ..s.sect };
            exists|rs: Seq<Disciple>|
                {
                    &&& 1 <= rs.len() <= 2
                    &&& forall|i: int| 0 <= i < rs.len() ==> recruited(#[trigger] rs[i], trunc_div(s.sect.attributes.prestige as int, 20))
                    &&& r matches Ok(t) && t@ == recruit_text(#[trigger] ranked_recruits(paid, s.disciples@, rs))
                    &&& after.disciples@ == s.disciples@ + ranked_recruits(paid, s.disciples@, rs)
                    &&& after == (GameState {
                        disciples: after.disciples,
                        sect: paid,
                        total_disciples_recruited: (s.total_disciples_recruited + rs.len()) as i32,
                        ..s
                    })
                }
        }
    })
}

/// Posts the recruiting notice: refused while the affairs hall is ruined or
/// the 50 silver it costs are short. Otherwise the silver is paid, one
/// recruit answers (two with chance 1 in 4), each generated with a twentieth
/// of the prestige as talent bonus, and they are enlisted (see
/// `enlist_recruits`).
pub fn recruit(rng: &mut StdRng, state: &mut GameState) -> (r: Result<String, String>)
    requires
        old(state).disciples@.len() + 2 <= usize::MAX,
        old(state).total_disciples_recruited + 2 <= i32::MAX,
    ensures
        recruit_outcome(*old(state), *final(state), r),
{
    match require_hall(state, "affairs", "执事堂") {
        Ok(_) => {},
        Err(e) => return Err(e),
    }
    match spend(state, 50) {
        Ok(()) => {},
        Err(e) => return Err(e),
    }
    let count: usize = if chance(rng, 1, 4) { 2 } else { 1 };
    let bonus: i32 = state.sect.attributes.prestige / 20;
    let mut recruits: Vec<Disciple> = Vec::new();
    let mut k: usize = 0;
    while k < count
        invariant
            k <= count,
            count <= 2,
            recruits@.len() == k,
            bonus == trunc_div(state.sect.attributes.prestige as int, 20),
            forall|i: int| 0 <= i < k ==> recruited(#[trigger] recruits@[i], bonus as int),
        decreases count - k,
    {
        let d = generate_disciple(rng, bonus);
        recruits.push(d);
        k = k + 1;
    }
    let ghost rs = recruits@;
    let ghost paid = state.sect;
    let t = enlist_recruits(state, recruits);
    assert(ranked_recruits(paid, old(state).disciples@, rs) == ranked_recruits(paid, old(state).disciples@, rs));
    Ok(t)
}

} // verus!
