//! Errands of an envoy to another sect through the intelligence pavilion: a
//! courtesy visit, and the hosting of an ally's elders.
use vstd::prelude::*;
use rand::rngs::StdRng;
use crate::alliance::{find_sect, is_ally, no_ally_text, raise_ties, regard_raised, sect_index, spec_is_ally, spec_sect_name, ties_fit, ties_raised};
use crate::chance::rand_range;
use crate::disciple::{can_act, spec_can_act};
use crate::elder_duties::{add_research, comprehended, first_combat_book, first_combat_index, research_base};
use crate::game::GameState;
use crate::lineage::{disciple_index, find_disciple};
use crate::management::{int_string, int_text, refused, silver_short_text, spend};
use crate::model::{ActionKind, ActionPlan, Disciple, DiscipleRank};
use crate::recruitment::{require_hall, ruined_text};
use crate::sect::{spec_building_effectiveness, CreatedArt, SectAttributes, SectState};
use crate::arts::{art_combat, art_is_combat};
use crate::ledger::Ledger;
use crate::model::SkillProgress;
use crate::text::{lemma_text_lt_transitive, text_less, text_lt};
use crate::sect::{list_contains, text_listed};

verus! {

/// Why the envoy `id` cannot go: none chosen, none on the roster with that
/// id, or one who is no inner disciple able to act.
pub open spec fn envoy_refusal(s: GameState, id: Option<String>) -> Option<Seq<char>> {
    match id {
        None => Some("须择一名内门弟子前往。"@),
        Some(x) => {
            let i = disciple_index(s.disciples@, x@);
            if i < 0 {
                Some("查无这名使者。"@)
            } else if s.disciples@[i].rank != DiscipleRank::Inner || !spec_can_act(s.disciples@[i]) {
                Some("使者须为眼下可行动的内门弟子。"@)
            } else {
                None
            }
        },
    }
}

/// The envoy's place on the roster (meaningful when no refusal).
pub open spec fn envoy_index(s: GameState, id: Option<String>) -> int {
    match id {
        Some(x) => disciple_index(s.disciples@, x@),
        None => -1,
    }
}

fn check_envoy(state: &GameState, id: &Option<String>) -> (r: Result<usize, String>)
    ensures
        match envoy_refusal(*state, *id) {
            Some(t) => refused(r, t),
            None => r matches Ok(i) && i == envoy_index(*state, *id) && i < state.disciples@.len(),
        },
{
    let x = match id {
        None => return Err(String::from_str("须择一名内门弟子前往。")),
        Some(x) => x,
    };
    let i = match find_disciple(&state.disciples, x.as_str()) {
        None => return Err(String::from_str("查无这名使者。")),
        Some(i) => i,
    };
    if state.disciples[i].rank != DiscipleRank::Inner || !can_act(&state.disciples[i]) {
        return Err(String::from_str("使者须为眼下可行动的内门弟子。"));
    }
    Ok(i)
}

/// `after` is `before` with the envoy at `i` gone on a sect errand of two
/// months.
pub open spec fn envoy_sent(before: GameState, after: GameState, i: int) -> bool {
    &&& after == (GameState { disciples: after.disciples, ..before })
    &&& after.disciples@ == before.disciples@.update(
        i,
        Disciple {
            away_months: 2,
            action: Some(ActionPlan { kind: ActionKind::SectMission, remaining_months: 2, rations_claimed: false }),
            ..before.disciples@[i]
        },
    )
}

fn send_envoy(state: &mut GameState, i: usize)
    requires
        i < old(state).disciples@.len(),
    ensures
        envoy_sent(*old(state), *final(state), i as int),
{
    state.disciples[i].away_months = 2;
    state.disciples[i].action = Some(ActionPlan { kind: ActionKind::SectMission, remaining_months: 2, rations_claimed: false });
    proof {
        assert(state.disciples@ =~= old(state).disciples@.update(
            i as int,
            Disciple {
                away_months: 2,
                action: Some(ActionPlan { kind: ActionKind::SectMission, remaining_months: 2, rations_claimed: false }),
                ..old(state).disciples@[i as int]
            },
        ));
    }
}

/// The refusal common to both errands, before anything is paid: the envoy's,
/// then a ruined pavilion.
pub open spec fn errand_refusal(s: GameState, envoy: Option<String>) -> Option<Seq<char>> {
    if envoy_refusal(s, envoy) is Some {
        envoy_refusal(s, envoy)
    } else if spec_building_effectiveness(s.sect, "intelligence"@) <= 0 {
        Some(ruined_text("天枢阁"@))
    } else {
        None
    }
}

fn check_errand(state: &GameState, envoy: &Option<String>) -> (r: Result<usize, String>)
    ensures
        match errand_refusal(*state, *envoy) {
            Some(t) => refused(r, t),
            None => r matches Ok(i) && i == envoy_index(*state, *envoy) && i < state.disciples@.len(),
        },
{
    let i = match check_envoy(state, envoy) {
        Err(e) => return Err(e),
        Ok(i) => i,
    };
    match require_hall(state, "intelligence", "天枢阁") {
        Err(e) => return Err(e),
        Ok(_) => {},
    }
    Ok(i)
}

/// The visit paid for (`silver` taels) raised the sect's own regard for `id`
/// by `gain` and left everything else as it was, and `id` names no sect: the
/// visit ends there, refused.
pub open spec fn stranded(before: GameState, id: Seq<char>, silver: int, gain: int, after: GameState, r: Result<String, String>) -> bool {
    let paid = SectAttributes { silver: (before.sect.attributes.silver - silver) as i32, ..before.sect.attributes };
    &&& regard_raised(before.sect, after.sect, id, gain, paid)
    &&& after == (GameState { sect: after.sect, ..before })
    &&& refused(r, "江湖中查无此派。"@)
}

/// The courtesy visit to `id` with the envoy `envoy`, the regard gained being
/// `gain`: refused, changing nothing, as `errand_refusal` says or when the
/// treasury is short of 45 taels; otherwise 45 taels are paid and the sect's
/// regard for `id` rises by `gain` (`10..=18`); when `id` names no sect the
/// visit ends there, refused; else the other sect's regard rises as much,
/// prestige by 2 (to at most 1000), the envoy sets out (`mid` is the state
/// before), and the news names the host and the gain.
pub open spec fn visit_paid(before: GameState, id: Seq<char>, envoy: Option<String>, gain: int, mid: GameState, after: GameState, r: Result<String, String>) -> bool {
    let silver = before.sect.attributes.silver;
    let p = before.sect.attributes.prestige + 2;
    if errand_refusal(before, envoy) is Some {
        after == before && refused(r, errand_refusal(before, envoy)->0)
    } else if silver < 45 {
        after == before && refused(r, silver_short_text(45 - silver))
    } else if sect_index(before.npc_sects@, id) < 0 {
        10 <= gain <= 18 && stranded(before, id, 45, gain, after, r)
    } else {
        &&& 10 <= gain <= 18
        &&& ties_raised(
            before,
            mid,
            id,
            gain,
            SectAttributes { silver: (silver - 45) as i32, prestige: (if p > 1000 { 1000 } else { p }) as i32, ..before.sect.attributes },
        )
        &&& mid == (GameState { sect: mid.sect, npc_sects: mid.npc_sects, ..before })
        &&& envoy_sent(mid, after, envoy_index(before, envoy))
        &&& r matches Ok(t) && t@ == "本派携礼拜会"@ + spec_sect_name(before, id) + "，宾主论武，交情添了"@ + int_text(gain) + "分。"@
    }
}

/// The envoy `envoy` pays a courtesy visit to the sect `id` (see
/// `visit_paid`).
pub fn exchange(rng: &mut StdRng, state: &mut GameState, id: &str, envoy: &Option<String>) -> (r: Result<String, String>)
    requires
        ties_fit(*old(state), id@, 18),
    ensures
        exists|gain: int, mid: GameState| #[trigger] visit_paid(*old(state), id@, *envoy, gain, mid, *final(state), r),
{
    let ghost start = *state;
    let ei = match check_errand(state, envoy) {
        Err(e) => {
            let r = Err(e);
            proof {
                assert(visit_paid(start, id@, *envoy, 0, start, *state, r));
            }
            return r;
        },
        Ok(i) => i,
    };
    match spend(state, 45) {
        Err(e) => {
            let r = Err(e);
            proof {
                assert(visit_paid(start, id@, *envoy, 0, start, *state, r));
            }
            return r;
        },
        Ok(()) => {},
    }
    let gain = rand_range(rng, 10, 18);
    let si = match find_sect(state, id) {
        None => {
            state.sect.relations.add(id, gain);
            let r = Err(String::from_str("江湖中查无此派。"));
            proof {
                assert(state.sect.relations.as_map() =~= start.sect.relations.as_map().insert(
                    id@,
                    (start.sect.relations.amount(id@) + gain) as i32,
                ));
                assert(visit_paid(start, id@, *envoy, gain as int, start, *state, r));
            }
            return r;
        },
        Some(si) => si,
    };
    let name = state.npc_sects[si].name.clone();
    let p: i64 = state.sect.attributes.prestige as i64 + 2;
    state.sect.attributes.prestige = if p > 1000 { 1000 } else { p as i32 };
    raise_ties(state, id, si, gain);
    let ghost mid = *state;
    send_envoy(state, ei);
    let mut t = String::from_str("本派携礼拜会");
    t.append(name.as_str());
    t.append("，宾主论武，交情添了");
    t.append(int_string(gain as i64).as_str());
    t.append("分。");
    let r = Ok(t);
    proof {
        assert(visit_paid(start, id@, *envoy, gain as int, mid, *state, r));
    }
    r
}

/// The research of the first public combat book can rise by 12.
pub open spec fn hosting_fits(s: GameState) -> bool {
    match first_combat_book(s.sect.public_books@, s.sect.created_martial_arts@, 0) {
        Some(b) => research_base(s.sect.martial_research.as_map(), b) + 12 <= i64::MAX,
        None => true,
    }
}

/// The hosting of the elders of the ally `id`, with the envoy `envoy`, the
/// regard gained being `gain` and the research gained `lore`: refused,
/// changing nothing, as `errand_refusal` says, when `id` is no ally, or when
/// the treasury is short of 40 taels; otherwise 40 taels are paid and the
/// sect's regard for `id` rises by `gain` (`3..=5`); when `id` names no sect
/// the hosting ends there, refused; else the other sect's regard rises as
/// much (`tied` is the state then), the first public combat book gains `lore`
/// (`5..=12`) research (from 50 when it had none; `mid` is the state then),
/// the envoy sets out, and the news names the guests.
pub open spec fn hosted(
    before: GameState,
    id: Seq<char>,
    envoy: Option<String>,
    gain: int,
    lore: int,
    tied: GameState,
    mid: GameState,
    after: GameState,
    r: Result<String, String>,
) -> bool {
    let silver = before.sect.attributes.silver;
    if errand_refusal(before, envoy) is Some {
        after == before && refused(r, errand_refusal(before, envoy)->0)
    } else if !spec_is_ally(before, id) {
        after == before && refused(r, no_ally_text())
    } else if silver < 40 {
        after == before && refused(r, silver_short_text(40 - silver))
    } else if sect_index(before.npc_sects@, id) < 0 {
        3 <= gain <= 5 && stranded(before, id, 40, gain, after, r)
    } else {
        &&& 3 <= gain <= 5
        &&& 5 <= lore <= 12
        &&& ties_raised(before, tied, id, gain, SectAttributes { silver: (silver - 40) as i32, ..before.sect.attributes })
        &&& tied == (GameState { sect: tied.sect, npc_sects: tied.npc_sects, ..before })
        &&& mid == (GameState { sect: SectState { martial_research: mid.sect.martial_research, ..tied.sect }, ..tied })
        &&& mid.sect.martial_research.as_map() == comprehended(
            before.sect.martial_research.as_map(),
            first_combat_book(before.sect.public_books@, before.sect.created_martial_arts@, 0),
            lore,
        )
        &&& envoy_sent(mid, after, envoy_index(before, envoy))
        &&& r matches Ok(t) && t@ == "邀请"@ + spec_sect_name(before, id) + "长老来门交流武学心得，双方皆有所获。"@
    }
}

/// The envoy `envoy` brings the elders of the ally `id` to the sect to
/// compare their arts (see `hosted`).
pub fn host_exchange(rng: &mut StdRng, state: &mut GameState, id: &str, envoy: &Option<String>) -> (r: Result<String, String>)
    requires
        ties_fit(*old(state), id@, 5),
        hosting_fits(*old(state)),
    ensures
        exists|gain: int, lore: int, tied: GameState, mid: GameState|
            #[trigger] hosted(*old(state), id@, *envoy, gain, lore, tied, mid, *final(state), r),
{
    let ghost start = *state;
    let ei = match check_errand(state, envoy) {
        Err(e) => {
            let r = Err(e);
            proof {
                assert(hosted(start, id@, *envoy, 0, 0, start, start, *state, r));
            }
            return r;
        },
        Ok(i) => i,
    };
    if !is_ally(state, id) {
        let r = Err(String::from_str("此派与本门尚未结盟。"));
        proof {
            assert(hosted(start, id@, *envoy, 0, 0, start, start, *state, r));
        }
        return r;
    }
    match spend(state, 40) {
        Err(e) => {
            let r = Err(e);
            proof {
                assert(hosted(start, id@, *envoy, 0, 0, start, start, *state, r));
            }
            return r;
        },
        Ok(()) => {},
    }
    let gain = rand_range(rng, 3, 5);
    let si = match find_sect(state, id) {
        None => {
            state.sect.relations.add(id, gain);
            let r = Err(String::from_str("江湖中查无此派。"));
            proof {
                assert(state.sect.relations.as_map() =~= start.sect.relations.as_map().insert(
                    id@,
                    (start.sect.relations.amount(id@) + gain) as i32,
                ));
                assert(hosted(start, id@, *envoy, gain as int, 0, start, start, *state, r));
            }
            return r;
        },
        Some(si) => si,
    };
    let name = state.npc_sects[si].name.clone();
    raise_ties(state, id, si, gain);
    let ghost tied = *state;
    let lore = rand_range(rng, 5, 12);
    match first_combat_index(&state.sect.public_books, &state.sect.created_martial_arts) {
        Some(i) => {
            let book = state.sect.public_books[i].clone();
            add_research(&mut state.sect.martial_research, book.as_str(), lore);
        },
        None => {
            proof {
                assert(state.sect.martial_research.as_map() =~= comprehended(
                    start.sect.martial_research.as_map(),
                    first_combat_book(start.sect.public_books@, start.sect.created_martial_arts@, 0),
                    lore as int,
                ));
            }
        },
    }
    let ghost mid = *state;
    send_envoy(state, ei);
    let mut t = String::from_str("邀请");
    t.append(name.as_str());
    t.append("长老来门交流武学心得，双方皆有所获。");
    let r = Ok(t);
    proof {
        assert(hosted(start, id@, *envoy, gain as int, lore as int, tied, mid, *state, r));
    }
    r
}

/// An errand to `id` that gets as far as paying `silver` taels and raising
/// the sect's own regard before finding that `id` names no sect (for the
/// hosting of an ally, `ally` says whether `id` counts as one).
pub open spec fn errand_strands(s: GameState, id: Seq<char>, envoy: Option<String>, silver: int, ally: bool) -> bool {
    &&& errand_refusal(s, envoy) is None
    &&& ally
    &&& s.sect.attributes.silver >= silver
    &&& sect_index(s.npc_sects@, id) < 0
}

/// A disciple who can join a patrol: alive, above chore rank, able to act.
pub open spec fn patrol_eligible(d: Disciple) -> bool {
    d.alive && d.rank != DiscipleRank::Chore && spec_can_act(d)
}

/// `i` is the patrol's fighter: an eligible disciple of the highest merit,
/// the last of them on the roster.
pub open spec fn is_fighter(ds: Seq<Disciple>, i: int) -> bool {
    &&& 0 <= i < ds.len() && patrol_eligible(ds[i])
    &&& forall|j: int| 0 <= j < ds.len() && patrol_eligible(#[trigger] ds[j]) ==> ds[j].merit <= ds[i].merit
    &&& forall|j: int| i < j < ds.len() && patrol_eligible(#[trigger] ds[j]) ==> ds[j].merit < ds[i].merit
}

/// A combat art the disciple has learnt.
pub open spec fn holds_combat(d: Disciple, created: Seq<CreatedArt>, k: Seq<char>) -> bool {
    d.proficiencies.has(k) && art_combat(k, created) == Some(true)
}

/// `k` is the first in text order of the combat arts the disciple has learnt.
pub open spec fn first_combat_art(d: Disciple, created: Seq<CreatedArt>, k: Seq<char>) -> bool {
    &&& holds_combat(d, created, k)
    &&& forall|k2: Seq<char>| #[trigger] holds_combat(d, created, k2) ==> !text_lt(k2, k)
}

/// `after` is `d` with `xp` more experience in the art `k`, all else as it was.
pub open spec fn drilled(d: Disciple, k: Seq<char>, xp: int, after: Disciple) -> bool {
    let p = d.proficiencies.at(k);
    &&& after == (Disciple { proficiencies: after.proficiencies, ..d })
    &&& after.proficiencies.has(k)
    &&& after.proficiencies.at(k) == (SkillProgress { experience: (p.experience + xp) as i32, ..p })
    &&& forall|k2: Seq<char>| k2 != k ==> (#[trigger] after.proficiencies.has(k2) == d.proficiencies.has(k2))
    &&& forall|k2: Seq<char>| k2 != k && #[trigger] d.proficiencies.has(k2) ==> after.proficiencies.at(k2) == d.proficiencies.at(k2)
}

/// The patrol's fighter gains `xp` (`30..=60`) experience in the first
/// combat art it has learnt, from `before` to `after`: nothing changes
/// without an eligible disciple (`f` is then -1) or when the fighter `f`
/// has learnt no combat art.
pub open spec fn patrol_drill(before: GameState, after: GameState, f: int, k: Seq<char>, xp: int) -> bool {
    let ds = before.disciples@;
    let created = before.sect.created_martial_arts@;
    if f < 0 {
        &&& forall|j: int| 0 <= j < ds.len() ==> !patrol_eligible(#[trigger] ds[j])
        &&& after == before
    } else {
        &&& is_fighter(ds, f)
        &&& 30 <= xp <= 60
        &&& if forall|k2: Seq<char>| !#[trigger] holds_combat(ds[f], created, k2) {
            after == before
        } else {
            &&& first_combat_art(ds[f], created, k)
            &&& after == (GameState { disciples: after.disciples, ..before })
            &&& after.disciples@.len() == ds.len()
            &&& forall|j: int| 0 <= j < ds.len() && j != f ==> #[trigger] after.disciples@[j] == ds[j]
            &&& drilled(ds[f], k, xp, after.disciples@[f])
        }
    }
}

/// The experience of every art of every disciple has room for a patrol's 60.
pub open spec fn patrol_fits(s: GameState) -> bool {
    forall|i: int, k: Seq<char>|
        0 <= i < s.disciples@.len() && #[trigger] s.disciples@[i].proficiencies.has(k) ==> s.disciples@[i].proficiencies.at(k).experience
            <= i32::MAX - 60
}

fn find_fighter(ds: &Vec<Disciple>) -> (r: Option<usize>)
    ensures
        match r {
            Some(f) => is_fighter(ds@, f as int),
            None => forall|j: int| 0 <= j < ds@.len() ==> !patrol_eligible(#[trigger] ds@[j]),
        },
{
    let mut best: Option<usize> = None;
    let mut i: usize = 0;
    while i < ds.len()
        invariant
            i <= ds@.len(),
            match best {
                Some(b) => {
                    &&& b < i && patrol_eligible(ds@[b as int])
                    &&& forall|j: int| 0 <= j < i && patrol_eligible(#[trigger] ds@[j]) ==> ds@[j].merit <= ds@[b as int].merit
                    &&& forall|j: int| b < j < i && patrol_eligible(#[trigger] ds@[j]) ==> ds@[j].merit < ds@[b as int].merit
                },
                None => forall|j: int| 0 <= j < i ==> !patrol_eligible(#[trigger] ds@[j]),
            },
        decreases ds@.len() - i,
    {
        let d = &ds[i];
        if d.alive && d.rank != DiscipleRank::Chore && can_act(d) {
            match best {
                None => {
                    best = Some(i);
                },
                Some(b) => {
                    if d.merit >= ds[b].merit {
                        best = Some(i);
                    }
                },
            }
        }
        i = i + 1;
    }
    best
}

fn first_combat_name(d: &Disciple, created: &Vec<CreatedArt>) -> (r: Option<String>)
    ensures
        match r {
            Some(k) => first_combat_art(*d, created@, k@),
            None => forall|k2: Seq<char>| !#[trigger] holds_combat(*d, created@, k2),
        },
{
    let n = d.proficiencies.len();
    let mut best: Option<String> = None;
    let mut i: usize = 0;
    while i < n
        invariant
            i <= n,
            n == d.proficiencies.size(),
            match best {
                Some(b) => {
                    &&& holds_combat(*d, created@, b@)
                    &&& forall|j: int| 0 <= j < i && #[trigger] holds_combat(*d, created@, d.proficiencies.names()[j]) ==> !text_lt(
                        d.proficiencies.names()[j],
                        b@,
                    )
                },
                None => forall|j: int| 0 <= j < i ==> !#[trigger] holds_combat(*d, created@, d.proficiencies.names()[j]),
            },
        decreases n - i,
    {
        let (k, _) = d.proficiencies.entry_at(i);
        if art_is_combat(k, created) == Some(true) {
            match &best {
                None => {
                    best = Some(String::from_str(k));
                },
                Some(b) => {
                    if text_less(k, b.as_str()) {
                        let ghost old_best = b@;
                        proof {
                            assert forall|j: int| 0 <= j < i && #[trigger] holds_combat(*d, created@, d.proficiencies.names()[j]) implies !text_lt(
                                d.proficiencies.names()[j],
                                k@,
                            ) by {
                                if text_lt(d.proficiencies.names()[j], k@) {
                                    lemma_text_lt_transitive(d.proficiencies.names()[j], k@, old_best);
                                }
                            }
                        }
                        best = Some(String::from_str(k));
                    }
                },
            }
        }
        proof {
            crate::text::lemma_text_lt_irreflexive(k@);
        }
        i = i + 1;
    }
    proof {
        assert forall|k2: Seq<char>| #[trigger] holds_combat(*d, created@, k2) implies (match best {
            Some(b) => !text_lt(k2, b@),
            None => false,
        }) by {
            d.proficiencies.lemma_has_named(k2);
            let j = choose|j: int| 0 <= j < d.proficiencies.size() && #[trigger] d.proficiencies.names()[j] == k2;
            assert(holds_combat(*d, created@, d.proficiencies.names()[j]));
        }
    }
    best
}

fn drill_fighter(rng: &mut StdRng, state: &mut GameState) -> (r: Ghost<(int, Seq<char>, int)>)
    requires
        patrol_fits(*old(state)),
    ensures
        patrol_drill(*old(state), *final(state), r@.0, r@.1, r@.2),
{
    let ghost start = *state;
    match find_fighter(&state.disciples) {
        None => Ghost((-1, Seq::empty(), 0)),
        Some(f) => {
            let xp = rand_range(rng, 30, 60);
            match first_combat_name(&state.disciples[f], &state.sect.created_martial_arts) {
                None => Ghost((f as int, Seq::empty(), xp as int)),
                Some(k) => {
                    proof {
                        assert(start.disciples@[f as int].proficiencies.has(k@));
                    }
                    let p = state.disciples[f].proficiencies.get(k.as_str()).unwrap();
                    proof {
                        assert(p.experience <= i32::MAX - 60);
                    }
                    state.disciples[f].proficiencies.insert(k.as_str(), SkillProgress { level: p.level, experience: p.experience + xp });
                    Ghost((f as int, k@, xp as int))
                },
            }
        },
    }
}

/// The joint patrol with the ally `id`, with the envoy `envoy`, the regard
/// gained being `gain`: refused, changing nothing, as `errand_refusal` says,
/// when `id` is no ally, or when the treasury is short of 60 taels;
/// otherwise 60 taels are paid and the sect's regard for `id` rises by
/// `gain` (`4..=7`); when `id` names no sect the patrol ends there, refused;
/// else the other sect's regard rises as much and prestige by 2 (to at most
/// 1000; `tied` is the state then), the patrol's fighter drills (see
/// `patrol_drill`; `mid` is the state then), the envoy sets out, and the news
/// names the ally.
pub open spec fn patrolled(
    before: GameState,
    id: Seq<char>,
    envoy: Option<String>,
    gain: int,
    tied: GameState,
    f: int,
    k: Seq<char>,
    xp: int,
    mid: GameState,
    after: GameState,
    r: Result<String, String>,
) -> bool {
    let silver = before.sect.attributes.silver;
    let p = before.sect.attributes.prestige + 2;
    if errand_refusal(before, envoy) is Some {
        after == before && refused(r, errand_refusal(before, envoy)->0)
    } else if !spec_is_ally(before, id) {
        after == before && refused(r, no_ally_text())
    } else if silver < 60 {
        after == before && refused(r, silver_short_text(60 - silver))
    } else if sect_index(before.npc_sects@, id) < 0 {
        4 <= gain <= 7 && stranded(before, id, 60, gain, after, r)
    } else {
        &&& 4 <= gain <= 7
        &&& ties_raised(
            before,
            tied,
            id,
            gain,
            SectAttributes { silver: (silver - 60) as i32, prestige: (if p > 1000 { 1000 } else { p }) as i32, ..before.sect.attributes },
        )
        &&& tied == (GameState { sect: tied.sect, npc_sects: tied.npc_sects, ..before })
        &&& patrol_drill(tied, mid, f, k, xp)
        &&& envoy_sent(mid, after, envoy_index(before, envoy))
        &&& r matches Ok(t) && t@ == "本派与"@ + spec_sect_name(before, id) + "联手巡行边境，共御匪患。"@
    }
}

/// The envoy `envoy` leads a patrol of the border with the ally `id` (see
/// `patrolled`).
pub fn joint_patrol(rng: &mut StdRng, state: &mut GameState, id: &str, envoy: &Option<String>) -> (r: Result<String, String>)
    requires
        ties_fit(*old(state), id@, 7),
        patrol_fits(*old(state)),
    ensures
        exists|gain: int, tied: GameState, f: int, k: Seq<char>, xp: int, mid: GameState|
            #[trigger] patrolled(*old(state), id@, *envoy, gain, tied, f, k, xp, mid, *final(state), r),
{
    let ghost start = *state;
    let ei = match check_errand(state, envoy) {
        Err(e) => {
            let r = Err(e);
            proof {
                assert(patrolled(start, id@, *envoy, 0, start, 0, Seq::empty(), 0, start, *state, r));
            }
            return r;
        },
        Ok(i) => i,
    };
    if !is_ally(state, id) {
        let r = Err(String::from_str("此派与本门尚未结盟。"));
        proof {
            assert(patrolled(start, id@, *envoy, 0, start, 0, Seq::empty(), 0, start, *state, r));
        }
        return r;
    }
    match spend(state, 60) {
        Err(e) => {
            let r = Err(e);
            proof {
                assert(patrolled(start, id@, *envoy, 0, start, 0, Seq::empty(), 0, start, *state, r));
            }
            return r;
        },
        Ok(()) => {},
    }
    let gain = rand_range(rng, 4, 7);
    let si = match find_sect(state, id) {
        None => {
            state.sect.relations.add(id, gain);
            let r = Err(String::from_str("江湖中查无此派。"));
            proof {
                assert(state.sect.relations.as_map() =~= start.sect.relations.as_map().insert(
                    id@,
                    (start.sect.relations.amount(id@) + gain) as i32,
                ));
                assert(patrolled(start, id@, *envoy, gain as int, start, 0, Seq::empty(), 0, start, *state, r));
            }
            return r;
        },
        Some(si) => si,
    };
    let name = state.npc_sects[si].name.clone();
    let p: i64 = state.sect.attributes.prestige as i64 + 2;
    state.sect.attributes.prestige = if p > 1000 { 1000 } else { p as i32 };
    raise_ties(state, id, si, gain);
    let ghost tied = *state;
    let w = drill_fighter(rng, state);
    let ghost mid = *state;
    send_envoy(state, ei);
    let mut t = String::from_str("本派与");
    t.append(name.as_str());
    t.append("联手巡行边境，共御匪患。");
    let r = Ok(t);
    proof {
        assert(patrolled(start, id@, *envoy, gain as int, tied, w@.0, w@.1, w@.2, mid, *state, r));
    }
    r
}

/// The grade of a catalog art.
#[derive(Clone, Copy, Debug, PartialEq, Eq, Structural)]
pub enum MartialGrade {
    Basic,
    Chore,
    Outer,
    Inner,
}

/// What the catalog says of a manual asked for: whether it lists it,
/// whether it is a book of knowledge, its grade, whether it is a parry
/// manual of the old kind no longer taught, its difficulty, and its shown
/// name.
#[derive(Clone, Debug)]
pub struct ManualRating {
    pub listed: bool,
    pub knowledge: bool,
    pub grade: MartialGrade,
    pub retired_parry: bool,
    pub difficulty: i32,
    pub name: String,
}

/// The regard and the prestige a manual asks for: 10 and none for a book of
/// knowledge or a basic art, 20 and 40 for a chore art, 45 and 90 for an
/// outer art, 75 and 180 for an inner art.
pub open spec fn manual_requirements(m: ManualRating) -> (int, int) {
    if m.knowledge {
        (10, 0)
    } else {
        match m.grade {
            MartialGrade::Basic => (10, 0),
            MartialGrade::Chore => (20, 40),
            MartialGrade::Outer => (45, 90),
            MartialGrade::Inner => (75, 180),
        }
    }
}

/// The price of a manual can be reckoned and paid within `i32`.
pub open spec fn manual_fits(s: GameState, m: ManualRating) -> bool {
    let cost = 60 + 5 * m.difficulty;
    i32::MIN <= cost <= i32::MAX && s.sect.attributes.silver - cost <= i32::MAX
}

/// The request for the manual `art` of the sect `id` (rated `m`): refused,
/// changing nothing, when the library holds it already, when `id` names no
/// sect, when that sect's library lacks it, when the catalog does not list
/// it, for a retired parry manual, when the regard for `id` or the prestige
/// falls short of what it asks (see `manual_requirements`), or when the
/// treasury is short of 60 taels and five per point of difficulty;
/// otherwise that is paid, prestige falls by 3 (to no less than 0), the book
/// joins the library and is learnt, and the news names it.
pub open spec fn manual_granted(before: GameState, id: Seq<char>, art: Seq<char>, m: ManualRating, after: GameState, r: Result<String, String>) -> bool {
    let i = sect_index(before.npc_sects@, id);
    let (need_regard, need_prestige) = manual_requirements(m);
    let regard = before.sect.relations.amount(id);
    let prestige = before.sect.attributes.prestige;
    let cost = 60 + 5 * m.difficulty;
    let silver = before.sect.attributes.silver;
    if text_listed(before.sect.public_books@, art) {
        after == before && refused(r, "此册门中已有，无须再求。"@)
    } else if i < 0 {
        after == before && refused(r, "江湖中查无此派。"@)
    } else if !text_listed(before.npc_sects@[i].public_books@, art) {
        after == before && refused(r, "对方并无这册典籍。"@)
    } else if !m.listed {
        after == before && refused(r, "此武学谱录无考。"@)
    } else if m.retired_parry {
        after == before && refused(r, "这册旧制招架谱已不再传授。"@)
    } else if regard < need_regard {
        after == before && refused(r, "两派交情尚浅，须达"@ + int_text(need_regard) + "分方可开口。"@)
    } else if prestige < need_prestige {
        after == before && refused(r, "本派江湖声望尚浅，须达"@ + int_text(need_prestige) + "方有资格请教此册。"@)
    } else if silver < cost {
        after == before && refused(r, silver_short_text(cost - silver))
    } else {
        &&& after == (GameState {
            sect: SectState {
                attributes: SectAttributes {
                    silver: (silver - cost) as i32,
                    prestige: (if prestige - 3 < 0 { 0 } else { prestige - 3 }) as i32,
                    ..before.sect.attributes
                },
                public_books: after.sect.public_books,
                ..before.sect
            },
            martial_arts_learned: after.martial_arts_learned,
            ..before
        })
        &&& after.sect.public_books@.len() == before.sect.public_books@.len() + 1
        &&& after.sect.public_books@.drop_last() == before.sect.public_books@
        &&& after.sect.public_books@.last()@ == art
        &&& after.martial_arts_learned@.len() == before.martial_arts_learned@.len() + 1
        &&& after.martial_arts_learned@.drop_last() == before.martial_arts_learned@
        &&& after.martial_arts_learned@.last()@ == art
        &&& r matches Ok(t) && t@ == "耗费人情与库银，请得"@ + m.name@ + "抄本一册。"@
    }
}

/// The envoy `envoy`'s errand for the manual (see `manual_granted`): refused
/// as `errand_refusal` says, changing nothing; else the request is made
/// (`mid` is the state it leaves) and, when granted, the envoy sets out.
pub open spec fn manual_obtained(before: GameState, id: Seq<char>, art: Seq<char>, m: ManualRating, envoy: Option<String>, mid: GameState, after: GameState, r: Result<String, String>) -> bool {
    if errand_refusal(before, envoy) is Some {
        after == before && refused(r, errand_refusal(before, envoy)->0)
    } else {
        &&& manual_granted(before, id, art, m, mid, r)
        &&& if r is Ok { envoy_sent(mid, after, envoy_index(before, envoy)) } else { after == mid }
    }
}

fn requirement_text(head: &str, n: i32, tail: &str) -> (r: String)
    ensures
        r@ == head@ + int_text(n as int) + tail@,
{
    let mut t = String::from_str(head);
    t.append(int_string(n as i64).as_str());
    t.append(tail);
    t
}

/// Asks the sect `id` for a copy of its manual `martial_art_id`, rated by
/// the catalog as `manual` (see `manual_granted`).
pub fn request_manual(state: &mut GameState, id: &str, martial_art_id: &str, manual: &ManualRating) -> (r: Result<String, String>)
    requires
        manual_fits(*old(state), *manual),
    ensures
        manual_granted(*old(state), id@, martial_art_id@, *manual, *final(state), r),
{
    let ghost start = *state;
    match manual_checks(state, id, martial_art_id, manual) {
        Err(e) => return Err(e),
        Ok(()) => {},
    }
    let cost: i32 = (60 + 5 * manual.difficulty as i64) as i32;
    match spend(state, cost) {
        Err(e) => return Err(e),
        Ok(()) => {},
    }
    let p = state.sect.attributes.prestige;
    state.sect.attributes.prestige = if p < 3 { 0 } else { p - 3 };
    state.sect.public_books.push(String::from_str(martial_art_id));
    state.martial_arts_learned.push(String::from_str(martial_art_id));
    let mut t = String::from_str("耗费人情与库银，请得");
    t.append(manual.name.as_str());
    t.append("抄本一册。");
    proof {
        assert(state.sect.public_books@.drop_last() =~= start.sect.public_books@);
        assert(state.martial_arts_learned@.drop_last() =~= start.martial_arts_learned@);
    }
    Ok(t)
}

/// The envoy `envoy` goes to ask for the manual (see `manual_obtained`).
pub fn seek_manual(state: &mut GameState, id: &str, martial_art_id: &str, manual: &ManualRating, envoy: &Option<String>) -> (r: Result<String, String>)
    requires
        manual_fits(*old(state), *manual),
    ensures
        exists|mid: GameState| #[trigger] manual_obtained(*old(state), id@, martial_art_id@, *manual, *envoy, mid, *final(state), r),
{
    let ghost start = *state;
    let ei = match check_errand(state, envoy) {
        Err(e) => {
            let r = Err(e);
            proof {
                assert(manual_obtained(start, id@, martial_art_id@, *manual, *envoy, start, *state, r));
            }
            return r;
        },
        Ok(i) => i,
    };
    let r = request_manual(state, id, martial_art_id, manual);
    let ghost mid = *state;
    if r.is_ok() {
        send_envoy(state, ei);
    }
    proof {
        assert(manual_obtained(start, id@, martial_art_id@, *manual, *envoy, mid, *state, r));
    }
    r
}

fn manual_checks(state: &GameState, id: &str, art: &str, m: &ManualRating) -> (r: Result<(), String>)
    ensures
        ({
            let i = sect_index(state.npc_sects@, id@);
            let (need_regard, need_prestige) = manual_requirements(*m);
            if text_listed(state.sect.public_books@, art@) {
                refused(r, "此册门中已有，无须再求。"@)
            } else if i < 0 {
                refused(r, "江湖中查无此派。"@)
            } else if !text_listed(state.npc_sects@[i].public_books@, art@) {
                refused(r, "对方并无这册典籍。"@)
            } else if !m.listed {
                refused(r, "此武学谱录无考。"@)
            } else if m.retired_parry {
                refused(r, "这册旧制招架谱已不再传授。"@)
            } else if state.sect.relations.amount(id@) < need_regard {
                refused(r, "两派交情尚浅，须达"@ + int_text(need_regard) + "分方可开口。"@)
            } else if state.sect.attributes.prestige < need_prestige {
                refused(r, "本派江湖声望尚浅，须达"@ + int_text(need_prestige) + "方有资格请教此册。"@)
            } else {
                r is Ok
            }
        }),
{
    if list_contains(&state.sect.public_books, art) {
        return Err(String::from_str("此册门中已有，无须再求。"));
    }
    let i = match find_sect(state, id) {
        None => return Err(String::from_str("江湖中查无此派。")),
        Some(i) => i,
    };
    if !list_contains(&state.npc_sects[i].public_books, art) {
        return Err(String::from_str("对方并无这册典籍。"));
    }
    if !m.listed {
        return Err(String::from_str("此武学谱录无考。"));
    }
    if m.retired_parry {
        return Err(String::from_str("这册旧制招架谱已不再传授。"));
    }
    let (need_regard, need_prestige): (i32, i32) = if m.knowledge {
        (10, 0)
    } else {
        match m.grade {
            MartialGrade::Basic => (10, 0),
            MartialGrade::Chore => (20, 40),
            MartialGrade::Outer => (45, 90),
            MartialGrade::Inner => (75, 180),
        }
    };
    if state.sect.relations.amount_of(id) < need_regard {
        return Err(requirement_text("两派交情尚浅，须达", need_regard, "分方可开口。"));
    }
    if state.sect.attributes.prestige < need_prestige {
        return Err(requirement_text("本派江湖声望尚浅，须达", need_prestige, "方有资格请教此册。"));
    }
    Ok(())
}

} // verus!
