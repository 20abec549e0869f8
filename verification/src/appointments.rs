//! Masters and hall elders appointed by the head.
use vstd::prelude::*;
use crate::disciple::{aptitudes_fit, sync_legacy_attributes, synced};
use crate::game::GameState;
use crate::ledger::Ledger;
use crate::lineage::{disciple_index, find_disciple, master_assignment_creates_cycle, master_text, opt_text, opt_text_eq, spec_chain_acyclic};
use crate::management::{default_elder_duty, elder_duties, refused};
use crate::model::{AcquiredAttributes, Disciple, DiscipleRank};
use crate::sect::{building_index, find_building, Building, SectState};
use crate::text::text_eq;

verus! {

// Masters.

/// `d` is, besides `student`, a living non-chore apprentice of `master`.
pub open spec fn enrolled(d: Disciple, student: Seq<char>, master: Seq<char>) -> bool {
    &&& d.id@ != student
    &&& d.alive
    &&& d.rank != DiscipleRank::Chore
    &&& opt_text(d.master_id) == Some(master)
}

/// How many of the first `n` disciples are enrolled with `master` (see `enrolled`).
pub open spec fn enrolled_count(ds: Seq<Disciple>, student: Seq<char>, master: Seq<char>, n: int) -> int
    decreases n,
{
    if n <= 0 {
        0
    } else {
        enrolled_count(ds, student, master, n - 1) + (if enrolled(ds[n - 1], student, master) { 1int } else { 0int })
    }
}

fn count_enrolled(ds: &Vec<Disciple>, student: &str, master: &str) -> (r: usize)
    ensures
        r == enrolled_count(ds@, student@, master@, ds@.len() as int),
{
    let mut c: usize = 0;
    let mut i: usize = 0;
    while i < ds.len()
        invariant
            i <= ds@.len(),
            c == enrolled_count(ds@, student@, master@, i as int),
            c <= i,
        decreases ds@.len() - i,
    {
        let d = &ds[i];
        let under = match &d.master_id {
            Some(m) => text_eq(m.as_str(), master),
            None => false,
        };
        if !text_eq(d.id.as_str(), student) && d.alive && d.rank != DiscipleRank::Chore && under {
            c = c + 1;
        }
        i = i + 1;
    }
    c
}

/// The bond a master and an apprentice hold after the rite: what it was, but
/// at least 50.
pub open spec fn bonded(l: Ledger<i32>, key: Seq<char>) -> i32 {
    match l.lookup(key) {
        Some(v) => if v > 50 { v } else { 50 },
        None => 50,
    }
}

fn strengthen_bond(l: &mut Ledger<i32>, key: &str)
    ensures
        final(l).as_map() == old(l).as_map().insert(key@, bonded(*old(l), key@)),
{
    let v: i32 = match l.get(key) {
        Some(v) => if v > 50 { v } else { 50 },
        None => 50,
    };
    l.insert(key, v);
    assert(l.as_map() =~= old(l).as_map().insert(key@, v));
}

/// Loyalty raised by `n`, but not above 100.
pub open spec fn loyalty_plus(l: i32, n: int) -> i32 {
    (if l + n > 100 { 100 } else { l + n }) as i32
}

/// The line for an apprenticeship.
pub open spec fn apprenticed_text(student: Seq<char>, master: Seq<char>) -> Seq<char> {
    student + "向"@ + master + "行过拜师礼，自此正式列入其门下。"@
}

/// The line for a released apprenticeship.
pub open spec fn released_text(student: Seq<char>, former: Seq<char>) -> Seq<char> {
    student + "与"@ + former + "禀明缘由，解除师承。"@
}

/// Name of the first disciple with id `id`, or the id itself when none has it.
pub open spec fn name_or_id(ds: Seq<Disciple>, id: Seq<char>) -> Seq<char> {
    let j = disciple_index(ds, id);
    if j >= 0 {
        ds[j].name@
    } else {
        id
    }
}

/// What `assign_master` does: `after` and `r` are the state and result it leaves
/// for the state `before`.
pub open spec fn master_outcome(before: GameState, disciple_id: Seq<char>, master_id: Option<String>, after: GameState, r: Result<String, String>) -> bool {
    ({
        let s = before;
        let ds = s.disciples@;
        let si = disciple_index(ds, disciple_id);
        let st = ds[si];
        if si < 0 {
            refused(r, "查无此人。"@) && after == s
        } else if !st.alive {
            refused(r, "亡故门人不可再行拜师。"@) && after == s
        } else if st.rank == DiscipleRank::Chore {
            refused(r, "杂役尚未正式列入门墙，不可拜师。"@) && after == s
        } else {
            match master_id {
                None => if st.master_id is None {
                    refused(r, "此人眼下并无师承，无须解除。"@) && after == s
                } else {
                    &&& r matches Ok(t) && t@ == released_text(st.name@, name_or_id(ds, master_text(ds, si)))
                    &&& after.disciples@ == ds.update(si, Disciple { master_id: None, ..st })
                    &&& after == (GameState { disciples: after.disciples, ..s })
                },
                Some(m) => {
                    let mi = disciple_index(ds, m@);
                    let mt = ds[mi];
                    if opt_text(st.master_id) == Some(m@) {
                        refused(r, "此人已经列在所选师父门下，无须重复行礼。"@) && after == s
                    } else if m@ == disciple_id {
                        refused(r, "不可拜自己为师。"@) && after == s
                    } else if mi < 0 {
                        refused(r, "门中查无所选师父。"@) && after == s
                    } else if !mt.alive {
                        refused(r, "所选师父已经亡故。"@) && after == s
                    } else if mt.rank != DiscipleRank::Inner {
                        refused(r, "师父须从同门在世内门弟子中择任。"@) && after == s
                    } else if opt_text(mt.sect_id) != opt_text(st.sect_id) {
                        refused(r, "师徒须同属一门。"@) && after == s
                    } else if !spec_chain_acyclic(ds, disciple_id, m@) {
                        refused(r, "如此任命会使师门辈分首尾相接，不可成礼。"@) && after == s
                    } else if enrolled_count(ds, disciple_id, m@, ds.len() as int) >= 5 {
                        refused(r, "此人门下已有五名在籍弟子，不宜再收徒。"@) && after == s
                    } else {
                        let st2 = after.disciples@[si];
                        let mt2 = after.disciples@[mi];
                        &&& r matches Ok(t) && t@ == apprenticed_text(st.name@, mt.name@)
                        &&& after.disciples@.len() == ds.len()
                        &&& forall|j: int| 0 <= j < ds.len() && j != si && j != mi ==> #[trigger] after.disciples@[j] == ds[j]
                        &&& opt_text(st2.master_id) == Some(m@)
                        &&& st2.relations.as_map() == st.relations.as_map().insert(m@, bonded(st.relations, m@))
                        &&& st2 == synced(Disciple {
                            master_id: st2.master_id,
                            relations: st2.relations,
                            attributes: AcquiredAttributes { sect_loyalty: loyalty_plus(st.attributes.sect_loyalty, 3), ..st.attributes },
                            ..st
                        })
                        &&& mt2.relations.as_map() == mt.relations.as_map().insert(disciple_id, bonded(mt.relations, disciple_id))
                        &&& mt2 == (Disciple { relations: mt2.relations, ..mt })
                        &&& after == (GameState { disciples: after.disciples, ..s })
                    }
                },
            }
        }
    })
}

/// Makes `master_id` the master of a disciple, or with `None` releases the
/// disciple from its master. The student must be alive and not a chore
/// disciple; the master another living inner disciple of the same sect, not
/// already the student's master, closing no cycle of masters, and with fewer
/// than five other living non-chore apprentices. The rite raises the
/// student's loyalty by 3 (not above 100) and the bond of each to the other
/// to at least 50.
pub fn assign_master(state: &mut GameState, disciple_id: &str, master_id: Option<String>) -> (r: Result<String, String>)
    requires
        ({
            let i = disciple_index(old(state).disciples@, disciple_id@);
            i >= 0 ==> aptitudes_fit(old(state).disciples@[i].aptitudes)
        }),
    ensures
        master_outcome(*old(state), disciple_id@, master_id, *final(state), r),
{
    let si = match find_disciple(&state.disciples, disciple_id) {
        Some(i) => i,
        None => return Err(String::from_str("查无此人。")),
    };
    if !state.disciples[si].alive {
        return Err(String::from_str("亡故门人不可再行拜师。"));
    }
    if state.disciples[si].rank == DiscipleRank::Chore {
        return Err(String::from_str("杂役尚未正式列入门墙，不可拜师。"));
    }
    match master_id {
        Some(m) => {
            let already = match &state.disciples[si].master_id {
                Some(x) => text_eq(x.as_str(), m.as_str()),
                None => false,
            };
            if already {
                return Err(String::from_str("此人已经列在所选师父门下，无须重复行礼。"));
            }
            if text_eq(m.as_str(), disciple_id) {
                return Err(String::from_str("不可拜自己为师。"));
            }
            let mi = match find_disciple(&state.disciples, m.as_str()) {
                Some(i) => i,
                None => return Err(String::from_str("门中查无所选师父。")),
            };
            if !state.disciples[mi].alive {
                return Err(String::from_str("所选师父已经亡故。"));
            }
            if state.disciples[mi].rank != DiscipleRank::Inner {
                return Err(String::from_str("师父须从同门在世内门弟子中择任。"));
            }
            if !opt_text_eq(&state.disciples[mi].sect_id, &state.disciples[si].sect_id) {
                return Err(String::from_str("师徒须同属一门。"));
            }
            if master_assignment_creates_cycle(&state.disciples, disciple_id, m.as_str()) {
                return Err(String::from_str("如此任命会使师门辈分首尾相接，不可成礼。"));
            }
            if count_enrolled(&state.disciples, disciple_id, m.as_str()) >= 5 {
                return Err(String::from_str("此人门下已有五名在籍弟子，不宜再收徒。"));
            }
            let ghost ds = state.disciples@;
            let mut t = state.disciples[si].name.clone();
            t.append("向");
            t.append(state.disciples[mi].name.as_str());
            t.append("行过拜师礼，自此正式列入其门下。");
            let l: i64 = state.disciples[si].attributes.sect_loyalty as i64 + 3;
            state.disciples[si].attributes.sect_loyalty = if l > 100 { 100 } else { l as i32 };
            strengthen_bond(&mut state.disciples[si].relations, m.as_str());
            strengthen_bond(&mut state.disciples[mi].relations, disciple_id);
            state.disciples[si].master_id = Some(m);
            sync_legacy_attributes(&mut state.disciples[si]);
            assert(state.disciples@.len() == ds.len());
            Ok(t)
        },
        None => {
            let former = match &state.disciples[si].master_id {
                Some(x) => x.clone(),
                None => return Err(String::from_str("此人眼下并无师承，无须解除。")),
            };
            let fname = match find_disciple(&state.disciples, former.as_str()) {
                Some(j) => state.disciples[j].name.clone(),
                None => former,
            };
            let mut t = state.disciples[si].name.clone();
            t.append("与");
            t.append(fname.as_str());
            t.append("禀明缘由，解除师承。");
            state.disciples[si].master_id = None;
            Ok(t)
        },
    }
}

// Hall elders.

/// Position `i` is the first living disciple of `ds` with id `id`.
pub open spec fn is_first_living(ds: Seq<Disciple>, id: Seq<char>, i: int) -> bool {
    &&& 0 <= i < ds.len()
    &&& ds[i].id@ == id
    &&& ds[i].alive
    &&& forall|j: int| 0 <= j < i ==> !((#[trigger] ds[j]).id@ == id && ds[j].alive)
}

/// Position of the first living disciple with id `id`, or -1 when none lives.
pub open spec fn living_index(ds: Seq<Disciple>, id: Seq<char>) -> int {
    if exists|i: int| is_first_living(ds, id, i) {
        choose|i: int| is_first_living(ds, id, i)
    } else {
        -1
    }
}

fn find_living(ds: &Vec<Disciple>, id: &str) -> (r: Option<usize>)
    ensures
        match r {
            Some(i) => i < ds@.len() && living_index(ds@, id@) == i && is_first_living(ds@, id@, i as int),
            None => living_index(ds@, id@) == -1,
        },
{
    let mut i: usize = 0;
    while i < ds.len()
        invariant
            i <= ds@.len(),
            forall|j: int| 0 <= j < i ==> !((#[trigger] ds@[j]).id@ == id@ && ds@[j].alive),
        decreases ds@.len() - i,
    {
        if text_eq(ds[i].id.as_str(), id) && ds[i].alive {
            proof {
                assert(is_first_living(ds@, id@, i as int));
                let k = choose|k: int| is_first_living(ds@, id@, k);
                if k < i {
                    assert(!(ds@[k].id@ == id@ && ds@[k].alive));
                } else if k > i {
                    assert(!(ds@[i as int].id@ == id@ && ds@[i as int].alive));
                }
            }
            return Some(i);
        }
        i = i + 1;
    }
    proof {
        if exists|k: int| is_first_living(ds@, id@, k) {
            let k = choose|k: int| is_first_living(ds@, id@, k);
            assert(!(ds@[k].id@ == id@ && ds@[k].alive));
        }
    }
    None
}

/// Some hall other than those with id `hall` has `elder` as its elder.
pub open spec fn elder_elsewhere(bs: Seq<Building>, hall: Seq<char>, elder: Seq<char>) -> bool {
    exists|j: int| 0 <= j < bs.len() && (#[trigger] bs[j]).id@ != hall && opt_text(bs[j].elder_id) == Some(elder)
}

fn serves_elsewhere(bs: &Vec<Building>, hall: &str, elder: &str) -> (r: bool)
    ensures
        r == elder_elsewhere(bs@, hall@, elder@),
{
    let mut i: usize = 0;
    while i < bs.len()
        invariant
            i <= bs@.len(),
            forall|j: int| 0 <= j < i ==> !((#[trigger] bs@[j]).id@ != hall@ && opt_text(bs@[j].elder_id) == Some(elder@)),
        decreases bs@.len() - i,
    {
        let serves = match &bs[i].elder_id {
            Some(e) => text_eq(e.as_str(), elder),
            None => false,
        };
        if !text_eq(bs[i].id.as_str(), hall) && serves {
            assert(bs@[i as int].id@ != hall@ && opt_text(bs@[i as int].elder_id) == Some(elder@));
            return true;
        }
        i = i + 1;
    }
    false
}

/// Hall `b` with the elder seat set to `elder` (text), its duty kept or set
/// to the usual one, and its elder's monthly action unused.
pub open spec fn seated(b: Building, elder: Option<Seq<char>>, after: Building) -> bool {
    &&& opt_text(after.elder_id) == elder
    &&& match b.selected_duty {
        Some(d) => opt_text(after.selected_duty) == Some(d@),
        None => opt_text(after.selected_duty) == Some(elder_duties(b.kind)[0]),
    }
    &&& after == (Building { elder_id: after.elder_id, selected_duty: after.selected_duty, elder_action_used: false, ..b })
}

/// The line for an elder seated in a hall.
pub open spec fn seated_text(name: Seq<char>, title: Seq<char>, hall: Seq<char>) -> Seq<char> {
    "擢任"@ + name + "为"@ + title + "，自此主持"@ + hall + "。"@
}

/// The line for an elder seat left empty.
pub open spec fn vacant_text(title: Seq<char>, hall: Seq<char>) -> Seq<char> {
    title + "暂行空缺，"@ + hall + "事务仍由掌门兼领。"@
}

/// What `assign_elder` does: `after` and `r` are the state and result it leaves
/// for the state `before`.
pub open spec fn elder_outcome(before: GameState, building_id: Seq<char>, disciple_id: Option<String>, after: GameState, r: Result<String, String>) -> bool {
    ({
        let s = before;
        let bs = s.sect.buildings@;
        let bi = building_index(bs, building_id);
        let b = bs[bi];
        if bi < 0 {
            refused(r, "门中并无此处建筑。"@) && after == s
        } else {
            let done = {
                &&& after.sect.buildings@ == bs.update(bi, after.sect.buildings@[bi])
                &&& seated(b, opt_text(disciple_id), after.sect.buildings@[bi])
                &&& after == (GameState {
                    sect: SectState { buildings: after.sect.buildings, ..s.sect },
                    ..s
                })
            };
            match disciple_id {
                None => r matches Ok(t) && t@ == vacant_text(b.elder_title@, b.name@) && done,
                Some(e) => {
                    let ei = living_index(s.disciples@, e@);
                    if ei < 0 {
                        refused(r, "查无此人，或此人已不在世。"@) && after == s
                    } else if s.disciples@[ei].rank != DiscipleRank::Inner {
                        refused(r, "长老须从内门弟子中择任。"@) && after == s
                    } else if elder_elsewhere(bs, building_id, e@) {
                        refused(r, "此人已主持别处事务，不可兼任两席长老。"@) && after == s
                    } else {
                        r matches Ok(t) && t@ == seated_text(s.disciples@[ei].name@, b.elder_title@, b.name@) && done
                    }
                },
            }
        }
    })
}

/// Seats a disciple as elder of a hall (the first with that id), or with
/// `None` leaves the seat empty. The elder is the first living disciple with
/// that id, of inner rank, and no elder of a hall with another id. The hall
/// keeps its chosen duty, or takes up its usual one, and its elder has not yet
/// acted this month.
pub fn assign_elder(state: &mut GameState, building_id: &str, disciple_id: Option<String>) -> (r: Result<String, String>)
    ensures
        elder_outcome(*old(state), building_id@, disciple_id, *final(state), r),
{
    let bi = match find_building(&state.sect.buildings, building_id) {
        Some(i) => i,
        None => return Err(String::from_str("门中并无此处建筑。")),
    };
    let mut t = String::new();
    match &disciple_id {
        Some(e) => {
            let ei = match find_living(&state.disciples, e.as_str()) {
                Some(i) => i,
                None => return Err(String::from_str("查无此人，或此人已不在世。")),
            };
            if state.disciples[ei].rank != DiscipleRank::Inner {
                return Err(String::from_str("长老须从内门弟子中择任。"));
            }
            if serves_elsewhere(&state.sect.buildings, building_id, e.as_str()) {
                return Err(String::from_str("此人已主持别处事务，不可兼任两席长老。"));
            }
            t.append("擢任");
            t.append(state.disciples[ei].name.as_str());
            t.append("为");
            t.append(state.sect.buildings[bi].elder_title.as_str());
            t.append("，自此主持");
            t.append(state.sect.buildings[bi].name.as_str());
            t.append("。");
        },
        None => {
            t.append(state.sect.buildings[bi].elder_title.as_str());
            t.append("暂行空缺，");
            t.append(state.sect.buildings[bi].name.as_str());
            t.append("事务仍由掌门兼领。");
        },
    }
    let ghost bs = state.sect.buildings@;
    state.sect.buildings[bi].elder_id = disciple_id;
    if state.sect.buildings[bi].selected_duty.is_none() {
        let kind = state.sect.buildings[bi].kind;
        state.sect.buildings[bi].selected_duty = Some(default_elder_duty(kind).to_owned());
    }
    state.sect.buildings[bi].elder_action_used = false;
    assert(state.sect.buildings@ =~= bs.update(bi as int, state.sect.buildings@[bi as int]));
    Ok(t)
}

} // verus!
