//! Lineage: generations along master-to-student chains.
use vstd::prelude::*;
use vstd::set_lib::*;
use vstd::seq_lib::seq_to_set_is_finite;
use crate::model::{Disciple, DiscipleRank};
use crate::ledger::Ledger;
use crate::text::text_eq;

verus! {

/// Position `i` is the first disciple of `ds` with id `id`.
pub open spec fn is_first_with_id(ds: Seq<Disciple>, id: Seq<char>, i: int) -> bool {
    &&& 0 <= i < ds.len()
    &&& ds[i].id@ == id
    &&& forall|j: int| 0 <= j < i ==> (#[trigger] ds[j]).id@ != id
}

/// Position of the first disciple with id `id`, or -1 when none has it.
pub open spec fn disciple_index(ds: Seq<Disciple>, id: Seq<char>) -> int {
    if exists|i: int| is_first_with_id(ds, id, i) {
        choose|i: int| is_first_with_id(ds, id, i)
    } else {
        -1
    }
}

proof fn lemma_disciple_index(ds: Seq<Disciple>, id: Seq<char>, i: int)
    requires
        0 <= i <= ds.len(),
        forall|j: int| 0 <= j < i ==> (#[trigger] ds[j]).id@ != id,
        i == ds.len() || ds[i].id@ == id,
    ensures
        disciple_index(ds, id) == (if i == ds.len() { -1 } else { i }),
{
    if i < ds.len() {
        assert(is_first_with_id(ds, id, i));
        let k = choose|k: int| is_first_with_id(ds, id, k);
        if k < i {
            assert(ds[k].id@ != id);
        } else if k > i {
            assert(ds[i].id@ != id);
        }
    } else {
        if exists|k: int| is_first_with_id(ds, id, k) {
            let k = choose|k: int| is_first_with_id(ds, id, k);
            assert(ds[k].id@ != id);
        }
    }
}

/// Position of the first disciple with id `id`.
pub fn find_disciple(ds: &Vec<Disciple>, id: &str) -> (r: Option<usize>)
    ensures
        match r {
            Some(i) => i < ds@.len() && disciple_index(ds@, id@) == i,
            None => disciple_index(ds@, id@) == -1,
        },
{
    let mut i: usize = 0;
    while i < ds.len()
        invariant
            i <= ds@.len(),
            forall|j: int| 0 <= j < i ==> (#[trigger] ds@[j]).id@ != id@,
        decreases ds@.len() - i,
    {
        if text_eq(ds[i].id.as_str(), id) {
            proof {
                lemma_disciple_index(ds@, id@, i as int);
            }
            return Some(i);
        }
        i = i + 1;
    }
    proof {
        lemma_disciple_index(ds@, id@, i as int);
    }
    None
}

/// The master of disciple `i`: the position of the first disciple with the
/// master's id, -1 when no disciple has it, -2 when `i` has no master.
pub open spec fn master_of(ds: Seq<Disciple>, i: int) -> int {
    match ds[i].master_id {
        None => -2,
        Some(m) => disciple_index(ds, m@),
    }
}

/// Where `k` steps up the master chain from `i` lead: a position, or -1 once
/// the chain has ended at a disciple without master or a missing master.
pub open spec fn walk(ds: Seq<Disciple>, i: int, k: nat) -> int
    decreases k,
{
    if k == 0 {
        i
    } else {
        let j = walk(ds, i, (k - 1) as nat);
        if j < 0 || master_of(ds, j) < 0 {
            -1
        } else {
            master_of(ds, j)
        }
    }
}

/// The chain from `i` reaches, after `g` steps, a disciple without master.
pub open spec fn reaches_root(ds: Seq<Disciple>, i: int, g: nat) -> bool {
    let j = walk(ds, i, g);
    0 <= j < ds.len() && ds[j].master_id is None
}

/// Generation of disciple `i`: the number of steps from `i` up to a disciple
/// without master (held within `i32`), or 0 when the chain breaks off at a
/// missing master or runs into a cycle.
pub open spec fn spec_generation(ds: Seq<Disciple>, i: int) -> int {
    if exists|g: nat| reaches_root(ds, i, g) {
        let g = choose|g: nat| reaches_root(ds, i, g);
        if g > i32::MAX as nat {
            i32::MAX as int
        } else {
            g as int
        }
    } else {
        0
    }
}

proof fn lemma_walk_in_range(ds: Seq<Disciple>, i: int, k: nat)
    requires
        0 <= i < ds.len(),
    ensures
        -1 <= walk(ds, i, k) < ds.len(),
    decreases k,
{
    if k > 0 {
        lemma_walk_in_range(ds, i, (k - 1) as nat);
        let j = walk(ds, i, (k - 1) as nat);
        if j >= 0 {
            match ds[j].master_id {
                None => {},
                Some(m) => {
                    if exists|x: int| is_first_with_id(ds, m@, x) {
                        let x = choose|x: int| is_first_with_id(ds, m@, x);
                        assert(is_first_with_id(ds, m@, x));
                    }
                },
            }
        }
    }
}

proof fn lemma_walk_compose(ds: Seq<Disciple>, i: int, a: nat, b: nat)
    requires
        walk(ds, i, a) >= 0,
    ensures
        walk(ds, i, a + b) == walk(ds, walk(ds, i, a), b),
    decreases b,
{
    if b > 0 {
        lemma_walk_compose(ds, i, a, (b - 1) as nat);
        assert((a + b - 1) as nat == a + (b - 1) as nat);
    }
}

proof fn lemma_walk_dead(ds: Seq<Disciple>, i: int, a: nat, b: nat)
    requires
        walk(ds, i, a) < 0,
    ensures
        walk(ds, i, a + b) < 0,
    decreases b,
{
    if b > 0 {
        lemma_walk_dead(ds, i, a, (b - 1) as nat);
        assert((a + b - 1) as nat == a + (b - 1) as nat);
    }
}

proof fn lemma_root_unique(ds: Seq<Disciple>, i: int, g1: nat, g2: nat)
    requires
        reaches_root(ds, i, g1),
        reaches_root(ds, i, g2),
    ensures
        g1 == g2,
{
    if g1 < g2 {
        assert(walk(ds, i, g1 + 1) < 0);
        lemma_walk_dead(ds, i, g1 + 1, (g2 - g1 - 1) as nat);
        assert(g1 + 1 + (g2 - g1 - 1) as nat == g2);
    } else if g2 < g1 {
        assert(walk(ds, i, g2 + 1) < 0);
        lemma_walk_dead(ds, i, g2 + 1, (g1 - g2 - 1) as nat);
        assert(g2 + 1 + (g1 - g2 - 1) as nat == g1);
    }
}

proof fn lemma_generation_of(ds: Seq<Disciple>, i: int, g: nat)
    requires
        reaches_root(ds, i, g),
    ensures
        spec_generation(ds, i) == (if g > i32::MAX as nat { i32::MAX as int } else { g as int }),
{
    let c = choose|c: nat| reaches_root(ds, i, c);
    lemma_root_unique(ds, i, c, g);
}

/// Along a recorded path whose links follow the master relation, walking
/// `t` steps from `path[k]` lands on `path[k + t]`.
proof fn lemma_walk_along(ds: Seq<Disciple>, path: Seq<usize>, k: int, t: nat)
    requires
        0 <= k,
        k + t < path.len(),
        forall|q: int| 0 <= q < path.len() - 1 ==> master_of(ds, #[trigger] path[q] as int) == path[q + 1],
    ensures
        walk(ds, path[k] as int, t) == path[k + t],
    decreases t,
{
    if t > 0 {
        lemma_walk_along(ds, path, k, (t - 1) as nat);
        assert(master_of(ds, path[k + t - 1] as int) == path[k + t - 1 + 1]);
    }
}

/// When every path node has a master and the last one's master is on the
/// path, walks from path nodes stay on the path for ever.
proof fn lemma_walk_cycle(ds: Seq<Disciple>, path: Seq<usize>, k: int, t: nat, m: int)
    requires
        0 <= k < path.len(),
        forall|q: int| 0 <= q < path.len() - 1 ==> master_of(ds, #[trigger] path[q] as int) == path[q + 1],
        0 <= m < path.len(),
        master_of(ds, path[path.len() - 1] as int) == path[m],
    ensures
        exists|q: int| 0 <= q < path.len() && walk(ds, path[k] as int, t) == #[trigger] path[q],
    decreases t,
{
    if t == 0 {
        assert(walk(ds, path[k] as int, 0) == path[k]);
    } else {
        lemma_walk_cycle(ds, path, k, (t - 1) as nat, m);
        let q = choose|q: int| 0 <= q < path.len() && walk(ds, path[k] as int, (t - 1) as nat) == #[trigger] path[q];
        if q < path.len() - 1 {
            assert(master_of(ds, path[q] as int) == path[q + 1]);
            assert(walk(ds, path[k] as int, t) == path[q + 1]);
        } else {
            assert(walk(ds, path[k] as int, t) == path[m]);
        }
    }
}

/// State of a disciple during the computation.
const UNVISITED: u8 = 0;

const VISITING: u8 = 1;

const RESOLVED: u8 = 2;

/// `g` held within `i32`.
pub open spec fn clamp_generation(g: nat) -> int {
    if g > i32::MAX as nat {
        i32::MAX as int
    } else {
        g as int
    }
}

/// `has_master` and `masters` describe the master relation of `ds`.
spec fn links(ds: Seq<Disciple>, has_master: Seq<bool>, masters: Seq<Option<usize>>) -> bool {
    &&& has_master.len() == ds.len()
    &&& masters.len() == ds.len()
    &&& forall|j: int| 0 <= j < ds.len() ==> (#[trigger] has_master[j]) == ds[j].master_id is Some
    &&& forall|j: int| 0 <= j < ds.len() && ds[j].master_id is Some ==> match #[trigger] masters[j] {
        Some(m) => master_of(ds, j) == m && m < ds.len(),
        None => master_of(ds, j) == -1,
    }
}

/// Every resolved disciple's recorded outcome is its true lineage outcome.
spec fn resolved_correct(
    ds: Seq<Disciple>,
    state: Seq<u8>,
    valid: Seq<bool>,
    generations: Seq<i32>,
    tgen: Seq<nat>,
) -> bool {
    &&& state.len() == ds.len()
    &&& valid.len() == ds.len()
    &&& generations.len() == ds.len()
    &&& tgen.len() == ds.len()
    &&& forall|j: int|
        0 <= j < ds.len() && #[trigger] state[j] == RESOLVED ==> (if valid[j] {
            &&& reaches_root(ds, j, tgen[j])
            &&& generations[j] == clamp_generation(tgen[j])
        } else {
            forall|g: nat| !reaches_root(ds, j, g)
        })
}

fn build_links(disciples: &Vec<Disciple>) -> (r: (Vec<bool>, Vec<Option<usize>>))
    ensures
        links(disciples@, r.0@, r.1@),
{
    let ghost ds = disciples@;
    let n = disciples.len();
    let mut has_master: Vec<bool> = Vec::new();
    let mut master_indices: Vec<Option<usize>> = Vec::new();
    let mut i: usize = 0;
    while i < n
        invariant
            n == ds.len(),
            ds == disciples@,
            i <= n,
            has_master@.len() == i,
            master_indices@.len() == i,
            forall|j: int| 0 <= j < i ==> (#[trigger] has_master@[j]) == ds[j].master_id is Some,
            forall|j: int| 0 <= j < i && ds[j].master_id is Some ==> match #[trigger] master_indices@[j] {
                Some(m) => master_of(ds, j) == m && m < n,
                None => master_of(ds, j) == -1,
            },
        decreases n - i,
    {
        match &disciples[i].master_id {
            Some(m) => {
                has_master.push(true);
                master_indices.push(find_disciple(disciples, m.as_str()));
            },
            None => {
                has_master.push(false);
                master_indices.push(None);
            },
        }
        i = i + 1;
    }
    (has_master, master_indices)
}

/// How a walk up the chain from an unvisited disciple ended.
struct WalkEnd {
    path: Vec<usize>,
    current: usize,
    ok: bool,
    first_generation: i32,
    first_true: Ghost<nat>,
    stop_kind: Ghost<int>,
}

/// The walk's end, as stated over the disciples and the visit state.
spec fn walk_end_ok(ds: Seq<Disciple>, state: Seq<u8>, valid: Seq<bool>, tgen: Seq<nat>, start: int, w: WalkEnd) -> bool {
    let p = w.path@;
    let len = p.len() as int;
    let current = w.current as int;
    let first_true = w.first_true@;
    let stop_kind = w.stop_kind@;
    &&& len > 0
    &&& p[0] == start
    &&& current < ds.len()
    &&& forall|q: int| 0 <= q < len ==> (#[trigger] p[q]) < ds.len() && state[p[q] as int] == VISITING
    &&& forall|a: int, b: int| 0 <= a < b < len ==> p[a] != p[b]
    &&& forall|j: int| 0 <= j < ds.len() && #[trigger] state[j] == VISITING ==> exists|q: int|
        0 <= q < len && #[trigger] p[q] == j
    &&& forall|q: int| 0 <= q < len - 1 ==> master_of(ds, #[trigger] p[q] as int) == p[q + 1]
    &&& forall|q: int| 0 <= q < len - 1 ==> ds[#[trigger] p[q] as int].master_id is Some
    &&& 0 <= stop_kind <= 4
    &&& stop_kind != 0 ==> ds[p[len - 1] as int].master_id is Some
    &&& stop_kind == 0 ==> w.ok && first_true == 0 && w.first_generation == 0
        && current == p[len - 1] && ds[current].master_id is None
    &&& stop_kind == 1 ==> !w.ok && master_of(ds, p[len - 1] as int) == -1
    &&& stop_kind == 2 ==> !w.ok && master_of(ds, p[len - 1] as int) == current
        && state[current] == VISITING
    &&& stop_kind == 3 ==> w.ok && master_of(ds, p[len - 1] as int) == current
        && state[current] == RESOLVED && valid[current]
        && first_true == tgen[current] + 1
        && w.first_generation == clamp_generation(first_true)
    &&& stop_kind == 4 ==> !w.ok && master_of(ds, p[len - 1] as int) == current
        && state[current] == RESOLVED && !valid[current]
}

/// Walks up the master chain from the unvisited disciple `start`, marking the
/// walked disciples as visiting, until the chain ends or meets a visited one.
fn walk_chain(
    disciples: &Vec<Disciple>,
    has_master: &Vec<bool>,
    master_indices: &Vec<Option<usize>>,
    state: &mut Vec<u8>,
    valid: &Vec<bool>,
    generations: &Vec<i32>,
    start: usize,
    Ghost(tgen): Ghost<Seq<nat>>,
) -> (w: WalkEnd)
    requires
        links(disciples@, has_master@, master_indices@),
        resolved_correct(disciples@, old(state)@, valid@, generations@, tgen),
        start < disciples@.len(),
        old(state)@[start as int] == UNVISITED,
        forall|j: int| 0 <= j < disciples@.len() ==> (#[trigger] old(state)@[j] == UNVISITED
            || old(state)@[j] == RESOLVED),
    ensures
        final(state)@.len() == old(state)@.len(),
        forall|j: int| 0 <= j < disciples@.len() ==> (#[trigger] final(state)@[j] == VISITING
            <==> old(state)@[j] == UNVISITED && exists|q: int| 0 <= q < w.path@.len() && #[trigger] w.path@[q] == j),
        forall|j: int| 0 <= j < disciples@.len() && #[trigger] final(state)@[j] != VISITING ==> final(state)@[j] == old(state)@[j],
        walk_end_ok(disciples@, final(state)@, valid@, tgen, start as int, w),
{
    let ghost ds = disciples@;
    let n = disciples.len();
    let ghost state0 = state@;
    let mut path: Vec<usize> = Vec::new();
    let mut current: usize = start;
    let mut done = false;
    let mut ok = false;
    let mut first_generation: i32 = 0;
    let ghost mut first_true: nat = 0;
    let ghost mut stop_kind: int = 0;
    let ghost mut seen: Set<int> = Set::new(|j: int| 0 <= j < n && state@[j] != UNVISITED);
    while !done
        invariant
            n == ds.len(),
            ds == disciples@,
            links(ds, has_master@, master_indices@),
            resolved_correct(ds, state0, valid@, generations@, tgen),
            state@.len() == n,
            start < n,
            current < n,
            state0[start as int] == UNVISITED,
            forall|j: int| 0 <= j < n ==> (#[trigger] state0[j] == UNVISITED || state0[j] == RESOLVED),
            forall|j: int| 0 <= j < n ==> (#[trigger] state@[j] == VISITING <==> state0[j] == UNVISITED
                && exists|q: int| 0 <= q < path@.len() && #[trigger] path@[q] == j),
            forall|j: int| 0 <= j < n && #[trigger] state@[j] != VISITING ==> state@[j] == state0[j],
            seen == Set::new(|j: int| 0 <= j < n && state@[j] != UNVISITED),
            forall|q: int| 0 <= q < path@.len() ==> (#[trigger] path@[q]) < n && state@[path@[q] as int] == VISITING,
            forall|a: int, b: int| 0 <= a < b < path@.len() ==> path@[a] != path@[b],
            forall|q: int| 0 <= q < path@.len() - 1 ==> master_of(ds, #[trigger] path@[q] as int) == path@[q + 1],
            forall|q: int| 0 <= q < path@.len() - 1 ==> ds[#[trigger] path@[q] as int].master_id is Some,
            path@.len() == 0 ==> current == start && !done,
            path@.len() > 0 ==> path@[0] == start,
            path@.len() > 0 && !done ==> master_of(ds, path@[path@.len() - 1] as int) == current
                && ds[path@[path@.len() - 1] as int].master_id is Some,
            done ==> walk_end_ok(ds, state@, valid@, tgen, start as int, WalkEnd {
                path: path,
                current,
                ok,
                first_generation,
                first_true: Ghost(first_true),
                stop_kind: Ghost(stop_kind),
            }),
        decreases n - seen.len(), (if done { 0int } else { 1int }),
    {
        proof {
            lemma_int_range(0, n as int);
            assert(seen.subset_of(set_int_range(0, n as int)));
            lemma_len_subset(seen, set_int_range(0, n as int));
        }
        let ghost old_path = path@;
        let ghost old_state = state@;
        if state[current] == UNVISITED {
            state.set(current, VISITING);
            path.push(current);
            proof {
                let old_seen = seen;
                seen = Set::new(|j: int| 0 <= j < n && state@[j] != UNVISITED);
                assert(seen =~= old_seen.insert(current as int));
                assert(!old_seen.contains(current as int));
                assert(seen.subset_of(set_int_range(0, n as int)));
                lemma_len_subset(seen, set_int_range(0, n as int));
                assert forall|j: int| 0 <= j < n implies (#[trigger] state@[j] == VISITING <==> state0[j] == UNVISITED
                    && exists|q: int| 0 <= q < path@.len() && #[trigger] path@[q] == j) by {
                    if j == current {
                        assert(path@[path@.len() - 1] == j);
                        assert(old_state[j] == UNVISITED);
                        if state0[j] != UNVISITED {
                            assert(old_state[j] == state0[j]);
                        }
                    } else {
                        assert(state@[j] == old_state[j]);
                        if exists|q: int| 0 <= q < path@.len() && #[trigger] path@[q] == j {
                            let q = choose|q: int| 0 <= q < path@.len() && #[trigger] path@[q] == j;
                            assert(q < old_path.len());
                            assert(old_path[q] == j);
                        }
                        if exists|q: int| 0 <= q < old_path.len() && #[trigger] old_path[q] == j {
                            let q = choose|q: int| 0 <= q < old_path.len() && #[trigger] old_path[q] == j;
                            assert(path@[q] == j);
                        }
                    }
                }
                assert forall|a: int, b: int| 0 <= a < b < path@.len() implies path@[a] != path@[b] by {
                    if b == path@.len() - 1 {
                        assert(old_state[path@[a] as int] == VISITING);
                    }
                }
            }
            if !has_master[current] {
                done = true;
                ok = true;
                first_generation = 0;
                proof {
                    first_true = 0;
                    stop_kind = 0;
                }
            } else {
                match master_indices[current] {
                    Some(m) => {
                        current = m;
                    },
                    None => {
                        done = true;
                        ok = false;
                        proof {
                            stop_kind = 1;
                        }
                    },
                }
            }
        } else if state[current] == VISITING {
            done = true;
            ok = false;
            proof {
                stop_kind = 2;
            }
        } else if valid[current] {
            done = true;
            ok = true;
            let g = generations[current];
            first_generation = if g == i32::MAX { i32::MAX } else { g + 1 };
            proof {
                assert(state0[current as int] == RESOLVED);
                first_true = tgen[current as int] + 1;
                stop_kind = 3;
            }
        } else {
            done = true;
            ok = false;
            proof {
                assert(state0[current as int] == RESOLVED);
                stop_kind = 4;
            }
        }
    }
    WalkEnd { path, current, ok, first_generation, first_true: Ghost(first_true), stop_kind: Ghost(stop_kind) }
}

/// What the walk's end means for every disciple on the walked path.
proof fn lemma_path_outcome(
    ds: Seq<Disciple>,
    state: Seq<u8>,
    valid: Seq<bool>,
    tgen: Seq<nat>,
    start: int,
    w: WalkEnd,
)
    requires
        walk_end_ok(ds, state, valid, tgen, start, w),
        tgen.len() == ds.len(),
        state.len() == ds.len(),
        valid.len() == ds.len(),
        state[w.current as int] == RESOLVED && valid[w.current as int] ==> reaches_root(ds, w.current as int, tgen[w.current as int]),
        state[w.current as int] == RESOLVED && !valid[w.current as int] ==> forall|g: nat| !reaches_root(ds, w.current as int, g),
    ensures
        forall|k: int| 0 <= k < w.path@.len() ==> (if w.ok {
            reaches_root(ds, #[trigger] w.path@[k] as int, (w.first_true@ + (w.path@.len() - 1 - k)) as nat)
        } else {
            forall|g: nat| !reaches_root(ds, w.path@[k] as int, g)
        }),
{
    let p = w.path@;
    let len = p.len() as int;
    let current = w.current as int;
    let stop_kind = w.stop_kind@;
    assert forall|k: int| 0 <= k < len implies (if w.ok {
        reaches_root(ds, #[trigger] p[k] as int, (w.first_true@ + (len - 1 - k)) as nat)
    } else {
        forall|g: nat| !reaches_root(ds, p[k] as int, g)
    }) by {
        lemma_walk_along(ds, p, k, (len - 1 - k) as nat);
        if stop_kind == 0 {
            assert((w.first_true@ + (len - 1 - k)) as nat == (len - 1 - k) as nat);
        } else if stop_kind == 3 {
            assert(walk(ds, p[k] as int, (len - k) as nat) == current);
            lemma_walk_compose(ds, p[k] as int, (len - k) as nat, tgen[current]);
            assert((len - k) as nat + tgen[current] == (w.first_true@ + (len - 1 - k)) as nat);
        } else {
            assert forall|g: nat| !reaches_root(ds, p[k] as int, g) by {
                if g < len - k {
                    lemma_walk_along(ds, p, k, g);
                    assert(ds[p[k + g] as int].master_id is Some);
                } else if stop_kind == 1 {
                    assert(walk(ds, p[k] as int, (len - k) as nat) < 0);
                    lemma_walk_dead(ds, p[k] as int, (len - k) as nat, (g - (len - k)) as nat);
                    assert((len - k) as nat + (g - (len - k)) as nat == g);
                } else if stop_kind == 2 {
                    let m = choose|q: int| 0 <= q < len && #[trigger] p[q] == current;
                    lemma_walk_cycle(ds, p, k, g, m);
                    let q = choose|q: int| 0 <= q < len && walk(ds, p[k] as int, g) == #[trigger] p[q];
                    assert(ds[p[q] as int].master_id is Some);
                } else {
                    assert(walk(ds, p[k] as int, (len - k) as nat) == current);
                    lemma_walk_compose(ds, p[k] as int, (len - k) as nat, (g - (len - k)) as nat);
                    assert((len - k) as nat + (g - (len - k)) as nat == g);
                    assert(!reaches_root(ds, current, (g - (len - k)) as nat));
                }
            }
        }
    }
}

/// Records the outcome of a walked path: every node is resolved, with its
/// generation counted from the end of the path.
fn settle_path(
    w: &WalkEnd,
    state: &mut Vec<u8>,
    valid: &mut Vec<bool>,
    generations: &mut Vec<i32>,
    Ghost(tgen): Ghost<Seq<nat>>,
    Ghost(n): Ghost<int>,
) -> (new_tgen: Ghost<Seq<nat>>)
    requires
        old(state)@.len() == n,
        old(valid)@.len() == n,
        old(generations)@.len() == n,
        tgen.len() == n,
        forall|q: int| 0 <= q < w.path@.len() ==> (#[trigger] w.path@[q]) < n && old(state)@[w.path@[q] as int] == VISITING,
        forall|a: int, b: int| 0 <= a < b < w.path@.len() ==> w.path@[a] != w.path@[b],
        w.ok ==> w.first_generation == clamp_generation(w.first_true@),
    ensures
        final(state)@.len() == n,
        final(valid)@.len() == n,
        final(generations)@.len() == n,
        new_tgen@.len() == n,
        forall|j: int| 0 <= j < n && old(state)@[j] != VISITING ==> {
            &&& #[trigger] final(state)@[j] == old(state)@[j]
            &&& final(valid)@[j] == old(valid)@[j]
            &&& final(generations)@[j] == old(generations)@[j]
            &&& new_tgen@[j] == tgen[j]
        },
        forall|q: int| 0 <= q < w.path@.len() ==> {
            &&& final(state)@[#[trigger] w.path@[q] as int] == RESOLVED
            &&& final(valid)@[w.path@[q] as int] == w.ok
            &&& new_tgen@[w.path@[q] as int] == w.first_true@ + (w.path@.len() - 1 - q)
            &&& (w.ok ==> final(generations)@[w.path@[q] as int] == clamp_generation(
                (w.first_true@ + (w.path@.len() - 1 - q)) as nat,
            ))
        },
{
    let len = w.path.len();
    let ghost p = w.path@;
    let ghost state_before = state@;
    let ghost valid_before = valid@;
    let ghost generations_before = generations@;
    let mut generation = w.first_generation;
    let ghost mut tg: nat = w.first_true@;
    let ghost mut t = tgen;
    let mut step: usize = 0;
    while step < len
        invariant
            len == p.len(),
            p == w.path@,
            step <= len,
            state@.len() == n,
            valid@.len() == n,
            generations@.len() == n,
            t.len() == n,
            forall|q: int| 0 <= q < len ==> (#[trigger] p[q]) < n && state_before[p[q] as int] == VISITING,
            forall|a: int, b: int| 0 <= a < b < len ==> p[a] != p[b],
            tg == w.first_true@ + step,
            w.ok ==> generation == clamp_generation(tg),
            forall|j: int| 0 <= j < n && state_before[j] != VISITING ==> {
                &&& #[trigger] state@[j] == state_before[j]
                &&& valid@[j] == valid_before[j]
                &&& generations@[j] == generations_before[j]
                &&& t[j] == tgen[j]
            },
            forall|q: int| len - step <= q < len ==> {
                &&& state@[#[trigger] p[q] as int] == RESOLVED
                &&& valid@[p[q] as int] == w.ok
                &&& t[p[q] as int] == w.first_true@ + (len - 1 - q)
                &&& (w.ok ==> generations@[p[q] as int] == clamp_generation((w.first_true@ + (len - 1 - q)) as nat))
            },
        decreases len - step,
    {
        let index = w.path[len - 1 - step];
        let ghost q0 = len - 1 - step;
        let ghost s_old = state@;
        let ghost v_old = valid@;
        let ghost g_old = generations@;
        let ghost t_old = t;
        proof {
            assert(state_before[p[q0] as int] == VISITING);
        }
        state.set(index, RESOLVED);
        generations.set(index, if w.ok { generation } else { 0 });
        valid.set(index, w.ok);
        proof {
            t = t.update(index as int, tg);
            assert forall|j: int| 0 <= j < n && state_before[j] != VISITING implies {
                &&& #[trigger] state@[j] == state_before[j]
                &&& valid@[j] == valid_before[j]
                &&& generations@[j] == generations_before[j]
                &&& t[j] == tgen[j]
            } by {
                assert(s_old[j] == state_before[j]);
                assert(j != index);
            }
            assert forall|q: int| len - (step + 1) <= q < len implies {
                &&& state@[#[trigger] p[q] as int] == RESOLVED
                &&& valid@[p[q] as int] == w.ok
                &&& t[p[q] as int] == w.first_true@ + (len - 1 - q)
                &&& (w.ok ==> generations@[p[q] as int] == clamp_generation((w.first_true@ + (len - 1 - q)) as nat))
            } by {
                if q != q0 {
                    assert(p[q] != p[q0]);
                }
            }
        }
        generation = if generation == i32::MAX { i32::MAX } else { generation + 1 };
        proof {
            tg = tg + 1;
        }
        step = step + 1;
    }
    Ghost(t)
}

/// Sets every disciple's generation along the master chain: disciples
/// without master are generation 0, each student one more than the master;
/// chains that break off at a missing master or run into a cycle give 0 to
/// every disciple on them. Every chain is resolved once.
pub fn compute_lineage_generations(disciples: &mut Vec<Disciple>)
    ensures
        final(disciples)@.len() == old(disciples)@.len(),
        forall|i: int|
            0 <= i < old(disciples)@.len() ==> #[trigger] final(disciples)@[i] == (Disciple {
                lineage_generation: spec_generation(old(disciples)@, i) as i32,
                ..old(disciples)@[i]
            }),
{
    let ghost ds = disciples@;
    let n = disciples.len();
    let (has_master, master_indices) = build_links(disciples);
    let mut state: Vec<u8> = Vec::new();
    let mut generations: Vec<i32> = Vec::new();
    let mut valid: Vec<bool> = Vec::new();
    let mut i: usize = 0;
    while i < n
        invariant
            i <= n,
            state@.len() == i,
            generations@.len() == i,
            valid@.len() == i,
            forall|j: int| 0 <= j < i ==> #[trigger] state@[j] == UNVISITED,
        decreases n - i,
    {
        state.push(UNVISITED);
        generations.push(0);
        valid.push(false);
        i = i + 1;
    }
    let ghost mut tgen: Seq<nat> = Seq::new(n as nat, |j: int| 0nat);
    let mut start: usize = 0;
    while start < n
        invariant
            n == ds.len(),
            ds == disciples@,
            start <= n,
            links(ds, has_master@, master_indices@),
            resolved_correct(ds, state@, valid@, generations@, tgen),
            forall|j: int| 0 <= j < n ==> (#[trigger] state@[j] == UNVISITED || state@[j] == RESOLVED),
            forall|j: int| 0 <= j < start ==> #[trigger] state@[j] == RESOLVED,
        decreases n - start,
    {
        if state[start] != UNVISITED {
            start = start + 1;
            continue;
        }
        let ghost state0 = state@;
        let w = walk_chain(disciples, &has_master, &master_indices, &mut state, &valid, &generations, start, Ghost(tgen));
        let ghost state1 = state@;
        proof {
            let c = w.current as int;
            if state1[c] == RESOLVED {
                assert(state0[c] == RESOLVED);
            }
            lemma_path_outcome(ds, state1, valid@, tgen, start as int, w);
        }
        let ghost valid1 = valid@;
        let ghost generations1 = generations@;
        let new_tgen = settle_path(&w, &mut state, &mut valid, &mut generations, Ghost(tgen), Ghost(n as int));
        proof {
            let old_tgen = tgen;
            tgen = new_tgen@;
            let p = w.path@;
            assert forall|j: int| 0 <= j < n implies (#[trigger] state@[j] == UNVISITED || state@[j] == RESOLVED) by {
                if state1[j] == VISITING {
                    let q = choose|q: int| 0 <= q < p.len() && #[trigger] p[q] == j;
                    assert(state@[p[q] as int] == RESOLVED);
                } else {
                    assert(state1[j] == state0[j]);
                }
            }
            assert forall|j: int|
                0 <= j < n && #[trigger] state@[j] == RESOLVED implies (if valid@[j] {
                    &&& reaches_root(ds, j, tgen[j])
                    &&& generations@[j] == clamp_generation(tgen[j])
                } else {
                    forall|g: nat| !reaches_root(ds, j, g)
                }) by {
                if state1[j] == VISITING {
                    let q = choose|q: int| 0 <= q < p.len() && #[trigger] p[q] == j;
                    assert(valid@[p[q] as int] == w.ok);
                    if w.ok {
                        assert(reaches_root(ds, p[q] as int, (w.first_true@ + (p.len() - 1 - q)) as nat));
                    } else {
                        assert(forall|g: nat| !reaches_root(ds, p[q] as int, g));
                    }
                } else {
                    assert(state1[j] == state0[j]);
                    assert(valid@[j] == valid1[j]);
                    assert(generations@[j] == generations1[j]);
                    assert(tgen[j] == old_tgen[j]);
                }
            }
            assert forall|j: int| 0 <= j < start + 1 implies #[trigger] state@[j] == RESOLVED by {
                if j == start {
                    assert(p[0] == start);
                    assert(state@[p[0] as int] == RESOLVED);
                } else {
                    assert(state0[j] == RESOLVED);
                    assert(state1[j] == state0[j]);
                }
            }
        }
        start = start + 1;
    }

    let mut i: usize = 0;
    while i < n
        invariant
            n == ds.len(),
            i <= n,
            disciples@.len() == n,
            resolved_correct(ds, state@, valid@, generations@, tgen),
            forall|j: int| 0 <= j < n ==> #[trigger] state@[j] == RESOLVED,
            forall|j: int| 0 <= j < n ==> #[trigger] disciples@[j] == (if j < i {
                Disciple { lineage_generation: spec_generation(ds, j) as i32, ..ds[j] }
            } else {
                ds[j]
            }),
        decreases n - i,
    {
        proof {
            assert(state@[i as int] == RESOLVED);
            if valid@[i as int] {
                lemma_generation_of(ds, i as int, tgen[i as int]);
            }
        }
        let g = if valid[i] { generations[i] } else { 0 };
        disciples[i].lineage_generation = g;
        i = i + 1;
    }
}

// ---------------------------------------------------------------------------
// Master assignments.

/// The text of an optional string.
pub open spec fn opt_text(o: Option<String>) -> Option<Seq<char>> {
    match o {
        Some(s) => Some(s@),
        None => None,
    }
}

/// Position `i` is the last disciple of `ds` with id `id`.
pub open spec fn is_last_with_id(ds: Seq<Disciple>, id: Seq<char>, i: int) -> bool {
    &&& 0 <= i < ds.len()
    &&& ds[i].id@ == id
    &&& forall|j: int| i < j < ds.len() ==> (#[trigger] ds[j]).id@ != id
}

/// Position of the last disciple with id `id` (the record a roster lookup by
/// id finds), or -1 when none has it.
pub open spec fn record_index(ds: Seq<Disciple>, id: Seq<char>) -> int {
    if exists|i: int| is_last_with_id(ds, id, i) {
        choose|i: int| is_last_with_id(ds, id, i)
    } else {
        -1
    }
}

proof fn lemma_record_index(ds: Seq<Disciple>, id: Seq<char>, i: int)
    requires
        -1 <= i < ds.len(),
        forall|j: int| i < j < ds.len() ==> (#[trigger] ds[j]).id@ != id,
        i == -1 || ds[i].id@ == id,
    ensures
        record_index(ds, id) == i,
{
    if i >= 0 {
        assert(is_last_with_id(ds, id, i));
        let k = choose|k: int| is_last_with_id(ds, id, k);
        if k < i {
            assert(ds[i].id@ != id);
        } else if k > i {
            assert(ds[k].id@ != id);
        }
    } else {
        if exists|k: int| is_last_with_id(ds, id, k) {
            let k = choose|k: int| is_last_with_id(ds, id, k);
            assert(ds[k].id@ != id);
        }
    }
}

/// What a roster lookup by id needs to know of a disciple.
struct MemberStatus {
    id: String,
    alive: bool,
    rank: DiscipleRank,
    sect_id: Option<String>,
    master_id: Option<String>,
}

spec fn status_matches(st: Seq<MemberStatus>, ds: Seq<Disciple>) -> bool {
    &&& st.len() == ds.len()
    &&& forall|j: int| 0 <= j < ds.len() ==> {
        &&& (#[trigger] st[j]).id@ == ds[j].id@
        &&& st[j].alive == ds[j].alive
        &&& st[j].rank == ds[j].rank
        &&& opt_text(st[j].sect_id) == opt_text(ds[j].sect_id)
        &&& opt_text(st[j].master_id) == opt_text(ds[j].master_id)
    }
}

pub fn clone_opt_text(o: &Option<String>) -> (r: Option<String>)
    ensures
        opt_text(r) == opt_text(*o),
{
    match o {
        Some(s) => Some(s.clone()),
        None => None,
    }
}

pub fn opt_text_eq(a: &Option<String>, b: &Option<String>) -> (r: bool)
    ensures
        r == (opt_text(*a) == opt_text(*b)),
{
    match (a, b) {
        (Some(x), Some(y)) => text_eq(x.as_str(), y.as_str()),
        (None, None) => true,
        _ => false,
    }
}

fn roster_status(disciples: &Vec<Disciple>) -> (st: Vec<MemberStatus>)
    ensures
        status_matches(st@, disciples@),
{
    let mut st: Vec<MemberStatus> = Vec::new();
    let mut i: usize = 0;
    while i < disciples.len()
        invariant
            i <= disciples@.len(),
            st@.len() == i,
            forall|j: int| 0 <= j < i ==> {
                &&& (#[trigger] st@[j]).id@ == disciples@[j].id@
                &&& st@[j].alive == disciples@[j].alive
                &&& st@[j].rank == disciples@[j].rank
                &&& opt_text(st@[j].sect_id) == opt_text(disciples@[j].sect_id)
                &&& opt_text(st@[j].master_id) == opt_text(disciples@[j].master_id)
            },
        decreases disciples@.len() - i,
    {
        let d = &disciples[i];
        st.push(MemberStatus {
            id: d.id.clone(),
            alive: d.alive,
            rank: d.rank,
            sect_id: clone_opt_text(&d.sect_id),
            master_id: clone_opt_text(&d.master_id),
        });
        i = i + 1;
    }
    st
}

fn find_record(st: &Vec<MemberStatus>, id: &str, Ghost(ds): Ghost<Seq<Disciple>>) -> (r: Option<usize>)
    requires
        status_matches(st@, ds),
    ensures
        match r {
            Some(i) => i < ds.len() && record_index(ds, id@) == i,
            None => record_index(ds, id@) == -1,
        },
{
    let mut i: usize = st.len();
    while i > 0
        invariant
            status_matches(st@, ds),
            i <= st@.len(),
            forall|j: int| i <= j < ds.len() ==> (#[trigger] ds[j]).id@ != id@,
        decreases i,
    {
        if text_eq(st[i - 1].id.as_str(), id) {
            proof {
                assert(st@[i - 1].id@ == ds[i - 1].id@);
                lemma_record_index(ds, id@, i - 1);
            }
            return Some(i - 1);
        }
        proof {
            assert(st@[i - 1].id@ == ds[i - 1].id@);
        }
        i = i - 1;
    }
    proof {
        lemma_record_index(ds, id@, -1);
    }
    None
}

/// The id reached after `k` steps up the recorded masters from `master`,
/// or `None` once a step finds no record or a record without master.
pub open spec fn chain_cursor(ds: Seq<Disciple>, master: Seq<char>, k: nat) -> Option<Seq<char>>
    decreases k,
{
    if k == 0 {
        Some(master)
    } else {
        match chain_cursor(ds, master, (k - 1) as nat) {
            None => None,
            Some(id) => {
                let j = record_index(ds, id);
                if j < 0 {
                    None
                } else {
                    opt_text(ds[j].master_id)
                }
            },
        }
    }
}

/// Following the recorded masters from `master` ends without ever reaching
/// `student`: making `master` the student's master closes no cycle.
pub open spec fn spec_chain_acyclic(ds: Seq<Disciple>, student: Seq<char>, master: Seq<char>) -> bool {
    exists|k: nat|
        chain_cursor(ds, master, k) is None && forall|t: nat| t < k ==> chain_cursor(ds, master, t) != Some(student)
}

proof fn lemma_cursor_none_stays(ds: Seq<Disciple>, m: Seq<char>, a: nat, b: nat)
    requires
        chain_cursor(ds, m, a) is None,
        a <= b,
    ensures
        chain_cursor(ds, m, b) is None,
    decreases b - a,
{
    if b > a {
        lemma_cursor_none_stays(ds, m, a, (b - 1) as nat);
    }
}

proof fn lemma_cursor_shift(ds: Seq<Disciple>, m: Seq<char>, a: nat, b: nat, t: nat)
    requires
        chain_cursor(ds, m, a) == chain_cursor(ds, m, b),
    ensures
        chain_cursor(ds, m, a + t) == chain_cursor(ds, m, b + t),
    decreases t,
{
    if t > 0 {
        lemma_cursor_shift(ds, m, a, b, (t - 1) as nat);
        assert((a + t - 1) as nat == a + (t - 1) as nat);
        assert((b + t - 1) as nat == b + (t - 1) as nat);
    }
}

/// A repeated cursor makes the chain go round for ever.
proof fn lemma_cursor_cycle(ds: Seq<Disciple>, m: Seq<char>, a: nat, b: nat, k: nat)
    requires
        a < b,
        chain_cursor(ds, m, a) == chain_cursor(ds, m, b),
        forall|t: nat| t <= b ==> #[trigger] chain_cursor(ds, m, t) is Some,
    ensures
        chain_cursor(ds, m, k) is Some,
    decreases k,
{
    if k > b {
        let d = (b - a) as nat;
        lemma_cursor_shift(ds, m, a, b, (k - b) as nat);
        assert(a + (k - b) as nat == (k - d) as nat);
        assert(b + (k - b) as nat == k);
        lemma_cursor_cycle(ds, m, a, b, (k - d) as nat);
    }
}

/// Whether following the recorded masters from `master_id` ends without
/// reaching `student_id` or going round a cycle.
fn chain_is_acyclic(st: &Vec<MemberStatus>, student_id: &str, master_id: &str, Ghost(ds): Ghost<Seq<Disciple>>) -> (r: bool)
    requires
        status_matches(st@, ds),
    ensures
        r == spec_chain_acyclic(ds, student_id@, master_id@),
{
    let mut cursor: Option<String> = Some(String::from_str(master_id));
    let mut visited: Vec<String> = Vec::new();
    let ghost mut k: nat = 0;
    let ghost possible: Seq<Seq<char>> = seq![master_id@] + Seq::new(
        ds.len(),
        |j: int| match ds[j].master_id {
            Some(x) => x@,
            None => master_id@,
        },
    );
    proof {
        seq_to_set_is_finite(possible);
        possible.lemma_cardinality_of_set();
        assert(possible[0] == master_id@);
        assert(chain_cursor(ds, master_id@, 0) == Some(master_id@));
    }
    while cursor.is_some()
        invariant
            status_matches(st@, ds),
            opt_text(cursor) == chain_cursor(ds, master_id@, k),
            visited@.len() == k,
            forall|t: nat| t < k ==> (#[trigger] visited@[t as int])@ == chain_cursor(ds, master_id@, t)->0
                && chain_cursor(ds, master_id@, t) is Some,
            forall|t: nat| t < k ==> chain_cursor(ds, master_id@, t) != Some(student_id@),
            forall|a: int, b: int| 0 <= a < b < k ==> visited@[a]@ != visited@[b]@,
            forall|t: nat| t <= k ==> (#[trigger] chain_cursor(ds, master_id@, t) matches Some(x) ==> possible.contains(x)),
            possible.to_set().finite(),
            possible.to_set().len() <= ds.len() + 1,
            possible == seq![master_id@] + Seq::new(
                ds.len(),
                |j: int| match ds[j].master_id {
                    Some(x) => x@,
                    None => master_id@,
                },
            ),
        decreases possible.to_set().len() - visited@.len(),
    {
        let id = cursor.unwrap();
        if text_eq(id.as_str(), student_id) {
            proof {
                assert forall|q: nat| chain_cursor(ds, master_id@, q) is None implies exists|t: nat| t < q && chain_cursor(ds, master_id@, t) == Some(student_id@) by {
                    if q <= k {
                        if q == k {
                            assert(false);
                        }
                        lemma_cursor_none_stays(ds, master_id@, q, k);
                    }
                }
            }
            return false;
        }
        // a repeated id means the chain goes round for ever
        let mut seen_before = false;
        let mut v: usize = 0;
        let ghost mut hit: int = -1;
        while v < visited.len()
            invariant
                v <= visited@.len(),
                !seen_before ==> forall|a: int| 0 <= a < v ==> visited@[a]@ != id@,
                seen_before ==> 0 <= hit < visited@.len() && visited@[hit]@ == id@,
            decreases visited@.len() - v,
        {
            if !seen_before && text_eq(visited[v].as_str(), id.as_str()) {
                seen_before = true;
                proof {
                    hit = v as int;
                }
            }
            v = v + 1;
        }
        if seen_before {
            proof {
                let a = hit as nat;
                assert(chain_cursor(ds, master_id@, a) == chain_cursor(ds, master_id@, k));
                assert forall|t: nat| t <= k implies #[trigger] chain_cursor(ds, master_id@, t) is Some by {
                    if t < k {
                        assert(visited@[t as int]@ == chain_cursor(ds, master_id@, t)->0);
                    }
                }
                assert forall|q: nat| !(chain_cursor(ds, master_id@, q) is None) by {
                    lemma_cursor_cycle(ds, master_id@, a, k, q);
                }
            }
            return false;
        }
        proof {
            // the visited ids are distinct members of `possible`
            let vs = visited@.map_values(|x: String| x@).push(id@);
            assert forall|x: Seq<char>| vs.to_set().contains(x) implies possible.to_set().contains(x) by {
                let t = choose|t: int| 0 <= t < vs.len() && vs[t] == x;
                if t < k {
                    assert(visited@[t]@ == chain_cursor(ds, master_id@, t as nat)->0);
                    assert(chain_cursor(ds, master_id@, t as nat) is Some);
                }
                assert(possible.contains(x));
            }
            assert(vs.no_duplicates()) by {
                assert forall|a: int, b: int| 0 <= a < vs.len() && 0 <= b < vs.len() && a != b implies vs[a] != vs[b] by {
                    if a < b {
                        if b < k {
                        } else {
                            assert(visited@[a]@ != id@);
                        }
                    } else {
                        if a < k {
                        } else {
                            assert(visited@[b]@ != id@);
                        }
                    }
                }
            }
            vs.unique_seq_to_set();
            lemma_len_subset(vs.to_set(), possible.to_set());
        }
        let j = find_record(st, id.as_str(), Ghost(ds));
        let next = match j {
            None => None,
            Some(j) => clone_opt_text(&st[j].master_id),
        };
        visited.push(id);
        cursor = next;
        proof {
            k = k + 1;
            assert forall|t: nat| t <= k implies (#[trigger] chain_cursor(ds, master_id@, t) matches Some(x) ==> possible.contains(x)) by {
                if t == k {
                    if let Some(x) = chain_cursor(ds, master_id@, t) {
                        let jj = record_index(ds, chain_cursor(ds, master_id@, (t - 1) as nat)->0);
                        assert(possible[jj + 1] == x);
                    }
                }
            }
        }
    }
    proof {
        assert(chain_cursor(ds, master_id@, k) is None);
    }
    true
}

/// Whether appointing `master_id` as master of `student_id` would make the
/// student a master of its own master, or join an existing cycle.
pub fn master_assignment_creates_cycle(disciples: &Vec<Disciple>, student_id: &str, master_id: &str) -> (r: bool)
    ensures
        r == !spec_chain_acyclic(disciples@, student_id@, master_id@),
{
    let st = roster_status(disciples);
    !chain_is_acyclic(&st, student_id, master_id, Ghost(disciples@))
}

/// The master id of disciple `i`, as text.
pub open spec fn master_text(ds: Seq<Disciple>, i: int) -> Seq<char> {
    match ds[i].master_id {
        Some(m) => m@,
        None => Seq::empty(),
    }
}

/// Disciple `i`'s master assignment is sound apart from the apprentice
/// quota: the student is alive and not a chore disciple, the master is another
/// disciple of the same roster and sect, alive, of inner rank, and the
/// assignment closes no cycle.
pub open spec fn master_eligible(ds: Seq<Disciple>, i: int) -> bool {
    &&& ds[i].alive
    &&& ds[i].rank != DiscipleRank::Chore
    &&& ds[i].master_id is Some
    &&& master_text(ds, i) != ds[i].id@
    &&& spec_chain_acyclic(ds, ds[i].id@, master_text(ds, i))
    &&& record_index(ds, master_text(ds, i)) >= 0
    &&& ({
        let r = record_index(ds, master_text(ds, i));
        &&& ds[r].alive
        &&& ds[r].rank == DiscipleRank::Inner
        &&& opt_text(ds[r].sect_id) == opt_text(ds[i].sect_id)
    })
}

/// Number of disciples before position `n` whose assignment to `master` is kept.
pub open spec fn kept_count(ds: Seq<Disciple>, master: Seq<char>, n: int) -> int
    decreases n, 0int,
{
    if n <= 0 {
        0
    } else {
        kept_count(ds, master, n - 1) + (if master_kept(ds, n - 1) && master_text(ds, n - 1) == master {
            1int
        } else {
            0int
        })
    }
}

/// Disciple `i` keeps its master: the assignment is sound and the master has
/// fewer than five kept apprentices earlier in the roster.
pub open spec fn master_kept(ds: Seq<Disciple>, i: int) -> bool
    decreases i, 1int,
{
    if i < 0 {
        false
    } else {
        master_eligible(ds, i) && kept_count(ds, master_text(ds, i), i) < 5
    }
}

proof fn lemma_kept_count_bounds(ds: Seq<Disciple>, master: Seq<char>, n: int)
    requires
        0 <= n,
    ensures
        0 <= kept_count(ds, master, n) <= n,
    decreases n,
{
    if n > 0 {
        lemma_kept_count_bounds(ds, master, n - 1);
    }
}

/// Clears unsound master assignments and keeps, for each master, only the
/// first five apprentices in roster order.
pub fn normalize_master_assignments(disciples: &mut Vec<Disciple>)
    ensures
        final(disciples)@.len() == old(disciples)@.len(),
        forall|m: Seq<char>| #[trigger] apprentice_count(final(disciples)@, m, final(disciples)@.len() as int) <= 5,
        forall|i: int| 0 <= i < old(disciples)@.len() ==> #[trigger] final(disciples)@[i] == (if master_kept(old(disciples)@, i) {
            old(disciples)@[i]
        } else {
            Disciple { master_id: None, ..old(disciples)@[i] }
        }),
{
    let ghost ds = disciples@;
    let st = roster_status(disciples);
    let mut counts: Ledger<i32> = Ledger::new();
    let n = disciples.len();
    let mut i: usize = 0;
    while i < n
        invariant
            n == ds.len(),
            disciples@.len() == n,
            status_matches(st@, ds),
            i <= n,
            forall|j: int| 0 <= j < n ==> #[trigger] disciples@[j] == (if j < i {
                if master_kept(ds, j) {
                    ds[j]
                } else {
                    Disciple { master_id: None, ..ds[j] }
                }
            } else {
                ds[j]
            }),
            forall|m: Seq<char>| #[trigger] counts.amount(m) == kept_count(ds, m, i as int),
        decreases n - i,
    {
        proof {
            assert(disciples@[i as int] == ds[i as int]);
        }
        let valid = match &disciples[i].master_id {
            None => false,
            Some(m) => {
                if !disciples[i].alive || disciples[i].rank == DiscipleRank::Chore {
                    false
                } else if text_eq(m.as_str(), disciples[i].id.as_str()) {
                    false
                } else if !chain_is_acyclic(&st, disciples[i].id.as_str(), m.as_str(), Ghost(ds)) {
                    false
                } else {
                    match find_record(&st, m.as_str(), Ghost(ds)) {
                        None => false,
                        Some(r) => {
                            proof {
                                assert(st@[r as int].alive == ds[r as int].alive);
                                lemma_kept_count_bounds(ds, m@, i as int);
                            }
                            st[r].alive && st[r].rank == DiscipleRank::Inner && opt_text_eq(&st[r].sect_id, &disciples[i].sect_id)
                                && counts.amount_of(m.as_str()) < 5
                        },
                    }
                }
            },
        };
        proof {
            assert(valid == master_kept(ds, i as int));
        }
        let ghost old_counts = counts;
        if valid {
            let m = disciples[i].master_id.as_ref().unwrap();
            proof {
                lemma_kept_count_bounds(ds, m@, i as int);
            }
            let mut name = m.clone();
            counts.add(name.as_str(), 1);
        } else {
            disciples[i].master_id = None;
        }
        proof {
            assert forall|m: Seq<char>| #[trigger] counts.amount(m) == kept_count(ds, m, i + 1) by {
                assert(kept_count(ds, m, i + 1) == kept_count(ds, m, i as int) + (if master_kept(ds, i as int)
                    && master_text(ds, i as int) == m {
                    1int
                } else {
                    0int
                }));
                assert(old_counts.amount(m) == kept_count(ds, m, i as int));
                if valid && m != master_text(ds, i as int) {
                    assert(counts.has(m) == old_counts.has(m));
                    if old_counts.has(m) {
                        assert(counts.at(m) == old_counts.at(m));
                    }
                }
            }
        }
        i = i + 1;
    }
    proof {
        assert forall|m: Seq<char>| #[trigger] apprentice_count(disciples@, m, disciples@.len() as int) <= 5 by {
            lemma_apprentices_are_kept(ds, disciples@, m, ds.len() as int);
            lemma_kept_at_most_five(ds, m, ds.len() as int);
        }
    }
}

/// A relation value of at least this much counts as close.
pub const CLOSE_RELATION: i32 = 35;

/// A disciple may teach another: two different living disciples of the same
/// sect, where the teacher is the student's master or either holds the other
/// as close (relation at least 35).
pub open spec fn spec_teaching_eligible(teacher: Disciple, student: Disciple) -> bool {
    &&& teacher.id@ != student.id@
    &&& teacher.alive
    &&& student.alive
    &&& opt_text(teacher.sect_id) == opt_text(student.sect_id)
    &&& (opt_text(student.master_id) == Some(teacher.id@)
        || teacher.relations.amount(student.id@) >= CLOSE_RELATION
        || student.relations.amount(teacher.id@) >= CLOSE_RELATION)
}

/// Whether `teacher` may teach `student` (see `spec_teaching_eligible`).
pub fn teaching_relationship_eligible(teacher: &Disciple, student: &Disciple) -> (r: bool)
    ensures
        r == spec_teaching_eligible(*teacher, *student),
{
    if text_eq(teacher.id.as_str(), student.id.as_str()) || !teacher.alive || !student.alive {
        return false;
    }
    if !opt_text_eq(&teacher.sect_id, &student.sect_id) {
        return false;
    }
    let is_master = match &student.master_id {
        Some(m) => text_eq(m.as_str(), teacher.id.as_str()),
        None => false,
    };
    is_master || teacher.relations.amount_of(student.id.as_str()) >= CLOSE_RELATION
        || student.relations.amount_of(teacher.id.as_str()) >= CLOSE_RELATION
}

/// A disciple without master founds its line: generation 0.
pub proof fn law_founder_generation(ds: Seq<Disciple>, i: int)
    requires
        0 <= i < ds.len(),
        ds[i].master_id is None,
    ensures
        spec_generation(ds, i) == 0,
{
    assert(reaches_root(ds, i, 0));
    lemma_generation_of(ds, i, 0);
}

/// A student whose master's line reaches a founder stands one generation
/// below the master.
pub proof fn law_student_below_master(ds: Seq<Disciple>, i: int, g: nat)
    requires
        0 <= i < ds.len(),
        master_of(ds, i) >= 0,
        reaches_root(ds, master_of(ds, i), g),
        g < i32::MAX,
    ensures
        spec_generation(ds, i) == spec_generation(ds, master_of(ds, i)) + 1,
{
    let m = master_of(ds, i);
    assert(walk(ds, i, 0) == i);
    assert(walk(ds, i, 1) == m);
    lemma_walk_compose(ds, i, 1, g);
    assert(walk(ds, i, 1 + g) == walk(ds, m, g));
    assert(reaches_root(ds, i, 1 + g));
    lemma_generation_of(ds, i, 1 + g);
    lemma_generation_of(ds, m, g);
}

/// A disciple whose line never reaches a founder (a missing master or a
/// cycle) is counted as generation 0.
pub proof fn law_broken_line_generation(ds: Seq<Disciple>, i: int)
    requires
        forall|g: nat| !reaches_root(ds, i, g),
    ensures
        spec_generation(ds, i) == 0,
{
}

/// How many of the first `n` disciples name `master` as their master.
pub open spec fn apprentice_count(ds: Seq<Disciple>, master: Seq<char>, n: int) -> int
    decreases n,
{
    if n <= 0 {
        0
    } else {
        apprentice_count(ds, master, n - 1) + (if opt_text(ds[n - 1].master_id) == Some(master) { 1int } else { 0int })
    }
}

/// Kept assignments never exceed five per master.
proof fn lemma_kept_at_most_five(ds: Seq<Disciple>, master: Seq<char>, n: int)
    requires
        0 <= n,
    ensures
        kept_count(ds, master, n) <= 5,
    decreases n,
{
    if n > 0 {
        lemma_kept_at_most_five(ds, master, n - 1);
        if master_kept(ds, n - 1) && master_text(ds, n - 1) == master {
            assert(kept_count(ds, master_text(ds, n - 1), n - 1) < 5);
        }
    }
}

/// After normalization the apprentices of a master are exactly its kept ones.
proof fn lemma_apprentices_are_kept(before: Seq<Disciple>, after: Seq<Disciple>, master: Seq<char>, n: int)
    requires
        0 <= n <= before.len(),
        after.len() == before.len(),
        forall|i: int| 0 <= i < before.len() ==> #[trigger] after[i] == (if master_kept(before, i) {
            before[i]
        } else {
            Disciple { master_id: None, ..before[i] }
        }),
    ensures
        apprentice_count(after, master, n) == kept_count(before, master, n),
    decreases n,
{
    if n > 0 {
        lemma_apprentices_are_kept(before, after, master, n - 1);
        let i = n - 1;
        if master_kept(before, i) {
            assert(master_eligible(before, i));
            assert(opt_text(after[i].master_id) == Some(master_text(before, i)));
        }
    }
}

} // verus!
