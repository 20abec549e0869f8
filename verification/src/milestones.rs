//! The chronicle's monthly milestones: anniversaries in the sect, coming of
//! age, the founder's jubilees, and the years of service in a department.
use vstd::prelude::*;
use rand::rngs::StdRng;
use crate::chance::chance;
use crate::game::GameState;
use crate::management::{int_string, int_text};
use crate::model::{AcquiredAttributes, Department, Disciple, GameEvent};
use crate::requests::granted_entry;
use crate::sect::{count_rank, rank_count, rank_limits, spec_rank_limits, trunc_div, SectAttributes, SectState};
use crate::model::DiscipleRank;
use crate::management::rank_label;

verus! {

/// Where an interactive event is filed: the realms' affairs (the jianghu,
/// the court and the villages) in the world's column, the rest in the sect's.
pub open spec fn spec_interactive_category(category: Seq<char>) -> Seq<char> {
    if category == "江湖"@ || category == "朝廷"@ || category == "乡里"@ {
        "world"@
    } else {
        "sect"@
    }
}

/// Where an interactive event is filed (see `spec_interactive_category`).
pub fn interactive_category(category: &str) -> (r: &'static str)
    ensures
        r@ == spec_interactive_category(category@),
{
    if crate::text::text_eq(category, "江湖") || crate::text::text_eq(category, "朝廷") || crate::text::text_eq(category, "乡里") {
        "world"
    } else {
        "sect"
    }
}

/// Display name of a department.
pub open spec fn department_label(d: Department) -> Seq<char> {
    match d {
        Department::Transmission => "传功"@,
        Department::Library => "藏经"@,
        Department::Apothecary => "药务"@,
        Department::Treasury => "司库"@,
        Department::Stewardship => "庶务"@,
        Department::ExternalAffairs => "外务"@,
    }
}

/// Display name of a department.
pub fn department_display_name(d: Department) -> (r: &'static str)
    ensures
        r@ == department_label(d),
{
    match d {
        Department::Transmission => "传功",
        Department::Library => "藏经",
        Department::Apothecary => "药务",
        Department::Treasury => "司库",
        Department::Stewardship => "庶务",
        Department::ExternalAffairs => "外务",
    }
}

// ---------------------------------------------------------------------------
// Lineage milestones.

/// Whole years in the sect, as Rust divides.
pub open spec fn years_in_sect(d: Disciple) -> int {
    trunc_div(d.months_in_sect as int, 12)
}

/// A living disciple completes five, ten or twenty years in the sect this month.
pub open spec fn anniversary(d: Disciple) -> bool {
    let y = years_in_sect(d);
    d.alive && (y == 5 || y == 10 || y == 20) && d.months_in_sect == y * 12
}

/// A living disciple of eighteen who has spent a year in the sect may come of age.
pub open spec fn coming_of_age(d: Disciple) -> bool {
    d.alive && d.age == 18 && d.months_in_sect >= 12
}

/// The living founder (generation 0) may celebrate turning fifty or sixty.
pub open spec fn founder_jubilee(d: Disciple) -> bool {
    d.alive && d.lineage_generation == 0 && (d.age == 50 || d.age == 60)
}

/// The name of an anniversary of `y` years.
pub open spec fn milestone_label(y: int) -> Seq<char> {
    if y == 5 { "五年"@ } else if y == 10 { "十载"@ } else { "二十载"@ }
}

/// The generation note of an anniversary: from the second generation on,
/// which generation the disciple carries on.
pub open spec fn generation_note(g: int) -> Seq<char> {
    if g > 0 { "，系本派第"@ + int_text(g + 1) + "代传人"@ } else { Seq::empty() }
}

/// The lines a disciple's milestones add, with the coins `adult` (coming of
/// age, chance 3 in 5) and `founder` (a jubilee, chance 1 in 2).
pub open spec fn milestone_lines(d: Disciple, adult: bool, founder: bool) -> Seq<Seq<char>> {
    let a = if anniversary(d) {
        seq![d.name@ + "已在门中度过"@ + milestone_label(years_in_sect(d)) + "春秋"@ + generation_note(d.lineage_generation as int)
            + "，修为与功绩皆为同门翘楚。"@]
    } else {
        Seq::empty()
    };
    let b = if coming_of_age(d) && adult {
        seq![d.name@ + "年已及冠，掌门亲为束发授剑，自此正式列入门墙。"@]
    } else {
        Seq::empty()
    };
    let c = if founder_jubilee(d) && founder {
        seq!["开山立派之祖"@ + d.name@ + "年届"@ + int_text(d.age as int) + "，门中上下齐贺，江湖各派亦遣使道贺。"@]
    } else {
        Seq::empty()
    };
    a + b + c
}

/// The lines of the first `n` disciples' milestones.
pub open spec fn lineage_lines(ds: Seq<Disciple>, adult: Seq<bool>, founder: Seq<bool>, n: int) -> Seq<Seq<char>>
    decreases n,
{
    if n <= 0 {
        Seq::empty()
    } else {
        lineage_lines(ds, adult, founder, n - 1) + milestone_lines(ds[n - 1], adult[n - 1], founder[n - 1])
    }
}

/// How many of the first `n` disciples celebrate a jubilee.
pub open spec fn jubilees(ds: Seq<Disciple>, founder: Seq<bool>, n: int) -> int
    decreases n,
{
    if n <= 0 {
        0
    } else {
        jubilees(ds, founder, n - 1) + (if founder_jubilee(ds[n - 1]) && founder[n - 1] { 1int } else { 0int })
    }
}

/// `v` raised `k` times by `step`, each time held at most at `cap`.
pub open spec fn raised_times(v: int, step: int, k: int, cap: int) -> int {
    if k <= 0 {
        v
    } else if v + step * k > cap {
        cap
    } else {
        v + step * k
    }
}

/// A disciple after the month's milestones: coming of age brings 5 merit and
/// 5 loyalty, an anniversary alone 2 loyalty; loyalty stays at most 100.
pub open spec fn honored(d: Disciple, adult: bool) -> Disciple {
    let l = d.attributes.sect_loyalty as int;
    if coming_of_age(d) && adult {
        Disciple {
            merit: (d.merit + 5) as i64,
            attributes: AcquiredAttributes { sect_loyalty: (if l + 5 > 100 { 100 } else { l + 5 }) as i32, ..d.attributes },
            ..d
        }
    } else if anniversary(d) {
        Disciple { attributes: AcquiredAttributes { sect_loyalty: (if l + 2 > 100 { 100 } else { l + 2 }) as i32, ..d.attributes }, ..d }
    } else {
        d
    }
}

/// The entries `entries` tell the lines `lines` in the month of `s`.
pub open spec fn entries_tell(entries: Seq<GameEvent>, lines: Seq<Seq<char>>, s: GameState) -> bool {
    &&& entries.len() == lines.len()
    &&& forall|j: int| 0 <= j < lines.len() ==> #[trigger] granted_entry(entries[j], lines[j], s.year, s.month)
}

/// The month's lineage milestones with the coins `adult` and `founder`: the
/// disciples honored, each jubilee raising prestige by 5 (at most 1000) and
/// morale by 3 (at most 100), and an entry for each milestone.
pub open spec fn lineage_marked(s: GameState, adult: Seq<bool>, founder: Seq<bool>, after: GameState, entries: Seq<GameEvent>) -> bool {
    let ds = s.disciples@;
    let n = ds.len() as int;
    let k = jubilees(ds, founder, n);
    let a = s.sect.attributes;
    &&& adult.len() == n
    &&& founder.len() == n
    &&& after.disciples@ == Seq::new(n as nat, |i: int| honored(ds[i], adult[i]))
    &&& after.sect.attributes == (SectAttributes {
        prestige: raised_times(a.prestige as int, 5, k, 1000) as i32,
        morale: raised_times(a.morale as int, 3, k, 100) as i32,
        ..a
    })
    &&& after == (GameState { disciples: after.disciples, sect: SectState { attributes: after.sect.attributes, ..s.sect }, ..s })
    &&& entries_tell(entries, lineage_lines(ds, adult, founder, n), s)
}

fn entry(text: String, year: i32, month: i32) -> (e: GameEvent)
    ensures
        granted_entry(e, text@, year, month),
{
    proof {
        reveal_strlit("good");
        reveal_strlit("sect");
    }
    GameEvent { text, mood: String::from_str("good"), year, month, category: String::from_str("sect") }
}

proof fn lemma_jubilees_bounds(ds: Seq<Disciple>, founder: Seq<bool>, n: int)
    requires
        0 <= n,
    ensures
        0 <= jubilees(ds, founder, n) <= n,
    decreases n,
{
    if n > 0 {
        lemma_jubilees_bounds(ds, founder, n - 1);
    }
}

proof fn lemma_raised_step(v: int, step: int, k: int, cap: int)
    requires
        step > 0,
        k >= 0,
        v <= i32::MAX,
        cap <= i32::MAX,
    ensures
        raised_times(v, step, k + 1, cap) == (if raised_times(v, step, k, cap) + step > cap {
            cap
        } else {
            raised_times(v, step, k, cap) + step
        }),
        raised_times(v, step, k, cap) <= i32::MAX,
{
    assert(step * (k + 1) == step * k + step) by (nonlinear_arith);
    assert(step * k >= 0) by (nonlinear_arith)
        requires
            step > 0,
            k >= 0,
    ;
}

proof fn lemma_tell_push(entries: Seq<GameEvent>, lines: Seq<Seq<char>>, line: Seq<char>, s: GameState)
    requires
        entries.len() >= 1,
        entries_tell(entries.drop_last(), lines, s),
        granted_entry(entries.last(), line, s.year, s.month),
    ensures
        entries_tell(entries, lines.push(line), s),
{
    let ls = lines.push(line);
    assert forall|j: int| 0 <= j < ls.len() implies #[trigger] granted_entry(entries[j], ls[j], s.year, s.month) by {
        if j < lines.len() {
            assert(entries[j] == entries.drop_last()[j]);
        }
    }
}

proof fn lemma_lines_prefix(ds: Seq<Disciple>, a1: Seq<bool>, a2: Seq<bool>, f1: Seq<bool>, f2: Seq<bool>, n: int)
    requires
        0 <= n,
        n <= a1.len(),
        n <= a2.len(),
        n <= f1.len(),
        n <= f2.len(),
        forall|j: int| 0 <= j < n ==> a1[j] == a2[j] && f1[j] == f2[j],
    ensures
        lineage_lines(ds, a1, f1, n) == lineage_lines(ds, a2, f2, n),
    decreases n,
{
    if n > 0 {
        lemma_lines_prefix(ds, a1, a2, f1, f2, n - 1);
    }
}

proof fn lemma_jubilees_prefix(ds: Seq<Disciple>, f1: Seq<bool>, f2: Seq<bool>, n: int)
    requires
        0 <= n,
        n <= f1.len(),
        n <= f2.len(),
        forall|j: int| 0 <= j < n ==> f1[j] == f2[j],
    ensures
        jubilees(ds, f1, n) == jubilees(ds, f2, n),
    decreases n,
{
    if n > 0 {
        lemma_jubilees_prefix(ds, f1, f2, n - 1);
    }
}

/// Marks the month's lineage milestones (see `lineage_marked`); the coins are
/// drawn per disciple, in roster order, only when the milestone is possible.
pub fn generate_lineage_events(state: &mut GameState, rng: &mut StdRng) -> (r: Vec<GameEvent>)
    requires
        forall|i: int| 0 <= i < old(state).disciples@.len() ==> (#[trigger] old(state).disciples@[i]).merit + 5 <= i64::MAX,
    ensures
        exists|adult: Seq<bool>, founder: Seq<bool>| #[trigger] lineage_marked(*old(state), adult, founder, *final(state), r@),
{
    let ghost s = *state;
    let ghost ds = s.disciples@;
    let n = state.disciples.len();
    let ghost mut adult: Seq<bool> = Seq::empty();
    let ghost mut founder: Seq<bool> = Seq::empty();
    let mut entries: Vec<GameEvent> = Vec::new();
    let mut i: usize = 0;
    while i < n
        invariant
            n == ds.len(),
            state.disciples@.len() == n,
            i <= n,
            adult.len() == i,
            founder.len() == i,
            forall|j: int| 0 <= j < n ==> ds[j].merit + 5 <= i64::MAX,
            forall|j: int| 0 <= j < n ==> #[trigger] state.disciples@[j] == (if j < i { honored(ds[j], adult[j]) } else { ds[j] }),
            state.sect.attributes == (SectAttributes {
                prestige: raised_times(s.sect.attributes.prestige as int, 5, jubilees(ds, founder, i as int), 1000) as i32,
                morale: raised_times(s.sect.attributes.morale as int, 3, jubilees(ds, founder, i as int), 100) as i32,
                ..s.sect.attributes
            }),
            *state == (GameState { disciples: state.disciples, sect: SectState { attributes: state.sect.attributes, ..s.sect }, ..s }),
            entries_tell(entries@, lineage_lines(ds, adult, founder, i as int), s),
        decreases n - i,
    {
        assert(state.disciples@[i as int] == ds[i as int]);
        let ghost d = ds[i as int];
        let ghost base = lineage_lines(ds, adult, founder, i as int);
        let ghost mut partial: Seq<Seq<char>> = Seq::empty();
        let alive = state.disciples[i].alive;
        let months = state.disciples[i].months_in_sect;
        let generation = state.disciples[i].lineage_generation;
        let age = state.disciples[i].age;
        let loyalty = state.disciples[i].attributes.sect_loyalty;
        let mut adult_coin = false;
        let mut founder_coin = false;
        if alive {
            let y = months / 12;
            if (y == 5 || y == 10 || y == 20) && months == y * 12 {
                let mut t = state.disciples[i].name.clone();
                t.append("已在门中度过");
                t.append(if y == 5 { "五年" } else if y == 10 { "十载" } else { "二十载" });
                t.append("春秋");
                if generation > 0 {
                    t.append("，系本派第");
                    let g = int_string(generation as i64 + 1);
                    t.append(g.as_str());
                    t.append("代传人");
                }
                t.append("，修为与功绩皆为同门翘楚。");
                let ghost line = t@;
                assert(anniversary(d));
                assert(line == d.name@ + "已在门中度过"@ + milestone_label(years_in_sect(d)) + "春秋"@ + generation_note(d.lineage_generation as int)
                    + "，修为与功绩皆为同门翘楚。"@);
                entries.push(entry(t, state.year, state.month));
                proof {
                    lemma_tell_push(entries@, base + partial, line, s);
                    partial = partial.push(line);
                }
                let l: i64 = loyalty as i64 + 2;
                state.disciples[i].attributes.sect_loyalty = if l > 100 { 100 } else { l as i32 };
            }
            if age == 18 && months >= 12 {
                adult_coin = chance(rng, 3, 5);
                if adult_coin {
                    let mut t = state.disciples[i].name.clone();
                    t.append("年已及冠，掌门亲为束发授剑，自此正式列入门墙。");
                    let ghost line = t@;
                    entries.push(entry(t, state.year, state.month));
                    proof {
                        lemma_tell_push(entries@, base + partial, line, s);
                        partial = partial.push(line);
                    }
                    let m = state.disciples[i].merit;
                    state.disciples[i].merit = m + 5;
                    let l: i64 = loyalty as i64 + 5;
                    state.disciples[i].attributes.sect_loyalty = if l > 100 { 100 } else { l as i32 };
                }
            }
            if generation == 0 && (age == 50 || age == 60) {
                founder_coin = chance(rng, 1, 2);
                if founder_coin {
                    let mut t = String::from_str("开山立派之祖");
                    t.append(state.disciples[i].name.as_str());
                    t.append("年届");
                    let a = int_string(age as i64);
                    t.append(a.as_str());
                    t.append("，门中上下齐贺，江湖各派亦遣使道贺。");
                    let ghost line = t@;
                    entries.push(entry(t, state.year, state.month));
                    proof {
                        lemma_tell_push(entries@, base + partial, line, s);
                        partial = partial.push(line);
                    }
                    proof {
                        lemma_jubilees_bounds(ds, founder, i as int);
                        lemma_raised_step(s.sect.attributes.prestige as int, 5, jubilees(ds, founder, i as int), 1000);
                        lemma_raised_step(s.sect.attributes.morale as int, 3, jubilees(ds, founder, i as int), 100);
                    }
                    let p: i64 = state.sect.attributes.prestige as i64 + 5;
                    state.sect.attributes.prestige = if p > 1000 { 1000 } else { p as i32 };
                    let m: i64 = state.sect.attributes.morale as i64 + 3;
                    state.sect.attributes.morale = if m > 100 { 100 } else { m as i32 };
                }
            }
        }
        proof {
            let a0 = adult;
            let f0 = founder;
            adult = adult.push(adult_coin);
            founder = founder.push(founder_coin);
            lemma_lines_prefix(ds, adult, a0, founder, f0, i as int);
            lemma_jubilees_prefix(ds, founder, f0, i as int);
            assert(partial =~= milestone_lines(d, adult_coin, founder_coin));
            assert(lineage_lines(ds, adult, founder, i as int + 1) == base + partial);
            assert(state.disciples@[i as int] == honored(d, adult_coin));
        }
        i = i + 1;
    }
    proof {
        assert(state.disciples@ =~= Seq::new(n as nat, |j: int| honored(ds[j], adult[j])));
        assert(lineage_marked(s, adult, founder, *state, entries@));
    }
    entries
}

// ---------------------------------------------------------------------------
// Department milestones.

/// One disciple's month in a department, on the roster `cur` at position `i`
/// with the coin `coin` (chance 1 in 2): a living disciple with a department
/// serves one more month; each full year of service adds 8 department merit
/// and a line; enough department merit (30 for a chore disciple, 80 for an
/// outer one) earns promotion to the next rank when its quota has room and
/// the coin falls, resetting department merit and adding 10 merit.
pub open spec fn department_step(sect: SectState, cur: Seq<Disciple>, i: int, coin: bool) -> (Seq<Disciple>, Seq<Seq<char>>) {
    let d = cur[i];
    match d.department {
        None => (cur, Seq::empty()),
        Some(dep) => if !d.alive {
            (cur, Seq::empty())
        } else {
            let months = d.department_months + 1;
            let served = months > 0 && months == trunc_div(months, 12) * 12;
            let dm = d.department_merit + (if served { 8int } else { 0int });
            let d1 = Disciple { department_months: months as i32, department_merit: dm as i64, ..d };
            let cur1 = cur.update(i, d1);
            let name = department_label(dep);
            let line1 = if served {
                seq![d.name@ + "掌理"@ + name + "已满"@ + int_text(months) + "个月，处事愈见老练，部门诸务益加井井有条。"@]
            } else {
                Seq::empty()
            };
            let eligible = (dm >= 30 && d.rank == DiscipleRank::Chore) || (dm >= 80 && d.rank == DiscipleRank::Outer);
            let target = if d.rank == DiscipleRank::Chore { DiscipleRank::Outer } else { DiscipleRank::Inner };
            let limits = spec_rank_limits(sect, cur1);
            let limit = if d.rank == DiscipleRank::Chore { limits.0 } else { limits.1 };
            if eligible && rank_count(cur1, target, cur1.len() as int) < limit && coin {
                let d2 = Disciple { rank: target, department_merit: 0, merit: (d.merit + 10) as i64, ..d1 };
                (
                    cur.update(i, d2),
                    line1.push(d.name@ + "在"@ + name + "任上积功卓著，经掌门考校，擢升为"@ + rank_label(target) + "弟子。"@),
                )
            } else {
                (cur1, line1)
            }
        },
    }
}

/// The roster and lines after the first `n` disciples' months in their
/// departments, with the coins `coins`.
pub open spec fn department_run(sect: SectState, ds: Seq<Disciple>, coins: Seq<bool>, n: int) -> (Seq<Disciple>, Seq<Seq<char>>)
    decreases n,
{
    if n <= 0 {
        (ds, Seq::empty())
    } else {
        let prev = department_run(sect, ds, coins, n - 1);
        let next = department_step(sect, prev.0, n - 1, coins[n - 1]);
        (next.0, prev.1 + next.1)
    }
}

/// The counters a month of department service may raise fit their types.
pub open spec fn department_fits(ds: Seq<Disciple>) -> bool {
    forall|i: int| 0 <= i < ds.len() ==> {
        &&& (#[trigger] ds[i]).department_months + 1 <= i32::MAX
        &&& ds[i].department_merit + 8 <= i64::MAX
        &&& ds[i].merit + 10 <= i64::MAX
    }
}

proof fn lemma_run_keeps_shape(sect: SectState, ds: Seq<Disciple>, coins: Seq<bool>, n: int)
    requires
        0 <= n <= ds.len(),
        n <= coins.len(),
    ensures
        department_run(sect, ds, coins, n).0.len() == ds.len(),
        forall|j: int| n <= j < ds.len() ==> #[trigger] department_run(sect, ds, coins, n).0[j] == ds[j],
    decreases n,
{
    if n > 0 {
        lemma_run_keeps_shape(sect, ds, coins, n - 1);
    }
}

proof fn lemma_run_prefix(sect: SectState, ds: Seq<Disciple>, c1: Seq<bool>, c2: Seq<bool>, n: int)
    requires
        0 <= n,
        n <= c1.len(),
        n <= c2.len(),
        forall|j: int| 0 <= j < n ==> c1[j] == c2[j],
    ensures
        department_run(sect, ds, c1, n) == department_run(sect, ds, c2, n),
    decreases n,
{
    if n > 0 {
        lemma_run_prefix(sect, ds, c1, c2, n - 1);
    }
}

/// The month's department milestones with the coins `coins` (see
/// `department_step`), and an entry for each line.
pub open spec fn departments_marked(s: GameState, coins: Seq<bool>, after: GameState, entries: Seq<GameEvent>) -> bool {
    let run = department_run(s.sect, s.disciples@, coins, s.disciples@.len() as int);
    &&& coins.len() == s.disciples@.len()
    &&& after.disciples@ == run.0
    &&& after == (GameState { disciples: after.disciples, ..s })
    &&& entries_tell(entries, run.1, s)
}

/// Marks the month's department milestones (see `departments_marked`); a
/// coin is drawn only for a disciple who may be promoted.
pub fn generate_department_events(state: &mut GameState, rng: &mut StdRng) -> (r: Vec<GameEvent>)
    requires
        department_fits(old(state).disciples@),
    ensures
        exists|coins: Seq<bool>| #[trigger] departments_marked(*old(state), coins, *final(state), r@),
{
    let ghost s = *state;
    let ghost ds = s.disciples@;
    let n = state.disciples.len();
    let ghost mut coins: Seq<bool> = Seq::empty();
    let mut entries: Vec<GameEvent> = Vec::new();
    let mut i: usize = 0;
    while i < n
        invariant
            n == ds.len(),
            i <= n,
            coins.len() == i,
            department_fits(ds),
            state.disciples@ == department_run(s.sect, ds, coins, i as int).0,
            *state == (GameState { disciples: state.disciples, ..s }),
            entries_tell(entries@, department_run(s.sect, ds, coins, i as int).1, s),
        decreases n - i,
    {
        proof {
            lemma_run_keeps_shape(s.sect, ds, coins, i as int);
        }
        let ghost cur = state.disciples@;
        let ghost base = department_run(s.sect, ds, coins, i as int).1;
        let ghost mut partial: Seq<Seq<char>> = Seq::empty();
        assert(cur[i as int] == ds[i as int]);
        let mut coin = false;
        let dep = state.disciples[i].department;
        if state.disciples[i].alive && dep.is_some() {
            let name = department_display_name(dep.unwrap());
            let months = state.disciples[i].department_months + 1;
            state.disciples[i].department_months = months;
            let served = months > 0 && months == (months / 12) * 12;
            if served {
                let dm = state.disciples[i].department_merit;
                state.disciples[i].department_merit = dm + 8;
                let mut t = state.disciples[i].name.clone();
                t.append("掌理");
                t.append(name);
                t.append("已满");
                let m = int_string(months as i64);
                t.append(m.as_str());
                t.append("个月，处事愈见老练，部门诸务益加井井有条。");
                let ghost line = t@;
                entries.push(entry(t, state.year, state.month));
                proof {
                    lemma_tell_push(entries@, base + partial, line, s);
                    partial = partial.push(line);
                }
            }
            let ghost cur1 = state.disciples@;
            assert(cur1 =~= cur.update(i as int, Disciple {
                department_months: months,
                department_merit: state.disciples@[i as int].department_merit,
                ..cur[i as int]
            }));
            let dm = state.disciples[i].department_merit;
            let rank = state.disciples[i].rank;
            if (dm >= 30 && rank == DiscipleRank::Chore) || (dm >= 80 && rank == DiscipleRank::Outer) {
                let (outer_limit, inner_limit) = rank_limits(&state.sect, &state.disciples);
                let target = if rank == DiscipleRank::Chore { DiscipleRank::Outer } else { DiscipleRank::Inner };
                let limit = if rank == DiscipleRank::Chore { outer_limit } else { inner_limit };
                let count = count_rank(&state.disciples, target);
                if count < limit {
                    coin = chance(rng, 1, 2);
                    if coin {
                        state.disciples[i].rank = target;
                        state.disciples[i].department_merit = 0;
                        let merit = state.disciples[i].merit;
                        state.disciples[i].merit = merit + 10;
                        let mut t = state.disciples[i].name.clone();
                        t.append("在");
                        t.append(name);
                        t.append("任上积功卓著，经掌门考校，擢升为");
                        t.append(crate::management::rank_name(target));
                        t.append("弟子。");
                        let ghost line = t@;
                        entries.push(entry(t, state.year, state.month));
                        proof {
                            lemma_tell_push(entries@, base + partial, line, s);
                            partial = partial.push(line);
                        }
                    }
                }
            }
        }
        proof {
            let c0 = coins;
            coins = coins.push(coin);
            lemma_run_prefix(s.sect, ds, coins, c0, i as int);
            let step = department_step(s.sect, cur, i as int, coin);
            assert(state.disciples@ =~= step.0);
            assert(partial =~= step.1);
        }
        i = i + 1;
    }
    proof {
        assert(departments_marked(s, coins, *state, entries@));
    }
    entries
}

} // verus!
