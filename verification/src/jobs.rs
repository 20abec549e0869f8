//! A month's work of one disciple or of a pair: what it costs them, what it
//! teaches them and what it brings their sect.
use vstd::prelude::*;
use rand::rngs::StdRng;
use crate::chance::{chance, rand_range};
use crate::actions::{
    sat64, scale_department_experience, scale_department_output, scale_experience, scale_output, spec_department_bonus,
    spec_department_experience, spec_department_output, spec_scale_experience, spec_scale_output,
};
use crate::country::{scale_positive, spec_scale_positive, trunc_div};
use crate::sect::{clamp_i64_to_i32, sat32};
use crate::text::text_eq;
use crate::management::{int_string, int_text};
use crate::model::{ActionKind, ActionPlan, Disciple};
use crate::sect::{building_index, find_building, SectAttributes, SectState};
use crate::ledger::Ledger;

verus! {

/// What a month's work costs or gives one disciple, besides skill
/// experience: qi, spirit, inner force and energy (current and maximum),
/// attainment, merit and private silver.
#[derive(Clone, Copy, Debug, PartialEq, Eq, Structural)]
pub struct Strain {
    pub qi: i32,
    pub spirit: i32,
    pub neili: i32,
    pub energy: i32,
    pub qi_max: i32,
    pub spirit_max: i32,
    pub neili_max: i32,
    pub energy_max: i32,
    pub attainment: i64,
    pub merit: i64,
    pub personal_silver: i32,
}

/// No strain at all.
pub open spec fn calm() -> Strain {
    Strain {
        qi: 0,
        spirit: 0,
        neili: 0,
        energy: 0,
        qi_max: 0,
        spirit_max: 0,
        neili_max: 0,
        energy_max: 0,
        attainment: 0,
        merit: 0,
        personal_silver: 0,
    }
}

fn no_strain() -> (r: Strain)
    ensures
        r == calm(),
{
    Strain {
        qi: 0,
        spirit: 0,
        neili: 0,
        energy: 0,
        qi_max: 0,
        spirit_max: 0,
        neili_max: 0,
        energy_max: 0,
        attainment: 0,
        merit: 0,
        personal_silver: 0,
    }
}

/// Experience gained in one art.
pub struct Training {
    pub art: String,
    pub gain: i64,
}

/// A disciple's level in `art`, 0 when the art is not learnt.
pub open spec fn spec_skill_level(d: Disciple, art: Seq<char>) -> int {
    match d.proficiencies.lookup(art) {
        Some(p) => p.level as int,
        None => 0,
    }
}

/// A disciple's level in `art` (see `spec_skill_level`).
pub fn skill_level(d: &Disciple, art: &str) -> (r: i32)
    ensures
        r == spec_skill_level(*d, art@),
{
    match d.proficiencies.get(art) {
        Some(p) => p.level,
        None => 0,
    }
}

/// A month of practice compressed into sessions: 14 sessions and one for
/// each two points of the aptitude; each session gives a fifth of the level
/// (at least 1) plus one, times the intensity (at least 1), divided by 80 and
/// three times the art's difficulty (at least 5); at least 1 in all.
pub open spec fn spec_skill_experience(level: int, difficulty: int, aptitude: int, intensity: int) -> int {
    let lv = if level < 1 { 1 } else { level };
    let sessions = 14 + (if aptitude < 0 { 0 } else { aptitude }) / 2;
    let diff = if difficulty < 5 { 5 } else { difficulty };
    let per = lv / 5 + 1;
    let inten = if intensity < 1 { 1 } else { intensity };
    let v = per * sessions * inten / (80 + diff * 3);
    sat64(if v < 1 { 1 } else { v })
}

/// The month's experience of a disciple of level `level` in an art of
/// difficulty `difficulty` (see `spec_skill_experience`).
pub fn skill_experience(level: i32, difficulty: i32, aptitude: i32, intensity: i32) -> (r: i64)
    ensures
        r == spec_skill_experience(level as int, difficulty as int, aptitude as int, intensity as int),
        r >= 1,
{
    let lv: i128 = if level < 1 { 1 } else { level as i128 };
    let sessions: i128 = 14 + (if aptitude < 0 { 0 } else { aptitude as i128 }) / 2;
    let diff: i128 = if difficulty < 5 { 5 } else { difficulty as i128 };
    let per: i128 = lv / 5 + 1;
    let inten: i128 = if intensity < 1 { 1 } else { intensity as i128 };
    proof {
        assert(1 <= per <= 0x2000_0000);
        assert(14 <= sessions <= 0x4000_0010);
        assert(1 <= inten <= 0x8000_0000);
        assert(per * sessions <= 0x2000_0000 * 0x4000_0010) by (nonlinear_arith)
            requires
                1 <= per <= 0x2000_0000,
                14 <= sessions <= 0x4000_0010;
        assert(per * sessions >= 0) by (nonlinear_arith)
            requires
                1 <= per,
                14 <= sessions;
        assert(per * sessions * inten <= 0x2000_0000 * 0x4000_0010 * 0x8000_0000) by (nonlinear_arith)
            requires
                0 <= per * sessions <= 0x2000_0000 * 0x4000_0010,
                1 <= inten <= 0x8000_0000;
        assert(per * sessions * inten >= 0) by (nonlinear_arith)
            requires
                0 <= per * sessions,
                1 <= inten;
    }
    let v: i128 = per * sessions * inten / (80 + diff * 3);
    let w: i128 = if v < 1 { 1 } else { v };
    if w > i64::MAX as i128 { i64::MAX } else { w as i64 }
}

/// The plan after a month of work that keeps the disciple at home: one
/// month less, dropped when none remains; `None` when there is no plan.
pub open spec fn next_plan(plan: Option<ActionPlan>) -> Option<Option<ActionPlan>> {
    match plan {
        Some(p) => {
            let n = ActionPlan { remaining_months: (p.remaining_months - 1) as i32, ..p };
            Some(if n.remaining_months > 0 { Some(n) } else { None })
        },
        None => None,
    }
}

fn settle_local_plan(d: &Disciple) -> (r: Option<Option<ActionPlan>>)
    requires
        d.action matches Some(p) ==> p.remaining_months > i32::MIN,
    ensures
        r == next_plan(d.action),
{
    match d.action {
        Some(p) => {
            let n = ActionPlan { remaining_months: p.remaining_months - 1, ..p };
            Some(if n.remaining_months > 0 { Some(n) } else { None })
        },
        None => None,
    }
}

/// A plan whose months can be counted down.
pub open spec fn plan_counts(d: Disciple) -> bool {
    d.action matches Some(p) ==> p.remaining_months > i32::MIN
}

/// One side of a pair: the disciple, whether it belongs to the player's
/// sect, and its hall's practice effectiveness in percent.
pub struct PairActor {
    pub disciple: Disciple,
    pub player: bool,
    pub practice_effectiveness: i32,
}

/// What one member of a pair comes away with.
pub struct PairShare {
    pub strain: Strain,
    pub training: Training,
    pub plan: Option<Option<ActionPlan>>,
}

/// What a pair's month comes to: both members' shares and the line told.
pub struct PairResult {
    pub first: PairShare,
    pub second: PairShare,
    pub player: bool,
    pub line: String,
}

/// The teaching of `art` (its name `art_name`, difficulty `difficulty`) by
/// `teacher` to `student`: the student gains the experience of intensity
/// 105 and the teacher's lead in the art (up to 80) at its intelligence,
/// the teacher that of intensity 25, each at its hall's effectiveness and
/// raised by the teacher's department; the teacher spends 7 spirit and the
/// student 9; both plans count down. A line of the player's sect tells the
/// gains; another sect's tells only the lesson.
pub open spec fn taught(
    teacher: PairActor,
    student: PairActor,
    art: Seq<char>,
    art_name: Seq<char>,
    difficulty: int,
    r: PairResult,
) -> bool {
    let t = teacher.disciple;
    let s = student.disciple;
    let lead = spec_skill_level(t, art) - spec_skill_level(s, art);
    let gap = if lead < 0 { 0 } else if lead > 80 { 80 } else { lead };
    let bonus = spec_department_bonus(t.department, ActionKind::Teach);
    let gain = spec_department_experience(
        spec_scale_experience(
            spec_skill_experience(spec_skill_level(s, art), difficulty, s.aptitudes.intelligence as int, 105 + gap),
            student.practice_effectiveness as int,
        ),
        bonus,
    );
    let teacher_gain = spec_department_experience(
        spec_scale_experience(
            spec_skill_experience(spec_skill_level(t, art), difficulty, t.aptitudes.intelligence as int, 25),
            teacher.practice_effectiveness as int,
        ),
        bonus,
    );
    let player = teacher.player || student.player;
    &&& r.first.strain == Strain { spirit: -7i32, ..calm() }
    &&& r.second.strain == Strain { spirit: -9i32, ..calm() }
    &&& r.first.training.art@ == art && r.first.training.gain == teacher_gain
    &&& r.second.training.art@ == art && r.second.training.gain == gain
    &&& r.first.plan == next_plan(t.action)
    &&& r.second.plan == next_plan(s.action)
    &&& r.player == player
    &&& r.line@ == if player {
        t.name@ + "向"@ + s.name@ + "传授"@ + art_name + "，彼此印证；"@ + art_name + "经验 +"@ + int_text(gain) + "，"@ + art_name
            + "经验 +"@ + int_text(teacher_gain) + "。"@
    } else {
        t.name@ + "向"@ + s.name@ + "传授"@ + art_name + "，师徒在堂中反复拆解招式。"@
    }
}

/// One side of a spar: its own art (level `mine`, the other's `theirs`,
/// difficulty `difficulty`), funded when it holds at least 1 private silver
/// (halving the experience, at least 1, otherwise); the experience of
/// intensity 90 and the other's lead (up to 50) at the mean of strength and
/// agility, at its hall's effectiveness and raised by its department; it
/// pays the silver, spends `qi` qi and 6 energy, and gains 18 and half the
/// other's lead (held to `-10..=30`) in attainment, raised by its department.
pub open spec fn spar_share(a: PairActor, mine: int, theirs: int, difficulty: int, qi: int, share: PairShare) -> bool {
    let d = a.disciple;
    let funded = d.personal_silver >= 1;
    let lead = theirs - mine;
    let raw = spec_skill_experience(
        mine,
        difficulty,
        (d.aptitudes.strength + d.aptitudes.agility) / 2,
        90 + (if lead < 0 { 0 } else if lead > 50 { 50 } else { lead }),
    );
    let halved = if funded { raw } else { if raw / 2 < 1 { 1 } else { raw / 2 } };
    let bonus = spec_department_bonus(d.department, ActionKind::Spar);
    let gain = spec_department_experience(spec_scale_experience(halved, a.practice_effectiveness as int), bonus);
    let edge = if lead < -10 { -10 } else if lead > 30 { 30 } else { lead };
    &&& share.strain == Strain {
        personal_silver: if funded { -1i32 } else { 0i32 },
        qi: -qi as i32,
        energy: -6i32,
        attainment: spec_department_experience(18 + crate::country::trunc_div(edge, 2), bonus) as i64,
        ..calm()
    }
    &&& share.training.art@ == d.martial_art@ && share.training.gain == gain
    &&& share.plan == next_plan(d.action)
}

/// The spar of `first` and `second`, each in its own art (names `name_a`,
/// `name_b`; difficulties `diff_a`, `diff_b`), with qi costs `qa` and `qb`
/// (`5..=10`); see `spar_share`. A line of the player's sect tells the
/// gains; another sect's tells only the bout.
pub open spec fn sparred(
    first: PairActor,
    second: PairActor,
    name_a: Seq<char>,
    name_b: Seq<char>,
    diff_a: int,
    diff_b: int,
    qa: int,
    qb: int,
    r: PairResult,
) -> bool {
    let la = spec_skill_level(first.disciple, first.disciple.martial_art@);
    let lb = spec_skill_level(second.disciple, second.disciple.martial_art@);
    let player = first.player || second.player;
    &&& 5 <= qa <= 10 && 5 <= qb <= 10
    &&& spar_share(first, la, lb, diff_a, qa, r.first)
    &&& spar_share(second, lb, la, diff_b, qb, r.second)
    &&& r.player == player
    &&& r.line@ == if player {
        first.disciple.name@ + "与"@ + second.disciple.name@ + "在演武场切磋，"@ + name_a + "经验 +"@ + int_text(r.first.training.gain as int)
            + "，"@ + name_b + "经验 +"@ + int_text(r.second.training.gain as int) + "。"@
    } else {
        first.disciple.name@ + "与"@ + second.disciple.name@ + "在演武场切磋，"@ + "各展所长，引来同门围观。"@
    }
}

/// A pair that can be reckoned with: plans that can be counted down.
pub open spec fn pair_ready(a: PairActor, b: PairActor) -> bool {
    plan_counts(a.disciple) && plan_counts(b.disciple)
}

/// Whether a pair teaches or spars.
#[derive(Clone, Copy, Debug, PartialEq, Eq, Structural)]
pub enum PairKind {
    Teach,
    Spar,
}

/// A pair's month: for teaching, `first` teaches `second` the art `art`;
/// for sparring, each fights in its own art. `art_name` and `art_difficulty`
/// are the catalog's name and difficulty of the taught art (teaching) or of
/// the first's art (sparring); `second_art_name` and
/// `second_art_difficulty` those of the second's art (sparring).
pub struct PairJob {
    pub kind: PairKind,
    pub first: PairActor,
    pub second: PairActor,
    pub art: String,
    pub art_name: String,
    pub art_difficulty: i32,
    pub second_art_name: String,
    pub second_art_difficulty: i32,
}

/// What `execute_pair` does with the qi costs `qa` and `qb` of a spar (see
/// `taught` and `sparred`).
pub open spec fn pair_settled(job: PairJob, qa: int, qb: int, r: PairResult) -> bool {
    match job.kind {
        PairKind::Teach => taught(job.first, job.second, job.art@, job.art_name@, job.art_difficulty as int, r),
        PairKind::Spar => sparred(
            job.first,
            job.second,
            job.art_name@,
            job.second_art_name@,
            job.art_difficulty as int,
            job.second_art_difficulty as int,
            qa,
            qb,
            r,
        ),
    }
}

proof fn lemma_gain_nonnegative(v: int, e: int, bonus: int)
    requires
        v >= 1,
    ensures
        spec_department_experience(spec_scale_experience(v, e), bonus) >= 0,
{
    let x = spec_scale_experience(v, e);
    let pe = if e < 0 { 0int } else { e };
    assert(v * pe >= 0) by (nonlinear_arith)
        requires
            v >= 1,
            pe >= 0;
    assert(x >= 0);
}

fn teach(job: &PairJob) -> (r: PairResult)
    requires
        job.kind == PairKind::Teach,
        pair_ready(job.first, job.second),
    ensures
        pair_settled(*job, 0, 0, r),
{
    let t = &job.first.disciple;
    let s = &job.second.disciple;
    let art = job.art.as_str();
    let tl = skill_level(t, art);
    let sl = skill_level(s, art);
    let lead: i64 = tl as i64 - sl as i64;
    let gap: i32 = if lead < 0 { 0 } else if lead > 80 { 80 } else { lead as i32 };
    let raw = skill_experience(sl, job.art_difficulty, s.aptitudes.intelligence, 105 + gap);
    let gain = scale_department_experience(scale_experience(raw, job.second.practice_effectiveness), t, ActionKind::Teach);
    let traw = skill_experience(tl, job.art_difficulty, t.aptitudes.intelligence, 25);
    let teacher_gain = scale_department_experience(scale_experience(traw, job.first.practice_effectiveness), t, ActionKind::Teach);
    proof {
        let bonus = spec_department_bonus(t.department, ActionKind::Teach);
        lemma_gain_nonnegative(raw as int, job.second.practice_effectiveness as int, bonus);
        lemma_gain_nonnegative(traw as int, job.first.practice_effectiveness as int, bonus);
    }
    let player = job.first.player || job.second.player;
    let name = job.art_name.as_str();
    let mut line = t.name.clone();
    line.append("向");
    line.append(s.name.as_str());
    line.append("传授");
    line.append(name);
    if player {
        line.append("，彼此印证；");
        line.append(name);
        line.append("经验 +");
        line.append(int_string(gain).as_str());
        line.append("，");
        line.append(name);
        line.append("经验 +");
        line.append(int_string(teacher_gain).as_str());
        line.append("。");
    } else {
        line.append("，师徒在堂中反复拆解招式。");
    }
    let mut ts = no_strain();
    ts.spirit = -7;
    let mut ss = no_strain();
    ss.spirit = -9;
    PairResult {
        first: PairShare { strain: ts, training: Training { art: job.art.clone(), gain: teacher_gain }, plan: settle_local_plan(t) },
        second: PairShare { strain: ss, training: Training { art: job.art.clone(), gain }, plan: settle_local_plan(s) },
        player,
        line,
    }
}

fn spar_side(a: &PairActor, mine: i32, theirs: i32, difficulty: i32, qi: i32) -> (share: PairShare)
    requires
        5 <= qi <= 10,
        plan_counts(a.disciple),
    ensures
        spar_share(*a, mine as int, theirs as int, difficulty as int, qi as int, share),
        share.training.gain >= 0,
{
    let d = &a.disciple;
    let funded = d.personal_silver >= 1;
    let lead: i64 = theirs as i64 - mine as i64;
    let extra: i32 = if lead < 0 { 0 } else if lead > 50 { 50 } else { lead as i32 };
    let apt: i32 = ((d.aptitudes.strength as i64 + d.aptitudes.agility as i64) / 2) as i32;
    let raw = skill_experience(mine, difficulty, apt, 90 + extra);
    let halved: i64 = if funded { raw } else { if raw / 2 < 1 { 1 } else { raw / 2 } };
    let gain = scale_department_experience(scale_experience(halved, a.practice_effectiveness), d, ActionKind::Spar);
    proof {
        lemma_gain_nonnegative(halved as int, a.practice_effectiveness as int, spec_department_bonus(d.department, ActionKind::Spar));
    }
    let edge: i64 = if lead < -10 { -10 } else if lead > 30 { 30 } else { lead };
    let att = scale_department_experience(18 + edge / 2, d, ActionKind::Spar);
    let mut st = no_strain();
    st.personal_silver = if funded { -1 } else { 0 };
    st.qi = -qi;
    st.energy = -6;
    st.attainment = att;
    PairShare { strain: st, training: Training { art: d.martial_art.clone(), gain }, plan: settle_local_plan(d) }
}

fn spar(rng: &mut StdRng, job: &PairJob) -> (r: (PairResult, Ghost<(int, int)>))
    requires
        job.kind == PairKind::Spar,
        pair_ready(job.first, job.second),
    ensures
        pair_settled(*job, r.1@.0, r.1@.1, r.0),
{
    let a = &job.first;
    let b = &job.second;
    let la = skill_level(&a.disciple, a.disciple.martial_art.as_str());
    let lb = skill_level(&b.disciple, b.disciple.martial_art.as_str());
    let qa = rand_range(rng, 5, 10);
    let qb = rand_range(rng, 5, 10);
    let first = spar_side(a, la, lb, job.art_difficulty, qa);
    let second = spar_side(b, lb, la, job.second_art_difficulty, qb);
    let player = a.player || b.player;
    let mut line = a.disciple.name.clone();
    line.append("与");
    line.append(b.disciple.name.as_str());
    line.append("在演武场切磋，");
    let ghost head = line@;
    if player {
        line.append(job.art_name.as_str());
        line.append("经验 +");
        line.append(int_string(first.training.gain).as_str());
        line.append("，");
        line.append(job.second_art_name.as_str());
        line.append("经验 +");
        line.append(int_string(second.training.gain).as_str());
        line.append("。");
    } else {
        line.append("各展所长，引来同门围观。");
    }
    let r = PairResult { first, second, player, line };
    proof {
        assert(spar_share(job.first, la as int, lb as int, job.art_difficulty as int, qa as int, r.first));
        assert(spar_share(job.second, lb as int, la as int, job.second_art_difficulty as int, qb as int, r.second));
        if player {
            assert(r.line@ =~= head + job.art_name@ + "经验 +"@ + int_text(r.first.training.gain as int) + "，"@ + job.second_art_name@
                + "经验 +"@ + int_text(r.second.training.gain as int) + "。"@);
        } else {
            assert(r.line@ =~= head + "各展所长，引来同门围观。"@);
        }
        assert(sparred(job.first, job.second, job.art_name@, job.second_art_name@, job.art_difficulty as int, job.second_art_difficulty as int, qa as int, qb as int, r));
    }
    (r, Ghost((qa as int, qb as int)))
}

/// A pair's month (see `pair_settled`): a lesson, or a spar whose qi costs
/// are drawn from `5..=10` for each side. Returns both members' shares and
/// the line told; the caller applies them.
pub fn execute_pair(rng: &mut StdRng, job: &PairJob) -> (r: PairResult)
    requires
        pair_ready(job.first, job.second),
    ensures
        exists|qa: int, qb: int| #[trigger] pair_settled(*job, qa, qb, r),
{
    match job.kind {
        PairKind::Teach => {
            let r = teach(job);
            proof {
                assert(pair_settled(*job, 0, 0, r));
            }
            r
        },
        PairKind::Spar => {
            let (r, g) = spar(rng, job);
            proof {
                assert(pair_settled(*job, g@.0, g@.1, r));
            }
            r
        },
    }
}

/// One disciple working alone: the disciple, whether it belongs to the
/// player's sect, its sect's recovery bonus and hall effectiveness (in
/// percent) for practice, the scriptures, the warehouse, the herb hall and
/// logistics, the market's percent, from its plan the building it was sent
/// to and who sent it, and what the catalog makes of its cultivation.
pub struct SoloActor {
    pub disciple: Disciple,
    pub player: bool,
    pub recovery_bonus: i32,
    pub practice_effectiveness: i32,
    pub scripture_effectiveness: i32,
    pub warehouse_effectiveness: i32,
    pub herb_hall_effectiveness: i32,
    pub logistics_effectiveness: i32,
    pub market_percent: i32,
    pub target_id: Option<String>,
    pub assigned_by: Option<String>,
    pub cultivation: Cultivation,
}

/// What the catalog makes of a disciple's inner cultivation: its effective
/// inner-force level, the inner force its inner art can hold, its effective
/// constitution, the shown name of its inner art, its knowledge level, the
/// energy its knowledge can hold, and its effective intelligence.
pub struct Cultivation {
    pub force_level: i32,
    pub neili_cap: i32,
    pub constitution: i32,
    pub inner_art_name: String,
    pub knowledge_level: i32,
    pub energy_cap: i32,
    pub intelligence: i32,
}

/// What a month's work brings the sect: silver, grain, herbs and iron, and
/// maintenance or building work on a hall.
#[derive(Clone, Copy, Debug, PartialEq, Eq, Structural)]
pub struct SectYield {
    pub silver: i32,
    pub grain: i32,
    pub herbs: i32,
    pub iron: i32,
    pub maintenance: i32,
    pub construction: i32,
}

/// Nothing for the sect.
pub open spec fn no_yield() -> SectYield {
    SectYield { silver: 0, grain: 0, herbs: 0, iron: 0, maintenance: 0, construction: 0 }
}

/// The work a disciple can do alone without the martial-arts catalog.
#[derive(Clone, Copy, Debug, PartialEq, Eq, Structural)]
pub enum SoloKind {
    TemperBody,
    CultivateNeili,
    Meditate,
    Recover,
    Maintain,
    Construct,
    Produce,
    Business,
    Gather,
}

/// What a lone disciple's month comes to: its strain, the sect's yield,
/// the hall worked on (maintenance or building), its plan, and the line
/// told.
pub struct SoloResult {
    pub strain: Strain,
    pub sect: SectYield,
    pub work_target: Option<String>,
    pub plan: Option<Option<ActionPlan>>,
    pub player: bool,
    pub line: String,
}

/// The words another sect's chronicle uses for a lone disciple's month.
pub open spec fn npc_deed(kind: SoloKind) -> Seq<char> {
    match kind {
        SoloKind::TemperBody => "在山中打熬筋骨，风雨无阻"@,
        SoloKind::CultivateNeili => "静坐运功，潜心锤炼内息"@,
        SoloKind::Meditate => "焚香澄心，参悟门中学问"@,
        SoloKind::Recover => "留在门中调息静养，气色渐复"@,
        SoloKind::Maintain => "巡检门中梁柱瓦石，料理修缮"@,
        SoloKind::Construct => "随众营造堂舍，终日未歇"@,
        SoloKind::Produce => "操持门中生产，将所得收入库中"@,
        SoloKind::Business => "下山经营世俗产业，带回一批收益"@,
        SoloKind::Gather => "入山寻药采集，满载而归"@,
    }
}

fn npc_deed_text(kind: SoloKind) -> (r: &'static str)
    ensures
        r@ == npc_deed(kind),
{
    match kind {
        SoloKind::TemperBody => "在山中打熬筋骨，风雨无阻",
        SoloKind::CultivateNeili => "静坐运功，潜心锤炼内息",
        SoloKind::Meditate => "焚香澄心，参悟门中学问",
        SoloKind::Recover => "留在门中调息静养，气色渐复",
        SoloKind::Maintain => "巡检门中梁柱瓦石，料理修缮",
        SoloKind::Construct => "随众营造堂舍，终日未歇",
        SoloKind::Produce => "操持门中生产，将所得收入库中",
        SoloKind::Business => "下山经营世俗产业，带回一批收益",
        SoloKind::Gather => "入山寻药采集，满载而归",
    }
}

/// The action kind a lone work is.
pub open spec fn solo_action(kind: SoloKind) -> ActionKind {
    match kind {
        SoloKind::TemperBody => ActionKind::TemperBody,
        SoloKind::CultivateNeili => ActionKind::CultivateNeili,
        SoloKind::Meditate => ActionKind::Meditate,
        SoloKind::Recover => ActionKind::Recover,
        SoloKind::Maintain => ActionKind::Maintain,
        SoloKind::Construct => ActionKind::Construct,
        SoloKind::Produce => ActionKind::Produce,
        SoloKind::Business => ActionKind::Business,
        SoloKind::Gather => ActionKind::Gather,
    }
}

fn action_of(kind: SoloKind) -> (r: ActionKind)
    ensures
        r == solo_action(kind),
{
    match kind {
        SoloKind::TemperBody => ActionKind::TemperBody,
        SoloKind::CultivateNeili => ActionKind::CultivateNeili,
        SoloKind::Meditate => ActionKind::Meditate,
        SoloKind::Recover => ActionKind::Recover,
        SoloKind::Maintain => ActionKind::Maintain,
        SoloKind::Construct => ActionKind::Construct,
        SoloKind::Produce => ActionKind::Produce,
        SoloKind::Business => ActionKind::Business,
        SoloKind::Gather => ActionKind::Gather,
    }
}

/// An output at a hall's effectiveness, raised by the disciple's department
/// for the kind of work.
pub open spec fn hall_output(d: Disciple, kind: SoloKind, base: int, effectiveness: int) -> int {
    spec_department_output(spec_scale_output(base, effectiveness), spec_department_bonus(d.department, solo_action(kind)))
}

/// The disciple was sent by the warehouse.
pub open spec fn sent_by_warehouse(a: SoloActor) -> bool {
    a.assigned_by matches Some(x) && x@ == "building:warehouse"@
}

/// The iron chance of gathering: 35 in 100 at full herb-hall effectiveness,
/// scaled by it and at most certain, in ten-thousandths.
pub open spec fn iron_odds(effectiveness: int) -> int {
    let e = if effectiveness < 0 { 0 } else { effectiveness };
    if 35 * e > 10000 { 10000 } else { 35 * e }
}

/// The strain, yield and line of the player's sect for a lone disciple's
/// month of `kind`, with the draw `roll` (business: `0..=12`; gathering: 1
/// when iron was found).
pub open spec fn solo_yield(a: SoloActor, kind: SoloKind, roll: int) -> (Strain, SectYield, Seq<char>) {
    let d = a.disciple;
    let apt = d.aptitudes;
    let name = d.name@;
    match kind {
        SoloKind::Recover => {
            let m = 100 + a.recovery_bonus as int;
            (
                Strain {
                    qi: sat32(trunc_div((16 + trunc_div(apt.constitution as int, 3)) * m, 100)) as i32,
                    spirit: sat32(trunc_div((16 + trunc_div(apt.intelligence as int, 3)) * m, 100)) as i32,
                    neili: sat32(trunc_div(6 * m, 100)) as i32,
                    energy: sat32(trunc_div(8 * m, 100)) as i32,
                    ..calm()
                },
                no_yield(),
                name + "在门中调息静养，气色渐复。"@,
            )
        },
        SoloKind::TemperBody => {
            let funded = d.personal_silver >= 1;
            let g0 = 2 + trunc_div(apt.constitution as int, 12);
            let g1 = if funded { g0 } else { if trunc_div(g0, 2) < 1 { 1 } else { trunc_div(g0, 2) } };
            let gain = hall_output(d, kind, g1, a.practice_effectiveness as int);
            (
                Strain { qi: -11i32, energy: -5i32, qi_max: gain as i32, personal_silver: if funded { -1i32 } else { 0i32 }, ..calm() },
                no_yield(),
                name + "打熬筋骨，气血上限添了"@ + int_text(gain) + "点。"@,
            )
        },
        SoloKind::CultivateNeili => {
            let c = a.cultivation;
            let level = if c.force_level < 1 { 1 } else { c.force_level as int };
            let nmax = d.attributes.neili.maximum as int;
            let room = if c.neili_cap - nmax < 0 { 0 } else { c.neili_cap - nmax };
            let at_cap = nmax >= c.neili_cap;
            let ready = sat32(d.attributes.spirit.current * 10) >= sat32(d.attributes.spirit.maximum * 7);
            let budget = sat32(d.attributes.qi.current - 1);
            let want = 10 + trunc_div(c.constitution as int, 4);
            let cost = if at_cap || !ready { 0 } else if want < budget { want } else { budget };
            let x = 1 + trunc_div(level, 80) + trunc_div(apt.constitution as int, 25);
            let g0 = if !at_cap && cost >= 10 { if x < room { x } else { room } } else { 0 };
            let funded = d.personal_silver >= 1;
            let g1 = if funded { g0 } else if g0 > 0 { if trunc_div(g0, 2) < 1 { 1 } else { trunc_div(g0, 2) } } else { 0 };
            let g2 = hall_output(d, kind, g1, a.practice_effectiveness as int);
            let gain = if g2 < room { g2 } else { room };
            (
                Strain {
                    qi: (-cost) as i32,
                    neili_max: gain as i32,
                    neili: gain as i32,
                    personal_silver: if funded { -1i32 } else { 0i32 },
                    ..calm()
                },
                no_yield(),
                if at_cap {
                    name + "盘膝打坐，但现有内力已达到"@ + c.inner_art_name@ + "所能承载的修炼上限。"@
                } else if !ready {
                    name + "心神不宁，精神不足七成，只得暂缓打坐。"@
                } else if cost < 10 {
                    name + "气血不济，打坐片刻便只得收功。"@
                } else if gain > 0 {
                    name + "打坐修炼，以"@ + int_text(cost) + "点气血炼化真气，内力精进，上限 +"@ + int_text(gain) + "。"@
                } else {
                    name + "盘膝打坐，却觉内功修为已遇瓶颈。"@
                },
            )
        },
        SoloKind::Meditate => {
            let c = a.cultivation;
            let know = if c.knowledge_level < 1 { 1 } else { c.knowledge_level as int };
            let emax = d.attributes.energy.maximum as int;
            let room = if c.energy_cap - emax < 0 { 0 } else { c.energy_cap - emax };
            let at_cap = emax >= c.energy_cap;
            let ready = sat32(d.attributes.qi.current * 10) >= sat32(d.attributes.qi.maximum * 7);
            let budget = sat32(d.attributes.spirit.current - 1);
            let want = 10 + trunc_div(c.intelligence as int, 4);
            let cost = if at_cap || !ready { 0 } else if want < budget { want } else { budget };
            let x = 1 + trunc_div(know, 100) + trunc_div(c.intelligence as int, 30);
            let g0 = if !at_cap && cost >= 10 { if x < room { x } else { room } } else { 0 };
            let g2 = hall_output(d, kind, g0, a.scripture_effectiveness as int);
            let gain = if g2 < room { g2 } else { room };
            (
                Strain { spirit: (-cost) as i32, energy_max: gain as i32, energy: gain as i32, ..calm() },
                no_yield(),
                if at_cap {
                    name + "澄心冥想，但现有精力已达到知识修为上限。"@
                } else if !ready {
                    name + "气血未复七成，难以久坐存神，只得暂缓冥想。"@
                } else if cost < 10 {
                    name + "精神不济，冥想片刻便难以为继。"@
                } else if gain > 0 {
                    name + "澄心冥想，以"@ + int_text(cost) + "点精神凝炼心神，精力上限添了"@ + int_text(gain) + "点。"@
                } else {
                    name + "澄心冥想，却觉精力修为已遇瓶颈。"@
                },
            )
        },
        SoloKind::Maintain => {
            let work = hall_output(d, kind, 6 + trunc_div(apt.strength as int, 6), a.logistics_effectiveness as int);
            (
                Strain { energy: -8i32, merit: 3i64, ..calm() },
                SectYield { maintenance: work as i32, ..no_yield() },
                name + "巡检梁柱瓦石，投入了"@ + int_text(work) + "点维护工作。"@,
            )
        },
        SoloKind::Construct => {
            let work = hall_output(d, kind, 8 + trunc_div(apt.strength as int, 5), a.logistics_effectiveness as int);
            (
                Strain { qi: -5i32, energy: -10i32, merit: 5i64, ..calm() },
                SectYield { construction: work as i32, ..no_yield() },
                name + "参与营造，完成了"@ + int_text(work) + "点建造工作。"@,
            )
        },
        SoloKind::Produce => {
            let q = hall_output(d, kind, 6 + trunc_div(apt.constitution as int, 5), a.warehouse_effectiveness as int);
            let sent = sent_by_warehouse(a);
            (
                Strain { energy: -7i32, merit: 2i64, personal_silver: if sent { 3i32 } else { 0i32 }, ..calm() },
                SectYield { grain: q as i32, ..no_yield() },
                if sent {
                    name + "整理仓中账物，入库粮秣"@ + int_text(q) + "份，并得私银3两。"@
                } else {
                    name + "操持门中生产，入库粮秣"@ + int_text(q) + "份。"@
                },
            )
        },
        SoloKind::Business => {
            let silver = spec_scale_positive(
                hall_output(d, kind, 10 + trunc_div(apt.intelligence as int, 2) + roll, a.warehouse_effectiveness as int),
                a.market_percent as int,
            );
            let sent = sent_by_warehouse(a);
            (
                Strain { merit: 3i64, personal_silver: if sent { 5i32 } else { 0i32 }, ..calm() },
                SectYield { silver: silver as i32, ..no_yield() },
                if sent {
                    name + "为仓库采买，带回库银"@ + int_text(silver) + "两，并得私银5两。"@
                } else {
                    name + "下山经营世俗产业，带回库银"@ + int_text(silver) + "两。"@
                },
            )
        },
        SoloKind::Gather => {
            let herbs = hall_output(d, kind, 2 + trunc_div(apt.fortune as int, 8), a.herb_hall_effectiveness as int);
            (
                Strain { energy: -6i32, merit: 3i64, ..calm() },
                SectYield { herbs: herbs as i32, iron: roll as i32, ..no_yield() },
                name + "入山采集，带回草药"@ + int_text(herbs) + "份。"@,
            )
        },
    }
}

/// What `execute_solo` does with the draw `roll`: the draw is in range for
/// the kind (none but for business and gathering; gathering finds iron
/// never at zero odds and surely at full odds, see `iron_odds`); the strain
/// and yield are `solo_yield`'s; maintenance and building go to the hall the
/// disciple was sent to, or the logistics hall; the plan counts down; the
/// player's sect hears `solo_yield`'s line, another sect's chronicle only the
/// deed.
pub open spec fn solo_settled(a: SoloActor, kind: SoloKind, roll: int, r: SoloResult) -> bool {
    let (strain, sect, line) = solo_yield(a, kind, roll);
    &&& match kind {
        SoloKind::Business => 0 <= roll <= 12,
        SoloKind::Gather => (roll == 0 || roll == 1)
            && (iron_odds(a.herb_hall_effectiveness as int) == 0 ==> roll == 0)
            && (iron_odds(a.herb_hall_effectiveness as int) == 10000 ==> roll == 1),
        _ => roll == 0,
    }
    &&& r.strain == strain
    &&& r.sect == sect
    &&& crate::lineage::opt_text(r.work_target) == (if kind == SoloKind::Maintain || kind == SoloKind::Construct {
        Some(match a.target_id {
            Some(t) => t@,
            None => "logistics"@,
        })
    } else {
        None
    })
    &&& r.plan == next_plan(a.disciple.action)
    &&& r.player == a.player
    &&& r.line@ == if a.player { line } else { a.disciple.name@ + npc_deed(kind) + "。"@ }
}

fn hall_work(d: &Disciple, kind: SoloKind, base: i32, effectiveness: i32) -> (r: i32)
    ensures
        r == hall_output(*d, kind, base as int, effectiveness as int),
{
    scale_department_output(scale_output(base, effectiveness), d, action_of(kind))
}

fn sent_by_the_warehouse(a: &SoloActor) -> (r: bool)
    ensures
        r == sent_by_warehouse(*a),
{
    match &a.assigned_by {
        Some(x) => text_eq(x.as_str(), "building:warehouse"),
        None => false,
    }
}

fn named(d: &Disciple, parts: &str) -> (r: String)
    ensures
        r@ == d.name@ + parts@,
{
    let mut r = d.name.clone();
    r.append(parts);
    r
}

fn with_number(mut line: String, n: i32, tail: &str) -> (r: String)
    ensures
        r@ == line@ + int_text(n as int) + tail@,
{
    line.append(int_string(n as i64).as_str());
    line.append(tail);
    line
}

/// The vitals of a lone disciple leave room for a month's cost within `i32`.
pub open spec fn solo_fits(a: SoloActor) -> bool {
    a.disciple.attributes.qi.current > i32::MIN + 1 && a.disciple.attributes.spirit.current > i32::MIN + 1
}

fn cultivate(a: &SoloActor) -> (r: (Strain, String))
    requires
        solo_fits(*a),
    ensures
        (r.0, no_yield(), r.1@) == solo_yield(*a, SoloKind::CultivateNeili, 0),
{
    let d = &a.disciple;
    let c = &a.cultivation;
    let apt = d.aptitudes;
    let level: i64 = if c.force_level < 1 { 1 } else { c.force_level as i64 };
    let nmax: i64 = d.attributes.neili.maximum as i64;
    let room: i64 = if c.neili_cap as i64 - nmax < 0 { 0 } else { c.neili_cap as i64 - nmax };
    let at_cap = nmax >= c.neili_cap as i64;
    let ready = clamp_i64_to_i32(d.attributes.spirit.current as i64 * 10) >= clamp_i64_to_i32(d.attributes.spirit.maximum as i64 * 7);
    let budget: i64 = clamp_i64_to_i32(d.attributes.qi.current as i64 - 1) as i64;
    let want: i64 = 10 + (c.constitution / 4) as i64;
    let cost: i64 = if at_cap || !ready { 0 } else if want < budget { want } else { budget };
    let x: i64 = 1 + level / 80 + (apt.constitution / 25) as i64;
    let g0: i64 = if !at_cap && cost >= 10 { if x < room { x } else { room } } else { 0 };
    let funded = d.personal_silver >= 1;
    let g1: i64 = if funded { g0 } else if g0 > 0 { if g0 / 2 < 1 { 1 } else { g0 / 2 } } else { 0 };
    let g2 = hall_work(d, SoloKind::CultivateNeili, g1 as i32, a.practice_effectiveness);
    let gain: i64 = if (g2 as i64) < room { g2 as i64 } else { room };
    let mut st = no_strain();
    st.qi = (0 - cost) as i32;
    st.neili_max = gain as i32;
    st.neili = gain as i32;
    st.personal_silver = if funded { -1 } else { 0 };
    let line = if at_cap {
        let mut t = named(d, "盘膝打坐，但现有内力已达到");
        t.append(c.inner_art_name.as_str());
        t.append("所能承载的修炼上限。");
        t
    } else if !ready {
        named(d, "心神不宁，精神不足七成，只得暂缓打坐。")
    } else if cost < 10 {
        named(d, "气血不济，打坐片刻便只得收功。")
    } else if gain > 0 {
        let mut t = named(d, "打坐修炼，以");
        t.append(int_string(cost).as_str());
        t.append("点气血炼化真气，内力精进，上限 +");
        t.append(int_string(gain).as_str());
        t.append("。");
        t
    } else {
        named(d, "盘膝打坐，却觉内功修为已遇瓶颈。")
    };
    (st, line)
}

fn meditate(a: &SoloActor) -> (r: (Strain, String))
    requires
        solo_fits(*a),
    ensures
        (r.0, no_yield(), r.1@) == solo_yield(*a, SoloKind::Meditate, 0),
{
    let d = &a.disciple;
    let c = &a.cultivation;
    let know: i64 = if c.knowledge_level < 1 { 1 } else { c.knowledge_level as i64 };
    let emax: i64 = d.attributes.energy.maximum as i64;
    let room: i64 = if c.energy_cap as i64 - emax < 0 { 0 } else { c.energy_cap as i64 - emax };
    let at_cap = emax >= c.energy_cap as i64;
    let ready = clamp_i64_to_i32(d.attributes.qi.current as i64 * 10) >= clamp_i64_to_i32(d.attributes.qi.maximum as i64 * 7);
    let budget: i64 = clamp_i64_to_i32(d.attributes.spirit.current as i64 - 1) as i64;
    let want: i64 = 10 + (c.intelligence / 4) as i64;
    let cost: i64 = if at_cap || !ready { 0 } else if want < budget { want } else { budget };
    let x: i64 = 1 + know / 100 + (c.intelligence / 30) as i64;
    let g0: i64 = if !at_cap && cost >= 10 { if x < room { x } else { room } } else { 0 };
    let g2 = hall_work(d, SoloKind::Meditate, g0 as i32, a.scripture_effectiveness);
    let gain: i64 = if (g2 as i64) < room { g2 as i64 } else { room };
    let mut st = no_strain();
    st.spirit = (0 - cost) as i32;
    st.energy_max = gain as i32;
    st.energy = gain as i32;
    let line = if at_cap {
        named(d, "澄心冥想，但现有精力已达到知识修为上限。")
    } else if !ready {
        named(d, "气血未复七成，难以久坐存神，只得暂缓冥想。")
    } else if cost < 10 {
        named(d, "精神不济，冥想片刻便难以为继。")
    } else if gain > 0 {
        let mut t = named(d, "澄心冥想，以");
        t.append(int_string(cost).as_str());
        t.append("点精神凝炼心神，精力上限添了");
        t.append(int_string(gain).as_str());
        t.append("点。");
        t
    } else {
        named(d, "澄心冥想，却觉精力修为已遇瓶颈。")
    };
    (st, line)
}

fn solo_work(rng: &mut StdRng, a: &SoloActor, kind: SoloKind) -> (r: (Strain, SectYield, String, Ghost<int>))
    requires
        solo_fits(*a),
    ensures
        (r.0, r.1, r.2@) == solo_yield(*a, kind, r.3@),
        match kind {
            SoloKind::Business => 0 <= r.3@ <= 12,
            SoloKind::Gather => (r.3@ == 0 || r.3@ == 1)
                && (iron_odds(a.herb_hall_effectiveness as int) == 0 ==> r.3@ == 0)
                && (iron_odds(a.herb_hall_effectiveness as int) == 10000 ==> r.3@ == 1),
            _ => r.3@ == 0,
        },
{
    let d = &a.disciple;
    let apt = d.aptitudes;
    let mut st = no_strain();
    let mut y = SectYield { silver: 0, grain: 0, herbs: 0, iron: 0, maintenance: 0, construction: 0 };
    match kind {
        SoloKind::Recover => {
            let m: i64 = 100 + a.recovery_bonus as i64;
            let sat = |v: i128| -> (w: i32)
                ensures
                    w == sat32(v as int),
            {
                if v > i32::MAX as i128 { i32::MAX } else if v < i32::MIN as i128 { i32::MIN } else { v as i32 }
            };
            let qi_base: i64 = 16 + (apt.constitution / 3) as i64;
            let sp_base: i64 = 16 + (apt.intelligence / 3) as i64;
            proof {
                assert(-0x1_0000_0000 * 0x1_0000_0000 <= qi_base * m <= 0x1_0000_0000 * 0x1_0000_0000) by (nonlinear_arith)
                    requires
                        -0x1_0000_0000 <= qi_base <= 0x1_0000_0000,
                        -0x1_0000_0000 <= m <= 0x1_0000_0000;
                assert(-0x1_0000_0000 * 0x1_0000_0000 <= sp_base * m <= 0x1_0000_0000 * 0x1_0000_0000) by (nonlinear_arith)
                    requires
                        -0x1_0000_0000 <= sp_base <= 0x1_0000_0000,
                        -0x1_0000_0000 <= m <= 0x1_0000_0000;
            }
            st.qi = sat(qi_base as i128 * m as i128 / 100);
            st.spirit = sat(sp_base as i128 * m as i128 / 100);
            st.neili = sat(6 * m as i128 / 100);
            st.energy = sat(8 * m as i128 / 100);
            (st, y, named(d, "在门中调息静养，气色渐复。"), Ghost(0int))
        },
        SoloKind::TemperBody => {
            let funded = d.personal_silver >= 1;
            let g0: i32 = 2 + apt.constitution / 12;
            let g1: i32 = if funded { g0 } else { if g0 / 2 < 1 { 1 } else { g0 / 2 } };
            let gain = hall_work(d, kind, g1, a.practice_effectiveness);
            st.qi = -11;
            st.energy = -5;
            st.qi_max = gain;
            st.personal_silver = if funded { -1 } else { 0 };
            (st, y, with_number(named(d, "打熬筋骨，气血上限添了"), gain, "点。"), Ghost(0int))
        },
        SoloKind::CultivateNeili => {
            let (st, line) = cultivate(a);
            (st, y, line, Ghost(0int))
        },
        SoloKind::Meditate => {
            let (st, line) = meditate(a);
            (st, y, line, Ghost(0int))
        },
        SoloKind::Maintain => {
            let work = hall_work(d, kind, 6 + apt.strength / 6, a.logistics_effectiveness);
            st.energy = -8;
            st.merit = 3;
            y.maintenance = work;
            (st, y, with_number(named(d, "巡检梁柱瓦石，投入了"), work, "点维护工作。"), Ghost(0int))
        },
        SoloKind::Construct => {
            let work = hall_work(d, kind, 8 + apt.strength / 5, a.logistics_effectiveness);
            st.qi = -5;
            st.energy = -10;
            st.merit = 5;
            y.construction = work;
            (st, y, with_number(named(d, "参与营造，完成了"), work, "点建造工作。"), Ghost(0int))
        },
        SoloKind::Produce => {
            let q = hall_work(d, kind, 6 + apt.constitution / 5, a.warehouse_effectiveness);
            let sent = sent_by_the_warehouse(a);
            st.energy = -7;
            st.merit = 2;
            st.personal_silver = if sent { 3 } else { 0 };
            y.grain = q;
            let line = if sent {
                with_number(named(d, "整理仓中账物，入库粮秣"), q, "份，并得私银3两。")
            } else {
                with_number(named(d, "操持门中生产，入库粮秣"), q, "份。")
            };
            (st, y, line, Ghost(0int))
        },
        SoloKind::Business => {
            let roll = rand_range(rng, 0, 12);
            let silver = scale_positive(hall_work(d, kind, 10 + apt.intelligence / 2 + roll, a.warehouse_effectiveness), a.market_percent);
            let sent = sent_by_the_warehouse(a);
            st.merit = 3;
            st.personal_silver = if sent { 5 } else { 0 };
            y.silver = silver;
            let line = if sent {
                with_number(named(d, "为仓库采买，带回库银"), silver, "两，并得私银5两。")
            } else {
                with_number(named(d, "下山经营世俗产业，带回库银"), silver, "两。")
            };
            (st, y, line, Ghost(roll as int))
        },
        SoloKind::Gather => {
            let herbs = hall_work(d, kind, 2 + apt.fortune / 8, a.herb_hall_effectiveness);
            let e: u32 = if a.herb_hall_effectiveness < 0 { 0 } else { a.herb_hall_effectiveness as u32 };
            let odds: u32 = if e > 285 { 10000 } else if 35 * e > 10000 { 10000 } else { 35 * e };
            let found = chance(rng, odds, 10000);
            st.energy = -6;
            st.merit = 3;
            y.herbs = herbs;
            y.iron = if found { 1 } else { 0 };
            (st, y, with_number(named(d, "入山采集，带回草药"), herbs, "份。"), Ghost(if found { 1int } else { 0 }))
        },
    }
}

/// A lone disciple's month (see `solo_settled`). Returns its strain, the
/// sect's yield, the hall worked on, the plan and the line; the caller
/// applies them.
pub fn execute_solo(rng: &mut StdRng, a: &SoloActor, kind: SoloKind) -> (r: SoloResult)
    requires
        plan_counts(a.disciple),
        solo_fits(*a),
    ensures
        exists|roll: int| #[trigger] solo_settled(*a, kind, roll, r),
{
    let (strain, sect, line, roll) = solo_work(rng, a, kind);
    let work_target = if kind == SoloKind::Maintain || kind == SoloKind::Construct {
        Some(match &a.target_id {
            Some(t) => t.clone(),
            None => String::from_str("logistics"),
        })
    } else {
        None
    };
    let told = if a.player {
        line
    } else {
        let mut t = a.disciple.name.clone();
        t.append(npc_deed_text(kind));
        t.append("。");
        t
    };
    let r = SoloResult { strain, sect, work_target, plan: settle_local_plan(&a.disciple), player: a.player, line: told };
    proof {
        assert(solo_settled(*a, kind, roll@, r));
    }
    r
}

/// `after` is `before` with `q` added under `item` (the entry made when
/// missing) and every other item as it was.
pub open spec fn stock_added(before: Ledger<i32>, after: Ledger<i32>, item: Seq<char>, q: int) -> bool {
    &&& after.has(item)
    &&& after.amount(item) == before.amount(item) + q
    &&& forall|k: Seq<char>| k != item ==> (#[trigger] after.has(k) == before.has(k))
    &&& forall|k: Seq<char>| k != item && #[trigger] before.has(k) ==> after.at(k) == before.at(k)
}

/// The stores of a sect have room for a month's yield of `kind`.
pub open spec fn yield_fits(sect: SectState, kind: SoloKind, y: SectYield) -> bool {
    &&& sect.attributes.silver + y.silver <= i32::MAX
    &&& sect.inventory.amount("粮秣"@) + y.grain <= i32::MAX
    &&& sect.inventory.amount("草药"@) + y.herbs <= i32::MAX
    &&& sect.inventory.amount("精铁"@) + y.iron <= i32::MAX
    &&& 0 <= y.maintenance && 0 <= y.construction
    &&& y.silver >= 0 && y.grain >= 0 && y.herbs >= 0 && (y.iron == 0 || y.iron == 1)
    &&& forall|i: int| 0 <= i < sect.buildings@.len() ==> (#[trigger] sect.buildings@[i]).condition + y.maintenance <= i32::MAX
        && sect.buildings@[i].work_invested + y.construction <= i32::MAX
}

/// What a lone disciple's month of `kind` (result `r`) brings the sect, from
/// `before` to `after`: business adds its silver to the treasury (never below
/// 0); production adds its grain, gathering its herbs and, when found, its
/// iron to the stores; maintenance raises the condition of the first hall
/// with the worked-on id (to at most 100), building its invested work (to at
/// most the work required), and nothing when no hall has that id; other
/// work brings nothing.
pub open spec fn yield_received(before: SectState, kind: SoloKind, r: SoloResult, after: SectState) -> bool {
    let y = r.sect;
    let b = match r.work_target {
        Some(t) => building_index(before.buildings@, t@),
        None => -1,
    };
    match kind {
        SoloKind::Business => after == (SectState {
            attributes: SectAttributes {
                silver: (if before.attributes.silver + y.silver < 0 { 0 } else { before.attributes.silver + y.silver }) as i32,
                ..before.attributes
            },
            ..before
        }),
        SoloKind::Produce => {
            &&& after == (SectState { inventory: after.inventory, ..before })
            &&& stock_added(before.inventory, after.inventory, "粮秣"@, y.grain as int)
        },
        SoloKind::Gather => {
            &&& after == (SectState { inventory: after.inventory, ..before })
            &&& if y.iron > 0 {
                after.inventory.has("精铁"@) && after.inventory.amount("精铁"@) == before.inventory.amount("精铁"@) + y.iron
                    && after.inventory.has("草药"@) && after.inventory.amount("草药"@) == before.inventory.amount("草药"@) + y.herbs
                    && forall|k: Seq<char>| k != "精铁"@ && k != "草药"@ ==> (#[trigger] after.inventory.has(k) == before.inventory.has(k))
                    && forall|k: Seq<char>| k != "精铁"@ && k != "草药"@ && #[trigger] before.inventory.has(k) ==> after.inventory.at(k) == before.inventory.at(k)
            } else {
                stock_added(before.inventory, after.inventory, "草药"@, y.herbs as int)
            }
        },
        SoloKind::Maintain | SoloKind::Construct => if b < 0 {
            after == before
        } else {
            let h = before.buildings@[b];
            &&& after == (SectState { buildings: after.buildings, ..before })
            &&& after.buildings@ == before.buildings@.update(b, if kind == SoloKind::Maintain {
                crate::sect::Building { condition: (if h.condition + y.maintenance > 100 { 100 } else { h.condition + y.maintenance }) as i32, ..h }
            } else {
                crate::sect::Building {
                    work_invested: (if h.work_invested + y.construction > h.work_required { h.work_required as int } else { h.work_invested + y.construction }) as i32,
                    ..h
                }
            })
        },
        _ => after == before,
    }
}

/// The sect receives what a lone disciple's month of `kind` brought it (see
/// `yield_received`).
pub fn receive_yield(sect: &mut SectState, kind: SoloKind, r: &SoloResult)
    requires
        yield_fits(*old(sect), kind, r.sect),
    ensures
        yield_received(*old(sect), kind, *r, *final(sect)),
{
    let y = r.sect;
    match kind {
        SoloKind::Business => {
            let v: i64 = sect.attributes.silver as i64 + y.silver as i64;
            sect.attributes.silver = if v < 0 { 0 } else { v as i32 };
        },
        SoloKind::Produce => {
            sect.inventory.add("粮秣", y.grain);
        },
        SoloKind::Gather => {
            proof {
                reveal_strlit("精铁");
                reveal_strlit("草药");
                assert("精铁"@[0] != "草药"@[0]);
            }
            sect.inventory.add("草药", y.herbs);
            if y.iron > 0 {
                sect.inventory.add("精铁", y.iron);
            }
        },
        SoloKind::Maintain | SoloKind::Construct => {
            let found = match &r.work_target {
                Some(t) => find_building(&sect.buildings, t.as_str()),
                None => None,
            };
            match found {
                None => {},
                Some(b) => {
                    if kind == SoloKind::Maintain {
                        let c: i64 = sect.buildings[b].condition as i64 + y.maintenance as i64;
                        sect.buildings[b].condition = if c > 100 { 100 } else { c as i32 };
                    } else {
                        let w: i64 = sect.buildings[b].work_invested as i64 + y.construction as i64;
                        let req = sect.buildings[b].work_required;
                        sect.buildings[b].work_invested = if w > req as i64 { req } else { w as i32 };
                    }
                    proof {
                        let h = old(sect).buildings@[b as int];
                        assert(sect.buildings@ =~= old(sect).buildings@.update(b as int, sect.buildings@[b as int]));
                    }
                },
            }
        },
        _ => {},
    }
}

} // verus!
