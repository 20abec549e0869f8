//! Journeys: a sect mission or a free wander, fixed on departure and settled
//! once on return as a success, a partial success or a failure.
use vstd::prelude::*;
use rand::rngs::StdRng;
use crate::chance::{any_u64, chance, pick_index, rand_range, roll_below};
use crate::event::{lands_at, total_weight, weight_total, weighted_position};
use crate::actions::{
    scale_department_experience, spec_department_experience,
    journey_outcome, morality_change_text, morality_note, scale_department_output, signed_change, signed_text,
    spec_department_bonus, spec_department_output, spec_journey_outcome, JourneyOutcome,
};
use crate::country::{clamp_int, scale_positive, scale_positive_i64, spec_scale_positive, spec_scale_positive_i64, trunc_div};
use crate::management::{int_string, int_text};
use crate::model::{ActionKind, Aptitudes, Disciple, MoralDirection};
use crate::sect::sat32;
use crate::text::text_eq;

verus! {

/// A journey's file: its task (`template_id`), destination, difficulty,
/// length and months already travelled, the encounter fixed on departure and
/// whether it has been met, and, once settled, its outcome.
pub struct Journey {
    pub id: String,
    pub template_id: String,
    pub destination_id: String,
    pub difficulty: i32,
    pub total_months: i32,
    pub elapsed_months: i32,
    pub encounter_id: Option<String>,
    pub encounter_resolved: bool,
    pub outcome: Option<JourneyOutcome>,
    pub settled: bool,
}

/// The traveller: the disciple, its effective aptitudes and combat score
/// (as its arts and the catalog make them), the road's safety and the
/// outside world's reward percents, and its sect's moral direction.
pub struct Traveller {
    pub disciple: Disciple,
    pub aptitudes: Aptitudes,
    pub combat: i32,
    pub safety_percent: i32,
    pub external_percent: i32,
    pub moral_direction: MoralDirection,
}

/// What a journey brings the traveller.
#[derive(Clone, Copy)]
pub struct PersonGains {
    pub merit: i64,
    pub reputation: i32,
    pub attainment: i64,
    pub loyalty: i32,
    pub qi: i32,
    pub spirit: i32,
    pub qi_max: i32,
    pub spirit_max: i32,
    pub personal_silver: i32,
    pub art_experience: i64,
}

/// What a journey brings the traveller's sect.
#[derive(Clone, Copy)]
pub struct SectGains {
    pub silver: i32,
    pub prestige: i32,
    pub morality: i32,
    pub grain: i32,
    pub herbs: i32,
    pub iron: i32,
}

/// Gains that leave room for one more settlement.
pub open spec fn gains_room(p: PersonGains, s: SectGains) -> bool {
    &&& -1_000_000_000 <= p.merit <= 1_000_000_000
    &&& -1_000_000_000 <= p.attainment <= 1_000_000_000
    &&& -1_000_000_000 <= p.reputation <= 1_000_000_000
    &&& -1_000_000_000 <= p.loyalty <= 1_000_000_000
    &&& -1_000_000_000 <= p.qi <= 1_000_000_000
    &&& -1_000_000_000 <= p.spirit <= 1_000_000_000
    &&& -1_000_000_000 <= p.qi_max <= 1_000_000_000
    &&& -1_000_000_000 <= p.spirit_max <= 1_000_000_000
    &&& -1_000_000_000 <= p.personal_silver <= 1_000_000_000
    &&& -1_000_000_000 <= p.art_experience <= 1_000_000_000
    &&& -1_000_000_000 <= s.silver <= 1_000_000_000
    &&& -1_000_000_000 <= s.prestige <= 1_000_000_000
    &&& -1_000_000_000 <= s.morality <= 1_000_000_000
    &&& -1_000_000_000 <= s.grain <= 1_000_000_000
    &&& -1_000_000_000 <= s.herbs <= 1_000_000_000
    &&& -1_000_000_000 <= s.iron <= 1_000_000_000
}

/// A journey of a size the settlement can reckon with.
pub open spec fn journey_sized(j: Journey) -> bool {
    &&& -1_000_000 <= j.difficulty <= 1_000_000
    &&& -1000 <= j.total_months <= 1000
}

/// The name of a journey's task.
pub open spec fn template_name(id: Seq<char>) -> Seq<char> {
    if id == "escort_supplies"@ {
        "护送粮饷"@
    } else if id == "seek_physician"@ {
        "寻访名医"@
    } else if id == "mediate_dispute"@ {
        "调停地界"@
    } else if id == "clear_bandits"@ {
        "清剿路匪"@
    } else {
        "江湖游历"@
    }
}

/// The name of a journey's destination.
pub open spec fn destination_name(id: Seq<char>) -> Seq<char> {
    if id == "xiangyang"@ {
        "襄阳"@
    } else if id == "linan"@ {
        "临安"@
    } else if id == "luoyang"@ {
        "洛阳"@
    } else if id == "dali"@ {
        "大理"@
    } else if id == "liangzhou"@ {
        "凉州"@
    } else if id == "taihu"@ {
        "太湖"@
    } else {
        "江湖"@
    }
}

/// The name of a journey's task (see `template_name`).
pub fn journey_template_name(id: &str) -> (r: &'static str)
    ensures
        r@ == template_name(id@),
{
    if text_eq(id, "escort_supplies") {
        "护送粮饷"
    } else if text_eq(id, "seek_physician") {
        "寻访名医"
    } else if text_eq(id, "mediate_dispute") {
        "调停地界"
    } else if text_eq(id, "clear_bandits") {
        "清剿路匪"
    } else {
        "江湖游历"
    }
}

/// The name of a journey's destination (see `destination_name`).
pub fn journey_destination_name(id: &str) -> (r: &'static str)
    ensures
        r@ == destination_name(id@),
{
    if text_eq(id, "xiangyang") {
        "襄阳"
    } else if text_eq(id, "linan") {
        "临安"
    } else if text_eq(id, "luoyang") {
        "洛阳"
    } else if text_eq(id, "dali") {
        "大理"
    } else if text_eq(id, "liangzhou") {
        "凉州"
    } else if text_eq(id, "taihu") {
        "太湖"
    } else {
        "江湖"
    }
}

/// A traveller of a size the rules can reckon with.
pub open spec fn traveller_sized(t: Traveller) -> bool {
    &&& -1_000_000 <= t.aptitudes.strength <= 1_000_000
    &&& -1_000_000 <= t.aptitudes.intelligence <= 1_000_000
    &&& -1_000_000 <= t.aptitudes.constitution <= 1_000_000
    &&& -1_000_000 <= t.aptitudes.agility <= 1_000_000
    &&& -1_000_000 <= t.aptitudes.fortune <= 1_000_000
    &&& -1_000_000 <= t.safety_percent <= 1_000_000
    &&& t.external_percent <= 1000
}

/// The traveller's capability for the task `template`: an escort by
/// strength, constitution and a quarter of the combat score (held to
/// `0..=600`); a physician's errand by intelligence, fortune and a tenth of
/// the name (held to `0..=1000`); a mediation by intelligence, a fifth of the
/// name and a tenth of the morality (held to `0..=100`); clearing bandits by
/// strength, agility and a third of the combat score; a wander by agility,
/// fortune and a fifth of the combat score.
pub open spec fn capability(t: Traveller, template: Seq<char>) -> int {
    let a = t.aptitudes;
    let combat = clamp_int(t.combat as int, 0, 600);
    let name = clamp_int(t.disciple.attributes.reputation as int, 0, 1000);
    if template == "escort_supplies"@ {
        a.strength + a.constitution + combat / 4
    } else if template == "seek_physician"@ {
        a.intelligence + a.fortune + name / 10
    } else if template == "mediate_dispute"@ {
        a.intelligence + name / 5 + clamp_int(t.disciple.attributes.morality as int, 0, 100) / 10
    } else if template == "clear_bandits"@ {
        a.strength + a.agility + combat / 3
    } else {
        a.agility + a.fortune + combat / 5
    }
}

/// The traveller's capability for the task `template` (see `capability`).
pub fn journey_capability(t: &Traveller, template: &str) -> (r: i32)
    requires
        traveller_sized(*t),
    ensures
        r == capability(*t, template@),
{
    let a = t.aptitudes;
    let combat: i32 = if t.combat < 0 { 0 } else if t.combat > 600 { 600 } else { t.combat };
    let rep = t.disciple.attributes.reputation;
    let name: i32 = if rep < 0 { 0 } else if rep > 1000 { 1000 } else { rep };
    if text_eq(template, "escort_supplies") {
        a.strength + a.constitution + combat / 4
    } else if text_eq(template, "seek_physician") {
        a.intelligence + a.fortune + name / 10
    } else if text_eq(template, "mediate_dispute") {
        let m = t.disciple.attributes.morality;
        let mo: i32 = if m < 0 { 0 } else if m > 100 { 100 } else { m };
        a.intelligence + name / 5 + mo / 10
    } else if text_eq(template, "clear_bandits") {
        a.strength + a.agility + combat / 3
    } else {
        a.agility + a.fortune + combat / 5
    }
}

/// The margin of a journey: the capability for its task, a third of the
/// road's safety above 100, the roll, less the difficulty.
pub open spec fn journey_margin(t: Traveller, j: Journey, roll: int) -> int {
    capability(t, j.template_id@) + trunc_div(t.safety_percent - 100, 3) + roll - j.difficulty
}

/// The quality of a mission's work: 90, half the margin and a fifth of the
/// traveller's fortune, within `60..=120`.
pub open spec fn mission_quality(t: Traveller, margin: int) -> int {
    clamp_int(90 + trunc_div(margin, 2) + trunc_div(t.disciple.aptitudes.fortune as int, 5), 60, 120)
}

/// The silver a mission earns: its base (28, 14 a month and a third of the
/// difficulty, raised by the traveller's department) times the quality, in
/// full on success and half on partial success, then by the moral direction
/// (90, 100 or 120 percent) and the outside world's percent.
pub open spec fn mission_silver(t: Traveller, j: Journey, outcome: JourneyOutcome, margin: int) -> int {
    let base = spec_department_output(
        28 + j.total_months * 14 + trunc_div(j.difficulty as int, 3),
        spec_department_bonus(t.disciple.department, ActionKind::SectMission),
    );
    let q = mission_quality(t, margin);
    let reward = match outcome {
        JourneyOutcome::Success => trunc_div(base * q, 100),
        JourneyOutcome::Partial => trunc_div(base * q, 200),
        JourneyOutcome::Failed => 0,
    };
    let dir = match t.moral_direction {
        MoralDirection::Righteous => 90int,
        MoralDirection::Neutral => 100,
        MoralDirection::Villainous => 120,
    };
    spec_scale_positive(trunc_div(sat32(reward * dir), 100), t.external_percent as int)
}

/// The prestige and morality a mission's outcome brings its sect.
pub open spec fn mission_standing(t: Traveller, outcome: JourneyOutcome) -> (int, int) {
    match outcome {
        JourneyOutcome::Success => match t.moral_direction {
            MoralDirection::Righteous => (4, 1),
            MoralDirection::Neutral => (3, 0),
            MoralDirection::Villainous => (-1, -1),
        },
        JourneyOutcome::Partial => match t.moral_direction {
            MoralDirection::Righteous => (2, 1),
            MoralDirection::Neutral => (1, 0),
            MoralDirection::Villainous => (-1, -1),
        },
        JourneyOutcome::Failed => (if t.moral_direction == MoralDirection::Villainous { -2 } else { -1 }, 0),
    }
}

/// The goods a mission brings home: twice (on success) or once (partial)
/// the task's measure: grain for an escort, herbs for a physician's errand,
/// iron for clearing bandits; nothing on failure or for other tasks. Returns
/// grain, herbs, iron and the note.
pub open spec fn mission_goods(template: Seq<char>, outcome: JourneyOutcome, months: int) -> (int, int, int, Seq<char>) {
    let f = match outcome {
        JourneyOutcome::Success => 2int,
        JourneyOutcome::Partial => 1,
        JourneyOutcome::Failed => 0,
    };
    let m = if months < 1 { 1 } else { months };
    if f == 0 {
        (0, 0, 0, Seq::empty())
    } else if template == "escort_supplies"@ {
        ((2 + m) * f, 0, 0, "、粮秣 +"@ + int_text((2 + m) * f))
    } else if template == "seek_physician"@ {
        (0, (1 + m) * f, 0, "、草药 +"@ + int_text((1 + m) * f))
    } else if template == "clear_bandits"@ {
        (0, 0, f, "、精铁 +"@ + int_text(f))
    } else {
        (0, 0, 0, Seq::empty())
    }
}

/// The mission was settled with outcome `outcome` and margin `margin`: the
/// sect takes the silver (see `mission_silver`), the standing (see
/// `mission_standing`) and the goods (see `mission_goods`); the traveller
/// gains merit, name and attainment by the outcome (12, 2, 12 on success;
/// 6, 1, 6 on partial success) or loses 2 merit and 2 loyalty for 2
/// attainment on failure; `text` reports it.
pub open spec fn mission_settled(
    t: Traveller,
    j: Journey,
    outcome: JourneyOutcome,
    margin: int,
    p0: PersonGains,
    s0: SectGains,
    p: PersonGains,
    s: SectGains,
    text: Seq<char>,
) -> bool {
    let silver = mission_silver(t, j, outcome, margin);
    let (pr, mo) = mission_standing(t, outcome);
    let (grain, herbs, iron, note) = mission_goods(j.template_id@, outcome, j.total_months as int);
    let name = template_name(j.template_id@);
    &&& s == SectGains {
        silver: (s0.silver + silver) as i32,
        prestige: (s0.prestige + pr) as i32,
        morality: (s0.morality + mo) as i32,
        grain: (s0.grain + grain) as i32,
        herbs: (s0.herbs + herbs) as i32,
        iron: (s0.iron + iron) as i32,
    }
    &&& p == match outcome {
        JourneyOutcome::Success => PersonGains { merit: (p0.merit + 12) as i64, reputation: (p0.reputation + 2) as i32, attainment: (p0.attainment + 12) as i64, ..p0 },
        JourneyOutcome::Partial => PersonGains { merit: (p0.merit + 6) as i64, reputation: (p0.reputation + 1) as i32, attainment: (p0.attainment + 6) as i64, ..p0 },
        JourneyOutcome::Failed => PersonGains { merit: (p0.merit - 2) as i64, loyalty: (p0.loyalty - 2) as i32, attainment: (p0.attainment + 2) as i64, ..p0 },
    }
    &&& text == match outcome {
        JourneyOutcome::Success => name + "圆满验收：门派银两 +"@ + int_text(silver) + "、声望 "@ + signed_text(pr) + morality_note(mo)
            + "，个人功绩 +12、声名 +2"@ + note + "。"@,
        JourneyOutcome::Partial => name + "勉强办成：门派银两 +"@ + int_text(silver) + "、声望 "@ + signed_text(pr) + morality_note(mo)
            + "，个人功绩 +6、声名 +1"@ + note + "。"@,
        JourneyOutcome::Failed => name + "未通过验收：门派声望 "@ + signed_text(pr) + "，个人功绩 -2、门忠 -2。"@,
    }
}

/// The wander was settled with outcome `outcome`: attainment 18, name 3 and
/// merit 2 on success; attainment 8 and name 1 on partial success; on
/// failure qi -8, spirit -4, loyalty -1 and attainment 3; `text` reports it.
pub open spec fn wander_settled(j: Journey, outcome: JourneyOutcome, p0: PersonGains, p: PersonGains, text: Seq<char>) -> bool {
    match outcome {
        JourneyOutcome::Success => {
            &&& p == PersonGains { attainment: (p0.attainment + 18) as i64, reputation: (p0.reputation + 3) as i32, merit: (p0.merit + 2) as i64, ..p0 }
            &&& text == "本程游历见闻丰厚：造诣 +18、个人声名 +3、功绩 +2。"@
        },
        JourneyOutcome::Partial => {
            &&& p == PersonGains { attainment: (p0.attainment + 8) as i64, reputation: (p0.reputation + 1) as i32, ..p0 }
            &&& text == "本程游历虽有波折，仍走完"@ + destination_name(j.destination_id@) + "一带：造诣 +8、个人声名 +1。"@
        },
        JourneyOutcome::Failed => {
            &&& p == PersonGains {
                qi: (p0.qi - 8) as i32,
                spirit: (p0.spirit - 4) as i32,
                loyalty: (p0.loyalty - 1) as i32,
                attainment: (p0.attainment + 3) as i64,
                ..p0
            }
            &&& text == "本程游历受阻而返：气血 -8、精神 -4、门忠 -1，仍从挫折中得到造诣 +3。"@
        },
    }
}

/// The journey `before` was settled with the roll `roll` (`-12..=12`): a
/// journey already settled pays nothing again and says so; otherwise its
/// outcome (the one already on file, or the margin's; see `journey_margin`)
/// is filed, the journey is marked settled, and a mission pays as
/// `mission_settled`, a wander as `wander_settled` (its sect taking nothing).
pub open spec fn journey_settled(
    t: Traveller,
    mission: bool,
    before: Journey,
    after: Journey,
    roll: int,
    p0: PersonGains,
    s0: SectGains,
    p: PersonGains,
    s: SectGains,
    text: Seq<char>,
) -> bool {
    if before.settled {
        &&& after == before
        &&& p == p0
        &&& s == s0
        &&& text == "这份旅程卷宗早已验收，不再重复发赏。"@
    } else {
        let margin = journey_margin(t, before, roll);
        let outcome = match before.outcome {
            Some(o) => o,
            None => spec_journey_outcome(margin),
        };
        &&& -12 <= roll <= 12
        &&& after == Journey { outcome: Some(outcome), settled: true, ..before }
        &&& if mission {
            mission_settled(t, before, outcome, margin, p0, s0, p, s, text)
        } else {
            s == s0 && wander_settled(before, outcome, p0, p, text)
        }
    }
}

fn mission_goods_of(template: &str, outcome: JourneyOutcome, months: i32, s: &mut SectGains) -> (note: String)
    requires
        -1000 <= months <= 1000,
        -1_000_000_000 <= old(s).grain <= 1_000_000_000,
        -1_000_000_000 <= old(s).herbs <= 1_000_000_000,
        -1_000_000_000 <= old(s).iron <= 1_000_000_000,
    ensures
        ({
            let (grain, herbs, iron, text) = mission_goods(template@, outcome, months as int);
            &&& *final(s) == SectGains {
                grain: (old(s).grain + grain) as i32,
                herbs: (old(s).herbs + herbs) as i32,
                iron: (old(s).iron + iron) as i32,
                ..*old(s)
            }
            &&& note@ == text
        }),
{
    let f: i32 = match outcome {
        JourneyOutcome::Success => 2,
        JourneyOutcome::Partial => 1,
        JourneyOutcome::Failed => 0,
    };
    let m: i32 = if months < 1 { 1 } else { months };
    if f == 0 {
        return String::new();
    }
    if text_eq(template, "escort_supplies") {
        let q = (2 + m) * f;
        s.grain = s.grain + q;
        let mut t = String::from_str("、粮秣 +");
        t.append(int_string(q as i64).as_str());
        t
    } else if text_eq(template, "seek_physician") {
        let q = (1 + m) * f;
        s.herbs = s.herbs + q;
        let mut t = String::from_str("、草药 +");
        t.append(int_string(q as i64).as_str());
        t
    } else if text_eq(template, "clear_bandits") {
        s.iron = s.iron + f;
        let mut t = String::from_str("、精铁 +");
        t.append(int_string(f as i64).as_str());
        t
    } else {
        String::new()
    }
}

/// Pays a returning mission (see `mission_settled`).
pub fn settle_mission(t: &Traveller, j: &Journey, outcome: JourneyOutcome, margin: i32, p: &mut PersonGains, s: &mut SectGains) -> (text: String)
    requires
        journey_sized(*j),
        t.external_percent <= 1000,
        gains_room(*old(p), *old(s)),
        -10_000_000 <= margin <= 10_000_000,
    ensures
        mission_settled(*t, *j, outcome, margin as int, *old(p), *old(s), *final(p), *final(s), text@),
{
    let fortune = t.disciple.aptitudes.fortune;
    let q0: i64 = 90 + (margin / 2) as i64 + (fortune / 5) as i64;
    let quality: i64 = if q0 < 60 { 60 } else if q0 > 120 { 120 } else { q0 };
    let base = scale_department_output(28 + j.total_months * 14 + j.difficulty / 3, &t.disciple, ActionKind::SectMission);
    proof {
        assert(base <= i32::MAX);
        assert(-0x8000_0000 * 120 <= base as int * quality <= 0x8000_0000 * 120) by (nonlinear_arith)
            requires
                i32::MIN <= base <= i32::MAX,
                60 <= quality <= 120;
    }
    let reward: i64 = match outcome {
        JourneyOutcome::Success => base as i64 * quality / 100,
        JourneyOutcome::Partial => base as i64 * quality / 200,
        JourneyOutcome::Failed => 0,
    };
    let dir: i64 = match t.moral_direction {
        MoralDirection::Righteous => 90,
        MoralDirection::Neutral => 100,
        MoralDirection::Villainous => 120,
    };
    proof {
        assert(-0x8000_0000 * 120 * 120 <= reward * dir <= 0x8000_0000 * 120 * 120) by (nonlinear_arith)
            requires
                -0x8000_0000 * 120 <= reward <= 0x8000_0000 * 120,
                90 <= dir <= 120;
    }
    let prod: i64 = reward * dir;
    let sat: i32 = if prod > i32::MAX as i64 { i32::MAX } else if prod < i32::MIN as i64 { i32::MIN } else { prod as i32 };
    let silver = scale_positive(sat / 100, t.external_percent);
    proof {
        let v = (sat / 100) as int;
        let pc = if t.external_percent < 0 { 0int } else { t.external_percent as int };
        assert(v <= 21_474_837);
        assert(v * pc <= 21_474_837 * 1000) by (nonlinear_arith)
            requires
                v <= 21_474_837,
                0 <= pc <= 1000;
        assert(silver <= 214_748_370);
    }
    s.silver = s.silver + silver;
    let (pr, mo): (i32, i32) = match outcome {
        JourneyOutcome::Success => match t.moral_direction {
            MoralDirection::Righteous => (4, 1),
            MoralDirection::Neutral => (3, 0),
            MoralDirection::Villainous => (-1, -1),
        },
        JourneyOutcome::Partial => match t.moral_direction {
            MoralDirection::Righteous => (2, 1),
            MoralDirection::Neutral => (1, 0),
            MoralDirection::Villainous => (-1, -1),
        },
        JourneyOutcome::Failed => (if t.moral_direction == MoralDirection::Villainous { -2 } else { -1 }, 0),
    };
    s.prestige = s.prestige + pr;
    s.morality = s.morality + mo;
    match outcome {
        JourneyOutcome::Success => {
            p.merit = p.merit + 12;
            p.reputation = p.reputation + 2;
            p.attainment = p.attainment + 12;
        },
        JourneyOutcome::Partial => {
            p.merit = p.merit + 6;
            p.reputation = p.reputation + 1;
            p.attainment = p.attainment + 6;
        },
        JourneyOutcome::Failed => {
            p.merit = p.merit - 2;
            p.loyalty = p.loyalty - 2;
            p.attainment = p.attainment + 2;
        },
    }
    let note = mission_goods_of(j.template_id.as_str(), outcome, j.total_months, s);
    let mut text = String::from_str(journey_template_name(j.template_id.as_str()));
    match outcome {
        JourneyOutcome::Success => {
            text.append("圆满验收：门派银两 +");
            text.append(int_string(silver as i64).as_str());
            text.append("、声望 ");
            text.append(signed_change(pr).as_str());
            text.append(morality_change_text(mo).as_str());
            text.append("，个人功绩 +12、声名 +2");
            text.append(note.as_str());
            text.append("。");
        },
        JourneyOutcome::Partial => {
            text.append("勉强办成：门派银两 +");
            text.append(int_string(silver as i64).as_str());
            text.append("、声望 ");
            text.append(signed_change(pr).as_str());
            text.append(morality_change_text(mo).as_str());
            text.append("，个人功绩 +6、声名 +1");
            text.append(note.as_str());
            text.append("。");
        },
        JourneyOutcome::Failed => {
            text.append("未通过验收：门派声望 ");
            text.append(signed_change(pr).as_str());
            text.append("，个人功绩 -2、门忠 -2。");
        },
    }
    text
}

fn settle_wander(j: &Journey, outcome: JourneyOutcome, p: &mut PersonGains) -> (text: String)
    requires
        gains_room(*old(p), SectGains { silver: 0, prestige: 0, morality: 0, grain: 0, herbs: 0, iron: 0 }),
    ensures
        wander_settled(*j, outcome, *old(p), *final(p), text@),
{
    match outcome {
        JourneyOutcome::Success => {
            p.attainment = p.attainment + 18;
            p.reputation = p.reputation + 3;
            p.merit = p.merit + 2;
            String::from_str("本程游历见闻丰厚：造诣 +18、个人声名 +3、功绩 +2。")
        },
        JourneyOutcome::Partial => {
            p.attainment = p.attainment + 8;
            p.reputation = p.reputation + 1;
            let mut t = String::from_str("本程游历虽有波折，仍走完");
            t.append(journey_destination_name(j.destination_id.as_str()));
            t.append("一带：造诣 +8、个人声名 +1。");
            t
        },
        JourneyOutcome::Failed => {
            p.qi = p.qi - 8;
            p.spirit = p.spirit - 4;
            p.loyalty = p.loyalty - 1;
            p.attainment = p.attainment + 3;
            String::from_str("本程游历受阻而返：气血 -8、精神 -4、门忠 -1，仍从挫折中得到造诣 +3。")
        },
    }
}

fn copy_journey(j: &Journey) -> (r: Journey)
    ensures
        r == *j,
{
    Journey {
        id: j.id.clone(),
        template_id: j.template_id.clone(),
        destination_id: j.destination_id.clone(),
        difficulty: j.difficulty,
        total_months: j.total_months,
        elapsed_months: j.elapsed_months,
        encounter_id: match &j.encounter_id {
            Some(e) => Some(e.clone()),
            None => None,
        },
        encounter_resolved: j.encounter_resolved,
        outcome: j.outcome,
        settled: j.settled,
    }
}

/// Settles a returning traveller's journey (see `journey_settled`): once
/// only, with the outcome already on file or the one its margin gives, a
/// mission paying its sect and the traveller, a wander the traveller alone.
pub fn settle_journey(
    rng: &mut StdRng,
    t: &Traveller,
    mission: bool,
    journey: &mut Journey,
    p: &mut PersonGains,
    s: &mut SectGains,
) -> (text: String)
    requires
        journey_sized(*old(journey)),
        traveller_sized(*t),
        gains_room(*old(p), *old(s)),
    ensures
        exists|roll: int| #[trigger] journey_settled(*t, mission, *old(journey), *final(journey), roll, *old(p), *old(s), *final(p), *final(s), text@),
        moved_little(*old(p), *old(s), *final(p), *final(s)),
{
    if journey.settled {
        let text = String::from_str("这份旅程卷宗早已验收，不再重复发赏。");
        proof {
            assert(journey_settled(*t, mission, *old(journey), *journey, 0, *old(p), *old(s), *p, *s, text@));
        }
        return text;
    }
    let roll = rand_range(rng, -12, 12);
    let cap = journey_capability(t, journey.template_id.as_str());
    let margin: i32 = cap + (t.safety_percent - 100) / 3 + roll - journey.difficulty;
    let outcome = match journey.outcome {
        Some(o) => o,
        None => journey_outcome(margin),
    };
    let before = copy_journey(journey);
    journey.outcome = Some(outcome);
    journey.settled = true;
    let text = if mission {
        settle_mission(t, &before, outcome, margin, p, s)
    } else {
        settle_wander(&before, outcome, p)
    };
    proof {
        if mission {
            lemma_mission_silver_bound(*t, before, outcome, margin as int);
        }
    }
    proof {
        assert(journey_settled(*t, mission, *old(journey), *journey, roll as int, *old(p), *old(s), *p, *s, text@));
    }
    text
}

/// What a traveller meets on the road.
#[derive(Clone, Copy, Debug, PartialEq, Eq, Structural)]
pub enum TravelEncounterKind {
    QuietRoad,
    FriendlySpar,
    BanditAmbush,
    FoundSupplies,
    HermitGuidance,
    LostManual,
}

/// The encounter at position `i` of the weights.
pub open spec fn encounter_at(i: int) -> TravelEncounterKind {
    if i == 0 {
        TravelEncounterKind::QuietRoad
    } else if i == 1 {
        TravelEncounterKind::FriendlySpar
    } else if i == 2 {
        TravelEncounterKind::BanditAmbush
    } else if i == 3 {
        TravelEncounterKind::FoundSupplies
    } else if i == 4 {
        TravelEncounterKind::HermitGuidance
    } else {
        TravelEncounterKind::LostManual
    }
}

/// The id an encounter is filed under.
pub open spec fn encounter_id(e: TravelEncounterKind) -> Seq<char> {
    match e {
        TravelEncounterKind::QuietRoad => "quiet_road"@,
        TravelEncounterKind::FriendlySpar => "friendly_spar"@,
        TravelEncounterKind::BanditAmbush => "bandit_ambush"@,
        TravelEncounterKind::FoundSupplies => "found_supplies"@,
        TravelEncounterKind::HermitGuidance => "hermit_guidance"@,
        TravelEncounterKind::LostManual => "lost_manual"@,
    }
}

/// The id an encounter is filed under (see `encounter_id`).
pub fn travel_encounter_id(e: TravelEncounterKind) -> (r: &'static str)
    ensures
        r@ == encounter_id(e),
{
    match e {
        TravelEncounterKind::QuietRoad => "quiet_road",
        TravelEncounterKind::FriendlySpar => "friendly_spar",
        TravelEncounterKind::BanditAmbush => "bandit_ambush",
        TravelEncounterKind::FoundSupplies => "found_supplies",
        TravelEncounterKind::HermitGuidance => "hermit_guidance",
        TravelEncounterKind::LostManual => "lost_manual",
    }
}

/// The encounter filed under `id`, if any.
pub open spec fn named_encounter(id: Seq<char>) -> Option<TravelEncounterKind> {
    if id == "quiet_road"@ {
        Some(TravelEncounterKind::QuietRoad)
    } else if id == "friendly_spar"@ {
        Some(TravelEncounterKind::FriendlySpar)
    } else if id == "bandit_ambush"@ {
        Some(TravelEncounterKind::BanditAmbush)
    } else if id == "found_supplies"@ {
        Some(TravelEncounterKind::FoundSupplies)
    } else if id == "hermit_guidance"@ {
        Some(TravelEncounterKind::HermitGuidance)
    } else if id == "lost_manual"@ {
        Some(TravelEncounterKind::LostManual)
    } else {
        None
    }
}

/// The encounter filed under `id`, if any (see `named_encounter`).
pub fn travel_encounter_from_id(id: &str) -> (r: Option<TravelEncounterKind>)
    ensures
        r == named_encounter(id@),
{
    if text_eq(id, "quiet_road") {
        Some(TravelEncounterKind::QuietRoad)
    } else if text_eq(id, "friendly_spar") {
        Some(TravelEncounterKind::FriendlySpar)
    } else if text_eq(id, "bandit_ambush") {
        Some(TravelEncounterKind::BanditAmbush)
    } else if text_eq(id, "found_supplies") {
        Some(TravelEncounterKind::FoundSupplies)
    } else if text_eq(id, "hermit_guidance") {
        Some(TravelEncounterKind::HermitGuidance)
    } else if text_eq(id, "lost_manual") {
        Some(TravelEncounterKind::LostManual)
    } else {
        None
    }
}

/// The weights of the six encounters for a traveller of fortune `fortune` on
/// a road of safety `safety`, on a mission or not, a lost manual possible
/// or not: a quiet road 24 on missions and 16 otherwise; a friendly spar 16
/// and a fifth of the safety above 85; bandits 18 on missions and 22
/// otherwise, and a third of the safety below 100; supplies 28 on missions
/// and 16 otherwise; a hermit 4 and a seventh of the fortune; a manual, when
/// possible, 2 and an eighth of the fortune. The fortune is held to
/// `0..=100`.
pub open spec fn encounter_weights(fortune: int, safety: int, mission: bool, manual: bool) -> Seq<u32> {
    let f = clamp_int(fortune, 0, 100);
    let safe = (if safety - 85 < 0 { 0 } else { trunc_div(safety - 85, 5) });
    let danger = (if 100 - safety < 0 { 0 } else { trunc_div(100 - safety, 3) });
    seq![
        (if mission { 24int } else { 16 }) as u32,
        (16 + safe) as u32,
        (if mission { 18 + danger } else { 22 + danger }) as u32,
        (if mission { 28int } else { 16 }) as u32,
        (4 + f / 7) as u32,
        (if manual { 2 + f / 8 } else { 0 }) as u32,
    ]
}

/// Draws the encounter of a journey by `encounter_weights`.
pub fn choose_travel_encounter(rng: &mut StdRng, t: &Traveller, mission: bool, manual: bool) -> (r: TravelEncounterKind)
    requires
        traveller_sized(*t),
    ensures
        exists|roll: int, i: int| {
            &&& #[trigger] lands_at(
                encounter_weights(t.disciple.aptitudes.fortune as int, t.safety_percent as int, mission, manual),
                roll,
                i,
            )
            &&& r == encounter_at(i)
        },
{
    let fo = t.disciple.aptitudes.fortune;
    let f: u32 = if fo < 0 { 0 } else if fo > 100 { 100 } else { fo as u32 };
    let safety = t.safety_percent;
    let safe: u32 = if safety - 85 < 0 { 0 } else { ((safety - 85) / 5) as u32 };
    let danger: u32 = if 100 - safety < 0 { 0 } else { ((100 - safety) / 3) as u32 };
    let mut ws: Vec<u32> = Vec::new();
    ws.push(if mission { 24 } else { 16 });
    ws.push(16 + safe);
    ws.push(if mission { 18 + danger } else { 22 + danger });
    ws.push(if mission { 28 } else { 16 });
    ws.push(4 + f / 7);
    ws.push(if manual { 2 + f / 8 } else { 0 });
    let ghost target = encounter_weights(fo as int, safety as int, mission, manual);
    proof {
        assert(ws@ =~= target);
        reveal_with_fuel(crate::event::weight_prefix, 7);
    }
    let total = total_weight(&ws);
    let roll = roll_below(rng, total);
    let i = weighted_position(&ws, roll);
    let r = if i == 0 {
        TravelEncounterKind::QuietRoad
    } else if i == 1 {
        TravelEncounterKind::FriendlySpar
    } else if i == 2 {
        TravelEncounterKind::BanditAmbush
    } else if i == 3 {
        TravelEncounterKind::FoundSupplies
    } else if i == 4 {
        TravelEncounterKind::HermitGuidance
    } else {
        TravelEncounterKind::LostManual
    };
    proof {
        assert(lands_at(target, roll as int, i as int));
    }
    r
}

/// One hexadecimal digit.
pub open spec fn hex_text(d: int) -> Seq<char> {
    if d == 0 {
        "0"@
    } else if d == 1 {
        "1"@
    } else if d == 2 {
        "2"@
    } else if d == 3 {
        "3"@
    } else if d == 4 {
        "4"@
    } else if d == 5 {
        "5"@
    } else if d == 6 {
        "6"@
    } else if d == 7 {
        "7"@
    } else if d == 8 {
        "8"@
    } else if d == 9 {
        "9"@
    } else if d == 10 {
        "a"@
    } else if d == 11 {
        "b"@
    } else if d == 12 {
        "c"@
    } else if d == 13 {
        "d"@
    } else if d == 14 {
        "e"@
    } else if d == 15 {
        "f"@
    } else {
        "?"@
    }
}

fn hex_digit(d: u64) -> (r: &'static str)
    requires
        d < 16,
    ensures
        r@ == hex_text(d as int),
{
    if d == 0 {
        "0"
    } else if d == 1 {
        "1"
    } else if d == 2 {
        "2"
    } else if d == 3 {
        "3"
    } else if d == 4 {
        "4"
    } else if d == 5 {
        "5"
    } else if d == 6 {
        "6"
    } else if d == 7 {
        "7"
    } else if d == 8 {
        "8"
    } else if d == 9 {
        "9"
    } else if d == 10 {
        "a"
    } else if d == 11 {
        "b"
    } else if d == 12 {
        "c"
    } else if d == 13 {
        "d"
    } else if d == 14 {
        "e"
    } else {
        "f"
    }
}

/// The first `n` of the sixteen hexadecimal digits of `v`, most significant
/// first.
pub open spec fn hex_digits(v: u64, n: int) -> Seq<char>
    decreases n,
{
    if n <= 0 || n > 16 {
        Seq::empty()
    } else {
        hex_digits(v, n - 1) + hex_text(((v >> ((64 - 4 * n) as u64)) & 15u64) as int)
    }
}

fn hex16(v: u64) -> (r: String)
    ensures
        r@ == hex_digits(v, 16),
{
    let mut r = String::new();
    let mut n: u64 = 0;
    while n < 16
        invariant
            n <= 16,
            r@ == hex_digits(v, n as int),
        decreases 16 - n,
    {
        n = n + 1;
        let sh: u64 = 64 - 4 * n;
        let d = (v >> sh) & 15u64;
        proof {
            assert(d < 16) by (bit_vector)
                requires
                    d == (v >> sh) & 15u64;
        }
        r.append(hex_digit(d));
    }
    r
}

/// The tasks a sect mission can be given, and the destinations of journeys.
pub open spec fn mission_templates() -> Seq<Seq<char>> {
    seq!["escort_supplies"@, "seek_physician"@, "mediate_dispute"@, "clear_bandits"@]
}

/// The destinations of journeys.
pub open spec fn destinations() -> Seq<Seq<char>> {
    seq!["xiangyang"@, "linan"@, "luoyang"@, "dali"@, "liangzhou"@, "taihu"@]
}

/// `j` was opened for the traveller `t` (on a mission or a wander, for
/// `duration` months, with or without an encounter): the task is one of
/// the four mission tasks drawn, or "free_wander"; the destination one of the
/// six drawn; the difficulty the capability for the task and a roll of
/// `-12..=18`, within `20..=300`; the encounter, when asked for, one drawn by
/// `encounter_weights` (a manual possible when `manual`); the id
/// "journey:", the disciple's id, ":" and sixteen hexadecimal digits drawn;
/// the length at least one month; nothing travelled, met or settled yet.
pub open spec fn journey_opened(t: Traveller, mission: bool, duration: i32, with_encounter: bool, manual: bool, j: Journey) -> bool {
    exists|ti: int, di: int, roll: int, stamp: u64| {
        &&& #[trigger] opened_with(t, mission, duration, with_encounter, manual, j, ti, di, roll, stamp)
    }
}

/// `journey_opened` with its draws named.
pub open spec fn opened_with(t: Traveller, mission: bool, duration: i32, with_encounter: bool, manual: bool, j: Journey, ti: int, di: int, roll: int, stamp: u64) -> bool {
    let template = if mission { mission_templates()[ti] } else { "free_wander"@ };
    &&& 0 <= ti < 4
    &&& 0 <= di < 6
    &&& -12 <= roll <= 18
    &&& j.template_id@ == template
    &&& j.destination_id@ == destinations()[di]
    &&& j.difficulty == clamp_int(capability(t, template) + roll, 20, 300)
    &&& j.total_months == (if duration < 1 { 1 } else { duration })
    &&& j.elapsed_months == 0
    &&& (if with_encounter {
        j.encounter_id matches Some(e) && exists|r: int, i: int|
            #[trigger] lands_at(encounter_weights(t.disciple.aptitudes.fortune as int, t.safety_percent as int, mission, manual), r, i)
            && e@ == encounter_id(encounter_at(i))
    } else {
        j.encounter_id is None
    })
    &&& !j.encounter_resolved
    &&& j.outcome is None
    &&& !j.settled
    &&& j.id@ == "journey:"@ + t.disciple.id@ + ":"@ + hex_digits(stamp, 16)
}

fn template_at(i: usize) -> (r: &'static str)
    requires
        i < 4,
    ensures
        r@ == mission_templates()[i as int],
{
    if i == 0 {
        "escort_supplies"
    } else if i == 1 {
        "seek_physician"
    } else if i == 2 {
        "mediate_dispute"
    } else {
        "clear_bandits"
    }
}

fn destination_at(i: usize) -> (r: &'static str)
    requires
        i < 6,
    ensures
        r@ == destinations()[i as int],
{
    if i == 0 {
        "xiangyang"
    } else if i == 1 {
        "linan"
    } else if i == 2 {
        "luoyang"
    } else if i == 3 {
        "dali"
    } else if i == 4 {
        "liangzhou"
    } else {
        "taihu"
    }
}

/// Opens a journey for a departing traveller (see `journey_opened`): its
/// task, destination, difficulty and encounter are fixed now, and nothing
/// is paid until it is settled on return.
pub fn create_journey(rng: &mut StdRng, t: &Traveller, mission: bool, duration: i32, with_encounter: bool, manual: bool) -> (j: Journey)
    requires
        traveller_sized(*t),
    ensures
        journey_opened(*t, mission, duration, with_encounter, manual, j),
{
    let ti: usize = if mission { pick_index(rng, 4) } else { 0 };
    let template: &str = if mission { template_at(ti) } else { "free_wander" };
    let di = pick_index(rng, 6);
    let destination = destination_at(di);
    let cap = journey_capability(t, template);
    let roll = rand_range(rng, -12, 18);
    let v = cap + roll;
    let difficulty = if v < 20 { 20 } else if v > 300 { 300 } else { v };
    let encounter_id = if with_encounter {
        let e = choose_travel_encounter(rng, t, mission, manual);
        Some(String::from_str(travel_encounter_id(e)))
    } else {
        None
    };
    let stamp = any_u64(rng);
    let mut id = String::from_str("journey:");
    id.append(t.disciple.id.as_str());
    id.append(":");
    id.append(hex16(stamp).as_str());
    let j = Journey {
        id,
        template_id: String::from_str(template),
        destination_id: String::from_str(destination),
        difficulty,
        total_months: if duration < 1 { 1 } else { duration },
        elapsed_months: 0,
        encounter_id,
        encounter_resolved: false,
        outcome: None,
        settled: false,
    };
    proof {
        assert(opened_with(*t, mission, duration, with_encounter, manual, j, ti as int, di as int, roll as int, stamp));
    }
    j
}

/// A manual a traveller may find on the road: its id and its name.
pub struct Manual {
    pub id: String,
    pub name: String,
}

/// What the catalog decides of an encounter for this traveller: the art it
/// trains on the road and its name, the experience a friendly spar, a won
/// and a lost fight with bandits would give it before the department's
/// bonus, and the manuals the traveller could find.
pub struct RoadArts {
    pub art_name: String,
    pub spar_experience: i64,
    pub ambush_won_experience: i64,
    pub ambush_lost_experience: i64,
    pub manuals: Vec<Manual>,
}

/// The experience a road fight gives, raised by the department's bonus for
/// the journey's kind.
pub open spec fn road_gain(t: Traveller, mission: bool, base: i64) -> int {
    spec_department_experience(base as int, spec_department_bonus(t.disciple.department, if mission { ActionKind::SectMission } else { ActionKind::Wander }))
}

/// The strangers a traveller may spar with.
pub open spec fn outsiders() -> Seq<Seq<char>> {
    seq!["河朔刀客"@, "关外镖师"@, "云游女侠"@, "江南剑客"@, "西域行者"@]
}

/// The hermit's guidance with gain `gain` and coin `coin`.
pub open spec fn hermit_applied(t: Traveller, gain: int, coin: bool, p0: PersonGains, p: PersonGains, text: Seq<char>) -> bool {
    let f = t.disciple.aptitudes.fortune;
    let att = 10 + (if f < 0 { 0 } else { f as int }) / 4;
    &&& 2 <= gain <= 5
    &&& if coin {
        &&& p == PersonGains { attainment: (p0.attainment + att) as i64, qi_max: (p0.qi_max + gain) as i32, ..p0 }
        &&& text == "偶遇山中异人指点吐纳关窍，造诣 +"@ + int_text(att) + "、气血上限 +"@ + int_text(gain) + "。"@
    } else {
        &&& p == PersonGains { attainment: (p0.attainment + att) as i64, spirit_max: (p0.spirit_max + gain) as i32, ..p0 }
        &&& text == "偶遇山中异人点破心障，造诣 +"@ + int_text(att) + "、精神上限 +"@ + int_text(gain) + "。"@
    }
}

/// The encounter `e` was met by the traveller `t` (on a mission or not),
/// the road arts being `arts`, with the draws `rolls`: what it gives the
/// traveller (`p0` to `p`) and the sect (`s0` to `s`), the account `text`,
/// and the manual found, if any.
pub open spec fn encounter_applied(
    t: Traveller,
    mission: bool,
    e: TravelEncounterKind,
    arts: RoadArts,
    rolls: Seq<int>,
    p0: PersonGains,
    s0: SectGains,
    p: PersonGains,
    s: SectGains,
    text: Seq<char>,
    found: Option<Seq<char>>,
) -> bool {
    let d = t.disciple;
    let f = d.aptitudes.fortune;
    let f0 = if f < 0 { 0 } else { f as int };
    match e {
        TravelEncounterKind::QuietRoad => {
            &&& p == p0 && s == s0 && found is None
            &&& text == (if mission { "沿途驿路平稳，差事按部就班。"@ } else { "一路观山问俗，虽无惊险，也添了几分见闻。"@ })
        },
        TravelEncounterKind::FriendlySpar => {
            let (who, desired, mine, theirs) = (rolls[0], rolls[1], rolls[2], rolls[3]);
            let room = d.attributes.qi.current + p0.qi - 1;
            let cost = if room < 0 { 0 } else if room > desired { desired } else { room };
            let gain = road_gain(t, mission, arts.spar_experience);
            let won = t.combat + mine >= 65 + theirs;
            &&& rolls.len() == 4 && 0 <= who < 5 && 2 <= desired <= 6 && 0 <= mine <= 80 && 0 <= theirs <= 80
            &&& s == s0 && found is None
            &&& p == PersonGains {
                qi: (p0.qi - cost) as i32,
                attainment: (p0.attainment + 4 + f0 / 10) as i64,
                art_experience: (p0.art_experience + gain) as i64,
                reputation: (p0.reputation + if won { 1int } else { 0 }) as i32,
                ..p0
            }
            &&& text == "路遇"@ + outsiders()[who] + "邀约点到为止，"@
                + (if won { "数十合后略占上风，个人声名 +1"@ } else { "虽落下风，却也看清自身破绽"@ }) + "，"@ + arts.art_name@
                + "经验 +"@ + int_text(gain) + "、气血 -"@ + int_text(cost) + "。"@
        },
        TravelEncounterKind::BanditAmbush => {
            let danger = clamp_int(115 - t.safety_percent, 0, 60);
            let won = t.combat + rolls[0] >= 55 + danger * 2 + rolls[1];
            let gain = road_gain(t, mission, if won { arts.ambush_won_experience } else { arts.ambush_lost_experience });
            &&& rolls.len() == 5 && 0 <= rolls[0] <= 70 && 0 <= rolls[1] <= 65
            &&& found is None
            &&& if won {
                let (cost, spoils) = (rolls[2], rolls[3]);
                &&& 4 <= cost <= 10 && 8 <= spoils <= 24
                &&& p == PersonGains {
                    qi: (p0.qi - cost) as i32,
                    attainment: (p0.attainment + 8) as i64,
                    reputation: (p0.reputation + 2) as i32,
                    art_experience: (p0.art_experience + gain) as i64,
                    personal_silver: (p0.personal_silver + if mission { 0 } else { spoils }) as i32,
                    ..p0
                }
                &&& s == SectGains {
                    prestige: (s0.prestige + 1) as i32,
                    morality: (s0.morality + 1) as i32,
                    silver: (s0.silver + if mission { spoils } else { 0 }) as i32,
                    ..s0
                }
                &&& text == "撞破一伙剪径悍匪，力战驱散群寇；"@ + arts.art_name@ + "经验 +"@ + int_text(gain) + "、气血 -"@
                    + int_text(cost) + "，缴获"@ + int_text(spoils) + "两，个人声名 +2、本派声望 +1。"@
            } else {
                let (qi_loss, spirit_loss, lost0) = (rolls[2], rolls[3], rolls[4]);
                let held = if d.personal_silver < 0 { 0 } else { d.personal_silver as int };
                let lost = if lost0 < held { lost0 } else { held };
                &&& 14 <= qi_loss <= 28 && 3 <= spirit_loss <= 9 && 4 <= lost0 <= 12
                &&& s == s0
                &&& p == PersonGains {
                    qi: (p0.qi - qi_loss) as i32,
                    spirit: (p0.spirit - spirit_loss) as i32,
                    personal_silver: (p0.personal_silver - lost) as i32,
                    attainment: (p0.attainment + 2) as i64,
                    art_experience: (p0.art_experience + gain) as i64,
                    ..p0
                }
                &&& text == "遭悍匪围攻，苦战脱身；"@ + arts.art_name@ + "经验 +"@ + int_text(gain) + "、气血 -"@ + int_text(qi_loss)
                    + "、精神 -"@ + int_text(spirit_loss) + (if lost > 0 { "、遗失私银"@ + int_text(lost) + "两"@ } else { Seq::empty() })
                    + "。"@
            }
        },
        TravelEncounterKind::FoundSupplies => {
            let (grain, herbs, iron) = (rolls[0], rolls[1], rolls[2]);
            &&& rolls.len() == 3 && 3 <= grain <= 8 && 1 <= herbs <= 4 && (iron == 0 || iron == 1)
            &&& found is None
            &&& s == SectGains { grain: (s0.grain + grain) as i32, herbs: (s0.herbs + herbs) as i32, iron: (s0.iron + iron) as i32, ..s0 }
            &&& p == (if mission { PersonGains { merit: (p0.merit + 2) as i64, ..p0 } } else { p0 })
            &&& text == "在荒寺旧驿清点出可用物资，带回粮秣"@ + int_text(grain) + "份、草药"@ + int_text(herbs) + "份"@
                + (if iron > 0 { "、精铁1份"@ } else { Seq::empty() }) + (if mission { "，功绩 +2"@ } else { Seq::empty() }) + "。"@
        },
        TravelEncounterKind::HermitGuidance => {
            &&& rolls.len() == 2 && s == s0 && found is None
            &&& hermit_applied(t, rolls[0], rolls[1] == 1, p0, p, text)
        },
        TravelEncounterKind::LostManual => {
            if arts.manuals@.len() == 0 {
                &&& rolls.len() == 2 && s == s0 && found is None
                &&& hermit_applied(t, rolls[0], rolls[1] == 1, p0, p, text)
            } else {
                let k = rolls[0];
                &&& rolls.len() == 1 && 0 <= k < arts.manuals@.len()
                &&& s == s0
                &&& found == Some(arts.manuals@[k].id@)
                &&& p == PersonGains { attainment: (p0.attainment + 12) as i64, reputation: (p0.reputation + 1) as i32, ..p0 }
                &&& text == "归途中在残碑夹层寻得"@ + arts.manuals@[k].name@ + "遗卷，收入私人行囊；造诣 +12、个人声名 +1。"@
            }
        },
    }
}

fn outsider_at(i: usize) -> (r: &'static str)
    requires
        i < 5,
    ensures
        r@ == outsiders()[i as int],
{
    if i == 0 {
        "河朔刀客"
    } else if i == 1 {
        "关外镖师"
    } else if i == 2 {
        "云游女侠"
    } else if i == 3 {
        "江南剑客"
    } else {
        "西域行者"
    }
}

fn guidance(rng: &mut StdRng, t: &Traveller, p: &mut PersonGains) -> (r: (String, Ghost<Seq<int>>))
    requires
        gains_room(*old(p), SectGains { silver: 0, prestige: 0, morality: 0, grain: 0, herbs: 0, iron: 0 }),
    ensures
        r.1@.len() == 2,
        hermit_applied(*t, r.1@[0], r.1@[1] == 1, *old(p), *final(p), r.0@),
{
    let gain = rand_range(rng, 2, 5);
    let f = t.disciple.aptitudes.fortune;
    let att: i64 = 10 + (if f < 0 { 0 } else { f }) as i64 / 4;
    p.attainment = p.attainment + att;
    let coin = chance(rng, 1, 2);
    let mut text = String::from_str(if coin { "偶遇山中异人指点吐纳关窍，造诣 +" } else { "偶遇山中异人点破心障，造诣 +" });
    text.append(int_string(att).as_str());
    if coin {
        p.qi_max = p.qi_max + gain;
        text.append("、气血上限 +");
    } else {
        p.spirit_max = p.spirit_max + gain;
        text.append("、精神上限 +");
    }
    text.append(int_string(gain as i64).as_str());
    text.append("。");
    let ghost g: Seq<int> = seq![gain as int, if coin { 1int } else { 0 }];
    (text, Ghost(g))
}

/// Plays the encounter `e` of a journey (see `encounter_applied`): returns
/// its account and the id of the manual found, if any.
#[verifier::rlimit(40)]
pub fn apply_travel_encounter(
    rng: &mut StdRng,
    t: &Traveller,
    mission: bool,
    e: TravelEncounterKind,
    arts: &RoadArts,
    p: &mut PersonGains,
    s: &mut SectGains,
) -> (r: (String, Option<String>))
    requires
        gains_room(*old(p), *old(s)),
        traveller_sized(*t),
        -1_000_000 <= t.combat <= 1_000_000,
        -1_000_000 <= arts.spar_experience <= 1_000_000,
        -1_000_000 <= arts.ambush_won_experience <= 1_000_000,
        -1_000_000 <= arts.ambush_lost_experience <= 1_000_000,
    ensures
        exists|rolls: Seq<int>| #[trigger] encounter_applied(
            *t,
            mission,
            e,
            *arts,
            rolls,
            *old(p),
            *old(s),
            *final(p),
            *final(s),
            r.0@,
            crate::lineage::opt_text(r.1),
        ),
{
    let ghost p0 = *p;
    let ghost s0 = *s;
    let kind = if mission { ActionKind::SectMission } else { ActionKind::Wander };
    let d = &t.disciple;
    let f = d.aptitudes.fortune;
    let f0: i64 = if f < 0 { 0 } else { f as i64 };
    match e {
        TravelEncounterKind::QuietRoad => {
            let text = String::from_str(if mission { "沿途驿路平稳，差事按部就班。" } else { "一路观山问俗，虽无惊险，也添了几分见闻。" });
            let res: (String, Option<String>) = (text, None);
            proof {
                assert(encounter_applied(*t, mission, e, *arts, Seq::empty(), p0, s0, *p, *s, res.0@, crate::lineage::opt_text(res.1)));
            }
            res
        },
        TravelEncounterKind::FriendlySpar => {
            let who = pick_index(rng, 5);
            let desired = rand_range(rng, 2, 6);
            let room: i64 = d.attributes.qi.current as i64 + p.qi as i64 - 1;
            let cost: i32 = if room < 0 { 0 } else if room > desired as i64 { desired } else { room as i32 };
            let gain = scale_department_experience(arts.spar_experience, d, kind);
            proof {
                lemma_road_gain_bound(*t, mission, arts.spar_experience, 1_000_000);
                assert(gain == road_gain(*t, mission, arts.spar_experience));
            }
            let mine = rand_range(rng, 0, 80);
            let theirs = rand_range(rng, 0, 80);
            let won = t.combat + mine >= 65 + theirs;
            p.qi = p.qi - cost;
            p.attainment = p.attainment + 4 + f0 / 10;
            p.art_experience = p.art_experience + gain;
            if won {
                p.reputation = p.reputation + 1;
            }
            let mut text = String::from_str("路遇");
            text.append(outsider_at(who));
            text.append("邀约点到为止，");
            text.append(if won { "数十合后略占上风，个人声名 +1" } else { "虽落下风，却也看清自身破绽" });
            text.append("，");
            text.append(arts.art_name.as_str());
            text.append("经验 +");
            text.append(int_string(gain).as_str());
            text.append("、气血 -");
            text.append(int_string(cost as i64).as_str());
            text.append("。");
            let res: (String, Option<String>) = (text, None);
            proof {
                let rolls = seq![who as int, desired as int, mine as int, theirs as int];
                assert(encounter_applied(*t, mission, e, *arts, rolls, p0, s0, *p, *s, res.0@, crate::lineage::opt_text(res.1)));
            }
            res
        },
        TravelEncounterKind::BanditAmbush => {
            let sp = t.safety_percent;
            let danger: i32 = if 115 - sp < 0 { 0 } else if 115 - sp > 60 { 60 } else { 115 - sp };
            let mine = rand_range(rng, 0, 70);
            let theirs = rand_range(rng, 0, 65);
            let won = t.combat + mine >= 55 + danger * 2 + theirs;
            let base = if won { arts.ambush_won_experience } else { arts.ambush_lost_experience };
            let gain = scale_department_experience(base, d, kind);
            proof {
                lemma_road_gain_bound(*t, mission, base, 1_000_000);
                assert(gain == road_gain(*t, mission, base));
            }
            p.art_experience = p.art_experience + gain;
            if won {
                let cost = rand_range(rng, 4, 10);
                let spoils = rand_range(rng, 8, 24);
                p.qi = p.qi - cost;
                p.attainment = p.attainment + 8;
                p.reputation = p.reputation + 2;
                s.prestige = s.prestige + 1;
                s.morality = s.morality + 1;
                if mission {
                    s.silver = s.silver + spoils;
                } else {
                    p.personal_silver = p.personal_silver + spoils;
                }
                let mut text = String::from_str("撞破一伙剪径悍匪，力战驱散群寇；");
                text.append(arts.art_name.as_str());
                text.append("经验 +");
                text.append(int_string(gain).as_str());
                text.append("、气血 -");
                text.append(int_string(cost as i64).as_str());
                text.append("，缴获");
                text.append(int_string(spoils as i64).as_str());
                text.append("两，个人声名 +2、本派声望 +1。");
                let res: (String, Option<String>) = (text, None);
                proof {
                    let rolls = seq![mine as int, theirs as int, cost as int, spoils as int, 0int];
                    assert(encounter_applied(*t, mission, e, *arts, rolls, p0, s0, *p, *s, res.0@, crate::lineage::opt_text(res.1)));
                }
                res
            } else {
                let qi_loss = rand_range(rng, 14, 28);
                let spirit_loss = rand_range(rng, 3, 9);
                let lost0 = rand_range(rng, 4, 12);
                let held: i32 = if d.personal_silver < 0 { 0 } else { d.personal_silver };
                let lost = if lost0 < held { lost0 } else { held };
                p.qi = p.qi - qi_loss;
                p.spirit = p.spirit - spirit_loss;
                p.personal_silver = p.personal_silver - lost;
                p.attainment = p.attainment + 2;
                let mut text = String::from_str("遭悍匪围攻，苦战脱身；");
                text.append(arts.art_name.as_str());
                text.append("经验 +");
                text.append(int_string(gain).as_str());
                text.append("、气血 -");
                text.append(int_string(qi_loss as i64).as_str());
                text.append("、精神 -");
                text.append(int_string(spirit_loss as i64).as_str());
                let ghost head = text@;
                if lost > 0 {
                    text.append("、遗失私银");
                    text.append(int_string(lost as i64).as_str());
                    text.append("两");
                }
                text.append("。");
                let res: (String, Option<String>) = (text, None);
                proof {
                    assert(res.0@ =~= head + (if lost > 0 { "、遗失私银"@ + int_text(lost as int) + "两"@ } else { Seq::empty() }) + "。"@);
                    assert(p.personal_silver == p0.personal_silver - lost);
                    let rolls = seq![mine as int, theirs as int, qi_loss as int, spirit_loss as int, lost0 as int];
                    assert(encounter_applied(*t, mission, e, *arts, rolls, p0, s0, *p, *s, res.0@, crate::lineage::opt_text(res.1)));
                }
                res
            }
        },
        TravelEncounterKind::FoundSupplies => {
            let grain = rand_range(rng, 3, 8);
            let herbs = rand_range(rng, 1, 4);
            let got_iron = if mission { chance(rng, 9, 20) } else { chance(rng, 1, 4) };
            let iron: i32 = if got_iron { 1 } else { 0 };
            s.grain = s.grain + grain;
            s.herbs = s.herbs + herbs;
            s.iron = s.iron + iron;
            if mission {
                p.merit = p.merit + 2;
            }
            let mut text = String::from_str("在荒寺旧驿清点出可用物资，带回粮秣");
            text.append(int_string(grain as i64).as_str());
            text.append("份、草药");
            text.append(int_string(herbs as i64).as_str());
            text.append("份");
            if iron > 0 {
                text.append("、精铁1份");
            }
            if mission {
                text.append("，功绩 +2");
            }
            text.append("。");
            let res: (String, Option<String>) = (text, None);
            proof {
                let rolls = seq![grain as int, herbs as int, iron as int];
                assert(encounter_applied(*t, mission, e, *arts, rolls, p0, s0, *p, *s, res.0@, crate::lineage::opt_text(res.1)));
            }
            res
        },
        TravelEncounterKind::HermitGuidance => {
            let (text, g) = guidance(rng, t, p);
            let res: (String, Option<String>) = (text, None);
            proof {
                assert(encounter_applied(*t, mission, e, *arts, g@, p0, s0, *p, *s, res.0@, crate::lineage::opt_text(res.1)));
            }
            res
        },
        TravelEncounterKind::LostManual => {
            if arts.manuals.len() == 0 {
                let (text, g) = guidance(rng, t, p);
                let res: (String, Option<String>) = (text, None);
                proof {
                    assert(encounter_applied(*t, mission, e, *arts, g@, p0, s0, *p, *s, res.0@, crate::lineage::opt_text(res.1)));
                }
                res
            } else {
                let k = pick_index(rng, arts.manuals.len());
                let m = &arts.manuals[k];
                p.attainment = p.attainment + 12;
                p.reputation = p.reputation + 1;
                let mut text = String::from_str("归途中在残碑夹层寻得");
                text.append(m.name.as_str());
                text.append("遗卷，收入私人行囊；造诣 +12、个人声名 +1。");
                let found = m.id.clone();
                let res: (String, Option<String>) = (text, Some(found));
                proof {
                    let rolls = seq![k as int];
                    assert(encounter_applied(*t, mission, e, *arts, rolls, p0, s0, *p, *s, res.0@, crate::lineage::opt_text(res.1)));
                }
                res
            }
        },
    }
}

/// The encounter a journey meets on return: the one filed, or a quiet road
/// when none (or an unknown one) is.
pub open spec fn filed_encounter(id: Option<String>) -> TravelEncounterKind {
    match id {
        Some(x) => match named_encounter(x@) {
            Some(e) => e,
            None => TravelEncounterKind::QuietRoad,
        },
        None => TravelEncounterKind::QuietRoad,
    }
}

/// The experience a month on the road gives the traveller's own art: the
/// catalog's `road_experience`, raised by the department's bonus and scaled
/// by the road's safety.
pub open spec fn march_gain(t: Traveller, mission: bool, road_experience: i64) -> int {
    spec_scale_positive_i64(road_gain(t, mission, road_experience), t.safety_percent as int)
}

/// The attainment a month on the road gives: 5 on a mission, 8 and a
/// quarter of the fortune on a wander, raised by the department's bonus and
/// scaled by the road's safety.
pub open spec fn travel_attainment(t: Traveller, mission: bool) -> int {
    let f = t.disciple.aptitudes.fortune;
    spec_scale_positive_i64(road_gain(t, mission, (if mission { 5int } else { 8 + trunc_div(f as int, 4) }) as i64), t.safety_percent as int)
}

/// The line of a month away: still travelling, or home again.
pub open spec fn away_line(t: Traveller, j: Journey, march: Seq<char>, gain: int) -> Seq<char> {
    t.disciple.name@ + "仍在"@ + destination_name(j.destination_id@) + "办理"@ + template_name(j.template_id@) + "，途中不忘磨炼"@
        + march + "，经验 +"@ + int_text(gain) + "。"@
}

/// The line of a return, before the settlement and the encounter.
pub open spec fn home_line(t: Traveller, j: Journey, march: Seq<char>, gain: int) -> Seq<char> {
    t.disciple.name@ + "自"@ + destination_name(j.destination_id@) + "风尘归山；"@ + march + "经验 +"@ + int_text(gain) + "。"@
}

/// The return: the journey `j1` settled (see `journey_settled`) into `j2`,
/// then, with encounters on and the filed one not yet met, that encounter
/// met (see `encounter_applied`) and marked met.
pub open spec fn homecoming(
    t: Traveller,
    mission: bool,
    encounters: bool,
    arts: RoadArts,
    j1: Journey,
    p1: PersonGains,
    s0: SectGains,
    j: Journey,
    p: PersonGains,
    s: SectGains,
    tail: Seq<char>,
    found: Option<Seq<char>>,
) -> bool {
    exists|roll: int, j2: Journey, p2: PersonGains, s2: SectGains, settled: Seq<char>, rolls: Seq<int>, met: Seq<char>|
        #[trigger] homecoming_with(t, mission, encounters, arts, j1, p1, s0, j, p, s, tail, found, roll, j2, p2, s2, settled, rolls, met)
}

/// `homecoming` with its intermediate values named.
pub open spec fn homecoming_with(
    t: Traveller,
    mission: bool,
    encounters: bool,
    arts: RoadArts,
    j1: Journey,
    p1: PersonGains,
    s0: SectGains,
    j: Journey,
    p: PersonGains,
    s: SectGains,
    tail: Seq<char>,
    found: Option<Seq<char>>,
    roll: int,
    j2: Journey,
    p2: PersonGains,
    s2: SectGains,
    settled: Seq<char>,
    rolls: Seq<int>,
    met: Seq<char>,
) -> bool {
    &&& journey_settled(t, mission, j1, j2, roll, p1, s0, p2, s2, settled)
    &&& if encounters && !j2.encounter_resolved {
        &&& encounter_applied(t, mission, filed_encounter(j2.encounter_id), arts, rolls, p2, s2, p, s, met, found)
        &&& j == Journey { encounter_resolved: true, ..j2 }
        &&& tail == settled + met
    } else {
        &&& j == j2 && p == p2 && s == s2 && found is None
        &&& tail == settled
    }
}

/// A month of a traveller away on journey `j0`, `away0` months still to go:
/// a month more is travelled (at most the journey's length), one month less
/// remains, the month's attainment and its own art's experience are gained
/// (see `travel_attainment`, `march_gain`); on the last month the traveller
/// comes home (see `homecoming`), the line ending in `tail`, otherwise the
/// line tells where it is.
pub open spec fn journey_month(
    t: Traveller,
    mission: bool,
    encounters: bool,
    arts: RoadArts,
    march: Seq<char>,
    road_experience: i64,
    j0: Journey,
    away0: int,
    j: Journey,
    away: int,
    p0: PersonGains,
    s0: SectGains,
    p: PersonGains,
    s: SectGains,
    text: Seq<char>,
    gain: int,
    found: Option<Seq<char>>,
    tail: Seq<char>,
) -> bool {
    let len = if j0.total_months < 1 { 1 } else { j0.total_months as int };
    let j1 = Journey { elapsed_months: (if j0.elapsed_months + 1 < len { j0.elapsed_months + 1 } else { len }) as i32, ..j0 };
    let p1 = PersonGains { attainment: (p0.attainment + travel_attainment(t, mission)) as i64, ..p0 };
    &&& away == (if away0 - 1 < 0 { 0 } else { away0 - 1 })
    &&& gain == march_gain(t, mission, road_experience)
    &&& if away0 <= 1 {
        &&& homecoming(t, mission, encounters, arts, j1, p1, s0, j, p, s, tail, found)
        &&& text == home_line(t, j0, march, gain) + tail
    } else {
        &&& j == j1 && p == p1 && s == s0 && found is None
        &&& text == away_line(t, j0, march, gain)
    }
}

/// No field of the gains moved by more than three hundred million.
pub open spec fn moved_little(p0: PersonGains, s0: SectGains, p: PersonGains, s: SectGains) -> bool {
    &&& -300_000_000 <= p.merit - p0.merit <= 300_000_000
    &&& -300_000_000 <= p.attainment - p0.attainment <= 300_000_000
    &&& -300_000_000 <= p.reputation - p0.reputation <= 300_000_000
    &&& -300_000_000 <= p.loyalty - p0.loyalty <= 300_000_000
    &&& -300_000_000 <= p.qi - p0.qi <= 300_000_000
    &&& -300_000_000 <= p.spirit - p0.spirit <= 300_000_000
    &&& -300_000_000 <= p.qi_max - p0.qi_max <= 300_000_000
    &&& -300_000_000 <= p.spirit_max - p0.spirit_max <= 300_000_000
    &&& -300_000_000 <= p.personal_silver - p0.personal_silver <= 300_000_000
    &&& -300_000_000 <= p.art_experience - p0.art_experience <= 300_000_000
    &&& -300_000_000 <= s.silver - s0.silver <= 300_000_000
    &&& -300_000_000 <= s.prestige - s0.prestige <= 300_000_000
    &&& -300_000_000 <= s.morality - s0.morality <= 300_000_000
    &&& -300_000_000 <= s.grain - s0.grain <= 300_000_000
    &&& -300_000_000 <= s.herbs - s0.herbs <= 300_000_000
    &&& -300_000_000 <= s.iron - s0.iron <= 300_000_000
}

/// Gains with room for a month on the road.
pub open spec fn road_room(p: PersonGains, s: SectGains) -> bool {
    &&& -500_000_000 <= p.merit <= 500_000_000
    &&& -500_000_000 <= p.attainment <= 500_000_000
    &&& -500_000_000 <= p.reputation <= 500_000_000
    &&& -500_000_000 <= p.loyalty <= 500_000_000
    &&& -500_000_000 <= p.qi <= 500_000_000
    &&& -500_000_000 <= p.spirit <= 500_000_000
    &&& -500_000_000 <= p.qi_max <= 500_000_000
    &&& -500_000_000 <= p.spirit_max <= 500_000_000
    &&& -500_000_000 <= p.personal_silver <= 500_000_000
    &&& -500_000_000 <= p.art_experience <= 500_000_000
    &&& -500_000_000 <= s.silver <= 500_000_000
    &&& -500_000_000 <= s.prestige <= 500_000_000
    &&& -500_000_000 <= s.morality <= 500_000_000
    &&& -500_000_000 <= s.grain <= 500_000_000
    &&& -500_000_000 <= s.herbs <= 500_000_000
    &&& -500_000_000 <= s.iron <= 500_000_000
}

proof fn lemma_mission_silver_bound(t: Traveller, j: Journey, o: JourneyOutcome, m: int)
    requires
        t.external_percent <= 1000,
    ensures
        0 <= mission_silver(t, j, o, m) <= 214_748_370,
{
    let base = spec_department_output(
        28 + j.total_months * 14 + trunc_div(j.difficulty as int, 3),
        spec_department_bonus(t.disciple.department, ActionKind::SectMission),
    );
    let q = mission_quality(t, m);
    let reward = match o {
        JourneyOutcome::Success => trunc_div(base * q, 100),
        JourneyOutcome::Partial => trunc_div(base * q, 200),
        JourneyOutcome::Failed => 0,
    };
    let dir = match t.moral_direction {
        MoralDirection::Righteous => 90int,
        MoralDirection::Neutral => 100,
        MoralDirection::Villainous => 120,
    };
    let x = trunc_div(sat32(reward * dir), 100);
    assert(x <= 21_474_836);
    let pc = if t.external_percent < 0 { 0int } else { t.external_percent as int };
    if x > 0 {
        assert(x * pc <= 21_474_836 * 1000) by (nonlinear_arith)
            requires
                0 < x <= 21_474_836,
                0 <= pc <= 1000;
        assert(x * pc >= 0) by (nonlinear_arith)
            requires
                0 < x,
                0 <= pc;
    }
}

proof fn lemma_road_gain_bound(t: Traveller, mission: bool, base: i64, bound: int)
    requires
        0 <= bound <= 1_000_000,
        -bound <= base <= bound,
    ensures
        -bound <= road_gain(t, mission, base) <= 2 * bound,
{
    let b = spec_department_bonus(t.disciple.department, if mission { ActionKind::SectMission } else { ActionKind::Wander });
    assert(0 <= b <= 15);
    if base > 0 && b > 0 {
        assert(base * b <= bound * 15) by (nonlinear_arith)
            requires
                0 < base <= bound,
                0 < b <= 15;
        assert(base * b > 0) by (nonlinear_arith)
            requires
                0 < base,
                0 < b;
    }
}

proof fn lemma_safety_scale_bound(v: int, pct: int, bound: int)
    requires
        0 <= bound <= 2_000_000,
        v <= bound,
        pct <= 1000,
    ensures
        0 <= spec_scale_positive_i64(v, pct) <= 10 * bound,
{
    if v > 0 {
        let pc = if pct < 0 { 0int } else { pct };
        assert(v * pc <= bound * 1000) by (nonlinear_arith)
            requires
                0 < v <= bound,
                0 <= pc <= 1000;
        assert(v * pc >= 0) by (nonlinear_arith)
            requires
                0 < v,
                0 <= pc;
    }
}

fn home_text(t: &Traveller, j: &Journey, march: &str, gain: i64) -> (r: String)
    requires
        gain > i64::MIN,
    ensures
        r@ == home_line(*t, *j, march@, gain as int),
{
    let mut r = t.disciple.name.clone();
    r.append("自");
    r.append(journey_destination_name(j.destination_id.as_str()));
    r.append("风尘归山；");
    r.append(march);
    r.append("经验 +");
    r.append(int_string(gain).as_str());
    r.append("。");
    r
}

fn away_text(t: &Traveller, j: &Journey, march: &str, gain: i64) -> (r: String)
    requires
        gain > i64::MIN,
    ensures
        r@ == away_line(*t, *j, march@, gain as int),
{
    let mut r = t.disciple.name.clone();
    r.append("仍在");
    r.append(journey_destination_name(j.destination_id.as_str()));
    r.append("办理");
    r.append(journey_template_name(j.template_id.as_str()));
    r.append("，途中不忘磨炼");
    r.append(march);
    r.append("，经验 +");
    r.append(int_string(gain).as_str());
    r.append("。");
    r
}

/// A month of a traveller away on its journey (see `journey_month`):
/// `away` is the number of months still to go, `march` the name of the
/// traveller's own art and `road_experience` the experience the catalog
/// gives it for a month on the road. Returns the month's line, the months
/// still to go, the art's experience gained and the manual found, if any.
#[verifier::rlimit(40)]
pub fn travel_month(
    rng: &mut StdRng,
    t: &Traveller,
    mission: bool,
    encounters: bool,
    arts: &RoadArts,
    march: &str,
    road_experience: i64,
    journey: &mut Journey,
    away: i32,
    p: &mut PersonGains,
    s: &mut SectGains,
) -> (r: (String, i32, i64, Option<String>))
    requires
        journey_sized(*old(journey)),
        traveller_sized(*t),
        t.safety_percent <= 1000,
        -1_000_000 <= t.disciple.aptitudes.fortune <= 1_000_000,
        -1_000_000 <= t.combat <= 1_000_000,
        -1_000_000 <= road_experience <= 1_000_000,
        -1_000_000 <= arts.spar_experience <= 1_000_000,
        -1_000_000 <= arts.ambush_won_experience <= 1_000_000,
        -1_000_000 <= arts.ambush_lost_experience <= 1_000_000,
        road_room(*old(p), *old(s)),
    ensures
        exists|tail: Seq<char>| #[trigger] journey_month(*t, mission, encounters, *arts, march@, road_experience, *old(journey), away as int, *final(journey), r.1 as int, *old(p), *old(s), *final(p), *final(s), r.0@, r.2 as int, crate::lineage::opt_text(r.3), tail),
{
    let ghost j0 = *journey;
    let ghost p0 = *p;
    let ghost s0 = *s;
    let kind = if mission { ActionKind::SectMission } else { ActionKind::Wander };
    let d = &t.disciple;
    let len: i32 = if journey.total_months < 1 { 1 } else { journey.total_months };
    journey.elapsed_months = if journey.elapsed_months < len - 1 { journey.elapsed_months + 1 } else { len };
    let left: i32 = if away <= 0 { 0 } else { away - 1 };
    let f = d.aptitudes.fortune;
    let base: i64 = if mission { 5 } else { 8 + f as i64 / 4 };
    proof {
        lemma_road_gain_bound(*t, mission, base, 1_000_000);
        lemma_safety_scale_bound(road_gain(*t, mission, base), t.safety_percent as int, 2_000_000);
        lemma_road_gain_bound(*t, mission, road_experience, 1_000_000);
        lemma_safety_scale_bound(road_gain(*t, mission, road_experience), t.safety_percent as int, 2_000_000);
    }
    let att = scale_positive_i64(scale_department_experience(base, d, kind), t.safety_percent);
    p.attainment = p.attainment + att;
    let gain = scale_positive_i64(scale_department_experience(road_experience, d, kind), t.safety_percent);
    let ghost j1 = *journey;
    let ghost p1 = *p;
    proof {
        assert(att == travel_attainment(*t, mission));
        assert(gain == march_gain(*t, mission, road_experience));
        let len = if j0.total_months < 1 { 1 } else { j0.total_months as int };
        assert(j1 == Journey { elapsed_months: (if j0.elapsed_months + 1 < len { j0.elapsed_months + 1 } else { len }) as i32, ..j0 });
        assert(p1 == PersonGains { attainment: (p0.attainment + travel_attainment(*t, mission)) as i64, ..p0 });
    }
    if away <= 1 {
        let head = home_text(t, journey, march, gain);
        let settled = settle_journey(rng, t, mission, journey, p, s);
        let ghost j2 = *journey;
        let ghost p2 = *p;
        let ghost s2 = *s;
        let mut text = head;
        let mut found: Option<String> = None;
        let ghost mut tail: Seq<char> = Seq::empty();
        if encounters && !journey.encounter_resolved {
            let e = match &journey.encounter_id {
                Some(id) => match travel_encounter_from_id(id.as_str()) {
                    Some(k) => k,
                    None => TravelEncounterKind::QuietRoad,
                },
                None => TravelEncounterKind::QuietRoad,
            };
            journey.encounter_resolved = true;
            let (met, m) = apply_travel_encounter(rng, t, mission, e, arts, p, s);
            text.append(settled.as_str());
            text.append(met.as_str());
            found = m;
            proof {
                let roll = choose|roll: int| journey_settled(*t, mission, j1, j2, roll, p1, s0, p2, s2, settled@);
                let rolls = choose|rolls: Seq<int>| encounter_applied(*t, mission, e, *arts, rolls, p2, s2, *p, *s, met@, crate::lineage::opt_text(found));
                assert(homecoming_with(*t, mission, encounters, *arts, j1, p1, s0, *journey, *p, *s, settled@ + met@, crate::lineage::opt_text(found), roll, j2, p2, s2, settled@, rolls, met@));
                assert(text@ =~= home_line(*t, j0, march@, gain as int) + (settled@ + met@));
                assert(homecoming(*t, mission, encounters, *arts, j1, p1, s0, *journey, *p, *s, settled@ + met@, crate::lineage::opt_text(found)));
                tail = settled@ + met@;
            }
        } else {
            text.append(settled.as_str());
            proof {
                let roll = choose|roll: int| journey_settled(*t, mission, j1, j2, roll, p1, s0, p2, s2, settled@);
                assert(homecoming_with(*t, mission, encounters, *arts, j1, p1, s0, *journey, *p, *s, settled@, None, roll, j2, p2, s2, settled@, Seq::empty(), Seq::empty()));
                assert(homecoming(*t, mission, encounters, *arts, j1, p1, s0, *journey, *p, *s, settled@, None));
                assert(text@ =~= home_line(*t, j0, march@, gain as int) + settled@);
                tail = settled@;
            }
        }
        let r = (text, left, gain, found);
        proof {
            let len = if j0.total_months < 1 { 1 } else { j0.total_months as int };
            let j1s = Journey { elapsed_months: (if j0.elapsed_months + 1 < len { j0.elapsed_months + 1 } else { len }) as i32, ..j0 };
            let p1s = PersonGains { attainment: (p0.attainment + travel_attainment(*t, mission)) as i64, ..p0 };
            assert(j1s == j1);
            assert(p1s == p1);
            assert(homecoming(*t, mission, encounters, *arts, j1s, p1s, s0, *journey, *p, *s, tail, crate::lineage::opt_text(r.3)));
            assert(r.0@ == home_line(*t, j0, march@, gain as int) + tail);
            assert(away <= 1);
            assert(r.1 as int == (if away - 1 < 0 { 0 } else { away - 1 }));
            assert(r.2 as int == march_gain(*t, mission, road_experience));
            assert(journey_month(*t, mission, encounters, *arts, march@, road_experience, j0, away as int, *journey, r.1 as int, p0, s0, *p, *s, r.0@, r.2 as int, crate::lineage::opt_text(r.3), tail));
        }
        r
    } else {
        let text = away_text(t, journey, march, gain);
        let r = (text, left, gain, None);
        proof {
            assert(*journey == j1);
            assert(*p == p1);
            assert(*s == s0);
            assert(r.0@ == away_line(*t, j0, march@, gain as int));
            assert(crate::lineage::opt_text(r.3) is None);
            assert(journey_month(*t, mission, encounters, *arts, march@, road_experience, j0, away as int, *journey, r.1 as int, p0, s0, *p, *s, r.0@, r.2 as int, crate::lineage::opt_text(r.3), Seq::empty()));
        }
        r
    }
}

/// The departure of a traveller (see `journey_opened`): a mission lasts 1 to
/// 3 months and gives attainment 8 before it leaves; a wander lasts 1 to 4
/// months, gives 8 and a quarter of the fortune and costs 0 to 8 qi; both
/// raised by the department's bonus and scaled by the road's safety. The
/// traveller's own art gains its experience; the sect is paid nothing until
/// the journey is settled. `text` announces it.
pub open spec fn departed(
    t: Traveller,
    mission: bool,
    encounters: bool,
    manual: bool,
    march: Seq<char>,
    road_experience: i64,
    j: Journey,
    duration: int,
    qi_cost: int,
    p0: PersonGains,
    p: PersonGains,
    text: Seq<char>,
    gain: int,
) -> bool {
    let f = t.disciple.aptitudes.fortune;
    let att = spec_scale_positive_i64(road_gain(t, mission, (if mission { 8int } else { 8 + trunc_div(f as int, 4) }) as i64), t.safety_percent as int);
    &&& (if mission { 1 <= duration <= 3 } else { 1 <= duration <= 4 })
    &&& (if mission { qi_cost == 0 } else { 0 <= qi_cost <= 8 })
    &&& journey_opened(t, mission, duration as i32, encounters, manual, j)
    &&& gain == march_gain(t, mission, road_experience)
    &&& p == PersonGains { attainment: (p0.attainment + att) as i64, qi: (p0.qi - qi_cost) as i32, ..p0 }
    &&& text == if mission {
        t.disciple.name@ + "领下"@ + template_name(j.template_id@) + "，启程前往"@ + destination_name(j.destination_id@) + "，卷宗难度"@
            + int_text(j.difficulty as int) + "，约需"@ + int_text(duration) + "个月方回；"@ + march + "经验 +"@ + int_text(gain)
            + "。赏银、声望与物资待归山验收后一次结算。"@
    } else {
        t.disciple.name@ + "负笈前往"@ + destination_name(j.destination_id@) + "自由历练，卷宗难度"@ + int_text(j.difficulty as int)
            + "，预备"@ + int_text(duration) + "个月后归山；"@ + march + "经验 +"@ + int_text(gain) + "。本程奇遇与所得归山时揭晓。"@
    }
}

/// Sends a traveller off on a mission or a wander (see `departed`):
/// returns the journey, its length in months, the announcement and the
/// experience its own art gained.
#[verifier::rlimit(40)]
pub fn depart_on_journey(
    rng: &mut StdRng,
    t: &Traveller,
    mission: bool,
    encounters: bool,
    manual: bool,
    march: &str,
    road_experience: i64,
    p: &mut PersonGains,
) -> (r: (Journey, i32, String, i64))
    requires
        traveller_sized(*t),
        t.safety_percent <= 1000,
        -1_000_000 <= t.disciple.aptitudes.fortune <= 1_000_000,
        -1_000_000 <= road_experience <= 1_000_000,
        road_room(*old(p), SectGains { silver: 0, prestige: 0, morality: 0, grain: 0, herbs: 0, iron: 0 }),
    ensures
        exists|qi_cost: int| #[trigger] departed(*t, mission, encounters, manual, march@, road_experience, r.0, r.1 as int, qi_cost, *old(p), *final(p), r.2@, r.3 as int),
{
    let ghost p0 = *p;
    let kind = if mission { ActionKind::SectMission } else { ActionKind::Wander };
    let d = &t.disciple;
    let duration = if mission { rand_range(rng, 1, 3) } else { rand_range(rng, 1, 4) };
    let j = create_journey(rng, t, mission, duration, encounters, manual);
    let f = d.aptitudes.fortune;
    let base: i64 = if mission { 8 } else { 8 + f as i64 / 4 };
    proof {
        lemma_road_gain_bound(*t, mission, base, 1_000_000);
        lemma_safety_scale_bound(road_gain(*t, mission, base), t.safety_percent as int, 2_000_000);
        lemma_road_gain_bound(*t, mission, road_experience, 1_000_000);
        lemma_safety_scale_bound(road_gain(*t, mission, road_experience), t.safety_percent as int, 2_000_000);
    }
    let att = scale_positive_i64(scale_department_experience(base, d, kind), t.safety_percent);
    p.attainment = p.attainment + att;
    let qi_cost: i32 = if mission { 0 } else { rand_range(rng, 0, 8) };
    p.qi = p.qi - qi_cost;
    let gain = scale_positive_i64(scale_department_experience(road_experience, d, kind), t.safety_percent);
    let mut text = d.name.clone();
    if mission {
        text.append("领下");
        text.append(journey_template_name(j.template_id.as_str()));
        text.append("，启程前往");
        text.append(journey_destination_name(j.destination_id.as_str()));
        text.append("，卷宗难度");
        text.append(int_string(j.difficulty as i64).as_str());
        text.append("，约需");
        text.append(int_string(duration as i64).as_str());
        text.append("个月方回；");
        text.append(march);
        text.append("经验 +");
        text.append(int_string(gain).as_str());
        text.append("。赏银、声望与物资待归山验收后一次结算。");
    } else {
        text.append("负笈前往");
        text.append(journey_destination_name(j.destination_id.as_str()));
        text.append("自由历练，卷宗难度");
        text.append(int_string(j.difficulty as i64).as_str());
        text.append("，预备");
        text.append(int_string(duration as i64).as_str());
        text.append("个月后归山；");
        text.append(march);
        text.append("经验 +");
        text.append(int_string(gain).as_str());
        text.append("。本程奇遇与所得归山时揭晓。");
    }
    let r = (j, duration, text, gain);
    proof {
        assert(departed(*t, mission, encounters, manual, march@, road_experience, r.0, r.1 as int, qi_cost as int, p0, *p, r.2@, r.3 as int));
    }
    r
}

} // verus!
