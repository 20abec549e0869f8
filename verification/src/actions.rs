//! Small rules of the disciples' monthly actions: how the sect's standing
//! and the realm shift the odds of each action, the bonus a department gives,
//! how outputs scale, and how a journey ends.
use vstd::prelude::*;
use crate::country::{clamp_int, clamp_value, spec_clamp_value, trunc_div};
use crate::management::{int_string, int_text};
use crate::model::{ActionKind, Department, Disciple, MoralDirection};
use crate::sect::{policy_bonus, sat32, spec_policy_bonus, SectState};

verus! {

/// Extra weight the sect's policy gives an action: half the policy's
/// morality bonus for missions and wandering, nothing for the rest.
pub open spec fn spec_policy_action_weight(sect: SectState, kind: ActionKind) -> int {
    match kind {
        ActionKind::SectMission | ActionKind::Wander => trunc_div(spec_policy_bonus(sect.policy, "morality"@), 2),
        _ => 0,
    }
}

/// Extra weight the sect's policy gives an action (see `spec_policy_action_weight`).
pub fn policy_action_weight_adjustment(sect: &SectState, kind: ActionKind) -> (r: i32)
    ensures
        r == spec_policy_action_weight(*sect, kind),
{
    match kind {
        ActionKind::SectMission | ActionKind::Wander => policy_bonus(sect, "morality") / 2,
        _ => 0,
    }
}

/// Extra weight the sect's moral direction gives an action.
pub open spec fn spec_moral_action_weight(kind: ActionKind, direction: MoralDirection) -> int {
    match (direction, kind) {
        (MoralDirection::Righteous, ActionKind::SectMission) => 12,
        (MoralDirection::Righteous, ActionKind::Wander) => 8,
        (MoralDirection::Righteous, ActionKind::Business) => -5,
        (MoralDirection::Villainous, ActionKind::Business) => 10,
        (MoralDirection::Villainous, ActionKind::SectMission) => 12,
        (MoralDirection::Villainous, ActionKind::Wander) => -4,
        _ => 0,
    }
}

/// Extra weight the sect's moral direction gives an action (see
/// `spec_moral_action_weight`).
pub fn moral_action_weight_adjustment(kind: ActionKind, direction: MoralDirection) -> (r: i32)
    ensures
        r == spec_moral_action_weight(kind, direction),
{
    match (direction, kind) {
        (MoralDirection::Righteous, ActionKind::SectMission) => 12,
        (MoralDirection::Righteous, ActionKind::Wander) => 8,
        (MoralDirection::Righteous, ActionKind::Business) => -5,
        (MoralDirection::Villainous, ActionKind::Business) => 10,
        (MoralDirection::Villainous, ActionKind::SectMission) => 12,
        (MoralDirection::Villainous, ActionKind::Wander) => -4,
        _ => 0,
    }
}

/// Extra weight the realm gives an action, from its prosperity and order
/// (each held within `0..=100`): business thrives in prosperity, production
/// in hardship, missions in disorder and wandering in order.
pub open spec fn spec_country_action_weight(kind: ActionKind, prosperity: int, order: int) -> int {
    let p = spec_clamp_value(prosperity);
    let o = spec_clamp_value(order);
    match kind {
        ActionKind::Business => clamp_int(trunc_div(p - 70, 5), -8, 6),
        ActionKind::Produce => clamp_int(trunc_div(70 - p, 5), -6, 8),
        ActionKind::SectMission => clamp_int(trunc_div(65 - o, 5), -5, 8),
        ActionKind::Wander => clamp_int(trunc_div(o - 65, 5), -5, 7),
        _ => 0,
    }
}

fn clamp_i32(v: i32, lo: i32, hi: i32) -> (r: i32)
    requires
        lo <= hi,
    ensures
        r == clamp_int(v as int, lo as int, hi as int),
{
    if v < lo {
        lo
    } else if v > hi {
        hi
    } else {
        v
    }
}

/// Extra weight the realm gives an action (see `spec_country_action_weight`).
pub fn country_action_weight_adjustment(kind: ActionKind, prosperity: i32, order: i32) -> (r: i32)
    ensures
        r == spec_country_action_weight(kind, prosperity as int, order as int),
{
    let p = clamp_value(prosperity);
    let o = clamp_value(order);
    match kind {
        ActionKind::Business => clamp_i32((p - 70) / 5, -8, 6),
        ActionKind::Produce => clamp_i32((70 - p) / 5, -6, 8),
        ActionKind::SectMission => clamp_i32((65 - o) / 5, -5, 8),
        ActionKind::Wander => clamp_i32((o - 65) / 5, -5, 7),
        _ => 0,
    }
}

/// Practice, sparring, tempering the body and cultivating inner force are
/// martial training.
pub open spec fn spec_martial_training(kind: ActionKind) -> bool {
    matches!(kind, ActionKind::Practice | ActionKind::Spar | ActionKind::TemperBody | ActionKind::CultivateNeili)
}

/// Whether an action is martial training (see `spec_martial_training`).
pub fn is_martial_training(kind: ActionKind) -> (r: bool)
    ensures
        r == spec_martial_training(kind),
{
    matches!(kind, ActionKind::Practice | ActionKind::Spar | ActionKind::TemperBody | ActionKind::CultivateNeili)
}

/// The bonus, in percent, a disciple's department gives an action of its
/// charge: 10, or 15 for gathering herbs in the apothecary and for upkeep and
/// building in the stewardship; 0 for any other action or no department.
pub open spec fn spec_department_bonus(department: Option<Department>, kind: ActionKind) -> int {
    match department {
        Some(Department::Transmission) => if matches!(kind, ActionKind::Teach | ActionKind::Practice | ActionKind::Spar | ActionKind::TemperBody | ActionKind::CultivateNeili) {
            10
        } else {
            0
        },
        Some(Department::Library) => if matches!(kind, ActionKind::Read | ActionKind::Meditate) { 10 } else { 0 },
        Some(Department::Apothecary) => if kind == ActionKind::Gather { 15 } else { 0 },
        Some(Department::Treasury) => if matches!(kind, ActionKind::Produce | ActionKind::Business) { 10 } else { 0 },
        Some(Department::Stewardship) => if matches!(kind, ActionKind::Maintain | ActionKind::Construct) { 15 } else { 0 },
        Some(Department::ExternalAffairs) => if matches!(kind, ActionKind::SectMission | ActionKind::Wander) { 10 } else { 0 },
        None => 0,
    }
}

/// The bonus a disciple's department gives an action (see `spec_department_bonus`).
pub fn department_bonus_percent(disciple: &Disciple, kind: ActionKind) -> (r: i32)
    ensures
        r == spec_department_bonus(disciple.department, kind),
{
    match disciple.department {
        Some(Department::Transmission) => if matches!(kind, ActionKind::Teach | ActionKind::Practice | ActionKind::Spar | ActionKind::TemperBody | ActionKind::CultivateNeili) {
            10
        } else {
            0
        },
        Some(Department::Library) => if matches!(kind, ActionKind::Read | ActionKind::Meditate) { 10 } else { 0 },
        Some(Department::Apothecary) => if kind == ActionKind::Gather { 15 } else { 0 },
        Some(Department::Treasury) => if matches!(kind, ActionKind::Produce | ActionKind::Business) { 10 } else { 0 },
        Some(Department::Stewardship) => if matches!(kind, ActionKind::Maintain | ActionKind::Construct) { 15 } else { 0 },
        Some(Department::ExternalAffairs) => if matches!(kind, ActionKind::SectMission | ActionKind::Wander) { 10 } else { 0 },
        None => 0,
    }
}

/// `v` held within `i64`.
pub open spec fn sat64(v: int) -> int {
    clamp_int(v, i64::MIN as int, i64::MAX as int)
}

/// A positive output raised by the department's bonus, the bonus's share
/// rounded up, all in saturating `i32` arithmetic; other outputs unchanged.
pub open spec fn spec_department_output(value: int, bonus: int) -> int {
    if value <= 0 || bonus <= 0 {
        value
    } else {
        sat32(value + trunc_div(sat32(sat32(value * bonus) + 99), 100))
    }
}

/// A positive experience gain raised by the department's bonus, as
/// `spec_department_output` in `i64`.
pub open spec fn spec_department_experience(value: int, bonus: int) -> int {
    if value <= 0 || bonus <= 0 {
        value
    } else {
        sat64(value + trunc_div(sat64(sat64(value * bonus) + 99), 100))
    }
}

fn sat_i64(v: i128) -> (r: i64)
    ensures
        r == sat64(v as int),
{
    if v < i64::MIN as i128 {
        i64::MIN
    } else if v > i64::MAX as i128 {
        i64::MAX
    } else {
        v as i64
    }
}

/// An output raised by the department's bonus (see `spec_department_output`).
pub fn scale_department_output(value: i32, disciple: &Disciple, kind: ActionKind) -> (r: i32)
    ensures
        r == spec_department_output(value as int, spec_department_bonus(disciple.department, kind)),
{
    let bonus = department_bonus_percent(disciple, kind);
    if value <= 0 || bonus <= 0 {
        return value;
    }
    proof {
        assert(0 < value as int * bonus <= 2147483647 * 15) by (nonlinear_arith)
            requires
                0 < value <= 2147483647,
                0 < bonus <= 15,
        ;
    }
    let product = crate::sect::clamp_i64_to_i32(value as i64 * bonus as i64);
    let rounded = crate::sect::clamp_i64_to_i32(product as i64 + 99);
    crate::sect::clamp_i64_to_i32(value as i64 + (rounded / 100) as i64)
}

/// An experience gain raised by the department's bonus (see
/// `spec_department_experience`).
pub fn scale_department_experience(value: i64, disciple: &Disciple, kind: ActionKind) -> (r: i64)
    ensures
        r == spec_department_experience(value as int, spec_department_bonus(disciple.department, kind)),
{
    let bonus = department_bonus_percent(disciple, kind) as i64;
    if value <= 0 || bonus <= 0 {
        return value;
    }
    proof {
        assert(0 < value as int * bonus <= 9223372036854775807 * 15) by (nonlinear_arith)
            requires
                0 < value,
                0 < bonus <= 15,
        ;
    }
    let product = sat_i64(value as i128 * bonus as i128);
    let rounded = sat_i64(product as i128 + 99);
    sat_i64(value as i128 + (rounded / 100) as i128)
}

/// An output at `effectiveness` percent: the product held in `i32`, over 100.
pub open spec fn spec_scale_output(value: int, effectiveness: int) -> int {
    trunc_div(sat32(value * (if effectiveness < 0 { 0 } else { effectiveness })), 100)
}

/// An output at `effectiveness` percent (see `spec_scale_output`).
pub fn scale_output(value: i32, effectiveness: i32) -> (r: i32)
    ensures
        r == spec_scale_output(value as int, effectiveness as int),
{
    let e: i64 = if effectiveness < 0 { 0 } else { effectiveness as i64 };
    proof {
        assert(-2147483648 * 2147483647 <= value as int * e <= 2147483647 * 2147483647) by (nonlinear_arith)
            requires
                -2147483648 <= value <= 2147483647,
                0 <= e <= 2147483647,
        ;
    }
    crate::sect::clamp_i64_to_i32(value as i64 * e) / 100
}

/// Experience at `effectiveness` percent: the product held in `i64`, over 100.
pub open spec fn spec_scale_experience(value: int, effectiveness: int) -> int {
    trunc_div(sat64(value * (if effectiveness < 0 { 0 } else { effectiveness })), 100)
}

/// Experience at `effectiveness` percent (see `spec_scale_experience`).
pub fn scale_experience(value: i64, effectiveness: i32) -> (r: i64)
    ensures
        r == spec_scale_experience(value as int, effectiveness as int),
{
    let e: i128 = if effectiveness < 0 { 0 } else { effectiveness as i128 };
    proof {
        assert(-9223372036854775808 * 2147483647 <= value as int * e <= 9223372036854775807 * 2147483647) by (nonlinear_arith)
            requires
                -9223372036854775808 <= value <= 9223372036854775807,
                0 <= e <= 2147483647,
        ;
    }
    sat_i64(value as i128 * e) / 100
}

/// How a journey ends.
#[derive(Clone, Copy, Debug, PartialEq, Eq, Structural)]
pub enum JourneyOutcome {
    Success,
    Partial,
    Failed,
}

/// The end of a journey by its margin: success at 0 or more, partial success
/// down to -20, failure below.
pub open spec fn spec_journey_outcome(margin: int) -> JourneyOutcome {
    if margin >= 0 {
        JourneyOutcome::Success
    } else if margin >= -20 {
        JourneyOutcome::Partial
    } else {
        JourneyOutcome::Failed
    }
}

/// The end of a journey by its margin (see `spec_journey_outcome`).
pub fn journey_outcome(margin: i32) -> (r: JourneyOutcome)
    ensures
        r == spec_journey_outcome(margin as int),
{
    if margin >= 0 {
        JourneyOutcome::Success
    } else if margin >= -20 {
        JourneyOutcome::Partial
    } else {
        JourneyOutcome::Failed
    }
}

/// A change written with its sign: `+` before a gain or zero.
pub open spec fn signed_text(delta: int) -> Seq<char> {
    if delta >= 0 { "+"@ + int_text(delta) } else { int_text(delta) }
}

/// A change written with its sign (see `signed_text`).
pub fn signed_change(delta: i32) -> (r: String)
    ensures
        r@ == signed_text(delta as int),
{
    if delta >= 0 {
        let mut t = String::from_str("+");
        let n = int_string(delta as i64);
        t.append(n.as_str());
        t
    } else {
        int_string(delta as i64)
    }
}

/// The note of a change in morality, empty when there is none.
pub open spec fn morality_note(delta: int) -> Seq<char> {
    if delta == 0 { Seq::empty() } else { "、道德 "@ + signed_text(delta) }
}

/// The note of a change in morality (see `morality_note`).
pub fn morality_change_text(delta: i32) -> (r: String)
    ensures
        r@ == morality_note(delta as int),
{
    if delta == 0 {
        String::new()
    } else {
        let mut t = String::from_str("、道德 ");
        let s = signed_change(delta);
        t.append(s.as_str());
        t
    }
}

/// The short name of an action.
pub open spec fn action_label(kind: ActionKind) -> Seq<char> {
    match kind {
        ActionKind::Read => "read"@,
        ActionKind::Practice => "practice"@,
        ActionKind::Teach => "teach"@,
        ActionKind::Spar => "spar"@,
        ActionKind::TemperBody => "temper"@,
        ActionKind::CultivateNeili => "neili"@,
        ActionKind::Meditate => "meditate"@,
        ActionKind::SectMission => "mission"@,
        ActionKind::Wander => "wander"@,
        ActionKind::Recover => "recover"@,
        ActionKind::Maintain => "maintain"@,
        ActionKind::Construct => "construct"@,
        ActionKind::Produce => "produce"@,
        ActionKind::Business => "business"@,
        ActionKind::Gather => "gather"@,
    }
}

/// The short name of an action (see `action_label`).
pub fn action_name(kind: ActionKind) -> (r: &'static str)
    ensures
        r@ == action_label(kind),
{
    match kind {
        ActionKind::Read => "read",
        ActionKind::Practice => "practice",
        ActionKind::Teach => "teach",
        ActionKind::Spar => "spar",
        ActionKind::TemperBody => "temper",
        ActionKind::CultivateNeili => "neili",
        ActionKind::Meditate => "meditate",
        ActionKind::SectMission => "mission",
        ActionKind::Wander => "wander",
        ActionKind::Recover => "recover",
        ActionKind::Maintain => "maintain",
        ActionKind::Construct => "construct",
        ActionKind::Produce => "produce",
        ActionKind::Business => "business",
        ActionKind::Gather => "gather",
    }
}

} // verus!
