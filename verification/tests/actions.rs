use zhangmenriji::actions::{
    action_name, country_action_weight_adjustment, department_bonus_percent, is_martial_training, journey_outcome,
    moral_action_weight_adjustment, morality_change_text, policy_action_weight_adjustment, scale_department_experience,
    scale_department_output, scale_experience, scale_output, signed_change, JourneyOutcome,
};
use zhangmenriji::model::{ActionKind, Department, Disciple, MoralDirection, SectPolicy};
use zhangmenriji::sect::SectState;

#[test]
fn autonomous_economic_weights_follow_prosperity_and_order() {
    assert_eq!(country_action_weight_adjustment(ActionKind::Business, 0, 65), -8);
    assert_eq!(country_action_weight_adjustment(ActionKind::Business, 100, 65), 6);
    assert_eq!(country_action_weight_adjustment(ActionKind::Produce, 0, 65), 8);
    assert_eq!(country_action_weight_adjustment(ActionKind::Produce, 100, 65), -6);
    assert_eq!(country_action_weight_adjustment(ActionKind::SectMission, 70, 0), 8);
    assert_eq!(country_action_weight_adjustment(ActionKind::SectMission, 70, 100), -5);
    assert_eq!(country_action_weight_adjustment(ActionKind::Wander, 70, 0), -5);
    assert_eq!(country_action_weight_adjustment(ActionKind::Wander, 70, 100), 7);
}

#[test]
fn moral_direction_and_chivalrous_policy_change_autonomous_action_weights() {
    assert_eq!(moral_action_weight_adjustment(ActionKind::SectMission, MoralDirection::Righteous), 12);
    assert_eq!(moral_action_weight_adjustment(ActionKind::Business, MoralDirection::Villainous), 10);
    assert_eq!(moral_action_weight_adjustment(ActionKind::Business, MoralDirection::Righteous), -5);
    assert_eq!(moral_action_weight_adjustment(ActionKind::Wander, MoralDirection::Neutral), 0);

    let mut chivalrous = SectState {
        policy: SectPolicy::Chivalrous,
        ..SectState::default()
    };
    let chivalrous_bonus = policy_action_weight_adjustment(&chivalrous, ActionKind::SectMission);
    chivalrous.policy = SectPolicy::Mercantile;
    let mercantile_bonus = policy_action_weight_adjustment(&chivalrous, ActionKind::SectMission);
    assert!(chivalrous_bonus > mercantile_bonus);
    assert_eq!(policy_action_weight_adjustment(&chivalrous, ActionKind::Practice), 0);
}

#[test]
fn journey_outcome_boundaries_are_exact() {
    assert_eq!(journey_outcome(0), JourneyOutcome::Success);
    assert_eq!(journey_outcome(-1), JourneyOutcome::Partial);
    assert_eq!(journey_outcome(-20), JourneyOutcome::Partial);
    assert_eq!(journey_outcome(-21), JourneyOutcome::Failed);
}

#[test]
fn departments_raise_only_their_own_actions_with_rounding_up() {
    let steward = Disciple {
        department: Some(Department::Stewardship),
        ..Disciple::default()
    };
    let idle = Disciple::default();
    assert_eq!(department_bonus_percent(&steward, ActionKind::Construct), 15);
    assert_eq!(department_bonus_percent(&steward, ActionKind::Read), 0);
    assert_eq!(department_bonus_percent(&idle, ActionKind::Construct), 0);
    assert_eq!(scale_department_output(1, &steward, ActionKind::Maintain), 2);
    assert_eq!(scale_department_output(20, &steward, ActionKind::Maintain), 23);
    assert_eq!(scale_department_output(20, &idle, ActionKind::Maintain), 20);
    assert_eq!(scale_department_output(-4, &steward, ActionKind::Maintain), -4);
    assert_eq!(scale_department_output(i32::MAX, &steward, ActionKind::Maintain), i32::MAX);
    assert_eq!(scale_department_experience(100, &steward, ActionKind::Construct), 115);
    assert_eq!(scale_department_experience(i64::MAX, &steward, ActionKind::Construct), i64::MAX);
}

#[test]
fn outputs_scale_with_effectiveness_and_saturate() {
    assert_eq!(scale_output(50, 120), 60);
    assert_eq!(scale_output(50, -10), 0);
    assert_eq!(scale_output(i32::MAX, 200), i32::MAX / 100);
    assert_eq!(scale_experience(300, 50), 150);
    assert_eq!(scale_experience(i64::MAX, 300), i64::MAX / 100);
}

#[test]
fn changes_are_written_with_their_sign() {
    assert_eq!(signed_change(3), "+3");
    assert_eq!(signed_change(0), "+0");
    assert_eq!(signed_change(-2), "-2");
    assert_eq!(morality_change_text(0), "");
    assert_eq!(morality_change_text(-5), "、道德 -5");
    assert!(is_martial_training(ActionKind::Spar));
    assert!(!is_martial_training(ActionKind::Read));
    assert_eq!(action_name(ActionKind::CultivateNeili), "neili");
}
