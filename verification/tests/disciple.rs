use zhangmenriji::disciple::{age_qi_modifier, age_spirit_modifier, refresh_condition};
use rand::rngs::StdRng;
use rand::SeedableRng;
use zhangmenriji::model::{Disciple, DiscipleCondition};
use zhangmenriji::recruit::generate_disciple;

#[test]
fn age_curve_grows_then_declines_by_fixed_points() {
    assert_eq!(age_qi_modifier(35) - age_qi_modifier(34), 3);
    assert_eq!(age_qi_modifier(36) - age_qi_modifier(35), -4);
    assert_eq!(age_spirit_modifier(35) - age_spirit_modifier(34), 2);
    assert_eq!(age_spirit_modifier(36) - age_spirit_modifier(35), -3);
}

#[test]
fn zero_resources_set_expected_conditions() {
    let mut d = Disciple::default();
    d.attributes.qi.current = 0;
    refresh_condition(&mut d);
    assert_eq!(d.condition, DiscipleCondition::SeriouslyInjured);

    d.attributes.qi.current = 10;
    d.attributes.spirit.current = 0;
    refresh_condition(&mut d);
    assert_eq!(d.condition, DiscipleCondition::Unconscious);

    d.attributes.spirit.maximum = 0;
    refresh_condition(&mut d);
    assert_eq!(d.condition, DiscipleCondition::Dead);
    assert!(!d.alive);
}

#[test]
fn generated_disciple_has_consistent_v3_attributes() {
    let mut rng = StdRng::seed_from_u64(7);
    let d = generate_disciple(&mut rng, 10);
    assert_eq!(d.inner_power, d.attributes.neili.maximum);
    assert_eq!(d.loyalty, d.attributes.sect_loyalty);
    assert!(d.proficiencies.contains_key(&d.martial_art));
    assert!(d.attributes.qi.maximum > 0);
}
