use zhangmenriji::country::{
    adjust_country, country_values, default_countries, evolve_monthly, external_percent,
    find_country, market_percent, market_percent_for, normalize_countries, safety_percent,
    safety_percent_for, scale_positive, scale_positive_i64, war_support_values, Country,
};
use zhangmenriji::game::GameState;

fn song(countries: &Vec<Country>) -> (i32, i32) {
    let c = find_country(countries, "song").unwrap();
    (c.prosperity, c.order)
}

fn set_warehouse(state: &mut GameState, level: Option<i32>, condition: Option<i32>) {
    let building = state
        .sect
        .buildings
        .iter_mut()
        .find(|building| building.id == "warehouse")
        .unwrap();
    if let Some(level) = level {
        building.level = level;
    }
    if let Some(condition) = condition {
        building.condition = condition;
    }
}

#[test]
fn country_multipliers_obey_neutral_points_and_boundaries() {
    assert_eq!(market_percent(-50), 85);
    assert_eq!(market_percent(0), 85);
    assert_eq!(market_percent(70), 100);
    assert_eq!(market_percent(100), 115);
    assert_eq!(market_percent(500), 115);

    assert_eq!(safety_percent(-50), 85);
    assert_eq!(safety_percent(0), 85);
    assert_eq!(safety_percent(65), 100);
    assert_eq!(safety_percent(100), 115);
    assert_eq!(safety_percent(500), 115);
    assert_eq!(external_percent(70, 65), 100);
    assert_eq!(war_support_values(100, 100), 49);

    assert_eq!(scale_positive(101, 85), 85);
    assert_eq!(scale_positive_i64(101, 115), 116);
    assert_eq!(scale_positive(-5, 115), 0);
}

#[test]
fn missing_country_uses_neutral_values_and_normalization_preserves_progress() {
    let mut state = GameState::default();
    state.countries = vec![];
    assert_eq!(country_values(&state, "unknown"), (70, 65));
    assert_eq!(market_percent_for(&state, "unknown"), 100);
    assert_eq!(safety_percent_for(&state, "unknown"), 100);

    let mut countries = vec![Country {
        id: "song".into(),
        name: "旧名".into(),
        prosperity: 101,
        order: -1,
        population: 11200,
    }];
    normalize_countries(&mut countries);
    assert_eq!(countries.len(), 4);
    let song = find_country(&countries, "song").unwrap();
    assert_eq!(song.name, "大宋");
    assert_eq!((song.prosperity, song.order), (100, 0));
}

#[test]
fn monthly_evolution_is_deterministic_bounded_and_at_most_one_step() {
    let mut base = GameState::default();
    base.countries = default_countries();
    base.sect.country_id = "song".into();
    base.sect.attributes.morale = 80;
    base.sect.attributes.morality = 80;
    set_warehouse(&mut base, Some(3), None);
    base.npc_sects.clear();
    let mut first = base.clone();
    let mut second = base;
    let before = first.countries.clone();

    let first_event = evolve_monthly(&mut first);
    let second_event = evolve_monthly(&mut second);

    for (a, b) in first.countries.iter().zip(&second.countries) {
        assert_eq!((&a.id, a.prosperity, a.order), (&b.id, b.prosperity, b.order));
    }
    assert_eq!(
        first_event.as_ref().map(|e| e.text.clone()),
        second_event.as_ref().map(|e| e.text.clone())
    );
    for (old, new) in before.iter().zip(&first.countries) {
        assert!((new.prosperity - old.prosperity).abs() <= 1);
        assert!((new.order - old.order).abs() <= 1);
        assert!((0..=100).contains(&new.prosperity));
        assert!((0..=100).contains(&new.order));
    }
    assert_eq!(song(&first.countries), (86, 63));
    let event = first_event.expect("本国两项国势均应上升");
    assert_eq!(event.category, "world");
    assert!(event.text.starts_with("【四境月报】"));
    assert!(event.text.contains("大宋商旅渐盛（繁荣＋1）"));
    assert!(event.text.contains("大宋道途稍靖（治安＋1）"));
}

#[test]
fn monthly_evolution_respects_zero_and_hundred_boundaries() {
    let mut high = GameState::default();
    high.npc_sects.clear();
    high.countries = vec![Country {
        id: "song".into(),
        name: "大宋".into(),
        prosperity: 100,
        order: 100,
        population: 11200,
    }];
    high.sect.attributes.morale = 100;
    high.sect.attributes.morality = 100;
    set_warehouse(&mut high, Some(3), None);
    evolve_monthly(&mut high);
    assert_eq!(song(&high.countries), (100, 100));

    let mut low = GameState::default();
    low.npc_sects.clear();
    low.countries = vec![Country {
        id: "song".into(),
        name: "大宋".into(),
        prosperity: 0,
        order: 0,
        population: 11200,
    }];
    low.sect.attributes.morale = 0;
    low.sect.attributes.morality = 0;
    set_warehouse(&mut low, None, Some(0));
    evolve_monthly(&mut low);
    assert_eq!(song(&low.countries), (0, 0));
}

#[test]
fn two_negative_signals_still_move_each_country_value_by_only_one() {
    let mut state = GameState::default();
    state.npc_sects.clear();
    state.sect.country_id = "song".into();
    state.sect.attributes.morale = 30;
    state.sect.attributes.morality = 30;
    set_warehouse(&mut state, None, Some(50));
    let song_record = state
        .countries
        .iter_mut()
        .find(|country| country.id == "song")
        .unwrap();
    song_record.prosperity = 50;
    song_record.order = 50;

    let event = evolve_monthly(&mut state).expect("低迷月况应写入四境月报");

    assert_eq!(song(&state.countries), (49, 49));
    assert!(event.text.contains("大宋百业稍疲（繁荣－1）"));
    assert!(event.text.contains("大宋盗风渐炽（治安－1）"));
}

#[test]
fn adjust_country_reports_only_actual_clamped_change() {
    let mut state = GameState::default();
    let song_record = state
        .countries
        .iter_mut()
        .find(|country| country.id == "song")
        .unwrap();
    song_record.prosperity = 100;
    song_record.order = 1;

    assert_eq!(adjust_country(&mut state, "song", 5, -2), (0, -1));
    assert_eq!(adjust_country(&mut state, "missing", 1, 1), (0, 0));
}

#[test]
fn quiet_month_writes_no_report_and_other_realms_hold_still() {
    let mut state = GameState::default();
    state.sect.attributes.morale = 50;
    state.sect.attributes.morality = 50;
    let before: Vec<(i32, i32)> = state.countries.iter().map(|c| (c.prosperity, c.order)).collect();
    let event = evolve_monthly(&mut state);
    assert!(event.is_none());
    let after: Vec<(i32, i32)> = state.countries.iter().map(|c| (c.prosperity, c.order)).collect();
    assert_eq!(before, after);
}

#[test]
fn report_joins_lines_of_several_realms_in_order() {
    let mut state = GameState::default();
    state.sect.attributes.morale = 80;
    state.sect.attributes.morality = 80;
    set_warehouse(&mut state, Some(3), None);
    let mut other = zhangmenriji::sect::SectState::default();
    other.id = "duan".into();
    other.country_id = "dali".into();
    other.attributes.morale = 10;
    other.attributes.morality = 10;
    state.npc_sects.push(other);
    let event = evolve_monthly(&mut state).unwrap();
    assert_eq!(
        event.text,
        "【四境月报】大宋商旅渐盛（繁荣＋1）；大宋道途稍靖（治安＋1）；大理百业稍疲（繁荣－1）；大理盗风渐炽（治安－1）。"
    );
}

#[test]
fn scaling_a_huge_gain_saturates() {
    assert_eq!(scale_positive(i32::MAX, 200), i32::MAX);
    assert_eq!(scale_positive_i64(i64::MAX, 200), i64::MAX / 100);
    assert_eq!(scale_positive(50, -10), 0);
}
