use rand::rngs::StdRng;
use rand::SeedableRng;
use zhangmenriji::economy::{advance_auto_brew, apply_building_wear, consume_monthly_rations};
use zhangmenriji::sect::SectState;
use zhangmenriji::game::GameState;
use zhangmenriji::model::{Disciple, DiscipleCondition, DiscipleRank};

fn assign_active_herb_elder(state: &mut GameState) {
    state.disciples.push(Disciple {
        id: "elder".into(),
        rank: DiscipleRank::Inner,
        ..Disciple::default()
    });
    state
        .sect
        .buildings
        .iter_mut()
        .find(|building| building.id == "herb_hall")
        .unwrap()
        .elder_id = Some("elder".into());
}

fn stock(state: &GameState, item: &str) -> i32 {
    state.sect.inventory.get(item).expect("item should be stocked")
}

#[test]
fn auto_brew_with_elder_finishes_recipe_and_advances_index() {
    let mut state = GameState::default();
    state.sect.inventory.insert("草药", 10);
    assign_active_herb_elder(&mut state);

    advance_auto_brew(&mut state);

    assert_eq!(stock(&state, "草药"), 6);
    assert_eq!(stock(&state, "金疮药"), 2);
    assert_eq!(state.sect.auto_brew_progress, 0);
    assert_eq!(state.sect.auto_brew_index, 1);
}

#[test]
fn damaged_herb_hall_slows_or_stops_the_background_furnace() {
    let mut state = GameState::default();
    state.sect.inventory.insert("草药", 20);
    assign_active_herb_elder(&mut state);
    let herb_hall = state
        .sect
        .buildings
        .iter_mut()
        .find(|building| building.id == "herb_hall")
        .unwrap();
    herb_hall.condition = 0;

    advance_auto_brew(&mut state);
    assert_eq!(state.sect.auto_brew_progress, 0);
    assert_eq!(stock(&state, "草药"), 20);

    state
        .sect
        .buildings
        .iter_mut()
        .find(|building| building.id == "herb_hall")
        .unwrap()
        .condition = 50;
    advance_auto_brew(&mut state);
    assert_eq!(
        state.sect.auto_brew_progress, 1,
        "半毁的百草堂炼一月方的速度应减半"
    );
    advance_auto_brew(&mut state);
    assert_eq!(stock(&state, "草药"), 16);
    assert_eq!(stock(&state, "金疮药"), 2);
}

#[test]
fn background_furnace_follows_the_configured_loop_or_pauses_when_empty() {
    let mut state = GameState::default();
    state.sect.inventory.insert("草药", 20);
    state.sect.auto_brew_queue = vec!["qi".into()];
    assign_active_herb_elder(&mut state);

    advance_auto_brew(&mut state);
    assert_eq!(state.sect.auto_brew_progress, 1);
    advance_auto_brew(&mut state);
    assert_eq!(stock(&state, "养气丹"), 1);
    assert_eq!(state.sect.auto_brew_index, 0);

    state.sect.auto_brew_queue.clear();
    state.sect.auto_brew_progress = 3;
    advance_auto_brew(&mut state);
    assert_eq!(state.sect.auto_brew_progress, 0);
    assert_eq!(state.sect.auto_brew_index, 0);
}

#[test]
fn away_or_injured_herb_elder_does_not_accelerate_the_background_furnace() {
    for (away_months, condition) in [
        (1, DiscipleCondition::Healthy),
        (0, DiscipleCondition::SeriouslyInjured),
    ] {
        let mut state = GameState::default();
        state.month = 1;
        state.sect.inventory.insert("草药", 10);
        assign_active_herb_elder(&mut state);
        state.disciples[0].away_months = away_months;
        state.disciples[0].condition = condition;

        advance_auto_brew(&mut state);

        assert_eq!(stock(&state, "草药"), 10);
        assert_eq!(state.sect.auto_brew_progress, 0);
        assert_eq!(state.sect.auto_brew_index, 0);
    }
}

#[test]
fn auto_brew_without_elder_runs_at_half_speed_and_waits_for_herbs() {
    let mut state = GameState::default();
    state.sect.auto_brew_index = 1;
    state.sect.inventory.insert("草药", 5);

    for month in 1..=2 {
        state.month = month;
        advance_auto_brew(&mut state);
    }
    assert_eq!(state.sect.auto_brew_progress, 0, "草药不足时不应推进");

    state.sect.inventory.insert("草药", 6);
    for month in 3..=6 {
        state.month = month;
        advance_auto_brew(&mut state);
    }
    assert_eq!(stock(&state, "草药"), 0);
    assert_eq!(stock(&state, "养气丹"), 1);
    assert_eq!(state.sect.auto_brew_progress, 0);
    assert_eq!(state.sect.auto_brew_index, 2);
}

#[test]
fn personal_rations_are_consumed_and_shortage_has_real_consequences() {
    let mut fed = Disciple {
        name: "饱食者".into(),
        personal_rations: 3,
        ..Disciple::default()
    };
    let mut hungry = Disciple {
        name: "断粮者".into(),
        personal_rations: 2,
        ..Disciple::default()
    };
    hungry.attributes.qi.current = 50;
    hungry.attributes.energy.current = 20;
    hungry.attributes.sect_loyalty = 60;

    let (events, shortages) = consume_monthly_rations(std::slice::from_mut(&mut fed), 1, 1, true);
    assert_eq!(shortages, 0);
    assert!(events.is_empty());
    assert_eq!(fed.personal_rations, 0);

    let (events, shortages) =
        consume_monthly_rations(std::slice::from_mut(&mut hungry), 1, 1, true);
    assert_eq!(shortages, 1);
    assert_eq!(hungry.personal_rations, 0);
    assert_eq!(hungry.attributes.qi.current, 47);
    assert_eq!(hungry.attributes.energy.current, 19);
    assert_eq!(hungry.attributes.sect_loyalty, 59);
    assert!(events[0].text.contains("缺了1份口粮"));
}

#[test]
fn building_maintenance_consumes_resources_and_shortage_accelerates_wear() {
    let mut supplied = SectState::default();
    let mut short = supplied.clone();
    short.inventory.insert("粮秣", 0);
    short.inventory.insert("精铁", 0);
    let mut supplied_rng = StdRng::seed_from_u64(91);
    let mut short_rng = StdRng::seed_from_u64(91);

    let supplied_result = apply_building_wear(&mut supplied_rng, &mut supplied);
    let short_result = apply_building_wear(&mut short_rng, &mut short);

    assert_eq!(supplied_result.grain_due, 1);
    assert_eq!(supplied_result.iron_due, 1);
    assert!(supplied_result.fully_supplied());
    assert_eq!(supplied.inventory.get("粮秣"), Some(79));
    assert_eq!(supplied.inventory.get("精铁"), Some(39));
    assert!(!short_result.fully_supplied());
    for (supplied_building, short_building) in supplied.buildings.iter().zip(&short.buildings) {
        assert_eq!(
            short_building.condition,
            supplied_building.condition - 4,
            "粮铁同时欠供时，每座堂舍应额外损耗四点"
        );
    }
}
