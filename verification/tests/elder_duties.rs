use rand::rngs::StdRng;
use rand::SeedableRng;
use zhangmenriji::economy::{medicine_name, pill_recipe, Medicine};
use zhangmenriji::elder_duties::{elder_brew_weight, execute_elder_duty, scaled_output};
use zhangmenriji::elder_month::execute_monthly_elder_duties;
use zhangmenriji::game::GameState;
use zhangmenriji::model::{Department, Disciple, DiscipleRank};
use zhangmenriji::recruit::generate_disciple;
use zhangmenriji::requests::{execute_management, ManagementRequest};
use zhangmenriji::sect::{apply_monthly_upkeep, Building};

fn hall<'a>(state: &'a mut GameState, id: &str) -> &'a mut Building {
    state.sect.buildings.iter_mut().find(|building| building.id == id).unwrap()
}

#[test]
fn elder_duty_scales_with_building_level_and_stops_when_destroyed() {
    let mut state = GameState::default();
    let mut rng = StdRng::seed_from_u64(211);
    let mut elder = Disciple {
        id: "baseline_elder".into(),
        ..Disciple::default()
    };
    elder.rank = DiscipleRank::Inner;
    let elder_id = elder.id.clone();
    state.disciples.push(elder);
    let scripture = hall(&mut state, "scripture");
    scripture.elder_id = Some(elder_id);
    scripture.level = 2;

    execute_elder_duty(&mut rng, &mut state, "scripture", "comprehend").unwrap();
    assert_eq!(state.sect.martial_research.get("hunyuan"), Some(71));

    {
        let scripture = hall(&mut state, "scripture");
        scripture.condition = 0;
        scripture.elder_action_used = false;
    }
    let error = execute_elder_duty(&mut rng, &mut state, "scripture", "comprehend").unwrap_err();
    assert!(error.contains("已经损毁"));
    assert_eq!(state.sect.martial_research.get("hunyuan"), Some(71));
    assert!(!hall(&mut state, "scripture").elder_action_used);
}

#[test]
fn monthly_elder_duty_output_distinguishes_high_and_low_competence() {
    fn state_with_elder(mut elder: Disciple) -> GameState {
        elder.rank = DiscipleRank::Inner;
        let elder_id = elder.id.clone();
        let mut state = GameState::default();
        state.disciples.push(elder);
        let scripture = hall(&mut state, "scripture");
        scripture.elder_id = Some(elder_id);
        scripture.selected_duty = Some("comprehend".into());
        state
    }

    let mut high = Disciple {
        id: "high_elder".into(),
        department: Some(Department::Library),
        merit: 500,
        ..Disciple::default()
    };
    high.aptitudes.intelligence = 60;
    high.knowledge_level = 100;
    let mut low = Disciple {
        id: "low_elder".into(),
        department: Some(Department::Transmission),
        merit: -500,
        ..Disciple::default()
    };
    low.aptitudes.intelligence = 0;
    let mut high_state = state_with_elder(high);
    let mut low_state = state_with_elder(low);
    let mut high_rng = StdRng::seed_from_u64(214);
    let mut low_rng = StdRng::seed_from_u64(214);

    execute_monthly_elder_duties(&mut high_rng, &mut high_state);
    execute_monthly_elder_duties(&mut low_rng, &mut low_state);

    assert_eq!(high_state.sect.martial_research.get("hunyuan"), Some(73));
    assert_eq!(low_state.sect.martial_research.get("hunyuan"), Some(65));
}

#[test]
fn expand_duty_persists_and_uses_the_selected_building() {
    let mut state = GameState::default();
    let mut rng = StdRng::seed_from_u64(23);
    let mut elder = generate_disciple(&mut rng, 0);
    elder.rank = DiscipleRank::Inner;
    let elder_id = elder.id.clone();
    state.disciples.push(elder);
    hall(&mut state, "logistics").level = 2;
    hall(&mut state, "logistics").elder_id = Some(elder_id);

    execute_management(
        &mut rng,
        &mut state,
        ManagementRequest::SetElderDuty {
            building_id: "logistics".into(),
            duty_id: "expand".into(),
            duty_target: Some("scripture".into()),
        },
    )
    .unwrap();
    assert_eq!(hall(&mut state, "logistics").duty_target.as_deref(), Some("scripture"));

    let result = execute_elder_duty(&mut rng, &mut state, "logistics", "expand").unwrap();
    let scripture = hall(&mut state, "scripture");
    assert_eq!(scripture.work_required, 40);
    assert_eq!(scripture.work_invested, 0);
    assert!(result.contains("扩建藏经阁，立项40点工作量"));
}

#[test]
fn expand_duty_falls_back_to_an_available_weighted_target() {
    let mut state = GameState::default();
    let mut rng = StdRng::seed_from_u64(24);
    let mut elder = generate_disciple(&mut rng, 0);
    elder.rank = DiscipleRank::Inner;
    let elder_id = elder.id.clone();
    state.disciples.push(elder);
    for building in &mut state.sect.buildings {
        building.level = 3;
        building.work_required = 10;
    }
    let practice = hall(&mut state, "practice");
    practice.level = 1;
    practice.work_required = 0;
    let logistics = hall(&mut state, "logistics");
    logistics.elder_id = Some(elder_id);
    logistics.duty_target = Some("missing".into());

    execute_elder_duty(&mut rng, &mut state, "logistics", "expand").unwrap();
    assert_eq!(hall(&mut state, "practice").work_required, 40);
}

#[test]
fn every_pill_recipe_consumes_herbs_and_finishes_into_inventory() {
    let mut rng = StdRng::seed_from_u64(22);

    for recipe_id in ["wound", "qi", "foundation"] {
        let recipe = pill_recipe(recipe_id).unwrap();
        let mut state = GameState::default();
        state.sect.inventory.insert("草药", 100);
        execute_management(
            &mut rng,
            &mut state,
            ManagementRequest::BrewPill {
                recipe_id: recipe_id.into(),
            },
        )
        .unwrap();
        let fast_months = (recipe.months * 2 + 2) / 3;
        assert_eq!(state.sect.inventory.get("草药"), Some(100 - recipe.herb_cost));
        assert_eq!(state.sect.productions[0].remaining_months, fast_months);
        for _ in 0..fast_months {
            apply_monthly_upkeep(&mut state.sect, 0);
        }
        assert_eq!(state.sect.inventory.get(medicine_name(recipe.medicine)), Some(recipe.quantity));
        assert!(state.sect.productions.is_empty());
    }
}

#[test]
fn elder_brew_uses_selected_recipe_and_rate_weights() {
    let mut state = GameState::default();
    let mut rng = StdRng::seed_from_u64(24);
    let mut elder = generate_disciple(&mut rng, 0);
    elder.rank = DiscipleRank::Inner;
    let elder_id = elder.id.clone();
    state.disciples.push(elder);
    hall(&mut state, "herb_hall").elder_id = Some(elder_id);

    execute_management(
        &mut rng,
        &mut state,
        ManagementRequest::SetElderDuty {
            building_id: "herb_hall".into(),
            duty_id: "brew".into(),
            duty_target: Some("foundation".into()),
        },
    )
    .unwrap();
    let result = execute_elder_duty(&mut rng, &mut state, "herb_hall", "brew").unwrap();

    assert_eq!(state.sect.inventory.get("草药"), Some(18));
    assert_eq!(state.sect.inventory.get(medicine_name(Medicine::Foundation)), Some(1));
    assert!(result.contains("培元丹"));
    assert_eq!(hall(&mut state, "herb_hall").duty_target.as_deref(), Some("foundation"));

    let regular = pill_recipe("wound").unwrap();
    let slow = pill_recipe("foundation").unwrap();
    assert!(elder_brew_weight(regular, 100) > elder_brew_weight(slow, 100));
    assert_eq!(
        elder_brew_weight(regular, regular.herb_cost - 1) * 3,
        elder_brew_weight(regular, regular.herb_cost)
    );
}

#[test]
fn scaled_output_is_at_least_one_and_saturates() {
    assert_eq!(scaled_output(3, 100), 3);
    assert_eq!(scaled_output(18, 85), 15);
    assert_eq!(scaled_output(2, 10), 1);
    assert_eq!(scaled_output(5, -40), 1);
    assert_eq!(scaled_output(i32::MAX, i32::MAX), i32::MAX / 100);
}

#[test]
fn instruct_scout_and_treat_duties_apply_capped_gains() {
    let mut state = GameState::default();
    let mut rng = StdRng::seed_from_u64(5);
    state.disciples.push(Disciple {
        id: "elder".into(),
        rank: DiscipleRank::Inner,
        ..Disciple::default()
    });
    hall(&mut state, "practice").elder_id = Some("elder".into());
    state.sect.attributes.morale = 99;

    let text = execute_elder_duty(&mut rng, &mut state, "practice", "instruct").unwrap();
    assert_eq!(state.sect.attributes.morale, 100);
    assert!(text.starts_with("本月整饬教习，门人志气提升3点"));
    assert!(hall(&mut state, "practice").elder_action_used);

    let again = execute_elder_duty(&mut rng, &mut state, "practice", "drill").unwrap_err();
    assert_eq!(again, "这位长老本月已办过一桩堂务。");

    let wrong = execute_elder_duty(&mut rng, &mut state, "scripture", "instruct").unwrap_err();
    assert_eq!(wrong, "此处长老席位尚缺，无人主持堂务。");
}

#[test]
fn purchase_and_recruit_duties_refuse_without_silver() {
    let mut state = GameState::default();
    let mut rng = StdRng::seed_from_u64(6);
    state.disciples.push(Disciple {
        id: "elder".into(),
        rank: DiscipleRank::Inner,
        ..Disciple::default()
    });
    hall(&mut state, "warehouse").elder_id = Some("elder".into());
    state.sect.attributes.silver = 10;
    let error = execute_elder_duty(&mut rng, &mut state, "warehouse", "purchase").unwrap_err();
    assert_eq!(error, "库银不足以采买物资。");
    assert_eq!(state.sect.attributes.silver, 10);

    state.sect.attributes.silver = 100;
    let text = execute_elder_duty(&mut rng, &mut state, "warehouse", "purchase").unwrap();
    assert_eq!(state.sect.attributes.silver, 85);
    assert_eq!(state.sect.inventory.get("草药"), Some(30 + 5));
    assert!(text.contains("为库中添了5份草药"));
}
