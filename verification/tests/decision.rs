use rand::rngs::StdRng;
use rand::SeedableRng;
use zhangmenriji::decision::execute_decision;
use zhangmenriji::event::PendingWorldEvent;
use zhangmenriji::game::GameState;
use zhangmenriji::model::{Disciple, DiscipleRank};

fn test_disciple(id: &str, name: &str) -> Disciple {
    let mut disciple = Disciple::default();
    disciple.id = id.into();
    disciple.name = name.into();
    disciple.sect_id = Some("player".into());
    disciple.rank = DiscipleRank::Inner;
    disciple
}

#[test]
fn recruit_and_rest_write_the_v3_sect_and_keep_legacy_mirrors_in_step() {
    let mut recruit_state = GameState::default();
    let silver_before = recruit_state.sect.attributes.silver;
    let mut recruit_rng = StdRng::seed_from_u64(701);

    let recruit_events = execute_decision(&mut recruit_rng, &mut recruit_state, "recruit", &Vec::new());

    assert_eq!(recruit_events.len(), 1);
    assert_eq!(recruit_state.sect.attributes.silver, silver_before - 50);
    assert_eq!(recruit_state.silver, recruit_state.sect.attributes.silver);
    assert!(!recruit_state.disciples.is_empty());
    assert!(recruit_state
        .disciples
        .iter()
        .all(|disciple| disciple.sect_id.as_deref() == Some(recruit_state.sect.id.as_str())));

    let mut rest_state = GameState {
        injury: 60,
        ..GameState::default()
    };
    let morale_before = rest_state.sect.attributes.morale;
    let mut rest_rng = StdRng::seed_from_u64(702);

    let rest_events = execute_decision(&mut rest_rng, &mut rest_state, "rest", &Vec::new());

    assert_eq!(rest_events.len(), 1);
    assert!(rest_state.injury < 60);
    assert_eq!(rest_state.sect.attributes.morale, morale_before - 1);
    assert_eq!(rest_state.morale, rest_state.sect.attributes.morale);
}

#[test]
fn removed_hidden_legacy_decision_ids_are_true_no_ops() {
    for decision_id in ["repair", "diplomacy", "unknown"] {
        let mut state = GameState::default();
        let before = format!("{state:?}");
        let mut rng = StdRng::seed_from_u64(703);

        let events = execute_decision(&mut rng, &mut state, decision_id, &Vec::new());

        assert!(events.is_empty());
        assert_eq!(format!("{state:?}"), before);
    }
}

#[test]
fn mission_is_a_sect_resource_decision_and_never_rewards_a_disciple_twice() {
    let steward = test_disciple("steward", "周执事");
    let mut traveler = test_disciple("traveler", "叶行");
    traveler.away_months = 2;
    traveler.personal_silver = 17;
    let steward_before = format!("{steward:?}");
    let traveler_before = format!("{traveler:?}");
    let mut state = GameState {
        disciples: vec![steward, traveler],
        ..GameState::default()
    };
    let silver_before = state.sect.attributes.silver;
    let mut rng = StdRng::seed_from_u64(34);

    let events = execute_decision(&mut rng, &mut state, "mission", &Vec::new());

    assert_eq!(events.len(), 1);
    assert!(events[0].text.contains("执事堂以门派名义"));
    assert!(state.sect.attributes.silver > silver_before);
    assert_eq!(state.silver, state.sect.attributes.silver);
    assert_eq!(format!("{:?}", state.disciples[0]), steward_before);
    assert_eq!(format!("{:?}", state.disciples[1]), traveler_before);
}

#[test]
fn mission_cannot_create_resources_when_every_disciple_is_away() {
    let mut traveler = test_disciple("traveler", "叶行");
    traveler.away_months = 2;
    let mut state = GameState {
        disciples: vec![traveler],
        ..GameState::default()
    };
    let silver_before = state.sect.attributes.silver;
    let prestige_before = state.sect.attributes.prestige;
    let mut rng = StdRng::seed_from_u64(340);

    let events = execute_decision(&mut rng, &mut state, "mission", &Vec::new());

    assert!(events.is_empty());
    assert_eq!(state.decisions_used, 0);
    assert_eq!(state.sect.attributes.silver, silver_before);
    assert_eq!(state.sect.attributes.prestige, prestige_before);
}

#[test]
fn damaged_buildings_block_all_four_v3_decisions_before_spending_or_growth() {
    for (decision_id, building_id) in [
        ("train", "practice"),
        ("teach", "practice"),
        ("study", "scripture"),
        ("mission", "affairs"),
    ] {
        let mut state = GameState {
            disciples: vec![
                test_disciple("teacher", "师长"),
                test_disciple("student", "门人"),
            ],
            ..GameState::default()
        };
        state
            .sect
            .buildings
            .iter_mut()
            .find(|building| building.id == building_id)
            .unwrap()
            .condition = 0;
        let before = format!("{state:?}");
        let mut rng = StdRng::seed_from_u64(35);

        let events = execute_decision(&mut rng, &mut state, decision_id, &Vec::new());

        assert!(events.is_empty(), "{decision_id} 应被损毁建筑阻止");
        assert_eq!(state.decisions_used, 0);
        assert_eq!(format!("{state:?}"), before);
    }
}

#[test]
fn legacy_decisions_cannot_mutate_pending_or_sealed_games() {
    let mut rng = StdRng::seed_from_u64(8);
    let mut sealed = GameState {
        game_over: true,
        game_won: true,
        ..GameState::default()
    };
    let sealed_silver = sealed.silver;

    let events = execute_decision(&mut rng, &mut sealed, "recruit", &Vec::new());

    assert!(events.is_empty());
    assert_eq!(sealed.silver, sealed_silver);
    assert_eq!(sealed.decisions_used, 0);
    assert!(sealed.disciples.is_empty());

    let mut pending = GameState::default();
    pending.pending_event = Some(PendingWorldEvent {
        id: "pending".into(),
        category: String::new(),
        title: String::new(),
        text: String::new(),
        choices: Vec::new(),
    });
    let pending_injury = pending.injury;
    let events = execute_decision(&mut rng, &mut pending, "rest", &Vec::new());

    assert!(events.is_empty());
    assert_eq!(pending.injury, pending_injury);
    assert_eq!(pending.decisions_used, 0);
}

#[test]
fn recruiting_is_refused_without_fifty_silver() {
    let mut state = GameState::default();
    state.sect.attributes.silver = 49;
    let before = format!("{state:?}");
    let mut rng = StdRng::seed_from_u64(5);

    let events = execute_decision(&mut rng, &mut state, "recruit", &Vec::new());

    assert!(events.is_empty());
    assert_eq!(format!("{state:?}"), before);
}

#[test]
fn a_recruiting_notice_names_each_recruit_with_its_rank_and_is_recorded() {
    let mut state = GameState::default();
    let mut rng = StdRng::seed_from_u64(9);

    let events = execute_decision(&mut rng, &mut state, "recruit", &Vec::new());

    assert_eq!(events.len(), 1);
    let event = &events[0];
    assert!(event.text.starts_with("招贤榜贴出，"));
    assert!(event.text.ends_with("前来拜山投师。"));
    assert!((1..=2).contains(&state.disciples.len()));
    for d in &state.disciples {
        assert!(event.text.contains(&d.name));
    }
    assert_eq!(event.mood, "good");
    assert_eq!(event.category, "sect");
    assert_eq!(state.decisions_used, 1);
    assert_eq!(state.total_disciples_recruited, state.disciples.len() as i32);
    assert_eq!(state.event_log.last().unwrap().text, event.text);
}

#[test]
fn rest_heals_between_fifteen_and_thirty_points() {
    let mut state = GameState {
        injury: 60,
        ..GameState::default()
    };
    let mut rng = StdRng::seed_from_u64(12);

    let events = execute_decision(&mut rng, &mut state, "rest", &Vec::new());

    assert_eq!(events[0].text, "掌门闭门静养月余，伤势大有好转。");
    assert!((30..=45).contains(&state.injury));

    let mut healed = GameState::default();
    healed.injury = 5;
    execute_decision(&mut rng, &mut healed, "rest", &Vec::new());
    assert_eq!(healed.injury, 0);
}

#[test]
fn the_chronicle_keeps_its_last_eighty_entries_after_a_decision() {
    let mut state = GameState::default();
    let mut rng = StdRng::seed_from_u64(21);
    for _ in 0..85 {
        execute_decision(&mut rng, &mut state, "rest", &Vec::new());
    }
    assert_eq!(state.event_log.len(), 80);
    assert_eq!(state.decisions_used, 85);
}

#[test]
fn research_decision_creates_a_public_scripture_manual() {
    let mut state = GameState::default();
    let silver_before = state.silver;
    let books_before = state.sect.public_books.clone();
    let mut rng = StdRng::seed_from_u64(7);
    let arts = vec![("player_taiyi_sword".to_string(), "《太乙剑法》".to_string())];

    let events = execute_decision(&mut rng, &mut state, "research", &arts);

    assert_eq!(events.len(), 1);
    assert_eq!(state.decisions_used, 1);
    assert_eq!(state.silver, silver_before - 120);
    let new_book = state
        .sect
        .public_books
        .iter()
        .find(|book| !books_before.contains(book))
        .expect("研发武学应写入藏经阁公册");
    assert!(state.martial_arts_learned.contains(new_book));
    assert_eq!(state.sect.martial_research.get(new_book), Some(60));
    assert_eq!(events[0].text, "群策群力，终于创成《太乙剑法》，本派武学又开一脉。");
}

#[test]
fn research_decision_stops_once_every_own_art_is_learnt() {
    let mut state = GameState::default();
    state.martial_arts_learned.push("player_taiyi_sword".into());
    let mut rng = StdRng::seed_from_u64(7);
    let arts = vec![("player_taiyi_sword".to_string(), "《太乙剑法》".to_string())];
    let events = execute_decision(&mut rng, &mut state, "research", &arts);
    assert!(events.is_empty());
    assert_eq!(state.decisions_used, 0);
    assert_eq!(state.sect.attributes.silver, 500);
}
