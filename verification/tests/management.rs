use rand::rngs::StdRng;
use rand::SeedableRng;
use zhangmenriji::event::PendingWorldEvent;
use zhangmenriji::game::GameState;
use zhangmenriji::model::{Department, Disciple, DiscipleRank};
use zhangmenriji::recruit::generate_disciple;
use zhangmenriji::requests::{execute_management, ManagementRequest};
use zhangmenriji::creation::{ArtLabels, BasicArtRating};
use zhangmenriji::sect::ArtCategory;

fn member(id: &str, rank: DiscipleRank) -> Disciple {
    Disciple {
        id: id.into(),
        rank,
        ..Disciple::default()
    }
}

fn assign(disciple_id: &str, master_id: Option<&str>) -> ManagementRequest {
    ManagementRequest::AssignMaster {
        disciple_id: disciple_id.into(),
        master_id: master_id.map(|m| m.to_string()),
    }
}

#[test]
fn pending_event_blocks_even_free_management_changes() {
    let mut state = GameState::default();
    state.pending_event = Some(PendingWorldEvent {
        id: "pending".into(),
        category: String::new(),
        title: String::new(),
        text: String::new(),
        choices: Vec::new(),
    });
    let original_queue = state.sect.auto_brew_queue.clone();
    let mut rng = StdRng::seed_from_u64(2);

    let result = execute_management(
        &mut rng,
        &mut state,
        ManagementRequest::SetAutoBrewQueue { recipe_ids: vec![] },
    );

    assert!(result.is_err());
    assert_eq!(state.sect.auto_brew_queue, original_queue);
    assert_eq!(state.decisions_used, 0);
}

#[test]
fn assigning_and_releasing_a_master_updates_both_relations_and_loyalty() {
    let mut state = GameState {
        max_decisions: 4,
        ..GameState::default()
    };
    let master = Disciple {
        id: "master".into(),
        name: "谢师父".into(),
        rank: DiscipleRank::Inner,
        ..Disciple::default()
    };
    let student = Disciple {
        id: "student".into(),
        name: "沈徒弟".into(),
        rank: DiscipleRank::Outer,
        ..Disciple::default()
    };
    let loyalty_before = student.attributes.sect_loyalty;
    state.disciples.extend([master, student]);
    let mut rng = StdRng::seed_from_u64(91);

    execute_management(&mut rng, &mut state, assign("student", Some("master"))).unwrap();

    assert_eq!(state.decisions_used, 1);
    assert_eq!(state.disciples[1].master_id.as_deref(), Some("master"));
    assert_eq!(state.disciples[1].relations.get("master"), Some(50));
    assert_eq!(state.disciples[0].relations.get("student"), Some(50));
    assert_eq!(state.disciples[1].attributes.sect_loyalty, loyalty_before + 3);

    let loyalty_after_assignment = state.disciples[1].attributes.sect_loyalty;
    let repeated = execute_management(&mut rng, &mut state, assign("student", Some("master")));
    assert!(repeated.is_err());
    assert_eq!(state.decisions_used, 1);
    assert_eq!(state.disciples[1].attributes.sect_loyalty, loyalty_after_assignment);

    execute_management(&mut rng, &mut state, assign("student", None)).unwrap();
    assert_eq!(state.decisions_used, 2);
    assert!(state.disciples[1].master_id.is_none());

    let repeated_release = execute_management(&mut rng, &mut state, assign("student", None));
    assert!(repeated_release.is_err());
    assert_eq!(state.decisions_used, 2);
}

#[test]
fn master_assignment_enforces_capacity_and_rejects_lineage_cycles() {
    let mut state = GameState {
        max_decisions: 10,
        ..GameState::default()
    };
    state.disciples.push(member("master", DiscipleRank::Inner));
    for index in 0..5 {
        state.disciples.push(Disciple {
            id: format!("existing-{index}"),
            master_id: Some("master".into()),
            ..Disciple::default()
        });
    }
    state.disciples.push(member("sixth", DiscipleRank::Outer));
    let mut rng = StdRng::seed_from_u64(92);

    let full = execute_management(&mut rng, &mut state, assign("sixth", Some("master"))).unwrap_err();
    assert!(full.contains("五名在籍弟子"));
    assert_eq!(state.decisions_used, 0);

    state.disciples.truncate(1);
    state.disciples.extend([member("senior", DiscipleRank::Inner), member("junior", DiscipleRank::Inner)]);
    execute_management(&mut rng, &mut state, assign("junior", Some("senior"))).unwrap();
    let cycle = execute_management(&mut rng, &mut state, assign("senior", Some("junior"))).unwrap_err();
    assert!(cycle.contains("辈分首尾相接"));
}

#[test]
fn master_assignment_authoritatively_validates_student_and_master_status() {
    let mut state = GameState {
        max_decisions: 10,
        ..GameState::default()
    };
    state.disciples.extend([member("student", DiscipleRank::Chore), member("master", DiscipleRank::Outer)]);
    let mut rng = StdRng::seed_from_u64(921);

    let chore = execute_management(&mut rng, &mut state, assign("student", Some("master"))).unwrap_err();
    assert!(chore.contains("杂役"));

    state.disciples[0].rank = DiscipleRank::Outer;
    let outer_master = execute_management(&mut rng, &mut state, assign("student", Some("master"))).unwrap_err();
    assert!(outer_master.contains("内门"));

    state.disciples[1].rank = DiscipleRank::Inner;
    state.disciples[1].sect_id = Some("wudang".into());
    let foreign = execute_management(&mut rng, &mut state, assign("student", Some("master"))).unwrap_err();
    assert!(foreign.contains("同属一门"));

    let self_master = execute_management(&mut rng, &mut state, assign("student", Some("student"))).unwrap_err();
    assert!(self_master.contains("自己"));
    assert_eq!(state.decisions_used, 0);
}

#[test]
fn demoting_a_student_to_chore_clears_master_but_keeps_department_change() {
    let mut state = GameState::default();
    state.disciples.extend([
        member("master", DiscipleRank::Inner),
        Disciple {
            id: "student".into(),
            master_id: Some("master".into()),
            ..Disciple::default()
        },
    ]);
    let mut rng = StdRng::seed_from_u64(93);

    execute_management(
        &mut rng,
        &mut state,
        ManagementRequest::SetPersonnel {
            disciple_id: "student".into(),
            rank: DiscipleRank::Chore,
            department: Some(Department::Treasury),
        },
    )
    .unwrap();

    assert_eq!(state.disciples[1].rank, DiscipleRank::Chore);
    assert_eq!(state.disciples[1].department, Some(Department::Treasury));
    assert!(state.disciples[1].master_id.is_none());

    let repeated = execute_management(
        &mut rng,
        &mut state,
        ManagementRequest::SetPersonnel {
            disciple_id: "student".into(),
            rank: DiscipleRank::Chore,
            department: Some(Department::Treasury),
        },
    );
    assert!(repeated.is_err());
    assert_eq!(state.decisions_used, 1);
}

#[test]
fn a_two_person_sect_can_promote_its_first_inner_disciple_at_forty_merit() {
    let mut state = GameState::default();
    let mut rng = StdRng::seed_from_u64(111);
    let mut candidate = generate_disciple(&mut rng, 0);
    candidate.rank = DiscipleRank::Outer;
    candidate.merit = 40;
    let candidate_id = candidate.id.clone();
    let mut fellow = generate_disciple(&mut rng, 0);
    fellow.rank = DiscipleRank::Outer;
    state.disciples.extend([candidate, fellow]);

    execute_management(
        &mut rng,
        &mut state,
        ManagementRequest::SetPersonnel {
            disciple_id: candidate_id,
            rank: DiscipleRank::Inner,
            department: None,
        },
    )
    .unwrap();

    assert_eq!(state.disciples[0].rank, DiscipleRank::Inner);
}

#[test]
fn building_upgrade_requires_and_consumes_iron_atomically() {
    let mut state = GameState::default();
    let mut rng = StdRng::seed_from_u64(12);
    state.sect.attributes.silver = 300;
    state.sect.inventory.insert("精铁", 4);

    let error = execute_management(
        &mut rng,
        &mut state,
        ManagementRequest::UpgradeBuilding {
            building_id: "logistics".into(),
        },
    )
    .unwrap_err();
    assert!(error.contains("精铁不足"));
    assert_eq!(state.sect.attributes.silver, 300);
    assert_eq!(state.sect.buildings[6].work_required, 0);
    assert_eq!(state.decisions_used, 0);

    state.sect.inventory.insert("精铁", 5);
    execute_management(
        &mut rng,
        &mut state,
        ManagementRequest::UpgradeBuilding {
            building_id: "logistics".into(),
        },
    )
    .unwrap();
    assert_eq!(state.sect.attributes.silver, 160);
    assert_eq!(state.sect.inventory.get("精铁"), Some(0));
    assert_eq!(state.sect.buildings[6].work_required, 40);
    assert_eq!(state.sect.buildings[6].upgrading_months, 4);
}

#[test]
fn building_repair_scales_iron_with_damage() {
    let mut state = GameState::default();
    let mut rng = StdRng::seed_from_u64(13);
    state.sect.attributes.silver = 300;
    state.sect.inventory.insert("精铁", 0);
    state.sect.buildings[0].condition = 51;

    let error = execute_management(
        &mut rng,
        &mut state,
        ManagementRequest::RepairBuilding {
            building_id: "practice".into(),
        },
    )
    .unwrap_err();
    assert!(error.contains("尚缺2份"));
    assert_eq!(state.sect.attributes.silver, 300);
    assert_eq!(state.sect.buildings[0].condition, 51);

    state.sect.inventory.insert("精铁", 2);
    execute_management(
        &mut rng,
        &mut state,
        ManagementRequest::RepairBuilding {
            building_id: "practice".into(),
        },
    )
    .unwrap();
    assert_eq!(state.sect.attributes.silver, 202);
    assert_eq!(state.sect.inventory.get("精铁"), Some(0));
    assert_eq!(state.sect.buildings[0].condition, 100);
}

#[test]
fn completely_destroyed_building_has_a_material_free_recovery_path() {
    let mut state = GameState::default();
    let mut rng = StdRng::seed_from_u64(14);
    state.sect.attributes.silver = 0;
    state.sect.inventory.insert("精铁", 0);
    for building in &mut state.sect.buildings {
        building.condition = 0;
    }

    let events = execute_management(
        &mut rng,
        &mut state,
        ManagementRequest::RepairBuilding {
            building_id: "herb_hall".into(),
        },
    )
    .unwrap();

    assert_eq!(
        state
            .sect
            .buildings
            .iter()
            .find(|building| building.id == "herb_hall")
            .map(|building| building.condition),
        Some(25)
    );
    assert_eq!(state.sect.attributes.silver, 0);
    assert_eq!(state.sect.inventory.get("精铁"), Some(0));
    assert!(events[0].text.contains("临时抢修"));
}

#[test]
fn selecting_elder_duty_is_free_and_persistent() {
    let mut state = GameState::default();
    let mut rng = StdRng::seed_from_u64(21);
    let mut elder = generate_disciple(&mut rng, 0);
    elder.rank = DiscipleRank::Inner;
    let elder_id = elder.id.clone();
    state.disciples.push(elder);
    state.sect.buildings[0].elder_id = Some(elder_id);
    let request = ManagementRequest::SetElderDuty {
        building_id: "practice".into(),
        duty_id: "drill".into(),
        duty_target: None,
    };
    execute_management(&mut rng, &mut state, request).unwrap();
    assert_eq!(state.decisions_used, 0);
    assert_eq!(state.sect.buildings[0].selected_duty.as_deref(), Some("drill"));
    assert!(!state.sect.buildings[0].elder_action_used);
}

#[test]
fn configuring_the_background_brew_queue_is_free_and_validated() {
    let mut state = GameState::default();
    let mut rng = StdRng::seed_from_u64(212);

    execute_management(
        &mut rng,
        &mut state,
        ManagementRequest::SetAutoBrewQueue {
            recipe_ids: vec!["foundation".into(), "wound".into()],
        },
    )
    .unwrap();

    assert_eq!(state.decisions_used, 0);
    assert_eq!(state.sect.auto_brew_queue, vec!["foundation".to_string(), "wound".to_string()]);
    assert_eq!(state.sect.auto_brew_index, 0);
    assert_eq!(state.sect.auto_brew_progress, 0);

    let error = execute_management(
        &mut rng,
        &mut state,
        ManagementRequest::SetAutoBrewQueue {
            recipe_ids: vec!["wound".into(), "wound".into()],
        },
    )
    .unwrap_err();
    assert!(error.contains("重复"));
    assert_eq!(state.sect.auto_brew_queue, vec!["foundation".to_string(), "wound".to_string()]);
}

#[test]
fn a_finished_game_and_spent_decisions_refuse_requests() {
    let mut rng = StdRng::seed_from_u64(7);
    let mut state = GameState::default();
    state.game_over = true;
    state.game_won = true;
    let won = execute_management(&mut rng, &mut state, ManagementRequest::Recruit).unwrap_err();
    assert_eq!(won, "此局已经终了，诸务不可再行。");
    state.game_won = false;
    let lost = execute_management(&mut rng, &mut state, ManagementRequest::Recruit).unwrap_err();
    assert_eq!(lost, "山门已散，诸事皆休。");

    let mut state = GameState::default();
    state.decisions_used = 3;
    let spent = execute_management(&mut rng, &mut state, ManagementRequest::Recruit).unwrap_err();
    assert_eq!(spent, "本月可议之事已尽，请推进月份。");
    assert_eq!(state.sect.attributes.silver, 500);
    assert!(state.disciples.is_empty());
    let free = execute_management(
        &mut rng,
        &mut state,
        ManagementRequest::SetAutoBrewQueue {
            recipe_ids: vec!["qi".into()],
        },
    )
    .unwrap();
    assert_eq!(free[0].text, "百草堂重录常设药序：养气丹；往后依次循环开炉。");
    assert_eq!(state.decisions_used, 3);
}

#[test]
fn recruiting_pays_fifty_silver_and_enlists_one_or_two() {
    let mut rng = StdRng::seed_from_u64(8);
    let mut state = GameState::default();
    let events = execute_management(&mut rng, &mut state, ManagementRequest::Recruit).unwrap();
    let count = state.disciples.len();
    assert!(count == 1 || count == 2);
    assert_eq!(state.total_disciples_recruited, count as i32);
    assert_eq!(state.sect.attributes.silver, 450);
    assert_eq!(state.silver, 450);
    assert_eq!(state.decisions_used, 1);
    assert!(events[0].text.starts_with("招贤榜下新收"));
    assert!(events[0].text.ends_with(&format!("，共{}人拜入山门。", count)));
    assert_eq!(events[0].mood, "good");
    assert_eq!(events[0].category, "sect");
    assert_eq!(state.event_log.len(), 1);

    let mut poor = GameState::default();
    poor.sect.attributes.silver = 49;
    let error = execute_management(&mut rng, &mut poor, ManagementRequest::Recruit).unwrap_err();
    assert_eq!(error, "库银不足，尚缺1两。");
    assert!(poor.disciples.is_empty());
}

#[test]
fn elders_are_seated_only_from_living_inner_disciples_of_one_hall() {
    let mut rng = StdRng::seed_from_u64(9);
    let mut state = GameState {
        max_decisions: 10,
        ..GameState::default()
    };
    state.disciples.extend([member("inner", DiscipleRank::Inner), member("outer", DiscipleRank::Outer)]);
    let seat = |building: &str, id: Option<&str>| ManagementRequest::AssignElder {
        building_id: building.into(),
        disciple_id: id.map(|i| i.to_string()),
    };

    let outer = execute_management(&mut rng, &mut state, seat("practice", Some("outer"))).unwrap_err();
    assert_eq!(outer, "长老须从内门弟子中择任。");
    let nobody = execute_management(&mut rng, &mut state, seat("practice", Some("ghost"))).unwrap_err();
    assert_eq!(nobody, "查无此人，或此人已不在世。");
    let events = execute_management(&mut rng, &mut state, seat("practice", Some("inner"))).unwrap();
    assert!(events[0].text.starts_with("擢任"));
    assert_eq!(state.sect.buildings[0].elder_id.as_deref(), Some("inner"));
    assert_eq!(state.sect.buildings[0].selected_duty.as_deref(), Some("instruct"));
    let twice = execute_management(&mut rng, &mut state, seat("scripture", Some("inner"))).unwrap_err();
    assert_eq!(twice, "此人已主持别处事务，不可兼任两席长老。");
    let vacated = execute_management(&mut rng, &mut state, seat("practice", None)).unwrap();
    assert!(vacated[0].text.contains("暂行空缺"));
    assert!(state.sect.buildings[0].elder_id.is_none());
    let missing = execute_management(&mut rng, &mut state, seat("moon", None)).unwrap_err();
    assert_eq!(missing, "门中并无此处建筑。");
}

#[test]
fn expelling_a_disciple_lowers_morale_and_releases_the_elder_seat() {
    let mut rng = StdRng::seed_from_u64(10);
    let mut state = GameState::default();
    state.disciples.push(Disciple {
        id: "elder".into(),
        name: "韩长老".into(),
        rank: DiscipleRank::Inner,
        ..Disciple::default()
    });
    state.sect.buildings[1].elder_id = Some("elder".into());
    let events = execute_management(
        &mut rng,
        &mut state,
        ManagementRequest::Expel {
            disciple_id: "elder".into(),
        },
    )
    .unwrap();
    assert_eq!(events[0].text, "韩长老被逐出山门，自此恩义两断。");
    assert!(state.disciples.is_empty());
    assert!(state.sect.buildings[1].elder_id.is_none());
    assert_eq!(state.sect.attributes.morale, 66);
    assert_eq!(state.morale, 66);
}

#[test]
fn sect_orders_cost_silver_and_cannot_be_repeated() {
    let mut rng = StdRng::seed_from_u64(11);
    let mut state = GameState::default();
    let order = || ManagementRequest::IssueOrder {
        order_id: "diligent".into(),
    };
    let events = execute_management(&mut rng, &mut state, order()).unwrap();
    assert_eq!(events[0].text, "掌门颁下“勤修令”，门中奉行3个月。");
    assert_eq!(state.sect.attributes.silver, 440);
    assert_eq!(state.sect.active_orders.len(), 1);
    let again = execute_management(&mut rng, &mut state, order()).unwrap_err();
    assert_eq!(again, "此令尚在施行，不宜重复颁布。");
    let unknown = execute_management(
        &mut rng,
        &mut state,
        ManagementRequest::IssueOrder {
            order_id: "secret".into(),
        },
    )
    .unwrap_err();
    assert_eq!(unknown, "并无这道门派令。");
    assert_eq!(state.decisions_used, 1);
}

#[test]
fn the_chronicle_keeps_the_last_eighty_entries() {
    let mut rng = StdRng::seed_from_u64(12);
    let mut state = GameState::default();
    let events = execute_management(
        &mut rng,
        &mut state,
        ManagementRequest::SetPolicy {
            policy: zhangmenriji::model::SectPolicy::Martial,
        },
    )
    .unwrap();
    for _ in 0..85 {
        execute_management(
            &mut rng,
            &mut state,
            ManagementRequest::SetAutoBrewQueue { recipe_ids: vec![] },
        )
        .unwrap();
    }
    assert_eq!(state.event_log.len(), 80);
    assert_eq!(state.event_log[79].text, "百草堂已封存常设药炉，暂不自行炼药。");
    assert!(events[0].text.contains("“"));
}

#[test]
fn heritage_arts_toggle_through_requests() {
    let mut rng = StdRng::seed_from_u64(13);
    let mut state = GameState {
        max_decisions: 5,
        ..GameState::default()
    };
    let toggle = |id: &str| ManagementRequest::SetHeritageArt {
        martial_art_id: id.into(),
    };
    let added = execute_management(&mut rng, &mut state, toggle("hunyuan")).unwrap();
    assert_eq!(added[0].text, "此武学已纳为本门传承核心。");
    assert_eq!(state.sect.heritage_arts, vec!["hunyuan".to_string()]);
    let removed = execute_management(&mut rng, &mut state, toggle("hunyuan")).unwrap();
    assert_eq!(removed[0].text, "此武学已从传承核心中移出。");
    assert!(state.sect.heritage_arts.is_empty());
    let unknown = execute_management(&mut rng, &mut state, toggle("unknown_art")).unwrap_err();
    assert_eq!(unknown, "藏经阁公册中无此武学。");
    assert_eq!(state.decisions_used, 2);
}

#[test]
fn quick_brews_refuse_unknown_recipes_and_short_herbs() {
    let mut rng = StdRng::seed_from_u64(14);
    let mut state = GameState::default();
    let brew = |id: &str| ManagementRequest::BrewPill { recipe_id: id.into() };
    let unknown = execute_management(&mut rng, &mut state, brew("marrow_x")).unwrap_err();
    assert_eq!(unknown, "百草堂中并无此方。");
    state.sect.inventory.insert("草药", 5);
    let short = execute_management(&mut rng, &mut state, brew("foundation")).unwrap_err();
    assert_eq!(short, "草药不足，尚缺7份。");
    let events = execute_management(&mut rng, &mut state, brew("wound")).unwrap();
    assert_eq!(events[0].text, "掌门命百草堂快速开炉炼制金疮药，耗草药4份、库银8两，需时1个月。");
    assert_eq!(state.sect.productions[0].id, "wound_1_1_0");
    assert_eq!(state.sect.attributes.silver, 492);
}

#[test]
fn joint_study_raises_a_public_combat_art_research() {
    let mut state = GameState::default();
    let mut rng = StdRng::seed_from_u64(103);
    let events = execute_management(
        &mut rng,
        &mut state,
        ManagementRequest::ResearchMartial { martial_art_id: "hunyuan".into(), art_name: "《混元功》".into() },
    )
    .unwrap();
    assert_eq!(state.sect.martial_research.get("hunyuan"), Some(76));
    assert_eq!(state.sect.attributes.silver, 460);
    assert_eq!(events[0].text, "传功、掌书两房合参《混元功》，门派造诣上限增了26点。");
    assert_eq!(state.decisions_used, 1);
}

#[test]
fn joint_study_refuses_missing_books_and_knowledge_arts() {
    let mut state = GameState::default();
    let mut rng = StdRng::seed_from_u64(103);
    let missing = execute_management(
        &mut rng,
        &mut state,
        ManagementRequest::ResearchMartial { martial_art_id: "basic_sword".into(), art_name: "《基本剑法》".into() },
    );
    assert_eq!(missing.unwrap_err(), "藏经阁中并无此门武学典籍。");
    let knowledge = execute_management(
        &mut rng,
        &mut state,
        ManagementRequest::ResearchMartial { martial_art_id: "player_knowledge".into(), art_name: "《本门心得》".into() },
    );
    assert_eq!(knowledge.unwrap_err(), "知识义理不设门派参研等级上限，无须耗银合参。");
    assert_eq!(state.decisions_used, 0);
    assert_eq!(state.sect.attributes.silver, 500);
}

#[test]
fn created_art_request_records_the_art_and_spends_a_decision() {
    let mut state = GameState::default();
    let mut rng = StdRng::seed_from_u64(104);
    execute_management(
        &mut rng,
        &mut state,
        ManagementRequest::CreateMartialArt {
            name: "归元拳".into(),
            category: ArtCategory::Unarmed,
            basic: BasicArtRating { id: "basic_unarmed".into(), listed: true, combat_basic: true },
            weapon_basic: None,
            labels: ArtLabels {
                art_type: "拳脚".into(),
                discipline: "拳脚".into(),
                chore_tier: "杂役武学".into(),
                outer_tier: "外门武学".into(),
                inner_tier: "内门武学".into(),
            },
        },
    )
    .unwrap();
    assert_eq!(state.sect.created_martial_arts[0].id, "player_created_0_归元拳");
    assert_eq!(state.decisions_used, 1);
    assert_eq!(state.silver, 420);
}

#[test]
fn new_research_request_learns_the_first_unlearnt_own_art() {
    let mut state = GameState::default();
    state.martial_arts_learned.push("player_a".into());
    let mut rng = StdRng::seed_from_u64(5);
    let arts = vec![
        ("player_a".to_string(), "《甲》".to_string()),
        ("player_b".to_string(), "《乙》".to_string()),
    ];
    let events = execute_management(&mut rng, &mut state, ManagementRequest::ResearchNewMartial { arts }).unwrap();
    assert_eq!(events[0].text, "群策群力，终于创成《乙》，本派武学又开一脉。");
    assert_eq!(state.martial_arts_learned.last().unwrap(), "player_b");
    assert_eq!(state.sect.martial_research.get("player_b"), Some(60));
    assert_eq!(state.sect.attributes.prestige, 105);
}

#[test]
fn a_private_manual_can_be_donated_into_the_public_library() {
    let mut state = GameState::default();
    let mut rng = StdRng::seed_from_u64(102);
    let mut owner = generate_disciple(&mut rng, 0);
    owner.name = "沈归鸿".into();
    owner.private_books.push("wudang_knowledge".into());
    state.disciples.push(owner);

    let events = execute_management(
        &mut rng,
        &mut state,
        ManagementRequest::LibraryAdd { martial_art_id: "wudang_knowledge".into(), art_name: "《道家心法》".into() },
    )
    .unwrap();

    assert!(events[0].text.contains("沈归鸿献出私藏"));
    assert!(state.sect.public_books.contains(&"wudang_knowledge".into()));
    assert!(state.martial_arts_learned.contains(&"wudang_knowledge".into()));
    assert!(state.disciples[0].private_books.is_empty());
}

#[test]
fn donation_refuses_books_already_shelved_or_held_by_nobody() {
    let mut state = GameState::default();
    let mut rng = StdRng::seed_from_u64(102);
    let shelved = execute_management(
        &mut rng,
        &mut state,
        ManagementRequest::LibraryAdd { martial_art_id: "hunyuan".into(), art_name: "《混元功》".into() },
    );
    assert_eq!(shelved.unwrap_err(), "此典籍早已收在藏经阁中。");
    let nobody = execute_management(
        &mut rng,
        &mut state,
        ManagementRequest::LibraryAdd { martial_art_id: "wudang_knowledge".into(), art_name: "《道家心法》".into() },
    );
    assert_eq!(nobody.unwrap_err(), "门中无人持有此册私藏。");
    let unknown = execute_management(
        &mut rng,
        &mut state,
        ManagementRequest::LibraryAdd { martial_art_id: "no_such_book".into(), art_name: "《无》".into() },
    );
    assert_eq!(unknown.unwrap_err(), "武学谱中并无这册典籍。");
    assert_eq!(state.decisions_used, 0);
}
