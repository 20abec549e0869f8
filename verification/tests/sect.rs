use std::collections::BTreeSet;
use zhangmenriji::game::GameState;
use zhangmenriji::hydrate::hydrate_player_sect;
use zhangmenriji::lineage::{compute_lineage_generations, normalize_master_assignments};
use zhangmenriji::model::{
    Aptitudes, BuildingKind, Department, Disciple, DiscipleRank, MoralDirection, SectPolicy,
};
use zhangmenriji::sect::{
    absorb_legacy_fields, apply_monthly_upkeep, apply_monthly_upkeep_with_market,
    assign_recruit_ranks, building_effectiveness, building_level, elder_competence_percent,
    martial_research_level_cap, normalize_buildings, normalize_inventory, rank_limits,
    sync_legacy_fields, Building, ProductionTask, SectState,
};

fn set_warehouse(sect: &mut SectState, level: Option<i32>, condition: Option<i32>) {
    let warehouse = sect
        .buildings
        .iter_mut()
        .find(|building| building.id == "warehouse")
        .unwrap();
    if let Some(level) = level {
        warehouse.level = level;
    }
    if let Some(condition) = condition {
        warehouse.condition = condition;
    }
}

#[test]
fn hydration_marks_every_player_roster_member_as_belonging_to_the_player_sect() {
    let mut state = GameState::default();
    state.disciples = vec![
        Disciple {
            id: "legacy-none".into(),
            sect_id: None,
            ..Disciple::default()
        },
        Disciple {
            id: "stale-foreign".into(),
            sect_id: Some("wudang".into()),
            ..Disciple::default()
        },
    ];

    hydrate_player_sect(&mut state, "归卷门");

    assert!(state
        .disciples
        .iter()
        .all(|disciple| disciple.sect_id.as_deref() == Some(state.sect.id.as_str())));
}

#[test]
fn elder_competence_distinguishes_fit_and_preserves_the_old_baseline() {
    let baseline = Disciple::default();
    for kind in [
        BuildingKind::Practice,
        BuildingKind::Scripture,
        BuildingKind::Warehouse,
        BuildingKind::HerbHall,
        BuildingKind::Intelligence,
        BuildingKind::Affairs,
        BuildingKind::Logistics,
    ] {
        assert_eq!(elder_competence_percent(&baseline, kind), 100);
    }

    // A prepared inner-force art at level 100.
    let high = Disciple {
        department: Some(Department::Transmission),
        aptitudes: Aptitudes {
            strength: 60,
            intelligence: 60,
            constitution: 60,
            agility: 60,
            fortune: 60,
        },
        merit: 500,
        force_level: 100,
        ..Disciple::default()
    };

    let low = Disciple {
        department: Some(Department::Library),
        aptitudes: Aptitudes {
            strength: 0,
            intelligence: 0,
            constitution: 0,
            agility: 0,
            fortune: 0,
        },
        merit: -500,
        force_level: 0,
        ..Disciple::default()
    };

    assert_eq!(elder_competence_percent(&high, BuildingKind::Practice), 130);
    assert_eq!(elder_competence_percent(&low, BuildingKind::Practice), 85);
}

#[test]
fn recruit_rank_assignment_prefers_higher_talent_within_outer_limit() {
    let mut sect = SectState::default();
    sect.rank_rules.outer_percent = 50;
    let mut existing = vec![Disciple::default(), Disciple::default()];
    existing[0].rank = DiscipleRank::Outer;
    existing[1].rank = DiscipleRank::Chore;
    let mut recruits = vec![Disciple::default(), Disciple::default()];
    recruits[0].name = "乙".into();
    recruits[0].talent = 18;
    recruits[1].name = "甲".into();
    recruits[1].talent = 30;

    assign_recruit_ranks(&sect, &existing, &mut recruits);

    assert_eq!(recruits[0].rank, DiscipleRank::Chore);
    assert_eq!(recruits[1].rank, DiscipleRank::Outer);
}

#[test]
fn legacy_wound_medicine_name_is_migrated_in_stock_and_production() {
    let mut sect = SectState::default();
    sect.inventory.insert("金创药", 3);
    sect.productions.push(ProductionTask {
        name: "金创药".into(),
        output_item: "金创药".into(),
        ..ProductionTask::default()
    });

    normalize_inventory(&mut sect);

    assert!(!sect.inventory.contains_key("金创药"));
    assert_eq!(sect.inventory.get("金疮药"), Some(3));
    assert_eq!(sect.productions[0].name, "金疮药");
    assert_eq!(sect.productions[0].output_item, "金疮药");
}

#[test]
fn warehouse_level_increases_monthly_income() {
    let mut level_one = SectState::default();
    level_one.attributes.prestige = 0;
    level_one.policy = SectPolicy::Reclusive;
    let mut level_three = level_one.clone();
    set_warehouse(&mut level_three, Some(3), None);

    let (level_one_income, _) = apply_monthly_upkeep(&mut level_one, 0);
    let (level_three_income, _) = apply_monthly_upkeep(&mut level_three, 0);

    assert_eq!(level_one_income, 4);
    assert_eq!(level_three_income, 12);
}

#[test]
fn damaged_warehouse_reduces_monthly_income() {
    let mut healthy = SectState::default();
    healthy.attributes.prestige = 0;
    healthy.policy = SectPolicy::Reclusive;
    set_warehouse(&mut healthy, Some(3), Some(100));
    let mut damaged = healthy.clone();
    set_warehouse(&mut damaged, None, Some(25));

    let (healthy_income, _) = apply_monthly_upkeep(&mut healthy, 0);
    let (damaged_income, _) = apply_monthly_upkeep(&mut damaged, 0);

    assert_eq!(healthy_income, 12);
    assert_eq!(damaged_income, 3);
}

#[test]
fn upkeep_is_aggregated_once_and_never_negative() {
    let mut sect = SectState::default();
    sect.attributes.prestige = 0;
    sect.attributes.silver = 100;
    sect.policy = SectPolicy::Reclusive;

    let (income, expense) = apply_monthly_upkeep(&mut sect, 0);

    assert_eq!(income, 4);
    assert_eq!(expense, 34);
    assert_eq!(sect.attributes.silver, 70);
    assert!(expense >= 0);

    let mut impoverished = SectState::default();
    impoverished.attributes.prestige = 0;
    impoverished.attributes.silver = 0;
    impoverished.policy = SectPolicy::Reclusive;
    let (_, impoverished_expense) = apply_monthly_upkeep(&mut impoverished, 0);
    assert_eq!(impoverished_expense, 34);
    assert_eq!(impoverished.attributes.silver, 0);
}

#[test]
fn seven_hall_scale_and_wear_have_a_mild_exact_upkeep_cost() {
    let mut sect = SectState::default();
    sect.policy = SectPolicy::Reclusive;
    for building in &mut sect.buildings {
        building.level = 3;
        building.condition = 50;
    }

    let (_, expense) = apply_monthly_upkeep(&mut sect, 0);

    assert_eq!(expense, 44);
}

#[test]
fn country_market_scales_only_passive_income_not_expense() {
    let mut low = SectState::default();
    low.attributes.prestige = 0;
    low.attributes.silver = 100;
    low.policy = SectPolicy::Reclusive;
    set_warehouse(&mut low, Some(3), None);
    let mut neutral = low.clone();
    let mut high = low.clone();

    let (low_income, low_expense) = apply_monthly_upkeep_with_market(&mut low, 0, 85);
    let (neutral_income, neutral_expense) = apply_monthly_upkeep_with_market(&mut neutral, 0, 100);
    let (high_income, high_expense) = apply_monthly_upkeep_with_market(&mut high, 0, 115);

    assert_eq!((low_income, neutral_income, high_income), (10, 12, 13));
    assert_eq!(low_expense, neutral_expense);
    assert_eq!(neutral_expense, high_expense);
    assert_eq!(low.attributes.silver, 100 + low_income - low_expense);
    assert_eq!(high.attributes.silver, 100 + high_income - high_expense);
}

#[test]
fn legacy_and_v3_sect_attributes_stay_in_step() {
    let mut state = GameState {
        prestige: 88,
        silver: 321,
        morale: 67,
        ..GameState::default()
    };
    absorb_legacy_fields(&mut state);
    assert_eq!(state.sect.attributes.prestige, 88);
    assert_eq!(state.sect.attributes.silver, 321);
    assert_eq!(state.sect.attributes.morale, 67);

    state.sect.attributes.silver += 10;
    sync_legacy_fields(&mut state);
    assert_eq!(state.silver, 331);
}

#[test]
fn legacy_stores_migrate_to_seven_functional_buildings() {
    let mut sect = SectState::default();
    sect.buildings = vec![
        Building {
            level: 3,
            ..Building::new("treasury", "银库", BuildingKind::Practice, "")
        },
        Building {
            level: 2,
            ..Building::new("pharmacy", "药库", BuildingKind::Practice, "")
        },
    ];
    normalize_buildings(&mut sect);
    assert_eq!(sect.buildings.len(), 7);
    assert_eq!(building_level(&sect, "warehouse"), 3);
    assert_eq!(building_level(&sect, "herb_hall"), 2);
    let titles: BTreeSet<&str> = sect
        .buildings
        .iter()
        .map(|building| building.elder_title.as_str())
        .collect();
    assert_eq!(titles.len(), 7);
}

#[test]
fn building_migration_keeps_sect_specific_titles() {
    let mut sect = SectState {
        id: "shaolin".into(),
        ..SectState::default()
    };

    normalize_buildings(&mut sect);

    assert_eq!(sect.buildings[0].elder_title, "罗汉堂首座");
    assert_eq!(sect.buildings[6].elder_title, "都寺");
}

#[test]
fn rank_limits_do_not_mutate_grandfathered_disciples() {
    let sect = SectState::default();
    let mut disciples = vec![Disciple::default(); 10];
    for (index, disciple) in disciples.iter_mut().enumerate() {
        disciple.id = index.to_string();
        disciple.rank = if index < 6 {
            DiscipleRank::Outer
        } else {
            DiscipleRank::Inner
        };
    }
    assert_eq!(rank_limits(&sect, &disciples), (4, 1));
    assert_eq!(
        disciples
            .iter()
            .filter(|disciple| disciple.rank == DiscipleRank::Inner)
            .count(),
        4
    );
}

#[test]
fn a_small_new_sect_always_has_one_inner_disciple_slot() {
    let sect = SectState::default();
    let mut disciples = vec![Disciple::default(), Disciple::default()];
    for (index, disciple) in disciples.iter_mut().enumerate() {
        disciple.id = index.to_string();
        disciple.rank = DiscipleRank::Outer;
    }

    assert_eq!(rank_limits(&sect, &disciples), (0, 1));
}

#[test]
fn invalid_and_cyclic_master_assignments_are_normalized() {
    let mut valid_master = Disciple {
        id: "valid-master".into(),
        rank: DiscipleRank::Inner,
        ..Disciple::default()
    };
    valid_master.master_id = Some("cycle-student".into());
    let cycle_student = Disciple {
        id: "cycle-student".into(),
        rank: DiscipleRank::Inner,
        master_id: Some("valid-master".into()),
        ..Disciple::default()
    };
    let dead_master = Disciple {
        id: "dead-master".into(),
        rank: DiscipleRank::Inner,
        alive: false,
        ..Disciple::default()
    };
    let dead_master_student = Disciple {
        id: "dead-master-student".into(),
        master_id: Some("dead-master".into()),
        ..Disciple::default()
    };
    let foreign_master = Disciple {
        id: "foreign-master".into(),
        sect_id: Some("wudang".into()),
        rank: DiscipleRank::Inner,
        ..Disciple::default()
    };
    let foreign_student = Disciple {
        id: "foreign-student".into(),
        master_id: Some("foreign-master".into()),
        ..Disciple::default()
    };
    let chore_student = Disciple {
        id: "chore-student".into(),
        rank: DiscipleRank::Chore,
        master_id: Some("valid-master".into()),
        ..Disciple::default()
    };
    let mut disciples = vec![
        valid_master,
        cycle_student,
        dead_master,
        dead_master_student,
        foreign_master,
        foreign_student,
        chore_student,
    ];

    normalize_master_assignments(&mut disciples);

    assert!(disciples
        .iter()
        .filter(|disciple| {
            matches!(
                disciple.id.as_str(),
                "valid-master"
                    | "cycle-student"
                    | "dead-master-student"
                    | "foreign-student"
                    | "chore-student"
            )
        })
        .all(|disciple| disciple.master_id.is_none()));
}

#[test]
fn master_normalization_keeps_at_most_five_active_apprentices() {
    let master = Disciple {
        id: "master".into(),
        rank: DiscipleRank::Inner,
        ..Disciple::default()
    };
    let mut disciples = vec![master];
    disciples.extend((0..6).map(|index| Disciple {
        id: format!("student-{index}"),
        master_id: Some("master".into()),
        ..Disciple::default()
    }));

    normalize_master_assignments(&mut disciples);

    assert_eq!(
        disciples
            .iter()
            .filter(|disciple| disciple.master_id.as_deref() == Some("master"))
            .count(),
        5
    );
    assert!(disciples.last().unwrap().master_id.is_none());
}

#[test]
fn martial_research_is_a_real_combat_skill_level_cap() {
    let mut sect = SectState::default();
    assert_eq!(martial_research_level_cap(&sect, "hunyuan"), Some(50));
    assert_eq!(martial_research_level_cap(&sect, "player_knowledge"), None);

    sect.martial_research.insert("hunyuan", 86);
    assert_eq!(martial_research_level_cap(&sect, "hunyuan"), Some(86));
}

#[test]
fn building_levels_help_while_damage_reduces_or_stops_the_function() {
    let mut sect = SectState::default();
    assert_eq!(building_effectiveness(&sect, "practice"), 100);

    {
        let practice = sect
            .buildings
            .iter_mut()
            .find(|building| building.id == "practice")
            .unwrap();
        practice.level = 3;
        practice.condition = 50;
    }
    assert_eq!(building_effectiveness(&sect, "practice"), 70);

    sect.buildings
        .iter_mut()
        .find(|building| building.id == "practice")
        .unwrap()
        .condition = 0;
    assert_eq!(building_effectiveness(&sect, "practice"), 0);
}

#[test]
fn moral_directions_have_distinct_monthly_effects() {
    let mut righteous = SectState::default();
    righteous.attributes.morality = 50;
    righteous.attributes.prestige = 100;
    let mut neutral = righteous.clone();
    neutral.moral_direction = MoralDirection::Neutral;
    let mut villainous = righteous.clone();
    villainous.moral_direction = MoralDirection::Villainous;
    apply_monthly_upkeep(&mut righteous, 0);
    apply_monthly_upkeep(&mut neutral, 0);
    apply_monthly_upkeep(&mut villainous, 0);
    assert_eq!(righteous.attributes.morality, 51);
    assert_eq!(righteous.attributes.prestige, 101);
    assert_eq!(neutral.attributes.morality, 50);
    assert_eq!(neutral.attributes.prestige, 100);
    assert_eq!(villainous.attributes.morality, 48);
    assert_eq!(villainous.attributes.prestige, 99);
    assert_eq!(villainous.attributes.silver, neutral.attributes.silver + 10);
}

#[test]
fn deep_lineage_chain_has_expected_generations() {
    let depth = 1_000;
    let mut disciples = Vec::with_capacity(depth);
    for index in (0..depth).rev() {
        let master_id = if index == 0 {
            None
        } else {
            Some(format!("disciple-{}", index - 1))
        };
        disciples.push(Disciple {
            id: format!("disciple-{index}"),
            master_id,
            ..Disciple::default()
        });
    }

    compute_lineage_generations(&mut disciples);

    for (position, disciple) in disciples.iter().enumerate() {
        assert_eq!(disciple.lineage_generation, (depth - position - 1) as i32);
    }
}

#[test]
fn invalid_lineage_paths_are_zeroed_but_valid_paths_are_preserved() {
    let make_disciple = |id: &str, master_id: Option<&str>| Disciple {
        id: id.into(),
        master_id: master_id.map(str::to_owned),
        ..Disciple::default()
    };
    let mut disciples = vec![
        make_disciple("root", None),
        make_disciple("valid-child", Some("root")),
        make_disciple("missing-master", Some("does-not-exist")),
        make_disciple("missing-descendant", Some("missing-master")),
        make_disciple("self-cycle", Some("self-cycle")),
        make_disciple("cycle-a", Some("cycle-b")),
        make_disciple("cycle-b", Some("cycle-a")),
        make_disciple("cycle-descendant", Some("cycle-a")),
    ];

    compute_lineage_generations(&mut disciples);

    let generation = |id: &str| {
        disciples
            .iter()
            .find(|disciple| disciple.id == id)
            .map(|disciple| disciple.lineage_generation)
    };
    assert_eq!(generation("root"), Some(0));
    assert_eq!(generation("valid-child"), Some(1));
    for id in [
        "missing-master",
        "missing-descendant",
        "self-cycle",
        "cycle-a",
        "cycle-b",
        "cycle-descendant",
    ] {
        assert_eq!(generation(id), Some(0), "{id} should be zeroed");
    }
}
