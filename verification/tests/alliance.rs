use rand::rngs::StdRng;
use rand::SeedableRng;
use zhangmenriji::alliance::{is_ally, sect_name};
use zhangmenriji::game::GameState;
use zhangmenriji::model::DiscipleRank;
use zhangmenriji::requests::{execute_management, ManagementRequest};
use zhangmenriji::sect::SectState;

fn with_wudang(mine: i32, theirs: i32) -> GameState {
    let mut state = GameState::default();
    let mut wudang = SectState::default();
    wudang.id = "wudang".into();
    wudang.name = "武当派".into();
    wudang.relations.insert("player", theirs);
    state.npc_sects.push(wudang);
    state.sect.relations.insert("wudang", mine);
    state
}

fn aid() -> ManagementRequest {
    ManagementRequest::CallAid {
        sect_id: "wudang".into(),
    }
}

fn sell(item: &str, quantity: i32) -> ManagementRequest {
    ManagementRequest::TradeWithAlly {
        sect_id: "wudang".into(),
        item: item.into(),
        quantity,
    }
}

#[test]
fn allies_stand_at_least_seventy_towards_each_other() {
    assert!(is_ally(&with_wudang(70, 90), "wudang"));
    assert!(!is_ally(&with_wudang(69, 90), "wudang"));
    assert!(!is_ally(&with_wudang(90, 69), "wudang"));
    assert!(!is_ally(&with_wudang(90, 90), "huashan"));
    assert_eq!(sect_name(&with_wudang(0, 0), "wudang"), "武当派");
    assert_eq!(sect_name(&with_wudang(0, 0), "huashan"), "huashan");
}

#[test]
fn calling_on_a_sect_that_is_no_ally_is_refused_and_changes_nothing() {
    let mut state = with_wudang(60, 90);
    let before = format!("{state:?}");
    let mut rng = StdRng::seed_from_u64(1);
    let result = execute_management(&mut rng, &mut state, aid());
    assert_eq!(result.unwrap_err(), "此派与本门尚未结盟。");
    assert_eq!(format!("{state:?}"), before);
}

#[test]
fn an_ally_sends_a_chore_disciple_for_eighty_silver() {
    let mut state = with_wudang(80, 75);
    let silver = state.sect.attributes.silver;
    let mut rng = StdRng::seed_from_u64(4);
    let events = execute_management(&mut rng, &mut state, aid()).unwrap();
    assert_eq!(events.len(), 1);
    assert!(events[0].text.starts_with("武当派遣精锐弟子"));
    assert!(events[0].text.ends_with("来援，自此列入本派门墙。"));
    assert_eq!(state.sect.attributes.silver, silver - 80);
    assert_eq!(state.disciples.len(), 1);
    let newcomer = &state.disciples[0];
    assert_eq!(newcomer.rank, DiscipleRank::Chore);
    assert_eq!(newcomer.attributes.sect_loyalty, 70);
    assert_eq!(newcomer.sect_id.as_deref(), Some("player"));
    assert!(events[0].text.contains(&newcomer.name));
    let gain = state.sect.relations.amount_of("wudang") - 80;
    assert!((5..=9).contains(&gain));
    assert_eq!(state.npc_sects[0].relations.amount_of("player"), 75 + gain);
    assert_eq!(events[0].text.contains("两派情谊愈加深厚"), gain >= 8);
    assert_eq!(state.decisions_used, 1);
    assert_eq!(state.total_disciples_recruited, 1);
}

#[test]
fn trading_herbs_with_an_ally_fills_the_treasury() {
    let mut state = with_wudang(80, 75);
    let silver = state.sect.attributes.silver;
    let herbs = state.sect.inventory.amount_of("草药");
    let mut rng = StdRng::seed_from_u64(6);
    let events = execute_management(&mut rng, &mut state, sell("草药", 10)).unwrap();
    assert_eq!(state.sect.attributes.silver, silver + 30);
    assert_eq!(state.sect.inventory.amount_of("草药"), herbs - 10);
    let gain = state.sect.relations.amount_of("wudang") - 80;
    assert!((2..=4).contains(&gain));
    assert_eq!(state.npc_sects[0].relations.amount_of("player"), 75 + gain);
    assert_eq!(
        events[0].text,
        format!("以10份草药易得30两库银，武当派商人甚感满意，双方交情添了{gain}分。")
    );
}

#[test]
fn trades_outside_the_rules_are_refused() {
    let mut rng = StdRng::seed_from_u64(8);
    for (request, refusal) in [
        (sell("草药", 0), "交易数量须在一至五十份之间。".to_string()),
        (sell("草药", 51), "交易数量须在一至五十份之间。".to_string()),
        (sell("黄金", 5), "只可交易草药、精铁或粮秣。".to_string()),
        (sell("草药", 50), "门中草药不足50份。".to_string()),
    ] {
        let mut state = with_wudang(80, 75);
        let before = format!("{state:?}");
        let result = execute_management(&mut rng, &mut state, request);
        assert_eq!(result.unwrap_err(), refusal);
        assert_eq!(format!("{state:?}"), before);
    }
}

#[test]
fn a_ruined_pavilion_stops_all_dealings_with_allies() {
    let mut state = with_wudang(80, 75);
    state
        .sect
        .buildings
        .iter_mut()
        .find(|building| building.id == "intelligence")
        .unwrap()
        .condition = 0;
    let before = format!("{state:?}");
    let mut rng = StdRng::seed_from_u64(9);
    let result = execute_management(&mut rng, &mut state, sell("精铁", 5));
    assert_eq!(result.unwrap_err(), "天枢阁已经损毁，须先修缮方能理事。");
    assert_eq!(format!("{state:?}"), before);
}

fn with_envoy(mut state: GameState) -> GameState {
    state.disciples.push(zhangmenriji::model::Disciple {
        id: "envoy".into(),
        name: "使者".into(),
        rank: DiscipleRank::Inner,
        ..zhangmenriji::model::Disciple::default()
    });
    state
}

#[test]
fn a_courtesy_visit_raises_both_regards_and_sends_the_envoy() {
    let mut state = with_envoy(with_wudang(20, 30));
    let mut rng = StdRng::seed_from_u64(12);
    let events = execute_management(
        &mut rng,
        &mut state,
        ManagementRequest::Exchange { sect_id: "wudang".into(), disciple_id: Some("envoy".into()) },
    )
    .unwrap();
    let gain = state.sect.relations.get("wudang").unwrap() - 20;
    assert!((10..=18).contains(&gain));
    assert_eq!(state.npc_sects[0].relations.get("player"), Some(30 + gain));
    assert_eq!(state.sect.attributes.silver, 455);
    assert_eq!(state.sect.attributes.prestige, 102);
    assert_eq!(state.disciples.last().unwrap().away_months, 2);
    assert_eq!(events[0].text, format!("本派携礼拜会武当派，宾主论武，交情添了{}分。", gain));
}

#[test]
fn errands_need_an_able_inner_envoy() {
    let mut state = with_wudang(20, 30);
    let mut rng = StdRng::seed_from_u64(12);
    let none = execute_management(&mut rng, &mut state, ManagementRequest::Exchange { sect_id: "wudang".into(), disciple_id: None });
    assert_eq!(none.unwrap_err(), "须择一名内门弟子前往。");
    let stranger = execute_management(
        &mut rng,
        &mut state,
        ManagementRequest::Exchange { sect_id: "wudang".into(), disciple_id: Some("nobody".into()) },
    );
    assert_eq!(stranger.unwrap_err(), "查无这名使者。");
    let mut state = with_envoy(with_wudang(20, 30));
    state.disciples.last_mut().unwrap().rank = DiscipleRank::Outer;
    let outer = execute_management(
        &mut rng,
        &mut state,
        ManagementRequest::Exchange { sect_id: "wudang".into(), disciple_id: Some("envoy".into()) },
    );
    assert_eq!(outer.unwrap_err(), "使者须为眼下可行动的内门弟子。");
    assert_eq!(state.sect.attributes.silver, 500);
}

#[test]
fn hosting_an_ally_deepens_ties_and_the_first_combat_research() {
    let mut state = with_envoy(with_wudang(80, 80));
    let mut rng = StdRng::seed_from_u64(21);
    let events = execute_management(
        &mut rng,
        &mut state,
        ManagementRequest::HostExchange { sect_id: "wudang".into(), disciple_id: Some("envoy".into()) },
    )
    .unwrap();
    let gain = state.sect.relations.get("wudang").unwrap() - 80;
    assert!((3..=5).contains(&gain));
    assert_eq!(state.sect.attributes.silver, 460);
    let lore = state.sect.martial_research.get("hunyuan").unwrap() - 50;
    assert!((5..=12).contains(&lore));
    assert_eq!(events[0].text, "邀请武当派长老来门交流武学心得，双方皆有所获。");
    let mut stranger = with_envoy(with_wudang(20, 20));
    let refused = execute_management(
        &mut rng,
        &mut stranger,
        ManagementRequest::HostExchange { sect_id: "wudang".into(), disciple_id: Some("envoy".into()) },
    );
    assert_eq!(refused.unwrap_err(), "此派与本门尚未结盟。");
}

#[test]
fn a_joint_patrol_drills_the_most_meritorious_fighter_in_his_first_combat_art() {
    let mut state = with_envoy(with_wudang(80, 80));
    let mut fighter = zhangmenriji::model::Disciple {
        id: "fighter".into(),
        name: "先锋".into(),
        rank: DiscipleRank::Outer,
        merit: 50,
        ..zhangmenriji::model::Disciple::default()
    };
    fighter.proficiencies.insert("hunyuan", zhangmenriji::model::SkillProgress::new(3, 10));
    fighter.proficiencies.insert("basic_force", zhangmenriji::model::SkillProgress::new(2, 5));
    fighter.proficiencies.insert("player_knowledge", zhangmenriji::model::SkillProgress::new(9, 0));
    state.disciples.push(fighter);
    let mut rng = StdRng::seed_from_u64(31);
    let events = execute_management(
        &mut rng,
        &mut state,
        ManagementRequest::JointPatrol { sect_id: "wudang".into(), disciple_id: Some("envoy".into()) },
    )
    .unwrap();
    assert_eq!(events[0].text, "本派与武当派联手巡行边境，共御匪患。");
    let gain = state.sect.relations.get("wudang").unwrap() - 80;
    assert!((4..=7).contains(&gain));
    assert_eq!(state.sect.attributes.silver, 440);
    assert_eq!(state.sect.attributes.prestige, 102);
    let fighter = state.disciples.iter().find(|d| d.id == "fighter").unwrap();
    // "basic_force" sorts before "hunyuan"
    let drilled = fighter.proficiencies.get("basic_force").unwrap().experience - 5;
    assert!((30..=60).contains(&drilled));
    assert_eq!(fighter.proficiencies.get("hunyuan").unwrap().experience, 10);
    assert_eq!(fighter.proficiencies.get("player_knowledge").unwrap().experience, 0);
    assert_eq!(state.disciples.iter().find(|d| d.id == "envoy").unwrap().away_months, 2);
}

fn manual(name: &str, knowledge: bool, grade: zhangmenriji::diplomacy::MartialGrade, difficulty: i32) -> zhangmenriji::diplomacy::ManualRating {
    zhangmenriji::diplomacy::ManualRating {
        listed: true,
        knowledge,
        grade,
        retired_parry: false,
        difficulty,
        name: name.into(),
    }
}

#[test]
fn requesting_foreign_manuals_starts_with_knowledge_and_scales_by_tier() {
    let mut state = with_wudang(10, 10);
    state.sect.attributes.prestige = 50;
    state.npc_sects[0].public_books = vec![
        "wudang_knowledge".to_string(),
        "wudang_foundation".to_string(),
        "wudang_outer_unarmed".to_string(),
    ];
    let knowledge = manual("《道家心法》", true, zhangmenriji::diplomacy::MartialGrade::Basic, 10);
    let foundation = manual("《武当筑基》", false, zhangmenriji::diplomacy::MartialGrade::Chore, 16);
    let outer = manual("《武当长拳》", false, zhangmenriji::diplomacy::MartialGrade::Outer, 30);

    let text = zhangmenriji::diplomacy::request_manual(&mut state, "wudang", "wudang_knowledge", &knowledge).unwrap();
    assert!(text.contains("道家心法"));
    assert!(state.sect.public_books.contains(&"wudang_knowledge".into()));

    let relation_error = zhangmenriji::diplomacy::request_manual(&mut state, "wudang", "wudang_foundation", &foundation).unwrap_err();
    assert!(relation_error.contains("20分"));

    state.sect.relations.insert("wudang", 20);
    zhangmenriji::diplomacy::request_manual(&mut state, "wudang", "wudang_foundation", &foundation).unwrap();

    state.sect.relations.insert("wudang", 45);
    let prestige_error = zhangmenriji::diplomacy::request_manual(&mut state, "wudang", "wudang_outer_unarmed", &outer).unwrap_err();
    assert!(prestige_error.contains("声望"));
    assert!(prestige_error.contains("90"));
}

#[test]
fn a_granted_manual_costs_by_difficulty_and_a_little_prestige() {
    let mut state = with_wudang(30, 30);
    state.npc_sects[0].public_books = vec!["wudang_foundation".to_string()];
    let foundation = manual("《武当筑基》", false, zhangmenriji::diplomacy::MartialGrade::Chore, 16);
    let text = zhangmenriji::diplomacy::request_manual(&mut state, "wudang", "wudang_foundation", &foundation).unwrap();
    assert_eq!(text, "耗费人情与库银，请得《武当筑基》抄本一册。");
    assert_eq!(state.sect.attributes.silver, 500 - 140);
    assert_eq!(state.sect.attributes.prestige, 97);
    assert_eq!(state.martial_arts_learned.last().unwrap(), "wudang_foundation");
    let again = zhangmenriji::diplomacy::request_manual(&mut state, "wudang", "wudang_foundation", &foundation);
    assert_eq!(again.unwrap_err(), "此册门中已有，无须再求。");
}

#[test]
fn a_manual_errand_sends_the_envoy_only_when_granted() {
    let mut state = with_envoy(with_wudang(30, 30));
    state.npc_sects[0].public_books = vec!["wudang_foundation".to_string()];
    let mut rng = StdRng::seed_from_u64(3);
    let missing = execute_management(
        &mut rng,
        &mut state,
        ManagementRequest::RequestManual {
            sect_id: "wudang".into(),
            martial_art_id: "wudang_sword".into(),
            disciple_id: Some("envoy".into()),
            manual: manual("《武当剑》", false, zhangmenriji::diplomacy::MartialGrade::Outer, 30),
        },
    );
    assert_eq!(missing.unwrap_err(), "对方并无这册典籍。");
    assert_eq!(state.disciples.last().unwrap().away_months, 0);
    execute_management(
        &mut rng,
        &mut state,
        ManagementRequest::RequestManual {
            sect_id: "wudang".into(),
            martial_art_id: "wudang_foundation".into(),
            disciple_id: Some("envoy".into()),
            manual: manual("《武当筑基》", false, zhangmenriji::diplomacy::MartialGrade::Chore, 16),
        },
    )
    .unwrap();
    assert_eq!(state.disciples.last().unwrap().away_months, 2);
}

#[test]
fn a_visit_to_an_unknown_sect_is_paid_for_but_refused_without_using_a_decision() {
    let mut state = with_envoy(with_wudang(20, 30));
    let log_before = state.event_log.len();
    let mut rng = StdRng::seed_from_u64(4);
    let r = execute_management(
        &mut rng,
        &mut state,
        ManagementRequest::Exchange { sect_id: "huashan".into(), disciple_id: Some("envoy".into()) },
    );
    assert_eq!(r.unwrap_err(), "江湖中查无此派。");
    assert_eq!(state.sect.attributes.silver, 455);
    let gain = state.sect.relations.get("huashan").unwrap();
    assert!((10..=18).contains(&gain));
    assert_eq!(state.decisions_used, 0);
    assert_eq!(state.event_log.len(), log_before);
    assert_eq!(state.disciples.last().unwrap().away_months, 0);
}
