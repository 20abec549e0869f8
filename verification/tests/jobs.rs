use rand::rngs::StdRng;
use rand::SeedableRng;
use zhangmenriji::jobs::{
    execute_pair, execute_solo, receive_yield, skill_experience, Cultivation, PairActor, PairJob, PairKind, SoloActor, SoloKind,
};
use zhangmenriji::model::{ActionKind, ActionPlan, Disciple};

fn member(name: &str, player: bool) -> PairActor {
    let mut disciple = Disciple::default();
    disciple.id = name.into();
    disciple.name = name.into();
    disciple.martial_art = "basic_fist".into();
    PairActor { disciple, player, practice_effectiveness: 100 }
}

fn pair(kind: PairKind, player: bool) -> PairJob {
    PairJob {
        kind,
        first: member("师父", player),
        second: member("徒弟", false),
        art: "basic_fist".into(),
        art_name: "《基本拳法》".into(),
        art_difficulty: 10,
        second_art_name: "《基本拳法》".into(),
        second_art_difficulty: 10,
    }
}

fn loner(player: bool) -> SoloActor {
    let mut disciple = Disciple::default();
    disciple.id = "worker".into();
    disciple.name = "阿丁".into();
    SoloActor {
        disciple,
        player,
        recovery_bonus: 0,
        practice_effectiveness: 100,
        scripture_effectiveness: 100,
        warehouse_effectiveness: 100,
        herb_hall_effectiveness: 100,
        logistics_effectiveness: 100,
        market_percent: 100,
        target_id: None,
        assigned_by: None,
        cultivation: Cultivation {
            force_level: 0,
            neili_cap: 100,
            constitution: 20,
            inner_art_name: "《混元功》".into(),
            knowledge_level: 0,
            energy_cap: 80,
            intelligence: 20,
        },
    }
}

#[test]
fn month_of_practice_compresses_sessions_into_experience() {
    // level 0 counts as 1: (0 / 5 + 1) * (14 + 20 / 2) * 105 / (80 + 3 * 10)
    assert_eq!(skill_experience(0, 10, 20, 105), 22);
    assert_eq!(skill_experience(0, 10, 20, 25), 5);
    // at least 1
    assert_eq!(skill_experience(0, 1000, 0, 1), 1);
}

#[test]
fn teaching_gives_the_student_the_larger_share_and_tires_both() {
    let mut rng = StdRng::seed_from_u64(3);
    let r = execute_pair(&mut rng, &pair(PairKind::Teach, true));
    assert_eq!(r.second.training.gain, 22);
    assert_eq!(r.first.training.gain, 5);
    assert_eq!(r.first.training.art, "basic_fist");
    assert_eq!(r.first.strain.spirit, -7);
    assert_eq!(r.second.strain.spirit, -9);
    assert!(r.player);
    assert_eq!(r.line, "师父向徒弟传授《基本拳法》，彼此印证；《基本拳法》经验 +22，《基本拳法》经验 +5。");
}

#[test]
fn another_sects_lesson_is_told_without_numbers() {
    let mut rng = StdRng::seed_from_u64(4);
    let r = execute_pair(&mut rng, &pair(PairKind::Teach, false));
    assert!(!r.player);
    assert_eq!(r.line, "师父向徒弟传授《基本拳法》，师徒在堂中反复拆解招式。");
}

#[test]
fn unfunded_spar_halves_experience_and_costs_qi_within_bounds() {
    for seed in 0..20 {
        let mut rng = StdRng::seed_from_u64(seed);
        let r = execute_pair(&mut rng, &pair(PairKind::Spar, false));
        // 24 sessions * 90 / 110 = 19, halved without silver
        assert_eq!(r.first.training.gain, 9);
        assert_eq!(r.second.training.gain, 9);
        assert!((-10..=-5).contains(&r.first.strain.qi));
        assert!((-10..=-5).contains(&r.second.strain.qi));
        assert_eq!(r.first.strain.energy, -6);
        assert_eq!(r.first.strain.attainment, 18);
        assert_eq!(r.first.strain.personal_silver, 0);
        assert_eq!(r.line, "师父与徒弟在演武场切磋，各展所长，引来同门围观。");
    }
}

#[test]
fn funded_spar_pays_one_silver_for_full_experience() {
    let mut job = pair(PairKind::Spar, true);
    job.first.disciple.personal_silver = 3;
    let mut rng = StdRng::seed_from_u64(9);
    let r = execute_pair(&mut rng, &job);
    assert_eq!(r.first.training.gain, 19);
    assert_eq!(r.first.strain.personal_silver, -1);
    assert_eq!(r.second.training.gain, 9);
    assert_eq!(r.line, "师父与徒弟在演武场切磋，《基本拳法》经验 +19，《基本拳法》经验 +9。");
}

#[test]
fn pair_plans_count_down_and_end() {
    let mut job = pair(PairKind::Teach, true);
    let mut plan = ActionPlan::new(ActionKind::Teach);
    plan.remaining_months = 2;
    job.first.disciple.action = Some(plan.clone());
    plan.remaining_months = 1;
    job.second.disciple.action = Some(plan);
    let mut rng = StdRng::seed_from_u64(1);
    let r = execute_pair(&mut rng, &job);
    assert_eq!(r.first.plan.as_ref().unwrap().as_ref().unwrap().remaining_months, 1);
    assert!(r.second.plan.as_ref().unwrap().is_none());
}

#[test]
fn recovery_restores_vitals() {
    let mut rng = StdRng::seed_from_u64(5);
    let r = execute_solo(&mut rng, &loner(true), SoloKind::Recover);
    assert_eq!(r.strain.qi, 22);
    assert_eq!(r.strain.spirit, 22);
    assert_eq!(r.strain.neili, 6);
    assert_eq!(r.strain.energy, 8);
    assert_eq!(r.line, "阿丁在门中调息静养，气色渐复。");
}

#[test]
fn unfunded_body_tempering_still_raises_qi_by_one() {
    let mut rng = StdRng::seed_from_u64(5);
    let r = execute_solo(&mut rng, &loner(true), SoloKind::TemperBody);
    assert_eq!(r.strain.qi_max, 1);
    assert_eq!(r.strain.qi, -11);
    assert_eq!(r.strain.energy, -5);
    assert_eq!(r.line, "阿丁打熬筋骨，气血上限添了1点。");
}

#[test]
fn maintenance_goes_to_the_logistics_hall_by_default() {
    let mut rng = StdRng::seed_from_u64(5);
    let r = execute_solo(&mut rng, &loner(true), SoloKind::Maintain);
    assert_eq!(r.sect.maintenance, 9);
    assert_eq!(r.work_target.as_deref(), Some("logistics"));
    assert_eq!(r.strain.merit, 3);
    assert_eq!(r.line, "阿丁巡检梁柱瓦石，投入了9点维护工作。");
    let mut a = loner(true);
    a.target_id = Some("scripture".into());
    let r = execute_solo(&mut rng, &a, SoloKind::Construct);
    assert_eq!(r.sect.construction, 12);
    assert_eq!(r.work_target.as_deref(), Some("scripture"));
}

#[test]
fn warehouse_dispatch_pays_private_silver() {
    let mut rng = StdRng::seed_from_u64(5);
    let mut a = loner(true);
    a.assigned_by = Some("building:warehouse".into());
    let r = execute_solo(&mut rng, &a, SoloKind::Produce);
    assert_eq!(r.sect.grain, 10);
    assert_eq!(r.strain.personal_silver, 3);
    assert_eq!(r.line, "阿丁整理仓中账物，入库粮秣10份，并得私银3两。");
}

#[test]
fn business_income_stays_in_the_drawn_range() {
    for seed in 0..20 {
        let mut rng = StdRng::seed_from_u64(seed);
        let r = execute_solo(&mut rng, &loner(false), SoloKind::Business);
        assert!((20..=32).contains(&r.sect.silver));
        assert_eq!(r.line, "阿丁下山经营世俗产业，带回一批收益。");
    }
}

#[test]
fn gathering_finds_iron_never_at_a_ruined_hall_and_surely_at_a_grand_one() {
    for seed in 0..10 {
        let mut rng = StdRng::seed_from_u64(seed);
        let mut a = loner(true);
        a.herb_hall_effectiveness = 0;
        let r = execute_solo(&mut rng, &a, SoloKind::Gather);
        assert_eq!(r.sect.iron, 0);
        assert_eq!(r.sect.herbs, 0);
        a.herb_hall_effectiveness = 300;
        let r = execute_solo(&mut rng, &a, SoloKind::Gather);
        assert_eq!(r.sect.iron, 1);
        assert_eq!(r.sect.herbs, 12);
    }
}

#[test]
fn inner_cultivation_turns_qi_into_inner_force_up_to_the_cap() {
    let mut rng = StdRng::seed_from_u64(5);
    let r = execute_solo(&mut rng, &loner(true), SoloKind::CultivateNeili);
    assert_eq!(r.strain.qi, -15);
    assert_eq!(r.strain.neili_max, 1);
    assert_eq!(r.strain.neili, 1);
    assert_eq!(r.line, "阿丁打坐修炼，以15点气血炼化真气，内力精进，上限 +1。");
    let mut capped = loner(true);
    capped.cultivation.neili_cap = 30;
    let r = execute_solo(&mut rng, &capped, SoloKind::CultivateNeili);
    assert_eq!(r.strain.qi, 0);
    assert_eq!(r.strain.neili_max, 0);
    assert_eq!(r.line, "阿丁盘膝打坐，但现有内力已达到《混元功》所能承载的修炼上限。");
    let mut restless = loner(true);
    restless.disciple.attributes.spirit.current = 60;
    let r = execute_solo(&mut rng, &restless, SoloKind::CultivateNeili);
    assert_eq!(r.line, "阿丁心神不宁，精神不足七成，只得暂缓打坐。");
}

#[test]
fn meditation_turns_spirit_into_energy_when_qi_allows() {
    let mut rng = StdRng::seed_from_u64(5);
    let r = execute_solo(&mut rng, &loner(true), SoloKind::Meditate);
    assert_eq!(r.strain.spirit, -15);
    assert_eq!(r.strain.energy_max, 1);
    assert_eq!(r.line, "阿丁澄心冥想，以15点精神凝炼心神，精力上限添了1点。");
    let mut weary = loner(true);
    weary.disciple.attributes.qi.current = 50;
    let r = execute_solo(&mut rng, &weary, SoloKind::Meditate);
    assert_eq!(r.strain.spirit, 0);
    assert_eq!(r.line, "阿丁气血未复七成，难以久坐存神，只得暂缓冥想。");
    let r = execute_solo(&mut rng, &loner(false), SoloKind::Meditate);
    assert_eq!(r.line, "阿丁焚香澄心，参悟门中学问。");
}

#[test]
fn the_sect_receives_what_a_month_of_work_brought() {
    let mut sect = zhangmenriji::sect::SectState::default();
    let mut rng = StdRng::seed_from_u64(5);
    let r = execute_solo(&mut rng, &loner(true), SoloKind::Business);
    let earned = r.sect.silver;
    receive_yield(&mut sect, SoloKind::Business, &r);
    assert_eq!(sect.attributes.silver, 500 + earned);

    let mut a = loner(true);
    a.herb_hall_effectiveness = 300;
    let r = execute_solo(&mut rng, &a, SoloKind::Gather);
    receive_yield(&mut sect, SoloKind::Gather, &r);
    assert_eq!(sect.inventory.amount_of("草药"), 30 + 12);
    assert_eq!(sect.inventory.amount_of("精铁"), 40 + 1);

    let mut a = loner(true);
    a.target_id = Some("scripture".into());
    sect.buildings.iter_mut().find(|b| b.id == "scripture").unwrap().condition = 95;
    let r = execute_solo(&mut rng, &a, SoloKind::Maintain);
    receive_yield(&mut sect, SoloKind::Maintain, &r);
    assert_eq!(sect.buildings.iter().find(|b| b.id == "scripture").unwrap().condition, 100);

    sect.buildings.iter_mut().find(|b| b.id == "scripture").unwrap().work_required = 20;
    let r = execute_solo(&mut rng, &a, SoloKind::Construct);
    receive_yield(&mut sect, SoloKind::Construct, &r);
    receive_yield(&mut sect, SoloKind::Construct, &r);
    assert_eq!(sect.buildings.iter().find(|b| b.id == "scripture").unwrap().work_invested, 20);
}
