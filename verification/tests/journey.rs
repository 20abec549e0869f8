use rand::rngs::StdRng;
use rand::SeedableRng;
use zhangmenriji::actions::JourneyOutcome;
use zhangmenriji::country::scale_positive;
use zhangmenriji::journey::{
    apply_travel_encounter, create_journey, depart_on_journey, travel_month, Manual, RoadArts, settle_journey, settle_mission, travel_encounter_from_id, travel_encounter_id, Journey,
    PersonGains, SectGains, TravelEncounterKind, Traveller,
};
use zhangmenriji::model::{Aptitudes, Department, Disciple, MoralDirection};

fn traveller(percent: i32) -> Traveller {
    let mut disciple = Disciple::default();
    disciple.id = "country-output-test".into();
    disciple.name = "行者".into();
    disciple.department = Some(Department::ExternalAffairs);
    let aptitudes = disciple.aptitudes;
    Traveller {
        disciple,
        aptitudes,
        combat: 40,
        safety_percent: percent,
        external_percent: percent,
        moral_direction: MoralDirection::Neutral,
    }
}

fn journey(template: &str, destination: &str) -> Journey {
    Journey {
        id: String::new(),
        template_id: template.into(),
        destination_id: destination.into(),
        difficulty: 60,
        total_months: 2,
        elapsed_months: 0,
        encounter_id: None,
        encounter_resolved: false,
        outcome: None,
        settled: false,
    }
}

fn nothing() -> (PersonGains, SectGains) {
    (
        PersonGains {
            merit: 0,
            reputation: 0,
            attainment: 0,
            loyalty: 0,
            qi: 0,
            spirit: 0,
            qi_max: 0,
            spirit_max: 0,
            personal_silver: 0,
            art_experience: 0,
        },
        SectGains { silver: 0, prestige: 0, morality: 0, grain: 0, herbs: 0, iron: 0 },
    )
}

#[test]
fn settled_journey_cannot_pay_twice() {
    let actor = traveller(100);
    let mut j = journey("escort_supplies", "xiangyang");
    j.outcome = Some(JourneyOutcome::Success);
    let (mut p, mut s) = nothing();
    let mut rng = StdRng::seed_from_u64(916);

    settle_journey(&mut rng, &actor, true, &mut j, &mut p, &mut s);
    let first_silver = s.silver;
    let first_merit = p.merit;
    let text = settle_journey(&mut rng, &actor, true, &mut j, &mut p, &mut s);

    assert!(j.settled);
    assert_eq!(s.silver, first_silver);
    assert_eq!(p.merit, first_merit);
    assert!(text.contains("不再重复发赏"));
    assert_eq!(first_merit, 12);
    assert_eq!(s.grain, 8);
}

#[test]
fn final_mission_reward_applies_external_multiplier_once() {
    let settle = |percent| {
        let actor = traveller(percent);
        let j = journey("mediate_dispute", "linan");
        let (mut p, mut s) = nothing();
        settle_mission(&actor, &j, JourneyOutcome::Success, 0, &mut p, &mut s);
        s.silver
    };
    let low = settle(85);
    let middle = settle(100);
    let high = settle(115);

    assert_eq!(low, scale_positive(middle, 85));
    assert_eq!(high, scale_positive(middle, 115));
}

#[test]
fn mission_rewards_follow_the_selected_moral_direction() {
    let settle = |direction| {
        let mut actor = traveller(100);
        actor.moral_direction = direction;
        let j = journey("mediate_dispute", "linan");
        let (mut p, mut s) = nothing();
        settle_mission(&actor, &j, JourneyOutcome::Success, 0, &mut p, &mut s);
        (s.silver, s.prestige, s.morality)
    };
    let righteous = settle(MoralDirection::Righteous);
    let neutral = settle(MoralDirection::Neutral);
    let villainous = settle(MoralDirection::Villainous);

    assert!(righteous.0 < neutral.0 && neutral.0 < villainous.0);
    assert!(righteous.1 > neutral.1 && neutral.1 > villainous.1);
    assert_eq!(righteous.2, 1);
    assert_eq!(neutral.2, 0);
    assert_eq!(villainous.2, -1);
}

#[test]
fn mission_departure_creates_one_fixed_journey_without_paying_early() {
    let actor = traveller(100);
    let mut rng = StdRng::seed_from_u64(912);

    let j = create_journey(&mut rng, &actor, true, 2, true, false);

    assert!(j.id.starts_with("journey:country-output-test:"));
    assert_eq!(j.id.len(), "journey:country-output-test:".len() + 16);
    assert!(!j.template_id.is_empty());
    assert!(!j.destination_id.is_empty());
    assert!((20..=300).contains(&j.difficulty));
    assert!(j.encounter_id.is_some());
    assert!(!j.encounter_resolved);
    assert!(!j.settled);
    assert!(j.outcome.is_none());
    assert_eq!(j.total_months, 2);
}

#[test]
fn a_wander_pays_the_traveller_alone() {
    let actor = traveller(100);
    let mut j = journey("free_wander", "dali");
    j.outcome = Some(JourneyOutcome::Partial);
    let (mut p, mut s) = nothing();
    let mut rng = StdRng::seed_from_u64(4);

    let text = settle_journey(&mut rng, &actor, false, &mut j, &mut p, &mut s);

    assert_eq!(text, "本程游历虽有波折，仍走完大理一带：造诣 +8、个人声名 +1。");
    assert_eq!((p.attainment, p.reputation), (8, 1));
    assert_eq!(s.silver, 0);
    assert_eq!(j.outcome, Some(JourneyOutcome::Partial));
}

#[test]
fn a_failed_mission_costs_merit_and_loyalty() {
    let actor = traveller(100);
    let j = journey("clear_bandits", "taihu");
    let (mut p, mut s) = nothing();

    let text = settle_mission(&actor, &j, JourneyOutcome::Failed, -40, &mut p, &mut s);

    assert_eq!(text, "清剿路匪未通过验收：门派声望 -1，个人功绩 -2、门忠 -2。");
    assert_eq!((p.merit, p.loyalty, p.attainment), (-2, -2, 2));
    assert_eq!((s.silver, s.prestige, s.iron), (0, -1, 0));
}

#[test]
fn encounter_ids_round_trip() {
    for e in [
        TravelEncounterKind::QuietRoad,
        TravelEncounterKind::FriendlySpar,
        TravelEncounterKind::BanditAmbush,
        TravelEncounterKind::FoundSupplies,
        TravelEncounterKind::HermitGuidance,
        TravelEncounterKind::LostManual,
    ] {
        assert_eq!(travel_encounter_from_id(travel_encounter_id(e)), Some(e));
    }
    assert_eq!(travel_encounter_from_id("unknown"), None);
}

#[test]
fn a_traveller_without_aptitudes_still_meets_the_minimum_difficulty() {
    let mut actor = traveller(100);
    actor.aptitudes = Aptitudes { strength: 0, intelligence: 0, constitution: 0, agility: 0, fortune: 0 };
    actor.combat = 0;
    let mut rng = StdRng::seed_from_u64(1);
    let j = create_journey(&mut rng, &actor, false, 0, false, false);
    assert_eq!(j.template_id, "free_wander");
    assert_eq!(j.difficulty, 20);
    assert_eq!(j.total_months, 1);
    assert!(j.encounter_id.is_none());
}

fn road_arts(manuals: Vec<Manual>) -> RoadArts {
    RoadArts {
        art_name: "太祖长拳".into(),
        spar_experience: 30,
        ambush_won_experience: 40,
        ambush_lost_experience: 15,
        manuals,
    }
}

#[test]
fn rare_journey_manual_belongs_to_its_finder() {
    let actor = traveller(100);
    let arts = road_arts(vec![Manual { id: "lingbo".into(), name: "凌波微步".into() }]);
    let (mut p, mut s) = nothing();
    let mut rng = StdRng::seed_from_u64(8);

    let (text, found) = apply_travel_encounter(&mut rng, &actor, false, TravelEncounterKind::LostManual, &arts, &mut p, &mut s);

    assert_eq!(found.as_deref(), Some("lingbo"));
    assert_eq!(text, "归途中在残碑夹层寻得凌波微步遗卷，收入私人行囊；造诣 +12、个人声名 +1。");
    assert_eq!((p.attainment, p.reputation), (12, 1));
    assert_eq!(s.silver, 0);
}

#[test]
fn friendly_travel_spar_is_always_nonlethal() {
    for seed in 0..40 {
        let mut actor = traveller(100);
        actor.disciple.attributes.qi.current = 3;
        let arts = road_arts(Vec::new());
        let (mut p, mut s) = nothing();
        let mut rng = StdRng::seed_from_u64(seed);
        let (text, found) = apply_travel_encounter(&mut rng, &actor, false, TravelEncounterKind::FriendlySpar, &arts, &mut p, &mut s);
        assert!(actor.disciple.attributes.qi.current + p.qi >= 1);
        assert!(found.is_none());
        assert!(text.starts_with("路遇"));
        assert!(p.art_experience >= 30);
    }
}

#[test]
fn a_lost_manual_without_manuals_becomes_guidance() {
    let actor = traveller(100);
    let arts = road_arts(Vec::new());
    let (mut p, mut s) = nothing();
    let mut rng = StdRng::seed_from_u64(3);
    let (text, found) = apply_travel_encounter(&mut rng, &actor, true, TravelEncounterKind::LostManual, &arts, &mut p, &mut s);
    assert!(found.is_none());
    assert!(text.starts_with("偶遇山中异人"));
    assert!(p.qi_max + p.spirit_max >= 2 && p.qi_max + p.spirit_max <= 5);
}

#[test]
fn supplies_found_on_a_mission_go_to_the_sect() {
    let actor = traveller(100);
    let arts = road_arts(Vec::new());
    let (mut p, mut s) = nothing();
    let mut rng = StdRng::seed_from_u64(11);
    let (text, _) = apply_travel_encounter(&mut rng, &actor, true, TravelEncounterKind::FoundSupplies, &arts, &mut p, &mut s);
    assert!((3..=8).contains(&s.grain));
    assert!((1..=4).contains(&s.herbs));
    assert_eq!(p.merit, 2);
    assert!(text.ends_with("，功绩 +2。"));
}

#[test]
fn journey_identity_and_encounter_persist_until_return_then_settle_once() {
    let actor = traveller(100);
    let arts = road_arts(Vec::new());
    let (mut p, mut s) = nothing();
    let mut rng = StdRng::seed_from_u64(913);

    let (mut j, months, text, _) = depart_on_journey(&mut rng, &actor, true, true, false, "太祖长拳", 20, &mut p);
    assert!(text.contains("归山验收后一次结算"));
    assert_eq!(s.silver, 0);
    assert!((1..=3).contains(&months));
    let id = j.id.clone();
    let encounter = j.encounter_id.clone();
    let mut away = months;
    let mut last = String::new();
    while away > 0 {
        let (line, left, _, _) = travel_month(&mut rng, &actor, true, true, &arts, "太祖长拳", 20, &mut j, away, &mut p, &mut s);
        assert_eq!(j.id, id);
        assert_eq!(j.encounter_id, encounter);
        away = left;
        last = line;
    }
    assert!(j.settled);
    assert!(j.encounter_resolved);
    assert!(last.contains("风尘归山"));
    let paid = s.silver;
    let merit = p.merit;

    let (again, _, _, _) = travel_month(&mut rng, &actor, true, true, &arts, "太祖长拳", 20, &mut j, 0, &mut p, &mut s);
    assert!(again.contains("不再重复发赏"));
    assert_eq!(s.silver, paid);
    assert_eq!(p.merit, merit);
}

#[test]
fn a_month_on_the_road_reports_where_the_traveller_is() {
    let actor = traveller(100);
    let arts = road_arts(Vec::new());
    let (mut p, mut s) = nothing();
    let mut rng = StdRng::seed_from_u64(2);
    let mut j = journey("seek_physician", "luoyang");
    j.total_months = 3;

    let (line, left, gain, found) = travel_month(&mut rng, &actor, true, false, &arts, "太祖长拳", 20, &mut j, 3, &mut p, &mut s);

    assert_eq!(left, 2);
    assert_eq!(j.elapsed_months, 1);
    assert!(!j.settled);
    assert!(found.is_none());
    assert_eq!(
        line,
        format!("行者仍在洛阳办理寻访名医，途中不忘磨炼太祖长拳，经验 +{}。", gain)
    );
    assert_eq!(s.silver, 0);
}
