use rand::rngs::StdRng;
use rand::SeedableRng;
use zhangmenriji::effects::apply_event_effect;
use zhangmenriji::game::GameState;
use zhangmenriji::model::Disciple;
use zhangmenriji::event::{effect, RandomEvent,
    event_weight, expanded_events, interactive_events, jianghu_events, mensheng_events,
    trigger_interactive_event,
};
use zhangmenriji::model::{MoralDirection, SectPolicy};
use zhangmenriji::sect::SectState;

#[test]
fn interactive_pool_has_multiple_wuxia_categories_and_choices() {
    let events = interactive_events();
    assert!(events.len() >= 8);
    let categories: std::collections::BTreeSet<_> =
        events.iter().map(|event| event.category.as_str()).collect();
    assert!(categories.len() >= 5);
    assert!(events.iter().all(|event| event.choices.len() >= 2));
}

#[test]
fn moral_direction_and_policy_have_exact_thematic_event_weights() {
    let mut righteous = SectState::default();
    righteous.moral_direction = MoralDirection::Righteous;
    righteous.policy = SectPolicy::Balanced;
    let mut neutral = righteous.clone();
    neutral.moral_direction = MoralDirection::Neutral;
    let mut villainous = righteous.clone();
    villainous.moral_direction = MoralDirection::Villainous;

    assert_eq!(event_weight(&righteous, "choice_refugees"), 175);
    assert_eq!(event_weight(&neutral, "choice_refugees"), 135);
    assert_eq!(event_weight(&villainous, "choice_refugees"), 80);

    assert_eq!(event_weight(&righteous, "choice_court"), 100);
    assert_eq!(event_weight(&villainous, "choice_court"), 145);
    assert_eq!(event_weight(&righteous, "choice_provocation"), 70);
    assert_eq!(event_weight(&villainous, "choice_provocation"), 145);
    assert_eq!(event_weight(&righteous, "jh_05"), 160);
    assert_eq!(event_weight(&villainous, "jh_05"), 110);
    assert_eq!(event_weight(&righteous, "jh_09"), 70);
    assert_eq!(event_weight(&villainous, "jh_09"), 145);

    let mut mercantile = SectState::default();
    mercantile.moral_direction = MoralDirection::Neutral;
    mercantile.policy = SectPolicy::Mercantile;
    let mut reclusive = mercantile.clone();
    reclusive.policy = SectPolicy::Reclusive;
    assert_eq!(event_weight(&mercantile, "choice_rice"), 150);
    assert_eq!(event_weight(&reclusive, "choice_rice"), 120);
    assert_eq!(event_weight(&mercantile, "jh_07"), 100);
    assert_eq!(event_weight(&reclusive, "jh_07"), 130);
}

#[test]
fn every_event_remains_possible_under_every_governance_combination() {
    let ids = interactive_events()
        .into_iter()
        .map(|event| event.id)
        .chain(jianghu_events().into_iter().map(|event| event.id))
        .chain(mensheng_events().into_iter().map(|event| event.id))
        .chain(expanded_events().into_iter().map(|event| event.id))
        .collect::<Vec<_>>();
    let directions = [
        MoralDirection::Righteous,
        MoralDirection::Neutral,
        MoralDirection::Villainous,
    ];
    let policies = [
        SectPolicy::Balanced,
        SectPolicy::Martial,
        SectPolicy::Scholarly,
        SectPolicy::Chivalrous,
        SectPolicy::Mercantile,
        SectPolicy::Reclusive,
    ];

    for direction in directions {
        for policy in &policies {
            let mut sect = SectState::default();
            sect.moral_direction = direction;
            sect.policy = *policy;
            assert!(
                ids.iter().all(|id| event_weight(&sect, id) > 0),
                "{direction:?} / {policy:?} 不得将任何事件权重降为零"
            );
        }
    }
}

#[test]
fn fixed_seed_picks_more_matching_interactive_events() {
    let mut righteous = SectState::default();
    righteous.moral_direction = MoralDirection::Righteous;
    righteous.policy = SectPolicy::Chivalrous;
    let mut villainous = SectState::default();
    villainous.moral_direction = MoralDirection::Villainous;
    villainous.policy = SectPolicy::Mercantile;
    let mut righteous_rng = StdRng::seed_from_u64(20260719);
    let mut villainous_rng = StdRng::seed_from_u64(20260719);
    let mut righteous_rescues = 0;
    let mut villainous_rescues = 0;
    let mut righteous_profit_or_backlash = 0;
    let mut villainous_profit_or_backlash = 0;

    for _ in 0..10_000 {
        let righteous_event = trigger_interactive_event(&mut righteous_rng, &righteous);
        let villainous_event = trigger_interactive_event(&mut villainous_rng, &villainous);
        righteous_rescues += usize::from(righteous_event.id == "choice_refugees");
        villainous_rescues += usize::from(villainous_event.id == "choice_refugees");
        righteous_profit_or_backlash += usize::from(matches!(
            righteous_event.id.as_str(),
            "choice_rice" | "choice_court" | "choice_herbs" | "choice_provocation"
        ));
        villainous_profit_or_backlash += usize::from(matches!(
            villainous_event.id.as_str(),
            "choice_rice" | "choice_court" | "choice_herbs" | "choice_provocation"
        ));
    }

    assert!(righteous_rescues > villainous_rescues);
    assert!(villainous_profit_or_backlash > righteous_profit_or_backlash);
}

#[test]
fn jianghu_chronicles_do_not_expose_numeric_deltas() {
    assert!(jianghu_events().iter().all(|event| {
        !event
            .text
            .chars()
            .any(|character| character.is_ascii_digit())
            && !event.text.contains("点")
            && !event.text.contains("两")
            && !event.text.contains('+')
    }));
}

#[test]
fn manual_events_create_a_real_private_book_instead_of_a_public_unlock() {
    let mut state = GameState::default();
    state.disciples.push(Disciple {
        name: "沈归鸿".into(),
        ..Disciple::default()
    });
    let public_before = state.sect.public_books.clone();
    let learned_before = state.martial_arts_learned.clone();
    let event = RandomEvent {
        id: "private-manual-test".into(),
        text: "山中偶得残卷。".into(),
        effect: effect(0, 0, 0, 0, Some("manual")),
        good: true,
    };
    let mut rng = StdRng::seed_from_u64(20260718);

    let extra = apply_event_effect(&mut rng, &mut state, &event);

    assert_eq!(state.disciples[0].private_books.len(), 1);
    let book = &state.disciples[0].private_books[0];
    assert!(!state.sect.public_books.contains(book));
    assert_eq!(state.sect.public_books, public_before);
    assert_eq!(state.martial_arts_learned, learned_before);
    assert!(extra[0].contains("个人行囊"));
}

#[test]
fn alliance_event_improves_both_factions_relations_with_bounds() {
    let mut state = GameState::default();
    let mut other = SectState {
        id: "wudang".into(),
        name: "武当派".into(),
        ..SectState::default()
    };
    state.sect.relations.insert(&other.id.clone(), 96);
    other.relations.insert(&state.sect.id.clone(), 95);
    state.npc_sects.push(other);
    let event = RandomEvent {
        id: "bilateral-alliance-test".into(),
        text: "两派互致盟书。".into(),
        effect: effect(0, 0, 0, 0, Some("improve_relation")),
        good: true,
    };
    let mut rng = StdRng::seed_from_u64(20260719);

    let extra = apply_event_effect(&mut rng, &mut state, &event);

    assert_eq!(state.sect.relations.get("wudang"), Some(100));
    assert_eq!(state.npc_sects[0].relations.get(&state.sect.id), Some(100));
    assert!(extra.iter().any(|text| text.contains("武当派")));
}
