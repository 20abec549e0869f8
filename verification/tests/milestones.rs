use rand::rngs::StdRng;
use rand::SeedableRng;
use zhangmenriji::game::GameState;
use zhangmenriji::milestones::{
    department_display_name, generate_department_events, generate_lineage_events, interactive_category,
};
use zhangmenriji::model::{Department, Disciple, DiscipleRank};

#[test]
fn interactive_events_of_the_realms_are_filed_as_world_news() {
    assert_eq!(interactive_category("江湖"), "world");
    assert_eq!(interactive_category("朝廷"), "world");
    assert_eq!(interactive_category("乡里"), "world");
    assert_eq!(interactive_category("门内"), "sect");
    assert_eq!(department_display_name(Department::Apothecary), "药务");
    assert_eq!(department_display_name(Department::ExternalAffairs), "外务");
}

#[test]
fn a_fifth_anniversary_is_chronicled_with_the_generation() {
    let mut state = GameState::default();
    state.disciples.push(Disciple {
        id: "veteran".into(),
        name: "陆长风".into(),
        months_in_sect: 60,
        lineage_generation: 2,
        age: 30,
        ..Disciple::default()
    });
    state.disciples.push(Disciple {
        id: "fallen".into(),
        name: "亡者".into(),
        months_in_sect: 120,
        alive: false,
        ..Disciple::default()
    });
    let loyalty = state.disciples[0].attributes.sect_loyalty;
    let mut rng = StdRng::seed_from_u64(30);

    let entries = generate_lineage_events(&mut state, &mut rng);

    assert_eq!(entries.len(), 1);
    assert_eq!(entries[0].text, "陆长风已在门中度过五年春秋，系本派第3代传人，修为与功绩皆为同门翘楚。");
    assert_eq!(entries[0].mood, "good");
    assert_eq!(entries[0].category, "sect");
    assert_eq!(state.disciples[0].attributes.sect_loyalty, loyalty + 2);
    assert_eq!(state.disciples[1].attributes.sect_loyalty, loyalty);
}

#[test]
fn coming_of_age_and_the_founders_jubilee_depend_only_on_their_coins() {
    let mut state = GameState::default();
    state.disciples.push(Disciple {
        id: "young".into(),
        name: "小石头".into(),
        age: 18,
        months_in_sect: 12,
        lineage_generation: 1,
        ..Disciple::default()
    });
    state.disciples.push(Disciple {
        id: "founder".into(),
        name: "祖师".into(),
        age: 50,
        lineage_generation: 0,
        ..Disciple::default()
    });
    let prestige = state.sect.attributes.prestige;
    let morale = state.sect.attributes.morale;
    let mut rng = StdRng::seed_from_u64(31);

    let entries = generate_lineage_events(&mut state, &mut rng);

    let adult = entries.iter().any(|e| e.text == "小石头年已及冠，掌门亲为束发授剑，自此正式列入门墙。");
    let jubilee = entries.iter().any(|e| e.text == "开山立派之祖祖师年届50，门中上下齐贺，江湖各派亦遣使道贺。");
    assert_eq!(entries.len(), adult as usize + jubilee as usize);
    assert_eq!(state.disciples[0].merit, if adult { 5 } else { 0 });
    assert_eq!(state.sect.attributes.prestige, if jubilee { prestige + 5 } else { prestige });
    assert_eq!(state.sect.attributes.morale, if jubilee { (morale + 3).min(100) } else { morale });
}

#[test]
fn a_full_year_in_a_department_adds_department_merit() {
    let mut state = GameState::default();
    state.disciples.push(Disciple {
        id: "clerk".into(),
        name: "钱司库".into(),
        department: Some(Department::Treasury),
        department_months: 11,
        ..Disciple::default()
    });
    state.disciples.push(Disciple {
        id: "idle".into(),
        name: "闲人".into(),
        department_months: 11,
        ..Disciple::default()
    });
    let mut rng = StdRng::seed_from_u64(32);

    let entries = generate_department_events(&mut state, &mut rng);

    assert_eq!(entries.len(), 1);
    assert_eq!(entries[0].text, "钱司库掌理司库已满12个月，处事愈见老练，部门诸务益加井井有条。");
    assert_eq!(state.disciples[0].department_months, 12);
    assert_eq!(state.disciples[0].department_merit, 8);
    assert_eq!(state.disciples[1].department_months, 11);
}

#[test]
fn department_promotion_needs_a_free_place_in_the_next_rank() {
    let mut state = GameState::default();
    state.disciples.push(Disciple {
        id: "chore".into(),
        name: "阿福".into(),
        rank: DiscipleRank::Chore,
        department: Some(Department::Stewardship),
        department_merit: 30,
        ..Disciple::default()
    });
    let mut rng = StdRng::seed_from_u64(33);

    // One living disciple leaves no outer place (40% of one rounds down to none).
    let entries = generate_department_events(&mut state, &mut rng);
    assert!(entries.is_empty());
    assert_eq!(state.disciples[0].rank, DiscipleRank::Chore);
    assert_eq!(state.disciples[0].department_merit, 30);
    assert_eq!(state.disciples[0].department_months, 1);
}
