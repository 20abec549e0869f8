use rand::rngs::StdRng;
use rand::SeedableRng;
use zhangmenriji::game::GameState;
use zhangmenriji::interaction::{
    defection, defection_attraction, faction_snapshot, is_npc_leader, pair_candidates,
    run_monthly_interactions, spar, yuan_court, Faction, InteractionKind,
};
use zhangmenriji::model::{Disciple, SectPolicy};
use zhangmenriji::sect::SectState;

fn npc_sect(
    id: &str,
    name: &str,
    country: &str,
    policy: SectPolicy,
    prestige: i32,
    silver: i32,
    morality: i32,
) -> SectState {
    let mut sect = SectState::default();
    sect.id = id.into();
    sect.name = name.into();
    sect.country_id = country.into();
    sect.policy = policy;
    sect.attributes.prestige = prestige;
    sect.attributes.silver = silver;
    sect.attributes.morality = morality;
    sect
}

fn member(sect_id: &str, n: usize) -> Disciple {
    let mut d = Disciple::new();
    d.id = format!("npc_{sect_id}_{n}");
    d.name = format!("{sect_id}弟子{n}");
    d.sect_id = Some(sect_id.into());
    d
}

/// A small world: the player's sect with three disciples and eight other
/// sects of four members each, the two courts among them.
fn world() -> GameState {
    let mut state = GameState::default();
    for n in 1..=3 {
        let mut d = Disciple::new();
        d.id = format!("p{n}");
        d.name = format!("本门弟子{n}");
        state.disciples.push(d);
    }
    let sects = [
        npc_sect("wudang", "武当派", "song", SectPolicy::Balanced, 300, 800, 70),
        npc_sect("huashan", "华山派", "song", SectPolicy::Martial, 280, 600, 60),
        npc_sect("shaolin", "少林寺", "song", SectPolicy::Reclusive, 400, 900, 80),
        npc_sect("court", "怯薛军", "yuan", SectPolicy::Martial, 500, 3000, 30),
        npc_sect("song_court", "枢密院", "song", SectPolicy::Balanced, 450, 2500, 60),
        npc_sect("yipin", "一品堂", "xia", SectPolicy::Mercantile, 250, 1200, 35),
        npc_sect("tianlong", "天龙寺", "dali", SectPolicy::Scholarly, 320, 700, 85),
        npc_sect("golden", "金刚门", "yuan", SectPolicy::Martial, 260, 400, 40),
    ];
    for sect in sects {
        for n in 1..=4 {
            state.npc_disciples.push(member(&sect.id, n));
        }
        state.npc_sects.push(sect);
    }
    state
}

fn find<'a>(factions: &'a [Faction], id: &str) -> &'a Faction {
    factions.iter().find(|faction| faction.id == id).unwrap()
}

#[test]
fn monthly_interactions_always_emit_three_to_five_world_events() {
    let mut state = world();
    let mut rng = StdRng::seed_from_u64(7);
    for _ in 0..24 {
        let events = run_monthly_interactions(&mut rng, &mut state);
        assert!((3..=5).contains(&events.len()));
        assert!(events.iter().all(|event| event.category == "world"));
    }
}

#[test]
fn spar_and_court_events_apply_their_declared_effects() {
    let mut state = world();
    let factions = faction_snapshot(&state);
    let wudang = find(&factions, "wudang");
    let huashan = find(&factions, "huashan");
    let before_total = wudang.prestige + huashan.prestige;
    let mut rng = StdRng::seed_from_u64(13);
    let (text, _) = spar(&mut rng, &mut state, wudang, huashan).unwrap();
    assert!(text.contains("切磋"));
    assert_eq!(
        state.npc_sects[wudang.slot - 1].attributes.prestige
            + state.npc_sects[huashan.slot - 1].attributes.prestige,
        before_total + 1
    );

    let factions = faction_snapshot(&state);
    let court = find(&factions, "court");
    let target = find(&factions, "wudang");
    let before = state.npc_sects[target.slot - 1].attributes.silver;
    let mut levy_rng = StdRng::seed_from_u64(2);
    let (text, _) = yuan_court(&mut levy_rng, &mut state, court, target);
    assert!(text.contains("怯薛军") || text.contains("金帐汗国"));
    let after = state.npc_sects[target.slot - 1].attributes.silver;
    assert!(after == before || after == (before - 30).max(0));
}

#[test]
fn defection_moves_a_real_disciple_between_rosters() {
    let mut state = world();
    let factions = faction_snapshot(&state);
    let wudang = find(&factions, "wudang");
    let huashan = find(&factions, "huashan");
    let before_wudang = wudang.members;
    let before_huashan = huashan.members;
    let mut rng = StdRng::seed_from_u64(19);
    let (text, _) = defection(&mut rng, &mut state, wudang, huashan).unwrap();
    assert!(text.contains("叛逃"));
    let after = faction_snapshot(&state);
    let after_wudang = find(&after, "wudang");
    let after_huashan = find(&after, "huashan");
    assert!(
        (after_wudang.members + 1 == before_wudang && after_huashan.members == before_huashan + 1)
            || (after_huashan.members + 1 == before_huashan
                && after_wudang.members == before_wudang + 1)
    );
}

#[test]
fn snapshot_counts_living_members_and_possible_defectors() {
    let mut state = world();
    state.npc_disciples[1].alive = false;
    let factions = faction_snapshot(&state);
    assert_eq!(factions.len(), 9);
    assert_eq!(factions[0].slot, 0);
    assert_eq!(factions[0].members, 3);
    let wudang = find(&factions, "wudang");
    assert_eq!(wudang.slot, 1);
    assert_eq!(wudang.members, 3);
    // The founder `npc_wudang_1` leads the sect and never defects.
    assert_eq!(wudang.defectors, 2);
    assert_eq!(wudang.prestige, 300);
    assert_eq!(wudang.country, "song");
}

#[test]
fn a_lone_member_is_never_counted_as_a_defector() {
    let mut state = world();
    let kept = state.npc_disciples.len();
    for d in state.npc_disciples.iter_mut().take(kept) {
        if d.sect_id.as_deref() == Some("wudang") && d.id != "npc_wudang_2" {
            d.alive = false;
        }
    }
    let factions = faction_snapshot(&state);
    let wudang = find(&factions, "wudang");
    assert_eq!(wudang.members, 1);
    assert_eq!(wudang.defectors, 0);
}

#[test]
fn leaders_are_known_by_rank_or_as_founders() {
    let mut founder = member("wudang", 1);
    assert!(is_npc_leader(&founder));
    founder.id = "npc_wudang_7".into();
    assert!(!is_npc_leader(&founder));
    founder.npc_position = Some("掌门".into());
    assert!(is_npc_leader(&founder));
    founder.npc_position = Some("长老".into());
    assert!(!is_npc_leader(&founder));
}

#[test]
fn two_sects_of_one_realm_are_offered_their_encounters_in_order() {
    let state = world();
    let factions = faction_snapshot(&state);
    let wudang = find(&factions, "wudang");
    let huashan = find(&factions, "huashan");
    assert_eq!(defection_attraction(wudang, huashan), 1);
    assert_eq!(defection_attraction(huashan, wudang), 20);
    assert_eq!(
        pair_candidates(wudang, huashan),
        vec![
            (InteractionKind::Spar, 11),
            (InteractionKind::BorderConflict, 8),
            (InteractionKind::JointBandits, 20),
            (InteractionKind::Defection, 11),
        ]
    );
}

#[test]
fn the_two_courts_only_clash() {
    let state = world();
    let factions = faction_snapshot(&state);
    let court = find(&factions, "court");
    let song_court = find(&factions, "song_court");
    assert_eq!(
        pair_candidates(court, song_court),
        vec![(InteractionKind::CourtClash, 180)]
    );
}

#[test]
fn frontier_kingdoms_trade_and_send_monks_and_assassins() {
    let state = world();
    let factions = faction_snapshot(&state);
    let yipin = find(&factions, "yipin");
    let tianlong = find(&factions, "tianlong");
    let offered = pair_candidates(yipin, tianlong);
    // Monks from the southern kingdom, trade and assassins from the western
    // one (morality 35: 8 + 15 / 3), a spar (morality gap 50: 8 + 50 / 3),
    // trade between a mercantile sect and a scholarly one (18 + 570 / 30),
    // and a defection (pull from 一品堂 to 天龙寺: 35 + 50 + 15 = 100).
    assert_eq!(
        offered,
        vec![
            (InteractionKind::DaliExchange, 24),
            (InteractionKind::XiaTrade, 18),
            (InteractionKind::XiaAssassination, 13),
            (InteractionKind::Spar, 24),
            (InteractionKind::Trade, 37),
            (InteractionKind::Defection, 31),
        ]
    );
}

#[test]
fn a_sect_alone_has_no_encounters() {
    let mut state = GameState::default();
    let before = state.sect.attributes.prestige;
    let mut rng = StdRng::seed_from_u64(3);
    let events = run_monthly_interactions(&mut rng, &mut state);
    assert!(events.is_empty());
    assert_eq!(state.sect.attributes.prestige, before);
}

#[test]
fn a_month_keeps_every_sect_within_its_standing() {
    let mut state = world();
    let mut rng = StdRng::seed_from_u64(11);
    for _ in 0..12 {
        let events = run_monthly_interactions(&mut rng, &mut state);
        assert!(events.len() <= 5);
        for sect in state.npc_sects.iter() {
            assert!((0..=1000).contains(&sect.attributes.prestige));
            assert!((0..=100).contains(&sect.attributes.morality));
            assert!(sect.attributes.silver >= 0);
        }
    }
    let disciples: usize = state.disciples.len() + state.npc_disciples.len();
    assert_eq!(disciples, 3 + 8 * 4);
}
