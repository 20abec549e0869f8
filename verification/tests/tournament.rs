use rand::rngs::StdRng;
use rand::SeedableRng;
use zhangmenriji::game::GameState;
use zhangmenriji::model::{Disciple, DiscipleCondition};
use zhangmenriji::sect::SectState;
use zhangmenriji::tournament::{
    play_match, round_name, run_tournament, seeded_entrants, seeded_positions, simulate_bracket, snapshot_lineup,
};

fn simple_member(id: &str, sect_id: &str) -> Disciple {
    let mut member = Disciple::default();
    member.id = id.into();
    member.name = id.into();
    member.sect_id = Some(sect_id.into());
    member
}

fn npc_sect(id: &str, name: &str) -> SectState {
    let mut sect = SectState::default();
    sect.id = id.into();
    sect.name = name.into();
    sect
}

fn twenty_five_sect_state() -> (GameState, Vec<i32>, Vec<i32>) {
    let mut state = GameState::default();
    state.world_seed = 20_260_719;
    let mut scores = Vec::new();
    for index in 0..3 {
        state.disciples.push(simple_member(&format!("player-{index}"), "player"));
        scores.push(200 + index * 10);
    }
    let mut npc_scores = Vec::new();
    for index in 0..24 {
        let id = format!("npc-{index:02}");
        state.npc_sects.push(npc_sect(&id, &format!("第{index}派")));
        for member_index in 0..3 {
            state.npc_disciples.push(simple_member(&format!("{id}-{member_index}"), &id));
            npc_scores.push(80 + index * 7 + member_index * 3);
        }
    }
    (state, scores, npc_scores)
}

#[test]
fn seeding_spreads_the_best_seeds_apart() {
    let positions = seeded_positions(8);
    assert_eq!(positions, vec![1, 8, 4, 5, 2, 7, 3, 6]);
    assert_eq!(seeded_positions(1), vec![1]);
    assert_eq!(seeded_positions(32).len(), 32);
    assert_eq!(round_name(2), "决赛");
    assert_eq!(round_name(32), "三十二强");
    assert_eq!(round_name(64), "64强");
}

#[test]
fn a_missing_fighter_loses_the_bout() {
    let mut rng = StdRng::seed_from_u64(5);
    let (lw, rw, lt, rt) = play_match(&mut rng, &Vec::new(), &vec![100]);
    assert_eq!((lw, rw, lt), (0, 1, 0));
    assert!((88..=112).contains(&rt));
}

#[test]
fn tournament_uses_the_world_roster_and_persists_rewards_in_v3_fields() {
    let mut state = GameState::default();
    state.npc_sects = vec![npc_sect("first", "甲派"), npc_sect("second", "乙派")];
    state.sect.attributes.silver = 200;
    state.sect.attributes.prestige = 45;
    let mut rng = StdRng::seed_from_u64(20_260_718);

    let result = run_tournament(&mut rng, &mut state, &Vec::new(), &Vec::new());

    assert_eq!(result.total_sects, 3);
    assert_eq!(state.sect.attributes.silver, 200 + result.reward_silver);
    assert_eq!(state.silver, state.sect.attributes.silver);
    assert_eq!(state.prestige, state.sect.attributes.prestige);
    assert_eq!(state.morale, state.sect.attributes.morale);
    assert_eq!(result.year, state.year);
    let record = state.tournament_history.last().unwrap();
    assert_eq!((record.rank, record.total_sects), (result.rank, result.total_sects));
}

#[test]
fn tournament_rank_is_compared_against_real_npc_combat_power() {
    let mut state = GameState::default();
    state.disciples.clear();
    state.sect.attributes.prestige = 0;
    state.npc_sects = vec![npc_sect("strong", "凌霄盟")];
    state.npc_disciples.push(simple_member("strong-champion", "strong"));
    let prestige_before = state.npc_sects[0].attributes.prestige;
    let mut rng = StdRng::seed_from_u64(19);

    let result = run_tournament(&mut rng, &mut state, &Vec::new(), &vec![600]);

    assert_eq!(result.total_sects, 2);
    assert_eq!(result.rank, 2);
    assert!(result.desc_text.contains("本届魁首为凌霄盟"));
    assert_eq!(state.npc_sects[0].attributes.prestige, prestige_before + 12);
}

#[test]
fn twenty_five_sects_fill_a_32_draw_and_advance_only_winners() {
    let (state, scores, npc_scores) = twenty_five_sect_state();
    let entrants = seeded_entrants(&state, &scores, &npc_scores);
    let mut seeds: Vec<i32> = entrants.iter().map(|e| e.seed).collect();
    seeds.sort_unstable();
    assert_eq!(seeds, (1..=25).collect::<Vec<_>>());
    let mut rng = StdRng::seed_from_u64(717);

    let outcome = simulate_bracket(&mut rng, &entrants);

    let mut places = outcome.places.clone();
    places.sort_unstable();
    assert_eq!(places, (1..=25).collect::<Vec<_>>());
    assert_eq!(outcome.places[outcome.champion], 1);
    let eliminated = outcome.standings.iter().filter(|s| s.elimination_round > 0).count();
    assert_eq!(eliminated, 24);
    let total_wins: i32 = outcome.standings.iter().map(|s| s.match_wins).sum();
    assert_eq!(total_wins, 24);
    for (entrant, standing) in entrants.iter().zip(outcome.standings.iter()) {
        if entrant.seed <= 7 {
            assert_ne!(standing.elimination_round, 1);
        }
    }
}

#[test]
fn lineup_uses_only_the_three_strongest_healthy_present_members() {
    let mut roster = vec![
        simple_member("eligible-1", "player"),
        simple_member("eligible-2", "player"),
        simple_member("eligible-3", "player"),
        simple_member("eligible-4", "player"),
        simple_member("wrong-sect", "opponent"),
    ];
    let mut away = simple_member("away", "player");
    away.away_months = 1;
    roster.push(away);
    let mut injured = simple_member("injured", "player");
    injured.condition = DiscipleCondition::SeriouslyInjured;
    roster.push(injured);
    let mut dead = simple_member("dead", "player");
    dead.alive = false;
    dead.condition = DiscipleCondition::Dead;
    roster.push(dead);
    let scores = vec![300, 500, 400, 200, 5_000, 4_000, 3_000, 6_000];

    let lineup = snapshot_lineup(&roster, &scores, "player");

    assert_eq!(lineup, vec![500, 400, 300]);
}

#[test]
fn an_empty_lineup_loses_each_missing_bout_to_a_present_opponent() {
    let mut state = GameState::default();
    state.disciples.clear();
    state.npc_sects.push(npc_sect("present", "齐整派"));
    state.npc_disciples.push(simple_member("present-one", "present"));
    let mut rng = StdRng::seed_from_u64(91);

    let result = run_tournament(&mut rng, &mut state, &Vec::new(), &vec![100]);

    assert_eq!(result.rank, 2);
    assert_eq!(result.champion, "齐整派");
}

#[test]
fn fixed_rng_replays_the_same_draw_from_the_same_snapshot() {
    let (mut left, scores, npc_scores) = twenty_five_sect_state();
    let (mut right, _, _) = twenty_five_sect_state();
    let mut left_rng = StdRng::seed_from_u64(77);
    let mut right_rng = StdRng::seed_from_u64(77);

    let a = run_tournament(&mut left_rng, &mut left, &scores, &npc_scores);
    let b = run_tournament(&mut right_rng, &mut right, &scores, &npc_scores);

    assert_eq!((a.rank, a.total_sects, a.power, a.champion.clone()), (b.rank, b.total_sects, b.power, b.champion.clone()));
    assert_eq!(a.desc_text, b.desc_text);
    assert_eq!(left.tournament_history.last().unwrap().champion, right.tournament_history.last().unwrap().champion);
}

#[test]
fn a_champion_takes_the_top_reward() {
    let mut state = GameState::default();
    state.npc_sects.push(npc_sect("weak", "弱派"));
    state.npc_disciples.push(simple_member("weak-one", "weak"));
    for i in 0..3 {
        state.disciples.push(simple_member(&format!("hero-{i}"), "player"));
    }
    let silver = state.sect.attributes.silver;
    let mut rng = StdRng::seed_from_u64(3);

    let result = run_tournament(&mut rng, &mut state, &vec![900, 900, 900], &vec![10]);

    assert_eq!(result.rank, 1);
    assert_eq!((result.reward_silver, result.reward_prestige), (300, 15));
    assert_eq!(state.sect.attributes.silver, silver + 300);
    assert_eq!(result.desc_text, "本派弟子技压群雄，夺得魁首！一时间名动江湖，四方来贺！");
    assert_eq!(state.npc_sects[0].attributes.prestige, SectState::default().attributes.prestige + 8);
}
