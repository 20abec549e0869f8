use rand::rngs::StdRng;
use rand::SeedableRng;
use zhangmenriji::game::GameState;
use zhangmenriji::model::Disciple;
use zhangmenriji::month_end::settle_month_end;

fn loyal(id: &str) -> Disciple {
    let mut d = Disciple::default();
    d.id = id.into();
    d.name = format!("弟子{id}");
    d.attributes.sect_loyalty = 80;
    d
}

#[test]
fn a_quiet_month_drifts_morale_and_heals_the_head() {
    let mut state = GameState::default();
    state.injury = 40;
    let morale = state.sect.attributes.morale;
    let mut rng = StdRng::seed_from_u64(1);
    let events = settle_month_end(&mut rng, &mut state);
    assert!(events.is_empty());
    assert!((morale - 3..=morale + 3).contains(&state.sect.attributes.morale));
    assert!((35..=38).contains(&state.injury));
    assert!(!state.game_over);
}

#[test]
fn an_empty_treasury_drives_a_third_of_the_living_away() {
    let mut state = GameState::default();
    state.sect.attributes.silver = 0;
    state.sect.attributes.prestige = 100;
    for i in 0..6 {
        state.disciples.push(loyal(&format!("d{i}")));
    }
    let mut rng = StdRng::seed_from_u64(2);
    let events = settle_month_end(&mut rng, &mut state);
    assert_eq!(state.disciples.len(), 4);
    assert_eq!(state.disciples[0].id, "d2");
    assert_eq!(events.len(), 1);
    assert_eq!(events[0].text, "库银见底，数名弟子辞别而去……");
    assert_eq!(events[0].mood, "bad");
    assert!(!state.game_over);
}

#[test]
fn a_sect_without_disciples_or_silver_ends() {
    let mut state = GameState::default();
    state.sect.attributes.silver = 10;
    let mut rng = StdRng::seed_from_u64(3);
    settle_month_end(&mut rng, &mut state);
    assert!(state.game_over);
    assert!(!state.game_won);
    assert_eq!(state.game_over_reason, "门中无弟子，库银枯竭。山门冷落，掌门黯然隐退……");
}

#[test]
fn a_sect_without_standing_or_spirit_falls() {
    let mut state = GameState::default();
    state.sect.attributes.silver = 0;
    state.sect.attributes.prestige = 0;
    state.sect.attributes.morale = 0;
    for i in 0..6 {
        state.disciples.push(loyal(&format!("d{i}")));
    }
    let mut rng = StdRng::seed_from_u64(4);
    settle_month_end(&mut rng, &mut state);
    assert!(state.game_over);
    assert!(!state.game_won);
    assert_eq!(state.sect.attributes.morale, 0);
    assert_eq!(state.game_over_reason, "江湖声望尽失，门人志气消沉。本派终究未能撑过难关。");
}

#[test]
fn a_deserter_is_named_and_costs_five_morale() {
    for seed in 0..64 {
        let mut state = GameState::default();
        state.sect.attributes.morale = 50;
        let mut wavering = loyal("w");
        wavering.name = "李四".into();
        wavering.attributes.sect_loyalty = 0;
        state.disciples.push(wavering);
        let mut rng = StdRng::seed_from_u64(seed);
        let events = settle_month_end(&mut rng, &mut state);
        if state.disciples.is_empty() {
            assert_eq!(events.len(), 1);
            assert_eq!(events[0].text, "李四叛出师门，不知所踪！");
            assert!((42..=48).contains(&state.sect.attributes.morale));
            return;
        }
    }
    panic!("no desertion in 64 seeds");
}

use zhangmenriji::game::TournamentRecord;
use zhangmenriji::month_end::turn_month;

fn record(year: i32, rank: i32) -> TournamentRecord {
    TournamentRecord { year, rank, total_sects: 9, power: 10, champion: "某派".into() }
}

#[test]
fn an_ordinary_month_turns_and_resets_the_decisions() {
    let mut state = GameState::default();
    state.month = 4;
    state.decisions_used = 3;
    let out = turn_month(&mut state, Vec::new(), None);
    assert!(out.is_empty());
    assert_eq!((state.year, state.month), (1, 5));
    assert_eq!(state.decisions_used, 0);
    assert!(state.pending_event.is_none());
}

#[test]
fn december_closes_the_year_and_opens_the_next() {
    let mut state = GameState::default();
    state.year = 2;
    state.month = 12;
    state.tournament_history = vec![record(1, 5), record(2, 4)];
    let out = turn_month(&mut state, Vec::new(), Some((4, 9)));
    assert_eq!(out.len(), 2);
    assert_eq!(
        out[0].text,
        "两载经营，本派已在江湖立稳山门。第二届论剑名列第4位，共9派参与。"
    );
    assert_eq!(out[1].text, "———— 第3年 ————");
    assert_eq!((out[1].year, out[1].month), (3, 1));
    assert_eq!((state.year, state.month), (3, 1));
    assert!(!state.game_over);
    assert_eq!(state.event_log.len(), 2);
}

#[test]
fn two_podiums_and_high_prestige_win_the_game() {
    let mut state = GameState::default();
    state.year = 5;
    state.month = 12;
    state.sect.attributes.prestige = 620;
    state.tournament_history = vec![record(4, 3), record(5, 2)];
    let out = turn_month(&mut state, Vec::new(), Some((2, 9)));
    assert!(state.game_over);
    assert!(state.game_won);
    assert_eq!(
        out[0].text,
        "5年经营，本派已历5届论剑。本届论剑名列第2位，声望与实力已为江湖所公认。"
    );
    assert!(out[1].text.starts_with("【威震江湖】本派连续三届论剑位列三甲，声望盈620"));
    assert_eq!(state.prestige, 620);
}

#[test]
fn a_defeat_in_december_is_not_turned_into_victory() {
    let mut state = GameState::default();
    state.month = 12;
    state.sect.attributes.prestige = 900;
    state.game_over = true;
    state.game_won = false;
    state.tournament_history = vec![record(0, 1), record(1, 1)];
    let out = turn_month(&mut state, Vec::new(), Some((1, 9)));
    assert!(state.game_over);
    assert!(!state.game_won);
    assert_eq!(out.len(), 1);
    assert_eq!(out[0].text, "———— 第2年 ————");
}

use zhangmenriji::event::{interactive_events, PendingWorldEvent};
use zhangmenriji::month_end::{choose_pending_option, open_month, MonthOpening};

#[test]
fn a_sealed_game_cannot_open_another_month() {
    let mut state = GameState::default();
    state.game_over = true;
    let before = format!("{state:?}");
    let mut rng = StdRng::seed_from_u64(1);
    assert!(matches!(open_month(&mut rng, &mut state), MonthOpening::Sealed));
    assert_eq!(format!("{state:?}"), before);
}

#[test]
fn a_waiting_event_keeps_the_month_still() {
    let mut state = GameState::default();
    state.pending_event = Some(interactive_events().remove(0));
    let before = format!("{state:?}");
    let mut rng = StdRng::seed_from_u64(1);
    assert!(matches!(open_month(&mut rng, &mut state), MonthOpening::Waiting));
    assert_eq!(format!("{state:?}"), before);
}

#[test]
fn about_three_months_in_ten_pause_on_an_announced_event() {
    let mut paused = 0;
    for seed in 0..200 {
        let mut state = GameState::default();
        let mut rng = StdRng::seed_from_u64(seed);
        match open_month(&mut rng, &mut state) {
            MonthOpening::Paused(e) => {
                paused += 1;
                let p = state.pending_event.as_ref().unwrap();
                assert_eq!(e.text, format!("【{}】{}：{}", p.category, p.title, p.text));
                assert_eq!(e.mood, "neutral");
                assert_eq!(state.event_log.last().unwrap().text, e.text);
            }
            MonthOpening::Settle => {
                assert!(state.pending_event.is_none());
                assert!(state.event_log.is_empty());
            }
            _ => panic!("a fresh game neither sealed nor waiting"),
        }
    }
    assert!((30..=90).contains(&paused));
}

#[test]
fn an_answer_names_the_happening_it_stands_for() {
    let mut state = GameState::default();
    let pending: PendingWorldEvent = interactive_events().remove(0);
    state.pending_event = Some(pending);
    let (event, category) = choose_pending_option(&state, "fight").unwrap();
    assert_eq!(event.id, "choice_provocation:fight");
    assert_eq!(event.text, "掌门亲自下场，以寥寥数招定胜负。来客抱拳服输，江湖为之侧目。");
    assert_eq!(event.effect.prestige, Some(6));
    assert!(event.good);
    assert_eq!(category, "world");
    assert_eq!(
        choose_pending_option(&state, "flee").unwrap_err(),
        "掌门所选并非卷宗所列之策。"
    );
    state.pending_event = None;
    assert_eq!(choose_pending_option(&state, "fight").unwrap_err(), "眼下并无待决之事。");
    state.game_over = true;
    assert_eq!(choose_pending_option(&state, "fight").unwrap_err(), "山门已散，往事不可再续。");
}

use zhangmenriji::month_end::finish_month;

#[test]
fn a_failed_second_winter_cannot_be_overwritten_by_the_stage_victory() {
    let mut state = GameState::default();
    state.year = 2;
    state.month = 12;
    state.world_seed = 2212;
    state.sect.attributes.silver = 0;
    state.disciples.clear();
    let mut rng = StdRng::seed_from_u64(2212);

    let (_, tournament, game_over) = finish_month(&mut rng, &mut state, Vec::new(), &Vec::new());

    assert!(game_over);
    assert!(tournament.is_some(), "失败当月的年终论剑仍应留下记录");
    assert!(!state.game_won);
    assert!(state.game_over_reason.contains("门中无弟子"));
    assert_eq!((state.year, state.month), (3, 1));
}

#[test]
fn a_fall_in_december_outranks_a_podium_run() {
    let mut state = GameState::default();
    state.year = 2;
    state.month = 12;
    state.sect.attributes.silver = 0;
    state.sect.attributes.prestige = 900;
    state.disciples.clear();
    state.tournament_history = vec![record(1, 1)];
    let mut rng = StdRng::seed_from_u64(2212);

    let (events, tournament, game_over) = finish_month(&mut rng, &mut state, Vec::new(), &Vec::new());

    assert!(game_over);
    assert!(!state.game_won);
    assert_eq!(state.tournament_history.len(), 2);
    assert_eq!(state.tournament_history[1].rank, tournament.unwrap().rank);
    assert!(events.iter().any(|e| e.text.starts_with("年终论剑！本派在")));
    assert!(events.iter().all(|e| !e.text.starts_with("【威震江湖】")));
}

#[test]
fn a_finished_month_keeps_its_lines_and_moves_the_calendar() {
    let mut state = GameState::default();
    state.month = 6;
    state.decisions_used = 2;
    state.disciples.push(loyal("a"));
    let mut rng = StdRng::seed_from_u64(9);
    let mut given = Vec::new();
    given.push(zhangmenriji::model::GameEvent {
        text: "月闻".into(),
        mood: "good".into(),
        year: 1,
        month: 6,
        category: "sect".into(),
    });

    let (events, tournament, game_over) = finish_month(&mut rng, &mut state, given, &Vec::new());

    assert!(!game_over);
    assert!(tournament.is_none());
    assert!(state.tournament_history.is_empty());
    assert_eq!(events[0].text, "月闻");
    assert_eq!((state.year, state.month), (1, 7));
    assert_eq!(state.decisions_used, 0);
    assert_eq!(state.event_log.last().map(|e| e.text.clone()), events.last().map(|e| e.text.clone()));
    assert!(state.countries.len() >= 1);
}
