use rand::rngs::StdRng;
use rand::SeedableRng;
use zhangmenriji::advance::{advance_month, resolve_pending_event};
use zhangmenriji::game::GameState;

#[test]
fn a_finished_game_does_not_advance() {
    let mut state = GameState::new();
    state.game_over = true;
    let mut rng = StdRng::seed_from_u64(1);
    let r = advance_month(&mut rng, &mut state, &Vec::new());
    assert!(r.events.is_empty());
    assert!(r.tournament.is_none());
    assert!(r.game_over);
    assert_eq!((state.year, state.month), (1, 1));
}

#[test]
fn each_month_either_pauses_for_an_event_or_settles() {
    let mut paused = 0;
    let mut settled = 0;
    for seed in 0..30 {
        let mut state = GameState::new();
        let mut rng = StdRng::seed_from_u64(seed);
        let r = advance_month(&mut rng, &mut state, &Vec::new());
        if state.pending_event.is_some() {
            paused += 1;
            assert_eq!(state.month, 1);
            assert_eq!(r.events.len(), 1);
            assert!(r.events[0].text.starts_with('【'));
            // a waiting event blocks the next advance
            let again = advance_month(&mut rng, &mut state, &Vec::new());
            assert!(again.events.is_empty());
            assert_eq!(state.month, 1);
        } else {
            settled += 1;
            assert_eq!(state.month, 2);
            assert!(!r.events.is_empty());
            assert!(r.tournament.is_none());
        }
    }
    assert!(paused > 0);
    assert!(settled > 0);
}

#[test]
fn answering_an_event_settles_the_month() {
    let mut rng = StdRng::seed_from_u64(7);
    let mut state = GameState::new();
    let err = resolve_pending_event(&mut rng, &mut state, "any", &Vec::new());
    assert_eq!(err.err().unwrap(), "眼下并无待决之事。");
    let mut seed = 0;
    loop {
        state = GameState::new();
        rng = StdRng::seed_from_u64(seed);
        advance_month(&mut rng, &mut state, &Vec::new());
        if state.pending_event.is_some() {
            break;
        }
        seed += 1;
    }
    let wrong = resolve_pending_event(&mut rng, &mut state, "no_such_choice", &Vec::new());
    assert_eq!(wrong.err().unwrap(), "掌门所选并非卷宗所列之策。");
    assert!(state.pending_event.is_some());
    let choice = state.pending_event.as_ref().unwrap().choices[0].id.clone();
    let result_text = state.pending_event.as_ref().unwrap().choices[0].result_text.clone();
    let r = resolve_pending_event(&mut rng, &mut state, &choice, &Vec::new()).unwrap();
    assert!(state.pending_event.is_none());
    assert_eq!(state.month, 2);
    assert_eq!(r.events[0].text, result_text);
}

#[test]
fn a_finished_game_refuses_answers() {
    let mut state = GameState::new();
    state.game_over = true;
    let mut rng = StdRng::seed_from_u64(1);
    let r = resolve_pending_event(&mut rng, &mut state, "x", &Vec::new());
    assert_eq!(r.err().unwrap(), "山门已散，往事不可再续。");
    state.game_won = true;
    let r = resolve_pending_event(&mut rng, &mut state, "x", &Vec::new());
    assert_eq!(r.err().unwrap(), "此局已经终了，不可再续推月份。");
}
