use career_poker::card::{Card, Suit};
use career_poker::context::{Context, Player};
use career_poker::deck::Deck;
use career_poker::effect::{DefaultCareerPokerRiverGuard, Revolution};
use career_poker::meta::plugin_meta;
use career_poker::ports::{FlushTarget, GameError, PortRequest};
use career_poker::state::{servable, CareerPokerState};

fn n(suit: Suit, rank: u8) -> Card {
    Card::Number(suit, rank)
}

fn table(names: &[&str], hands: Vec<Vec<Card>>) -> CareerPokerState {
    let mut state = CareerPokerState::new("".to_string());
    state.players = names.iter().map(|s| s.to_string()).collect();
    state.fields = hands.into_iter().map(Deck::new).collect();
    state
}

#[test]
fn scenario_three_of_spades_shuts_every_effect_off() {
    // three players, a full two-joker deal, and an opening three of spades
    let mut state = CareerPokerState::new("room".to_string());
    state.join("a".to_string());
    state.join("b".to_string());
    state.join("c".to_string());
    let rands: Vec<u32> = (0..54).collect();
    state.distribute(&rands);
    // under the identity draw the three of spades sits in seat c
    assert!(state.fields[2].0.contains(&n(Suit::Spade, 3)));
    state.current = Some("c".to_string());
    let reqs = state.serve("c".to_string(), vec![n(Suit::Spade, 3)]).unwrap();
    assert!(reqs.is_empty());
    for rank in 1..=13u8 {
        assert!(state.effect.effect_limits.contains(&rank));
    }
    // a subsequent play of a normally prompting rank fires nothing
    let before_prompts = state.prompts.clone();
    let before_trushes = state.trushes.0.clone();
    state.current = Some("a".to_string());
    state.trushes = Deck::new(vec![n(Suit::Diamond, 11)]);
    let _ = state.serve("a".to_string(), vec![n(Suit::Spade, 4)]).unwrap();
    assert_eq!(state.prompts, before_prompts);
    assert_eq!(before_trushes, Vec::new());
    assert_eq!(state.trushes.0, vec![n(Suit::Diamond, 11)]);
    assert!(state.effect.is_step == false);
}

#[test]
fn scenario_rank_nine_size_exchange() {
    // stack holds a lone five of spades with the pile size fixed at one
    let mut state = table(
        &["a", "b"],
        vec![vec![n(Suit::Heart, 9)], vec![n(Suit::Heart, 7)]],
    );
    state.river.push(Deck::new(vec![n(Suit::Spade, 5)]));
    state.effect.river_size = Some(1);
    // a lone nine matches the size outright
    assert_eq!(servable(&state, &vec![n(Suit::Heart, 9)]), true);
    // three nines ride the 1-and-3 exchange
    assert_eq!(
        servable(
            &state,
            &vec![n(Suit::Heart, 9), n(Suit::Diamond, 9), n(Suit::Clover, 9)]
        ),
        true
    );
    // two nines match neither side of the exchange
    assert_eq!(
        servable(&state, &vec![n(Suit::Heart, 9), n(Suit::Diamond, 9)]),
        false
    );
    // a non-nine of the wrong size stays illegal
    assert_eq!(
        servable(&state, &vec![n(Suit::Heart, 8), n(Suit::Diamond, 8)]),
        false
    );
    // once the nine effect is suppressed the exchange is gone
    state.effect.effect_limits.push(9);
    assert_eq!(
        servable(
            &state,
            &vec![n(Suit::Heart, 9), n(Suit::Diamond, 9), n(Suit::Clover, 9)]
        ),
        false
    );
}

#[test]
fn scenario_queens_fix_steps_and_suits() {
    let mut state = table(
        &["a", "b"],
        vec![
            vec![n(Suit::Spade, 12), n(Suit::Diamond, 12)],
            vec![n(Suit::Heart, 1)],
        ],
    );
    let _ = state
        .serve(
            "a".to_string(),
            vec![n(Suit::Spade, 12), n(Suit::Diamond, 12)],
        )
        .unwrap();
    assert!(state.effect.is_step);
    assert!(state.effect.suit_limits.contains(&Suit::Spade));
    assert!(state.effect.suit_limits.contains(&Suit::Diamond));
    assert!(!state.effect.suit_limits.contains(&Suit::Heart));
    // kings are one step up, but the club breaks the suit limits
    assert_eq!(
        servable(&state, &vec![n(Suit::Spade, 13), n(Suit::Clover, 13)]),
        false
    );
    // matching suits pass
    assert_eq!(
        servable(&state, &vec![n(Suit::Spade, 13), n(Suit::Diamond, 13)]),
        true
    );
    // two steps up fails the step rule even with matching suits
    assert_eq!(
        servable(&state, &vec![n(Suit::Spade, 1), n(Suit::Diamond, 1)]),
        false
    );
}

#[test]
fn scenario_one_chance_preempts_the_flush() {
    let mut state = table(
        &["a", "b"],
        vec![
            vec![n(Suit::Heart, 6), n(Suit::Diamond, 6)],
            vec![n(Suit::Diamond, 6), n(Suit::Heart, 7)],
        ],
    );
    let _ = state.serve("a".to_string(), vec![n(Suit::Heart, 6)]).unwrap();
    // the turn wraps back to the server: the engine schedules, it does not flush
    let reqs = state.pass("b".to_string()).unwrap();
    assert!(matches!(
        reqs[0],
        PortRequest::Schedule { task_id: 0, to: FlushTarget::Trushes, .. }
    ));
    assert_eq!(state.will_flush_task_id, Some(0));
    assert_eq!(state.river.len(), 1);
    // before the timer fires, b interrupts with a matching card; the draw
    // grants the 1-in-2 chance
    let reqs = state
        .one_chance("b".to_string(), vec![n(Suit::Diamond, 6)], 2)
        .unwrap();
    assert_eq!(reqs, vec![PortRequest::Cancel { task_id: 0 }]);
    assert_eq!(state.river.len(), 0);
    assert_eq!(state.trushes.0, vec![n(Suit::Heart, 6), n(Suit::Diamond, 6)]);
    assert_eq!(state.current, Some("b".to_string()));
    assert_eq!(state.will_flush_task_id, None);
    // b's hand lost the interrupting card
    assert_eq!(state.fields[1].0, vec![n(Suit::Heart, 7)]);
}

#[test]
fn one_chance_lost_draw_changes_nothing() {
    let mut state = table(
        &["a", "b"],
        vec![
            vec![n(Suit::Heart, 6), n(Suit::Diamond, 6)],
            vec![n(Suit::Heart, 7)],
        ],
    );
    let before = state.fields[0].0.clone();
    let r = state.one_chance("a".to_string(), vec![n(Suit::Diamond, 6)], 1);
    assert_eq!(r, Ok(Vec::new()));
    assert_eq!(state.fields[0].0, before);
}

#[test]
fn one_chance_with_whole_hand_is_rejected() {
    let mut state = table(
        &["a", "b"],
        vec![vec![n(Suit::Heart, 6)], vec![n(Suit::Heart, 7)]],
    );
    let r = state.one_chance("a".to_string(), vec![n(Suit::Heart, 6)], 0);
    assert_eq!(r, Err(GameError::InvalidPlay));
}

#[test]
fn passes_on_a_fresh_deal_never_flush() {
    let mut state = CareerPokerState::new("room".to_string());
    state.join("a".to_string());
    state.join("b".to_string());
    state.join("c".to_string());
    let rands: Vec<u32> = (0..54).collect();
    state.distribute(&rands);
    assert_eq!(state.current, Some("a".to_string()));
    let reqs = state.pass("a".to_string()).unwrap();
    assert!(reqs.is_empty());
    let reqs = state.pass("b".to_string()).unwrap();
    assert!(reqs.is_empty());
    let reqs = state.pass("c".to_string()).unwrap();
    assert!(reqs.is_empty());
    // a full round of passes brings the turn back to the first seat
    assert_eq!(state.current, Some("a".to_string()));
    assert_eq!(state.will_flush_task_id, None);
}

#[test]
fn reduced_game_admission_rule() {
    let mut ctx = Context::new();
    assert_eq!(ctx.servable(&vec![n(Suit::Heart, 5)]), Ok(()));
    ctx.river.push(vec![n(Suit::Heart, 5)]);
    assert_eq!(ctx.servable(&vec![n(Suit::Heart, 8)]), Ok(()));
    assert_eq!(
        ctx.servable(&vec![n(Suit::Heart, 4)]),
        Err(GameError::InvalidPlay)
    );
    assert_eq!(
        ctx.servable(&vec![n(Suit::Heart, 8), n(Suit::Spade, 8)]),
        Err(GameError::InvalidPlay)
    );
    ctx.state.revoluted = true;
    assert_eq!(ctx.servable(&vec![n(Suit::Heart, 4)]), Ok(()));
}

#[test]
fn reduced_game_flush_and_exclude() {
    let mut ctx = Context::new();
    ctx.river.push(vec![n(Suit::Heart, 5)]);
    ctx.river.push(vec![n(Suit::Heart, 8), n(Suit::Spade, 8)]);
    ctx.flush();
    assert_eq!(
        ctx.trushes,
        vec![n(Suit::Heart, 5), n(Suit::Heart, 8), n(Suit::Spade, 8)]
    );
    assert!(ctx.river.is_empty());
    ctx.river.push(vec![n(Suit::Heart, 2)]);
    ctx.exclude();
    assert_eq!(ctx.excluded, vec![n(Suit::Heart, 2)]);
    assert!(ctx.river.is_empty());
}

#[test]
fn reduced_game_deal_splits_evenly() {
    let rands: Vec<u32> = (0..54).collect();
    let players = Player::distribute(4, 2, &rands);
    // 54 cards over exactly four seats: the first two take one extra card
    assert_eq!(players.len(), 4);
    for (i, p) in players.iter().enumerate() {
        assert_eq!(p.id, i);
    }
    assert_eq!(players[0].hands.len(), 14);
    assert_eq!(players[1].hands.len(), 14);
    assert_eq!(players[2].hands.len(), 13);
    assert_eq!(players[3].hands.len(), 13);
    assert_eq!(players[0].hands[0], n(Suit::Spade, 1));
    // consecutive runs: no card lost, none duplicated
    let total: usize = players.iter().map(|p| p.hands.len()).sum();
    assert_eq!(total, 54);
    assert_eq!(players[1].hands[0], n(Suit::Diamond, 2));
    assert_eq!(players[3].hands[12], Card::Joker);
}

#[test]
fn reduced_game_options_filter_and_sort() {
    let mut ctx = Context::new();
    let player = Player {
        id: 0,
        hands: vec![n(Suit::Heart, 2), n(Suit::Heart, 4), n(Suit::Heart, 8)],
    };
    // an open table offers everything, sorted ascending
    assert_eq!(
        player.options(&ctx),
        vec![n(Suit::Heart, 4), n(Suit::Heart, 8), n(Suit::Heart, 2)]
    );
    ctx.river.push(vec![n(Suit::Spade, 7)]);
    assert_eq!(
        player.options(&ctx),
        vec![n(Suit::Heart, 8), n(Suit::Heart, 2)]
    );
    ctx.state.revoluted = true;
    assert_eq!(player.options(&ctx), vec![n(Suit::Heart, 4)]);
}

#[test]
fn river_guard_checks_the_baseline_rule() {
    let guard = DefaultCareerPokerRiverGuard;
    let lasts = Deck::new(vec![n(Suit::Heart, 5)]);
    assert!(guard.allows(&lasts, &Deck::new(vec![n(Suit::Heart, 8)])));
    assert!(!guard.allows(&lasts, &Deck::new(vec![n(Suit::Heart, 4)])));
    assert!(!guard.allows(
        &lasts,
        &Deck::new(vec![n(Suit::Heart, 8), n(Suit::Spade, 8)])
    ));
}

#[test]
fn revolution_starts_unflipped() {
    let r = Revolution::new();
    assert!(!r.revoluted);
}

#[test]
fn size_four_play_flips_the_revolution() {
    let mut state = table(
        &["a", "b"],
        vec![
            vec![
                n(Suit::Heart, 6),
                n(Suit::Diamond, 6),
                n(Suit::Spade, 6),
                n(Suit::Clover, 6),
            ],
            vec![n(Suit::Heart, 7)],
        ],
    );
    assert!(!state.effect.revoluted);
    let _ = state
        .serve(
            "a".to_string(),
            vec![
                n(Suit::Heart, 6),
                n(Suit::Diamond, 6),
                n(Suit::Spade, 6),
                n(Suit::Clover, 6),
            ],
        )
        .unwrap();
    assert!(state.effect.revoluted);
}

#[test]
fn plugin_meta_names_the_module() {
    let meta = plugin_meta();
    assert_eq!(meta.name, "career-poker".to_string());
    assert_eq!(meta.version, "0.1.0".to_string());
}
