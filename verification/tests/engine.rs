use career_poker::card::{Card, Suit};
use career_poker::deck::Deck;
use career_poker::effect::Effect;
use career_poker::ports::{FlushTarget, GameError, PortRequest, PromptKind};
use career_poker::state::{effect_card, servable, servable_9, CareerPokerState};

fn n(suit: Suit, rank: u8) -> Card {
    Card::Number(suit, rank)
}

fn table(names: &[&str], hands: Vec<Vec<Card>>) -> CareerPokerState {
    let mut state = CareerPokerState::new("".to_string());
    state.players = names.iter().map(|s| s.to_string()).collect();
    state.fields = hands.into_iter().map(Deck::new).collect();
    state
}

#[test]
fn test_servable() {
    let state = CareerPokerState::new("".to_string());
    let serves = vec![n(Suit::Heart, 3), n(Suit::Diamond, 3)];
    assert_eq!(servable(&state, &serves), true);

    let mut state = CareerPokerState::new("".to_string());
    state.effect.river_size = Some(1);
    state.river.push(Deck::new(vec![n(Suit::Heart, 13)]));
    let serves = vec![n(Suit::Heart, 1)];
    assert_eq!(servable(&state, &serves), true);
}

#[test]
fn effect_test_get_relative_player() {
    let state = table(
        &["a", "b", "c"],
        vec![
            vec![n(Suit::Heart, 1)],
            vec![n(Suit::Heart, 1)],
            vec![n(Suit::Heart, 1)],
        ],
    );
    let a = "a".to_string();
    assert_eq!(state.get_relative_player(&a, 1), Some("b".to_string()));
    assert_eq!(state.get_relative_player(&a, -1), Some("c".to_string()));
    assert_eq!(state.get_relative_player(&a, 2), Some("c".to_string()));
    assert_eq!(state.get_relative_player(&a, 3), Some("a".to_string()));
}

#[test]
fn state_test_get_relative_player() {
    let state = table(
        &["a", "b", "c"],
        vec![
            vec![n(Suit::Heart, 1)],
            vec![n(Suit::Heart, 1)],
            vec![n(Suit::Heart, 1)],
        ],
    );
    let a = "a".to_string();
    assert_eq!(state.get_relative_player(&a, 1), Some("b".to_string()));
    assert_eq!(state.get_relative_player(&a, -1), Some("c".to_string()));
    assert_eq!(state.get_relative_player(&a, 2), Some("c".to_string()));
    assert_eq!(state.get_relative_player(&a, 3), Some("a".to_string()));

    let state = table(
        &["a", "b"],
        vec![vec![n(Suit::Heart, 1)], vec![n(Suit::Heart, 1)]],
    );
    assert_eq!(state.get_relative_player(&a, 1), Some("b".to_string()));
    assert_eq!(state.get_relative_player(&a, -1), Some("b".to_string()));
    assert_eq!(state.get_relative_player(&a, 2), Some("a".to_string()));
}

#[test]
fn test_effect_12() {
    let mut state = table(
        &["a", "b"],
        vec![vec![n(Suit::Heart, 12)], vec![n(Suit::Heart, 1)]],
    );
    let _ = state.serve("a".to_string(), vec![n(Suit::Heart, 12)]);
    println!("{:?}", state.effect);
    assert_eq!(servable(&state, &vec![n(Suit::Spade, 13)]), false);
}

#[test]
fn relative_player_skips_empty_hands() {
    let state = table(
        &["a", "b", "c"],
        vec![vec![n(Suit::Heart, 1)], vec![], vec![n(Suit::Heart, 2)]],
    );
    let a = "a".to_string();
    assert_eq!(state.get_relative_player(&a, 1), Some("c".to_string()));
}

#[test]
fn join_and_leave_manage_seats() {
    let mut state = CareerPokerState::new("room".to_string());
    state.join("a".to_string());
    state.join("b".to_string());
    state.join("a".to_string());
    assert_eq!(state.players, vec!["a".to_string(), "b".to_string()]);
    assert_eq!(state.fields.len(), 2);
    state.leave("a".to_string());
    assert_eq!(state.players, vec!["b".to_string()]);
    assert_eq!(state.fields.len(), 1);
    state.leave("z".to_string());
    assert_eq!(state.players, vec!["b".to_string()]);
}

#[test]
fn serve_out_of_turn_is_rejected() {
    let mut state = table(
        &["a", "b"],
        vec![vec![n(Suit::Heart, 6)], vec![n(Suit::Heart, 7)]],
    );
    state.current = Some("a".to_string());
    let r = state.serve("b".to_string(), vec![n(Suit::Heart, 7)]);
    assert_eq!(r, Err(GameError::NotYourTurn));
    assert_eq!(state.river.len(), 0);
}

#[test]
fn serve_by_stranger_is_rejected() {
    let mut state = table(&["a"], vec![vec![n(Suit::Heart, 6)]]);
    let r = state.serve("z".to_string(), vec![n(Suit::Heart, 6)]);
    assert_eq!(r, Err(GameError::UnknownPlayer));
}

#[test]
fn weaker_play_is_rejected() {
    let mut state = table(
        &["a", "b"],
        vec![
            vec![n(Suit::Heart, 6)],
            vec![n(Suit::Heart, 4), n(Suit::Heart, 7)],
        ],
    );
    let _ = state.serve("a".to_string(), vec![n(Suit::Heart, 6)]);
    let r = state.serve("b".to_string(), vec![n(Suit::Heart, 4)]);
    assert_eq!(r, Err(GameError::InvalidPlay));
    let empty = state.serve("b".to_string(), vec![]);
    assert_eq!(empty, Err(GameError::InvalidPlay));
}

#[test]
fn serve_of_unheld_cards_is_rejected() {
    let mut state = table(
        &["a", "b"],
        vec![vec![n(Suit::Heart, 6)], vec![n(Suit::Heart, 7)]],
    );
    // a holds one six, not two
    let r = state.serve(
        "a".to_string(),
        vec![n(Suit::Heart, 6), n(Suit::Diamond, 6)],
    );
    assert_eq!(r, Err(GameError::InvalidPlay));
    assert_eq!(state.fields[0].0, vec![n(Suit::Heart, 6)]);
    assert_eq!(state.river.len(), 0);
}

#[test]
fn actions_wait_while_a_selection_is_owed() {
    let mut state = table(
        &["a", "b"],
        vec![
            vec![n(Suit::Heart, 7), n(Suit::Heart, 9)],
            vec![n(Suit::Heart, 8)],
        ],
    );
    let _ = state.serve("a".to_string(), vec![n(Suit::Heart, 7)]).unwrap();
    // a owes the gift prompt: neither a pass nor a further serve may move
    // the turn until it is answered
    assert_eq!(
        state.pass("a".to_string()),
        Err(GameError::PromptMismatch)
    );
    assert_eq!(
        state.serve("a".to_string(), vec![n(Suit::Heart, 9)]),
        Err(GameError::PromptMismatch)
    );
    let _ = state
        .select_passes("a".to_string(), vec![n(Suit::Heart, 9)])
        .unwrap();
    assert!(state.prompts.is_empty());
}

#[test]
fn selection_missing_from_pool_is_rejected() {
    let mut state = table(
        &["a", "b"],
        vec![
            vec![n(Suit::Heart, 4), n(Suit::Heart, 9)],
            vec![n(Suit::Heart, 7)],
        ],
    );
    state.trushes = Deck::new(vec![n(Suit::Diamond, 7)]);
    let _ = state.serve("a".to_string(), vec![n(Suit::Heart, 4)]).unwrap();
    let r = state.select_trushes("a".to_string(), vec![n(Suit::Diamond, 8)]);
    assert_eq!(r, Err(GameError::InvalidPlay));
    assert_eq!(state.trushes.0, vec![n(Suit::Diamond, 7)]);
    assert_eq!(
        state.prompts,
        vec![("a".to_string(), PromptKind::Trushes)]
    );
}

#[test]
fn a_prompt_is_replaced_not_doubled() {
    let mut state = table(
        &["a", "b"],
        vec![
            vec![n(Suit::Heart, 4), n(Suit::Diamond, 4), n(Suit::Heart, 9)],
            vec![n(Suit::Heart, 7)],
        ],
    );
    state.trushes = Deck::new(vec![n(Suit::Diamond, 8), n(Suit::Clover, 8)]);
    let a = "a".to_string();
    let _ = effect_card(&mut state, &a, &vec![n(Suit::Heart, 4)]);
    let _ = effect_card(&mut state, &a, &vec![n(Suit::Diamond, 4)]);
    // the prompt list is a map by player: one entry, not two
    assert_eq!(state.prompts, vec![("a".to_string(), PromptKind::Trushes)]);
}

#[test]
fn pass_rotates_and_wrap_schedules_flush() {
    let mut state = table(
        &["a", "b"],
        vec![vec![n(Suit::Heart, 6), n(Suit::Heart, 9)], vec![n(Suit::Heart, 7)]],
    );
    let reqs = state.serve("a".to_string(), vec![n(Suit::Heart, 6)]).unwrap();
    assert!(reqs.is_empty());
    assert_eq!(state.current, Some("b".to_string()));
    // the turn wraps back to the server of record: a deferred flush
    let reqs = state.pass("b".to_string()).unwrap();
    assert_eq!(reqs.len(), 1);
    assert_eq!(
        reqs[0],
        PortRequest::Schedule {
            player_id: "b".to_string(),
            to: FlushTarget::Trushes,
            task_id: 0,
            delay_ms: 5000,
        }
    );
    assert_eq!(state.will_flush_task_id, Some(0));
    // the stack is still standing until the timer fires
    assert_eq!(state.river.len(), 1);
    state.flush(FlushTarget::Trushes);
    assert_eq!(state.river.len(), 0);
    assert_eq!(state.trushes.0, vec![n(Suit::Heart, 6)]);
    assert_eq!(state.current, Some("a".to_string()));
    assert_eq!(state.will_flush_task_id, None);
}

#[test]
fn cancel_task_is_idempotent() {
    let mut state = table(&["a", "b"], vec![vec![n(Suit::Heart, 6)], vec![]]);
    state.will_flush_task_id = Some(7);
    state.cancel_task(3);
    assert_eq!(state.will_flush_task_id, Some(7));
    state.cancel_task(7);
    assert_eq!(state.will_flush_task_id, None);
    let snapshot = state.will_flush_task_id;
    state.cancel_task(7);
    assert_eq!(state.will_flush_task_id, snapshot);
}

#[test]
fn rank_two_excludes_the_stack_at_once() {
    let mut state = table(
        &["a", "b"],
        vec![vec![n(Suit::Heart, 2)], vec![n(Suit::Heart, 7)]],
    );
    let reqs = state.serve("a".to_string(), vec![n(Suit::Heart, 2)]).unwrap();
    assert!(reqs.is_empty());
    assert_eq!(state.excluded.0, vec![n(Suit::Heart, 2)]);
    assert_eq!(state.river.len(), 0);
    assert_eq!(state.current, Some("a".to_string()));
}

#[test]
fn rank_eight_schedules_a_flush() {
    let mut state = table(
        &["a", "b"],
        vec![vec![n(Suit::Heart, 8)], vec![n(Suit::Heart, 7)]],
    );
    let reqs = state.serve("a".to_string(), vec![n(Suit::Heart, 8)]).unwrap();
    assert_eq!(reqs.len(), 1);
    assert!(matches!(reqs[0], PortRequest::Schedule { .. }));
    assert_eq!(state.will_flush_task_id, Some(0));
    assert_eq!(state.river.len(), 1);
}

#[test]
fn rank_nine_toggles_the_pile_size() {
    let mut state = table(
        &["a", "b"],
        vec![vec![n(Suit::Heart, 9)], vec![n(Suit::Heart, 7)]],
    );
    let _ = state.serve("a".to_string(), vec![n(Suit::Heart, 9)]).unwrap();
    assert_eq!(state.effect.river_size, Some(3));
}

#[test]
fn rank_eleven_reverses_the_epoch() {
    let mut state = table(
        &["a", "b"],
        vec![vec![n(Suit::Heart, 11)], vec![n(Suit::Heart, 7)]],
    );
    let _ = state.serve("a".to_string(), vec![n(Suit::Heart, 11)]).unwrap();
    assert!(state.effect.turn_revoluted);
    // under the reversal a weaker card now beats the stack
    assert_eq!(servable(&state, &vec![n(Suit::Heart, 4)]), true);
    assert_eq!(servable(&state, &vec![n(Suit::Heart, 13)]), false);
}

#[test]
fn rank_ten_suppresses_low_ranks() {
    let mut state = table(
        &["a", "b"],
        vec![vec![n(Suit::Heart, 10)], vec![n(Suit::Heart, 7)]],
    );
    let _ = state.serve("a".to_string(), vec![n(Suit::Heart, 10)]).unwrap();
    for rank in 1..=9u8 {
        assert!(state.effect.effect_limits.contains(&rank));
    }
    assert!(!state.effect.effect_limits.contains(&10));
}

#[test]
fn rank_four_with_discard_prompts_and_resolves() {
    let mut state = table(
        &["a", "b"],
        vec![
            vec![n(Suit::Heart, 4), n(Suit::Heart, 9)],
            vec![n(Suit::Heart, 7)],
        ],
    );
    state.trushes = Deck::new(vec![n(Suit::Diamond, 7)]);
    let reqs = state.serve("a".to_string(), vec![n(Suit::Heart, 4)]).unwrap();
    assert!(reqs.is_empty());
    assert_eq!(
        state.prompts,
        vec![("a".to_string(), PromptKind::Trushes)]
    );
    // the turn did not advance while the prompt stands
    assert_eq!(state.current, None);
    let reqs = state
        .select_trushes("a".to_string(), vec![n(Suit::Diamond, 7)])
        .unwrap();
    assert!(reqs.is_empty());
    assert!(state.prompts.is_empty());
    assert!(state.trushes.0.is_empty());
    assert_eq!(
        state.fields[0].0,
        vec![n(Suit::Heart, 9), n(Suit::Diamond, 7)]
    );
    assert_eq!(state.current, Some("b".to_string()));
}

#[test]
fn rank_four_with_empty_discard_is_quiet() {
    let mut state = table(
        &["a", "b"],
        vec![
            vec![n(Suit::Heart, 4), n(Suit::Heart, 9)],
            vec![n(Suit::Heart, 7)],
        ],
    );
    assert!(state.trushes.0.is_empty());
    let reqs = state.serve("a".to_string(), vec![n(Suit::Heart, 4)]).unwrap();
    assert!(reqs.is_empty());
    // nothing to revive: no prompt, and the turn advances normally
    assert!(state.prompts.is_empty());
    assert_eq!(state.current, Some("b".to_string()));
}

#[test]
fn rank_seven_gift_goes_to_the_seat_before() {
    let mut state = table(
        &["a", "b", "c"],
        vec![
            vec![n(Suit::Heart, 7), n(Suit::Heart, 9)],
            vec![n(Suit::Heart, 5)],
            vec![n(Suit::Heart, 6)],
        ],
    );
    let reqs = state.serve("a".to_string(), vec![n(Suit::Heart, 7)]).unwrap();
    assert!(reqs.is_empty());
    assert_eq!(state.prompts, vec![("a".to_string(), PromptKind::Passes)]);
    let reqs = state
        .select_passes("a".to_string(), vec![n(Suit::Heart, 9)])
        .unwrap();
    assert!(reqs.is_empty());
    // the seat before a is c
    assert_eq!(
        state.fields[2].0,
        vec![n(Suit::Heart, 6), n(Suit::Heart, 9)]
    );
    assert!(state.fields[0].0.is_empty());
    assert_eq!(state.current, Some("b".to_string()));
}

#[test]
fn selection_without_prompt_is_rejected() {
    let mut state = table(
        &["a", "b"],
        vec![vec![n(Suit::Heart, 6)], vec![n(Suit::Heart, 7)]],
    );
    state.river.push(Deck::new(vec![n(Suit::Heart, 6)]));
    state.effect.river_size = Some(1);
    let r = state.select_trushes("a".to_string(), vec![n(Suit::Heart, 6)]);
    assert_eq!(r, Err(GameError::PromptMismatch));
}

#[test]
fn selection_of_wrong_size_is_rejected() {
    let mut state = table(
        &["a", "b"],
        vec![
            vec![n(Suit::Heart, 4), n(Suit::Heart, 9)],
            vec![n(Suit::Heart, 7)],
        ],
    );
    state.trushes = Deck::new(vec![n(Suit::Diamond, 7), n(Suit::Diamond, 8)]);
    let _ = state.serve("a".to_string(), vec![n(Suit::Heart, 4)]).unwrap();
    let r = state.select_trushes(
        "a".to_string(),
        vec![n(Suit::Diamond, 7), n(Suit::Diamond, 8)],
    );
    assert_eq!(r, Err(GameError::PromptMismatch));
}

#[test]
fn rank_thirteen_prompts_from_the_exclusion_pile() {
    let mut state = table(
        &["a", "b"],
        vec![
            vec![n(Suit::Heart, 13), n(Suit::Heart, 9)],
            vec![n(Suit::Heart, 7)],
        ],
    );
    state.excluded = Deck::new(vec![n(Suit::Diamond, 2)]);
    let _ = state.serve("a".to_string(), vec![n(Suit::Heart, 13)]).unwrap();
    assert_eq!(state.prompts, vec![("a".to_string(), PromptKind::Excluded)]);
    let _ = state
        .select_excluded("a".to_string(), vec![n(Suit::Diamond, 2)])
        .unwrap();
    assert!(state.excluded.0.is_empty());
    assert_eq!(
        state.fields[0].0,
        vec![n(Suit::Heart, 9), n(Suit::Diamond, 2)]
    );
}

#[test]
fn rank_five_skips_seats() {
    let mut state = table(
        &["a", "b", "c"],
        vec![
            vec![n(Suit::Heart, 5), n(Suit::Heart, 9)],
            vec![n(Suit::Heart, 6)],
            vec![n(Suit::Heart, 7)],
        ],
    );
    let reqs = state.serve("a".to_string(), vec![n(Suit::Heart, 5)]).unwrap();
    // one seat skipped: 1 + 1 places onward from a is c
    assert!(reqs.is_empty());
    assert_eq!(state.current, Some("c".to_string()));
}

#[test]
fn effect_new_turn_keeps_only_the_revolution() {
    let mut effect = Effect::new();
    effect.revoluted = true;
    effect.is_step = true;
    effect.river_size = Some(2);
    effect.effect_limits.push(3);
    let fresh = Effect::new_turn(effect);
    assert!(fresh.revoluted);
    assert!(!fresh.is_step);
    assert_eq!(fresh.river_size, None);
    assert!(fresh.effect_limits.is_empty());
    assert!(fresh.suit_limits.is_empty());
}

#[test]
fn servable_nine_swaps_sizes_one_and_three() {
    let mut state = table(
        &["a", "b"],
        vec![vec![n(Suit::Heart, 9)], vec![n(Suit::Heart, 7)]],
    );
    state.river.push(Deck::new(vec![n(Suit::Spade, 5)]));
    state.effect.river_size = Some(1);
    assert!(servable_9(&state, &vec![n(Suit::Heart, 9)]));
    assert!(servable_9(
        &state,
        &vec![n(Suit::Heart, 9), n(Suit::Diamond, 9), n(Suit::Clover, 9)]
    ));
    assert!(!servable_9(&state, &vec![n(Suit::Heart, 9), n(Suit::Diamond, 9)]));
}

#[test]
fn distribute_deals_everything_sorted() {
    let mut state = CareerPokerState::new("room".to_string());
    state.join("a".to_string());
    state.join("b".to_string());
    state.join("c".to_string());
    let rands: Vec<u32> = (0..54).collect();
    state.distribute(&rands);
    assert_eq!(state.current, Some("a".to_string()));
    assert_eq!(state.fields.len(), 3);
    for hand in &state.fields {
        assert_eq!(hand.0.len(), 18);
    }
    // the identity draw keeps the canonical deck order: seat a opens with
    // the ace of spades dealt first, sorted to its ladder place
    assert!(state.fields[0].0.contains(&n(Suit::Spade, 1)));
    assert!(state.fields[2].0.contains(&n(Suit::Spade, 3)));
    assert_eq!(state.river.len(), 0);
    assert_eq!(state.last_served_player_id, None);
}
