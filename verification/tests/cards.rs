use std::cmp::Ordering;

use career_poker::card::{cardinal, career_poker_card_ord, Card, Suit};
use career_poker::deck::{
    deck, dejoker, is_same_number, match_suits, number, remove_cards, remove_items, sorted_cards,
    suits, vec_ord, Deck,
};
use career_poker::ports::GameError;

fn n(suit: Suit, rank: u8) -> Card {
    Card::Number(suit, rank)
}

#[test]
fn test_ord() {
    // an unnormalized joker is strictly weaker than any ranked card
    assert_eq!(
        vec_ord(&vec![Card::Joker], &vec![n(Suit::Spade, 13)]),
        Ordering::Less
    );
    assert_eq!(
        vec_ord(
            &vec![Card::Joker, n(Suit::Spade, 9)],
            &vec![n(Suit::Spade, 13), Card::Joker]
        ),
        Ordering::Less
    );
}

#[test]
fn test_sub_assign() {
    let mut a = Deck::new(vec![n(Suit::Heart, 1), n(Suit::Heart, 2)]);
    let b = Deck::new(vec![n(Suit::Heart, 1)]);
    remove_items(&mut a.0, &b.0);
    assert_eq!(a, Deck::new(vec![n(Suit::Heart, 2)]));
}

#[test]
fn cardinal_ladder_maps_three_low_two_high() {
    assert_eq!(cardinal(3), 0);
    assert_eq!(cardinal(1), 11);
    assert_eq!(cardinal(2), 12);
    assert_eq!(cardinal(13), 10);
}

#[test]
fn single_card_order_follows_ladder() {
    assert_eq!(
        career_poker_card_ord(&n(Suit::Heart, 3), &n(Suit::Spade, 2)),
        Ordering::Less
    );
    assert_eq!(
        career_poker_card_ord(&n(Suit::Heart, 2), &n(Suit::Spade, 1)),
        Ordering::Greater
    );
    assert_eq!(
        career_poker_card_ord(&n(Suit::Heart, 7), &n(Suit::Spade, 7)),
        Ordering::Equal
    );
    assert_eq!(
        career_poker_card_ord(&Card::Joker, &n(Suit::Spade, 2)),
        Ordering::Less
    );
}

#[test]
fn mixed_direction_piles_compare_equal() {
    // 3 beats 5 one way, A beats 4 the other way: no unanimous verdict.
    let a = vec![n(Suit::Heart, 3), n(Suit::Heart, 1)];
    let b = vec![n(Suit::Spade, 5), n(Suit::Spade, 4)];
    assert_eq!(vec_ord(&a, &b), Ordering::Equal);
}

#[test]
fn suit_and_rank_accessors() {
    assert_eq!(n(Suit::Diamond, 4).suit(), Some(Suit::Diamond));
    assert_eq!(n(Suit::Diamond, 4).number(), Some(4));
    assert_eq!(Card::Joker.suit(), None);
    assert_eq!(Card::Joker.number(), None);
    assert_eq!(
        Suit::suits(),
        vec![Suit::Spade, Suit::Diamond, Suit::Heart, Suit::Clover]
    );
}

#[test]
fn full_deck_has_every_card_once() {
    let cards = deck(2);
    assert_eq!(cards.len(), 54);
    assert_eq!(cards[0], n(Suit::Spade, 1));
    assert_eq!(cards[13], n(Suit::Diamond, 1));
    assert_eq!(cards[52], Card::Joker);
    assert_eq!(cards[53], Card::Joker);
    let no_jokers = deck(0);
    assert_eq!(no_jokers.len(), 52);
}

#[test]
fn dejoker_normalizes_jokers_to_pile_rank() {
    let cards = vec![Card::Joker, n(Suit::Spade, 9)];
    assert_eq!(
        dejoker(&cards),
        vec![n(Suit::Spade, 9), n(Suit::UnSuited, 9)]
    );
    let only_jokers = vec![Card::Joker, Card::Joker];
    assert_eq!(dejoker(&only_jokers), only_jokers);
    assert_eq!(Deck::dejoker(&cards), dejoker(&cards));
}

#[test]
fn number_reads_first_ranked_card() {
    assert_eq!(number(&vec![Card::Joker, n(Suit::Heart, 8)]), 8);
    assert_eq!(number(&vec![Card::Joker]), 0);
    assert_eq!(number(&vec![]), 0);
}

#[test]
fn same_number_ignores_jokers() {
    assert!(is_same_number(&vec![
        n(Suit::Heart, 5),
        Card::Joker,
        n(Suit::Clover, 5)
    ]));
}

#[test]
fn different_numbers_are_rejected() {
    assert!(!is_same_number(&vec![n(Suit::Heart, 5), n(Suit::Spade, 6)]));
    assert!(is_same_number(&vec![Card::Joker, Card::Joker]));
}

#[test]
fn match_suits_requires_covering() {
    let lasts = vec![n(Suit::Spade, 12), n(Suit::Diamond, 12)];
    let good = vec![n(Suit::Spade, 13), n(Suit::Diamond, 13)];
    let bad = vec![n(Suit::Spade, 13), n(Suit::Clover, 13)];
    assert!(match_suits(&lasts, &good));
    assert!(!match_suits(&lasts, &bad));
    assert_eq!(
        suits(&lasts),
        vec![Suit::Spade, Suit::Diamond]
    );
}

#[test]
fn sorting_is_ascending_with_jokers_first() {
    let cards = vec![n(Suit::Heart, 2), Card::Joker, n(Suit::Heart, 3)];
    assert_eq!(
        sorted_cards(&cards),
        vec![Card::Joker, n(Suit::Heart, 3), n(Suit::Heart, 2)]
    );
}

#[test]
fn dejoker_is_what_lets_a_joker_count() {
    // alone, an unnormalized joker loses even to the weakest rank
    assert_eq!(
        vec_ord(&vec![Card::Joker], &vec![n(Suit::Spade, 3)]),
        Ordering::Less
    );
    // normalized to the pile's rank, the same joker carries a king
    let mixed = dejoker(&vec![n(Suit::Heart, 13), Card::Joker]);
    assert_eq!(
        vec_ord(&mixed, &vec![n(Suit::Spade, 9), n(Suit::Diamond, 9)]),
        Ordering::Greater
    );
}

#[test]
fn remove_cards_is_all_or_nothing() {
    let mut hand = vec![n(Suit::Heart, 4), n(Suit::Heart, 5)];
    let missing = vec![n(Suit::Heart, 4), n(Suit::Spade, 9)];
    assert_eq!(
        remove_cards(&mut hand, &missing),
        Err(GameError::InvalidPlay)
    );
    assert_eq!(hand, vec![n(Suit::Heart, 4), n(Suit::Heart, 5)]);
    assert_eq!(remove_cards(&mut hand, &vec![n(Suit::Heart, 5)]), Ok(()));
    assert_eq!(hand, vec![n(Suit::Heart, 4)]);
}

#[test]
fn labels_render_faces_and_piles() {
    assert_eq!(n(Suit::Heart, 1).label(), "Ah");
    assert_eq!(n(Suit::Spade, 10).label(), "Ts");
    assert_eq!(n(Suit::Diamond, 7).label(), "7d");
    assert_eq!(n(Suit::UnSuited, 12).label(), "Q*");
    assert_eq!(Card::Joker.label(), "joker");
    assert_eq!(Deck::new(vec![]).label(), "(empty)");
    assert_eq!(
        Deck::new(vec![n(Suit::Heart, 1), n(Suit::Clover, 13), Card::Joker]).label(),
        "[Ah,Kc,joker]"
    );
}

#[test]
fn shuffle_by_identity_draw_keeps_order() {
    let mut pile = Deck::with_jokers(0);
    let rands: Vec<u32> = (0..52).collect();
    pile.shuffle(&rands);
    assert_eq!(pile.0, deck(0));
}
