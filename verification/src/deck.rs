//! Ordered piles of cards and the operations career poker needs on them:
//! building the full deck, shuffling by externally drawn numbers,
//! removal-by-value, joker normalization, and the element-wise pile
//! comparator.

use vstd::prelude::*;

use core::cmp::Ordering;
use crate::card::{
    card_label, card_number, card_suit, career_poker_card_ord, same_ordering, spec_card_ord, Card,
    Suit,
};
use vstd::string::StringExecFns;
use crate::ports::GameError;

verus! {

/// An ordered pile of cards: a hand, the discard pile, the exclusion pile,
/// or one play on the stack.
#[derive(Clone, PartialEq, Eq, Debug)]
pub struct Deck(pub Vec<Card>);

impl View for Deck {
    type V = Seq<Card>;

    open spec fn view(&self) -> Seq<Card> {
        self.0@
    }
}

impl Deck {
    pub fn new(cards: Vec<Card>) -> (r: Deck)
        ensures
            r@ == cards@,
    {
        Deck(cards)
    }

    /// The full 52-card deck plus `jokers` jokers, in canonical order.
    /// Shuffling is left to [`Deck::shuffle`], which takes the drawn numbers
    /// from the caller.
    pub fn with_jokers(jokers: usize) -> (r: Deck)
        requires
            jokers <= usize::MAX - 52,
        ensures
            r@ == spec_deck(jokers as int),
    {
        Deck(deck(jokers))
    }

    /// Permute the pile by the drawn numbers `rands`: position `i` is swapped
    /// with position `rands[i] % len` for each `i` in order.
    pub fn shuffle(&mut self, rands: &Vec<u32>)
        requires
            rands@.len() >= old(self)@.len(),
            old(self)@.len() < u32::MAX,
        ensures
            final(self)@ == spec_shuffle(old(self)@, rands@, old(self)@.len() as int),
    {
        let ghost orig = self@;
        let l = self.0.len();
        let mut i: usize = 0;
        while i < l
            invariant
                i <= l,
                l == self.0.len(),
                l < u32::MAX,
                rands@.len() >= l,
                self.0@ == spec_shuffle(orig, rands@, i as int),
                orig.len() == l,
            decreases l - i,
        {
            let j = (rands[i] % (l as u32)) as usize;
            let a = self.0[i];
            let b = self.0[j];
            self.0.set(i, b);
            self.0.set(j, a);
            i += 1;
        }
    }

    pub fn dejoker(cards: &Vec<Card>) -> (r: Vec<Card>)
        ensures
            r@ == spec_dejoker(cards@),
    {
        dejoker(cards)
    }
}

/// The faces of the cards, joined by commas.
pub open spec fn cards_label_inner(s: Seq<Card>) -> Seq<char>
    decreases s.len(),
{
    if s.len() == 0 {
        Seq::empty()
    } else if s.len() == 1 {
        card_label(s[0])
    } else {
        cards_label_inner(s.drop_last()) + ","@ + card_label(s.last())
    }
}

/// The render-friendly face of a pile: the comma-joined card faces in
/// brackets, or `(empty)`.
pub open spec fn deck_label(s: Seq<Card>) -> Seq<char> {
    if s.len() == 0 {
        "(empty)"@
    } else {
        "["@ + cards_label_inner(s) + "]"@
    }
}

impl Deck {
    /// The render-friendly face of the pile (`[As,Th]`, `(empty)`, ...).
    pub fn label(&self) -> (r: String)
        ensures
            r@ == deck_label(self@),
    {
        if self.0.len() == 0 {
            let mut out = String::new();
            out.append("(empty)");
            proof {
                assert(out@ =~= deck_label(self@));
            }
            return out;
        }
        let mut out = String::new();
        out.append("[");
        let mut i: usize = 0;
        while i < self.0.len()
            invariant
                i <= self@.len(),
                self@.len() > 0,
                out@ == "["@ + cards_label_inner(self@.take(i as int)),
            decreases self@.len() - i,
        {
            if i > 0 {
                out.append(",");
            }
            let piece = self.0[i].label();
            out.append(piece.as_str());
            proof {
                assert(self@.take(i + 1 as int).drop_last() =~= self@.take(i as int));
                assert(self@.take(i + 1 as int).last() == self@[i as int]);
                if i == 0 {
                    assert(out@ =~= "["@ + cards_label_inner(self@.take(1)));
                } else {
                    assert(out@ =~= "["@ + cards_label_inner(self@.take(i + 1 as int)));
                }
            }
            i += 1;
        }
        out.append("]");
        proof {
            assert(self@.take(self@.len() as int) =~= self@);
            assert(out@ =~= deck_label(self@));
        }
        out
    }
}

/// The sequence a `shuffle` by `rands` produces after the first `upto` swaps.
pub open spec fn spec_shuffle(s: Seq<Card>, rands: Seq<u32>, upto: int) -> Seq<Card>
    decreases upto,
{
    if upto <= 0 {
        s
    } else {
        let t = spec_shuffle(s, rands, upto - 1);
        let k = upto - 1;
        let j = (rands[k] as int) % (s.len() as int);
        t.update(k, t[j]).update(j, t[k])
    }
}

/// A shuffle is a permutation: in particular it keeps the pile's length.
pub proof fn lemma_spec_shuffle_len(s: Seq<Card>, rands: Seq<u32>, upto: int)
    requires
        upto <= s.len(),
    ensures
        spec_shuffle(s, rands, upto).len() == s.len(),
    decreases upto,
{
    if upto > 0 {
        lemma_spec_shuffle_len(s, rands, upto - 1);
    }
}

/// The thirteen cards of one suit, ranks 1 through 13 in order.
pub open spec fn suit_cards(s: Suit) -> Seq<Card> {
    Seq::new(13, |i: int| Card::Number(s, (i + 1) as u8))
}

/// The canonical unshuffled deck: each suit's run, then the jokers.
pub open spec fn spec_deck(jokers: int) -> Seq<Card> {
    suit_cards(Suit::Spade) + suit_cards(Suit::Diamond) + suit_cards(Suit::Heart) + suit_cards(
        Suit::Clover,
    ) + Seq::new(if jokers >= 0 { jokers as nat } else { 0 }, |i: int| Card::Joker)
}

fn push_suit(v: &mut Vec<Card>, s: Suit)
    ensures
        final(v)@ == old(v)@ + suit_cards(s),
{
    let mut n: u8 = 1;
    while n <= 13
        invariant
            1 <= n <= 14,
            v@ == old(v)@ + suit_cards(s).take(n - 1),
        decreases 14 - n,
    {
        v.push(Card::Number(s, n));
        proof {
            assert(suit_cards(s).take(n as int) =~= suit_cards(s).take(n - 1).push(
                Card::Number(s, n),
            ));
        }
        n += 1;
    }
    proof {
        assert(suit_cards(s).take(13) =~= suit_cards(s));
    }
}

/// A fresh deck of 52 suited cards plus `jokers` jokers, unshuffled.
pub fn deck(jokers: usize) -> (r: Vec<Card>)
    requires
        jokers <= usize::MAX - 52,
    ensures
        r@ == spec_deck(jokers as int),
        r@.len() == 52 + jokers,
{
    let mut v: Vec<Card> = Vec::new();
    push_suit(&mut v, Suit::Spade);
    push_suit(&mut v, Suit::Diamond);
    push_suit(&mut v, Suit::Heart);
    push_suit(&mut v, Suit::Clover);
    let ghost suited = v@;
    let mut k: usize = 0;
    while k < jokers
        invariant
            k <= jokers,
            v@ == suited + Seq::new(k as nat, |i: int| Card::Joker),
        decreases jokers - k,
    {
        v.push(Card::Joker);
        proof {
            assert(suited + Seq::new((k + 1) as nat, |i: int| Card::Joker) =~= (suited + Seq::new(
                k as nat,
                |i: int| Card::Joker,
            )).push(Card::Joker));
        }
        k += 1;
    }
    proof {
        assert(v@ =~= spec_deck(jokers as int));
    }
    v
}

/// A fresh copy of a card vector (cards are plain values).
pub fn copy_cards(cards: &Vec<Card>) -> (r: Vec<Card>)
    ensures
        r@ == cards@,
{
    let mut out: Vec<Card> = Vec::new();
    let mut i: usize = 0;
    while i < cards.len()
        invariant
            i <= cards@.len(),
            out@ == cards@.take(i as int),
        decreases cards@.len() - i,
    {
        out.push(cards[i]);
        proof {
            assert(cards@.take(i + 1 as int) =~= cards@.take(i as int).push(cards@[i as int]));
        }
        i += 1;
    }
    proof {
        assert(cards@.take(cards@.len() as int) =~= cards@);
    }
    out
}

/// A fresh copy of the cards at positions `start..end`.
pub fn copy_range(cards: &Vec<Card>, start: usize, end: usize) -> (r: Vec<Card>)
    requires
        start <= end <= cards@.len(),
    ensures
        r@ == cards@.subrange(start as int, end as int),
{
    let mut out: Vec<Card> = Vec::new();
    let mut i: usize = start;
    while i < end
        invariant
            start <= i <= end <= cards@.len(),
            out@ == cards@.subrange(start as int, i as int),
        decreases end - i,
    {
        out.push(cards[i]);
        proof {
            assert(cards@.subrange(start as int, i + 1 as int) =~= cards@.subrange(
                start as int,
                i as int,
            ).push(cards@[i as int]));
        }
        i += 1;
    }
    out
}

/// Append every card of `src` to `dst`, in order.
pub fn extend_cards(dst: &mut Vec<Card>, src: &Vec<Card>)
    ensures
        final(dst)@ == old(dst)@ + src@,
{
    let mut i: usize = 0;
    while i < src.len()
        invariant
            i <= src@.len(),
            dst@ == old(dst)@ + src@.take(i as int),
        decreases src@.len() - i,
    {
        dst.push(src[i]);
        proof {
            assert(old(dst)@ + src@.take(i + 1 as int) =~= (old(dst)@ + src@.take(i as int)).push(
                src@[i as int],
            ));
        }
        i += 1;
    }
    proof {
        assert(src@.take(src@.len() as int) =~= src@);
    }
}

/// Remove the first occurrence of `card`, if present.
pub fn remove_one(deck: &mut Vec<Card>, card: Card) -> (found: bool)
    ensures
        final(deck)@ == old(deck)@.remove_value(card),
        found == old(deck)@.contains(card),
{
    let ghost s = deck@;
    let mut i: usize = 0;
    while i < deck.len()
        invariant
            i <= s.len(),
            s == old(deck)@,
            deck@ == s,
            forall|j: int| 0 <= j < i ==> s[j] != card,
        decreases s.len() - i,
    {
        if deck[i] == card {
            deck.remove(i);
            proof {
                assert(s[i as int] == card);
                assert(s.contains(card));
                s.index_of_first_ensures(card);
                let idx = s.index_of_first(card)->Some_0;
                if idx < i as int {
                    assert(s[idx] != card);
                } else if idx > i as int {
                    assert(s[i as int] != card);
                }
                assert(s.index_of_first(card) == Some(i as int));
                assert(s.remove_value(card) == s.remove(i as int));
            }
            return true;
        }
        i += 1;
    }
    proof {
        assert(!s.contains(card));
        s.index_of_first_ensures(card);
    }
    false
}

/// What remains of `s` after removing, in order, the first occurrence of
/// each card of `cs` that is present.
pub open spec fn remove_seq(s: Seq<Card>, cs: Seq<Card>) -> Seq<Card>
    decreases cs.len(),
{
    if cs.len() == 0 {
        s
    } else {
        remove_seq(s, cs.drop_last()).remove_value(cs.last())
    }
}

/// Whether each card of `cs` can be removed from `s` in turn, multiplicity
/// counted.
pub open spec fn contains_all(s: Seq<Card>, cs: Seq<Card>) -> bool
    decreases cs.len(),
{
    if cs.len() == 0 {
        true
    } else {
        contains_all(s, cs.drop_last()) && remove_seq(s, cs.drop_last()).contains(cs.last())
    }
}

proof fn lemma_contains_all_take(s: Seq<Card>, cs: Seq<Card>, k: int)
    requires
        contains_all(s, cs),
        0 <= k <= cs.len(),
    ensures
        contains_all(s, cs.take(k)),
    decreases cs.len(),
{
    if k == cs.len() {
        assert(cs.take(k) =~= cs);
    } else if cs.len() > 0 {
        assert(cs.take(k) =~= cs.drop_last().take(k));
        lemma_contains_all_take(s, cs.drop_last(), k);
    }
}

/// Remove from `deck` the first occurrence of each card of `cards` that is
/// present; cards not present are ignored.
pub fn remove_items(deck: &mut Vec<Card>, cards: &Vec<Card>)
    ensures
        final(deck)@ == remove_seq(old(deck)@, cards@),
{
    let ghost s = old(deck)@;
    let mut i: usize = 0;
    while i < cards.len()
        invariant
            i <= cards@.len(),
            deck@ == remove_seq(s, cards@.take(i as int)),
        decreases cards@.len() - i,
    {
        remove_one(deck, cards[i]);
        proof {
            assert(cards@.take(i + 1 as int).drop_last() =~= cards@.take(i as int));
            assert(cards@.take(i + 1 as int).last() == cards@[i as int]);
        }
        i += 1;
    }
    proof {
        assert(cards@.take(cards@.len() as int) =~= cards@);
    }
}

/// All-or-nothing transfer: remove every card of `cards` from `deck`, or
/// report an error and leave `deck` unchanged if any of them is missing.
pub fn remove_cards(deck: &mut Vec<Card>, cards: &Vec<Card>) -> (r: Result<(), GameError>)
    ensures
        contains_all(old(deck)@, cards@) ==> r == Result::<(), GameError>::Ok(())
            && final(deck)@ == remove_seq(old(deck)@, cards@),
        !contains_all(old(deck)@, cards@) ==> r == Result::<(), GameError>::Err(
            GameError::InvalidPlay,
        ) && final(deck)@ == old(deck)@,
{
    let ghost s = deck@;
    let mut work = copy_cards(deck);
    let mut i: usize = 0;
    while i < cards.len()
        invariant
            i <= cards@.len(),
            s == old(deck)@,
            deck@ == s,
            work@ == remove_seq(s, cards@.take(i as int)),
            contains_all(s, cards@.take(i as int)),
        decreases cards@.len() - i,
    {
        let found = remove_one(&mut work, cards[i]);
        proof {
            assert(cards@.take(i + 1 as int).drop_last() =~= cards@.take(i as int));
            assert(cards@.take(i + 1 as int).last() == cards@[i as int]);
        }
        if !found {
            proof {
                if contains_all(s, cards@) {
                    lemma_contains_all_take(s, cards@, i + 1 as int);
                }
            }
            return Err(GameError::InvalidPlay);
        }
        i += 1;
    }
    proof {
        assert(cards@.take(cards@.len() as int) =~= cards@);
    }
    *deck = work;
    Ok(())
}

/// The rank shared by the non-joker cards: the first ranked card's rank, or
/// 0 for a pile of jokers only.
pub open spec fn spec_number(s: Seq<Card>) -> u8
    decreases s.len(),
{
    if s.len() == 0 {
        0
    } else {
        match card_number(s[0]) {
            Some(n) => n,
            None => spec_number(s.skip(1)),
        }
    }
}

/// The rank of a play: the first ranked card's rank, or 0 if it holds only
/// jokers.
pub fn number(cards: &Vec<Card>) -> (r: u8)
    ensures
        r == spec_number(cards@),
{
    let mut i: usize = 0;
    proof {
        assert(cards@.skip(0) =~= cards@);
    }
    while i < cards.len()
        invariant
            i <= cards@.len(),
            spec_number(cards@) == spec_number(cards@.skip(i as int)),
        decreases cards@.len() - i,
    {
        match cards[i] {
            Card::Number(_, n) => {
                proof {
                    assert(cards@.skip(i as int)[0] == cards@[i as int]);
                }
                return n;
            },
            Card::Joker => {
                proof {
                    assert(cards@.skip(i as int).skip(1) =~= cards@.skip(i + 1 as int));
                    assert(card_number(cards@.skip(i as int)[0]) is None);
                }
                i += 1;
            },
        }
    }
    0
}

/// All ranked cards of the pile carry one and the same rank (jokers are
/// ignored; a pile of only jokers passes trivially).
pub open spec fn spec_same_number(s: Seq<Card>) -> bool {
    forall|i: int, j: int|
        0 <= i < s.len() && 0 <= j < s.len() ==> #[trigger] card_number(s[i]) is None
            || #[trigger] card_number(s[j]) is None || card_number(s[i]) == card_number(s[j])
}

pub fn is_same_number(cards: &Vec<Card>) -> (r: bool)
    ensures
        r == spec_same_number(cards@),
{
    let mut i: usize = 0;
    let mut seen: Option<u8> = None;
    while i < cards.len()
        invariant
            i <= cards@.len(),
            match seen {
                Some(n) => exists|k: int|
                    0 <= k < i && card_number(cards@[k]) == Some(n) && forall|j: int|
                        0 <= j < i ==> card_number(cards@[j]) is None || card_number(cards@[j])
                            == Some(n),
                None => forall|j: int| 0 <= j < i ==> card_number(cards@[j]) is None,
            },
        decreases cards@.len() - i,
    {
        match cards[i] {
            Card::Number(_, n) => {
                match seen {
                    Some(m) => {
                        if m != n {
                            proof {
                                let k = choose|k: int|
                                    0 <= k < i && card_number(cards@[k]) == Some(m) && forall|
                                        j: int,
                                    |
                                        0 <= j < i ==> card_number(cards@[j]) is None
                                            || card_number(cards@[j]) == Some(m);
                                assert(card_number(cards@[k]) is Some);
                                assert(card_number(cards@[i as int]) is Some);
                                assert(card_number(cards@[k]) != card_number(cards@[i as int]));
                            }
                            return false;
                        }
                    },
                    None => {
                        seen = Some(n);
                    },
                }
            },
            Card::Joker => {
            },
        }
        i += 1;
    }
    true
}

/// Whether some card of the pile carries suit `t`.
pub open spec fn has_suit(s: Seq<Card>, t: Suit) -> bool {
    exists|i: int| 0 <= i < s.len() && card_suit(#[trigger] s[i]) == Some(t)
}

pub fn contains_suit(cards: &Vec<Card>, t: Suit) -> (r: bool)
    ensures
        r == has_suit(cards@, t),
{
    let mut i: usize = 0;
    while i < cards.len()
        invariant
            i <= cards@.len(),
            forall|j: int| 0 <= j < i ==> card_suit(#[trigger] cards@[j]) != Some(t),
        decreases cards@.len() - i,
    {
        match cards[i] {
            Card::Number(s, _) => {
                if s == t {
                    proof {
                        assert(card_suit(cards@[i as int]) == Some(t));
                    }
                    return true;
                }
            },
            Card::Joker => {
            },
        }
        i += 1;
    }
    false
}

/// The suit-restriction test: every concrete suit present in `l` must also
/// be present in `r`.  Jokers and normalized (unsuited) cards restrict and
/// satisfy nothing.
pub open spec fn spec_match_suits(l: Seq<Card>, r: Seq<Card>) -> bool {
    forall|t: Suit| t != Suit::UnSuited && has_suit(l, t) ==> has_suit(r, t)
}

pub fn match_suits(lhs: &Vec<Card>, rhs: &Vec<Card>) -> (r: bool)
    ensures
        r == spec_match_suits(lhs@, rhs@),
{
    let mut ok = true;
    let suits = Suit::suits();
    let mut i: usize = 0;
    while i < suits.len()
        invariant
            i <= suits@.len(),
            suits@ == seq![Suit::Spade, Suit::Diamond, Suit::Heart, Suit::Clover],
            ok == forall|j: int|
                0 <= j < i ==> (has_suit(lhs@, #[trigger] suits@[j]) ==> has_suit(rhs@, suits@[j])),
        decreases suits@.len() - i,
    {
        if contains_suit(lhs, suits[i]) && !contains_suit(rhs, suits[i]) {
            ok = false;
        }
        i += 1;
    }
    proof {
        if ok {
            assert forall|t: Suit| t != Suit::UnSuited && has_suit(lhs@, t) implies has_suit(
                rhs@,
                t,
            ) by {
                match t {
                    Suit::UnSuited => {
                    },
                    Suit::Spade => {
                        assert(suits@[0] == Suit::Spade);
                    },
                    Suit::Diamond => {
                        assert(suits@[1] == Suit::Diamond);
                    },
                    Suit::Heart => {
                        assert(suits@[2] == Suit::Heart);
                    },
                    Suit::Clover => {
                        assert(suits@[3] == Suit::Clover);
                    },
                }
            }
        } else {
            let j = choose|j: int|
                0 <= j < 4 && !(has_suit(lhs@, #[trigger] suits@[j]) ==> has_suit(rhs@, suits@[j]));
            assert(suits@[j] != Suit::UnSuited);
        }
    }
    ok
}

/// The distinct concrete suits present in a pile (order: spades, diamonds,
/// hearts, clubs; the unsuited marker is never collected).
pub fn suits(cards: &Vec<Card>) -> (r: Vec<Suit>)
    ensures
        forall|t: Suit| #[trigger] r@.contains(t) <==> (t != Suit::UnSuited && has_suit(cards@, t)),
{
    let all = Suit::suits();
    let mut out: Vec<Suit> = Vec::new();
    let mut i: usize = 0;
    while i < all.len()
        invariant
            i <= all@.len(),
            all@ == seq![Suit::Spade, Suit::Diamond, Suit::Heart, Suit::Clover],
            forall|t: Suit|
                out@.contains(t) <==> (exists|j: int|
                    0 <= j < i && #[trigger] all@[j] == t && has_suit(cards@, t)),
        decreases all@.len() - i,
    {
        if contains_suit(cards, all[i]) {
            let ghost prev = out@;
            out.push(all[i]);
            proof {
                assert forall|t: Suit| out@.contains(t) implies (exists|j: int|
                    0 <= j < i + 1 && #[trigger] all@[j] == t && has_suit(cards@, t)) by {
                    if t == all@[i as int] {
                        assert(all@[i as int] == t && has_suit(cards@, t));
                    } else {
                        assert(prev.contains(t));
                    }
                }
                assert forall|t: Suit|
                    (exists|j: int|
                        0 <= j < i + 1 && #[trigger] all@[j] == t && has_suit(
                            cards@,
                            t,
                        )) implies out@.contains(t) by {
                    if t == all@[i as int] {
                        assert(out@.last() == t);
                    } else {
                        assert(prev.contains(t));
                        assert(out@[prev.index_of(t)] == t);
                    }
                }
            }
        }
        i += 1;
    }
    proof {
        assert forall|t: Suit| #[trigger]
            out@.contains(t) <==> (t != Suit::UnSuited && has_suit(cards@, t)) by {
            match t {
                Suit::UnSuited => {
                    if out@.contains(t) {
                        let j = choose|j: int|
                            0 <= j < 4 && #[trigger] all@[j] == t && has_suit(cards@, t);
                        assert(false);
                    }
                },
                Suit::Spade => {
                    assert(all@[0] == t);
                },
                Suit::Diamond => {
                    assert(all@[1] == t);
                },
                Suit::Heart => {
                    assert(all@[2] == t);
                },
                Suit::Clover => {
                    assert(all@[3] == t);
                },
            }
        }
    }
    out
}

/// Normalize jokers: if the pile holds any ranked card, each joker becomes
/// an unsuited card of the pile's rank; a pile of only jokers is unchanged.
///
/// This is the host's preparation step for a mixed play.  An unnormalized
/// joker compares as strictly weaker than any ranked card, so a host that
/// wants a play's jokers to count at the pile's rank passes the play
/// through here before handing it to the engine; the engine itself never
/// rewrites the cards it is given.
pub open spec fn spec_dejoker(cards: Seq<Card>) -> Seq<Card> {
    let numbers = cards.filter(|c: Card| card_number(c) is Some);
    if numbers.len() == 0 {
        cards
    } else {
        match card_number(numbers[0]) {
            Some(n) => numbers + Seq::new(
                (cards.len() - numbers.len()) as nat,
                |i: int| Card::Number(Suit::UnSuited, n),
            ),
            None => cards,
        }
    }
}

pub fn dejoker(cards: &Vec<Card>) -> (r: Vec<Card>)
    ensures
        r@ == spec_dejoker(cards@),
{
    let ghost pred = |c: Card| card_number(c) is Some;
    let mut numbers: Vec<Card> = Vec::new();
    let mut jokers: usize = 0;
    let mut i: usize = 0;
    while i < cards.len()
        invariant
            i <= cards@.len(),
            numbers@ == cards@.take(i as int).filter(pred),
            jokers + numbers@.len() == i,
            pred == (|c: Card| card_number(c) is Some),
        decreases cards@.len() - i,
    {
        proof {
            assert(cards@.take(i + 1 as int).drop_last() =~= cards@.take(i as int));
            assert(cards@.take(i + 1 as int).last() == cards@[i as int]);
            reveal_with_fuel(Seq::filter, 2);
        }
        match cards[i] {
            Card::Number(_, _) => {
                numbers.push(cards[i]);
            },
            Card::Joker => {
                jokers += 1;
            },
        }
        i += 1;
    }
    proof {
        assert(cards@.take(cards@.len() as int) =~= cards@);
    }
    if numbers.len() == 0 {
        copy_cards(cards)
    } else {
        let n = match numbers[0] {
            Card::Number(_, n) => n,
            Card::Joker => 0,
        };
        let ghost base = numbers@;
        let mut k: usize = 0;
        while k < jokers
            invariant
                k <= jokers,
                numbers@ == base + Seq::new(
                    k as nat,
                    |i: int| Card::Number(Suit::UnSuited, n),
                ),
            decreases jokers - k,
        {
            numbers.push(Card::Number(Suit::UnSuited, n));
            proof {
                assert(base + Seq::new((k + 1) as nat, |i: int| Card::Number(Suit::UnSuited, n))
                    =~= (base + Seq::new(k as nat, |i: int| Card::Number(Suit::UnSuited, n))).push(
                    Card::Number(Suit::UnSuited, n),
                ));
            }
            k += 1;
        }
        proof {
            assert(numbers@ =~= spec_dejoker(cards@));
        }
        numbers
    }
}

/// `a` does not beat `b` on the single-card ladder.
pub open spec fn card_le(a: Card, b: Card) -> bool {
    spec_card_ord(a, b) != Ordering::Greater
}

/// Insert a card at the back of the longest prefix whose last element does
/// not beat it (the step of an insertion sort).
pub open spec fn insert_sorted(s: Seq<Card>, c: Card) -> Seq<Card>
    decreases s.len(),
{
    if s.len() == 0 {
        seq![c]
    } else if card_le(s.last(), c) {
        s.push(c)
    } else {
        insert_sorted(s.drop_last(), c).push(s.last())
    }
}

/// The pile sorted ascending on the card ladder, by repeated insertion.
pub open spec fn sort_cards(s: Seq<Card>) -> Seq<Card>
    decreases s.len(),
{
    if s.len() == 0 {
        Seq::empty()
    } else {
        insert_sorted(sort_cards(s.drop_last()), s.last())
    }
}

/// Inserting grows the pile by exactly one card.
pub proof fn lemma_insert_sorted_len(s: Seq<Card>, c: Card)
    ensures
        insert_sorted(s, c).len() == s.len() + 1,
    decreases s.len(),
{
    if s.len() > 0 && !card_le(s.last(), c) {
        lemma_insert_sorted_len(s.drop_last(), c);
    }
}

/// Sorting keeps the pile's length.
pub proof fn lemma_sort_cards_len(s: Seq<Card>)
    ensures
        sort_cards(s).len() == s.len(),
    decreases s.len(),
{
    if s.len() > 0 {
        lemma_sort_cards_len(s.drop_last());
        lemma_insert_sorted_len(sort_cards(s.drop_last()), s.last());
    }
}

proof fn lemma_insert_sorted_at(s: Seq<Card>, c: Card, i: int)
    requires
        0 <= i <= s.len(),
        forall|j: int| i <= j < s.len() ==> !card_le(#[trigger] s[j], c),
        i > 0 ==> card_le(s[i - 1], c),
    ensures
        insert_sorted(s, c) == s.insert(i, c),
    decreases s.len() - i,
{
    if i == s.len() {
        if s.len() == 0 {
            assert(insert_sorted(s, c) =~= s.insert(i, c));
        } else {
            assert(card_le(s.last(), c));
            assert(s.push(c) =~= s.insert(i, c));
        }
    } else {
        assert(!card_le(s[s.len() - 1], c));
        let t = s.drop_last();
        assert(i > 0 ==> t[i - 1] == s[i - 1]);
        lemma_insert_sorted_at(t, c, i);
        assert(t.insert(i, c).push(s.last()) =~= s.insert(i, c));
    }
}

fn insert_card(v: &mut Vec<Card>, c: Card)
    ensures
        final(v)@ == insert_sorted(old(v)@, c),
{
    let mut i: usize = v.len();
    let mut go = true;
    while go && i > 0
        invariant
            i <= v@.len(),
            v@ == old(v)@,
            forall|j: int| i <= j < v@.len() ==> !card_le(#[trigger] v@[j], c),
            !go ==> i > 0 && card_le(v@[i - 1], c),
        decreases 2 * i + (if go { 1int } else { 0int }),
    {
        let o = career_poker_card_ord(&v[i - 1], &c);
        match o {
            Ordering::Greater => {
                i -= 1;
            },
            _ => {
                go = false;
            },
        }
    }
    v.insert(i, c);
    proof {
        lemma_insert_sorted_at(old(v)@, c, i as int);
    }
}

/// The pile sorted ascending on the card ladder.
pub fn sorted_cards(cards: &Vec<Card>) -> (r: Vec<Card>)
    ensures
        r@ == sort_cards(cards@),
{
    let mut out: Vec<Card> = Vec::new();
    let mut i: usize = 0;
    while i < cards.len()
        invariant
            i <= cards@.len(),
            out@ == sort_cards(cards@.take(i as int)),
        decreases cards@.len() - i,
    {
        insert_card(&mut out, cards[i]);
        proof {
            assert(cards@.take(i + 1 as int).drop_last() =~= cards@.take(i as int));
            assert(cards@.take(i + 1 as int).last() == cards@[i as int]);
        }
        i += 1;
    }
    proof {
        assert(cards@.take(cards@.len() as int) =~= cards@);
    }
    out
}

/// The element-wise comparisons of two sorted piles, truncated to the
/// shorter one.
pub open spec fn zip_ords(a: Seq<Card>, b: Seq<Card>) -> Seq<Ordering> {
    Seq::new(
        if a.len() <= b.len() {
            a.len()
        } else {
            b.len()
        },
        |i: int| spec_card_ord(a[i], b[i]),
    )
}

pub open spec fn uniform_ords(z: Seq<Ordering>) -> bool {
    forall|j: int| 0 <= j < z.len() ==> #[trigger] z[j] == z[0]
}

/// Compare two piles: sort each ascending, compare element-wise, and accept
/// the verdict only when it is unanimous; a mixed or empty comparison counts
/// as `Equal` (and an equal pile never beats the pile in play).
pub open spec fn spec_vec_ord(a: Seq<Card>, b: Seq<Card>) -> Ordering {
    let z = zip_ords(sort_cards(a), sort_cards(b));
    if z.len() > 0 && uniform_ords(z) {
        z[0]
    } else {
        Ordering::Equal
    }
}

pub fn vec_ord(lhs: &Vec<Card>, rhs: &Vec<Card>) -> (r: Ordering)
    ensures
        r == spec_vec_ord(lhs@, rhs@),
{
    let a = sorted_cards(lhs);
    let b = sorted_cards(rhs);
    let n = if a.len() < b.len() {
        a.len()
    } else {
        b.len()
    };
    if n == 0 {
        return Ordering::Equal;
    }
    let first = career_poker_card_ord(&a[0], &b[0]);
    let mut uniform = true;
    let mut i: usize = 1;
    while i < n
        invariant
            1 <= i <= n,
            n == zip_ords(a@, b@).len(),
            a@ == sort_cards(lhs@),
            b@ == sort_cards(rhs@),
            n <= a@.len() && n <= b@.len(),
            first == spec_card_ord(a@[0], b@[0]),
            uniform == forall|j: int|
                0 <= j < i ==> spec_card_ord(a@[j], b@[j]) == first,
        decreases n - i,
    {
        let o = career_poker_card_ord(&a[i], &b[i]);
        if !same_ordering(o, first) {
            uniform = false;
        }
        i += 1;
    }
    proof {
        let z = zip_ords(a@, b@);
        assert(z[0] == first);
        assert forall|j: int| 0 <= j < z.len() implies #[trigger] z[j] == spec_card_ord(
            a@[j],
            b@[j],
        ) by {}
        if uniform {
            assert forall|j: int| 0 <= j < z.len() implies #[trigger] z[j] == z[0] by {
                assert(spec_card_ord(a@[j], b@[j]) == first);
            }
        } else {
            let j = choose|j: int| 0 <= j < i && spec_card_ord(a@[j], b@[j]) != first;
            assert(z[j] != z[0]);
        }
        assert(uniform_ords(z) == uniform);
    }
    if uniform {
        first
    } else {
        Ordering::Equal
    }
}

} // verus!
