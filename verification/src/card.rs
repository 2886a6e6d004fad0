//! Playing cards and the strength order used by career poker.
//!
//! A card is either a suited rank 1..=13 or a joker.  Strength is measured on
//! the "cardinal" ladder `(rank + 10) % 13`, which maps the ranks
//! 3,4,...,13,1,2 onto 0..=12, so 3 is the weakest rank and 2 the strongest.

use vstd::prelude::*;

use core::cmp::Ordering;
use vstd::string::StringExecFns;

verus! {

#[derive(Clone, Copy, PartialEq, Eq, Structural, Debug)]
pub enum Suit {
    /// Synthetic marker carried by a joker after it has been normalized to
    /// stand in for a concrete rank; it never restricts suit checks.
    UnSuited,
    Spade,
    Diamond,
    Heart,
    Clover,
}

#[derive(Clone, Copy, PartialEq, Eq, Structural, Debug)]
pub enum Card {
    Number(Suit, u8),
    Joker,
}

impl Suit {
    /// The four concrete suits, in their canonical order.
    pub fn suits() -> (r: Vec<Suit>)
        ensures
            r@ == seq![Suit::Spade, Suit::Diamond, Suit::Heart, Suit::Clover],
    {
        let mut v: Vec<Suit> = Vec::new();
        v.push(Suit::Spade);
        v.push(Suit::Diamond);
        v.push(Suit::Heart);
        v.push(Suit::Clover);
        proof {
            assert(v@ =~= seq![Suit::Spade, Suit::Diamond, Suit::Heart, Suit::Clover]);
        }
        v
    }
}

/// The suit of a card; a joker has none.
pub open spec fn card_suit(c: Card) -> Option<Suit> {
    match c {
        Card::Number(s, _) => Some(s),
        Card::Joker => None,
    }
}

/// The rank of a card; a joker has none.
pub open spec fn card_number(c: Card) -> Option<u8> {
    match c {
        Card::Number(_, n) => Some(n),
        Card::Joker => None,
    }
}

impl Card {
    pub fn suit(&self) -> (r: Option<Suit>)
        ensures
            r == card_suit(*self),
    {
        match self {
            Card::Number(s, _) => Some(*s),
            Card::Joker => None,
        }
    }

    pub fn number(&self) -> (r: Option<u8>)
        ensures
            r == card_number(*self),
    {
        match self {
            Card::Number(_, n) => Some(*n),
            Card::Joker => None,
        }
    }
}

/// The strength ladder: `(rank + 10) % 13` re-ranks 3..13,1,2 as 0..12.
pub open spec fn spec_cardinal(n: int) -> int {
    (n + 10) % 13
}

pub fn cardinal(n: u8) -> (r: u8)
    ensures
        r as int == spec_cardinal(n as int),
        r < 13,
{
    (((n as u16) + 10) % 13) as u8
}

/// Strength order between two single cards.
///
/// A wildcard compares as strictly weaker than any ranked card until it has
/// been normalized (see the deck module's `dejoker`, which turns it into an
/// unsuited card of the pile's rank).  Two jokers compare as `Less`, which
/// makes a joker-against-joker pair count toward the "lower" direction when
/// whole piles are compared element-wise.
pub open spec fn spec_card_ord(a: Card, b: Card) -> Ordering {
    match (card_number(a), card_number(b)) {
        (Option::None, Option::None) => Ordering::Less,
        (Option::Some(_), Option::None) => Ordering::Greater,
        (Option::None, Option::Some(_)) => Ordering::Less,
        (Option::Some(i), Option::Some(j)) => if spec_cardinal(i as int) < spec_cardinal(
            j as int,
        ) {
            Ordering::Less
        } else if spec_cardinal(i as int) == spec_cardinal(j as int) {
            Ordering::Equal
        } else {
            Ordering::Greater
        },
    }
}

pub fn career_poker_card_ord(a: &Card, b: &Card) -> (r: Ordering)
    ensures
        r == spec_card_ord(*a, *b),
{
    match (a.number(), b.number()) {
        (None, None) => Ordering::Less,
        (Some(_), None) => Ordering::Greater,
        (None, Some(_)) => Ordering::Less,
        (Some(i), Some(j)) => {
            let ci = cardinal(i);
            let cj = cardinal(j);
            if ci < cj {
                Ordering::Less
            } else if ci == cj {
                Ordering::Equal
            } else {
                Ordering::Greater
            }
        },
    }
}

/// The one-letter face of a rank: A for the ace, T, J, Q, K for the
/// pictures, the digit itself otherwise (a rank outside 1..=13 renders as
/// a question mark).
pub open spec fn rank_label(n: u8) -> Seq<char> {
    if n == 1 {
        "A"@
    } else if n == 2 {
        "2"@
    } else if n == 3 {
        "3"@
    } else if n == 4 {
        "4"@
    } else if n == 5 {
        "5"@
    } else if n == 6 {
        "6"@
    } else if n == 7 {
        "7"@
    } else if n == 8 {
        "8"@
    } else if n == 9 {
        "9"@
    } else if n == 10 {
        "T"@
    } else if n == 11 {
        "J"@
    } else if n == 12 {
        "Q"@
    } else if n == 13 {
        "K"@
    } else {
        "?"@
    }
}

/// The one-letter face of a suit.
pub open spec fn suit_label(s: Suit) -> Seq<char> {
    match s {
        Suit::Spade => "s"@,
        Suit::Diamond => "d"@,
        Suit::Heart => "h"@,
        Suit::Clover => "c"@,
        Suit::UnSuited => "*"@,
    }
}

/// The render-friendly face of a card: rank then suit, or `joker`.
pub open spec fn card_label(c: Card) -> Seq<char> {
    match c {
        Card::Number(s, n) => rank_label(n) + suit_label(s),
        Card::Joker => "joker"@,
    }
}

impl Card {
    /// The render-friendly face of the card (`As`, `Th`, `joker`, ...).
    pub fn label(&self) -> (r: String)
        ensures
            r@ == card_label(*self),
    {
        let mut out = String::new();
        match self {
            Card::Number(s, n) => {
                let face = *n;
                if face == 1 {
                    out.append("A");
                } else if face == 2 {
                    out.append("2");
                } else if face == 3 {
                    out.append("3");
                } else if face == 4 {
                    out.append("4");
                } else if face == 5 {
                    out.append("5");
                } else if face == 6 {
                    out.append("6");
                } else if face == 7 {
                    out.append("7");
                } else if face == 8 {
                    out.append("8");
                } else if face == 9 {
                    out.append("9");
                } else if face == 10 {
                    out.append("T");
                } else if face == 11 {
                    out.append("J");
                } else if face == 12 {
                    out.append("Q");
                } else if face == 13 {
                    out.append("K");
                } else {
                    out.append("?");
                }
                match s {
                    Suit::Spade => out.append("s"),
                    Suit::Diamond => out.append("d"),
                    Suit::Heart => out.append("h"),
                    Suit::Clover => out.append("c"),
                    Suit::UnSuited => out.append("*"),
                }
            },
            Card::Joker => {
                out.append("joker");
            },
        }
        proof {
            assert(out@ =~= card_label(*self));
        }
        out
    }
}

/// Equality test on `Ordering` values (`Ordering` is an outside type to the
/// verifier, so the comparison is spelled out by variant).
pub fn same_ordering(a: Ordering, b: Ordering) -> (r: bool)
    ensures
        r == (a == b),
{
    match (a, b) {
        (Ordering::Less, Ordering::Less) => true,
        (Ordering::Equal, Ordering::Equal) => true,
        (Ordering::Greater, Ordering::Greater) => true,
        _ => false,
    }
}

} // verus!
