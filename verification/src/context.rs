//! A reduced, hot-seat form of the game: no prompts, no scheduler, no
//! seat bookkeeping.  A [`Context`] carries only the piles and the three
//! rule flags that survive in this form, and players are plain numbered
//! hands.  It serves hosts that drive the table themselves and only need
//! the admission rule and the pile bookkeeping checked.

use vstd::prelude::*;

use core::cmp::Ordering;
use crate::card::{career_poker_card_ord, spec_card_ord, Card};
use crate::deck::{
    copy_range, deck, is_same_number, lemma_spec_shuffle_len, sort_cards, sorted_cards, spec_deck,
    spec_same_number, spec_shuffle, spec_vec_ord, vec_ord, Deck,
};
use crate::ports::GameError;

verus! {

/// The rule flags of the reduced game: the revolution, and the rank-3 and
/// rank-10 suppressions.
#[derive(Clone, Copy, PartialEq, Eq, Structural, Debug)]
pub struct State {
    pub revoluted: bool,
    pub effect_3: bool,
    pub effect_10: bool,
}

impl Default for State {
    fn default() -> (r: State)
        ensures
            !r.revoluted,
            !r.effect_3,
            !r.effect_10,
    {
        State { revoluted: false, effect_3: false, effect_10: false }
    }
}

/// The table of the reduced game: discard pile, exclusion pile, play stack
/// and rule flags.
#[derive(Clone, Debug)]
pub struct Context {
    pub trushes: Vec<Card>,
    pub excluded: Vec<Card>,
    pub river: Vec<Vec<Card>>,
    pub state: State,
}

/// The views of the piles on a play stack of plain card vectors.
pub open spec fn stack_piles(river: Seq<Vec<Card>>) -> Seq<Seq<Card>> {
    river.map_values(|v: Vec<Card>| v@)
}

/// All cards on the play stack, oldest pile first.
pub open spec fn stack_cards(ps: Seq<Seq<Card>>) -> Seq<Card>
    decreases ps.len(),
{
    if ps.len() == 0 {
        Seq::empty()
    } else {
        stack_cards(ps.drop_last()) + ps.last()
    }
}

/// The admission rule of the reduced game: a play must match the in-play
/// pile's size, carry one rank, and win the element-wise comparison (in
/// reversed direction under the revolution); the first play of an epoch is
/// free.
pub open spec fn ctx_servable(ctx: Context, cards: Seq<Card>) -> bool {
    ctx.river@.len() == 0 || {
        let lasts = ctx.river@.last()@;
        &&& lasts.len() == cards.len()
        &&& spec_same_number(cards)
        &&& spec_vec_ord(cards, lasts) == (if ctx.state.revoluted {
            Ordering::Less
        } else {
            Ordering::Greater
        })
    }
}

impl Context {
    pub fn new() -> (r: Context)
        ensures
            r.trushes@.len() == 0,
            r.excluded@.len() == 0,
            r.river@.len() == 0,
            !r.state.revoluted,
            !r.state.effect_3,
            !r.state.effect_10,
    {
        Context {
            trushes: Vec::new(),
            excluded: Vec::new(),
            river: Vec::new(),
            state: Default::default(),
        }
    }

    /// Whether `cards` may be played on the pile in play.
    pub fn servable(&self, cards: &Vec<Card>) -> (r: Result<(), GameError>)
        ensures
            r == (if ctx_servable(*self, cards@) {
                Result::<(), GameError>::Ok(())
            } else {
                Result::<(), GameError>::Err(GameError::InvalidPlay)
            }),
    {
        if self.river.len() == 0 {
            return Ok(());
        }
        let last_idx = self.river.len() - 1;
        proof {
            assert(self.river@.last() == self.river@[last_idx as int]);
        }
        let lasts = &self.river[last_idx];
        if lasts.len() != cards.len() {
            return Err(GameError::InvalidPlay);
        }
        if !is_same_number(cards) {
            return Err(GameError::InvalidPlay);
        }
        let o = vec_ord(cards, lasts);
        let won = if self.state.revoluted {
            match o {
                Ordering::Less => true,
                _ => false,
            }
        } else {
            match o {
                Ordering::Greater => true,
                _ => false,
            }
        };
        if won {
            Ok(())
        } else {
            Err(GameError::InvalidPlay)
        }
    }

    /// Move the play stack into the discard pile.
    pub fn flush(&mut self)
        ensures
            final(self).trushes@ == old(self).trushes@ + stack_cards(
                stack_piles(old(self).river@),
            ),
            final(self).excluded == old(self).excluded,
            final(self).river@.len() == 0,
            final(self).state == old(self).state,
    {
        let ghost pre = *old(self);
        let n = self.river.len();
        let mut i: usize = 0;
        while i < n
            invariant
                i <= n,
                n == self.river@.len(),
                self.river == pre.river,
                self.trushes@ == pre.trushes@ + stack_cards(stack_piles(pre.river@.take(i as int))),
                self.excluded == pre.excluded,
                self.state == pre.state,
            decreases n - i,
        {
            let cards = copy_range(&self.river[i], 0, self.river[i].len());
            proof {
                assert(self.river@[i as int]@.subrange(0, self.river@[i as int]@.len() as int)
                    =~= self.river@[i as int]@);
            }
            let mut j: usize = 0;
            let ghost tr = self.trushes@;
            while j < cards.len()
                invariant
                    j <= cards@.len(),
                    self.trushes@ == tr + cards@.take(j as int),
                    self.river == pre.river,
                    self.excluded == pre.excluded,
                    self.state == pre.state,
                decreases cards@.len() - j,
            {
                self.trushes.push(cards[j]);
                proof {
                    assert(tr + cards@.take(j + 1 as int) =~= (tr + cards@.take(j as int)).push(
                        cards@[j as int],
                    ));
                }
                j += 1;
            }
            proof {
                assert(cards@.take(cards@.len() as int) =~= cards@);
                lemma_stack_take_step(pre.river@, i as int);
            }
            i += 1;
        }
        proof {
            assert(pre.river@.take(n as int) =~= pre.river@);
        }
        self.river = Vec::new();
    }

    /// Move the play stack into the exclusion pile.
    pub fn exclude(&mut self)
        ensures
            final(self).excluded@ == old(self).excluded@ + stack_cards(
                stack_piles(old(self).river@),
            ),
            final(self).trushes == old(self).trushes,
            final(self).river@.len() == 0,
            final(self).state == old(self).state,
    {
        let ghost pre = *old(self);
        let n = self.river.len();
        let mut i: usize = 0;
        while i < n
            invariant
                i <= n,
                n == self.river@.len(),
                self.river == pre.river,
                self.excluded@ == pre.excluded@ + stack_cards(
                    stack_piles(pre.river@.take(i as int)),
                ),
                self.trushes == pre.trushes,
                self.state == pre.state,
            decreases n - i,
        {
            let cards = copy_range(&self.river[i], 0, self.river[i].len());
            proof {
                assert(self.river@[i as int]@.subrange(0, self.river@[i as int]@.len() as int)
                    =~= self.river@[i as int]@);
            }
            let mut j: usize = 0;
            let ghost ex = self.excluded@;
            while j < cards.len()
                invariant
                    j <= cards@.len(),
                    self.excluded@ == ex + cards@.take(j as int),
                    self.river == pre.river,
                    self.trushes == pre.trushes,
                    self.state == pre.state,
                decreases cards@.len() - j,
            {
                self.excluded.push(cards[j]);
                proof {
                    assert(ex + cards@.take(j + 1 as int) =~= (ex + cards@.take(j as int)).push(
                        cards@[j as int],
                    ));
                }
                j += 1;
            }
            proof {
                assert(cards@.take(cards@.len() as int) =~= cards@);
                lemma_stack_take_step(pre.river@, i as int);
            }
            i += 1;
        }
        proof {
            assert(pre.river@.take(n as int) =~= pre.river@);
        }
        self.river = Vec::new();
    }
}

proof fn lemma_stack_take_step(river: Seq<Vec<Card>>, i: int)
    requires
        0 <= i < river.len(),
    ensures
        stack_cards(stack_piles(river.take(i + 1))) == stack_cards(stack_piles(river.take(i)))
            + river[i]@,
{
    let a = stack_piles(river.take(i + 1));
    let b = stack_piles(river.take(i));
    assert(a.drop_last() =~= b);
    assert(a.last() == river[i]@);
}

/// A numbered hand of the reduced game.
#[derive(Clone, Debug)]
pub struct Player {
    pub id: usize,
    pub hands: Vec<Card>,
}

/// Whether a single card is worth offering against the pile in play: any
/// card opens a fresh epoch; otherwise the card must beat the in-play
/// pile's first card one-on-one (in reversed direction under the
/// revolution).  A stack whose top pile is empty restricts nothing.
pub open spec fn option_pred(ctx: Context, c: Card) -> bool {
    ctx.river@.len() == 0 || ctx.river@.last()@.len() == 0 || {
        let first = ctx.river@.last()@[0];
        if ctx.state.revoluted {
            spec_card_ord(c, first) == Ordering::Less
        } else {
            spec_card_ord(c, first) == Ordering::Greater
        }
    }
}

impl Player {
    /// The cards of the hand worth offering against the pile in play,
    /// sorted ascending for display (the compute half of a host's card
    /// picker; an empty answer means the player can only pass).
    pub fn options(&self, ctx: &Context) -> (r: Vec<Card>)
        ensures
            r@ == sort_cards(self.hands@.filter(|c: Card| option_pred(*ctx, c))),
    {
        let ghost pred = |c: Card| option_pred(*ctx, c);
        let mut picked: Vec<Card> = Vec::new();
        let mut i: usize = 0;
        while i < self.hands.len()
            invariant
                i <= self.hands@.len(),
                picked@ == self.hands@.take(i as int).filter(pred),
                pred == (|c: Card| option_pred(*ctx, c)),
            decreases self.hands@.len() - i,
        {
            proof {
                assert(self.hands@.take(i + 1 as int).drop_last() =~= self.hands@.take(i as int));
                assert(self.hands@.take(i + 1 as int).last() == self.hands@[i as int]);
                reveal_with_fuel(Seq::filter, 2);
            }
            let card = self.hands[i];
            let keep = if ctx.river.len() == 0 {
                true
            } else {
                let last_idx = ctx.river.len() - 1;
                proof {
                    assert(ctx.river@.last() == ctx.river@[last_idx as int]);
                }
                if ctx.river[last_idx].len() == 0 {
                    true
                } else {
                    let o = career_poker_card_ord(&card, &ctx.river[last_idx][0]);
                    if ctx.state.revoluted {
                        match o {
                            Ordering::Less => true,
                            _ => false,
                        }
                    } else {
                        match o {
                            Ordering::Greater => true,
                            _ => false,
                        }
                    }
                }
            };
            if keep {
                picked.push(card);
            }
            i += 1;
        }
        proof {
            assert(self.hands@.take(self.hands@.len() as int) =~= self.hands@);
        }
        sorted_cards(&picked)
    }
}

/// Where seat `i`'s consecutive run of the dealt deck begins when hands
/// are cut as evenly as possible: each seat takes `size` cards, and the
/// first `rem` seats take one extra.
pub open spec fn chunk_start(size: int, rem: int, i: int) -> int {
    i * size + (if i < rem {
        i
    } else {
        rem
    })
}

impl Player {
    /// Deal the reduced game: shuffle the deck (with `jokers` jokers) by
    /// the drawn numbers and split it among exactly `players` numbered
    /// seats, each taking a consecutive run, as evenly as possible: every
    /// seat receives `(52 + jokers) / players` cards and the first
    /// `(52 + jokers) % players` seats one extra, so no card is left over.
    pub fn distribute(players: usize, jokers: usize, rands: &Vec<u32>) -> (r: Vec<Player>)
        requires
            0 < players <= 52 + jokers,
            jokers <= 0x1000_0000,
            rands@.len() >= 52 + jokers,
        ensures
            ({
                let cards = spec_shuffle(spec_deck(jokers as int), rands@, 52 + jokers);
                let len = (52 + jokers) as int;
                let size = len / players as int;
                let rem = len % players as int;
                &&& r@.len() == players
                &&& forall|i: int|
                    0 <= i < players ==> (#[trigger] r@[i]).id == i && r@[i].hands@
                        == cards.subrange(chunk_start(size, rem, i), chunk_start(size, rem, i + 1))
            }),
    {
        let mut pile = Deck::new(deck(jokers));
        proof {
            lemma_spec_shuffle_len(pile@, rands@, pile@.len() as int);
        }
        pile.shuffle(rands);
        let cards = pile.0;
        let len = cards.len();
        let size = len / players;
        let rem = len % players;
        proof {
            assert(len == 52 + jokers);
            assert(1 <= size <= len) by (nonlinear_arith)
                requires
                    size == len as int / players as int,
                    0 < players as int <= len as int,
            ;
            vstd::arithmetic::div_mod::lemma_fundamental_div_mod(len as int, players as int);
            assert(len as int == players as int * size + rem);
        }
        let mut out: Vec<Player> = Vec::new();
        let mut start: usize = 0;
        let mut id: usize = 0;
        while id < players
            invariant
                1 <= size <= len,
                rem < players,
                len <= 0x2000_0000,
                len == cards@.len(),
                cards@ == spec_shuffle(spec_deck(jokers as int), rands@, 52 + jokers),
                len == 52 + jokers,
                size == len as int / (players as int),
                rem == len as int % (players as int),
                id <= players,
                start == chunk_start(size as int, rem as int, id as int),
                // the seats still to serve take exactly the cards still on the pile
                start + (players - id) * size + (if rem > id {
                    rem - id
                } else {
                    0
                }) == len,
                out@.len() == id,
                forall|i: int|
                    0 <= i < id ==> (#[trigger] out@[i]).id == i && out@[i].hands@
                        == cards@.subrange(
                        chunk_start(size as int, rem as int, i),
                        chunk_start(size as int, rem as int, i + 1),
                    ),
            decreases players - id,
        {
            let extra: usize = if id < rem {
                1
            } else {
                0
            };
            proof {
                assert((players - id) * size == (players - id - 1) * size + size)
                    by (nonlinear_arith)
                    requires
                        id < players,
                ;
                assert((players - id - 1) * size >= 0) by (nonlinear_arith)
                    requires
                        id < players,
                        size >= 0,
                ;
                assert((id + 1) * size == id * size + size) by (nonlinear_arith);
            }
            let end = start + size + extra;
            let hands = copy_range(&cards, start, end);
            out.push(Player { id, hands });
            proof {
                assert(chunk_start(size as int, rem as int, id + 1) == end);
            }
            start = end;
            id += 1;
        }
        out
    }
}

} // verus!
