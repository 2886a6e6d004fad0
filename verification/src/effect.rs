//! The accumulated rule modifiers ("effects") that reinterpret ranking,
//! pile-size, suit and sequencing checks.
//!
//! All fields but `revoluted` are scoped to one pile epoch: they are cleared
//! together whenever the play stack is flushed.  `revoluted` persists across
//! flushes until a size-4 play toggles it again.

use vstd::prelude::*;

use core::cmp::Ordering;
use crate::card::Suit;
use crate::deck::{is_same_number, spec_same_number, spec_vec_ord, vec_ord, Deck};

verus! {

#[derive(Clone, Debug)]
pub struct Effect {
    /// Required card count for the next legal play; `None` until the first
    /// play of the epoch fixes it.
    pub river_size: Option<usize>,
    /// If non-empty, the next play's suits must cover the prior play's suits.
    pub suit_limits: Vec<Suit>,
    /// Ranks whose special effect is suppressed for the rest of the epoch.
    pub effect_limits: Vec<u8>,
    /// Reversed ordering for the rest of the current epoch only.
    pub turn_revoluted: bool,
    /// The next play's rank must be exactly one ladder step above the prior
    /// play's rank.
    pub is_step: bool,
    /// Globally reversed ordering; survives flushes.
    pub revoluted: bool,
}

/// All turn-scoped modifiers are at their defaults (says nothing about the
/// persistent `revoluted` flag).
pub open spec fn effect_cleared(e: Effect) -> bool {
    &&& e.river_size is None
    &&& e.suit_limits@.len() == 0
    &&& e.effect_limits@.len() == 0
    &&& !e.turn_revoluted
    &&& !e.is_step
}

impl Effect {
    pub fn new() -> (r: Effect)
        ensures
            effect_cleared(r),
            !r.revoluted,
    {
        Effect {
            river_size: None,
            suit_limits: Vec::new(),
            effect_limits: Vec::new(),
            turn_revoluted: false,
            is_step: false,
            revoluted: false,
        }
    }

    /// The effect a fresh epoch starts with: everything cleared except the
    /// persistent `revoluted` flag, which is carried over.
    pub fn new_turn(effect: Effect) -> (r: Effect)
        ensures
            effect_cleared(r),
            r.revoluted == effect.revoluted,
    {
        Effect {
            river_size: None,
            suit_limits: Vec::new(),
            effect_limits: Vec::new(),
            turn_revoluted: false,
            is_step: false,
            revoluted: effect.revoluted,
        }
    }

    /// Whether rank `n`'s special effect is currently suppressed.
    pub fn is_limited(&self, n: u8) -> (r: bool)
        ensures
            r == self.effect_limits@.contains(n),
    {
        let mut i: usize = 0;
        while i < self.effect_limits.len()
            invariant
                i <= self.effect_limits@.len(),
                forall|j: int| 0 <= j < i ==> self.effect_limits@[j] != n,
            decreases self.effect_limits@.len() - i,
        {
            if self.effect_limits[i] == n {
                return true;
            }
            i += 1;
        }
        false
    }

    /// Suppress every rank in `lo..=hi` for the rest of the epoch.
    pub fn add_limits(&mut self, lo: u8, hi: u8)
        requires
            lo <= hi,
        ensures
            forall|m: u8| #[trigger]
                final(self).effect_limits@.contains(m) <==> (old(
                    self,
                ).effect_limits@.contains(m) || lo <= m <= hi),
            final(self).river_size == old(self).river_size,
            final(self).suit_limits == old(self).suit_limits,
            final(self).turn_revoluted == old(self).turn_revoluted,
            final(self).is_step == old(self).is_step,
            final(self).revoluted == old(self).revoluted,
    {
        let ghost base = self.effect_limits@;
        let mut m: u16 = lo as u16;
        while m <= hi as u16
            invariant
                lo as u16 <= m <= hi as u16 + 1,
                self.effect_limits@ == base + Seq::new(
                    (m - lo) as nat,
                    |i: int| (lo + i) as u8,
                ),
                self.river_size == old(self).river_size,
                self.suit_limits == old(self).suit_limits,
                self.turn_revoluted == old(self).turn_revoluted,
                self.is_step == old(self).is_step,
                self.revoluted == old(self).revoluted,
            decreases hi + 1 - m,
        {
            self.effect_limits.push(m as u8);
            proof {
                assert(base + Seq::new(((m + 1) - lo) as nat, |i: int| (lo + i) as u8) =~= (base
                    + Seq::new((m - lo) as nat, |i: int| (lo + i) as u8)).push(m as u8));
            }
            m += 1;
        }
        proof {
            let added = Seq::new((hi + 1 - lo) as nat, |i: int| (lo + i) as u8);
            assert(self.effect_limits@ =~= base + added);
            assert forall|x: u8| #[trigger]
                self.effect_limits@.contains(x) <==> (base.contains(x) || lo <= x <= hi) by {
                if self.effect_limits@.contains(x) {
                    let k = choose|k: int|
                        0 <= k < self.effect_limits@.len() && self.effect_limits@[k] == x;
                    if k < base.len() {
                        assert(base[k] == x);
                    } else {
                        assert(added[k - base.len()] == x);
                    }
                }
                if base.contains(x) {
                    let k = choose|k: int| 0 <= k < base.len() && base[k] == x;
                    assert(self.effect_limits@[k] == x);
                }
                if lo <= x <= hi {
                    assert(added[x - lo] == x);
                    assert(self.effect_limits@[base.len() + (x - lo)] == x);
                }
            }
        }
    }
}

/// The standing of the size-4 "revolution" rule, kept as a value of its own
/// by hosts that track it outside a running game.
#[derive(Clone, Copy, PartialEq, Eq, Structural, Debug)]
pub struct Revolution {
    pub revoluted: bool,
}

impl Revolution {
    pub fn new() -> (r: Revolution)
        ensures
            !r.revoluted,
    {
        Revolution { revoluted: false }
    }
}

/// The baseline admission rule for a play against the pile in play: equal
/// size, a single shared rank, and not losing the element-wise comparison.
#[derive(Clone, Copy, PartialEq, Eq, Structural, Debug)]
pub struct DefaultCareerPokerRiverGuard;

impl DefaultCareerPokerRiverGuard {
    /// Whether `serves` may be placed on top of `lasts` under the baseline
    /// rule alone (no modifiers considered).
    pub fn allows(&self, lasts: &Deck, serves: &Deck) -> (r: bool)
        ensures
            r == (lasts@.len() == serves@.len() && spec_same_number(serves@) && spec_vec_ord(
                serves@,
                lasts@,
            ) != Ordering::Less),
    {
        if lasts.0.len() != serves.0.len() {
            return false;
        }
        if !is_same_number(&serves.0) {
            return false;
        }
        let o = vec_ord(&serves.0, &lasts.0);
        match o {
            Ordering::Less => false,
            _ => true,
        }
    }
}

} // verus!
