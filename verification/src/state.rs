//! The game state and turn engine.
//!
//! One [`CareerPokerState`] value holds everything about a room's running
//! game: seats, hands, the two terminal piles, the play stack ("river"), the
//! current actor, outstanding prompts, the pending deferred-flush task and
//! the accumulated rule modifiers.  Every action validates first and either
//! mutates the state to completion or returns a [`GameError`] with the state
//! untouched.
//!
//! Deferred work is not performed here: methods that need the scheduler
//! return [`PortRequest`] values for the host to carry out, and the host
//! reports a fired timer back by calling [`CareerPokerState::flush`] (and a
//! canceled one by calling [`CareerPokerState::cancel_task`]).

use vstd::prelude::*;

use core::cmp::Ordering;
use vstd::arithmetic::div_mod::lemma_mod_add_multiples_vanish;
use crate::card::{cardinal, spec_cardinal, Card, Suit};
use crate::deck::{
    contains_all, copy_cards, deck, extend_cards, has_suit, is_same_number, match_suits, number,
    remove_cards, remove_items, remove_one, remove_seq, sort_cards, sorted_cards, spec_deck,
    spec_match_suits, spec_number, spec_same_number, spec_shuffle, spec_vec_ord, suits, vec_ord,
    Deck,
};
use crate::effect::{effect_cleared, Effect};
use crate::ports::{FlushTarget, GameError, PortRequest, PromptKind};

verus! {

/// Milliseconds a deferred flush waits before firing, granting other
/// players their one-chance window.
pub const FLUSH_DELAY_MS: u32 = 5000;

#[derive(Clone, Debug)]
pub struct CareerPokerState {
    pub room_id: String,
    /// Whose turn it is; `None` means no eligible actor.
    pub current: Option<String>,
    /// Seating order; fixed by dealing, shrunk by leaving.
    pub players: Vec<String>,
    /// The exclusion pile: cards only return from it via a rank-13 prompt.
    pub excluded: Deck,
    /// The discard pile.
    pub trushes: Deck,
    /// The play stack since the last flush; its last entry must be beaten.
    pub river: Vec<Deck>,
    /// Handle of the scheduled flush task, if one is outstanding.
    pub will_flush_task_id: Option<u64>,
    /// Source of fresh task handles; grows by one per scheduled flush.
    pub task_seq: u64,
    pub last_served_player_id: Option<String>,
    /// One hand per seat: `fields[i]` belongs to `players[i]`.
    pub fields: Vec<Deck>,
    pub effect: Effect,
    /// Players who owe a card selection before the turn may advance, with
    /// the pool each must select from.
    pub prompts: Vec<(String, PromptKind)>,
}

/// The seat index of the player whose name reads `p`, if any.
pub open spec fn spec_position(ps: Seq<String>, p: Seq<char>) -> Option<int>
    decreases ps.len(),
{
    if ps.len() == 0 {
        None
    } else if ps[0]@ == p {
        Some(0int)
    } else {
        match spec_position(ps.skip(1), p) {
            Some(i) => Some(i + 1),
            None => None,
        }
    }
}

proof fn lemma_position_found(ps: Seq<String>, p: Seq<char>, i: int)
    requires
        0 <= i < ps.len(),
        ps[i]@ == p,
        forall|j: int| 0 <= j < i ==> ps[j]@ != p,
    ensures
        spec_position(ps, p) == Some(i),
    decreases i,
{
    if i == 0 {
    } else {
        assert(ps[0]@ != p);
        assert(ps.skip(1)[i - 1] == ps[i]);
        assert forall|j: int| 0 <= j < i - 1 implies ps.skip(1)[j]@ != p by {
            assert(ps.skip(1)[j] == ps[j + 1]);
        }
        lemma_position_found(ps.skip(1), p, i - 1);
    }
}

proof fn lemma_position_absent(ps: Seq<String>, p: Seq<char>)
    requires
        forall|j: int| 0 <= j < ps.len() ==> ps[j]@ != p,
    ensures
        spec_position(ps, p) is None,
    decreases ps.len(),
{
    if ps.len() > 0 {
        assert forall|j: int| 0 <= j < ps.skip(1).len() implies ps.skip(1)[j]@ != p by {
            assert(ps.skip(1)[j] == ps[j + 1]);
        }
        lemma_position_absent(ps.skip(1), p);
    }
}

/// Name equality, read off the character sequences.
pub fn string_eq(a: &String, b: &String) -> (r: bool)
    ensures
        r == (a@ == b@),
{
    a.eq(b)
}

/// The first seat whose name reads `p`.
pub fn position_of(players: &Vec<String>, p: &String) -> (r: Option<usize>)
    ensures
        match r {
            Some(i) => spec_position(players@, p@) == Some(i as int) && i < players@.len()
                && players@[i as int]@ == p@,
            None => spec_position(players@, p@) is None,
        },
{
    let mut i: usize = 0;
    while i < players.len()
        invariant
            i <= players@.len(),
            forall|j: int| 0 <= j < i ==> players@[j]@ != p@,
        decreases players@.len() - i,
    {
        if string_eq(&players[i], p) {
            proof {
                lemma_position_found(players@, p@, i as int);
            }
            return Some(i);
        }
        i += 1;
    }
    proof {
        lemma_position_absent(players@, p@);
    }
    None
}

/// Two optional player names naming the same player (or both absent).
pub open spec fn same_player_opt(a: Option<String>, b: Option<String>) -> bool {
    match (a, b) {
        (Option::None, Option::None) => true,
        (Option::Some(x), Option::Some(y)) => x@ == y@,
        _ => false,
    }
}

/// The views of the piles on the play stack, oldest first.
pub open spec fn piles(river: Seq<Deck>) -> Seq<Seq<Card>> {
    river.map_values(|d: Deck| d@)
}

/// All cards on the play stack, oldest pile first, order kept within piles.
pub open spec fn flat_piles(ps: Seq<Seq<Card>>) -> Seq<Card>
    decreases ps.len(),
{
    if ps.len() == 0 {
        Seq::empty()
    } else {
        flat_piles(ps.drop_last()) + ps.last()
    }
}

impl CareerPokerState {
    /// Structural soundness: one hand per seat, a sane seat count, and a
    /// fixed pile size whenever the play stack is non-empty.
    pub open spec fn wf(self) -> bool {
        &&& self.fields@.len() == self.players@.len()
        &&& self.players@.len() < 0x1000_0000
        &&& (self.river@.len() > 0 ==> self.effect.river_size is Some)
    }

    pub open spec fn seated(self, p: Seq<char>) -> bool {
        spec_position(self.players@, p) is Some
    }

    /// The hand of the player whose name reads `p` (empty if not seated).
    pub open spec fn hand_of(self, p: Seq<char>) -> Seq<Card> {
        match spec_position(self.players@, p) {
            Some(i) => self.fields@[i]@,
            None => Seq::empty(),
        }
    }

    pub fn new(room_id: String) -> (r: CareerPokerState)
        ensures
            r.room_id == room_id,
            r.players@.len() == 0,
            r.fields@.len() == 0,
            r.current is None,
            r.last_served_player_id is None,
            r.will_flush_task_id is None,
            r.task_seq == 0,
            r.river@.len() == 0,
            r.trushes@.len() == 0,
            r.excluded@.len() == 0,
            r.prompts@.len() == 0,
            effect_cleared(r.effect),
            !r.effect.revoluted,
            r.wf(),
    {
        CareerPokerState {
            room_id,
            excluded: Deck::new(Vec::new()),
            trushes: Deck::new(Vec::new()),
            river: Vec::new(),
            will_flush_task_id: None,
            task_seq: 0,
            players: Vec::new(),
            last_served_player_id: None,
            current: None,
            fields: Vec::new(),
            effect: Effect::new(),
            prompts: Vec::new(),
        }
    }

    /// Forget the running game but keep the room and the seating.  Every
    /// seat keeps its place with an empty hand.
    pub fn reset(&mut self)
        requires
            old(self).wf(),
        ensures
            final(self).room_id == old(self).room_id,
            final(self).players == old(self).players,
            final(self).fields@.len() == old(self).players@.len(),
            forall|i: int|
                0 <= i < final(self).fields@.len() ==> final(self).fields@[i]@.len() == 0,
            final(self).current is None,
            final(self).last_served_player_id is None,
            final(self).will_flush_task_id is None,
            final(self).task_seq == old(self).task_seq,
            final(self).river@.len() == 0,
            final(self).trushes@.len() == 0,
            final(self).excluded@.len() == 0,
            final(self).prompts@.len() == 0,
            effect_cleared(final(self).effect),
            !final(self).effect.revoluted,
            final(self).wf(),
    {
        let n = self.players.len();
        let mut hands: Vec<Deck> = Vec::new();
        let mut i: usize = 0;
        while i < n
            invariant
                i <= n,
                hands@.len() == i,
                forall|j: int| 0 <= j < i ==> hands@[j]@.len() == 0,
            decreases n - i,
        {
            hands.push(Deck::new(Vec::new()));
            i += 1;
        }
        self.excluded = Deck::new(Vec::new());
        self.trushes = Deck::new(Vec::new());
        self.river = Vec::new();
        self.will_flush_task_id = None;
        self.last_served_player_id = None;
        self.current = None;
        self.fields = hands;
        self.effect = Effect::new();
        self.prompts = Vec::new();
    }

    /// Seat a player, unless a player of that name is already seated.  The
    /// new seat starts with an empty hand.
    pub fn join(&mut self, player_id: String)
        requires
            old(self).wf(),
            old(self).players@.len() + 1 < 0x1000_0000,
        ensures
            final(self).wf(),
            old(self).seated(player_id@) ==> *final(self) == *old(self),
            !old(self).seated(player_id@) ==> {
                &&& final(self).players@ == old(self).players@.push(player_id)
                &&& final(self).fields@.len() == old(self).fields@.len() + 1
                &&& final(self).fields@.last()@.len() == 0
                &&& forall|i: int|
                    0 <= i < old(self).fields@.len() ==> final(self).fields@[i] == old(
                        self,
                    ).fields@[i]
                &&& final(self).room_id == old(self).room_id
                &&& final(self).current == old(self).current
                &&& final(self).excluded == old(self).excluded
                &&& final(self).trushes == old(self).trushes
                &&& final(self).river == old(self).river
                &&& final(self).will_flush_task_id == old(self).will_flush_task_id
                &&& final(self).task_seq == old(self).task_seq
                &&& final(self).last_served_player_id == old(self).last_served_player_id
                &&& final(self).effect == old(self).effect
                &&& final(self).prompts == old(self).prompts
            },
    {
        match position_of(&self.players, &player_id) {
            Some(_) => {
            },
            None => {
                self.players.push(player_id);
                self.fields.push(Deck::new(Vec::new()));
            },
        }
    }

    /// Remove a seated player together with their hand; a name that is not
    /// seated changes nothing.
    pub fn leave(&mut self, player_id: String)
        requires
            old(self).wf(),
        ensures
            final(self).wf(),
            !old(self).seated(player_id@) ==> *final(self) == *old(self),
            old(self).seated(player_id@) ==> {
                let i = spec_position(old(self).players@, player_id@)->Some_0;
                &&& final(self).players@ == old(self).players@.remove(i)
                &&& final(self).fields@ == old(self).fields@.remove(i)
                &&& final(self).room_id == old(self).room_id
                &&& final(self).current == old(self).current
                &&& final(self).excluded == old(self).excluded
                &&& final(self).trushes == old(self).trushes
                &&& final(self).river == old(self).river
                &&& final(self).will_flush_task_id == old(self).will_flush_task_id
                &&& final(self).task_seq == old(self).task_seq
                &&& final(self).last_served_player_id == old(self).last_served_player_id
                &&& final(self).effect == old(self).effect
                &&& final(self).prompts == old(self).prompts
            },
    {
        match position_of(&self.players, &player_id) {
            Some(i) => {
                self.players.remove(i);
                self.fields.remove(i);
            },
            None => {
            },
        }
    }

    /// Acknowledge that the flush task `task_id` is settled (fired or
    /// canceled on the host side).  Unknown handles are accepted silently,
    /// which makes the acknowledgement idempotent.
    pub fn cancel_task(&mut self, task_id: u64)
        ensures
            cancel_task_post(*old(self), *final(self), task_id),
    {
        match self.will_flush_task_id {
            Some(t) => {
                if t == task_id {
                    self.will_flush_task_id = None;
                }
            },
            None => {
            },
        }
    }
}

/// Exactly a settled-task acknowledgement happened: the pending handle is
/// dropped when it names the settled task, and nothing else moves.
pub open spec fn cancel_task_post(
    pre: CareerPokerState,
    post: CareerPokerState,
    task_id: u64,
) -> bool {
    &&& post.will_flush_task_id == (if pre.will_flush_task_id == Some(task_id) {
        Option::<u64>::None
    } else {
        pre.will_flush_task_id
    })
    &&& post.room_id == pre.room_id
    &&& post.current == pre.current
    &&& post.players == pre.players
    &&& post.excluded == pre.excluded
    &&& post.trushes == pre.trushes
    &&& post.river == pre.river
    &&& post.task_seq == pre.task_seq
    &&& post.last_served_player_id == pre.last_served_player_id
    &&& post.fields == pre.fields
    &&& post.effect == pre.effect
    &&& post.prompts == pre.prompts
}

/// The port requests a new deferred flush emits: cancel the stale task, if
/// any, then schedule the new one under the handle `pre.task_seq`.
pub open spec fn spec_flush_requests(
    pre: CareerPokerState,
    p: String,
    to: FlushTarget,
) -> Seq<PortRequest> {
    let sched = PortRequest::Schedule {
        player_id: p,
        to,
        task_id: pre.task_seq,
        delay_ms: FLUSH_DELAY_MS,
    };
    match pre.will_flush_task_id {
        Some(t) => seq![PortRequest::Cancel { task_id: t }, sched],
        None => seq![sched],
    }
}

/// Exactly a fresh deferred flush was recorded: the handle advanced, the
/// requests cancel any stale task and schedule the new one, and nothing
/// else moved.
pub open spec fn will_flush_post(
    pre: CareerPokerState,
    post: CareerPokerState,
    p: String,
    to: FlushTarget,
    reqs: Seq<PortRequest>,
) -> bool {
    &&& post.task_seq == pre.task_seq + 1
    &&& post.will_flush_task_id == Some(pre.task_seq)
    &&& reqs == spec_flush_requests(pre, p, to)
    &&& post.room_id == pre.room_id
    &&& post.current == pre.current
    &&& post.players == pre.players
    &&& post.excluded == pre.excluded
    &&& post.trushes == pre.trushes
    &&& post.river == pre.river
    &&& post.last_served_player_id == pre.last_served_player_id
    &&& post.fields == pre.fields
    &&& post.effect == pre.effect
    &&& post.prompts == pre.prompts
}

impl CareerPokerState {
    /// Record a deferred flush of the play stack into `to`, on behalf of
    /// `player_id`.  Any outstanding flush task is canceled first, so at
    /// most one task is ever pending.
    pub fn will_flush(&mut self, player_id: &String, to: FlushTarget) -> (reqs: Vec<PortRequest>)
        requires
            old(self).task_seq < u64::MAX,
        ensures
            will_flush_post(*old(self), *final(self), *player_id, to, reqs@),
    {
        let mut reqs: Vec<PortRequest> = Vec::new();
        match self.will_flush_task_id {
            Some(t) => {
                reqs.push(PortRequest::Cancel { task_id: t });
            },
            None => {
            },
        }
        let tid = self.task_seq;
        self.task_seq = tid + 1;
        self.will_flush_task_id = Some(tid);
        reqs.push(
            PortRequest::Schedule {
                player_id: player_id.clone(),
                to,
                task_id: tid,
                delay_ms: FLUSH_DELAY_MS,
            },
        );
        proof {
            assert(reqs@ =~= spec_flush_requests(*old(self), *player_id, to));
        }
        reqs
    }
}

/// Exactly a flush happened: the play stack moved into the chosen terminal
/// pile, the turn-scoped modifiers were cleared (the persistent revolution
/// flag kept), the turn returned to whoever served last, and the pending
/// task handle was settled.
pub open spec fn flush_post(pre: CareerPokerState, post: CareerPokerState, to: FlushTarget) -> bool {
    &&& (to == FlushTarget::Trushes ==> post.trushes@ == pre.trushes@ + flat_piles(
        piles(pre.river@),
    ) && post.excluded == pre.excluded)
    &&& (to == FlushTarget::Excluded ==> post.excluded@ == pre.excluded@ + flat_piles(
        piles(pre.river@),
    ) && post.trushes == pre.trushes)
    &&& post.river@.len() == 0
    &&& effect_cleared(post.effect)
    &&& post.effect.revoluted == pre.effect.revoluted
    &&& post.current == pre.last_served_player_id
    &&& post.will_flush_task_id is None
    &&& post.task_seq == pre.task_seq
    &&& post.room_id == pre.room_id
    &&& post.players == pre.players
    &&& post.fields == pre.fields
    &&& post.last_served_player_id == pre.last_served_player_id
    &&& post.prompts == pre.prompts
}

impl CareerPokerState {
    /// Move every card of the play stack into the terminal pile `to`, clear
    /// the turn-scoped modifiers, hand the turn back to whoever served
    /// last, and settle the pending flush task.
    pub fn flush(&mut self, to: FlushTarget)
        ensures
            flush_post(*old(self), *final(self), to),
    {
        let ghost pre = *old(self);
        let n = self.river.len();
        let mut i: usize = 0;
        match to {
            FlushTarget::Trushes => {
                while i < n
                    invariant
                        i <= n,
                        n == self.river@.len(),
                        self.river == pre.river,
                        self.trushes@ == pre.trushes@ + flat_piles(piles(pre.river@.take(i as int))),
                        self.excluded == pre.excluded,
                        self.room_id == pre.room_id,
                        self.current == pre.current,
                        self.players == pre.players,
                        self.will_flush_task_id == pre.will_flush_task_id,
                        self.task_seq == pre.task_seq,
                        self.last_served_player_id == pre.last_served_player_id,
                        self.fields == pre.fields,
                        self.effect == pre.effect,
                        self.prompts == pre.prompts,
                    decreases n - i,
                {
                    extend_cards(&mut self.trushes.0, &self.river[i].0);
                    proof {
                        lemma_piles_take_step(pre.river@, i as int);
                    }
                    i += 1;
                }
            },
            FlushTarget::Excluded => {
                while i < n
                    invariant
                        i <= n,
                        n == self.river@.len(),
                        self.river == pre.river,
                        self.excluded@ == pre.excluded@ + flat_piles(
                            piles(pre.river@.take(i as int)),
                        ),
                        self.trushes == pre.trushes,
                        self.room_id == pre.room_id,
                        self.current == pre.current,
                        self.players == pre.players,
                        self.will_flush_task_id == pre.will_flush_task_id,
                        self.task_seq == pre.task_seq,
                        self.last_served_player_id == pre.last_served_player_id,
                        self.fields == pre.fields,
                        self.effect == pre.effect,
                        self.prompts == pre.prompts,
                    decreases n - i,
                {
                    extend_cards(&mut self.excluded.0, &self.river[i].0);
                    proof {
                        lemma_piles_take_step(pre.river@, i as int);
                    }
                    i += 1;
                }
            },
        }
        proof {
            assert(pre.river@.take(n as int) =~= pre.river@);
        }
        self.river = Vec::new();
        let rev = self.effect.revoluted;
        self.effect = Effect {
            river_size: None,
            suit_limits: Vec::new(),
            effect_limits: Vec::new(),
            turn_revoluted: false,
            is_step: false,
            revoluted: rev,
        };
        self.current = match &self.last_served_player_id {
            Some(s) => Some(s.clone()),
            None => None,
        };
        self.will_flush_task_id = None;
    }
}

/// Euclidean wrap-around of seat `pos` moved by `delta` among `len` seats.
fn euclid_index(pos: usize, delta: i64, len: usize) -> (r: usize)
    requires
        0 < len < 0x1000_0000,
        pos < len,
        -(len as i64) <= delta <= 0x2000_0000_0000,
    ensures
        r < len,
        r as int == (pos as int + delta as int) % (len as int),
{
    let a: i64 = pos as i64 + delta + len as i64;
    proof {
        lemma_mod_add_multiples_vanish(pos as int + delta as int, len as int);
    }
    ((a as u64) % (len as u64)) as usize
}

/// Scan seats `pos + delta`, `pos + delta + 1`, ... for a non-empty hand,
/// giving up after the offset `stop` (the last offset the engine considers:
/// the wrap-around point back to the scanning seat).
pub open spec fn spec_scan(
    players: Seq<String>,
    fields: Seq<Deck>,
    pos: int,
    delta: int,
    stop: int,
) -> Option<String>
    decreases stop - delta + 1,
{
    if delta > stop || players.len() == 0 {
        None
    } else {
        let idx = (pos + delta) % (players.len() as int);
        if fields[idx]@.len() > 0 {
            Some(players[idx])
        } else {
            spec_scan(players, fields, pos, delta + 1, stop)
        }
    }
}

/// Where a forward scan that starts at offset `d` gives up: at the full
/// wrap (`n`), or one full cycle after its start when it begins beyond the
/// wrap.
pub open spec fn scan_stop(d: int, n: int) -> int {
    if d <= n {
        n
    } else {
        d + n
    }
}

/// The seat the turn lands on when moving `d` places from `p`, skipping
/// empty hands; `None` when every seat scanned is empty.
pub open spec fn spec_relative(s: CareerPokerState, p: Seq<char>, d: int) -> Option<String> {
    match spec_position(s.players@, p) {
        Some(pos) => spec_scan(
            s.players@,
            s.fields@,
            pos,
            d,
            scan_stop(d, s.players@.len() as int),
        ),
        None => None,
    }
}

impl CareerPokerState {
    /// The player `d` seats onward from `player_id` (negative `d` looks
    /// backward), skipping seats with empty hands; `None` when the scan
    /// wraps without finding one.
    pub fn get_relative_player(&self, player_id: &String, d: i32) -> (r: Option<String>)
        requires
            self.wf(),
            self.seated(player_id@),
            d as int >= -(self.players@.len() as int),
        ensures
            r == spec_relative(*self, player_id@, d as int),
    {
        let n = self.players.len();
        let pos = match position_of(&self.players, player_id) {
            Some(i) => i,
            None => {
                // unreachable: the caller guarantees the seat
                proof {
                    assert(false);
                }
                return None;
            },
        };
        let stop: i64 = if (d as i64) <= (n as i64) {
            n as i64
        } else {
            d as i64 + n as i64
        };
        let mut delta: i64 = d as i64;
        while delta <= stop
            invariant
                self.wf(),
                n == self.players@.len(),
                0 < n,
                pos < n,
                spec_position(self.players@, player_id@) == Some(pos as int),
                stop == scan_stop(d as int, n as int),
                -(n as i64) <= delta,
                delta <= stop + 1,
                stop <= 0x2000_0000_0000,
                spec_relative(*self, player_id@, d as int) == spec_scan(
                    self.players@,
                    self.fields@,
                    pos as int,
                    delta as int,
                    stop as int,
                ),
            decreases stop - delta + 1,
        {
            let idx = euclid_index(pos, delta, n);
            if !self.fields[idx].0.is_empty() {
                return Some(self.players[idx].clone());
            }
            delta += 1;
        }
        None
    }
}

/// Whether it is currently some other player's turn than `p`'s.
pub open spec fn turn_of_other(pre: CareerPokerState, p: Seq<char>) -> bool {
    match pre.current {
        Some(c) => c@ != p,
        None => false,
    }
}

/// Exactly a normal turn advance from `p` happened: the turn moved to the
/// next seat with cards; if the scan found nobody, or landed back on
/// whoever served last, a deferred flush to the discard pile was recorded
/// instead of play going on.
pub open spec fn next_post(
    pre: CareerPokerState,
    post: CareerPokerState,
    p: String,
    reqs: Seq<PortRequest>,
) -> bool {
    let cur = spec_relative(pre, p@, 1);
    &&& post.current == cur
    &&& post.room_id == pre.room_id
    &&& post.players == pre.players
    &&& post.excluded == pre.excluded
    &&& post.trushes == pre.trushes
    &&& post.river == pre.river
    &&& post.last_served_player_id == pre.last_served_player_id
    &&& post.fields == pre.fields
    &&& post.effect == pre.effect
    &&& post.prompts == pre.prompts
    &&& if cur is None || same_player_opt(cur, pre.last_served_player_id) {
        &&& post.will_flush_task_id == Some(pre.task_seq)
        &&& post.task_seq == pre.task_seq + 1
        &&& reqs == spec_flush_requests(pre, p, FlushTarget::Trushes)
    } else {
        &&& post.will_flush_task_id == pre.will_flush_task_id
        &&& post.task_seq == pre.task_seq
        &&& reqs.len() == 0
    }
}

impl CareerPokerState {
    /// Advance the turn one seat onward from `player_id`, skipping empty
    /// hands; when the pile epoch is over (nobody left to act, or the play
    /// came back unbeaten to its server) a deferred flush is recorded.
    ///
    /// A pending flush task therefore only ever exists once an epoch has
    /// ended: it never blocks a normal advance, it waits for its timer or
    /// for a one-chance interrupt.
    pub fn next(&mut self, player_id: &String) -> (reqs: Vec<PortRequest>)
        requires
            old(self).wf(),
            old(self).seated(player_id@),
            old(self).task_seq < u64::MAX,
        ensures
            final(self).wf(),
            next_post(*old(self), *final(self), *player_id, reqs@),
    {
        let cur = self.get_relative_player(player_id, 1);
        let schedule = match &cur {
            None => true,
            Some(c) => match &self.last_served_player_id {
                Some(l) => string_eq(c, l),
                None => false,
            },
        };
        self.current = cur;
        if schedule {
            self.will_flush(player_id, FlushTarget::Trushes)
        } else {
            Vec::new()
        }
    }

    /// Decline to play.  The turn advances as in [`CareerPokerState::next`];
    /// a pass by a player who is not seated, or out of turn, or while any
    /// selection is still owed, is rejected unchanged.
    pub fn pass(&mut self, player_id: String) -> (r: Result<Vec<PortRequest>, GameError>)
        requires
            old(self).wf(),
            old(self).task_seq < u64::MAX,
        ensures
            final(self).wf(),
            !old(self).seated(player_id@) ==> r == Result::<Vec<PortRequest>, GameError>::Err(
                GameError::UnknownPlayer,
            ) && *final(self) == *old(self),
            old(self).seated(player_id@) && turn_of_other(*old(self), player_id@) ==> r
                == Result::<Vec<PortRequest>, GameError>::Err(GameError::NotYourTurn)
                && *final(self) == *old(self),
            old(self).seated(player_id@) && !turn_of_other(*old(self), player_id@) && old(
                self,
            ).prompts@.len() > 0 ==> r == Result::<Vec<PortRequest>, GameError>::Err(
                GameError::PromptMismatch,
            ) && *final(self) == *old(self),
            old(self).seated(player_id@) && !turn_of_other(*old(self), player_id@) && old(
                self,
            ).prompts@.len() == 0 ==> match r {
                Ok(reqs) => next_post(*old(self), *final(self), player_id, reqs@),
                Err(_) => false,
            },
    {
        match position_of(&self.players, &player_id) {
            None => {
                return Err(GameError::UnknownPlayer);
            },
            Some(_) => {
            },
        }
        let other = match &self.current {
            Some(c) => !string_eq(c, &player_id),
            None => false,
        };
        if other {
            return Err(GameError::NotYourTurn);
        }
        if self.prompts.len() > 0 {
            return Err(GameError::PromptMismatch);
        }
        Ok(self.next(&player_id))
    }
}

/// The pile size the next play must match (0 only when no pile is in
/// play, in which case no size check applies).
pub open spec fn required_size(s: CareerPokerState) -> int {
    match s.effect.river_size {
        Some(n) => n as int,
        None => 0,
    }
}

/// Whether `serves` wins the element-wise comparison against the pile in
/// play, with the direction reversed while exactly one of the two
/// revolution flags is up.
pub open spec fn beats(s: CareerPokerState, lasts: Seq<Card>, serves: Seq<Card>) -> bool {
    if s.effect.revoluted != s.effect.turn_revoluted {
        spec_vec_ord(lasts, serves) == Ordering::Greater
    } else {
        spec_vec_ord(lasts, serves) == Ordering::Less
    }
}

/// The rank-9 pile-size exception: besides an exact match, sizes 1 and 3
/// stand in for one another.
pub open spec fn size_ok_9(rs: int, len: int) -> bool {
    len == rs || (rs == 1 && len == 3) || (rs == 3 && len == 1)
}

/// The size check: exact match against the fixed pile size, except that an
/// unsuppressed rank-9 play may swap sizes 1 and 3.
pub open spec fn size_ok(s: CareerPokerState, serves: Seq<Card>) -> bool {
    if spec_number(serves) == 9 && !s.effect.effect_limits@.contains(9u8) {
        size_ok_9(required_size(s), serves.len() as int)
    } else {
        serves.len() == required_size(s)
    }
}

/// The step check: under the rank-12 effect, the new play's rank must sit
/// exactly one ladder step above the prior play's rank.
pub open spec fn step_ok(s: CareerPokerState, lasts: Seq<Card>, serves: Seq<Card>) -> bool {
    s.effect.is_step ==> spec_cardinal(spec_number(serves) as int) - spec_cardinal(
        spec_number(lasts) as int,
    ) == 1
}

/// The suit check: while suit limits stand, the new play's suits must cover
/// the prior play's suits.
pub open spec fn suits_ok(s: CareerPokerState, lasts: Seq<Card>, serves: Seq<Card>) -> bool {
    s.effect.suit_limits@.len() > 0 ==> spec_match_suits(lasts, serves)
}

/// Serve validation: the play must carry a single rank, and, when a pile is
/// in play, beat it, match the fixed pile size (with the rank-9 exception),
/// obey a standing step rule, and cover its suits while suit limits stand.
/// The first play of an epoch is free apart from the single-rank rule.
pub open spec fn spec_servable(s: CareerPokerState, serves: Seq<Card>) -> bool {
    &&& spec_same_number(serves)
    &&& (s.river@.len() > 0 ==> {
        let lasts = s.river@.last()@;
        &&& beats(s, lasts, serves)
        &&& size_ok(s, serves)
        &&& step_ok(s, lasts, serves)
        &&& suits_ok(s, lasts, serves)
    })
}

/// Whether a rank-9 play of `serves.len()` cards passes the pile-size
/// check, sizes 1 and 3 standing in for one another.
pub fn servable_9(state: &CareerPokerState, serves: &Vec<Card>) -> (r: bool)
    requires
        state.wf(),
        state.river@.len() > 0,
    ensures
        r == size_ok_9(required_size(*state), serves@.len() as int),
{
    let rs = match state.effect.river_size {
        Some(n) => n,
        None => 0,
    };
    serves.len() == rs || (rs == 1 && serves.len() == 3) || (rs == 3 && serves.len() == 1)
}

/// Whether the proposed play is legal against the current state (§ serve
/// validation); dealing no cards is never legal through [`CareerPokerState::serve`].
pub fn servable(state: &CareerPokerState, serves: &Vec<Card>) -> (r: bool)
    requires
        state.wf(),
    ensures
        r == spec_servable(*state, serves@),
{
    let mut ok = is_same_number(serves);
    if state.river.len() == 0 {
        return ok;
    }
    let last_idx = state.river.len() - 1;
    let rev = state.effect.revoluted != state.effect.turn_revoluted;
    let o = vec_ord(&state.river[last_idx].0, serves);
    let won = if rev {
        match o {
            Ordering::Greater => true,
            _ => false,
        }
    } else {
        match o {
            Ordering::Less => true,
            _ => false,
        }
    };
    ok = ok && won;
    let n = number(serves);
    let rs = match state.effect.river_size {
        Some(k) => k,
        None => 0,
    };
    if n == 9 && !state.effect.is_limited(9) {
        ok = ok && servable_9(state, serves);
    } else {
        ok = ok && serves.len() == rs;
    }
    if state.effect.is_step {
        let ln = number(&state.river[last_idx].0);
        ok = ok && cardinal(n) == cardinal(ln) + 1;
    }
    if state.effect.suit_limits.len() > 0 {
        ok = ok && match_suits(&state.river[last_idx].0, serves);
    }
    proof {
        assert(state.river@.last() == state.river@[last_idx as int]);
    }
    ok
}

/// Seats, hands, room and server unchanged.
pub open spec fn core_kept(pre: CareerPokerState, post: CareerPokerState) -> bool {
    &&& post.room_id == pre.room_id
    &&& post.players == pre.players
    &&& post.fields == pre.fields
    &&& post.last_served_player_id == pre.last_served_player_id
}

/// Both terminal piles unchanged.
pub open spec fn piles_kept(pre: CareerPokerState, post: CareerPokerState) -> bool {
    &&& post.trushes == pre.trushes
    &&& post.excluded == pre.excluded
}

/// Turn owner and flush-task bookkeeping unchanged, and no port requests.
pub open spec fn flow_kept(
    pre: CareerPokerState,
    post: CareerPokerState,
    reqs: Seq<PortRequest>,
) -> bool {
    &&& post.current == pre.current
    &&& post.will_flush_task_id == pre.will_flush_task_id
    &&& post.task_seq == pre.task_seq
    &&& reqs.len() == 0
}

/// Turn owner and flush-task bookkeeping of a normal advance from `p`,
/// evaluated over the seats, hands and server recorded in `base`.
pub open spec fn advance_fields(
    base: CareerPokerState,
    post: CareerPokerState,
    p: String,
    reqs: Seq<PortRequest>,
) -> bool {
    let cur = spec_relative(base, p@, 1);
    &&& post.current == cur
    &&& if cur is None || same_player_opt(cur, base.last_served_player_id) {
        &&& post.will_flush_task_id == Some(base.task_seq)
        &&& post.task_seq == base.task_seq + 1
        &&& reqs == spec_flush_requests(base, p, FlushTarget::Trushes)
    } else {
        &&& post.will_flush_task_id == base.will_flush_task_id
        &&& post.task_seq == base.task_seq
        &&& reqs.len() == 0
    }
}

/// Turn owner and flush-task bookkeeping of the rank-5 skip: the turn jumps
/// `1 + count` seats onward; when the jump wraps back to the actor (or
/// finds nobody), a deferred flush is recorded instead.
pub open spec fn skip_fields(
    base: CareerPokerState,
    post: CareerPokerState,
    p: String,
    count: int,
    reqs: Seq<PortRequest>,
) -> bool {
    let cur = spec_relative(base, p@, 1 + count);
    let wrapped = match cur {
        Some(c) => c@ == p@,
        None => true,
    };
    &&& post.current == cur
    &&& if wrapped {
        &&& post.will_flush_task_id == Some(base.task_seq)
        &&& post.task_seq == base.task_seq + 1
        &&& reqs == spec_flush_requests(base, p, FlushTarget::Trushes)
    } else {
        &&& post.will_flush_task_id == base.will_flush_task_id
        &&& post.task_seq == base.task_seq
        &&& reqs.len() == 0
    }
}

/// Ranks `lo..=hi` were added to the suppression ledger, nothing dropped.
pub open spec fn limits_extended(pre: Seq<u8>, post: Seq<u8>, lo: u8, hi: u8) -> bool {
    forall|m: u8| #[trigger] post.contains(m) <==> (pre.contains(m) || lo <= m <= hi)
}

/// The concrete suits of `serves` were added to the suit limits, nothing
/// dropped.
pub open spec fn suit_limits_extended(pre: Seq<Suit>, post: Seq<Suit>, serves: Seq<Card>) -> bool {
    forall|t: Suit| #[trigger]
        post.contains(t) <==> (pre.contains(t) || (t != Suit::UnSuited && has_suit(serves, t)))
}

/// The rank-9 exchange on the fixed pile size: 1 and 3 swap, anything else
/// stays.
pub open spec fn size9(len: int) -> int {
    if len == 1 {
        3
    } else if len == 3 {
        1
    } else {
        len
    }
}

pub open spec fn river_size_is(e: Effect, k: int) -> bool {
    match e.river_size {
        Some(v) => v == k,
        None => false,
    }
}

impl CareerPokerState {
    /// The hand at `p`'s seat is empty or `p` is not seated.
    pub open spec fn hand_empty(self, p: Seq<char>) -> bool {
        self.hand_of(p).len() == 0
    }
}

/// Toggle the persistent revolution flag on a play of exactly four cards;
/// nothing else moves.
pub fn effect_revolution(state: &mut CareerPokerState, player_id: &String, serves: &Vec<Card>)
    ensures
        final(state).effect.revoluted == (if serves@.len() == 4 {
            !old(state).effect.revoluted
        } else {
            old(state).effect.revoluted
        }),
        final(state).effect.river_size == old(state).effect.river_size,
        final(state).effect.suit_limits == old(state).effect.suit_limits,
        final(state).effect.effect_limits == old(state).effect.effect_limits,
        final(state).effect.turn_revoluted == old(state).effect.turn_revoluted,
        final(state).effect.is_step == old(state).effect.is_step,
        core_kept(*old(state), *final(state)),
        piles_kept(*old(state), *final(state)),
        final(state).current == old(state).current,
        final(state).will_flush_task_id == old(state).will_flush_task_id,
        final(state).task_seq == old(state).task_seq,
        final(state).river == old(state).river,
        final(state).prompts == old(state).prompts,
{
    if serves.len() == 4 {
        state.effect.revoluted = !state.effect.revoluted;
    }
}

impl CareerPokerState {
    /// Whether `player_id`'s hand is empty (callers guarantee the seat).
    fn hand_is_empty(&self, player_id: &String) -> (r: bool)
        requires
            self.wf(),
            self.seated(player_id@),
        ensures
            r == self.hand_empty(player_id@),
    {
        match position_of(&self.players, player_id) {
            Some(i) => self.fields[i].0.is_empty(),
            None => {
                // unreachable: the caller guarantees the seat
                proof {
                    assert(false);
                }
                true
            },
        }
    }

    /// Raise a prompt: `player_id` owes a selection from `kind`'s pool
    /// before the turn may advance.  The prompt list is a map by player:
    /// an entry the player already owed is replaced, never doubled.
    fn push_prompt(&mut self, player_id: &String, kind: PromptKind)
        ensures
            final(self).prompts@ == remove_prompt_spec(old(self).prompts@, player_id@).push(
                (*player_id, kind),
            ),
            core_kept(*old(self), *final(self)),
            piles_kept(*old(self), *final(self)),
            final(self).river == old(self).river,
            final(self).effect == old(self).effect,
            final(self).current == old(self).current,
            final(self).will_flush_task_id == old(self).will_flush_task_id,
            final(self).task_seq == old(self).task_seq,
    {
        self.remove_prompt(player_id);
        self.prompts.push((player_id.clone(), kind));
    }
}

/// Rank 3: suppress every rank effect for the rest of the epoch, then
/// advance.
pub fn effect_3(state: &mut CareerPokerState, player_id: &String, serves: &Vec<Card>) -> (reqs:
    Vec<PortRequest>)
    requires
        old(state).wf(),
        old(state).seated(player_id@),
        old(state).task_seq < u64::MAX,
    ensures
        final(state).wf(),
        core_kept(*old(state), *final(state)),
        piles_kept(*old(state), *final(state)),
        final(state).river == old(state).river,
        final(state).prompts == old(state).prompts,
        final(state).effect.river_size == old(state).effect.river_size,
        final(state).effect.suit_limits == old(state).effect.suit_limits,
        final(state).effect.turn_revoluted == old(state).effect.turn_revoluted,
        final(state).effect.is_step == old(state).effect.is_step,
        final(state).effect.revoluted == old(state).effect.revoluted,
        if old(state).effect.effect_limits@.contains(3u8) {
            final(state).effect.effect_limits == old(state).effect.effect_limits
        } else {
            limits_extended(
                old(state).effect.effect_limits@,
                final(state).effect.effect_limits@,
                1,
                13,
            )
        },
        advance_fields(*old(state), *final(state), *player_id, reqs@),
{
    if !state.effect.is_limited(3) {
        state.effect.add_limits(1, 13);
    }
    state.next(player_id)
}

/// Rank 4: unless suppressed, and only when both the actor's hand and the
/// discard pile are non-empty, prompt the actor to pick cards back from the
/// discard pile; otherwise a plain advance.
pub fn effect_4(state: &mut CareerPokerState, player_id: &String, serves: &Vec<Card>) -> (reqs:
    Vec<PortRequest>)
    requires
        old(state).wf(),
        old(state).seated(player_id@),
        old(state).task_seq < u64::MAX,
    ensures
        final(state).wf(),
        core_kept(*old(state), *final(state)),
        piles_kept(*old(state), *final(state)),
        final(state).river == old(state).river,
        final(state).effect == old(state).effect,
        if !old(state).effect.effect_limits@.contains(4u8) && !old(state).hand_empty(player_id@)
            && old(state).trushes@.len() > 0 {
            &&& final(state).prompts@ == remove_prompt_spec(old(state).prompts@, player_id@).push(
                (*player_id, PromptKind::Trushes),
            )
            &&& flow_kept(*old(state), *final(state), reqs@)
        } else {
            &&& final(state).prompts == old(state).prompts
            &&& advance_fields(*old(state), *final(state), *player_id, reqs@)
        },
{
    if !state.effect.is_limited(4) {
        if state.hand_is_empty(player_id) || state.trushes.0.is_empty() {
            return state.next(player_id);
        }
        state.push_prompt(player_id, PromptKind::Trushes);
        Vec::new()
    } else {
        state.next(player_id)
    }
}

/// Rank 5: unless suppressed, skip the turn `1 + serves.len()` seats
/// onward; a skip that wraps back to the actor (or finds nobody) records a
/// deferred flush instead.
pub fn effect_5(state: &mut CareerPokerState, player_id: &String, serves: &Vec<Card>) -> (reqs:
    Vec<PortRequest>)
    requires
        old(state).wf(),
        old(state).seated(player_id@),
        old(state).task_seq < u64::MAX,
        serves@.len() < 0x1000_0000,
    ensures
        final(state).wf(),
        core_kept(*old(state), *final(state)),
        piles_kept(*old(state), *final(state)),
        final(state).river == old(state).river,
        final(state).effect == old(state).effect,
        final(state).prompts == old(state).prompts,
        if old(state).effect.effect_limits@.contains(5u8) {
            advance_fields(*old(state), *final(state), *player_id, reqs@)
        } else {
            skip_fields(*old(state), *final(state), *player_id, serves@.len() as int, reqs@)
        },
{
    if state.effect.is_limited(5) {
        return state.next(player_id);
    }
    let d: i32 = 1 + (serves.len() as i32);
    let cur = state.get_relative_player(player_id, d);
    let wrapped = match &cur {
        Some(c) => string_eq(c, player_id),
        None => true,
    };
    state.current = cur;
    if wrapped {
        state.will_flush(player_id, FlushTarget::Trushes)
    } else {
        Vec::new()
    }
}

/// Rank 7: unless suppressed, an actor with cards left owes a gift: a
/// prompt to pass cards from the own hand to the seat before them;
/// otherwise a plain advance.
pub fn effect_7(state: &mut CareerPokerState, player_id: &String, serves: &Vec<Card>) -> (reqs:
    Vec<PortRequest>)
    requires
        old(state).wf(),
        old(state).seated(player_id@),
        old(state).task_seq < u64::MAX,
    ensures
        final(state).wf(),
        core_kept(*old(state), *final(state)),
        piles_kept(*old(state), *final(state)),
        final(state).river == old(state).river,
        final(state).effect == old(state).effect,
        if !old(state).effect.effect_limits@.contains(7u8) && !old(state).hand_empty(player_id@) {
            &&& final(state).prompts@ == remove_prompt_spec(old(state).prompts@, player_id@).push(
                (*player_id, PromptKind::Passes),
            )
            &&& flow_kept(*old(state), *final(state), reqs@)
        } else {
            &&& final(state).prompts == old(state).prompts
            &&& advance_fields(*old(state), *final(state), *player_id, reqs@)
        },
{
    if !state.effect.is_limited(7) && !state.hand_is_empty(player_id) {
        state.push_prompt(player_id, PromptKind::Passes);
        Vec::new()
    } else {
        state.next(player_id)
    }
}

/// Rank 8: unless suppressed, record a deferred flush of the play stack to
/// the discard pile; the turn owner stays put (the flush will hand the
/// turn back to the actor, who served last).
pub fn effect_8(state: &mut CareerPokerState, player_id: &String, serves: &Vec<Card>) -> (reqs:
    Vec<PortRequest>)
    requires
        old(state).wf(),
        old(state).seated(player_id@),
        old(state).task_seq < u64::MAX,
    ensures
        final(state).wf(),
        core_kept(*old(state), *final(state)),
        piles_kept(*old(state), *final(state)),
        final(state).river == old(state).river,
        final(state).effect == old(state).effect,
        final(state).prompts == old(state).prompts,
        if old(state).effect.effect_limits@.contains(8u8) {
            advance_fields(*old(state), *final(state), *player_id, reqs@)
        } else {
            &&& final(state).current == old(state).current
            &&& final(state).will_flush_task_id == Some(old(state).task_seq)
            &&& final(state).task_seq == old(state).task_seq + 1
            &&& reqs@ == spec_flush_requests(*old(state), *player_id, FlushTarget::Trushes)
        },
{
    if !state.effect.is_limited(8) {
        state.will_flush(player_id, FlushTarget::Trushes)
    } else {
        state.next(player_id)
    }
}

/// Rank 9: unless suppressed, exchange the fixed pile size between 1 and
/// 3; then advance.
pub fn effect_9(state: &mut CareerPokerState, player_id: &String, serves: &Vec<Card>) -> (reqs:
    Vec<PortRequest>)
    requires
        old(state).wf(),
        old(state).seated(player_id@),
        old(state).task_seq < u64::MAX,
    ensures
        final(state).wf(),
        core_kept(*old(state), *final(state)),
        piles_kept(*old(state), *final(state)),
        final(state).river == old(state).river,
        final(state).prompts == old(state).prompts,
        final(state).effect.suit_limits == old(state).effect.suit_limits,
        final(state).effect.effect_limits == old(state).effect.effect_limits,
        final(state).effect.turn_revoluted == old(state).effect.turn_revoluted,
        final(state).effect.is_step == old(state).effect.is_step,
        final(state).effect.revoluted == old(state).effect.revoluted,
        if old(state).effect.effect_limits@.contains(9u8) {
            final(state).effect.river_size == old(state).effect.river_size
        } else {
            match old(state).effect.river_size {
                Some(k) => river_size_is(final(state).effect, size9(k as int)),
                None => final(state).effect.river_size is None,
            }
        },
        advance_fields(*old(state), *final(state), *player_id, reqs@),
{
    if !state.effect.is_limited(9) {
        state.effect.river_size = match state.effect.river_size {
            Some(1) => Some(3),
            Some(3) => Some(1),
            other => other,
        };
    }
    state.next(player_id)
}

/// Rank 10: suppress the effects of ranks 1 through 9 for the rest of the
/// epoch, then advance.
pub fn effect_10(state: &mut CareerPokerState, player_id: &String, serves: &Vec<Card>) -> (reqs:
    Vec<PortRequest>)
    requires
        old(state).wf(),
        old(state).seated(player_id@),
        old(state).task_seq < u64::MAX,
    ensures
        final(state).wf(),
        core_kept(*old(state), *final(state)),
        piles_kept(*old(state), *final(state)),
        final(state).river == old(state).river,
        final(state).prompts == old(state).prompts,
        final(state).effect.river_size == old(state).effect.river_size,
        final(state).effect.suit_limits == old(state).effect.suit_limits,
        final(state).effect.turn_revoluted == old(state).effect.turn_revoluted,
        final(state).effect.is_step == old(state).effect.is_step,
        final(state).effect.revoluted == old(state).effect.revoluted,
        if old(state).effect.effect_limits@.contains(10u8) {
            final(state).effect.effect_limits == old(state).effect.effect_limits
        } else {
            limits_extended(
                old(state).effect.effect_limits@,
                final(state).effect.effect_limits@,
                1,
                9,
            )
        },
        advance_fields(*old(state), *final(state), *player_id, reqs@),
{
    if !state.effect.is_limited(10) {
        state.effect.add_limits(1, 9);
    }
    state.next(player_id)
}

/// Rank 11: unless suppressed, reverse the ordering for the rest of the
/// epoch; then advance.
pub fn effect_11(state: &mut CareerPokerState, player_id: &String, serves: &Vec<Card>) -> (reqs:
    Vec<PortRequest>)
    requires
        old(state).wf(),
        old(state).seated(player_id@),
        old(state).task_seq < u64::MAX,
    ensures
        final(state).wf(),
        core_kept(*old(state), *final(state)),
        piles_kept(*old(state), *final(state)),
        final(state).river == old(state).river,
        final(state).prompts == old(state).prompts,
        final(state).effect.river_size == old(state).effect.river_size,
        final(state).effect.suit_limits == old(state).effect.suit_limits,
        final(state).effect.effect_limits == old(state).effect.effect_limits,
        final(state).effect.is_step == old(state).effect.is_step,
        final(state).effect.revoluted == old(state).effect.revoluted,
        final(state).effect.turn_revoluted == (if old(state).effect.effect_limits@.contains(11u8) {
            old(state).effect.turn_revoluted
        } else {
            true
        }),
        advance_fields(*old(state), *final(state), *player_id, reqs@),
{
    if !state.effect.is_limited(11) {
        state.effect.turn_revoluted = true;
    }
    state.next(player_id)
}

/// Rank 12: unless suppressed, demand exact rank steps and restrict the
/// epoch to the played suits; then advance.
pub fn effect_12(state: &mut CareerPokerState, player_id: &String, serves: &Vec<Card>) -> (reqs:
    Vec<PortRequest>)
    requires
        old(state).wf(),
        old(state).seated(player_id@),
        old(state).task_seq < u64::MAX,
    ensures
        final(state).wf(),
        core_kept(*old(state), *final(state)),
        piles_kept(*old(state), *final(state)),
        final(state).river == old(state).river,
        final(state).prompts == old(state).prompts,
        final(state).effect.river_size == old(state).effect.river_size,
        final(state).effect.effect_limits == old(state).effect.effect_limits,
        final(state).effect.turn_revoluted == old(state).effect.turn_revoluted,
        final(state).effect.revoluted == old(state).effect.revoluted,
        if old(state).effect.effect_limits@.contains(12u8) {
            final(state).effect.is_step == old(state).effect.is_step
                && final(state).effect.suit_limits == old(state).effect.suit_limits
        } else {
            final(state).effect.is_step && suit_limits_extended(
                old(state).effect.suit_limits@,
                final(state).effect.suit_limits@,
                serves@,
            )
        },
        advance_fields(*old(state), *final(state), *player_id, reqs@),
{
    if !state.effect.is_limited(12) {
        state.effect.is_step = true;
        let played = suits(serves);
        let ghost before = state.effect.suit_limits@;
        let mut i: usize = 0;
        while i < played.len()
            invariant
                i <= played@.len(),
                state.effect.suit_limits@ == before + played@.take(i as int),
                state.effect.river_size == old(state).effect.river_size,
                state.effect.effect_limits == old(state).effect.effect_limits,
                state.effect.turn_revoluted == old(state).effect.turn_revoluted,
                state.effect.revoluted == old(state).effect.revoluted,
                state.effect.is_step,
                core_kept(*old(state), *state),
                piles_kept(*old(state), *state),
                state.river == old(state).river,
                state.prompts == old(state).prompts,
                state.current == old(state).current,
                state.will_flush_task_id == old(state).will_flush_task_id,
                state.task_seq == old(state).task_seq,
                state.players == old(state).players,
            decreases played@.len() - i,
        {
            state.effect.suit_limits.push(played[i]);
            proof {
                assert(before + played@.take(i + 1 as int) =~= (before + played@.take(
                    i as int,
                )).push(played@[i as int]));
            }
            i += 1;
        }
        proof {
            assert(played@.take(played@.len() as int) =~= played@);
            let limits = state.effect.suit_limits@;
            assert forall|t: Suit| #[trigger]
                limits.contains(t) <==> (before.contains(t) || (t != Suit::UnSuited && has_suit(
                    serves@,
                    t,
                ))) by {
                assert(played@.contains(t) <==> (t != Suit::UnSuited && has_suit(serves@, t)));
                if limits.contains(t) {
                    let k = choose|k: int| 0 <= k < limits.len() && limits[k] == t;
                    if k < before.len() {
                        assert(before[k] == t);
                    } else {
                        assert(played@[k - before.len()] == t);
                    }
                }
                if before.contains(t) {
                    let m = choose|m: int| 0 <= m < before.len() && before[m] == t;
                    assert(limits[m] == t);
                }
                if t != Suit::UnSuited && has_suit(serves@, t) {
                    assert(played@.contains(t));
                    let m = choose|m: int| 0 <= m < played@.len() && played@[m] == t;
                    assert(limits[before.len() + m] == t);
                }
            }
        }
    }
    state.next(player_id)
}

/// Rank 13: unless suppressed, and only when both the actor's hand and the
/// exclusion pile are non-empty, prompt the actor to pick cards back from
/// the exclusion pile; otherwise a plain advance.
pub fn effect_13(state: &mut CareerPokerState, player_id: &String, serves: &Vec<Card>) -> (reqs:
    Vec<PortRequest>)
    requires
        old(state).wf(),
        old(state).seated(player_id@),
        old(state).task_seq < u64::MAX,
    ensures
        final(state).wf(),
        core_kept(*old(state), *final(state)),
        piles_kept(*old(state), *final(state)),
        final(state).river == old(state).river,
        final(state).effect == old(state).effect,
        if !old(state).effect.effect_limits@.contains(13u8) && !old(state).hand_empty(player_id@)
            && old(state).excluded@.len() > 0 {
            &&& final(state).prompts@ == remove_prompt_spec(old(state).prompts@, player_id@).push(
                (*player_id, PromptKind::Excluded),
            )
            &&& flow_kept(*old(state), *final(state), reqs@)
        } else {
            &&& final(state).prompts == old(state).prompts
            &&& advance_fields(*old(state), *final(state), *player_id, reqs@)
        },
{
    if !state.effect.is_limited(13) {
        if state.hand_is_empty(player_id) || state.excluded.0.is_empty() {
            return state.next(player_id);
        }
        state.push_prompt(player_id, PromptKind::Excluded);
        Vec::new()
    } else {
        state.next(player_id)
    }
}

/// Rank 2: unless suppressed, the play stack (the played cards included)
/// is flushed at once into the exclusion pile and the turn returns to the
/// server; otherwise a plain advance.
pub fn effect_2(state: &mut CareerPokerState, player_id: &String, serves: &Vec<Card>) -> (reqs:
    Vec<PortRequest>)
    requires
        old(state).wf(),
        old(state).seated(player_id@),
        old(state).task_seq < u64::MAX,
    ensures
        final(state).wf(),
        if old(state).effect.effect_limits@.contains(2u8) {
            &&& core_kept(*old(state), *final(state))
            &&& piles_kept(*old(state), *final(state))
            &&& final(state).river == old(state).river
            &&& final(state).effect == old(state).effect
            &&& final(state).prompts == old(state).prompts
            &&& advance_fields(*old(state), *final(state), *player_id, reqs@)
        } else {
            &&& flush_post(*old(state), *final(state), FlushTarget::Excluded)
            &&& reqs@.len() == 0
        },
{
    if state.effect.is_limited(2) {
        state.next(player_id)
    } else {
        state.flush(FlushTarget::Excluded);
        Vec::new()
    }
}

/// Everything a validated play does after it is pushed onto the stack.
///
/// Always: the pile size is fixed to the play's size, a size-4 play toggles
/// the persistent revolution, and the play joins the stack.  Then, unless
/// the play's rank is on the suppression ledger, the rank's effect fires;
/// the fired effect decides whether the turn advances normally, a prompt or
/// a deferred flush blocks it, or (rank 2) the stack is flushed at once
/// into the exclusion pile.
pub open spec fn effect_card_post(
    pre: CareerPokerState,
    post: CareerPokerState,
    p: String,
    serves: Seq<Card>,
    reqs: Seq<PortRequest>,
) -> bool {
    let n = spec_number(serves);
    let limited = pre.effect.effect_limits@.contains(n);
    &&& core_kept(pre, post)
    &&& post.effect.revoluted == (if serves.len() == 4 {
        !pre.effect.revoluted
    } else {
        pre.effect.revoluted
    })
    &&& if !limited && n == 2 {
        &&& post.excluded@ == pre.excluded@ + flat_piles(piles(pre.river@)) + serves
        &&& post.trushes == pre.trushes
        &&& post.river@.len() == 0
        &&& effect_cleared(post.effect)
        &&& post.prompts == pre.prompts
        &&& post.current == pre.last_served_player_id
        &&& post.will_flush_task_id is None
        &&& post.task_seq == pre.task_seq
        &&& reqs.len() == 0
    } else {
        &&& piles(post.river@) == piles(pre.river@).push(serves)
        &&& piles_kept(pre, post)
        &&& river_size_is(
            post.effect,
            if !limited && n == 9 {
                size9(serves.len() as int)
            } else {
                serves.len() as int
            },
        )
        &&& if !limited && n == 3 {
            limits_extended(pre.effect.effect_limits@, post.effect.effect_limits@, 1, 13)
        } else if !limited && n == 10 {
            limits_extended(pre.effect.effect_limits@, post.effect.effect_limits@, 1, 9)
        } else {
            post.effect.effect_limits == pre.effect.effect_limits
        }
        &&& post.effect.turn_revoluted == (if !limited && n == 11 {
            true
        } else {
            pre.effect.turn_revoluted
        })
        &&& post.effect.is_step == (if !limited && n == 12 {
            true
        } else {
            pre.effect.is_step
        })
        &&& if !limited && n == 12 {
            suit_limits_extended(pre.effect.suit_limits@, post.effect.suit_limits@, serves)
        } else {
            post.effect.suit_limits == pre.effect.suit_limits
        }
        &&& if !limited && n == 4 && pre.hand_of(p@).len() > 0 && pre.trushes@.len() > 0 {
            &&& post.prompts@ == remove_prompt_spec(pre.prompts@, p@).push((p, PromptKind::Trushes))
            &&& flow_kept(pre, post, reqs)
        } else if !limited && n == 7 && pre.hand_of(p@).len() > 0 {
            &&& post.prompts@ == remove_prompt_spec(pre.prompts@, p@).push((p, PromptKind::Passes))
            &&& flow_kept(pre, post, reqs)
        } else if !limited && n == 13 && pre.hand_of(p@).len() > 0 && pre.excluded@.len() > 0 {
            &&& post.prompts@ == remove_prompt_spec(pre.prompts@, p@).push((p, PromptKind::Excluded))
            &&& flow_kept(pre, post, reqs)
        } else if !limited && n == 5 {
            &&& post.prompts == pre.prompts
            &&& skip_fields(pre, post, p, serves.len() as int, reqs)
        } else if !limited && n == 8 {
            &&& post.prompts == pre.prompts
            &&& post.current == pre.current
            &&& post.will_flush_task_id == Some(pre.task_seq)
            &&& post.task_seq == pre.task_seq + 1
            &&& reqs == spec_flush_requests(pre, p, FlushTarget::Trushes)
        } else {
            &&& post.prompts == pre.prompts
            &&& advance_fields(pre, post, p, reqs)
        }
    }
}

/// Push the validated play onto the stack and fire its rank effect (see
/// [`effect_card_post`]).
pub fn effect_card(state: &mut CareerPokerState, player_id: &String, serves: &Vec<Card>) -> (reqs:
    Vec<PortRequest>)
    requires
        old(state).wf(),
        old(state).seated(player_id@),
        old(state).task_seq < u64::MAX,
        serves@.len() < 0x1000_0000,
    ensures
        final(state).wf(),
        effect_card_post(*old(state), *final(state), *player_id, serves@, reqs@),
{
    let ghost pre = *old(state);
    state.effect.river_size = Some(serves.len());
    effect_revolution(state, player_id, serves);
    state.river.push(Deck::new(copy_cards(serves)));
    proof {
        assert(piles(state.river@) =~= piles(pre.river@).push(serves@));
    }
    let n = number(serves);
    let reqs = match n {
        2 => effect_2(state, player_id, serves),
        3 => effect_3(state, player_id, serves),
        4 => effect_4(state, player_id, serves),
        5 => effect_5(state, player_id, serves),
        7 => effect_7(state, player_id, serves),
        8 => effect_8(state, player_id, serves),
        9 => effect_9(state, player_id, serves),
        10 => effect_10(state, player_id, serves),
        11 => effect_11(state, player_id, serves),
        12 => effect_12(state, player_id, serves),
        13 => effect_13(state, player_id, serves),
        _ => state.next(player_id),
    };
    proof {
        if n == 2 && !pre.effect.effect_limits@.contains(2u8) {
            assert((piles(pre.river@).push(serves@)).drop_last() =~= piles(pre.river@));
            assert(flat_piles(piles(pre.river@).push(serves@)) == flat_piles(piles(pre.river@))
                + serves@);
            assert(state.excluded@ =~= pre.excluded@ + flat_piles(piles(pre.river@)) + serves@);
        }
    }
    reqs
}

/// The state between serve validation and the effect dispatch: the played
/// cards left the actor's hand and the actor became the server of record.
pub open spec fn serve_mid(
    pre: CareerPokerState,
    mid: CareerPokerState,
    p: String,
    serves: Seq<Card>,
) -> bool {
    let pos = spec_position(pre.players@, p@)->Some_0;
    &&& mid.fields@.len() == pre.fields@.len()
    &&& mid.fields@[pos]@ == remove_seq(pre.fields@[pos]@, serves)
    &&& (forall|i: int|
        0 <= i < pre.fields@.len() && i != pos ==> mid.fields@[i] == pre.fields@[i])
    &&& mid.last_served_player_id == Some(p)
    &&& mid.players == pre.players
    &&& mid.room_id == pre.room_id
    &&& mid.current == pre.current
    &&& mid.trushes == pre.trushes
    &&& mid.excluded == pre.excluded
    &&& mid.river == pre.river
    &&& mid.will_flush_task_id == pre.will_flush_task_id
    &&& mid.task_seq == pre.task_seq
    &&& mid.effect == pre.effect
    &&& mid.prompts == pre.prompts
}

/// What a serve does, error cases included: rejected unless the actor is
/// seated, on turn (or no turn is fixed), no selection is still owed, the
/// non-empty play passes serve validation, and the actor holds every card
/// played; an accepted play leaves the hand, makes the actor the server of
/// record, and fires the effect dispatch.
pub open spec fn serve_post(
    pre: CareerPokerState,
    post: CareerPokerState,
    p: String,
    serves: Seq<Card>,
    r: Result<Vec<PortRequest>, GameError>,
) -> bool {
    if !pre.seated(p@) {
        r == Result::<Vec<PortRequest>, GameError>::Err(GameError::UnknownPlayer) && post == pre
    } else if turn_of_other(pre, p@) {
        r == Result::<Vec<PortRequest>, GameError>::Err(GameError::NotYourTurn) && post == pre
    } else if pre.prompts@.len() > 0 {
        r == Result::<Vec<PortRequest>, GameError>::Err(GameError::PromptMismatch) && post == pre
    } else if serves.len() == 0 || !spec_servable(pre, serves) || !contains_all(
        pre.hand_of(p@),
        serves,
    ) {
        r == Result::<Vec<PortRequest>, GameError>::Err(GameError::InvalidPlay) && post == pre
    } else {
        match r {
            Ok(reqs) => exists|mid: CareerPokerState|
                #[trigger] serve_mid(pre, mid, p, serves) && effect_card_post(
                    mid,
                    post,
                    p,
                    serves,
                    reqs@,
                ),
            Err(_) => false,
        }
    }
}

impl CareerPokerState {
    /// Play `serves` from `player_id`'s hand onto the stack.
    pub fn serve(&mut self, player_id: String, serves: Vec<Card>) -> (r: Result<
        Vec<PortRequest>,
        GameError,
    >)
        requires
            old(self).wf(),
            old(self).task_seq < u64::MAX,
            serves@.len() < 0x1000_0000,
        ensures
            final(self).wf(),
            serve_post(*old(self), *final(self), player_id, serves@, r),
    {
        let ghost pre = *old(self);
        let pos = match position_of(&self.players, &player_id) {
            None => {
                return Err(GameError::UnknownPlayer);
            },
            Some(i) => i,
        };
        let other = match &self.current {
            Some(c) => !string_eq(c, &player_id),
            None => false,
        };
        if other {
            return Err(GameError::NotYourTurn);
        }
        if self.prompts.len() > 0 {
            return Err(GameError::PromptMismatch);
        }
        if serves.len() == 0 {
            return Err(GameError::InvalidPlay);
        }
        if !servable(self, &serves) {
            return Err(GameError::InvalidPlay);
        }
        let mut probe = copy_cards(&self.fields[pos].0);
        match remove_cards(&mut probe, &serves) {
            Err(e) => {
                return Err(e);
            },
            Ok(()) => {
            },
        }
        remove_items(&mut self.fields[pos].0, &serves);
        self.last_served_player_id = Some(player_id.clone());
        let ghost mid = *self;
        proof {
            assert(serve_mid(pre, mid, player_id, serves@));
        }
        let reqs = effect_card(self, &player_id, &serves);
        proof {
            assert(serve_mid(pre, mid, player_id, serves@) && effect_card_post(
                mid,
                *self,
                player_id,
                serves@,
                reqs@,
            ));
        }
        Ok(reqs)
    }
}

/// Whether `p` owes a selection from the pool `k`.
pub open spec fn has_prompt(prompts: Seq<(String, PromptKind)>, p: Seq<char>, k: PromptKind) -> bool {
    exists|i: int| 0 <= i < prompts.len() && (#[trigger] prompts[i]).0@ == p && prompts[i].1 == k
}

/// The prompt list with `p`'s first entry settled (any kind), others kept.
pub open spec fn remove_prompt_spec(prompts: Seq<(String, PromptKind)>, p: Seq<char>) -> Seq<
    (String, PromptKind),
>
    decreases prompts.len(),
{
    if prompts.len() == 0 {
        prompts
    } else if prompts[0].0@ == p {
        prompts.skip(1)
    } else {
        seq![prompts[0]] + remove_prompt_spec(prompts.skip(1), p)
    }
}

proof fn lemma_remove_prompt_found(prompts: Seq<(String, PromptKind)>, p: Seq<char>, i: int)
    requires
        0 <= i < prompts.len(),
        prompts[i].0@ == p,
        forall|j: int| 0 <= j < i ==> (#[trigger] prompts[j]).0@ != p,
    ensures
        remove_prompt_spec(prompts, p) == prompts.remove(i),
    decreases i,
{
    if i == 0 {
        assert(remove_prompt_spec(prompts, p) =~= prompts.remove(0));
    } else {
        assert(prompts[0].0@ != p);
        assert(prompts.skip(1)[i - 1] == prompts[i]);
        assert forall|j: int| 0 <= j < i - 1 implies (#[trigger] prompts.skip(1)[j]).0@ != p by {
            assert(prompts.skip(1)[j] == prompts[j + 1]);
        }
        lemma_remove_prompt_found(prompts.skip(1), p, i - 1);
        assert(seq![prompts[0]] + prompts.skip(1).remove(i - 1) =~= prompts.remove(i));
    }
}

proof fn lemma_remove_prompt_absent(prompts: Seq<(String, PromptKind)>, p: Seq<char>)
    requires
        forall|j: int| 0 <= j < prompts.len() ==> (#[trigger] prompts[j]).0@ != p,
    ensures
        remove_prompt_spec(prompts, p) == prompts,
    decreases prompts.len(),
{
    if prompts.len() > 0 {
        assert forall|j: int|
            0 <= j < prompts.skip(1).len() implies (#[trigger] prompts.skip(1)[j]).0@ != p by {
            assert(prompts.skip(1)[j] == prompts[j + 1]);
        }
        lemma_remove_prompt_absent(prompts.skip(1), p);
        assert(seq![prompts[0]] + prompts.skip(1) =~= prompts);
    }
}

impl CareerPokerState {
    /// Whether `player_id` owes a selection from `kind`'s pool.
    fn prompt_pending(&self, player_id: &String, kind: PromptKind) -> (r: bool)
        ensures
            r == has_prompt(self.prompts@, player_id@, kind),
    {
        let mut i: usize = 0;
        while i < self.prompts.len()
            invariant
                i <= self.prompts@.len(),
                forall|j: int|
                    0 <= j < i ==> !((#[trigger] self.prompts@[j]).0@ == player_id@
                        && self.prompts@[j].1 == kind),
            decreases self.prompts@.len() - i,
        {
            let hit = string_eq(&self.prompts[i].0, player_id) && match (self.prompts[i].1, kind) {
                (PromptKind::Trushes, PromptKind::Trushes) => true,
                (PromptKind::Excluded, PromptKind::Excluded) => true,
                (PromptKind::Passes, PromptKind::Passes) => true,
                _ => false,
            };
            if hit {
                return true;
            }
            i += 1;
        }
        false
    }

    /// Settle `player_id`'s outstanding prompt, if any.
    fn remove_prompt(&mut self, player_id: &String)
        ensures
            final(self).prompts@ == remove_prompt_spec(old(self).prompts@, player_id@),
            core_kept(*old(self), *final(self)),
            piles_kept(*old(self), *final(self)),
            final(self).river == old(self).river,
            final(self).effect == old(self).effect,
            final(self).current == old(self).current,
            final(self).will_flush_task_id == old(self).will_flush_task_id,
            final(self).task_seq == old(self).task_seq,
    {
        let ghost s = self.prompts@;
        let mut i: usize = 0;
        while i < self.prompts.len()
            invariant
                i <= s.len(),
                s == old(self).prompts@,
                self.prompts@ == s,
                forall|j: int| 0 <= j < i ==> (#[trigger] s[j]).0@ != player_id@,
                core_kept(*old(self), *self),
                piles_kept(*old(self), *self),
                self.river == old(self).river,
                self.effect == old(self).effect,
                self.current == old(self).current,
                self.will_flush_task_id == old(self).will_flush_task_id,
                self.task_seq == old(self).task_seq,
            decreases s.len() - i,
        {
            if string_eq(&self.prompts[i].0, player_id) {
                self.prompts.remove(i);
                proof {
                    lemma_remove_prompt_found(s, player_id@, i as int);
                }
                return ;
            }
            i += 1;
        }
        proof {
            lemma_remove_prompt_absent(s, player_id@);
        }
    }
}

/// Whether a selection of `len` cards answers the pile in play (it must
/// match the in-play pile's size exactly).
pub open spec fn selection_fits(pre: CareerPokerState, len: int) -> bool {
    pre.river@.len() > 0 && pre.river@.last()@.len() == len
}

/// The state between a pool selection and the turn advance: `serves` moved
/// from the pool `kind` into the actor's hand and the prompt was settled.
pub open spec fn select_mid(
    pre: CareerPokerState,
    mid: CareerPokerState,
    p: String,
    serves: Seq<Card>,
    kind: PromptKind,
) -> bool {
    let pos = spec_position(pre.players@, p@)->Some_0;
    &&& (kind == PromptKind::Trushes ==> mid.trushes@ == remove_seq(pre.trushes@, serves)
        && mid.excluded == pre.excluded)
    &&& (kind == PromptKind::Excluded ==> mid.excluded@ == remove_seq(pre.excluded@, serves)
        && mid.trushes == pre.trushes)
    &&& mid.fields@.len() == pre.fields@.len()
    &&& mid.fields@[pos]@ == pre.fields@[pos]@ + serves
    &&& (forall|i: int|
        0 <= i < pre.fields@.len() && i != pos ==> mid.fields@[i] == pre.fields@[i])
    &&& mid.prompts@ == remove_prompt_spec(pre.prompts@, p@)
    &&& mid.players == pre.players
    &&& mid.room_id == pre.room_id
    &&& mid.current == pre.current
    &&& mid.river == pre.river
    &&& mid.will_flush_task_id == pre.will_flush_task_id
    &&& mid.task_seq == pre.task_seq
    &&& mid.effect == pre.effect
    &&& mid.last_served_player_id == pre.last_served_player_id
}

/// What answering a rank-4 or rank-13 prompt does, error cases included:
/// rejected unless the actor is seated, owes exactly this prompt, the
/// selection matches the in-play pile's size, and the pool holds every
/// selected card; an accepted selection moves the cards from the pool into
/// the hand, settles the prompt and advances the turn.
pub open spec fn select_pool_post(
    pre: CareerPokerState,
    post: CareerPokerState,
    p: String,
    serves: Seq<Card>,
    kind: PromptKind,
    r: Result<Vec<PortRequest>, GameError>,
) -> bool {
    let pool = if kind == PromptKind::Excluded {
        pre.excluded@
    } else {
        pre.trushes@
    };
    if !pre.seated(p@) {
        r == Result::<Vec<PortRequest>, GameError>::Err(GameError::UnknownPlayer) && post == pre
    } else if !has_prompt(pre.prompts@, p@, kind) || !selection_fits(pre, serves.len() as int) {
        r == Result::<Vec<PortRequest>, GameError>::Err(GameError::PromptMismatch) && post == pre
    } else if !contains_all(pool, serves) {
        r == Result::<Vec<PortRequest>, GameError>::Err(GameError::InvalidPlay) && post == pre
    } else {
        match r {
            Ok(reqs) => exists|mid: CareerPokerState|
                #[trigger] select_mid(pre, mid, p, serves, kind) && next_post(
                    mid,
                    post,
                    p,
                    reqs@,
                ),
            Err(_) => false,
        }
    }
}

impl CareerPokerState {
    /// Shared body of the two pool selections; `kind` picks the pool.
    fn select_pool(&mut self, player_id: String, serves: Vec<Card>, kind: PromptKind) -> (r:
        Result<Vec<PortRequest>, GameError>)
        requires
            old(self).wf(),
            old(self).task_seq < u64::MAX,
            kind != PromptKind::Passes,
        ensures
            final(self).wf(),
            select_pool_post(*old(self), *final(self), player_id, serves@, kind, r),
    {
        let ghost pre = *old(self);
        let pos = match position_of(&self.players, &player_id) {
            None => {
                return Err(GameError::UnknownPlayer);
            },
            Some(i) => i,
        };
        if !self.prompt_pending(&player_id, kind) {
            return Err(GameError::PromptMismatch);
        }
        if self.river.len() == 0 {
            return Err(GameError::PromptMismatch);
        }
        let last_idx = self.river.len() - 1;
        if self.river[last_idx].0.len() != serves.len() {
            proof {
                assert(pre.river@.last() == pre.river@[last_idx as int]);
            }
            return Err(GameError::PromptMismatch);
        }
        proof {
            assert(pre.river@.last() == pre.river@[last_idx as int]);
        }
        let mut probe = match kind {
            PromptKind::Excluded => copy_cards(&self.excluded.0),
            _ => copy_cards(&self.trushes.0),
        };
        match remove_cards(&mut probe, &serves) {
            Err(e) => {
                return Err(e);
            },
            Ok(()) => {
            },
        }
        match kind {
            PromptKind::Excluded => {
                remove_items(&mut self.excluded.0, &serves);
            },
            _ => {
                remove_items(&mut self.trushes.0, &serves);
            },
        }
        extend_cards(&mut self.fields[pos].0, &serves);
        self.remove_prompt(&player_id);
        let ghost mid = *self;
        proof {
            assert(select_mid(pre, mid, player_id, serves@, kind));
        }
        let reqs = self.next(&player_id);
        proof {
            assert(select_mid(pre, mid, player_id, serves@, kind) && next_post(
                mid,
                *self,
                player_id,
                reqs@,
            ));
        }
        Ok(reqs)
    }

    /// Answer a rank-4 prompt: take the selected cards back from the
    /// discard pile.
    pub fn select_trushes(&mut self, player_id: String, serves: Vec<Card>) -> (r: Result<
        Vec<PortRequest>,
        GameError,
    >)
        requires
            old(self).wf(),
            old(self).task_seq < u64::MAX,
        ensures
            final(self).wf(),
            select_pool_post(
                *old(self),
                *final(self),
                player_id,
                serves@,
                PromptKind::Trushes,
                r,
            ),
    {
        self.select_pool(player_id, serves, PromptKind::Trushes)
    }

    /// Answer a rank-13 prompt: take the selected cards back from the
    /// exclusion pile.
    pub fn select_excluded(&mut self, player_id: String, serves: Vec<Card>) -> (r: Result<
        Vec<PortRequest>,
        GameError,
    >)
        requires
            old(self).wf(),
            old(self).task_seq < u64::MAX,
        ensures
            final(self).wf(),
            select_pool_post(
                *old(self),
                *final(self),
                player_id,
                serves@,
                PromptKind::Excluded,
                r,
            ),
    {
        self.select_pool(player_id, serves, PromptKind::Excluded)
    }
}

/// The state between a rank-7 gift and the turn advance: `serves` moved
/// from the actor's hand to the hand of the seat before them (found
/// skipping empty hands), and the prompt was settled.
pub open spec fn select_passes_mid(
    pre: CareerPokerState,
    mid: CareerPokerState,
    p: String,
    serves: Seq<Card>,
) -> bool {
    let pos = spec_position(pre.players@, p@)->Some_0;
    let left = spec_relative(pre, p@, -1)->Some_0;
    let lpos = spec_position(pre.players@, left@)->Some_0;
    &&& mid.fields@.len() == pre.fields@.len()
    &&& (lpos != pos ==> mid.fields@[pos]@ == remove_seq(pre.fields@[pos]@, serves)
        && mid.fields@[lpos]@ == pre.fields@[lpos]@ + serves)
    &&& (lpos == pos ==> mid.fields@[pos]@ == remove_seq(pre.fields@[pos]@, serves) + serves)
    &&& (forall|i: int|
        0 <= i < pre.fields@.len() && i != pos && i != lpos ==> mid.fields@[i]
            == pre.fields@[i])
    &&& mid.prompts@ == remove_prompt_spec(pre.prompts@, p@)
    &&& mid.players == pre.players
    &&& mid.room_id == pre.room_id
    &&& mid.current == pre.current
    &&& mid.trushes == pre.trushes
    &&& mid.excluded == pre.excluded
    &&& mid.river == pre.river
    &&& mid.will_flush_task_id == pre.will_flush_task_id
    &&& mid.task_seq == pre.task_seq
    &&& mid.effect == pre.effect
    &&& mid.last_served_player_id == pre.last_served_player_id
}

/// What answering a rank-7 prompt does, error cases included: rejected
/// unless the actor is seated, owes the gift prompt, the selection matches
/// the in-play pile's size, a recipient exists, and the hand holds every
/// selected card; an accepted gift moves the cards from the actor's hand
/// to the seat before them, settles the prompt and advances the turn.
pub open spec fn select_passes_post(
    pre: CareerPokerState,
    post: CareerPokerState,
    p: String,
    serves: Seq<Card>,
    r: Result<Vec<PortRequest>, GameError>,
) -> bool {
    if !pre.seated(p@) {
        r == Result::<Vec<PortRequest>, GameError>::Err(GameError::UnknownPlayer) && post == pre
    } else if !has_prompt(pre.prompts@, p@, PromptKind::Passes) || !selection_fits(
        pre,
        serves.len() as int,
    ) || spec_relative(pre, p@, -1) is None {
        r == Result::<Vec<PortRequest>, GameError>::Err(GameError::PromptMismatch) && post == pre
    } else if !contains_all(pre.hand_of(p@), serves) {
        r == Result::<Vec<PortRequest>, GameError>::Err(GameError::InvalidPlay) && post == pre
    } else {
        match r {
            Ok(reqs) => exists|mid: CareerPokerState|
                #[trigger] select_passes_mid(pre, mid, p, serves) && next_post(
                    mid,
                    post,
                    p,
                    reqs@,
                ),
            Err(_) => false,
        }
    }
}

impl CareerPokerState {
    /// Answer a rank-7 prompt: gift the selected cards from the own hand to
    /// the seat before the actor.
    pub fn select_passes(&mut self, player_id: String, serves: Vec<Card>) -> (r: Result<
        Vec<PortRequest>,
        GameError,
    >)
        requires
            old(self).wf(),
            old(self).task_seq < u64::MAX,
        ensures
            final(self).wf(),
            select_passes_post(*old(self), *final(self), player_id, serves@, r),
    {
        let ghost pre = *old(self);
        let pos = match position_of(&self.players, &player_id) {
            None => {
                return Err(GameError::UnknownPlayer);
            },
            Some(i) => i,
        };
        if !self.prompt_pending(&player_id, PromptKind::Passes) {
            return Err(GameError::PromptMismatch);
        }
        if self.river.len() == 0 {
            return Err(GameError::PromptMismatch);
        }
        let last_idx = self.river.len() - 1;
        proof {
            assert(pre.river@.last() == pre.river@[last_idx as int]);
        }
        if self.river[last_idx].0.len() != serves.len() {
            return Err(GameError::PromptMismatch);
        }
        let left = match self.get_relative_player(&player_id, -1) {
            None => {
                return Err(GameError::PromptMismatch);
            },
            Some(l) => l,
        };
        let lpos = match position_of(&self.players, &left) {
            None => {
                // unreachable: the scan only ever answers with a seated player
                proof {
                    lemma_relative_is_seated(pre, player_id@, -1);
                    assert(false);
                }
                return Err(GameError::PromptMismatch);
            },
            Some(i) => i,
        };
        let mut probe = copy_cards(&self.fields[pos].0);
        match remove_cards(&mut probe, &serves) {
            Err(e) => {
                return Err(e);
            },
            Ok(()) => {
            },
        }
        remove_items(&mut self.fields[pos].0, &serves);
        extend_cards(&mut self.fields[lpos].0, &serves);
        self.remove_prompt(&player_id);
        let ghost mid = *self;
        proof {
            lemma_relative_is_seated(pre, player_id@, -1);
            assert(select_passes_mid(pre, mid, player_id, serves@));
        }
        let reqs = self.next(&player_id);
        proof {
            assert(select_passes_mid(pre, mid, player_id, serves@) && next_post(
                mid,
                *self,
                player_id,
                reqs@,
            ));
        }
        Ok(reqs)
    }
}

/// A seat found by the wrap-around scan carries a name that is seated; the
/// scan only ever answers out of `players`.
proof fn lemma_scan_is_seated(
    players: Seq<String>,
    fields: Seq<Deck>,
    pos: int,
    delta: int,
    stop: int,
)
    requires
        players.len() > 0,
        spec_scan(players, fields, pos, delta, stop) is Some,
    ensures
        exists|i: int|
            0 <= i < players.len() && players[i] == spec_scan(
                players,
                fields,
                pos,
                delta,
                stop,
            )->Some_0,
    decreases stop - delta + 1,
{
    if delta > stop {
    } else {
        let idx = (pos + delta) % (players.len() as int);
        if fields[idx]@.len() > 0 {
        } else {
            lemma_scan_is_seated(players, fields, pos, delta + 1, stop);
        }
    }
}

/// The player the turn scan lands on is seated.
proof fn lemma_relative_is_seated(s: CareerPokerState, p: Seq<char>, d: int)
    requires
        spec_relative(s, p, d) is Some,
    ensures
        spec_position(s.players@, spec_relative(s, p, d)->Some_0@) is Some,
{
    let found = spec_relative(s, p, d)->Some_0;
    let pos = spec_position(s.players@, p)->Some_0;
    lemma_scan_is_seated(
        s.players@,
        s.fields@,
        pos,
        d,
        scan_stop(d, s.players@.len() as int),
    );
    let i = choose|i: int| 0 <= i < s.players@.len() && s.players@[i] == found;
    lemma_position_prefix_some(s.players@, found@, i);
}

/// If some seat carries name `q`, `spec_position` finds a seat for `q`.
proof fn lemma_position_prefix_some(ps: Seq<String>, q: Seq<char>, i: int)
    requires
        0 <= i < ps.len(),
        ps[i]@ == q,
    ensures
        spec_position(ps, q) is Some,
    decreases i,
{
    if ps[0]@ == q {
    } else {
        assert(ps.skip(1)[i - 1] == ps[i]);
        lemma_position_prefix_some(ps.skip(1), q, i - 1);
    }
}

/// How many hands still hold cards.
pub open spec fn active_count(fields: Seq<Deck>) -> int
    decreases fields.len(),
{
    if fields.len() == 0 {
        0
    } else {
        active_count(fields.drop_last()) + if fields.last()@.len() > 0 {
            1int
        } else {
            0int
        }
    }
}

/// The number of players whose hands are non-empty.
pub fn count_active_players(fields: &Vec<Deck>) -> (r: usize)
    ensures
        r as int == active_count(fields@),
        r <= fields@.len(),
{
    let mut count: usize = 0;
    let mut i: usize = 0;
    while i < fields.len()
        invariant
            i <= fields@.len(),
            count as int == active_count(fields@.take(i as int)),
            count <= i,
        decreases fields@.len() - i,
    {
        if !fields[i].0.is_empty() {
            count += 1;
        }
        proof {
            assert(fields@.take(i + 1 as int).drop_last() =~= fields@.take(i as int));
            assert(fields@.take(i + 1 as int).last() == fields@[i as int]);
        }
        i += 1;
    }
    proof {
        assert(fields@.take(fields@.len() as int) =~= fields@);
    }
    count
}

/// Card-for-card equality of two piles.
pub fn cards_equal(a: &Vec<Card>, b: &Vec<Card>) -> (r: bool)
    ensures
        r == (a@ == b@),
{
    if a.len() != b.len() {
        return false;
    }
    let mut i: usize = 0;
    while i < a.len()
        invariant
            i <= a@.len(),
            a@.len() == b@.len(),
            forall|j: int| 0 <= j < i ==> a@[j] == b@[j],
        decreases a@.len() - i,
    {
        if a[i] != b[i] {
            return false;
        }
        i += 1;
    }
    proof {
        assert(a@ =~= b@);
    }
    true
}

/// Exactly a successful one-chance interrupt was applied: any pending
/// flush task is asked to be canceled, the play stack (and then the played
/// cards) land on the discard pile, the epoch's modifiers reset, and the
/// interrupting actor takes the turn.
pub open spec fn one_chance_fired(
    pre: CareerPokerState,
    post: CareerPokerState,
    p: String,
    serves: Seq<Card>,
    reqs: Seq<PortRequest>,
) -> bool {
    &&& post.trushes@ == pre.trushes@ + flat_piles(piles(pre.river@)) + serves
    &&& post.excluded == pre.excluded
    &&& post.river@.len() == 0
    &&& effect_cleared(post.effect)
    &&& post.effect.revoluted == pre.effect.revoluted
    &&& post.current == Some(p)
    &&& post.will_flush_task_id is None
    &&& post.task_seq == pre.task_seq
    &&& post.prompts == pre.prompts
    &&& post.last_served_player_id == pre.last_served_player_id
    &&& post.room_id == pre.room_id
    &&& post.players == pre.players
    &&& post.fields == pre.fields
    &&& reqs == (match pre.will_flush_task_id {
        Some(t) => seq![PortRequest::Cancel { task_id: t }],
        None => Seq::<PortRequest>::empty(),
    })
}

/// Cancel the pending flush, flush the stack to the discard pile at once,
/// discard the interrupting cards on top, and hand the turn to the actor.
pub fn effect_one_chance(
    state: &mut CareerPokerState,
    player_id: &String,
    serves: &Vec<Card>,
) -> (reqs: Vec<PortRequest>)
    ensures
        one_chance_fired(*old(state), *final(state), *player_id, serves@, reqs@),
{
    let ghost pre = *old(state);
    let mut reqs: Vec<PortRequest> = Vec::new();
    match state.will_flush_task_id {
        Some(t) => {
            reqs.push(PortRequest::Cancel { task_id: t });
        },
        None => {
        },
    }
    state.flush(FlushTarget::Trushes);
    extend_cards(&mut state.trushes.0, serves);
    state.current = Some(player_id.clone());
    proof {
        assert(reqs@ =~= (match pre.will_flush_task_id {
            Some(t) => seq![PortRequest::Cancel { task_id: t }],
            None => Seq::<PortRequest>::empty(),
        }));
    }
    reqs
}

/// What a one-chance attempt does, error cases included: rejected unless
/// the actor is seated, the rank-1 effect is not suppressed, the cards are
/// held but are not the actor's entire hand, and someone still holds
/// cards; the drawn number then grants the interrupt with chance one in
/// the number of active players, and a lost draw changes nothing.
pub open spec fn one_chance_post(
    pre: CareerPokerState,
    post: CareerPokerState,
    p: String,
    serves: Seq<Card>,
    rand: u32,
    r: Result<Vec<PortRequest>, GameError>,
) -> bool {
    let active = active_count(pre.fields@);
    if !pre.seated(p@) {
        r == Result::<Vec<PortRequest>, GameError>::Err(GameError::UnknownPlayer) && post == pre
    } else if pre.effect.effect_limits@.contains(1u8) || pre.hand_of(p@) == serves || active
        == 0 || !contains_all(pre.hand_of(p@), serves) {
        r == Result::<Vec<PortRequest>, GameError>::Err(GameError::InvalidPlay) && post == pre
    } else if rand as int % active != 0 {
        match r {
            Ok(reqs) => reqs@.len() == 0 && post == pre,
            Err(_) => false,
        }
    } else {
        match r {
            Ok(reqs) => exists|mid: CareerPokerState|
                #[trigger] serve_hand_removed(pre, mid, p, serves) && one_chance_fired(
                    mid,
                    post,
                    p,
                    serves,
                    reqs@,
                ),
            Err(_) => false,
        }
    }
}

/// The played cards (those present) left the actor's hand; nothing else
/// moved.
pub open spec fn serve_hand_removed(
    pre: CareerPokerState,
    mid: CareerPokerState,
    p: String,
    serves: Seq<Card>,
) -> bool {
    let pos = spec_position(pre.players@, p@)->Some_0;
    &&& mid.fields@.len() == pre.fields@.len()
    &&& mid.fields@[pos]@ == remove_seq(pre.fields@[pos]@, serves)
    &&& (forall|i: int|
        0 <= i < pre.fields@.len() && i != pos ==> mid.fields@[i] == pre.fields@[i])
    &&& mid.players == pre.players
    &&& mid.room_id == pre.room_id
    &&& mid.current == pre.current
    &&& mid.trushes == pre.trushes
    &&& mid.excluded == pre.excluded
    &&& mid.river == pre.river
    &&& mid.will_flush_task_id == pre.will_flush_task_id
    &&& mid.task_seq == pre.task_seq
    &&& mid.effect == pre.effect
    &&& mid.prompts == pre.prompts
    &&& mid.last_served_player_id == pre.last_served_player_id
}

impl CareerPokerState {
    /// Interrupt a pending deferred flush out of turn.  `rand` is the
    /// host-drawn number that decides the chance gate (a placeholder for an
    /// unresolved player-versus-player sub-contest); the one-in-N chance
    /// counts the active players before the played cards leave the hand,
    /// so a lost draw costs nothing.
    pub fn one_chance(&mut self, player_id: String, serves: Vec<Card>, rand: u32) -> (r: Result<
        Vec<PortRequest>,
        GameError,
    >)
        requires
            old(self).wf(),
        ensures
            final(self).wf(),
            one_chance_post(*old(self), *final(self), player_id, serves@, rand, r),
    {
        let ghost pre = *old(self);
        let pos = match position_of(&self.players, &player_id) {
            None => {
                return Err(GameError::UnknownPlayer);
            },
            Some(i) => i,
        };
        if self.effect.is_limited(1) {
            return Err(GameError::InvalidPlay);
        }
        if cards_equal(&self.fields[pos].0, &serves) {
            return Err(GameError::InvalidPlay);
        }
        let active = count_active_players(&self.fields);
        if active == 0 {
            return Err(GameError::InvalidPlay);
        }
        let mut probe = copy_cards(&self.fields[pos].0);
        match remove_cards(&mut probe, &serves) {
            Err(e) => {
                return Err(e);
            },
            Ok(()) => {
            },
        }
        if rand % (active as u32) != 0 {
            return Ok(Vec::new());
        }
        remove_items(&mut self.fields[pos].0, &serves);
        let ghost mid = *self;
        proof {
            assert(serve_hand_removed(pre, mid, player_id, serves@));
        }
        let reqs = effect_one_chance(self, &player_id, &serves);
        proof {
            assert(serve_hand_removed(pre, mid, player_id, serves@) && one_chance_fired(
                mid,
                *self,
                player_id,
                serves@,
                reqs@,
            ));
        }
        Ok(reqs)
    }
}

/// The cards seat `k` of `n` receives when `cards` are dealt round-robin,
/// in deal order.
pub open spec fn deal_hand(cards: Seq<Card>, n: int, k: int) -> Seq<Card>
    decreases cards.len(),
{
    if cards.len() == 0 {
        Seq::empty()
    } else {
        deal_hand(cards.drop_last(), n, k) + if (cards.len() - 1) % n == k {
            seq![cards.last()]
        } else {
            Seq::empty()
        }
    }
}

/// What dealing does: the running game is forgotten (seating kept), the
/// two-joker deck is shuffled by the drawn numbers, dealt round-robin, the
/// hands sorted ascending for display, and the first seat takes the turn.
pub open spec fn distribute_post(
    pre: CareerPokerState,
    post: CareerPokerState,
    rands: Seq<u32>,
) -> bool {
    let shuffled = spec_shuffle(spec_deck(2), rands, 54);
    let n = pre.players@.len() as int;
    &&& post.players == pre.players
    &&& post.room_id == pre.room_id
    &&& post.fields@.len() == n
    &&& (forall|k: int|
        0 <= k < n ==> post.fields@[k]@ == sort_cards(deal_hand(shuffled, n, k)))
    &&& post.current == Some(pre.players@[0])
    &&& post.last_served_player_id is None
    &&& post.will_flush_task_id is None
    &&& post.task_seq == pre.task_seq
    &&& post.river@.len() == 0
    &&& post.trushes@.len() == 0
    &&& post.excluded@.len() == 0
    &&& post.prompts@.len() == 0
    &&& effect_cleared(post.effect)
    &&& !post.effect.revoluted
}

impl CareerPokerState {
    /// Deal a fresh game: reset everything but the seating, shuffle the
    /// 52-card deck plus two jokers by the drawn numbers `rands`, hand the
    /// cards out round-robin, sort each hand, and give the first seat the
    /// turn.
    pub fn distribute(&mut self, rands: &Vec<u32>)
        requires
            old(self).wf(),
            old(self).players@.len() > 0,
            rands@.len() >= 54,
        ensures
            final(self).wf(),
            distribute_post(*old(self), *final(self), rands@),
    {
        let ghost pre = *old(self);
        self.reset();
        let mut pile = Deck::with_jokers(2);
        proof {
            assert(pile@.len() == 54);
        }
        pile.shuffle(rands);
        let cards = pile.0;
        let ghost shuffled = cards@;
        let n = self.players.len();
        let mut i: usize = 0;
        while i < cards.len()
            invariant
                i <= cards@.len(),
                cards@ == shuffled,
                n == self.players@.len(),
                n > 0,
                self.fields@.len() == n,
                forall|k: int|
                    0 <= k < n ==> #[trigger] self.fields@[k]@ == deal_hand(
                        cards@.take(i as int),
                        n as int,
                        k,
                    ),
                self.players == pre.players,
                self.room_id == pre.room_id,
                self.current is None,
                self.last_served_player_id is None,
                self.will_flush_task_id is None,
                self.task_seq == pre.task_seq,
                self.river@.len() == 0,
                self.trushes@.len() == 0,
                self.excluded@.len() == 0,
                self.prompts@.len() == 0,
                effect_cleared(self.effect),
                !self.effect.revoluted,
            decreases cards@.len() - i,
        {
            let k = i % n;
            let ghost before = self.fields@;
            self.fields[k].0.push(cards[i]);
            proof {
                assert forall|k2: int|
                    0 <= k2 < n implies #[trigger] self.fields@[k2]@ == deal_hand(
                        cards@.take(i + 1 as int),
                        n as int,
                        k2,
                    ) by {
                    assert(cards@.take(i + 1 as int).drop_last() =~= cards@.take(i as int));
                    assert(cards@.take(i + 1 as int).last() == cards@[i as int]);
                    assert(cards@.take(i + 1 as int).len() == i + 1);
                    assert(k as int == (i as int) % (n as int));
                    assert(before[k2]@ == deal_hand(cards@.take(i as int), n as int, k2));
                    assert(self.fields@[k as int]@ == before[k as int]@.push(cards@[i as int]));
                    if k2 != k as int {
                        assert(self.fields@[k2] == before[k2]);
                    }
                    if k2 == k as int {
                        assert(deal_hand(cards@.take(i as int), n as int, k2) + seq![
                            cards@[i as int],
                        ] =~= deal_hand(cards@.take(i as int), n as int, k2).push(
                            cards@[i as int],
                        ));
                    } else {
                        assert(deal_hand(cards@.take(i as int), n as int, k2)
                            + Seq::<Card>::empty() =~= deal_hand(
                            cards@.take(i as int),
                            n as int,
                            k2,
                        ));
                    }
                }
            }
            i += 1;
        }
        proof {
            assert(cards@.take(cards@.len() as int) =~= cards@);
        }
        let mut k: usize = 0;
        while k < n
            invariant
                k <= n,
                n == self.players@.len(),
                self.fields@.len() == n,
                cards@ == shuffled,
                forall|j: int|
                    k <= j < n ==> #[trigger] self.fields@[j]@ == deal_hand(
                        shuffled,
                        n as int,
                        j,
                    ),
                forall|j: int|
                    0 <= j < k ==> #[trigger] self.fields@[j]@ == sort_cards(
                        deal_hand(shuffled, n as int, j),
                    ),
                self.players == pre.players,
                self.room_id == pre.room_id,
                self.current is None,
                self.last_served_player_id is None,
                self.will_flush_task_id is None,
                self.task_seq == pre.task_seq,
                self.river@.len() == 0,
                self.trushes@.len() == 0,
                self.excluded@.len() == 0,
                self.prompts@.len() == 0,
                effect_cleared(self.effect),
                !self.effect.revoluted,
            decreases n - k,
        {
            let ghost before = self.fields@;
            let sorted = sorted_cards(&self.fields[k].0);
            self.fields.set(k, Deck::new(sorted));
            proof {
                assert(before[k as int]@ == deal_hand(shuffled, n as int, k as int));
                assert(self.fields@[k as int]@ == sort_cards(before[k as int]@));
                assert(forall|j: int| 0 <= j < n && j != k ==> self.fields@[j] == before[j]);
            }
            k += 1;
        }
        self.current = Some(self.players[0].clone());
    }
}

proof fn lemma_piles_take_step(river: Seq<Deck>, i: int)
    requires
        0 <= i < river.len(),
    ensures
        flat_piles(piles(river.take(i + 1))) == flat_piles(piles(river.take(i))) + river[i]@,
{
    let a = piles(river.take(i + 1));
    let b = piles(river.take(i));
    assert(a.drop_last() =~= b);
    assert(a.last() == river[i]@);
}

} // verus!
