//! Cross-cutting laws of the engine, stated and proved once against the
//! action relations of [`crate::state`].

use vstd::prelude::*;

use crate::card::Card;
use crate::deck::{contains_all, lemma_sort_cards_len, spec_number};
use crate::ports::{GameError, PortRequest};
use crate::state::{
    cancel_task_post, deal_hand, distribute_post, effect_card_post, next_post, same_player_opt,
    serve_mid, serve_post, spec_relative, spec_servable, turn_of_other, CareerPokerState,
};

verus! {

/// A rank-4 play against an empty discard pile raises no prompt: there is
/// nothing to revive, so the effect is a no-op and play goes on normally.
pub proof fn lemma_rank4_empty_discard_no_prompt(
    pre: CareerPokerState,
    post: CareerPokerState,
    p: String,
    serves: Seq<Card>,
    reqs: Seq<PortRequest>,
)
    requires
        effect_card_post(pre, post, p, serves, reqs),
        spec_number(serves) == 4,
        pre.trushes@.len() == 0,
    ensures
        post.prompts == pre.prompts,
        post.trushes == pre.trushes,
        post.excluded == pre.excluded,
        post.effect.effect_limits == pre.effect.effect_limits,
        post.effect.suit_limits == pre.effect.suit_limits,
        post.effect.is_step == pre.effect.is_step,
        post.effect.turn_revoluted == pre.effect.turn_revoluted,
{
}

/// Dispatching a play of exactly four cards flips the persistent
/// revolution flag exactly once, whatever the play's rank does besides.
pub proof fn lemma_size4_dispatch_flips_revolution(
    pre: CareerPokerState,
    post: CareerPokerState,
    p: String,
    serves: Seq<Card>,
    reqs: Seq<PortRequest>,
)
    requires
        effect_card_post(pre, post, p, serves, reqs),
        serves.len() == 4,
    ensures
        post.effect.revoluted == !pre.effect.revoluted,
{
}

/// An accepted serve of exactly four cards flips the persistent revolution
/// flag exactly once, regardless of rank.
pub proof fn lemma_serve_size4_flips_revolution(
    pre: CareerPokerState,
    post: CareerPokerState,
    p: String,
    serves: Seq<Card>,
    r: Result<Vec<PortRequest>, GameError>,
)
    requires
        serve_post(pre, post, p, serves, r),
        r is Ok,
        serves.len() == 4,
    ensures
        post.effect.revoluted == !pre.effect.revoluted,
{
    let reqs = r->Ok_0;
    let mid = choose|mid: CareerPokerState|
        #[trigger] serve_mid(pre, mid, p, serves) && effect_card_post(mid, post, p, serves, reqs@);
    assert(mid.effect == pre.effect);
}

/// Acknowledging the same settled flush task twice leaves the same state
/// as acknowledging it once: the second acknowledgement changes nothing.
pub proof fn lemma_cancel_task_idempotent(
    s0: CareerPokerState,
    s1: CareerPokerState,
    s2: CareerPokerState,
    task_id: u64,
)
    requires
        cancel_task_post(s0, s1, task_id),
        cancel_task_post(s1, s2, task_id),
    ensures
        s2 == s1,
{
}

/// While no one has served this epoch (no server of record), a pass that
/// finds a next player never requests a flush: the turn merely rotates.
pub proof fn lemma_pass_without_server_never_flushes(
    pre: CareerPokerState,
    post: CareerPokerState,
    p: String,
    reqs: Seq<PortRequest>,
)
    requires
        next_post(pre, post, p, reqs),
        pre.last_served_player_id is None,
        spec_relative(pre, p@, 1) is Some,
    ensures
        reqs.len() == 0,
        post.will_flush_task_id == pre.will_flush_task_id,
        post.current == spec_relative(pre, p@, 1),
{
    assert(!same_player_opt(spec_relative(pre, p@, 1), pre.last_served_player_id));
}

/// While every rank is on the suppression ledger, a dispatched play only
/// fixes the pile size and joins the stack: no prompt is raised, no pile
/// moves, no modifier changes, and the turn advances normally.
pub proof fn lemma_all_suppressed_play_is_plain(
    pre: CareerPokerState,
    post: CareerPokerState,
    p: String,
    serves: Seq<Card>,
    reqs: Seq<PortRequest>,
)
    requires
        effect_card_post(pre, post, p, serves, reqs),
        forall|m: u8| 1 <= m <= 13 ==> pre.effect.effect_limits@.contains(m),
        1 <= spec_number(serves) <= 13,
    ensures
        post.prompts == pre.prompts,
        post.trushes == pre.trushes,
        post.excluded == pre.excluded,
        post.effect.effect_limits == pre.effect.effect_limits,
        post.effect.suit_limits == pre.effect.suit_limits,
        post.effect.is_step == pre.effect.is_step,
        post.effect.turn_revoluted == pre.effect.turn_revoluted,
{
    assert(pre.effect.effect_limits@.contains(spec_number(serves)));
}

/// Dealing round-robin reaches a seat at least once whenever the deck
/// holds a card with the seat's index.
proof fn lemma_deal_hand_nonempty(cards: Seq<Card>, n: int, k: int)
    requires
        0 <= k < n,
        k < cards.len(),
    ensures
        deal_hand(cards, n, k).len() >= 1,
    decreases cards.len(),
{
    if cards.len() - 1 == k {
        vstd::arithmetic::div_mod::lemma_small_mod(k as nat, n as nat);
        assert((cards.len() - 1) % n == k);
    } else {
        lemma_deal_hand_nonempty(cards.drop_last(), n, k);
    }
}

/// A deal to at most 54 seats leaves no seat empty-handed: the passes that
/// follow it rotate the turn instead of forcing a flush.
pub proof fn lemma_deal_fills_every_seat(
    pre: CareerPokerState,
    post: CareerPokerState,
    rands: Seq<u32>,
)
    requires
        distribute_post(pre, post, rands),
        0 < pre.players@.len() <= 54,
    ensures
        forall|k: int| 0 <= k < post.fields@.len() ==> (#[trigger] post.fields@[k])@.len() > 0,
{
    let n = pre.players@.len() as int;
    let shuffled = crate::deck::spec_shuffle(crate::deck::spec_deck(2), rands, 54);
    crate::deck::lemma_spec_shuffle_len(crate::deck::spec_deck(2), rands, 54);
    assert forall|k: int| 0 <= k < post.fields@.len() implies (#[trigger] post.fields@[k])@.len()
        > 0 by {
        lemma_deal_hand_nonempty(shuffled, n, k);
        lemma_sort_cards_len(deal_hand(shuffled, n, k));
    }
}

/// A serve rejected for any reason leaves the state exactly as it was.
pub proof fn lemma_rejected_serve_changes_nothing(
    pre: CareerPokerState,
    post: CareerPokerState,
    p: String,
    serves: Seq<Card>,
    r: Result<Vec<PortRequest>, GameError>,
)
    requires
        serve_post(pre, post, p, serves, r),
        r is Err,
    ensures
        post == pre,
{
    if pre.seated(p@) && !turn_of_other(pre, p@) && pre.prompts@.len() == 0 && serves.len() != 0
        && spec_servable(pre, serves) && contains_all(pre.hand_of(p@), serves) {
        assert(false);
    }
}

} // verus!
