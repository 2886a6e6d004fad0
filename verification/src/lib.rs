//! A verified rule engine for "career poker", a shedding card game in the
//! Daifugo family.
//!
//! The engine is a single state value ([`state::CareerPokerState`]) moved
//! forward by player actions: dealing, passing, serving a set of cards,
//! answering a card-selection prompt, and the out-of-turn "one chance"
//! interrupt.  Rank-triggered special effects reconfigure the ordering,
//! pile-size and suit rules as the game runs.
//!
//! The engine itself performs no input/output.  Deferred work (the timed
//! flush of the play pile) and randomness (the shuffle, the one-chance draw)
//! are ports: the engine receives drawn numbers as arguments and hands
//! scheduling work back to its host as [`ports::PortRequest`] values.

pub mod card;
pub mod context;
pub mod deck;
pub mod effect;
pub mod laws;
pub mod meta;
pub mod ports;
pub mod state;
