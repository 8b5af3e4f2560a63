//! The integer core that a two-player post-flop solver is finished and read
//! with: the model of the compiled game tree and its 16-bit storage, the
//! allocation of that storage, the normalisation of cumulative strategies,
//! the storage of expected values and equities, the swap lists of
//! isomorphic cards, and what the board leaves of the deck and of the
//! private hands.
//!
//! Probabilities and values are handled here only in their 16-bit
//! fixed-point form.

pub mod allocate;
pub mod card;
pub mod finalize;
pub mod game;
pub mod isomorphism;
pub mod normalize;
pub mod parallel;
