//! A guild-scoped leveling engine: activity is turned into experience
//! points under a cooldown, experience into levels along an exponential
//! curve, and levels into milestone roles.
//!
//! Every function of this crate is verified with Verus. The engine never
//! performs I/O itself: callers load stored state, hand it to the engine as
//! plain values and carry out the intents it returns.
//!
//! - [`curve`] and [`policy`]: what a level costs, and what a message earns.
//! - [`progress`] and [`activity`]: a user's record, and what one event does
//!   to it.
//! - [`ladder`], [`provision`] and [`roles`]: the milestone roles of a
//!   guild, how they are created, granted, reconciled and torn down.
//! - [`board`]: leaderboard, rank and the members below a level.
//! - [`store`] and [`clock`]: the text kept in the key-value store, and
//!   time.

pub mod activity;
pub mod board;
pub mod clock;
pub mod curve;
pub mod error;
pub mod ladder;
pub mod policy;
pub mod progress;
pub mod provision;
pub mod roles;
pub mod store;
