//! A deterministic single-tape Turing machine, verified with Verus.
//!
//! The [`tape`] is infinite in both directions and kept in one growable
//! vector; a [`transition_fn`] is a finite table of rules; a
//! [`turing_machine`] applies the rules to a tape until none matches or a
//! halt setting stops it, and can hand back a [`recording`] of its steps.
//!
//! Contracts speak of a tape as a total map from positions to symbols, of
//! the rules as a partial map, and of a run as the function
//! [`turing_machine::run_steps`].

pub mod busy_beaver;
pub mod clock;
pub mod prelude;
pub mod recording;
pub mod tape;
pub mod transition_fn;
pub mod turing_machine;
