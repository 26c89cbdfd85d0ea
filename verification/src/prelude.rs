//! The types that most users need.

pub use crate::busy_beaver::{busy_beaver_2_state, busy_beaver_3_state};
pub use crate::recording::Recording;
pub use crate::tape::Tape;
pub use crate::transition_fn::{Action, DuplicateKey, Rule, TransitionFn};
pub use crate::turing_machine::{HaltSetting, TuringMachine};
