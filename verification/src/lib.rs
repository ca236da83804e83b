//! A riddle-bounty escrow board.
//!
//! A party posts a riddle together with a monetary bounty. Solvers may pay to
//! reveal the hint (the payment is absorbed into the bounty) or submit a guess
//! with an attached stake: a correct guess pays the whole accumulated bounty
//! to the solver and closes the riddle for good, a wrong guess forfeits the
//! stake into the bounty and leaves the riddle open.
//!
//! [`riddle`] holds the single entity and its transitions, [`board`] the
//! registry that indexes riddles by title, and [`laws`] the proved laws of the
//! escrow state machine.

pub mod board;
pub mod laws;
pub mod riddle;
