//! A simulator of single-leader, threshold-voting consensus rounds under
//! Byzantine faults.
//!
//! A fixed set of nodes votes on one proposal per round. Honest nodes endorse
//! the proposal; faulty nodes answer at random. A round reaches quorum when
//! the honest endorsements of the proposal number at least `2f + 1`.
//!
//! - [`vote`]: what one node answers.
//! - [`entropy`]: what a faulty node draws from the source of randomness.
//! - [`node`]: a participant and its voting rule.
//! - [`round`]: one round, from the votes to the decision.
//! - [`simulation`]: the node set, the threshold and the schedule of rounds.
//! - [`decimal`]: the decimal text in fake values and proposals.
//!
//! Every function that votes at random has a companion that takes the draws
//! as an argument and is a function of its arguments.

pub mod decimal;
pub mod entropy;
pub mod node;
pub mod round;
pub mod simulation;
pub mod vote;
