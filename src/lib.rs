//! Monte Carlo simulation of the "100 prisoners" puzzle: prisoners search
//! for their own number among shuffled boxes, opening at most half of them,
//! under the cycle-following strategy or a uniformly random one.

pub mod permutation;
pub mod random;
pub mod strategy;
pub mod simulation;
