//! Building blocks of a simulated-annealing optimizer: the space of closed
//! tours over a set of cities, and the schedule that the annealing loop obeys.

pub mod schedule;
pub mod tour;
