//! The discrete structure of one step of an all-pairs charged-particle simulation.
//!
//! A step over `n` particles is a fixed sequence of actions: the force that each particle
//! exerts on every other one, and the move of each particle by its velocity. Two orders are
//! offered. In place, each source particle exerts its forces and then moves at once, so later
//! sources see it already moved. Staged, all forces come first, from the positions at the start
//! of the step, and then all moves. The arithmetic of each action is done by the caller; this
//! crate decides which actions happen, in which order, and states the laws of each order.
pub mod laws;
pub mod schedule;

pub use schedule::{steps, Action, Order, StepCursor};
