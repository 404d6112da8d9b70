//! Policy iteration for a rental business with two locations.
//!
//! Each day both locations rent out what is asked for, as far as their
//! inventory reaches, and take back what is returned; overnight a limited
//! number of units can be moved from one location to the other. A state is the
//! pair of inventories, an action the number moved from the first location to
//! the second. The four random numbers of a day are replaced by their
//! expectations, each capped by what a location can hold, so that every action
//! leads from a state to exactly one successor.
//!
//! Reals are held as fixed-point integers in units of a billionth (see
//! [`fixed`]): rewards, values, the discount and the masses of the
//! distributions are exact, and the only roundings are the ones that the
//! contracts name, each to the nearest unit. States are stored and
//! swept in ascending order of the pair of counts, the first count first.
//! Among actions of equal value the smaller move is chosen, and of two moves
//! of one size the inward one.
//!
//! [`solve::solve`] goes from a configuration to a policy in one call;
//! [`graph::Graph::setup`], [`agent::evaluate_policy`] and
//! [`agent::improve_policy`] are the steps it is made of.

pub mod agent;
pub mod config;
pub mod contraction;
pub mod distribution;
pub mod fixed;
pub mod graph;
pub mod label;
pub mod nd_vec;
pub mod policy;
pub mod solve;
