//! Tabular reinforcement learning: a contract for Markov decision
//! processes, policies that pick actions from a table of state values, and
//! predictors that learn such a table from sampled experience.
//!
//! Tables are ordered maps, so that what a lookup returns is proved for
//! every state type that `vstd` knows to compare lawfully: the integers
//! and their tuples, a cell of a grid among them. Of a hashed map `vstd`
//! knows the keys only where they are single integers.
//!
//! Values are of any type `V` with the comparisons and operators that a
//! function uses. What a function computes is stated over the
//! specifications that `vstd` gives to these operators, and holds of every
//! `V` that obeys them.

pub mod base;
pub mod env;
pub mod learning;
