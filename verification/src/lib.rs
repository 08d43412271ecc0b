//! Binary-alphabet Turing machines with a small number of states, and a
//! heuristic generator of busy beaver candidates.
//!
//! - `tape`: the growable tape and its mathematical model.
//! - `transition`: directions, states, packed actions and transitions.
//! - `semantics`: what a run of a transition table is, what the rules of the
//!   search do to a table, and the laws that hold of both.
//! - `turing_machine`: the machines, the executor and the search.
//! - `random`: the sources that the search draws its random numbers from.
//! - `utils`: a helper on ranges.

pub mod random;
pub mod semantics;
pub mod tape;
pub mod transition;
pub mod turing_machine;
pub mod utils;
