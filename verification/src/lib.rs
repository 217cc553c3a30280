//! Decision logic of a batch-auction coordinator.
//!
//! A coordinator of batch auctions cuts the solvable orders into an auction
//! again and again, sends each auction to the drivers of the solvers, ranks
//! the solutions that come back, picks winners and has them settled before a
//! deadline. This crate holds the rules of that cycle, from plain values to
//! plain values, each with a contract that Verus proves:
//!
//! - [`run_loop`]: when an iteration starts, how an auction is cut, when an
//!   iteration is skipped, and what an iteration does with a ranking;
//! - [`solve`]: what a driver's answer is worth;
//! - [`competition`] and [`fairness`]: how solutions are ranked, which are
//!   dropped, and which win;
//! - [`post_processing`] and [`database`]: what is stored of a competition;
//! - [`settlement`] and [`in_flight`]: how a settlement ends, and which
//!   orders are kept out of the next auction meanwhile.
//!
//! Waiting for blocks, talking to drivers and writing to storage are left to
//! the caller.

pub mod competition;
pub mod database;
pub mod domain;
pub mod eth;
pub mod fairness;
pub mod in_flight;
pub mod post_processing;
pub mod run_loop;
pub mod seqs;
pub mod settlement;
pub mod solve;
pub mod solver_competition;
pub mod uint;
