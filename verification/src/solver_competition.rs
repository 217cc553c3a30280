//! The table of a competition as it is stored and shown: all solutions of an
//! auction, from the worst to the best.

use crate::domain::OrderUid;
use crate::eth::{H160, U256};
use vstd::prelude::*;

verus! {

/// The auction as the table shows it.
#[derive(Debug)]
pub struct CompetitionAuction {
    pub orders: Vec<OrderUid>,
    pub prices: Vec<(H160, U256)>,
}

/// One order as a solution executes it.
#[derive(Clone, Copy, Debug)]
pub struct Order {
    pub id: OrderUid,
    pub sell_amount: U256,
    pub buy_amount: U256,
}

/// One solution in the table.
#[derive(Debug)]
pub struct SolverSettlement {
    /// The name of the driver that proposed the solution.
    pub solver: String,
    pub solver_address: H160,
    /// The score that the solver reported.
    pub score: Option<U256>,
    /// The place of the solution, counted from the end of the table: the
    /// last entry, which is the best solution, has ranking 1.
    pub ranking: usize,
    pub orders: Vec<Order>,
    pub clearing_prices: Vec<(H160, U256)>,
    pub is_winner: bool,
}

/// The table of one competition.
#[derive(Debug)]
pub struct SolverCompetitionDB {
    pub auction_start_block: u64,
    pub competition_simulation_block: u64,
    pub auction: CompetitionAuction,
    /// The solutions from the worst to the best.
    pub solutions: Vec<SolverSettlement>,
}

} // verus!
