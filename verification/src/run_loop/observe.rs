//! What the run loop reports of an iteration. The functions here work out
//! what there is to report; writing it to a log or a counter is left to the
//! caller.

use crate::domain::{all_order_ids, order_ids_of, Auction, OrderUid, Participant};
use crate::run_loop::{
    found_in, missing_from, uids_found_in, uids_missing_from, winning_ids, winning_order_ids,
};
use crate::seqs::{distinct, distinct_of};
use vstd::laws_eq::obeys_concrete_eq;
use vstd::prelude::*;

verus! {

/// What is written down of the change from one auction to the next.
#[derive(Debug)]
pub struct AuctionDelta {
    /// The id of the current auction.
    pub id: i64,
    /// The orders that the current auction holds and the one before did
    /// not, each once.
    pub added: Vec<OrderUid>,
    /// The orders that the auction before held and the current one does
    /// not, each once.
    pub removed: Vec<OrderUid>,
}

/// The uids of the auction before, or none where there was no auction.
pub open spec fn previous_uids(previous: Option<Auction>) -> Seq<OrderUid> {
    match previous {
        Some(previous) => previous.spec_order_uids(),
        None => Seq::empty(),
    }
}

/// Works out which orders have come into the auction since the one before,
/// and which have left it.
pub fn log_auction_delta(previous: &Option<Auction>, current: &Auction) -> (r: AuctionDelta)
    ensures
        r.id == current.id,
        r.added@ == distinct(
            current.spec_order_uids().filter(missing_from(previous_uids(*previous))),
        ),
        r.removed@ == distinct(
            previous_uids(*previous).filter(missing_from(current.spec_order_uids())),
        ),
{
    let previous_uids = match previous {
        Some(previous) => previous.order_uids(),
        None => Vec::new(),
    };
    let current_uids = current.order_uids();
    let added = uids_missing_from(&current_uids, &previous_uids);
    let removed = uids_missing_from(&previous_uids, &current_uids);
    proof {
        reveal(obeys_concrete_eq);
    }
    AuctionDelta { id: current.id, added: distinct_of(&added), removed: distinct_of(&removed) }
}

/// What is written down of one proposed solution.
#[derive(Debug)]
pub struct ProposedSolution {
    /// The name of the driver.
    pub driver: String,
    /// The orders that the solution executes.
    pub orders: Vec<OrderUid>,
    /// The driver's own number for the solution.
    pub solution: u64,
}

/// Works out what to write down of the solutions of an auction: one entry
/// for each, in their order. Without solutions there is no entry, which is
/// worth a note of its own.
pub fn solutions(participants: &[Participant]) -> (r: Vec<ProposedSolution>)
    ensures
        r@.len() == participants@.len(),
        forall|i: int|
            0 <= i < r@.len() ==> {
                let entry = #[trigger] r@[i];
                &&& entry.driver@ == participants@[i].driver.name@
                &&& entry.orders@ == participants@[i].solution.spec_order_ids()
                &&& entry.solution == participants@[i].solution.id
            },
{
    let mut r: Vec<ProposedSolution> = Vec::new();
    let mut i: usize = 0;
    while i < participants.len()
        invariant
            0 <= i <= participants.len(),
            r@.len() == i,
            forall|j: int|
                0 <= j < i ==> {
                    let entry = #[trigger] r@[j];
                    &&& entry.driver@ == participants@[j].driver.name@
                    &&& entry.orders@ == participants@[j].solution.spec_order_ids()
                    &&& entry.solution == participants@[j].solution.id
                },
        decreases participants.len() - i,
    {
        r.push(
            ProposedSolution {
                driver: participants[i].driver.name.clone(),
                orders: participants[i].solution.order_ids(),
                solution: participants[i].solution.id,
            },
        );
        i += 1;
    }
    r
}

/// The orders that were matched and are not settled.
#[derive(Debug)]
pub struct Unsettled {
    /// The name of the driver of the best solution, which left the orders
    /// out.
    pub ignored_by: String,
    /// The orders, each once.
    pub orders: Vec<OrderUid>,
}

/// The orders of the auction that some solution executes and no winning
/// solution does, each once.
pub open spec fn unsettled_orders(s: Seq<Participant>, auction: Auction) -> Seq<OrderUid> {
    distinct(order_ids_of(s).filter(missing_from(winning_order_ids(s)))).filter(
        found_in(auction.spec_order_uids()),
    )
}

/// Works out which orders were matched by some solution and are left
/// unsettled, because no winning solution executes them. Orders that the
/// auction does not hold are left out. Without solutions there is nothing
/// to report.
pub fn unsettled(solutions: &[Participant], auction: &Auction) -> (r: Option<Unsettled>)
    ensures
        r is None <==> solutions@.len() == 0,
        r is Some ==> r.unwrap().ignored_by@ == solutions@[0].driver.name@,
        r is Some ==> r.unwrap().orders@ == unsettled_orders(solutions@, *auction),
{
    if solutions.len() == 0 {
        return None;
    }
    let winning_orders = winning_ids(solutions);
    let all = all_order_ids(solutions);
    let others = uids_missing_from(&all, &winning_orders);
    proof {
        reveal(obeys_concrete_eq);
    }
    let non_winning_orders = distinct_of(&others);
    let auction_uids = auction.order_uids();
    Some(
        Unsettled {
            ignored_by: solutions[0].driver.name.clone(),
            orders: uids_found_in(&non_winning_orders, &auction_uids),
        },
    )
}

} // verus!
