//! What follows a competition and comes before any settlement: the record
//! of the competition is built and handed to storage.

use crate::database::Competition;
use crate::domain::{
    all_order_ids, copy_fees, order_ids_of, Auction, FeePolicy, Order, OrderUid, Participant,
    Price, TradedOrder,
};
use crate::eth::{TokenAddress, H160, U256};
use crate::fairness::{find_order, order_of};
use crate::seqs::{distinct, distinct_of};
use crate::solver_competition::{CompetitionAuction, SolverCompetitionDB, SolverSettlement};
use vstd::laws_eq::obeys_concrete_eq;
use vstd::prelude::*;

verus! {

/// The first participant that is ranked as a winner.
pub open spec fn first_winner(s: Seq<Participant>) -> Option<Participant>
    decreases s.len(),
{
    if s.len() == 0 {
        None
    } else if s[0].spec_is_winner() {
        Some(s[0])
    } else {
        first_winner(s.drop_first())
    }
}

proof fn lemma_first_winner(s: Seq<Participant>, i: int)
    requires
        0 <= i <= s.len(),
        forall|j: int| 0 <= j < i ==> !(#[trigger] s[j]).spec_is_winner(),
    ensures
        first_winner(s) == first_winner(s.skip(i)),
    decreases i,
{
    if i > 0 {
        assert(!s[0].spec_is_winner());
        let rest = s.drop_first();
        assert forall|j: int| 0 <= j < i - 1 implies !(#[trigger] rest[j]).spec_is_winner() by {
            assert(rest[j] == s[j + 1]);
        }
        lemma_first_winner(s.drop_first(), i - 1);
        assert(s.drop_first().skip(i - 1) =~= s.skip(i));
    } else {
        assert(s.skip(0) =~= s);
    }
}

/// The first participant that is ranked as a winner.
pub fn winning_participant(solutions: &[Participant]) -> (r: Option<&Participant>)
    ensures
        r is Some <==> first_winner(solutions@) is Some,
        r is Some ==> Some(*r.unwrap()) == first_winner(solutions@),
        r is None ==> forall|i: int|
            0 <= i < solutions@.len() ==> !(#[trigger] solutions@[i]).spec_is_winner(),
{
    let mut i: usize = 0;
    while i < solutions.len()
        invariant
            0 <= i <= solutions.len(),
            forall|j: int| 0 <= j < i ==> !(#[trigger] solutions@[j]).spec_is_winner(),
        decreases solutions.len() - i,
    {
        if solutions[i].is_winner() {
            proof {
                lemma_first_winner(solutions@, i as int);
            }
            return Some(&solutions[i]);
        }
        i += 1;
    }
    proof {
        lemma_first_winner(solutions@, i as int);
    }
    None
}

/// The reference score of a ranking: the score of its second participant,
/// or zero where it has fewer than two.
pub open spec fn reference_score_of(s: Seq<Participant>) -> nat {
    if s.len() > 1 {
        s[1].solution.score.0.0@
    } else {
        0
    }
}

/// The solver addresses of the participants, each once, in the order in
/// which they first occur.
pub open spec fn solvers_of(s: Seq<Participant>) -> Seq<H160> {
    distinct(s.map_values(|p: Participant| p.solution.solver.0))
}

/// The fee policies of the orders named by `ids`, in that order; a uid that
/// no order of `orders` has is skipped.
pub open spec fn fee_policies_of(ids: Seq<OrderUid>, orders: Seq<Order>) -> Seq<
    (OrderUid, Seq<FeePolicy>),
>
    decreases ids.len(),
{
    if ids.len() == 0 {
        Seq::empty()
    } else {
        let before = fee_policies_of(ids.drop_last(), orders);
        match find_order(orders, ids.last()) {
            Some(order) => before.push((order.uid, order.protocol_fees@)),
            None => before,
        }
    }
}

/// A list of fee policies by order, each list as a sequence.
pub open spec fn fee_views(fees: Seq<(OrderUid, Vec<FeePolicy>)>) -> Seq<
    (OrderUid, Seq<FeePolicy>),
> {
    fees.map_values(|e: (OrderUid, Vec<FeePolicy>)| (e.0, e.1@))
}

/// One order of a solution as the table shows it.
pub open spec fn table_order(entry: (OrderUid, TradedOrder)) -> crate::solver_competition::Order {
    crate::solver_competition::Order {
        id: entry.0,
        sell_amount: entry.1.executed_sell.0,
        buy_amount: entry.1.executed_buy.0,
    }
}

/// One price as the table shows it.
pub open spec fn table_price(entry: (TokenAddress, Price)) -> (H160, U256) {
    (entry.0.0, entry.1.0.0)
}

/// Whether `entry` shows the participant `p` under the given ranking.
pub open spec fn is_entry_of(entry: SolverSettlement, p: Participant, ranking: int) -> bool {
    &&& entry.solver@ == p.driver.name@
    &&& entry.solver_address == p.solution.solver.0
    &&& entry.score == Some(p.solution.score.0.0)
    &&& entry.ranking == ranking
    &&& entry.orders@ == p.solution.orders@.map_values(
        |e: (OrderUid, TradedOrder)| table_order(e),
    )
    &&& entry.clearing_prices@ == p.solution.prices@.map_values(
        |e: (TokenAddress, Price)| table_price(e),
    )
    &&& entry.is_winner == p.spec_is_winner()
}

/// Whether `table` is the table of the ranking `s`: it shows the auction,
/// and the solutions in the opposite order, the worst first, each with its
/// ranking counted from the end, so that the first entry has ranking
/// `s.len()` and the last, the best, has 1.
pub open spec fn is_table_of(
    table: SolverCompetitionDB,
    auction: Auction,
    simulation_block: u64,
    s: Seq<Participant>,
) -> bool {
    &&& table.auction_start_block == auction.block
    &&& table.competition_simulation_block == simulation_block
    &&& table.auction.orders@ == auction.spec_order_uids()
    &&& table.auction.prices@ == auction.prices@.map_values(
        |e: (TokenAddress, Price)| table_price(e),
    )
    &&& table.solutions@.len() == s.len()
    &&& forall|k: int|
        0 <= k < s.len() ==> is_entry_of(
            #[trigger] table.solutions@[k],
            s[s.len() - 1 - k],
            s.len() - k,
        )
}

/// Whether `record` is the record of the ranking `s` of the auction.
pub open spec fn is_record_of(
    record: Competition,
    auction: Auction,
    simulation_block: u64,
    s: Seq<Participant>,
    block_deadline: u64,
) -> bool {
    &&& first_winner(s) is Some
    &&& record.auction_id == auction.id
    &&& record.winner == first_winner(s).unwrap().solution.solver.0
    &&& record.winning_score == first_winner(s).unwrap().solution.score.0.0
    &&& record.reference_score@ == reference_score_of(s)
    &&& record.participants@ == solvers_of(s)
    &&& record.prices@ == auction.prices@.map_values(|e: (TokenAddress, Price)| table_price(e))
    &&& record.block_deadline == block_deadline
    &&& record.competition_simulation_block == simulation_block
    &&& is_table_of(record.competition_table, auction, simulation_block, s)
}

/// No solution of the ranking is a winner.
#[derive(Clone, Copy, Debug, PartialEq, Eq, Structural)]
pub struct NoWinners;

/// What post-processing hands to storage.
#[derive(Debug)]
pub struct PostProcessed {
    pub competition: Competition,
    /// The fee policies of each order that some solution executes and the
    /// auction holds.
    pub fee_policies: Vec<(OrderUid, Vec<FeePolicy>)>,
}

fn copy_prices(prices: &Vec<(TokenAddress, Price)>) -> (r: Vec<(H160, U256)>)
    ensures
        r@ == prices@.map_values(|e: (TokenAddress, Price)| table_price(e)),
{
    let ghost target = prices@.map_values(|e: (TokenAddress, Price)| table_price(e));
    let mut r: Vec<(H160, U256)> = Vec::new();
    let mut i: usize = 0;
    while i < prices.len()
        invariant
            0 <= i <= prices.len(),
            target == prices@.map_values(|e: (TokenAddress, Price)| table_price(e)),
            r@ == target.take(i as int),
        decreases prices.len() - i,
    {
        r.push((prices[i].0.0, prices[i].1.0.0));
        assert(r@ =~= target.take(i + 1));
        i += 1;
    }
    assert(r@ =~= target);
    r
}

/// The entry of the table that shows `p` under the given ranking.
fn table_entry(p: &Participant, ranking: usize) -> (entry: SolverSettlement)
    ensures
        is_entry_of(entry, *p, ranking as int),
{
    let ghost target = p.solution.orders@.map_values(|e: (OrderUid, TradedOrder)| table_order(e));
    let mut orders: Vec<crate::solver_competition::Order> = Vec::new();
    let mut i: usize = 0;
    while i < p.solution.orders.len()
        invariant
            0 <= i <= p.solution.orders.len(),
            target == p.solution.orders@.map_values(|e: (OrderUid, TradedOrder)| table_order(e)),
            orders@ == target.take(i as int),
        decreases p.solution.orders.len() - i,
    {
        orders.push(
            crate::solver_competition::Order {
                id: p.solution.orders[i].0,
                sell_amount: p.solution.orders[i].1.executed_sell.0,
                buy_amount: p.solution.orders[i].1.executed_buy.0,
            },
        );
        assert(orders@ =~= target.take(i + 1));
        i += 1;
    }
    assert(orders@ =~= target);
    SolverSettlement {
        solver: p.driver.name.clone(),
        solver_address: p.solution.solver.0,
        score: Some(p.solution.score.0.0),
        ranking,
        orders,
        clearing_prices: copy_prices(&p.solution.prices),
        is_winner: p.is_winner(),
    }
}

/// The table of the ranking.
fn competition_table(
    auction: &Auction,
    competition_simulation_block: u64,
    solutions: &[Participant],
) -> (table: SolverCompetitionDB)
    ensures
        is_table_of(table, *auction, competition_simulation_block, solutions@),
{
    let n = solutions.len();
    let mut entries: Vec<SolverSettlement> = Vec::new();
    let mut k: usize = 0;
    while k < n
        invariant
            n == solutions.len(),
            0 <= k <= n,
            entries@.len() == k,
            forall|j: int|
                0 <= j < k ==> is_entry_of(#[trigger] entries@[j], solutions@[n - 1 - j], n - j),
        decreases n - k,
    {
        entries.push(table_entry(&solutions[n - 1 - k], n - k));
        k += 1;
    }
    SolverCompetitionDB {
        auction_start_block: auction.block,
        competition_simulation_block,
        auction: CompetitionAuction {
            orders: auction.order_uids(),
            prices: copy_prices(&auction.prices),
        },
        solutions: entries,
    }
}

/// The solver addresses of the participants, each once.
fn solver_addresses(solutions: &[Participant]) -> (r: Vec<H160>)
    ensures
        r@ == solvers_of(solutions@),
{
    let ghost target = solutions@.map_values(|p: Participant| p.solution.solver.0);
    let mut all: Vec<H160> = Vec::new();
    let mut i: usize = 0;
    while i < solutions.len()
        invariant
            0 <= i <= solutions.len(),
            target == solutions@.map_values(|p: Participant| p.solution.solver.0),
            all@ == target.take(i as int),
        decreases solutions.len() - i,
    {
        all.push(solutions[i].solution.solver.0);
        assert(all@ =~= target.take(i + 1));
        i += 1;
    }
    assert(all@ =~= target);
    proof {
        reveal(obeys_concrete_eq);
    }
    distinct_of(&all)
}

/// The fee policies of the orders that the solutions execute: each order
/// once, in the order in which the solutions first name it, without the
/// orders that the auction does not hold.
pub fn fee_policies(auction: &Auction, solutions: &[Participant]) -> (r: Vec<
    (OrderUid, Vec<FeePolicy>),
>)
    ensures
        fee_views(r@) == fee_policies_of(distinct(order_ids_of(solutions@)), auction.orders@),
{
    let all = all_order_ids(solutions);
    proof {
        reveal(obeys_concrete_eq);
    }
    let ids = distinct_of(&all);
    let mut r: Vec<(OrderUid, Vec<FeePolicy>)> = Vec::new();
    let mut i: usize = 0;
    assert(fee_views(r@) =~= fee_policies_of(ids@.take(0), auction.orders@));
    while i < ids.len()
        invariant
            0 <= i <= ids.len(),
            fee_views(r@) == fee_policies_of(ids@.take(i as int), auction.orders@),
        decreases ids.len() - i,
    {
        assert(ids@.take(i + 1).drop_last() =~= ids@.take(i as int));
        let ghost before = r@;
        match order_of(auction, &ids[i]) {
            Some(order) => {
                r.push((order.uid, copy_fees(&order.protocol_fees)));
                assert(fee_views(r@) =~= fee_views(before).push((order.uid, order.protocol_fees@)));
            },
            None => {},
        }
        i += 1;
    }
    assert(ids@.take(i as int) =~= ids@);
    r
}

/// Builds what storage is handed after a competition: the record of the
/// competition and the fee policies of the orders in it. Fails where no
/// solution has won.
pub fn post_processing(
    auction: &Auction,
    competition_simulation_block: u64,
    solutions: &[Participant],
    block_deadline: u64,
) -> (r: Result<PostProcessed, NoWinners>)
    ensures
        r is Err <==> first_winner(solutions@) is None,
        r is Ok ==> is_record_of(
            r->Ok_0.competition,
            *auction,
            competition_simulation_block,
            solutions@,
            block_deadline,
        ),
        r is Ok ==> fee_views(r->Ok_0.fee_policies@) == fee_policies_of(
            distinct(order_ids_of(solutions@)),
            auction.orders@,
        ),
{
    let Some(winning) = winning_participant(solutions) else {
        return Err(NoWinners);
    };
    let winner = winning.solution.solver.0;
    let winning_score = winning.solution.score.0.0;
    let reference_score = if solutions.len() > 1 {
        solutions[1].solution.score.0.0
    } else {
        U256::zero()
    };
    let competition = Competition {
        auction_id: auction.id,
        winner,
        winning_score,
        reference_score,
        participants: solver_addresses(solutions),
        prices: copy_prices(&auction.prices),
        block_deadline,
        competition_simulation_block,
        competition_table: competition_table(auction, competition_simulation_block, solutions),
    };
    Ok(PostProcessed { competition, fee_policies: fee_policies(auction, solutions) })
}

/// How far the storing of a competition has come. The auction and the
/// solutions are saved first, side by side; then the competition, the owners
/// of just-in-time orders and the fee policies, side by side again. A group
/// has failed as soon as one of its saves has, with that save's message.
#[derive(Debug, PartialEq, Eq)]
pub enum Stored {
    /// Nothing has been saved yet.
    Nothing,
    /// The first group has ended.
    Records(Result<(), String>),
    /// The second group has ended.
    Competition(Result<(), String>),
}

/// What is to be done next to store a competition.
#[derive(Debug, PartialEq, Eq)]
pub enum Step {
    /// Save the auction and the solutions.
    SaveRecords,
    /// Save the competition, the owners of just-in-time orders and the fee
    /// policies. Before that, where `notify` is set, tell the participation
    /// guard once that the solutions have been saved.
    SaveCompetition { notify: bool },
    /// Post-processing has ended, well or with the given failure.
    Done(Result<(), String>),
}

/// Decides how the storing of a competition goes on. A failure of the first
/// group is put up with: the second group is saved all the same, only the
/// guard is not told. A failure of the second group fails post-processing.
pub fn next_step(stored: Stored) -> (r: Step)
    ensures
        r == match stored {
            Stored::Nothing => Step::SaveRecords,
            Stored::Records(saved) => Step::SaveCompetition { notify: saved is Ok },
            Stored::Competition(saved) => Step::Done(saved),
        },
{
    match stored {
        Stored::Nothing => Step::SaveRecords,
        Stored::Records(saved) => Step::SaveCompetition { notify: saved.is_ok() },
        Stored::Competition(saved) => Step::Done(saved),
    }
}

} // verus!
