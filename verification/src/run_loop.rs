//! The outer loop of the coordinator: when an iteration starts, how an
//! auction is cut, and what one iteration does with it.

use crate::competition::winners::won;
use crate::domain::{
    all_order_ids, lemma_same_content, order_ids_of, Auction, OrderUid, Participant,
    RawAuctionData, Solution,
};
use crate::eth::{Address, H256};
use crate::in_flight::{not_in_flight, owns_none_of, remove_in_flight_orders, InFlightOrders};
use crate::post_processing::{
    fee_policies_of, fee_views, first_winner, is_record_of, post_processing, PostProcessed,
};
use crate::seqs::{distinct, distinct_of, holds, lemma_distinct, lemma_filter_members};
use crate::settlement::{started, Request};
use std::time::Duration;
use vstd::laws_eq::obeys_concrete_eq;
use vstd::prelude::*;

pub mod observe;

verus! {

/// The settings of the run loop.
pub struct Config {
    /// How many blocks after the block of the competition a winner has to
    /// settle.
    pub submission_deadline: u64,
    /// How long a driver may take over one settle request.
    pub max_settlement_transaction_wait: Duration,
    /// How long a driver may take over one solve request.
    pub solve_deadline: Duration,
    /// How much time past observing the current block the run loop is
    /// allowed to start before it has to wait for the next block to appear.
    pub max_run_loop_delay: Duration,
    /// How many solutions may win one auction.
    pub max_winners_per_auction: usize,
    /// How many solutions of one solver are kept for one auction.
    pub max_solutions_per_solver: usize,
}

/// How an iteration starts.
#[derive(Clone, Copy, Debug, PartialEq, Eq, Structural)]
pub struct BlockGate {
    /// Whether the iteration has to wait for the next block before it cuts
    /// an auction.
    pub wait_for_next_block: bool,
    /// Whether a missed start is worth a warning.
    pub warn: bool,
}

/// Decides when the next iteration may start. Where more time has passed
/// since the current block was observed than the run loop may be late, the
/// iteration waits for the next block; otherwise it starts at once. The
/// wait is worth a warning only where the iteration before ran on another
/// block than the current one. Both times are in nanoseconds.
pub fn block_gate(
    time_since_last_block: u128,
    max_run_loop_delay: u128,
    prev_block: &Option<H256>,
    current_block: &H256,
) -> (r: BlockGate)
    ensures
        r.wait_for_next_block == (time_since_last_block > max_run_loop_delay),
        r.warn == (time_since_last_block > max_run_loop_delay && prev_block is Some
            && prev_block.unwrap() != *current_block),
{
    let wait_for_next_block = time_since_last_block > max_run_loop_delay;
    let warn = wait_for_next_block && match prev_block {
        Some(prev_block) => *prev_block != *current_block,
        None => false,
    };
    BlockGate { wait_for_next_block, warn }
}

/// Takes what the cache holds and leaves out what is in flight: the orders
/// that are being settled, and the owners of just-in-time orders that such
/// an order names. Without a cached auction there is nothing to cut.
pub fn cut_auction(cached: Option<RawAuctionData>, in_flight: &InFlightOrders) -> (r: Option<
    RawAuctionData,
>)
    ensures
        cached is None <==> r is None,
        r is Some ==> {
            let auction = cached.unwrap();
            let cut = r.unwrap();
            &&& cut.block == auction.block
            &&& cut.prices == auction.prices
            &&& cut.orders@ == auction.orders@.filter(not_in_flight(in_flight@))
            &&& cut.surplus_capturing_jit_order_owners@
                == auction.surplus_capturing_jit_order_owners@.filter(owns_none_of(in_flight@))
            &&& auction.wf() ==> cut.wf()
        },
{
    match cached {
        Some(auction) => Some(remove_in_flight_orders(auction, in_flight)),
        None => None,
    }
}

/// How a cut ended.
#[derive(Debug)]
pub enum Cut {
    /// Storage did not take the auction: the iteration is skipped.
    StorageFailed,
    /// The auction holds no order: the iteration is skipped, and the
    /// liveness probe is refreshed, so that a quiet market does not look
    /// like a dead service.
    Empty,
    /// The auction under the id that storage gave it.
    Auction(Auction),
}

/// Ends a cut once storage has been asked to replace the current auction.
/// `stored` is the id that storage gave, or `None` where it failed.
pub fn finish_cut(auction: RawAuctionData, stored: Option<i64>) -> (r: Cut)
    ensures
        stored is None ==> r is StorageFailed,
        stored is Some && auction.orders@.len() == 0 ==> r is Empty,
        stored is Some && auction.orders@.len() > 0 ==> r == Cut::Auction(
            Auction {
                id: stored.unwrap(),
                block: auction.block,
                orders: auction.orders,
                prices: auction.prices,
                surplus_capturing_jit_order_owners: auction.surplus_capturing_jit_order_owners,
            },
        ),
{
    let Some(id) = stored else {
        return Cut::StorageFailed;
    };
    if auction.orders.len() == 0 {
        return Cut::Empty;
    }
    Cut::Auction(
        Auction {
            id,
            block: auction.block,
            orders: auction.orders,
            prices: auction.prices,
            surplus_capturing_jit_order_owners: auction.surplus_capturing_jit_order_owners,
        },
    )
}

/// Whether an iteration is skipped: the auction has the content of the one
/// before, and the block is the same.
pub open spec fn is_unchanged(
    prev_auction: Option<Auction>,
    prev_block: Option<H256>,
    auction: Auction,
    block: H256,
) -> bool {
    &&& prev_auction is Some
    &&& prev_auction.unwrap().same_content(auction)
    &&& prev_block == Some(block)
}

/// Holds the auction that was just cut against the one before. Where
/// neither the auction nor the block has changed, the iteration is skipped
/// and `None` comes back; otherwise the auction does. Either way the auction
/// and the block are remembered for the next iteration.
pub fn next_auction(
    prev_auction: &mut Option<Auction>,
    prev_block: &mut Option<H256>,
    auction: Auction,
    block: H256,
) -> (r: Option<Auction>)
    ensures
        r is None <==> is_unchanged(*old(prev_auction), *old(prev_block), auction, block),
        r is Some ==> r.unwrap() == auction,
        (*final(prev_auction)) is Some,
        (*final(prev_auction)).unwrap().same_content(auction),
        (*final(prev_auction)).unwrap().id == auction.id,
        *final(prev_block) == Some(block),
{
    let unchanged = match prev_auction {
        Some(previous) => *previous == auction,
        None => false,
    } && match prev_block {
        Some(previous) => *previous == block,
        None => false,
    };
    *prev_auction = Some(auction.clone());
    *prev_block = Some(block);
    if unchanged {
        None
    } else {
        Some(auction)
    }
}

/// An auction with unchanged content at an unchanged block is skipped:
/// once an iteration has seen `first` at `block`, the next that sees the
/// same content at the same block runs nothing.
pub proof fn lemma_idempotent_skip(
    remembered: Auction,
    first: Auction,
    second: Auction,
    block: H256,
)
    requires
        remembered.same_content(first),
        second.same_content(first),
    ensures
        is_unchanged(Some(remembered), Some(block), second, block),
{
    lemma_same_content(second, first, remembered);
    lemma_same_content(remembered, first, second);
}

/// A uid that `other` does not hold.
pub open spec fn missing_from(other: Seq<OrderUid>) -> spec_fn(OrderUid) -> bool {
    |uid: OrderUid| !other.contains(uid)
}

/// A uid that `other` holds.
pub open spec fn found_in(other: Seq<OrderUid>) -> spec_fn(OrderUid) -> bool {
    |uid: OrderUid| other.contains(uid)
}

/// The uids of `a` that `b` does not hold, in their order.
pub(crate) fn uids_missing_from(a: &Vec<OrderUid>, b: &Vec<OrderUid>) -> (r: Vec<OrderUid>)
    ensures
        r@ == a@.filter(missing_from(b@)),
{
    let mut r: Vec<OrderUid> = Vec::new();
    let mut i: usize = 0;
    assert(a@.take(0).filter(missing_from(b@)) =~= Seq::<OrderUid>::empty()) by {
        reveal(Seq::filter);
    }
    while i < a.len()
        invariant
            0 <= i <= a.len(),
            r@ == a@.take(i as int).filter(missing_from(b@)),
        decreases a.len() - i,
    {
        proof {
            reveal(Seq::filter);
            reveal(obeys_concrete_eq);
            assert(a@.take(i + 1).drop_last() =~= a@.take(i as int));
        }
        if !holds(b, &a[i]) {
            r.push(a[i]);
        }
        i += 1;
    }
    assert(a@.take(i as int) =~= a@);
    r
}

/// The uids of `a` that `b` holds, in their order.
pub(crate) fn uids_found_in(a: &Vec<OrderUid>, b: &Vec<OrderUid>) -> (r: Vec<OrderUid>)
    ensures
        r@ == a@.filter(found_in(b@)),
{
    let mut r: Vec<OrderUid> = Vec::new();
    let mut i: usize = 0;
    assert(a@.take(0).filter(found_in(b@)) =~= Seq::<OrderUid>::empty()) by {
        reveal(Seq::filter);
    }
    while i < a.len()
        invariant
            0 <= i <= a.len(),
            r@ == a@.take(i as int).filter(found_in(b@)),
        decreases a.len() - i,
    {
        proof {
            reveal(Seq::filter);
            reveal(obeys_concrete_eq);
            assert(a@.take(i + 1).drop_last() =~= a@.take(i as int));
        }
        if holds(b, &a[i]) {
            r.push(a[i]);
        }
        i += 1;
    }
    assert(a@.take(i as int) =~= a@);
    r
}

/// The uids of the orders that the winning solutions execute, solution
/// after solution.
pub open spec fn winning_order_ids(s: Seq<Participant>) -> Seq<OrderUid> {
    order_ids_of(s.filter(won()))
}

/// The orders that are marked as executing: those of the winning
/// solutions, each once.
pub open spec fn executing_of(s: Seq<Participant>) -> Seq<OrderUid> {
    distinct(winning_order_ids(s))
}

/// The orders that are marked as considered: those of all solutions that no
/// winning solution executes. An order stands as often as solutions name
/// it.
pub open spec fn considered_of(s: Seq<Participant>) -> Seq<OrderUid> {
    order_ids_of(s).filter(missing_from(winning_order_ids(s)))
}

pub(crate) fn winning_ids(solutions: &[Participant]) -> (r: Vec<OrderUid>)
    ensures
        r@ == winning_order_ids(solutions@),
{
    let mut ids: Vec<OrderUid> = Vec::new();
    let mut i: usize = 0;
    assert(solutions@.take(0).filter(won()) =~= Seq::<Participant>::empty()) by {
        reveal(Seq::filter);
    }
    while i < solutions.len()
        invariant
            0 <= i <= solutions.len(),
            ids@ == order_ids_of(solutions@.take(i as int).filter(won())),
        decreases solutions.len() - i,
    {
        proof {
            reveal(Seq::filter);
            assert(solutions@.take(i + 1).drop_last() =~= solutions@.take(i as int));
            let winners = solutions@.take(i as int).filter(won());
            assert(winners.push(solutions@[i as int]).drop_last() =~= winners);
        }
        if solutions[i].is_winner() {
            let mut own = solutions[i].solution.order_ids();
            ids.append(&mut own);
        }
        i += 1;
    }
    assert(solutions@.take(i as int) =~= solutions@);
    ids
}

/// The orders to mark as executing: those of the winning solutions, each
/// once.
pub fn executing_orders(solutions: &[Participant]) -> (r: Vec<OrderUid>)
    ensures
        r@ == executing_of(solutions@),
{
    let winning = winning_ids(solutions);
    proof {
        reveal(obeys_concrete_eq);
    }
    distinct_of(&winning)
}

/// The orders to mark as considered: those of all solutions that no
/// winning solution executes.
pub fn considered_orders(solutions: &[Participant]) -> (r: Vec<OrderUid>)
    ensures
        r@ == considered_of(solutions@),
{
    let winning = winning_ids(solutions);
    let all = all_order_ids(solutions);
    uids_missing_from(&all, &winning)
}

proof fn lemma_order_ids_contain(s: Seq<Participant>, i: int, k: int)
    requires
        0 <= i < s.len(),
        0 <= k < s[i].solution.orders@.len(),
    ensures
        order_ids_of(s).contains(s[i].solution.orders@[k].0),
    decreases s.len(),
{
    let own = s.last().solution.spec_order_ids();
    let before = order_ids_of(s.drop_last());
    if i == s.len() - 1 {
        assert(order_ids_of(s)[before.len() + k] == own[k]);
    } else {
        lemma_order_ids_contain(s.drop_last(), i, k);
        let uid = s[i].solution.orders@[k].0;
        let j = choose|j: int| 0 <= j < before.len() && before[j] == uid;
        assert(order_ids_of(s)[j] == uid);
    }
}

proof fn lemma_order_ids_origin(s: Seq<Participant>, uid: OrderUid)
    requires
        order_ids_of(s).contains(uid),
    ensures
        exists|i: int, k: int|
            0 <= i < s.len() && 0 <= k < s[i].solution.orders@.len()
                && #[trigger] s[i].solution.orders@[k].0 == uid,
    decreases s.len(),
{
    if s.len() > 0 {
        let own = s.last().solution.spec_order_ids();
        let before = order_ids_of(s.drop_last());
        let j = choose|j: int| 0 <= j < order_ids_of(s).len() && order_ids_of(s)[j] == uid;
        if j < before.len() {
            assert(before[j] == uid);
            assert(before.contains(uid));
            lemma_order_ids_origin(s.drop_last(), uid);
            let (i, k) = choose|i: int, k: int|
                0 <= i < s.drop_last().len() && 0 <= k < s.drop_last()[i].solution.orders@.len()
                    && #[trigger] s.drop_last()[i].solution.orders@[k].0 == uid;
            assert(s[i].solution.orders@[k].0 == uid);
        } else {
            assert(own[j - before.len()] == uid);
            assert(s[s.len() - 1].solution.orders@[j - before.len()].0 == uid);
        }
    }
}

/// The order events of one iteration fit together: an order is marked as
/// executing exactly if a winning solution executes it, and once; no order
/// is marked both as executing and as considered; and every order of a
/// solution is marked as one of the two, and nothing else is.
pub proof fn lemma_order_events(s: Seq<Participant>)
    ensures
        forall|uid: OrderUid| #[trigger]
            executing_of(s).contains(uid) <==> winning_order_ids(s).contains(uid),
        executing_of(s).no_duplicates(),
        forall|uid: OrderUid|
            !(#[trigger] executing_of(s).contains(uid) && considered_of(s).contains(uid)),
        forall|uid: OrderUid| #[trigger]
            order_ids_of(s).contains(uid) <==> (executing_of(s).contains(uid) || considered_of(
                s,
            ).contains(uid)),
{
    let all = order_ids_of(s);
    let winning = winning_order_ids(s);
    let winners = s.filter(won());
    lemma_distinct(winning);
    lemma_filter_members(all, missing_from(winning));
    lemma_filter_members(s, won());
    assert forall|uid: OrderUid| #[trigger] winning.contains(uid) implies all.contains(uid) by {
        lemma_order_ids_origin(winners, uid);
        let (i, k) = choose|i: int, k: int|
            0 <= i < winners.len() && 0 <= k < winners[i].solution.orders@.len()
                && #[trigger] winners[i].solution.orders@[k].0 == uid;
        assert(winners.contains(winners[i]));
        assert(s.contains(winners[i]));
        let m = choose|m: int| 0 <= m < s.len() && s[m] == winners[i];
        lemma_order_ids_contain(s, m, k);
    }
    assert forall|uid: OrderUid| #[trigger]
        order_ids_of(s).contains(uid) <==> (executing_of(s).contains(uid) || considered_of(
            s,
        ).contains(uid)) by {
        assert(executing_of(s).contains(uid) <==> winning.contains(uid));
        assert(considered_of(s).contains(uid) <==> (all.contains(uid) && !winning.contains(uid)));
    }
    assert forall|uid: OrderUid|
        !(#[trigger] executing_of(s).contains(uid) && considered_of(s).contains(uid)) by {
        assert(executing_of(s).contains(uid) <==> winning.contains(uid));
        assert(considered_of(s).contains(uid) <==> (all.contains(uid) && !winning.contains(uid)));
    }
}

/// Whatever is marked as executing or as considered has been marked as
/// ready, provided that every order of the solutions is an order of the
/// auction. An order that a solution brings along itself is never ready.
pub proof fn lemma_events_were_ready(s: Seq<Participant>, auction: Auction)
    requires
        forall|uid: OrderUid| #[trigger]
            order_ids_of(s).contains(uid) ==> auction.spec_order_uids().contains(uid),
    ensures
        forall|uid: OrderUid| #[trigger]
            executing_of(s).contains(uid) ==> auction.spec_order_uids().contains(uid),
        forall|uid: OrderUid| #[trigger]
            considered_of(s).contains(uid) ==> auction.spec_order_uids().contains(uid),
{
    lemma_order_events(s);
    assert forall|uid: OrderUid|
        executing_of(s).contains(uid) || considered_of(s).contains(
            uid,
        ) implies #[trigger] auction.spec_order_uids().contains(uid) by {
        assert(order_ids_of(s).contains(uid));
    }
}

/// The block until which the winners of a competition may settle: the
/// block at which the competition was simulated and the configured number
/// of blocks after it.
pub fn block_deadline(competition_simulation_block: u64, config: &Config) -> (r: u64)
    requires
        competition_simulation_block + config.submission_deadline <= u64::MAX,
    ensures
        r == competition_simulation_block + config.submission_deadline,
{
    competition_simulation_block + config.submission_deadline
}

/// The settle request for a winner.
pub open spec fn request_for(auction_id: i64, deadline: u64) -> spec_fn(Participant) -> Request {
    |p: Participant|
        Request {
            solution_id: p.solution.id,
            submission_deadline_latest_block: deadline,
            auction_id,
        }
}

/// Why an iteration ends without a settlement.
#[derive(Clone, Copy, Debug, PartialEq, Eq, Structural)]
pub enum RunError {
    /// No driver proposed a valid solution.
    NoSolutions,
    /// No solution of the ranking is a winner.
    NoWinners,
}

/// What one iteration does once the competition is over.
#[derive(Debug)]
pub struct Run {
    /// The block until which the winners may settle.
    pub block_deadline: u64,
    /// What storage is handed of the competition.
    pub post_processed: PostProcessed,
    /// The orders to mark as executing.
    pub executing: Vec<OrderUid>,
    /// The orders to mark as considered.
    pub considered: Vec<OrderUid>,
    /// The settle request for each winner, from the best down.
    pub settlements: Vec<Request>,
}

/// Whether `run` is what the iteration on the ranking `s` does.
pub open spec fn is_run_of(
    run: Run,
    auction: Auction,
    s: Seq<Participant>,
    competition_simulation_block: u64,
    submission_deadline: u64,
) -> bool {
    &&& run.block_deadline == competition_simulation_block + submission_deadline
    &&& is_record_of(
        run.post_processed.competition,
        auction,
        competition_simulation_block,
        s,
        run.block_deadline,
    )
    &&& fee_views(run.post_processed.fee_policies@) == fee_policies_of(
        distinct(order_ids_of(s)),
        auction.orders@,
    )
    &&& run.executing@ == executing_of(s)
    &&& run.considered@ == considered_of(s)
    &&& run.settlements@ == s.filter(won()).map_values(request_for(auction.id, run.block_deadline))
}

/// The deadline that post-processing records is the one that every
/// settlement is given, and under which its start is stored: the block of
/// the competition and the configured number of blocks after it.
pub proof fn lemma_deadline_preserved(
    run: Run,
    auction: Auction,
    s: Seq<Participant>,
    competition_simulation_block: u64,
    submission_deadline: u64,
)
    requires
        is_run_of(run, auction, s, competition_simulation_block, submission_deadline),
    ensures
        run.post_processed.competition.block_deadline == competition_simulation_block
            + submission_deadline,
        forall|k: int|
            0 <= k < run.settlements@.len() ==> (
            #[trigger] run.settlements@[k]).submission_deadline_latest_block
                == competition_simulation_block + submission_deadline,
        forall|k: int, solver: Address, block: u64|
            0 <= k < run.settlements@.len() ==> (#[trigger] started(
                run.settlements@[k],
                solver,
                block,
            )).deadline_block == competition_simulation_block + submission_deadline,
{
}

fn settle_requests(solutions: &[Participant], auction_id: i64, deadline: u64) -> (r: Vec<
    Request,
>)
    ensures
        r@ == solutions@.filter(won()).map_values(request_for(auction_id, deadline)),
{
    let mut r: Vec<Request> = Vec::new();
    let mut i: usize = 0;
    assert(solutions@.take(0).filter(won()) =~= Seq::<Participant>::empty()) by {
        reveal(Seq::filter);
    }
    assert(r@ =~= solutions@.take(0).filter(won()).map_values(request_for(auction_id, deadline)));
    while i < solutions.len()
        invariant
            0 <= i <= solutions.len(),
            r@ == solutions@.take(i as int).filter(won()).map_values(
                request_for(auction_id, deadline),
            ),
        decreases solutions.len() - i,
    {
        proof {
            reveal(Seq::filter);
            assert(solutions@.take(i + 1).drop_last() =~= solutions@.take(i as int));
        }
        let ghost winners = solutions@.take(i as int).filter(won());
        if solutions[i].is_winner() {
            r.push(
                Request {
                    solution_id: solutions[i].solution.id,
                    submission_deadline_latest_block: deadline,
                    auction_id,
                },
            );
            assert(r@ =~= winners.push(solutions@[i as int]).map_values(
                request_for(auction_id, deadline),
            ));
        }
        i += 1;
    }
    assert(solutions@.take(i as int) =~= solutions@);
    r
}

/// Works out what one iteration does with the ranking of its auction: what
/// is stored of the competition, which orders are marked as executing and
/// as considered, and which settlements are started, all under one
/// deadline. Without solutions, or without a winner among them, the
/// iteration ends here.
pub fn single_run(
    auction: &Auction,
    solutions: &[Participant],
    competition_simulation_block: u64,
    config: &Config,
) -> (r: Result<Run, RunError>)
    requires
        competition_simulation_block + config.submission_deadline <= u64::MAX,
    ensures
        solutions@.len() == 0 ==> r == Err::<Run, RunError>(RunError::NoSolutions),
        solutions@.len() > 0 && first_winner(solutions@) is None ==> r == Err::<Run, RunError>(
            RunError::NoWinners,
        ),
        solutions@.len() > 0 && first_winner(solutions@) is Some ==> r is Ok && is_run_of(
            r->Ok_0,
            *auction,
            solutions@,
            competition_simulation_block,
            config.submission_deadline,
        ),
{
    if solutions.len() == 0 {
        return Err(RunError::NoSolutions);
    }
    let block_deadline = block_deadline(competition_simulation_block, config);
    let post_processed = match post_processing(
        auction,
        competition_simulation_block,
        solutions,
        block_deadline,
    ) {
        Ok(post_processed) => post_processed,
        Err(_) => {
            return Err(RunError::NoWinners);
        },
    };
    Ok(
        Run {
            block_deadline,
            post_processed,
            executing: executing_orders(solutions),
            considered: considered_orders(solutions),
            settlements: settle_requests(solutions, auction.id, block_deadline),
        },
    )
}

/// The settlement of one winning solution as it is started.
#[derive(Debug)]
pub struct SettlementExecution {
    /// What the driver is asked.
    pub request: Request,
    /// The address that is to submit the settlement.
    pub solver: Address,
    /// The orders that the solution executes. They stay in flight until
    /// the settlement has ended.
    pub solved_order_uids: Vec<OrderUid>,
}

/// Starts the settlement of a winning solution: its orders are put in
/// flight, and the request for the driver is made under the given deadline.
pub fn start_settlement_execution(
    in_flight: &mut InFlightOrders,
    auction_id: i64,
    solution: &Solution,
    block_deadline: u64,
) -> (r: SettlementExecution)
    requires
        old(in_flight).wf(),
    ensures
        final(in_flight).wf(),
        final(in_flight)@ == old(in_flight)@.union(solution.spec_order_ids().to_set()),
        r.request == (Request {
            solution_id: solution.id,
            submission_deadline_latest_block: block_deadline,
            auction_id,
        }),
        r.solver == solution.solver,
        r.solved_order_uids@ == solution.spec_order_ids(),
{
    let solved_order_uids = solution.order_ids();
    in_flight.insert_all(&solved_order_uids);
    SettlementExecution {
        request: Request {
            solution_id: solution.id,
            submission_deadline_latest_block: block_deadline,
            auction_id,
        },
        solver: solution.solver,
        solved_order_uids,
    }
}

/// Ends the settlement of a solution, however it went: its orders are
/// taken out of flight.
pub fn end_settlement_execution(in_flight: &mut InFlightOrders, execution: &SettlementExecution)
    requires
        old(in_flight).wf(),
    ensures
        final(in_flight).wf(),
        final(in_flight)@ == old(in_flight)@.difference(execution.solved_order_uids@.to_set()),
{
    in_flight.remove_all(&execution.solved_order_uids);
}

} // verus!

