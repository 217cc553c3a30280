use autopilot::domain::{
    Auction, Driver, FeePolicy, Order, OrderUid, Participant, Price, RawAuctionData, Score, Side,
    Solution, TokenAmount, TradedOrder,
};
use autopilot::eth::{Address, Asset, Ether, TokenAddress, H160, H256, U256};
use autopilot::in_flight::{remove_in_flight_orders, InFlightOrders};
use autopilot::run_loop::observe::{log_auction_delta, solutions, unsettled};
use autopilot::run_loop::{
    block_deadline, block_gate, considered_orders, cut_auction, end_settlement_execution,
    executing_orders, finish_cut, next_auction, single_run, start_settlement_execution, BlockGate,
    Config, Cut, RunError,
};
use autopilot::settlement::{
    check_deadline, discovery_step, outcome, Discovery, Event, Request, SettleError, Settlement,
};
use std::time::Duration;

fn h160(n: u8) -> H160 {
    let mut bytes = [0u8; 20];
    bytes[19] = n;
    H160(bytes)
}

fn uid(n: u8) -> OrderUid {
    let mut bytes = [0u8; 56];
    bytes[0] = n;
    OrderUid(bytes)
}

fn uid_of(n: u8, owner: u8) -> OrderUid {
    let mut bytes = [0u8; 56];
    bytes[0] = n;
    bytes[51] = owner;
    OrderUid(bytes)
}

fn asset(t: u8, amount: u64) -> Asset {
    Asset { amount: U256::from_u64(amount), token: TokenAddress(h160(t)) }
}

fn order_with(uid: OrderUid) -> Order {
    Order {
        uid,
        sell: asset(1, 1000),
        buy: asset(2, 1000),
        side: Side::Sell,
        partially_fillable: false,
        protocol_fees: vec![FeePolicy(1)],
    }
}

fn order(n: u8) -> Order {
    order_with(uid(n))
}

fn raw(orders: Vec<Order>, owners: Vec<u8>) -> RawAuctionData {
    RawAuctionData {
        block: 90,
        orders,
        prices: vec![(TokenAddress(h160(1)), Price(Ether(U256::from_u64(500))))],
        surplus_capturing_jit_order_owners: owners.into_iter().map(|n| Address(h160(n))).collect(),
    }
}

fn auction(id: i64, orders: Vec<u8>) -> Auction {
    Auction {
        id,
        block: 90,
        orders: orders.into_iter().map(order).collect(),
        prices: vec![(TokenAddress(h160(1)), Price(Ether(U256::from_u64(500))))],
        surplus_capturing_jit_order_owners: vec![],
    }
}

fn trade() -> TradedOrder {
    TradedOrder {
        side: Side::Sell,
        sell: asset(1, 1000),
        buy: asset(2, 1000),
        executed_sell: TokenAmount(U256::from_u64(10)),
        executed_buy: TokenAmount(U256::from_u64(20)),
    }
}

fn ranked(id: u64, name: &str, score: u64, orders: Vec<u8>, is_winner: bool) -> Participant {
    Participant::new(
        Solution::new(
            id,
            Address(h160(10)),
            Score(Ether(U256::from_u64(score))),
            orders.into_iter().map(|n| (uid(n), trade())).collect(),
            vec![],
        ),
        Driver {
            name: name.to_string(),
            submission_address: Address(h160(10)),
            fairness_threshold: None,
        },
    )
    .rank(is_winner)
}

fn config(submission_deadline: u64) -> Config {
    Config {
        submission_deadline,
        max_settlement_transaction_wait: Duration::from_secs(60),
        solve_deadline: Duration::from_secs(15),
        max_run_loop_delay: Duration::from_secs(2),
        max_winners_per_auction: 1,
        max_solutions_per_solver: 1,
    }
}

fn uids(values: Vec<u8>) -> Vec<OrderUid> {
    values.into_iter().map(uid).collect()
}

#[test]
fn empty_auction_is_skipped() {
    let in_flight = InFlightOrders::new();
    let cut = cut_auction(Some(raw(vec![], vec![])), &in_flight).unwrap();
    assert!(cut.orders.is_empty());
    assert!(matches!(finish_cut(cut, Some(1)), Cut::Empty));
}

#[test]
fn missing_cache_cuts_nothing() {
    assert!(cut_auction(None, &InFlightOrders::new()).is_none());
}

#[test]
fn storage_failure_skips_iteration() {
    assert!(matches!(finish_cut(raw(vec![order(1)], vec![]), None), Cut::StorageFailed));
    assert!(matches!(finish_cut(raw(vec![], vec![]), None), Cut::StorageFailed));
}

#[test]
fn cut_takes_the_stored_id() {
    let Cut::Auction(auction) = finish_cut(raw(vec![order(1), order(2)], vec![7]), Some(55)) else {
        panic!("an auction was expected");
    };
    assert_eq!(auction.id, 55);
    assert_eq!(auction.block, 90);
    assert_eq!(auction.order_uids(), uids(vec![1, 2]));
    assert_eq!(auction.prices.len(), 1);
    assert_eq!(auction.surplus_capturing_jit_order_owners, vec![Address(h160(7))]);
}

#[test]
fn in_flight_orders_are_left_out() {
    let mut in_flight = InFlightOrders::new();
    in_flight.insert_all(&vec![uid_of(2, 8)]);
    let orders =
        vec![order_with(uid_of(1, 7)), order_with(uid_of(2, 8)), order_with(uid_of(3, 9))];
    let cut = remove_in_flight_orders(raw(orders, vec![7, 8, 9]), &in_flight);
    let left: Vec<OrderUid> = cut.orders.iter().map(|o| o.uid).collect();
    assert_eq!(left, vec![uid_of(1, 7), uid_of(3, 9)]);
    assert_eq!(cut.surplus_capturing_jit_order_owners, vec![Address(h160(7)), Address(h160(9))]);
    assert_eq!(cut.block, 90);
    assert_eq!(cut.prices.len(), 1);
}

#[test]
fn auction_that_empties_is_skipped() {
    let mut in_flight = InFlightOrders::new();
    in_flight.insert_all(&uids(vec![1]));
    let cut = cut_auction(Some(raw(vec![order(1)], vec![])), &in_flight).unwrap();
    assert!(matches!(finish_cut(cut, Some(3)), Cut::Empty));
}

#[test]
fn insert_then_remove_restores_the_set() {
    let mut in_flight = InFlightOrders::new();
    in_flight.insert_all(&uids(vec![1, 2]));
    in_flight.insert_all(&uids(vec![3, 4, 3]));
    assert_eq!(in_flight.len(), 4);
    assert!(in_flight.contains(&uid(3)));
    in_flight.remove_all(&uids(vec![3, 4, 3]));
    assert_eq!(in_flight.len(), 2);
    assert!(in_flight.contains(&uid(1)));
    assert!(in_flight.contains(&uid(2)));
    assert!(!in_flight.contains(&uid(3)));
    assert!(!in_flight.contains(&uid(4)));
    in_flight.remove_all(&uids(vec![1, 2, 9]));
    assert!(in_flight.is_empty());
}

#[test]
fn removing_a_shared_uid_takes_it_out() {
    // The law of insert and remove asks that the uids were not in flight
    // before: one that was is gone afterwards.
    let mut in_flight = InFlightOrders::new();
    in_flight.insert_all(&uids(vec![1]));
    in_flight.insert_all(&uids(vec![1]));
    assert_eq!(in_flight.len(), 1);
    in_flight.remove_all(&uids(vec![1]));
    assert!(in_flight.is_empty());
}

#[test]
fn in_flight_knows_owners() {
    let mut in_flight = InFlightOrders::new();
    assert!(!in_flight.owns(&Address(h160(0))));
    in_flight.insert_all(&vec![uid_of(1, 7)]);
    assert!(in_flight.owns(&Address(h160(7))));
    assert!(!in_flight.owns(&Address(h160(8))));
}

#[test]
fn gate_waits_when_block_is_old() {
    let hash = H256([1; 32]);
    let other = H256([2; 32]);
    assert_eq!(
        block_gate(3, 2, &Some(other), &hash),
        BlockGate { wait_for_next_block: true, warn: true }
    );
    assert_eq!(
        block_gate(3, 2, &Some(hash), &hash),
        BlockGate { wait_for_next_block: true, warn: false }
    );
    assert_eq!(block_gate(3, 2, &None, &hash), BlockGate { wait_for_next_block: true, warn: false });
}

#[test]
fn gate_opens_when_block_is_fresh() {
    let hash = H256([1; 32]);
    let other = H256([2; 32]);
    assert_eq!(
        block_gate(2, 2, &Some(other), &hash),
        BlockGate { wait_for_next_block: false, warn: false }
    );
    assert_eq!(
        block_gate(0, 2, &None, &hash),
        BlockGate { wait_for_next_block: false, warn: false }
    );
}

#[test]
fn unchanged_auction_at_same_block_is_skipped() {
    let hash = H256([1; 32]);
    let mut prev_auction = None;
    let mut prev_block = None;
    let first = next_auction(&mut prev_auction, &mut prev_block, auction(1, vec![1, 2]), hash);
    assert_eq!(first.unwrap().id, 1);
    // The same content under a new id, at the same block.
    let second = next_auction(&mut prev_auction, &mut prev_block, auction(2, vec![1, 2]), hash);
    assert!(second.is_none());
    assert_eq!(prev_auction.as_ref().unwrap().id, 2);
    assert_eq!(prev_block, Some(hash));
    let third = next_auction(&mut prev_auction, &mut prev_block, auction(3, vec![1, 2]), hash);
    assert!(third.is_none());
}

#[test]
fn changed_block_or_auction_runs() {
    let hash = H256([1; 32]);
    let other = H256([2; 32]);
    let mut prev_auction = None;
    let mut prev_block = None;
    assert!(next_auction(&mut prev_auction, &mut prev_block, auction(1, vec![1]), hash).is_some());
    assert!(next_auction(&mut prev_auction, &mut prev_block, auction(2, vec![1]), other).is_some());
    assert!(next_auction(&mut prev_auction, &mut prev_block, auction(3, vec![1, 2]), other)
        .is_some());
    assert!(next_auction(&mut prev_auction, &mut prev_block, auction(4, vec![1, 2]), other)
        .is_none());
    let mut changed = auction(5, vec![1, 2]);
    changed.orders[1].protocol_fees.push(FeePolicy(2));
    assert!(next_auction(&mut prev_auction, &mut prev_block, changed, other).is_some());
}

#[test]
fn auction_equality_ignores_id() {
    assert_eq!(auction(1, vec![1, 2]), auction(2, vec![1, 2]));
    assert_ne!(auction(1, vec![1, 2]), auction(1, vec![2, 1]));
    let mut other_block = auction(1, vec![1, 2]);
    other_block.block = 91;
    assert_ne!(auction(1, vec![1, 2]), other_block);
    let mut other_price = auction(1, vec![1, 2]);
    other_price.prices[0].1 = Price(Ether(U256::from_u64(501)));
    assert_ne!(auction(1, vec![1, 2]), other_price);
    let mut other_owner = auction(1, vec![1, 2]);
    other_owner.surplus_capturing_jit_order_owners.push(Address(h160(1)));
    assert_ne!(auction(1, vec![1, 2]), other_owner);
    let copy = auction(1, vec![1, 2]).clone();
    assert_eq!(copy.id, 1);
    assert_eq!(copy, auction(1, vec![1, 2]));
}

#[test]
fn winning_orders_execute_and_others_are_considered() {
    let ranking = vec![
        ranked(1, "a", 100, vec![1, 2], true),
        ranked(2, "b", 90, vec![2, 3], false),
        ranked(3, "c", 80, vec![4, 1], true),
        ranked(4, "d", 70, vec![3, 5], false),
    ];
    let executing = executing_orders(&ranking);
    let considered = considered_orders(&ranking);
    assert_eq!(executing, uids(vec![1, 2, 4]));
    assert_eq!(considered, uids(vec![3, 3, 5]));
    for uid in &considered {
        assert!(!executing.contains(uid));
    }
    let ready = auction(1, vec![1, 2, 3, 4, 5]).order_uids();
    for uid in executing.iter().chain(considered.iter()) {
        assert!(ready.contains(uid));
    }
}

#[test]
fn no_winner_means_nothing_executes() {
    let ranking = vec![ranked(1, "a", 100, vec![1, 2], false)];
    assert!(executing_orders(&ranking).is_empty());
    assert_eq!(considered_orders(&ranking), uids(vec![1, 2]));
}

#[test]
fn deadline_is_simulation_block_plus_submission_deadline() {
    assert_eq!(block_deadline(100, &config(5)), 105);
    assert_eq!(block_deadline(u64::MAX - 5, &config(5)), u64::MAX);
    assert_eq!(block_deadline(0, &config(0)), 0);
}

#[test]
fn single_solution_run() {
    let ranking = vec![ranked(7, "a", 100, vec![1], true)];
    let run = single_run(&auction(42, vec![1, 2]), &ranking, 100, &config(5)).unwrap();
    assert_eq!(run.block_deadline, 105);
    assert_eq!(run.post_processed.competition.block_deadline, 105);
    assert_eq!(run.post_processed.competition.reference_score, U256::zero());
    assert_eq!(run.post_processed.competition.winning_score, U256::from_u64(100));
    assert_eq!(run.executing, uids(vec![1]));
    assert!(run.considered.is_empty());
    assert_eq!(
        run.settlements,
        vec![Request { solution_id: 7, submission_deadline_latest_block: 105, auction_id: 42 }]
    );
}

#[test]
fn every_winner_is_settled_under_one_deadline() {
    let ranking = vec![
        ranked(7, "a", 100, vec![1], true),
        ranked(8, "b", 90, vec![2], false),
        ranked(9, "c", 80, vec![3], true),
    ];
    let run = single_run(&auction(42, vec![1, 2, 3]), &ranking, 1000, &config(3)).unwrap();
    assert_eq!(run.post_processed.competition.block_deadline, 1003);
    assert_eq!(
        run.settlements,
        vec![
            Request { solution_id: 7, submission_deadline_latest_block: 1003, auction_id: 42 },
            Request { solution_id: 9, submission_deadline_latest_block: 1003, auction_id: 42 },
        ]
    );
    assert_eq!(run.executing, uids(vec![1, 3]));
    assert_eq!(run.considered, uids(vec![2]));
}

#[test]
fn run_without_solutions_or_winners_ends() {
    let auction = auction(42, vec![1]);
    assert_eq!(single_run(&auction, &vec![], 100, &config(5)).unwrap_err(), RunError::NoSolutions);
    let ranking = vec![ranked(7, "a", 100, vec![1], false)];
    assert_eq!(single_run(&auction, &ranking, 100, &config(5)).unwrap_err(), RunError::NoWinners);
}

#[test]
fn settlement_holds_orders_in_flight() {
    let mut in_flight = InFlightOrders::new();
    let ranking = vec![ranked(7, "a", 100, vec![1, 2], true)];
    let execution = start_settlement_execution(&mut in_flight, 42, &ranking[0].solution, 105);
    assert_eq!(
        execution.request,
        Request { solution_id: 7, submission_deadline_latest_block: 105, auction_id: 42 }
    );
    assert_eq!(execution.solver, Address(h160(10)));
    assert_eq!(execution.solved_order_uids, uids(vec![1, 2]));
    assert!(in_flight.contains(&uid(1)));
    assert!(in_flight.contains(&uid(2)));
    end_settlement_execution(&mut in_flight, &execution);
    assert!(in_flight.is_empty());
}

#[test]
fn delta_lists_added_and_removed_orders() {
    let previous = Some(auction(1, vec![1, 2, 3]));
    let delta = log_auction_delta(&previous, &auction(2, vec![3, 4, 5, 4]));
    assert_eq!(delta.id, 2);
    assert_eq!(delta.added, uids(vec![4, 5]));
    assert_eq!(delta.removed, uids(vec![1, 2]));
}

#[test]
fn delta_without_previous_auction() {
    let delta = log_auction_delta(&None, &auction(2, vec![3, 4]));
    assert_eq!(delta.added, uids(vec![3, 4]));
    assert!(delta.removed.is_empty());
}

#[test]
fn proposed_solutions_are_reported_in_order() {
    let ranking = vec![ranked(7, "a", 100, vec![1, 2], true), ranked(8, "b", 90, vec![], false)];
    let report = solutions(&ranking);
    assert_eq!(report.len(), 2);
    assert_eq!(report[0].driver, "a");
    assert_eq!(report[0].orders, uids(vec![1, 2]));
    assert_eq!(report[0].solution, 7);
    assert_eq!(report[1].driver, "b");
    assert!(report[1].orders.is_empty());
    assert_eq!(report[1].solution, 8);
    assert!(solutions(&vec![]).is_empty());
}

#[test]
fn unsettled_orders_are_those_no_winner_executes() {
    // Order 9 is not part of the auction.
    let ranking = vec![
        ranked(7, "a", 100, vec![1, 2], true),
        ranked(8, "b", 90, vec![2, 3, 9], false),
        ranked(9, "c", 80, vec![3, 4], false),
    ];
    let report = unsettled(&ranking, &auction(1, vec![1, 2, 3, 4])).unwrap();
    assert_eq!(report.ignored_by, "a");
    assert_eq!(report.orders, uids(vec![3, 4]));
}

#[test]
fn nothing_unsettled_without_solutions() {
    assert!(unsettled(&vec![], &auction(1, vec![1])).is_none());
    let ranking = vec![ranked(7, "a", 100, vec![1], true)];
    let report = unsettled(&ranking, &auction(1, vec![1])).unwrap();
    assert!(report.orders.is_empty());
}

#[test]
fn timed_out_settlement_releases_its_orders() {
    // Submission deadline 5, competition at block 100: the deadline is 105.
    let ranking = vec![ranked(7, "a", 100, vec![1, 2], true)];
    let run = single_run(&auction(42, vec![1, 2]), &ranking, 100, &config(5)).unwrap();
    assert_eq!(run.block_deadline, 105);
    let mut in_flight = InFlightOrders::new();
    let execution =
        start_settlement_execution(&mut in_flight, 42, &ranking[0].solution, run.block_deadline);
    assert_eq!(execution.request, run.settlements[0]);
    assert_eq!(in_flight.len(), 2);
    let deadline = execution.request.submission_deadline_latest_block;
    assert_eq!(check_deadline(100, deadline), Ok(()));
    // The driver answers at block 102; no transaction is ever indexed.
    let mut state = Settlement::start();
    assert_eq!(discovery_step(&Ok(None), 101, deadline), Discovery::Wait);
    assert_eq!(discovery_step(&Ok(None), 102, deadline), Discovery::Wait);
    state = state.step(Event::Driver(Ok(())));
    assert_eq!(discovery_step(&Ok(None), 103, deadline), Discovery::Wait);
    assert_eq!(discovery_step(&Ok(None), 104, deadline), Discovery::Wait);
    assert_eq!(discovery_step(&Ok(None), 105, deadline), Discovery::TimedOut);
    state = state.step(Event::DeadlineReached);
    let result = state.result().unwrap();
    assert_eq!(result, Err(SettleError::Timeout));
    assert_eq!(outcome(&result), "timeout");
    end_settlement_execution(&mut in_flight, &execution);
    assert!(in_flight.is_empty());
}

#[test]
fn auction_prices_compare_as_a_mapping() {
    let second = (TokenAddress(h160(2)), Price(Ether(U256::from_u64(600))));
    let mut listed = auction(1, vec![1]);
    listed.prices.push(second);
    let mut reordered = auction(2, vec![1]);
    reordered.prices.insert(0, second);
    assert_eq!(listed, reordered);
    // An entry that an earlier one shadows does not count.
    let mut shadowed = auction(3, vec![1]);
    shadowed.prices.push(second);
    shadowed.prices.push((TokenAddress(h160(2)), Price(Ether(U256::from_u64(1)))));
    assert_eq!(listed, shadowed);
    let mut missing = auction(4, vec![1]);
    missing.prices.clear();
    assert_ne!(listed, missing);
    assert_ne!(missing, listed);
    let mut other = auction(5, vec![1]);
    other.prices.push((TokenAddress(h160(2)), Price(Ether(U256::from_u64(601)))));
    assert_ne!(listed, other);
}
