use autopilot::database::RowError;
use autopilot::domain::{
    Auction, Driver, FeePolicy, Order, OrderUid, Participant, Price, Score, Side, Solution,
    TokenAmount, TradedOrder,
};
use autopilot::eth::{Address, Asset, Ether, TokenAddress, H160, U256};
use autopilot::post_processing::{
    fee_policies, next_step, post_processing, winning_participant, NoWinners, Step, Stored,
};

fn h160(n: u8) -> H160 {
    let mut bytes = [0u8; 20];
    bytes[19] = n;
    H160(bytes)
}

fn uid(n: u8) -> OrderUid {
    let mut bytes = [0u8; 56];
    bytes[0] = n;
    OrderUid(bytes)
}

fn asset(t: u8, amount: u64) -> Asset {
    Asset { amount: U256::from_u64(amount), token: TokenAddress(h160(t)) }
}

fn trade(executed_sell: u64, executed_buy: u64) -> TradedOrder {
    TradedOrder {
        side: Side::Sell,
        sell: asset(1, 1000),
        buy: asset(2, 1000),
        executed_sell: TokenAmount(U256::from_u64(executed_sell)),
        executed_buy: TokenAmount(U256::from_u64(executed_buy)),
    }
}

fn ranked(
    id: u64,
    name: &str,
    solver: u8,
    score: u64,
    orders: Vec<u8>,
    is_winner: bool,
) -> Participant {
    Participant::new(
        Solution::new(
            id,
            Address(h160(solver)),
            Score(Ether(U256::from_u64(score))),
            orders.into_iter().map(|n| (uid(n), trade(10 + n as u64, 20 + n as u64))).collect(),
            vec![(TokenAddress(h160(1)), Price(Ether(U256::from_u64(id + 1000))))],
        ),
        Driver {
            name: name.to_string(),
            submission_address: Address(h160(solver)),
            fairness_threshold: None,
        },
    )
    .rank(is_winner)
}

fn order(n: u8, fees: Vec<u64>) -> Order {
    Order {
        uid: uid(n),
        sell: asset(1, 1000),
        buy: asset(2, 1000),
        side: Side::Sell,
        partially_fillable: true,
        protocol_fees: fees.into_iter().map(FeePolicy).collect(),
    }
}

fn auction() -> Auction {
    Auction {
        id: 42,
        block: 90,
        orders: vec![order(1, vec![11, 12]), order(2, vec![]), order(3, vec![31])],
        prices: vec![
            (TokenAddress(h160(1)), Price(Ether(U256::from_u64(500)))),
            (TokenAddress(h160(2)), Price(Ether(U256::from_u64(600)))),
        ],
        surplus_capturing_jit_order_owners: vec![Address(h160(77))],
    }
}

#[test]
fn record_of_single_solution() {
    let solutions = vec![ranked(1, "a", 10, 100, vec![1], true)];
    let out = post_processing(&auction(), 100, &solutions, 105).unwrap();
    let record = out.competition;
    assert_eq!(record.auction_id, 42);
    assert_eq!(record.winner, h160(10));
    assert_eq!(record.winning_score, U256::from_u64(100));
    assert_eq!(record.reference_score, U256::zero());
    assert_eq!(record.participants, vec![h160(10)]);
    assert_eq!(record.block_deadline, 105);
    assert_eq!(record.competition_simulation_block, 100);
    assert_eq!(record.competition_table.solutions.len(), 1);
    assert_eq!(record.competition_table.solutions[0].ranking, 1);
    assert!(record.competition_table.solutions[0].is_winner);
}

#[test]
fn reference_score_is_runner_up() {
    let solutions = vec![
        ranked(1, "a", 10, 100, vec![1], true),
        ranked(2, "b", 11, 80, vec![2], false),
        ranked(3, "c", 12, 60, vec![3], false),
    ];
    let record = post_processing(&auction(), 100, &solutions, 105).unwrap().competition;
    assert_eq!(record.winning_score, U256::from_u64(100));
    assert_eq!(record.reference_score, U256::from_u64(80));
}

#[test]
fn winner_is_first_winning_solution() {
    let solutions = vec![
        ranked(1, "a", 10, 100, vec![1], false),
        ranked(2, "b", 11, 80, vec![2], true),
        ranked(3, "c", 12, 60, vec![3], true),
    ];
    assert_eq!(winning_participant(&solutions).unwrap().solution.id, 2);
    let record = post_processing(&auction(), 100, &solutions, 105).unwrap().competition;
    assert_eq!(record.winner, h160(11));
    assert_eq!(record.winning_score, U256::from_u64(80));
    assert_eq!(record.reference_score, U256::from_u64(80));
}

#[test]
fn no_winner_fails_post_processing() {
    let solutions = vec![ranked(1, "a", 10, 100, vec![1], false)];
    assert_eq!(post_processing(&auction(), 100, &solutions, 105).unwrap_err(), NoWinners);
    assert!(winning_participant(&solutions).is_none());
    assert_eq!(post_processing(&auction(), 100, &vec![], 105).unwrap_err(), NoWinners);
}

#[test]
fn participants_are_listed_once() {
    let solutions = vec![
        ranked(1, "a", 10, 100, vec![1], true),
        ranked(2, "b", 11, 80, vec![2], false),
        ranked(3, "a", 10, 60, vec![3], false),
    ];
    let record = post_processing(&auction(), 100, &solutions, 105).unwrap().competition;
    assert_eq!(record.participants, vec![h160(10), h160(11)]);
}

#[test]
fn table_lists_solutions_worst_first() {
    let solutions = vec![
        ranked(1, "a", 10, 100, vec![1], true),
        ranked(2, "b", 11, 80, vec![2, 3], false),
        ranked(3, "c", 12, 60, vec![], true),
    ];
    let table = post_processing(&auction(), 100, &solutions, 105).unwrap().competition.competition_table;
    assert_eq!(table.auction_start_block, 90);
    assert_eq!(table.competition_simulation_block, 100);
    assert_eq!(table.auction.orders, vec![uid(1), uid(2), uid(3)]);
    assert_eq!(
        table.auction.prices,
        vec![(h160(1), U256::from_u64(500)), (h160(2), U256::from_u64(600))]
    );
    let names: Vec<&str> = table.solutions.iter().map(|s| s.solver.as_str()).collect();
    assert_eq!(names, vec!["c", "b", "a"]);
    let rankings: Vec<usize> = table.solutions.iter().map(|s| s.ranking).collect();
    assert_eq!(rankings, vec![3, 2, 1]);
    let winners: Vec<bool> = table.solutions.iter().map(|s| s.is_winner).collect();
    assert_eq!(winners, vec![true, false, true]);
    let b = &table.solutions[1];
    assert_eq!(b.solver_address, h160(11));
    assert_eq!(b.score, Some(U256::from_u64(80)));
    assert_eq!(b.orders.len(), 2);
    assert_eq!(b.orders[0].id, uid(2));
    assert_eq!(b.orders[0].sell_amount, U256::from_u64(12));
    assert_eq!(b.orders[0].buy_amount, U256::from_u64(22));
    assert_eq!(b.orders[1].id, uid(3));
    assert_eq!(b.clearing_prices, vec![(h160(1), U256::from_u64(1002))]);
}

#[test]
fn record_carries_auction_prices() {
    let solutions = vec![ranked(1, "a", 10, 100, vec![1], true)];
    let record = post_processing(&auction(), 100, &solutions, 105).unwrap().competition;
    assert_eq!(
        record.prices,
        vec![(h160(1), U256::from_u64(500)), (h160(2), U256::from_u64(600))]
    );
}

#[test]
fn fee_policies_join_auction_orders() {
    // Order 9 is not part of the auction and is skipped; order 1 is named
    // by two solutions and listed once.
    let solutions = vec![
        ranked(1, "a", 10, 100, vec![3, 1], true),
        ranked(2, "b", 11, 80, vec![9, 1, 2], false),
    ];
    let fees = fee_policies(&auction(), &solutions);
    assert_eq!(
        fees,
        vec![
            (uid(3), vec![FeePolicy(31)]),
            (uid(1), vec![FeePolicy(11), FeePolicy(12)]),
            (uid(2), vec![]),
        ]
    );
    let out = post_processing(&auction(), 100, &solutions, 105).unwrap();
    assert_eq!(out.fee_policies, fees);
}

#[test]
fn rows_of_a_record() {
    let solutions = vec![
        ranked(1, "a", 10, 100, vec![1], true),
        ranked(2, "b", 11, 80, vec![2], false),
    ];
    let record = post_processing(&auction(), 100, &solutions, 105).unwrap().competition;
    let rows = record.rows().unwrap();
    assert_eq!(rows.settlement_score.auction_id, 42);
    assert_eq!(rows.settlement_score.winner, h160(10).0);
    assert_eq!(rows.settlement_score.winning_score, U256::from_u64(100));
    assert_eq!(rows.settlement_score.reference_score, U256::from_u64(80));
    assert_eq!(rows.settlement_score.block_deadline, 105);
    assert_eq!(rows.settlement_score.simulation_block, 100);
    assert_eq!(rows.reference_scores.len(), 1);
    assert_eq!(rows.reference_scores[0].auction_id, 42);
    assert_eq!(rows.reference_scores[0].solver, h160(10).0);
    assert_eq!(rows.reference_scores[0].reference_score, U256::from_u64(80));
    assert_eq!(rows.participants.len(), 2);
    assert_eq!(rows.participants[0].auction_id, 42);
    assert_eq!(rows.participants[0].participant, h160(10).0);
    assert_eq!(rows.participants[1].participant, h160(11).0);
    assert_eq!(rows.prices.len(), 2);
    assert_eq!(rows.prices[1].auction_id, 42);
    assert_eq!(rows.prices[1].token, h160(2).0);
    assert_eq!(rows.prices[1].price, U256::from_u64(600));
    assert_eq!(rows.orders, vec![uid(1).0, uid(2).0, uid(3).0]);
}

#[test]
fn block_numbers_must_fit_their_columns() {
    let solutions = vec![ranked(1, "a", 10, 100, vec![1], true)];
    let mut record = post_processing(&auction(), 100, &solutions, 105).unwrap().competition;
    record.block_deadline = i64::MAX as u64;
    assert_eq!(record.rows().unwrap().settlement_score.block_deadline, i64::MAX);
    record.block_deadline = i64::MAX as u64 + 1;
    assert_eq!(record.rows().unwrap_err(), RowError::BlockDeadline);
    record.competition_simulation_block = u64::MAX;
    assert_eq!(record.rows().unwrap_err(), RowError::BlockDeadline);
    record.block_deadline = 105;
    assert_eq!(record.rows().unwrap_err(), RowError::SimulationBlock);
}

#[test]
fn storing_goes_on_after_first_group_fails() {
    assert_eq!(next_step(Stored::Nothing), Step::SaveRecords);
    assert_eq!(next_step(Stored::Records(Ok(()))), Step::SaveCompetition { notify: true });
    assert_eq!(
        next_step(Stored::Records(Err("failed to save auction".to_string()))),
        Step::SaveCompetition { notify: false }
    );
}

#[test]
fn failure_of_second_group_fails_post_processing() {
    assert_eq!(next_step(Stored::Competition(Ok(()))), Step::Done(Ok(())));
    assert_eq!(
        next_step(Stored::Competition(Err("failed to save competition".to_string()))),
        Step::Done(Err("failed to save competition".to_string()))
    );
}
