use autopilot::domain::{
    Driver, InvalidPrice, OrderUid, Rank, Side, SolutionError, TokenAmount, TradedOrder, ZeroScore,
};
use autopilot::eth::{Address, Asset, Ether, TokenAddress, H160, U256};
use autopilot::solve::{check_participation, solve, try_solve, Proposal, Response, SolveError};

fn h160(n: u8) -> H160 {
    let mut bytes = [0u8; 20];
    bytes[19] = n;
    H160(bytes)
}

fn uid(n: u8) -> OrderUid {
    let mut bytes = [0u8; 56];
    bytes[0] = n;
    OrderUid(bytes)
}

fn trade() -> TradedOrder {
    TradedOrder {
        side: Side::Buy,
        sell: Asset { amount: U256::from_u64(1), token: TokenAddress(h160(1)) },
        buy: Asset { amount: U256::from_u64(2), token: TokenAddress(h160(2)) },
        executed_sell: TokenAmount(U256::from_u64(1)),
        executed_buy: TokenAmount(U256::from_u64(2)),
    }
}

fn proposal(id: u64, score: u64, prices: Vec<u64>) -> Proposal {
    Proposal {
        solution_id: id,
        submission_address: h160(5),
        score: U256::from_u64(score),
        orders: vec![(uid(1), trade())],
        clearing_prices: prices
            .into_iter()
            .enumerate()
            .map(|(i, p)| (h160(i as u8), U256::from_u64(p)))
            .collect(),
    }
}

fn driver() -> Driver {
    Driver {
        name: "driver".to_string(),
        submission_address: Address(h160(5)),
        fairness_threshold: None,
    }
}

#[test]
fn valid_proposal_becomes_solution() {
    let solution = proposal(3, 100, vec![7, 8]).into_domain().unwrap();
    assert_eq!(solution.id, 3);
    assert_eq!(solution.solver, Address(h160(5)));
    assert_eq!(solution.score.get(), Ether(U256::from_u64(100)));
    assert_eq!(solution.order_ids(), vec![uid(1)]);
    assert_eq!(solution.prices.len(), 2);
    assert_eq!(solution.prices[1].0, TokenAddress(h160(1)));
    assert_eq!(solution.prices[1].1.get(), Ether(U256::from_u64(8)));
}

#[test]
fn zero_score_is_rejected() {
    assert_eq!(
        proposal(3, 0, vec![7]).into_domain().unwrap_err(),
        SolutionError::ZeroScore(ZeroScore)
    );
}

#[test]
fn zero_price_is_rejected() {
    assert_eq!(
        proposal(3, 1, vec![7, 0, 8]).into_domain().unwrap_err(),
        SolutionError::InvalidPrice(InvalidPrice)
    );
}

#[test]
fn zero_score_is_found_before_zero_price() {
    assert_eq!(
        proposal(3, 0, vec![0]).into_domain().unwrap_err(),
        SolutionError::ZeroScore(ZeroScore)
    );
}

#[test]
fn guard_decides_participation() {
    assert_eq!(check_participation(&Ok(true)), Ok(()));
    assert_eq!(check_participation(&Ok(false)), Err(SolveError::SolverDenyListed));
    assert_eq!(check_participation(&Err("db".to_string())), Err(SolveError::SolverDenyListed));
}

#[test]
fn timeout_is_told_from_failure() {
    assert_eq!(try_solve(Response::TimedOut).unwrap_err(), SolveError::Timeout);
    assert_eq!(
        try_solve(Response::Failed("connection reset".to_string())).unwrap_err(),
        SolveError::Failure("connection reset".to_string())
    );
}

#[test]
fn empty_answer_is_told_from_failure() {
    assert_eq!(try_solve(Response::Solutions(vec![])).unwrap_err(), SolveError::NoSolutions);
}

#[test]
fn every_proposal_is_checked() {
    let checked = try_solve(Response::Solutions(vec![
        proposal(1, 10, vec![1]),
        proposal(2, 0, vec![1]),
        proposal(3, 10, vec![0]),
        proposal(4, 10, vec![]),
    ]))
    .unwrap();
    assert_eq!(checked.len(), 4);
    assert_eq!(checked[0].as_ref().unwrap().id, 1);
    assert_eq!(checked[1].as_ref().unwrap_err(), &SolutionError::ZeroScore(ZeroScore));
    assert_eq!(checked[2].as_ref().unwrap_err(), &SolutionError::InvalidPrice(InvalidPrice));
    assert_eq!(checked[3].as_ref().unwrap().id, 4);
}

#[test]
fn failed_driver_contributes_nothing() {
    assert!(solve(Err(SolveError::Timeout), &driver()).is_empty());
    assert!(solve(Err(SolveError::NoSolutions), &driver()).is_empty());
    assert!(solve(Err(SolveError::SolverDenyListed), &driver()).is_empty());
    assert!(solve(Err(SolveError::Failure("x".to_string())), &driver()).is_empty());
}

#[test]
fn refused_solutions_are_dropped() {
    let checked = vec![
        proposal(1, 10, vec![1]).into_domain(),
        Err(SolutionError::SolverDenyListed),
        proposal(2, 0, vec![1]).into_domain(),
        proposal(3, 10, vec![1]).into_domain(),
    ];
    let participants = solve(Ok(checked), &driver());
    assert_eq!(participants.iter().map(|p| p.solution.id).collect::<Vec<_>>(), vec![1, 3]);
    for p in &participants {
        assert_eq!(p.rank, Rank::Unranked);
        assert_eq!(p.driver.name, "driver");
        assert_eq!(p.driver.submission_address, Address(h160(5)));
        assert!(!p.is_winner());
    }
}

#[test]
fn errors_have_labels() {
    assert_eq!(SolveError::Timeout.label(), "timeout");
    assert_eq!(SolveError::NoSolutions.label(), "no_solutions");
    assert_eq!(SolveError::Failure("x".to_string()).label(), "error");
    assert_eq!(SolveError::SolverDenyListed.label(), "deny_listed");
    assert_eq!(SolutionError::ZeroScore(ZeroScore).label(), "zero_score");
    assert_eq!(SolutionError::InvalidPrice(InvalidPrice).label(), "invalid_price");
    assert_eq!(SolutionError::SolverDenyListed.label(), "solver_deny_listed");
}
