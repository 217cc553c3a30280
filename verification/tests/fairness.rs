use autopilot::domain::{
    Auction, Driver, Order, OrderUid, Participant, Price, Score, Side, Solution, TokenAmount,
    TradedOrder,
};
use autopilot::eth::{Address, Asset, Ether, TokenAddress, H160, U256};
use autopilot::fairness::{
    best_execution_of, improvement_in_buy, is_solution_fair, order_of, price_of,
};

fn h160(n: u8) -> H160 {
    let mut bytes = [0u8; 20];
    bytes[19] = n;
    H160(bytes)
}

fn uid(n: u8) -> OrderUid {
    let mut bytes = [0u8; 56];
    bytes[0] = n;
    OrderUid(bytes)
}

fn execution(executed_sell: U256, executed_buy: U256) -> TradedOrder {
    TradedOrder {
        side: Side::Sell,
        sell: Asset { amount: executed_sell, token: TokenAddress(h160(1)) },
        buy: Asset { amount: executed_buy, token: TokenAddress(h160(2)) },
        executed_sell: TokenAmount(executed_sell),
        executed_buy: TokenAmount(executed_buy),
    }
}

fn small(executed_sell: u64, executed_buy: u64) -> TradedOrder {
    execution(U256::from_u64(executed_sell), U256::from_u64(executed_buy))
}

fn participant(id: u64, orders: Vec<(OrderUid, TradedOrder)>, threshold: Option<u64>) -> Participant {
    Participant::new(
        Solution::new(id, Address(h160(10)), Score(Ether(U256::from_u64(1))), orders, vec![]),
        Driver {
            name: "driver".to_string(),
            submission_address: Address(h160(10)),
            fairness_threshold: threshold.map(|t| Ether(U256::from_u64(t))),
        },
    )
}

fn auction_with(order_uid: u8, buy_token: u8, priced_token: u8, price: U256) -> Auction {
    Auction {
        id: 1,
        block: 1,
        orders: vec![Order {
            uid: uid(order_uid),
            sell: Asset { amount: U256::from_u64(1), token: TokenAddress(h160(1)) },
            buy: Asset { amount: U256::from_u64(1), token: TokenAddress(h160(buy_token)) },
            side: Side::Sell,
            partially_fillable: false,
            protocol_fees: vec![],
        }],
        prices: vec![(TokenAddress(h160(priced_token)), Price(Ether(price)))],
        surplus_capturing_jit_order_owners: vec![],
    }
}

#[test]
fn improvement_is_gain_in_buy_token() {
    // (right.sell * left.buy - left.sell * right.buy) / right.sell
    //   = (5000 * 10000 - 5000 * 9000) / 5000 = 1000
    assert_eq!(improvement_in_buy(&small(5000, 10000), &small(5000, 9000)), U256::from_u64(1000));
}

#[test]
fn improvement_accounts_for_partial_fills() {
    // left sells 50 for 100, right sells 100 for 150:
    // (100 * 100 - 50 * 150) / 100 = 2500 / 100 = 25
    assert_eq!(improvement_in_buy(&small(50, 100), &small(100, 150)), U256::from_u64(25));
}

#[test]
fn improvement_rounds_down() {
    // (3 * 10 - 3 * 9) / 3 = 1; (7 * 10 - 3 * 20) / 7 = 10 / 7 = 1
    assert_eq!(improvement_in_buy(&small(3, 10), &small(7, 20)), U256::from_u64(1));
    // (7 * 10 - 5 * 13) / 7 = 5 / 7 = 0
    assert_eq!(improvement_in_buy(&small(5, 10), &small(7, 13)), U256::zero());
}

#[test]
fn improvement_of_worse_execution_is_zero() {
    assert_eq!(improvement_in_buy(&small(5000, 9000), &small(5000, 10000)), U256::zero());
    assert_eq!(improvement_in_buy(&small(5000, 9000), &small(5000, 9000)), U256::zero());
}

#[test]
fn improvement_over_empty_execution_is_zero() {
    assert_eq!(improvement_in_buy(&small(5000, 9000), &small(0, 0)), U256::zero());
    assert_eq!(improvement_in_buy(&small(0, 9000), &small(0, 1)), U256::zero());
}

#[test]
fn improvement_does_not_overflow() {
    // Both products need more than 256 bits:
    // (max * max - (max - 1) * max) / max = max / max = 1
    let max = U256::max_value();
    let less = U256([u64::MAX - 1, u64::MAX, u64::MAX, u64::MAX]);
    assert_eq!(improvement_in_buy(&execution(less, max), &execution(max, max)), U256::from_u64(1));
    // (max * max - 0 * 0) / max = max
    assert_eq!(
        improvement_in_buy(&execution(U256::zero(), max), &execution(max, U256::zero())),
        max
    );
}

#[test]
fn improvement_with_wide_operands() {
    // right.sell = 2^64, left.buy = 2^128 + 5, left.sell = 2^64, right.buy = 5:
    // (2^64 * (2^128 + 5) - 2^64 * 5) / 2^64 = 2^128
    let two_64 = U256([0, 1, 0, 0]);
    let left = execution(two_64, U256([5, 0, 1, 0]));
    let right = execution(two_64, U256::from_u64(5));
    assert_eq!(improvement_in_buy(&left, &right), U256([0, 0, 1, 0]));
}

#[test]
fn price_converts_by_multiplication() {
    let price = Price(Ether(U256::from_u64(3)));
    assert_eq!(price.to_eth(TokenAmount(U256::from_u64(1000))), Some(Ether(U256::from_u64(3000))));
    assert_eq!(
        Price(Ether(U256([0, 1, 0, 0]))).to_eth(TokenAmount(U256([0, 0, 1, 0]))),
        Some(Ether(U256([0, 0, 0, 1])))
    );
}

#[test]
fn price_conversion_reports_overflow() {
    let price = Price(Ether(U256::from_u64(2)));
    assert_eq!(price.to_eth(TokenAmount(U256::max_value())), None);
    assert!(price.worth_more_than(TokenAmount(U256::max_value()), &Ether(U256::max_value())));
}

#[test]
fn worth_is_compared_strictly() {
    let price = Price(Ether(U256::from_u64(2)));
    assert!(price.worth_more_than(TokenAmount(U256::from_u64(6)), &Ether(U256::from_u64(11))));
    assert!(!price.worth_more_than(TokenAmount(U256::from_u64(6)), &Ether(U256::from_u64(12))));
    assert!(!price.worth_more_than(TokenAmount(U256::from_u64(6)), &Ether(U256::from_u64(13))));
}

#[test]
fn price_of_zero_is_invalid() {
    assert!(Price::new(Ether(U256::zero())).is_err());
    assert_eq!(Price::new(Ether(U256::from_u64(4))).unwrap().get(), Ether(U256::from_u64(4)));
}

#[test]
fn score_of_zero_is_invalid() {
    assert!(Score::new(Ether(U256::zero())).is_err());
    assert_eq!(Score::new(Ether(U256::from_u64(4))).unwrap().get(), Ether(U256::from_u64(4)));
}

#[test]
fn best_execution_is_taken_in_order() {
    let others = vec![
        participant(1, vec![(uid(1), small(100, 100))], None),
        participant(2, vec![(uid(2), small(100, 500))], None),
        participant(3, vec![(uid(1), small(100, 120))], None),
        participant(4, vec![(uid(1), small(100, 110))], None),
    ];
    let best = best_execution_of(&others, &uid(1)).unwrap();
    assert_eq!(best.executed_buy.0, U256::from_u64(120));
    assert!(best_execution_of(&others, &uid(3)).is_none());
    assert!(best_execution_of(&[], &uid(1)).is_none());
}

#[test]
fn threshold_is_exclusive() {
    let auction = auction_with(1, 2, 2, U256::from_u64(1));
    let better = participant(2, vec![(uid(1), small(100, 110))], None);
    let at_threshold = participant(1, vec![(uid(1), small(100, 100))], Some(10));
    let others = vec![participant(1, vec![(uid(1), small(100, 100))], Some(10)), better];
    assert!(is_solution_fair(&at_threshold, &others, &auction));
    let above_threshold = participant(1, vec![(uid(1), small(100, 100))], Some(9));
    assert!(!is_solution_fair(&above_threshold, &others, &auction));
}

#[test]
fn solution_is_fair_without_comparison() {
    let auction = auction_with(1, 2, 2, U256::from_u64(1));
    let p = participant(1, vec![(uid(1), small(100, 100))], Some(0));
    assert!(is_solution_fair(&p, &[], &auction));
}

#[test]
fn one_unfair_order_makes_solution_unfair() {
    let auction = auction_with(2, 2, 2, U256::from_u64(1));
    let p = participant(
        1,
        vec![(uid(1), small(100, 100)), (uid(2), small(100, 100))],
        Some(10),
    );
    let others = vec![
        participant(1, vec![(uid(1), small(100, 100)), (uid(2), small(100, 100))], Some(10)),
        participant(2, vec![(uid(2), small(100, 200))], None),
    ];
    assert!(!is_solution_fair(&p, &others, &auction));
}

#[test]
fn lookup_takes_first_match() {
    let mut auction = auction_with(1, 2, 2, U256::from_u64(1));
    auction.prices.push((TokenAddress(h160(2)), Price(Ether(U256::from_u64(9)))));
    assert_eq!(price_of(&auction, &TokenAddress(h160(2))).unwrap().get(), Ether(U256::from_u64(1)));
    assert!(price_of(&auction, &TokenAddress(h160(3))).is_none());
    assert_eq!(order_of(&auction, &uid(1)).unwrap().uid, uid(1));
    assert!(order_of(&auction, &uid(2)).is_none());
}
