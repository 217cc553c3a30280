//! The fairness rule: a solution may not execute an order much worse than
//! the solutions ranked below it do.

use crate::domain::{
    find_price, lookup_price, Auction, Order, OrderUid, Participant, Price, TokenAmount,
    TradedOrder,
};
use crate::eth::{Ether, TokenAddress, U256};
use crate::uint::{lemma_u256_bound, pow2_256, U512};
use vstd::prelude::*;

verus! {

/// By how much, in the buy token, the execution `left` is better for the
/// trader than `right`: `max(0, (right.sell * left.buy - left.sell *
/// right.buy) / right.sell)` over the executed amounts, the quotient rounded
/// down, and zero where `right` sold nothing.
pub open spec fn improvement(left: TradedOrder, right: TradedOrder) -> nat {
    let gain = right.executed_sell.0@ * left.executed_buy.0@ - left.executed_sell.0@
        * right.executed_buy.0@;
    if right.executed_sell.0@ == 0 || gain <= 0 {
        0
    } else {
        (gain / (right.executed_sell.0@ as int)) as nat
    }
}

proof fn lemma_quotient_bound(gain: int, product: int, sell: int, buy: int)
    requires
        0 <= gain <= product,
        product == sell * buy,
        sell > 0,
        buy >= 0,
    ensures
        0 <= gain / sell <= buy,
{
    assert(0 <= gain / sell <= buy) by (nonlinear_arith)
        requires
            0 <= gain <= sell * buy,
            sell > 0,
            buy >= 0,
    ;
}

/// By how much, in the buy token, `left` is better for the trader than
/// `right`. The products are taken in 512 bits, so nothing overflows.
pub fn improvement_in_buy(left: &TradedOrder, right: &TradedOrder) -> (r: U256)
    ensures
        r@ == improvement(*left, *right),
{
    let right_sell_left_buy = right.executed_sell.0.full_mul(left.executed_buy.0);
    let left_sell_right_buy = left.executed_sell.0.full_mul(right.executed_buy.0);
    let difference = match right_sell_left_buy.checked_sub(left_sell_right_buy) {
        Some(difference) => difference,
        None => U512::zero(),
    };
    match difference.checked_div(U512::from_u256(right.executed_sell.0)) {
        Some(quotient) => {
            proof {
                lemma_u256_bound(left.executed_buy.0);
                lemma_quotient_bound(
                    difference@ as int,
                    right_sell_left_buy@ as int,
                    right.executed_sell.0@ as int,
                    left.executed_buy.0@ as int,
                );
            }
            match quotient.to_u256() {
                Some(improvement) => improvement,
                None => U256::zero(),
            }
        },
        None => U256::zero(),
    }
}

impl Price {
    /// The worth of `amount` of the token in the native token, or `None`
    /// where it does not fit in 256 bits.
    pub fn to_eth(&self, amount: TokenAmount) -> (r: Option<Ether>)
        ensures
            r is Some <==> self.in_eth(amount.0@) < pow2_256(),
            r is Some ==> r.unwrap().0@ == self.in_eth(amount.0@),
    {
        match amount.0.full_mul(self.0.0).to_u256() {
            Some(value) => Some(Ether(value)),
            None => None,
        }
    }

    /// Whether `amount` of the token is worth more than `limit`.
    pub fn worth_more_than(&self, amount: TokenAmount, limit: &Ether) -> (r: bool)
        ensures
            r == (self.in_eth(amount.0@) > limit.0@),
    {
        proof {
            lemma_u256_bound(limit.0);
        }
        match self.to_eth(amount) {
            Some(value) => value.0.gt(&limit.0),
            None => true,
        }
    }
}

/// The better of the best execution so far and one more execution: the new
/// one where it improves on the best so far, and where it is the first.
pub open spec fn better_of(best: Option<TradedOrder>, execution: TradedOrder) -> Option<
    TradedOrder,
> {
    match best {
        None => Some(execution),
        Some(b) => if improvement(execution, b) != 0 {
            Some(execution)
        } else {
            Some(b)
        },
    }
}

/// The best execution of `uid` after the executions in `orders` have been
/// held, one after the other, against the best so far.
pub open spec fn best_among(
    best: Option<TradedOrder>,
    orders: Seq<(OrderUid, TradedOrder)>,
    uid: OrderUid,
) -> Option<TradedOrder>
    decreases orders.len(),
{
    if orders.len() == 0 {
        best
    } else {
        let before = best_among(best, orders.drop_last(), uid);
        if orders.last().0 == uid {
            better_of(before, orders.last().1)
        } else {
            before
        }
    }
}

/// The best execution of `uid` in the solutions of `others`, taken from the
/// first participant to the last; `None` where none of them executes it.
pub open spec fn best_execution(others: Seq<Participant>, uid: OrderUid) -> Option<TradedOrder>
    decreases others.len(),
{
    if others.len() == 0 {
        None
    } else {
        best_among(
            best_execution(others.drop_last(), uid),
            others.last().solution.orders@,
            uid,
        )
    }
}

/// The first order with the given uid.
pub open spec fn find_order(orders: Seq<Order>, uid: OrderUid) -> Option<Order>
    decreases orders.len(),
{
    if orders.len() == 0 {
        None
    } else if orders[0].uid == uid {
        Some(orders[0])
    } else {
        find_order(orders.drop_first(), uid)
    }
}

proof fn lemma_find_order(orders: Seq<Order>, uid: OrderUid, i: int)
    requires
        0 <= i <= orders.len(),
        forall|j: int| 0 <= j < i ==> orders[j].uid != uid,
    ensures
        find_order(orders, uid) == find_order(orders.skip(i), uid),
    decreases i,
{
    if i > 0 {
        lemma_find_order(orders.drop_first(), uid, i - 1);
        assert(orders.drop_first().skip(i - 1) =~= orders.skip(i));
    } else {
        assert(orders.skip(0) =~= orders);
    }
}

/// The first order of the auction with the given uid.
pub fn order_of<'a>(auction: &'a Auction, uid: &OrderUid) -> (r: Option<&'a Order>)
    ensures
        r is Some <==> find_order(auction.orders@, *uid) is Some,
        r is Some ==> *r->0 == find_order(auction.orders@, *uid)->0,
{
    let mut i: usize = 0;
    while i < auction.orders.len()
        invariant
            0 <= i <= auction.orders.len(),
            forall|j: int| 0 <= j < i ==> auction.orders@[j].uid != *uid,
        decreases auction.orders.len() - i,
    {
        if auction.orders[i].uid == *uid {
            proof {
                lemma_find_order(auction.orders@, *uid, i as int);
            }
            return Some(&auction.orders[i]);
        }
        i += 1;
    }
    proof {
        lemma_find_order(auction.orders@, *uid, i as int);
    }
    None
}

/// The reference price that the auction gives for a token.
pub fn price_of(auction: &Auction, token: &TokenAddress) -> (r: Option<Price>)
    ensures
        r == find_price(auction.prices@, *token),
{
    lookup_price(&auction.prices, token)
}

/// The best execution of `uid` in the solutions of `others`.
pub fn best_execution_of(others: &[Participant], uid: &OrderUid) -> (r: Option<TradedOrder>)
    ensures
        r == best_execution(others@, *uid),
{
    let mut best: Option<TradedOrder> = None;
    let mut i: usize = 0;
    while i < others.len()
        invariant
            0 <= i <= others.len(),
            best == best_execution(others@.take(i as int), *uid),
        decreases others.len() - i,
    {
        let orders = &others[i].solution.orders;
        let ghost start = best;
        let mut j: usize = 0;
        while j < orders.len()
            invariant
                0 <= j <= orders.len(),
                best == best_among(start, orders@.take(j as int), *uid),
            decreases orders.len() - j,
        {
            assert(orders@.take(j + 1).drop_last() =~= orders@.take(j as int));
            if orders[j].0 == *uid {
                best =
                match best {
                    None => Some(orders[j].1),
                    Some(b) => if !improvement_in_buy(&orders[j].1, &b).is_zero() {
                        Some(orders[j].1)
                    } else {
                        Some(b)
                    },
                };
            }
            j += 1;
        }
        assert(orders@.take(j as int) =~= orders@);
        assert(others@.take(i + 1).drop_last() =~= others@.take(i as int));
        i += 1;
    }
    assert(others@.take(i as int) =~= others@);
    best
}

/// Whether the execution `entry` of one order falls behind the best
/// execution of that order in `others` by more than `threshold`, the gap
/// taken in the buy token and valued at the auction's price of the order's
/// buy token. An order that the auction does not hold, or whose buy token
/// has no price there, never counts as behind.
pub open spec fn unfair_order(
    entry: (OrderUid, TradedOrder),
    others: Seq<Participant>,
    auction: Auction,
    threshold: Ether,
) -> bool {
    match best_execution(others, entry.0) {
        None => false,
        Some(best) => {
            let gap = improvement(best, entry.1);
            gap != 0 && match find_order(auction.orders@, entry.0) {
                None => false,
                Some(order) => match find_price(auction.prices@, order.buy.token) {
                    None => false,
                    Some(price) => price.in_eth(gap) > threshold.0@,
                },
            }
        },
    }
}

/// Whether the solution of `participant` is fair to `others`: its driver has
/// no fairness threshold, or none of its orders is behind by more than the
/// threshold.
pub open spec fn is_fair(
    participant: Participant,
    others: Seq<Participant>,
    auction: Auction,
) -> bool {
    match participant.driver.fairness_threshold {
        None => true,
        Some(threshold) => forall|k: int|
            0 <= k < participant.solution.orders@.len() ==> !unfair_order(
                #[trigger] participant.solution.orders@[k],
                others,
                auction,
                threshold,
            ),
    }
}

/// Whether one executed order is behind by more than `threshold`.
fn is_order_unfair(
    entry: &(OrderUid, TradedOrder),
    others: &[Participant],
    auction: &Auction,
    threshold: &Ether,
) -> (r: bool)
    ensures
        r == unfair_order(*entry, others@, *auction, *threshold),
{
    let Some(best) = best_execution_of(others, &entry.0) else {
        return false;
    };
    let gap = improvement_in_buy(&best, &entry.1);
    if gap.is_zero() {
        return false;
    }
    let Some(order) = order_of(auction, &entry.0) else {
        return false;
    };
    let Some(buy_price) = price_of(auction, &order.buy.token) else {
        return false;
    };
    buy_price.worth_more_than(TokenAmount(gap), threshold)
}

/// Whether a solution is fair to the solutions in `others`, which are the
/// solution itself and those ranked below it.
pub fn is_solution_fair(solution: &Participant, others: &[Participant], auction: &Auction) -> (r:
    bool)
    ensures
        r == is_fair(*solution, others@, *auction),
{
    let Some(fairness_threshold) = solution.driver.fairness_threshold else {
        return true;
    };
    let orders = &solution.solution.orders;
    let mut k: usize = 0;
    while k < orders.len()
        invariant
            0 <= k <= orders.len(),
            orders == &solution.solution.orders,
            solution.driver.fairness_threshold == Some(fairness_threshold),
            forall|j: int|
                0 <= j < k ==> !unfair_order(
                    #[trigger] orders@[j],
                    others@,
                    *auction,
                    fairness_threshold,
                ),
        decreases orders.len() - k,
    {
        if is_order_unfair(&orders[k], others, auction, &fairness_threshold) {
            assert(unfair_order(
                solution.solution.orders@[k as int],
                others@,
                *auction,
                fairness_threshold,
            ));
            return false;
        }
        k += 1;
    }
    true
}

} // verus!
