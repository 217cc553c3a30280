//! The values that an auction is made of: orders, auctions, solutions and the
//! drivers that propose them.

use crate::eth::{bytes_equal, Address, Asset, Ether, TokenAddress, H160, U256};
use vstd::prelude::*;
use vstd::std_specs::cmp::PartialEqSpecImpl;

verus! {

/// The 56 bytes that identify an order: its 32-byte hash, the 20-byte address
/// of its owner and the 4 bytes of its expiry.
#[derive(Clone, Copy, Debug, Eq, Hash)]
pub struct OrderUid(pub [u8; 56]);

impl PartialEq for OrderUid {
    fn eq(&self, other: &OrderUid) -> (r: bool) {
        bytes_equal(&self.0, &other.0)
    }
}

impl PartialEqSpecImpl for OrderUid {
    open spec fn obeys_eq_spec() -> bool {
        true
    }

    open spec fn eq_spec(&self, other: &OrderUid) -> bool {
        *self == *other
    }
}

impl OrderUid {
    /// The owner that the uid encodes: its bytes 32 to 51.
    pub open spec fn spec_owner(self) -> Seq<u8> {
        self.0@.subrange(32, 52)
    }

    /// The owner that the uid encodes.
    pub fn owner(&self) -> (r: Address)
        ensures
            r.0.0@ == self.spec_owner(),
    {
        let b = &self.0;
        let r = Address(
            H160(
                [
                    b[32],
                    b[33],
                    b[34],
                    b[35],
                    b[36],
                    b[37],
                    b[38],
                    b[39],
                    b[40],
                    b[41],
                    b[42],
                    b[43],
                    b[44],
                    b[45],
                    b[46],
                    b[47],
                    b[48],
                    b[49],
                    b[50],
                    b[51],
                ],
            ),
        );
        assert(r.0.0@ =~= self.spec_owner());
        r
    }
}

/// Whether an order fixes the amount it buys or the amount it sells.
#[derive(Clone, Copy, Debug, PartialEq, Eq, Structural)]
pub enum Side {
    Buy,
    Sell,
}

/// The key of a fee policy. The coordinator never looks inside a policy: it
/// carries the keys from an auction's order to the record of the competition.
#[derive(Clone, Copy, Debug, PartialEq, Eq, Structural)]
pub struct FeePolicy(pub u64);

/// An order that takes part in an auction.
#[derive(Debug)]
pub struct Order {
    pub uid: OrderUid,
    pub sell: Asset,
    pub buy: Asset,
    pub side: Side,
    pub partially_fillable: bool,
    pub protocol_fees: Vec<FeePolicy>,
}

/// Whether two lists of fee policies hold the same keys in the same order.
pub fn same_fees(a: &Vec<FeePolicy>, b: &Vec<FeePolicy>) -> (r: bool)
    ensures
        r == (a@ == b@),
{
    if a.len() != b.len() {
        return false;
    }
    let mut i: usize = 0;
    while i < a.len()
        invariant
            a.len() == b.len(),
            0 <= i <= a.len(),
            forall|j: int| 0 <= j < i ==> a@[j] == b@[j],
        decreases a.len() - i,
    {
        if a[i] != b[i] {
            return false;
        }
        i += 1;
    }
    assert(a@ =~= b@);
    true
}

impl PartialEq for Order {
    fn eq(&self, other: &Order) -> (r: bool) {
        self.uid == other.uid && self.sell.amount == other.sell.amount && self.sell.token
            == other.sell.token && self.buy.amount == other.buy.amount && self.buy.token
            == other.buy.token && self.side == other.side && self.partially_fillable
            == other.partially_fillable && same_fees(&self.protocol_fees, &other.protocol_fees)
    }
}

impl PartialEqSpecImpl for Order {
    open spec fn obeys_eq_spec() -> bool {
        true
    }

    open spec fn eq_spec(&self, other: &Order) -> bool {
        self.same_as(*other)
    }
}

impl Order {
    /// Whether two orders agree in every field, the fee policies compared as
    /// lists.
    pub open spec fn same_as(self, other: Order) -> bool {
        &&& self.uid == other.uid
        &&& self.sell == other.sell
        &&& self.buy == other.buy
        &&& self.side == other.side
        &&& self.partially_fillable == other.partially_fillable
        &&& self.protocol_fees@ == other.protocol_fees@
    }
}

/// A copy of a list of fee policies.
pub fn copy_fees(fees: &Vec<FeePolicy>) -> (r: Vec<FeePolicy>)
    ensures
        r@ == fees@,
{
    let mut r: Vec<FeePolicy> = Vec::new();
    let mut i: usize = 0;
    while i < fees.len()
        invariant
            0 <= i <= fees.len(),
            r@ == fees@.take(i as int),
        decreases fees.len() - i,
    {
        r.push(fees[i]);
        assert(r@ =~= fees@.take(i + 1));
        i += 1;
    }
    assert(r@ =~= fees@);
    r
}

impl Clone for Order {
    fn clone(&self) -> (r: Order)
        ensures
            r.same_as(*self),
    {
        let fees = copy_fees(&self.protocol_fees);
        Order {
            uid: self.uid,
            sell: self.sell,
            buy: self.buy,
            side: self.side,
            partially_fillable: self.partially_fillable,
            protocol_fees: fees,
        }
    }
}

/// An amount of some token, in its smallest unit.
#[derive(Clone, Copy, Debug)]
pub struct TokenAmount(pub U256);

/// The price of a token was zero.
#[derive(Clone, Copy, Debug, PartialEq, Eq, Structural)]
pub struct InvalidPrice;

/// The price of a token in the native token. A price made by [`Price::new`]
/// is strictly positive.
#[derive(Clone, Copy, Debug)]
pub struct Price(pub Ether);

impl Price {
    /// The price with the given value, unless that value is zero.
    pub fn new(value: Ether) -> (r: Result<Price, InvalidPrice>)
        ensures
            value.0@ == 0 ==> r == Err::<Price, InvalidPrice>(InvalidPrice),
            value.0@ != 0 ==> r == Ok::<Price, InvalidPrice>(Price(value)),
    {
        if value.0.is_zero() {
            Err(InvalidPrice)
        } else {
            Ok(Price(value))
        }
    }

    /// The value of the price.
    pub fn get(&self) -> (r: Ether)
        ensures
            r == self.0,
    {
        self.0
    }

    /// The worth of `amount` of the token in the native token: the amount
    /// times the price. The product may need up to 512 bits and is never
    /// cut short.
    pub open spec fn in_eth(self, amount: nat) -> nat {
        amount * self.0.0@
    }
}

/// The score of a solution was zero.
#[derive(Clone, Copy, Debug, PartialEq, Eq, Structural)]
pub struct ZeroScore;

/// The score by which solutions are ranked. A score made by [`Score::new`] is
/// strictly positive.
#[derive(Clone, Copy, Debug)]
pub struct Score(pub Ether);

impl Score {
    /// The score with the given value, unless that value is zero.
    pub fn new(value: Ether) -> (r: Result<Score, ZeroScore>)
        ensures
            value.0@ == 0 ==> r == Err::<Score, ZeroScore>(ZeroScore),
            value.0@ != 0 ==> r == Ok::<Score, ZeroScore>(Score(value)),
    {
        if value.0.is_zero() {
            Err(ZeroScore)
        } else {
            Ok(Score(value))
        }
    }

    /// The value of the score.
    pub fn get(&self) -> (r: Ether)
        ensures
            r == self.0,
    {
        self.0
    }
}

/// How a solution executes one order.
#[derive(Clone, Copy, Debug)]
pub struct TradedOrder {
    pub side: Side,
    /// The sell token and the limit amount of the order.
    pub sell: Asset,
    /// The buy token and the limit amount of the order.
    pub buy: Asset,
    /// What the trader gives up in this solution.
    pub executed_sell: TokenAmount,
    /// What the trader receives in this solution.
    pub executed_buy: TokenAmount,
}

/// Why a proposed solution is dropped.
#[derive(Clone, Copy, Debug, PartialEq, Eq, Structural)]
pub enum SolutionError {
    /// The solution has a score of zero.
    ZeroScore(ZeroScore),
    /// The solution clears some token at a price of zero.
    InvalidPrice(InvalidPrice),
    /// The solver of the solution may not take part.
    SolverDenyListed,
}

/// A solution that a driver proposes for an auction.
#[derive(Debug)]
pub struct Solution {
    /// The driver's own number for the solution.
    pub id: u64,
    /// The address that would submit the settlement.
    pub solver: Address,
    pub score: Score,
    /// The orders that the solution executes, one entry for each order.
    pub orders: Vec<(OrderUid, TradedOrder)>,
    /// The uniform clearing price of each token that the solution trades.
    pub prices: Vec<(TokenAddress, Price)>,
}

impl Solution {
    /// Whether the solution is valid: its score and all its clearing prices
    /// are strictly positive.
    pub open spec fn is_valid(self) -> bool {
        &&& self.score.0.0@ > 0
        &&& forall|i: int| 0 <= i < self.prices@.len() ==> (#[trigger] self.prices@[i]).1.0.0@ > 0
    }

    /// The solution with the given parts.
    pub fn new(
        id: u64,
        solver: Address,
        score: Score,
        orders: Vec<(OrderUid, TradedOrder)>,
        prices: Vec<(TokenAddress, Price)>,
    ) -> (r: Solution)
        ensures
            r == (Solution { id, solver, score, orders, prices }),
    {
        Solution { id, solver, score, orders, prices }
    }

    /// The uids of the orders that the solution executes, in their order.
    pub open spec fn spec_order_ids(self) -> Seq<OrderUid> {
        self.orders@.map_values(|entry: (OrderUid, TradedOrder)| entry.0)
    }

    /// The uids of the orders that the solution executes, in their order.
    pub fn order_ids(&self) -> (r: Vec<OrderUid>)
        ensures
            r@ == self.spec_order_ids(),
    {
        let mut ids: Vec<OrderUid> = Vec::new();
        let mut i: usize = 0;
        while i < self.orders.len()
            invariant
                0 <= i <= self.orders.len(),
                ids@ == self.spec_order_ids().take(i as int),
            decreases self.orders.len() - i,
        {
            ids.push(self.orders[i].0);
            assert(ids@ =~= self.spec_order_ids().take(i + 1));
            i += 1;
        }
        assert(ids@ =~= self.spec_order_ids());
        ids
    }
}

/// A solver's driver as the coordinator knows it.
#[derive(Debug)]
pub struct Driver {
    pub name: String,
    /// The address from which the driver submits its settlements.
    pub submission_address: Address,
    /// How much worse, in the native token, the driver may execute an order
    /// than the best execution it competes with. Without a threshold every
    /// solution of the driver is fair.
    pub fairness_threshold: Option<Ether>,
}

impl Clone for Driver {
    fn clone(&self) -> (r: Driver)
        ensures
            r == *self,
    {
        Driver {
            name: self.name.clone(),
            submission_address: self.submission_address,
            fairness_threshold: self.fairness_threshold,
        }
    }
}

/// Whether a participant has been ranked, and whether it won.
#[derive(Clone, Copy, Debug, PartialEq, Eq, Structural)]
pub enum Rank {
    /// The competition has not ranked the participant yet.
    Unranked,
    /// The competition has ranked the participant, as a winner or not.
    Ranked { is_winner: bool },
}

/// A solution together with the driver that proposed it.
#[derive(Debug)]
pub struct Participant {
    pub solution: Solution,
    pub driver: Driver,
    pub rank: Rank,
}

impl Participant {
    /// A participant that has not been ranked yet.
    pub fn new(solution: Solution, driver: Driver) -> (r: Participant)
        ensures
            r == (Participant { solution, driver, rank: Rank::Unranked }),
    {
        Participant { solution, driver, rank: Rank::Unranked }
    }

    /// The solution of the participant.
    pub fn solution(&self) -> (r: &Solution)
        ensures
            *r == self.solution,
    {
        &self.solution
    }

    /// The driver that proposed the solution.
    pub fn driver(&self) -> (r: &Driver)
        ensures
            *r == self.driver,
    {
        &self.driver
    }

    /// Whether the participant was ranked as a winner.
    pub open spec fn spec_is_winner(self) -> bool {
        self.rank == (Rank::Ranked { is_winner: true })
    }

    /// Whether the participant was ranked as a winner.
    pub fn is_winner(&self) -> (r: bool)
        ensures
            r == self.spec_is_winner(),
    {
        match self.rank {
            Rank::Ranked { is_winner } => is_winner,
            Rank::Unranked => false,
        }
    }

    /// The same participant with its rank set.
    pub open spec fn ranked(self, is_winner: bool) -> Participant {
        Participant { rank: Rank::Ranked { is_winner }, ..self }
    }

    /// Ranks the participant.
    pub fn rank(self, is_winner: bool) -> (r: Participant)
        ensures
            r == self.ranked(is_winner),
    {
        Participant {
            solution: self.solution,
            driver: self.driver,
            rank: Rank::Ranked { is_winner },
        }
    }
}

/// Whether two lists of orders have the same length and agree order by order.
pub open spec fn orders_agree(a: Seq<Order>, b: Seq<Order>) -> bool {
    &&& a.len() == b.len()
    &&& forall|i: int| 0 <= i < a.len() ==> (#[trigger] a[i]).same_as(b[i])
}

/// Whether two lists of orders have the same length and agree order by order.
pub fn same_orders(a: &Vec<Order>, b: &Vec<Order>) -> (r: bool)
    ensures
        r == orders_agree(a@, b@),
{
    if a.len() != b.len() {
        return false;
    }
    let mut i: usize = 0;
    while i < a.len()
        invariant
            a.len() == b.len(),
            0 <= i <= a.len(),
            forall|j: int| 0 <= j < i ==> (#[trigger] a@[j]).same_as(b@[j]),
        decreases a.len() - i,
    {
        if a[i] != b[i] {
            return false;
        }
        i += 1;
    }
    true
}

/// The price of the first entry for the given token.
pub open spec fn find_price(prices: Seq<(TokenAddress, Price)>, token: TokenAddress) -> Option<
    Price,
>
    decreases prices.len(),
{
    if prices.len() == 0 {
        None
    } else if prices[0].0 == token {
        Some(prices[0].1)
    } else {
        find_price(prices.drop_first(), token)
    }
}

proof fn lemma_find_price(prices: Seq<(TokenAddress, Price)>, token: TokenAddress, i: int)
    requires
        0 <= i <= prices.len(),
        forall|j: int| 0 <= j < i ==> prices[j].0 != token,
    ensures
        find_price(prices, token) == find_price(prices.skip(i), token),
    decreases i,
{
    if i > 0 {
        lemma_find_price(prices.drop_first(), token, i - 1);
        assert(prices.drop_first().skip(i - 1) =~= prices.skip(i));
    } else {
        assert(prices.skip(0) =~= prices);
    }
}

/// Where a token has a price, some entry holds the token and that price.
pub proof fn lemma_price_entry(prices: Seq<(TokenAddress, Price)>, token: TokenAddress)
    requires
        find_price(prices, token) is Some,
    ensures
        exists|i: int|
            0 <= i < prices.len() && #[trigger] prices[i] == (
                token,
                find_price(prices, token).unwrap(),
            ),
    decreases prices.len(),
{
    if prices[0].0 == token {
        assert(prices[0] == (token, find_price(prices, token).unwrap()));
    } else {
        lemma_price_entry(prices.drop_first(), token);
        let rest = prices.drop_first();
        let i = choose|i: int|
            0 <= i < rest.len() && #[trigger] rest[i] == (token, find_price(rest, token).unwrap());
        assert(prices[i + 1] == rest[i]);
    }
}

/// The prices as a mapping from tokens: each token has the price of its
/// first entry.
pub open spec fn price_map(prices: Seq<(TokenAddress, Price)>) -> Map<TokenAddress, Price> {
    Map::new(
        |token: TokenAddress| find_price(prices, token) is Some,
        |token: TokenAddress| find_price(prices, token).unwrap(),
    )
}

/// The price of the first entry for the given token.
pub fn lookup_price(prices: &Vec<(TokenAddress, Price)>, token: &TokenAddress) -> (r: Option<
    Price,
>)
    ensures
        r == find_price(prices@, *token),
{
    let mut i: usize = 0;
    while i < prices.len()
        invariant
            0 <= i <= prices.len(),
            forall|j: int| 0 <= j < i ==> prices@[j].0 != *token,
        decreases prices.len() - i,
    {
        if prices[i].0 == *token {
            proof {
                lemma_find_price(prices@, *token, i as int);
            }
            return Some(prices[i].1);
        }
        i += 1;
    }
    proof {
        lemma_find_price(prices@, *token, i as int);
    }
    None
}

/// Whether two optional prices are the same.
fn same_price(a: Option<Price>, b: Option<Price>) -> (r: bool)
    ensures
        r == (a == b),
{
    match (a, b) {
        (Some(p), Some(q)) => p.0.0 == q.0.0,
        (None, None) => true,
        _ => false,
    }
}

/// Whether every token of `a` has in `b` the price that it has in `a`, or
/// none in either.
fn prices_carry_over(a: &Vec<(TokenAddress, Price)>, b: &Vec<(TokenAddress, Price)>) -> (r: bool)
    ensures
        r == forall|i: int|
            0 <= i < a@.len() ==> find_price(a@, (#[trigger] a@[i]).0) == find_price(b@, a@[i].0),
{
    let mut i: usize = 0;
    while i < a.len()
        invariant
            0 <= i <= a.len(),
            forall|j: int|
                0 <= j < i ==> find_price(a@, (#[trigger] a@[j]).0) == find_price(b@, a@[j].0),
        decreases a.len() - i,
    {
        if !same_price(lookup_price(a, &a[i].0), lookup_price(b, &a[i].0)) {
            assert(find_price(a@, a@[i as int].0) != find_price(b@, a@[i as int].0));
            return false;
        }
        i += 1;
    }
    true
}

/// Whether two price lists give the same tokens the same prices, in
/// whatever order they list them.
pub fn same_prices(a: &Vec<(TokenAddress, Price)>, b: &Vec<(TokenAddress, Price)>) -> (r: bool)
    ensures
        r == (price_map(a@) == price_map(b@)),
{
    let r = prices_carry_over(a, b) && prices_carry_over(b, a);
    proof {
        if r {
            assert forall|token: TokenAddress|
                find_price(a@, token) == find_price(b@, token) by {
                if find_price(a@, token) is Some {
                    lemma_price_entry(a@, token);
                } else if find_price(b@, token) is Some {
                    lemma_price_entry(b@, token);
                }
            }
            assert(price_map(a@) =~= price_map(b@));
        } else {
            if price_map(a@) == price_map(b@) {
                assert forall|token: TokenAddress|
                    find_price(a@, token) == find_price(b@, token) by {
                    assert(price_map(a@).dom().contains(token) == price_map(b@).dom().contains(
                        token,
                    ));
                    if find_price(a@, token) is Some {
                        assert(price_map(a@)[token] == price_map(b@)[token]);
                    }
                }
            }
        }
    }
    r
}

/// Whether two lists of addresses are the same.
pub fn same_addresses(a: &Vec<Address>, b: &Vec<Address>) -> (r: bool)
    ensures
        r == (a@ == b@),
{
    if a.len() != b.len() {
        return false;
    }
    let mut i: usize = 0;
    while i < a.len()
        invariant
            a.len() == b.len(),
            0 <= i <= a.len(),
            forall|j: int| 0 <= j < i ==> a@[j] == b@[j],
        decreases a.len() - i,
    {
        if a[i] != b[i] {
            return false;
        }
        i += 1;
    }
    assert(a@ =~= b@);
    true
}

/// The uid of an order.
pub open spec fn uid_of() -> spec_fn(Order) -> OrderUid {
    |order: Order| order.uid
}

/// Whether a snapshot of orders and prices is sound: no two orders have the
/// same uid, and every price is strictly positive.
pub open spec fn is_sound(orders: Seq<Order>, prices: Seq<(TokenAddress, Price)>) -> bool {
    &&& crate::seqs::has_distinct_keys(orders, uid_of())
    &&& forall|i: int| 0 <= i < prices.len() ==> (#[trigger] prices[i]).1.0.0@ > 0
}

/// The solvable orders as the cache supplies them, before they are given an
/// id.
#[derive(Debug)]
pub struct RawAuctionData {
    /// The block at which the orders were collected.
    pub block: u64,
    pub orders: Vec<Order>,
    /// The reference price of each token, in the native token.
    pub prices: Vec<(TokenAddress, Price)>,
    /// The owners whose just-in-time orders capture surplus.
    pub surplus_capturing_jit_order_owners: Vec<Address>,
}

/// An auction: a snapshot of solvable orders with reference prices, under the
/// id that storage gave it. It does not change once cut.
#[derive(Debug)]
pub struct Auction {
    pub id: i64,
    /// The block at which the auction was cut.
    pub block: u64,
    pub orders: Vec<Order>,
    /// The reference price of each token, in the native token. A token is
    /// looked up by its first entry.
    pub prices: Vec<(TokenAddress, Price)>,
    /// The owners whose just-in-time orders capture surplus.
    pub surplus_capturing_jit_order_owners: Vec<Address>,
}

impl RawAuctionData {
    /// Whether no two orders have the same uid and every price is strictly
    /// positive.
    pub open spec fn wf(self) -> bool {
        is_sound(self.orders@, self.prices@)
    }
}

impl Auction {
    /// Whether no two orders have the same uid and every price is strictly
    /// positive.
    pub open spec fn wf(self) -> bool {
        is_sound(self.orders@, self.prices@)
    }

    /// Whether two auctions hold the same block, the same orders and owners
    /// in the same order, and the same price for every token. The id is left
    /// out: storage gives every cut a new one.
    pub open spec fn same_content(self, other: Auction) -> bool {
        &&& self.block == other.block
        &&& orders_agree(self.orders@, other.orders@)
        &&& price_map(self.prices@) == price_map(other.prices@)
        &&& self.surplus_capturing_jit_order_owners@ == other.surplus_capturing_jit_order_owners@
    }

    /// The uids of the auction's orders, in their order.
    pub open spec fn spec_order_uids(self) -> Seq<OrderUid> {
        self.orders@.map_values(|order: Order| order.uid)
    }

    /// The uids of the auction's orders, in their order.
    pub fn order_uids(&self) -> (r: Vec<OrderUid>)
        ensures
            r@ == self.spec_order_uids(),
    {
        let mut ids: Vec<OrderUid> = Vec::new();
        let mut i: usize = 0;
        while i < self.orders.len()
            invariant
                0 <= i <= self.orders.len(),
                ids@ == self.spec_order_uids().take(i as int),
            decreases self.orders.len() - i,
        {
            ids.push(self.orders[i].uid);
            assert(ids@ =~= self.spec_order_uids().take(i + 1));
            i += 1;
        }
        assert(ids@ =~= self.spec_order_uids());
        ids
    }
}

/// Same content is an equivalence: it holds of an auction and itself, both
/// ways round, and across a common third.
pub proof fn lemma_same_content(a: Auction, b: Auction, c: Auction)
    ensures
        a.same_content(a),
        a.same_content(b) ==> b.same_content(a),
        a.same_content(b) && b.same_content(c) ==> a.same_content(c),
{
    if a.same_content(b) {
        assert forall|i: int| 0 <= i < b.orders@.len() implies (#[trigger] b.orders@[i]).same_as(
            a.orders@[i],
        ) by {
            assert(a.orders@[i].same_as(b.orders@[i]));
        }
        if b.same_content(c) {
            assert forall|i: int| 0 <= i < a.orders@.len() implies (
            #[trigger] a.orders@[i]).same_as(c.orders@[i]) by {
                assert(a.orders@[i].same_as(b.orders@[i]));
                assert(b.orders@[i].same_as(c.orders@[i]));
            }
        }
    }
}

impl Clone for Auction {
    fn clone(&self) -> (r: Auction)
        ensures
            r.id == self.id,
            r.same_content(*self),
    {
        let mut orders: Vec<Order> = Vec::new();
        let mut i: usize = 0;
        while i < self.orders.len()
            invariant
                0 <= i <= self.orders.len(),
                orders@.len() == i,
                forall|j: int| 0 <= j < i ==> (#[trigger] orders@[j]).same_as(self.orders@[j]),
            decreases self.orders.len() - i,
        {
            orders.push(self.orders[i].clone());
            i += 1;
        }
        let mut prices: Vec<(TokenAddress, Price)> = Vec::new();
        let mut i: usize = 0;
        while i < self.prices.len()
            invariant
                0 <= i <= self.prices.len(),
                prices@ == self.prices@.take(i as int),
            decreases self.prices.len() - i,
        {
            prices.push(self.prices[i]);
            assert(prices@ =~= self.prices@.take(i + 1));
            i += 1;
        }
        assert(prices@ =~= self.prices@);
        let mut owners: Vec<Address> = Vec::new();
        let mut i: usize = 0;
        while i < self.surplus_capturing_jit_order_owners.len()
            invariant
                0 <= i <= self.surplus_capturing_jit_order_owners.len(),
                owners@ == self.surplus_capturing_jit_order_owners@.take(i as int),
            decreases self.surplus_capturing_jit_order_owners.len() - i,
        {
            owners.push(self.surplus_capturing_jit_order_owners[i]);
            assert(owners@ =~= self.surplus_capturing_jit_order_owners@.take(i + 1));
            i += 1;
        }
        assert(owners@ =~= self.surplus_capturing_jit_order_owners@);
        Auction {
            id: self.id,
            block: self.block,
            orders,
            prices,
            surplus_capturing_jit_order_owners: owners,
        }
    }
}

impl PartialEq for Auction {
    fn eq(&self, other: &Auction) -> (r: bool) {
        self.block == other.block && same_orders(&self.orders, &other.orders) && same_prices(
            &self.prices,
            &other.prices,
        ) && same_addresses(
            &self.surplus_capturing_jit_order_owners,
            &other.surplus_capturing_jit_order_owners,
        )
    }
}

impl PartialEqSpecImpl for Auction {
    open spec fn obeys_eq_spec() -> bool {
        true
    }

    open spec fn eq_spec(&self, other: &Auction) -> bool {
        self.same_content(*other)
    }
}

/// The uids of the orders that the solutions execute, solution after
/// solution; a uid stands as often as solutions execute it.
pub open spec fn order_ids_of(s: Seq<Participant>) -> Seq<OrderUid>
    decreases s.len(),
{
    if s.len() == 0 {
        Seq::empty()
    } else {
        order_ids_of(s.drop_last()) + s.last().solution.spec_order_ids()
    }
}

/// The uids of the orders that the solutions execute, solution after
/// solution.
pub fn all_order_ids(solutions: &[Participant]) -> (r: Vec<OrderUid>)
    ensures
        r@ == order_ids_of(solutions@),
{
    let mut ids: Vec<OrderUid> = Vec::new();
    let mut i: usize = 0;
    while i < solutions.len()
        invariant
            0 <= i <= solutions.len(),
            ids@ == order_ids_of(solutions@.take(i as int)),
        decreases solutions.len() - i,
    {
        let orders = &solutions[i].solution.orders;
        let ghost before = ids@;
        let ghost own = solutions@[i as int].solution.spec_order_ids();
        let mut k: usize = 0;
        while k < orders.len()
            invariant
                0 <= k <= orders.len(),
                orders == &solutions@[i as int].solution.orders,
                own == solutions@[i as int].solution.spec_order_ids(),
                ids@ == before + own.take(k as int),
            decreases orders.len() - k,
        {
            ids.push(orders[k].0);
            assert(ids@ =~= before + own.take(k + 1));
            k += 1;
        }
        assert(own.take(k as int) =~= own);
        assert(solutions@.take(i + 1).drop_last() =~= solutions@.take(i as int));
        i += 1;
    }
    assert(solutions@.take(i as int) =~= solutions@);
    ids
}

} // verus!
