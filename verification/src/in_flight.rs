//! The orders that are being settled right now. They are kept out of the
//! next auction, so that no solver fills an order a second time.

use crate::domain::{uid_of, Order, OrderUid, RawAuctionData};
use crate::eth::Address;
use crate::seqs::{lemma_kept_distinct_keys, lemma_kept_is_filter, retain_by_mask};
use vstd::prelude::*;

verus! {

/// The set of the uids of the orders in flight.
pub struct InFlightOrders {
    uids: Vec<OrderUid>,
}

impl View for InFlightOrders {
    type V = Set<OrderUid>;

    closed spec fn view(&self) -> Set<OrderUid> {
        self.uids@.to_set()
    }
}

/// Whether some uid of the set names `owner` as its owner.
pub open spec fn owns_one_of(uids: Set<OrderUid>, owner: Address) -> bool {
    exists|uid: OrderUid| #[trigger] uids.contains(uid) && uid.spec_owner() == owner.0.0@
}

/// An order whose uid is not in the set.
pub open spec fn not_in_flight(uids: Set<OrderUid>) -> spec_fn(Order) -> bool {
    |order: Order| !uids.contains(order.uid)
}

/// An owner that no uid of the set names.
pub open spec fn owns_none_of(uids: Set<OrderUid>) -> spec_fn(Address) -> bool {
    |owner: Address| !owns_one_of(uids, owner)
}

/// Putting uids in flight and taking the same uids out again leaves the set
/// as it was, provided that none of them was in flight before.
pub proof fn lemma_insert_then_remove(in_flight: Set<OrderUid>, uids: Set<OrderUid>)
    requires
        in_flight.disjoint(uids),
    ensures
        in_flight.union(uids).difference(uids) == in_flight,
{
    assert(in_flight.union(uids).difference(uids) =~= in_flight);
}

impl InFlightOrders {
    /// Whether the set holds every uid once.
    pub closed spec fn wf(&self) -> bool {
        self.uids@.no_duplicates()
    }

    /// The empty set.
    pub fn new() -> (r: InFlightOrders)
        ensures
            r@ == Set::<OrderUid>::empty(),
            r.wf(),
    {
        let r = InFlightOrders { uids: Vec::new() };
        assert(r@ =~= Set::<OrderUid>::empty());
        r
    }

    /// Whether no order is in flight.
    pub fn is_empty(&self) -> (r: bool)
        ensures
            r == (self@ == Set::<OrderUid>::empty()),
    {
        let r = self.uids.len() == 0;
        proof {
            if r {
                assert(self@ =~= Set::<OrderUid>::empty());
            } else {
                assert(self.uids@.contains(self.uids@[0]));
                assert(self@.contains(self.uids@[0]));
            }
        }
        r
    }

    /// How many orders are in flight.
    pub fn len(&self) -> (r: usize)
        requires
            self.wf(),
        ensures
            r == self@.len(),
            self@.finite(),
    {
        proof {
            self.uids@.unique_seq_to_set();
        }
        self.uids.len()
    }

    /// Whether the order is in flight.
    pub fn contains(&self, uid: &OrderUid) -> (r: bool)
        ensures
            r == self@.contains(*uid),
    {
        let mut i: usize = 0;
        while i < self.uids.len()
            invariant
                0 <= i <= self.uids.len(),
                forall|j: int| 0 <= j < i ==> self.uids@[j] != *uid,
            decreases self.uids.len() - i,
        {
            if self.uids[i] == *uid {
                assert(self.uids@.contains(*uid));
                return true;
            }
            i += 1;
        }
        false
    }

    /// Whether some order in flight belongs to `owner`.
    pub fn owns(&self, owner: &Address) -> (r: bool)
        ensures
            r == owns_one_of(self@, *owner),
    {
        let mut i: usize = 0;
        while i < self.uids.len()
            invariant
                0 <= i <= self.uids.len(),
                forall|j: int| 0 <= j < i ==> self.uids@[j].spec_owner() != owner.0.0@,
            decreases self.uids.len() - i,
        {
            let candidate = self.uids[i].owner();
            if candidate == *owner {
                assert(self.uids@.contains(self.uids@[i as int]));
                assert(self@.contains(self.uids@[i as int]));
                return true;
            }
            proof {
                if candidate.0.0@ == owner.0.0@ {
                    assert(candidate.0.0 =~= owner.0.0);
                }
            }
            i += 1;
        }
        proof {
            if owns_one_of(self@, *owner) {
                let uid = choose|uid: OrderUid| #[trigger]
                    self@.contains(uid) && uid.spec_owner() == owner.0.0@;
                let j = choose|j: int| 0 <= j < self.uids@.len() && self.uids@[j] == uid;
            }
        }
        false
    }

    /// Puts the orders in flight.
    pub fn insert_all(&mut self, uids: &Vec<OrderUid>)
        requires
            old(self).wf(),
        ensures
            final(self)@ == old(self)@.union(uids@.to_set()),
            final(self).wf(),
    {
        let ghost before = self.uids@;
        let mut i: usize = 0;
        while i < uids.len()
            invariant
                0 <= i <= uids.len(),
                self.uids@.no_duplicates(),
                self.uids@.to_set() == before.to_set().union(uids@.take(i as int).to_set()),
            decreases uids.len() - i,
        {
            let ghost prev = self.uids@;
            if !self.contains(&uids[i]) {
                self.uids.push(uids[i]);
            }
            assert(self.uids@.to_set() =~= before.to_set().union(
                uids@.take(i + 1).to_set(),
            )) by {
                let x = uids@[i as int];
                assert(uids@.take(i + 1) =~= uids@.take(i as int).push(x));
                assert forall|u: OrderUid|
                    self.uids@.to_set().contains(u) <==> (before.to_set().contains(u)
                        || uids@.take(i + 1).to_set().contains(u)) by {
                    let seen = uids@.take(i as int);
                    assert(prev.to_set().contains(u) <==> (before.to_set().contains(u)
                        || seen.to_set().contains(u)));
                    if self.uids@.contains(u) {
                        let j = choose|j: int| 0 <= j < self.uids@.len() && self.uids@[j] == u;
                        if j < prev.len() {
                            assert(prev[j] == u);
                            assert(prev.contains(u));
                        } else {
                            assert(u == x);
                            assert(uids@.take(i + 1)[i as int] == x);
                        }
                    }
                    if prev.contains(u) {
                        let j = choose|j: int| 0 <= j < prev.len() && prev[j] == u;
                        assert(self.uids@[j] == u);
                    }
                    let next = uids@.take(i + 1);
                    if next.contains(u) {
                        let j = choose|j: int| 0 <= j < next.len() && next[j] == u;
                        if j < i {
                            assert(uids@.take(i as int)[j] == u);
                            assert(uids@.take(i as int).contains(u));
                        } else {
                            assert(u == x);
                            if prev.contains(x) {
                            } else {
                                assert(self.uids@[prev.len() as int] == x);
                            }
                        }
                    }
                }
            }
            i += 1;
        }
        assert(uids@.take(i as int) =~= uids@);
    }

    /// Takes the orders out of flight.
    pub fn remove_all(&mut self, uids: &Vec<OrderUid>)
        requires
            old(self).wf(),
        ensures
            final(self)@ == old(self)@.difference(uids@.to_set()),
            final(self).wf(),
    {
        let ghost before = self.uids@;
        let mut rest: Vec<OrderUid> = Vec::new();
        let mut i: usize = 0;
        while i < self.uids.len()
            invariant
                0 <= i <= self.uids.len(),
                self.uids@ == before,
                before.no_duplicates(),
                rest@.no_duplicates(),
                forall|u: OrderUid| #[trigger]
                    rest@.contains(u) <==> (before.take(i as int).contains(u) && !uids@.contains(
                        u,
                    )),
            decreases self.uids.len() - i,
        {
            let x = self.uids[i];
            let mut found = false;
            let mut k: usize = 0;
            while k < uids.len()
                invariant
                    0 <= k <= uids.len(),
                    found == uids@.take(k as int).contains(x),
                decreases uids.len() - k,
            {
                assert(uids@.take(k + 1) =~= uids@.take(k as int).push(uids@[k as int]));
                proof {
                    if uids@.take(k as int).contains(x) {
                        let j = choose|j: int|
                            0 <= j < uids@.take(k as int).len() && uids@.take(k as int)[j] == x;
                        assert(uids@.take(k + 1)[j] == x);
                    }
                    if uids@[k as int] == x {
                        assert(uids@.take(k + 1)[k as int] == x);
                    }
                }
                if uids[k] == x {
                    found = true;
                }
                k += 1;
            }
            assert(uids@.take(k as int) =~= uids@);
            let ghost prev = rest@;
            if !found {
                rest.push(x);
            }
            proof {
                assert(before.take(i + 1) =~= before.take(i as int).push(x));
                assert(!before.take(i as int).contains(x)) by {
                    if before.take(i as int).contains(x) {
                        let j = choose|j: int|
                            0 <= j < before.take(i as int).len() && before.take(i as int)[j] == x;
                        assert(before[j] == before[i as int]);
                    }
                }
                assert(!prev.contains(x));
                assert(rest@.no_duplicates()) by {
                    assert forall|a: int, b: int|
                        0 <= a < rest@.len() && 0 <= b < rest@.len() && a != b implies rest@[a]
                        != rest@[b] by {
                        if a < prev.len() && b < prev.len() {
                            assert(prev[a] != prev[b]);
                        } else if a < prev.len() {
                            assert(prev.contains(prev[a]));
                        } else if b < prev.len() {
                            assert(prev.contains(prev[b]));
                        }
                    }
                }
                assert forall|u: OrderUid| #[trigger]
                    rest@.contains(u) <==> (before.take(i + 1).contains(u) && !uids@.contains(
                        u,
                    )) by {
                    assert(prev.contains(u) <==> (before.take(i as int).contains(u)
                        && !uids@.contains(u)));
                    if rest@.contains(u) {
                        let j = choose|j: int| 0 <= j < rest@.len() && rest@[j] == u;
                        if j < prev.len() {
                            assert(prev[j] == u);
                            assert(prev.contains(u));
                            let m = choose|m: int|
                                0 <= m < before.take(i as int).len() && before.take(i as int)[m]
                                    == u;
                            assert(before.take(i + 1)[m] == u);
                        } else {
                            assert(before.take(i + 1)[i as int] == u);
                        }
                    }
                    let next = before.take(i + 1);
                    if next.contains(u) && !uids@.contains(u) {
                        let m = choose|m: int| 0 <= m < next.len() && next[m] == u;
                        if m < i {
                            assert(before.take(i as int)[m] == u);
                            assert(before.take(i as int).contains(u));
                            assert(prev.contains(u));
                            let j = choose|j: int| 0 <= j < prev.len() && prev[j] == u;
                            assert(rest@[j] == u);
                        } else {
                            assert(rest@[prev.len() as int] == u);
                        }
                    }
                }
            }
            i += 1;
        }
        proof {
            assert(before.take(i as int) =~= before);
            assert forall|u: OrderUid|
                rest@.to_set().contains(u) <==> before.to_set().difference(
                    uids@.to_set(),
                ).contains(u) by {
                assert(rest@.contains(u) <==> (before.contains(u) && !uids@.contains(u)));
            }
            assert(rest@.to_set() =~= before.to_set().difference(uids@.to_set()));
        }
        self.uids = rest;
    }
}

/// Removes the orders that are in flight from the solvable orders, and the
/// owners of just-in-time orders that an order in flight names as its owner.
pub fn remove_in_flight_orders(auction: RawAuctionData, in_flight: &InFlightOrders) -> (r:
    RawAuctionData)
    ensures
        r.block == auction.block,
        r.prices == auction.prices,
        r.orders@ == auction.orders@.filter(not_in_flight(in_flight@)),
        r.surplus_capturing_jit_order_owners@ == auction.surplus_capturing_jit_order_owners@.filter(
            owns_none_of(in_flight@),
        ),
        auction.wf() ==> r.wf(),
{
    let ghost orders = auction.orders@;
    let ghost owners = auction.surplus_capturing_jit_order_owners@;
    let mut order_mask: Vec<bool> = Vec::new();
    let mut i: usize = 0;
    while i < auction.orders.len()
        invariant
            0 <= i <= auction.orders.len(),
            order_mask@ == auction.orders@.map_values(not_in_flight(in_flight@)).take(i as int),
        decreases auction.orders.len() - i,
    {
        order_mask.push(!in_flight.contains(&auction.orders[i].uid));
        assert(order_mask@ =~= auction.orders@.map_values(not_in_flight(in_flight@)).take(i + 1));
        i += 1;
    }
    assert(order_mask@ =~= orders.map_values(not_in_flight(in_flight@)));
    let mut owner_mask: Vec<bool> = Vec::new();
    let mut i: usize = 0;
    while i < auction.surplus_capturing_jit_order_owners.len()
        invariant
            0 <= i <= auction.surplus_capturing_jit_order_owners.len(),
            owner_mask@ == auction.surplus_capturing_jit_order_owners@.map_values(
                owns_none_of(in_flight@),
            ).take(i as int),
        decreases auction.surplus_capturing_jit_order_owners.len() - i,
    {
        owner_mask.push(!in_flight.owns(&auction.surplus_capturing_jit_order_owners[i]));
        assert(owner_mask@ =~= auction.surplus_capturing_jit_order_owners@.map_values(
            owns_none_of(in_flight@),
        ).take(i + 1));
        i += 1;
    }
    assert(owner_mask@ =~= owners.map_values(owns_none_of(in_flight@)));
    proof {
        lemma_kept_is_filter(orders, not_in_flight(in_flight@));
        lemma_kept_is_filter(owners, owns_none_of(in_flight@));
        if auction.wf() {
            lemma_kept_distinct_keys(orders, order_mask@, uid_of());
        }
    }
    RawAuctionData {
        block: auction.block,
        orders: retain_by_mask(auction.orders, &order_mask),
        prices: auction.prices,
        surplus_capturing_jit_order_owners: retain_by_mask(
            auction.surplus_capturing_jit_order_owners,
            &owner_mask,
        ),
    }
}

} // verus!
