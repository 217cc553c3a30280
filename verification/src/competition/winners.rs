//! Picking the winners of a ranking.

use crate::domain::{OrderUid, Participant, TradedOrder};
use crate::eth::{TokenAddress, WethAddress};
use crate::seqs::{holds, lemma_filter_push, reversed};
use vstd::laws_eq::obeys_concrete_eq;
use vstd::prelude::*;

verus! {

/// Whether a participant is ranked as a winner.
pub open spec fn won() -> spec_fn(Participant) -> bool {
    |p: Participant| p.spec_is_winner()
}

/// Whether one executed order sells or buys the token `t`, the marker of the
/// native token read as the wrapped native token.
pub open spec fn trades_token(
    entry: (OrderUid, TradedOrder),
    wrapped: WethAddress,
    t: TokenAddress,
) -> bool {
    entry.1.sell.token.spec_as_erc20(wrapped) == t || entry.1.buy.token.spec_as_erc20(wrapped)
        == t
}

/// Whether some order of the participant's solution sells or buys `t`.
pub open spec fn swaps(p: Participant, wrapped: WethAddress, t: TokenAddress) -> bool {
    exists|k: int|
        0 <= k < p.solution.orders@.len() && trades_token(
            #[trigger] p.solution.orders@[k],
            wrapped,
            t,
        )
}

/// The tokens that the participant's solution swaps.
pub open spec fn tokens_of(p: Participant, wrapped: WethAddress) -> Set<TokenAddress> {
    Set::new(|t: TokenAddress| swaps(p, wrapped, t))
}

/// The tokens that the participants before place `i` swap, winners or not.
pub open spec fn swapped_before(s: Seq<Participant>, i: int, wrapped: WethAddress) -> Set<
    TokenAddress,
> {
    Set::new(
        |t: TokenAddress|
            exists|j: int| 0 <= j < i && j < s.len() && swaps(#[trigger] s[j], wrapped, t),
    )
}

/// How many of the participants before place `i` win.
pub open spec fn winners_before(s: Seq<Participant>, i: int, max: nat, wrapped: WethAddress) -> nat
    decreases i, 0int,
{
    if i <= 0 {
        0
    } else {
        winners_before(s, i - 1, max, wrapped) + if wins(s, i - 1, max, wrapped) {
            1nat
        } else {
            0nat
        }
    }
}

/// Whether the participant at place `i` wins: it swaps no token that a
/// participant before it swaps, and fewer than `max` before it have won.
pub open spec fn wins(s: Seq<Participant>, i: int, max: nat, wrapped: WethAddress) -> bool
    decreases i, 1int,
{
    &&& 0 <= i < s.len()
    &&& tokens_of(s[i], wrapped).disjoint(swapped_before(s, i, wrapped))
    &&& winners_before(s, i, max, wrapped) < max
}

/// The participants ranked: each a winner or not, in the same order.
pub open spec fn with_winners(s: Seq<Participant>, max: nat, wrapped: WethAddress) -> Seq<
    Participant,
> {
    Seq::new(s.len(), |i: int| s[i].ranked(wins(s, i, max, wrapped)))
}

/// Whether the participant swaps none of the tokens in `swapped`.
fn swaps_none_of(p: &Participant, swapped: &Vec<TokenAddress>, wrapped: &WethAddress) -> (r: bool)
    ensures
        r == tokens_of(*p, *wrapped).disjoint(swapped@.to_set()),
{
    let orders = &p.solution.orders;
    let mut k: usize = 0;
    while k < orders.len()
        invariant
            0 <= k <= orders.len(),
            orders == &p.solution.orders,
            forall|j: int|
                0 <= j < k ==> forall|t: TokenAddress|
                    trades_token(#[trigger] orders@[j], *wrapped, t) ==> !swapped@.contains(t),
        decreases orders.len() - k,
    {
        let sell = orders[k].1.sell.token.as_erc20(*wrapped);
        let buy = orders[k].1.buy.token.as_erc20(*wrapped);
        proof {
            reveal(obeys_concrete_eq);
        }
        if holds(swapped, &sell) || holds(swapped, &buy) {
            proof {
                let t = if swapped@.contains(sell) {
                    sell
                } else {
                    buy
                };
                assert(trades_token(p.solution.orders@[k as int], *wrapped, t));
                assert(swaps(*p, *wrapped, t));
                assert(tokens_of(*p, *wrapped).contains(t));
                assert(swapped@.to_set().contains(t));
            }
            return false;
        }
        k += 1;
    }
    assert forall|t: TokenAddress|
        !(tokens_of(*p, *wrapped).contains(t) && swapped@.to_set().contains(t)) by {
        if swaps(*p, *wrapped, t) {
            let j = choose|j: int|
                0 <= j < p.solution.orders@.len() && trades_token(
                    #[trigger] p.solution.orders@[j],
                    *wrapped,
                    t,
                );
            assert(!swapped@.contains(t));
        }
    }
    true
}

/// Whether one of the first `k` executed orders sells or buys `t`.
spec fn traded_among(
    orders: Seq<(OrderUid, TradedOrder)>,
    k: int,
    wrapped: WethAddress,
    t: TokenAddress,
) -> bool {
    exists|j: int| 0 <= j < k && j < orders.len() && trades_token(#[trigger] orders[j], wrapped, t)
}

/// Adds the tokens that the participant swaps to `swapped`.
fn add_tokens_of(p: &Participant, swapped: &mut Vec<TokenAddress>, wrapped: &WethAddress)
    ensures
        final(swapped)@.to_set() == old(swapped)@.to_set().union(tokens_of(*p, *wrapped)),
{
    let orders = &p.solution.orders;
    let ghost before = swapped@;
    let mut k: usize = 0;
    while k < orders.len()
        invariant
            0 <= k <= orders.len(),
            orders == &p.solution.orders,
            forall|t: TokenAddress| #[trigger]
                swapped@.contains(t) <==> (before.contains(t) || traded_among(
                    orders@,
                    k as int,
                    *wrapped,
                    t,
                )),
        decreases orders.len() - k,
    {
        let sell = orders[k].1.sell.token.as_erc20(*wrapped);
        let buy = orders[k].1.buy.token.as_erc20(*wrapped);
        let ghost prev = swapped@;
        swapped.push(sell);
        swapped.push(buy);
        assert forall|t: TokenAddress| #[trigger]
            swapped@.contains(t) <==> (before.contains(t) || traded_among(
                orders@,
                k + 1,
                *wrapped,
                t,
            )) by {
            assert(swapped@ =~= prev.push(sell).push(buy));
            assert(prev.contains(t) <==> (before.contains(t) || traded_among(
                orders@,
                k as int,
                *wrapped,
                t,
            )));
            if swapped@.contains(t) {
                let i = choose|i: int| 0 <= i < swapped@.len() && swapped@[i] == t;
                if i < prev.len() {
                    assert(prev[i] == t);
                    assert(prev.contains(t));
                    if traded_among(orders@, k as int, *wrapped, t) {
                        let j = choose|j: int|
                            0 <= j < k && j < orders@.len() && trades_token(
                                #[trigger] orders@[j],
                                *wrapped,
                                t,
                            );
                        assert(traded_among(orders@, k + 1, *wrapped, t));
                    }
                } else {
                    assert(trades_token(orders@[k as int], *wrapped, t));
                    assert(traded_among(orders@, k + 1, *wrapped, t));
                }
            }
            if prev.contains(t) {
                let i = choose|i: int| 0 <= i < prev.len() && prev[i] == t;
                assert(swapped@[i] == t);
            }
            if traded_among(orders@, k + 1, *wrapped, t) {
                let j = choose|j: int|
                    0 <= j < k + 1 && j < orders@.len() && trades_token(
                        #[trigger] orders@[j],
                        *wrapped,
                        t,
                    );
                if j < k {
                    assert(traded_among(orders@, k as int, *wrapped, t));
                } else {
                    assert(swapped@[prev.len() as int] == sell);
                    assert(swapped@[prev.len() as int + 1] == buy);
                }
            }
        }
        k += 1;
    }
    assert forall|t: TokenAddress|
        swapped@.to_set().contains(t) <==> before.to_set().union(
            tokens_of(*p, *wrapped),
        ).contains(t) by {
        assert(swapped@.contains(t) <==> (before.contains(t) || traded_among(
            orders@,
            k as int,
            *wrapped,
            t,
        )));
        if traded_among(orders@, k as int, *wrapped, t) {
            let j = choose|j: int|
                0 <= j < k && j < orders@.len() && trades_token(
                    #[trigger] orders@[j],
                    *wrapped,
                    t,
                );
            assert(swaps(*p, *wrapped, t));
        }
        if swaps(*p, *wrapped, t) {
            let j = choose|j: int|
                0 <= j < p.solution.orders@.len() && trades_token(
                    #[trigger] p.solution.orders@[j],
                    *wrapped,
                    t,
                );
            assert(traded_among(orders@, k as int, *wrapped, t));
        }
    }
    assert(swapped@.to_set() =~= before.to_set().union(tokens_of(*p, *wrapped)));
}

/// For each participant, in order, whether it wins.
fn winner_flags(participants: &Vec<Participant>, max_winners: usize, wrapped: &WethAddress) -> (r:
    Vec<bool>)
    ensures
        r@.len() == participants@.len(),
        forall|i: int|
            0 <= i < r@.len() ==> r@[i] == wins(participants@, i, max_winners as nat, *wrapped),
{
    let mut flags: Vec<bool> = Vec::new();
    let mut swapped: Vec<TokenAddress> = Vec::new();
    let mut winners: usize = 0;
    let mut i: usize = 0;
    assert(swapped@.to_set() =~= swapped_before(participants@, 0, *wrapped));
    while i < participants.len()
        invariant
            0 <= i <= participants.len(),
            flags@.len() == i,
            forall|j: int|
                0 <= j < i ==> flags@[j] == wins(participants@, j, max_winners as nat, *wrapped),
            swapped@.to_set() == swapped_before(participants@, i as int, *wrapped),
            winners == winners_before(participants@, i as int, max_winners as nat, *wrapped),
            winners <= i,
        decreases participants.len() - i,
    {
        let is_winner = swaps_none_of(&participants[i], &swapped, wrapped) && winners
            < max_winners;
        assert(is_winner == wins(participants@, i as int, max_winners as nat, *wrapped));
        add_tokens_of(&participants[i], &mut swapped, wrapped);
        assert(swapped@.to_set() =~= swapped_before(participants@, i + 1, *wrapped)) by {
            assert forall|t: TokenAddress|
                swapped_before(participants@, i + 1, *wrapped).contains(t) <==> (swapped_before(
                    participants@,
                    i as int,
                    *wrapped,
                ).contains(t) || tokens_of(participants@[i as int], *wrapped).contains(t)) by {
                if swapped_before(participants@, i + 1, *wrapped).contains(t) {
                    let j = choose|j: int|
                        0 <= j < i + 1 && j < participants@.len() && swaps(
                            #[trigger] participants@[j],
                            *wrapped,
                            t,
                        );
                    if j < i {
                        assert(swapped_before(participants@, i as int, *wrapped).contains(t));
                    }
                }
                if tokens_of(participants@[i as int], *wrapped).contains(t) {
                    assert(swaps(participants@[i as int], *wrapped, t));
                }
            }
        }
        if is_winner {
            winners += 1;
        }
        flags.push(is_winner);
        i += 1;
    }
    flags
}

/// Ranks each participant with its flag.
fn rank_all(participants: Vec<Participant>, flags: &Vec<bool>) -> (r: Vec<Participant>)
    requires
        flags@.len() == participants@.len(),
    ensures
        r@.len() == participants@.len(),
        forall|i: int| 0 <= i < r@.len() ==> r@[i] == participants@[i].ranked(flags@[i]),
{
    let ghost orig = participants@;
    let n = participants.len();
    let mut stack = reversed(participants);
    let mut r: Vec<Participant> = Vec::new();
    let mut i: usize = 0;
    while i < n
        invariant
            n == orig.len(),
            n == flags@.len(),
            0 <= i <= n,
            stack@.len() == n - i,
            forall|j: int| 0 <= j < stack@.len() ==> stack@[j] == orig[n - 1 - j],
            r@.len() == i,
            forall|j: int| 0 <= j < i ==> r@[j] == orig[j].ranked(flags@[j]),
        decreases n - i,
    {
        let p = stack.pop().unwrap();
        r.push(p.rank(flags[i]));
        i += 1;
    }
    r
}

/// Picks the winners. Walking from the best participant down, one wins if
/// it swaps no token that a participant before it swaps, winner or not, and
/// fewer than `max_winners` have won already. All participants stay, in
/// their order, each ranked as a winner or not.
pub fn select_winners(
    participants: Vec<Participant>,
    max_winners: usize,
    wrapped_native_token: &WethAddress,
) -> (r: Vec<Participant>)
    ensures
        r@ == with_winners(participants@, max_winners as nat, *wrapped_native_token),
{
    let flags = winner_flags(&participants, max_winners, wrapped_native_token);
    let ghost orig = participants@;
    let r = rank_all(participants, &flags);
    assert(r@ =~= with_winners(orig, max_winners as nat, *wrapped_native_token));
    r
}

/// Whether no two winners among `r` swap a common token.
pub open spec fn winners_are_disjoint(r: Seq<Participant>, wrapped: WethAddress) -> bool {
    forall|i: int, j: int|
        0 <= i < j < r.len() && (#[trigger] r[i]).spec_is_winner() && (
        #[trigger] r[j]).spec_is_winner() ==> tokens_of(r[i], wrapped).disjoint(
            tokens_of(r[j], wrapped),
        )
}

proof fn lemma_winner_count(s: Seq<Participant>, max: nat, wrapped: WethAddress, n: int)
    requires
        0 <= n <= s.len(),
    ensures
        with_winners(s, max, wrapped).take(n).filter(won()).len() == winners_before(
            s,
            n,
            max,
            wrapped,
        ),
        winners_before(s, n, max, wrapped) <= max,
    decreases n,
{
    let r = with_winners(s, max, wrapped);
    if n > 0 {
        lemma_winner_count(s, max, wrapped, n - 1);
        assert(r.take(n) =~= r.take(n - 1).push(r[n - 1]));
        lemma_filter_push(r.take(n - 1), r[n - 1], won());
    } else {
        reveal(Seq::filter);
        assert(r.take(0) =~= Seq::<Participant>::empty());
    }
}

/// Winner selection names at most `max` winners, and no two of them swap a
/// common token: the tokens that the winners swap are the disjoint union of
/// what each of them swaps.
pub proof fn lemma_winners(s: Seq<Participant>, max: nat, wrapped: WethAddress)
    ensures
        with_winners(s, max, wrapped).filter(won()).len() <= max,
        winners_are_disjoint(with_winners(s, max, wrapped), wrapped),
{
    let r = with_winners(s, max, wrapped);
    lemma_winner_count(s, max, wrapped, s.len() as int);
    assert(r.take(s.len() as int) =~= r);
    assert forall|i: int, j: int|
        0 <= i < j < r.len() && (#[trigger] r[i]).spec_is_winner() && (
        #[trigger] r[j]).spec_is_winner() implies tokens_of(r[i], wrapped).disjoint(
        tokens_of(r[j], wrapped),
    ) by {
        assert(wins(s, j, max, wrapped));
        assert(r[i].solution == s[i].solution);
        assert(r[j].solution == s[j].solution);
        assert forall|t: TokenAddress| swaps(r[i], wrapped, t) == swaps(s[i], wrapped, t) by {}
        assert forall|t: TokenAddress| swaps(r[j], wrapped, t) == swaps(s[j], wrapped, t) by {}
        assert(tokens_of(r[i], wrapped) =~= tokens_of(s[i], wrapped));
        assert(tokens_of(r[j], wrapped) =~= tokens_of(s[j], wrapped));
        assert forall|t: TokenAddress|
            !(tokens_of(s[i], wrapped).contains(t) && tokens_of(s[j], wrapped).contains(t)) by {
            if tokens_of(s[i], wrapped).contains(t) {
                assert(swaps(s[i], wrapped, t));
                assert(swapped_before(s, j, wrapped).contains(t));
            }
        }
    }
}

} // verus!
