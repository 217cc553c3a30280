//! The competition: how the proposed solutions of one auction are ranked,
//! thinned out and turned into winners.

use crate::competition::sorting::{sort_by_score, sorted_by_score};
use crate::competition::winners::{
    lemma_winners, select_winners, winners_are_disjoint, with_winners, won,
};
use crate::domain::{Auction, Participant};
use crate::eth::WethAddress;
use crate::fairness::{is_fair, is_solution_fair};
use crate::run_loop::Config;
use crate::seqs::{
    kept, lemma_filter_push, lemma_kept_from, lemma_kept_is_filter, retain_by_mask,
};
use rand::seq::SliceRandom;
use vstd::prelude::*;
use vstd::slice::slice_subrange;

pub mod sorting;
pub mod winners;

verus! {

/// Whether the solution names its driver's submission address as solver.
pub open spec fn is_authentic(p: Participant) -> bool {
    p.solution.solver == p.driver.submission_address
}

/// [`is_authentic`] as a predicate.
pub open spec fn authentic() -> spec_fn(Participant) -> bool {
    |p: Participant| is_authentic(p)
}

/// Drops the solutions that do not come from their driver's submission
/// address. The others keep their order.
pub fn only_authentic(participants: Vec<Participant>) -> (r: Vec<Participant>)
    ensures
        r@ == participants@.filter(authentic()),
{
    let mut mask: Vec<bool> = Vec::new();
    let mut i: usize = 0;
    while i < participants.len()
        invariant
            0 <= i <= participants.len(),
            mask@ == participants@.map_values(authentic()).take(i as int),
        decreases participants.len() - i,
    {
        mask.push(participants[i].solution.solver == participants[i].driver.submission_address);
        assert(mask@ =~= participants@.map_values(authentic()).take(i + 1));
        i += 1;
    }
    assert(mask@ =~= participants@.map_values(authentic()));
    proof {
        lemma_kept_is_filter(participants@, authentic());
    }
    retain_by_mask(participants, &mask)
}

/// Whether a participant belongs to the driver of the given name.
pub open spec fn of_driver(name: Seq<char>) -> spec_fn(Participant) -> bool {
    |p: Participant| p.driver.name@ == name
}

/// Whether fewer than `max` participants before place `i` belong to the
/// driver of the participant at `i`.
pub open spec fn within_cap(s: Seq<Participant>, i: int, max: nat) -> bool {
    s.take(i).filter(of_driver(s[i].driver.name@)).len() < max
}

/// For each place, whether the participant there is within the cap.
pub open spec fn cap_mask(s: Seq<Participant>, max: nat) -> Seq<bool> {
    Seq::new(s.len(), |i: int| within_cap(s, i, max))
}

/// The first `max` participants of each driver, in their order.
pub open spec fn capped(s: Seq<Participant>, max: nat) -> Seq<Participant> {
    kept(s, cap_mask(s, max))
}

/// How many of the first `upto` participants belong to the driver `name`.
fn count_of_driver(participants: &Vec<Participant>, upto: usize, name: &String) -> (r: usize)
    requires
        upto <= participants.len(),
    ensures
        r == participants@.take(upto as int).filter(of_driver(name@)).len(),
{
    let mut count: usize = 0;
    let mut j: usize = 0;
    assert(participants@.take(0).filter(of_driver(name@)).len() == 0) by {
        reveal(Seq::filter);
    }
    while j < upto
        invariant
            0 <= j <= upto <= participants.len(),
            count <= j,
            count == participants@.take(j as int).filter(of_driver(name@)).len(),
        decreases upto - j,
    {
        proof {
            reveal(Seq::filter);
            assert(participants@.take(j + 1).drop_last() =~= participants@.take(j as int));
            assert(participants@.take(j + 1).last() == participants@[j as int]);
        }
        if participants[j].driver.name == *name {
            count += 1;
        }
        j += 1;
    }
    count
}

/// Keeps at most `max` solutions of each driver: its first ones. The order
/// of those that stay does not change.
pub fn cap_per_solver(participants: Vec<Participant>, max: usize) -> (r: Vec<Participant>)
    ensures
        r@ == capped(participants@, max as nat),
{
    let mut mask: Vec<bool> = Vec::new();
    let mut i: usize = 0;
    while i < participants.len()
        invariant
            0 <= i <= participants.len(),
            mask@ == cap_mask(participants@, max as nat).take(i as int),
        decreases participants.len() - i,
    {
        let before = count_of_driver(&participants, i, &participants[i].driver.name);
        mask.push(before < max);
        assert(mask@ =~= cap_mask(participants@, max as nat).take(i + 1));
        i += 1;
    }
    assert(mask@ =~= cap_mask(participants@, max as nat));
    retain_by_mask(participants, &mask)
}

/// For each place, whether the participant there is fair to itself and all
/// that follow it.
pub open spec fn fair_mask(s: Seq<Participant>, auction: Auction) -> Seq<bool> {
    Seq::new(s.len(), |i: int| is_fair(s[i], s.skip(i), auction))
}

/// The participants that are fair to those ranked below them, in their
/// order. Each is compared with all that follow it, fair or not.
pub open spec fn only_fair_of(s: Seq<Participant>, auction: Auction) -> Seq<Participant> {
    kept(s, fair_mask(s, auction))
}

/// Drops the solutions that are unfair to those ranked below them.
pub fn only_fair(participants: Vec<Participant>, auction: &Auction) -> (r: Vec<Participant>)
    ensures
        r@ == only_fair_of(participants@, *auction),
{
    let n = participants.len();
    let mut mask: Vec<bool> = Vec::new();
    let mut i: usize = 0;
    while i < n
        invariant
            n == participants.len(),
            0 <= i <= n,
            mask@ == fair_mask(participants@, *auction).take(i as int),
        decreases n - i,
    {
        let others = slice_subrange(participants.as_slice(), i, n);
        assert(others@ =~= participants@.skip(i as int));
        mask.push(is_solution_fair(&participants[i], others, auction));
        assert(mask@ =~= fair_mask(participants@, *auction).take(i + 1));
        i += 1;
    }
    assert(mask@ =~= fair_mask(participants@, *auction));
    retain_by_mask(participants, &mask)
}

/// The ranked participants that come of a shuffled list of proposals: the
/// list is sorted by score, the solutions that do not come from their
/// driver's address are dropped, each driver keeps its first
/// `max_solutions`, the unfair ones among those are dropped, and winners are
/// picked among the rest.
pub open spec fn ranking(
    shuffled: Seq<Participant>,
    auction: Auction,
    max_solutions: nat,
    max_winners: nat,
    wrapped: WethAddress,
) -> Seq<Participant> {
    with_winners(
        only_fair_of(capped(sorted_by_score(shuffled).filter(authentic()), max_solutions), auction),
        max_winners,
        wrapped,
    )
}

/// Ranks a list of proposals that has been shuffled already. The outcome is
/// a function of the list: the same list gives the same ranking.
pub fn rank(
    shuffled: Vec<Participant>,
    auction: &Auction,
    config: &Config,
    wrapped_native_token: &WethAddress,
) -> (r: Vec<Participant>)
    ensures
        r@ == ranking(
            shuffled@,
            *auction,
            config.max_solutions_per_solver as nat,
            config.max_winners_per_auction as nat,
            *wrapped_native_token,
        ),
{
    let sorted = sort_by_score(shuffled);
    let authentic = only_authentic(sorted);
    let capped = cap_per_solver(authentic, config.max_solutions_per_solver);
    let fair = only_fair(capped, auction);
    select_winners(fair, config.max_winners_per_auction, wrapped_native_token)
}

/// Whether `a` holds the participants of `b`, each as often, in any order.
pub open spec fn is_shuffle_of(a: Seq<Participant>, b: Seq<Participant>) -> bool {
    a.to_multiset() == b.to_multiset()
}

/// Puts the participants in a random order.
///
/// Trusted: calls `rand::seq::SliceRandom::shuffle` with the generator of
/// `rand::thread_rng`, which swaps elements of the slice in place. The order
/// that comes out is left open; `thread_rng` panics if the operating system
/// gives it no seed.
#[verifier::external_body]
fn shuffle(participants: &mut Vec<Participant>)
    ensures
        is_shuffle_of(final(participants)@, old(participants)@),
{
    participants.shuffle(&mut rand::thread_rng());
}

/// Whether `r` is the ranking of some shuffle of the proposals.
pub open spec fn is_ranking_of(
    r: Seq<Participant>,
    proposals: Seq<Participant>,
    auction: Auction,
    max_solutions: nat,
    max_winners: nat,
    wrapped: WethAddress,
) -> bool {
    exists|shuffled: Seq<Participant>| #[trigger]
        is_shuffle_of(shuffled, proposals) && r == ranking(
            shuffled,
            auction,
            max_solutions,
            max_winners,
            wrapped,
        )
}

/// Runs the competition on the proposals that the drivers sent: shuffles
/// them, so that chance decides between equal scores, and ranks them.
pub fn competition(
    proposals: Vec<Participant>,
    auction: &Auction,
    config: &Config,
    wrapped_native_token: &WethAddress,
) -> (r: Vec<Participant>)
    ensures
        is_ranking_of(
            r@,
            proposals@,
            *auction,
            config.max_solutions_per_solver as nat,
            config.max_winners_per_auction as nat,
            *wrapped_native_token,
        ),
        forall|i: int| 0 <= i < r@.len() ==> is_authentic(#[trigger] r@[i]),
        r@.filter(won()).len() <= config.max_winners_per_auction,
        forall|name: Seq<char>| #[trigger]
            r@.filter(of_driver(name)).len() <= config.max_solutions_per_solver,
        winners_are_disjoint(r@, *wrapped_native_token),
{
    let ghost given = proposals@;
    let mut proposals = proposals;
    shuffle(&mut proposals);
    let ghost shuffled = proposals@;
    let r = rank(proposals, auction, config, wrapped_native_token);
    proof {
        assert(is_shuffle_of(shuffled, given));
        lemma_ranking_authentic(
            shuffled,
            *auction,
            config.max_solutions_per_solver as nat,
            config.max_winners_per_auction as nat,
            *wrapped_native_token,
        );
        lemma_ranking_winners(
            shuffled,
            *auction,
            config.max_solutions_per_solver as nat,
            config.max_winners_per_auction as nat,
            *wrapped_native_token,
        );
        assert forall|name: Seq<char>| #[trigger]
            r@.filter(of_driver(name)).len() <= config.max_solutions_per_solver by {
            lemma_ranking_capped(
                shuffled,
                *auction,
                config.max_solutions_per_solver as nat,
                config.max_winners_per_auction as nat,
                *wrapped_native_token,
                name,
            );
        }
    }
    r
}

proof fn lemma_kept_push<T>(s: Seq<T>, mask: Seq<bool>, n: int)
    requires
        0 <= n < s.len(),
        s.len() == mask.len(),
    ensures
        kept(s.take(n + 1), mask.take(n + 1)) == if mask[n] {
            kept(s.take(n), mask.take(n)).push(s[n])
        } else {
            kept(s.take(n), mask.take(n))
        },
{
    assert(s.take(n + 1).drop_last() =~= s.take(n));
    assert(mask.take(n + 1).drop_last() =~= mask.take(n));
}

proof fn lemma_capped_prefix(s: Seq<Participant>, max: nat, name: Seq<char>, n: int)
    requires
        0 <= n <= s.len(),
    ensures
        kept(s.take(n), cap_mask(s, max).take(n)).filter(of_driver(name)).len() == if s.take(
            n,
        ).filter(of_driver(name)).len() < max {
            s.take(n).filter(of_driver(name)).len()
        } else {
            max
        },
    decreases n,
{
    let pred = of_driver(name);
    if n > 0 {
        lemma_capped_prefix(s, max, name, n - 1);
        lemma_kept_push(s, cap_mask(s, max), n - 1);
        let init = kept(s.take(n - 1), cap_mask(s, max).take(n - 1));
        lemma_filter_push(init, s[n - 1], pred);
        lemma_filter_push(s.take(n - 1), s[n - 1], pred);
        assert(s.take(n) =~= s.take(n - 1).push(s[n - 1]));
        if pred(s[n - 1]) {
            assert(of_driver(s[n - 1].driver.name@) == pred);
        }
    } else {
        reveal(Seq::filter);
        assert(s.take(0) =~= Seq::<Participant>::empty());
    }
}

/// After the cap no driver has more than `max` solutions left.
pub proof fn lemma_capped_count(s: Seq<Participant>, max: nat, name: Seq<char>)
    ensures
        capped(s, max).filter(of_driver(name)).len() <= max,
{
    lemma_capped_prefix(s, max, name, s.len() as int);
    assert(s.take(s.len() as int) =~= s);
    assert(cap_mask(s, max).take(s.len() as int) =~= cap_mask(s, max));
}

proof fn lemma_kept_filter_len<T>(s: Seq<T>, mask: Seq<bool>, pred: spec_fn(T) -> bool)
    requires
        s.len() == mask.len(),
    ensures
        kept(s, mask).filter(pred).len() <= s.filter(pred).len(),
    decreases s.len(),
{
    reveal(Seq::filter);
    if s.len() > 0 {
        lemma_kept_filter_len(s.drop_last(), mask.drop_last(), pred);
        lemma_filter_push(kept(s.drop_last(), mask.drop_last()), s.last(), pred);
    }
}

proof fn lemma_filter_len_agree(
    a: Seq<Participant>,
    b: Seq<Participant>,
    pred: spec_fn(Participant) -> bool,
)
    requires
        a.len() == b.len(),
        forall|i: int| 0 <= i < a.len() ==> pred(#[trigger] a[i]) == pred(b[i]),
    ensures
        a.filter(pred).len() == b.filter(pred).len(),
    decreases a.len(),
{
    reveal(Seq::filter);
    if a.len() > 0 {
        assert(pred(a[a.len() - 1]) == pred(b[a.len() - 1]));
        lemma_filter_len_agree(a.drop_last(), b.drop_last(), pred);
    }
}

/// Every participant of a ranking has come from its driver's submission
/// address.
pub proof fn lemma_ranking_authentic(
    shuffled: Seq<Participant>,
    auction: Auction,
    max_solutions: nat,
    max_winners: nat,
    wrapped: WethAddress,
)
    ensures
        forall|i: int|
            0 <= i < ranking(shuffled, auction, max_solutions, max_winners, wrapped).len()
                ==> is_authentic(
                #[trigger] ranking(shuffled, auction, max_solutions, max_winners, wrapped)[i],
            ),
{
    let a = sorted_by_score(shuffled).filter(authentic());
    let c = capped(a, max_solutions);
    let d = only_fair_of(c, auction);
    let e = with_winners(d, max_winners, wrapped);
    assert forall|i: int| 0 <= i < e.len() implies is_authentic(#[trigger] e[i]) by {
        lemma_kept_from(c, fair_mask(c, auction), i);
        let ci = choose|ci: int| 0 <= ci < c.len() && fair_mask(c, auction)[ci] && c[ci] == d[i];
        lemma_kept_from(a, cap_mask(a, max_solutions), ci);
        let ai = choose|ai: int|
            0 <= ai < a.len() && cap_mask(a, max_solutions)[ai] && a[ai] == c[ci];
        sorted_by_score(shuffled).lemma_filter_pred(authentic(), ai);
    }
}

/// A ranking has at most `max_winners` winners, and no two of them swap a
/// common token.
pub proof fn lemma_ranking_winners(
    shuffled: Seq<Participant>,
    auction: Auction,
    max_solutions: nat,
    max_winners: nat,
    wrapped: WethAddress,
)
    ensures
        ranking(shuffled, auction, max_solutions, max_winners, wrapped).filter(won()).len()
            <= max_winners,
        winners_are_disjoint(
            ranking(shuffled, auction, max_solutions, max_winners, wrapped),
            wrapped,
        ),
{
    lemma_winners(
        only_fair_of(capped(sorted_by_score(shuffled).filter(authentic()), max_solutions), auction),
        max_winners,
        wrapped,
    );
}

/// A ranking holds at most `max_solutions` solutions of any one driver.
pub proof fn lemma_ranking_capped(
    shuffled: Seq<Participant>,
    auction: Auction,
    max_solutions: nat,
    max_winners: nat,
    wrapped: WethAddress,
    name: Seq<char>,
)
    ensures
        ranking(shuffled, auction, max_solutions, max_winners, wrapped).filter(
            of_driver(name),
        ).len() <= max_solutions,
{
    let a = sorted_by_score(shuffled).filter(authentic());
    let c = capped(a, max_solutions);
    let d = only_fair_of(c, auction);
    let e = with_winners(d, max_winners, wrapped);
    lemma_capped_count(a, max_solutions, name);
    lemma_kept_filter_len(c, fair_mask(c, auction), of_driver(name));
    lemma_filter_len_agree(e, d, of_driver(name));
}

} // verus!
