//! Sorting the proposals by score.

use crate::domain::Participant;
use crate::seqs::reversed;
use vstd::prelude::*;

verus! {

/// The score of a participant's solution.
pub open spec fn score_of(p: Participant) -> nat {
    p.solution.score.0.0@
}

/// Whether the scores never rise from one participant to the next.
pub open spec fn is_descending(s: Seq<Participant>) -> bool {
    forall|i: int, j: int| 0 <= i < j < s.len() ==> score_of(s[i]) >= score_of(s[j])
}

/// Where a participant with the given score goes into a ranking: before the
/// first participant with a smaller score, and so behind all that tie with
/// it.
pub open spec fn slot(ranking: Seq<Participant>, score: nat) -> int
    decreases ranking.len(),
{
    if ranking.len() == 0 || score_of(ranking[0]) < score {
        0
    } else {
        1 + slot(ranking.drop_first(), score)
    }
}

/// The ranking with one more participant put at its place.
pub open spec fn placed(ranking: Seq<Participant>, p: Participant) -> Seq<Participant> {
    ranking.insert(slot(ranking, score_of(p)), p)
}

/// The participants by score, highest first; those with equal scores keep
/// the order in which they came.
pub open spec fn sorted_by_score(s: Seq<Participant>) -> Seq<Participant>
    decreases s.len(),
{
    if s.len() == 0 {
        Seq::empty()
    } else {
        placed(sorted_by_score(s.drop_last()), s.last())
    }
}

/// The slot lies in the ranking, all before it score at least `score`, and
/// the participant at it, if any, scores less.
pub proof fn lemma_slot(ranking: Seq<Participant>, score: nat)
    ensures
        0 <= slot(ranking, score) <= ranking.len(),
        forall|j: int| 0 <= j < slot(ranking, score) ==> score_of(#[trigger] ranking[j]) >= score,
        slot(ranking, score) < ranking.len() ==> score_of(ranking[slot(ranking, score)]) < score,
    decreases ranking.len(),
{
    if ranking.len() == 0 || score_of(ranking[0]) < score {
    } else {
        lemma_slot(ranking.drop_first(), score);
        assert forall|j: int| 0 <= j < slot(ranking, score) implies score_of(
            #[trigger] ranking[j],
        ) >= score by {
            if j > 0 {
                assert(ranking[j] == ranking.drop_first()[j - 1]);
            }
        }
    }
}

/// Placing a participant into a descending ranking leaves it descending.
pub proof fn lemma_placed_descending(ranking: Seq<Participant>, p: Participant)
    requires
        is_descending(ranking),
    ensures
        is_descending(placed(ranking, p)),
{
    let k = slot(ranking, score_of(p));
    lemma_slot(ranking, score_of(p));
    let out = placed(ranking, p);
    assert forall|i: int, j: int| 0 <= i < j < out.len() implies score_of(out[i]) >= score_of(
        out[j],
    ) by {
        if i < k && j == k {
            assert(out[i] == ranking[i]);
        } else if i < k && j > k {
            assert(out[i] == ranking[i]);
            assert(out[j] == ranking[j - 1]);
        } else if i < k && j < k {
        } else if i == k {
            assert(out[j] == ranking[j - 1]);
            assert(score_of(ranking[k]) >= score_of(ranking[j - 1]) || j - 1 == k);
        } else {
            assert(out[i] == ranking[i - 1]);
            assert(out[j] == ranking[j - 1]);
        }
    }
}

/// The scores of a sorted sequence never rise.
pub proof fn lemma_sorted_descending(s: Seq<Participant>)
    ensures
        is_descending(sorted_by_score(s)),
    decreases s.len(),
{
    if s.len() > 0 {
        lemma_sorted_descending(s.drop_last());
        lemma_placed_descending(sorted_by_score(s.drop_last()), s.last());
    }
}

/// Whether a participant has exactly the given score.
pub open spec fn has_score(score: nat) -> spec_fn(Participant) -> bool {
    |p: Participant| score_of(p) == score
}

proof fn lemma_filter_none(s: Seq<Participant>, pred: spec_fn(Participant) -> bool)
    requires
        forall|i: int| 0 <= i < s.len() ==> !pred(#[trigger] s[i]),
    ensures
        s.filter(pred) == Seq::<Participant>::empty(),
    decreases s.len(),
{
    reveal(Seq::filter);
    if s.len() > 0 {
        lemma_filter_none(s.drop_last(), pred);
    }
}

/// Placing a participant into a descending ranking puts it behind all of
/// its own score and moves no other.
pub proof fn lemma_placed_filter(ranking: Seq<Participant>, p: Participant, score: nat)
    requires
        is_descending(ranking),
    ensures
        placed(ranking, p).filter(has_score(score)) == if score_of(p) == score {
            ranking.filter(has_score(score)).push(p)
        } else {
            ranking.filter(has_score(score))
        },
{
    reveal(Seq::filter);
    let pred = has_score(score);
    let k = slot(ranking, score_of(p));
    lemma_slot(ranking, score_of(p));
    let front = ranking.take(k);
    let back = ranking.skip(k);
    let one = seq![p];
    assert(placed(ranking, p) =~= front + one + back);
    assert(ranking =~= front + back);
    Seq::filter_distributes_over_add(front, back, pred);
    Seq::filter_distributes_over_add(front + one, back, pred);
    Seq::filter_distributes_over_add(front, one, pred);
    assert(one.drop_last() =~= Seq::<Participant>::empty());
    assert(Seq::<Participant>::empty().filter(pred) =~= Seq::<Participant>::empty());
    if score_of(p) == score {
        assert(one.filter(pred) =~= one);
        assert forall|i: int| 0 <= i < back.len() implies !pred(#[trigger] back[i]) by {
            assert(back[i] == ranking[k + i]);
            assert(score_of(ranking[k]) >= score_of(ranking[k + i]) || i == 0);
        }
        lemma_filter_none(back, pred);
        assert(front.filter(pred) + one + Seq::<Participant>::empty() =~= front.filter(pred).push(
            p,
        ));
        assert(front.filter(pred) + Seq::<Participant>::empty() =~= front.filter(pred));
    } else {
        assert(one.filter(pred) =~= Seq::<Participant>::empty());
        assert(front.filter(pred) + Seq::<Participant>::empty() =~= front.filter(pred));
    }
}

/// Sorting is stable: the participants of any one score come out in the
/// order in which they went in, and none is lost or added.
pub proof fn lemma_sorted_stable(s: Seq<Participant>, score: nat)
    ensures
        sorted_by_score(s).filter(has_score(score)) == s.filter(has_score(score)),
    decreases s.len(),
{
    reveal(Seq::filter);
    if s.len() > 0 {
        lemma_sorted_stable(s.drop_last(), score);
        lemma_sorted_descending(s.drop_last());
        lemma_placed_filter(sorted_by_score(s.drop_last()), s.last(), score);
    }
}

/// Sorting keeps every participant, as often as it came.
pub proof fn lemma_sorted_permutes(s: Seq<Participant>)
    ensures
        sorted_by_score(s).to_multiset() == s.to_multiset(),
        sorted_by_score(s).len() == s.len(),
    decreases s.len(),
{
    broadcast use vstd::seq_lib::group_to_multiset_ensures;

    if s.len() > 0 {
        let init = sorted_by_score(s.drop_last());
        lemma_sorted_permutes(s.drop_last());
        lemma_slot(init, score_of(s.last()));
        let k = slot(init, score_of(s.last()));
        vstd::seq_lib::to_multiset_insert(init, k, s.last());
        assert(s =~= s.drop_last().push(s.last()));
    } else {
        assert(s =~= Seq::<Participant>::empty());
    }
}

/// Sorts the participants by score, highest first. The sort is stable:
/// participants with equal scores keep the order in which they came.
pub fn sort_by_score(participants: Vec<Participant>) -> (r: Vec<Participant>)
    ensures
        r@ == sorted_by_score(participants@),
{
    let ghost orig = participants@;
    let n = participants.len();
    let mut stack = reversed(participants);
    let mut r: Vec<Participant> = Vec::new();
    let mut i: usize = 0;
    while i < n
        invariant
            n == orig.len(),
            0 <= i <= n,
            stack@.len() == n - i,
            forall|j: int| 0 <= j < stack@.len() ==> stack@[j] == orig[n - 1 - j],
            r@ == sorted_by_score(orig.take(i as int)),
        decreases n - i,
    {
        let p = stack.pop().unwrap();
        assert(p == orig[i as int]);
        assert(orig.take(i + 1).drop_last() =~= orig.take(i as int));
        assert(r@.skip(0) =~= r@);
        let mut k: usize = 0;
        while k < r.len() && !p.solution.score.0.0.gt(&r[k].solution.score.0.0)
            invariant
                0 <= k <= r.len(),
                slot(r@, score_of(p)) == k + slot(r@.skip(k as int), score_of(p)),
            decreases r.len() - k,
        {
            assert(r@.skip(k as int).drop_first() =~= r@.skip(k + 1));
            k += 1;
        }
        r.insert(k, p);
        i += 1;
    }
    assert(orig.take(n as int) =~= orig);
    r
}

} // verus!
