//! Small helpers on vectors that the other modules share.

use vstd::laws_eq::obeys_concrete_eq;
use vstd::prelude::*;

verus! {

/// The elements of `s` whose flag in `mask` is set, in their order. Only as
/// many elements as both sequences hold are looked at.
pub open spec fn kept<T>(s: Seq<T>, mask: Seq<bool>) -> Seq<T>
    decreases s.len(),
{
    if s.len() == 0 || mask.len() == 0 {
        Seq::empty()
    } else if mask.last() {
        kept(s.drop_last(), mask.drop_last()).push(s.last())
    } else {
        kept(s.drop_last(), mask.drop_last())
    }
}

/// Every element that `kept` keeps stood in `s` at a place whose flag is set.
pub proof fn lemma_kept_from<T>(s: Seq<T>, mask: Seq<bool>, k: int)
    requires
        s.len() == mask.len(),
        0 <= k < kept(s, mask).len(),
    ensures
        exists|i: int| 0 <= i < s.len() && mask[i] && s[i] == kept(s, mask)[k],
    decreases s.len(),
{
    if s.len() > 0 {
        let init = kept(s.drop_last(), mask.drop_last());
        if mask.last() && k == init.len() {
            assert(s[s.len() - 1] == kept(s, mask)[k]);
        } else {
            lemma_kept_from(s.drop_last(), mask.drop_last(), k);
            let i = choose|i: int|
                0 <= i < s.drop_last().len() && mask.drop_last()[i] && s.drop_last()[i] == init[k];
            assert(mask[i] && s[i] == kept(s, mask)[k]);
        }
    }
}

/// Whether no two elements of the sequence have the same key.
pub open spec fn has_distinct_keys<T, K>(s: Seq<T>, key: spec_fn(T) -> K) -> bool {
    forall|i: int, j: int| 0 <= i < j < s.len() ==> key(s[i]) != key(s[j])
}

/// Keeping some elements of a sequence without repeated keys leaves no
/// repeated keys.
pub proof fn lemma_kept_distinct_keys<T, K>(s: Seq<T>, mask: Seq<bool>, key: spec_fn(T) -> K)
    requires
        s.len() == mask.len(),
        has_distinct_keys(s, key),
    ensures
        has_distinct_keys(kept(s, mask), key),
    decreases s.len(),
{
    if s.len() > 0 {
        let init = s.drop_last();
        let before = kept(init, mask.drop_last());
        assert(has_distinct_keys(init, key)) by {
            assert forall|i: int, j: int| 0 <= i < j < init.len() implies key(init[i]) != key(
                init[j],
            ) by {
                assert(key(s[i]) != key(s[j]));
            }
        }
        lemma_kept_distinct_keys(init, mask.drop_last(), key);
        let out = kept(s, mask);
        assert forall|i: int, j: int| 0 <= i < j < out.len() implies key(out[i]) != key(
            out[j],
        ) by {
            if j < before.len() {
                assert(key(before[i]) != key(before[j]));
            } else {
                lemma_kept_from(init, mask.drop_last(), i);
                let m = choose|m: int|
                    0 <= m < init.len() && mask.drop_last()[m] && init[m] == before[i];
                assert(key(s[m]) != key(s[s.len() - 1]));
            }
        }
    }
}

/// Keeping by a mask that answers a predicate element by element is
/// filtering by that predicate.
pub proof fn lemma_kept_is_filter<T>(s: Seq<T>, pred: spec_fn(T) -> bool)
    ensures
        kept(s, s.map_values(pred)) == s.filter(pred),
    decreases s.len(),
{
    reveal(Seq::filter);
    if s.len() > 0 {
        lemma_kept_is_filter(s.drop_last(), pred);
        assert(s.map_values(pred).drop_last() =~= s.drop_last().map_values(pred));
    }
}

/// The vector with its elements in the opposite order.
pub fn reversed<T>(v: Vec<T>) -> (r: Vec<T>)
    ensures
        r@ == v@.reverse(),
{
    let ghost orig = v@;
    let mut v = v;
    let mut r: Vec<T> = Vec::new();
    while v.len() > 0
        invariant
            v@.len() + r@.len() == orig.len(),
            v@ == orig.take(v@.len() as int),
            forall|j: int| 0 <= j < r@.len() ==> r@[j] == orig[orig.len() - 1 - j],
        decreases v.len(),
    {
        let x = v.pop().unwrap();
        r.push(x);
        assert(v@ =~= orig.take(v@.len() as int));
    }
    assert(r@ =~= orig.reverse());
    r
}

/// The elements of `v` whose flag in `mask` is set, in their order.
pub fn retain_by_mask<T>(v: Vec<T>, mask: &Vec<bool>) -> (r: Vec<T>)
    requires
        v.len() == mask.len(),
    ensures
        r@ == kept(v@, mask@),
{
    let ghost orig = v@;
    let n = v.len();
    let mut stack = reversed(v);
    let mut r: Vec<T> = Vec::new();
    let mut i: usize = 0;
    while i < n
        invariant
            n == orig.len(),
            n == mask.len(),
            0 <= i <= n,
            stack@.len() == n - i,
            forall|j: int| 0 <= j < stack@.len() ==> stack@[j] == orig[n - 1 - j],
            r@ == kept(orig.take(i as int), mask@.take(i as int)),
        decreases n - i,
    {
        let x = stack.pop().unwrap();
        assert(x == orig[i as int]);
        assert(orig.take(i + 1).drop_last() =~= orig.take(i as int));
        assert(mask@.take(i + 1).drop_last() =~= mask@.take(i as int));
        if mask[i] {
            r.push(x);
        }
        i += 1;
    }
    assert(orig.take(n as int) =~= orig);
    assert(mask@.take(n as int) =~= mask@);
    r
}

/// Filtering a sequence with one more element: the element is kept if it
/// meets the predicate.
pub proof fn lemma_filter_push<T>(s: Seq<T>, x: T, pred: spec_fn(T) -> bool)
    ensures
        s.push(x).filter(pred) == if pred(x) {
            s.filter(pred).push(x)
        } else {
            s.filter(pred)
        },
{
    reveal(Seq::filter);
    assert(s.push(x).drop_last() =~= s);
}

/// A filtered sequence holds exactly the elements of the sequence that
/// meet the predicate.
pub proof fn lemma_filter_members<T>(s: Seq<T>, pred: spec_fn(T) -> bool)
    ensures
        forall|x: T| #[trigger] s.filter(pred).contains(x) <==> (s.contains(x) && pred(x)),
    decreases s.len(),
{
    reveal(Seq::filter);
    if s.len() > 0 {
        let init = s.drop_last();
        lemma_filter_members(init, pred);
        let f = s.filter(pred);
        let fi = init.filter(pred);
        assert forall|x: T| #[trigger] f.contains(x) <==> (s.contains(x) && pred(x)) by {
            assert(fi.contains(x) <==> (init.contains(x) && pred(x)));
            if f.contains(x) {
                let j = choose|j: int| 0 <= j < f.len() && f[j] == x;
                if j < fi.len() {
                    assert(fi[j] == x);
                    assert(fi.contains(x));
                    let m = choose|m: int| 0 <= m < init.len() && init[m] == x;
                    assert(s[m] == x);
                } else {
                    assert(s[s.len() - 1] == x);
                }
            }
            if s.contains(x) && pred(x) {
                let m = choose|m: int| 0 <= m < s.len() && s[m] == x;
                if m < init.len() {
                    assert(init[m] == x);
                    assert(init.contains(x));
                    let j = choose|j: int| 0 <= j < fi.len() && fi[j] == x;
                    assert(f[j] == x);
                } else {
                    assert(f[fi.len() as int] == x);
                }
            }
        }
    }
}

/// The elements of `s` without repeats: each stands where it first occurs.
pub open spec fn distinct<T>(s: Seq<T>) -> Seq<T>
    decreases s.len(),
{
    if s.len() == 0 {
        Seq::empty()
    } else if distinct(s.drop_last()).contains(s.last()) {
        distinct(s.drop_last())
    } else {
        distinct(s.drop_last()).push(s.last())
    }
}

/// `distinct` holds exactly the elements of the sequence, each once.
pub proof fn lemma_distinct<T>(s: Seq<T>)
    ensures
        distinct(s).no_duplicates(),
        forall|x: T| #[trigger] distinct(s).contains(x) <==> s.contains(x),
        distinct(s).len() <= s.len(),
    decreases s.len(),
{
    if s.len() > 0 {
        let init = s.drop_last();
        lemma_distinct(init);
        let d = distinct(init);
        assert forall|x: T| distinct(s).contains(x) <==> s.contains(x) by {
            assert(d.contains(x) <==> init.contains(x));
            if distinct(s).contains(x) {
                let i = choose|i: int| 0 <= i < distinct(s).len() && distinct(s)[i] == x;
                if i < d.len() {
                    assert(d[i] == x);
                    assert(d.contains(x));
                    let j = choose|j: int| 0 <= j < init.len() && init[j] == x;
                    assert(s[j] == x);
                } else {
                    assert(s[s.len() - 1] == x);
                }
            }
            if s.contains(x) {
                let j = choose|j: int| 0 <= j < s.len() && s[j] == x;
                if j < init.len() {
                    assert(init[j] == x);
                    assert(init.contains(x));
                    let i = choose|i: int| 0 <= i < d.len() && d[i] == x;
                    assert(distinct(s)[i] == x);
                } else if d.contains(x) {
                } else {
                    assert(distinct(s)[d.len() as int] == x);
                }
            }
        }
    }
}

/// Whether the vector holds `x`.
pub(crate) fn holds<T: PartialEq>(v: &Vec<T>, x: &T) -> (r: bool)
    requires
        obeys_concrete_eq::<T>(),
    ensures
        r == v@.contains(*x),
{
    reveal(obeys_concrete_eq);
    let mut i: usize = 0;
    while i < v.len()
        invariant
            0 <= i <= v.len(),
            obeys_concrete_eq::<T>(),
            forall|j: int| 0 <= j < i ==> v@[j] != *x,
        decreases v.len() - i,
    {
        proof {
            reveal(obeys_concrete_eq);
        }
        if v[i] == *x {
            return true;
        }
        i += 1;
    }
    false
}

/// The elements of the vector without repeats, each where it first occurs.
pub(crate) fn distinct_of<T: PartialEq + Copy>(v: &Vec<T>) -> (r: Vec<T>)
    requires
        obeys_concrete_eq::<T>(),
    ensures
        r@ == distinct(v@),
{
    let mut r: Vec<T> = Vec::new();
    let mut i: usize = 0;
    while i < v.len()
        invariant
            0 <= i <= v.len(),
            obeys_concrete_eq::<T>(),
            r@ == distinct(v@.take(i as int)),
        decreases v.len() - i,
    {
        assert(v@.take(i + 1).drop_last() =~= v@.take(i as int));
        if !holds(&r, &v[i]) {
            r.push(v[i]);
        }
        i += 1;
    }
    assert(v@.take(i as int) =~= v@);
    r
}

} // verus!
