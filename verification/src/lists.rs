//! What can be said of lists: what is picked out of one, and in which order things first stand in it.
use vstd::prelude::*;

verus! {

/// What `f` gives of the items for which it gives something, in their order.
pub open spec fn picked<A, B>(s: Seq<A>, f: spec_fn(A) -> Option<B>) -> Seq<B> {
    s.filter(|a: A| f(a) is Some).map_values(|a: A| f(a)->0)
}

pub proof fn lemma_picked_empty<A, B>(f: spec_fn(A) -> Option<B>)
    ensures
        picked(Seq::<A>::empty(), f) == Seq::<B>::empty(),
{
    reveal(Seq::filter);
}

pub proof fn lemma_picked_back<A, B>(s: Seq<A>, n: int, f: spec_fn(A) -> Option<B>)
    requires
        0 < n <= s.len(),
    ensures
        picked(s.take(n), f) == (match f(s[n - 1]) {
            Some(b) => picked(s.take(n - 1), f).push(b),
            None => picked(s.take(n - 1), f),
        }),
{
    let has = |a: A| f(a) is Some;
    let get = |a: A| f(a)->0;
    assert(s.take(n).drop_last() == s.take(n - 1));
    assert(s.take(n).last() == s[n - 1]);
    reveal(Seq::filter);
    let before = s.take(n - 1).filter(has);
    assert(before.push(s[n - 1]).map_values(get) == before.map_values(get).push(get(s[n - 1])));
}

pub proof fn lemma_picked_front<A, B>(s: Seq<A>, i: int, f: spec_fn(A) -> Option<B>)
    requires
        0 <= i < s.len(),
    ensures
        picked(s.skip(i), f) == (match f(s[i]) {
            Some(b) => seq![b] + picked(s.skip(i + 1), f),
            None => picked(s.skip(i + 1), f),
        }),
{
    let has = |a: A| f(a) is Some;
    let get = |a: A| f(a)->0;
    let one = seq![s[i]];
    let rest = s.skip(i + 1);
    assert(s.skip(i) == one + rest);
    Seq::filter_distributes_over_add(one, rest, has);
    assert(one.drop_last() == Seq::<A>::empty());
    reveal_with_fuel(Seq::filter, 2);
    let after = rest.filter(has);
    if has(s[i]) {
        assert(one.filter(has) == one);
        assert((one + after).map_values(get) == seq![get(s[i])] + after.map_values(get));
    } else {
        assert(one.filter(has) == Seq::<A>::empty());
        assert(Seq::<A>::empty() + after == after);
    }
}

/// Whether one of the first `n` items is `x`.
pub open spec fn occurs<A>(s: Seq<A>, n: int, x: A) -> bool {
    exists|i: int| 0 <= i < n && #[trigger] s[i] == x
}

/// Whether each `y` among the first `n` items has an `x` before it.
pub open spec fn precedes<A>(s: Seq<A>, n: int, x: A, y: A) -> bool {
    forall|j: int| 0 <= j < n && #[trigger] s[j] == y ==> occurs(s, j, x)
}

/// Whether `out` has the items among the first `n` of `s`, each once, in the order in which they first
/// stand there.
pub open spec fn firsts_of<A>(out: Seq<A>, s: Seq<A>, n: int) -> bool {
    &&& out.no_duplicates()
    &&& forall|x: A| #[trigger] out.contains(x) <==> occurs(s, n, x)
    &&& forall|a: int, b: int|
        0 <= a < b < out.len() ==> precedes(s, n, #[trigger] out[a], #[trigger] out[b])
}

pub proof fn lemma_occurs_step<A>(s: Seq<A>, n: int, x: A)
    requires
        0 < n,
    ensures
        occurs(s, n, x) <==> occurs(s, n - 1, x) || s[n - 1] == x,
{
    if occurs(s, n, x) && s[n - 1] != x {
        let i = choose|i: int| 0 <= i < n && #[trigger] s[i] == x;
        assert(0 <= i < n - 1 && s[i] == x);
    }
}

pub proof fn lemma_firsts_step<A>(out: Seq<A>, s: Seq<A>, n: int)
    requires
        0 < n <= s.len(),
        firsts_of(out, s, n - 1),
    ensures
        out.contains(s[n - 1]) ==> firsts_of(out, s, n),
        !out.contains(s[n - 1]) ==> firsts_of(out.push(s[n - 1]), s, n),
{
    let x = s[n - 1];
    assert(out.contains(x) <==> occurs(s, n - 1, x));
    let next = if out.contains(x) {
        out
    } else {
        out.push(x)
    };
    assert forall|t: A| #[trigger] next.contains(t) <==> occurs(s, n, t) by {
        lemma_occurs_step(s, n, t);
        assert(out.contains(t) <==> occurs(s, n - 1, t));
        if out.contains(t) {
            let i = choose|i: int| 0 <= i < out.len() && out[i] == t;
            assert(next[i] == t);
        }
        if t == x && !out.contains(x) {
            assert(next[out.len() as int] == x);
        }
        if next.contains(t) && t != x {
            let i = choose|i: int| 0 <= i < next.len() && next[i] == t;
            assert(out[i] == t);
        }
    }
    assert forall|a: int, b: int| 0 <= a < b < next.len() implies precedes(
        s,
        n,
        #[trigger] next[a],
        #[trigger] next[b],
    ) by {
        assert(out.contains(out[a]));
        assert(occurs(s, n - 1, out[a]));
        assert forall|j: int| 0 <= j < n && #[trigger] s[j] == next[b] implies occurs(
            s,
            j,
            next[a],
        ) by {
            if j < n - 1 {
                if b < out.len() {
                    assert(precedes(s, n - 1, out[a], out[b]));
                } else {
                    assert(occurs(s, n - 1, x));
                }
            }
        }
    }
    assert(next.no_duplicates());
}

pub proof fn lemma_precedes_firsts<A>(s: Seq<A>, x: A, y: A, i: int, j: int)
    requires
        precedes(s, s.len() as int, x, y),
        0 <= j < s.len() && s[j] == y,
        forall|m: int| 0 <= m < i ==> #[trigger] s[m] != x,
    ensures
        i < j,
{
    let m = choose|m: int| 0 <= m < j && #[trigger] s[m] == x;
    assert(s[m] == x);
}

pub proof fn lemma_picked_add<A, B>(a: Seq<A>, b: Seq<A>, f: spec_fn(A) -> Option<B>)
    ensures
        picked(a + b, f) == picked(a, f) + picked(b, f),
{
    let has = |a: A| f(a) is Some;
    let get = |a: A| f(a)->0;
    Seq::filter_distributes_over_add(a, b, has);
    assert((a.filter(has) + b.filter(has)).map_values(get) == a.filter(has).map_values(get)
        + b.filter(has).map_values(get));
}

/// The numbers from 0 on that are less than `n`.
pub open spec fn indices(n: nat) -> Seq<int> {
    Seq::new(n, |i: int| i)
}

} // verus!
