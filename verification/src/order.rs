//! The order of texts, and sorting by it.
use crate::text;
use vstd::prelude::*;

verus! {

/// Whether `a` comes before `b`: at the first character in which they differ it has the smaller one,
/// or it is a proper beginning of `b`.
pub open spec fn precedes(a: Seq<char>, b: Seq<char>) -> bool
    decreases a.len(),
{
    if b.len() == 0 {
        false
    } else if a.len() == 0 {
        true
    } else if a[0] != b[0] {
        a[0] < b[0]
    } else {
        precedes(a.skip(1), b.skip(1))
    }
}

/// Whether the pair `a` comes before `b`: by its first text, or by its second where the first are
/// the same.
pub open spec fn pair_precedes(a: (Seq<char>, Seq<char>), b: (Seq<char>, Seq<char>)) -> bool {
    precedes(a.0, b.0) || (a.0 == b.0 && precedes(a.1, b.1))
}

/// No text comes before itself.
pub proof fn nothing_precedes_itself(a: Seq<char>)
    ensures
        !precedes(a, a),
    decreases a.len(),
{
    if a.len() > 0 {
        nothing_precedes_itself(a.skip(1));
    }
}

/// The order of texts is transitive.
pub proof fn precedence_is_transitive(a: Seq<char>, b: Seq<char>, c: Seq<char>)
    requires
        precedes(a, b),
        precedes(b, c),
    ensures
        precedes(a, c),
    decreases a.len(),
{
    if a.len() > 0 && a[0] == b[0] && b[0] == c[0] {
        precedence_is_transitive(a.skip(1), b.skip(1), c.skip(1));
    }
}

/// Of two different texts one comes before the other.
pub proof fn precedence_is_total(a: Seq<char>, b: Seq<char>)
    ensures
        precedes(a, b) || a == b || precedes(b, a),
    decreases a.len(),
{
    if a.len() > 0 && b.len() > 0 && a[0] == b[0] {
        precedence_is_total(a.skip(1), b.skip(1));
        if a.skip(1) == b.skip(1) {
            assert(a == seq![a[0]] + a.skip(1));
            assert(b == seq![b[0]] + b.skip(1));
        }
    } else if a.len() == 0 && b.len() == 0 {
        assert(a == b);
    }
}

proof fn lemma_not_after(
    x: (Seq<char>, Seq<char>),
    y: (Seq<char>, Seq<char>),
    z: (Seq<char>, Seq<char>),
)
    requires
        !pair_precedes(x, y),
        !pair_precedes(y, z),
    ensures
        !pair_precedes(x, z),
{
    precedence_is_total(x.0, y.0);
    precedence_is_total(y.0, z.0);
    precedence_is_total(x.1, y.1);
    precedence_is_total(y.1, z.1);
    precedence_is_total(x.0, z.0);
    nothing_precedes_itself(x.0);
    nothing_precedes_itself(z.0);
    nothing_precedes_itself(x.1);
    if precedes(z.0, y.0) && precedes(y.0, x.0) {
        precedence_is_transitive(z.0, y.0, x.0);
    }
    if precedes(z.1, y.1) && precedes(y.1, x.1) {
        precedence_is_transitive(z.1, y.1, x.1);
    }
    if precedes(x.0, z.0) && precedes(z.0, x.0) {
        precedence_is_transitive(x.0, z.0, x.0);
    }
    if precedes(x.1, z.1) && precedes(z.1, x.1) {
        precedence_is_transitive(x.1, z.1, x.1);
    }
}

/// Whether `a` comes before `b`.
pub fn comes_before(a: &str, b: &str) -> (r: bool)
    ensures
        r == precedes(a@, b@),
{
    let x = text::chars_of(a);
    let y = text::chars_of(b);
    let mut i: usize = 0;
    assert(a@.skip(0) == a@);
    assert(b@.skip(0) == b@);
    while i < x.len() && i < y.len()
        invariant
            x@ == a@,
            y@ == b@,
            i <= x@.len(),
            i <= y@.len(),
            precedes(a@, b@) == precedes(a@.skip(i as int), b@.skip(i as int)),
        decreases x@.len() - i,
    {
        if x[i] != y[i] {
            return x[i] < y[i];
        }
        assert(a@.skip(i as int).skip(1) == a@.skip(i + 1));
        assert(b@.skip(i as int).skip(1) == b@.skip(i + 1));
        i += 1;
    }
    i < y.len()
}

/// The texts of the pairs.
pub open spec fn pair_texts(keys: Seq<(String, String)>) -> Seq<(Seq<char>, Seq<char>)> {
    Seq::new(keys.len(), |i: int| (keys[i].0@, keys[i].1@))
}

/// Whether `order` lists the indices of `keys` from the first key to the last, those of equal keys in
/// their own order.
pub open spec fn is_order_of(order: Seq<usize>, keys: Seq<(Seq<char>, Seq<char>)>) -> bool {
    &&& order.len() == keys.len()
    &&& forall|i: int| 0 <= i < order.len() ==> (#[trigger] order[i]) < keys.len()
    &&& order.no_duplicates()
    &&& forall|i: int, j: int|
        0 <= i < j < order.len() ==> !pair_precedes(
            keys[#[trigger] order[j] as int],
            keys[#[trigger] order[i] as int],
        ) && (keys[order[i] as int] == keys[order[j] as int] ==> order[i] < order[j])
}

/// Whether the pair `a` comes before `b`.
fn pair_comes_before(a: &(String, String), b: &(String, String)) -> (r: bool)
    ensures
        r == pair_precedes((a.0@, a.1@), (b.0@, b.1@)),
{
    comes_before(a.0.as_str(), b.0.as_str()) || (text::same(a.0.as_str(), b.0.as_str())
        && comes_before(a.1.as_str(), b.1.as_str()))
}

proof fn lemma_inserted(order: Seq<usize>, all: Seq<(Seq<char>, Seq<char>)>, n: usize, at: int)
    requires
        n < all.len(),
        is_order_of(order, all.take(n as int)),
        0 <= at <= order.len(),
        forall|j: int|
            at <= j < order.len() ==> pair_precedes(all[n as int], all[#[trigger] order[j] as int]),
        at == 0 || !pair_precedes(all[n as int], all[order[at - 1] as int]),
    ensures
        is_order_of(order.insert(at, n), all.take(n + 1)),
{
    let before = all.take(n as int);
    let keys = all.take(n + 1);
    let key = all[n as int];
    let new = order.insert(at, n);
    assert forall|j: int| 0 <= j < at implies !pair_precedes(
        key,
        all[#[trigger] order[j] as int],
    ) by {
        assert(before[order[at - 1] as int] == all[order[at - 1] as int]);
        assert(before[order[j] as int] == all[order[j] as int]);
        if j < at - 1 {
            lemma_not_after(key, all[order[at - 1] as int], all[order[j] as int]);
        }
    }
    assert forall|i: int| 0 <= i < new.len() implies (#[trigger] new[i]) < keys.len() by {
        if i < at {
            assert(new[i] == order[i]);
        } else if i > at {
            assert(new[i] == order[i - 1]);
        }
    }
    assert forall|i: int, j: int| 0 <= i < j < new.len() implies new[i] != new[j] && !pair_precedes(
        keys[#[trigger] new[j] as int],
        keys[#[trigger] new[i] as int],
    ) && (keys[new[i] as int] == keys[new[j] as int] ==> new[i] < new[j]) by {
        let x = if i < at { i } else { i - 1 };
        let y = if j < at { j } else { j - 1 };
        if i == at {
            let k = all[order[y] as int];
            assert(new[j] == order[y]);
            assert(before[order[y] as int] == k);
            assert(pair_precedes(key, k));
            nothing_precedes_itself(key.0);
            nothing_precedes_itself(key.1);
            if pair_precedes(k, key) {
                if precedes(key.0, k.0) && precedes(k.0, key.0) {
                    precedence_is_transitive(key.0, k.0, key.0);
                }
                if precedes(key.1, k.1) && precedes(k.1, key.1) {
                    precedence_is_transitive(key.1, k.1, key.1);
                }
            }
        } else if j == at {
            assert(new[i] == order[x]);
            assert(before[order[x] as int] == all[order[x] as int]);
        } else {
            assert(new[i] == order[x] && new[j] == order[y]);
            assert(before[order[x] as int] == all[order[x] as int]);
            assert(before[order[y] as int] == all[order[y] as int]);
        }
    }
    assert forall|i: int, j: int| 0 <= i < new.len() && 0 <= j < new.len() && i != j implies new[i]
        != new[j] by {
        if i < j {
            assert(new[j] != new[i]);
        } else {
            assert(new[i] != new[j]);
        }
    }
}

/// The indices of `keys` from the first key to the last, those of equal keys in their own order.
pub fn sorted_order(keys: &[(String, String)]) -> (r: Vec<usize>)
    ensures
        is_order_of(r@, pair_texts(keys@)),
{
    let ghost all = pair_texts(keys@);
    let mut out: Vec<usize> = Vec::new();
    let mut n: usize = 0;
    while n < keys.len()
        invariant
            n <= keys@.len(),
            all == pair_texts(keys@),
            is_order_of(out@, all.take(n as int)),
        decreases keys@.len() - n,
    {
        let ghost before = out@;
        let ghost part = all.take(n as int);
        let ghost key = all[n as int];
        let mut at: usize = out.len();
        while at > 0
            invariant_except_break
                forall|j: int|
                    at <= j < before.len() ==> pair_precedes(key, all[#[trigger] before[j] as int]),
            invariant
                n < keys@.len(),
                all == pair_texts(keys@),
                key == all[n as int],
                part == all.take(n as int),
                out@ == before,
                at <= out@.len(),
                is_order_of(before, part),
            ensures
                at == 0 || !pair_precedes(key, all[before[at - 1] as int]),
                forall|j: int|
                    at <= j < before.len() ==> pair_precedes(key, all[#[trigger] before[j] as int]),
            decreases at,
        {
            let last: usize = out[at - 1];
            assert(before[at - 1] < part.len());
            if !pair_comes_before(&keys[n], &keys[last]) {
                break;
            }
            at -= 1;
        }
        proof {
            lemma_inserted(before, all, n, at as int);
        }
        out.insert(at, n);
        n += 1;
    }
    assert(all.take(n as int) == all);
    out
}

/// An order of keys lists every index.
pub proof fn order_reaches_all(order: Seq<usize>, keys: Seq<(Seq<char>, Seq<char>)>, k: int)
    requires
        is_order_of(order, keys),
        0 <= k < keys.len(),
    ensures
        exists|i: int| 0 <= i < order.len() && order[i] == k,
{
    let n = keys.len() as int;
    let all = vstd::set_lib::set_int_range(0, n);
    let ints = order.map_values(|u: usize| u as int);
    assert(ints.no_duplicates());
    ints.unique_seq_to_set();
    vstd::set_lib::lemma_int_range(0, n);
    assert(ints.to_set().subset_of(all)) by {
        assert forall|x: int| ints.to_set().contains(x) implies all.contains(x) by {
            let i = choose|i: int| 0 <= i < ints.len() && ints[i] == x;
            assert(order[i] < keys.len());
        }
    }
    vstd::set_lib::lemma_subset_equality(ints.to_set(), all);
    assert(ints.to_set().contains(k));
    let i = choose|i: int| 0 <= i < ints.len() && ints[i] == k;
    assert(order[i] == k);
}

/// One text comes before another where, behind what they begin with in common, it ends first or has
/// the lesser character.
pub proof fn texts_are_ordered_by_their_first_difference(a: Seq<char>, b: Seq<char>)
    ensures
        precedes(a, b) <==> exists|k: int|
            0 <= k <= a.len() && k < b.len() && #[trigger] a.take(k) == b.take(k) && (k == a.len()
                || a[k] < b[k]),
    decreases a.len(),
{
    if a.len() > 0 && b.len() > 0 && a[0] == b[0] {
        let x = a.skip(1);
        let y = b.skip(1);
        texts_are_ordered_by_their_first_difference(x, y);
        if precedes(x, y) {
            let k = choose|k: int|
                0 <= k <= x.len() && k < y.len() && #[trigger] x.take(k) == y.take(k) && (k
                    == x.len() || x[k] < y[k]);
            assert(a.take(k + 1) == seq![a[0]] + x.take(k));
            assert(b.take(k + 1) == seq![b[0]] + y.take(k));
        }
        if exists|k: int|
            0 <= k <= a.len() && k < b.len() && #[trigger] a.take(k) == b.take(k) && (k == a.len()
                || a[k] < b[k]) {
            let k = choose|k: int|
                0 <= k <= a.len() && k < b.len() && #[trigger] a.take(k) == b.take(k) && (k
                    == a.len() || a[k] < b[k]);
            assert(k > 0);
            assert(x.take(k - 1) == a.take(k).skip(1));
            assert(y.take(k - 1) == b.take(k).skip(1));
            assert(x.take(k - 1) == y.take(k - 1));
        }
    } else if b.len() > 0 {
        assert(a.take(0) == b.take(0));
        if exists|k: int|
            0 <= k <= a.len() && k < b.len() && #[trigger] a.take(k) == b.take(k) && (k == a.len()
                || a[k] < b[k]) {
            let k = choose|k: int|
                0 <= k <= a.len() && k < b.len() && #[trigger] a.take(k) == b.take(k) && (k
                    == a.len() || a[k] < b[k]);
            if k > 0 {
                assert(a.take(k)[0] == a[0] && b.take(k)[0] == b[0]);
            }
        }
    }
}

/// In an order of keys the earlier one is the lesser, by the first text and then by the second. Keys
/// that are equal stand as they were given, and each key stands in it once.
pub proof fn orders_are_sorted(
    order: Seq<usize>,
    keys: Seq<(Seq<char>, Seq<char>)>,
    i: int,
    j: int,
)
    requires
        is_order_of(order, keys),
        0 <= i < j < order.len(),
    ensures
        order.len() == keys.len(),
        order[i] != order[j],
        ({
            let a = keys[order[i] as int];
            let b = keys[order[j] as int];
            precedes(a.0, b.0) || (a.0 == b.0 && precedes(a.1, b.1)) || (a == b && order[i]
                < order[j])
        }),
{
    let a = keys[order[i] as int];
    let b = keys[order[j] as int];
    assert(!pair_precedes(b, a));
    precedence_is_total(a.0, b.0);
    precedence_is_total(a.1, b.1);
}

/// What a list says, it says item by item: each stands in its place, and none is added or left out.
pub proof fn items_keep_their_places(v: Seq<(String, String)>, i: int)
    ensures
        pair_texts(v).len() == v.len(),
        0 <= i < v.len() ==> pair_texts(v)[i] == (v[i].0@, v[i].1@),
{
}

} // verus!
