//! What a stable sort by key is, and the step that an insertion sort takes.

use vstd::prelude::*;

verus! {

broadcast use vstd::seq_lib::group_seq_properties;

/// `le` is a total order on keys.
pub open spec fn is_total_order<K>(le: spec_fn(K, K) -> bool) -> bool {
    &&& forall|a: K| #[trigger] le(a, a)
    &&& forall|a: K, b: K| #[trigger] le(a, b) || #[trigger] le(b, a)
    &&& forall|a: K, b: K| #[trigger] le(a, b) && #[trigger] le(b, a) ==> a == b
    &&& forall|a: K, b: K, c: K| #[trigger] le(a, b) && #[trigger] le(b, c) ==> le(a, c)
}

/// The keys of `s` ascend.
pub open spec fn sorted_by_key<T, K>(s: Seq<T>, key: spec_fn(T) -> K, le: spec_fn(K, K) -> bool) -> bool {
    forall|i: int, j: int| 0 <= i < j < s.len() ==> le(key(#[trigger] s[i]), key(#[trigger] s[j]))
}

/// The items of `s` whose key is `k`, in their order in `s`.
pub open spec fn with_key<T, K>(s: Seq<T>, key: spec_fn(T) -> K, k: K) -> Seq<T> {
    s.filter(|x: T| key(x) == k)
}

/// `out` is `inp` sorted by key without reordering items of equal key: its
/// keys ascend, and for every key the items that carry it come in the same
/// order as in `inp`; and `out` is as long as `inp`. This fixes `out`
/// entirely.
pub open spec fn is_stable_sort<T, K>(
    out: Seq<T>,
    inp: Seq<T>,
    key: spec_fn(T) -> K,
    le: spec_fn(K, K) -> bool,
) -> bool {
    &&& out.len() == inp.len()
    &&& sorted_by_key(out, key, le)
    &&& forall|k: K| #[trigger] with_key(out, key, k) == with_key(inp, key, k)
}

/// Inserting `x` after every item whose key does not exceed its own keeps a
/// sorted sequence sorted, and adds `x` at the end of the items of its key.
pub proof fn lemma_insert_sorted<T, K>(
    r: Seq<T>,
    x: T,
    p: int,
    key: spec_fn(T) -> K,
    le: spec_fn(K, K) -> bool,
)
    requires
        is_total_order(le),
        sorted_by_key(r, key, le),
        0 <= p <= r.len(),
        forall|j: int| 0 <= j < p ==> le(key(#[trigger] r[j]), key(x)),
        p < r.len() ==> !le(key(r[p]), key(x)),
    ensures
        sorted_by_key(r.insert(p, x), key, le),
        forall|k: K|
            #[trigger] with_key(r.insert(p, x), key, k) == if key(x) == k {
                with_key(r, key, k).push(x)
            } else {
                with_key(r, key, k)
            },
{
    let n = r.insert(p, x);
    r.insert_ensures(p, x);
    assert forall|j: int| p < j < n.len() implies #[trigger] n[j] == r[j - 1] by {
        assert(n[(j - 1) + 1] == r[j - 1]);
    }
    assert forall|j: int| p <= j < r.len() implies !le(key(#[trigger] r[j]), key(x)) by {
        if le(key(r[j]), key(x)) {
            assert(le(key(r[p]), key(r[j])));
        }
    }
    assert forall|i: int, j: int| 0 <= i < j < n.len() implies le(
        key(#[trigger] n[i]),
        key(#[trigger] n[j]),
    ) by {
        if i < p && j == p {
        } else if i < p && j > p {
            assert(n[j] == r[j - 1]);
        } else if i == p {
            assert(n[j] == r[j - 1]);
            assert(!le(key(r[j - 1]), key(x)));
        } else if i > p {
            assert(n[i] == r[i - 1]);
            assert(n[j] == r[j - 1]);
        }
    }
    let a = r.subrange(0, p);
    let b = r.subrange(p, r.len() as int);
    assert(r =~= a + b);
    assert(n =~= a + seq![x] + b);
    assert forall|k: K| #[trigger]
        with_key(n, key, k) == if key(x) == k {
            with_key(r, key, k).push(x)
        } else {
            with_key(r, key, k)
        } by {
        let pred = |y: T| key(y) == k;
        Seq::<T>::filter_distributes_over_add(a + seq![x], b, pred);
        Seq::<T>::filter_distributes_over_add(a, seq![x], pred);
        Seq::<T>::filter_distributes_over_add(a, b, pred);
        reveal_with_fuel(Seq::filter, 2);
        assert(seq![x].drop_last() =~= Seq::<T>::empty());
        if key(x) == k {
            assert forall|j: int| 0 <= j < b.len() implies !pred(#[trigger] b[j]) by {
                assert(b[j] == r[p + j]);
            }
            b.lemma_all_neg_filter_empty(pred);
            assert(b.filter(pred) =~= Seq::<T>::empty());
            assert(a.filter(pred) + seq![x] + b.filter(pred) =~= (a.filter(pred) + b.filter(
                pred,
            )).push(x));
        } else {
            assert(a.filter(pred) + Seq::<T>::empty() =~= a.filter(pred));
        }
    }
}

/// Appending an item to the unsorted input adds it at the end of the items
/// of its key.
pub proof fn lemma_with_key_push<T, K>(s: Seq<T>, x: T, key: spec_fn(T) -> K, k: K)
    ensures
        with_key(s.push(x), key, k) == if key(x) == k {
            with_key(s, key, k).push(x)
        } else {
            with_key(s, key, k)
        },
{
    s.lemma_filter_push(x, |y: T| key(y) == k);
}

/// A stable sort keeps the items it was given: every item of the output is
/// an item of the input and the other way round, and there are as many.
pub proof fn lemma_stable_sort_keeps_items<T, K>(
    out: Seq<T>,
    inp: Seq<T>,
    key: spec_fn(T) -> K,
    le: spec_fn(K, K) -> bool,
)
    requires
        is_stable_sort(out, inp, key, le),
    ensures
        out.len() == inp.len(),
        forall|x: T| out.contains(x) <==> inp.contains(x),
{
    assert forall|x: T| out.contains(x) implies inp.contains(x) by {
        let i = choose|i: int| 0 <= i < out.len() && out[i] == x;
        let pred = |y: T| key(y) == key(x);
        out.lemma_filter_contains(pred, i);
        assert(with_key(out, key, key(x)) == with_key(inp, key, key(x)));
        inp.lemma_filter_contains_rev(pred, x);
    }
    assert forall|x: T| inp.contains(x) implies out.contains(x) by {
        let i = choose|i: int| 0 <= i < inp.len() && inp[i] == x;
        let pred = |y: T| key(y) == key(x);
        inp.lemma_filter_contains(pred, i);
        assert(with_key(out, key, key(x)) == with_key(inp, key, key(x)));
        out.lemma_filter_contains_rev(pred, x);
    }
}

/// Two sequences whose keys ascend and that hold, for every key, the same
/// items in the same order, are equal.
proof fn lemma_sorted_same_keys_equal<T, K>(
    a: Seq<T>,
    b: Seq<T>,
    key: spec_fn(T) -> K,
    le: spec_fn(K, K) -> bool,
)
    requires
        is_total_order(le),
        a.len() == b.len(),
        sorted_by_key(a, key, le),
        sorted_by_key(b, key, le),
        forall|k: K| #[trigger] with_key(a, key, k) == with_key(b, key, k),
    ensures
        a == b,
    decreases a.len(),
{
    if a.len() == 0 {
        assert(a =~= b);
    } else {
        let x = a.last();
        let y = b.last();
        let n = a.len() - 1;
        assert(a[n] == x && b[n] == y);
        let pa = |z: T| key(z) == key(x);
        let pb = |z: T| key(z) == key(y);
        a.lemma_filter_contains(pa, n);
        assert(with_key(a, key, key(x)) == with_key(b, key, key(x)));
        assert(with_key(b, key, key(x)).contains(x));
        b.lemma_filter_contains_rev(pa, x);
        let j = choose|j: int| 0 <= j < b.len() && b[j] == x;
        if j < n {
            assert(le(key(b[j]), key(b[n])));
        }
        assert(le(key(x), key(y)));
        b.lemma_filter_contains(pb, n);
        assert(with_key(a, key, key(y)) == with_key(b, key, key(y)));
        assert(with_key(a, key, key(y)).contains(y));
        a.lemma_filter_contains_rev(pb, y);
        let i = choose|i: int| 0 <= i < a.len() && a[i] == y;
        if i < n {
            assert(le(key(a[i]), key(a[n])));
        }
        assert(le(key(y), key(x)));
        assert(key(x) == key(y));
        let a1 = a.drop_last();
        let b1 = b.drop_last();
        assert(a1.push(x) =~= a);
        assert(b1.push(y) =~= b);
        lemma_with_key_push(a1, x, key, key(x));
        lemma_with_key_push(b1, y, key, key(x));
        assert(with_key(a, key, key(x)).last() == x);
        assert(x == y);
        assert forall|k: K| #[trigger] with_key(a1, key, k) == with_key(b1, key, k) by {
            lemma_with_key_push(a1, x, key, k);
            lemma_with_key_push(b1, y, key, k);
            if key(x) == k {
                assert(with_key(a1, key, k) =~= with_key(a, key, k).drop_last());
                assert(with_key(b1, key, k) =~= with_key(b, key, k).drop_last());
            }
        }
        assert forall|p: int, q: int| 0 <= p < q < a1.len() implies le(
            key(#[trigger] a1[p]),
            key(#[trigger] a1[q]),
        ) by {
            assert(a1[p] == a[p] && a1[q] == a[q]);
        }
        assert forall|p: int, q: int| 0 <= p < q < b1.len() implies le(
            key(#[trigger] b1[p]),
            key(#[trigger] b1[q]),
        ) by {
            assert(b1[p] == b[p] && b1[q] == b[q]);
        }
        lemma_sorted_same_keys_equal(a1, b1, key, le);
    }
}

/// A stable sort by a total order has one result: two stable sorts of the
/// same input are equal.
pub proof fn lemma_stable_sort_unique<T, K>(
    a: Seq<T>,
    b: Seq<T>,
    inp: Seq<T>,
    key: spec_fn(T) -> K,
    le: spec_fn(K, K) -> bool,
)
    requires
        is_total_order(le),
        is_stable_sort(a, inp, key, le),
        is_stable_sort(b, inp, key, le),
    ensures
        a == b,
{
    assert forall|k: K| #[trigger] with_key(a, key, k) == with_key(b, key, k) by {
        assert(with_key(a, key, k) == with_key(inp, key, k));
        assert(with_key(b, key, k) == with_key(inp, key, k));
    }
    lemma_sorted_same_keys_equal(a, b, key, le);
}

/// The views of the items of `s`, in order.
pub open spec fn views_of<T: View>(s: Seq<T>) -> Seq<T::V> {
    s.map_values(|t: T| t@)
}

/// Items that are sorted by a key of their view, under a total order on
/// keys, with a test that compares the keys of two items.
pub trait SortKey: View + Sized {
    type Key;

    /// The key of an item's view.
    spec fn key_of() -> spec_fn(Self::V) -> Self::Key;

    /// The order on keys.
    spec fn key_le() -> spec_fn(Self::Key, Self::Key) -> bool;

    proof fn lemma_key_order()
        ensures
            is_total_order(Self::key_le()),
    ;

    /// Whether the key of `self` is at most that of `other`.
    fn key_at_most(&self, other: &Self) -> (r: bool)
        ensures
            r == (Self::key_le())((Self::key_of())(self@), (Self::key_of())(other@)),
    ;
}

/// Sorts items by key, keeping the order of items with the same key
/// (an insertion sort).
pub fn stable_sort<T: SortKey>(v: Vec<T>) -> (r: Vec<T>)
    ensures
        is_stable_sort(views_of(r@), views_of(v@), T::key_of(), T::key_le()),
{
    let ghost orig = views_of(v@);
    let ghost key = T::key_of();
    let ghost le = T::key_le();
    proof {
        T::lemma_key_order();
    }
    let mut inp = v;
    let mut out: Vec<T> = Vec::new();
    let ghost mut i: int = 0;
    proof {
        assert(orig.take(0) =~= Seq::<T::V>::empty());
        assert(views_of(out@) =~= Seq::<T::V>::empty());
        assert(views_of(inp@) =~= orig.skip(0));
    }
    while inp.len() > 0
        invariant
            0 <= i <= orig.len(),
            views_of(inp@) == orig.skip(i),
            is_total_order(le),
            is_stable_sort(views_of(out@), orig.take(i), key, le),
            key == T::key_of(),
            le == T::key_le(),
        decreases inp.len(),
    {
        let ghost inp_before = inp@;
        let x = inp.remove(0);
        proof {
            inp_before.remove_ensures(0);
            assert(inp_before.len() > 0);
            assert(views_of(inp_before).len() == inp_before.len());
            assert(orig.skip(i).len() == orig.len() - i);
            assert(views_of(inp_before)[0] == x@);
            assert(orig.skip(i)[0] == orig[i]);
            assert forall|j: int| 0 <= j < views_of(inp@).len() implies #[trigger] views_of(
                inp@,
            )[j] == orig.skip(i + 1)[j] by {
                assert(views_of(inp_before)[j + 1] == inp_before[j + 1]@);
                assert(orig.skip(i)[j + 1] == orig.skip(i + 1)[j]);
            }
            assert(views_of(inp@) =~= orig.skip(i + 1));
        }
        let mut p: usize = 0;
        while p < out.len() && out[p].key_at_most(&x)
            invariant
                p <= out.len(),
                forall|j: int| 0 <= j < p ==> le(key(#[trigger] views_of(out@)[j]), key(x@)),
                key == T::key_of(),
                le == T::key_le(),
            decreases out.len() - p,
        {
            p += 1;
        }
        let ghost out_before = views_of(out@);
        proof {
            lemma_insert_sorted(out_before, x@, p as int, key, le);
        }
        out.insert(p, x);
        proof {
            assert(views_of(out@) =~= out_before.insert(p as int, x@));
            assert(orig.take(i + 1) =~= orig.take(i).push(x@));
            assert forall|k: T::Key| #[trigger]
                with_key(views_of(out@), key, k) == with_key(orig.take(i + 1), key, k) by {
                lemma_with_key_push(orig.take(i), x@, key, k);
            }
            i = i + 1;
        }
    }
    proof {
        assert(orig.take(i) =~= orig);
    }
    out
}

} // verus!
