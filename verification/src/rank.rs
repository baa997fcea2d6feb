//! Stable ordering of list positions by a key: the order `sort_by` gives, computed as a
//! permutation of the positions.
use vstd::prelude::*;
use vstd::set_lib::{lemma_int_range, lemma_subset_equality, set_int_range};

verus! {

/// A key type with a strict weak order: `precedes` is irreflexive and transitive, and
/// keys that do not precede one another are interchangeable.
pub trait RankKey: Sized {
    spec fn precedes(self, other: Self) -> bool;

    proof fn lemma_order(a: Self, b: Self, c: Self)
        ensures
            !a.precedes(a),
            a.precedes(b) && b.precedes(c) ==> a.precedes(c),
            a.precedes(b) ==> !b.precedes(a),
            (!a.precedes(b) && !b.precedes(a) && !b.precedes(c) && !c.precedes(b)) ==> (
            !a.precedes(c) && !c.precedes(a)),
    ;

    fn precedes_exec(&self, other: &Self) -> (r: bool)
        ensures
            r == self.precedes(*other),
    ;
}

/// Position `i` comes before position `j`: its key precedes, or the keys tie and `i < j`.
pub open spec fn before<K: RankKey>(keys: Seq<K>, i: int, j: int) -> bool {
    keys[i].precedes(keys[j]) || (!keys[j].precedes(keys[i]) && i < j)
}

/// `o` lists every position of `keys` once, in `before` order: the order a stable sort gives.
pub open spec fn is_ranking<K: RankKey>(keys: Seq<K>, o: Seq<usize>) -> bool {
    &&& o.len() == keys.len()
    &&& forall|k: int| 0 <= k < o.len() ==> #[trigger] o[k] < keys.len()
    &&& sorted_run(keys, o)
}

/// `before` is a strict total order on positions.
pub proof fn lemma_before<K: RankKey>(keys: Seq<K>, i: int, j: int, k: int)
    ensures
        !before(keys, i, i),
        before(keys, i, j) && before(keys, j, k) ==> before(keys, i, k),
        before(keys, i, j) ==> !before(keys, j, i),
        i != j ==> before(keys, i, j) || before(keys, j, i),
{
    K::lemma_order(keys[i], keys[j], keys[k]);
    K::lemma_order(keys[j], keys[i], keys[k]);
    K::lemma_order(keys[i], keys[k], keys[j]);
    K::lemma_order(keys[k], keys[j], keys[i]);
    K::lemma_order(keys[j], keys[k], keys[i]);
    K::lemma_order(keys[k], keys[i], keys[j]);
}

/// `o[lo..hi]` is sorted by `before`.
pub open spec fn sorted_run<K: RankKey>(keys: Seq<K>, o: Seq<usize>) -> bool {
    forall|a: int, b: int| 0 <= a < b < o.len() ==> before(keys, #[trigger] o[a] as int, #[trigger] o[b] as int)
}

/// Merges two sorted runs of positions into one.
fn merge_runs<K: RankKey>(keys: &Vec<K>, x: Vec<usize>, y: Vec<usize>, lo: usize, mid: usize, hi: usize) -> (out: Vec<usize>)
    requires
        lo <= mid <= hi <= keys.len(),
        x.len() == mid - lo,
        y.len() == hi - mid,
        forall|k: int| 0 <= k < x.len() ==> lo <= #[trigger] x@[k] < mid,
        forall|k: int| 0 <= k < y.len() ==> mid <= #[trigger] y@[k] < hi,
        sorted_run(keys@, x@),
        sorted_run(keys@, y@),
    ensures
        out.len() == hi - lo,
        forall|k: int| 0 <= k < out.len() ==> lo <= #[trigger] out@[k] < hi,
        sorted_run(keys@, out@),
{
    let mut out: Vec<usize> = Vec::new();
    let mut i: usize = 0;
    let mut j: usize = 0;
    while i < x.len() || j < y.len()
        invariant
            lo <= mid <= hi <= keys.len(),
            x.len() == mid - lo,
            y.len() == hi - mid,
            forall|k: int| 0 <= k < x.len() ==> lo <= #[trigger] x@[k] < mid,
            forall|k: int| 0 <= k < y.len() ==> mid <= #[trigger] y@[k] < hi,
            sorted_run(keys@, x@),
            sorted_run(keys@, y@),
            i <= x.len(),
            j <= y.len(),
            out.len() == i + j,
            forall|k: int| 0 <= k < out.len() ==> lo <= #[trigger] out@[k] < hi,
            sorted_run(keys@, out@),
            out.len() > 0 && i < x.len() ==> before(keys@, out@.last() as int, x@[i as int] as int),
            out.len() > 0 && j < y.len() ==> before(keys@, out@.last() as int, y@[j as int] as int),
        decreases x.len() + y.len() - i - j,
    {
        let take_x = if i < x.len() && j < y.len() {
            let a = x[i];
            let b = y[j];
            let pb = keys[b].precedes_exec(&keys[a]);
            if pb {
                false
            } else {
                let pa = keys[a].precedes_exec(&keys[b]);
                pa || a < b
            }
        } else {
            i < x.len()
        };
        let e = if take_x {
            x[i]
        } else {
            y[j]
        };
        proof {
            if i < x.len() && j < y.len() {
                lemma_before(keys@, x@[i as int] as int, y@[j as int] as int, 0);
            }
            assert forall|k: int| 0 <= k < out.len() implies before(keys@, #[trigger] out@[k] as int, e as int) by {
                let last = out@.last() as int;
                if k < out.len() - 1 {
                    lemma_before(keys@, out@[k] as int, last, e as int);
                }
            }
        }
        out.push(e);
        if take_x {
            proof {
                if i + 1 < x.len() {
                    assert(before(keys@, x@[i as int] as int, x@[i + 1] as int));
                }
            }
            i += 1;
        } else {
            proof {
                if j + 1 < y.len() {
                    assert(before(keys@, y@[j as int] as int, y@[j + 1] as int));
                }
            }
            j += 1;
        }
    }
    out
}

/// The positions `lo..hi` in `before` order.
fn rank_range<K: RankKey>(keys: &Vec<K>, lo: usize, hi: usize) -> (out: Vec<usize>)
    requires
        lo <= hi <= keys.len(),
    ensures
        out.len() == hi - lo,
        forall|k: int| 0 <= k < out.len() ==> lo <= #[trigger] out@[k] < hi,
        sorted_run(keys@, out@),
    decreases hi - lo,
{
    if hi - lo == 0 {
        Vec::new()
    } else if hi - lo == 1 {
        vec![lo]
    } else {
        let mid = lo + (hi - lo) / 2;
        let x = rank_range(keys, lo, mid);
        let y = rank_range(keys, mid, hi);
        merge_runs(keys, x, y, lo, mid, hi)
    }
}

/// The positions of `keys` in the order a stable sort by key puts them.
pub fn rank<K: RankKey>(keys: &Vec<K>) -> (out: Vec<usize>)
    ensures
        is_ranking(keys@, out@),
{
    rank_range(keys, 0, keys.len())
}

/// A ranking holds each position exactly once.
pub proof fn lemma_ranking_onto<K: RankKey>(keys: Seq<K>, o: Seq<usize>, x: int)
    requires
        is_ranking(keys, o),
        0 <= x < keys.len(),
    ensures
        exists|p: int| 0 <= p < o.len() && o[p] == x,
{
    let oi = o.map_values(|v: usize| v as int);
    assert forall|a: int, b: int| 0 <= a < oi.len() && 0 <= b < oi.len() && a != b implies oi[a] != oi[b] by {
        if a < b {
            assert(before(keys, o[a] as int, o[b] as int));
            lemma_before(keys, o[a] as int, o[a] as int, 0);
        } else {
            assert(before(keys, o[b] as int, o[a] as int));
            lemma_before(keys, o[b] as int, o[b] as int, 0);
        }
    }
    assert(oi.no_duplicates());
    oi.unique_seq_to_set();
    lemma_int_range(0, keys.len() as int);
    let r = set_int_range(0, keys.len() as int);
    assert(oi.to_set().subset_of(r)) by {
        assert forall|v: int| oi.to_set().contains(v) implies r.contains(v) by {
            let p = choose|p: int| 0 <= p < oi.len() && oi[p] == v;
            assert(o[p] < keys.len());
        }
    }
    lemma_subset_equality(oi.to_set(), r);
    assert(r.contains(x));
    assert(oi.to_set().contains(x));
    let p = choose|p: int| 0 <= p < oi.len() && oi[p] == x;
    assert(o[p] == x);
}

/// Two rankings of the same keys agree on the first `n` places.
pub proof fn lemma_ranking_prefix<K: RankKey>(keys: Seq<K>, o1: Seq<usize>, o2: Seq<usize>, n: int)
    requires
        is_ranking(keys, o1),
        is_ranking(keys, o2),
        0 <= n <= keys.len(),
    ensures
        forall|j: int| 0 <= j < n ==> o1[j] == o2[j],
    decreases n,
{
    if n > 0 {
        let i = n - 1;
        lemma_ranking_prefix(keys, o1, o2, i);
        let a = o1[i] as int;
        let b = o2[i] as int;
        if a != b {
            lemma_ranking_onto(keys, o1, b);
            let p = choose|p: int| 0 <= p < o1.len() && o1[p] == b;
            lemma_ranking_onto(keys, o2, a);
            let q = choose|q: int| 0 <= q < o2.len() && o2[q] == a;
            if p < i {
                assert(o2[p] == b);
                assert(before(keys, o2[p] as int, o2[i] as int));
                lemma_before(keys, b, b, 0);
            } else if q < i {
                assert(o1[q] == a);
                assert(before(keys, o1[q] as int, o1[i] as int));
                lemma_before(keys, a, a, 0);
            } else {
                assert(p != i);
                assert(q != i);
                assert(before(keys, o1[i] as int, o1[p] as int));
                assert(before(keys, o2[i] as int, o2[q] as int));
                lemma_before(keys, a, b, 0);
            }
        }
    }
}

/// The ranking of a list of keys is unique.
pub proof fn lemma_ranking_unique<K: RankKey>(keys: Seq<K>, o1: Seq<usize>, o2: Seq<usize>)
    requires
        is_ranking(keys, o1),
        is_ranking(keys, o2),
    ensures
        o1 == o2,
{
    lemma_ranking_prefix(keys, o1, o2, keys.len() as int);
    assert(o1 =~= o2);
}

/// The ranking of `keys`: the order of positions a stable sort gives.
pub open spec fn ranking<K: RankKey>(keys: Seq<K>) -> Seq<usize> {
    choose|o: Seq<usize>| is_ranking(keys, o)
}

/// A computed ranking is the ranking.
pub proof fn lemma_is_the_ranking<K: RankKey>(keys: Seq<K>, o: Seq<usize>)
    requires
        is_ranking(keys, o),
    ensures
        ranking(keys) == o,
        is_ranking(keys, ranking(keys)),
{
    lemma_ranking_unique(keys, ranking(keys), o);
}

/// The first place from `a` in `o` whose position `x` comes before, or the end of `o`.
pub open spec fn insert_place<K: RankKey>(keys: Seq<K>, o: Seq<usize>, x: int, a: int) -> int
    decreases o.len() - a,
{
    if a < 0 || a >= o.len() {
        o.len() as int
    } else if before(keys, x, o[a] as int) {
        a
    } else {
        insert_place(keys, o, x, a + 1)
    }
}

/// Positions placed before the insertion place come before `x`; those from it on come after.
pub proof fn lemma_insert_place<K: RankKey>(keys: Seq<K>, o: Seq<usize>, x: int, a: int)
    requires
        0 <= a <= o.len(),
        sorted_run(keys, o),
        forall|k: int| 0 <= k < o.len() ==> o[k] != x,
    ensures
        a <= insert_place(keys, o, x, a) <= o.len(),
        forall|b: int|
            a <= b < insert_place(keys, o, x, a) ==> before(keys, #[trigger] o[b] as int, x),
        forall|b: int|
            insert_place(keys, o, x, a) <= b < o.len() ==> before(keys, x, #[trigger] o[b] as int),
    decreases o.len() - a,
{
    if a < o.len() {
        lemma_before(keys, x, o[a] as int, 0);
        if before(keys, x, o[a] as int) {
            assert forall|b: int| a <= b < o.len() implies before(keys, x, #[trigger] o[b] as int) by {
                if b > a {
                    assert(before(keys, o[a] as int, o[b] as int));
                    lemma_before(keys, x, o[a] as int, o[b] as int);
                }
            }
        } else {
            lemma_insert_place(keys, o, x, a + 1);
        }
    }
}

/// Every list of keys that a `Vec` can hold has a ranking.
pub proof fn lemma_ranking_exists<K: RankKey>(keys: Seq<K>)
    requires
        keys.len() <= usize::MAX,
    ensures
        is_ranking(keys, ranking(keys)),
    decreases keys.len(),
{
    if keys.len() == 0 {
        let o = Seq::<usize>::empty();
        assert(is_ranking(keys, o));
        lemma_is_the_ranking(keys, o);
    } else {
        let x = keys.len() - 1;
        let ks = keys.drop_last();
        lemma_ranking_exists(ks);
        let o1 = ranking(ks);
        assert forall|i: int, j: int| 0 <= i < x && 0 <= j < x implies before(ks, i, j) == before(
            keys,
            i,
            j,
        ) by {
            assert(ks[i] == keys[i] && ks[j] == keys[j]);
        }
        assert(sorted_run(keys, o1)) by {
            assert forall|a: int, b: int| 0 <= a < b < o1.len() implies before(
                keys,
                #[trigger] o1[a] as int,
                #[trigger] o1[b] as int,
            ) by {
                assert(before(ks, o1[a] as int, o1[b] as int));
            }
        }
        assert(forall|k: int| 0 <= k < o1.len() ==> o1[k] != x);
        lemma_insert_place(keys, o1, x, 0);
        let p = insert_place(keys, o1, x, 0);
        let o = o1.insert(p, x as usize);
        assert forall|a: int, b: int| 0 <= a < b < o.len() implies before(
            keys,
            #[trigger] o[a] as int,
            #[trigger] o[b] as int,
        ) by {
            if a < p && b < p {
                assert(o[a] == o1[a] && o[b] == o1[b]);
            } else if a < p && b == p {
                assert(o[a] == o1[a]);
            } else if a < p {
                assert(o[a] == o1[a] && o[b] == o1[b - 1]);
            } else if a == p {
                assert(o[b] == o1[b - 1]);
            } else {
                assert(o[a] == o1[a - 1] && o[b] == o1[b - 1]);
            }
        }
        assert forall|k: int| 0 <= k < o.len() implies #[trigger] o[k] < keys.len() by {
            if k < p {
                assert(o[k] == o1[k]);
            } else if k > p {
                assert(o[k] == o1[k - 1]);
            }
        }
        assert(is_ranking(keys, o));
        lemma_is_the_ranking(keys, o);
    }
}

/// Taking the last position out of a ranking, where it stands at `q`, leaves a ranking of
/// the other keys.
pub proof fn lemma_ranking_drop_last<K: RankKey>(keys: Seq<K>, o: Seq<usize>) -> (q: int)
    requires
        is_ranking(keys, o),
        keys.len() > 0,
    ensures
        0 <= q < o.len(),
        o[q] == keys.len() - 1,
        is_ranking(keys.drop_last(), o.remove(q)),
        forall|k: int| 0 <= k < q ==> o.remove(q)[k] == o[k],
        forall|k: int| q <= k < o.len() - 1 ==> o.remove(q)[k] == o[k + 1],
{
    let n = keys.len() - 1;
    lemma_ranking_onto(keys, o, n);
    let q = choose|q: int| 0 <= q < o.len() && o[q] == n;
    let o2 = o.remove(q);
    let ks = keys.drop_last();
    assert forall|k: int| 0 <= k < o.len() && k != q implies o[k] != n by {
        if k < q {
            assert(before(keys, o[k] as int, o[q] as int));
        } else {
            assert(before(keys, o[q] as int, o[k] as int));
        }
        lemma_before(keys, n, n, 0);
    }
    assert forall|k: int| 0 <= k < o2.len() implies #[trigger] o2[k] < ks.len() by {
        if k < q {
            assert(o2[k] == o[k]);
        } else {
            assert(o2[k] == o[k + 1]);
        }
    }
    assert forall|a: int, b: int| 0 <= a < b < o2.len() implies before(
        ks,
        #[trigger] o2[a] as int,
        #[trigger] o2[b] as int,
    ) by {
        let a1 = if a < q { a } else { a + 1 };
        let b1 = if b < q { b } else { b + 1 };
        assert(o2[a] == o[a1] && o2[b] == o[b1]);
        assert(before(keys, o[a1] as int, o[b1] as int));
        assert(ks[o2[a] as int] == keys[o2[a] as int] && ks[o2[b] as int] == keys[o2[b] as int]);
    }
    assert(sorted_run(ks, o2));
    q
}

/// The items at the places of `o`, in its order.
pub open spec fn reordered<T>(xs: Seq<T>, o: Seq<usize>) -> Seq<T> {
    Seq::new(o.len(), |k: int| xs[o[k] as int])
}

/// Listing items in the order of a ranking lists each of them exactly once.
pub proof fn lemma_reordered_multiset<K: RankKey, T>(keys: Seq<K>, o: Seq<usize>, xs: Seq<T>)
    requires
        is_ranking(keys, o),
        xs.len() == keys.len(),
    ensures
        reordered(xs, o).to_multiset() == xs.to_multiset(),
    decreases xs.len(),
{
    broadcast use vstd::seq_lib::group_to_multiset_ensures;

    if xs.len() == 0 {
        assert(reordered(xs, o) =~= xs);
    } else {
        let q = lemma_ranking_drop_last(keys, o);
        let o2 = o.remove(q);
        let init = xs.drop_last();
        lemma_reordered_multiset(keys.drop_last(), o2, init);
        let s = reordered(xs, o);
        assert(s.remove(q) =~= reordered(init, o2)) by {
            assert forall|k: int| 0 <= k < o2.len() implies s.remove(q)[k] == reordered(init, o2)[k] by {
                if k < q {
                    assert(o2[k] == o[k]);
                } else {
                    assert(o2[k] == o[k + 1]);
                }
            }
        }
        assert(s[q] == xs.last());
        assert(s.to_multiset() =~= s.remove(q).to_multiset().insert(s[q])) by {
            assert(s.to_multiset().count(s[q]) > 0) by {
                assert(s.contains(s[q]));
            }
        }
        assert(init.push(xs.last()) == xs);
    }
}

/// A byte count ordered from large to small.
#[derive(Clone, Copy)]
pub struct LargestFirst(pub u64);

impl RankKey for LargestFirst {
    open spec fn precedes(self, other: Self) -> bool {
        self.0 > other.0
    }

    proof fn lemma_order(a: Self, b: Self, c: Self) {
    }

    fn precedes_exec(&self, other: &Self) -> (r: bool) {
        self.0 > other.0
    }
}

/// `a` comes before `b` in code-point order (the order `str` comparison gives).
pub open spec fn lex_less(a: Seq<char>, b: Seq<char>) -> bool
    decreases a.len(),
{
    if a.len() == 0 {
        b.len() > 0
    } else if b.len() == 0 {
        false
    } else if a[0] != b[0] {
        a[0] < b[0]
    } else {
        lex_less(a.drop_first(), b.drop_first())
    }
}

/// Code-point order decides at the first place the texts differ, by the smaller character
/// there; a proper prefix comes first.
pub proof fn lemma_lex_first_difference(a: Seq<char>, b: Seq<char>, k: int)
    requires
        0 <= k <= a.len(),
        k <= b.len(),
        forall|j: int| 0 <= j < k ==> a[j] == b[j],
    ensures
        k < a.len() && k < b.len() && a[k] < b[k] ==> lex_less(a, b),
        k == a.len() && k < b.len() ==> lex_less(a, b),
        k == b.len() ==> !lex_less(a, b),
    decreases k,
{
    if k > 0 {
        assert(a[0] == b[0]);
        assert forall|j: int| 0 <= j < k - 1 implies a.drop_first()[j] == b.drop_first()[j] by {
            assert(a[j + 1] == b[j + 1]);
        }
        lemma_lex_first_difference(a.drop_first(), b.drop_first(), k - 1);
    }
}

/// Code-point order is a strict total order.
pub proof fn lemma_lex_order(a: Seq<char>, b: Seq<char>, c: Seq<char>)
    ensures
        !lex_less(a, a),
        lex_less(a, b) && lex_less(b, c) ==> lex_less(a, c),
        lex_less(a, b) ==> !lex_less(b, a),
        !lex_less(a, b) && !lex_less(b, a) ==> a == b,
    decreases a.len(),
{
    if a.len() > 0 && b.len() > 0 && c.len() > 0 {
        lemma_lex_order(a.drop_first(), b.drop_first(), c.drop_first());
    }
    if a.len() > 0 && b.len() > 0 && a[0] == b[0] {
        lemma_lex_order(a.drop_first(), b.drop_first(), b.drop_first());
        if !lex_less(a, b) && !lex_less(b, a) {
            assert(a.drop_first() == b.drop_first());
            assert(a == seq![a[0]] + a.drop_first());
            assert(b == seq![b[0]] + b.drop_first());
        }
    }
    if a.len() > 0 {
        lemma_lex_order(a.drop_first(), a.drop_first(), a.drop_first());
    }
    if a.len() == 0 && b.len() == 0 {
        assert(a == b);
    }
}

/// A text ordered by code points.
pub struct TextKey(pub Vec<char>);

impl RankKey for TextKey {
    open spec fn precedes(self, other: Self) -> bool {
        lex_less(self.0@, other.0@)
    }

    proof fn lemma_order(a: Self, b: Self, c: Self) {
        lemma_lex_order(a.0@, b.0@, c.0@);
        lemma_lex_order(b.0@, c.0@, a.0@);
        lemma_lex_order(a.0@, c.0@, b.0@);
        if !lex_less(a.0@, b.0@) && !lex_less(b.0@, a.0@) && !lex_less(b.0@, c.0@) && !lex_less(
            c.0@,
            b.0@,
        ) {
            lemma_lex_order(a.0@, a.0@, a.0@);
        }
    }

    fn precedes_exec(&self, other: &Self) -> (r: bool) {
        lex_less_exec(&self.0, &other.0)
    }
}

/// Whether `a` comes before `b` in code-point order.
pub fn lex_less_exec(a: &Vec<char>, b: &Vec<char>) -> (r: bool)
    ensures
        r == lex_less(a@, b@),
{
    let mut i: usize = 0;
    assert(a@.skip(0) == a@);
    assert(b@.skip(0) == b@);
    while i < a.len() && i < b.len() && a[i] == b[i]
        invariant
            i <= a@.len(),
            i <= b@.len(),
            lex_less(a@, b@) == lex_less(a@.skip(i as int), b@.skip(i as int)),
        decreases a@.len() - i,
    {
        assert(a@.skip(i as int).drop_first() == a@.skip(i + 1));
        assert(b@.skip(i as int).drop_first() == b@.skip(i + 1));
        i += 1;
    }
    if i == a.len() {
        i < b.len()
    } else if i == b.len() {
        false
    } else {
        a[i] < b[i]
    }
}

} // verus!
