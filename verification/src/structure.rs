//! Folding of long entry lists and the diagnostic documents handed to the AI.
use vstd::prelude::*;
use crate::format::{format_size, size_text};
use crate::entries::{clone_entry, percent_text, push_percent, ScanEntry, ScanNode};
use crate::format::{fixed, push_fixed, push_ratio, ratio_text};
use crate::rank::{is_ranking, lemma_is_the_ranking, rank, ranking, LargestFirst};
use crate::report::quote_safe;
use crate::text::{chars_of, dec, push_chars, push_dec, push_str, replace_exec, slice};
use crate::wide::{b128, le_wide, lemma_b128, mul_small, mul_wide, sub_wide};

verus! {

/// The longest document, in UTF-8 bytes, handed to the AI.
pub const MAX_DOC_BYTES: u64 = 48000;

/// How the sizes of a list of entries are spread.
#[derive(Clone, Copy, Debug, PartialEq, Eq, Structural)]
pub enum DistributionKind {
    Small,
    Concentrated,
    Mixed,
    Dispersed,
}

/// The name of a distribution kind in the diagnostic documents.
pub open spec fn distribution_text(kind: DistributionKind) -> Seq<char> {
    match kind {
        DistributionKind::Small => "small"@,
        DistributionKind::Concentrated => "concentrated"@,
        DistributionKind::Mixed => "mixed"@,
        DistributionKind::Dispersed => "dispersed"@,
    }
}

/// The name of a distribution kind.
pub fn distribution_name(kind: DistributionKind) -> (s: &'static str)
    ensures
        s@ == distribution_text(kind),
{
    match kind {
        DistributionKind::Small => "small",
        DistributionKind::Concentrated => "concentrated",
        DistributionKind::Mixed => "mixed",
        DistributionKind::Dispersed => "dispersed",
    }
}

/// `...{count个|size}`: the label of a group of folded entries.
pub open spec fn folded_text(count: nat, size: nat) -> Seq<char> {
    "...{"@ + dec(count) + "个|"@ + size_text(size) + "}"@
}

/// The label of `count` folded entries of `size` bytes in all.
pub fn folded_label(count: usize, size: u64) -> (s: String)
    ensures
        s@ == folded_text(count as nat, size as nat),
{
    let mut s = String::new();
    push_str(&mut s, "...{");
    push_dec(&mut s, count as u128);
    push_str(&mut s, "个|");
    let z = format_size(size);
    push_str(&mut s, z.as_str());
    push_str(&mut s, "}");
    s
}

/// The number of bytes UTF-8 takes for `c`.
pub open spec fn utf8_width(c: char) -> nat {
    if (c as u32) < 0x80 {
        1
    } else if (c as u32) < 0x800 {
        2
    } else if (c as u32) < 0x10000 {
        3
    } else {
        4
    }
}

/// The UTF-8 length of a text (what `str::len` gives).
pub open spec fn byte_len(s: Seq<char>) -> nat
    decreases s.len(),
{
    if s.len() == 0 {
        0
    } else {
        byte_len(s.drop_last()) + utf8_width(s.last())
    }
}

/// How many leading characters of `s` fit in `limit` bytes.
pub open spec fn fit_count(s: Seq<char>, limit: nat) -> nat
    decreases s.len(),
{
    if s.len() == 0 || utf8_width(s[0]) > limit {
        0
    } else {
        1 + fit_count(s.drop_first(), (limit - utf8_width(s[0])) as nat)
    }
}

/// A document over the byte limit is cut to the characters that fit and marked as cut.
pub open spec fn truncated_doc(s: Seq<char>) -> Seq<char> {
    if byte_len(s) > MAX_DOC_BYTES {
        s.take(fit_count(s, MAX_DOC_BYTES as nat) as int) + "\n\n...(文档已截断以适配模型上下文)"@
    } else {
        s
    }
}

/// The UTF-8 width of one character.
pub fn utf8_width_exec(c: char) -> (w: u64)
    ensures
        w == utf8_width(c),
{
    let v = c as u32;
    if v < 0x80 {
        1
    } else if v < 0x800 {
        2
    } else if v < 0x10000 {
        3
    } else {
        4
    }
}

/// The UTF-8 length of a text.
pub fn byte_len_exec(s: &Vec<char>) -> (n: u128)
    ensures
        n == byte_len(s@),
{
    let mut n: u128 = 0;
    let mut i: usize = 0;
    while i < s.len()
        invariant
            i <= s.len(),
            n == byte_len(s@.take(i as int)),
            n <= 4 * i,
        decreases s.len() - i,
    {
        assert(s@.take(i + 1).drop_last() == s@.take(i as int));
        n = n + utf8_width_exec(s[i]) as u128;
        i += 1;
    }
    assert(s@.take(s.len() as int) == s@);
    n
}

/// The UTF-8 length of a string.
pub fn doc_len(s: &String) -> (n: u128)
    ensures
        n == byte_len(s@),
{
    byte_len_exec(&chars_of(s.as_str()))
}

/// An over-long document can be cut at the byte limit: the limit falls between two
/// characters (`String::truncate` panics otherwise).
pub open spec fn cut_ok(s: Seq<char>) -> bool {
    byte_len(s) <= MAX_DOC_BYTES || byte_len(s.take(fit_count(s, MAX_DOC_BYTES as nat) as int))
        == MAX_DOC_BYTES
}

/// How many leading characters fit in the byte limit, and whether they fill it exactly.
fn cut_point(v: &Vec<char>) -> (r: (usize, bool))
    ensures
        r.0 == fit_count(v@, MAX_DOC_BYTES as nat),
        r.0 <= v@.len(),
        r.1 == (byte_len(v@.take(r.0 as int)) == MAX_DOC_BYTES),
{
    let mut i: usize = 0;
    let mut left: u64 = MAX_DOC_BYTES;
    assert(v@.skip(0) == v@);
    assert(v@.take(0) =~= Seq::<char>::empty());
    while i < v.len() && utf8_width_exec(v[i]) <= left
        invariant
            i <= v.len(),
            left <= MAX_DOC_BYTES,
            fit_count(v@, MAX_DOC_BYTES as nat) == i + fit_count(v@.skip(i as int), left as nat),
            byte_len(v@.take(i as int)) + left == MAX_DOC_BYTES,
        decreases v.len() - i,
    {
        assert(v@.skip(i as int).drop_first() == v@.skip(i + 1));
        assert(v@.take(i + 1).drop_last() == v@.take(i as int));
        left = left - utf8_width_exec(v[i]);
        i += 1;
    }
    (i, left == 0)
}

/// Whether a document can be cut at the byte limit.
pub fn doc_cut_ok(doc: &String) -> (b: bool)
    ensures
        b == cut_ok(doc@),
{
    let v = chars_of(doc.as_str());
    if byte_len_exec(&v) <= MAX_DOC_BYTES as u128 {
        return true;
    }
    cut_point(&v).1
}

/// Cuts an over-long document to the byte limit and marks it as cut.
pub fn truncate_doc(doc: String) -> (r: String)
    requires
        cut_ok(doc@),
    ensures
        r@ == truncated_doc(doc@),
{
    let v = chars_of(doc.as_str());
    let total = byte_len_exec(&v);
    if total <= MAX_DOC_BYTES as u128 {
        return doc;
    }
    let (i, _) = cut_point(&v);
    let mut r = String::new();
    let kept = slice(&v, 0, i);
    push_chars(&mut r, &kept);
    push_str(&mut r, "\n\n...(文档已截断以适配模型上下文)");
    assert(kept@ == v@.take(i as int));
    r
}

/// The sizes of a list of entries.
pub open spec fn sizes(es: Seq<ScanEntry>) -> Seq<u64> {
    es.map_values(|e: ScanEntry| e.size)
}

/// The sum of a list of sizes.
pub open spec fn sum(xs: Seq<u64>) -> nat
    decreases xs.len(),
{
    if xs.len() == 0 {
        0
    } else {
        sum(xs.drop_last()) + xs.last() as nat
    }
}

/// The sum of the squares of a list of sizes.
pub open spec fn sum_sq(xs: Seq<u64>) -> nat
    decreases xs.len(),
{
    if xs.len() == 0 {
        0
    } else {
        sum_sq(xs.drop_last()) + (xs.last() as nat) * (xs.last() as nat)
    }
}

/// The sum of squares never exceeds the square of the sum.
pub proof fn lemma_sum_sq_bound(xs: Seq<u64>)
    ensures
        sum_sq(xs) <= sum(xs) * sum(xs),
    decreases xs.len(),
{
    if xs.len() > 0 {
        lemma_sum_sq_bound(xs.drop_last());
        let s = sum(xs.drop_last());
        let q = sum_sq(xs.drop_last());
        let x = xs.last() as nat;
        assert(q + x * x <= (s + x) * (s + x)) by (nonlinear_arith)
            requires
                q <= s * s,
        ;
    }
}

/// The sizes as keys ordered from large to small.
pub open spec fn size_keys(es: Seq<ScanEntry>) -> Seq<LargestFirst> {
    es.map_values(|e: ScanEntry| LargestFirst(e.size))
}

/// The sum of the sizes at the first `t` places of `o`.
pub open spec fn sum_at(xs: Seq<u64>, o: Seq<usize>, t: int) -> nat
    decreases t,
{
    if t <= 0 || t > o.len() {
        0
    } else {
        sum_at(xs, o, t - 1) + xs[o[t - 1] as int] as nat
    }
}

/// How many of the largest entries are always shown.
pub const VISIBLE_ITEMS: usize = 20;

/// The number of places taken from the front of the size order: 20, or fewer entries.
pub open spec fn top_count(n: nat) -> int {
    if n <= 20 {
        n as int
    } else {
        20
    }
}

/// The total size of the 20 largest entries.
pub open spec fn top_sum(es: Seq<ScanEntry>) -> nat {
    sum_at(sizes(es), ranking(size_keys(es)), top_count(es.len()))
}

/// `cv >= p / d` for the coefficient of variation (standard deviation over mean) of a list
/// of `n` sizes with sum `s` and sum of squares `q`; never when the mean is 0.
pub open spec fn cv_at_least(n: nat, s: nat, q: nat, p: nat, d: nat) -> bool {
    s > 0 && d * d * (n * q - s * s) >= p * p * s * s
}

/// How the sizes of a list are spread: `Small` up to 20 entries; `Concentrated` when the
/// coefficient of variation is at least 1.5 and the 20 largest hold at least 75% of the
/// total; `Dispersed` when the coefficient is below 1 or the 20 largest hold under 50%;
/// `Mixed` otherwise.
pub open spec fn distribution_of(es: Seq<ScanEntry>) -> DistributionKind {
    let n = es.len();
    let s = sum(sizes(es));
    let q = sum_sq(sizes(es));
    let top = top_sum(es);
    if n <= 20 {
        DistributionKind::Small
    } else if cv_at_least(n, s, q, 3, 2) && s > 0 && 4 * top >= 3 * s {
        DistributionKind::Concentrated
    } else if !cv_at_least(n, s, q, 1, 1) || s == 0 || 2 * top < s {
        DistributionKind::Dispersed
    } else {
        DistributionKind::Mixed
    }
}

/// Position `i` is among the 20 largest entries.
pub open spec fn in_top(es: Seq<ScanEntry>, i: int) -> bool {
    exists|k: int| 0 <= k < top_count(es.len()) && ranking(size_keys(es))[k] == i
}

/// The entry at `i` stays visible: lists up to 20 keep everything; otherwise the 20 largest,
/// and, unless the spread is dispersed, every entry holding at least 5% of the total.
pub open spec fn stays_visible(es: Seq<ScanEntry>, i: int) -> bool {
    let kind = distribution_of(es);
    let s = sum(sizes(es));
    ||| kind == DistributionKind::Small
    ||| in_top(es, i)
    ||| ((kind == DistributionKind::Concentrated || kind == DistributionKind::Mixed) && s > 0 && 20
        * es[i].size >= s)
}

/// The entries at the positions with `keep(i) == want`, in their order.
pub open spec fn pick(es: Seq<ScanEntry>, keep: spec_fn(int) -> bool, want: bool) -> Seq<ScanEntry>
    decreases es.len(),
{
    if es.len() == 0 {
        Seq::empty()
    } else if keep(es.len() - 1) == want {
        pick(es.drop_last(), keep, want).push(es.last())
    } else {
        pick(es.drop_last(), keep, want)
    }
}

/// A sum over a prefix never exceeds the whole sum.
pub proof fn lemma_sum_prefix(xs: Seq<u64>, i: int)
    requires
        0 <= i <= xs.len(),
    ensures
        sum(xs.take(i)) <= sum(xs),
    decreases xs.len(),
{
    if i < xs.len() {
        assert(xs.take(i) == xs.drop_last().take(i));
        lemma_sum_prefix(xs.drop_last(), i);
    } else {
        assert(xs.take(i) == xs);
    }
}

/// The picked entries never weigh more than all of them.
pub proof fn lemma_pick_sum(es: Seq<ScanEntry>, keep: spec_fn(int) -> bool, want: bool)
    ensures
        sum(sizes(pick(es, keep, want))) <= sum(sizes(es)),
    decreases es.len(),
{
    if es.len() > 0 {
        lemma_pick_sum(es.drop_last(), keep, want);
        assert(sizes(es).drop_last() == sizes(es.drop_last()));
        let p = pick(es.drop_last(), keep, want);
        assert(sizes(p.push(es.last())).drop_last() == sizes(p));
    }
}

/// Picking by any test splits a list in two: every entry lands on exactly one side, and
/// the two sides together count and weigh what the whole list does.
pub proof fn lemma_pick_partition(es: Seq<ScanEntry>, keep: spec_fn(int) -> bool)
    ensures
        pick(es, keep, true).to_multiset().add(pick(es, keep, false).to_multiset())
            == es.to_multiset(),
        pick(es, keep, true).len() + pick(es, keep, false).len() == es.len(),
        sum(sizes(pick(es, keep, true))) + sum(sizes(pick(es, keep, false))) == sum(
            sizes(es),
        ),
    decreases es.len(),
{
    broadcast use vstd::seq_lib::group_to_multiset_ensures;
    broadcast use vstd::multiset::group_multiset_axioms;

    if es.len() > 0 {
        let init = es.drop_last();
        let x = es.last();
        lemma_pick_partition(init, keep);
        let a = pick(init, keep, true);
        let b = pick(init, keep, false);
        assert(init.push(x) == es);
        assert(sizes(es).drop_last() == sizes(init));
        if keep(es.len() - 1) {
            assert(sizes(a.push(x)).drop_last() == sizes(a));
            assert(a.push(x).to_multiset() == a.to_multiset().insert(x));
        } else {
            assert(sizes(b.push(x)).drop_last() == sizes(b));
            assert(b.push(x).to_multiset() == b.to_multiset().insert(x));
        }
        assert(es.to_multiset() == init.to_multiset().insert(x));
    } else {
        assert(es.to_multiset() =~= vstd::multiset::Multiset::empty());
    }
}

/// Folding loses nothing: each entry of a list is either shown or folded, exactly once;
/// the shown and folded entries together weigh what the list weighs; and a list of at most
/// 20 entries folds nothing.
pub proof fn lemma_compaction_partitions(es: Seq<ScanEntry>)
    ensures
        pick(es, |i: int| stays_visible(es, i), true).to_multiset().add(
            pick(es, |i: int| stays_visible(es, i), false).to_multiset(),
        ) == es.to_multiset(),
        sum(sizes(pick(es, |i: int| stays_visible(es, i), true))) + sum(
            sizes(pick(es, |i: int| stays_visible(es, i), false)),
        ) == sum(sizes(es)),
        es.len() <= 20 ==> pick(es, |i: int| stays_visible(es, i), false).len() == 0,
{
    let keep = |i: int| stays_visible(es, i);
    lemma_pick_partition(es, keep);
    if es.len() <= 20 {
        lemma_pick_all(es, keep);
    }
}

/// When every position passes the test, nothing is picked on the failing side.
pub proof fn lemma_pick_all(es: Seq<ScanEntry>, keep: spec_fn(int) -> bool)
    requires
        forall|i: int| 0 <= i < es.len() ==> #[trigger] keep(i),
    ensures
        pick(es, keep, false).len() == 0,
    decreases es.len(),
{
    if es.len() > 0 {
        assert(keep(es.len() - 1));
        lemma_pick_all(es.drop_last(), keep);
    }
}

/// The sum over the first `t` places never shrinks as `t` grows.
pub proof fn lemma_sum_at_mono(xs: Seq<u64>, o: Seq<usize>, t: int, u: int)
    requires
        0 <= t <= u <= o.len(),
    ensures
        sum_at(xs, o, t) <= sum_at(xs, o, u),
    decreases u,
{
    if t < u {
        lemma_sum_at_mono(xs, o, t, u - 1);
    }
}

/// The sum over the first `u` places holds the first `t` places and, beside them, place `j`
/// for any `j` from `t` on.
pub proof fn lemma_sum_at_split(xs: Seq<u64>, o: Seq<usize>, t: int, j: int, u: int)
    requires
        0 <= t <= j < u <= o.len(),
    ensures
        sum_at(xs, o, t) + xs[o[j] as int] <= sum_at(xs, o, u),
    decreases u,
{
    if j == u - 1 {
        lemma_sum_at_mono(xs, o, t, j);
    } else {
        lemma_sum_at_split(xs, o, t, j, u - 1);
    }
}

/// When each of the first `t` places holds at least `x`, they hold at least `t * x`.
pub proof fn lemma_sum_at_floor(xs: Seq<u64>, o: Seq<usize>, t: int, x: nat)
    requires
        0 <= t <= o.len(),
        forall|k: int| 0 <= k < t ==> xs[#[trigger] o[k] as int] >= x,
    ensures
        sum_at(xs, o, t) >= t * x,
    decreases t,
{
    if t > 0 {
        lemma_sum_at_floor(xs, o, t - 1, x);
        assert(xs[o[t - 1] as int] >= x);
        assert(sum_at(xs, o, t) == sum_at(xs, o, t - 1) + xs[o[t - 1] as int] as nat);
        assert(t * x == (t - 1) * x + x) by (nonlinear_arith);
    } else {
        assert(t * x == 0) by (nonlinear_arith)
            requires
                t == 0,
        ;
    }
}

/// The sum over every place of `o` is the sum of the sizes listed in `o`'s order.
pub proof fn lemma_sum_at_ranked(xs: Seq<u64>, o: Seq<usize>, t: int)
    requires
        0 <= t <= o.len(),
    ensures
        sum_at(xs, o, t) == sum(crate::scan::ranked(xs, o).take(t)),
    decreases t,
{
    let r = crate::scan::ranked(xs, o);
    if t > 0 {
        lemma_sum_at_ranked(xs, o, t - 1);
        assert(r.take(t).drop_last() == r.take(t - 1));
    } else {
        assert(r.take(0) =~= Seq::<u64>::empty());
    }
}

/// Past 20 entries, the entries shown are exactly the 20 largest: an entry holding at least
/// 5% of the total is always among them, since 21 entries of that size would weigh more
/// than the whole list.
pub proof fn lemma_shown_are_top(es: Seq<ScanEntry>, i: int)
    requires
        20 < es.len() <= usize::MAX,
        0 <= i < es.len(),
    ensures
        stays_visible(es, i) <==> in_top(es, i),
{
    let keys = size_keys(es);
    let xs = sizes(es);
    let o = ranking(keys);
    let n = es.len() as int;
    let s = sum(xs);
    let x = es[i].size as nat;
    crate::rank::lemma_ranking_exists(keys);
    if stays_visible(es, i) && !in_top(es, i) {
        assert(20 * x >= s && s > 0);
        crate::rank::lemma_ranking_onto(keys, o, i);
        let p = choose|p: int| 0 <= p < o.len() && o[p] == i;
        assert(p >= 20) by {
            if p < 20 {
                assert(0 <= p < top_count(es.len()) && o[p] == i);
            }
        }
        assert forall|k: int| 0 <= k < 20 implies xs[#[trigger] o[k] as int] >= x by {
            assert(crate::rank::before(keys, o[k] as int, o[p] as int));
        }
        lemma_sum_at_floor(xs, o, 20, x);
        lemma_sum_at_split(xs, o, 20, p, n);
        lemma_sum_at_ranked(xs, o, n);
        crate::scan::lemma_sum_ranked(keys, o, xs);
        assert(crate::scan::ranked(xs, o).take(n) == crate::scan::ranked(xs, o));
    }
}

/// Tests that agree on every position pick the same entries.
pub proof fn lemma_pick_agree(es: Seq<ScanEntry>, k1: spec_fn(int) -> bool, k2: spec_fn(int) -> bool, want: bool)
    requires
        forall|i: int| 0 <= i < es.len() ==> #[trigger] k1(i) == k2(i),
    ensures
        pick(es, k1, want) == pick(es, k2, want),
    decreases es.len(),
{
    if es.len() > 0 {
        assert(k1(es.len() - 1) == k2(es.len() - 1));
        lemma_pick_agree(es.drop_last(), k1, k2, want);
    }
}

/// A test that passes at one more position `j` picks one more entry, that at `j`.
pub proof fn lemma_pick_one_more(es: Seq<ScanEntry>, k1: spec_fn(int) -> bool, k2: spec_fn(int) -> bool, j: int)
    requires
        0 <= j < es.len(),
        !k1(j) && k2(j),
        forall|i: int| 0 <= i < es.len() && i != j ==> #[trigger] k1(i) == k2(i),
    ensures
        pick(es, k2, true).len() == pick(es, k1, true).len() + 1,
        sum(sizes(pick(es, k2, true))) == sum(sizes(pick(es, k1, true))) + es[j].size,
    decreases es.len(),
{
    let init = es.drop_last();
    if j == es.len() - 1 {
        lemma_pick_agree(init, k1, k2, true);
        let p = pick(init, k2, true);
        assert(sizes(p.push(es.last())).drop_last() == sizes(p));
    } else {
        assert(k1(es.len() - 1) == k2(es.len() - 1));
        lemma_pick_one_more(init, k1, k2, j);
        if k2(es.len() - 1) {
            let p1 = pick(init, k1, true);
            let p2 = pick(init, k2, true);
            assert(sizes(p1.push(es.last())).drop_last() == sizes(p1));
            assert(sizes(p2.push(es.last())).drop_last() == sizes(p2));
        }
    }
}

/// A test that passes nowhere picks nothing.
pub proof fn lemma_pick_none(es: Seq<ScanEntry>, keep: spec_fn(int) -> bool)
    requires
        forall|i: int| 0 <= i < es.len() ==> !#[trigger] keep(i),
    ensures
        pick(es, keep, true).len() == 0,
    decreases es.len(),
{
    if es.len() > 0 {
        assert(!keep(es.len() - 1));
        lemma_pick_none(es.drop_last(), keep);
    }
}

/// The positions at the first `t` places of `o`.
pub open spec fn first_places(o: Seq<usize>, t: int) -> spec_fn(int) -> bool {
    |i: int| exists|k: int| 0 <= k < t && #[trigger] o[k] == i
}

/// Picking the positions at the first `t` places of a ranking picks `t` entries, weighing
/// what those places weigh.
pub proof fn lemma_pick_first_places(es: Seq<ScanEntry>, t: int)
    requires
        es.len() <= usize::MAX,
        0 <= t <= es.len(),
    ensures
        pick(es, first_places(ranking(size_keys(es)), t), true).len() == t,
        sum(sizes(pick(es, first_places(ranking(size_keys(es)), t), true))) == sum_at(
            sizes(es),
            ranking(size_keys(es)),
            t,
        ),
    decreases t,
{
    let keys = size_keys(es);
    let o = ranking(keys);
    crate::rank::lemma_ranking_exists(keys);
    if t == 0 {
        lemma_pick_none(es, first_places(o, 0));
        assert(pick(es, first_places(o, 0), true) =~= Seq::<ScanEntry>::empty());
    } else {
        lemma_pick_first_places(es, t - 1);
        let j = o[t - 1] as int;
        let k1 = first_places(o, t - 1);
        let k2 = first_places(o, t);
        assert(0 <= j < es.len());
        assert(!k1(j)) by {
            if k1(j) {
                let k = choose|k: int| 0 <= k < t - 1 && o[k] == j;
                assert(crate::rank::before(keys, o[k] as int, o[t - 1] as int));
                crate::rank::lemma_before(keys, j, j, j);
            }
        }
        assert(k2(j));
        assert forall|i: int| 0 <= i < es.len() && i != j implies #[trigger] k1(i) == k2(i) by {
            if k2(i) {
                let k = choose|k: int| 0 <= k < t && o[k] == i;
                assert(k != t - 1);
                assert(k1(i));
            }
        }
        lemma_pick_one_more(es, k1, k2, j);
    }
}

/// Past 20 entries, exactly 20 are shown, weighing what the 20 largest weigh, and the folded
/// ones weigh the rest.
pub proof fn lemma_shown_count(es: Seq<ScanEntry>)
    requires
        20 < es.len() <= usize::MAX,
    ensures
        pick(es, |i: int| stays_visible(es, i), true).len() == 20,
        sum(sizes(pick(es, |i: int| stays_visible(es, i), true))) == top_sum(es),
        sum(sizes(pick(es, |i: int| stays_visible(es, i), false))) + top_sum(es) == sum(sizes(es)),
{
    let o = ranking(size_keys(es));
    let keep = |i: int| stays_visible(es, i);
    assert forall|i: int| 0 <= i < es.len() implies #[trigger] keep(i) == first_places(o, 20)(i) by {
        lemma_shown_are_top(es, i);
    }
    lemma_pick_agree(es, keep, first_places(o, 20), true);
    lemma_pick_first_places(es, 20);
    lemma_pick_partition(es, keep);
}

/// The exact size statistics of a list of entries.
#[derive(Clone, Copy, Debug)]
pub struct Spread {
    pub count: u64,
    pub total: u64,
    pub sum_squares: u128,
    pub top20: u128,
}

/// A list of entries cut into the part shown and the part folded away.
pub struct CompactedEntries {
    pub distribution: DistributionKind,
    pub spread: Spread,
    pub visible: Vec<ScanEntry>,
    pub folded: Vec<ScanEntry>,
    pub folded_size: u64,
}

/// The statistics of a list of entries.
pub open spec fn spread_of(es: Seq<ScanEntry>) -> Spread {
    Spread {
        count: es.len() as u64,
        total: sum(sizes(es)) as u64,
        sum_squares: sum_sq(sizes(es)) as u128,
        top20: top_sum(es) as u128,
    }
}

/// The sizes of `es`, as a vector of keys ordered large to small.
pub(crate) fn size_key_vec(es: &Vec<ScanEntry>) -> (keys: Vec<LargestFirst>)
    ensures
        keys@ == size_keys(es@),
{
    let mut keys: Vec<LargestFirst> = Vec::new();
    let mut i: usize = 0;
    while i < es.len()
        invariant
            i <= es.len(),
            keys@ == size_keys(es@.take(i as int)),
        decreases es.len() - i,
    {
        keys.push(LargestFirst(es[i].size));
        assert(size_keys(es@.take(i + 1)) == size_keys(es@.take(i as int)).push(LargestFirst(es@[i as int].size)));
        i += 1;
    }
    assert(es@.take(es.len() as int) == es@);
    keys
}

/// The sum and the sum of squares of the sizes.
pub(crate) fn size_sums(es: &Vec<ScanEntry>) -> (r: (u64, u128))
    requires
        sum(sizes(es@)) <= u64::MAX,
    ensures
        r.0 == sum(sizes(es@)),
        r.1 == sum_sq(sizes(es@)),
{
    let ghost xs = sizes(es@);
    let mut s: u64 = 0;
    let mut q: u128 = 0;
    let mut i: usize = 0;
    while i < es.len()
        invariant
            i <= es.len(),
            xs == sizes(es@),
            sum(xs) <= u64::MAX,
            s == sum(xs.take(i as int)),
            q == sum_sq(xs.take(i as int)),
        decreases es.len() - i,
    {
        assert(xs.take(i + 1).drop_last() == xs.take(i as int));
        proof {
            lemma_sum_prefix(xs, i + 1);
            lemma_sum_sq_bound(xs.take(i + 1));
        }
        assert(sum(xs.take(i + 1)) * sum(xs.take(i + 1)) <= u64::MAX as int * u64::MAX as int)
            by (nonlinear_arith)
            requires
                sum(xs.take(i + 1)) <= u64::MAX,
        ;
        let x = es[i].size;
        s = s + x;
        q = q + (x as u128) * (x as u128);
        i += 1;
    }
    assert(xs.take(es.len() as int) == xs);
    (s, q)
}

/// `cv >= p / d` computed exactly (`p` and `d` small).
fn cv_at_least_exec(n: u64, s: u64, q: u128, p: u128, d: u128) -> (r: bool)
    requires
        1 <= d <= 4,
        p <= 4,
        q <= s as int * s as int,
    ensures
        r == cv_at_least(n as nat, s as nat, q as nat, p as nat, d as nat),
{
    if s == 0 {
        return false;
    }
    proof {
        lemma_b128();
    }
    assert((s as u128) * (s as u128) <= u128::MAX) by (nonlinear_arith)
        requires
            s <= u64::MAX,
    ;
    assert(d * d <= 16 && p * p <= 16) by (nonlinear_arith)
        requires
            1 <= d <= 4,
            p <= 4,
    ;
    assert((d * d) * (n as u128) <= 16 * u64::MAX as int) by (nonlinear_arith)
        requires
            1 <= d <= 4,
            n <= u64::MAX,
    ;
    let ss: u128 = (s as u128) * (s as u128);
    let lhs = mul_wide((d * d) * (n as u128), q);
    let rhs = mul_wide((p * p + d * d), ss);
    let r = le_wide(rhs, lhs);
    assert(r == (d * d * (n * q - s * s) >= p * p * s * s)) by (nonlinear_arith)
        requires
            lhs.val() == (d * d) * n * q,
            rhs.val() == (p * p + d * d) * (s * s),
            r == (rhs.val() <= lhs.val()),
    ;
    r
}

/// Cuts a list of entries into the entries shown and those folded away.
pub fn compact_scan_entries(entries: &Vec<ScanEntry>) -> (c: CompactedEntries)
    requires
        sum(sizes(entries@)) <= u64::MAX,
    ensures
        c.distribution == distribution_of(entries@),
        c.spread == spread_of(entries@),
        c.visible@ == pick(entries@, |i: int| stays_visible(entries@, i), true),
        c.folded@ == pick(entries@, |i: int| stays_visible(entries@, i), false),
        c.folded_size == sum(sizes(c.folded@)),
{
    let ghost es = entries@;
    let n = entries.len();
    let (s, q) = size_sums(entries);
    proof {
        lemma_sum_sq_bound(sizes(es));
    }
    let keys = size_key_vec(entries);
    let order = rank(&keys);
    proof {
        lemma_is_the_ranking(keys@, order@);
    }
    let t: usize = if n <= VISIBLE_ITEMS {
        n
    } else {
        VISIBLE_ITEMS
    };
    let mut top: u128 = 0;
    let mut k: usize = 0;
    while k < t
        invariant
            t == top_count(n as nat),
            t <= n == es.len() == order.len(),
            es == entries@,
            keys@ == size_keys(es),
            order@ == ranking(size_keys(es)),
            is_ranking(keys@, order@),
            k <= t <= 20,
            top == sum_at(sizes(es), order@, k as int),
            top <= k * 0x1_0000_0000_0000_0000,
        decreases t - k,
    {
        let i = order[k];
        top = top + entries[i].size as u128;
        k += 1;
    }
    assert(top == top_sum(es));
    let kind = if n <= VISIBLE_ITEMS {
        DistributionKind::Small
    } else if cv_at_least_exec(n as u64, s, q, 3, 2) && s > 0 && 4 * top >= 3 * (s as u128) {
        DistributionKind::Concentrated
    } else if !cv_at_least_exec(n as u64, s, q, 1, 1) || s == 0 || 2 * top < s as u128 {
        DistributionKind::Dispersed
    } else {
        DistributionKind::Mixed
    };
    assert(kind == distribution_of(es));
    let ghost keep = |i: int| stays_visible(es, i);
    let mut flags: Vec<bool> = Vec::new();
    let mut i: usize = 0;
    while i < n
        invariant
            i <= n == es.len(),
            flags@.len() == i,
            forall|j: int| 0 <= j < i ==> !#[trigger] flags@[j],
        decreases n - i,
    {
        flags.push(false);
        i += 1;
    }
    let mut k: usize = 0;
    while k < t
        invariant
            t == top_count(n as nat),
            t <= n == es.len() == order.len() == flags.len(),
            is_ranking(keys@, order@),
            keys@ == size_keys(es),
            order@ == ranking(size_keys(es)),
            k <= t,
            forall|j: int|
                0 <= j < n ==> (#[trigger] flags@[j] <==> exists|m: int|
                    0 <= m < k && order@[m] == j),
        decreases t - k,
    {
        let j = order[k];
        flags.set(j, true);
        proof {
            assert forall|x: int| 0 <= x < n implies (#[trigger] flags@[x] <==> exists|m: int|
                0 <= m < k + 1 && order@[m] == x) by {
                if x == j {
                    assert(order@[k as int] == x);
                }
            }
        }
        k += 1;
    }
    let major = (kind == DistributionKind::Concentrated || kind == DistributionKind::Mixed) && s > 0;
    let small = kind == DistributionKind::Small;
    let mut visible: Vec<ScanEntry> = Vec::new();
    let mut folded: Vec<ScanEntry> = Vec::new();
    let mut folded_size: u128 = 0;
    let mut i: usize = 0;
    while i < n
        invariant
            i <= n == es.len() == flags.len(),
            es == entries@,
            kind == distribution_of(es),
            major == ((kind == DistributionKind::Concentrated || kind == DistributionKind::Mixed)
                && sum(sizes(es)) > 0),
            small == (kind == DistributionKind::Small),
            s == sum(sizes(es)),
            forall|j: int| 0 <= j < n ==> (#[trigger] flags@[j] <==> in_top(es, j)),
            keep == (|x: int| stays_visible(es, x)),
            visible@ == pick(es.take(i as int), keep, true),
            folded@ == pick(es.take(i as int), keep, false),
            folded_size == sum(sizes(folded@)),
            sum(sizes(folded@)) <= sum(sizes(es.take(i as int))),
            sum(sizes(es)) <= u64::MAX,
        decreases n - i,
    {
        let e = &entries[i];
        let show = small || flags[i] || (major && 20 * (e.size as u128) >= s as u128);
        assert(show == keep(i as int));
        assert(es.take(i + 1).drop_last() == es.take(i as int));
        assert(es.take(i + 1).last() == es[i as int]);
        proof {
            lemma_pick_sum(es.take(i + 1), keep, false);
            lemma_sum_prefix(sizes(es), i + 1);
            assert(sizes(es).take(i + 1) == sizes(es.take(i + 1)));
        }
        if show {
            visible.push(clone_entry(e));
        } else {
            let ghost before = folded@;
            folded.push(clone_entry(e));
            assert(sizes(folded@).drop_last() == sizes(before));
            folded_size = folded_size + e.size as u128;
        }
        i += 1;
    }
    assert(es.take(n as int) == es);
    CompactedEntries {
        distribution: kind,
        spread: Spread { count: n as u64, total: s, sum_squares: q, top20: top },
        visible,
        folded,
        folded_size: folded_size as u64,
    }
}

/// `f` is the integer part of `sqrt(num / den)`.
pub open spec fn is_floor_root(f: nat, num: nat, den: nat) -> bool {
    f * f * den <= num && num < (f + 1) * (f + 1) * den
}

/// The integer part of `sqrt(num / den)`.
pub open spec fn floor_root(num: nat, den: nat) -> nat {
    choose|f: nat| is_floor_root(f, num, den)
}

/// `sqrt(num / den)` rounded to the nearest integer, ties to the even neighbour.
pub open spec fn round_root(num: nat, den: nat) -> nat {
    let f = floor_root(num, den);
    let c = (2 * f + 1) * (2 * f + 1) * den;
    if 4 * num > c {
        f + 1
    } else if 4 * num < c {
        f
    } else if f % 2 == 0 {
        f
    } else {
        f + 1
    }
}

/// The coefficient of variation of `n` sizes with sum `s` and sum of squares `q`, in
/// ten-thousandths, rounded to nearest (0 when the sum is 0).
pub open spec fn cv_units(n: nat, s: nat, q: nat) -> nat {
    if s == 0 {
        0
    } else {
        round_root(100_000_000 * (if n * q >= s * s { (n * q - s * s) as nat } else { 0 }), s * s)
    }
}

/// The coefficient of variation with four decimals.
pub open spec fn cv_text(sp: Spread) -> Seq<char> {
    fixed(cv_units(sp.count as nat, sp.total as nat, sp.sum_squares as nat), 4)
}

/// The share of the total held by the 20 largest entries, with four decimals.
pub open spec fn coverage_text(sp: Spread) -> Seq<char> {
    ratio_text(sp.top20 as nat, sp.total as nat, 4)
}

/// The integer part of a square root is unique.
pub proof fn lemma_floor_root_unique(f: nat, num: nat, den: nat)
    requires
        is_floor_root(f, num, den),
    ensures
        floor_root(num, den) == f,
{
    let g = floor_root(num, den);
    assert(is_floor_root(g, num, den));
    if g < f {
        assert((g + 1) * (g + 1) * den <= f * f * den) by (nonlinear_arith)
            requires
                g + 1 <= f,
        ;
    } else if f < g {
        assert((f + 1) * (f + 1) * den <= g * g * den) by (nonlinear_arith)
            requires
                f + 1 <= g,
        ;
    }
}

impl Spread {
    /// The coefficient of variation in ten-thousandths.
    pub fn cv_units(&self) -> (k: u64)
        requires
            self.sum_squares <= self.total as int * self.total as int,
        ensures
            k == cv_units(self.count as nat, self.total as nat, self.sum_squares as nat),
    {
        let n = self.count;
        let s = self.total;
        let q = self.sum_squares;
        if s == 0 {
            return 0;
        }
        proof {
            lemma_b128();
        }
        assert((s as u128) * (s as u128) <= u128::MAX) by (nonlinear_arith)
            requires
                s <= u64::MAX,
        ;
        let ss: u128 = (s as u128) * (s as u128);
        let nq = mul_wide(n as u128, q);
        let ghost dv: int = if n * q >= s * s { n * q - s * s } else { 0 };
        let d = if le_wide(crate::wide::from_u128(ss), nq) {
            sub_wide(nq, crate::wide::from_u128(ss))
        } else {
            crate::wide::from_u128(0)
        };
        assert(d.val() == dv);
        assert(dv <= n * (s * s)) by (nonlinear_arith)
            requires
                q <= s * s,
                dv == if n * q >= s * s { n * q - s * s } else { 0 },
                n >= 0,
        ;
        assert(100_000_000 * dv < b128() * b128()) by (nonlinear_arith)
            requires
                dv <= n * (s * s),
                n <= u64::MAX,
                s <= u64::MAX,
                dv >= 0,
                b128() == 0x1_0000_0000_0000_0000 * 0x1_0000_0000_0000_0000,
        ;
        let big = mul_small(d, 100_000_000);
        let mut lo: u128 = 0;
        let mut hi: u128 = 0x8000_0000_0000;
        assert(big.val() < hi * hi * ss) by (nonlinear_arith)
            requires
                big.val() == 100_000_000 * dv,
                dv <= n * (s * s),
                n <= u64::MAX,
                ss == s * s,
                s > 0,
                hi == 0x8000_0000_0000,
        ;
        assert(lo * lo * ss == 0) by (nonlinear_arith)
            requires
                lo == 0,
        ;
        assert(big.val() >= 0) by (nonlinear_arith)
            requires
                big.val() == big.hi * b128() + big.lo,
                b128() == 0x1_0000_0000_0000_0000 * 0x1_0000_0000_0000_0000,
        ;
        while hi - lo > 1
            invariant
                lo < hi <= 0x8000_0000_0000,
                lo * lo * ss <= big.val(),
                big.val() < hi * hi * ss,
                ss == s * s,
                s > 0,
            decreases hi - lo,
        {
            let mid = lo + (hi - lo) / 2;
            assert(mid * mid <= 0x8000_0000_0000 * 0x8000_0000_0000) by (nonlinear_arith)
                requires
                    mid < 0x8000_0000_0000,
            ;
            let sq = mul_wide(mid * mid, ss);
            if le_wide(sq, big) {
                lo = mid;
            } else {
                hi = mid;
            }
        }
        let f = lo;
        assert(is_floor_root(f as nat, big.val() as nat, ss as nat));
        proof {
            lemma_floor_root_unique(f as nat, big.val() as nat, ss as nat);
        }
        assert((2 * f + 1) * (2 * f + 1) <= 0x1_0000_0000_0000 * 0x1_0000_0000_0000) by (nonlinear_arith)
            requires
                f < 0x8000_0000_0000,
        ;
        let c = mul_wide((2 * f + 1) * (2 * f + 1), ss);
        assert(4 * big.val() < b128() * b128()) by (nonlinear_arith)
            requires
                big.val() < 0x8000_0000_0000 * 0x8000_0000_0000 * ss,
                ss <= u128::MAX,
                b128() == 0x1_0000_0000_0000_0000 * 0x1_0000_0000_0000_0000,
        ;
        let four = mul_small(big, 4);
        let k: u128 = if !le_wide(four, c) {
            f + 1
        } else if !le_wide(c, four) {
            f
        } else if f % 2 == 0 {
            f
        } else {
            f + 1
        };
        k as u64
    }

    /// Appends the coefficient of variation with four decimals.
    pub fn push_cv(&self, out: &mut String)
        requires
            self.sum_squares <= self.total as int * self.total as int,
        ensures
            final(out)@ == old(out)@ + cv_text(*self),
    {
        let k = self.cv_units();
        push_fixed(out, k as u128, 4);
    }

    /// Appends the share held by the 20 largest entries with four decimals.
    pub fn push_coverage(&self, out: &mut String)
        requires
            self.top20 <= 20 * 0x1_0000_0000_0000_0000,
        ensures
            final(out)@ == old(out)@ + coverage_text(*self),
    {
        push_ratio(out, self.top20, self.total as u128, 4);
    }
}

/// `folder` or `file`.
pub open spec fn kind_word(is_dir: bool) -> Seq<char> {
    if is_dir {
        "folder"@
    } else {
        "file"@
    }
}

/// The entry's name with `"` made `'`.
pub fn quoted_name(name: &String) -> (v: Vec<char>)
    ensures
        v@ == quote_safe(name@),
{
    let quote: Vec<char> = vec!['"'];
    let apos: Vec<char> = vec!['\''];
    assert(quote@ =~= seq!['"']);
    assert(apos@ =~= seq!['\'']);
    replace_exec(&chars_of(name.as_str()), &quote, &apos)
}

/// One major item of a diagnostic document.
pub open spec fn major_item_text(rank: nat, e: ScanEntry, total: nat) -> Seq<char> {
    "- rank: "@ + dec(rank) + "\n  path: \""@ + e.path@ + "\"\n  name: \""@ + quote_safe(e.name@)
        + "\"\n  kind: "@ + kind_word(e.is_dir) + "\n  size: \""@ + size_text(e.size as nat)
        + "\"\n  size_bytes: "@ + dec(e.size as nat) + "\n  percent_of_scope: "@ + ratio_text(
        e.size as nat,
        total,
        4,
    ) + "\n  files: "@ + dec(e.file_count as nat) + "\n  folders: "@ + dec(e.folder_count as nat)
        + "\n"@
}

/// The major items, ranked from 1 in list order.
pub open spec fn major_items_text(vis: Seq<ScanEntry>, total: nat) -> Seq<char>
    decreases vis.len(),
{
    if vis.len() == 0 {
        Seq::empty()
    } else {
        major_items_text(vis.drop_last(), total) + major_item_text(vis.len(), vis.last(), total)
    }
}

/// One folded sample of a diagnostic document.
pub open spec fn sample_text(e: ScanEntry) -> Seq<char> {
    "  - sample_path: \""@ + e.path@ + "\"\n    sample_size: \""@ + size_text(e.size as nat) + "\"\n"@
}

/// The folded samples.
pub open spec fn samples_text(fs: Seq<ScanEntry>) -> Seq<char>
    decreases fs.len(),
{
    if fs.len() == 0 {
        Seq::empty()
    } else {
        samples_text(fs.drop_last()) + sample_text(fs.last())
    }
}

/// The entries shown for a list.
pub open spec fn visible_of(es: Seq<ScanEntry>) -> Seq<ScanEntry> {
    pick(es, |i: int| stays_visible(es, i), true)
}

/// The entries folded away for a list.
pub open spec fn folded_of(es: Seq<ScanEntry>) -> Seq<ScanEntry> {
    pick(es, |i: int| stays_visible(es, i), false)
}

/// The head of a diagnostic document, up to the major items.
pub open spec fn diagnostic_head(root: Seq<char>, es: Seq<ScanEntry>, mode: Seq<char>) -> Seq<char> {
    let sp = spread_of(es);
    let fl = folded_text(folded_of(es).len(), sum(sizes(folded_of(es))));
    "# Disk Diagnostic Tree\n\n```yaml\ntype: disk_diagnostic_tree\nroot: \""@ + root
        + "\"\nscan_mode: \""@ + mode + "\"\nitem_count: "@ + dec(es.len()) + "\ntotal_size: \""@
        + size_text(sum(sizes(es))) + "\"\ncoefficient_of_variation: "@ + cv_text(sp)
        + "\ntop20_coverage: "@ + coverage_text(sp) + "\ndistribution: \""@ + distribution_text(
        distribution_of(es),
    ) + "\"\nfolded_summary: \""@ + fl
        + "\"\npriority_rule: \"设置转移 > 设置自动清理 > 设置关闭生成 > 卸载占用程序 > 暴力删除\"\n```\n\n## major_items\n\n"@
}

/// The diagnostic document of a list of entries before any cut: statistics, the major
/// items and a summary of the folded ones.
pub open spec fn diagnostic_raw(root: Seq<char>, es: Seq<ScanEntry>, mode: Seq<char>) -> Seq<char> {
    diagnostic_head(root, es, mode) + major_items_text(visible_of(es), sum(sizes(es)))
        + folded_part_text(folded_of(es))
}

/// The diagnostic document of a list of entries, cut to the byte limit.
pub open spec fn diagnostic_doc(root: Seq<char>, es: Seq<ScanEntry>, mode: Seq<char>) -> Seq<char> {
    truncated_doc(diagnostic_raw(root, es, mode))
}

/// Appends one major item.
#[verifier::spinoff_prover]
#[verifier::rlimit(40)]
fn push_major_item(out: &mut String, rank: usize, e: &ScanEntry, total: u64)
    ensures
        final(out)@ == old(out)@ + major_item_text(rank as nat, *e, total as nat),
{
    push_str(out, "- rank: ");
    push_dec(out, rank as u128);
    push_str(out, "\n  path: \"");
    push_str(out, e.path.as_str());
    push_str(out, "\"\n  name: \"");
    let nm = quoted_name(&e.name);
    push_chars(out, &nm);
    push_str(out, "\"\n  kind: ");
    if e.is_dir {
        push_str(out, "folder");
    } else {
        push_str(out, "file");
    }
    push_str(out, "\n  size: \"");
    let z = format_size(e.size);
    push_str(out, z.as_str());
    push_str(out, "\"\n  size_bytes: ");
    push_dec(out, e.size as u128);
    push_str(out, "\n  percent_of_scope: ");
    push_ratio(out, e.size as u128, total as u128, 4);
    push_str(out, "\n  files: ");
    push_dec(out, e.file_count as u128);
    push_str(out, "\n  folders: ");
    push_dec(out, e.folder_count as u128);
    push_str(out, "\n");
}

/// Appends one folded sample.
fn push_sample(out: &mut String, e: &ScanEntry)
    ensures
        final(out)@ == old(out)@ + sample_text(*e),
{
    push_str(out, "  - sample_path: \"");
    push_str(out, e.path.as_str());
    push_str(out, "\"\n    sample_size: \"");
    let z = format_size(e.size);
    push_str(out, z.as_str());
    push_str(out, "\"\n");
}

/// The head of the diagnostic document of `entries`, given their compacted form.
fn diagnostic_head_string(root: &str, entries: &Vec<ScanEntry>, scan_mode: &str, c: &CompactedEntries) -> (doc: String)
    requires
        sum(sizes(entries@)) <= u64::MAX,
        c.distribution == distribution_of(entries@),
        c.spread == spread_of(entries@),
        c.folded@ == folded_of(entries@),
        c.folded_size == sum(sizes(c.folded@)),
    ensures
        doc@ == diagnostic_head(root@, entries@, scan_mode@),
{
    let ghost es = entries@;
    let sp = c.spread;
    proof {
        lemma_sum_sq_bound(sizes(es));
        lemma_top_bound(es);
    }
    let mut doc = String::new();
    push_str(&mut doc, "# Disk Diagnostic Tree\n\n```yaml\ntype: disk_diagnostic_tree\nroot: \"");
    push_str(&mut doc, root);
    push_str(&mut doc, "\"\nscan_mode: \"");
    push_str(&mut doc, scan_mode);
    push_str(&mut doc, "\"\nitem_count: ");
    push_dec(&mut doc, entries.len() as u128);
    push_str(&mut doc, "\ntotal_size: \"");
    let z = format_size(sp.total);
    push_str(&mut doc, z.as_str());
    push_str(&mut doc, "\"\ncoefficient_of_variation: ");
    sp.push_cv(&mut doc);
    push_str(&mut doc, "\ntop20_coverage: ");
    sp.push_coverage(&mut doc);
    push_str(&mut doc, "\ndistribution: \"");
    push_str(&mut doc, distribution_name(c.distribution));
    push_str(&mut doc, "\"\nfolded_summary: \"");
    let fl = folded_label(c.folded.len(), c.folded_size);
    push_str(&mut doc, fl.as_str());
    push_str(
        &mut doc,
        "\"\npriority_rule: \"设置转移 > 设置自动清理 > 设置关闭生成 > 卸载占用程序 > 暴力删除\"\n```\n\n## major_items\n\n",
    );
    doc
}

/// Appends the major items, ranked from 1 in list order.
fn push_major_items(doc: &mut String, vis: &Vec<ScanEntry>, total: u64)
    ensures
        final(doc)@ == old(doc)@ + major_items_text(vis@, total as nat),
{
    let ghost head = doc@;
    let mut i: usize = 0;
    while i < vis.len()
        invariant
            i <= vis.len(),
            doc@ == head + major_items_text(vis@.take(i as int), total as nat),
        decreases vis.len() - i,
    {
        assert(vis@.take(i + 1).drop_last() == vis@.take(i as int));
        push_major_item(doc, i + 1, &vis[i], total);
        i += 1;
    }
    assert(vis@.take(vis.len() as int) == vis@);
}

/// The folded group of a diagnostic document and up to 20 samples of it.
pub open spec fn folded_part_text(fs: Seq<ScanEntry>) -> Seq<char> {
    let fsize = sum(sizes(fs));
    "\n## folded_items\n\nfolded_items:\n"@ + "- label: \""@ + folded_text(fs.len(), fsize)
        + "\"\n  count: "@ + dec(fs.len()) + "\n  size: \""@ + size_text(fsize) + "\"\n  size_bytes: "@
        + dec(fsize) + "\n  reason: \"small_or_tail_items_folded_for_readability\"\n"@ + samples_text(
        if fs.len() <= 20 {
            fs
        } else {
            fs.take(20)
        },
    )
}

/// Appends the folded group and up to 20 samples of it.
fn push_folded_part(doc: &mut String, fs: &Vec<ScanEntry>, fsize: u64)
    requires
        fsize == sum(sizes(fs@)),
    ensures
        final(doc)@ == old(doc)@ + folded_part_text(fs@),
{
    let ghost start = doc@;
    push_str(doc, "\n## folded_items\n\nfolded_items:\n");
    push_str(doc, "- label: \"");
    let fl = folded_label(fs.len(), fsize);
    push_str(doc, fl.as_str());
    push_str(doc, "\"\n  count: ");
    push_dec(doc, fs.len() as u128);
    push_str(doc, "\n  size: \"");
    let fz = format_size(fsize);
    push_str(doc, fz.as_str());
    push_str(doc, "\"\n  size_bytes: ");
    push_dec(doc, fsize as u128);
    push_str(doc, "\n  reason: \"small_or_tail_items_folded_for_readability\"\n");
    let ghost before_samples = doc@;
    let m = if fs.len() <= 20 {
        fs.len()
    } else {
        20
    };
    let mut j: usize = 0;
    while j < m
        invariant
            j <= m <= fs.len(),
            doc@ == before_samples + samples_text(fs@.take(j as int)),
        decreases m - j,
    {
        assert(fs@.take(j + 1).drop_last() == fs@.take(j as int));
        push_sample(doc, &fs[j]);
        j += 1;
    }
    assert(fs@.take(m as int) == if fs@.len() <= 20 {
        fs@
    } else {
        fs@.take(20)
    });
}

/// The diagnostic document of one list of entries, before any cut.
fn diagnostic_raw_string(root: &str, entries: &Vec<ScanEntry>, scan_mode: &str) -> (doc: String)
    requires
        sum(sizes(entries@)) <= u64::MAX,
    ensures
        doc@ == diagnostic_raw(root@, entries@, scan_mode@),
{
    let c = compact_scan_entries(entries);
    let mut doc = diagnostic_head_string(root, entries, scan_mode, &c);
    push_major_items(&mut doc, &c.visible, c.spread.total);
    push_folded_part(&mut doc, &c.folded, c.folded_size);
    doc
}

/// The diagnostic document handed to the AI for one list of entries.
pub fn format_diagnostic_tree_rag(root: &str, entries: &Vec<ScanEntry>, scan_mode: &str) -> (doc:
    String)
    requires
        sum(sizes(entries@)) <= u64::MAX,
        cut_ok(diagnostic_raw(root@, entries@, scan_mode@)),
    ensures
        doc@ == diagnostic_doc(root@, entries@, scan_mode@),
{
    truncate_doc(diagnostic_raw_string(root, entries, scan_mode))
}

/// Whether the diagnostic document of a list of entries can be cut at the byte limit.
pub fn diagnostic_rag_fits(root: &str, entries: &Vec<ScanEntry>, scan_mode: &str) -> (b: bool)
    requires
        sum(sizes(entries@)) <= u64::MAX,
    ensures
        b == cut_ok(diagnostic_raw(root@, entries@, scan_mode@)),
{
    doc_cut_ok(&diagnostic_raw_string(root, entries, scan_mode))
}

/// The 20 largest entries weigh no more than twenty maximal sizes.
pub proof fn lemma_top_bound(es: Seq<ScanEntry>)
    ensures
        top_sum(es) <= 20 * 0x1_0000_0000_0000_0000,
{
    lemma_sum_at_bound(sizes(es), ranking(size_keys(es)), top_count(es.len()));
}

/// A sum over `t` places is at most `t` maximal sizes.
pub proof fn lemma_sum_at_bound(xs: Seq<u64>, o: Seq<usize>, t: int)
    requires
        t <= 20,
    ensures
        sum_at(xs, o, t) <= 20 * 0x1_0000_0000_0000_0000,
        sum_at(xs, o, t) <= (if t > 0 { t } else { 0 }) * 0x1_0000_0000_0000_0000,
    decreases t,
{
    if t > 0 && t <= o.len() {
        lemma_sum_at_bound(xs, o, t - 1);
    }
}

/// A name with `|` written `\|`, so that it stays inside its table cell.
pub open spec fn cell_safe(s: Seq<char>) -> Seq<char> {
    crate::text::replace_all(s, seq!['|'], seq!['\\', '|'])
}

/// The name of an entry in a table cell.
pub fn cell_name(name: &String) -> (v: Vec<char>)
    ensures
        v@ == cell_safe(name@),
{
    let bar: Vec<char> = vec!['|'];
    let esc: Vec<char> = vec!['\\', '|'];
    assert(bar@ =~= seq!['|']);
    assert(esc@ =~= seq!['\\', '|']);
    replace_exec(&chars_of(name.as_str()), &bar, &esc)
}

/// The head of a current-level snapshot, up to the table's header rows.
pub open spec fn level_head(root: Seq<char>, es: Seq<ScanEntry>) -> Seq<char> {
    "# 目录结构快照（当前层级）\n\n```yaml\ntype: directory_snapshot\nroot: \""@ + root
        + "\"\nchild_count: "@ + dec(es.len()) + "\naggregated_size: \""@ + size_text(sum(sizes(es)))
        + "\"\nscan_mode: current_level_only\n```\n\n## 直接子项明细\n\n| 名称 | 类型 | 大小 | 占用空间 | 文件数 | 文件夹数 | 占比 | 路径 |\n|------|------|------|----------|--------|----------|------|------|\n"@
}

/// One table row of a current-level snapshot.
pub open spec fn level_row(e: ScanEntry) -> Seq<char> {
    "| "@ + cell_safe(e.name@) + " | "@ + kind_word(e.is_dir) + " | "@ + size_text(e.size as nat)
        + " | "@ + size_text(e.allocated as nat) + " | "@ + dec(e.file_count as nat) + " | "@ + dec(
        e.folder_count as nat,
    ) + " | "@ + percent_text(e.percent, 2) + "% | "@ + e.path@ + " |\n"@
}

/// The table rows of a current-level snapshot.
pub open spec fn level_rows(es: Seq<ScanEntry>) -> Seq<char>
    decreases es.len(),
{
    if es.len() == 0 {
        Seq::empty()
    } else {
        level_rows(es.drop_last()) + level_row(es.last())
    }
}

/// `文件夹` or `文件`.
pub open spec fn kind_word_zh(is_dir: bool) -> Seq<char> {
    if is_dir {
        "文件夹"@
    } else {
        "文件"@
    }
}

/// One line of the text summary: `{rank}. [{kind}] {name} — {size} ({percent}%)`.
pub open spec fn summary_line(rank: nat, e: ScanEntry) -> Seq<char> {
    dec(rank) + ". ["@ + kind_word_zh(e.is_dir) + "] "@ + e.name@ + " — "@ + size_text(e.size as nat)
        + " ("@ + percent_text(e.percent, 2) + "%)\n"@
}

/// The summary lines of the listed entries, ranked from 1.
pub open spec fn summary_lines(es: Seq<ScanEntry>) -> Seq<char>
    decreases es.len(),
{
    if es.len() == 0 {
        Seq::empty()
    } else {
        summary_lines(es.drop_last()) + summary_line(es.len(), es.last())
    }
}

/// The snapshot of one folder level before any cut: a header, a table of every entry and a
/// summary of the first 15.
pub open spec fn level_raw(root: Seq<char>, es: Seq<ScanEntry>) -> Seq<char> {
    level_head(root, es) + level_rows(es) + "\n## 按大小 Top 子项（文本摘要）\n\n"@ + summary_lines(
        if es.len() <= 15 {
            es
        } else {
            es.take(15)
        },
    )
}

/// The snapshot of one folder level, cut to the byte limit.
pub open spec fn level_doc(root: Seq<char>, es: Seq<ScanEntry>) -> Seq<char> {
    truncated_doc(level_raw(root, es))
}

/// The rows of the first `k + 1` entries are the rows of the first `k` followed by that of
/// entry `k`, and they open the rows of the whole list.
pub proof fn lemma_level_rows_prefix(es: Seq<ScanEntry>, k: int)
    requires
        0 <= k < es.len(),
    ensures
        (level_rows(es.take(k)) + level_row(es[k])).is_prefix_of(level_rows(es)),
    decreases es.len(),
{
    let a = level_rows(es.take(k)) + level_row(es[k]);
    if k == es.len() - 1 {
        assert(es.take(k) == es.drop_last());
        assert(a == level_rows(es));
    } else {
        lemma_level_rows_prefix(es.drop_last(), k);
        assert(es.drop_last().take(k) == es.take(k));
        assert(es.drop_last()[k] == es[k]);
        let b = level_rows(es.drop_last());
        assert(level_rows(es) == b + level_row(es.last()));
        assert(level_rows(es).subrange(0, a.len() as int) =~= b.subrange(0, a.len() as int));
    }
}

/// Every entry of a current-level snapshot has its own table row, in list order after the
/// header: its name, its kind, then under 大小 the size text of its size and under 占用空间
/// the size text of its allocated space.
pub proof fn lemma_level_row_cells(root: Seq<char>, es: Seq<ScanEntry>, k: int)
    requires
        0 <= k < es.len(),
    ensures
        ({
            let doc = level_raw(root, es);
            let at = (level_head(root, es).len() + level_rows(es.take(k)).len()) as int;
            let e = es[k];
            &&& doc.subrange(at, (at + level_row(e).len()) as int) == level_row(e)
            &&& ("| "@ + cell_safe(e.name@) + " | "@ + kind_word(e.is_dir) + " | "@ + size_text(e.size as nat)
                + " | "@ + size_text(e.allocated as nat) + " | "@).is_prefix_of(level_row(e))
        }),
{
    let e = es[k];
    lemma_level_rows_prefix(es, k);
    let head = level_head(root, es);
    let rows = level_rows(es);
    let a = level_rows(es.take(k));
    let doc = level_raw(root, es);
    let at = (head.len() + a.len()) as int;
    assert(doc.subrange(at, (at + level_row(e).len()) as int) =~= rows.subrange(a.len() as int, (a.len() + level_row(e).len()) as int));
    assert(rows.subrange(a.len() as int, (a.len() + level_row(e).len()) as int) =~= (a + level_row(e)).subrange(
        a.len() as int,
        (a.len() + level_row(e).len()) as int,
    ));
    let p = "| "@ + cell_safe(e.name@) + " | "@ + kind_word(e.is_dir) + " | "@ + size_text(e.size as nat) + " | "@
        + size_text(e.allocated as nat) + " | "@;
    assert(level_row(e).subrange(0, p.len() as int) =~= p);
}

/// Appends one table row of a current-level snapshot.
fn push_level_row(out: &mut String, e: &ScanEntry)
    ensures
        final(out)@ == old(out)@ + level_row(*e),
{
    push_str(out, "| ");
    let nm = cell_name(&e.name);
    push_chars(out, &nm);
    push_str(out, " | ");
    if e.is_dir {
        push_str(out, "folder");
    } else {
        push_str(out, "file");
    }
    push_str(out, " | ");
    let z = format_size(e.size);
    push_str(out, z.as_str());
    push_str(out, " | ");
    let a = format_size(e.allocated);
    push_str(out, a.as_str());
    push_str(out, " | ");
    push_dec(out, e.file_count as u128);
    push_str(out, " | ");
    push_dec(out, e.folder_count as u128);
    push_str(out, " | ");
    push_percent(out, e.percent, 2);
    push_str(out, "% | ");
    push_str(out, e.path.as_str());
    push_str(out, " |\n");
}

/// Appends one summary line.
fn push_summary_line(out: &mut String, rank: usize, e: &ScanEntry)
    ensures
        final(out)@ == old(out)@ + summary_line(rank as nat, *e),
{
    push_dec(out, rank as u128);
    push_str(out, ". [");
    if e.is_dir {
        push_str(out, "文件夹");
    } else {
        push_str(out, "文件");
    }
    push_str(out, "] ");
    push_str(out, e.name.as_str());
    push_str(out, " — ");
    let z = format_size(e.size);
    push_str(out, z.as_str());
    push_str(out, " (");
    push_percent(out, e.percent, 2);
    push_str(out, "%)\n");
}

/// The snapshot of one folder level, before any cut.
fn level_raw_string(root: &str, entries: &Vec<ScanEntry>) -> (doc: String)
    requires
        sum(sizes(entries@)) <= u64::MAX,
    ensures
        doc@ == level_raw(root@, entries@),
{
    let ghost es = entries@;
    let (total, _) = size_sums(entries);
    let mut doc = String::new();
    push_str(&mut doc, "# 目录结构快照（当前层级）\n\n```yaml\ntype: directory_snapshot\nroot: \"");
    push_str(&mut doc, root);
    push_str(&mut doc, "\"\nchild_count: ");
    push_dec(&mut doc, entries.len() as u128);
    push_str(&mut doc, "\naggregated_size: \"");
    let z = format_size(total);
    push_str(&mut doc, z.as_str());
    push_str(
        &mut doc,
        "\"\nscan_mode: current_level_only\n```\n\n## 直接子项明细\n\n| 名称 | 类型 | 大小 | 占用空间 | 文件数 | 文件夹数 | 占比 | 路径 |\n|------|------|------|----------|--------|----------|------|------|\n",
    );
    let ghost head = doc@;
    let mut i: usize = 0;
    while i < entries.len()
        invariant
            i <= es.len(),
            es == entries@,
            doc@ == head + level_rows(es.take(i as int)),
        decreases es.len() - i,
    {
        assert(es.take(i + 1).drop_last() == es.take(i as int));
        push_level_row(&mut doc, &entries[i]);
        i += 1;
    }
    assert(es.take(es.len() as int) == es);
    push_str(&mut doc, "\n## 按大小 Top 子项（文本摘要）\n\n");
    let ghost mid = doc@;
    let m = if entries.len() <= 15 {
        entries.len()
    } else {
        15
    };
    let mut j: usize = 0;
    while j < m
        invariant
            j <= m <= es.len(),
            es == entries@,
            doc@ == mid + summary_lines(es.take(j as int)),
        decreases m - j,
    {
        assert(es.take(j + 1).drop_last() == es.take(j as int));
        push_summary_line(&mut doc, j + 1, &entries[j]);
        j += 1;
    }
    assert(es.take(m as int) == if es.len() <= 15 {
        es
    } else {
        es.take(15)
    });
    doc
}

/// The snapshot of the current folder level handed to the AI.
pub fn format_current_level_rag(root: &str, entries: &Vec<ScanEntry>) -> (doc: String)
    requires
        sum(sizes(entries@)) <= u64::MAX,
        cut_ok(level_raw(root@, entries@)),
    ensures
        doc@ == level_doc(root@, entries@),
{
    truncate_doc(level_raw_string(root, entries))
}

/// Whether the snapshot of one folder level can be cut at the byte limit.
pub fn current_level_rag_fits(root: &str, entries: &Vec<ScanEntry>) -> (b: bool)
    requires
        sum(sizes(entries@)) <= u64::MAX,
    ensures
        b == cut_ok(level_raw(root@, entries@)),
{
    doc_cut_ok(&level_raw_string(root, entries))
}

/// The entries of the children of a node, in order.
pub open spec fn node_entries(n: ScanNode) -> Seq<ScanEntry> {
    Seq::new(n.children@.len(), |i: int| n.children@[i].entry)
}

/// Child `i` of `n` is a folder shown among the major items of `n`'s diagnostic document
/// (found by its path).
pub open spec fn shown_dir(n: ScanNode, i: int) -> bool {
    let vis = visible_of(node_entries(n));
    let c = n.children@[i].entry;
    c.is_dir && exists|v: int| 0 <= v < vis.len() && vis[v].is_dir && vis[v].path@ == c.path@
}

/// The positions of the shown folders among the first `k` children, in order.
pub open spec fn shown_upto(n: ScanNode, k: int) -> Seq<usize>
    decreases k,
{
    if k <= 0 {
        Seq::empty()
    } else if shown_dir(n, k - 1) {
        shown_upto(n, k - 1).push((k - 1) as usize)
    } else {
        shown_upto(n, k - 1)
    }
}

/// The shown folders of `n` ordered larger first (ties in child order).
pub open spec fn shown_keys(n: ScanNode) -> Seq<LargestFirst> {
    let cand = shown_upto(n, n.children@.len() as int);
    Seq::new(cand.len(), |j: int| LargestFirst(n.children@[cand[j] as int].entry.size))
}

/// The children whose own scopes follow `n`'s: the 8 largest shown folders.
pub open spec fn selected(n: ScanNode) -> Seq<usize> {
    let cand = shown_upto(n, n.children@.len() as int);
    let o = ranking(shown_keys(n));
    Seq::new(if cand.len() <= 8 { cand.len() } else { 8 }, |k: int| cand[o[k] as int])
}

/// The shown positions lie within the children.
pub proof fn lemma_shown_upto(n: ScanNode, k: int)
    requires
        0 <= k <= n.children@.len(),
    ensures
        shown_upto(n, k).len() <= k,
        forall|j: int| 0 <= j < shown_upto(n, k).len() ==> #[trigger] shown_upto(n, k)[j] < k,
    decreases k,
{
    if k > 0 {
        lemma_shown_upto(n, k - 1);
    }
}

/// Whether an entry is a folder shown among `vis`, found by its path.
fn shown_in(e: &ScanEntry, vis: &Vec<ScanEntry>) -> (b: bool)
    ensures
        b == (e.is_dir && exists|v: int| 0 <= v < vis@.len() && vis@[v].is_dir && vis@[v].path@ == e.path@),
{
    if !e.is_dir {
        return false;
    }
    let mut v: usize = 0;
    while v < vis.len()
        invariant
            v <= vis@.len(),
            e.is_dir,
            forall|u: int| 0 <= u < v ==> !(vis@[u].is_dir && #[trigger] vis@[u].path@ == e.path@),
        decreases vis@.len() - v,
    {
        if vis[v].is_dir && vis[v].path == e.path {
            assert(vis@[v as int].is_dir && vis@[v as int].path@ == e.path@);
            return true;
        }
        v += 1;
    }
    false
}

/// The children whose own scopes follow a node's.
fn selected_children(node: &ScanNode, vis: &Vec<ScanEntry>) -> (sel: Vec<usize>)
    requires
        vis@ == visible_of(node_entries(*node)),
    ensures
        sel@ == selected(*node),
        forall|k: int| 0 <= k < sel@.len() ==> #[trigger] sel@[k] < node.children@.len(),
{
    let ghost n = *node;
    let mut cand: Vec<usize> = Vec::new();
    let mut i: usize = 0;
    while i < node.children.len()
        invariant
            i <= n.children@.len(),
            n == *node,
            vis@ == visible_of(node_entries(n)),
            cand@ == shown_upto(n, i as int),
        decreases n.children@.len() - i,
    {
        if shown_in(&node.children[i].entry, vis) {
            cand.push(i);
        }
        i += 1;
    }
    proof {
        lemma_shown_upto(n, n.children@.len() as int);
    }
    let mut keys: Vec<LargestFirst> = Vec::new();
    let mut j: usize = 0;
    while j < cand.len()
        invariant
            j <= cand@.len(),
            cand@ == shown_upto(n, n.children@.len() as int),
            forall|x: int| 0 <= x < cand@.len() ==> #[trigger] cand@[x] < n.children@.len(),
            n == *node,
            keys@ == shown_keys(n).take(j as int),
        decreases cand@.len() - j,
    {
        keys.push(LargestFirst(node.children[cand[j]].entry.size));
        assert(keys@ == shown_keys(n).take(j + 1));
        j += 1;
    }
    assert(keys@ == shown_keys(n));
    let order = rank(&keys);
    proof {
        lemma_is_the_ranking(keys@, order@);
    }
    let m = if cand.len() <= 8 {
        cand.len()
    } else {
        8
    };
    let mut sel: Vec<usize> = Vec::new();
    let mut k: usize = 0;
    while k < m
        invariant
            k <= m <= cand@.len() == order@.len(),
            m == (if cand@.len() <= 8 { cand@.len() } else { 8 }),
            cand@ == shown_upto(n, n.children@.len() as int),
            forall|x: int| 0 <= x < cand@.len() ==> #[trigger] cand@[x] < n.children@.len(),
            is_ranking(shown_keys(n), order@),
            order@ == ranking(shown_keys(n)),
            sel@ == selected(n).take(k as int),
            forall|x: int| 0 <= x < sel@.len() ==> #[trigger] sel@[x] < n.children@.len(),
        decreases m - k,
    {
        sel.push(cand[order[k]]);
        assert(sel@ == selected(n).take(k + 1));
        k += 1;
    }
    assert(sel@ == selected(n));
    sel
}

/// Every node of a tree has children whose summed size fits in 64 bits.
pub open spec fn tree_sums_fit(n: ScanNode) -> bool
    decreases n,
{
    &&& sum(sizes(node_entries(n))) <= u64::MAX
    &&& forall|i: int| 0 <= i < n.children@.len() ==> tree_sums_fit(#[trigger] n.children@[i])
}

/// Whether every node of a tree has children whose summed size fits in 64 bits.
pub fn check_tree_sums(n: &ScanNode) -> (b: bool)
    ensures
        b == tree_sums_fit(*n),
    decreases n,
{
    let es = crate::scan::child_entries(n);
    if crate::scan::checked_size_sum(&es).is_none() {
        return false;
    }
    let mut i: usize = 0;
    while i < n.children.len()
        invariant
            i <= n.children@.len(),
            forall|j: int| 0 <= j < i ==> tree_sums_fit(#[trigger] n.children@[j]),
        decreases n.children@.len() - i,
    {
        assert(decreases_to!(*n => n.children@[i as int])) by {
            assert(decreases_to!(*n => n.children));
            assert(decreases_to!(n.children => n.children@));
            assert(decreases_to!(n.children@ => n.children@[i as int]));
        }
        if !check_tree_sums(&n.children[i]) {
            return false;
        }
        i += 1;
    }
    true
}

/// The document is over the byte limit.
pub open spec fn over_limit(doc: Seq<char>) -> bool {
    byte_len(doc) > MAX_DOC_BYTES
}

/// The header of one scope of the full-scan document.
pub open spec fn scope_header(depth: nat, path: Seq<char>) -> Seq<char> {
    "\n\n## tree_scope depth="@ + dec(depth) + " path=\""@ + path + "\"\n\n"@
}

/// Appending the scope of `n` (its diagnostic document) and then, one level deeper, those
/// of its selected children; nothing once no scope remains, past `max_depth`, or when the
/// document is already over the limit. Gives the document and the scopes left.
pub open spec fn scope(doc: Seq<char>, rem: nat, n: ScanNode, mode: Seq<char>, depth: nat, max_depth: nat) -> (Seq<char>, nat)
    decreases n, 1nat, 0int,
{
    if rem == 0 || depth > max_depth || over_limit(doc) {
        (doc, rem)
    } else {
        let d1 = doc + scope_header(depth, n.entry.path@) + diagnostic_doc(
            n.entry.path@,
            node_entries(n),
            mode,
        );
        if depth >= max_depth {
            (d1, (rem - 1) as nat)
        } else {
            scope_list(d1, (rem - 1) as nat, n, mode, depth + 1, max_depth, 0)
        }
    }
}

/// Appending the scopes of `n`'s selected children from the `k`-th on, stopping once no
/// scope remains or the document is over the limit.
pub open spec fn scope_list(doc: Seq<char>, rem: nat, n: ScanNode, mode: Seq<char>, depth: nat, max_depth: nat, k: nat) -> (Seq<char>, nat)
    decreases n, 0nat, selected(n).len() - k,
{
    let sel = selected(n);
    if k >= sel.len() || sel[k as int] >= n.children@.len() {
        (doc, rem)
    } else {
        let r = scope(doc, rem, n.children@[sel[k as int] as int], mode, depth, max_depth);
        if r.1 == 0 || over_limit(r.0) {
            r
        } else {
            scope_list(r.0, r.1, n, mode, depth, max_depth, k + 1)
        }
    }
}

/// Every scope that `scope` appends can be cut at the byte limit.
pub open spec fn scope_ok(doc: Seq<char>, rem: nat, n: ScanNode, mode: Seq<char>, depth: nat, max_depth: nat) -> bool
    decreases n, 1nat, 0int,
{
    if rem == 0 || depth > max_depth || over_limit(doc) {
        true
    } else {
        let d1 = doc + scope_header(depth, n.entry.path@) + diagnostic_doc(
            n.entry.path@,
            node_entries(n),
            mode,
        );
        &&& cut_ok(diagnostic_raw(n.entry.path@, node_entries(n), mode))
        &&& (depth >= max_depth || scope_list_ok(d1, (rem - 1) as nat, n, mode, depth + 1, max_depth, 0))
    }
}

/// Every scope that `scope_list` appends can be cut at the byte limit.
pub open spec fn scope_list_ok(doc: Seq<char>, rem: nat, n: ScanNode, mode: Seq<char>, depth: nat, max_depth: nat, k: nat) -> bool
    decreases n, 0nat, selected(n).len() - k,
{
    let sel = selected(n);
    if k >= sel.len() || sel[k as int] >= n.children@.len() {
        true
    } else {
        let c = n.children@[sel[k as int] as int];
        let r = scope(doc, rem, c, mode, depth, max_depth);
        &&& scope_ok(doc, rem, c, mode, depth, max_depth)
        &&& (r.1 == 0 || over_limit(r.0) || scope_list_ok(r.0, r.1, n, mode, depth, max_depth, k + 1))
    }
}

/// Appends the scope of a node and, below it, those of its selected children; stops with
/// `false` at a scope that cannot be cut at the byte limit.
#[verifier::spinoff_prover]
#[verifier::rlimit(60)]
fn append_scan_node_scope(doc: &mut String, node: &ScanNode, mode: &str, depth: u32, max_depth: u32, remaining: &mut usize) -> (ok: bool)
    requires
        tree_sums_fit(*node),
        max_depth < u32::MAX,
    ensures
        ok == scope_ok(old(doc)@, *old(remaining) as nat, *node, mode@, depth as nat, max_depth as nat),
        ok ==> (final(doc)@, *final(remaining) as nat) == scope(
            old(doc)@,
            *old(remaining) as nat,
            *node,
            mode@,
            depth as nat,
            max_depth as nat,
        ),
    decreases node,
{
    let ghost doc0 = doc@;
    let ghost rem0 = *remaining as nat;
    if *remaining == 0 || depth > max_depth || doc_len(doc) > MAX_DOC_BYTES as u128 {
        assert(scope(doc0, rem0, *node, mode@, depth as nat, max_depth as nat) == (doc0, rem0));
        return true;
    }
    let entries = crate::scan::child_entries(node);
    assert(entries@ == node_entries(*node));
    if !diagnostic_rag_fits(node.entry.path.as_str(), &entries, mode) {
        return false;
    }
    *remaining = *remaining - 1;
    push_str(doc, "\n\n## tree_scope depth=");
    push_dec(doc, depth as u128);
    push_str(doc, " path=\"");
    push_str(doc, node.entry.path.as_str());
    push_str(doc, "\"\n\n");
    let d = format_diagnostic_tree_rag(node.entry.path.as_str(), &entries, mode);
    push_str(doc, d.as_str());
    let ghost d1 = doc0 + scope_header(depth as nat, node.entry.path@) + diagnostic_doc(
        node.entry.path@,
        node_entries(*node),
        mode@,
    );
    assert(doc@ == d1);
    if depth >= max_depth {
        assert(scope(doc0, rem0, *node, mode@, depth as nat, max_depth as nat) == (d1, (rem0 - 1) as nat));
        return true;
    }
    assert(scope(doc0, rem0, *node, mode@, depth as nat, max_depth as nat) == scope_list(d1, (rem0 - 1) as nat, *node, mode@, (depth + 1) as nat, max_depth as nat, 0));
    assert(scope_ok(doc0, rem0, *node, mode@, depth as nat, max_depth as nat) == scope_list_ok(d1, (rem0 - 1) as nat, *node, mode@, (depth + 1) as nat, max_depth as nat, 0));
    let c = compact_scan_entries(&entries);
    let sel = selected_children(node, &c.visible);
    let ghost n = *node;
    let ghost target = scope_list(doc@, *remaining as nat, n, mode@, (depth + 1) as nat, max_depth as nat, 0);
    let ghost target_ok = scope_list_ok(doc@, *remaining as nat, n, mode@, (depth + 1) as nat, max_depth as nat, 0);
    let mut k: usize = 0;
    while k < sel.len()
        invariant_except_break
            k <= sel@.len(),
            n == *node,
            sel@ == selected(n),
            forall|x: int| 0 <= x < sel@.len() ==> #[trigger] sel@[x] < n.children@.len(),
            tree_sums_fit(n),
            depth < max_depth < u32::MAX,
            scope_list(doc@, *remaining as nat, n, mode@, (depth + 1) as nat, max_depth as nat, k as nat) == target,
            scope_list_ok(doc@, *remaining as nat, n, mode@, (depth + 1) as nat, max_depth as nat, k as nat) == target_ok,
            doc0 == old(doc)@,
            rem0 == *old(remaining) as nat,
            target_ok == scope_ok(doc0, rem0, n, mode@, depth as nat, max_depth as nat),
        ensures
            (doc@, *remaining as nat) == target,
            target_ok,
        decreases sel@.len() - k,
    {
        let j = sel[k];
        assert(decreases_to!(*node => node.children@[j as int])) by {
            assert(decreases_to!(*node => node.children));
            assert(decreases_to!(node.children => node.children@));
            assert(decreases_to!(node.children@ => node.children@[j as int]));
        }
        assert(tree_sums_fit(node.children@[j as int]));
        let ghost db = doc@;
        let ghost rb = *remaining as nat;
        if !append_scan_node_scope(doc, &node.children[j], mode, depth + 1, max_depth, remaining) {
            assert(!scope_list_ok(db, rb, n, mode@, (depth + 1) as nat, max_depth as nat, k as nat));
            return false;
        }
        if *remaining == 0 || doc_len(doc) > MAX_DOC_BYTES as u128 {
            break;
        }
        k += 1;
    }
    true
}

/// The head of the full-scan diagnostic document.
pub open spec fn full_scan_head(root: Seq<char>, mode: Seq<char>) -> Seq<char> {
    "# Full Scan Diagnostic Tree\n\n```yaml\ntype: disk_diagnostic_tree_full_scan\nroot: \""@ + root
        + "\"\nscan_mode: \""@ + mode + "\"\nsource: \"single_recursive_scan_tree_cache\"\n```\n\n"@
}

/// The diagnostic document of a whole scan tree before the final cut: the scopes of the
/// root and, down to depth 4, of the largest shown folders below it, at most 24 scopes.
pub open spec fn full_scan_raw(root: ScanNode, mode: Seq<char>) -> Seq<char> {
    scope(full_scan_head(root.entry.path@, mode), 24, root, mode, 0, 4).0
}

/// Every scope of the whole-tree document, and the document itself, can be cut at the byte
/// limit.
pub open spec fn full_scan_ok(root: ScanNode, mode: Seq<char>) -> bool {
    &&& scope_ok(full_scan_head(root.entry.path@, mode), 24, root, mode, 0, 4)
    &&& cut_ok(full_scan_raw(root, mode))
}

/// The diagnostic document of a whole scan tree, cut to the byte limit.
pub open spec fn full_scan_doc(root: ScanNode, mode: Seq<char>) -> Seq<char> {
    truncated_doc(full_scan_raw(root, mode))
}

/// The diagnostic document of a whole scan tree before the final cut, when every scope in
/// it can be cut.
fn full_scan_raw_string(root: &ScanNode, scan_mode: &str) -> (r: Option<String>)
    requires
        tree_sums_fit(*root),
    ensures
        r is Some == scope_ok(full_scan_head(root.entry.path@, scan_mode@), 24, *root, scan_mode@, 0, 4),
        r matches Some(doc) ==> doc@ == full_scan_raw(*root, scan_mode@),
{
    let mut doc = String::new();
    push_str(&mut doc, "# Full Scan Diagnostic Tree\n\n```yaml\ntype: disk_diagnostic_tree_full_scan\nroot: \"");
    push_str(&mut doc, root.entry.path.as_str());
    push_str(&mut doc, "\"\nscan_mode: \"");
    push_str(&mut doc, scan_mode);
    push_str(&mut doc, "\"\nsource: \"single_recursive_scan_tree_cache\"\n```\n\n");
    let mut remaining: usize = 24;
    if append_scan_node_scope(&mut doc, root, scan_mode, 0, 4, &mut remaining) {
        Some(doc)
    } else {
        None
    }
}

/// Whether the diagnostic document of a whole scan tree can be written: every scope in it,
/// and the document itself, can be cut at the byte limit.
pub fn scan_tree_rag_fits(root: &ScanNode, scan_mode: &str) -> (b: bool)
    requires
        tree_sums_fit(*root),
    ensures
        b == full_scan_ok(*root, scan_mode@),
{
    match full_scan_raw_string(root, scan_mode) {
        Some(doc) => doc_cut_ok(&doc),
        None => false,
    }
}

/// The diagnostic document of a whole scan tree handed to the AI.
pub fn format_scan_tree_diagnostic_rag(root: &ScanNode, scan_mode: &str) -> (doc: String)
    requires
        tree_sums_fit(*root),
        full_scan_ok(*root, scan_mode@),
    ensures
        doc@ == full_scan_doc(*root, scan_mode@),
{
    let raw = full_scan_raw_string(root, scan_mode);
    truncate_doc(raw.unwrap())
}

/// The positions of the first `k` children that are folders (`want_dir`) or files.
pub open spec fn kind_upto(n: ScanNode, want_dir: bool, k: int) -> Seq<usize>
    decreases k,
{
    if k <= 0 {
        Seq::empty()
    } else if n.children@[k - 1].entry.is_dir == want_dir {
        kind_upto(n, want_dir, k - 1).push((k - 1) as usize)
    } else {
        kind_upto(n, want_dir, k - 1)
    }
}

/// The positions of the children that are folders (`want_dir`) or files, in order.
pub open spec fn kind_positions(n: ScanNode, want_dir: bool) -> Seq<usize> {
    kind_upto(n, want_dir, n.children@.len() as int)
}

/// The sizes at the given child positions, as keys ordered larger first.
pub open spec fn pos_keys(n: ScanNode, cand: Seq<usize>) -> Seq<LargestFirst> {
    Seq::new(cand.len(), |j: int| LargestFirst(n.children@[cand[j] as int].entry.size))
}

/// The `m` largest of the given child positions (ties in order).
pub open spec fn largest(n: ScanNode, cand: Seq<usize>, m: nat) -> Seq<usize> {
    let o = ranking(pos_keys(n, cand));
    Seq::new(if m <= cand.len() { m } else { cand.len() }, |k: int| cand[o[k] as int])
}

/// The kind positions lie within the children.
pub proof fn lemma_kind_upto(n: ScanNode, want_dir: bool, k: int)
    requires
        0 <= k <= n.children@.len(),
    ensures
        kind_upto(n, want_dir, k).len() <= k,
        forall|j: int| 0 <= j < kind_upto(n, want_dir, k).len() ==> #[trigger] kind_upto(n, want_dir, k)[j] < k,
    decreases k,
{
    if k > 0 {
        lemma_kind_upto(n, want_dir, k - 1);
    }
}

/// The `m` largest children that are folders (`want_dir`) or files.
fn largest_of_kind(node: &ScanNode, want_dir: bool, m: usize) -> (sel: Vec<usize>)
    ensures
        sel@ == largest(*node, kind_positions(*node, want_dir), m as nat),
        forall|k: int| 0 <= k < sel@.len() ==> #[trigger] sel@[k] < node.children@.len(),
{
    let ghost n = *node;
    let mut cand: Vec<usize> = Vec::new();
    let mut i: usize = 0;
    while i < node.children.len()
        invariant
            i <= n.children@.len(),
            n == *node,
            cand@ == kind_upto(n, want_dir, i as int),
        decreases n.children@.len() - i,
    {
        if node.children[i].entry.is_dir == want_dir {
            cand.push(i);
        }
        i += 1;
    }
    proof {
        lemma_kind_upto(n, want_dir, n.children@.len() as int);
    }
    let mut keys: Vec<LargestFirst> = Vec::new();
    let mut j: usize = 0;
    while j < cand.len()
        invariant
            j <= cand@.len(),
            cand@ == kind_positions(n, want_dir),
            forall|x: int| 0 <= x < cand@.len() ==> #[trigger] cand@[x] < n.children@.len(),
            n == *node,
            keys@ == pos_keys(n, cand@).take(j as int),
        decreases cand@.len() - j,
    {
        keys.push(LargestFirst(node.children[cand[j]].entry.size));
        assert(keys@ == pos_keys(n, cand@).take(j + 1));
        j += 1;
    }
    assert(keys@ == pos_keys(n, cand@));
    let order = rank(&keys);
    proof {
        lemma_is_the_ranking(keys@, order@);
    }
    let t = if m <= cand.len() {
        m
    } else {
        cand.len()
    };
    let mut sel: Vec<usize> = Vec::new();
    let mut k: usize = 0;
    while k < t
        invariant
            k <= t <= cand@.len() == order@.len(),
            t == (if m <= cand@.len() { m as nat } else { cand@.len() }),
            cand@ == kind_positions(n, want_dir),
            forall|x: int| 0 <= x < cand@.len() ==> #[trigger] cand@[x] < n.children@.len(),
            is_ranking(pos_keys(n, cand@), order@),
            order@ == ranking(pos_keys(n, cand@)),
            sel@ == largest(n, cand@, m as nat).take(k as int),
            forall|x: int| 0 <= x < sel@.len() ==> #[trigger] sel@[x] < n.children@.len(),
        decreases t - k,
    {
        sel.push(cand[order[k]]);
        assert(sel@ == largest(n, cand@, m as nat).take(k + 1));
        k += 1;
    }
    assert(sel@ == largest(n, cand@, m as nat));
    sel
}

/// Two spaces per level.
pub open spec fn indent(depth: nat) -> Seq<char>
    decreases depth,
{
    if depth == 0 {
        Seq::empty()
    } else {
        indent((depth - 1) as nat) + "  "@
    }
}

/// Appends two spaces per level.
fn push_indent(out: &mut String, depth: u32)
    ensures
        final(out)@ == old(out)@ + indent(depth as nat),
{
    let mut i: u32 = 0;
    while i < depth
        invariant
            i <= depth,
            out@ == old(out)@ + indent(i as nat),
        decreases depth - i,
    {
        push_str(out, "  ");
        i += 1;
    }
}

/// The line of a folder in the deep tree.
pub open spec fn branch_line(n: ScanNode, depth: nat) -> Seq<char> {
    indent(depth) + n.entry.name@ + "/ — "@ + size_text(n.entry.size as nat) + " ("@ + percent_text(
        n.entry.percent,
        2,
    ) + "%)\n"@
}

/// The line of a large file in the deep tree.
pub open spec fn file_line(e: ScanEntry, depth: nat) -> Seq<char> {
    indent(depth) + e.name@ + " [file] — "@ + size_text(e.size as nat) + "\n"@
}

/// The lines of the given children as large files.
pub open spec fn file_lines(n: ScanNode, sel: Seq<usize>, depth: nat) -> Seq<char>
    decreases sel.len(),
{
    if sel.len() == 0 {
        Seq::empty()
    } else {
        file_lines(n, sel.drop_last(), depth) + file_line(n.children@[sel.last() as int].entry, depth)
    }
}

/// Appending the branch of a folder: its line and, while within `max_depth` and the limit,
/// the branches of its `top_n` largest folders and the lines of its 5 largest files.
pub open spec fn branch(doc: Seq<char>, n: ScanNode, depth: nat, max_depth: nat, top_n: nat) -> Seq<char>
    decreases n, 1nat, 0int,
{
    let d1 = doc + branch_line(n, depth);
    if depth >= max_depth || over_limit(d1) {
        d1
    } else {
        branch_list(d1, n, depth + 1, max_depth, top_n, 0) + file_lines(
            n,
            largest(n, kind_positions(n, false), 5),
            depth + 1,
        )
    }
}

/// Appending the branches of `n`'s largest folders from the `k`-th on.
pub open spec fn branch_list(doc: Seq<char>, n: ScanNode, depth: nat, max_depth: nat, top_n: nat, k: nat) -> Seq<char>
    decreases n, 0nat, largest(n, kind_positions(n, true), top_n).len() - k,
{
    let sel = largest(n, kind_positions(n, true), top_n);
    if k >= sel.len() || sel[k as int] >= n.children@.len() {
        doc
    } else {
        branch_list(
            branch(doc, n.children@[sel[k as int] as int], depth, max_depth, top_n),
            n,
            depth,
            max_depth,
            top_n,
            k + 1,
        )
    }
}

/// Appends one branch of the deep tree.
#[verifier::spinoff_prover]
fn append_tree_branch(doc: &mut String, node: &ScanNode, depth: u32, max_depth: u32, top_n: usize)
    ensures
        final(doc)@ == branch(old(doc)@, *node, depth as nat, max_depth as nat, top_n as nat),
    decreases node,
{
    let ghost doc0 = doc@;
    push_indent(doc, depth);
    push_str(doc, node.entry.name.as_str());
    push_str(doc, "/ — ");
    let z = format_size(node.entry.size);
    push_str(doc, z.as_str());
    push_str(doc, " (");
    push_percent(doc, node.entry.percent, 2);
    push_str(doc, "%)\n");
    let ghost d1 = doc0 + branch_line(*node, depth as nat);
    assert(doc@ == d1);
    if depth >= max_depth || doc_len(doc) > MAX_DOC_BYTES as u128 {
        return;
    }
    let ghost n = *node;
    let sel = largest_of_kind(node, true, top_n);
    let mut k: usize = 0;
    while k < sel.len()
        invariant
            k <= sel@.len(),
            n == *node,
            depth < max_depth,
            sel@ == largest(n, kind_positions(n, true), top_n as nat),
            forall|x: int| 0 <= x < sel@.len() ==> #[trigger] sel@[x] < n.children@.len(),
            branch_list(doc@, n, (depth + 1) as nat, max_depth as nat, top_n as nat, k as nat)
                == branch_list(d1, n, (depth + 1) as nat, max_depth as nat, top_n as nat, 0),
        decreases sel@.len() - k,
    {
        let j = sel[k];
        assert(decreases_to!(*node => node.children@[j as int])) by {
            assert(decreases_to!(*node => node.children));
            assert(decreases_to!(node.children => node.children@));
            assert(decreases_to!(node.children@ => node.children@[j as int]));
        }
        append_tree_branch(doc, &node.children[j], depth + 1, max_depth, top_n);
        k += 1;
    }
    let ghost d2 = doc@;
    let files = largest_of_kind(node, false, 5);
    let mut f: usize = 0;
    while f < files.len()
        invariant
            f <= files@.len(),
            n == *node,
            depth < max_depth,
            forall|x: int| 0 <= x < files@.len() ==> #[trigger] files@[x] < n.children@.len(),
            doc@ == d2 + file_lines(n, files@.take(f as int), (depth + 1) as nat),
        decreases files@.len() - f,
    {
        assert(files@.take(f + 1).drop_last() == files@.take(f as int));
        let e = &node.children[files[f]].entry;
        push_indent(doc, depth + 1);
        push_str(doc, e.name.as_str());
        push_str(doc, " [file] — ");
        let fz = format_size(e.size);
        push_str(doc, fz.as_str());
        push_str(doc, "\n");
        f += 1;
    }
    assert(files@.take(files@.len() as int) == files@);
}

/// Appending the top-level branches from the `k`-th on; once the document is over the
/// limit after a branch, a note that it was cut ends the tree.
pub open spec fn deep_list(doc: Seq<char>, root: ScanNode, max_depth: nat, top_n: nat, k: nat) -> Seq<char>
    decreases largest(root, kind_positions(root, true), top_n).len() - k,
{
    let sel = largest(root, kind_positions(root, true), top_n);
    if k >= sel.len() || sel[k as int] >= root.children@.len() {
        doc
    } else {
        let d = branch(doc, root.children@[sel[k as int] as int], 1, max_depth, top_n);
        if over_limit(d) {
            d + "\n... (输出已截断，层级过多)\n"@
        } else {
            deep_list(d, root, max_depth, top_n, k + 1)
        }
    }
}

/// The head of a deep structure report, with the table of the first level.
pub open spec fn deep_head(root: Seq<char>, n: ScanNode, max_depth: nat, top_n: nat) -> Seq<char> {
    let es = node_entries(n);
    "# 目录深度结构报告\n\n```yaml\ntype: deep_directory_tree\nroot: \""@ + root
        + "\"\nmax_depth: "@ + dec(max_depth) + "\ntop_n_per_level: "@ + dec(top_n)
        + "\naggregated_size: \""@ + size_text(sum(sizes(es)))
        + "\"\n```\n\n## 层级 0 — 直接子项\n\n| 名称 | 类型 | 大小 | 文件数 | 文件夹数 | 占比 | 路径 |\n|------|------|------|--------|----------|------|------|\n"@
}

/// One row of the first-level table of a deep structure report.
pub open spec fn deep_row(e: ScanEntry) -> Seq<char> {
    "| "@ + cell_safe(e.name@) + " | "@ + kind_word(e.is_dir) + " | "@ + size_text(e.size as nat)
        + " | "@ + dec(e.file_count as nat) + " | "@ + dec(e.folder_count as nat) + " | "@
        + percent_text(e.percent, 2) + "% | "@ + e.path@ + " |\n"@
}

/// The rows of the first-level table.
pub open spec fn deep_rows(es: Seq<ScanEntry>) -> Seq<char>
    decreases es.len(),
{
    if es.len() == 0 {
        Seq::empty()
    } else {
        deep_rows(es.drop_last()) + deep_row(es.last())
    }
}

/// The deep structure report of a scanned folder before the final cut: the first level as a
/// table, then the tree of its `top_n` largest folders per level down to `max_depth`, with
/// the 5 largest files of each.
pub open spec fn deep_raw(root: Seq<char>, n: ScanNode, max_depth: nat, top_n: nat) -> Seq<char> {
    let es = node_entries(n);
    let start = deep_head(root, n, max_depth, top_n) + deep_rows(es) + "\n## 深度树（按占用展开）\n\n```\n"@
        + root + "/ ["@ + size_text(sum(sizes(es))) + "]\n"@;
    deep_list(start, n, max_depth, top_n, 0) + "```\n"@
}

/// The deep structure report of a scanned folder, cut to the byte limit.
pub open spec fn deep_doc(root: Seq<char>, n: ScanNode, max_depth: nat, top_n: nat) -> Seq<char> {
    truncated_doc(deep_raw(root, n, max_depth, top_n))
}

/// `只能对文件夹做深度结构分析`.
pub open spec fn deep_not_folder_text() -> Seq<char> {
    "只能对文件夹做深度结构分析"@
}

/// Appends one row of the first-level table.
fn append_table_row(doc: &mut String, e: &ScanEntry)
    ensures
        final(doc)@ == old(doc)@ + deep_row(*e),
{
    push_str(doc, "| ");
    let nm = cell_name(&e.name);
    push_chars(doc, &nm);
    push_str(doc, " | ");
    if e.is_dir {
        push_str(doc, "folder");
    } else {
        push_str(doc, "file");
    }
    push_str(doc, " | ");
    let z = format_size(e.size);
    push_str(doc, z.as_str());
    push_str(doc, " | ");
    push_dec(doc, e.file_count as u128);
    push_str(doc, " | ");
    push_dec(doc, e.folder_count as u128);
    push_str(doc, " | ");
    push_percent(doc, e.percent, 2);
    push_str(doc, "% | ");
    push_str(doc, e.path.as_str());
    push_str(doc, " |\n");
}

/// The deep structure report of a scanned folder, before the final cut.
fn deep_raw_string(root: &str, node: &ScanNode, max_depth: u32, top_n: usize) -> (doc: String)
    requires
        sum(sizes(node_entries(*node))) <= u64::MAX,
    ensures
        doc@ == deep_raw(root@, *node, max_depth as nat, top_n as nat),
{
    let ghost n = *node;
    let level0 = crate::scan::child_entries(node);
    let ghost es = level0@;
    assert(es == node_entries(n));
    let (total, _) = size_sums(&level0);
    let mut doc = String::new();
    push_str(&mut doc, "# 目录深度结构报告\n\n```yaml\ntype: deep_directory_tree\nroot: \"");
    push_str(&mut doc, root);
    push_str(&mut doc, "\"\nmax_depth: ");
    push_dec(&mut doc, max_depth as u128);
    push_str(&mut doc, "\ntop_n_per_level: ");
    push_dec(&mut doc, top_n as u128);
    push_str(&mut doc, "\naggregated_size: \"");
    let z = format_size(total);
    push_str(&mut doc, z.as_str());
    push_str(
        &mut doc,
        "\"\n```\n\n## 层级 0 — 直接子项\n\n| 名称 | 类型 | 大小 | 文件数 | 文件夹数 | 占比 | 路径 |\n|------|------|------|--------|----------|------|------|\n",
    );
    assert(doc@ == deep_head(root@, n, max_depth as nat, top_n as nat));
    let ghost head = doc@;
    let mut i: usize = 0;
    while i < level0.len()
        invariant
            i <= es.len(),
            es == level0@,
            doc@ == head + deep_rows(es.take(i as int)),
        decreases es.len() - i,
    {
        assert(es.take(i + 1).drop_last() == es.take(i as int));
        append_table_row(&mut doc, &level0[i]);
        i += 1;
    }
    assert(es.take(es.len() as int) == es);
    push_str(&mut doc, "\n## 深度树（按占用展开）\n\n```\n");
    push_str(&mut doc, root);
    push_str(&mut doc, "/ [");
    push_str(&mut doc, z.as_str());
    push_str(&mut doc, "]\n");
    let ghost start = doc@;
    let sel = largest_of_kind(node, true, top_n);
    let mut k: usize = 0;
    while k < sel.len()
        invariant_except_break
            k <= sel@.len(),
            n == node,
            sel@ == largest(n, kind_positions(n, true), top_n as nat),
            forall|x: int| 0 <= x < sel@.len() ==> #[trigger] sel@[x] < n.children@.len(),
            deep_list(doc@, n, max_depth as nat, top_n as nat, k as nat) == deep_list(
                start,
                n,
                max_depth as nat,
                top_n as nat,
                0,
            ),
        ensures
            doc@ == deep_list(start, n, max_depth as nat, top_n as nat, 0),
        decreases sel@.len() - k,
    {
        append_tree_branch(&mut doc, &node.children[sel[k]], 1, max_depth, top_n);
        if doc_len(&doc) > MAX_DOC_BYTES as u128 {
            push_str(&mut doc, "\n... (输出已截断，层级过多)\n");
            break;
        }
        k += 1;
    }
    push_str(&mut doc, "```\n");
    doc
}

/// The deep structure report of a folder, from its scan: an error when `root` is not a
/// folder, the scan's own error when it failed.
pub fn build_deep_structure_rag(root: &str, is_dir: bool, scanned: Result<ScanNode, String>, max_depth: u32, top_n: usize) -> (r: Result<String, String>)
    requires
        scanned matches Ok(n) ==> sum(sizes(node_entries(n))) <= u64::MAX,
        is_dir && scanned is Ok ==> cut_ok(deep_raw(root@, scanned->Ok_0, max_depth as nat, top_n as nat)),
    ensures
        !is_dir ==> (r matches Err(e) && e@ == deep_not_folder_text()),
        is_dir ==> (scanned matches Err(why) ==> (r matches Err(e) && e@ == why@)),
        is_dir ==> (scanned matches Ok(n) ==> (r matches Ok(doc) && doc@ == deep_doc(
            root@,
            n,
            max_depth as nat,
            top_n as nat,
        ))),
{
    if !is_dir {
        return Err(String::from_str("只能对文件夹做深度结构分析"));
    }
    match scanned {
        Ok(node) => Ok(truncate_doc(deep_raw_string(root, &node, max_depth, top_n))),
        Err(e) => Err(e),
    }
}

/// Whether the deep structure report of a scanned folder can be cut at the byte limit.
pub fn deep_structure_rag_fits(root: &str, node: &ScanNode, max_depth: u32, top_n: usize) -> (b: bool)
    requires
        sum(sizes(node_entries(*node))) <= u64::MAX,
    ensures
        b == cut_ok(deep_raw(root@, *node, max_depth as nat, top_n as nat)),
{
    doc_cut_ok(&deep_raw_string(root, node, max_depth, top_n))
}

} // verus!