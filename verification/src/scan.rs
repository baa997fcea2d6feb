//! Aggregation of a walked directory tree into scan entries, and the lists built from it.
use vstd::prelude::*;
use crate::entries::{clone_entry, ScanEntry, ScanNode, Share};
use crate::rank::{before, is_ranking, lemma_before, lemma_is_the_ranking, lemma_ranking_drop_last, lemma_ranking_exists, lemma_ranking_onto, lex_less, rank, ranking, LargestFirst, RankKey, TextKey};
use crate::structure::{lemma_sum_prefix, size_key_vec, size_keys, sizes, sum};
use crate::text::{chars_of, push_chars, push_str, strip_suffixes, strip_suffixes_exec};

verus! {

/// What the walk found at one path.
pub enum Found {
    /// Nothing was read: the walk was cancelled before it, or its metadata could not be read.
    Empty { is_dir: bool },
    /// A file of `len` bytes.
    File { len: u64 },
    /// A folder, with the items listed inside it in the order they were listed.
    Dir { children: Vec<Walked> },
}

/// One walked path.
pub struct Walked {
    pub name: String,
    pub path: String,
    pub found: Found,
}

/// The space a file of `len` bytes takes on a disk with clusters of `cluster` bytes.
pub open spec fn allocated_size(len: nat, cluster: nat) -> nat {
    if len == 0 {
        0
    } else if cluster == 0 {
        len
    } else {
        ((len + cluster - 1) as nat / cluster) * cluster
    }
}

/// A walked item is (or is taken as) a folder.
pub open spec fn found_dir(f: Found) -> bool {
    match f {
        Found::Empty { is_dir } => is_dir,
        Found::File { .. } => false,
        Found::Dir { .. } => true,
    }
}

/// The items listed inside a walked item.
pub open spec fn walked_children(w: Walked) -> Seq<Walked> {
    match w.found {
        Found::Dir { children } => children@,
        _ => Seq::empty(),
    }
}

/// Size, allocated space, file count and folder count of a walked item: a file counts
/// itself, a folder sums its items and counts each folder inside it with that folder's own
/// folders.
pub open spec fn totals(w: Walked, cluster: nat) -> (nat, nat, nat, nat)
    decreases w,
{
    match w.found {
        Found::Empty { .. } => (0, 0, 0, 0),
        Found::File { len } => (len as nat, allocated_size(len as nat, cluster), 1, 0),
        Found::Dir { children } => totals_of(children@, cluster),
    }
}

/// The totals of a list of items, as a folder holding them.
pub open spec fn totals_of(cs: Seq<Walked>, cluster: nat) -> (nat, nat, nat, nat)
    decreases cs,
{
    if cs.len() == 0 {
        (0, 0, 0, 0)
    } else {
        let a = totals_of(cs.subrange(0, cs.len() - 1), cluster);
        let x = cs[cs.len() - 1];
        let b = totals(x, cluster);
        (a.0 + b.0, a.1 + b.1, a.2 + b.2, a.3 + if found_dir(x.found) {
            1 + b.3
        } else {
            0
        })
    }
}


/// All totals of a walked item fit in 64 bits.
pub open spec fn fits(w: Walked, cluster: nat) -> bool {
    let t = totals(w, cluster);
    t.0 <= u64::MAX && t.1 <= u64::MAX && t.2 <= u64::MAX && t.3 <= u64::MAX
}

/// The totals of one more item after `a`.
pub open spec fn add_item(a: (nat, nat, nat, nat), x: Walked, cluster: nat) -> (nat, nat, nat, nat) {
    let b = totals(x, cluster);
    (a.0 + b.0, a.1 + b.1, a.2 + b.2, a.3 + if found_dir(x.found) {
        1 + b.3
    } else {
        0
    })
}

/// `a` is at most `b` in every component.
pub open spec fn le4(a: (nat, nat, nat, nat), b: (nat, nat, nat, nat)) -> bool {
    a.0 <= b.0 && a.1 <= b.1 && a.2 <= b.2 && a.3 <= b.3
}

/// The totals of the first `i + 1` items extend those of the first `i`.
pub proof fn lemma_totals_step(cs: Seq<Walked>, cluster: nat, i: int)
    requires
        0 <= i < cs.len(),
    ensures
        totals_of(cs.take(i + 1), cluster) == add_item(totals_of(cs.take(i), cluster), cs[i], cluster),
{
    assert(cs.take(i + 1).subrange(0, i) == cs.take(i));
    assert(cs.take(i + 1)[i] == cs[i]);
}

/// The totals of a prefix never exceed those of the whole list.
pub proof fn lemma_totals_prefix(cs: Seq<Walked>, cluster: nat, i: int)
    requires
        0 <= i <= cs.len(),
    ensures
        le4(totals_of(cs.take(i), cluster), totals_of(cs, cluster)),
    decreases cs.len() - i,
{
    if i < cs.len() {
        lemma_totals_prefix(cs, cluster, i + 1);
        lemma_totals_step(cs, cluster, i);
    } else {
        assert(cs.take(i) == cs);
    }
}

/// Each item's totals are within those of the list holding it.
pub proof fn lemma_item_within(cs: Seq<Walked>, cluster: nat, i: int)
    requires
        0 <= i < cs.len(),
    ensures
        le4(totals(cs[i], cluster), totals_of(cs, cluster)),
{
    lemma_totals_prefix(cs, cluster, i + 1);
    lemma_totals_step(cs, cluster, i);
}

/// The size order of a list of walked items: larger first.
pub open spec fn child_keys(cs: Seq<Walked>, cluster: nat) -> Seq<LargestFirst> {
    Seq::new(cs.len(), |i: int| LargestFirst(totals(cs[i], cluster).0 as u64))
}

/// The entry of a walked item: its name, path and kind, its totals and the share `pct`.
pub open spec fn entry_of(w: Walked, cluster: nat, pct: Share) -> ScanEntry {
    let t = totals(w, cluster);
    ScanEntry {
        name: w.name,
        path: w.path,
        is_dir: found_dir(w.found),
        size: t.0 as u64,
        allocated: t.1 as u64,
        file_count: t.2 as u64,
        folder_count: t.3 as u64,
        percent: pct,
    }
}

/// `n` is the scan node of the walked item `w`: its entry is `w`'s entry with the share
/// `pct`; its children are the nodes of `w`'s items, larger first (ties in listing order),
/// each with its share of their summed size.
pub open spec fn built(n: ScanNode, w: Walked, cluster: nat, pct: Share) -> bool
    decreases n,
{
    let t = totals(w, cluster);
    let cs = walked_children(w);
    let o = ranking(child_keys(cs, cluster));
    &&& n.entry == entry_of(w, cluster, pct)
    &&& n.children@.len() == cs.len()
    &&& forall|k: int|
        0 <= k < n.children@.len() ==> built(
            #[trigger] n.children@[k],
            cs[o[k] as int],
            cluster,
            Share { part: totals(cs[o[k] as int], cluster).0 as u64, whole: t.0 as u64 },
        )
}

/// The share of nothing: what the root of a scan carries.
pub open spec fn no_share() -> Share {
    Share { part: 0, whole: 0 }
}

/// Taking one place out of a list of sizes takes its size off the sum.
pub proof fn lemma_sum_remove(xs: Seq<u64>, q: int)
    requires
        0 <= q < xs.len(),
    ensures
        sum(xs) == sum(xs.remove(q)) + xs[q],
    decreases xs.len(),
{
    if q == xs.len() - 1 {
        assert(xs.remove(q) == xs.drop_last());
    } else {
        lemma_sum_remove(xs.drop_last(), q);
        assert(xs.remove(q).drop_last() == xs.drop_last().remove(q));
        assert(xs.remove(q).last() == xs.last());
    }
}

/// The sizes at the places of `o`, in its order.
pub open spec fn ranked(xs: Seq<u64>, o: Seq<usize>) -> Seq<u64> {
    Seq::new(o.len(), |k: int| xs[o[k] as int])
}

/// Listing sizes in the order of a ranking keeps their sum.
pub proof fn lemma_sum_ranked<K: RankKey>(keys: Seq<K>, o: Seq<usize>, xs: Seq<u64>)
    requires
        is_ranking(keys, o),
        xs.len() == keys.len(),
    ensures
        sum(ranked(xs, o)) == sum(xs),
    decreases xs.len(),
{
    if xs.len() > 0 {
        let q = lemma_ranking_drop_last(keys, o);
        let o2 = o.remove(q);
        lemma_sum_ranked(keys.drop_last(), o2, xs.drop_last());
        assert(ranked(xs, o).remove(q) == ranked(xs.drop_last(), o2)) by {
            assert forall|k: int| 0 <= k < o2.len() implies ranked(xs, o).remove(q)[k] == ranked(
                xs.drop_last(),
                o2,
            )[k] by {
                if k < q {
                    assert(o2[k] == o[k]);
                } else {
                    assert(o2[k] == o[k + 1]);
                }
            }
        }
        lemma_sum_remove(ranked(xs, o), q);
    }
}

/// The sizes of a list of walked items, in listing order.
pub open spec fn item_sizes(cs: Seq<Walked>, cluster: nat) -> Seq<u64> {
    Seq::new(cs.len(), |i: int| totals(cs[i], cluster).0 as u64)
}

/// When the summed size fits in 64 bits, it is the sum of the items' sizes.
pub proof fn lemma_sum_items(cs: Seq<Walked>, cluster: nat)
    requires
        totals_of(cs, cluster).0 <= u64::MAX,
    ensures
        sum(item_sizes(cs, cluster)) == totals_of(cs, cluster).0,
    decreases cs.len(),
{
    if cs.len() > 0 {
        let init = cs.subrange(0, cs.len() - 1);
        lemma_sum_items(init, cluster);
        assert(item_sizes(cs, cluster).drop_last() == item_sizes(init, cluster));
    }
}

/// The sizes of a node's children, in their order.
pub open spec fn child_sizes(n: ScanNode) -> Seq<u64> {
    Seq::new(n.children@.len(), |k: int| n.children@[k].entry.size)
}

/// A scanned folder weighs what the items in it weigh together; they are listed larger
/// first, and each carries its share of that total.
pub proof fn lemma_folder_sums(n: ScanNode, w: Walked, cluster: nat, pct: Share)
    requires
        built(n, w, cluster, pct),
        fits(w, cluster),
        w.found is Dir,
    ensures
        n.entry.size == sum(child_sizes(n)),
        forall|i: int, j: int|
            0 <= i < j < n.children@.len() ==> #[trigger] n.children@[j].entry.size
                <= #[trigger] n.children@[i].entry.size,
        forall|k: int|
            0 <= k < n.children@.len() ==> #[trigger] n.children@[k].entry.percent == (Share {
                part: n.children@[k].entry.size,
                whole: n.entry.size,
            }),
{
    let cs = walked_children(w);
    let t = totals(w, cluster);
    let keys = child_keys(cs, cluster);
    assert(cs.len() <= usize::MAX) by {
        match w.found {
            Found::Dir { children } => {
                assert(cs == children@);
                assert(children.len() == children@.len());
            },
            _ => {},
        }
    }
    lemma_ranking_exists(keys);
    let o = ranking(keys);
    assert(t == totals_of(cs, cluster));
    assert forall|i: int| 0 <= i < cs.len() implies totals(#[trigger] cs[i], cluster).0 <= u64::MAX by {
        lemma_item_within(cs, cluster, i);
    }
    assert forall|k: int| 0 <= k < n.children@.len() implies #[trigger] n.children@[k].entry.size
        == item_sizes(cs, cluster)[o[k] as int] by {
        assert(built(
            n.children@[k],
            cs[o[k] as int],
            cluster,
            Share { part: totals(cs[o[k] as int], cluster).0 as u64, whole: t.0 as u64 },
        ));
    }
    assert(child_sizes(n) == ranked(item_sizes(cs, cluster), o));
    lemma_sum_ranked(keys, o, item_sizes(cs, cluster));
    lemma_sum_items(cs, cluster);
    assert forall|i: int, j: int|
        0 <= i < j < n.children@.len() implies #[trigger] n.children@[j].entry.size
            <= #[trigger] n.children@[i].entry.size by {
        assert(before(keys, o[i] as int, o[j] as int));
    }
    assert forall|k: int| 0 <= k < n.children@.len() implies #[trigger] n.children@[k].entry.percent
        == (Share { part: n.children@[k].entry.size, whole: n.entry.size }) by {
        assert(built(
            n.children@[k],
            cs[o[k] as int],
            cluster,
            Share { part: totals(cs[o[k] as int], cluster).0 as u64, whole: t.0 as u64 },
        ));
    }
}

/// The space a file takes, rounded up to whole clusters.
pub fn allocated_file_size(len: u64, cluster: u64) -> (a: u64)
    requires
        allocated_size(len as nat, cluster as nat) <= u64::MAX,
    ensures
        a == allocated_size(len as nat, cluster as nat),
{
    if len == 0 {
        return 0;
    }
    if cluster == 0 {
        return len;
    }
    let q = len / cluster;
    let r = len % cluster;
    assert(((len + cluster - 1) as nat / cluster as nat) == if r == 0 {
        q as nat
    } else {
        (q + 1) as nat
    }) by (nonlinear_arith)
        requires
            q == len / cluster,
            r == len % cluster,
            cluster > 0,
            len > 0,
    ;
    if r == 0 {
        assert(q * cluster == len) by (nonlinear_arith)
            requires
                q == len / cluster,
                len % cluster == 0,
                cluster > 0,
        ;
        len
    } else {
        assert(q < u64::MAX) by (nonlinear_arith)
            requires
                q == len / cluster,
                len % cluster != 0,
                cluster > 0,
        ;
        assert(allocated_size(len as nat, cluster as nat) == (q + 1) * cluster);
        (q + 1) * cluster
    }
}

/// The positions of a ranking are distinct.
pub proof fn lemma_ranking_distinct(keys: Seq<LargestFirst>, o: Seq<usize>, a: int, b: int)
    requires
        is_ranking(keys, o),
        0 <= a < o.len(),
        0 <= b < o.len(),
        a != b,
    ensures
        o[a] != o[b],
{
    if a < b {
        assert(before(keys, o[a] as int, o[b] as int));
        lemma_before(keys, o[a] as int, o[a] as int, 0);
    } else {
        assert(before(keys, o[b] as int, o[a] as int));
        lemma_before(keys, o[b] as int, o[b] as int, 0);
    }
}

/// The scan node of one walked item, its children ordered larger first and each given its
/// share of their summed size; the item itself carries no share.
pub fn build_node(w: &Walked, cluster: u64) -> (n: ScanNode)
    requires
        fits(*w, cluster as nat),
    ensures
        built(n, *w, cluster as nat, no_share()),
    decreases w,
{
    let ghost c = cluster as nat;
    match &w.found {
        Found::Empty { is_dir } => ScanNode {
            entry: ScanEntry {
                name: w.name.clone(),
                path: w.path.clone(),
                is_dir: *is_dir,
                size: 0,
                allocated: 0,
                file_count: 0,
                folder_count: 0,
                percent: Share { part: 0, whole: 0 },
            },
            children: Vec::new(),
        },
        Found::File { len } => ScanNode {
            entry: ScanEntry {
                name: w.name.clone(),
                path: w.path.clone(),
                is_dir: false,
                size: *len,
                allocated: allocated_file_size(*len, cluster),
                file_count: 1,
                folder_count: 0,
                percent: Share { part: 0, whole: 0 },
            },
            children: Vec::new(),
        },
        Found::Dir { children } => {
            let ghost cs = children@;
            let ghost t = totals(*w, c);
            assert(t == totals_of(cs, c));
            let mut kids: Vec<Option<ScanNode>> = Vec::new();
            let mut keys: Vec<LargestFirst> = Vec::new();
            let mut size: u64 = 0;
            let mut alloc: u64 = 0;
            let mut files: u64 = 0;
            let mut folders: u64 = 0;
            let mut i: usize = 0;
            assert(cs.take(0) == Seq::<Walked>::empty());
            while i < children.len()
                invariant
                    i <= cs.len(),
                    cs == children@,
                    w.found == (Found::Dir { children: *children }),
                    c == cluster as nat,
                    t == totals_of(cs, c),
                    t.0 <= u64::MAX && t.1 <= u64::MAX && t.2 <= u64::MAX && t.3 <= u64::MAX,
                    kids@.len() == i,
                    keys@ == child_keys(cs, c).take(i as int),
                    forall|j: int|
                        0 <= j < i ==> (#[trigger] kids@[j]) is Some && built(
                            kids@[j]->0,
                            cs[j],
                            c,
                            no_share(),
                        ),
                    (size as nat, alloc as nat, files as nat, folders as nat) == totals_of(
                        cs.take(i as int),
                        c,
                    ),
                decreases cs.len() - i,
            {
                assert(decreases_to!(*w => children@[i as int])) by {
                    assert(decreases_to!(*w => w.found));
                    assert(decreases_to!(w.found => w.found->children));
                    assert(decreases_to!(*children => children@));
                    assert(decreases_to!(children@ => children@[i as int]));
                }
                proof {
                    lemma_totals_step(cs, c, i as int);
                    lemma_totals_prefix(cs, c, i + 1);
                    lemma_item_within(cs, c, i as int);
                }
                let k = build_node(&children[i], cluster);
                size = size + k.entry.size;
                alloc = alloc + k.entry.allocated;
                files = files + k.entry.file_count;
                if k.entry.is_dir {
                    folders = folders + 1 + k.entry.folder_count;
                }
                keys.push(LargestFirst(k.entry.size));
                assert(keys@ == child_keys(cs, c).take(i + 1));
                kids.push(Some(k));
                i += 1;
            }
            assert(cs.take(cs.len() as int) == cs);
            let order = rank(&keys);
            assert(keys@ == child_keys(cs, c));
            proof {
                lemma_is_the_ranking(keys@, order@);
            }
            let ghost o = order@;
            let mut sorted: Vec<ScanNode> = Vec::new();
            let mut k: usize = 0;
            while k < order.len()
                invariant
                    k <= order.len() == cs.len() == kids@.len(),
                    o == order@,
                    o == ranking(child_keys(cs, c)),
                    is_ranking(child_keys(cs, c), o),
                    c == cluster as nat,
                    size == t.0,
                    sorted@.len() == k,
                    forall|j: int|
                        0 <= j < cs.len() ==> ((#[trigger] kids@[j]) is Some <==> forall|m: int|
                            0 <= m < k ==> o[m] != j),
                    forall|j: int|
                        0 <= j < cs.len() && (#[trigger] kids@[j]) is Some ==> built(
                            kids@[j]->0,
                            cs[j],
                            c,
                            no_share(),
                        ),
                    forall|m: int|
                        0 <= m < k ==> built(
                            #[trigger] sorted@[m],
                            cs[o[m] as int],
                            c,
                            Share { part: totals(cs[o[m] as int], c).0 as u64, whole: t.0 as u64 },
                        ),
                decreases cs.len() - k,
            {
                let j = order[k];
                assert(forall|m: int| 0 <= m < k ==> o[m] != j) by {
                    assert forall|m: int| 0 <= m < k implies o[m] != j by {
                        lemma_ranking_distinct(child_keys(cs, c), o, m, k as int);
                    }
                }
                let ghost before_kids = kids@;
                let slot = kids[j].take();
                let mut node = slot.unwrap();
                assert(built(node, cs[j as int], c, no_share()));
                node.entry.percent = Share { part: node.entry.size, whole: size };
                assert(built(node, cs[j as int], c, Share { part: totals(cs[j as int], c).0 as u64, whole: t.0 as u64 }));
                sorted.push(node);
                proof {
                    assert forall|x: int| 0 <= x < cs.len() implies ((#[trigger] kids@[x]) is Some
                        <==> forall|m: int| 0 <= m < k + 1 ==> o[m] != x) by {
                        if x != j {
                            assert(kids@[x] == before_kids[x]);
                        } else {
                            assert(o[k as int] == x);
                        }
                    }
                }
                k += 1;
            }
            ScanNode {
                entry: ScanEntry {
                    name: w.name.clone(),
                    path: w.path.clone(),
                    is_dir: true,
                    size,
                    allocated: alloc,
                    file_count: files,
                    folder_count: folders,
                    percent: Share { part: 0, whole: 0 },
                },
                children: sorted,
            }
        },
    }
}

/// The space a file takes, or `None` when it does not fit in 64 bits.
fn checked_allocated(len: u64, cluster: u64) -> (r: Option<u64>)
    ensures
        r is Some <==> allocated_size(len as nat, cluster as nat) <= u64::MAX,
        r matches Some(a) ==> a == allocated_size(len as nat, cluster as nat),
{
    if len == 0 || cluster == 0 {
        return Some(len);
    }
    let q = len / cluster;
    let r = len % cluster;
    assert(((len + cluster - 1) as nat / cluster as nat) == if r == 0 {
        q as nat
    } else {
        (q + 1) as nat
    }) by (nonlinear_arith)
        requires
            q == len / cluster,
            r == len % cluster,
            cluster > 0,
            len > 0,
    ;
    if r == 0 {
        assert(q * cluster == len) by (nonlinear_arith)
            requires
                q == len / cluster,
                len % cluster == 0,
                cluster > 0,
        ;
        Some(len)
    } else {
        assert((q + 1) * cluster <= 0x1_0000_0000_0000_0000 * 0xffff_ffff_ffff_ffff) by (nonlinear_arith)
            requires
                q <= u64::MAX,
                cluster <= u64::MAX,
        ;
        let wide: u128 = (q as u128 + 1) * (cluster as u128);
        if wide <= u64::MAX as u128 {
            Some(wide as u64)
        } else {
            None
        }
    }
}

/// The totals of a walked item, or `None` when one of them does not fit in 64 bits.
pub fn walked_totals(w: &Walked, cluster: u64) -> (r: Option<(u64, u64, u64, u64)>)
    ensures
        r is Some <==> fits(*w, cluster as nat),
        r matches Some(t) ==> (t.0 as nat, t.1 as nat, t.2 as nat, t.3 as nat) == totals(
            *w,
            cluster as nat,
        ),
    decreases w,
{
    let ghost c = cluster as nat;
    match &w.found {
        Found::Empty { .. } => Some((0, 0, 0, 0)),
        Found::File { len } => match checked_allocated(*len, cluster) {
            Some(a) => Some((*len, a, 1, 0)),
            None => None,
        },
        Found::Dir { children } => {
            let ghost cs = children@;
            let ghost t = totals(*w, c);
            assert(t == totals_of(cs, c));
            let mut acc: (u64, u64, u64, u64) = (0, 0, 0, 0);
            let mut i: usize = 0;
            assert(cs.take(0) == Seq::<Walked>::empty());
            while i < children.len()
                invariant
                    i <= cs.len(),
                    cs == children@,
                    w.found == (Found::Dir { children: *children }),
                    c == cluster as nat,
                    t == totals_of(cs, c),
                    t == totals(*w, c),
                    (acc.0 as nat, acc.1 as nat, acc.2 as nat, acc.3 as nat) == totals_of(
                        cs.take(i as int),
                        c,
                    ),
                decreases cs.len() - i,
            {
                assert(decreases_to!(*w => children@[i as int])) by {
                    assert(decreases_to!(*w => w.found));
                    assert(decreases_to!(w.found => w.found->children));
                    assert(decreases_to!(*children => children@));
                    assert(decreases_to!(children@ => children@[i as int]));
                }
                proof {
                    lemma_totals_step(cs, c, i as int);
                    lemma_totals_prefix(cs, c, i + 1);
                    lemma_item_within(cs, c, i as int);
                }
                let ct = match walked_totals(&children[i], cluster) {
                    Some(ct) => ct,
                    None => {
                        return None;
                    },
                };
                let extra: u128 = if found_dir_exec(&children[i].found) {
                    1 + ct.3 as u128
                } else {
                    0
                };
                let s0 = acc.0 as u128 + ct.0 as u128;
                let s1 = acc.1 as u128 + ct.1 as u128;
                let s2 = acc.2 as u128 + ct.2 as u128;
                let s3 = acc.3 as u128 + extra;
                if s0 > u64::MAX as u128 || s1 > u64::MAX as u128 || s2 > u64::MAX as u128 || s3
                    > u64::MAX as u128 {
                    return None;
                }
                acc = (s0 as u64, s1 as u64, s2 as u64, s3 as u64);
                i += 1;
            }
            assert(cs.take(cs.len() as int) == cs);
            Some(acc)
        },
    }
}

/// Whether a walked item is taken as a folder.
pub fn found_dir_exec(f: &Found) -> (b: bool)
    ensures
        b == found_dir(*f),
{
    match f {
        Found::Empty { is_dir } => *is_dir,
        Found::File { .. } => false,
        Found::Dir { .. } => true,
    }
}

/// The sizes read from one file's metadata.
#[derive(Clone, Copy, Debug, Default)]
pub struct TreeStats {
    pub size: u64,
    pub allocated: u64,
    pub file_count: u64,
}

/// The stats of an item of `len` bytes: a folder counts no file and takes no space of its
/// own; a file counts itself and takes whole clusters.
pub fn stats_from_len(len: u64, cluster: u64, is_dir: bool) -> (t: TreeStats)
    requires
        allocated_size(len as nat, cluster as nat) <= u64::MAX,
    ensures
        t.size == len,
        t.allocated == (if is_dir {
            0
        } else {
            allocated_size(len as nat, cluster as nat)
        }),
        t.file_count == (if is_dir {
            0u64
        } else {
            1u64
        }),
{
    TreeStats {
        size: len,
        allocated: if is_dir {
            0
        } else {
            allocated_file_size(len, cluster)
        },
        file_count: if is_dir {
            0
        } else {
            1
        },
    }
}

/// The result of scanning one path: the entries listed for it and the whole tree.
pub struct ScanResult {
    pub entries: Vec<ScanEntry>,
    pub tree: Option<ScanNode>,
}

/// The entries listed for a scanned path: a folder's children, or the scanned file itself.
pub open spec fn listed_entries(n: ScanNode) -> Seq<ScanEntry> {
    if n.entry.is_dir {
        Seq::new(n.children@.len(), |i: int| n.children@[i].entry)
    } else {
        seq![n.entry]
    }
}

/// The entries of the children of a node.
pub fn child_entries(n: &ScanNode) -> (es: Vec<ScanEntry>)
    ensures
        es@ == Seq::new(n.children@.len(), |i: int| n.children@[i].entry),
{
    let mut es: Vec<ScanEntry> = Vec::new();
    let mut i: usize = 0;
    while i < n.children.len()
        invariant
            i <= n.children@.len(),
            es@ == Seq::new(i as nat, |j: int| n.children@[j].entry),
        decreases n.children@.len() - i,
    {
        es.push(clone_entry(&n.children[i].entry));
        i += 1;
    }
    es
}

/// `路径不存在: {root}`.
pub open spec fn missing_text(root: Seq<char>) -> Seq<char> {
    "路径不存在: "@ + root
}

/// `扫描已取消`.
pub open spec fn cancelled_text() -> Seq<char> {
    "扫描已取消"@
}

/// The result of scanning `root`: an error when it does not exist or the scan was
/// cancelled, otherwise the node built from the walk and the entries listed for it.
pub fn scan_directory_with_tree(root: &str, exists: bool, walked: &Walked, cluster: u64, cancelled: bool) -> (r: Result<ScanResult, String>)
    requires
        exists && !cancelled ==> fits(*walked, cluster as nat),
    ensures
        !exists ==> (r matches Err(e) && e@ == missing_text(root@)),
        exists && cancelled ==> (r matches Err(e) && e@ == cancelled_text()),
        exists && !cancelled ==> (r matches Ok(res) && res.tree matches Some(t) && built(
            t,
            *walked,
            cluster as nat,
            no_share(),
        ) && res.entries@ == listed_entries(t)),
{
    if !exists {
        let mut e = String::new();
        push_str(&mut e, "路径不存在: ");
        push_str(&mut e, root);
        return Err(e);
    }
    if cancelled {
        return Err(String::from_str("扫描已取消"));
    }
    let tree = build_node(walked, cluster);
    let entries = if tree.entry.is_dir {
        child_entries(&tree)
    } else {
        let mut v: Vec<ScanEntry> = Vec::new();
        v.push(clone_entry(&tree.entry));
        assert(v@ == seq![tree.entry]);
        v
    };
    Ok(ScanResult { entries, tree: Some(tree) })
}

/// The entries listed for a scanned path.
pub fn scan_directory(root: &str, exists: bool, walked: &Walked, cluster: u64, cancelled: bool) -> (r: Result<Vec<ScanEntry>, String>)
    requires
        exists && !cancelled ==> fits(*walked, cluster as nat),
    ensures
        !exists ==> (r matches Err(e) && e@ == missing_text(root@)),
        exists && cancelled ==> (r matches Err(e) && e@ == cancelled_text()),
        exists && !cancelled ==> (r matches Ok(es) && exists|t: ScanNode|
            built(t, *walked, cluster as nat, no_share()) && es@ == listed_entries(t)),
{
    match scan_directory_with_tree(root, exists, walked, cluster, cancelled) {
        Ok(res) => {
            let ghost t = res.tree->0;
            assert(built(t, *walked, cluster as nat, no_share()) && res.entries@ == listed_entries(t));
            Ok(res.entries)
        },
        Err(e) => Err(e),
    }
}

/// A progress report is sent for the first item, every 800th item, and whenever 120 ms
/// have passed since the last one.
pub fn should_report(count: u64, elapsed_ms: u128) -> (b: bool)
    ensures
        b == (count == 1 || elapsed_ms >= 120 || count % 800 == 0),
{
    count == 1 || elapsed_ms >= 120 || count % 800 == 0
}

/// How far a running scan got: the items reached so far and the path reached last.
pub struct ScanProgress {
    pub scanned_files: u64,
    pub current_path: String,
}

/// One folder to scan at the top of a drive, walked, with its drive's cluster size.
pub struct FolderScan {
    pub walked: Walked,
    pub cluster: u64,
}

/// `[{drive without trailing backslashes}] {name}`: the name of a top folder of a drive.
pub open spec fn drive_folder_text(drive: Seq<char>, name: Seq<char>) -> Seq<char> {
    "["@ + strip_suffixes(drive, seq!['\\']) + "] "@ + name
}

/// The name of a top folder of a drive in the all-drives list.
pub fn drive_folder_name(drive: &str, name: &str) -> (s: String)
    ensures
        s@ == drive_folder_text(drive@, name@),
{
    let bs: Vec<char> = vec!['\\'];
    assert(bs@ =~= seq!['\\']);
    let d = strip_suffixes_exec(&chars_of(drive), &bs);
    let mut s = String::new();
    push_str(&mut s, "[");
    push_chars(&mut s, &d);
    push_str(&mut s, "] ");
    push_str(&mut s, name);
    s
}

/// The entries of the scanned folders, in task order, with no share yet.
pub open spec fn task_entries(ts: Seq<FolderScan>) -> Seq<ScanEntry> {
    Seq::new(ts.len(), |i: int| entry_of(ts[i].walked, ts[i].cluster as nat, no_share()))
}

/// The first `m` entries in size order (larger first, ties in list order).
pub open spec fn top_entries(es: Seq<ScanEntry>, m: nat) -> Seq<ScanEntry> {
    let o = ranking(size_keys(es));
    Seq::new(m, |k: int| es[o[k] as int])
}

/// The all-drives list keeps the largest folders: the kept entries come larger first, and
/// any entry larger than the last kept one is kept.
pub proof fn lemma_top_entries(es: Seq<ScanEntry>, m: nat)
    requires
        es.len() <= usize::MAX,
        m <= es.len(),
    ensures
        forall|i: int, j: int|
            0 <= i < j < m ==> #[trigger] top_entries(es, m)[j].size <= #[trigger] top_entries(es, m)[i].size,
        forall|x: int|
            0 <= x < es.len() && m > 0 && es[x].size > top_entries(es, m)[m - 1].size ==> top_entries(
                es,
                m,
            ).contains(#[trigger] es[x]),
{
    let keys = size_keys(es);
    lemma_ranking_exists(keys);
    let o = ranking(keys);
    let top = top_entries(es, m);
    assert forall|i: int, j: int| 0 <= i < j < m implies #[trigger] top[j].size <= #[trigger] top[i].size by {
        assert(before(keys, o[i] as int, o[j] as int));
    }
    assert forall|x: int|
        0 <= x < es.len() && m > 0 && es[x].size > top[m - 1].size implies top.contains(#[trigger] es[x]) by {
        lemma_ranking_onto(keys, o, x);
        let p = choose|p: int| 0 <= p < o.len() && o[p] == x;
        if p >= m {
            if p > m - 1 {
                assert(before(keys, o[m - 1] as int, o[p] as int));
            }
        }
        assert(p < m);
        assert(top[p] == es[x]);
    }
}

/// How many entries the all-drives list keeps.
pub open spec fn kept_count(n: nat, top_n: nat) -> nat {
    if top_n < n {
        top_n
    } else {
        n
    }
}

/// Each entry with its share of the summed size of the list.
pub open spec fn with_shares(es: Seq<ScanEntry>) -> Seq<ScanEntry> {
    Seq::new(
        es.len(),
        |i: int|
            ScanEntry {
                name: es[i].name,
                path: es[i].path,
                is_dir: es[i].is_dir,
                size: es[i].size,
                allocated: es[i].allocated,
                file_count: es[i].file_count,
                folder_count: es[i].folder_count,
                percent: Share { part: es[i].size, whole: sum(sizes(es)) as u64 },
            },
    )
}

/// The all-drives scan can be listed: every folder's totals fit in 64 bits, and so does the
/// summed size of the folders kept.
pub open spec fn drives_fit(ts: Seq<FolderScan>, top_n: nat) -> bool {
    &&& forall|i: int| 0 <= i < ts.len() ==> fits(#[trigger] ts[i].walked, ts[i].cluster as nat)
    &&& sum(sizes(top_entries(task_entries(ts), kept_count(ts.len(), top_n)))) <= u64::MAX
}

/// `未找到可用磁盘`.
pub open spec fn no_drive_text() -> Seq<char> {
    "未找到可用磁盘"@
}

/// Gives each entry its share of the summed size of the list.
pub fn apply_percentages(entries: &mut Vec<ScanEntry>)
    requires
        sum(sizes(old(entries)@)) <= u64::MAX,
    ensures
        final(entries)@ == with_shares(old(entries)@),
{
    let ghost es = entries@;
    let (total, _) = crate::structure::size_sums(entries);
    let mut i: usize = 0;
    while i < entries.len()
        invariant
            i <= entries@.len() == es.len(),
            total == sum(sizes(es)),
            forall|j: int| 0 <= j < i ==> #[trigger] entries@[j] == with_shares(es)[j],
            forall|j: int| i <= j < es.len() ==> #[trigger] entries@[j] == es[j],
        decreases es.len() - i,
    {
        let mut e = clone_entry(&entries[i]);
        e.percent = Share { part: e.size, whole: total };
        entries.set(i, e);
        i += 1;
    }
    assert(entries@ =~= with_shares(es));
}

/// The entries of the scanned folders.
fn folder_entries(tasks: &Vec<FolderScan>) -> (es: Vec<ScanEntry>)
    requires
        forall|i: int| 0 <= i < tasks@.len() ==> fits(#[trigger] tasks@[i].walked, tasks@[i].cluster as nat),
    ensures
        es@ == task_entries(tasks@),
{
    let mut es: Vec<ScanEntry> = Vec::new();
    let mut i: usize = 0;
    while i < tasks.len()
        invariant
            i <= tasks@.len(),
            forall|j: int| 0 <= j < tasks@.len() ==> fits(#[trigger] tasks@[j].walked, tasks@[j].cluster as nat),
            es@ == task_entries(tasks@).take(i as int),
        decreases tasks@.len() - i,
    {
        let n = build_node(&tasks[i].walked, tasks[i].cluster);
        es.push(n.entry);
        assert(es@ == task_entries(tasks@).take(i + 1));
        i += 1;
    }
    assert(task_entries(tasks@).take(tasks@.len() as int) == task_entries(tasks@));
    es
}

/// The first `m` entries in size order.
fn top_entries_exec(es: &Vec<ScanEntry>, m: usize) -> (out: Vec<ScanEntry>)
    requires
        m <= es@.len(),
    ensures
        out@ == top_entries(es@, m as nat),
{
    let keys = size_key_vec(es);
    let order = rank(&keys);
    proof {
        lemma_is_the_ranking(keys@, order@);
    }
    let mut out: Vec<ScanEntry> = Vec::new();
    let mut k: usize = 0;
    while k < m
        invariant
            k <= m <= es@.len() == order@.len(),
            order@ == ranking(size_keys(es@)),
            is_ranking(size_keys(es@), order@),
            out@ == top_entries(es@, m as nat).take(k as int),
        decreases m - k,
    {
        let j = order[k];
        out.push(clone_entry(&es[j]));
        assert(out@ == top_entries(es@, m as nat).take(k + 1));
        k += 1;
    }
    assert(top_entries(es@, m as nat).take(m as int) == top_entries(es@, m as nat));
    out
}

/// The summed size of a list, or `None` when it does not fit in 64 bits.
pub fn checked_size_sum(es: &Vec<ScanEntry>) -> (r: Option<u64>)
    ensures
        r is Some <==> sum(sizes(es@)) <= u64::MAX,
        r matches Some(t) ==> t == sum(sizes(es@)),
{
    let ghost xs = sizes(es@);
    let mut s: u64 = 0;
    let mut i: usize = 0;
    while i < es.len()
        invariant
            i <= es@.len(),
            xs == sizes(es@),
            s == sum(xs.take(i as int)),
        decreases es@.len() - i,
    {
        assert(xs.take(i + 1).drop_last() == xs.take(i as int));
        proof {
            lemma_sum_prefix(xs, i + 1);
        }
        let x = es[i].size;
        if x > u64::MAX - s {
            return None;
        }
        s = s + x;
        i += 1;
    }
    assert(xs.take(es@.len() as int) == xs);
    Some(s)
}

/// Whether every folder's totals fit in 64 bits, and so does the summed size of the kept.
pub fn check_drives_fit(tasks: &Vec<FolderScan>, top_n: usize) -> (b: bool)
    ensures
        b == drives_fit(tasks@, top_n as nat),
{
    let mut i: usize = 0;
    while i < tasks.len()
        invariant
            i <= tasks@.len(),
            forall|j: int| 0 <= j < i ==> fits(#[trigger] tasks@[j].walked, tasks@[j].cluster as nat),
        decreases tasks@.len() - i,
    {
        if walked_totals(&tasks[i].walked, tasks[i].cluster).is_none() {
            return false;
        }
        i += 1;
    }
    let es = folder_entries(tasks);
    let m = if top_n < tasks.len() {
        top_n
    } else {
        tasks.len()
    };
    let kept = top_entries_exec(&es, m);
    checked_size_sum(&kept).is_some()
}

/// The all-drives list: the scanned top folders of every drive, the `top_n` largest kept
/// (ties in task order), each with its share of their summed size; an error when no drive
/// was found.
pub fn scan_all_drives(drives: &Vec<String>, tasks: &Vec<FolderScan>, top_n: usize) -> (r: Result<Vec<ScanEntry>, String>)
    requires
        drives@.len() > 0 ==> drives_fit(tasks@, top_n as nat),
    ensures
        drives@.len() == 0 ==> (r matches Err(e) && e@ == no_drive_text()),
        drives@.len() > 0 ==> (r matches Ok(es) && es@ == with_shares(
            top_entries(task_entries(tasks@), kept_count(tasks@.len(), top_n as nat)),
        )),
{
    if drives.len() == 0 {
        return Err(String::from_str("未找到可用磁盘"));
    }
    let es = folder_entries(tasks);
    let m = if top_n < tasks.len() {
        top_n
    } else {
        tasks.len()
    };
    let mut kept = top_entries_exec(&es, m);
    apply_percentages(&mut kept);
    Ok(kept)
}

/// The lower-case form of a text, as `str::to_lowercase` gives it (full Unicode mapping).
pub uninterp spec fn lowercase(s: Seq<char>) -> Seq<char>;

/// `str::to_lowercase`; its result is named by `lowercase`.
#[verifier::external_body]
fn to_lowercase(s: &str) -> (r: String)
    ensures
        r@ == lowercase(s@),
{
    s.to_lowercase()
}

/// One item of a folder listing, before any size is known.
pub struct Listed {
    pub name: String,
    pub path: String,
    pub is_dir: bool,
}

/// The entry of a listed item: no sizes and no share yet.
pub open spec fn listed_entry(l: Listed) -> ScanEntry {
    ScanEntry {
        name: l.name,
        path: l.path,
        is_dir: l.is_dir,
        size: 0,
        allocated: 0,
        file_count: 0,
        folder_count: 0,
        percent: no_share(),
    }
}

/// Item `i` comes before item `j`: its lower-cased name is smaller, or the names tie and
/// `i` was listed first.
pub open spec fn name_before(ls: Seq<Listed>, i: int, j: int) -> bool {
    let a = lowercase(ls[i].name@);
    let b = lowercase(ls[j].name@);
    lex_less(a, b) || (!lex_less(b, a) && i < j)
}

/// `o` lists every item once, by lower-cased name (a stable sort).
pub open spec fn is_name_order(ls: Seq<Listed>, o: Seq<usize>) -> bool {
    &&& o.len() == ls.len()
    &&& forall|k: int| 0 <= k < o.len() ==> #[trigger] o[k] < ls.len()
    &&& forall|a: int, b: int|
        0 <= a < b < o.len() ==> name_before(ls, #[trigger] o[a] as int, #[trigger] o[b] as int)
}

/// `不是文件夹: {root}`.
pub open spec fn not_folder_text(root: Seq<char>) -> Seq<char> {
    "不是文件夹: "@ + root
}

/// `无法读取目录: {reason}`.
pub open spec fn unreadable_text(reason: Seq<char>) -> Seq<char> {
    "无法读取目录: "@ + reason
}

/// The quick listing of a folder: its items with no sizes yet, sorted by lower-cased name;
/// an error when `root` is not a folder or could not be read.
pub fn quick_list_directory(root: &str, is_dir: bool, listing: Result<Vec<Listed>, String>) -> (r: Result<Vec<ScanEntry>, String>)
    ensures
        !is_dir ==> (r matches Err(e) && e@ == not_folder_text(root@)),
        is_dir ==> (listing matches Err(why) ==> (r matches Err(e) && e@ == unreadable_text(why@))),
        is_dir ==> (listing matches Ok(items) ==> (r matches Ok(es) && exists|o: Seq<usize>|
            is_name_order(items@, o) && es@ == Seq::new(
                items@.len(),
                |k: int| listed_entry(items@[o[k] as int]),
            ))),
{
    if !is_dir {
        let mut e = String::new();
        push_str(&mut e, "不是文件夹: ");
        push_str(&mut e, root);
        return Err(e);
    }
    let items = match listing {
        Ok(items) => items,
        Err(why) => {
            let mut e = String::new();
            push_str(&mut e, "无法读取目录: ");
            push_str(&mut e, why.as_str());
            return Err(e);
        },
    };
    let ghost ls = items@;
    let mut keys: Vec<TextKey> = Vec::new();
    let mut i: usize = 0;
    while i < items.len()
        invariant
            i <= ls.len(),
            ls == items@,
            keys@.len() == i,
            forall|j: int| 0 <= j < i ==> (#[trigger] keys@[j]).0@ == lowercase(ls[j].name@),
        decreases ls.len() - i,
    {
        let low = to_lowercase(items[i].name.as_str());
        keys.push(TextKey(chars_of(low.as_str())));
        i += 1;
    }
    let order = rank(&keys);
    assert(is_name_order(ls, order@)) by {
        assert forall|a: int, b: int| 0 <= a < b < order@.len() implies name_before(
            ls,
            #[trigger] order@[a] as int,
            #[trigger] order@[b] as int,
        ) by {
            assert(before(keys@, order@[a] as int, order@[b] as int));
        }
    }
    let mut es: Vec<ScanEntry> = Vec::new();
    let mut k: usize = 0;
    while k < order.len()
        invariant
            k <= order@.len() == ls.len(),
            ls == items@,
            is_name_order(ls, order@),
            es@ == Seq::new(k as nat, |m: int| listed_entry(ls[order@[m] as int])),
        decreases ls.len() - k,
    {
        let it = &items[order[k]];
        es.push(ScanEntry {
            name: it.name.clone(),
            path: it.path.clone(),
            is_dir: it.is_dir,
            size: 0,
            allocated: 0,
            file_count: 0,
            folder_count: 0,
            percent: Share { part: 0, whole: 0 },
        });
        k += 1;
    }
    Ok(es)
}

} // verus!
