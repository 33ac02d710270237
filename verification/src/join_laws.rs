//! What holds of every join: each law is stated over the index pairs that
//! the kernel is proved to return.

use vstd::prelude::*;
use crate::hash_table::buckets_in_order;
use crate::join_spec::{
    bucket, concat_range, part_start, inner_pair, inner_rows, left_rows, outer_pair, outer_matched,
    outer_row, outer_rows, tail_rows, leftover, is_outer_join, inner_join_pairs, left_join_pairs,
    is_outer_join_pairs,
    lemma_bucket, lemma_bucket_step, lemma_concat_range_split, lemma_part_start,
};

verus! {

/// Item `t` of a run of rows is item `u` of some row `i`, and stands behind
/// all items of the rows before `i`.
pub proof fn lemma_concat_range_at<T>(row: spec_fn(int) -> Seq<T>, lo: int, hi: int, t: int) -> (iu: (int, int))
    requires
        0 <= t < concat_range(row, lo, hi).len(),
    ensures
        lo <= iu.0 < hi,
        0 <= iu.1 < row(iu.0).len(),
        concat_range(row, lo, hi)[t] == row(iu.0)[iu.1],
        t == concat_range(row, lo, iu.0).len() + iu.1,
    decreases hi - lo,
{
    let front = concat_range(row, lo, hi - 1);
    if t < front.len() {
        lemma_concat_range_at(row, lo, hi - 1, t)
    } else {
        (hi - 1, t - front.len())
    }
}

/// Item `u` of row `i` is an item of every run that holds row `i`.
pub proof fn lemma_concat_range_has<T>(row: spec_fn(int) -> Seq<T>, lo: int, hi: int, i: int, u: int) -> (t: int)
    requires
        lo <= i < hi,
        0 <= u < row(i).len(),
    ensures
        t == concat_range(row, lo, i).len() + u,
        0 <= t < concat_range(row, lo, hi).len(),
        concat_range(row, lo, hi)[t] == row(i)[u],
{
    lemma_concat_range_split(row, lo, i + 1, hi);
    assert(concat_range(row, lo, i + 1) == concat_range(row, lo, i) + row(i));
    concat_range(row, lo, i).len() + u
}

/// However the probe side is cut into contiguous slices, the slices' pairs
/// laid end to end are the pairs of the whole: the number of threads does
/// not show in an inner or a left join, neither in its pairs nor in their
/// order.
pub proof fn lemma_partition_invariance<T>(row: spec_fn(int) -> Seq<T>, len: int, n: int, m: int)
    requires
        len >= 0,
        n >= 1,
        m >= 1,
    ensures
        concat_range(|p: int| concat_range(row, part_start(len, n, p), part_start(len, n, p + 1)), 0, n)
            == concat_range(row, 0, len),
        concat_range(|p: int| concat_range(row, part_start(len, n, p), part_start(len, n, p + 1)), 0, n)
            == concat_range(|p: int| concat_range(row, part_start(len, m, p), part_start(len, m, p + 1)), 0, m),
{
    lemma_slices_make_whole(row, len, n, n);
    lemma_slices_make_whole(row, len, m, m);
}

/// The first `k` of `n` slices hold the rows up to where slice `k` begins.
pub proof fn lemma_slices_make_whole<T>(row: spec_fn(int) -> Seq<T>, len: int, n: int, k: int)
    requires
        len >= 0,
        n >= 1,
        0 <= k <= n,
    ensures
        concat_range(|p: int| concat_range(row, part_start(len, n, p), part_start(len, n, p + 1)), 0, k)
            == concat_range(row, 0, part_start(len, n, k)),
    decreases k,
{
    let slices = |p: int| concat_range(row, part_start(len, n, p), part_start(len, n, p + 1));
    if k == 0 {
        lemma_part_start(len, n, 0);
    } else {
        lemma_slices_make_whole(row, len, n, k - 1);
        lemma_part_start(len, n, k - 1);
        lemma_part_start(len, n, 0);
        lemma_concat_range_split(row, 0, part_start(len, n, k - 1), part_start(len, n, k));
        assert(slices(k - 1) == concat_range(row, part_start(len, n, k - 1), part_start(len, n, k)));
    }
}

/// Every pair of an inner join names a row of each table, and the two rows
/// carry the same key.
pub proof fn lemma_inner_join_sound(left: Seq<Seq<u8>>, right: Seq<Seq<u8>>, t: int)
    requires
        left.len() <= u32::MAX,
        right.len() <= u32::MAX,
        0 <= t < inner_join_pairs(left, right).len(),
    ensures
        inner_join_pairs(left, right)[t].0 < left.len(),
        inner_join_pairs(left, right)[t].1 < right.len(),
        left[inner_join_pairs(left, right)[t].0 as int] == right[inner_join_pairs(left, right)[t].1 as int],
{
    if left.len() > right.len() {
        let (i, u) = lemma_concat_range_at(inner_rows(left, right, false), 0, left.len() as int, t);
        lemma_bucket(right, left[i]);
    } else {
        let (j, u) = lemma_concat_range_at(inner_rows(right, left, true), 0, right.len() as int, t);
        lemma_bucket(left, right[j]);
    }
}

/// Every two rows that carry the same key are paired by the inner join.
pub proof fn lemma_inner_join_complete(left: Seq<Seq<u8>>, right: Seq<Seq<u8>>, i: int, j: int)
    requires
        left.len() <= u32::MAX,
        right.len() <= u32::MAX,
        0 <= i < left.len(),
        0 <= j < right.len(),
        left[i] == right[j],
    ensures
        inner_join_pairs(left, right).contains((i as u32, j as u32)),
{
    if left.len() > right.len() {
        lemma_bucket(right, left[i]);
        let js = bucket(right, left[i]);
        let u = choose|u: int| 0 <= u < js.len() && js[u] == j as u32;
        let t = lemma_concat_range_has(inner_rows(left, right, false), 0, left.len() as int, i, u);
        assert(inner_join_pairs(left, right)[t] == (i as u32, j as u32));
    } else {
        lemma_bucket(left, right[j]);
        let is = bucket(left, right[j]);
        let u = choose|u: int| 0 <= u < is.len() && is[u] == i as u32;
        let t = lemma_concat_range_has(inner_rows(right, left, true), 0, right.len() as int, j, u);
        assert(inner_join_pairs(left, right)[t] == (i as u32, j as u32));
    }
}

/// Every pair of a left join names a left row; its partner, where it has
/// one, is a right row of the same key.
pub proof fn lemma_left_join_sound(left: Seq<Seq<u8>>, right: Seq<Seq<u8>>, t: int)
    requires
        left.len() <= u32::MAX,
        right.len() <= u32::MAX,
        0 <= t < left_join_pairs(left, right).len(),
    ensures
        left_join_pairs(left, right)[t].0 < left.len(),
        left_join_pairs(left, right)[t].1 matches Some(j) ==> j < right.len() && left[left_join_pairs(
            left,
            right,
        )[t].0 as int] == right[j as int],
{
    let (i, u) = lemma_concat_range_at(left_rows(left, right), 0, left.len() as int, t);
    lemma_bucket(right, left[i]);
}

/// Every left row stands in at least one pair of a left join. A left row
/// whose key no right row carries stands in exactly one pair, and that pair
/// has no partner.
pub proof fn lemma_left_join_covers(left: Seq<Seq<u8>>, right: Seq<Seq<u8>>, i: int)
    requires
        left.len() <= u32::MAX,
        right.len() <= u32::MAX,
        0 <= i < left.len(),
    ensures
        exists|t: int| 0 <= t < left_join_pairs(left, right).len() && #[trigger] left_join_pairs(left, right)[t].0 == i,
        (forall|j: int| 0 <= j < right.len() ==> right[j] != left[i]) ==> {
            &&& forall|t: int|
                0 <= t < left_join_pairs(left, right).len() && #[trigger] left_join_pairs(left, right)[t].0 == i
                    ==> left_join_pairs(left, right)[t].1 is None
            &&& forall|t: int, s: int|
                0 <= t < left_join_pairs(left, right).len() && 0 <= s < left_join_pairs(left, right).len()
                    && #[trigger] left_join_pairs(left, right)[t].0 == i && #[trigger] left_join_pairs(
                    left,
                    right,
                )[s].0 == i ==> t == s
        },
{
    let rows = left_rows(left, right);
    let pairs = left_join_pairs(left, right);
    lemma_bucket(right, left[i]);
    let t0 = lemma_concat_range_has(rows, 0, left.len() as int, i, 0);
    assert(pairs[t0].0 == i);
    if forall|j: int| 0 <= j < right.len() ==> right[j] != left[i] {
        let js = bucket(right, left[i]);
        if js.len() > 0 {
            assert(right[js[0] as int] == left[i]);
        }
        assert(rows(i).len() == 1);
        assert forall|t: int| 0 <= t < pairs.len() && #[trigger] pairs[t].0 == i implies pairs[t].1 is None && t == t0 by {
            let (i2, u) = lemma_concat_range_at(rows, 0, left.len() as int, t);
            lemma_bucket(right, left[i2]);
            assert(rows(i2)[u].0 == i2 as u32);
        }
    }
}

/// In `a`, a key that occurs has a first row.
pub proof fn lemma_first_occurrence(a: Seq<Seq<u8>>, k: Seq<u8>) -> (i: int)
    requires
        a.contains(k),
    ensures
        0 <= i < a.len(),
        a[i] == k,
        !a.take(i).contains(k),
    decreases a.len(),
{
    let w = choose|w: int| 0 <= w < a.len() && a[w] == k;
    let head = a.take(w);
    if head.contains(k) {
        let v = choose|v: int| 0 <= v < head.len() && head[v] == k;
        let i = lemma_first_occurrence(head, k);
        assert(head.take(i) =~= a.take(i));
        i
    } else {
        w
    }
}

/// Some pair of `r` has probe row `i`.
pub open spec fn names_probe(r: Seq<(Option<u32>, Option<u32>)>, i: u32, swap: bool) -> bool {
    exists|t: int| 0 <= t < r.len() && outer_pair((#[trigger] r[t]).0, r[t].1, swap).0 == Some(i)
}

/// Some pair of `r` has build row `j`.
pub open spec fn names_build(r: Seq<(Option<u32>, Option<u32>)>, j: u32, swap: bool) -> bool {
    exists|t: int| 0 <= t < r.len() && outer_pair((#[trigger] r[t]).0, r[t].1, swap).1 == Some(j)
}

/// Some pair of `r` has left row `i`.
pub open spec fn names_left(r: Seq<(Option<u32>, Option<u32>)>, i: u32) -> bool {
    exists|t: int| 0 <= t < r.len() && (#[trigger] r[t]).0 == Some(i)
}

/// Some pair of `r` has right row `j`.
pub open spec fn names_right(r: Seq<(Option<u32>, Option<u32>)>, j: u32) -> bool {
    exists|t: int| 0 <= t < r.len() && (#[trigger] r[t]).1 == Some(j)
}

/// In an outer join every row of the probe side and every row of the build
/// side stands in a pair, no pair is empty on both sides, and two rows in
/// one pair carry the same key.
pub proof fn lemma_outer_kernel(a: Seq<Seq<u8>>, b: Seq<Seq<u8>>, swap: bool, r: Seq<(Option<u32>, Option<u32>)>)
    requires
        a.len() <= u32::MAX,
        b.len() <= u32::MAX,
        is_outer_join(a, b, swap, r),
    ensures
        forall|i: u32| i < a.len() ==> names_probe(r, i, swap),
        forall|j: u32| j < b.len() ==> names_build(r, j, swap),
        forall|t: int| 0 <= t < r.len() ==> !((#[trigger] r[t]).0 is None && r[t].1 is None),
        forall|t: int|
            0 <= t < r.len() ==> (outer_pair((#[trigger] r[t]).0, r[t].1, swap) matches (Some(i), Some(j)) ==> i
                < a.len() && j < b.len() && a[i as int] == b[j as int]),
        forall|t: int|
            0 <= t < r.len() ==> (outer_pair((#[trigger] r[t]).0, r[t].1, swap).0 matches Some(i) ==> i < a.len()),
        forall|t: int|
            0 <= t < r.len() ==> (outer_pair((#[trigger] r[t]).0, r[t].1, swap).1 matches Some(j) ==> j < b.len()),
{
    let (keys, buckets) = choose|keys: Seq<Seq<u8>>, buckets: Seq<Seq<u32>>|
        #![trigger buckets_in_order(leftover(a, b, a.len() as int), keys, buckets)]
        buckets_in_order(leftover(a, b, a.len() as int), keys, buckets) && r == concat_range(
            outer_rows(a, b, swap),
            0,
            a.len() as int,
        ) + concat_range(tail_rows(buckets, swap), 0, buckets.len() as int);
    let rows = outer_rows(a, b, swap);
    let tails = tail_rows(buckets, swap);
    let probed = concat_range(rows, 0, a.len() as int);
    let tail = concat_range(tails, 0, buckets.len() as int);
    let rest = leftover(a, b, a.len() as int);
    assert(a.take(a.len() as int) =~= a);
    assert forall|i: u32| i < a.len() implies names_probe(r, i, swap) by {
        lemma_bucket(b, a[i as int]);
        let t = lemma_concat_range_has(rows, 0, a.len() as int, i as int, 0);
        assert(r[t] == rows(i as int)[0]);
        assert(outer_pair(r[t].0, r[t].1, swap).0 == Some(i));
    }
    assert forall|j: u32| j < b.len() implies names_build(r, j, swap) by {
        let k = b[j as int];
        lemma_bucket(b, k);
        let js = bucket(b, k);
        let u = choose|u: int| 0 <= u < js.len() && js[u] == j;
        if a.contains(k) {
            let i = lemma_first_occurrence(a, k);
            assert(outer_matched(a, b, i));
            let t = lemma_concat_range_has(rows, 0, a.len() as int, i, u);
            assert(r[t] == rows(i)[u]);
            assert(outer_pair(r[t].0, r[t].1, swap).1 == Some(j));
        } else {
            assert(rest.dom().contains(k));
            assert(keys.contains(k));
            let p = choose|p: int| 0 <= p < keys.len() && keys[p] == k;
            assert(buckets[p] == rest[keys[p]]);
            let t = lemma_concat_range_has(tails, 0, buckets.len() as int, p, u);
            assert(r[probed.len() + t] == tails(p)[u]);
            assert(outer_pair(r[probed.len() + t].0, r[probed.len() + t].1, swap).1 == Some(j));
        }
    }
    assert forall|t: int| 0 <= t < r.len() implies !((#[trigger] r[t]).0 is None && r[t].1 is None) && (outer_pair(
        r[t].0,
        r[t].1,
        swap,
    ) matches (Some(i), Some(j)) ==> i < a.len() && j < b.len() && a[i as int] == b[j as int]) && (outer_pair(
        r[t].0,
        r[t].1,
        swap,
    ).0 matches Some(i) ==> i < a.len()) && (outer_pair(r[t].0, r[t].1, swap).1 matches Some(j) ==> j < b.len()) by {
        if t < probed.len() {
            let (i, u) = lemma_concat_range_at(rows, 0, a.len() as int, t);
            lemma_bucket(b, a[i]);
            assert(r[t] == rows(i)[u]);
        } else {
            let (p, u) = lemma_concat_range_at(tails, 0, buckets.len() as int, t - probed.len());
            assert(r[t] == tails(p)[u]);
            assert(keys.contains(keys[p]));
            assert(buckets[p] == rest[keys[p]]);
            lemma_bucket(b, keys[p]);
        }
    }
}

/// In an outer join every left row and every right row stands in a pair,
/// no pair is empty on both sides, and two rows in one pair carry the same
/// key.
pub proof fn lemma_outer_join_covers(left: Seq<Seq<u8>>, right: Seq<Seq<u8>>, r: Seq<(Option<u32>, Option<u32>)>)
    requires
        left.len() <= u32::MAX,
        right.len() <= u32::MAX,
        is_outer_join_pairs(left, right, r),
    ensures
        forall|i: u32| i < left.len() ==> names_left(r, i),
        forall|j: u32| j < right.len() ==> names_right(r, j),
        forall|t: int| 0 <= t < r.len() ==> !((#[trigger] r[t]).0 is None && r[t].1 is None),
        forall|t: int|
            0 <= t < r.len() ==> ((#[trigger] r[t]) matches (Some(i), Some(j)) ==> i < left.len() && j
                < right.len() && left[i as int] == right[j as int]),
        forall|t: int| 0 <= t < r.len() ==> ((#[trigger] r[t]).0 matches Some(i) ==> i < left.len()),
        forall|t: int| 0 <= t < r.len() ==> ((#[trigger] r[t]).1 matches Some(j) ==> j < right.len()),
{
    if left.len() > right.len() {
        lemma_outer_kernel(left, right, false, r);
        assert forall|i: u32| i < left.len() implies names_left(r, i) by {
            assert(names_probe(r, i, false));
            let t = choose|t: int| 0 <= t < r.len() && outer_pair((#[trigger] r[t]).0, r[t].1, false).0 == Some(i);
            assert(r[t].0 == Some(i));
        }
        assert forall|j: u32| j < right.len() implies names_right(r, j) by {
            assert(names_build(r, j, false));
            let t = choose|t: int| 0 <= t < r.len() && outer_pair((#[trigger] r[t]).0, r[t].1, false).1 == Some(j);
            assert(r[t].1 == Some(j));
        }
        assert forall|t: int| 0 <= t < r.len() implies ((#[trigger] r[t]) matches (Some(i), Some(j)) ==> i
            < left.len() && j < right.len() && left[i as int] == right[j as int]) && (r[t].0 matches Some(i) ==> i
            < left.len()) && (r[t].1 matches Some(j) ==> j < right.len()) by {
            assert(outer_pair(r[t].0, r[t].1, false) == r[t]);
        }
    } else {
        lemma_outer_kernel(right, left, true, r);
        assert forall|i: u32| i < left.len() implies names_left(r, i) by {
            assert(names_build(r, i, true));
            let t = choose|t: int| 0 <= t < r.len() && outer_pair((#[trigger] r[t]).0, r[t].1, true).1 == Some(i);
            assert(r[t].0 == Some(i));
        }
        assert forall|j: u32| j < right.len() implies names_right(r, j) by {
            assert(names_probe(r, j, true));
            let t = choose|t: int| 0 <= t < r.len() && outer_pair((#[trigger] r[t]).0, r[t].1, true).0 == Some(j);
            assert(r[t].1 == Some(j));
        }
        assert forall|t: int| 0 <= t < r.len() implies ((#[trigger] r[t]) matches (Some(i), Some(j)) ==> i
            < left.len() && j < right.len() && left[i as int] == right[j as int]) && (r[t].0 matches Some(i) ==> i
            < left.len()) && (r[t].1 matches Some(j) ==> j < right.len()) by {
            assert(outer_pair(r[t].0, r[t].1, true) == (r[t].1, r[t].0));
        }
    }
}

/// No pair stands twice among the pairs that the probe rows of an inner
/// join owe.
pub proof fn lemma_inner_kernel_no_duplicates(a: Seq<Seq<u8>>, b: Seq<Seq<u8>>, swap: bool)
    requires
        a.len() <= u32::MAX,
        b.len() <= u32::MAX,
    ensures
        concat_range(inner_rows(a, b, swap), 0, a.len() as int).no_duplicates(),
{
    let rows = inner_rows(a, b, swap);
    let n = a.len() as int;
    let pairs = concat_range(rows, 0, n);
    assert forall|t1: int, t2: int| 0 <= t1 < pairs.len() && 0 <= t2 < pairs.len() && t1 != t2 implies pairs[t1]
        != pairs[t2] by {
        let (i1, u1) = lemma_concat_range_at(rows, 0, n, t1);
        let (i2, u2) = lemma_concat_range_at(rows, 0, n, t2);
        lemma_bucket(b, a[i1]);
        lemma_bucket(b, a[i2]);
        let js1 = bucket(b, a[i1]);
        let js2 = bucket(b, a[i2]);
        assert(pairs[t1] == inner_pair(i1 as u32, js1[u1], swap));
        assert(pairs[t2] == inner_pair(i2 as u32, js2[u2], swap));
        if pairs[t1] == pairs[t2] {
            assert(i1 == i2);
            assert(js1[u1] == js1[u2]);
            if u1 < u2 {
                assert(js1[u1] < js1[u2]);
            }
            if u2 < u1 {
                assert(js1[u2] < js1[u1]);
            }
        }
    }
}

/// No pair stands twice in an inner join.
pub proof fn lemma_inner_join_no_duplicates(left: Seq<Seq<u8>>, right: Seq<Seq<u8>>)
    requires
        left.len() <= u32::MAX,
        right.len() <= u32::MAX,
    ensures
        inner_join_pairs(left, right).no_duplicates(),
{
    if left.len() > right.len() {
        lemma_inner_kernel_no_duplicates(left, right, false);
    } else {
        lemma_inner_kernel_no_duplicates(right, left, true);
    }
}

/// No pair stands twice in a left join.
pub proof fn lemma_left_join_no_duplicates(left: Seq<Seq<u8>>, right: Seq<Seq<u8>>)
    requires
        left.len() <= u32::MAX,
        right.len() <= u32::MAX,
    ensures
        left_join_pairs(left, right).no_duplicates(),
{
    let rows = left_rows(left, right);
    let n = left.len() as int;
    let pairs = left_join_pairs(left, right);
    assert forall|t1: int, t2: int| 0 <= t1 < pairs.len() && 0 <= t2 < pairs.len() && t1 != t2 implies pairs[t1]
        != pairs[t2] by {
        let (i1, u1) = lemma_concat_range_at(rows, 0, n, t1);
        let (i2, u2) = lemma_concat_range_at(rows, 0, n, t2);
        lemma_bucket(right, left[i1]);
        lemma_bucket(right, left[i2]);
        let js1 = bucket(right, left[i1]);
        assert(pairs[t1].0 == i1 as u32);
        assert(pairs[t2].0 == i2 as u32);
        if pairs[t1] == pairs[t2] {
            assert(i1 == i2);
            if js1.len() > 0 {
                assert(pairs[t1].1 == Some(js1[u1]));
                assert(pairs[t2].1 == Some(js1[u2]));
                if u1 < u2 {
                    assert(js1[u1] < js1[u2]);
                }
                if u2 < u1 {
                    assert(js1[u2] < js1[u1]);
                }
            }
        }
    }
}

/// In an outer join no pair stands twice; a build row that stands without a
/// probe row stands in no pair with one, and a probe row that stands
/// without a build row stands in no pair with one.
pub proof fn lemma_outer_kernel_once(a: Seq<Seq<u8>>, b: Seq<Seq<u8>>, swap: bool, r: Seq<(Option<u32>, Option<u32>)>)
    requires
        a.len() <= u32::MAX,
        b.len() <= u32::MAX,
        is_outer_join(a, b, swap, r),
    ensures
        r.no_duplicates(),
        forall|t: int, u: int|
            0 <= t < r.len() && 0 <= u < r.len() && outer_pair((#[trigger] r[t]).0, r[t].1, swap).0 is None
                && outer_pair(r[t].0, r[t].1, swap).1 == outer_pair((#[trigger] r[u]).0, r[u].1, swap).1
                ==> outer_pair(r[u].0, r[u].1, swap).0 is None,
        forall|t: int, u: int|
            0 <= t < r.len() && 0 <= u < r.len() && outer_pair((#[trigger] r[t]).0, r[t].1, swap).1 is None
                && outer_pair(r[t].0, r[t].1, swap).0 == outer_pair((#[trigger] r[u]).0, r[u].1, swap).0
                ==> outer_pair(r[u].0, r[u].1, swap).1 is None,
{
    let (keys, buckets) = choose|keys: Seq<Seq<u8>>, buckets: Seq<Seq<u32>>|
        #![trigger buckets_in_order(leftover(a, b, a.len() as int), keys, buckets)]
        buckets_in_order(leftover(a, b, a.len() as int), keys, buckets) && r == concat_range(
            outer_rows(a, b, swap),
            0,
            a.len() as int,
        ) + concat_range(tail_rows(buckets, swap), 0, buckets.len() as int);
    let rows = outer_rows(a, b, swap);
    let tails = tail_rows(buckets, swap);
    let n = a.len() as int;
    let m = buckets.len() as int;
    let probed = concat_range(rows, 0, n);
    let rest = leftover(a, b, n);
    assert(a.take(n) =~= a);
    lemma_outer_kernel(a, b, swap, r);
    let tail = concat_range(tails, 0, m);
    // a pair of the probe part names a probe row, a pair of the tail names none
    assert forall|t: int| 0 <= t < r.len() implies (t < probed.len() <==> outer_pair(
        (#[trigger] r[t]).0,
        r[t].1,
        swap,
    ).0 is Some) by {
        if t < probed.len() {
            let (i, w) = lemma_probed_at(a, b, swap, t);
            assert(r[t] == probed[t]);
        } else {
            let (p, w) = lemma_tail_at(buckets, swap, t - probed.len());
            assert(r[t] == tail[t - probed.len()]);
        }
    }
    assert forall|t1: int, t2: int| 0 <= t1 < r.len() && 0 <= t2 < r.len() && t1 != t2 implies r[t1] != r[t2] by {
        if r[t1] == r[t2] {
            if t1 < probed.len() && t2 < probed.len() {
                let (i1, w1) = lemma_probed_at(a, b, swap, t1);
                let (i2, w2) = lemma_probed_at(a, b, swap, t2);
                assert(r[t1] == probed[t1] && r[t2] == probed[t2]);
                assert(outer_pair(r[t1].0, r[t1].1, swap).0 == Some(i1 as u32));
                assert(outer_pair(r[t2].0, r[t2].1, swap).0 == Some(i2 as u32));
                assert(i1 == i2);
                lemma_bucket(b, a[i1]);
                let js = bucket(b, a[i1]);
                if outer_matched(a, b, i1) {
                    assert(outer_pair(r[t1].0, r[t1].1, swap).1 == Some(js[w1]));
                    assert(outer_pair(r[t2].0, r[t2].1, swap).1 == Some(js[w2]));
                    if w1 < w2 {
                        assert(js[w1] < js[w2]);
                    }
                    if w2 < w1 {
                        assert(js[w2] < js[w1]);
                    }
                }
            } else if t1 >= probed.len() && t2 >= probed.len() {
                let (p1, w1) = lemma_tail_at(buckets, swap, t1 - probed.len());
                let (p2, w2) = lemma_tail_at(buckets, swap, t2 - probed.len());
                assert(r[t1] == tail[t1 - probed.len()] && r[t2] == tail[t2 - probed.len()]);
                assert(keys.contains(keys[p1]) && keys.contains(keys[p2]));
                assert(buckets[p1] == rest[keys[p1]] && buckets[p2] == rest[keys[p2]]);
                lemma_bucket(b, keys[p1]);
                lemma_bucket(b, keys[p2]);
                assert(buckets[p1][w1] == buckets[p2][w2]);
                let j = buckets[p1][w1];
                assert(b[j as int] == keys[p1]);
                assert(b[j as int] == keys[p2]);
                assert(p1 == p2);
                if w1 < w2 {
                    assert(buckets[p1][w1] < buckets[p1][w2]);
                }
                if w2 < w1 {
                    assert(buckets[p1][w2] < buckets[p1][w1]);
                }
            } else {
                assert(outer_pair(r[t1].0, r[t1].1, swap).0 == outer_pair(r[t2].0, r[t2].1, swap).0);
            }
        }
    }
    assert forall|t: int, u: int|
        0 <= t < r.len() && 0 <= u < r.len() && outer_pair((#[trigger] r[t]).0, r[t].1, swap).0 is None
            && outer_pair(r[t].0, r[t].1, swap).1 == outer_pair(
            (#[trigger] r[u]).0,
            r[u].1,
            swap,
        ).1 implies outer_pair(r[u].0, r[u].1, swap).0 is None by {
        assert(t >= probed.len());
        let (p, w) = lemma_tail_at(buckets, swap, t - probed.len());
        assert(r[t] == tail[t - probed.len()]);
        assert(keys.contains(keys[p]));
        assert(rest.dom().contains(keys[p]));
        assert(buckets[p] == rest[keys[p]]);
        lemma_bucket(b, keys[p]);
        let j = buckets[p][w];
        assert(b[j as int] == keys[p]);
        if outer_pair(r[u].0, r[u].1, swap).0 is Some {
            let i = outer_pair(r[u].0, r[u].1, swap).0->0;
            assert(outer_pair(r[u].0, r[u].1, swap).1 == Some(j));
            assert(a[i as int] == b[j as int]);
            assert(a.contains(keys[p]));
        }
    }
    assert forall|t: int, u: int|
        0 <= t < r.len() && 0 <= u < r.len() && outer_pair((#[trigger] r[t]).0, r[t].1, swap).1 is None
            && outer_pair(r[t].0, r[t].1, swap).0 == outer_pair(
            (#[trigger] r[u]).0,
            r[u].1,
            swap,
        ).0 implies outer_pair(r[u].0, r[u].1, swap).1 is None by {
        if t >= probed.len() {
            let (p, w) = lemma_tail_at(buckets, swap, t - probed.len());
            assert(r[t] == tail[t - probed.len()]);
        }
        assert(t < probed.len());
        assert(u < probed.len());
        let (i1, w1) = lemma_probed_at(a, b, swap, t);
        let (i2, w2) = lemma_probed_at(a, b, swap, u);
        assert(r[t] == probed[t] && r[u] == probed[u]);
        assert(outer_pair(r[t].0, r[t].1, swap).0 == Some(i1 as u32));
        assert(outer_pair(r[u].0, r[u].1, swap).0 == Some(i2 as u32));
        assert(i1 == i2);
    }
}

/// Where a pair of the probe part of an outer join comes from: its probe
/// row, and its place in what that row owes.
pub proof fn lemma_probed_at(a: Seq<Seq<u8>>, b: Seq<Seq<u8>>, swap: bool, t: int) -> (iw: (int, int))
    requires
        a.len() <= u32::MAX,
        0 <= t < concat_range(outer_rows(a, b, swap), 0, a.len() as int).len(),
    ensures
        0 <= iw.0 < a.len(),
        0 <= iw.1 < outer_row(a, b, iw.0, swap).len(),
        concat_range(outer_rows(a, b, swap), 0, a.len() as int)[t] == outer_row(a, b, iw.0, swap)[iw.1],
        t == concat_range(outer_rows(a, b, swap), 0, iw.0).len() + iw.1,
        outer_matched(a, b, iw.0) ==> iw.1 < bucket(b, a[iw.0]).len(),
        !outer_matched(a, b, iw.0) ==> iw.1 == 0,
{
    lemma_concat_range_at(outer_rows(a, b, swap), 0, a.len() as int, t)
}

/// Where a pair of the tail of an outer join comes from: its bucket, and
/// its place in the bucket.
pub proof fn lemma_tail_at(buckets: Seq<Seq<u32>>, swap: bool, t: int) -> (pw: (int, int))
    requires
        0 <= t < concat_range(tail_rows(buckets, swap), 0, buckets.len() as int).len(),
    ensures
        0 <= pw.0 < buckets.len(),
        0 <= pw.1 < buckets[pw.0].len(),
        concat_range(tail_rows(buckets, swap), 0, buckets.len() as int)[t] == outer_pair(
            None,
            Some(buckets[pw.0][pw.1]),
            swap,
        ),
        t == concat_range(tail_rows(buckets, swap), 0, pw.0).len() + pw.1,
{
    lemma_concat_range_at(tail_rows(buckets, swap), 0, buckets.len() as int, t)
}

/// In an outer join no pair stands twice. A right row that stands without
/// a left row stands in no pair with one, and a left row that stands
/// without a right row stands in no pair with one. A row stands alone where
/// no row of the other table has its key, and also where an earlier row of
/// its own table with the same key has taken the bucket.
pub proof fn lemma_outer_join_once(left: Seq<Seq<u8>>, right: Seq<Seq<u8>>, r: Seq<(Option<u32>, Option<u32>)>)
    requires
        left.len() <= u32::MAX,
        right.len() <= u32::MAX,
        is_outer_join_pairs(left, right, r),
    ensures
        r.no_duplicates(),
        forall|t: int, u: int|
            0 <= t < r.len() && 0 <= u < r.len() && (#[trigger] r[t]).0 is None && r[t].1 == (#[trigger] r[u]).1
                ==> r[u].0 is None,
        forall|t: int, u: int|
            0 <= t < r.len() && 0 <= u < r.len() && (#[trigger] r[t]).1 is None && r[t].0 == (#[trigger] r[u]).0
                ==> r[u].1 is None,
{
    if left.len() > right.len() {
        lemma_outer_kernel_once(left, right, false, r);
        assert forall|t: int, u: int|
            0 <= t < r.len() && 0 <= u < r.len() && (#[trigger] r[t]).0 is None && r[t].1 == (#[trigger] r[u]).1
                implies r[u].0 is None by {
            assert(outer_pair(r[t].0, r[t].1, false) == r[t]);
            assert(outer_pair(r[u].0, r[u].1, false) == r[u]);
        }
        assert forall|t: int, u: int|
            0 <= t < r.len() && 0 <= u < r.len() && (#[trigger] r[t]).1 is None && r[t].0 == (#[trigger] r[u]).0
                implies r[u].1 is None by {
            assert(outer_pair(r[t].0, r[t].1, false) == r[t]);
            assert(outer_pair(r[u].0, r[u].1, false) == r[u]);
        }
    } else {
        lemma_outer_kernel_once(right, left, true, r);
        assert forall|t: int, u: int|
            0 <= t < r.len() && 0 <= u < r.len() && (#[trigger] r[t]).0 is None && r[t].1 == (#[trigger] r[u]).1
                implies r[u].0 is None by {
            assert(outer_pair(r[t].0, r[t].1, true) == (r[t].1, r[t].0));
            assert(outer_pair(r[u].0, r[u].1, true) == (r[u].1, r[u].0));
        }
        assert forall|t: int, u: int|
            0 <= t < r.len() && 0 <= u < r.len() && (#[trigger] r[t]).1 is None && r[t].0 == (#[trigger] r[u]).0
                implies r[u].1 is None by {
            assert(outer_pair(r[t].0, r[t].1, true) == (r[t].1, r[t].0));
            assert(outer_pair(r[u].0, r[u].1, true) == (r[u].1, r[u].0));
        }
    }
}

/// How many items of `s` meet `pred`.
pub open spec fn count_where<T>(s: Seq<T>, pred: spec_fn(T) -> bool) -> nat
    decreases s.len(),
{
    if s.len() == 0 {
        0
    } else {
        count_where(s.drop_last(), pred) + if pred(s.last()) {
            1nat
        } else {
            0nat
        }
    }
}

/// Counting runs over two sequences laid end to end.
pub proof fn lemma_count_add<T>(x: Seq<T>, y: Seq<T>, pred: spec_fn(T) -> bool)
    ensures
        count_where(x + y, pred) == count_where(x, pred) + count_where(y, pred),
    decreases y.len(),
{
    if y.len() == 0 {
        assert(x + y =~= x);
    } else {
        lemma_count_add(x, y.drop_last(), pred);
        assert((x + y).drop_last() =~= x + y.drop_last());
    }
}

/// Where all items meet `pred`, or none does, the count is the length, or
/// nothing.
pub proof fn lemma_count_uniform<T>(s: Seq<T>, pred: spec_fn(T) -> bool)
    ensures
        (forall|t: int| 0 <= t < s.len() ==> pred(#[trigger] s[t])) ==> count_where(s, pred) == s.len(),
        (forall|t: int| 0 <= t < s.len() ==> !pred(#[trigger] s[t])) ==> count_where(s, pred) == 0,
    decreases s.len(),
{
    if s.len() > 0 {
        lemma_count_uniform(s.drop_last(), pred);
        if forall|t: int| 0 <= t < s.len() ==> pred(#[trigger] s[t]) {
            assert forall|t: int| 0 <= t < s.drop_last().len() implies pred(#[trigger] s.drop_last()[t]) by {
                assert(s.drop_last()[t] == s[t]);
            }
        }
        if forall|t: int| 0 <= t < s.len() ==> !pred(#[trigger] s[t]) {
            assert forall|t: int| 0 <= t < s.drop_last().len() implies !pred(#[trigger] s.drop_last()[t]) by {
                assert(s.drop_last()[t] == s[t]);
            }
        }
    }
}

/// Whether the probe row of a pair carries key `k`.
pub open spec fn probe_has_key(a: Seq<Seq<u8>>, k: Seq<u8>, swap: bool) -> spec_fn((u32, u32)) -> bool {
    |p: (u32, u32)| a[inner_pair(p.0, p.1, swap).0 as int] == k
}

/// Among the pairs of the first `n` probe rows, those of key `k` number the
/// rows of key `k` among these probe rows times the rows of key `k` on the
/// build side.
pub proof fn lemma_count_key_pairs(a: Seq<Seq<u8>>, b: Seq<Seq<u8>>, swap: bool, k: Seq<u8>, n: int)
    requires
        a.len() <= u32::MAX,
        b.len() <= u32::MAX,
        0 <= n <= a.len(),
    ensures
        count_where(concat_range(inner_rows(a, b, swap), 0, n), probe_has_key(a, k, swap)) == bucket(
            a.take(n),
            k,
        ).len() * bucket(b, k).len(),
    decreases n,
{
    let pred = probe_has_key(a, k, swap);
    let rows = inner_rows(a, b, swap);
    if n == 0 {
        assert(a.take(0).len() == 0);
        assert(bucket(a.take(0), k).len() * bucket(b, k).len() == 0) by (nonlinear_arith)
            requires
                bucket(a.take(0), k).len() == 0,
        ;
    } else {
        lemma_count_key_pairs(a, b, swap, k, n - 1);
        lemma_bucket_step(a, n - 1, k);
        let row = rows(n - 1);
        lemma_count_add(concat_range(rows, 0, n - 1), row, pred);
        lemma_count_uniform(row, pred);
        let x = bucket(a.take(n - 1), k).len();
        let y = bucket(b, k).len();
        if a[n - 1] == k {
            assert forall|t: int| 0 <= t < row.len() implies pred(#[trigger] row[t]) by {
                assert(inner_pair(row[t].0, row[t].1, swap).0 == (n - 1) as u32);
            }
            assert((x + 1) * y == x * y + y) by (nonlinear_arith);
        } else {
            assert forall|t: int| 0 <= t < row.len() implies !pred(#[trigger] row[t]) by {
                assert(inner_pair(row[t].0, row[t].1, swap).0 == (n - 1) as u32);
            }
        }
    }
}

/// Counting with two predicates that agree on every item gives one count.
pub proof fn lemma_count_agree<T>(s: Seq<T>, p: spec_fn(T) -> bool, q: spec_fn(T) -> bool)
    requires
        forall|t: int| 0 <= t < s.len() ==> p(#[trigger] s[t]) == q(s[t]),
    ensures
        count_where(s, p) == count_where(s, q),
    decreases s.len(),
{
    if s.len() > 0 {
        assert forall|t: int| 0 <= t < s.drop_last().len() implies p(#[trigger] s.drop_last()[t]) == q(s.drop_last()[t]) by {
            assert(s.drop_last()[t] == s[t]);
        }
        lemma_count_agree(s.drop_last(), p, q);
        assert(p(s[s.len() - 1]) == q(s[s.len() - 1]));
    }
}

/// The pairs of an inner join whose left row carries key `k` number the
/// left rows of key `k` times the right rows of key `k`. For the key of a
/// null cell this says that nulls match nulls, each with each.
pub proof fn lemma_inner_join_key_count(left: Seq<Seq<u8>>, right: Seq<Seq<u8>>, k: Seq<u8>)
    requires
        left.len() <= u32::MAX,
        right.len() <= u32::MAX,
    ensures
        count_where(inner_join_pairs(left, right), |p: (u32, u32)| left[p.0 as int] == k) == bucket(left, k).len()
            * bucket(right, k).len(),
{
    let want = |p: (u32, u32)| left[p.0 as int] == k;
    let pairs = inner_join_pairs(left, right);
    if left.len() > right.len() {
        lemma_count_key_pairs(left, right, false, k, left.len() as int);
        assert(left.take(left.len() as int) =~= left);
        lemma_count_agree(pairs, want, probe_has_key(left, k, false));
    } else {
        lemma_count_key_pairs(right, left, true, k, right.len() as int);
        assert(right.take(right.len() as int) =~= right);
        assert forall|t: int| 0 <= t < pairs.len() implies want(#[trigger] pairs[t]) == probe_has_key(right, k, true)(
            pairs[t],
        ) by {
            lemma_inner_join_sound(left, right, t);
        }
        lemma_count_agree(pairs, want, probe_has_key(right, k, true));
        assert(bucket(right, k).len() * bucket(left, k).len() == bucket(left, k).len() * bucket(right, k).len())
            by (nonlinear_arith);
    }
}

/// Where no key occurs twice, the inner join of a key column with itself
/// pairs every row with itself and with no other, in row order.
pub proof fn lemma_self_join_identity(keys: Seq<Seq<u8>>)
    requires
        keys.len() <= u32::MAX,
        keys.no_duplicates(),
    ensures
        inner_join_pairs(keys, keys) == Seq::new(keys.len(), |i: int| (i as u32, i as u32)),
{
    lemma_self_join_prefix(keys, keys.len() as int);
    assert(Seq::new(keys.len(), |i: int| (i as u32, i as u32)) =~= Seq::new(keys.len() as nat, |i: int| (i as u32, i as u32)));
}

/// The bucket of a key that occurs once holds its one row.
pub proof fn lemma_single_bucket(keys: Seq<Seq<u8>>, i: int)
    requires
        keys.len() <= u32::MAX,
        keys.no_duplicates(),
        0 <= i < keys.len(),
    ensures
        bucket(keys, keys[i]) == seq![i as u32],
{
    lemma_bucket(keys, keys[i]);
    let js = bucket(keys, keys[i]);
    assert(js.contains(i as u32));
    assert forall|t: int| 0 <= t < js.len() implies js[t] == i as u32 by {
        assert(keys[js[t] as int] == keys[i]);
    }
    if js.len() > 1 {
        assert(js[0] < js[1]);
    }
    assert(js =~= seq![i as u32]);
}

proof fn lemma_self_join_prefix(keys: Seq<Seq<u8>>, n: int)
    requires
        keys.len() <= u32::MAX,
        keys.no_duplicates(),
        0 <= n <= keys.len(),
    ensures
        concat_range(inner_rows(keys, keys, true), 0, n) == Seq::new(n as nat, |i: int| (i as u32, i as u32)),
    decreases n,
{
    if n == 0 {
        assert(concat_range(inner_rows(keys, keys, true), 0, n) =~= Seq::new(n as nat, |i: int| (i as u32, i as u32)));
    } else {
        lemma_self_join_prefix(keys, n - 1);
        lemma_single_bucket(keys, n - 1);
        let row = inner_rows(keys, keys, true)(n - 1);
        assert(row =~= seq![((n - 1) as u32, (n - 1) as u32)]);
        assert(concat_range(inner_rows(keys, keys, true), 0, n) =~= Seq::new(n as nat, |i: int| (i as u32, i as u32)));
    }
}

} // verus!
