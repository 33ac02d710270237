//! What a join is: the index pairs that each kind of join owes for two
//! sequences of encoded keys.
//!
//! A key is a byte string. Two rows match when their keys are the same byte
//! string; the encoder sees to it that this is so exactly when their key
//! cells are equal, a null cell being equal to a null cell.

use vstd::prelude::*;
use crate::hash_table::{KeyTable, table_contents, table_hash, bucket_with, buckets_in_order};

verus! {

/// The byte strings of a vector of keys.
pub open spec fn key_rows(v: Seq<Vec<u8>>) -> Seq<Seq<u8>> {
    Seq::new(v.len(), |i: int| v[i]@)
}

/// The rows of `b` that carry key `k`, in ascending order.
pub open spec fn bucket(b: Seq<Seq<u8>>, k: Seq<u8>) -> Seq<u32>
    decreases b.len(),
{
    if b.len() == 0 {
        Seq::empty()
    } else {
        let rest = bucket(b.drop_last(), k);
        if b.last() == k {
            rest.push((b.len() - 1) as u32)
        } else {
            rest
        }
    }
}

/// The shard that a key of hash `h` goes to, of `n` shards.
pub open spec fn select_shard(h: u64, n: int) -> int {
    (h as int) % n
}

/// What shard `s` of `n` holds once the rows of `b` are filed: the bucket of
/// every key of `b` that the hasher of `proto` sends to `s`.
pub open spec fn shard_map(b: Seq<Seq<u8>>, proto: KeyTable, n: int, s: int) -> Map<Seq<u8>, Seq<u32>> {
    Map::new(
        |k: Seq<u8>| bucket(b, k).len() > 0 && select_shard(table_hash(proto, k), n) == s,
        |k: Seq<u8>| bucket(b, k),
    )
}

/// `shards` is the partitioned hash table of `b`: every shard holds its
/// share of the buckets, and all shards hash alike.
pub open spec fn shards_hold(shards: Seq<KeyTable>, b: Seq<Seq<u8>>) -> bool {
    &&& shards.len() >= 1
    &&& b.len() <= u32::MAX
    &&& forall|s: int|
        0 <= s < shards.len() ==> #[trigger] table_contents(shards[s]) == shard_map(
            b,
            shards[0],
            shards.len() as int,
            s,
        )
    &&& forall|s: int, k: Seq<u8>|
        0 <= s < shards.len() ==> #[trigger] table_hash(shards[s], k) == table_hash(shards[0], k)
}

/// The rows `row(lo)`, .., `row(hi - 1)` laid end to end.
pub open spec fn concat_range<T>(row: spec_fn(int) -> Seq<T>, lo: int, hi: int) -> Seq<T>
    decreases hi - lo,
{
    if hi <= lo {
        Seq::empty()
    } else {
        concat_range(row, lo, hi - 1) + row(hi - 1)
    }
}

/// The first `n` of `parts` laid end to end.
pub open spec fn flat<T>(parts: Seq<Vec<T>>, n: int) -> Seq<T>
    decreases n,
{
    if n <= 0 {
        Seq::empty()
    } else {
        flat(parts, n - 1) + parts[n - 1]@
    }
}

/// Where slice `p` of `n` contiguous slices of `len` rows begins: every
/// slice has `len / n` rows but the last, which runs to the end.
pub open spec fn part_start(len: int, n: int, p: int) -> int {
    if p >= n {
        len
    } else {
        p * (len / n)
    }
}

/// The pair of a probe row and a build row, left row first.
pub open spec fn inner_pair(probe: u32, build: u32, swap: bool) -> (u32, u32) {
    if swap {
        (build, probe)
    } else {
        (probe, build)
    }
}

/// What probe row `i` with key `k` owes to an inner join: a pair with each
/// row of its bucket.
pub open spec fn inner_row(b: Seq<Seq<u8>>, k: Seq<u8>, i: u32, swap: bool) -> Seq<(u32, u32)> {
    let js = bucket(b, k);
    Seq::new(js.len(), |t: int| inner_pair(i, js[t], swap))
}

pub open spec fn inner_rows(a: Seq<Seq<u8>>, b: Seq<Seq<u8>>, swap: bool) -> spec_fn(int) -> Seq<(u32, u32)> {
    |i: int| inner_row(b, a[i], i as u32, swap)
}

/// What left row `i` with key `k` owes to a left join: a pair with each row
/// of its bucket, or one pair without a partner where the bucket is empty.
pub open spec fn left_row(b: Seq<Seq<u8>>, k: Seq<u8>, i: u32) -> Seq<(u32, Option<u32>)> {
    let js = bucket(b, k);
    if js.len() == 0 {
        seq![(i, None::<u32>)]
    } else {
        Seq::new(js.len(), |t: int| (i, Some(js[t])))
    }
}

pub open spec fn left_rows(a: Seq<Seq<u8>>, b: Seq<Seq<u8>>) -> spec_fn(int) -> Seq<(u32, Option<u32>)> {
    |i: int| left_row(b, a[i], i as u32)
}

/// The pair of a probe row and a build row of which either may be absent,
/// left row first.
pub open spec fn outer_pair(probe: Option<u32>, build: Option<u32>, swap: bool) -> (Option<u32>, Option<u32>) {
    if swap {
        (build, probe)
    } else {
        (probe, build)
    }
}

/// Whether probe row `i` finds its bucket still in the table: the bucket
/// exists, and no earlier probe row carried the same key and took it.
pub open spec fn outer_matched(a: Seq<Seq<u8>>, b: Seq<Seq<u8>>, i: int) -> bool {
    bucket(b, a[i]).len() > 0 && !a.take(i).contains(a[i])
}

/// What probe row `i` owes to an outer join.
pub open spec fn outer_row(a: Seq<Seq<u8>>, b: Seq<Seq<u8>>, i: int, swap: bool) -> Seq<(Option<u32>, Option<u32>)> {
    if outer_matched(a, b, i) {
        let js = bucket(b, a[i]);
        Seq::new(js.len(), |t: int| outer_pair(Some(i as u32), Some(js[t]), swap))
    } else {
        seq![outer_pair(Some(i as u32), None, swap)]
    }
}

pub open spec fn outer_rows(a: Seq<Seq<u8>>, b: Seq<Seq<u8>>, swap: bool) -> spec_fn(int) -> Seq<(Option<u32>, Option<u32>)> {
    |i: int| outer_row(a, b, i, swap)
}

/// What a bucket that no probe row took owes to an outer join.
pub open spec fn tail_row(js: Seq<u32>, swap: bool) -> Seq<(Option<u32>, Option<u32>)> {
    Seq::new(js.len(), |t: int| outer_pair(None, Some(js[t]), swap))
}

pub open spec fn tail_rows(buckets: Seq<Seq<u32>>, swap: bool) -> spec_fn(int) -> Seq<(Option<u32>, Option<u32>)> {
    |p: int| tail_row(buckets[p], swap)
}

/// The buckets of `b` that are left when every key of the first `n` rows of
/// `a` has been taken out.
pub open spec fn leftover(a: Seq<Seq<u8>>, b: Seq<Seq<u8>>, n: int) -> Map<Seq<u8>, Seq<u32>> {
    Map::new(
        |k: Seq<u8>| bucket(b, k).len() > 0 && !a.take(n).contains(k),
        |k: Seq<u8>| bucket(b, k),
    )
}

/// `r` is an outer join of probe side `a` and build side `b`: what the probe
/// rows owe, in row order, and then the buckets that no probe row took, each
/// once, in whatever order the table gave them up.
pub open spec fn is_outer_join(
    a: Seq<Seq<u8>>,
    b: Seq<Seq<u8>>,
    swap: bool,
    r: Seq<(Option<u32>, Option<u32>)>,
) -> bool {
    exists|keys: Seq<Seq<u8>>, buckets: Seq<Seq<u32>>|
        #![trigger buckets_in_order(leftover(a, b, a.len() as int), keys, buckets)]
        buckets_in_order(leftover(a, b, a.len() as int), keys, buckets) && r == concat_range(
            outer_rows(a, b, swap),
            0,
            a.len() as int,
        ) + concat_range(tail_rows(buckets, swap), 0, buckets.len() as int)
}

/// The pairs of the inner join of `left` and `right`. The shorter side is
/// hashed and the other probes it, so the pairs come in the row order of the
/// longer side, and of `right` where both are as long.
pub open spec fn inner_join_pairs(left: Seq<Seq<u8>>, right: Seq<Seq<u8>>) -> Seq<(u32, u32)> {
    if left.len() > right.len() {
        concat_range(inner_rows(left, right, false), 0, left.len() as int)
    } else {
        concat_range(inner_rows(right, left, true), 0, right.len() as int)
    }
}

/// The pairs of the left join of `left` and `right`, in the row order of
/// `left`.
pub open spec fn left_join_pairs(left: Seq<Seq<u8>>, right: Seq<Seq<u8>>) -> Seq<(u32, Option<u32>)> {
    concat_range(left_rows(left, right), 0, left.len() as int)
}

/// `r` is an outer join of `left` and `right`, the shorter side hashed.
pub open spec fn is_outer_join_pairs(
    left: Seq<Seq<u8>>,
    right: Seq<Seq<u8>>,
    r: Seq<(Option<u32>, Option<u32>)>,
) -> bool {
    if left.len() > right.len() {
        is_outer_join(left, right, false, r)
    } else {
        is_outer_join(right, left, true, r)
    }
}

/// A bucket lists rows of its key, each below the length of `b`, in strictly
/// ascending order, and it lists every row of its key.
pub proof fn lemma_bucket(b: Seq<Seq<u8>>, k: Seq<u8>)
    requires
        b.len() <= u32::MAX,
    ensures
        bucket(b, k).len() <= b.len(),
        forall|t: int| 0 <= t < bucket(b, k).len() ==> (#[trigger] bucket(b, k)[t]) < b.len() && b[bucket(b, k)[t] as int] == k,
        forall|t: int, u: int| 0 <= t < u < bucket(b, k).len() ==> bucket(b, k)[t] < bucket(b, k)[u],
        forall|j: int| 0 <= j < b.len() && b[j] == k ==> bucket(b, k).contains(j as u32),
    decreases b.len(),
{
    if b.len() > 0 {
        let front = b.drop_last();
        lemma_bucket(front, k);
        let rest = bucket(front, k);
        let last = (b.len() - 1) as u32;
        assert forall|t: int| 0 <= t < bucket(b, k).len() implies (#[trigger] bucket(b, k)[t]) < b.len() && b[bucket(b, k)[t] as int] == k by {
            if t < rest.len() {
                assert(bucket(b, k)[t] == rest[t]);
                assert(front[rest[t] as int] == b[rest[t] as int]);
            }
        }
        assert forall|j: int| 0 <= j < b.len() && b[j] == k implies bucket(b, k).contains(j as u32) by {
            if j < b.len() - 1 {
                assert(front[j] == b[j]);
                let t = choose|t: int| 0 <= t < rest.len() && rest[t] == j as u32;
                assert(bucket(b, k)[t] == j as u32);
            } else {
                assert(bucket(b, k)[rest.len() as int] == last);
            }
        }
    }
}

/// Filing one more row extends the bucket of its key and leaves the others.
pub proof fn lemma_bucket_step(b: Seq<Seq<u8>>, j: int, k: Seq<u8>)
    requires
        0 <= j < b.len() <= u32::MAX,
    ensures
        bucket(b.take(j + 1), k) == if b[j] == k {
            bucket(b.take(j), k).push(j as u32)
        } else {
            bucket(b.take(j), k)
        },
{
    assert(b.take(j + 1).drop_last() =~= b.take(j));
}

/// Filing row `j` in shard `s` changes the shard as one insertion does
/// where the row's key belongs to the shard, and not at all where it does
/// not.
pub proof fn lemma_shard_step(b: Seq<Seq<u8>>, proto: KeyTable, n: int, s: int, j: int)
    requires
        0 <= j < b.len() <= u32::MAX,
    ensures
        ({
            let before = shard_map(b.take(j), proto, n, s);
            shard_map(b.take(j + 1), proto, n, s) == if select_shard(table_hash(proto, b[j]), n) == s {
                before.insert(b[j], bucket_with(before, b[j], j as u32))
            } else {
                before
            }
        }),
{
    let before = shard_map(b.take(j), proto, n, s);
    let after = shard_map(b.take(j + 1), proto, n, s);
    assert forall|k: Seq<u8>| true implies bucket(b.take(j + 1), k) == if b[j] == k {
        bucket(b.take(j), k).push(j as u32)
    } else {
        #[trigger] bucket(b.take(j), k)
    } by {
        lemma_bucket_step(b, j, k);
    }
    if select_shard(table_hash(proto, b[j]), n) == s {
        let held = bucket(b.take(j), b[j]);
        lemma_bucket_step(b, j, b[j]);
        if held.len() == 0 {
            assert(held.push(j as u32) =~= seq![j as u32]);
        }
        let want = before.insert(b[j], bucket_with(before, b[j], j as u32));
        assert(want[b[j]] == after[b[j]]);
        assert forall|k: Seq<u8>| after.dom().contains(k) <==> want.dom().contains(k) by {
            lemma_bucket_step(b, j, k);
        }
        assert forall|k: Seq<u8>| after.dom().contains(k) implies #[trigger] after[k] == want[k] by {
            lemma_bucket_step(b, j, k);
        }
        assert(after =~= want);
    } else {
        assert(after =~= before);
    }
}

/// Taking the key of probe row `n` out of what is left leaves what is left
/// after one row more.
pub proof fn lemma_leftover_step(a: Seq<Seq<u8>>, b: Seq<Seq<u8>>, n: int)
    requires
        0 <= n < a.len(),
    ensures
        leftover(a, b, n + 1) == leftover(a, b, n).remove(a[n]),
        leftover(a, b, n).dom().contains(a[n]) <==> outer_matched(a, b, n),
{
    let more = a.take(n + 1);
    let fewer = a.take(n);
    assert forall|k: Seq<u8>| more.contains(k) <==> (fewer.contains(k) || k == a[n]) by {
        if more.contains(k) {
            let i = choose|i: int| 0 <= i < more.len() && more[i] == k;
            if i < n {
                assert(fewer[i] == k);
            }
        }
        if fewer.contains(k) {
            let i = choose|i: int| 0 <= i < fewer.len() && fewer[i] == k;
            assert(more[i] == k);
        }
        if k == a[n] {
            assert(more[n] == k);
        }
    }
    assert(leftover(a, b, n + 1) =~= leftover(a, b, n).remove(a[n]));
}

/// Before any probe row has come, what is left is the whole table.
pub proof fn lemma_leftover_start(a: Seq<Seq<u8>>, b: Seq<Seq<u8>>, proto: KeyTable)
    ensures
        leftover(a, b, 0) == shard_map(b, proto, 1, 0),
{
    assert(a.take(0).len() == 0);
    assert(leftover(a, b, 0) =~= shard_map(b, proto, 1, 0));
}

/// A run of one-item rows has one item for each row, in row order.
pub proof fn lemma_concat_singletons<T>(row: spec_fn(int) -> Seq<T>, lo: int, hi: int)
    requires
        lo <= hi,
        forall|i: int| lo <= i < hi ==> (#[trigger] row(i)).len() == 1,
    ensures
        concat_range(row, lo, hi).len() == hi - lo,
        forall|i: int| lo <= i < hi ==> concat_range(row, lo, hi)[i - lo] == (#[trigger] row(i))[0],
    decreases hi - lo,
{
    if lo < hi {
        lemma_concat_singletons(row, lo, hi - 1);
    }
}

/// Two runs of rows that meet make one run.
pub proof fn lemma_concat_range_split<T>(row: spec_fn(int) -> Seq<T>, lo: int, mid: int, hi: int)
    requires
        lo <= mid <= hi,
    ensures
        concat_range(row, lo, mid) + concat_range(row, mid, hi) == concat_range(row, lo, hi),
    decreases hi - mid,
{
    if hi == mid {
        assert(concat_range(row, lo, mid) + concat_range(row, mid, hi) =~= concat_range(row, lo, hi));
    } else {
        lemma_concat_range_split(row, lo, mid, hi - 1);
        assert(concat_range(row, lo, mid) + (concat_range(row, mid, hi - 1) + row(hi - 1)) =~= (
            concat_range(row, lo, mid) + concat_range(row, mid, hi - 1)) + row(hi - 1));
    }
}

/// The slices of `len` rows begin in ascending order, the first at row 0
/// and the one past the last at `len`.
pub proof fn lemma_part_start(len: int, n: int, p: int)
    requires
        len >= 0,
        n >= 1,
        0 <= p < n,
    ensures
        part_start(len, n, 0) == 0,
        part_start(len, n, n) == len,
        0 <= part_start(len, n, p) <= part_start(len, n, p + 1) <= len,
{
    let c = len / n;
    assert(0 <= c && c * n <= len) by {
        vstd::arithmetic::div_mod::lemma_fundamental_div_mod(len, n);
        vstd::arithmetic::div_mod::lemma_div_pos_is_pos(len, n);
        vstd::arithmetic::div_mod::lemma_mod_bound(len, n);
        assert(n * c == c * n) by (nonlinear_arith);
    }
    assert(0 <= p * c && p * c <= (p + 1) * c && (p + 1) * c <= n * c && n * c == c * n) by (nonlinear_arith)
        requires
            0 <= c,
            0 <= p < n,
    ;
}

/// Where every one of `n` parts holds the rows of its slice, the parts laid
/// end to end hold all rows. This is why the number of slices that the
/// probe side is cut into does not show in the result.
pub proof fn lemma_flat_parts<T>(parts: Seq<Vec<T>>, row: spec_fn(int) -> Seq<T>, len: int, n: int, m: int)
    requires
        len >= 0,
        n >= 1,
        0 <= m <= n,
        parts.len() == n,
        forall|p: int| 0 <= p < n ==> (#[trigger] parts[p])@ == concat_range(row, part_start(len, n, p), part_start(len, n, p + 1)),
    ensures
        flat(parts, m) == concat_range(row, 0, part_start(len, n, m)),
    decreases m,
{
    if m == 0 {
        lemma_part_start(len, n, 0);
    } else {
        lemma_flat_parts(parts, row, len, n, m - 1);
        lemma_part_start(len, n, m - 1);
        if m - 1 > 0 {
            lemma_part_start(len, n, 0);
        }
        lemma_concat_range_split(row, 0, part_start(len, n, m - 1), part_start(len, n, m));
        assert(parts[m - 1]@ == concat_range(row, part_start(len, n, m - 1), part_start(len, n, m)));
    }
}

} // verus!
