//! The join kernel: builds the hash table of one side, probes it with the
//! other, and hands back the index pairs that the join owes.

use vstd::prelude::*;
use crate::hash_table::{
    KeyTable, table_contents, table_hash, buckets_in_order, bucket_rows, table_new, table_new_like,
    table_hash_key, table_get_hashed, table_insert_hashed, table_remove, table_into_buckets, bucket_with,
};
use crate::join_spec::{
    key_rows, bucket, select_shard, shard_map, shards_hold, concat_range, flat, part_start, inner_row,
    inner_rows, left_row, left_rows, outer_matched, outer_row, outer_rows, tail_row, tail_rows, leftover,
    is_outer_join, lemma_shard_step, lemma_leftover_step, lemma_leftover_start, lemma_concat_singletons,
    lemma_part_start, lemma_flat_parts,
};
use crate::parallel::par_map_range;

verus! {

/// A copy of a key.
pub fn clone_bytes(key: &Vec<u8>) -> (r: Vec<u8>)
    ensures
        r@ == key@,
{
    let mut r: Vec<u8> = Vec::new();
    let mut i: usize = 0;
    while i < key.len()
        invariant
            i <= key.len(),
            r@ == key@.take(i as int),
        decreases key.len() - i,
    {
        r.push(key[i]);
        assert(key@.take(i as int).push(key@[i as int]) =~= key@.take(i + 1));
        i += 1;
    }
    assert(key@.take(key.len() as int) =~= key@);
    r
}

/// Where slice `p` of `n` contiguous slices of `len` rows begins.
pub fn slice_start(len: usize, n: usize, p: usize) -> (r: usize)
    requires
        n >= 1,
        p <= n,
    ensures
        r == part_start(len as int, n as int, p as int),
{
    if p >= n {
        len
    } else {
        proof {
            lemma_part_start(len as int, n as int, p as int);
        }
        p * (len / n)
    }
}

/// The shard that holds the keys of hash `h`: the one numbered `h` modulo
/// the number of shards.
pub fn get_hash_tbl<'a>(h: u64, hash_tables: &'a Vec<KeyTable>) -> (r: &'a KeyTable)
    requires
        hash_tables.len() >= 1,
    ensures
        0 <= select_shard(h, hash_tables.len() as int) < hash_tables.len(),
        *r == hash_tables[select_shard(h, hash_tables.len() as int)],
{
    let n = hash_tables.len() as u64;
    let s = (h % n) as usize;
    &hash_tables[s]
}

/// The bucket of `key` in the partitioned table of `b`, if `b` has a row
/// with that key.
fn lookup<'a>(shards: &'a Vec<KeyTable>, key: &Vec<u8>, Ghost(b): Ghost<Seq<Seq<u8>>>) -> (r: Option<&'a Vec<u32>>)
    requires
        shards_hold(shards@, b),
    ensures
        match r {
            Some(js) => js@ == bucket(b, key@) && js@.len() > 0,
            None => bucket(b, key@).len() == 0,
        },
{
    let h = table_hash_key(&shards[0], key);
    let shard = get_hash_tbl(h, shards);
    let ghost s = select_shard(h, shards.len() as int);
    assert(table_contents(shards@[s]) == shard_map(b, shards@[0], shards@.len() as int, s));
    assert(table_hash(shards@[s], key@) == table_hash(shards@[0], key@));
    table_get_hashed(shard, h, key)
}

/// The hash of one row, as a row of one item.
pub open spec fn hash_cells(proto: KeyTable, keys: Seq<Seq<u8>>) -> spec_fn(int) -> Seq<u64> {
    |i: int| seq![table_hash(proto, keys[i])]
}

/// Hashes the keys of rows `lo..hi` under the hasher of `proto`.
fn hash_rows(proto: &KeyTable, keys: &Vec<Vec<u8>>, lo: usize, hi: usize) -> (r: Vec<u64>)
    requires
        lo <= hi <= keys.len(),
    ensures
        r@ == concat_range(hash_cells(*proto, key_rows(keys@)), lo as int, hi as int),
{
    let mut r: Vec<u64> = Vec::new();
    let mut i: usize = lo;
    while i < hi
        invariant
            lo <= i <= hi <= keys.len(),
            r@ == concat_range(hash_cells(*proto, key_rows(keys@)), lo as int, i as int),
        decreases hi - i,
    {
        let h = table_hash_key(proto, &keys[i]);
        r.push(h);
        assert(r@ =~= concat_range(hash_cells(*proto, key_rows(keys@)), lo as int, i + 1));
        i += 1;
    }
    r
}

/// Lays the parts end to end.
fn concat_parts<T: Copy>(parts: &Vec<Vec<T>>) -> (r: Vec<T>)
    ensures
        r@ == flat(parts@, parts.len() as int),
{
    let mut r: Vec<T> = Vec::new();
    let mut p: usize = 0;
    while p < parts.len()
        invariant
            p <= parts.len(),
            r@ == flat(parts@, p as int),
        decreases parts.len() - p,
    {
        let part = &parts[p];
        let mut q: usize = 0;
        while q < part.len()
            invariant
                q <= part.len(),
                p < parts.len(),
                *part == parts@[p as int],
                r@ == flat(parts@, p as int) + part@.take(q as int),
            decreases part.len() - q,
        {
            r.push(part[q]);
            assert(part@.take(q as int).push(part@[q as int]) =~= part@.take(q + 1));
            q += 1;
        }
        assert(part@.take(part.len() as int) =~= part@);
        p += 1;
    }
    r
}

/// Cuts `len` rows into `n_threads` contiguous slices, runs `task` on the
/// slices in parallel and lays what they return end to end.
fn par_rows<T: Send + Sync + Copy, F: Fn(usize, usize) -> Vec<T> + Sync + Send>(
    len: usize,
    n_threads: usize,
    task: F,
    row: Ghost<spec_fn(int) -> Seq<T>>,
) -> (r: Vec<T>)
    requires
        n_threads >= 1,
        forall|lo: usize, hi: usize| lo <= hi <= len ==> call_requires(task, (lo, hi)),
        forall|lo: usize, hi: usize, out: Vec<T>|
            call_ensures(task, (lo, hi), out) ==> out@ == concat_range(row@, lo as int, hi as int),
    ensures
        r@ == concat_range(row@, 0, len as int),
{
    let part = |p: usize| -> (out: Vec<T>)
        requires
            p < n_threads,
        ensures
            out@ == concat_range(
                row@,
                part_start(len as int, n_threads as int, p as int),
                part_start(len as int, n_threads as int, p + 1),
            ),
        {
            proof {
                lemma_part_start(len as int, n_threads as int, p as int);
            }
            let lo = slice_start(len, n_threads, p);
            let hi = slice_start(len, n_threads, p + 1);
            task(lo, hi)
        };
    let parts = par_map_range(n_threads, part);
    let r = concat_parts(&parts);
    proof {
        lemma_flat_parts(parts@, row@, len as int, n_threads as int, n_threads as int);
    }
    r
}

/// Files row `idx` under `key`: behind the rows that the bucket of the key
/// holds, or in a new bucket where the table has none for the key.
pub fn file_row(t: &mut KeyTable, h: u64, key: Vec<u8>, idx: u32)
    requires
        h == table_hash(*old(t), key@),
    ensures
        table_contents(*final(t)) == table_contents(*old(t)).insert(
            key@,
            bucket_with(table_contents(*old(t)), key@, idx),
        ),
        forall|k: Seq<u8>| table_hash(*final(t), k) == table_hash(*old(t), k),
{
    let ghost held = table_contents(*t);
    let mut bucket = match table_remove(t, &key) {
        Some(bucket) => bucket,
        None => Vec::new(),
    };
    bucket.push(idx);
    assert(bucket@ =~= bucket_with(held, key@, idx));
    table_insert_hashed(t, h, key, bucket);
    assert(table_contents(*t) =~= held.insert(key@, bucket_with(held, key@, idx)));
}

/// Builds shard `s` of `n`: scans every row of `b` and files those whose
/// hash belongs to the shard.
fn build_shard(b: &Vec<Vec<u8>>, hashes: &Vec<u64>, proto: &KeyTable, s: usize, n: usize) -> (t: KeyTable)
    requires
        b.len() <= u32::MAX,
        hashes.len() == b.len(),
        s < n,
        forall|j: int| 0 <= j < b.len() ==> hashes[j] == table_hash(*proto, #[trigger] b[j]@),
    ensures
        table_contents(t) == shard_map(key_rows(b@), *proto, n as int, s as int),
        forall|k: Seq<u8>| table_hash(t, k) == table_hash(*proto, k),
{
    let ghost kb = key_rows(b@);
    let mut t = table_new_like(proto);
    let mut j: usize = 0;
    assert(kb.take(0).len() == 0);
    assert(table_contents(t) =~= shard_map(kb.take(0), *proto, n as int, s as int));
    while j < b.len()
        invariant
            j <= b.len() <= u32::MAX,
            hashes.len() == b.len(),
            s < n,
            kb == key_rows(b@),
            forall|j: int| 0 <= j < b.len() ==> hashes[j] == table_hash(*proto, #[trigger] b[j]@),
            table_contents(t) == shard_map(kb.take(j as int), *proto, n as int, s as int),
            forall|k: Seq<u8>| table_hash(t, k) == table_hash(*proto, k),
        decreases b.len() - j,
    {
        let h = hashes[j];
        proof {
            lemma_shard_step(kb, *proto, n as int, s as int, j as int);
            assert(kb[j as int] == b[j as int]@);
        }
        if (h % (n as u64)) as usize == s {
            file_row(&mut t, h, clone_bytes(&b[j]), j as u32);
        }
        j += 1;
    }
    assert(kb.take(b.len() as int) =~= kb);
    t
}

/// Hashes one side of a join into a single table.
pub fn prepare_hashed_relation(b: &Vec<Vec<u8>>) -> (t: KeyTable)
    requires
        b.len() <= u32::MAX,
    ensures
        table_contents(t) == shard_map(key_rows(b@), t, 1, 0),
{
    let proto = table_new();
    let hashes = hash_rows(&proto, b, 0, b.len());
    proof {
        let row = hash_cells(proto, key_rows(b@));
        lemma_concat_singletons(row, 0, b.len() as int);
        assert forall|j: int| 0 <= j < b.len() implies hashes[j] == table_hash(proto, #[trigger] b[j]@) by {
            assert(hashes@[j - 0] == row(j)[0]);
            assert(key_rows(b@)[j] == b[j]@);
        }
    }
    let t = build_shard(b, &hashes, &proto, 0, 1);
    assert(shard_map(key_rows(b@), proto, 1, 0) =~= shard_map(key_rows(b@), t, 1, 0));
    t
}

/// Hashes one side of a join into `n_threads` shards. The keys are hashed
/// in parallel, slice by slice, under one seed; then every shard is built in
/// parallel, each from the rows whose hash it owns.
pub fn prepare_hashed_relation_threaded(b: &Vec<Vec<u8>>, n_threads: usize) -> (shards: Vec<KeyTable>)
    requires
        b.len() <= u32::MAX,
        n_threads >= 1,
    ensures
        shards.len() == n_threads,
        shards_hold(shards@, key_rows(b@)),
{
    let ghost kb = key_rows(b@);
    let seeded = table_new();
    let proto = &seeded;
    let hash_task = |lo: usize, hi: usize| -> (out: Vec<u64>)
        requires
            lo <= hi <= b.len(),
        ensures
            out@ == concat_range(hash_cells(*proto, key_rows(b@)), lo as int, hi as int),
        { hash_rows(proto, b, lo, hi) };
    let hashed = par_rows(b.len(), n_threads, hash_task, Ghost(hash_cells(*proto, key_rows(b@))));
    let hashes = &hashed;
    proof {
        let row = hash_cells(*proto, kb);
        lemma_concat_singletons(row, 0, b.len() as int);
        assert forall|j: int| 0 <= j < b.len() implies hashes[j] == table_hash(*proto, #[trigger] b[j]@) by {
            assert(hashes@[j - 0] == row(j)[0]);
            assert(kb[j] == b[j]@);
        }
    }
    let build_task = |s: usize| -> (t: KeyTable)
        requires
            s < n_threads,
        ensures
            table_contents(t) == shard_map(key_rows(b@), *proto, n_threads as int, s as int),
            forall|k: Seq<u8>| table_hash(t, k) == table_hash(*proto, k),
        { build_shard(b, hashes, proto, s, n_threads) };
    let shards = par_map_range(n_threads, build_task);
    proof {
        assert forall|s: int| 0 <= s < shards@.len() implies #[trigger] table_contents(shards@[s]) == shard_map(
            kb,
            shards@[0],
            shards@.len() as int,
            s,
        ) by {
            assert(shard_map(kb, *proto, n_threads as int, s) =~= shard_map(kb, shards@[0], n_threads as int, s));
        }
    }
    shards
}

/// Probes rows `lo..hi` of `a` for an inner join.
fn probe_inner(
    a: &Vec<Vec<u8>>,
    lo: usize,
    hi: usize,
    shards: &Vec<KeyTable>,
    swap: bool,
    Ghost(b): Ghost<Seq<Seq<u8>>>,
) -> (r: Vec<(u32, u32)>)
    requires
        lo <= hi <= a.len() <= u32::MAX,
        shards_hold(shards@, b),
    ensures
        r@ == concat_range(inner_rows(key_rows(a@), b, swap), lo as int, hi as int),
{
    let ghost ka = key_rows(a@);
    let mut r: Vec<(u32, u32)> = Vec::new();
    let mut i: usize = lo;
    while i < hi
        invariant
            lo <= i <= hi <= a.len() <= u32::MAX,
            shards_hold(shards@, b),
            ka == key_rows(a@),
            r@ == concat_range(inner_rows(ka, b, swap), lo as int, i as int),
        decreases hi - i,
    {
        let idx_a = i as u32;
        let ghost done = r@;
        let ghost row = inner_row(b, ka[i as int], idx_a, swap);
        match lookup(shards, &a[i], Ghost(b)) {
            Some(js) => {
                let mut t: usize = 0;
                while t < js.len()
                    invariant
                        t <= js.len(),
                        js@ == bucket(b, ka[i as int]),
                        row == inner_row(b, ka[i as int], idx_a, swap),
                        r@ == done + row.take(t as int),
                    decreases js.len() - t,
                {
                    let idx_b = js[t];
                    if swap {
                        r.push((idx_b, idx_a));
                    } else {
                        r.push((idx_a, idx_b));
                    }
                    assert(row.take(t as int).push(row[t as int]) =~= row.take(t + 1));
                    t += 1;
                }
                assert(row.take(js.len() as int) =~= row);
            },
            None => {
                assert(row =~= Seq::empty());
                assert(done + row =~= done);
            },
        }
        assert(r@ == done + row);
        i += 1;
    }
    r
}

/// Probes rows `lo..hi` of `a` for a left join.
fn probe_left(
    a: &Vec<Vec<u8>>,
    lo: usize,
    hi: usize,
    shards: &Vec<KeyTable>,
    Ghost(b): Ghost<Seq<Seq<u8>>>,
) -> (r: Vec<(u32, Option<u32>)>)
    requires
        lo <= hi <= a.len() <= u32::MAX,
        shards_hold(shards@, b),
    ensures
        r@ == concat_range(left_rows(key_rows(a@), b), lo as int, hi as int),
{
    let ghost ka = key_rows(a@);
    let mut r: Vec<(u32, Option<u32>)> = Vec::new();
    let mut i: usize = lo;
    while i < hi
        invariant
            lo <= i <= hi <= a.len() <= u32::MAX,
            shards_hold(shards@, b),
            ka == key_rows(a@),
            r@ == concat_range(left_rows(ka, b), lo as int, i as int),
        decreases hi - i,
    {
        let idx_a = i as u32;
        let ghost done = r@;
        let ghost row = left_row(b, ka[i as int], idx_a);
        match lookup(shards, &a[i], Ghost(b)) {
            Some(js) => {
                let mut t: usize = 0;
                while t < js.len()
                    invariant
                        t <= js.len(),
                        js@.len() > 0,
                        js@ == bucket(b, ka[i as int]),
                        row == left_row(b, ka[i as int], idx_a),
                        r@ == done + row.take(t as int),
                    decreases js.len() - t,
                {
                    r.push((idx_a, Some(js[t])));
                    assert(row.take(t as int).push(row[t as int]) =~= row.take(t + 1));
                    t += 1;
                }
                assert(row.take(js.len() as int) =~= row);
            },
            None => {
                r.push((idx_a, None));
                assert(r@ =~= done + row);
            },
        }
        assert(r@ == done + row);
        i += 1;
    }
    r
}

/// Inner join of probe side `a` and build side `b`, on one thread. `swap`
/// says that the build side is the left table.
pub fn hash_join_tuples_inner(a: &Vec<Vec<u8>>, b: &Vec<Vec<u8>>, swap: bool) -> (r: Vec<(u32, u32)>)
    requires
        a.len() <= u32::MAX,
        b.len() <= u32::MAX,
    ensures
        r@ == concat_range(inner_rows(key_rows(a@), key_rows(b@), swap), 0, a.len() as int),
{
    let mut shards: Vec<KeyTable> = Vec::new();
    shards.push(prepare_hashed_relation(b));
    probe_inner(a, 0, a.len(), &shards, swap, Ghost(key_rows(b@)))
}

/// Left join of left side `a` and right side `b`, on one thread.
pub fn hash_join_tuples_left(a: &Vec<Vec<u8>>, b: &Vec<Vec<u8>>) -> (r: Vec<(u32, Option<u32>)>)
    requires
        a.len() <= u32::MAX,
        b.len() <= u32::MAX,
    ensures
        r@ == concat_range(left_rows(key_rows(a@), key_rows(b@)), 0, a.len() as int),
{
    let mut shards: Vec<KeyTable> = Vec::new();
    shards.push(prepare_hashed_relation(b));
    probe_left(a, 0, a.len(), &shards, Ghost(key_rows(b@)))
}

/// Inner join of probe side `a` and build side `b` on `n_threads` threads.
/// The build side is hashed into as many shards, the probe side is cut into
/// as many contiguous slices, and the slices are probed in parallel. The
/// result is that of one thread, whatever the number of threads.
pub fn hash_join_tuples_inner_threaded(
    a: &Vec<Vec<u8>>,
    b: &Vec<Vec<u8>>,
    swap: bool,
    n_threads: usize,
) -> (r: Vec<(u32, u32)>)
    requires
        a.len() <= u32::MAX,
        b.len() <= u32::MAX,
        n_threads >= 1,
    ensures
        r@ == concat_range(inner_rows(key_rows(a@), key_rows(b@), swap), 0, a.len() as int),
{
    let ghost ka = key_rows(a@);
    let ghost kb = key_rows(b@);
    let shards = prepare_hashed_relation_threaded(b, n_threads);
    let hash_tbls = &shards;
    let probe = |lo: usize, hi: usize| -> (out: Vec<(u32, u32)>)
        requires
            lo <= hi <= a.len(),
        ensures
            out@ == concat_range(inner_rows(key_rows(a@), key_rows(b@), swap), lo as int, hi as int),
        { probe_inner(a, lo, hi, hash_tbls, swap, Ghost(key_rows(b@))) };
    par_rows(a.len(), n_threads, probe, Ghost(inner_rows(ka, kb, swap)))
}

/// Left join of left side `a` and right side `b` on `n_threads` threads.
/// The result is that of one thread, whatever the number of threads.
pub fn hash_join_tuples_left_threaded(a: &Vec<Vec<u8>>, b: &Vec<Vec<u8>>, n_threads: usize) -> (r: Vec<
    (u32, Option<u32>),
>)
    requires
        a.len() <= u32::MAX,
        b.len() <= u32::MAX,
        n_threads >= 1,
    ensures
        r@ == concat_range(left_rows(key_rows(a@), key_rows(b@)), 0, a.len() as int),
{
    let ghost ka = key_rows(a@);
    let ghost kb = key_rows(b@);
    let shards = prepare_hashed_relation_threaded(b, n_threads);
    let hash_tbls = &shards;
    let probe = |lo: usize, hi: usize| -> (out: Vec<(u32, Option<u32>)>)
        requires
            lo <= hi <= a.len(),
        ensures
            out@ == concat_range(left_rows(key_rows(a@), key_rows(b@)), lo as int, hi as int),
        { probe_left(a, lo, hi, hash_tbls, Ghost(key_rows(b@))) };
    par_rows(a.len(), n_threads, probe, Ghost(left_rows(ka, kb)))
}

/// Outer join of probe side `a` and build side `b`. Every probe row takes
/// its bucket out of the table, so a later probe row with the same key finds
/// none; what is left in the table at the end had no partner.
pub fn hash_join_tuples_outer(a: &Vec<Vec<u8>>, b: &Vec<Vec<u8>>, swap: bool) -> (r: Vec<
    (Option<u32>, Option<u32>),
>)
    requires
        a.len() <= u32::MAX,
        b.len() <= u32::MAX,
    ensures
        is_outer_join(key_rows(a@), key_rows(b@), swap, r@),
{
    let ghost ka = key_rows(a@);
    let ghost kb = key_rows(b@);
    let mut hash_tbl = prepare_hashed_relation(b);
    proof {
        lemma_leftover_start(ka, kb, hash_tbl);
    }
    let mut r: Vec<(Option<u32>, Option<u32>)> = Vec::new();
    let mut i: usize = 0;
    while i < a.len()
        invariant
            i <= a.len() <= u32::MAX,
            ka == key_rows(a@),
            kb == key_rows(b@),
            table_contents(hash_tbl) == leftover(ka, kb, i as int),
            r@ == concat_range(outer_rows(ka, kb, swap), 0, i as int),
        decreases a.len() - i,
    {
        let idx_a = i as u32;
        let ghost done = r@;
        let ghost row = outer_row(ka, kb, i as int, swap);
        proof {
            lemma_leftover_step(ka, kb, i as int);
            assert(ka[i as int] == a[i as int]@);
        }
        match table_remove(&mut hash_tbl, &a[i]) {
            Some(js) => {
                let mut t: usize = 0;
                while t < js.len()
                    invariant
                        t <= js.len(),
                        js@ == bucket(kb, ka[i as int]),
                        outer_matched(ka, kb, i as int),
                        row == outer_row(ka, kb, i as int, swap),
                        idx_a == i,
                        r@ == done + row.take(t as int),
                    decreases js.len() - t,
                {
                    let idx_b = js[t];
                    if swap {
                        r.push((Some(idx_b), Some(idx_a)));
                    } else {
                        r.push((Some(idx_a), Some(idx_b)));
                    }
                    assert(row.take(t as int).push(row[t as int]) =~= row.take(t + 1));
                    t += 1;
                }
                assert(row.take(js.len() as int) =~= row);
            },
            None => {
                if swap {
                    r.push((None, Some(idx_a)));
                } else {
                    r.push((Some(idx_a), None));
                }
                assert(r@ =~= done + row);
            },
        }
        assert(r@ == done + row);
        i += 1;
    }
    let ghost probed = r@;
    let ghost left_in = table_contents(hash_tbl);
    let buckets = table_into_buckets(hash_tbl);
    let ghost rest = bucket_rows(buckets@);
    let ghost keys = choose|keys: Seq<Seq<u8>>| buckets_in_order(left_in, keys, rest);
    let mut p: usize = 0;
    while p < buckets.len()
        invariant
            p <= buckets.len(),
            rest == bucket_rows(buckets@),
            r@ == probed + concat_range(tail_rows(rest, swap), 0, p as int),
        decreases buckets.len() - p,
    {
        let js = &buckets[p];
        let ghost done = r@;
        let ghost row = tail_row(rest[p as int], swap);
        let mut t: usize = 0;
        while t < js.len()
            invariant
                t <= js.len(),
                js@ == rest[p as int],
                row == tail_row(rest[p as int], swap),
                r@ == done + row.take(t as int),
            decreases js.len() - t,
        {
            let idx_b = js[t];
            if swap {
                r.push((Some(idx_b), None));
            } else {
                r.push((None, Some(idx_b)));
            }
            assert(row.take(t as int).push(row[t as int]) =~= row.take(t + 1));
            t += 1;
        }
        assert(row.take(js.len() as int) =~= row);
        assert(r@ =~= probed + (concat_range(tail_rows(rest, swap), 0, p as int) + row));
        p += 1;
    }
    assert(buckets_in_order(leftover(ka, kb, ka.len() as int), keys, rest));
    r
}

} // verus!
