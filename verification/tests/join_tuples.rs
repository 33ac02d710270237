use polars_join::join_tuples::{
    get_hash_tbl, hash_join_tuples_inner, hash_join_tuples_inner_threaded, hash_join_tuples_left,
    hash_join_tuples_left_threaded, hash_join_tuples_outer, prepare_hashed_relation_threaded, slice_start,
};

fn keys(values: &[u8]) -> Vec<Vec<u8>> {
    values.iter().map(|v| vec![*v]).collect()
}

#[test]
fn inner_pairs_follow_the_probe_side() {
    let a = keys(&[1, 2, 3, 1]);
    let b = keys(&[0, 1, 2]);
    assert_eq!(hash_join_tuples_inner(&a, &b, true), vec![(1, 0), (2, 1), (1, 3)]);
    assert_eq!(hash_join_tuples_inner(&a, &b, false), vec![(0, 1), (1, 2), (3, 1)]);
}

#[test]
fn buckets_keep_row_order() {
    let a = keys(&[5]);
    let b = keys(&[5, 7, 5, 5]);
    assert_eq!(hash_join_tuples_inner(&a, &b, false), vec![(0, 0), (0, 2), (0, 3)]);
}

#[test]
fn left_pairs_keep_unmatched_rows() {
    let a = keys(&[0, 1, 2, 3, 4]);
    let b = keys(&[1, 2, 1]);
    assert_eq!(
        hash_join_tuples_left(&a, &b),
        vec![(0, None), (1, Some(0)), (1, Some(2)), (2, Some(1)), (3, None), (4, None)]
    );
}

#[test]
fn threaded_joins_do_not_depend_on_the_thread_count() {
    let a: Vec<Vec<u8>> = (0..200u32).map(|i| vec![(i % 7) as u8, (i % 3) as u8]).collect();
    let b: Vec<Vec<u8>> = (0..50u32).map(|i| vec![(i % 5) as u8, (i % 2) as u8]).collect();
    let inner = hash_join_tuples_inner(&a, &b, false);
    let left = hash_join_tuples_left(&a, &b);
    assert!(!inner.is_empty());
    for n in 1..8 {
        assert_eq!(hash_join_tuples_inner_threaded(&a, &b, false, n), inner);
        assert_eq!(hash_join_tuples_left_threaded(&a, &b, n), left);
    }
    assert_eq!(hash_join_tuples_inner_threaded(&a, &b, false, 1000), inner);
}

#[test]
fn outer_pairs_take_each_bucket_once() {
    let a = keys(&[1, 2, 3, 1]);
    let b = keys(&[0, 1, 2]);
    let r = hash_join_tuples_outer(&a, &b, true);
    assert_eq!(
        r,
        vec![(Some(1), Some(0)), (Some(2), Some(1)), (None, Some(2)), (None, Some(3)), (Some(0), None)]
    );
    let r = hash_join_tuples_outer(&a, &b, false);
    assert_eq!(
        r,
        vec![(Some(0), Some(1)), (Some(1), Some(2)), (Some(2), None), (Some(3), None), (None, Some(0))]
    );
}

#[test]
fn outer_tail_holds_every_unmatched_build_row() {
    let a = keys(&[9]);
    let b = keys(&[1, 2, 1, 3]);
    let mut r = hash_join_tuples_outer(&a, &b, false);
    assert_eq!(r[0], (Some(0), None));
    let mut tail = r.split_off(1);
    tail.sort();
    assert_eq!(tail, vec![(None, Some(0)), (None, Some(1)), (None, Some(2)), (None, Some(3))]);
}

#[test]
fn empty_sides() {
    let none: Vec<Vec<u8>> = vec![];
    let one = keys(&[4]);
    assert_eq!(hash_join_tuples_inner(&none, &one, false), vec![]);
    assert_eq!(hash_join_tuples_inner(&one, &none, true), vec![]);
    assert_eq!(hash_join_tuples_left(&none, &one), vec![]);
    assert_eq!(hash_join_tuples_left(&one, &none), vec![(0, None)]);
    assert_eq!(hash_join_tuples_outer(&one, &none, true), vec![(None, Some(0))]);
    assert_eq!(hash_join_tuples_inner_threaded(&none, &one, false, 3), vec![]);
}

#[test]
fn slices_cover_the_rows() {
    assert_eq!(slice_start(10, 3, 0), 0);
    assert_eq!(slice_start(10, 3, 1), 3);
    assert_eq!(slice_start(10, 3, 2), 6);
    assert_eq!(slice_start(10, 3, 3), 10);
    assert_eq!(slice_start(2, 5, 4), 0);
    assert_eq!(slice_start(2, 5, 5), 2);
}

#[test]
fn shards_are_picked_by_hash_modulo_count() {
    let b: Vec<Vec<u8>> = (0..30u8).map(|i| vec![i]).collect();
    let shards = prepare_hashed_relation_threaded(&b, 4);
    assert_eq!(shards.len(), 4);
    assert_eq!(shards.iter().map(|s| s.len()).sum::<usize>(), 30);
    assert!(std::ptr::eq(get_hash_tbl(6, &shards), &shards[2]));
    assert!(std::ptr::eq(get_hash_tbl(8, &shards), &shards[0]));
}
