//! What holds of every joined table.

use vstd::prelude::*;
use crate::datatypes::{Cell, ErrorView, field_names, first_index, lemma_first_index};
use crate::frame::{col_names, frame_height, frame_wf, gather_cols, schema_of};
use crate::hash_join::{
    JoinType, assemble, drop_named, finished, is_join, join_rows, key_seq, lemma_drop_named_wf, pairs_of,
    outer_left_part, renamed_right, row_cells, select, series_keys,
};
use crate::join_laws::{
    count_where, lemma_concat_range_at, lemma_count_agree, lemma_inner_join_key_count, lemma_inner_join_sound,
    lemma_self_join_identity,
};
use crate::join_spec::{bucket, concat_range, inner_join_pairs, left_join_pairs, lemma_bucket_step};
use crate::key::{lemma_tuple_key_injective, tuple_key};
use crate::logical_plan::{join_schema, joined_right};
use crate::series::{SeriesView, count_nulls, gather};

verus! {

/// Two rows have the same key exactly when their key cells are equal, cell
/// by cell, a null cell being equal to a null cell.
pub proof fn lemma_keys_match_cells(lsel: Seq<SeriesView>, rsel: Seq<SeriesView>, lh: int, rh: int, i: int, j: int)
    requires
        lsel.len() == rsel.len(),
        0 <= i < lh,
        0 <= j < rh,
        forall|k: int| 0 <= k < lsel.len() ==> (#[trigger] lsel[k]).wf() && lsel[k].cells.len() == lh,
        forall|k: int| 0 <= k < rsel.len() ==> (#[trigger] rsel[k]).wf() && rsel[k].cells.len() == rh,
    ensures
        key_seq(lsel, lh)[i] == key_seq(rsel, rh)[j] <==> row_cells(lsel, i) == row_cells(rsel, j),
{
    let x = row_cells(lsel, i);
    let y = row_cells(rsel, j);
    assert forall|k: int| 0 <= k < x.len() implies (#[trigger] x[k]).wf() by {
        assert(lsel[k].wf());
        assert(lsel[k].cells[i].fits(lsel[k].dtype));
    }
    assert forall|k: int| 0 <= k < y.len() implies (#[trigger] y[k]).wf() by {
        assert(rsel[k].wf());
        assert(rsel[k].cells[j].fits(rsel[k].dtype));
    }
    lemma_tuple_key_injective(x, y);
}

/// The rows that an inner join pairs have equal key cells, cell by cell.
pub proof fn lemma_inner_join_rows_match(lsel: Seq<SeriesView>, rsel: Seq<SeriesView>, lh: int, rh: int, t: int)
    requires
        lsel.len() == rsel.len(),
        0 <= lh <= u32::MAX,
        0 <= rh <= u32::MAX,
        forall|k: int| 0 <= k < lsel.len() ==> (#[trigger] lsel[k]).wf() && lsel[k].cells.len() == lh,
        forall|k: int| 0 <= k < rsel.len() ==> (#[trigger] rsel[k]).wf() && rsel[k].cells.len() == rh,
        0 <= t < inner_join_pairs(key_seq(lsel, lh), key_seq(rsel, rh)).len(),
    ensures
        ({
            let pair = inner_join_pairs(key_seq(lsel, lh), key_seq(rsel, rh))[t];
            pair.0 < lh && pair.1 < rh && row_cells(lsel, pair.0 as int) == row_cells(rsel, pair.1 as int)
        }),
{
    let lkeys = key_seq(lsel, lh);
    let rkeys = key_seq(rsel, rh);
    lemma_inner_join_sound(lkeys, rkeys, t);
    let pair = inner_join_pairs(lkeys, rkeys)[t];
    lemma_keys_match_cells(lsel, rsel, lh, rh, pair.0 as int, pair.1 as int);
}

/// The key of a row whose one key cell is null.
pub open spec fn null_key() -> Seq<u8> {
    tuple_key(seq![Cell::Null])
}

/// In a key column, the rows of the null key are the rows of a null cell.
pub proof fn lemma_null_rows(s: SeriesView, i: int)
    requires
        s.wf(),
        0 <= i < s.cells.len(),
    ensures
        series_keys(s)[i] == null_key() <==> s.cells[i] is Null,
{
    let x = row_cells(seq![s], i);
    let y = seq![Cell::Null];
    assert(x =~= seq![s.cells[i]]);
    assert(s.cells[i].fits(s.dtype));
    lemma_tuple_key_injective(x, y);
}

/// A key column has as many rows of the null key as it has null cells.
pub proof fn lemma_null_bucket(s: SeriesView, n: int)
    requires
        s.wf(),
        s.cells.len() <= u32::MAX,
        0 <= n <= s.cells.len(),
    ensures
        bucket(series_keys(s).take(n), null_key()).len() == count_nulls(s.cells.take(n)),
    decreases n,
{
    if n == 0 {
        assert(series_keys(s).take(0).len() == 0);
        assert(s.cells.take(0).len() == 0);
    } else {
        lemma_null_bucket(s, n - 1);
        lemma_bucket_step(series_keys(s), n - 1, null_key());
        lemma_null_rows(s, n - 1);
        assert(s.cells.take(n).drop_last() =~= s.cells.take(n - 1));
    }
}

/// Null keys match null keys, each with each: the pairs of an inner join of
/// two key columns whose left cell is null number the null cells of the
/// left column times the null cells of the right column.
pub proof fn lemma_null_keys_pair_up(left: SeriesView, right: SeriesView)
    requires
        left.wf(),
        right.wf(),
        left.cells.len() <= u32::MAX,
        right.cells.len() <= u32::MAX,
    ensures
        count_where(
            inner_join_pairs(series_keys(left), series_keys(right)),
            |p: (u32, u32)| left.cells[p.0 as int] is Null,
        ) == count_nulls(left.cells) * count_nulls(right.cells),
{
    let lkeys = series_keys(left);
    let rkeys = series_keys(right);
    let pairs = inner_join_pairs(lkeys, rkeys);
    let by_key = |p: (u32, u32)| lkeys[p.0 as int] == null_key();
    let by_cell = |p: (u32, u32)| left.cells[p.0 as int] is Null;
    lemma_inner_join_key_count(lkeys, rkeys, null_key());
    lemma_null_bucket(left, left.cells.len() as int);
    lemma_null_bucket(right, right.cells.len() as int);
    assert(lkeys.take(left.cells.len() as int) =~= lkeys);
    assert(rkeys.take(right.cells.len() as int) =~= rkeys);
    assert(left.cells.take(left.cells.len() as int) =~= left.cells);
    assert(right.cells.take(right.cells.len() as int) =~= right.cells);
    assert forall|t: int| 0 <= t < pairs.len() implies by_key(#[trigger] pairs[t]) == by_cell(pairs[t]) by {
        lemma_inner_join_sound(lkeys, rkeys, t);
        lemma_null_rows(left, pairs[t].0 as int);
    }
    lemma_count_agree(pairs, by_key, by_cell);
}

/// A join pairs as many left rows as right rows.
pub proof fn lemma_join_rows_len(
    how: JoinType,
    lkeys: Seq<Seq<u8>>,
    rkeys: Seq<Seq<u8>>,
    lrows: Seq<Option<u32>>,
    rrows: Seq<Option<u32>>,
)
    requires
        join_rows(how, lkeys, rkeys, lrows, rrows),
    ensures
        lrows.len() == rrows.len(),
        how == JoinType::Inner ==> lrows.len() == inner_join_pairs(lkeys, rkeys).len(),
        how == JoinType::Left ==> lrows.len() == left_join_pairs(lkeys, rkeys).len(),
{
}

/// The joined table has a row for every pair of the join, and every one of
/// its columns is as long.
pub proof fn lemma_join_height(
    left: Seq<SeriesView>,
    right: Seq<SeriesView>,
    lsel: Seq<SeriesView>,
    rsel: Seq<SeriesView>,
    how: JoinType,
    lrows: Seq<Option<u32>>,
    rrows: Seq<Option<u32>>,
)
    requires
        lrows.len() == rrows.len(),
        assemble(left, right, lsel, rsel, how, lrows, rrows) is Ok,
    ensures
        forall|c: int|
            0 <= c < assemble(left, right, lsel, rsel, how, lrows, rrows)->Ok_0.len() ==> (#[trigger] assemble(
                left,
                right,
                lsel,
                rsel,
                how,
                lrows,
                rrows,
            )->Ok_0[c]).cells.len() == lrows.len(),
{
    let out = assemble(left, right, lsel, rsel, how, lrows, rrows)->Ok_0;
    let right_part = gather_cols(drop_named(right, col_names(rsel)), rrows);
    if how == JoinType::Outer {
        let left_part = outer_left_part(left, lsel, rsel, lrows, pairs_of(lrows, rrows));
        let more = renamed_right(left_part, right_part);
        assert(out == left_part + more);
        assert forall|c: int| 0 <= c < out.len() implies (#[trigger] out[c]).cells.len() == lrows.len() by {
            if c >= left_part.len() {
                assert(out[c] == more[c - left_part.len()]);
            }
        }
    } else {
        let left_part = gather_cols(left, lrows);
        let more = renamed_right(left_part, right_part);
        assert(out == left_part + more);
        assert forall|c: int| 0 <= c < out.len() implies (#[trigger] out[c]).cells.len() == lrows.len() by {
            if c >= left_part.len() {
                assert(out[c] == more[c - left_part.len()]);
            }
        }
    }
}

/// Gathering every row in order gives the cells back.
pub proof fn lemma_gather_identity(cols: Seq<SeriesView>, n: int)
    requires
        0 <= n <= u32::MAX,
        forall|c: int| 0 <= c < cols.len() ==> (#[trigger] cols[c]).cells.len() == n,
    ensures
        gather_cols(cols, Seq::new(n as nat, |i: int| Some(i as u32))) == cols,
{
    let rows = Seq::new(n as nat, |i: int| Some(i as u32));
    assert forall|c: int| 0 <= c < cols.len() implies gather_cols(cols, rows)[c] == cols[c] by {
        assert(gather(cols[c].cells, rows) =~= cols[c].cells);
    }
    assert(gather_cols(cols, rows) =~= cols);
}

/// The inner join of a table with itself on columns whose keys are all
/// different is what putting the table's other columns behind the table
/// gives: the joined table, or the name that two columns would share.
pub proof fn lemma_self_join_outcome(a: Seq<SeriesView>, names: Seq<Seq<char>>, out: Result<Seq<SeriesView>, ErrorView>)
    requires
        frame_wf(a),
        frame_height(a) <= u32::MAX,
        key_seq(select(a, names), frame_height(a)).no_duplicates(),
        is_join(a, a, select(a, names), select(a, names), JoinType::Inner, out),
    ensures
        out == finished(a, drop_named(a, col_names(select(a, names)))),
{
    let sel = select(a, names);
    let n = frame_height(a);
    let keys = key_seq(sel, n);
    let (lrows, rrows) = choose|lrows: Seq<Option<u32>>, rrows: Seq<Option<u32>>|
        #![trigger assemble(a, a, sel, sel, JoinType::Inner, lrows, rrows)]
        join_rows(JoinType::Inner, keys, keys, lrows, rrows) && assemble(a, a, sel, sel, JoinType::Inner, lrows, rrows)
            == out;
    lemma_self_join_identity(keys);
    let all = Seq::new(n as nat, |i: int| Some(i as u32));
    assert(lrows =~= all);
    assert(rrows =~= all);
    assert forall|c: int| 0 <= c < a.len() implies (#[trigger] a[c]).cells.len() == n by {
        assert(a[c].wf());
    }
    lemma_gather_identity(a, n);
    lemma_drop_named_wf(a, col_names(sel));
    lemma_gather_identity(drop_named(a, col_names(sel)), n);
}

/// The inner join of a table with itself on columns whose keys are all
/// different has the table's rows, in order: its first columns are the
/// table, and behind them stand the table's other columns once more.
pub proof fn lemma_self_join(a: Seq<SeriesView>, names: Seq<Seq<char>>, out: Seq<SeriesView>)
    requires
        frame_wf(a),
        frame_height(a) <= u32::MAX,
        key_seq(select(a, names), frame_height(a)).no_duplicates(),
        is_join(a, a, select(a, names), select(a, names), JoinType::Inner, Ok(out)),
    ensures
        out == a + renamed_right(a, drop_named(a, col_names(select(a, names)))),
        out.take(a.len() as int) == a,
        forall|c: int| 0 <= c < out.len() ==> (#[trigger] out[c]).cells.len() == frame_height(a),
{
    let sel = select(a, names);
    let n = frame_height(a);
    let keys = key_seq(sel, n);
    let (lrows, rrows) = choose|lrows: Seq<Option<u32>>, rrows: Seq<Option<u32>>|
        #![trigger assemble(a, a, sel, sel, JoinType::Inner, lrows, rrows)]
        join_rows(JoinType::Inner, keys, keys, lrows, rrows) && assemble(a, a, sel, sel, JoinType::Inner, lrows, rrows)
            == Ok::<Seq<SeriesView>, ErrorView>(out);
    lemma_self_join_identity(keys);
    let all = Seq::new(n as nat, |i: int| Some(i as u32));
    assert(lrows =~= all);
    assert(rrows =~= all);
    assert forall|c: int| 0 <= c < a.len() implies (#[trigger] a[c]).cells.len() == n by {
        assert(a[c].wf());
    }
    lemma_gather_identity(a, n);
    let kept = drop_named(a, col_names(sel));
    lemma_drop_named_wf(a, col_names(sel));
    lemma_gather_identity(kept, n);
    assert(out == a + renamed_right(a, kept));
    assert(out.take(a.len() as int) =~= a);
    assert forall|c: int| 0 <= c < out.len() implies (#[trigger] out[c]).cells.len() == n by {
        if c >= a.len() {
            assert(out[c] == renamed_right(a, kept)[c - a.len()]);
        }
    }
}

/// What a right column brings to a join: nothing where it is a key, else
/// itself.
pub open spec fn kept_right(right: Seq<SeriesView>, keys: Seq<Seq<char>>) -> spec_fn(int) -> Seq<SeriesView> {
    |i: int|
        if keys.contains(right[i].name) {
            Seq::empty()
        } else {
            seq![right[i]]
        }
}

/// Among the first `n` columns, those that are not keys come from columns
/// below `n`, in their order.
proof fn lemma_kept_from(right: Seq<SeriesView>, keys: Seq<Seq<char>>, n: int, q: int) -> (i: int)
    requires
        0 <= n <= right.len(),
        0 <= q < concat_range(kept_right(right, keys), 0, n).len(),
    ensures
        0 <= i < n,
        concat_range(kept_right(right, keys), 0, n)[q] == right[i],
        !keys.contains(right[i].name),
        q == concat_range(kept_right(right, keys), 0, i).len(),
{
    let (i, u) = lemma_concat_range_at(kept_right(right, keys), 0, n, q);
    i
}

/// One more key takes its column, if it has one among those kept, out of
/// the kept columns.
proof fn lemma_kept_step(right: Seq<SeriesView>, keys: Seq<Seq<char>>, x: Seq<char>, n: int)
    requires
        0 <= n <= right.len(),
        col_names(right).no_duplicates(),
    ensures
        ({
            let before = concat_range(kept_right(right, keys), 0, n);
            let after = concat_range(kept_right(right, keys.push(x)), 0, n);
            let at = first_index(col_names(before), x);
            after == if at < before.len() {
                before.remove(at)
            } else {
                before
            }
        }),
    decreases n,
{
    let rows = kept_right(right, keys);
    let more = kept_right(right, keys.push(x));
    let before = concat_range(rows, 0, n);
    let after = concat_range(more, 0, n);
    let at = first_index(col_names(before), x);
    lemma_first_index(col_names(before), x);
    assert forall|k: Seq<char>| keys.push(x).contains(k) <==> (keys.contains(k) || k == x) by {
        if keys.contains(k) {
            let w = choose|w: int| 0 <= w < keys.len() && keys[w] == k;
            assert(keys.push(x)[w] == k);
        }
        if k == x {
            assert(keys.push(x)[keys.len() as int] == x);
        }
        if keys.push(x).contains(k) {
            let w = choose|w: int| 0 <= w < keys.push(x).len() && keys.push(x)[w] == k;
            if w < keys.len() {
                assert(keys[w] == k);
            }
        }
    }
    if n == 0 {
        assert(after =~= before);
    } else {
        lemma_kept_step(right, keys, x, n - 1);
        let b0 = concat_range(rows, 0, n - 1);
        let a0 = concat_range(more, 0, n - 1);
        let at0 = first_index(col_names(b0), x);
        lemma_first_index(col_names(b0), x);
        let last = right[n - 1];
        assert(col_names(right)[n - 1] == last.name);
        // every column kept so far comes from a column before the last one
        assert forall|q: int| 0 <= q < b0.len() implies (#[trigger] col_names(b0)[q]) != last.name by {
            let i = lemma_kept_from(right, keys, n - 1, q);
            assert(col_names(right)[i] == right[i].name);
        }
        if keys.contains(last.name) {
            assert(before =~= b0);
            assert(after =~= a0);
        } else if last.name == x {
            assert(before =~= b0.push(last));
            assert(after =~= a0);
            assert(at0 == b0.len()) by {
                if at0 < b0.len() {
                    assert(col_names(b0)[at0] == x);
                }
            }
            assert(col_names(before)[b0.len() as int] == x);
            assert(at == b0.len()) by {
                if at < b0.len() {
                    assert(col_names(before)[at] == x);
                    assert(col_names(b0)[at] == col_names(before)[at]);
                }
            }
            assert(before.remove(at) =~= b0);
        } else {
            assert(before =~= b0.push(last));
            assert(after =~= a0.push(last));
            if at0 < b0.len() {
                assert(col_names(before)[at0] == col_names(b0)[at0]);
                assert(at == at0) by {
                    if at < at0 {
                        assert(col_names(b0)[at] == col_names(before)[at]);
                    }
                    if at > at0 {
                        assert(col_names(before)[at0] == x);
                    }
                }
                assert(b0.push(last).remove(at0) =~= b0.remove(at0).push(last));
            } else {
                assert(at == before.len()) by {
                    if at < before.len() {
                        assert(col_names(before)[at] == x);
                        if at < b0.len() {
                            assert(col_names(b0)[at] == col_names(before)[at]);
                        }
                    }
                }
            }
        }
    }
}

/// In a table whose columns all have different names, dropping the key
/// columns by name leaves the columns that are not keys, in their order.
pub proof fn lemma_drop_named_is_kept(right: Seq<SeriesView>, keys: Seq<Seq<char>>)
    requires
        col_names(right).no_duplicates(),
    ensures
        drop_named(right, keys) == concat_range(kept_right(right, keys), 0, right.len() as int),
    decreases keys.len(),
{
    if keys.len() == 0 {
        lemma_kept_none(right, right.len() as int);
        assert(keys =~= Seq::empty());
        assert(right.take(right.len() as int) =~= right);
        assert(drop_named(right, keys) == right);
    } else {
        let fewer = keys.drop_last();
        lemma_drop_named_is_kept(right, fewer);
        lemma_kept_step(right, fewer, keys.last(), right.len() as int);
        assert(fewer.push(keys.last()) =~= keys);
        let before = concat_range(kept_right(right, fewer), 0, right.len() as int);
        assert(drop_named(right, fewer) == before);
        let at = first_index(col_names(before), keys.last());
        assert(drop_named(right, keys) == if at < before.len() {
            before.remove(at)
        } else {
            before
        });
    }
}

proof fn lemma_kept_none(right: Seq<SeriesView>, n: int)
    requires
        0 <= n <= right.len(),
    ensures
        concat_range(kept_right(right, Seq::empty()), 0, n) == right.take(n),
    decreases n,
{
    if n == 0 {
        assert(concat_range(kept_right(right, Seq::empty()), 0, n) =~= right.take(n));
    } else {
        lemma_kept_none(right, n - 1);
        assert(!Seq::<Seq<char>>::empty().contains(right[n - 1].name));
        assert(right.take(n - 1).push(right[n - 1]) =~= right.take(n));
    }
    if n == right.len() {
        assert(right.take(n) =~= right);
    }
}

/// The schema of the kept right columns, renamed where a left column has
/// their name, is what the plan's rule gives.
proof fn lemma_right_schema(
    left: Seq<SeriesView>,
    right: Seq<SeriesView>,
    keys: Seq<Seq<char>>,
    rrows: Seq<Option<u32>>,
    n: int,
)
    requires
        0 <= n <= right.len(),
    ensures
        schema_of(renamed_right(left, gather_cols(concat_range(kept_right(right, keys), 0, n), rrows)))
            == concat_range(joined_right(schema_of(left), schema_of(right), keys), 0, n),
    decreases n,
{
    let kept = concat_range(kept_right(right, keys), 0, n);
    let rule = joined_right(schema_of(left), schema_of(right), keys);
    if n == 0 {
        assert(schema_of(renamed_right(left, gather_cols(kept, rrows))) =~= concat_range(rule, 0, n));
    } else {
        lemma_right_schema(left, right, keys, rrows, n - 1);
        let k0 = concat_range(kept_right(right, keys), 0, n - 1);
        let last = right[n - 1];
        assert(schema_of(right)[n - 1] == last.field());
        assert(field_names(schema_of(left)) =~= col_names(left));
        if keys.contains(last.name) {
            assert(kept =~= k0);
            assert(concat_range(rule, 0, n) =~= concat_range(rule, 0, n - 1));
        } else {
            assert(kept =~= k0.push(last));
            let out = renamed_right(left, gather_cols(kept, rrows));
            let out0 = renamed_right(left, gather_cols(k0, rrows));
            assert(schema_of(out) =~= schema_of(out0) + rule(n - 1)) by {
                assert(schema_of(out).len() == schema_of(out0).len() + 1);
                assert forall|c: int| 0 <= c < schema_of(out).len() implies schema_of(out)[c] == (schema_of(out0) + rule(
                    n - 1,
                ))[c] by {
                    if c < k0.len() {
                        assert(kept[c] == k0[c]);
                        assert(gather_cols(kept, rrows)[c].name == gather_cols(k0, rrows)[c].name);
                    } else {
                        assert(kept[c] == last);
                    }
                }
            }
        }
    }
}

/// The schema of a join, of whatever kind, is the schema that the plan
/// derives for its join node: the left schema, then every right column
/// that is not a right key, with `_right` where a left column has its
/// name. This holds where the right table's columns all have different
/// names.
pub proof fn lemma_join_schema(
    left: Seq<SeriesView>,
    right: Seq<SeriesView>,
    lsel: Seq<SeriesView>,
    rsel: Seq<SeriesView>,
    how: JoinType,
    out: Seq<SeriesView>,
)
    requires
        col_names(right).no_duplicates(),
        is_join(left, right, lsel, rsel, how, Ok(out)),
    ensures
        schema_of(out) == join_schema(schema_of(left), schema_of(right), col_names(rsel)),
{
    let (lrows, rrows) = choose|lrows: Seq<Option<u32>>, rrows: Seq<Option<u32>>|
        #![trigger assemble(left, right, lsel, rsel, how, lrows, rrows)]
        join_rows(how, key_seq(lsel, frame_height(left)), key_seq(rsel, frame_height(right)), lrows, rrows)
            && assemble(left, right, lsel, rsel, how, lrows, rrows) == Ok::<Seq<SeriesView>, ErrorView>(out);
    let keys = col_names(rsel);
    let left_part = if how == JoinType::Outer {
        outer_left_part(left, lsel, rsel, lrows, pairs_of(lrows, rrows))
    } else {
        gather_cols(left, lrows)
    };
    let right_part = gather_cols(drop_named(right, keys), rrows);
    assert(out == left_part + renamed_right(left_part, right_part));
    lemma_drop_named_is_kept(right, keys);
    lemma_right_schema(left, right, keys, rrows, right.len() as int);
    assert(col_names(left_part) =~= col_names(left));
    assert(renamed_right(left_part, right_part) =~= renamed_right(left, right_part));
    assert(schema_of(left_part) =~= schema_of(left));
    assert(schema_of(out) =~= schema_of(left_part) + schema_of(renamed_right(left, right_part)));
}

} // verus!
