//! Joins of two tables: which rows are paired is the kernel's part, what
//! table the pairs make is decided here.

use vstd::prelude::*;

use crate::datatypes::{
    AnyValue, Cell, DataType, ErrorView, PolarsError, first_index, lemma_first_index, owned, same_name,
};
use crate::frame::{
    DataFrame, col_names, first_from, frame_height, frame_wf, gather_cols, lemma_first_from,
    lemma_first_from_is, stacked, views_of,
};
use crate::join_laws::{lemma_inner_join_sound, lemma_left_join_sound, lemma_outer_join_covers};
use crate::join_spec::{inner_join_pairs, is_outer_join_pairs, key_rows, left_join_pairs};
use crate::join_tuples::{
    hash_join_tuples_inner, hash_join_tuples_inner_threaded, hash_join_tuples_left,
    hash_join_tuples_left_threaded, hash_join_tuples_outer,
};
use crate::key::{encode_cell, tuple_key};
use crate::parallel::{available_cpus, par_join};
use crate::series::{Series, SeriesView, gather, gather_cell, rows_below};

verus! {

/// The kind of a join.
#[derive(Clone, Copy, Debug, PartialEq, Eq, Structural)]
pub enum JoinType {
    Left,
    Inner,
    Outer,
}

/// The number of threads of a join on a machine of `cpus` cores under a
/// cap: the smaller of the two, and `cpus` where there is no cap.
pub open spec fn capped_threads(cpus: usize, max_threads: Option<usize>) -> usize {
    match max_threads {
        Some(max) => if max < cpus {
            max
        } else {
            cpus
        },
        None => cpus,
    }
}

/// The number of threads of a join on a machine of `cpus` cores under a cap.
pub fn cap_threads(cpus: usize, max_threads: Option<usize>) -> (r: usize)
    ensures
        r == capped_threads(cpus, max_threads),
{
    match max_threads {
        Some(max) => if max < cpus {
            max
        } else {
            cpus
        },
        None => cpus,
    }
}

/// The number of threads that a join uses on this machine: the number of
/// its cores, or the cap where that is smaller.
pub fn n_join_threads(max_threads: Option<usize>) -> (r: usize)
    ensures
        exists|cpus: usize| cpus >= 1 && r == capped_threads(cpus, max_threads),
        max_threads != Some(0usize) ==> r >= 1,
{
    let cpus = available_cpus();
    cap_threads(cpus, max_threads)
}

/// The views of a list of columns.
pub open spec fn sel_views(sel: Seq<&Series>) -> Seq<SeriesView> {
    Seq::new(sel.len(), |k: int| sel[k]@)
}

/// The cells of row `i` in the given columns.
pub open spec fn row_cells(cols: Seq<SeriesView>, i: int) -> Seq<Cell> {
    Seq::new(cols.len(), |c: int| cols[c].cells[i])
}

/// The key of every one of `n` rows: the cells of the key columns, encoded.
pub open spec fn key_seq(cols: Seq<SeriesView>, n: int) -> Seq<Seq<u8>> {
    Seq::new(n as nat, |i: int| tuple_key(row_cells(cols, i)))
}

/// The left rows of inner-join pairs.
pub open spec fn inner_left_rows(pairs: Seq<(u32, u32)>) -> Seq<Option<u32>> {
    Seq::new(pairs.len(), |t: int| Some(pairs[t].0))
}

/// The right rows of inner-join pairs.
pub open spec fn inner_right_rows(pairs: Seq<(u32, u32)>) -> Seq<Option<u32>> {
    Seq::new(pairs.len(), |t: int| Some(pairs[t].1))
}

/// The left rows of left-join pairs.
pub open spec fn left_left_rows(pairs: Seq<(u32, Option<u32>)>) -> Seq<Option<u32>> {
    Seq::new(pairs.len(), |t: int| Some(pairs[t].0))
}

/// The right rows of left-join pairs.
pub open spec fn left_right_rows(pairs: Seq<(u32, Option<u32>)>) -> Seq<Option<u32>> {
    Seq::new(pairs.len(), |t: int| pairs[t].1)
}

/// The left rows of outer-join pairs.
pub open spec fn outer_left_rows(pairs: Seq<(Option<u32>, Option<u32>)>) -> Seq<Option<u32>> {
    Seq::new(pairs.len(), |t: int| pairs[t].0)
}

/// The right rows of outer-join pairs.
pub open spec fn outer_right_rows(pairs: Seq<(Option<u32>, Option<u32>)>) -> Seq<Option<u32>> {
    Seq::new(pairs.len(), |t: int| pairs[t].1)
}

/// The pairs that two lists of rows make.
pub open spec fn pairs_of(lrows: Seq<Option<u32>>, rrows: Seq<Option<u32>>) -> Seq<(Option<u32>, Option<u32>)> {
    Seq::new(lrows.len(), |t: int| (lrows[t], rrows[t]))
}

/// `lrows` and `rrows` are the rows that a join of kind `how` pairs, for
/// the keys of the left and of the right table.
pub open spec fn join_rows(
    how: JoinType,
    lkeys: Seq<Seq<u8>>,
    rkeys: Seq<Seq<u8>>,
    lrows: Seq<Option<u32>>,
    rrows: Seq<Option<u32>>,
) -> bool {
    match how {
        JoinType::Inner => lrows == inner_left_rows(inner_join_pairs(lkeys, rkeys)) && rrows == inner_right_rows(
            inner_join_pairs(lkeys, rkeys),
        ),
        JoinType::Left => lrows == left_left_rows(left_join_pairs(lkeys, rkeys)) && rrows == left_right_rows(
            left_join_pairs(lkeys, rkeys),
        ),
        JoinType::Outer => lrows.len() == rrows.len() && is_outer_join_pairs(lkeys, rkeys, pairs_of(lrows, rrows)),
    }
}

/// The key cell of an outer-join pair: that of the left row where there is
/// one, else that of the right row.
pub open spec fn zip_cell(left: Seq<Cell>, right: Seq<Cell>, pair: (Option<u32>, Option<u32>)) -> Cell {
    match pair.0 {
        Some(i) => left[i as int],
        None => gather_cell(right, pair.1),
    }
}

/// The key column of an outer join, rebuilt from both sides.
pub open spec fn zip_cells(left: Seq<Cell>, right: Seq<Cell>, pairs: Seq<(Option<u32>, Option<u32>)>) -> Seq<Cell> {
    Seq::new(pairs.len(), |t: int| zip_cell(left, right, pairs[t]))
}

/// Every pair names rows that exist: a left row of `left` where it has
/// one, else a right row of `right` where it has one.
pub open spec fn pairs_below(pairs: Seq<(Option<u32>, Option<u32>)>, left: int, right: int) -> bool {
    forall|t: int|
        0 <= t < pairs.len() ==> match (#[trigger] pairs[t]).0 {
            Some(i) => i < left,
            None => pairs[t].1 matches Some(j) ==> j < right,
        }
}

/// Which pair of key columns the left column at place `c` belongs to: the
/// first pair whose left key has the column's name, where the column is the
/// first of its name; else the number of pairs, for a column that is no key.
pub open spec fn key_at(left: Seq<SeriesView>, lsel: Seq<SeriesView>, c: int) -> int {
    if first_index(col_names(left), left[c].name) == c {
        first_index(col_names(lsel), left[c].name)
    } else {
        lsel.len() as int
    }
}

/// The left columns of an outer join, each in its place: a key column holds
/// the key rebuilt from both sides, every other column its cells at the left
/// rows.
pub open spec fn outer_left_part(
    left: Seq<SeriesView>,
    lsel: Seq<SeriesView>,
    rsel: Seq<SeriesView>,
    lrows: Seq<Option<u32>>,
    pairs: Seq<(Option<u32>, Option<u32>)>,
) -> Seq<SeriesView> {
    Seq::new(
        left.len(),
        |c: int|
            if key_at(left, lsel, c) < lsel.len() {
                left[c].with_cells(
                    zip_cells(lsel[key_at(left, lsel, c)].cells, rsel[key_at(left, lsel, c)].cells, pairs),
                )
            } else {
                left[c].with_cells(gather(left[c].cells, lrows))
            },
    )
}

/// A key column has the type of the table's column of its name.
pub open spec fn typed_as(cols: Seq<SeriesView>, key: SeriesView) -> bool {
    col_names(cols).contains(key.name) ==> cols[first_index(col_names(cols), key.name)].dtype == key.dtype
}

/// The columns without the first column of each of the names, taken out one
/// name after the other; a name that no column has takes none out.
pub open spec fn drop_named(cols: Seq<SeriesView>, names: Seq<Seq<char>>) -> Seq<SeriesView>
    decreases names.len(),
{
    if names.len() == 0 {
        cols
    } else {
        let kept = drop_named(cols, names.drop_last());
        let at = first_index(col_names(kept), names.last());
        if at < kept.len() {
            kept.remove(at)
        } else {
            kept
        }
    }
}

/// What is put behind the name of a right column that a left column shares.
pub open spec fn right_suffix() -> Seq<char> {
    "_right"@
}

/// The right columns as they enter the result: one whose name a left column
/// has gets the suffix, once.
pub open spec fn renamed_right(left: Seq<SeriesView>, right: Seq<SeriesView>) -> Seq<SeriesView> {
    Seq::new(
        right.len(),
        |c: int|
            if col_names(left).contains(right[c].name) {
                right[c].named(right[c].name + right_suffix())
            } else {
                right[c]
            },
    )
}

/// The table of the left columns and the renamed right columns, or the name
/// that two columns would share.
pub open spec fn finished(left: Seq<SeriesView>, right: Seq<SeriesView>) -> Result<Seq<SeriesView>, ErrorView> {
    stacked(left, renamed_right(left, right))
}

/// The table that a join makes of the rows it pairs: the left table's
/// columns in their order, then the right table's columns but the right
/// keys. In an outer join the left key columns hold the keys rebuilt from
/// both sides.
pub open spec fn assemble(
    left: Seq<SeriesView>,
    right: Seq<SeriesView>,
    lsel: Seq<SeriesView>,
    rsel: Seq<SeriesView>,
    how: JoinType,
    lrows: Seq<Option<u32>>,
    rrows: Seq<Option<u32>>,
) -> Result<Seq<SeriesView>, ErrorView> {
    let right_part = gather_cols(drop_named(right, col_names(rsel)), rrows);
    match how {
        JoinType::Outer => finished(outer_left_part(left, lsel, rsel, lrows, pairs_of(lrows, rrows)), right_part),
        _ => finished(gather_cols(left, lrows), right_part),
    }
}

/// The table `out`, or the error `out`, is what a join of kind `how` on
/// the key columns `lsel` and `rsel` makes of `left` and `right`.
pub open spec fn is_join(
    left: Seq<SeriesView>,
    right: Seq<SeriesView>,
    lsel: Seq<SeriesView>,
    rsel: Seq<SeriesView>,
    how: JoinType,
    out: Result<Seq<SeriesView>, ErrorView>,
) -> bool {
    exists|lrows: Seq<Option<u32>>, rrows: Seq<Option<u32>>|
        #![trigger assemble(left, right, lsel, rsel, how, lrows, rrows)]
        join_rows(
            how,
            key_seq(lsel, frame_height(left)),
            key_seq(rsel, frame_height(right)),
            lrows,
            rrows,
        ) && assemble(left, right, lsel, rsel, how, lrows, rrows) == out
}

/// The columns of the given names, each the first of its name.
pub open spec fn select(cols: Seq<SeriesView>, names: Seq<Seq<char>>) -> Seq<SeriesView> {
    Seq::new(names.len(), |k: int| cols[first_index(col_names(cols), names[k])])
}

/// The first of `names` that no column has, or the number of names.
pub open spec fn select_fault(cols: Seq<SeriesView>, names: Seq<Seq<char>>) -> int {
    first_from(|k: int| !col_names(cols).contains(names[k]), 0, names.len() as int)
}

/// Why a key column of type `left` may not be joined with one of type
/// `right`: lists and typeless columns cannot be keys, and the two types
/// must be one.
pub open spec fn key_refusal(left: DataType, right: DataType) -> Option<ErrorView> {
    if left == DataType::List || left == DataType::Null {
        Some(ErrorView::Unsupported("join"@, left))
    } else if left != right {
        Some(ErrorView::TypeMismatch(left, right))
    } else {
        None
    }
}

/// The first pair of key columns that may not be joined, or their number.
pub open spec fn key_fault(lsel: Seq<SeriesView>, rsel: Seq<SeriesView>) -> int {
    first_from(|k: int| key_refusal(lsel[k].dtype, rsel[k].dtype) is Some, 0, lsel.len() as int)
}

/// Why a join on the given key names is refused before any row is looked
/// at: a key name that the left table lacks, one that the right table
/// lacks, key lists of different lengths or without a key, or a pair of key
/// columns that may not be joined, in this order; or nothing.
pub open spec fn join_refusal(
    left: Seq<SeriesView>,
    right: Seq<SeriesView>,
    lnames: Seq<Seq<char>>,
    rnames: Seq<Seq<char>>,
) -> Option<ErrorView> {
    let lsel = select(left, lnames);
    let rsel = select(right, rnames);
    if select_fault(left, lnames) < lnames.len() {
        Some(ErrorView::NotFound(lnames[select_fault(left, lnames)]))
    } else if select_fault(right, rnames) < rnames.len() {
        Some(ErrorView::NotFound(rnames[select_fault(right, rnames)]))
    } else if lnames.len() != rnames.len() {
        Some(ErrorView::Arity(lnames.len() as usize, rnames.len() as usize))
    } else if lnames.len() == 0 {
        Some(ErrorView::Arity(1, 0))
    } else if key_fault(lsel, rsel) < lsel.len() {
        key_refusal(lsel[key_fault(lsel, rsel)].dtype, rsel[key_fault(lsel, rsel)].dtype)
    } else {
        None
    }
}

/// The texts of a list of names.
pub open spec fn name_views(names: Seq<&str>) -> Seq<Seq<char>> {
    Seq::new(names.len(), |k: int| names[k]@)
}

/// What `join` owes for two tables and two lists of key names.
pub open spec fn join_outcome(
    left: Seq<SeriesView>,
    right: Seq<SeriesView>,
    lnames: Seq<Seq<char>>,
    rnames: Seq<Seq<char>>,
    how: JoinType,
    out: Result<Seq<SeriesView>, ErrorView>,
) -> bool {
    match join_refusal(left, right, lnames, rnames) {
        Some(e) => out == Err::<Seq<SeriesView>, ErrorView>(e),
        None => is_join(left, right, select(left, lnames), select(right, rnames), how, out),
    }
}

/// The result of a fallible call, seen as a value.
pub open spec fn outcome_view(r: Result<DataFrame, PolarsError>) -> Result<Seq<SeriesView>, ErrorView> {
    match r {
        Ok(df) => Ok(df@),
        Err(e) => Err(e@),
    }
}

/// Splits inner-join pairs into the rows of each side.
pub fn split_inner(pairs: &Vec<(u32, u32)>) -> (r: (Vec<Option<u32>>, Vec<Option<u32>>))
    ensures
        r.0@ == inner_left_rows(pairs@),
        r.1@ == inner_right_rows(pairs@),
{
    let mut lrows: Vec<Option<u32>> = Vec::new();
    let mut rrows: Vec<Option<u32>> = Vec::new();
    let mut t: usize = 0;
    while t < pairs.len()
        invariant
            t <= pairs.len(),
            lrows@ == inner_left_rows(pairs@).take(t as int),
            rrows@ == inner_right_rows(pairs@).take(t as int),
        decreases pairs.len() - t,
    {
        lrows.push(Some(pairs[t].0));
        rrows.push(Some(pairs[t].1));
        assert(lrows@ =~= inner_left_rows(pairs@).take(t + 1));
        assert(rrows@ =~= inner_right_rows(pairs@).take(t + 1));
        t += 1;
    }
    assert(lrows@ =~= inner_left_rows(pairs@));
    assert(rrows@ =~= inner_right_rows(pairs@));
    (lrows, rrows)
}

/// Splits left-join pairs into the rows of each side.
pub fn split_left(pairs: &Vec<(u32, Option<u32>)>) -> (r: (Vec<Option<u32>>, Vec<Option<u32>>))
    ensures
        r.0@ == left_left_rows(pairs@),
        r.1@ == left_right_rows(pairs@),
{
    let mut lrows: Vec<Option<u32>> = Vec::new();
    let mut rrows: Vec<Option<u32>> = Vec::new();
    let mut t: usize = 0;
    while t < pairs.len()
        invariant
            t <= pairs.len(),
            lrows@ == left_left_rows(pairs@).take(t as int),
            rrows@ == left_right_rows(pairs@).take(t as int),
        decreases pairs.len() - t,
    {
        lrows.push(Some(pairs[t].0));
        rrows.push(pairs[t].1);
        assert(lrows@ =~= left_left_rows(pairs@).take(t + 1));
        assert(rrows@ =~= left_right_rows(pairs@).take(t + 1));
        t += 1;
    }
    assert(lrows@ =~= left_left_rows(pairs@));
    assert(rrows@ =~= left_right_rows(pairs@));
    (lrows, rrows)
}

/// Splits outer-join pairs into the rows of each side.
pub fn split_outer(pairs: &Vec<(Option<u32>, Option<u32>)>) -> (r: (Vec<Option<u32>>, Vec<Option<u32>>))
    ensures
        r.0@ == outer_left_rows(pairs@),
        r.1@ == outer_right_rows(pairs@),
        pairs_of(r.0@, r.1@) == pairs@,
{
    let mut lrows: Vec<Option<u32>> = Vec::new();
    let mut rrows: Vec<Option<u32>> = Vec::new();
    let mut t: usize = 0;
    while t < pairs.len()
        invariant
            t <= pairs.len(),
            lrows@ == outer_left_rows(pairs@).take(t as int),
            rrows@ == outer_right_rows(pairs@).take(t as int),
        decreases pairs.len() - t,
    {
        lrows.push(pairs[t].0);
        rrows.push(pairs[t].1);
        assert(lrows@ =~= outer_left_rows(pairs@).take(t + 1));
        assert(rrows@ =~= outer_right_rows(pairs@).take(t + 1));
        t += 1;
    }
    assert(lrows@ =~= outer_left_rows(pairs@));
    assert(rrows@ =~= outer_right_rows(pairs@));
    assert(pairs_of(lrows@, rrows@) =~= pairs@);
    (lrows, rrows)
}

/// Encodes the key of every row: the cells of the key columns, one after
/// the other.
pub fn encode_keys(cols: &Vec<&Series>, height: usize) -> (r: Vec<Vec<u8>>)
    requires
        forall|k: int| 0 <= k < cols.len() ==> (#[trigger] cols[k])@.cells.len() == height,
    ensures
        r.len() == height,
        key_rows(r@) == key_seq(sel_views(cols@), height as int),
{
    let ghost views = sel_views(cols@);
    let mut r: Vec<Vec<u8>> = Vec::new();
    let mut i: usize = 0;
    while i < height
        invariant
            i <= height,
            views == sel_views(cols@),
            forall|k: int| 0 <= k < cols.len() ==> (#[trigger] cols[k])@.cells.len() == height,
            r.len() == i,
            forall|j: int| 0 <= j < i ==> (#[trigger] r@[j])@ == tuple_key(row_cells(views, j)),
        decreases height - i,
    {
        let ghost cells = row_cells(views, i as int);
        let mut key: Vec<u8> = Vec::new();
        let mut k: usize = 0;
        assert(cells.take(0) =~= Seq::empty());
        while k < cols.len()
            invariant
                k <= cols.len(),
                i < height,
                views == sel_views(cols@),
                cells == row_cells(views, i as int),
                forall|k: int| 0 <= k < cols.len() ==> (#[trigger] cols[k])@.cells.len() == height,
                key@ == tuple_key(cells.take(k as int)),
            decreases cols.len() - k,
        {
            let col = cols[k];
            assert(col@ == views[k as int]);
            encode_cell(col.get(i), &mut key);
            assert(cells.take(k + 1).drop_last() =~= cells.take(k as int));
            k += 1;
        }
        assert(cells.take(cols.len() as int) =~= cells);
        r.push(key);
        i += 1;
    }
    assert(key_rows(r@) =~= key_seq(views, height as int));
    r
}

/// Rebuilds the key column of an outer join from the key columns of both
/// sides.
pub trait ZipOuterJoinColumn {
    /// What the call asks of its arguments.
    spec fn zip_requires(&self, right_column: &Series, opt_join_tuples: Seq<(Option<u32>, Option<u32>)>) -> bool;

    /// What the call gives.
    spec fn zip_ensures(
        &self,
        right_column: &Series,
        opt_join_tuples: Seq<(Option<u32>, Option<u32>)>,
        zipped: Series,
    ) -> bool;

    /// The column whose cell for each pair is that of the left row where
    /// the pair has one, else that of the right row.
    fn zip_outer_join_column(
        &self,
        right_column: &Series,
        opt_join_tuples: &Vec<(Option<u32>, Option<u32>)>,
    ) -> (zipped: Series)
        requires
            self.zip_requires(right_column, opt_join_tuples@),
        ensures
            self.zip_ensures(right_column, opt_join_tuples@, zipped),
    ;
}

impl ZipOuterJoinColumn for Series {
    open spec fn zip_requires(&self, right_column: &Series, opt_join_tuples: Seq<(Option<u32>, Option<u32>)>) -> bool {
        pairs_below(opt_join_tuples, self@.cells.len() as int, right_column@.cells.len() as int)
    }

    open spec fn zip_ensures(
        &self,
        right_column: &Series,
        opt_join_tuples: Seq<(Option<u32>, Option<u32>)>,
        zipped: Series,
    ) -> bool {
        &&& zipped@ == self@.with_cells(zip_cells(self@.cells, right_column@.cells, opt_join_tuples))
        &&& self.wf() && right_column.wf() && right_column@.dtype == self@.dtype ==> zipped.wf()
    }

    fn zip_outer_join_column(
        &self,
        right_column: &Series,
        opt_join_tuples: &Vec<(Option<u32>, Option<u32>)>,
    ) -> (zipped: Series) {
        let ghost want = zip_cells(self@.cells, right_column@.cells, opt_join_tuples@);
        let mut values: Vec<AnyValue> = Vec::new();
        let mut t: usize = 0;
        while t < opt_join_tuples.len()
            invariant
                t <= opt_join_tuples.len(),
                pairs_below(opt_join_tuples@, self@.cells.len() as int, right_column@.cells.len() as int),
                want == zip_cells(self@.cells, right_column@.cells, opt_join_tuples@),
                values@.len() == t,
                forall|j: int| 0 <= j < t ==> (#[trigger] values@[j])@ == want[j],
                self.wf() && right_column.wf() && right_column@.dtype == self@.dtype ==> forall|j: int|
                    0 <= j < t ==> (#[trigger] values@[j])@.fits(self@.dtype),
            decreases opt_join_tuples.len() - t,
        {
            let pair = opt_join_tuples[t];
            assert(pair == opt_join_tuples@[t as int]);
            let cell = match pair.0 {
                Some(i) => {
                    assert(self.wf() ==> self@.cells[i as int].fits(self@.dtype));
                    self.get(i as usize).duplicate()
                },
                None => match pair.1 {
                    Some(j) => {
                        assert(right_column.wf() ==> right_column@.cells[j as int].fits(right_column@.dtype));
                        right_column.get(j as usize).duplicate()
                    },
                    None => AnyValue::Null,
                },
            };
            values.push(cell);
            t += 1;
        }
        let ghost cells = crate::series::cells_of(values@);
        assert(cells =~= want);
        let zipped = Series::assemble(self.name(), self.dtype(), values);
        zipped
    }
}

/// The pairs of the inner join of two key columns. The shorter side is
/// hashed; with `threads` the probe runs on that many threads.
pub fn inner_pairs_for(lkeys: &Vec<Vec<u8>>, rkeys: &Vec<Vec<u8>>, threads: Option<usize>) -> (r: Vec<(u32, u32)>)
    requires
        lkeys.len() <= u32::MAX,
        rkeys.len() <= u32::MAX,
        threads != Some(0usize),
    ensures
        r@ == inner_join_pairs(key_rows(lkeys@), key_rows(rkeys@)),
{
    let left_first = lkeys.len() > rkeys.len();
    match threads {
        Some(n) => if left_first {
            hash_join_tuples_inner_threaded(lkeys, rkeys, false, n)
        } else {
            hash_join_tuples_inner_threaded(rkeys, lkeys, true, n)
        },
        None => if left_first {
            hash_join_tuples_inner(lkeys, rkeys, false)
        } else {
            hash_join_tuples_inner(rkeys, lkeys, true)
        },
    }
}

/// The pairs of the left join of two key columns. The right side is hashed
/// whatever its length, so that every left row comes out.
pub fn left_pairs_for(lkeys: &Vec<Vec<u8>>, rkeys: &Vec<Vec<u8>>, threads: Option<usize>) -> (r: Vec<
    (u32, Option<u32>),
>)
    requires
        lkeys.len() <= u32::MAX,
        rkeys.len() <= u32::MAX,
        threads != Some(0usize),
    ensures
        r@ == left_join_pairs(key_rows(lkeys@), key_rows(rkeys@)),
{
    match threads {
        Some(n) => hash_join_tuples_left_threaded(lkeys, rkeys, n),
        None => hash_join_tuples_left(lkeys, rkeys),
    }
}

/// The pairs of the outer join of two key columns, on one thread. The
/// shorter side is hashed.
pub fn outer_pairs_for(lkeys: &Vec<Vec<u8>>, rkeys: &Vec<Vec<u8>>) -> (r: Vec<(Option<u32>, Option<u32>)>)
    requires
        lkeys.len() <= u32::MAX,
        rkeys.len() <= u32::MAX,
    ensures
        is_outer_join_pairs(key_rows(lkeys@), key_rows(rkeys@), r@),
{
    if lkeys.len() > rkeys.len() {
        hash_join_tuples_outer(lkeys, rkeys, false)
    } else {
        hash_join_tuples_outer(rkeys, lkeys, true)
    }
}

/// The keys of one column.
pub open spec fn series_keys(s: SeriesView) -> Seq<Seq<u8>> {
    key_seq(seq![s], s.cells.len() as int)
}

/// Encodes the keys of one column.
fn encode_series(s: &Series) -> (r: Vec<Vec<u8>>)
    ensures
        r.len() == s@.cells.len(),
        key_rows(r@) == series_keys(s@),
{
    let mut cols: Vec<&Series> = Vec::new();
    cols.push(s);
    assert(sel_views(cols@) =~= seq![s@]);
    encode_keys(&cols, s.len())
}

/// With how many threads a key column of the given type is probed: columns
/// of truth values are joined on one thread.
fn threads_for(dtype: DataType, n_threads: usize) -> (r: Option<usize>)
    ensures
        r == if dtype == DataType::Boolean { None } else { Some(n_threads) },
{
    if dtype == DataType::Boolean {
        None
    } else {
        Some(n_threads)
    }
}

impl Series {
    /// The pairs of the inner join of this key column with `other`.
    pub fn hash_join_inner(&self, other: &Series, n_threads: usize) -> (r: Vec<(u32, u32)>)
        requires
            self@.cells.len() <= u32::MAX,
            other@.cells.len() <= u32::MAX,
            n_threads >= 1,
        ensures
            r@ == inner_join_pairs(series_keys(self@), series_keys(other@)),
    {
        let lkeys = encode_series(self);
        let rkeys = encode_series(other);
        inner_pairs_for(&lkeys, &rkeys, threads_for(self.dtype(), n_threads))
    }

    /// The pairs of the left join of this key column with `other`.
    pub fn hash_join_left(&self, other: &Series, n_threads: usize) -> (r: Vec<(u32, Option<u32>)>)
        requires
            self@.cells.len() <= u32::MAX,
            other@.cells.len() <= u32::MAX,
            n_threads >= 1,
        ensures
            r@ == left_join_pairs(series_keys(self@), series_keys(other@)),
    {
        let lkeys = encode_series(self);
        let rkeys = encode_series(other);
        left_pairs_for(&lkeys, &rkeys, threads_for(self.dtype(), n_threads))
    }

    /// The pairs of the outer join of this key column with `other`.
    pub fn hash_join_outer(&self, other: &Series) -> (r: Vec<(Option<u32>, Option<u32>)>)
        requires
            self@.cells.len() <= u32::MAX,
            other@.cells.len() <= u32::MAX,
        ensures
            is_outer_join_pairs(series_keys(self@), series_keys(other@), r@),
    {
        let lkeys = encode_series(self);
        let rkeys = encode_series(other);
        outer_pairs_for(&lkeys, &rkeys)
    }
}

/// The rows of an inner join name rows that exist.
pub proof fn lemma_inner_rows_below(lkeys: Seq<Seq<u8>>, rkeys: Seq<Seq<u8>>)
    requires
        lkeys.len() <= u32::MAX,
        rkeys.len() <= u32::MAX,
    ensures
        rows_below(inner_left_rows(inner_join_pairs(lkeys, rkeys)), lkeys.len() as int),
        rows_below(inner_right_rows(inner_join_pairs(lkeys, rkeys)), rkeys.len() as int),
{
    let pairs = inner_join_pairs(lkeys, rkeys);
    assert forall|t: int| 0 <= t < pairs.len() implies ((#[trigger] inner_left_rows(pairs)[t]) matches Some(i) ==> i
        < lkeys.len()) by {
        lemma_inner_join_sound(lkeys, rkeys, t);
    }
    assert forall|t: int| 0 <= t < pairs.len() implies ((#[trigger] inner_right_rows(pairs)[t]) matches Some(i) ==> i
        < rkeys.len()) by {
        lemma_inner_join_sound(lkeys, rkeys, t);
    }
}

/// The rows of a left join name rows that exist.
pub proof fn lemma_left_rows_below(lkeys: Seq<Seq<u8>>, rkeys: Seq<Seq<u8>>)
    requires
        lkeys.len() <= u32::MAX,
        rkeys.len() <= u32::MAX,
    ensures
        rows_below(left_left_rows(left_join_pairs(lkeys, rkeys)), lkeys.len() as int),
        rows_below(left_right_rows(left_join_pairs(lkeys, rkeys)), rkeys.len() as int),
{
    let pairs = left_join_pairs(lkeys, rkeys);
    assert forall|t: int| 0 <= t < pairs.len() implies ((#[trigger] left_left_rows(pairs)[t]) matches Some(i) ==> i
        < lkeys.len()) by {
        lemma_left_join_sound(lkeys, rkeys, t);
    }
    assert forall|t: int| 0 <= t < pairs.len() implies ((#[trigger] left_right_rows(pairs)[t]) matches Some(i) ==> i
        < rkeys.len()) by {
        lemma_left_join_sound(lkeys, rkeys, t);
    }
}

/// The rows of an outer join name rows that exist.
pub proof fn lemma_outer_rows_below(lkeys: Seq<Seq<u8>>, rkeys: Seq<Seq<u8>>, pairs: Seq<(Option<u32>, Option<u32>)>)
    requires
        lkeys.len() <= u32::MAX,
        rkeys.len() <= u32::MAX,
        is_outer_join_pairs(lkeys, rkeys, pairs),
    ensures
        rows_below(outer_left_rows(pairs), lkeys.len() as int),
        rows_below(outer_right_rows(pairs), rkeys.len() as int),
        pairs_below(pairs, lkeys.len() as int, rkeys.len() as int),
{
    lemma_outer_join_covers(lkeys, rkeys, pairs);
    assert forall|t: int| 0 <= t < pairs.len() implies ((#[trigger] outer_left_rows(pairs)[t]) matches Some(i) ==> i
        < lkeys.len()) by {
        assert(outer_left_rows(pairs)[t] == pairs[t].0);
    }
    assert forall|t: int| 0 <= t < pairs.len() implies ((#[trigger] outer_right_rows(pairs)[t]) matches Some(i) ==> i
        < rkeys.len()) by {
        assert(outer_right_rows(pairs)[t] == pairs[t].1);
    }
}

/// Dropping columns one by one leaves a well-formed table of the same
/// height, as long as a column is left.
pub proof fn lemma_drop_named_wf(cols: Seq<SeriesView>, names: Seq<Seq<char>>)
    requires
        frame_wf(cols),
    ensures
        frame_wf(drop_named(cols, names)),
        drop_named(cols, names).len() > 0 ==> frame_height(drop_named(cols, names)) == frame_height(cols),
        forall|c: int|
            0 <= c < drop_named(cols, names).len() ==> (#[trigger] drop_named(cols, names)[c]).cells.len()
                == frame_height(cols),
    decreases names.len(),
{
    if names.len() > 0 {
        lemma_drop_named_wf(cols, names.drop_last());
        let kept = drop_named(cols, names.drop_last());
        let at = first_index(col_names(kept), names.last());
        lemma_first_index(col_names(kept), names.last());
        if at < kept.len() {
            let out = kept.remove(at);
            assert forall|c: int| 0 <= c < out.len() implies (#[trigger] out[c]).wf() && out[c].cells.len()
                == frame_height(cols) by {
                let j = if c < at { c } else { c + 1 };
                assert(out[c] == kept[j]);
                assert(kept[j].wf());
            }
            if out.len() > 0 {
                assert(out[0].cells.len() == frame_height(cols));
            }
        }
    } else {
        assert forall|c: int| 0 <= c < cols.len() implies (#[trigger] cols[c]).cells.len() == frame_height(cols) by {
            assert(cols[c].wf());
        }
    }
}

/// Takes the selected columns out of a table, each by its name.
pub fn remove_selected(df: &DataFrame, selected: &Vec<&Series>) -> (r: DataFrame)
    ensures
        r@ == drop_named(df@, col_names(sel_views(selected@))),
        df.wf() ==> r.wf(),
{
    let ghost names = col_names(sel_views(selected@));
    let mut new = df.duplicate();
    let mut k: usize = 0;
    assert(names.take(0) =~= Seq::empty());
    while k < selected.len()
        invariant
            k <= selected.len(),
            names == col_names(sel_views(selected@)),
            new@ == drop_named(df@, names.take(k as int)),
        decreases selected.len() - k,
    {
        let s = selected[k];
        proof {
            assert(names.take(k + 1).drop_last() =~= names.take(k as int));
            assert(names.take(k + 1).last() == s@.name);
            lemma_first_index(col_names(new@), s@.name);
        }
        match new.drop(s.name()) {
            Ok(dropped) => {
                new = dropped;
            },
            Err(_) => {},
        }
        k += 1;
    }
    assert(names.take(selected.len() as int) =~= names);
    proof {
        if df.wf() {
            lemma_drop_named_wf(df@, names);
        }
    }
    new
}

/// The first pair of key columns that may not be joined, as an error.
pub fn check_keys(lsel: &Vec<&Series>, rsel: &Vec<&Series>) -> (r: Result<(), PolarsError>)
    requires
        lsel.len() == rsel.len(),
    ensures
        match r {
            Ok(_) => key_fault(sel_views(lsel@), sel_views(rsel@)) == lsel.len(),
            Err(e) => key_fault(sel_views(lsel@), sel_views(rsel@)) < lsel.len() && Some(e@) == key_refusal(
                sel_views(lsel@)[key_fault(sel_views(lsel@), sel_views(rsel@))].dtype,
                sel_views(rsel@)[key_fault(sel_views(lsel@), sel_views(rsel@))].dtype,
            ),
        },
{
    let ghost lv = sel_views(lsel@);
    let ghost rv = sel_views(rsel@);
    let ghost bad = |k: int| key_refusal(lv[k].dtype, rv[k].dtype) is Some;
    let mut k: usize = 0;
    while k < lsel.len()
        invariant
            k <= lsel.len(),
            lsel.len() == rsel.len(),
            lv == sel_views(lsel@),
            rv == sel_views(rsel@),
            bad == (|k: int| key_refusal(lv[k].dtype, rv[k].dtype) is Some),
            forall|j: int| 0 <= j < k ==> !#[trigger] bad(j),
        decreases lsel.len() - k,
    {
        let left = lsel[k].dtype();
        let right = rsel[k].dtype();
        assert(lv[k as int].dtype == left && rv[k as int].dtype == right);
        if left == DataType::List || left == DataType::Null {
            proof {
                assert(bad(k as int));
                lemma_first_from_is(bad, 0, lv.len() as int, k as int);
            }
            return Err(PolarsError::Unsupported(owned("join"), left));
        }
        if left != right {
            proof {
                assert(bad(k as int));
                lemma_first_from_is(bad, 0, lv.len() as int, k as int);
            }
            return Err(PolarsError::TypeMismatch(left, right));
        }
        assert(!bad(k as int));
        k += 1;
    }
    proof {
        lemma_first_from_is(bad, 0, lv.len() as int, lv.len() as int);
    }
    Ok(())
}

impl DataFrame {
    /// The columns of the given names, each the first of its name. A name
    /// that no column has is refused, the first such name first.
    pub fn select_series<'a>(&'a self, names: &Vec<&str>) -> (r: Result<Vec<&'a Series>, PolarsError>)
        ensures
            match r {
                Ok(sel) => select_fault(self@, name_views(names@)) == names.len() && sel_views(sel@) == select(
                    self@,
                    name_views(names@),
                ),
                Err(e) => select_fault(self@, name_views(names@)) < names.len() && e@ == ErrorView::NotFound(
                    name_views(names@)[select_fault(self@, name_views(names@))],
                ),
            },
    {
        let ghost nv = name_views(names@);
        let ghost missing = |k: int| !col_names(self@).contains(nv[k]);
        let mut sel: Vec<&Series> = Vec::new();
        let mut k: usize = 0;
        while k < names.len()
            invariant
                k <= names.len(),
                nv == name_views(names@),
                missing == (|k: int| !col_names(self@).contains(nv[k])),
                forall|j: int| 0 <= j < k ==> !#[trigger] missing(j),
                sel@.len() == k,
                forall|j: int| 0 <= j < k ==> (#[trigger] sel@[j])@ == self@[first_index(col_names(self@), nv[j])],
            decreases names.len() - k,
        {
            let name = names[k];
            assert(nv[k as int] == name@);
            match self.column(name) {
                Ok(s) => {
                    assert(!missing(k as int));
                    sel.push(s);
                },
                Err(e) => {
                    proof {
                        assert(missing(k as int));
                        lemma_first_from_is(missing, 0, nv.len() as int, k as int);
                    }
                    return Err(e);
                },
            }
            k += 1;
        }
        proof {
            lemma_first_from_is(missing, 0, nv.len() as int, nv.len() as int);
            assert(sel_views(sel@) =~= select(self@, nv));
        }
        Ok(sel)
    }

    /// Puts the right columns behind the left columns. A right column
    /// whose name a left column has gets the suffix `_right`; where two
    /// columns would still share a name, that name is refused.
    pub fn finish_join(&self, df_left: DataFrame, df_right: DataFrame) -> (r: Result<DataFrame, PolarsError>)
        ensures
            outcome_view(r) == finished(df_left@, df_right@),
            df_left.wf() && df_right.wf() && r is Ok ==> r->Ok_0.wf(),
    {
        let ghost right = df_right@;
        let ghost want = renamed_right(df_left@, right);
        let ghost all_wf = df_left.wf() && df_right.wf();
        let mut rest = df_right.into_columns();
        let n = rest.len();
        let mut renamed: Vec<Series> = Vec::new();
        let mut c: usize = 0;
        while c < n
            invariant
                c <= n,
                n == right.len(),
                want == renamed_right(df_left@, right),
                rest@.len() == n - c,
                forall|i: int| 0 <= i < rest@.len() ==> (#[trigger] rest@[i])@ == right[c + i],
                all_wf ==> forall|i: int| 0 <= i < rest@.len() ==> (#[trigger] rest@[i]).wf(),
                renamed@.len() == c,
                forall|i: int| 0 <= i < c ==> (#[trigger] renamed@[i])@ == want[i],
                all_wf ==> forall|i: int| 0 <= i < c ==> (#[trigger] renamed@[i]).wf(),
            decreases n - c,
        {
            let mut col = rest.remove(0);
            assert(col@ == right[c as int]);
            proof {
                lemma_first_index(col_names(df_left@), col@.name);
            }
            if df_left.find_idx_by_name(col.name()).is_some() {
                let mut name = owned(col.name());
                name.append("_right");
                col.rename(name.as_str());
            }
            renamed.push(col);
            c += 1;
        }
        assert(views_of(renamed@) =~= want);
        df_left.hstack(renamed)
    }

    /// The left table's rows of a join, gathered.
    pub fn create_left_df(&self, rows: &Vec<Option<u32>>) -> (r: DataFrame)
        requires
            self.wf(),
            self@.len() > 0 ==> rows_below(rows@, frame_height(self@)),
        ensures
            r@ == gather_cols(self@, rows@),
            r.wf(),
    {
        self.take_opt(rows)
    }
}

/// The first of the key columns that is named `name`.
pub fn find_key(selected: &Vec<&Series>, name: &str) -> (r: Option<usize>)
    ensures
        match r {
            Some(k) => k < selected.len() && k == first_index(col_names(sel_views(selected@)), name@),
            None => first_index(col_names(sel_views(selected@)), name@) == selected.len(),
        },
{
    let ghost names = col_names(sel_views(selected@));
    let mut k: usize = 0;
    while k < selected.len()
        invariant
            k <= selected.len(),
            names == col_names(sel_views(selected@)),
            forall|j: int| 0 <= j < k ==> names[j] != name@,
        decreases selected.len() - k,
    {
        if same_name(selected[k].name(), name) {
            proof {
                lemma_first_index(names, name@);
                assert(names[k as int] == name@);
                let at = first_index(names, name@);
                if at > k {
                    assert(names[k as int] != name@);
                }
            }
            return Some(k);
        }
        k += 1;
    }
    proof {
        lemma_first_index(names, name@);
    }
    None
}

impl DataFrame {
    /// The left columns of an outer join, each in its place: a key column
    /// is rebuilt from the key columns of both sides, every other column is
    /// gathered at the left rows.
    pub fn outer_left_df(
        &self,
        lsel: &Vec<&Series>,
        rsel: &Vec<&Series>,
        opt_join_tuples: &Vec<(Option<u32>, Option<u32>)>,
        lrows: &Vec<Option<u32>>,
    ) -> (df: DataFrame)
        requires
            self.wf(),
            lsel.len() == rsel.len(),
            lrows@.len() == opt_join_tuples@.len(),
            rows_below(lrows@, frame_height(self@)),
            forall|k: int|
                0 <= k < lsel.len() ==> (#[trigger] lsel[k]).wf() && typed_as(self@, lsel[k]@) && pairs_below(
                    opt_join_tuples@,
                    lsel[k]@.cells.len() as int,
                    rsel[k]@.cells.len() as int,
                ),
            forall|k: int| 0 <= k < rsel.len() ==> (#[trigger] rsel[k]).wf(),
            forall|k: int| 0 <= k < lsel.len() ==> (#[trigger] rsel[k])@.dtype == lsel[k]@.dtype,
        ensures
            df@ == outer_left_part(self@, sel_views(lsel@), sel_views(rsel@), lrows@, opt_join_tuples@),
            df.wf(),
    {
        let ghost lv = sel_views(lsel@);
        let ghost rv = sel_views(rsel@);
        let ghost want = outer_left_part(self@, lv, rv, lrows@, opt_join_tuples@);
        let columns = self.get_columns();
        let mut out: Vec<Series> = Vec::new();
        let mut c: usize = 0;
        while c < columns.len()
            invariant
                c <= columns.len(),
                views_of(columns@) == self@,
                self.wf(),
                lsel.len() == rsel.len(),
                lv == sel_views(lsel@),
                rv == sel_views(rsel@),
                want == outer_left_part(self@, lv, rv, lrows@, opt_join_tuples@),
                lrows@.len() == opt_join_tuples@.len(),
                rows_below(lrows@, frame_height(self@)),
                forall|k: int|
                    0 <= k < lsel.len() ==> (#[trigger] lsel[k]).wf() && typed_as(self@, lsel[k]@) && pairs_below(
                        opt_join_tuples@,
                        lsel[k]@.cells.len() as int,
                        rsel[k]@.cells.len() as int,
                    ),
                forall|k: int| 0 <= k < rsel.len() ==> (#[trigger] rsel[k]).wf(),
                forall|k: int| 0 <= k < lsel.len() ==> (#[trigger] rsel[k])@.dtype == lsel[k]@.dtype,
                out@.len() == c,
                forall|j: int|
                    0 <= j < c ==> (#[trigger] out@[j])@ == want[j] && out@[j].wf() && out@[j]@.cells.len()
                        == lrows@.len(),
            decreases columns.len() - c,
        {
            let col = &columns[c];
            assert(col@ == self@[c as int]);
            assert(self@[c as int].wf());
            proof {
                lemma_first_index(col_names(self@), col@.name);
                lemma_first_index(col_names(lv), col@.name);
            }
            let first = match self.find_idx_by_name(col.name()) {
                Some(at) => at == c,
                None => false,
            };
            let key = if first {
                find_key(lsel, col.name())
            } else {
                None
            };
            let ghost k = key_at(self@, lv, c as int);
            match key {
                Some(at) => {
                    assert(k == at);
                    let s_left = lsel[at];
                    let s_right = rsel[at];
                    assert(lv[at as int] == s_left@ && rv[at as int] == s_right@);
                    assert(col_names(lv)[at as int] == col@.name);
                    assert(s_left.wf() && s_right.wf() && s_right@.dtype == s_left@.dtype && typed_as(self@, s_left@));
                    assert(s_left@.name == col@.name && s_left@.dtype == col@.dtype);
                    let s = s_left.zip_outer_join_column(s_right, opt_join_tuples);
                    out.push(s);
                },
                None => {
                    assert(k == lv.len());
                    out.push(col.take_opt(lrows));
                },
            }
            c += 1;
        }
        assert(views_of(out@) =~= want);
        proof {
            let odd = |c: int| views_of(out@)[c].cells.len() != frame_height(views_of(out@));
            assert forall|i: int| 0 <= i < out@.len() implies !#[trigger] odd(i) by {
                assert(out@[i]@.cells.len() == lrows@.len());
                assert(out@[0]@.cells.len() == lrows@.len());
            }
            lemma_first_from_is(odd, 0, out@.len() as int, out@.len() as int);
        }
        match DataFrame::new(out) {
            Ok(df) => df,
            Err(_) => unreached(),
        }
    }
}

/// Where every name is found, the selected columns are columns of the
/// table: well-formed and as long as the table is high.
pub proof fn lemma_select_wf(cols: Seq<SeriesView>, names: Seq<Seq<char>>)
    requires
        frame_wf(cols),
        select_fault(cols, names) == names.len(),
    ensures
        forall|k: int|
            0 <= k < names.len() ==> (#[trigger] select(cols, names)[k]).wf() && select(cols, names)[k].cells.len()
                == frame_height(cols),
{
    let missing = |k: int| !col_names(cols).contains(names[k]);
    lemma_first_from(missing, 0, names.len() as int);
    assert forall|k: int| 0 <= k < names.len() implies (#[trigger] select(cols, names)[k]).wf() && select(
        cols,
        names,
    )[k].cells.len() == frame_height(cols) by {
        assert(!missing(k));
        lemma_first_index(col_names(cols), names[k]);
        let at = first_index(col_names(cols), names[k]);
        assert(cols[at].wf());
    }
}

/// A column that was picked by name has the type of the table's column of
/// its name: it is that column.
pub proof fn lemma_select_typed(cols: Seq<SeriesView>, names: Seq<Seq<char>>, k: int)
    requires
        select_fault(cols, names) == names.len(),
        0 <= k < names.len(),
    ensures
        typed_as(cols, select(cols, names)[k]),
        select(cols, names)[k].name == names[k],
{
    let missing = |k: int| !col_names(cols).contains(names[k]);
    lemma_first_from(missing, 0, names.len() as int);
    assert(!missing(k));
    lemma_first_index(col_names(cols), names[k]);
    let at = first_index(col_names(cols), names[k]);
    assert(col_names(cols)[at] == cols[at].name);
}

/// Where no pair of key columns is refused, each pair has one type.
pub proof fn lemma_keys_typed(lsel: Seq<SeriesView>, rsel: Seq<SeriesView>)
    requires
        key_fault(lsel, rsel) == lsel.len(),
    ensures
        forall|k: int| 0 <= k < lsel.len() ==> (#[trigger] rsel[k]).dtype == lsel[k].dtype,
{
    let bad = |k: int| key_refusal(lsel[k].dtype, rsel[k].dtype) is Some;
    lemma_first_from(bad, 0, lsel.len() as int);
    assert forall|k: int| 0 <= k < lsel.len() implies (#[trigger] rsel[k]).dtype == lsel[k].dtype by {
        assert(!bad(k));
    }
}

impl DataFrame {
    /// Joins the two tables on key columns that have been picked and
    /// checked.
    pub fn join_on(
        &self,
        other: &DataFrame,
        lsel: &Vec<&Series>,
        rsel: &Vec<&Series>,
        how: JoinType,
        n_threads: usize,
    ) -> (r: Result<DataFrame, PolarsError>)
        requires
            self.wf(),
            other.wf(),
            frame_height(self@) <= u32::MAX,
            frame_height(other@) <= u32::MAX,
            n_threads >= 1,
            lsel.len() == rsel.len(),
            lsel.len() >= 1,
            forall|k: int| 0 <= k < lsel.len() ==> (#[trigger] lsel[k]).wf() && lsel[k]@.cells.len() == frame_height(self@),
            forall|k: int|
                0 <= k < rsel.len() ==> (#[trigger] rsel[k]).wf() && rsel[k]@.cells.len() == frame_height(other@),
            forall|k: int| 0 <= k < lsel.len() ==> (#[trigger] rsel[k])@.dtype == lsel[k]@.dtype,
            how == JoinType::Outer ==> forall|k: int| 0 <= k < lsel.len() ==> typed_as(self@, (#[trigger] lsel[k])@),
        ensures
            is_join(self@, other@, sel_views(lsel@), sel_views(rsel@), how, outcome_view(r)),
            r matches Ok(df) ==> df.wf(),
    {
        let lh = self.height();
        let rh = other.height();
        let ghost lv = sel_views(lsel@);
        let ghost rv = sel_views(rsel@);
        let ghost lk = key_seq(lv, lh as int);
        let ghost rk = key_seq(rv, rh as int);
        let single = lsel.len() == 1;
        proof {
            if single {
                assert(lv =~= seq![lsel[0]@]);
                assert(rv =~= seq![rsel[0]@]);
            }
            lemma_drop_named_wf(other@, col_names(rv));
        }
        match how {
            JoinType::Inner => {
                let join_tuples = if single {
                    lsel[0].hash_join_inner(rsel[0], n_threads)
                } else {
                    let lkeys = encode_keys(lsel, lh);
                    let rkeys = encode_keys(rsel, rh);
                    inner_pairs_for(&lkeys, &rkeys, None)
                };
                assert(join_tuples@ == inner_join_pairs(lk, rk));
                let (lrows, rrows) = split_inner(&join_tuples);
                proof {
                    lemma_inner_rows_below(lk, rk);
                }
                let left_rows = &lrows;
                let right_rows = &rrows;
                let gather_left = || -> (df: DataFrame)
                    ensures
                        df@ == gather_cols(self@, left_rows@),
                        df.wf(),
                    { self.create_left_df(left_rows) };
                let gather_right = || -> (df: DataFrame)
                    ensures
                        df@ == gather_cols(drop_named(other@, col_names(sel_views(rsel@))), right_rows@),
                        df.wf(),
                    {
                        // remove join columns
                        remove_selected(other, rsel).take_opt(right_rows)
                    };
                let (df_left, df_right) = par_join(gather_left, gather_right);
                let r = self.finish_join(df_left, df_right);
                proof {
                    assert(join_rows(how, lk, rk, lrows@, rrows@));
                    assert(assemble(self@, other@, lv, rv, how, lrows@, rrows@) == outcome_view(r));
                }
                r
            },
            JoinType::Left => {
                let join_tuples = if single {
                    lsel[0].hash_join_left(rsel[0], n_threads)
                } else {
                    let lkeys = encode_keys(lsel, lh);
                    let rkeys = encode_keys(rsel, rh);
                    left_pairs_for(&lkeys, &rkeys, None)
                };
                assert(join_tuples@ == left_join_pairs(lk, rk));
                let (lrows, rrows) = split_left(&join_tuples);
                proof {
                    lemma_left_rows_below(lk, rk);
                }
                let left_rows = &lrows;
                let right_rows = &rrows;
                let gather_left = || -> (df: DataFrame)
                    ensures
                        df@ == gather_cols(self@, left_rows@),
                        df.wf(),
                    { self.create_left_df(left_rows) };
                let gather_right = || -> (df: DataFrame)
                    ensures
                        df@ == gather_cols(drop_named(other@, col_names(sel_views(rsel@))), right_rows@),
                        df.wf(),
                    {
                        // remove join columns
                        remove_selected(other, rsel).take_opt(right_rows)
                    };
                let (df_left, df_right) = par_join(gather_left, gather_right);
                let r = self.finish_join(df_left, df_right);
                proof {
                    assert(join_rows(how, lk, rk, lrows@, rrows@));
                    assert(assemble(self@, other@, lv, rv, how, lrows@, rrows@) == outcome_view(r));
                }
                r
            },
            JoinType::Outer => {
                let opt_join_tuples = if single {
                    lsel[0].hash_join_outer(rsel[0])
                } else {
                    let lkeys = encode_keys(lsel, lh);
                    let rkeys = encode_keys(rsel, rh);
                    outer_pairs_for(&lkeys, &rkeys)
                };
                assert(is_outer_join_pairs(lk, rk, opt_join_tuples@));
                let (lrows, rrows) = split_outer(&opt_join_tuples);
                proof {
                    lemma_outer_rows_below(lk, rk, opt_join_tuples@);
                }
                // Take the left and right dataframes by join tuples
                let left_rows = &lrows;
                let right_rows = &rrows;
                let tuples = &opt_join_tuples;
                let gather_left = || -> (df: DataFrame)
                    ensures
                        df@ == outer_left_part(self@, sel_views(lsel@), sel_views(rsel@), left_rows@, tuples@),
                        df.wf(),
                    { self.outer_left_df(lsel, rsel, tuples, left_rows) };
                let gather_right = || -> (df: DataFrame)
                    ensures
                        df@ == gather_cols(drop_named(other@, col_names(sel_views(rsel@))), right_rows@),
                        df.wf(),
                    { remove_selected(other, rsel).take_opt(right_rows) };
                let (df_left, df_right) = par_join(gather_left, gather_right);
                let r = self.finish_join(df_left, df_right);
                proof {
                    assert(join_rows(how, lk, rk, lrows@, rrows@));
                    assert(assemble(self@, other@, lv, rv, how, lrows@, rrows@) == outcome_view(r));
                }
                r
            },
        }
    }

    /// Inner join on one key column of each table, both picked and of one
    /// type.
    pub fn inner_join_from_series(&self, other: &DataFrame, s_left: &Series, s_right: &Series, n_threads: usize) -> (r:
        Result<DataFrame, PolarsError>)
        requires
            self.wf(),
            other.wf(),
            frame_height(self@) <= u32::MAX,
            frame_height(other@) <= u32::MAX,
            n_threads >= 1,
            s_left.wf() && s_left@.cells.len() == frame_height(self@),
            s_right.wf() && s_right@.cells.len() == frame_height(other@),
            s_right@.dtype == s_left@.dtype,
        ensures
            is_join(self@, other@, seq![s_left@], seq![s_right@], JoinType::Inner, outcome_view(r)),
            r matches Ok(df) ==> df.wf(),
    {
        let mut lsel: Vec<&Series> = Vec::new();
        lsel.push(s_left);
        let mut rsel: Vec<&Series> = Vec::new();
        rsel.push(s_right);
        assert(sel_views(lsel@) =~= seq![s_left@]);
        assert(sel_views(rsel@) =~= seq![s_right@]);
        self.join_on(other, &lsel, &rsel, JoinType::Inner, n_threads)
    }

    /// Left join on one key column of each table, both picked and of one
    /// type.
    pub fn left_join_from_series(&self, other: &DataFrame, s_left: &Series, s_right: &Series, n_threads: usize) -> (r:
        Result<DataFrame, PolarsError>)
        requires
            self.wf(),
            other.wf(),
            frame_height(self@) <= u32::MAX,
            frame_height(other@) <= u32::MAX,
            n_threads >= 1,
            s_left.wf() && s_left@.cells.len() == frame_height(self@),
            s_right.wf() && s_right@.cells.len() == frame_height(other@),
            s_right@.dtype == s_left@.dtype,
        ensures
            is_join(self@, other@, seq![s_left@], seq![s_right@], JoinType::Left, outcome_view(r)),
            r matches Ok(df) ==> df.wf(),
    {
        let mut lsel: Vec<&Series> = Vec::new();
        lsel.push(s_left);
        let mut rsel: Vec<&Series> = Vec::new();
        rsel.push(s_right);
        assert(sel_views(lsel@) =~= seq![s_left@]);
        assert(sel_views(rsel@) =~= seq![s_right@]);
        self.join_on(other, &lsel, &rsel, JoinType::Left, n_threads)
    }

    /// Outer join on one key column of each table, both picked and of one
    /// type.
    pub fn outer_join_from_series(&self, other: &DataFrame, s_left: &Series, s_right: &Series) -> (r: Result<
        DataFrame,
        PolarsError,
    >)
        requires
            self.wf(),
            other.wf(),
            frame_height(self@) <= u32::MAX,
            frame_height(other@) <= u32::MAX,
            s_left.wf() && s_left@.cells.len() == frame_height(self@),
            s_right.wf() && s_right@.cells.len() == frame_height(other@),
            s_right@.dtype == s_left@.dtype,
            typed_as(self@, s_left@),
        ensures
            is_join(self@, other@, seq![s_left@], seq![s_right@], JoinType::Outer, outcome_view(r)),
            r matches Ok(df) ==> df.wf(),
    {
        let mut lsel: Vec<&Series> = Vec::new();
        lsel.push(s_left);
        let mut rsel: Vec<&Series> = Vec::new();
        rsel.push(s_right);
        assert(sel_views(lsel@) =~= seq![s_left@]);
        assert(sel_views(rsel@) =~= seq![s_right@]);
        self.join_on(other, &lsel, &rsel, JoinType::Outer, 1)
    }

    /// Joins the two tables on the given key columns, of which there may
    /// be several. The keys of a row are equal to those of another where
    /// they are equal cell by cell, a null cell being equal to a null cell.
    pub fn join(
        &self,
        other: &DataFrame,
        left_on: &Vec<&str>,
        right_on: &Vec<&str>,
        how: JoinType,
        max_threads: Option<usize>,
    ) -> (r: Result<DataFrame, PolarsError>)
        requires
            self.wf(),
            other.wf(),
            frame_height(self@) <= u32::MAX,
            frame_height(other@) <= u32::MAX,
            max_threads != Some(0usize),
        ensures
            join_outcome(self@, other@, name_views(left_on@), name_views(right_on@), how, outcome_view(r)),
            r matches Ok(df) ==> df.wf(),
    {
        let selected_left = match self.select_series(left_on) {
            Ok(sel) => sel,
            Err(e) => {
                return Err(e);
            },
        };
        let selected_right = match other.select_series(right_on) {
            Ok(sel) => sel,
            Err(e) => {
                return Err(e);
            },
        };
        assert(sel_views(selected_left@).len() == name_views(left_on@).len());
        assert(sel_views(selected_right@).len() == name_views(right_on@).len());
        if selected_left.len() != selected_right.len() {
            return Err(PolarsError::Arity(selected_left.len(), selected_right.len()));
        }
        if selected_left.len() == 0 {
            return Err(PolarsError::Arity(1, 0));
        }
        match check_keys(&selected_left, &selected_right) {
            Ok(_) => {},
            Err(e) => {
                return Err(e);
            },
        }
        proof {
            lemma_select_wf(self@, name_views(left_on@));
            lemma_select_wf(other@, name_views(right_on@));
            lemma_keys_typed(sel_views(selected_left@), sel_views(selected_right@));
            assert forall|k: int| 0 <= k < selected_left.len() implies (#[trigger] selected_left[k]).wf()
                && selected_left[k]@.cells.len() == frame_height(self@) by {
                assert(selected_left[k]@ == select(self@, name_views(left_on@))[k]);
            }
            assert forall|k: int| 0 <= k < selected_right.len() implies (#[trigger] selected_right[k]).wf()
                && selected_right[k]@.cells.len() == frame_height(other@) by {
                assert(selected_right[k]@ == select(other@, name_views(right_on@))[k]);
            }
            assert forall|k: int| 0 <= k < selected_left.len() implies typed_as(self@, (#[trigger] selected_left[k])@) by {
                lemma_select_typed(self@, name_views(left_on@), k);
                assert(selected_left[k]@ == select(self@, name_views(left_on@))[k]);
            }
            assert forall|k: int| 0 <= k < selected_left.len() implies (#[trigger] selected_right[k])@.dtype
                == selected_left[k]@.dtype by {
                assert(sel_views(selected_right@)[k].dtype == sel_views(selected_left@)[k].dtype);
            }
        }
        let n_threads = n_join_threads(max_threads);
        self.join_on(other, &selected_left, &selected_right, how, n_threads)
    }

    /// Inner join on one key column of each table: a row for every pair of
    /// a left and a right row with equal keys.
    pub fn inner_join(&self, other: &DataFrame, left_on: &str, right_on: &str, max_threads: Option<usize>) -> (r:
        Result<DataFrame, PolarsError>)
        requires
            self.wf(),
            other.wf(),
            frame_height(self@) <= u32::MAX,
            frame_height(other@) <= u32::MAX,
            max_threads != Some(0usize),
        ensures
            join_outcome(self@, other@, seq![left_on@], seq![right_on@], JoinType::Inner, outcome_view(r)),
            r matches Ok(df) ==> df.wf(),
    {
        let mut left: Vec<&str> = Vec::new();
        left.push(left_on);
        let mut right: Vec<&str> = Vec::new();
        right.push(right_on);
        assert(name_views(left@) =~= seq![left_on@]);
        assert(name_views(right@) =~= seq![right_on@]);
        self.join(other, &left, &right, JoinType::Inner, max_threads)
    }

    /// Left join on one key column of each table: every left row, with
    /// each right row of an equal key, or alone where there is none.
    pub fn left_join(&self, other: &DataFrame, left_on: &str, right_on: &str, max_threads: Option<usize>) -> (r:
        Result<DataFrame, PolarsError>)
        requires
            self.wf(),
            other.wf(),
            frame_height(self@) <= u32::MAX,
            frame_height(other@) <= u32::MAX,
            max_threads != Some(0usize),
        ensures
            join_outcome(self@, other@, seq![left_on@], seq![right_on@], JoinType::Left, outcome_view(r)),
            r matches Ok(df) ==> df.wf(),
    {
        let mut left: Vec<&str> = Vec::new();
        left.push(left_on);
        let mut right: Vec<&str> = Vec::new();
        right.push(right_on);
        assert(name_views(left@) =~= seq![left_on@]);
        assert(name_views(right@) =~= seq![right_on@]);
        self.join(other, &left, &right, JoinType::Left, max_threads)
    }

    /// Outer join on one key column of each table: every row of either
    /// table, paired where the keys are equal.
    pub fn outer_join(&self, other: &DataFrame, left_on: &str, right_on: &str, max_threads: Option<usize>) -> (r:
        Result<DataFrame, PolarsError>)
        requires
            self.wf(),
            other.wf(),
            frame_height(self@) <= u32::MAX,
            frame_height(other@) <= u32::MAX,
            max_threads != Some(0usize),
        ensures
            join_outcome(self@, other@, seq![left_on@], seq![right_on@], JoinType::Outer, outcome_view(r)),
            r matches Ok(df) ==> df.wf(),
    {
        let mut left: Vec<&str> = Vec::new();
        left.push(left_on);
        let mut right: Vec<&str> = Vec::new();
        right.push(right_on);
        assert(name_views(left@) =~= seq![left_on@]);
        assert(name_views(right@) =~= seq![right_on@]);
        self.join(other, &left, &right, JoinType::Outer, max_threads)
    }
}

} // verus!
