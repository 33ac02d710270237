//! A table: an ordered list of named columns of one length.

use vstd::prelude::*;
use crate::datatypes::{
    DataType, ErrorView, Field, PolarsError, Schema, first_index, lemma_first_index, owned, same_name,
};
use crate::series::{Series, SeriesView, count_nulls, gather, rows_below};

verus! {

/// The names of a list of columns.
pub open spec fn col_names(cols: Seq<SeriesView>) -> Seq<Seq<char>> {
    Seq::new(cols.len(), |c: int| cols[c].name)
}

/// The names and types of a list of columns.
pub open spec fn schema_of(cols: Seq<SeriesView>) -> Seq<(Seq<char>, DataType)> {
    Seq::new(cols.len(), |c: int| cols[c].field())
}

/// The number of rows of a list of columns: that of the first column, and
/// none where there is no column.
pub open spec fn frame_height(cols: Seq<SeriesView>) -> int {
    if cols.len() == 0 {
        0
    } else {
        cols[0].cells.len() as int
    }
}

/// Every column is well-formed and all have as many rows.
pub open spec fn frame_wf(cols: Seq<SeriesView>) -> bool {
    forall|c: int| 0 <= c < cols.len() ==> (#[trigger] cols[c]).wf() && cols[c].cells.len() == frame_height(cols)
}

/// Every column gathered at the given rows.
pub open spec fn gather_cols(cols: Seq<SeriesView>, rows: Seq<Option<u32>>) -> Seq<SeriesView> {
    Seq::new(cols.len(), |c: int| cols[c].with_cells(gather(cols[c].cells, rows)))
}

/// The smallest `i` from `from` up to `n` for which `pred` holds, or `n`.
pub open spec fn first_from(pred: spec_fn(int) -> bool, from: int, n: int) -> int
    decreases n - from,
{
    if from >= n {
        n
    } else if pred(from) {
        from
    } else {
        first_from(pred, from + 1, n)
    }
}

/// `first_from` finds the first index that meets `pred`.
pub proof fn lemma_first_from(pred: spec_fn(int) -> bool, from: int, n: int)
    requires
        from <= n,
    ensures
        from <= first_from(pred, from, n) <= n,
        first_from(pred, from, n) < n ==> pred(first_from(pred, from, n)),
        forall|i: int| from <= i < first_from(pred, from, n) ==> !#[trigger] pred(i),
    decreases n - from,
{
    if from < n && !pred(from) {
        lemma_first_from(pred, from + 1, n);
    }
}

/// An index that meets `pred` and has none before it that does is the
/// first.
pub proof fn lemma_first_from_is(pred: spec_fn(int) -> bool, from: int, n: int, at: int)
    requires
        from <= at <= n,
        at < n ==> pred(at),
        forall|i: int| from <= i < at ==> !#[trigger] pred(i),
    ensures
        first_from(pred, from, n) == at,
{
    lemma_first_from(pred, from, n);
    let f = first_from(pred, from, n);
    if f < at {
        assert(!pred(f));
    }
}

/// A column may be added to a table: it has as many rows as the table, or
/// the table has no column yet, and its name is not taken.
pub open spec fn can_push(cols: Seq<SeriesView>, col: SeriesView) -> bool {
    (cols.len() == 0 || col.cells.len() == frame_height(cols)) && !col_names(cols).contains(col.name)
}

/// Column `i` of `more` may not be added once those before it are.
pub open spec fn stack_clash(cols: Seq<SeriesView>, more: Seq<SeriesView>) -> spec_fn(int) -> bool {
    |i: int| !can_push(cols + more.take(i), more[i])
}

/// The first of `more` that may not be added to `cols` behind those before
/// it, or the number of `more` where all may.
pub open spec fn stack_fault(cols: Seq<SeriesView>, more: Seq<SeriesView>) -> int {
    first_from(stack_clash(cols, more), 0, more.len() as int)
}

/// What adding `more` to `cols` gives: all columns, or the name of the
/// first column that may not be added.
pub open spec fn stacked(cols: Seq<SeriesView>, more: Seq<SeriesView>) -> Result<Seq<SeriesView>, ErrorView> {
    if stack_fault(cols, more) == more.len() {
        Ok(cols + more)
    } else {
        Err(ErrorView::Invariant(more[stack_fault(cols, more)].name))
    }
}

/// The first column whose number of rows is not that of the first column,
/// or the number of columns.
pub open spec fn height_fault(cols: Seq<SeriesView>) -> int {
    first_from(|c: int| cols[c].cells.len() != frame_height(cols), 0, cols.len() as int)
}

/// The views of a vector of columns.
pub open spec fn views_of(columns: Seq<Series>) -> Seq<SeriesView> {
    Seq::new(columns.len(), |c: int| columns[c]@)
}

/// A table.
#[derive(Debug)]
pub struct DataFrame {
    columns: Vec<Series>,
}

impl View for DataFrame {
    type V = Seq<SeriesView>;

    closed spec fn view(&self) -> Seq<SeriesView> {
        views_of(self.columns@)
    }
}

impl DataFrame {
    /// Every column is well-formed and all have as many rows.
    pub open spec fn wf(&self) -> bool {
        frame_wf(self@)
    }

    /// A table of the given columns. Columns of different lengths are
    /// refused, with the name of the first that is not as long as the first
    /// column.
    pub fn new(columns: Vec<Series>) -> (r: Result<DataFrame, PolarsError>)
        requires
            forall|c: int| 0 <= c < columns.len() ==> (#[trigger] columns[c]).wf(),
        ensures
            match r {
                Ok(df) => df@ == views_of(columns@) && df.wf() && height_fault(views_of(columns@)) == columns.len(),
                Err(e) => height_fault(views_of(columns@)) < columns.len() && e@ == ErrorView::Invariant(
                    views_of(columns@)[height_fault(views_of(columns@))].name,
                ),
            },
    {
        let ghost cols = views_of(columns@);
        let ghost odd = |c: int| cols[c].cells.len() != frame_height(cols);
        let mut c: usize = 0;
        while c < columns.len()
            invariant
                c <= columns.len(),
                cols == views_of(columns@),
                odd == (|c: int| cols[c].cells.len() != frame_height(cols)),
                forall|i: int| 0 <= i < c ==> !#[trigger] odd(i),
            decreases columns.len() - c,
        {
            if columns[c].len() != columns[0].len() {
                proof {
                    assert(odd(c as int));
                    lemma_first_from_is(odd, 0, cols.len() as int, c as int);
                }
                return Err(PolarsError::Invariant(owned(columns[c].name())));
            }
            c += 1;
        }
        proof {
            lemma_first_from_is(odd, 0, cols.len() as int, cols.len() as int);
            assert forall|i: int| 0 <= i < cols.len() implies (#[trigger] cols[i]).wf() && cols[i].cells.len()
                == frame_height(cols) by {
                assert(!odd(i));
                assert(columns[i].wf());
            }
        }
        Ok(DataFrame { columns })
    }

    /// The number of columns.
    pub fn width(&self) -> (r: usize)
        ensures
            r == self@.len(),
    {
        self.columns.len()
    }

    /// The number of rows.
    pub fn height(&self) -> (r: usize)
        ensures
            r == frame_height(self@),
    {
        if self.columns.len() == 0 {
            0
        } else {
            self.columns[0].len()
        }
    }

    /// The columns, in order.
    pub fn get_columns(&self) -> (r: &Vec<Series>)
        ensures
            views_of(r@) == self@,
    {
        &self.columns
    }

    /// The names and types of the columns, in order.
    pub fn schema(&self) -> (r: Schema)
        ensures
            r@ == schema_of(self@),
    {
        let mut fields: Vec<Field> = Vec::new();
        let mut c: usize = 0;
        while c < self.columns.len()
            invariant
                c <= self.columns.len(),
                fields@.len() == c,
                forall|i: int| 0 <= i < c ==> fields@[i]@ == self@[i].field(),
            decreases self.columns.len() - c,
        {
            fields.push(self.columns[c].field());
            c += 1;
        }
        let r = Schema::new(fields);
        assert(r@ =~= schema_of(self@));
        r
    }

    /// The position of the first column named `name`.
    pub fn find_idx_by_name(&self, name: &str) -> (r: Option<usize>)
        ensures
            match r {
                Some(i) => i < self@.len() && i == first_index(col_names(self@), name@),
                None => first_index(col_names(self@), name@) == self@.len(),
            },
    {
        let ghost names = col_names(self@);
        let mut c: usize = 0;
        while c < self.columns.len()
            invariant
                c <= self.columns.len(),
                names == col_names(self@),
                forall|i: int| 0 <= i < c ==> names[i] != name@,
            decreases self.columns.len() - c,
        {
            if same_name(self.columns[c].name(), name) {
                proof {
                    lemma_first_index(names, name@);
                    assert(names[c as int] == name@);
                    let at = first_index(names, name@);
                    if at > c {
                        assert(names[c as int] != name@);
                    }
                }
                return Some(c);
            }
            c += 1;
        }
        proof {
            lemma_first_index(names, name@);
        }
        None
    }

    /// The first column named `name`.
    pub fn column(&self, name: &str) -> (r: Result<&Series, PolarsError>)
        ensures
            match r {
                Ok(s) => col_names(self@).contains(name@) && s@ == self@[first_index(col_names(self@), name@)],
                Err(e) => !col_names(self@).contains(name@) && e@ == ErrorView::NotFound(name@),
            },
    {
        proof {
            lemma_first_index(col_names(self@), name@);
        }
        match self.find_idx_by_name(name) {
            Some(i) => Ok(&self.columns[i]),
            None => Err(PolarsError::NotFound(owned(name))),
        }
    }

    /// A copy of the table.
    pub fn duplicate(&self) -> (r: DataFrame)
        ensures
            r@ == self@,
    {
        let mut columns: Vec<Series> = Vec::new();
        let mut c: usize = 0;
        while c < self.columns.len()
            invariant
                c <= self.columns.len(),
                columns@.len() == c,
                forall|i: int| 0 <= i < c ==> columns@[i]@ == self@[i],
            decreases self.columns.len() - c,
        {
            columns.push(self.columns[c].duplicate());
            c += 1;
        }
        let r = DataFrame { columns };
        assert(r@ =~= self@);
        r
    }

    /// The table without its first column named `name`.
    pub fn drop(&self, name: &str) -> (r: Result<DataFrame, PolarsError>)
        ensures
            match r {
                Ok(df) => col_names(self@).contains(name@) && df@ == self@.remove(first_index(col_names(self@), name@))
                    && (self.wf() ==> df.wf() && (df@.len() > 0 ==> frame_height(df@) == frame_height(self@))),
                Err(e) => !col_names(self@).contains(name@) && e@ == ErrorView::NotFound(name@),
            },
    {
        proof {
            lemma_first_index(col_names(self@), name@);
        }
        match self.find_idx_by_name(name) {
            Some(at) => {
                let mut columns: Vec<Series> = Vec::new();
                let mut c: usize = 0;
                while c < self.columns.len()
                    invariant
                        c <= self.columns.len(),
                        at < self.columns.len(),
                        columns@.len() == if c <= at { c as int } else { c - 1 },
                        forall|i: int| 0 <= i < columns@.len() ==> columns@[i]@ == self@.remove(at as int)[i],
                    decreases self.columns.len() - c,
                {
                    if c != at {
                        columns.push(self.columns[c].duplicate());
                    }
                    c += 1;
                }
                let df = DataFrame { columns };
                assert(df@ =~= self@.remove(at as int));
                proof {
                    if self.wf() {
                        assert forall|i: int| 0 <= i < df@.len() implies (#[trigger] df@[i]).wf() && df@[i].cells.len()
                            == frame_height(df@) by {
                            let j = if i < at { i } else { i + 1 };
                            assert(df@[i] == self@[j]);
                            assert(self@[j].wf());
                            assert(self@[0].wf());
                            if df@.len() > 0 {
                                let j0: int = if 0 < at { 0 } else { 1 };
                                assert(df@[0] == self@[j0]);
                                assert(self@[j0].wf());
                            }
                        }
                    }
                }
                Ok(df)
            },
            None => Err(PolarsError::NotFound(owned(name))),
        }
    }

    /// Adds a column at the end. A column of another length, unless the
    /// table has no column yet, or of a name that is taken, is refused with
    /// its name, and the table stays as it was.
    pub fn push_column(&mut self, col: Series) -> (r: Result<(), PolarsError>)
        ensures
            match r {
                Ok(_) => can_push(old(self)@, col@) && final(self)@ == old(self)@.push(col@),
                Err(e) => !can_push(old(self)@, col@) && final(self)@ == old(self)@ && e@ == ErrorView::Invariant(
                    col@.name,
                ),
            },
            old(self).wf() && col.wf() && r is Ok ==> final(self).wf(),
    {
        let ghost names = col_names(self@);
        proof {
            lemma_first_index(names, col@.name);
        }
        if self.columns.len() > 0 && col.len() != self.height() {
            return Err(PolarsError::Invariant(owned(col.name())));
        }
        if self.find_idx_by_name(col.name()).is_some() {
            return Err(PolarsError::Invariant(owned(col.name())));
        }
        self.columns.push(col);
        assert(self@ =~= old(self)@.push(col@));
        proof {
            if old(self).wf() && col.wf() {
                assert forall|i: int| 0 <= i < self@.len() implies (#[trigger] self@[i]).wf() && self@[i].cells.len()
                    == frame_height(self@) by {
                    if i < old(self)@.len() {
                        assert(self@[i] == old(self)@[i]);
                        assert(old(self)@[i].wf());
                        assert(old(self)@[0].wf());
                    }
                }
            }
        }
        Ok(())
    }

    /// Adds the columns at the end, in order. The first column that may not
    /// be added behind those before it is refused with its name.
    pub fn hstack(self, columns: Vec<Series>) -> (r: Result<DataFrame, PolarsError>)
        ensures
            match r {
                Ok(df) => stacked(self@, views_of(columns@)) == Ok::<Seq<SeriesView>, ErrorView>(df@) && ((self.wf()
                    && forall|c: int| 0 <= c < columns.len() ==> (#[trigger] columns[c]).wf()) ==> df.wf()),
                Err(e) => stacked(self@, views_of(columns@)) == Err::<Seq<SeriesView>, ErrorView>(e@),
            },
    {
        let ghost more = views_of(columns@);
        let ghost clash = stack_clash(self@, more);
        let ghost all_wf = self.wf() && forall|c: int| 0 <= c < columns.len() ==> (#[trigger] columns[c]).wf();
        let mut df = self;
        let mut rest = columns;
        let n = rest.len();
        let mut c: usize = 0;
        assert(self@ + more.take(0) =~= self@);
        while c < n
            invariant
                c <= n,
                n == more.len(),
                more == views_of(columns@),
                rest@.len() == n - c,
                forall|i: int| 0 <= i < rest@.len() ==> (#[trigger] rest@[i])@ == more[c + i],
                all_wf ==> forall|i: int| 0 <= i < rest@.len() ==> (#[trigger] rest@[i]).wf(),
                clash == stack_clash(self@, more),
                df@ == self@ + more.take(c as int),
                all_wf ==> df.wf(),
                forall|i: int| 0 <= i < c ==> !#[trigger] clash(i),
            decreases n - c,
        {
            let col = rest.remove(0);
            assert(col@ == more[c as int]);
            assert(self@ + more.take(c + 1) =~= (self@ + more.take(c as int)).push(more[c as int]));
            match df.push_column(col) {
                Ok(_) => {},
                Err(e) => {
                    proof {
                        assert(clash(c as int));
                        lemma_first_from_is(clash, 0, n as int, c as int);
                        assert(stack_fault(self@, more) == c);
                        assert(e@ == ErrorView::Invariant(more[c as int].name));
                    }
                    return Err(e);
                },
            }
            c += 1;
        }
        proof {
            lemma_first_from_is(clash, 0, n as int, n as int);
            assert(more.take(n as int) =~= more);
        }
        Ok(df)
    }

    /// Hands out the columns, in order.
    pub fn into_columns(self) -> (r: Vec<Series>)
        ensures
            views_of(r@) == self@,
            self.wf() ==> forall|c: int| 0 <= c < r.len() ==> (#[trigger] r[c]).wf(),
    {
        proof {
            if self.wf() {
                assert forall|c: int| 0 <= c < self.columns.len() implies (#[trigger] self.columns[c]).wf() by {
                    assert(self@[c].wf());
                }
            }
        }
        self.columns
    }

    /// Gathers the given rows of every column into a new table; an absent
    /// row gives a row of null cells.
    pub fn take_opt(&self, rows: &Vec<Option<u32>>) -> (r: DataFrame)
        requires
            self.wf(),
            self@.len() > 0 ==> rows_below(rows@, frame_height(self@)),
        ensures
            r@ == gather_cols(self@, rows@),
            r.wf(),
    {
        let mut columns: Vec<Series> = Vec::new();
        let mut c: usize = 0;
        while c < self.columns.len()
            invariant
                c <= self.columns.len(),
                self.wf(),
                self@.len() > 0 ==> rows_below(rows@, frame_height(self@)),
                columns@.len() == c,
                forall|i: int| 0 <= i < c ==> (#[trigger] columns@[i])@ == gather_cols(self@, rows@)[i] && columns@[i].wf(),
            decreases self.columns.len() - c,
        {
            assert(self@[c as int].wf());
            assert(self.columns[c as int]@ == self@[c as int]);
            columns.push(self.columns[c].take_opt(rows));
            c += 1;
        }
        let r = DataFrame { columns };
        assert(r@ =~= gather_cols(self@, rows@));
        assert forall|i: int| 0 <= i < r@.len() implies (#[trigger] r@[i]).wf() && r@[i].cells.len() == frame_height(
            r@,
        ) by {
            assert(columns@[i].wf());
            assert(columns@[0].wf());
        }
        r
    }

    /// Whether the two tables have the same shape and hold the same cells,
    /// column by column and row by row, and no null cell. Names do not
    /// count.
    pub fn frame_equal(&self, other: &DataFrame) -> (r: bool)
        ensures
            r == (self@.len() == other@.len() && forall|c: int|
                0 <= c < self@.len() ==> (#[trigger] self@[c]).cells == other@[c].cells && count_nulls(self@[c].cells)
                    == 0),
    {
        if self.columns.len() != other.columns.len() {
            return false;
        }
        let mut c: usize = 0;
        while c < self.columns.len()
            invariant
                c <= self.columns.len(),
                self.columns.len() == other.columns.len(),
                forall|i: int|
                    0 <= i < c ==> (#[trigger] self@[i]).cells == other@[i].cells && count_nulls(self@[i].cells) == 0,
            decreases self.columns.len() - c,
        {
            if !self.columns[c].series_equal(&other.columns[c]) {
                assert(!(self@[c as int].cells == other@[c as int].cells && count_nulls(self@[c as int].cells) == 0));
                return false;
            }
            c += 1;
        }
        true
    }

    /// Whether the two tables have the same shape and hold the same cells,
    /// column by column and row by row. Names do not count; a null cell
    /// equals a null cell.
    pub fn frame_equal_missing(&self, other: &DataFrame) -> (r: bool)
        ensures
            r == (self@.len() == other@.len() && forall|c: int|
                0 <= c < self@.len() ==> (#[trigger] self@[c]).cells == other@[c].cells),
    {
        if self.columns.len() != other.columns.len() {
            return false;
        }
        let mut c: usize = 0;
        while c < self.columns.len()
            invariant
                c <= self.columns.len(),
                self.columns.len() == other.columns.len(),
                forall|i: int| 0 <= i < c ==> (#[trigger] self@[i]).cells == other@[i].cells,
            decreases self.columns.len() - c,
        {
            if !self.columns[c].series_equal_missing(&other.columns[c]) {
                assert(self@[c as int].cells != other@[c as int].cells);
                return false;
            }
            c += 1;
        }
        true
    }
}

} // verus!
