//! A named, typed column of cells.

use vstd::prelude::*;
use crate::datatypes::{AnyValue, Cell, DataType, ErrorView, Field, PolarsError, owned};

verus! {

/// A column: its name, its logical type and its cells.
#[derive(Debug)]
pub struct Series {
    name: String,
    dtype: DataType,
    values: Vec<AnyValue>,
}

/// The mathematical value of a column.
pub ghost struct SeriesView {
    pub name: Seq<char>,
    pub dtype: DataType,
    pub cells: Seq<Cell>,
}

impl View for Series {
    type V = SeriesView;

    closed spec fn view(&self) -> SeriesView {
        SeriesView {
            name: self.name@,
            dtype: self.dtype,
            cells: Seq::new(self.values@.len(), |i: int| self.values@[i]@),
        }
    }
}

impl SeriesView {
    /// Every cell is null or of the column's type.
    pub open spec fn wf(self) -> bool {
        forall|i: int| 0 <= i < self.cells.len() ==> (#[trigger] self.cells[i]).fits(self.dtype)
    }

    /// The column under another name.
    pub open spec fn named(self, name: Seq<char>) -> SeriesView {
        SeriesView { name, ..self }
    }

    /// The column with other cells.
    pub open spec fn with_cells(self, cells: Seq<Cell>) -> SeriesView {
        SeriesView { cells, ..self }
    }

    /// The column's name and type.
    pub open spec fn field(self) -> (Seq<char>, DataType) {
        (self.name, self.dtype)
    }
}

/// The cell at row `i`, or a null for an absent row.
pub open spec fn gather_cell(cells: Seq<Cell>, row: Option<u32>) -> Cell {
    match row {
        Some(i) => cells[i as int],
        None => Cell::Null,
    }
}

/// The cells at the given rows, a null standing for each absent row.
pub open spec fn gather(cells: Seq<Cell>, rows: Seq<Option<u32>>) -> Seq<Cell> {
    Seq::new(rows.len(), |t: int| gather_cell(cells, rows[t]))
}

/// Every row that is present lies below `len`.
pub open spec fn rows_below(rows: Seq<Option<u32>>, len: int) -> bool {
    forall|t: int| 0 <= t < rows.len() ==> ((#[trigger] rows[t]) matches Some(i) ==> i < len)
}

/// The first cell that may not stand in a column of type `dtype`, or the
/// number of cells where all may.
pub open spec fn first_misfit(cells: Seq<Cell>, dtype: DataType) -> int
    decreases cells.len(),
{
    if cells.len() == 0 {
        0
    } else if !cells[0].fits(dtype) {
        0
    } else {
        1 + first_misfit(cells.drop_first(), dtype)
    }
}

/// `first_misfit` finds the first cell that does not fit.
pub proof fn lemma_first_misfit(cells: Seq<Cell>, dtype: DataType)
    ensures
        0 <= first_misfit(cells, dtype) <= cells.len(),
        first_misfit(cells, dtype) < cells.len() ==> !cells[first_misfit(cells, dtype)].fits(dtype),
        forall|i: int| 0 <= i < first_misfit(cells, dtype) ==> (#[trigger] cells[i]).fits(dtype),
    decreases cells.len(),
{
    if cells.len() > 0 && cells[0].fits(dtype) {
        let rest = cells.drop_first();
        lemma_first_misfit(rest, dtype);
        let p = first_misfit(rest, dtype);
        assert forall|i: int| 0 <= i < 1 + p implies (#[trigger] cells[i]).fits(dtype) by {
            if i > 0 {
                assert(rest[i - 1] == cells[i]);
            }
        }
        if p < rest.len() {
            assert(rest[p] == cells[p + 1]);
        }
    }
}

/// How many of the cells are null.
pub open spec fn count_nulls(cells: Seq<Cell>) -> nat
    decreases cells.len(),
{
    if cells.len() == 0 {
        0
    } else {
        count_nulls(cells.drop_last()) + if cells.last() is Null {
            1nat
        } else {
            0nat
        }
    }
}

/// The cells of a vector of values.
pub open spec fn cells_of(values: Seq<AnyValue>) -> Seq<Cell> {
    Seq::new(values.len(), |i: int| values[i]@)
}

impl Series {
    /// Every cell is null or of the column's type.
    pub open spec fn wf(&self) -> bool {
        self@.wf()
    }

    /// A column of the given name and type. A cell of another type is
    /// refused, with the type that was asked for and the type of the first
    /// cell that has another.
    pub fn new(name: &str, dtype: DataType, values: Vec<AnyValue>) -> (r: Result<Series, PolarsError>)
        ensures
            r is Ok <==> first_misfit(cells_of(values@), dtype) == values@.len(),
            r matches Ok(s) ==> s.wf() && s@ == (SeriesView { name: name@, dtype, cells: cells_of(values@) }),
            r matches Err(e) ==> e@ == ErrorView::TypeMismatch(
                dtype,
                cells_of(values@)[first_misfit(cells_of(values@), dtype)].dtype(),
            ),
    {
        let ghost cells = cells_of(values@);
        proof {
            lemma_first_misfit(cells, dtype);
        }
        let mut i: usize = 0;
        while i < values.len()
            invariant
                i <= values.len(),
                cells == cells_of(values@),
                forall|j: int| 0 <= j < i ==> (#[trigger] cells[j]).fits(dtype),
            decreases values.len() - i,
        {
            assert(cells[i as int] == values@[i as int]@);
            if !values[i].fits(dtype) {
                let actual = values[i].dtype();
                proof {
                    lemma_first_misfit(cells, dtype);
                    let at = first_misfit(cells, dtype);
                    if at < i {
                        assert(cells[at].fits(dtype));
                    }
                    if at > i {
                        assert(cells[i as int].fits(dtype));
                    }
                }
                return Err(PolarsError::TypeMismatch(dtype, actual));
            }
            i += 1;
        }
        proof {
            lemma_first_misfit(cells, dtype);
            let at = first_misfit(cells, dtype);
            if at < cells.len() {
                assert(cells[at].fits(dtype));
            }
        }
        let s = Series { name: owned(name), dtype, values };
        assert(s@.cells =~= cells);
        Ok(s)
    }

    /// A column of cells that are known to fit its type.
    pub(crate) fn assemble(name: &str, dtype: DataType, values: Vec<AnyValue>) -> (r: Series)
        ensures
            r@ == (SeriesView { name: name@, dtype, cells: cells_of(values@) }),
    {
        let r = Series { name: owned(name), dtype, values };
        assert(r@.cells =~= cells_of(values@));
        r
    }

    pub fn name(&self) -> (r: &str)
        ensures
            r@ == self@.name,
    {
        self.name.as_str()
    }

    /// Gives the column another name.
    pub fn rename(&mut self, name: &str)
        ensures
            final(self)@ == old(self)@.named(name@),
    {
        self.name = owned(name);
    }

    pub fn dtype(&self) -> (r: DataType)
        ensures
            r == self@.dtype,
    {
        self.dtype
    }

    /// The column's name and type.
    pub fn field(&self) -> (r: Field)
        ensures
            r@ == self@.field(),
    {
        Field { name: self.name.clone(), data_type: self.dtype }
    }

    /// The number of rows.
    pub fn len(&self) -> (r: usize)
        ensures
            r == self@.cells.len(),
    {
        self.values.len()
    }

    /// The cell at row `i`.
    pub fn get(&self, i: usize) -> (r: &AnyValue)
        requires
            i < self@.cells.len(),
        ensures
            r@ == self@.cells[i as int],
    {
        &self.values[i]
    }

    /// How many cells are null.
    pub fn null_count(&self) -> (r: usize)
        ensures
            r == count_nulls(self@.cells),
    {
        let ghost cells = self@.cells;
        let mut n: usize = 0;
        let mut i: usize = 0;
        assert(cells.take(0) =~= Seq::empty());
        while i < self.values.len()
            invariant
                i <= self.values.len(),
                cells == self@.cells,
                n <= i,
                n == count_nulls(cells.take(i as int)),
            decreases self.values.len() - i,
        {
            assert(cells.take(i + 1).drop_last() =~= cells.take(i as int));
            if self.values[i].is_null() {
                n += 1;
            }
            i += 1;
        }
        assert(cells.take(self.values.len() as int) =~= cells);
        n
    }

    /// A copy of the column.
    pub fn duplicate(&self) -> (r: Series)
        ensures
            r@ == self@,
    {
        let mut values: Vec<AnyValue> = Vec::new();
        let mut i: usize = 0;
        while i < self.values.len()
            invariant
                i <= self.values.len(),
                values@.len() == i,
                forall|j: int| 0 <= j < i ==> values@[j]@ == self.values@[j]@,
            decreases self.values.len() - i,
        {
            values.push(self.values[i].duplicate());
            i += 1;
        }
        let r = Series { name: self.name.clone(), dtype: self.dtype, values };
        assert(r@.cells =~= self@.cells);
        r
    }

    /// Gathers the cells at the given rows into a new column of the same
    /// name and type; an absent row gives a null cell.
    pub fn take_opt(&self, rows: &Vec<Option<u32>>) -> (r: Series)
        requires
            rows_below(rows@, self@.cells.len() as int),
        ensures
            r@ == self@.with_cells(gather(self@.cells, rows@)),
            self.wf() ==> r.wf(),
    {
        let mut values: Vec<AnyValue> = Vec::new();
        let mut t: usize = 0;
        while t < rows.len()
            invariant
                t <= rows.len(),
                values@.len() == t,
                rows_below(rows@, self@.cells.len() as int),
                forall|j: int| 0 <= j < t ==> values@[j]@ == gather_cell(self@.cells, rows@[j]),
            decreases rows.len() - t,
        {
            match rows[t] {
                Some(i) => {
                    assert(rows@[t as int] == Some(i));
                    values.push(self.values[i as usize].duplicate());
                },
                None => {
                    values.push(AnyValue::Null);
                },
            }
            t += 1;
        }
        let r = Series { name: self.name.clone(), dtype: self.dtype, values };
        assert(r@.cells =~= gather(self@.cells, rows@));
        r
    }

    /// Whether the two columns hold the same cells, row by row, and no null
    /// cell. Names do not count.
    pub fn series_equal(&self, other: &Series) -> (r: bool)
        ensures
            r == (self@.cells == other@.cells && count_nulls(self@.cells) == 0),
    {
        if self.null_count() > 0 || other.null_count() > 0 {
            false
        } else {
            self.series_equal_missing(other)
        }
    }

    /// Whether the two columns hold the same cells, row by row. Names do
    /// not count; a null cell equals a null cell.
    pub fn series_equal_missing(&self, other: &Series) -> (r: bool)
        ensures
            r == (self@.cells == other@.cells),
    {
        if self.values.len() != other.values.len() {
            assert(self@.cells.len() != other@.cells.len());
            return false;
        }
        let mut i: usize = 0;
        while i < self.values.len()
            invariant
                i <= self.values.len(),
                self.values.len() == other.values.len(),
                forall|j: int| 0 <= j < i ==> self@.cells[j] == other@.cells[j],
            decreases self.values.len() - i,
        {
            if !self.values[i].same(&other.values[i]) {
                assert(self@.cells[i as int] != other@.cells[i as int]);
                return false;
            }
            i += 1;
        }
        assert(self@.cells =~= other@.cells);
        true
    }
}

} // verus!
