//! The logical plan: an algebraic tree of relational operations, and the
//! builder that grows it. Every node that changes the columns knows its
//! output schema from the moment it is built.

use vstd::prelude::*;
use std::sync::Arc;
use crate::datatypes::{
    DataType, ErrorView, Field, PolarsError, Schema, field_names, has_name, lemma_first_index,
    merge_fields, owned, position_of, same_name, schema_view,
};
use crate::expr::{
    Context, Expr, ExprView, Operator, UnaryOp, col, lemma_replace_wildcard_leaves_none,
    replace_wildcard_with_column,
};
use crate::frame::{DataFrame, first_from, lemma_first_from, lemma_first_from_is, schema_of};
use crate::hash_join::{JoinType, right_suffix};
use crate::join_spec::concat_range;

verus! {

/// A function from table to table that a user hands to a plan. It has to
/// be safe to call from several threads.
pub trait DataFrameUdf: Send + Sync {
    fn call_udf(&self, df: DataFrame) -> Result<DataFrame, PolarsError>;
}

/// Which rewrites a plan may push through a node that calls a user's
/// function.
#[derive(Clone, Copy, Debug)]
pub struct AllowedOptimizations {
    pub predicate_pushdown: bool,
    pub projection_pushdown: bool,
}

/// A node of the plan, with the nodes it reads from. `U` is the type of
/// the functions that users put in expressions, `F` that of their
/// functions on tables.
#[allow(inconsistent_fields)]
pub enum LogicalPlan<U, F> {
    /// Filter on a boolean mask.
    Selection { input: Box<LogicalPlan<U, F>>, predicate: Expr<U> },
    Cache { input: Box<LogicalPlan<U, F>> },
    CsvScan {
        path: String,
        schema: Arc<Schema>,
        has_header: bool,
        delimiter: u8,
        ignore_errors: bool,
        skip_rows: usize,
        stop_after_n_rows: Option<usize>,
        with_columns: Option<Vec<String>>,
        /// Filters at the scan level.
        predicate: Option<Expr<U>>,
        /// Aggregations at the scan level.
        aggregate: Vec<Expr<U>>,
        cache: bool,
    },
    ParquetScan {
        path: String,
        schema: Arc<Schema>,
        with_columns: Option<Vec<String>>,
        predicate: Option<Expr<U>>,
        aggregate: Vec<Expr<U>>,
        stop_after_n_rows: Option<usize>,
        cache: bool,
    },
    /// A table in memory, shared with every plan that reads it.
    DataFrameScan {
        df: Arc<DataFrame>,
        schema: Arc<Schema>,
        projection: Option<Vec<Expr<U>>>,
        selection: Option<Expr<U>>,
    },
    /// A projection that does not have to be optimized.
    LocalProjection { expr: Vec<Expr<U>>, input: Box<LogicalPlan<U, F>>, schema: Arc<Schema> },
    /// Column selection.
    Projection { expr: Vec<Expr<U>>, input: Box<LogicalPlan<U, F>>, schema: Arc<Schema> },
    Aggregate {
        input: Box<LogicalPlan<U, F>>,
        keys: Arc<Vec<Expr<U>>>,
        aggs: Vec<Expr<U>>,
        schema: Arc<Schema>,
        apply: Option<Arc<F>>,
    },
    Join {
        input_left: Box<LogicalPlan<U, F>>,
        input_right: Box<LogicalPlan<U, F>>,
        schema: Arc<Schema>,
        how: JoinType,
        left_on: Vec<Expr<U>>,
        right_on: Vec<Expr<U>>,
        allow_par: bool,
        force_par: bool,
    },
    HStack { input: Box<LogicalPlan<U, F>>, exprs: Vec<Expr<U>>, schema: Arc<Schema> },
    Distinct { input: Box<LogicalPlan<U, F>>, maintain_order: bool, subset: Arc<Option<Vec<String>>> },
    Sort { input: Box<LogicalPlan<U, F>>, by_column: String, reverse: bool },
    Explode { input: Box<LogicalPlan<U, F>>, columns: Vec<String> },
    Slice { input: Box<LogicalPlan<U, F>>, offset: usize, len: usize },
    Melt {
        input: Box<LogicalPlan<U, F>>,
        id_vars: Arc<Vec<String>>,
        value_vars: Arc<Vec<String>>,
        schema: Arc<Schema>,
    },
    Udf {
        input: Box<LogicalPlan<U, F>>,
        function: Arc<F>,
        /// Allow predicate pushdown optimizations.
        predicate_pd: bool,
        /// Allow projection pushdown optimizations.
        projection_pd: bool,
        schema: Option<Arc<Schema>>,
    },
}

/// The views of a list of expressions.
pub open spec fn expr_views<U>(exprs: Seq<Expr<U>>) -> Seq<ExprView<U>> {
    Seq::new(exprs.len(), |i: int| exprs[i]@)
}

/// The texts of a list of names.
pub open spec fn string_views(names: Seq<String>) -> Seq<Seq<char>> {
    Seq::new(names.len(), |i: int| names[i]@)
}

/// Whether one of the names spells `name`.
pub fn contains_name(names: &Vec<String>, name: &str) -> (r: bool)
    ensures
        r == string_views(names@).contains(name@),
{
    let ghost views = string_views(names@);
    let mut i: usize = 0;
    while i < names.len()
        invariant
            i <= names.len(),
            views == string_views(names@),
            forall|j: int| 0 <= j < i ==> views[j] != name@,
        decreases names.len() - i,
    {
        if same_name(names[i].as_str(), name) {
            assert(views[i as int] == name@);
            return true;
        }
        i += 1;
    }
    false
}

impl<U, F> LogicalPlan<U, F> {
    /// The schema of the rows that the node gives: the one it holds, or
    /// that of its input where it does not change the columns.
    pub open spec fn schema_view(&self) -> Seq<(Seq<char>, DataType)>
        decreases self,
    {
        match self {
            LogicalPlan::Cache { input } => input.schema_view(),
            LogicalPlan::Sort { input, .. } => input.schema_view(),
            LogicalPlan::Explode { input, .. } => input.schema_view(),
            LogicalPlan::ParquetScan { schema, .. } => schema@,
            LogicalPlan::DataFrameScan { schema, .. } => schema@,
            LogicalPlan::Selection { input, .. } => input.schema_view(),
            LogicalPlan::CsvScan { schema, .. } => schema@,
            LogicalPlan::Projection { schema, .. } => schema@,
            LogicalPlan::LocalProjection { schema, .. } => schema@,
            LogicalPlan::Aggregate { schema, .. } => schema@,
            LogicalPlan::Join { schema, .. } => schema@,
            LogicalPlan::HStack { schema, .. } => schema@,
            LogicalPlan::Distinct { input, .. } => input.schema_view(),
            LogicalPlan::Slice { input, .. } => input.schema_view(),
            LogicalPlan::Melt { schema, .. } => schema@,
            LogicalPlan::Udf { input, schema, .. } => match schema {
                Some(schema) => schema@,
                None => input.schema_view(),
            },
        }
    }

    /// The schema of the rows that the node gives.
    pub fn schema(&self) -> (r: &Schema)
        ensures
            r@ == self.schema_view(),
        decreases self,
    {
        match self {
            LogicalPlan::Cache { input } => input.schema(),
            LogicalPlan::Sort { input, .. } => input.schema(),
            LogicalPlan::Explode { input, .. } => input.schema(),
            LogicalPlan::ParquetScan { schema, .. } => &**schema,
            LogicalPlan::DataFrameScan { schema, .. } => &**schema,
            LogicalPlan::Selection { input, .. } => input.schema(),
            LogicalPlan::CsvScan { schema, .. } => &**schema,
            LogicalPlan::Projection { schema, .. } => &**schema,
            LogicalPlan::LocalProjection { schema, .. } => &**schema,
            LogicalPlan::Aggregate { schema, .. } => &**schema,
            LogicalPlan::Join { schema, .. } => &**schema,
            LogicalPlan::HStack { schema, .. } => &**schema,
            LogicalPlan::Distinct { input, .. } => input.schema(),
            LogicalPlan::Slice { input, .. } => input.schema(),
            LogicalPlan::Melt { schema, .. } => &**schema,
            LogicalPlan::Udf { input, schema, .. } => match schema {
                Some(schema) => &**schema,
                None => input.schema(),
            },
        }
    }
}

impl<U, F> Default for LogicalPlan<U, F> {
    /// A scan of no file: one nameless column without a type.
    fn default() -> (r: Self)
        ensures
            r matches LogicalPlan::CsvScan {
                path,
                schema,
                has_header,
                delimiter,
                ignore_errors,
                skip_rows,
                stop_after_n_rows,
                with_columns,
                predicate,
                aggregate,
                cache,
            } && path@ == ""@ && schema@ == seq![(""@, DataType::Null)] && !has_header && delimiter == 44
                && !ignore_errors && skip_rows == 0 && stop_after_n_rows is None && with_columns is None
                && predicate is None && aggregate@.len() == 0 && cache,
    {
        let mut fields: Vec<Field> = Vec::new();
        fields.push(Field::new("", DataType::Null));
        let schema = Schema::new(fields);
        assert(schema@ =~= seq![(""@, DataType::Null)]);
        LogicalPlan::CsvScan {
            path: owned(""),
            schema: Arc::new(schema),
            has_header: false,
            delimiter: 44u8,
            ignore_errors: false,
            skip_rows: 0,
            stop_after_n_rows: None,
            with_columns: None,
            predicate: None,
            aggregate: Vec::new(),
            cache: true,
        }
    }
}

/// The expression `e` of a count over all columns, made a count of the
/// column `first` under the name `count`, or under its own alias where it
/// has one.
pub open spec fn count_star<U>(e: ExprView<U>, first: Seq<char>) -> ExprView<U> {
    let renamed = e.replace_wildcard(first);
    if renamed is Alias {
        renamed
    } else {
        ExprView::Alias(Box::new(renamed), "count"@)
    }
}

/// Whether the expression is an exclusion.
pub open spec fn is_except<U>(e: ExprView<U>) -> bool {
    e matches ExprView::Unary(op, _) && op == UnaryOp::Except
}

/// What one expression of a projection becomes: nothing for an exclusion;
/// for an expression with a wildcard one expression for every column of
/// the schema, or one count of the first column where it counts; else
/// itself.
pub open spec fn expand<U>(e: ExprView<U>, schema: Seq<(Seq<char>, DataType)>) -> Seq<ExprView<U>> {
    if is_except(e) {
        Seq::empty()
    } else if e.has_wildcard() {
        if e.has_count() {
            seq![count_star(e, schema[0].0)]
        } else {
            Seq::new(schema.len(), |c: int| e.replace_wildcard(schema[c].0))
        }
    } else {
        seq![e]
    }
}

pub open spec fn expand_rows<U>(exprs: Seq<ExprView<U>>, schema: Seq<(Seq<char>, DataType)>) -> spec_fn(int) -> Seq<
    ExprView<U>,
> {
    |i: int| expand(exprs[i], schema)
}

/// The column that an exclusion names.
pub open spec fn excluded_by<U>(e: ExprView<U>) -> Seq<Seq<char>> {
    match e {
        ExprView::Unary(op, inner) => match *inner {
            ExprView::Column(name) => if op == UnaryOp::Except {
                seq![name]
            } else {
                Seq::empty()
            },
            _ => Seq::empty(),
        },
        _ => Seq::empty(),
    }
}

pub open spec fn excluded_rows<U>(exprs: Seq<ExprView<U>>) -> spec_fn(int) -> Seq<Seq<char>> {
    |i: int| excluded_by(exprs[i])
}

/// `s` without item `i`, the last item put in its place.
pub open spec fn swap_removed<T>(s: Seq<T>, i: int) -> Seq<T> {
    s.update(i, s.last()).drop_last()
}

/// Whether the expression is made of the one column `name`.
pub open spec fn rooted_in<U>(exprs: Seq<ExprView<U>>, name: Seq<char>) -> spec_fn(int) -> bool {
    |i: int| exprs[i].root_name() == Some(name)
}

/// The expressions without the first one that is made of the column
/// `name`, for each of the names in turn; the last expression takes the
/// place of the one that goes.
pub open spec fn drop_excluded<U>(exprs: Seq<ExprView<U>>, names: Seq<Seq<char>>) -> Seq<ExprView<U>>
    decreases names.len(),
{
    if names.len() == 0 {
        exprs
    } else {
        let kept = drop_excluded(exprs, names.drop_last());
        let at = first_from(rooted_in(kept, names.last()), 0, kept.len() as int);
        if at < kept.len() {
            swap_removed(kept, at)
        } else {
            kept
        }
    }
}

/// The expressions of a projection with wildcards written out and
/// exclusions applied.
pub open spec fn rewritten<U>(exprs: Seq<ExprView<U>>, schema: Seq<(Seq<char>, DataType)>) -> Seq<ExprView<U>> {
    drop_excluded(
        concat_range(expand_rows(exprs, schema), 0, exprs.len() as int),
        concat_range(excluded_rows(exprs), 0, exprs.len() as int),
    )
}

/// Taking excluded expressions out leaves only expressions that were
/// there.
pub proof fn lemma_drop_excluded_from<U>(exprs: Seq<ExprView<U>>, names: Seq<Seq<char>>, i: int) -> (j: int)
    requires
        0 <= i < drop_excluded(exprs, names).len(),
    ensures
        0 <= j < exprs.len(),
        drop_excluded(exprs, names)[i] == exprs[j],
    decreases names.len(),
{
    if names.len() == 0 {
        i
    } else {
        let kept = drop_excluded(exprs, names.drop_last());
        let at = first_from(rooted_in(kept, names.last()), 0, kept.len() as int);
        lemma_first_from(rooted_in(kept, names.last()), 0, kept.len() as int);
        if at < kept.len() {
            if i == at {
                lemma_drop_excluded_from(exprs, names.drop_last(), kept.len() - 1)
            } else {
                lemma_drop_excluded_from(exprs, names.drop_last(), i)
            }
        } else {
            lemma_drop_excluded_from(exprs, names.drop_last(), i)
        }
    }
}

/// After the rewrite no expression of a projection holds a wildcard.
pub proof fn lemma_rewritten_has_no_wildcard<U>(exprs: Seq<ExprView<U>>, schema: Seq<(Seq<char>, DataType)>, i: int)
    requires
        0 <= i < rewritten(exprs, schema).len(),
    ensures
        !rewritten(exprs, schema)[i].has_wildcard(),
{
    let rows = expand_rows(exprs, schema);
    let all = concat_range(rows, 0, exprs.len() as int);
    let j = lemma_drop_excluded_from(all, concat_range(excluded_rows(exprs), 0, exprs.len() as int), i);
    let (k, u) = crate::join_laws::lemma_concat_range_at(rows, 0, exprs.len() as int, j);
    let e = exprs[k];
    assert(all[j] == expand(e, schema)[u]);
    if e.has_wildcard() {
        if e.has_count() {
            lemma_replace_wildcard_leaves_none(e, schema[0].0);
        } else {
            lemma_replace_wildcard_leaves_none(e, schema[u].0);
        }
    }
}

/// The predicate of a filter over a table that has a column holds no
/// wildcard.
pub proof fn lemma_filter_has_no_wildcard<U>(predicate: ExprView<U>, schema: Seq<(Seq<char>, DataType)>)
    requires
        schema.len() > 0,
    ensures
        !filter_predicate(predicate, schema).has_wildcard(),
{
    if predicate.has_wildcard() {
        let preds = Seq::new(schema.len(), |c: int| predicate.replace_wildcard(schema[c].0));
        lemma_and_all_has_no_wildcard(predicate, schema, schema.len() as int);
    }
}

proof fn lemma_and_all_has_no_wildcard<U>(predicate: ExprView<U>, schema: Seq<(Seq<char>, DataType)>, n: int)
    requires
        1 <= n <= schema.len(),
    ensures
        !and_all(Seq::new(schema.len(), |c: int| predicate.replace_wildcard(schema[c].0)), n).has_wildcard(),
    decreases n,
{
    let preds = Seq::new(schema.len(), |c: int| predicate.replace_wildcard(schema[c].0));
    if n <= 1 {
        lemma_replace_wildcard_leaves_none(predicate, schema[0].0);
        assert(preds[0] == predicate.replace_wildcard(schema[0].0));
    } else {
        lemma_and_all_has_no_wildcard(predicate, schema, n - 1);
        lemma_replace_wildcard_leaves_none(predicate, schema[n - 1].0);
        assert(preds[n - 1] == predicate.replace_wildcard(schema[n - 1].0));
    }
}

/// The expressions can be rewritten: every exclusion names a column, and
/// the schema has a column wherever all columns are counted.
pub open spec fn rewritable<U>(exprs: Seq<ExprView<U>>, schema: Seq<(Seq<char>, DataType)>) -> bool {
    forall|i: int|
        0 <= i < exprs.len() ==> {
            &&& is_except(#[trigger] exprs[i]) ==> excluded_by(exprs[i]).len() == 1
            &&& !is_except(exprs[i]) && exprs[i].has_wildcard() && exprs[i].has_count() ==> schema.len() > 0
        }
}

/// Whether the expressions can be rewritten for a table of the given
/// schema.
pub fn is_rewritable<U>(exprs: &Vec<Expr<U>>, schema: &Schema) -> (r: bool)
    ensures
        r == rewritable(expr_views(exprs@), schema@),
{
    let ghost views = expr_views(exprs@);
    let mut i: usize = 0;
    while i < exprs.len()
        invariant
            i <= exprs.len(),
            views == expr_views(exprs@),
            forall|j: int|
                0 <= j < i ==> {
                    &&& is_except(#[trigger] views[j]) ==> excluded_by(views[j]).len() == 1
                    &&& !is_except(views[j]) && views[j].has_wildcard() && views[j].has_count() ==> schema@.len() > 0
                },
        decreases exprs.len() - i,
    {
        let expr = &exprs[i];
        assert(views[i as int] == expr@);
        let is_exclusion = match expr {
            Expr::Unary(op, _) => *op == UnaryOp::Except,
            _ => false,
        };
        let fine = if is_exclusion {
            match expr {
                Expr::Unary(_, column) => match &**column {
                    Expr::Column(name) => {
                        assert(column@ == ExprView::<U>::Column(name@));
                        true
                    },
                    _ => {
                        assert(!(column@ is Column));
                        false
                    },
                },
                _ => false,
            }
        } else {
            !(expr.has_wildcard() && expr.has_count()) || schema.len() > 0
        };
        assert(is_exclusion == is_except(expr@));
        assert(fine == ((is_except(expr@) ==> excluded_by(expr@).len() == 1) && (!is_except(expr@)
            && expr@.has_wildcard() && expr@.has_count() ==> schema@.len() > 0)));
        if !fine {
            return false;
        }
        i += 1;
    }
    true
}

/// In case of a single wildcard, nothing is selected, which is the same as
/// selecting all. In other cases a wildcard is replaced by an expression
/// for every column; excluded columns are taken out afterwards.
pub fn rewrite_projections<U>(exprs: Vec<Expr<U>>, schema: &Schema) -> (r: Vec<Expr<U>>)
    requires
        rewritable(expr_views(exprs@), schema@),
    ensures
        expr_views(r@) == rewritten(expr_views(exprs@), schema@),
{
    let ghost views = expr_views(exprs@);
    let ghost rows = expand_rows(views, schema@);
    let ghost outs = excluded_rows(views);
    let mut result: Vec<Expr<U>> = Vec::new();
    let mut exclude: Vec<String> = Vec::new();
    let mut i: usize = 0;
    assert(expr_views(result@) =~= concat_range(rows, 0, 0));
    assert(string_views(exclude@) =~= concat_range(outs, 0, 0));
    while i < exprs.len()
        invariant
            i <= exprs.len(),
            views == expr_views(exprs@),
            rows == expand_rows(views, schema@),
            outs == excluded_rows(views),
            rewritable(views, schema@),
            expr_views(result@) == concat_range(rows, 0, i as int),
            string_views(exclude@) == concat_range(outs, 0, i as int),
        decreases exprs.len() - i,
    {
        let expr = &exprs[i];
        let ghost done = expr_views(result@);
        let ghost named = string_views(exclude@);
        assert(views[i as int] == expr@);
        // Columns that are excepted are later removed from the projection.
        // This can be ergonomical in combination with a wildcard expression.
        let is_exclusion = match expr {
            Expr::Unary(op, _) => *op == UnaryOp::Except,
            _ => false,
        };
        if is_exclusion {
            assert(is_except(views[i as int]));
            assert(excluded_by(expr@).len() == 1);
            match expr {
                Expr::Unary(_, column) => match &**column {
                    Expr::Column(name) => {
                        exclude.push(name.clone());
                        assert(column@ == ExprView::<U>::Column(name@));
                        assert(excluded_by(expr@) =~= seq![name@]);
                        assert(string_views(exclude@) =~= named.push(name@));
                    },
                    _ => {},
                },
                _ => {},
            }
            assert(string_views(exclude@) =~= named + outs(i as int));
            assert(done + rows(i as int) =~= done);
        } else {
            assert(named + outs(i as int) =~= named);
            if expr.has_wildcard() {
                // if count wildcard. count one column
                if expr.has_count() {
                    assert(is_except(views[i as int]) || schema@.len() > 0);
                    assert(schema@[0] == schema.fields[0]@);
                    let renamed = replace_wildcard_with_column(expr.duplicate(), schema.fields[0].name.as_str());
                    let counted = match renamed {
                        Expr::Alias(e, name) => Expr::Alias(e, name),
                        other => Expr::Alias(Box::new(other), owned("count")),
                    };
                    result.push(counted);
                    assert(expr_views(result@) =~= done + rows(i as int));
                } else {
                    let mut c: usize = 0;
                    while c < schema.fields.len()
                        invariant
                            c <= schema.fields.len(),
                            expr@.has_wildcard() && !expr@.has_count() && !is_except(expr@),
                            expr_views(result@) == done + expand(expr@, schema@).take(c as int),
                        decreases schema.fields.len() - c,
                    {
                        let new_expr = replace_wildcard_with_column(expr.duplicate(), schema.fields[c].name.as_str());
                        assert(schema@[c as int] == schema.fields[c as int]@);
                        let ghost prev = expr_views(result@);
                        let ghost added = new_expr@;
                        result.push(new_expr);
                        assert(expr_views(result@) =~= prev.push(added));
                        assert(expand(expr@, schema@)[c as int] == added);
                        assert(expand(expr@, schema@).take(c + 1) =~= expand(expr@, schema@).take(c as int).push(added));
                        assert(expr_views(result@) =~= done + expand(expr@, schema@).take(c + 1));
                        c += 1;
                    }
                    assert(expand(expr@, schema@).take(schema.fields.len() as int) =~= expand(expr@, schema@));
                }
            } else {
                result.push(expr.duplicate());
                assert(expr_views(result@) =~= done + rows(i as int));
            }
        }
        i += 1;
    }
    let ghost names = string_views(exclude@);
    let mut n: usize = 0;
    assert(names.take(0) =~= Seq::empty());
    while n < exclude.len()
        invariant
            n <= exclude.len(),
            names == string_views(exclude@),
            expr_views(result@) == drop_excluded(concat_range(rows, 0, exprs.len() as int), names.take(n as int)),
        decreases exclude.len() - n,
    {
        let name = &exclude[n];
        let ghost kept = expr_views(result@);
        let ghost hit = rooted_in(kept, name@);
        assert(names.take(n + 1).drop_last() =~= names.take(n as int));
        assert(names.take(n + 1).last() == name@);
        let mut idx: Option<usize> = None;
        let mut j: usize = 0;
        while j < result.len() && idx.is_none()
            invariant
                j <= result.len(),
                kept == expr_views(result@),
                hit == rooted_in(kept, name@),
                match idx {
                    Some(at) => at < result.len() && hit(at as int) && forall|k: int| 0 <= k < at ==> !#[trigger] hit(k),
                    None => forall|k: int| 0 <= k < j ==> !#[trigger] hit(k),
                },
            decreases result.len() - j + if idx.is_none() { 1int } else { 0int },
        {
            let found = match result[j].expr_to_root_column_name() {
                Some(column_name) => column_name == *name,
                None => false,
            };
            assert(found == hit(j as int));
            if found {
                idx = Some(j);
            } else {
                j += 1;
            }
        }
        match idx {
            Some(at) => {
                proof {
                    lemma_first_from_is(hit, 0, kept.len() as int, at as int);
                }
                result.swap_remove(at);
                assert(expr_views(result@) =~= swap_removed(kept, at as int));
            },
            None => {
                proof {
                    lemma_first_from_is(hit, 0, kept.len() as int, kept.len() as int);
                }
            },
        }
        n += 1;
    }
    assert(names.take(exclude.len() as int) =~= names);
    result
}

/// The expressions all have a field under the schema.
pub open spec fn typable<U>(exprs: Seq<ExprView<U>>, schema: Seq<(Seq<char>, DataType)>, ctxt: Context) -> bool {
    forall|i: int| 0 <= i < exprs.len() ==> (#[trigger] exprs[i]).field(schema, ctxt) is Ok
}

/// The fields of the expressions under the schema.
pub open spec fn fields_of<U>(exprs: Seq<ExprView<U>>, schema: Seq<(Seq<char>, DataType)>, ctxt: Context) -> Seq<
    (Seq<char>, DataType),
> {
    Seq::new(exprs.len(), |i: int| exprs[i].field(schema, ctxt)->Ok_0)
}

/// The first expression that has no field under the schema, or the number
/// of expressions.
pub open spec fn field_fault<U>(exprs: Seq<ExprView<U>>, schema: Seq<(Seq<char>, DataType)>, ctxt: Context) -> int {
    first_from(|i: int| exprs[i].field(schema, ctxt) is Err, 0, exprs.len() as int)
}

/// The schema that the expressions give for a table of the given schema,
/// or why the first expression without a field has none.
pub fn expressions_to_schema<U>(exprs: &Vec<Expr<U>>, schema: &Schema, ctxt: Context) -> (r: Result<
    Schema,
    PolarsError,
>)
    ensures
        match r {
            Ok(s) => typable(expr_views(exprs@), schema@, ctxt) && s@ == fields_of(expr_views(exprs@), schema@, ctxt),
            Err(e) => field_fault(expr_views(exprs@), schema@, ctxt) < exprs.len() && Err::<
                (Seq<char>, DataType),
                ErrorView,
            >(e@) == expr_views(exprs@)[field_fault(expr_views(exprs@), schema@, ctxt)].field(schema@, ctxt),
        },
{
    let ghost views = expr_views(exprs@);
    let ghost bad = |i: int| views[i].field(schema@, ctxt) is Err;
    let mut fields: Vec<Field> = Vec::new();
    let mut i: usize = 0;
    while i < exprs.len()
        invariant
            i <= exprs.len(),
            views == expr_views(exprs@),
            bad == (|i: int| views[i].field(schema@, ctxt) is Err),
            forall|j: int| 0 <= j < i ==> !#[trigger] bad(j),
            fields@.len() == i,
            forall|j: int| 0 <= j < i ==> (#[trigger] fields@[j])@ == views[j].field(schema@, ctxt)->Ok_0,
        decreases exprs.len() - i,
    {
        assert(views[i as int] == exprs[i as int]@);
        match exprs[i].to_field(schema, ctxt) {
            Ok(f) => {
                assert(!bad(i as int));
                fields.push(f);
            },
            Err(e) => {
                proof {
                    assert(bad(i as int));
                    lemma_first_from_is(bad, 0, views.len() as int, i as int);
                }
                return Err(e);
            },
        }
        i += 1;
    }
    let s = Schema::new(fields);
    assert(s@ =~= fields_of(views, schema@, ctxt));
    assert forall|j: int| 0 <= j < views.len() implies (#[trigger] views[j]).field(schema@, ctxt) is Ok by {
        assert(!bad(j));
    }
    Ok(s)
}

/// The expressions of a projection can be prepared for a table of the
/// given schema: they can be rewritten, and what they become has fields.
pub open spec fn projectable<U>(exprs: Seq<ExprView<U>>, schema: Seq<(Seq<char>, DataType)>, ctxt: Context) -> bool {
    rewritable(exprs, schema) && typable(rewritten(exprs, schema), schema, ctxt)
}

/// Whether the expressions of a projection can be prepared for a table of
/// the given schema, and if not, why: an invariant of the expressions
/// where they cannot be rewritten, else what the first expression without
/// a field lacks.
pub fn check_projection<U>(exprs: &Vec<Expr<U>>, schema: &Schema, ctxt: Context) -> (r: Result<(), PolarsError>)
    ensures
        r is Ok <==> projectable(expr_views(exprs@), schema@, ctxt),
        r matches Err(e) ==> if rewritable(expr_views(exprs@), schema@) {
            let rew = rewritten(expr_views(exprs@), schema@);
            Err::<(Seq<char>, DataType), ErrorView>(e@) == rew[field_fault(rew, schema@, ctxt)].field(schema@, ctxt)
        } else {
            e@ == ErrorView::Invariant("projection"@)
        },
{
    if !is_rewritable(exprs, schema) {
        return Err(PolarsError::Invariant(owned("projection")));
    }
    let mut copies: Vec<Expr<U>> = Vec::new();
    let mut i: usize = 0;
    while i < exprs.len()
        invariant
            i <= exprs.len(),
            copies@.len() == i,
            forall|j: int| 0 <= j < i ==> (#[trigger] copies@[j])@ == exprs@[j]@,
        decreases exprs.len() - i,
    {
        copies.push(exprs[i].duplicate());
        i += 1;
    }
    assert(expr_views(copies@) =~= expr_views(exprs@));
    let rewritten = rewrite_projections(copies, schema);
    match expressions_to_schema(&rewritten, schema, ctxt) {
        Ok(_) => Ok(()),
        Err(e) => {
            proof {
                let bad = |i: int| expr_views(rewritten@)[i].field(schema@, ctxt) is Err;
                lemma_first_from(bad, 0, rewritten@.len() as int);
                assert(bad(field_fault(expr_views(rewritten@), schema@, ctxt)));
            }
            Err(e)
        },
    }
}

/// Rewrites the expressions of a projection and derives their schema.
pub fn prepare_projection<U>(exprs: Vec<Expr<U>>, schema: &Schema) -> (r: (Vec<Expr<U>>, Schema))
    requires
        projectable(expr_views(exprs@), schema@, Context::Other),
    ensures
        expr_views(r.0@) == rewritten(expr_views(exprs@), schema@),
        r.1@ == fields_of(rewritten(expr_views(exprs@), schema@), schema@, Context::Other),
{
    let exprs = rewrite_projections(exprs, schema);
    match expressions_to_schema(&exprs, schema, Context::Other) {
        Ok(schema) => (exprs, schema),
        Err(_) => {
            proof {
                let bad = |i: int| expr_views(exprs@)[i].field(schema@, Context::Other) is Err;
                lemma_first_from(bad, 0, exprs.len() as int);
                assert(bad(field_fault(expr_views(exprs@), schema@, Context::Other)));
            }
            unreached()
        },
    }
}

/// The fields of the input without those of the melted columns.
pub open spec fn unmelted(input: Seq<(Seq<char>, DataType)>, value_vars: Seq<Seq<char>>) -> spec_fn(int) -> Seq<
    (Seq<char>, DataType),
> {
    |i: int|
        if value_vars.contains(input[i].0) {
            Seq::empty()
        } else {
            seq![input[i]]
        }
}

/// The schema of a melt: the fields that are not melted, then the name of
/// the melted column as text, then its value in the type of the first
/// melted column.
pub open spec fn melt_schema(input: Seq<(Seq<char>, DataType)>, value_vars: Seq<Seq<char>>) -> Seq<
    (Seq<char>, DataType),
> {
    concat_range(unmelted(input, value_vars), 0, input.len() as int) + seq![
        ("variable"@, DataType::Utf8),
        ("value"@, input[position_of(input, value_vars[0])].1),
    ]
}

/// The schema of a melt of the columns `value_vars`.
pub fn det_melt_schema(value_vars: &Vec<String>, input_schema: &Schema) -> (r: Arc<Schema>)
    requires
        value_vars.len() > 0,
        has_name(input_schema@, value_vars[0]@),
    ensures
        r@ == melt_schema(input_schema@, string_views(value_vars@)),
{
    let ghost input = input_schema@;
    let ghost vars = string_views(value_vars@);
    let ghost rows = unmelted(input, vars);
    let mut fields: Vec<Field> = Vec::new();
    let mut i: usize = 0;
    let ghost mut kept: Seq<(Seq<char>, DataType)> = Seq::empty();
    while i < input_schema.fields.len()
        invariant
            i <= input_schema.fields.len(),
            input == input_schema@,
            vars == string_views(value_vars@),
            rows == unmelted(input, vars),
            kept == concat_range(rows, 0, i as int),
            fields@.len() == kept.len(),
            forall|j: int| 0 <= j < fields@.len() ==> (#[trigger] fields@[j])@ == kept[j],
        decreases input_schema.fields.len() - i,
    {
        let field = &input_schema.fields[i];
        assert(input[i as int] == field@);
        if !contains_name(value_vars, field.name.as_str()) {
            fields.push(field.duplicate());
        }
        proof {
            kept = kept + rows(i as int);
        }
        i += 1;
    }
    assert(vars[0] == value_vars[0]@);
    let value_dtype = match input_schema.field_with_name(value_vars[0].as_str()) {
        Ok(field) => field.data_type,
        Err(_) => unreached(),
    };
    fields.push(Field::new("variable", DataType::Utf8));
    fields.push(Field::new("value", value_dtype));
    let schema = Schema::new(fields);
    assert(schema@ =~= melt_schema(input, vars));
    Arc::new(schema)
}

/// What a right field brings to the schema of a join: nothing where it is
/// a key, itself, or itself with the suffix where a left field has its
/// name.
pub open spec fn joined_right(
    left: Seq<(Seq<char>, DataType)>,
    right: Seq<(Seq<char>, DataType)>,
    right_keys: Seq<Seq<char>>,
) -> spec_fn(int) -> Seq<(Seq<char>, DataType)> {
    |i: int|
        if right_keys.contains(right[i].0) {
            Seq::empty()
        } else if has_name(left, right[i].0) {
            seq![(right[i].0 + right_suffix(), right[i].1)]
        } else {
            seq![right[i]]
        }
}

/// The schema of a join: the left schema, then every right field whose
/// name is not a right key, with the suffix `_right` where a left field
/// has its name.
pub open spec fn join_schema(
    left: Seq<(Seq<char>, DataType)>,
    right: Seq<(Seq<char>, DataType)>,
    right_keys: Seq<Seq<char>>,
) -> Seq<(Seq<char>, DataType)> {
    left + concat_range(joined_right(left, right, right_keys), 0, right.len() as int)
}

/// The schema of a join of tables of the given schemas, the right keys
/// being named.
pub fn det_join_schema(schema_left: &Schema, schema_right: &Schema, right_names: &Vec<String>) -> (r: Schema)
    ensures
        r@ == join_schema(schema_left@, schema_right@, string_views(right_names@)),
{
    let ghost left = schema_left@;
    let ghost right = schema_right@;
    let ghost keys = string_views(right_names@);
    let ghost rows = joined_right(left, right, keys);
    // fields of new schema
    let mut fields: Vec<Field> = Vec::new();
    let mut i: usize = 0;
    while i < schema_left.fields.len()
        invariant
            i <= schema_left.fields.len(),
            left == schema_left@,
            fields@.len() == i,
            forall|j: int| 0 <= j < i ==> (#[trigger] fields@[j])@ == left[j],
        decreases schema_left.fields.len() - i,
    {
        fields.push(schema_left.fields[i].duplicate());
        i += 1;
    }
    let ghost mut added: Seq<(Seq<char>, DataType)> = Seq::empty();
    let mut i: usize = 0;
    while i < schema_right.fields.len()
        invariant
            i <= schema_right.fields.len(),
            left == schema_left@,
            right == schema_right@,
            keys == string_views(right_names@),
            rows == joined_right(left, right, keys),
            added == concat_range(rows, 0, i as int),
            fields@.len() == left.len() + added.len(),
            forall|j: int| 0 <= j < left.len() ==> (#[trigger] fields@[j])@ == left[j],
            forall|j: int| 0 <= j < added.len() ==> (#[trigger] fields@[left.len() + j])@ == added[j],
        decreases schema_right.fields.len() - i,
    {
        let f = &schema_right.fields[i];
        assert(right[i as int] == f@);
        if !contains_name(right_names, f.name.as_str()) {
            proof {
                lemma_first_index(field_names(left), f@.0);
            }
            match schema_left.index_of(f.name.as_str()) {
                Ok(_) => {
                    let mut new_name = f.name.clone();
                    new_name.append("_right");
                    fields.push(Field { name: new_name, data_type: f.data_type });
                },
                Err(_) => {
                    fields.push(f.duplicate());
                },
            }
        }
        proof {
            added = added + rows(i as int);
        }
        i += 1;
    }
    let schema = Schema::new(fields);
    assert forall|j: int| 0 <= j < schema@.len() implies schema@[j] == join_schema(left, right, keys)[j] by {
        if j >= left.len() {
            assert(fields@[left.len() + (j - left.len())]@ == added[j - left.len()]);
        } else {
            assert(fields@[j]@ == left[j]);
        }
    }
    assert(schema@ =~= join_schema(left, right, keys));
    schema
}

/// The schema with the given fields put in, one after the other: a field
/// whose name the schema has takes the place of that field, another goes
/// to the end.
pub open spec fn with_fields(schema: Seq<(Seq<char>, DataType)>, fields: Seq<(Seq<char>, DataType)>) -> Seq<
    (Seq<char>, DataType),
>
    decreases fields.len(),
{
    if fields.len() == 0 {
        schema
    } else {
        let before = with_fields(schema, fields.drop_last());
        let at = position_of(schema, fields.last().0);
        if at < schema.len() {
            before.update(at, fields.last())
        } else {
            before.push(fields.last())
        }
    }
}

/// Adding fields never makes a schema shorter.
pub proof fn lemma_with_fields_len(schema: Seq<(Seq<char>, DataType)>, fields: Seq<(Seq<char>, DataType)>)
    ensures
        with_fields(schema, fields).len() >= schema.len(),
    decreases fields.len(),
{
    if fields.len() > 0 {
        lemma_with_fields_len(schema, fields.drop_last());
        lemma_first_index(field_names(schema), fields.last().0);
    }
}

/// The first `n` of the predicates joined by `and`, from the left.
pub open spec fn and_all<U>(preds: Seq<ExprView<U>>, n: int) -> ExprView<U>
    decreases n,
{
    if n <= 1 {
        preds[0]
    } else {
        ExprView::BinaryExpr { left: Box::new(and_all(preds, n - 1)), op: Operator::And, right: Box::new(preds[n - 1]) }
    }
}

/// The predicate of a filter: where it holds a wildcard, the predicate is
/// written out for every column and all of them must hold.
pub open spec fn filter_predicate<U>(predicate: ExprView<U>, schema: Seq<(Seq<char>, DataType)>) -> ExprView<U> {
    if predicate.has_wildcard() {
        and_all(Seq::new(schema.len(), |c: int| predicate.replace_wildcard(schema[c].0)), schema.len() as int)
    } else {
        predicate
    }
}

/// The expression that fills the nulls of the column `name`.
pub open spec fn fill_expr<U>(name: Seq<char>, fill_value: ExprView<U>) -> ExprView<U> {
    ExprView::Alias(
        Box::new(
            ExprView::Ternary {
                predicate: Box::new(ExprView::Unary(UnaryOp::IsNull, Box::new(ExprView::Column(name)))),
                truthy: Box::new(fill_value),
                falsy: Box::new(ExprView::Column(name)),
            },
        ),
        name,
    )
}

/// The expressions that fill the nulls of every column.
pub open spec fn fill_exprs<U>(schema: Seq<(Seq<char>, DataType)>, fill_value: ExprView<U>) -> Seq<ExprView<U>> {
    Seq::new(schema.len(), |c: int| fill_expr(schema[c].0, fill_value))
}

/// The names under which the expressions come out.
pub open spec fn output_names<U>(exprs: Seq<ExprView<U>>) -> Seq<Seq<char>> {
    Seq::new(exprs.len(), |i: int| exprs[i].output_name()->0)
}

/// `out` is `plan` under a projection of the given expressions, local or
/// not; where the expressions come to nothing, `out` is `plan` itself.
pub open spec fn is_projection<U, F>(
    plan: LogicalPlan<U, F>,
    exprs: Seq<ExprView<U>>,
    local: bool,
    out: LogicalPlan<U, F>,
) -> bool {
    let rew = rewritten(exprs, plan.schema_view());
    if rew.len() == 0 {
        out == plan
    } else if local {
        out matches LogicalPlan::LocalProjection { expr, input, schema } && *input == plan && expr_views(expr@) == rew
            && schema@ == fields_of(rew, plan.schema_view(), Context::Other)
    } else {
        out matches LogicalPlan::Projection { expr, input, schema } && *input == plan && expr_views(expr@) == rew
            && schema@ == fields_of(rew, plan.schema_view(), Context::Other)
    }
}

/// Grows a plan, node by node. Every method hands back the builder of a
/// plan whose root is the new node and whose input is the plan so far.
pub struct LogicalPlanBuilder<U, F>(pub LogicalPlan<U, F>);

impl<U, F> From<LogicalPlan<U, F>> for LogicalPlanBuilder<U, F> {
    fn from(lp: LogicalPlan<U, F>) -> (r: Self) {
        LogicalPlanBuilder(lp)
    }
}

impl<U, F> vstd::std_specs::convert::FromSpecImpl<LogicalPlan<U, F>> for LogicalPlanBuilder<U, F> {
    open spec fn obeys_from_spec() -> bool {
        true
    }

    open spec fn from_spec(lp: LogicalPlan<U, F>) -> Self {
        LogicalPlanBuilder(lp)
    }
}

impl<U, F> LogicalPlanBuilder<U, F> {
    /// A scan of a Parquet file whose schema has been read.
    pub fn scan_parquet(path: String, schema: Arc<Schema>, stop_after_n_rows: Option<usize>, cache: bool) -> (r: Self)
        ensures
            r.0 matches LogicalPlan::ParquetScan {
                path: p,
                schema: s,
                with_columns,
                predicate,
                aggregate,
                stop_after_n_rows: n,
                cache: c,
            } && p == path && s == schema && with_columns is None && predicate is None && aggregate@.len() == 0 && n
                == stop_after_n_rows && c == cache,
    {
        LogicalPlanBuilder(
            LogicalPlan::ParquetScan {
                path,
                schema,
                stop_after_n_rows,
                with_columns: None,
                predicate: None,
                aggregate: Vec::new(),
                cache,
            },
        )
    }

    /// A scan of a CSV file whose schema is given or has been inferred.
    pub fn scan_csv(
        path: String,
        delimiter: u8,
        has_header: bool,
        ignore_errors: bool,
        skip_rows: usize,
        stop_after_n_rows: Option<usize>,
        cache: bool,
        schema: Arc<Schema>,
    ) -> (r: Self)
        ensures
            r.0 matches LogicalPlan::CsvScan {
                path: p,
                schema: s,
                has_header: h,
                delimiter: d,
                ignore_errors: ie,
                skip_rows: sr,
                stop_after_n_rows: n,
                with_columns,
                predicate,
                aggregate,
                cache: c,
            } && p == path && s == schema && h == has_header && d == delimiter && ie == ignore_errors && sr
                == skip_rows && n == stop_after_n_rows && with_columns is None && predicate is None
                && aggregate@.len() == 0 && c == cache,
    {
        LogicalPlanBuilder(
            LogicalPlan::CsvScan {
                path,
                schema,
                has_header,
                delimiter,
                ignore_errors,
                skip_rows,
                stop_after_n_rows,
                with_columns: None,
                predicate: None,
                aggregate: Vec::new(),
                cache,
            },
        )
    }

    pub fn cache(self) -> (r: Self)
        ensures
            r.0 == (LogicalPlan::Cache { input: Box::new(self.0) }),
    {
        LogicalPlanBuilder(LogicalPlan::Cache { input: Box::new(self.0) })
    }

    /// Selects columns by expressions.
    pub fn project(self, exprs: Vec<Expr<U>>) -> (r: Self)
        requires
            projectable(expr_views(exprs@), self.0.schema_view(), Context::Other),
        ensures
            is_projection(self.0, expr_views(exprs@), false, r.0),
    {
        let (exprs, schema) = prepare_projection(exprs, self.0.schema());
        // if len == 0, no projection has to be done. This is a select all operation.
        if exprs.len() > 0 {
            LogicalPlanBuilder(LogicalPlan::Projection { expr: exprs, input: Box::new(self.0), schema: Arc::new(schema) })
        } else {
            self
        }
    }

    /// Selects columns by expressions, in a projection that no rewrite of
    /// the plan moves.
    pub fn project_local(self, exprs: Vec<Expr<U>>) -> (r: Self)
        requires
            projectable(expr_views(exprs@), self.0.schema_view(), Context::Other),
        ensures
            is_projection(self.0, expr_views(exprs@), true, r.0),
    {
        let (exprs, schema) = prepare_projection(exprs, self.0.schema());
        if exprs.len() > 0 {
            LogicalPlanBuilder(
                LogicalPlan::LocalProjection { expr: exprs, input: Box::new(self.0), schema: Arc::new(schema) },
            )
        } else {
            self
        }
    }

    /// Puts `fill_value` in the place of every null, in every column.
    pub fn fill_none(self, fill_value: Expr<U>) -> (r: Self)
        requires
            projectable(fill_exprs(self.0.schema_view(), fill_value@), self.0.schema_view(), Context::Other),
        ensures
            is_projection(self.0, fill_exprs(self.0.schema_view(), fill_value@), true, r.0),
    {
        let schema = self.0.schema();
        let ghost want = fill_exprs(schema@, fill_value@);
        let mut exprs: Vec<Expr<U>> = Vec::new();
        let mut c: usize = 0;
        while c < schema.fields.len()
            invariant
                c <= schema.fields.len(),
                want == fill_exprs(schema@, fill_value@),
                exprs@.len() == c,
                forall|j: int| 0 <= j < c ==> (#[trigger] exprs@[j])@ == want[j],
            decreases schema.fields.len() - c,
        {
            let name = schema.fields[c].name.as_str();
            assert(schema@[c as int] == schema.fields[c as int]@);
            let filled = Expr::Ternary {
                predicate: Box::new(col::<U>(name).is_null()),
                truthy: Box::new(fill_value.duplicate()),
                falsy: Box::new(col::<U>(name)),
            };
            assert(filled@ == (ExprView::Ternary {
                predicate: Box::new(ExprView::Unary(UnaryOp::IsNull, Box::new(ExprView::Column(name@)))),
                truthy: Box::new(fill_value@),
                falsy: Box::new(ExprView::Column(name@)),
            }));
            let expr = filled.alias(name);
            assert(expr@ == fill_expr(name@, fill_value@));
            exprs.push(expr);
            c += 1;
        }
        assert(expr_views(exprs@) =~= want);
        self.project_local(exprs)
    }

    /// Adds the columns of the expressions; a column whose name the input
    /// has takes the place of that column.
    pub fn with_columns(self, exprs: Vec<Expr<U>>) -> (r: Self)
        requires
            typable(expr_views(exprs@), self.0.schema_view(), Context::Other),
        ensures
            r.0 matches LogicalPlan::HStack { input, exprs: e, schema } && *input == self.0 && e == exprs && schema@
                == with_fields(
                self.0.schema_view(),
                fields_of(expr_views(exprs@), self.0.schema_view(), Context::Other),
            ),
    {
        // current schema
        let schema = self.0.schema();
        let ghost views = expr_views(exprs@);
        let ghost fields = fields_of(views, schema@, Context::Other);
        let mut new_fields = schema.duplicate();
        let mut i: usize = 0;
        assert(fields.take(0) =~= Seq::empty());
        while i < exprs.len()
            invariant
                i <= exprs.len(),
                views == expr_views(exprs@),
                typable(views, schema@, Context::Other),
                fields == fields_of(views, schema@, Context::Other),
                new_fields@ == with_fields(schema@, fields.take(i as int)),
            decreases exprs.len() - i,
        {
            assert(views[i as int] == exprs[i as int]@);
            assert(views[i as int].field(schema@, Context::Other) is Ok);
            proof {
                assert(fields.take(i + 1).drop_last() =~= fields.take(i as int));
                assert(fields.take(i + 1).last() == fields[i as int]);
                lemma_with_fields_len(schema@, fields.take(i as int));
                lemma_first_index(field_names(schema@), fields[i as int].0);
            }
            match exprs[i].to_field(schema, Context::Other) {
                Ok(field) => {
                    let ghost before = new_fields@;
                    match schema.index_of(field.name.as_str()) {
                        Ok(idx) => {
                            new_fields.fields.set(idx, field);
                            assert(new_fields@ =~= before.update(idx as int, fields[i as int]));
                        },
                        Err(_) => {
                            new_fields.fields.push(field);
                            assert(new_fields@ =~= before.push(fields[i as int]));
                        },
                    }
                },
                Err(_) => unreached(),
            }
            i += 1;
        }
        assert(fields.take(exprs.len() as int) =~= fields);
        LogicalPlanBuilder(LogicalPlan::HStack { input: Box::new(self.0), exprs, schema: Arc::new(new_fields) })
    }

    /// Apply a filter.
    pub fn filter(self, predicate: Expr<U>) -> (r: Self)
        requires
            predicate@.has_wildcard() ==> self.0.schema_view().len() > 0,
        ensures
            r.0 matches LogicalPlan::Selection { input, predicate: p } && *input == self.0 && p@ == filter_predicate(
                predicate@,
                self.0.schema_view(),
            ),
    {
        let predicate = if predicate.has_wildcard() {
            let schema = self.0.schema();
            let ghost preds = Seq::new(schema@.len(), |c: int| predicate@.replace_wildcard(schema@[c].0));
            assert(schema@[0] == schema.fields[0]@);
            let mut combined = replace_wildcard_with_column(predicate.duplicate(), schema.fields[0].name.as_str());
            let mut c: usize = 1;
            while c < schema.fields.len()
                invariant
                    1 <= c <= schema.fields.len(),
                    preds == Seq::new(schema@.len(), |c: int| predicate@.replace_wildcard(schema@[c].0)),
                    combined@ == and_all(preds, c as int),
                decreases schema.fields.len() - c,
            {
                assert(schema@[c as int] == schema.fields[c as int]@);
                let next = replace_wildcard_with_column(predicate.duplicate(), schema.fields[c].name.as_str());
                combined = combined.and(next);
                c += 1;
            }
            combined
        } else {
            predicate
        };
        LogicalPlanBuilder(LogicalPlan::Selection { predicate, input: Box::new(self.0) })
    }

    /// Groups by the keys and aggregates every group.
    pub fn groupby(self, keys: Arc<Vec<Expr<U>>>, aggs: Vec<Expr<U>>, apply: Option<Arc<F>>) -> (r: Self)
        requires
            typable(expr_views(keys@), self.0.schema_view(), Context::Other),
            projectable(expr_views(aggs@), self.0.schema_view(), Context::Aggregation),
            merge_fields(Seq::empty(), fields_of(expr_views(keys@), self.0.schema_view(), Context::Other)) is Ok,
            merge_fields(
                merge_fields(
                    Seq::empty(),
                    fields_of(expr_views(keys@), self.0.schema_view(), Context::Other),
                )->Ok_0,
                fields_of(
                    rewritten(expr_views(aggs@), self.0.schema_view()),
                    self.0.schema_view(),
                    Context::Aggregation,
                ),
            ) is Ok,
        ensures
            r.0 matches LogicalPlan::Aggregate { input, keys: k, aggs: a, schema, apply: ap } && *input == self.0 && k
                == keys && ap == apply && expr_views(a@) == rewritten(expr_views(aggs@), self.0.schema_view())
                && Ok::<Seq<(Seq<char>, DataType)>, ErrorView>(schema@) == merge_fields(
                merge_fields(
                    Seq::empty(),
                    fields_of(expr_views(keys@), self.0.schema_view(), Context::Other),
                )->Ok_0,
                fields_of(
                    rewritten(expr_views(aggs@), self.0.schema_view()),
                    self.0.schema_view(),
                    Context::Aggregation,
                ),
            ),
    {
        let current_schema = self.0.schema();
        let aggs = rewrite_projections(aggs, current_schema);
        let empty = Schema::new(Vec::new());
        assert(empty@ =~= Seq::empty());
        let schema1 = match expressions_to_schema(&*keys, current_schema, Context::Other) {
            Ok(s) => s,
            Err(_) => {
                proof {
                    let bad = |i: int| expr_views(keys@)[i].field(current_schema@, Context::Other) is Err;
                    lemma_first_from(bad, 0, keys@.len() as int);
                    assert(bad(field_fault(expr_views(keys@), current_schema@, Context::Other)));
                }
                unreached()
            },
        };
        let schema2 = match expressions_to_schema(&aggs, current_schema, Context::Aggregation) {
            Ok(s) => s,
            Err(_) => {
                proof {
                    let bad = |i: int| expr_views(aggs@)[i].field(current_schema@, Context::Aggregation) is Err;
                    lemma_first_from(bad, 0, aggs@.len() as int);
                    assert(bad(field_fault(expr_views(aggs@), current_schema@, Context::Aggregation)));
                }
                unreached()
            },
        };
        let merged = match empty.try_merge(&schema1) {
            Ok(s) => s,
            Err(_) => unreached(),
        };
        let schema = match merged.try_merge(&schema2) {
            Ok(s) => s,
            Err(_) => unreached(),
        };
        LogicalPlanBuilder(
            LogicalPlan::Aggregate { input: Box::new(self.0), keys, aggs, schema: Arc::new(schema), apply },
        )
    }

    pub fn build(self) -> (r: LogicalPlan<U, F>)
        ensures
            r == self.0,
    {
        self.0
    }

    /// A plan that reads a table in memory.
    pub fn from_existing_df(df: DataFrame) -> (r: Self)
        ensures
            r.0 matches LogicalPlan::DataFrameScan { df: d, schema, projection, selection } && *d == df && schema@
                == schema_of(df@) && projection is None && selection is None,
    {
        let schema = Arc::new(df.schema());
        LogicalPlanBuilder(LogicalPlan::DataFrameScan { df: Arc::new(df), schema, projection: None, selection: None })
    }

    pub fn sort(self, by_column: String, reverse: bool) -> (r: Self)
        ensures
            r.0 == (LogicalPlan::Sort { input: Box::new(self.0), by_column, reverse }),
    {
        LogicalPlanBuilder(LogicalPlan::Sort { input: Box::new(self.0), by_column, reverse })
    }

    pub fn explode(self, columns: Vec<String>) -> (r: Self)
        ensures
            r.0 == (LogicalPlan::Explode { input: Box::new(self.0), columns }),
    {
        LogicalPlanBuilder(LogicalPlan::Explode { input: Box::new(self.0), columns })
    }

    /// Turns the columns `value_vars` into rows.
    pub fn melt(self, id_vars: Arc<Vec<String>>, value_vars: Arc<Vec<String>>) -> (r: Self)
        requires
            value_vars@.len() > 0,
            has_name(self.0.schema_view(), value_vars@[0]@),
        ensures
            r.0 matches LogicalPlan::Melt { input, id_vars: i, value_vars: v, schema } && *input == self.0 && i
                == id_vars && v == value_vars && schema@ == melt_schema(self.0.schema_view(), string_views(value_vars@)),
    {
        let schema = det_melt_schema(&*value_vars, self.0.schema());
        LogicalPlanBuilder(LogicalPlan::Melt { input: Box::new(self.0), id_vars, value_vars, schema })
    }

    pub fn drop_duplicates(self, maintain_order: bool, subset: Option<Vec<String>>) -> (r: Self)
        ensures
            r.0 matches LogicalPlan::Distinct { input, maintain_order: m, subset: s } && *input == self.0 && m
                == maintain_order && *s == subset,
    {
        LogicalPlanBuilder(LogicalPlan::Distinct { input: Box::new(self.0), maintain_order, subset: Arc::new(subset) })
    }

    pub fn slice(self, offset: usize, len: usize) -> (r: Self)
        ensures
            r.0 == (LogicalPlan::Slice { input: Box::new(self.0), offset, len }),
    {
        LogicalPlanBuilder(LogicalPlan::Slice { input: Box::new(self.0), offset, len })
    }

    /// Joins the plan with another on the given keys. The schema is the
    /// left schema, then every right column that is not a right key, under
    /// its name with `_right` behind it where a left column has that name.
    pub fn join(
        self,
        other: LogicalPlan<U, F>,
        how: JoinType,
        left_on: Vec<Expr<U>>,
        right_on: Vec<Expr<U>>,
        allow_par: bool,
        force_par: bool,
    ) -> (r: Self)
        requires
            forall|i: int| 0 <= i < right_on.len() ==> (#[trigger] right_on[i])@.output_name() is Some,
        ensures
            r.0 matches LogicalPlan::Join {
                input_left,
                input_right,
                schema,
                how: h,
                left_on: l,
                right_on: ro,
                allow_par: a,
                force_par: f,
            } && *input_left == self.0 && *input_right == other && h == how && l == left_on && ro == right_on && a
                == allow_par && f == force_par && schema@ == join_schema(
                self.0.schema_view(),
                other.schema_view(),
                output_names(expr_views(right_on@)),
            ),
    {
        let schema_left = self.0.schema();
        let schema_right = other.schema();
        let ghost want = output_names(expr_views(right_on@));
        let mut right_names: Vec<String> = Vec::new();
        let mut i: usize = 0;
        while i < right_on.len()
            invariant
                i <= right_on.len(),
                want == output_names(expr_views(right_on@)),
                forall|i: int| 0 <= i < right_on.len() ==> (#[trigger] right_on[i])@.output_name() is Some,
                right_names@.len() == i,
                forall|j: int| 0 <= j < i ==> (#[trigger] right_names@[j])@ == want[j],
            decreases right_on.len() - i,
        {
            assert(right_on[i as int]@.output_name() is Some);
            match right_on[i].output_name() {
                Some(name) => {
                    right_names.push(name);
                },
                None => unreached(),
            }
            i += 1;
        }
        assert(string_views(right_names@) =~= want);
        let schema = Arc::new(det_join_schema(schema_left, schema_right, &right_names));
        LogicalPlanBuilder(
            LogicalPlan::Join {
                input_left: Box::new(self.0),
                input_right: Box::new(other),
                how,
                schema,
                left_on,
                right_on,
                allow_par,
                force_par,
            },
        )
    }

    /// Hands every table that reaches this node to a function of the user.
    pub fn map(self, function: F, optimizations: AllowedOptimizations, schema: Option<Arc<Schema>>) -> (r: Self)
        ensures
            r.0 matches LogicalPlan::Udf { input, function: f, predicate_pd, projection_pd, schema: s } && *input
                == self.0 && *f == function && predicate_pd == optimizations.predicate_pushdown && projection_pd
                == optimizations.projection_pushdown && s == schema,
    {
        LogicalPlanBuilder(
            LogicalPlan::Udf {
                input: Box::new(self.0),
                function: Arc::new(function),
                predicate_pd: optimizations.predicate_pushdown,
                projection_pd: optimizations.projection_pushdown,
                schema,
            },
        )
    }
}

} // verus!
