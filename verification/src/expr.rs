//! Expressions over the columns of a table.

use vstd::prelude::*;
use std::sync::Arc;

use crate::datatypes::{DataType, ErrorView, Field, PolarsError, Schema, has_name, owned, position_of};

verus! {

/// A literal value. Floats are held by their bits.
#[derive(Debug)]
pub enum LiteralValue {
    Null,
    /// A binary true or false.
    Boolean(bool),
    /// A UTF8 encoded string type.
    Utf8(String),
    /// An unsigned 8-bit integer number.
    UInt8(u8),
    /// An unsigned 16-bit integer number.
    UInt16(u16),
    /// An unsigned 32-bit integer number.
    UInt32(u32),
    /// An unsigned 64-bit integer number.
    UInt64(u64),
    /// An 8-bit integer number.
    Int8(i8),
    /// A 16-bit integer number.
    Int16(i16),
    /// A 32-bit integer number.
    Int32(i32),
    /// A 64-bit integer number.
    Int64(i64),
    /// The bits of a 32-bit floating point number.
    Float32(u32),
    /// The bits of a 64-bit floating point number.
    Float64(u64),
    Range { low: i64, high: i64, data_type: DataType },
}

/// The mathematical value of a literal.
pub ghost enum LiteralView {
    Null,
    Boolean(bool),
    Utf8(Seq<char>),
    Num(DataType, int),
    Range { low: i64, high: i64, data_type: DataType },
}

impl View for LiteralValue {
    type V = LiteralView;

    open spec fn view(&self) -> LiteralView {
        match *self {
            LiteralValue::Null => LiteralView::Null,
            LiteralValue::Boolean(b) => LiteralView::Boolean(b),
            LiteralValue::Utf8(s) => LiteralView::Utf8(s@),
            LiteralValue::UInt8(v) => LiteralView::Num(DataType::UInt8, v as int),
            LiteralValue::UInt16(v) => LiteralView::Num(DataType::UInt16, v as int),
            LiteralValue::UInt32(v) => LiteralView::Num(DataType::UInt32, v as int),
            LiteralValue::UInt64(v) => LiteralView::Num(DataType::UInt64, v as int),
            LiteralValue::Int8(v) => LiteralView::Num(DataType::Int8, v as int),
            LiteralValue::Int16(v) => LiteralView::Num(DataType::Int16, v as int),
            LiteralValue::Int32(v) => LiteralView::Num(DataType::Int32, v as int),
            LiteralValue::Int64(v) => LiteralView::Num(DataType::Int64, v as int),
            LiteralValue::Float32(v) => LiteralView::Num(DataType::Float32, v as int),
            LiteralValue::Float64(v) => LiteralView::Num(DataType::Float64, v as int),
            LiteralValue::Range { low, high, data_type } => LiteralView::Range { low, high, data_type },
        }
    }
}

impl LiteralView {
    /// The logical type of the literal; a null literal has none.
    pub open spec fn datatype(self) -> DataType {
        match self {
            LiteralView::Null => DataType::Null,
            LiteralView::Boolean(_) => DataType::Boolean,
            LiteralView::Utf8(_) => DataType::Utf8,
            LiteralView::Num(d, _) => d,
            LiteralView::Range { data_type, .. } => data_type,
        }
    }
}

impl LiteralValue {
    /// Getter for the `DataType` of the value. A null literal cannot be
    /// treated as a scalar value and has no type to give.
    pub fn get_datatype(&self) -> (r: DataType)
        requires
            !(self@ is Null),
        ensures
            r == self@.datatype(),
    {
        match self {
            LiteralValue::Boolean(_) => DataType::Boolean,
            LiteralValue::UInt8(_) => DataType::UInt8,
            LiteralValue::UInt16(_) => DataType::UInt16,
            LiteralValue::UInt32(_) => DataType::UInt32,
            LiteralValue::UInt64(_) => DataType::UInt64,
            LiteralValue::Int8(_) => DataType::Int8,
            LiteralValue::Int16(_) => DataType::Int16,
            LiteralValue::Int32(_) => DataType::Int32,
            LiteralValue::Int64(_) => DataType::Int64,
            LiteralValue::Float32(_) => DataType::Float32,
            LiteralValue::Float64(_) => DataType::Float64,
            LiteralValue::Utf8(_) => DataType::Utf8,
            LiteralValue::Range { data_type, .. } => *data_type,
            LiteralValue::Null => DataType::Null,
        }
    }

    /// A copy of the literal.
    pub fn duplicate(&self) -> (r: LiteralValue)
        ensures
            r@ == self@,
    {
        match self {
            LiteralValue::Null => LiteralValue::Null,
            LiteralValue::Boolean(b) => LiteralValue::Boolean(*b),
            LiteralValue::Utf8(s) => LiteralValue::Utf8(s.clone()),
            LiteralValue::UInt8(v) => LiteralValue::UInt8(*v),
            LiteralValue::UInt16(v) => LiteralValue::UInt16(*v),
            LiteralValue::UInt32(v) => LiteralValue::UInt32(*v),
            LiteralValue::UInt64(v) => LiteralValue::UInt64(*v),
            LiteralValue::Int8(v) => LiteralValue::Int8(*v),
            LiteralValue::Int16(v) => LiteralValue::Int16(*v),
            LiteralValue::Int32(v) => LiteralValue::Int32(*v),
            LiteralValue::Int64(v) => LiteralValue::Int64(*v),
            LiteralValue::Float32(v) => LiteralValue::Float32(*v),
            LiteralValue::Float64(v) => LiteralValue::Float64(*v),
            LiteralValue::Range { low, high, data_type } => LiteralValue::Range {
                low: *low,
                high: *high,
                data_type: *data_type,
            },
        }
    }
}

/// A binary operator.
#[derive(Clone, Copy, Debug, PartialEq, Eq, Structural)]
pub enum Operator {
    Eq,
    NotEq,
    Lt,
    LtEq,
    Gt,
    GtEq,
    Plus,
    Minus,
    Multiply,
    Divide,
    Modulus,
    And,
    Or,
    Not,
    Like,
    NotLike,
}

/// An operation on one expression that keeps or tests its rows.
#[derive(Clone, Copy, Debug, PartialEq, Eq, Structural)]
pub enum UnaryOp {
    Not,
    IsNull,
    IsNotNull,
    Reverse,
    Duplicated,
    Unique,
    Explode,
    /// Leaves the named column out of a projection.
    Except,
}

/// An aggregation of the rows of a group. A quantile is held by the bits of
/// its 64-bit float.
#[derive(Clone, Copy, Debug, PartialEq, Eq, Structural)]
pub enum AggKind {
    Min,
    Max,
    Median,
    NUnique,
    First,
    Last,
    Mean,
    List,
    Count,
    Quantile(u64),
    Sum,
    AggGroups,
    Std,
    Var,
}

/// An expression. `U` is the type of the functions that users hand in.
#[derive(Debug)]
#[allow(inconsistent_fields)]
pub enum Expr<U> {
    Alias(Box<Expr<U>>, String),
    Column(String),
    Literal(LiteralValue),
    BinaryExpr { left: Box<Expr<U>>, op: Operator, right: Box<Expr<U>> },
    Unary(UnaryOp, Box<Expr<U>>),
    Cast { expr: Box<Expr<U>>, data_type: DataType },
    Sort { expr: Box<Expr<U>>, reverse: bool },
    Agg(AggKind, Box<Expr<U>>),
    Ternary { predicate: Box<Expr<U>>, truthy: Box<Expr<U>>, falsy: Box<Expr<U>> },
    Udf { input: Box<Expr<U>>, function: Arc<U>, output_type: Option<DataType> },
    Shift { input: Box<Expr<U>>, periods: i64 },
    Window { function: Box<Expr<U>>, partition_by: Box<Expr<U>>, order_by: Option<Box<Expr<U>>> },
    Wildcard,
    Slice { input: Box<Expr<U>>, offset: isize, length: usize },
    BinaryFunction { input_a: Box<Expr<U>>, input_b: Box<Expr<U>>, function: Arc<U>, output_type: DataType },
}

/// The mathematical value of an expression.
#[allow(inconsistent_fields)]
pub ghost enum ExprView<U> {
    Alias(Box<ExprView<U>>, Seq<char>),
    Column(Seq<char>),
    Literal(LiteralView),
    BinaryExpr { left: Box<ExprView<U>>, op: Operator, right: Box<ExprView<U>> },
    Unary(UnaryOp, Box<ExprView<U>>),
    Cast { expr: Box<ExprView<U>>, data_type: DataType },
    Sort { expr: Box<ExprView<U>>, reverse: bool },
    Agg(AggKind, Box<ExprView<U>>),
    Ternary { predicate: Box<ExprView<U>>, truthy: Box<ExprView<U>>, falsy: Box<ExprView<U>> },
    Udf { input: Box<ExprView<U>>, function: Arc<U>, output_type: Option<DataType> },
    Shift { input: Box<ExprView<U>>, periods: i64 },
    Window { function: Box<ExprView<U>>, partition_by: Box<ExprView<U>>, order_by: Option<Box<ExprView<U>>> },
    Wildcard,
    Slice { input: Box<ExprView<U>>, offset: isize, length: usize },
    BinaryFunction { input_a: Box<ExprView<U>>, input_b: Box<ExprView<U>>, function: Arc<U>, output_type: DataType },
}

/// `Arc::clone`: another handle to the same shared value.
#[verifier::external_body]
pub(crate) fn share<T>(a: &Arc<T>) -> (r: Arc<T>)
    ensures
        r == *a,
{
    a.clone()
}

impl<U> Expr<U> {
    pub open spec fn view(&self) -> ExprView<U>
        decreases self,
    {
        match self {
            Expr::Alias(e, name) => ExprView::Alias(Box::new(e.view()), name@),
            Expr::Column(name) => ExprView::Column(name@),
            Expr::Literal(v) => ExprView::Literal(v@),
            Expr::BinaryExpr { left, op, right } => ExprView::BinaryExpr {
                left: Box::new(left.view()),
                op: *op,
                right: Box::new(right.view()),
            },
            Expr::Unary(op, e) => ExprView::Unary(*op, Box::new(e.view())),
            Expr::Cast { expr, data_type } => ExprView::Cast { expr: Box::new(expr.view()), data_type: *data_type },
            Expr::Sort { expr, reverse } => ExprView::Sort { expr: Box::new(expr.view()), reverse: *reverse },
            Expr::Agg(agg, e) => ExprView::Agg(*agg, Box::new(e.view())),
            Expr::Ternary { predicate, truthy, falsy } => ExprView::Ternary {
                predicate: Box::new(predicate.view()),
                truthy: Box::new(truthy.view()),
                falsy: Box::new(falsy.view()),
            },
            Expr::Udf { input, function, output_type } => ExprView::Udf {
                input: Box::new(input.view()),
                function: *function,
                output_type: *output_type,
            },
            Expr::Shift { input, periods } => ExprView::Shift { input: Box::new(input.view()), periods: *periods },
            Expr::Window { function, partition_by, order_by } => ExprView::Window {
                function: Box::new(function.view()),
                partition_by: Box::new(partition_by.view()),
                order_by: match order_by {
                    Some(e) => Some(Box::new(e.view())),
                    None => None,
                },
            },
            Expr::Wildcard => ExprView::Wildcard,
            Expr::Slice { input, offset, length } => ExprView::Slice {
                input: Box::new(input.view()),
                offset: *offset,
                length: *length,
            },
            Expr::BinaryFunction { input_a, input_b, function, output_type } => ExprView::BinaryFunction {
                input_a: Box::new(input_a.view()),
                input_b: Box::new(input_b.view()),
                function: *function,
                output_type: *output_type,
            },
        }
    }

    /// A copy of the expression; the functions of users are shared, not
    /// copied.
    pub fn duplicate(&self) -> (r: Expr<U>)
        ensures
            r@ == self@,
        decreases self,
    {
        match self {
            Expr::Alias(e, name) => Expr::Alias(Box::new(e.duplicate()), name.clone()),
            Expr::Column(name) => Expr::Column(name.clone()),
            Expr::Literal(v) => Expr::Literal(v.duplicate()),
            Expr::BinaryExpr { left, op, right } => Expr::BinaryExpr {
                left: Box::new(left.duplicate()),
                op: *op,
                right: Box::new(right.duplicate()),
            },
            Expr::Unary(op, e) => Expr::Unary(*op, Box::new(e.duplicate())),
            Expr::Cast { expr, data_type } => Expr::Cast { expr: Box::new(expr.duplicate()), data_type: *data_type },
            Expr::Sort { expr, reverse } => Expr::Sort { expr: Box::new(expr.duplicate()), reverse: *reverse },
            Expr::Agg(agg, e) => Expr::Agg(*agg, Box::new(e.duplicate())),
            Expr::Ternary { predicate, truthy, falsy } => Expr::Ternary {
                predicate: Box::new(predicate.duplicate()),
                truthy: Box::new(truthy.duplicate()),
                falsy: Box::new(falsy.duplicate()),
            },
            Expr::Udf { input, function, output_type } => Expr::Udf {
                input: Box::new(input.duplicate()),
                function: share(function),
                output_type: *output_type,
            },
            Expr::Shift { input, periods } => Expr::Shift { input: Box::new(input.duplicate()), periods: *periods },
            Expr::Window { function, partition_by, order_by } => Expr::Window {
                function: Box::new(function.duplicate()),
                partition_by: Box::new(partition_by.duplicate()),
                order_by: match order_by {
                    Some(e) => Some(Box::new(e.duplicate())),
                    None => None,
                },
            },
            Expr::Wildcard => Expr::Wildcard,
            Expr::Slice { input, offset, length } => Expr::Slice {
                input: Box::new(input.duplicate()),
                offset: *offset,
                length: *length,
            },
            Expr::BinaryFunction { input_a, input_b, function, output_type } => Expr::BinaryFunction {
                input_a: Box::new(input_a.duplicate()),
                input_b: Box::new(input_b.duplicate()),
                function: share(function),
                output_type: *output_type,
            },
        }
    }
}

/// Where an expression is used: as an aggregation of a group, or elsewhere.
#[derive(Clone, Copy, Debug, PartialEq, Eq, Structural)]
pub enum Context {
    Aggregation,
    Other,
}

/// Whether the operator compares or combines truth values, so that its
/// result is a truth value.
pub open spec fn is_predicate(op: Operator) -> bool {
    !(op == Operator::Plus || op == Operator::Minus || op == Operator::Multiply || op == Operator::Divide || op
        == Operator::Modulus)
}

/// What an aggregation puts behind the name of its column.
pub open spec fn agg_suffix(agg: AggKind) -> Seq<char> {
    match agg {
        AggKind::Min => "_min"@,
        AggKind::Max => "_max"@,
        AggKind::Median => "_median"@,
        AggKind::NUnique => "_n_unique"@,
        AggKind::First => "_first"@,
        AggKind::Last => "_last"@,
        AggKind::Mean => "_mean"@,
        AggKind::List => "_agg_list"@,
        AggKind::Count => "_count"@,
        AggKind::Quantile(_) => "_quantile"@,
        AggKind::Sum => "_sum"@,
        AggKind::AggGroups => "_groups"@,
        AggKind::Std => "_std"@,
        AggKind::Var => "_var"@,
    }
}

/// The type of an aggregation of a column of type `input`.
pub open spec fn agg_type(agg: AggKind, input: DataType) -> DataType {
    match agg {
        AggKind::Mean | AggKind::Median | AggKind::Std | AggKind::Var | AggKind::Quantile(_) => DataType::Float64,
        AggKind::Count | AggKind::NUnique => DataType::UInt32,
        AggKind::List | AggKind::AggGroups => DataType::List,
        _ => input,
    }
}

impl<U> ExprView<U> {
    /// Whether a wildcard stands anywhere in the expression.
    pub open spec fn has_wildcard(self) -> bool
        decreases self,
    {
        match self {
            ExprView::Wildcard => true,
            ExprView::Column(_) => false,
            ExprView::Literal(_) => false,
            ExprView::Alias(e, _) => e.has_wildcard(),
            ExprView::Unary(_, e) => e.has_wildcard(),
            ExprView::Cast { expr, .. } => expr.has_wildcard(),
            ExprView::Sort { expr, .. } => expr.has_wildcard(),
            ExprView::Agg(_, e) => e.has_wildcard(),
            ExprView::Udf { input, .. } => input.has_wildcard(),
            ExprView::Shift { input, .. } => input.has_wildcard(),
            ExprView::Slice { input, .. } => input.has_wildcard(),
            ExprView::BinaryExpr { left, right, .. } => left.has_wildcard() || right.has_wildcard(),
            ExprView::BinaryFunction { input_a, input_b, .. } => input_a.has_wildcard() || input_b.has_wildcard(),
            ExprView::Ternary { predicate, truthy, falsy } => predicate.has_wildcard() || truthy.has_wildcard()
                || falsy.has_wildcard(),
            ExprView::Window { function, partition_by, order_by } => function.has_wildcard()
                || partition_by.has_wildcard() || match order_by {
                Some(e) => e.has_wildcard(),
                None => false,
            },
        }
    }

    /// Whether a count stands anywhere in the expression.
    pub open spec fn has_count(self) -> bool
        decreases self,
    {
        match self {
            ExprView::Wildcard => false,
            ExprView::Column(_) => false,
            ExprView::Literal(_) => false,
            ExprView::Alias(e, _) => e.has_count(),
            ExprView::Unary(_, e) => e.has_count(),
            ExprView::Cast { expr, .. } => expr.has_count(),
            ExprView::Sort { expr, .. } => expr.has_count(),
            ExprView::Agg(agg, e) => agg == AggKind::Count || e.has_count(),
            ExprView::Udf { input, .. } => input.has_count(),
            ExprView::Shift { input, .. } => input.has_count(),
            ExprView::Slice { input, .. } => input.has_count(),
            ExprView::BinaryExpr { left, right, .. } => left.has_count() || right.has_count(),
            ExprView::BinaryFunction { input_a, input_b, .. } => input_a.has_count() || input_b.has_count(),
            ExprView::Ternary { predicate, truthy, falsy } => predicate.has_count() || truthy.has_count()
                || falsy.has_count(),
            ExprView::Window { function, partition_by, order_by } => function.has_count() || partition_by.has_count()
                || match order_by {
                Some(e) => e.has_count(),
                None => false,
            },
        }
    }

    /// The expression with the column `name` in place of every wildcard,
    /// in every operand.
    pub open spec fn replace_wildcard(self, name: Seq<char>) -> ExprView<U>
        decreases self,
    {
        match self {
            ExprView::Wildcard => ExprView::Column(name),
            ExprView::Column(_) => self,
            ExprView::Literal(_) => self,
            ExprView::Alias(e, alias) => ExprView::Alias(Box::new(e.replace_wildcard(name)), alias),
            ExprView::Unary(op, e) => ExprView::Unary(op, Box::new(e.replace_wildcard(name))),
            ExprView::Cast { expr, data_type } => ExprView::Cast { expr: Box::new(expr.replace_wildcard(name)), data_type },
            ExprView::Sort { expr, reverse } => ExprView::Sort { expr: Box::new(expr.replace_wildcard(name)), reverse },
            ExprView::Agg(agg, e) => ExprView::Agg(agg, Box::new(e.replace_wildcard(name))),
            ExprView::Udf { input, function, output_type } => ExprView::Udf {
                input: Box::new(input.replace_wildcard(name)),
                function,
                output_type,
            },
            ExprView::Shift { input, periods } => ExprView::Shift { input: Box::new(input.replace_wildcard(name)), periods },
            ExprView::Slice { input, offset, length } => ExprView::Slice {
                input: Box::new(input.replace_wildcard(name)),
                offset,
                length,
            },
            ExprView::BinaryExpr { left, op, right } => ExprView::BinaryExpr {
                left: Box::new(left.replace_wildcard(name)),
                op,
                right: Box::new(right.replace_wildcard(name)),
            },
            ExprView::BinaryFunction { input_a, input_b, function, output_type } => ExprView::BinaryFunction {
                input_a: Box::new(input_a.replace_wildcard(name)),
                input_b: Box::new(input_b.replace_wildcard(name)),
                function,
                output_type,
            },
            ExprView::Ternary { predicate, truthy, falsy } => ExprView::Ternary {
                predicate: Box::new(predicate.replace_wildcard(name)),
                truthy: Box::new(truthy.replace_wildcard(name)),
                falsy: Box::new(falsy.replace_wildcard(name)),
            },
            ExprView::Window { function, partition_by, order_by } => ExprView::Window {
                function: Box::new(function.replace_wildcard(name)),
                partition_by: Box::new(partition_by.replace_wildcard(name)),
                order_by: match order_by {
                    Some(e) => Some(Box::new(e.replace_wildcard(name))),
                    None => None,
                },
            },
        }
    }

    /// The columns and wildcards at the leaves of the expression, from left
    /// to right: a name for a column, nothing for a wildcard.
    pub open spec fn roots(self) -> Seq<Option<Seq<char>>>
        decreases self,
    {
        match self {
            ExprView::Wildcard => seq![None],
            ExprView::Column(name) => seq![Some(name)],
            ExprView::Literal(_) => Seq::empty(),
            ExprView::Alias(e, _) => e.roots(),
            ExprView::Unary(_, e) => e.roots(),
            ExprView::Cast { expr, .. } => expr.roots(),
            ExprView::Sort { expr, .. } => expr.roots(),
            ExprView::Agg(_, e) => e.roots(),
            ExprView::Udf { input, .. } => input.roots(),
            ExprView::Shift { input, .. } => input.roots(),
            ExprView::Slice { input, .. } => input.roots(),
            ExprView::BinaryExpr { left, right, .. } => left.roots() + right.roots(),
            ExprView::BinaryFunction { input_a, input_b, .. } => input_a.roots() + input_b.roots(),
            ExprView::Ternary { predicate, truthy, falsy } => predicate.roots() + truthy.roots() + falsy.roots(),
            ExprView::Window { function, partition_by, order_by } => function.roots() + partition_by.roots() + match order_by {
                Some(e) => e.roots(),
                None => Seq::empty(),
            },
        }
    }

    /// The name of the one column that the expression is made of, where it
    /// is made of exactly one.
    pub open spec fn root_name(self) -> Option<Seq<char>> {
        if self.roots().len() == 1 {
            self.roots()[0]
        } else {
            None
        }
    }

    /// The name under which the expression's column comes out: its alias,
    /// or the name of its column, or that of its first operand that has
    /// one.
    pub open spec fn output_name(self) -> Option<Seq<char>>
        decreases self,
    {
        match self {
            ExprView::Wildcard => None,
            ExprView::Column(name) => Some(name),
            ExprView::Literal(_) => None,
            ExprView::Alias(_, alias) => Some(alias),
            ExprView::Unary(_, e) => e.output_name(),
            ExprView::Cast { expr, .. } => expr.output_name(),
            ExprView::Sort { expr, .. } => expr.output_name(),
            ExprView::Agg(_, e) => e.output_name(),
            ExprView::Udf { input, .. } => input.output_name(),
            ExprView::Shift { input, .. } => input.output_name(),
            ExprView::Slice { input, .. } => input.output_name(),
            ExprView::BinaryExpr { left, right, .. } => if left.output_name() is Some {
                left.output_name()
            } else {
                right.output_name()
            },
            ExprView::BinaryFunction { input_a, input_b, .. } => if input_a.output_name() is Some {
                input_a.output_name()
            } else {
                input_b.output_name()
            },
            ExprView::Ternary { predicate, truthy, falsy } => if predicate.output_name() is Some {
                predicate.output_name()
            } else if truthy.output_name() is Some {
                truthy.output_name()
            } else {
                falsy.output_name()
            },
            ExprView::Window { function, .. } => function.output_name(),
        }
    }

    /// The name and type of the column that the expression gives for a
    /// table of the given schema, or why it gives none: a column that the
    /// schema lacks, or a wildcard or an exclusion that was not rewritten.
    /// An aggregation of a group puts its suffix behind the column's name.
    /// An arithmetic operation has the type of its left operand.
    pub open spec fn field(self, schema: Seq<(Seq<char>, DataType)>, ctxt: Context) -> Result<(Seq<char>, DataType), ErrorView>
        decreases self,
    {
        match self {
            ExprView::Wildcard => Err(ErrorView::Invariant("*"@)),
            ExprView::Column(name) => if has_name(schema, name) {
                Ok(schema[position_of(schema, name)])
            } else {
                Err(ErrorView::NotFound(name))
            },
            ExprView::Literal(v) => Ok(("lit"@, v.datatype())),
            ExprView::Alias(e, alias) => match e.field(schema, ctxt) {
                Ok(f) => Ok((alias, f.1)),
                Err(e) => Err(e),
            },
            ExprView::Unary(op, e) => match op {
                UnaryOp::Not => Ok(("not"@, DataType::Boolean)),
                UnaryOp::IsNull => Ok(("is_null"@, DataType::Boolean)),
                UnaryOp::IsNotNull => Ok(("is_not_null"@, DataType::Boolean)),
                UnaryOp::Except => Err(ErrorView::Invariant("except"@)),
                UnaryOp::Unique | UnaryOp::Duplicated => match e.field(schema, ctxt) {
                    Ok(f) => Ok((f.0, DataType::Boolean)),
                    Err(e) => Err(e),
                },
                _ => e.field(schema, ctxt),
            },
            ExprView::Cast { expr, data_type } => match expr.field(schema, ctxt) {
                Ok(f) => Ok((f.0, data_type)),
                Err(e) => Err(e),
            },
            ExprView::Sort { expr, .. } => expr.field(schema, ctxt),
            ExprView::Agg(agg, e) => match e.field(schema, ctxt) {
                Ok(f) => Ok(
                    (
                        if ctxt == Context::Aggregation {
                            f.0 + agg_suffix(agg)
                        } else {
                            f.0
                        },
                        agg_type(agg, f.1),
                    ),
                ),
                Err(e) => Err(e),
            },
            ExprView::Udf { input, output_type, .. } => match input.field(schema, ctxt) {
                Ok(f) => Ok(
                    (
                        f.0,
                        match output_type {
                            Some(t) => t,
                            None => f.1,
                        },
                    ),
                ),
                Err(e) => Err(e),
            },
            ExprView::Shift { input, .. } => input.field(schema, ctxt),
            ExprView::Slice { input, .. } => input.field(schema, ctxt),
            ExprView::BinaryExpr { left, op, right } => match left.field(schema, ctxt) {
                Ok(l) => match right.field(schema, ctxt) {
                    Ok(r) => Ok((l.0, if is_predicate(op) { DataType::Boolean } else { l.1 })),
                    Err(e) => Err(e),
                },
                Err(e) => Err(e),
            },
            ExprView::BinaryFunction { input_a, output_type, .. } => match input_a.field(schema, ctxt) {
                Ok(f) => Ok((f.0, output_type)),
                Err(e) => Err(e),
            },
            ExprView::Ternary { truthy, .. } => truthy.field(schema, ctxt),
            ExprView::Window { function, .. } => function.field(schema, ctxt),
        }
    }
}

/// The suffix of an aggregation, as text.
pub fn agg_suffix_str(agg: AggKind) -> (r: &'static str)
    ensures
        r@ == agg_suffix(agg),
{
    match agg {
        AggKind::Min => "_min",
        AggKind::Max => "_max",
        AggKind::Median => "_median",
        AggKind::NUnique => "_n_unique",
        AggKind::First => "_first",
        AggKind::Last => "_last",
        AggKind::Mean => "_mean",
        AggKind::List => "_agg_list",
        AggKind::Count => "_count",
        AggKind::Quantile(_) => "_quantile",
        AggKind::Sum => "_sum",
        AggKind::AggGroups => "_groups",
        AggKind::Std => "_std",
        AggKind::Var => "_var",
    }
}

/// The type of an aggregation of a column of type `input`.
pub fn agg_type_of(agg: AggKind, input: DataType) -> (r: DataType)
    ensures
        r == agg_type(agg, input),
{
    match agg {
        AggKind::Mean | AggKind::Median | AggKind::Std | AggKind::Var | AggKind::Quantile(_) => DataType::Float64,
        AggKind::Count | AggKind::NUnique => DataType::UInt32,
        AggKind::List | AggKind::AggGroups => DataType::List,
        _ => input,
    }
}

/// Whether the operator's result is a truth value.
pub fn op_is_predicate(op: Operator) -> (r: bool)
    ensures
        r == is_predicate(op),
{
    match op {
        Operator::Plus | Operator::Minus | Operator::Multiply | Operator::Divide | Operator::Modulus => false,
        _ => true,
    }
}

/// The view of the result of a field derivation.
pub open spec fn field_view(r: Result<Field, PolarsError>) -> Result<(Seq<char>, DataType), ErrorView> {
    match r {
        Ok(f) => Ok(f@),
        Err(e) => Err(e@),
    }
}

/// The view of an optional name.
pub open spec fn name_view(r: Option<String>) -> Option<Seq<char>> {
    match r {
        Some(s) => Some(s@),
        None => None,
    }
}

/// The column of the given name.
pub fn col<U>(name: &str) -> (r: Expr<U>)
    ensures
        r@ == ExprView::<U>::Column(name@),
{
    Expr::Column(owned(name))
}

impl<U> Expr<U> {
    /// The expression under another name.
    pub fn alias(self, name: &str) -> (r: Expr<U>)
        ensures
            r@ == ExprView::Alias(Box::new(self@), name@),
    {
        Expr::Alias(Box::new(self), owned(name))
    }

    /// Whether the expression is null, row by row.
    pub fn is_null(self) -> (r: Expr<U>)
        ensures
            r@ == ExprView::Unary(UnaryOp::IsNull, Box::new(self@)),
    {
        Expr::Unary(UnaryOp::IsNull, Box::new(self))
    }

    /// Both this and the other predicate.
    pub fn and(self, other: Expr<U>) -> (r: Expr<U>)
        ensures
            r@ == (ExprView::BinaryExpr { left: Box::new(self@), op: Operator::And, right: Box::new(other@) }),
    {
        Expr::BinaryExpr { left: Box::new(self), op: Operator::And, right: Box::new(other) }
    }

    /// Whether a wildcard stands anywhere in the expression.
    pub fn has_wildcard(&self) -> (r: bool)
        ensures
            r == self@.has_wildcard(),
        decreases self,
    {
        match self {
            Expr::Wildcard => true,
            Expr::Column(_) => false,
            Expr::Literal(_) => false,
            Expr::Alias(e, _) => e.has_wildcard(),
            Expr::Unary(_, e) => e.has_wildcard(),
            Expr::Cast { expr, .. } => expr.has_wildcard(),
            Expr::Sort { expr, .. } => expr.has_wildcard(),
            Expr::Agg(_, e) => e.has_wildcard(),
            Expr::Udf { input, .. } => input.has_wildcard(),
            Expr::Shift { input, .. } => input.has_wildcard(),
            Expr::Slice { input, .. } => input.has_wildcard(),
            Expr::BinaryExpr { left, right, .. } => left.has_wildcard() || right.has_wildcard(),
            Expr::BinaryFunction { input_a, input_b, .. } => input_a.has_wildcard() || input_b.has_wildcard(),
            Expr::Ternary { predicate, truthy, falsy } => predicate.has_wildcard() || truthy.has_wildcard()
                || falsy.has_wildcard(),
            Expr::Window { function, partition_by, order_by } => function.has_wildcard() || partition_by.has_wildcard()
                || match order_by {
                Some(e) => e.has_wildcard(),
                None => false,
            },
        }
    }

    /// Whether a count stands anywhere in the expression.
    pub fn has_count(&self) -> (r: bool)
        ensures
            r == self@.has_count(),
        decreases self,
    {
        match self {
            Expr::Wildcard => false,
            Expr::Column(_) => false,
            Expr::Literal(_) => false,
            Expr::Alias(e, _) => e.has_count(),
            Expr::Unary(_, e) => e.has_count(),
            Expr::Cast { expr, .. } => expr.has_count(),
            Expr::Sort { expr, .. } => expr.has_count(),
            Expr::Agg(agg, e) => *agg == AggKind::Count || e.has_count(),
            Expr::Udf { input, .. } => input.has_count(),
            Expr::Shift { input, .. } => input.has_count(),
            Expr::Slice { input, .. } => input.has_count(),
            Expr::BinaryExpr { left, right, .. } => left.has_count() || right.has_count(),
            Expr::BinaryFunction { input_a, input_b, .. } => input_a.has_count() || input_b.has_count(),
            Expr::Ternary { predicate, truthy, falsy } => predicate.has_count() || truthy.has_count()
                || falsy.has_count(),
            Expr::Window { function, partition_by, order_by } => function.has_count() || partition_by.has_count()
                || match order_by {
                Some(e) => e.has_count(),
                None => false,
            },
        }
    }

    /// Appends the expression's roots to `out`, from left to right.
    fn collect_roots(&self, out: &mut Vec<Option<String>>)
        ensures
            root_views(final(out)@) == root_views(old(out)@) + self@.roots(),
        decreases self,
    {
        let ghost before = root_views(out@);
        match self {
            Expr::Wildcard => {
                out.push(None);
                assert(root_views(out@) =~= before + self@.roots());
            },
            Expr::Column(name) => {
                out.push(Some(name.clone()));
                assert(root_views(out@) =~= before + self@.roots());
            },
            Expr::Literal(_) => {
                assert(before + self@.roots() =~= before);
            },
            Expr::Alias(e, _) => e.collect_roots(out),
            Expr::Unary(_, e) => e.collect_roots(out),
            Expr::Cast { expr, .. } => expr.collect_roots(out),
            Expr::Sort { expr, .. } => expr.collect_roots(out),
            Expr::Agg(_, e) => e.collect_roots(out),
            Expr::Udf { input, .. } => input.collect_roots(out),
            Expr::Shift { input, .. } => input.collect_roots(out),
            Expr::Slice { input, .. } => input.collect_roots(out),
            Expr::BinaryExpr { left, right, .. } => {
                left.collect_roots(out);
                right.collect_roots(out);
                assert(before + left@.roots() + right@.roots() =~= before + (left@.roots() + right@.roots()));
            },
            Expr::BinaryFunction { input_a, input_b, .. } => {
                input_a.collect_roots(out);
                input_b.collect_roots(out);
                assert(before + input_a@.roots() + input_b@.roots() =~= before + (input_a@.roots()
                    + input_b@.roots()));
            },
            Expr::Ternary { predicate, truthy, falsy } => {
                predicate.collect_roots(out);
                truthy.collect_roots(out);
                falsy.collect_roots(out);
                assert(before + predicate@.roots() + truthy@.roots() + falsy@.roots() =~= before + (
                predicate@.roots() + truthy@.roots() + falsy@.roots()));
            },
            Expr::Window { function, partition_by, order_by } => {
                function.collect_roots(out);
                partition_by.collect_roots(out);
                match order_by {
                    Some(e) => {
                        e.collect_roots(out);
                        assert(before + function@.roots() + partition_by@.roots() + e@.roots() =~= before + (
                        function@.roots() + partition_by@.roots() + e@.roots()));
                    },
                    None => {
                        assert(before + function@.roots() + partition_by@.roots() =~= before + (function@.roots()
                            + partition_by@.roots() + Seq::empty()));
                    },
                }
            },
        }
    }

    /// The columns and wildcards at the leaves of the expression, from left
    /// to right: a name for a column, nothing for a wildcard.
    pub fn expr_to_root_column_exprs(&self) -> (r: Vec<Option<String>>)
        ensures
            root_views(r@) == self@.roots(),
    {
        let mut out: Vec<Option<String>> = Vec::new();
        self.collect_roots(&mut out);
        assert(root_views(Seq::<Option<String>>::empty()) + self@.roots() =~= self@.roots());
        out
    }

    /// The name of the one column that the expression is made of, where it
    /// is made of exactly one.
    pub fn expr_to_root_column_name(&self) -> (r: Option<String>)
        ensures
            name_view(r) == self@.root_name(),
    {
        let mut roots = self.expr_to_root_column_exprs();
        if roots.len() == 1 {
            let ghost before = roots@;
            let root = roots.remove(0);
            assert(root_views(before)[0] == name_view(root));
            root
        } else {
            None
        }
    }

    /// The name under which the expression's column comes out.
    pub fn output_name(&self) -> (r: Option<String>)
        ensures
            name_view(r) == self@.output_name(),
        decreases self,
    {
        match self {
            Expr::Wildcard => None,
            Expr::Column(name) => Some(name.clone()),
            Expr::Literal(_) => None,
            Expr::Alias(_, alias) => Some(alias.clone()),
            Expr::Unary(_, e) => e.output_name(),
            Expr::Cast { expr, .. } => expr.output_name(),
            Expr::Sort { expr, .. } => expr.output_name(),
            Expr::Agg(_, e) => e.output_name(),
            Expr::Udf { input, .. } => input.output_name(),
            Expr::Shift { input, .. } => input.output_name(),
            Expr::Slice { input, .. } => input.output_name(),
            Expr::BinaryExpr { left, right, .. } => {
                let l = left.output_name();
                if l.is_some() {
                    l
                } else {
                    right.output_name()
                }
            },
            Expr::BinaryFunction { input_a, input_b, .. } => {
                let a = input_a.output_name();
                if a.is_some() {
                    a
                } else {
                    input_b.output_name()
                }
            },
            Expr::Ternary { predicate, truthy, falsy } => {
                let p = predicate.output_name();
                if p.is_some() {
                    p
                } else {
                    let t = truthy.output_name();
                    if t.is_some() {
                        t
                    } else {
                        falsy.output_name()
                    }
                }
            },
            Expr::Window { function, .. } => function.output_name(),
        }
    }

    /// The name and type of the column that the expression gives for a
    /// table of the given schema.
    pub fn to_field(&self, schema: &Schema, ctxt: Context) -> (r: Result<Field, PolarsError>)
        ensures
            field_view(r) == self@.field(schema@, ctxt),
        decreases self,
    {
        match self {
            Expr::Wildcard => Err(PolarsError::Invariant(owned("*"))),
            Expr::Column(name) => match schema.field_with_name(name.as_str()) {
                Ok(f) => Ok(f.duplicate()),
                Err(e) => Err(e),
            },
            Expr::Literal(v) => {
                let dtype = match v {
                    LiteralValue::Null => DataType::Null,
                    _ => v.get_datatype(),
                };
                Ok(Field::new("lit", dtype))
            },
            Expr::Alias(e, alias) => match e.to_field(schema, ctxt) {
                Ok(f) => Ok(Field::new(alias.as_str(), f.data_type)),
                Err(e) => Err(e),
            },
            Expr::Unary(op, e) => match op {
                UnaryOp::Not => Ok(Field::new("not", DataType::Boolean)),
                UnaryOp::IsNull => Ok(Field::new("is_null", DataType::Boolean)),
                UnaryOp::IsNotNull => Ok(Field::new("is_not_null", DataType::Boolean)),
                UnaryOp::Except => Err(PolarsError::Invariant(owned("except"))),
                UnaryOp::Unique | UnaryOp::Duplicated => match e.to_field(schema, ctxt) {
                    Ok(f) => Ok(Field { name: f.name, data_type: DataType::Boolean }),
                    Err(e) => Err(e),
                },
                _ => e.to_field(schema, ctxt),
            },
            Expr::Cast { expr, data_type } => match expr.to_field(schema, ctxt) {
                Ok(f) => Ok(Field { name: f.name, data_type: *data_type }),
                Err(e) => Err(e),
            },
            Expr::Sort { expr, .. } => expr.to_field(schema, ctxt),
            Expr::Agg(agg, e) => match e.to_field(schema, ctxt) {
                Ok(f) => {
                    let data_type = agg_type_of(*agg, f.data_type);
                    let mut name = f.name;
                    if ctxt == Context::Aggregation {
                        name.append(agg_suffix_str(*agg));
                    }
                    Ok(Field { name, data_type })
                },
                Err(e) => Err(e),
            },
            Expr::Udf { input, output_type, .. } => match input.to_field(schema, ctxt) {
                Ok(f) => {
                    let data_type = match output_type {
                        Some(t) => *t,
                        None => f.data_type,
                    };
                    Ok(Field { name: f.name, data_type })
                },
                Err(e) => Err(e),
            },
            Expr::Shift { input, .. } => input.to_field(schema, ctxt),
            Expr::Slice { input, .. } => input.to_field(schema, ctxt),
            Expr::BinaryExpr { left, op, right } => match left.to_field(schema, ctxt) {
                Ok(l) => match right.to_field(schema, ctxt) {
                    Ok(_) => {
                        let data_type = if op_is_predicate(*op) {
                            DataType::Boolean
                        } else {
                            l.data_type
                        };
                        Ok(Field { name: l.name, data_type })
                    },
                    Err(e) => Err(e),
                },
                Err(e) => Err(e),
            },
            Expr::BinaryFunction { input_a, output_type, .. } => match input_a.to_field(schema, ctxt) {
                Ok(f) => Ok(Field { name: f.name, data_type: *output_type }),
                Err(e) => Err(e),
            },
            Expr::Ternary { truthy, .. } => truthy.to_field(schema, ctxt),
            Expr::Window { function, .. } => function.to_field(schema, ctxt),
        }
    }
}

/// The views of a list of roots.
pub open spec fn root_views(roots: Seq<Option<String>>) -> Seq<Option<Seq<char>>> {
    Seq::new(roots.len(), |i: int| name_view(roots[i]))
}

/// Once a column is put in place of the wildcards, no wildcard is left.
pub proof fn lemma_replace_wildcard_leaves_none<U>(e: ExprView<U>, name: Seq<char>)
    ensures
        !e.replace_wildcard(name).has_wildcard(),
    decreases e,
{
    match e {
        ExprView::Wildcard => {},
        ExprView::Column(_) => {},
        ExprView::Literal(_) => {},
        ExprView::Alias(e1, _) => lemma_replace_wildcard_leaves_none(*e1, name),
        ExprView::Unary(_, e1) => lemma_replace_wildcard_leaves_none(*e1, name),
        ExprView::Cast { expr, .. } => lemma_replace_wildcard_leaves_none(*expr, name),
        ExprView::Sort { expr, .. } => lemma_replace_wildcard_leaves_none(*expr, name),
        ExprView::Agg(_, e1) => lemma_replace_wildcard_leaves_none(*e1, name),
        ExprView::Udf { input, .. } => lemma_replace_wildcard_leaves_none(*input, name),
        ExprView::Shift { input, .. } => lemma_replace_wildcard_leaves_none(*input, name),
        ExprView::Slice { input, .. } => lemma_replace_wildcard_leaves_none(*input, name),
        ExprView::BinaryExpr { left, right, .. } => {
            lemma_replace_wildcard_leaves_none(*left, name);
            lemma_replace_wildcard_leaves_none(*right, name);
        },
        ExprView::BinaryFunction { input_a, input_b, .. } => {
            lemma_replace_wildcard_leaves_none(*input_a, name);
            lemma_replace_wildcard_leaves_none(*input_b, name);
        },
        ExprView::Ternary { predicate, truthy, falsy } => {
            lemma_replace_wildcard_leaves_none(*predicate, name);
            lemma_replace_wildcard_leaves_none(*truthy, name);
            lemma_replace_wildcard_leaves_none(*falsy, name);
        },
        ExprView::Window { function, partition_by, order_by } => {
            lemma_replace_wildcard_leaves_none(*function, name);
            lemma_replace_wildcard_leaves_none(*partition_by, name);
            match order_by {
                Some(e1) => lemma_replace_wildcard_leaves_none(*e1, name),
                None => {},
            }
        },
    }
}

/// Puts the column `column_name` in place of every wildcard, in every
/// operand.
pub fn replace_wildcard_with_column<U>(expr: Expr<U>, column_name: &str) -> (r: Expr<U>)
    ensures
        r@ == expr@.replace_wildcard(column_name@),
    decreases expr,
{
    match expr {
        Expr::Window { function, partition_by, order_by } => Expr::Window {
            function: Box::new(replace_wildcard_with_column(*function, column_name)),
            partition_by: Box::new(replace_wildcard_with_column(*partition_by, column_name)),
            order_by: match order_by {
                Some(e) => Some(Box::new(replace_wildcard_with_column(*e, column_name))),
                None => None,
            },
        },
        Expr::Unary(op, e) => Expr::Unary(op, Box::new(replace_wildcard_with_column(*e, column_name))),
        Expr::Ternary { predicate, truthy, falsy } => Expr::Ternary {
            predicate: Box::new(replace_wildcard_with_column(*predicate, column_name)),
            truthy: Box::new(replace_wildcard_with_column(*truthy, column_name)),
            falsy: Box::new(replace_wildcard_with_column(*falsy, column_name)),
        },
        Expr::Udf { input, function, output_type } => Expr::Udf {
            input: Box::new(replace_wildcard_with_column(*input, column_name)),
            function,
            output_type,
        },
        Expr::BinaryFunction { input_a, input_b, function, output_type } => Expr::BinaryFunction {
            input_a: Box::new(replace_wildcard_with_column(*input_a, column_name)),
            input_b: Box::new(replace_wildcard_with_column(*input_b, column_name)),
            function,
            output_type,
        },
        Expr::BinaryExpr { left, op, right } => Expr::BinaryExpr {
            left: Box::new(replace_wildcard_with_column(*left, column_name)),
            op,
            right: Box::new(replace_wildcard_with_column(*right, column_name)),
        },
        Expr::Wildcard => Expr::Column(owned(column_name)),
        Expr::Alias(e, name) => Expr::Alias(Box::new(replace_wildcard_with_column(*e, column_name)), name),
        Expr::Agg(agg, e) => Expr::Agg(agg, Box::new(replace_wildcard_with_column(*e, column_name))),
        Expr::Shift { input, periods } => Expr::Shift {
            input: Box::new(replace_wildcard_with_column(*input, column_name)),
            periods,
        },
        Expr::Slice { input, offset, length } => Expr::Slice {
            input: Box::new(replace_wildcard_with_column(*input, column_name)),
            offset,
            length,
        },
        Expr::Sort { expr, reverse } => Expr::Sort {
            expr: Box::new(replace_wildcard_with_column(*expr, column_name)),
            reverse,
        },
        Expr::Cast { expr, data_type } => Expr::Cast {
            expr: Box::new(replace_wildcard_with_column(*expr, column_name)),
            data_type,
        },
        Expr::Column(name) => Expr::Column(name),
        Expr::Literal(v) => Expr::Literal(v),
    }
}

} // verus!
