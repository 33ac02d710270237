//! Renders plans and expressions as text, for people who debug queries:
//! a nested description, and a graph in the DOT language.

use vstd::prelude::*;

use crate::datatypes::DataType;
use crate::expr::{AggKind, Expr, ExprView, LiteralValue, LiteralView, Operator, UnaryOp};
use crate::logical_plan::{LogicalPlan, string_views, expr_views};

verus! {

/// `String::push`: the text with one more character at its end.
#[verifier::external_body]
pub(crate) fn push_char(out: &mut String, c: char)
    ensures
        final(out)@ == old(out)@.push(c),
{
    out.push(c);
}

/// The digit `d` as text.
pub open spec fn digit_text(d: int) -> Seq<char> {
    if d == 0 {
        "0"@
    } else if d == 1 {
        "1"@
    } else if d == 2 {
        "2"@
    } else if d == 3 {
        "3"@
    } else if d == 4 {
        "4"@
    } else if d == 5 {
        "5"@
    } else if d == 6 {
        "6"@
    } else if d == 7 {
        "7"@
    } else if d == 8 {
        "8"@
    } else {
        "9"@
    }
}

/// The decimal digits of a natural number.
pub open spec fn nat_text(n: nat) -> Seq<char>
    decreases n,
{
    if n < 10 {
        digit_text(n as int)
    } else {
        nat_text(n / 10) + digit_text((n % 10) as int)
    }
}

/// The decimal form of an integer.
pub open spec fn int_text(n: int) -> Seq<char> {
    if n < 0 {
        "-"@ + nat_text((-n) as nat)
    } else {
        nat_text(n as nat)
    }
}

fn digit_str(d: u128) -> (r: &'static str)
    requires
        d < 10,
    ensures
        r@ == digit_text(d as int),
{
    if d == 0 {
        "0"
    } else if d == 1 {
        "1"
    } else if d == 2 {
        "2"
    } else if d == 3 {
        "3"
    } else if d == 4 {
        "4"
    } else if d == 5 {
        "5"
    } else if d == 6 {
        "6"
    } else if d == 7 {
        "7"
    } else if d == 8 {
        "8"
    } else {
        "9"
    }
}

/// Appends the decimal digits of `n`.
pub fn push_nat(out: &mut String, n: u128)
    ensures
        final(out)@ == old(out)@ + nat_text(n as nat),
    decreases n,
{
    if n < 10 {
        out.append(digit_str(n));
    } else {
        push_nat(out, n / 10);
        out.append(digit_str(n % 10));
        assert(out@ =~= old(out)@ + nat_text(n as nat));
    }
}

/// Appends the decimal form of `n`.
pub fn push_int(out: &mut String, n: i128)
    requires
        n > i128::MIN,
    ensures
        final(out)@ == old(out)@ + int_text(n as int),
{
    if n < 0 {
        out.append("-");
        push_nat(out, (-n) as u128);
        assert(out@ =~= old(out)@ + int_text(n as int));
    } else {
        push_nat(out, n as u128);
    }
}

/// The name of a logical type.
pub open spec fn dtype_text(d: DataType) -> Seq<char> {
    match d {
        DataType::Boolean => "Boolean"@,
        DataType::UInt8 => "UInt8"@,
        DataType::UInt16 => "UInt16"@,
        DataType::UInt32 => "UInt32"@,
        DataType::UInt64 => "UInt64"@,
        DataType::Int8 => "Int8"@,
        DataType::Int16 => "Int16"@,
        DataType::Int32 => "Int32"@,
        DataType::Int64 => "Int64"@,
        DataType::Float32 => "Float32"@,
        DataType::Float64 => "Float64"@,
        DataType::Utf8 => "Utf8"@,
        DataType::List => "List"@,
        DataType::Categorical => "Categorical"@,
        DataType::Null => "Null"@,
    }
}

pub fn dtype_str(d: DataType) -> (r: &'static str)
    ensures
        r@ == dtype_text(d),
{
    match d {
        DataType::Boolean => "Boolean",
        DataType::UInt8 => "UInt8",
        DataType::UInt16 => "UInt16",
        DataType::UInt32 => "UInt32",
        DataType::UInt64 => "UInt64",
        DataType::Int8 => "Int8",
        DataType::Int16 => "Int16",
        DataType::Int32 => "Int32",
        DataType::Int64 => "Int64",
        DataType::Float32 => "Float32",
        DataType::Float64 => "Float64",
        DataType::Utf8 => "Utf8",
        DataType::List => "List",
        DataType::Categorical => "Categorical",
        DataType::Null => "Null",
    }
}

/// The name of an operator.
pub open spec fn op_text(op: Operator) -> Seq<char> {
    match op {
        Operator::Eq => "Eq"@,
        Operator::NotEq => "NotEq"@,
        Operator::Lt => "Lt"@,
        Operator::LtEq => "LtEq"@,
        Operator::Gt => "Gt"@,
        Operator::GtEq => "GtEq"@,
        Operator::Plus => "Plus"@,
        Operator::Minus => "Minus"@,
        Operator::Multiply => "Multiply"@,
        Operator::Divide => "Divide"@,
        Operator::Modulus => "Modulus"@,
        Operator::And => "And"@,
        Operator::Or => "Or"@,
        Operator::Not => "Not"@,
        Operator::Like => "Like"@,
        Operator::NotLike => "NotLike"@,
    }
}

pub fn op_str(op: Operator) -> (r: &'static str)
    ensures
        r@ == op_text(op),
{
    match op {
        Operator::Eq => "Eq",
        Operator::NotEq => "NotEq",
        Operator::Lt => "Lt",
        Operator::LtEq => "LtEq",
        Operator::Gt => "Gt",
        Operator::GtEq => "GtEq",
        Operator::Plus => "Plus",
        Operator::Minus => "Minus",
        Operator::Multiply => "Multiply",
        Operator::Divide => "Divide",
        Operator::Modulus => "Modulus",
        Operator::And => "And",
        Operator::Or => "Or",
        Operator::Not => "Not",
        Operator::Like => "Like",
        Operator::NotLike => "NotLike",
    }
}

/// How an aggregation is announced.
pub open spec fn agg_text(agg: AggKind) -> Seq<char> {
    match agg {
        AggKind::Min => "AGG MIN "@,
        AggKind::Max => "AGG MAX "@,
        AggKind::Median => "AGG MEDIAN "@,
        AggKind::NUnique => "AGG N UNIQUE "@,
        AggKind::First => "AGG FIRST "@,
        AggKind::Last => "AGG LAST "@,
        AggKind::Mean => "AGG MEAN "@,
        AggKind::List => "AGG LIST "@,
        AggKind::Count => "AGG COUNT "@,
        AggKind::Quantile(_) => "AGG QUANTILE "@,
        AggKind::Sum => "AGG SUM "@,
        AggKind::AggGroups => "AGG GROUPS "@,
        AggKind::Std => "AGG STD "@,
        AggKind::Var => "AGG VAR "@,
    }
}

pub fn agg_str(agg: AggKind) -> (r: &'static str)
    ensures
        r@ == agg_text(agg),
{
    match agg {
        AggKind::Min => "AGG MIN ",
        AggKind::Max => "AGG MAX ",
        AggKind::Median => "AGG MEDIAN ",
        AggKind::NUnique => "AGG N UNIQUE ",
        AggKind::First => "AGG FIRST ",
        AggKind::Last => "AGG LAST ",
        AggKind::Mean => "AGG MEAN ",
        AggKind::List => "AGG LIST ",
        AggKind::Count => "AGG COUNT ",
        AggKind::Quantile(_) => "AGG QUANTILE ",
        AggKind::Sum => "AGG SUM ",
        AggKind::AggGroups => "AGG GROUPS ",
        AggKind::Std => "AGG STD ",
        AggKind::Var => "AGG VAR ",
    }
}

/// What stands before the operand of a unary operation.
pub open spec fn unary_prefix(op: UnaryOp) -> Seq<char> {
    match op {
        UnaryOp::Not => "NOT "@,
        UnaryOp::IsNull => ""@,
        UnaryOp::IsNotNull => ""@,
        UnaryOp::Reverse => "REVERSE "@,
        UnaryOp::Duplicated => "DUPLICATED "@,
        UnaryOp::Unique => "UNIQUE "@,
        UnaryOp::Explode => "EXPLODE "@,
        UnaryOp::Except => "EXCEPT "@,
    }
}

/// What stands behind the operand of a unary operation.
pub open spec fn unary_suffix(op: UnaryOp) -> Seq<char> {
    match op {
        UnaryOp::IsNull => " IS NULL"@,
        UnaryOp::IsNotNull => " IS NOT NULL"@,
        _ => ""@,
    }
}

pub fn unary_prefix_str(op: UnaryOp) -> (r: &'static str)
    ensures
        r@ == unary_prefix(op),
{
    match op {
        UnaryOp::Not => "NOT ",
        UnaryOp::IsNull => "",
        UnaryOp::IsNotNull => "",
        UnaryOp::Reverse => "REVERSE ",
        UnaryOp::Duplicated => "DUPLICATED ",
        UnaryOp::Unique => "UNIQUE ",
        UnaryOp::Explode => "EXPLODE ",
        UnaryOp::Except => "EXCEPT ",
    }
}

pub fn unary_suffix_str(op: UnaryOp) -> (r: &'static str)
    ensures
        r@ == unary_suffix(op),
{
    match op {
        UnaryOp::IsNull => " IS NULL",
        UnaryOp::IsNotNull => " IS NOT NULL",
        _ => "",
    }
}

/// The text of a literal: its kind, and its value in brackets. A float is
/// shown by its bits.
pub open spec fn literal_text(v: LiteralView) -> Seq<char> {
    match v {
        LiteralView::Null => "Null"@,
        LiteralView::Boolean(b) => if b {
            "Boolean(true)"@
        } else {
            "Boolean(false)"@
        },
        LiteralView::Utf8(s) => "Utf8(\""@ + s + "\")"@,
        LiteralView::Num(d, n) => dtype_text(d) + "("@ + int_text(n) + ")"@,
        LiteralView::Range { low, high, data_type } => "Range { low: "@ + int_text(low as int) + ", high: "@ + int_text(
            high as int,
        ) + ", data_type: "@ + dtype_text(data_type) + " }"@,
    }
}

fn push_num_literal(out: &mut String, d: DataType, n: i128)
    requires
        n > i128::MIN,
    ensures
        final(out)@ == old(out)@ + (dtype_text(d) + "("@ + int_text(n as int) + ")"@),
{
    out.append(dtype_str(d));
    out.append("(");
    push_int(out, n);
    out.append(")");
    assert(out@ =~= old(out)@ + (dtype_text(d) + "("@ + int_text(n as int) + ")"@));
}

/// Appends the text of a literal.
pub fn push_literal(out: &mut String, v: &LiteralValue)
    ensures
        final(out)@ == old(out)@ + literal_text(v@),
{
    match v {
        LiteralValue::Null => out.append("Null"),
        LiteralValue::Boolean(b) => if *b {
            out.append("Boolean(true)")
        } else {
            out.append("Boolean(false)")
        },
        LiteralValue::Utf8(s) => {
            out.append("Utf8(\"");
            out.append(s.as_str());
            out.append("\")");
            assert(out@ =~= old(out)@ + literal_text(v@));
        },
        LiteralValue::UInt8(x) => push_num_literal(out, DataType::UInt8, *x as i128),
        LiteralValue::UInt16(x) => push_num_literal(out, DataType::UInt16, *x as i128),
        LiteralValue::UInt32(x) => push_num_literal(out, DataType::UInt32, *x as i128),
        LiteralValue::UInt64(x) => push_num_literal(out, DataType::UInt64, *x as i128),
        LiteralValue::Int8(x) => push_num_literal(out, DataType::Int8, *x as i128),
        LiteralValue::Int16(x) => push_num_literal(out, DataType::Int16, *x as i128),
        LiteralValue::Int32(x) => push_num_literal(out, DataType::Int32, *x as i128),
        LiteralValue::Int64(x) => push_num_literal(out, DataType::Int64, *x as i128),
        LiteralValue::Float32(x) => push_num_literal(out, DataType::Float32, *x as i128),
        LiteralValue::Float64(x) => push_num_literal(out, DataType::Float64, *x as i128),
        LiteralValue::Range { low, high, data_type } => {
            out.append("Range { low: ");
            push_int(out, *low as i128);
            out.append(", high: ");
            push_int(out, *high as i128);
            out.append(", data_type: ");
            out.append(dtype_str(*data_type));
            out.append(" }");
            assert(out@ =~= old(out)@ + literal_text(v@));
        },
    }
}

/// The text `acc` with the text of the expression behind it.
pub open spec fn write_expr<U>(e: ExprView<U>, acc: Seq<char>) -> Seq<char>
    decreases e,
{
    match e {
        ExprView::Alias(e, name) => write_expr(*e, acc) + " AS "@ + name,
        ExprView::Column(name) => acc + name,
        ExprView::Literal(v) => acc + literal_text(v),
        ExprView::BinaryExpr { left, op, right } => write_expr(
            *right,
            write_expr(*left, acc + "[("@) + ") "@ + op_text(op) + " ("@,
        ) + ")]"@,
        ExprView::Unary(op, e) => write_expr(*e, acc + unary_prefix(op)) + unary_suffix(op),
        ExprView::Cast { expr, data_type } => write_expr(*expr, acc + "CAST "@) + " TO "@ + dtype_text(data_type),
        ExprView::Sort { expr, reverse } => write_expr(*expr, acc) + if reverse {
            " DESC"@
        } else {
            " ASC"@
        },
        ExprView::Agg(agg, e) => write_expr(*e, acc + agg_text(agg)),
        ExprView::Ternary { predicate, truthy, falsy } => write_expr(
            *falsy,
            write_expr(*truthy, write_expr(*predicate, acc + "\nWHEN "@) + "\n\t"@) + "\nOTHERWISE\n\t"@,
        ),
        ExprView::Udf { input, .. } => write_expr(*input, acc + "APPLY("@) + ")"@,
        ExprView::Shift { input, periods } => write_expr(*input, acc + "SHIFT "@) + " by "@ + int_text(periods as int),
        ExprView::Window { function, partition_by, order_by } => {
            let head = write_expr(*partition_by, write_expr(*function, acc) + " OVER (PARTITION BY "@) + " ORDER BY "@;
            match order_by {
                Some(e) => write_expr(*e, head + "Some("@) + "))"@,
                None => head + "None)"@,
            }
        },
        ExprView::Wildcard => acc + "*"@,
        ExprView::Slice { input, offset, length } => write_expr(*input, acc + "SLICE "@) + " offset: "@ + int_text(
            offset as int,
        ) + " len: "@ + int_text(length as int),
        ExprView::BinaryFunction { input_a, input_b, .. } => write_expr(
            *input_b,
            write_expr(*input_a, acc + "BinaryFunction("@) + ", "@,
        ) + ")"@,
    }
}

/// The text of an expression.
pub open spec fn expr_text<U>(e: ExprView<U>) -> Seq<char> {
    write_expr(e, Seq::empty())
}

/// Writing an expression behind a text puts the expression's own text
/// behind it: what stands before does not change what is written.
#[verifier::rlimit(60)]
#[verifier::spinoff_prover]
pub proof fn lemma_write_expr<U>(e: ExprView<U>, acc: Seq<char>)
    ensures
        write_expr(e, acc) == acc + expr_text(e),
    decreases e,
{
    let none = Seq::<char>::empty();
    match e {
        ExprView::Alias(e1, name) => {
            lemma_write_expr(*e1, acc);
            assert(write_expr(e, acc) =~= acc + expr_text(e));
        },
        ExprView::Column(name) => {
            assert(write_expr(e, acc) =~= acc + expr_text(e));
        },
        ExprView::Literal(v) => {
            assert(write_expr(e, acc) =~= acc + expr_text(e));
        },
        ExprView::BinaryExpr { left, op, right } => {
            lemma_write_expr(*left, acc + "[("@);
            lemma_write_expr(*left, none + "[("@);
            lemma_write_expr(*right, write_expr(*left, acc + "[("@) + ") "@ + op_text(op) + " ("@);
            lemma_write_expr(*right, write_expr(*left, none + "[("@) + ") "@ + op_text(op) + " ("@);
            assert(write_expr(e, acc) =~= acc + expr_text(e));
        },
        ExprView::Unary(op, e1) => {
            lemma_write_expr(*e1, acc + unary_prefix(op));
            lemma_write_expr(*e1, none + unary_prefix(op));
            assert(write_expr(e, acc) =~= acc + expr_text(e));
        },
        ExprView::Cast { expr, data_type } => {
            lemma_write_expr(*expr, acc + "CAST "@);
            lemma_write_expr(*expr, none + "CAST "@);
            assert(write_expr(e, acc) =~= acc + expr_text(e));
        },
        ExprView::Sort { expr, reverse } => {
            lemma_write_expr(*expr, acc);
            assert(write_expr(e, acc) =~= acc + expr_text(e));
        },
        ExprView::Agg(agg, e1) => {
            lemma_write_expr(*e1, acc + agg_text(agg));
            lemma_write_expr(*e1, none + agg_text(agg));
            assert(write_expr(e, acc) =~= acc + expr_text(e));
        },
        ExprView::Ternary { predicate, truthy, falsy } => {
            lemma_write_expr(*predicate, acc + "\nWHEN "@);
            lemma_write_expr(*predicate, none + "\nWHEN "@);
            let a1 = write_expr(*predicate, acc + "\nWHEN "@) + "\n\t"@;
            let n1 = write_expr(*predicate, none + "\nWHEN "@) + "\n\t"@;
            lemma_write_expr(*truthy, a1);
            lemma_write_expr(*truthy, n1);
            lemma_write_expr(*falsy, write_expr(*truthy, a1) + "\nOTHERWISE\n\t"@);
            lemma_write_expr(*falsy, write_expr(*truthy, n1) + "\nOTHERWISE\n\t"@);
            assert(write_expr(e, acc) =~= acc + expr_text(e));
        },
        ExprView::Udf { input, .. } => {
            lemma_write_expr(*input, acc + "APPLY("@);
            lemma_write_expr(*input, none + "APPLY("@);
            assert(write_expr(e, acc) =~= acc + expr_text(e));
        },
        ExprView::Shift { input, periods } => {
            lemma_write_expr(*input, acc + "SHIFT "@);
            lemma_write_expr(*input, none + "SHIFT "@);
            assert(write_expr(e, acc) =~= acc + expr_text(e));
        },
        ExprView::Window { function, partition_by, order_by } => {
            lemma_write_expr(*function, acc);
            let a1 = write_expr(*function, acc) + " OVER (PARTITION BY "@;
            let n1 = write_expr(*function, none) + " OVER (PARTITION BY "@;
            lemma_write_expr(*partition_by, a1);
            lemma_write_expr(*partition_by, n1);
            match order_by {
                Some(o) => {
                    lemma_write_expr(*o, write_expr(*partition_by, a1) + " ORDER BY "@ + "Some("@);
                    lemma_write_expr(*o, write_expr(*partition_by, n1) + " ORDER BY "@ + "Some("@);
                },
                None => {},
            }
            assert(write_expr(e, acc) =~= acc + expr_text(e));
        },
        ExprView::Wildcard => {
            assert(write_expr(e, acc) =~= acc + expr_text(e));
        },
        ExprView::Slice { input, offset, length } => {
            lemma_write_expr(*input, acc + "SLICE "@);
            lemma_write_expr(*input, none + "SLICE "@);
            assert(write_expr(e, acc) =~= acc + expr_text(e));
        },
        ExprView::BinaryFunction { input_a, input_b, .. } => {
            lemma_write_expr(*input_a, acc + "BinaryFunction("@);
            lemma_write_expr(*input_a, none + "BinaryFunction("@);
            lemma_write_expr(*input_b, write_expr(*input_a, acc + "BinaryFunction("@) + ", "@);
            lemma_write_expr(*input_b, write_expr(*input_a, none + "BinaryFunction("@) + ", "@);
            assert(write_expr(e, acc) =~= acc + expr_text(e));
        },
    }
}

impl<U> Expr<U> {
    /// Appends the text of the expression.
    pub fn write_debug(&self, out: &mut String)
        ensures
            final(out)@ == write_expr(self@, old(out)@),
        decreases self,
    {
        match self {
            Expr::Alias(e, name) => {
                e.write_debug(out);
                out.append(" AS ");
                out.append(name.as_str());
            },
            Expr::Column(name) => out.append(name.as_str()),
            Expr::Literal(v) => push_literal(out, v),
            Expr::BinaryExpr { left, op, right } => {
                out.append("[(");
                left.write_debug(out);
                out.append(") ");
                out.append(op_str(*op));
                out.append(" (");
                right.write_debug(out);
                out.append(")]");
            },
            Expr::Unary(op, e) => {
                out.append(unary_prefix_str(*op));
                e.write_debug(out);
                out.append(unary_suffix_str(*op));
            },
            Expr::Cast { expr, data_type } => {
                out.append("CAST ");
                expr.write_debug(out);
                out.append(" TO ");
                out.append(dtype_str(*data_type));
            },
            Expr::Sort { expr, reverse } => {
                expr.write_debug(out);
                if *reverse {
                    out.append(" DESC");
                } else {
                    out.append(" ASC");
                }
            },
            Expr::Agg(agg, e) => {
                out.append(agg_str(*agg));
                e.write_debug(out);
            },
            Expr::Ternary { predicate, truthy, falsy } => {
                out.append("\nWHEN ");
                predicate.write_debug(out);
                out.append("\n\t");
                truthy.write_debug(out);
                out.append("\nOTHERWISE\n\t");
                falsy.write_debug(out);
            },
            Expr::Udf { input, .. } => {
                out.append("APPLY(");
                input.write_debug(out);
                out.append(")");
            },
            Expr::Shift { input, periods } => {
                out.append("SHIFT ");
                input.write_debug(out);
                out.append(" by ");
                push_int(out, *periods as i128);
            },
            Expr::Window { function, partition_by, order_by } => {
                function.write_debug(out);
                out.append(" OVER (PARTITION BY ");
                partition_by.write_debug(out);
                out.append(" ORDER BY ");
                match order_by {
                    Some(e) => {
                        out.append("Some(");
                        e.write_debug(out);
                        out.append("))");
                    },
                    None => out.append("None)"),
                }
            },
            Expr::Wildcard => out.append("*"),
            Expr::Slice { input, offset, length } => {
                out.append("SLICE ");
                input.write_debug(out);
                out.append(" offset: ");
                push_int(out, *offset as i128);
                out.append(" len: ");
                push_int(out, *length as i128);
            },
            Expr::BinaryFunction { input_a, input_b, .. } => {
                out.append("BinaryFunction(");
                input_a.write_debug(out);
                out.append(", ");
                input_b.write_debug(out);
                out.append(")");
            },
        }
    }

    /// The text of the expression.
    pub fn fmt_debug(&self) -> (r: String)
        ensures
            r@ == expr_text(self@),
    {
        let mut out = String::new();
        self.write_debug(&mut out);
        out
    }
}

/// The text `acc` with the first `n` of the expressions behind it, a comma
/// between each two.
pub open spec fn write_exprs_upto<U>(exprs: Seq<ExprView<U>>, n: int, acc: Seq<char>) -> Seq<char>
    decreases n,
{
    if n <= 0 {
        acc
    } else if n == 1 {
        write_expr(exprs[0], acc)
    } else {
        write_expr(exprs[n - 1], write_exprs_upto(exprs, n - 1, acc) + ", "@)
    }
}

/// The text `acc` with the list of the expressions behind it, in square
/// brackets.
pub open spec fn write_exprs<U>(exprs: Seq<ExprView<U>>, acc: Seq<char>) -> Seq<char> {
    write_exprs_upto(exprs, exprs.len() as int, acc + "["@) + "]"@
}

/// The text `acc` with the first `n` of the names behind it, each in
/// quotes, a comma between each two.
pub open spec fn write_names_upto(names: Seq<Seq<char>>, n: int, acc: Seq<char>) -> Seq<char>
    decreases n,
{
    if n <= 0 {
        acc
    } else if n == 1 {
        acc + "\""@ + names[0] + "\""@
    } else {
        write_names_upto(names, n - 1, acc) + ", "@ + "\""@ + names[n - 1] + "\""@
    }
}

/// The text `acc` with the list of the first `n` names behind it, in
/// square brackets.
pub open spec fn write_names(names: Seq<Seq<char>>, n: int, acc: Seq<char>) -> Seq<char> {
    write_names_upto(names, n, acc + "["@) + "]"@
}

/// The text `acc` with an expression that may be absent behind it.
pub open spec fn write_opt_expr<U>(e: Option<Expr<U>>, acc: Seq<char>) -> Seq<char> {
    match e {
        Some(e) => write_expr(e@, acc + "Some("@) + ")"@,
        None => acc + "None"@,
    }
}

/// How many columns are chosen: their number, or a star for all.
pub open spec fn chosen_text(n: Option<int>) -> Seq<char> {
    match n {
        Some(n) => nat_text(n as nat),
        None => "*"@,
    }
}

/// The length of a list that may be absent.
pub open spec fn opt_len<T>(v: Option<Vec<T>>) -> Option<int> {
    match v {
        Some(v) => Some(v@.len() as int),
        None => None,
    }
}

/// The smaller of two numbers.
pub open spec fn at_most(n: int, cap: int) -> int {
    if n < cap {
        n
    } else {
        cap
    }
}

/// The names of the fields of a schema.
pub open spec fn names_of_schema(schema: Seq<(Seq<char>, DataType)>) -> Seq<Seq<char>> {
    Seq::new(schema.len(), |i: int| schema[i].0)
}

/// The text `acc` with the description of the plan behind it: every node
/// says what it does and then describes its input.
pub open spec fn write_plan<U, F>(p: LogicalPlan<U, F>, acc: Seq<char>) -> Seq<char>
    decreases p,
{
    match p {
        LogicalPlan::Cache { input } => write_plan(*input, acc + "CACHE "@),
        LogicalPlan::ParquetScan { path, schema, with_columns, predicate, .. } => write_opt_expr(
            predicate,
            acc + "PARQUET SCAN "@ + path@ + "; PROJECT "@ + chosen_text(opt_len(with_columns)) + "/"@ + nat_text(
                schema@.len(),
            ) + " COLUMNS; SELECTION: "@,
        ),
        LogicalPlan::Selection { predicate, input } => write_plan(
            *input,
            write_expr(predicate@, acc + "FILTER\n\t"@) + "\nFROM\n\t"@,
        ),
        LogicalPlan::Melt { input, .. } => write_plan(*input, acc + "MELT\n\t"@),
        LogicalPlan::CsvScan { path, with_columns, schema, predicate, .. } => write_opt_expr(
            predicate,
            acc + "CSV SCAN "@ + path@ + "; PROJECT "@ + chosen_text(opt_len(with_columns)) + "/"@ + nat_text(
                schema@.len(),
            ) + " COLUMNS; SELECTION: "@,
        ),
        LogicalPlan::DataFrameScan { schema, projection, selection, .. } => write_opt_expr(
            selection,
            write_names(names_of_schema(schema@), at_most(schema@.len() as int, 4), acc + "TABLE: "@) + "; PROJECT "@
                + chosen_text(opt_len(projection)) + "/"@ + nat_text(schema@.len()) + " COLUMNS; SELECTION: "@,
        ),
        LogicalPlan::Projection { expr, input, .. } => write_plan(
            *input,
            acc + "SELECT "@ + nat_text(expr@.len()) + " COLUMNS \nFROM\n"@,
        ),
        LogicalPlan::LocalProjection { expr, input, .. } => write_plan(
            *input,
            acc + "LOCAL SELECT "@ + nat_text(expr@.len()) + " COLUMNS \nFROM\n"@,
        ),
        LogicalPlan::Sort { input, by_column, .. } => write_plan(*input, acc + "SORT "@) + " BY COLUMN "@ + by_column@,
        LogicalPlan::Explode { input, columns } => write_plan(
            *input,
            write_names(string_views(columns@), columns@.len() as int, acc + "EXPLODE COLUMN(S) "@) + " OF "@,
        ),
        LogicalPlan::Aggregate { input, keys, aggs, .. } => write_plan(
            *input,
            write_exprs(expr_views(keys@), write_exprs(expr_views(aggs@), acc + "Aggregate\n\t"@) + " BY "@) + " FROM "@,
        ),
        LogicalPlan::Join { input_left, input_right, left_on, right_on, .. } => write_exprs(
            expr_views(right_on@),
            write_exprs(
                expr_views(left_on@),
                write_plan(*input_right, write_plan(*input_left, acc + "JOIN\n\t("@) + ")\nWITH\n\t("@)
                    + ")\nON (left: "@,
            ) + " right: "@,
        ) + ")"@,
        LogicalPlan::HStack { input, exprs, .. } => write_exprs(
            expr_views(exprs@),
            write_plan(*input, acc + "STACK ["@) + "\n\tWITH COLUMN(S)\n"@,
        ) + "\n]"@,
        LogicalPlan::Distinct { input, .. } => write_plan(*input, acc + "DISTINCT "@),
        LogicalPlan::Slice { input, offset, len } => write_plan(*input, acc + "SLICE "@) + ", offset: "@ + nat_text(
            offset as nat,
        ) + ", len: "@ + nat_text(len as nat),
        LogicalPlan::Udf { input, .. } => write_plan(*input, acc + "UDF "@),
    }
}

/// The text of a plan.
pub open spec fn plan_text<U, F>(p: LogicalPlan<U, F>) -> Seq<char> {
    write_plan(p, Seq::empty())
}

/// Writing expressions behind a text puts their own text behind it.
pub proof fn lemma_write_exprs_upto<U>(exprs: Seq<ExprView<U>>, n: int, acc: Seq<char>)
    ensures
        write_exprs_upto(exprs, n, acc) == acc + write_exprs_upto(exprs, n, Seq::empty()),
    decreases n,
{
    let none = Seq::<char>::empty();
    if n <= 0 {
        assert(acc =~= acc + none);
    } else if n == 1 {
        lemma_write_expr(exprs[0], acc);
        lemma_write_expr(exprs[0], none);
        assert(write_exprs_upto(exprs, n, acc) =~= acc + write_exprs_upto(exprs, n, none));
    } else {
        lemma_write_exprs_upto(exprs, n - 1, acc);
        lemma_write_expr(exprs[n - 1], write_exprs_upto(exprs, n - 1, acc) + ", "@);
        lemma_write_expr(exprs[n - 1], write_exprs_upto(exprs, n - 1, none) + ", "@);
        assert(write_exprs_upto(exprs, n, acc) =~= acc + write_exprs_upto(exprs, n, none));
    }
}

/// Writing a list of expressions behind a text puts the list's own text
/// behind it.
pub proof fn lemma_write_exprs<U>(exprs: Seq<ExprView<U>>, acc: Seq<char>)
    ensures
        write_exprs(exprs, acc) == acc + write_exprs(exprs, Seq::empty()),
{
    let none = Seq::<char>::empty();
    lemma_write_exprs_upto(exprs, exprs.len() as int, acc + "["@);
    lemma_write_exprs_upto(exprs, exprs.len() as int, none + "["@);
    assert(write_exprs(exprs, acc) =~= acc + write_exprs(exprs, none));
}

/// Writing names behind a text puts their own text behind it.
pub proof fn lemma_write_names_upto(names: Seq<Seq<char>>, n: int, acc: Seq<char>)
    ensures
        write_names_upto(names, n, acc) == acc + write_names_upto(names, n, Seq::empty()),
    decreases n,
{
    let none = Seq::<char>::empty();
    if n <= 0 {
        assert(acc =~= acc + none);
    } else if n == 1 {
        assert(write_names_upto(names, n, acc) =~= acc + write_names_upto(names, n, none));
    } else {
        lemma_write_names_upto(names, n - 1, acc);
        assert(write_names_upto(names, n, acc) =~= acc + write_names_upto(names, n, none));
    }
}

/// Writing a list of names behind a text puts the list's own text behind
/// it.
pub proof fn lemma_write_names(names: Seq<Seq<char>>, n: int, acc: Seq<char>)
    ensures
        write_names(names, n, acc) == acc + write_names(names, n, Seq::empty()),
{
    let none = Seq::<char>::empty();
    lemma_write_names_upto(names, n, acc + "["@);
    lemma_write_names_upto(names, n, none + "["@);
    assert(write_names(names, n, acc) =~= acc + write_names(names, n, none));
}

/// Writing an expression that may be absent behind a text puts its own text
/// behind it.
pub proof fn lemma_write_opt_expr<U>(e: Option<Expr<U>>, acc: Seq<char>)
    ensures
        write_opt_expr(e, acc) == acc + write_opt_expr(e, Seq::empty()),
{
    let none = Seq::<char>::empty();
    match e {
        Some(e1) => {
            lemma_write_expr(e1@, acc + "Some("@);
            lemma_write_expr(e1@, none + "Some("@);
        },
        None => {},
    }
    assert(write_opt_expr(e, acc) =~= acc + write_opt_expr(e, none));
}

/// Writing a plan behind a text puts the plan's own text behind it: what
/// stands before does not change what is written.
#[verifier::rlimit(60)]
#[verifier::spinoff_prover]
pub proof fn lemma_write_plan<U, F>(p: LogicalPlan<U, F>, acc: Seq<char>)
    ensures
        write_plan(p, acc) == acc + plan_text(p),
    decreases p,
{
    let none = Seq::<char>::empty();
    match p {
        LogicalPlan::Cache { input } => {
            lemma_write_plan(*input, acc + "CACHE "@);
            lemma_write_plan(*input, none + "CACHE "@);
        },
        LogicalPlan::ParquetScan { path, schema, with_columns, predicate, .. } => {
            let head = "PARQUET SCAN "@ + path@ + "; PROJECT "@ + chosen_text(opt_len(with_columns)) + "/"@ + nat_text(
                schema@.len(),
            ) + " COLUMNS; SELECTION: "@;
            let a1 = acc + "PARQUET SCAN "@ + path@ + "; PROJECT "@ + chosen_text(opt_len(with_columns)) + "/"@
                + nat_text(schema@.len()) + " COLUMNS; SELECTION: "@;
            let n1 = none + "PARQUET SCAN "@ + path@ + "; PROJECT "@ + chosen_text(opt_len(with_columns)) + "/"@
                + nat_text(schema@.len()) + " COLUMNS; SELECTION: "@;
            assert(a1 =~= acc + head);
            assert(n1 =~= head);
            lemma_write_opt_expr(predicate, a1);
            lemma_write_opt_expr(predicate, n1);
        },
        LogicalPlan::Selection { predicate, input } => {
            lemma_write_expr(predicate@, acc + "FILTER\n\t"@);
            lemma_write_expr(predicate@, none + "FILTER\n\t"@);
            lemma_write_plan(*input, write_expr(predicate@, acc + "FILTER\n\t"@) + "\nFROM\n\t"@);
            lemma_write_plan(*input, write_expr(predicate@, none + "FILTER\n\t"@) + "\nFROM\n\t"@);
        },
        LogicalPlan::Melt { input, .. } => {
            lemma_write_plan(*input, acc + "MELT\n\t"@);
            lemma_write_plan(*input, none + "MELT\n\t"@);
        },
        LogicalPlan::CsvScan { path, with_columns, schema, predicate, .. } => {
            let head = "CSV SCAN "@ + path@ + "; PROJECT "@ + chosen_text(opt_len(with_columns)) + "/"@ + nat_text(
                schema@.len(),
            ) + " COLUMNS; SELECTION: "@;
            let a1 = acc + "CSV SCAN "@ + path@ + "; PROJECT "@ + chosen_text(opt_len(with_columns)) + "/"@ + nat_text(
                schema@.len(),
            ) + " COLUMNS; SELECTION: "@;
            let n1 = none + "CSV SCAN "@ + path@ + "; PROJECT "@ + chosen_text(opt_len(with_columns)) + "/"@ + nat_text(
                schema@.len(),
            ) + " COLUMNS; SELECTION: "@;
            assert(a1 =~= acc + head);
            assert(n1 =~= head);
            lemma_write_opt_expr(predicate, a1);
            lemma_write_opt_expr(predicate, n1);
        },
        LogicalPlan::DataFrameScan { schema, projection, selection, .. } => {
            let names = names_of_schema(schema@);
            let shown = at_most(schema@.len() as int, 4);
            lemma_write_names(names, shown, acc + "TABLE: "@);
            lemma_write_names(names, shown, none + "TABLE: "@);
            let tail = "; PROJECT "@ + chosen_text(opt_len(projection)) + "/"@ + nat_text(schema@.len())
                + " COLUMNS; SELECTION: "@;
            let a1 = write_names(names, shown, acc + "TABLE: "@) + "; PROJECT "@ + chosen_text(opt_len(projection))
                + "/"@ + nat_text(schema@.len()) + " COLUMNS; SELECTION: "@;
            let n1 = write_names(names, shown, none + "TABLE: "@) + "; PROJECT "@ + chosen_text(opt_len(projection))
                + "/"@ + nat_text(schema@.len()) + " COLUMNS; SELECTION: "@;
            assert(a1 =~= acc + n1);
            lemma_write_opt_expr(selection, a1);
            lemma_write_opt_expr(selection, n1);
        },
        LogicalPlan::Projection { expr, input, .. } => {
            lemma_write_plan(*input, acc + "SELECT "@ + nat_text(expr@.len()) + " COLUMNS \nFROM\n"@);
            lemma_write_plan(*input, none + "SELECT "@ + nat_text(expr@.len()) + " COLUMNS \nFROM\n"@);
        },
        LogicalPlan::LocalProjection { expr, input, .. } => {
            lemma_write_plan(*input, acc + "LOCAL SELECT "@ + nat_text(expr@.len()) + " COLUMNS \nFROM\n"@);
            lemma_write_plan(*input, none + "LOCAL SELECT "@ + nat_text(expr@.len()) + " COLUMNS \nFROM\n"@);
        },
        LogicalPlan::Sort { input, by_column, .. } => {
            lemma_write_plan(*input, acc + "SORT "@);
            lemma_write_plan(*input, none + "SORT "@);
        },
        LogicalPlan::Explode { input, columns } => {
            let names = string_views(columns@);
            lemma_write_names(names, columns@.len() as int, acc + "EXPLODE COLUMN(S) "@);
            lemma_write_names(names, columns@.len() as int, none + "EXPLODE COLUMN(S) "@);
            lemma_write_plan(*input, write_names(names, columns@.len() as int, acc + "EXPLODE COLUMN(S) "@) + " OF "@);
            lemma_write_plan(*input, write_names(names, columns@.len() as int, none + "EXPLODE COLUMN(S) "@) + " OF "@);
        },
        LogicalPlan::Aggregate { input, keys, aggs, .. } => {
            let a = expr_views(aggs@);
            let k = expr_views(keys@);
            lemma_write_exprs(a, acc + "Aggregate\n\t"@);
            lemma_write_exprs(a, none + "Aggregate\n\t"@);
            let a1 = write_exprs(a, acc + "Aggregate\n\t"@) + " BY "@;
            let n1 = write_exprs(a, none + "Aggregate\n\t"@) + " BY "@;
            lemma_write_exprs(k, a1);
            lemma_write_exprs(k, n1);
            lemma_write_plan(*input, write_exprs(k, a1) + " FROM "@);
            lemma_write_plan(*input, write_exprs(k, n1) + " FROM "@);
        },
        LogicalPlan::Join { input_left, input_right, left_on, right_on, .. } => {
            let l = expr_views(left_on@);
            let r = expr_views(right_on@);
            lemma_write_plan(*input_left, acc + "JOIN\n\t("@);
            lemma_write_plan(*input_left, none + "JOIN\n\t("@);
            let a1 = write_plan(*input_left, acc + "JOIN\n\t("@) + ")\nWITH\n\t("@;
            let n1 = write_plan(*input_left, none + "JOIN\n\t("@) + ")\nWITH\n\t("@;
            lemma_write_plan(*input_right, a1);
            lemma_write_plan(*input_right, n1);
            let a2 = write_plan(*input_right, a1) + ")\nON (left: "@;
            let n2 = write_plan(*input_right, n1) + ")\nON (left: "@;
            lemma_write_exprs(l, a2);
            lemma_write_exprs(l, n2);
            lemma_write_exprs(r, write_exprs(l, a2) + " right: "@);
            lemma_write_exprs(r, write_exprs(l, n2) + " right: "@);
        },
        LogicalPlan::HStack { input, exprs, .. } => {
            let e = expr_views(exprs@);
            lemma_write_plan(*input, acc + "STACK ["@);
            lemma_write_plan(*input, none + "STACK ["@);
            lemma_write_exprs(e, write_plan(*input, acc + "STACK ["@) + "\n\tWITH COLUMN(S)\n"@);
            lemma_write_exprs(e, write_plan(*input, none + "STACK ["@) + "\n\tWITH COLUMN(S)\n"@);
        },
        LogicalPlan::Distinct { input, .. } => {
            lemma_write_plan(*input, acc + "DISTINCT "@);
            lemma_write_plan(*input, none + "DISTINCT "@);
        },
        LogicalPlan::Slice { input, offset, len } => {
            lemma_write_plan(*input, acc + "SLICE "@);
            lemma_write_plan(*input, none + "SLICE "@);
        },
        LogicalPlan::Udf { input, .. } => {
            lemma_write_plan(*input, acc + "UDF "@);
            lemma_write_plan(*input, none + "UDF "@);
        },
    }
    assert(write_plan(p, acc) =~= acc + plan_text(p));
}

/// Appends the list of the expressions, in square brackets.
pub fn push_exprs<U>(out: &mut String, exprs: &Vec<Expr<U>>)
    ensures
        final(out)@ == write_exprs(expr_views(exprs@), old(out)@),
{
    let ghost views = expr_views(exprs@);
    out.append("[");
    let ghost start = out@;
    let mut i: usize = 0;
    while i < exprs.len()
        invariant
            i <= exprs.len(),
            views == expr_views(exprs@),
            out@ == write_exprs_upto(views, i as int, start),
        decreases exprs.len() - i,
    {
        if i > 0 {
            out.append(", ");
        }
        assert(views[i as int] == exprs[i as int]@);
        exprs[i].write_debug(out);
        i += 1;
    }
    out.append("]");
}

/// Appends the list of the first `n` names, in square brackets.
pub fn push_names(out: &mut String, names: &Vec<String>, n: usize)
    requires
        n <= names.len(),
    ensures
        final(out)@ == write_names(string_views(names@), n as int, old(out)@),
{
    let ghost views = string_views(names@);
    out.append("[");
    let ghost start = out@;
    let mut i: usize = 0;
    while i < n
        invariant
            i <= n <= names.len(),
            views == string_views(names@),
            out@ == write_names_upto(views, i as int, start),
        decreases n - i,
    {
        if i > 0 {
            out.append(", ");
        }
        assert(views[i as int] == names[i as int]@);
        out.append("\"");
        out.append(names[i].as_str());
        out.append("\"");
        i += 1;
    }
    out.append("]");
}

/// Appends an expression that may be absent.
pub fn push_opt_expr<U>(out: &mut String, e: &Option<Expr<U>>)
    ensures
        final(out)@ == write_opt_expr(*e, old(out)@),
{
    match e {
        Some(e) => {
            out.append("Some(");
            e.write_debug(out);
            out.append(")");
        },
        None => out.append("None"),
    }
}

/// Appends how many columns are chosen.
pub fn push_chosen(out: &mut String, n: Option<usize>)
    ensures
        final(out)@ == old(out)@ + chosen_text(
            match n {
                Some(n) => Some(n as int),
                None => None,
            },
        ),
{
    match n {
        Some(n) => push_nat(out, n as u128),
        None => out.append("*"),
    }
}

/// The length of a list that may be absent.
pub fn len_of<T>(v: &Option<Vec<T>>) -> (r: Option<usize>)
    ensures
        opt_len(*v) == match r {
            Some(n) => Some(n as int),
            None => None,
        },
{
    match v {
        Some(v) => Some(v.len()),
        None => None,
    }
}

/// The names of the first fields of a schema, at most `cap` of them.
pub fn first_names(schema: &crate::datatypes::Schema, cap: usize) -> (r: Vec<String>)
    ensures
        r@.len() == at_most(schema@.len() as int, cap as int),
        forall|i: int| 0 <= i < r@.len() ==> (#[trigger] r@[i])@ == schema@[i].0,
{
    let mut names: Vec<String> = Vec::new();
    let mut i: usize = 0;
    while i < schema.fields.len() && i < cap
        invariant
            i <= schema.fields.len(),
            i <= cap,
            names@.len() == i,
            forall|j: int| 0 <= j < i ==> (#[trigger] names@[j])@ == schema@[j].0,
        decreases schema.fields.len() - i,
    {
        assert(schema@[i as int] == schema.fields[i as int]@);
        names.push(schema.fields[i].name.clone());
        i += 1;
    }
    names
}

/// The first `n` names of a list agree with the first `n` of another: then
/// their lists are written alike.
pub proof fn lemma_write_names_agree(a: Seq<Seq<char>>, b: Seq<Seq<char>>, n: int, acc: Seq<char>)
    requires
        0 <= n <= a.len(),
        n <= b.len(),
        forall|i: int| 0 <= i < n ==> a[i] == b[i],
    ensures
        write_names_upto(a, n, acc) == write_names_upto(b, n, acc),
    decreases n,
{
    if n > 1 {
        lemma_write_names_agree(a, b, n - 1, acc);
    }
}

impl<U, F> LogicalPlan<U, F> {
    /// Appends the description of the plan.
    pub fn write_debug(&self, out: &mut String)
        ensures
            final(out)@ == write_plan(*self, old(out)@),
        decreases self,
    {
        match self {
            LogicalPlan::Cache { input } => {
                out.append("CACHE ");
                input.write_debug(out);
            },
            LogicalPlan::ParquetScan { path, schema, with_columns, predicate, .. } => {
                out.append("PARQUET SCAN ");
                out.append(path.as_str());
                out.append("; PROJECT ");
                push_chosen(out, len_of(with_columns));
                out.append("/");
                push_nat(out, schema.len() as u128);
                out.append(" COLUMNS; SELECTION: ");
                push_opt_expr(out, predicate);
            },
            LogicalPlan::Selection { predicate, input } => {
                out.append("FILTER\n\t");
                predicate.write_debug(out);
                out.append("\nFROM\n\t");
                input.write_debug(out);
            },
            LogicalPlan::Melt { input, .. } => {
                out.append("MELT\n\t");
                input.write_debug(out);
            },
            LogicalPlan::CsvScan { path, with_columns, schema, predicate, .. } => {
                out.append("CSV SCAN ");
                out.append(path.as_str());
                out.append("; PROJECT ");
                push_chosen(out, len_of(with_columns));
                out.append("/");
                push_nat(out, schema.len() as u128);
                out.append(" COLUMNS; SELECTION: ");
                push_opt_expr(out, predicate);
            },
            LogicalPlan::DataFrameScan { schema, projection, selection, .. } => {
                out.append("TABLE: ");
                let names = first_names(&**schema, 4);
                proof {
                    lemma_write_names_agree(
                        string_views(names@),
                        names_of_schema(schema@),
                        names@.len() as int,
                        out@ + "["@,
                    );
                }
                push_names(out, &names, names.len());
                out.append("; PROJECT ");
                push_chosen(out, len_of(projection));
                out.append("/");
                push_nat(out, schema.len() as u128);
                out.append(" COLUMNS; SELECTION: ");
                push_opt_expr(out, selection);
            },
            LogicalPlan::Projection { expr, input, .. } => {
                out.append("SELECT ");
                push_nat(out, expr.len() as u128);
                out.append(" COLUMNS \nFROM\n");
                input.write_debug(out);
            },
            LogicalPlan::LocalProjection { expr, input, .. } => {
                out.append("LOCAL SELECT ");
                push_nat(out, expr.len() as u128);
                out.append(" COLUMNS \nFROM\n");
                input.write_debug(out);
            },
            LogicalPlan::Sort { input, by_column, .. } => {
                out.append("SORT ");
                input.write_debug(out);
                out.append(" BY COLUMN ");
                out.append(by_column.as_str());
            },
            LogicalPlan::Explode { input, columns } => {
                out.append("EXPLODE COLUMN(S) ");
                push_names(out, columns, columns.len());
                out.append(" OF ");
                input.write_debug(out);
            },
            LogicalPlan::Aggregate { input, keys, aggs, .. } => {
                out.append("Aggregate\n\t");
                push_exprs(out, aggs);
                out.append(" BY ");
                push_exprs(out, &**keys);
                out.append(" FROM ");
                input.write_debug(out);
            },
            LogicalPlan::Join { input_left, input_right, left_on, right_on, .. } => {
                out.append("JOIN\n\t(");
                input_left.write_debug(out);
                out.append(")\nWITH\n\t(");
                input_right.write_debug(out);
                out.append(")\nON (left: ");
                push_exprs(out, left_on);
                out.append(" right: ");
                push_exprs(out, right_on);
                out.append(")");
            },
            LogicalPlan::HStack { input, exprs, .. } => {
                out.append("STACK [");
                input.write_debug(out);
                out.append("\n\tWITH COLUMN(S)\n");
                push_exprs(out, exprs);
                out.append("\n]");
            },
            LogicalPlan::Distinct { input, .. } => {
                out.append("DISTINCT ");
                input.write_debug(out);
            },
            LogicalPlan::Slice { input, offset, len } => {
                out.append("SLICE ");
                input.write_debug(out);
                out.append(", offset: ");
                push_nat(out, *offset as u128);
                out.append(", len: ");
                push_nat(out, *len as u128);
            },
            LogicalPlan::Udf { input, .. } => {
                out.append("UDF ");
                input.write_debug(out);
            },
        }
    }

    /// The description of the plan, as text.
    pub fn describe(&self) -> (r: String)
        ensures
            r@ == plan_text(*self),
    {
        let mut out = String::new();
        self.write_debug(&mut out);
        out
    }
}

/// The text without its square brackets.
pub open spec fn strip_brackets(s: Seq<char>) -> Seq<char>
    decreases s.len(),
{
    if s.len() == 0 {
        s
    } else {
        let front = strip_brackets(s.drop_last());
        if s.last() == '[' || s.last() == ']' {
            front
        } else {
            front.push(s.last())
        }
    }
}

/// How a predicate is shown in a node of the graph: its text without
/// square brackets, cut after 25 characters with three dots where it is
/// longer; a dash where there is no predicate.
pub open spec fn predicate_text<U>(predicate: Option<ExprView<U>>) -> Seq<char> {
    match predicate {
        Some(e) => {
            let text = strip_brackets(expr_text(e));
            if text.len() > 25 {
                text.take(25) + "..."@
            } else {
                text
            }
        },
        None => "-"@,
    }
}

/// The view of an expression that may be absent.
pub open spec fn opt_expr_view<U>(e: Option<Expr<U>>) -> Option<ExprView<U>> {
    match e {
        Some(e) => Some(e@),
        None => None,
    }
}

/// How a predicate is shown in a node of the graph.
pub fn fmt_predicate<U>(predicate: Option<&Expr<U>>) -> (r: String)
    ensures
        r@ == predicate_text(
            match predicate {
                Some(e) => Some(e@),
                None => None,
            },
        ),
{
    match predicate {
        Some(predicate) => {
            let n: usize = 25;
            let pred_fmt = predicate.fmt_debug();
            let text = pred_fmt.as_str();
            let len = text.unicode_len();
            let mut kept: Vec<char> = Vec::new();
            let mut i: usize = 0;
            assert(text@.take(0) =~= Seq::empty());
            while i < len
                invariant
                    i <= len,
                    len == text@.len(),
                    kept@ == strip_brackets(text@.take(i as int)),
                decreases len - i,
            {
                let c = text.get_char(i);
                assert(text@.take(i + 1).drop_last() =~= text@.take(i as int));
                if c != '[' && c != ']' {
                    kept.push(c);
                }
                i += 1;
            }
            assert(text@.take(len as int) =~= text@);
            let shown = if kept.len() > n {
                n
            } else {
                kept.len()
            };
            let mut out = String::new();
            let mut j: usize = 0;
            while j < shown
                invariant
                    j <= shown <= kept.len(),
                    out@ == kept@.take(j as int),
                decreases shown - j,
            {
                push_char(&mut out, kept[j]);
                assert(kept@.take(j as int).push(kept@[j as int]) =~= kept@.take(j + 1));
                j += 1;
            }
            if kept.len() > n {
                out.append("...");
            } else {
                assert(kept@.take(kept.len() as int) =~= kept@);
            }
            out
        },
        None => "-".to_owned(),
    }
}

/// The text `acc` with the line that opens the graph behind it, for the
/// root, or with the edge from the node before to this node.
pub open spec fn dot_edge(acc: Seq<char>, prev_node: Seq<char>, current_node: Seq<char>, id: int) -> Seq<char> {
    if id == 0 {
        acc + "graph  polars_query {\n"@
    } else {
        acc + "\""@ + prev_node + "\" -- \""@ + current_node + "\"\n"@
    }
}

/// The text `acc` with the first `n` of the expressions behind it, nothing
/// between them.
pub open spec fn write_keys_upto<U>(exprs: Seq<ExprView<U>>, n: int, acc: Seq<char>) -> Seq<char>
    decreases n,
{
    if n <= 0 {
        acc
    } else {
        write_expr(exprs[n - 1], write_keys_upto(exprs, n - 1, acc))
    }
}

/// The name by which a stacked column is shown: its alias, or the first
/// column that it is made of.
pub open spec fn stacked_name<U>(e: ExprView<U>) -> Option<Seq<char>> {
    match e {
        ExprView::Alias(_, name) => Some(name),
        _ => if e.roots().len() > 0 {
            e.roots()[0]
        } else {
            None
        },
    }
}

/// The text `acc` with the names of the first `n` stacked columns behind
/// it, each between a blank and a comma.
pub open spec fn write_stacked_upto<U>(exprs: Seq<ExprView<U>>, n: int, acc: Seq<char>) -> Seq<char>
    decreases n,
{
    if n <= 0 {
        acc
    } else {
        let before = write_stacked_upto(exprs, n - 1, acc);
        match stacked_name(exprs[n - 1]) {
            Some(name) => before + " "@ + name + ","@,
            None => before,
        }
    }
}

/// The text `acc` with the first `n` of the names behind it, a comma and a
/// blank behind each.
pub open spec fn write_subset_upto(names: Seq<Seq<char>>, n: int, acc: Seq<char>) -> Seq<char>
    decreases n,
{
    if n <= 0 {
        acc
    } else {
        write_subset_upto(names, n - 1, acc) + names[n - 1] + ", "@
    }
}

/// The end of a node's text: its number in square brackets.
pub open spec fn node_id(acc: Seq<char>, id: int) -> Seq<char> {
    acc + " ["@ + nat_text(id as nat) + "]"@
}

/// The text of a node of the graph: what it does, and its number.
pub open spec fn node_label<U, F>(p: LogicalPlan<U, F>, id: int) -> Seq<char> {
    let start = Seq::<char>::empty();
    match p {
        LogicalPlan::Cache { .. } => node_id(start + "CACHE"@, id),
        LogicalPlan::Selection { predicate, .. } => node_id(start + "FILTER BY "@ + predicate_text(Some(predicate@)), id),
        LogicalPlan::CsvScan { path, with_columns, schema, predicate, .. } => start + "CSV SCAN "@ + path@ + ";\nπ "@
            + chosen_text(opt_len(with_columns)) + "/"@ + nat_text(schema@.len()) + ";\nσ "@ + predicate_text(
            opt_expr_view(predicate),
        ) + "\n["@ + nat_text(id as nat) + "]"@,
        LogicalPlan::DataFrameScan { schema, projection, selection, .. } => start + "TABLE\nπ "@ + chosen_text(
            opt_len(projection),
        ) + "/"@ + nat_text(schema@.len()) + ";\nσ "@ + predicate_text(opt_expr_view(selection)) + "\n["@ + nat_text(
            id as nat,
        ) + "]"@,
        LogicalPlan::Projection { expr, input, .. } => node_id(
            start + "π "@ + nat_text(expr@.len()) + "/"@ + nat_text(input.schema_view().len()),
            id,
        ),
        LogicalPlan::Sort { by_column, .. } => node_id(start + "SORT by "@ + by_column@, id),
        LogicalPlan::LocalProjection { expr, input, .. } => node_id(
            start + "LOCAL π "@ + nat_text(expr@.len()) + "/"@ + nat_text(input.schema_view().len()),
            id,
        ),
        LogicalPlan::Explode { columns, .. } => node_id(
            write_names(string_views(columns@), columns@.len() as int, start + "EXPLODE "@),
            id,
        ),
        LogicalPlan::Melt { .. } => node_id(start + "MELT"@, id),
        LogicalPlan::Aggregate { keys, aggs, .. } => node_id(
            write_keys_upto(
                expr_views(keys@),
                keys@.len() as int,
                write_exprs(expr_views(aggs@), start + "AGG "@) + " BY "@,
            ),
            id,
        ),
        LogicalPlan::HStack { exprs, .. } => node_id(
            write_stacked_upto(expr_views(exprs@), exprs@.len() as int, start + "STACK"@),
            id,
        ),
        LogicalPlan::Slice { offset, len, .. } => node_id(
            start + "SLICE offset: "@ + nat_text(offset as nat) + "; len: "@ + nat_text(len as nat),
            id,
        ),
        LogicalPlan::Distinct { subset, .. } => node_id(
            match *subset {
                Some(names) => write_subset_upto(string_views(names@), names@.len() as int, start + "DISTINCT"@ + " BY "@),
                None => start + "DISTINCT"@,
            },
            id,
        ),
        LogicalPlan::ParquetScan { path, schema, with_columns, predicate, .. } => node_id(
            start + "PARQUET SCAN "@ + path@ + ";\nπ "@ + chosen_text(opt_len(with_columns)) + "/"@ + nat_text(
                schema@.len(),
            ) + ";\nσ "@ + predicate_text(opt_expr_view(predicate)),
            id,
        ),
        LogicalPlan::Join { left_on, right_on, .. } => node_id(
            write_exprs(expr_views(right_on@), write_exprs(expr_views(left_on@), start + "JOIN left "@) + "; right: "@),
            id,
        ),
        LogicalPlan::Udf { .. } => node_id(start + "UDF"@, id),
    }
}

/// The number of a node's inputs: one more than its own, as long as the
/// machine can count that far.
pub open spec fn next_id(id: int) -> int {
    if id < usize::MAX {
        id + 1
    } else {
        id
    }
}

/// The text `acc` with the graph of the plan behind it. The root, numbered
/// 0, opens the graph; every other node writes the edge that leads to it
/// from the node that reads it; a scan at the root writes itself. A node
/// numbers its inputs one higher than itself.
pub open spec fn write_graph<U, F>(p: LogicalPlan<U, F>, acc: Seq<char>, id: int, prev_node: Seq<char>) -> Seq<char>
    decreases p,
{
    let current = node_label(p, id);
    let edge = dot_edge(acc, prev_node, current, id);
    let alone = if id == 0 {
        edge + "\""@ + current + "\""@
    } else {
        edge
    };
    match p {
        LogicalPlan::Cache { input } => write_graph(*input, edge, next_id(id), current),
        LogicalPlan::Selection { input, .. } => write_graph(*input, edge, next_id(id), current),
        LogicalPlan::CsvScan { .. } => alone,
        LogicalPlan::ParquetScan { .. } => alone,
        LogicalPlan::DataFrameScan { .. } => alone,
        LogicalPlan::LocalProjection { input, .. } => write_graph(*input, edge, next_id(id), current),
        LogicalPlan::Projection { input, .. } => write_graph(*input, edge, next_id(id), current),
        LogicalPlan::Aggregate { input, .. } => write_graph(*input, edge, next_id(id), current),
        LogicalPlan::Join { input_left, input_right, .. } => write_graph(
            *input_right,
            write_graph(*input_left, edge, next_id(id), current),
            next_id(id),
            current,
        ),
        LogicalPlan::HStack { input, .. } => write_graph(*input, edge, next_id(id), current),
        LogicalPlan::Distinct { input, .. } => write_graph(*input, edge, next_id(id), current),
        LogicalPlan::Sort { input, .. } => write_graph(*input, edge, next_id(id), current),
        LogicalPlan::Explode { input, .. } => write_graph(*input, edge, next_id(id), current),
        LogicalPlan::Slice { input, .. } => write_graph(*input, edge, next_id(id), current),
        LogicalPlan::Melt { input, .. } => write_graph(*input, edge, next_id(id), current),
        LogicalPlan::Udf { input, .. } => write_graph(*input, edge, next_id(id), current),
    }
}

fn push_node_id(out: &mut String, id: usize)
    ensures
        final(out)@ == node_id(old(out)@, id as int),
{
    out.append(" [");
    push_nat(out, id as u128);
    out.append("]");
}

fn push_scan_tail<U>(out: &mut String, chosen: Option<usize>, total: usize, predicate: &Option<Expr<U>>)
    ensures
        final(out)@ == old(out)@ + chosen_text(
            match chosen {
                Some(n) => Some(n as int),
                None => None,
            },
        ) + "/"@ + nat_text(total as nat) + ";\nσ "@ + predicate_text(opt_expr_view(*predicate)),
{
    push_chosen(out, chosen);
    out.append("/");
    push_nat(out, total as u128);
    out.append(";\nσ ");
    let pred = match predicate {
        Some(e) => fmt_predicate(Some(e)),
        None => fmt_predicate::<U>(None),
    };
    out.append(pred.as_str());
}

impl<U, F> LogicalPlan<U, F> {
    /// Opens the graph, for the root, or writes the edge from the node
    /// before to this node.
    pub fn write_dot(&self, acc_str: &mut String, prev_node: &str, current_node: &str, id: usize)
        ensures
            final(acc_str)@ == dot_edge(old(acc_str)@, prev_node@, current_node@, id as int),
    {
        if id == 0 {
            acc_str.append("graph  polars_query {\n");
        } else {
            acc_str.append("\"");
            acc_str.append(prev_node);
            acc_str.append("\" -- \"");
            acc_str.append(current_node);
            acc_str.append("\"\n");
        }
    }

    /// The text of this node in the graph.
    pub fn dot_label(&self, id: usize) -> (r: String)
        ensures
            r@ == node_label(*self, id as int),
    {
        let mut current_node = String::new();
        match self {
            LogicalPlan::Cache { .. } => {
                current_node.append("CACHE");
                push_node_id(&mut current_node, id);
            },
            LogicalPlan::Selection { predicate, .. } => {
                let pred = fmt_predicate(Some(predicate));
                current_node.append("FILTER BY ");
                current_node.append(pred.as_str());
                push_node_id(&mut current_node, id);
            },
            LogicalPlan::CsvScan { path, with_columns, schema, predicate, .. } => {
                current_node.append("CSV SCAN ");
                current_node.append(path.as_str());
                current_node.append(";\nπ ");
                push_scan_tail(&mut current_node, len_of(with_columns), schema.len(), predicate);
                current_node.append("\n[");
                push_nat(&mut current_node, id as u128);
                current_node.append("]");
            },
            LogicalPlan::DataFrameScan { schema, projection, selection, .. } => {
                current_node.append("TABLE\nπ ");
                push_scan_tail(&mut current_node, len_of(projection), schema.len(), selection);
                current_node.append("\n[");
                push_nat(&mut current_node, id as u128);
                current_node.append("]");
            },
            LogicalPlan::Projection { expr, input, .. } => {
                current_node.append("π ");
                push_nat(&mut current_node, expr.len() as u128);
                current_node.append("/");
                push_nat(&mut current_node, input.schema().len() as u128);
                push_node_id(&mut current_node, id);
            },
            LogicalPlan::Sort { by_column, .. } => {
                current_node.append("SORT by ");
                current_node.append(by_column.as_str());
                push_node_id(&mut current_node, id);
            },
            LogicalPlan::LocalProjection { expr, input, .. } => {
                current_node.append("LOCAL π ");
                push_nat(&mut current_node, expr.len() as u128);
                current_node.append("/");
                push_nat(&mut current_node, input.schema().len() as u128);
                push_node_id(&mut current_node, id);
            },
            LogicalPlan::Explode { columns, .. } => {
                current_node.append("EXPLODE ");
                push_names(&mut current_node, columns, columns.len());
                push_node_id(&mut current_node, id);
            },
            LogicalPlan::Melt { .. } => {
                current_node.append("MELT");
                push_node_id(&mut current_node, id);
            },
            LogicalPlan::Aggregate { keys, aggs, .. } => {
                current_node.append("AGG ");
                push_exprs(&mut current_node, aggs);
                current_node.append(" BY ");
                let ghost start = current_node@;
                let ghost views = expr_views(keys@);
                let mut i: usize = 0;
                while i < keys.len()
                    invariant
                        i <= keys.len(),
                        views == expr_views(keys@),
                        current_node@ == write_keys_upto(views, i as int, start),
                    decreases keys.len() - i,
                {
                    let key = &(**keys)[i];
                    assert(views[i as int] == key@);
                    key.write_debug(&mut current_node);
                    i += 1;
                }
                push_node_id(&mut current_node, id);
            },
            LogicalPlan::HStack { exprs, .. } => {
                current_node.append("STACK");
                let ghost start = current_node@;
                let ghost views = expr_views(exprs@);
                let mut i: usize = 0;
                while i < exprs.len()
                    invariant
                        i <= exprs.len(),
                        views == expr_views(exprs@),
                        current_node@ == write_stacked_upto(views, i as int, start),
                    decreases exprs.len() - i,
                {
                    let e = &exprs[i];
                    assert(views[i as int] == e@);
                    let shown: Option<String> = match e {
                        Expr::Alias(_, name) => Some(name.clone()),
                        _ => {
                            let mut roots = e.expr_to_root_column_exprs();
                            if roots.len() > 0 {
                                let ghost before = roots@;
                                let first = roots.swap_remove(0);
                                assert(crate::expr::root_views(before)[0] == crate::expr::name_view(first));
                                first
                            } else {
                                None
                            }
                        },
                    };
                    assert(crate::expr::name_view(shown) == stacked_name(e@));
                    match shown {
                        Some(name) => {
                            current_node.append(" ");
                            current_node.append(name.as_str());
                            current_node.append(",");
                        },
                        None => {},
                    }
                    i += 1;
                }
                push_node_id(&mut current_node, id);
            },
            LogicalPlan::Slice { offset, len, .. } => {
                current_node.append("SLICE offset: ");
                push_nat(&mut current_node, *offset as u128);
                current_node.append("; len: ");
                push_nat(&mut current_node, *len as u128);
                push_node_id(&mut current_node, id);
            },
            LogicalPlan::Distinct { subset, .. } => {
                current_node.append("DISTINCT");
                match &**subset {
                    Some(names) => {
                        current_node.append(" BY ");
                        let ghost start = current_node@;
                        let ghost views = string_views(names@);
                        let mut i: usize = 0;
                        while i < names.len()
                            invariant
                                i <= names.len(),
                                views == string_views(names@),
                                current_node@ == write_subset_upto(views, i as int, start),
                            decreases names.len() - i,
                        {
                            assert(views[i as int] == names[i as int]@);
                            current_node.append(names[i].as_str());
                            current_node.append(", ");
                            i += 1;
                        }
                    },
                    None => {},
                }
                push_node_id(&mut current_node, id);
            },
            LogicalPlan::ParquetScan { path, schema, with_columns, predicate, .. } => {
                current_node.append("PARQUET SCAN ");
                current_node.append(path.as_str());
                current_node.append(";\nπ ");
                push_scan_tail(&mut current_node, len_of(with_columns), schema.len(), predicate);
                push_node_id(&mut current_node, id);
            },
            LogicalPlan::Join { left_on, right_on, .. } => {
                current_node.append("JOIN left ");
                push_exprs(&mut current_node, left_on);
                current_node.append("; right: ");
                push_exprs(&mut current_node, right_on);
                push_node_id(&mut current_node, id);
            },
            LogicalPlan::Udf { .. } => {
                current_node.append("UDF");
                push_node_id(&mut current_node, id);
            },
        }
        current_node
    }

    /// Appends the graph of the plan in the DOT language: a line for every
    /// edge, from the node that reads to the node that is read.
    pub fn dot(&self, acc_str: &mut String, id: usize, prev_node: &str)
        ensures
            final(acc_str)@ == write_graph(*self, old(acc_str)@, id as int, prev_node@),
        decreases self,
    {
        let current_node = self.dot_label(id);
        self.write_dot(acc_str, prev_node, current_node.as_str(), id);
        let next = if id < usize::MAX {
            id + 1
        } else {
            id
        };
        match self {
            LogicalPlan::Cache { input } => input.dot(acc_str, next, current_node.as_str()),
            LogicalPlan::Selection { input, .. } => input.dot(acc_str, next, current_node.as_str()),
            LogicalPlan::CsvScan { .. } | LogicalPlan::ParquetScan { .. } | LogicalPlan::DataFrameScan { .. } => {
                if id == 0 {
                    acc_str.append("\"");
                    acc_str.append(current_node.as_str());
                    acc_str.append("\"");
                }
            },
            LogicalPlan::LocalProjection { input, .. } => input.dot(acc_str, next, current_node.as_str()),
            LogicalPlan::Projection { input, .. } => input.dot(acc_str, next, current_node.as_str()),
            LogicalPlan::Aggregate { input, .. } => input.dot(acc_str, next, current_node.as_str()),
            LogicalPlan::Join { input_left, input_right, .. } => {
                input_left.dot(acc_str, next, current_node.as_str());
                input_right.dot(acc_str, next, current_node.as_str());
            },
            LogicalPlan::HStack { input, .. } => input.dot(acc_str, next, current_node.as_str()),
            LogicalPlan::Distinct { input, .. } => input.dot(acc_str, next, current_node.as_str()),
            LogicalPlan::Sort { input, .. } => input.dot(acc_str, next, current_node.as_str()),
            LogicalPlan::Explode { input, .. } => input.dot(acc_str, next, current_node.as_str()),
            LogicalPlan::Slice { input, .. } => input.dot(acc_str, next, current_node.as_str()),
            LogicalPlan::Melt { input, .. } => input.dot(acc_str, next, current_node.as_str()),
            LogicalPlan::Udf { input, .. } => input.dot(acc_str, next, current_node.as_str()),
        }
    }
}

} // verus!
