//! Expressions over the columns of a file, as far as adapting a schema looks into them.

use crate::errors::{Problem, RejectOnNonEmpty, Rejection, SparkError};
use crate::options::{SparkCastOptions, SparkParquetOptions};
use crate::schema::{DataType, FieldRef, FieldView};
use std::sync::Arc;
use vstd::prelude::*;

verus! {

/// A reference to a column, by name and position.
#[derive(Debug)]
pub struct Column {
    pub name: String,
    pub index: usize,
}

/// An expression. Nodes that adapting leaves alone are known by a number that the holder of the
/// real nodes gave them.
#[derive(Debug)]
pub enum Expr {
    /// A column.
    Column(Column),
    /// A default value, by its position among the default values, and the type that it is to be
    /// converted to.
    DefaultValue { position: usize, convert_to: Option<Arc<DataType>> },
    /// A plain cast. `child_type` is the type of the operand, where it has one.
    Cast {
        node: usize,
        child: Box<Expr>,
        child_type: Option<Arc<DataType>>,
        target_field: FieldRef,
    },
    /// Any other node.
    Other { node: usize, children: Vec<Expr> },
    /// An operand that must not be converted once there are rows.
    Reject { child: Box<Expr>, rejection: RejectOnNonEmpty },
    /// A cast that converts the way the Parquet reader does.
    ParquetCast {
        child: Box<Expr>,
        input_field: FieldRef,
        target_field: FieldRef,
        options: Arc<SparkParquetOptions>,
    },
    /// A cast that converts the way Spark does.
    SparkCast { child: Box<Expr>, target_type: Arc<DataType>, cast_options: SparkCastOptions },
}

/// An expression, with its texts as sequences of characters.
pub enum Tree {
    Column { name: Seq<char>, index: usize },
    DefaultValue { position: usize, convert_to: Option<Arc<DataType>> },
    Cast {
        node: usize,
        child: Box<Tree>,
        child_type: Option<Arc<DataType>>,
        target_field: FieldView,
    },
    Other { node: usize, children: Seq<Tree> },
    Reject { child: Box<Tree>, rejection: Rejection },
    ParquetCast {
        child: Box<Tree>,
        input_field: FieldView,
        target_field: FieldView,
        options: Arc<SparkParquetOptions>,
    },
    SparkCast { child: Box<Tree>, target_type: DataType, cast_options: SparkCastOptions },
}

impl Expr {
    /// The expression as a tree.
    pub open spec fn tree(self) -> Tree
        decreases self,
    {
        match self {
            Expr::Column(c) => Tree::Column { name: c.name@, index: c.index },
            Expr::DefaultValue { position, convert_to } => Tree::DefaultValue {
                position,
                convert_to,
            },
            Expr::Cast { node, child, child_type, target_field } => Tree::Cast {
                node,
                child: Box::new(child.tree()),
                child_type,
                target_field: target_field@,
            },
            Expr::Other { node, children } => Tree::Other { node, children: trees(children@) },
            Expr::Reject { child, rejection } => Tree::Reject {
                child: Box::new(child.tree()),
                rejection: rejection@,
            },
            Expr::ParquetCast { child, input_field, target_field, options } => Tree::ParquetCast {
                child: Box::new(child.tree()),
                input_field: input_field@,
                target_field: target_field@,
                options,
            },
            Expr::SparkCast { child, target_type, cast_options } => Tree::SparkCast {
                child: Box::new(child.tree()),
                target_type: *target_type,
                cast_options,
            },
        }
    }
}

/// Expressions as trees.
pub open spec fn trees(exprs: Seq<Expr>) -> Seq<Tree>
    decreases exprs,
{
    Seq::new(
        exprs.len(),
        |i: int|
            if 0 <= i < exprs.len() {
                exprs[i].tree()
            } else {
                arbitrary()
            },
    )
}

impl View for Expr {
    type V = Tree;

    open spec fn view(&self) -> Tree {
        self.tree()
    }
}

/// Why an expression could not be rewritten.
#[derive(Debug)]
pub enum RewriteError {
    /// As Spark reports it.
    Spark(SparkError),
    /// The operand of the cast with this number has no type.
    UntypedOperand(usize),
}

/// Why an expression could not be rewritten, with texts as sequences of characters.
pub enum Failure {
    Spark(Problem),
    UntypedOperand(usize),
}

impl View for RewriteError {
    type V = Failure;

    open spec fn view(&self) -> Failure {
        match *self {
            RewriteError::Spark(e) => Failure::Spark(e@),
            RewriteError::UntypedOperand(node) => Failure::UntypedOperand(node),
        }
    }
}

/// The outcome of rewriting, with texts as sequences of characters.
pub open spec fn outcome(r: Result<Expr, RewriteError>) -> Result<Tree, Failure> {
    match r {
        Ok(e) => Ok(e@),
        Err(e) => Err(e@),
    }
}

// ---------------------------------------------------------------------------------------------
// Walking an expression
// ---------------------------------------------------------------------------------------------

/// The names of the columns of an expression, operands first and from left to right.
pub open spec fn column_names(t: Tree) -> Seq<Seq<char>>
    decreases t,
{
    match t {
        Tree::Column { name, .. } => seq![name],
        Tree::DefaultValue { .. } => seq![],
        Tree::Cast { child, .. } => column_names(*child),
        Tree::Other { children, .. } => all_column_names(children),
        Tree::Reject { child, .. } => column_names(*child),
        Tree::ParquetCast { child, .. } => column_names(*child),
        Tree::SparkCast { child, .. } => column_names(*child),
    }
}

/// The names of the columns of several expressions, in order.
pub open spec fn all_column_names(ts: Seq<Tree>) -> Seq<Seq<char>>
    decreases ts,
{
    if ts.len() == 0 {
        seq![]
    } else {
        all_column_names(ts.drop_last()) + column_names(ts.last())
    }
}

/// Whether a plain cast stands somewhere in an expression.
pub open spec fn has_cast(t: Tree) -> bool
    decreases t,
{
    match t {
        Tree::Column { .. } => false,
        Tree::DefaultValue { .. } => false,
        Tree::Cast { .. } => true,
        Tree::Other { children, .. } => exists|i: int|
            0 <= i < children.len() && has_cast(#[trigger] children[i]),
        Tree::Reject { child, .. } => has_cast(*child),
        Tree::ParquetCast { child, .. } => has_cast(*child),
        Tree::SparkCast { child, .. } => has_cast(*child),
    }
}

/// Whether an operand, if it is a column, is one of the first `n` columns.
pub open spec fn operand_in_range(child: Tree, n: int) -> bool {
    child matches Tree::Column { index, .. } ==> index < n
}

/// Whether every column that is the operand of a plain cast is one of the first `n` columns.
pub open spec fn casts_in_range(t: Tree, n: int) -> bool
    decreases t,
{
    match t {
        Tree::Column { .. } => true,
        Tree::DefaultValue { .. } => true,
        Tree::Cast { child, .. } => casts_in_range(*child, n) && operand_in_range(*child, n),
        Tree::Other { children, .. } => all_casts_in_range(children, n),
        Tree::Reject { child, .. } => casts_in_range(*child, n),
        Tree::ParquetCast { child, .. } => casts_in_range(*child, n),
        Tree::SparkCast { child, .. } => casts_in_range(*child, n),
    }
}

/// Whether every column that is the operand of a plain cast in one of several expressions is
/// one of the first `n` columns.
pub open spec fn all_casts_in_range(ts: Seq<Tree>, n: int) -> bool
    decreases ts,
{
    forall|i: int| 0 <= i < ts.len() ==> casts_in_range(#[trigger] ts[i], n)
}

/// Whether every column that is the operand of a plain cast is one of the first `n` columns.
pub fn casts_within(expr: &Expr, n: usize) -> (r: bool)
    ensures
        r == casts_in_range(expr@, n as int),
    decreases expr,
{
    match expr {
        Expr::Column(_) => true,
        Expr::DefaultValue { .. } => true,
        Expr::Cast { child, .. } => casts_within(child, n) && operand_within(child, n),
        Expr::Other { children, .. } => all_casts_within(children, n),
        Expr::Reject { child, .. } => casts_within(child, n),
        Expr::ParquetCast { child, .. } => casts_within(child, n),
        Expr::SparkCast { child, .. } => casts_within(child, n),
    }
}

fn operand_within(child: &Expr, n: usize) -> (r: bool)
    ensures
        r == operand_in_range(child@, n as int),
{
    match child {
        Expr::Column(c) => c.index < n,
        _ => true,
    }
}

fn all_casts_within(exprs: &Vec<Expr>, n: usize) -> (r: bool)
    ensures
        r == all_casts_in_range(trees(exprs@), n as int),
    decreases exprs,
{
    for i in 0..exprs.len()
        invariant
            forall|k: int|
                0 <= k < i ==> casts_in_range(#[trigger] trees(exprs@)[k], n as int),
    {
        proof {
            assert(decreases_to!(*exprs => exprs@));
            assert(decreases_to!(exprs@ => exprs@[i as int]));
            assert(trees(exprs@)[i as int] == exprs@[i as int]@);
        }
        if !casts_within(&exprs[i], n) {
            return false;
        }
    }
    true
}

} // verus!
