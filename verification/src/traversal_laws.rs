//! What holds of walking an expression: what is seen of it, and the order in which its nodes are
//! rewritten.

use crate::adapter::SparkPhysicalExprAdapter;
use crate::errors::{Problem, SparkError};
use crate::expr::{
    all_casts_in_range, all_column_names, casts_in_range, casts_within, column_names, has_cast,
    outcome, trees, Expr, Failure, RewriteError, Tree,
};
use crate::rewrite::Pass;
use crate::rewrite_laws::lemma_all_rewritten;
use vstd::prelude::*;

verus! {

// ---------------------------------------------------------------------------------------------
// What is seen of an expression
// ---------------------------------------------------------------------------------------------

/// An expression is seen whole: every text, number, type and option of every node, and all its
/// operands in order.
pub proof fn expressions_are_seen_whole(e: Expr)
    ensures
        match e {
            Expr::Column(c) => e@ matches Tree::Column { name, index } && name == c.name@ && index
                == c.index,
            Expr::DefaultValue { position, convert_to } => e@ matches Tree::DefaultValue {
                position: p,
                convert_to: c,
            } && p == position && c == convert_to,
            Expr::Cast { node, child, child_type, target_field } => e@ matches Tree::Cast {
                node: n,
                child: c,
                child_type: t,
                target_field: f,
            } && n == node && *c == child@ && t == child_type && f == target_field@,
            Expr::Other { node, children } => e@ matches Tree::Other { node: n, children: cs } && n
                == node && cs.len() == children@.len() && forall|i: int|
                0 <= i < cs.len() ==> #[trigger] cs[i] == children@[i]@,
            Expr::Reject { child, rejection } => e@ matches Tree::Reject {
                child: c,
                rejection: r,
            } && *c == child@ && r.target_field == rejection.target_field@ && r.column
                == rejection.column@ && r.physical_type == rejection.physical_type@ && r.spark_type
                == rejection.spark_type@,
            Expr::ParquetCast { child, input_field, target_field, options } => e@
                matches Tree::ParquetCast {
                child: c,
                input_field: i,
                target_field: t,
                options: o,
            } && *c == child@ && i == input_field@ && t == target_field@ && o == options,
            Expr::SparkCast { child, target_type, cast_options } => e@ matches Tree::SparkCast {
                child: c,
                target_type: t,
                cast_options: o,
            } && *c == child@ && t == *target_type && o == cast_options,
        },
{
    reveal_with_fuel(Expr::tree, 2);
    assert(e@ == e.tree());
    match e {
        Expr::Other { children, .. } => {
            let cs = trees(children@);
            assert(cs.len() == children@.len());
            assert forall|i: int| 0 <= i < cs.len() implies #[trigger] cs[i]
                == children@[i]@ by {}
        },
        Expr::Column(_) => {},
        Expr::DefaultValue { .. } => {},
        Expr::Cast { child, .. } => {
            assert(child@ == child.tree());
        },
        Expr::Reject { child, .. } => {
            assert(child@ == child.tree());
        },
        Expr::ParquetCast { child, .. } => {
            assert(child@ == child.tree());
        },
        Expr::SparkCast { child, .. } => {
            assert(child@ == child.tree());
        },
    }
}

/// The outcome of rewriting is seen whole, and so is every error.
pub proof fn outcomes_are_seen_whole(r: Result<Expr, RewriteError>)
    ensures
        match r {
            Ok(e) => outcome(r) == Ok::<Tree, Failure>(e@),
            Err(RewriteError::UntypedOperand(node)) => outcome(r) == Err::<Tree, Failure>(
                Failure::UntypedOperand(node),
            ),
            Err(RewriteError::Spark(e)) => outcome(r) == Err::<Tree, Failure>(
                Failure::Spark(e@),
            ) && match e {
                SparkError::ParquetMissingFieldIds => e@ is MissingFieldIds,
                SparkError::DuplicateFieldByFieldId { required_id, matched_fields } => e@
                    matches Problem::DuplicateId { required_id: id, matched_fields: m } && id
                    == required_id && m == matched_fields@,
                SparkError::DuplicateFieldCaseInsensitive {
                    required_field_name,
                    matched_fields,
                } => e@ matches Problem::DuplicateName {
                    required_field_name: n,
                    matched_fields: m,
                } && n == required_field_name@ && m == matched_fields@,
                SparkError::ParquetSchemaConvert {
                    file_path,
                    column,
                    physical_type,
                    spark_type,
                } => e@ matches Problem::SchemaConvert {
                    file_path: f,
                    column: c,
                    physical_type: p,
                    spark_type: s,
                } && f == file_path@ && c == column@ && p == physical_type@ && s == spark_type@,
            },
        },
{
}

// ---------------------------------------------------------------------------------------------
// Nodes and operands
// ---------------------------------------------------------------------------------------------

/// The operands of a node, from left to right.
pub open spec fn operands(t: Tree) -> Seq<Tree> {
    match t {
        Tree::Column { .. } => seq![],
        Tree::DefaultValue { .. } => seq![],
        Tree::Cast { child, .. } => seq![*child],
        Tree::Other { children, .. } => children,
        Tree::Reject { child, .. } => seq![*child],
        Tree::ParquetCast { child, .. } => seq![*child],
        Tree::SparkCast { child, .. } => seq![*child],
    }
}

/// Whether two nodes are the same but for their operands.
pub open spec fn same_node(t: Tree, u: Tree) -> bool {
    match (t, u) {
        (Tree::Column { name, index }, Tree::Column { name: n, index: i }) => name == n && index
            == i,
        (
            Tree::DefaultValue { position, convert_to },
            Tree::DefaultValue { position: p, convert_to: c },
        ) => position == p && convert_to == c,
        (
            Tree::Cast { node, child_type, target_field, .. },
            Tree::Cast { node: n, child_type: c, target_field: f, .. },
        ) => node == n && child_type == c && target_field == f,
        (Tree::Other { node, .. }, Tree::Other { node: n, .. }) => node == n,
        (Tree::Reject { rejection, .. }, Tree::Reject { rejection: r, .. }) => rejection == r,
        (
            Tree::ParquetCast { input_field, target_field, options, .. },
            Tree::ParquetCast { input_field: i, target_field: f, options: o, .. },
        ) => input_field == i && target_field == f && options == o,
        (
            Tree::SparkCast { target_type, cast_options, .. },
            Tree::SparkCast { target_type: t, cast_options: o, .. },
        ) => target_type == t && cast_options == o,
        _ => false,
    }
}

proof fn lemma_all_done(a: &SparkPhysicalExprAdapter, pass: Pass, ts: Seq<Tree>, us: Seq<Tree>)
    requires
        us.len() == ts.len(),
        forall|i: int|
            0 <= i < ts.len() ==> a.rewritten(pass, #[trigger] ts[i]) == Ok::<Tree, Failure>(us[i]),
    ensures
        a.all_rewritten(pass, ts) == Ok::<Seq<Tree>, Failure>(us),
{
    lemma_all_rewritten(a, pass, ts);
    if let Ok(vs) = a.all_rewritten(pass, ts) {
        assert(vs =~= us) by {
            assert forall|i: int| 0 <= i < ts.len() implies vs[i] == us[i] by {
                assert(a.rewritten(pass, ts[i]) == Ok::<Tree, Failure>(vs[i]));
            }
        }
    }
}

proof fn lemma_first_failure(
    a: &SparkPhysicalExprAdapter,
    pass: Pass,
    ts: Seq<Tree>,
    i: int,
    f: Failure,
)
    requires
        0 <= i < ts.len(),
        a.rewritten(pass, ts[i]) == Err::<Tree, Failure>(f),
        forall|j: int| 0 <= j < i ==> a.rewritten(pass, #[trigger] ts[j]) is Ok,
    ensures
        a.all_rewritten(pass, ts) == Err::<Seq<Tree>, Failure>(f),
    decreases ts.len(),
{
    let t0 = ts.drop_last();
    if i == ts.len() - 1 {
        lemma_all_rewritten(a, pass, t0);
        assert forall|j: int| 0 <= j < t0.len() implies a.rewritten(
            pass,
            #[trigger] t0[j],
        ) is Ok by {
            assert(a.rewritten(pass, ts[j]) is Ok);
        }
    } else {
        assert forall|j: int| 0 <= j < i implies a.rewritten(pass, #[trigger] t0[j]) is Ok by {
            assert(a.rewritten(pass, ts[j]) is Ok);
        }
        lemma_first_failure(a, pass, t0, i, f);
    }
}

/// In every pass, a node that is not what the pass is about keeps everything but its operands, and
/// each of its operands is rewritten: none is left out, whatever node it is or stands under.
pub proof fn every_operand_is_rewritten(
    a: &SparkPhysicalExprAdapter,
    pass: Pass,
    t: Tree,
    us: Seq<Tree>,
)
    requires
        if pass is ReplaceCasts {
            !(t is Cast)
        } else {
            !(t is Column)
        },
        us.len() == operands(t).len(),
        forall|i: int|
            0 <= i < us.len() ==> a.rewritten(pass, #[trigger] operands(t)[i]) == Ok::<
                Tree,
                Failure,
            >(us[i]),
    ensures
        a.rewritten(pass, t) matches Ok(u) && same_node(t, u) && operands(u) == us,
{
    if let Tree::Other { children, .. } = t {
        lemma_all_done(a, pass, children, us);
    } else if operands(t).len() == 1 {
        assert(a.rewritten(pass, operands(t)[0]) == Ok::<Tree, Failure>(us[0]));
        assert(us =~= seq![us[0]]);
    } else {
        assert(us =~= seq![]);
    }
}

/// In every pass, a node fails with the failure of the first of its operands that does.
pub proof fn the_first_failing_operand_decides(
    a: &SparkPhysicalExprAdapter,
    pass: Pass,
    t: Tree,
    i: int,
    f: Failure,
)
    requires
        0 <= i < operands(t).len(),
        a.rewritten(pass, operands(t)[i]) == Err::<Tree, Failure>(f),
        forall|j: int| 0 <= j < i ==> a.rewritten(pass, #[trigger] operands(t)[j]) is Ok,
    ensures
        a.rewritten(pass, t) == Err::<Tree, Failure>(f),
{
    if let Tree::Other { children, .. } = t {
        lemma_first_failure(a, pass, children, i, f);
    }
}

/// The steps of adapting an expression are the passes over it.
pub proof fn each_step_is_a_pass(
    a: &SparkPhysicalExprAdapter,
    expr: Expr,
    r: Result<Expr, RewriteError>,
)
    ensures
        call_ensures(SparkPhysicalExprAdapter::replace_missing_with_defaults, (a, expr), r)
            ==> outcome(r) == a.rewritten(Pass::FillDefaults, expr@),
        call_ensures(SparkPhysicalExprAdapter::replace_casts, (a, expr), r) ==> outcome(r)
            == a.rewritten(Pass::ReplaceCasts, expr@),
        call_ensures(SparkPhysicalExprAdapter::wrap_all_type_mismatches, (a, expr), r) ==> outcome(
            r,
        ) == a.rewritten(Pass::WrapMismatches, expr@),
        call_ensures(SparkPhysicalExprAdapter::restore_names, (a, expr), r) ==> outcome(r)
            == a.rewritten(Pass::RestoreNames, expr@),
{
}

// ---------------------------------------------------------------------------------------------
// Columns and casts of an expression
// ---------------------------------------------------------------------------------------------

/// The lists of names of several expressions.
pub open spec fn name_lists(ts: Seq<Tree>) -> Seq<Seq<Seq<char>>> {
    Seq::new(ts.len(), |i: int| column_names(ts[i]))
}

proof fn lemma_all_column_names(ts: Seq<Tree>)
    ensures
        all_column_names(ts) == name_lists(ts).flatten(),
    decreases ts.len(),
{
    if ts.len() == 0 {
        assert(name_lists(ts) =~= seq![]);
        assert(name_lists(ts).flatten() =~= seq![]);
    } else {
        let t0 = ts.drop_last();
        lemma_all_column_names(t0);
        assert(name_lists(ts) =~= name_lists(t0).push(column_names(ts.last())));
        name_lists(t0).lemma_flatten_push(column_names(ts.last()));
    }
}

/// A column has its own name, and any other node the names of its operands, in order.
pub proof fn columns_are_listed_in_order(t: Tree)
    ensures
        match t {
            Tree::Column { name, .. } => column_names(t) == seq![name],
            _ => column_names(t) == name_lists(operands(t)).flatten(),
        },
{
    match t {
        Tree::Column { .. } => {},
        Tree::DefaultValue { .. } => {
            lemma_all_column_names(operands(t));
        },
        Tree::Other { children, .. } => {
            lemma_all_column_names(children);
        },
        _ => {
            let ts = operands(t);
            lemma_all_column_names(ts);
            assert(ts.drop_last() =~= seq![]);
            assert(all_column_names(ts.drop_last()) =~= seq![]);
            assert(all_column_names(ts) =~= column_names(ts[0]));
        },
    }
}

/// A plain cast stands in an expression if it is one, or one stands in an operand.
pub proof fn casts_are_found_at_any_depth(t: Tree)
    ensures
        has_cast(t) == (t is Cast || exists|i: int|
            0 <= i < operands(t).len() && has_cast(#[trigger] operands(t)[i])),
{
    match t {
        Tree::Column { .. } => {},
        Tree::DefaultValue { .. } => {},
        Tree::Other { children, .. } => {
            assert(operands(t) == children);
        },
        Tree::Cast { child, .. } => {
            assert(operands(t)[0] == *child);
        },
        Tree::Reject { child, .. } => {
            assert(operands(t)[0] == *child);
        },
        Tree::ParquetCast { child, .. } => {
            assert(operands(t)[0] == *child);
        },
        Tree::SparkCast { child, .. } => {
            assert(operands(t)[0] == *child);
        },
    }
}

/// The columns under plain casts are within the first `n` if and only if the node, where it is a
/// cast of a column, casts one of these, and all is well in every operand.
pub proof fn casts_are_checked_at_any_depth(t: Tree, n: int)
    ensures
        casts_in_range(t, n) == {
            &&& t matches Tree::Cast { child, .. } ==> (*child matches Tree::Column { index, .. }
                ==> index < n)
            &&& forall|i: int|
                0 <= i < operands(t).len() ==> casts_in_range(#[trigger] operands(t)[i], n)
        },
{
    match t {
        Tree::Column { .. } => {},
        Tree::DefaultValue { .. } => {},
        Tree::Other { children, .. } => {
            assert(operands(t) == children);
            assert(casts_in_range(t, n) == all_casts_in_range(children, n));
        },
        Tree::Cast { child, .. } => {
            assert(operands(t)[0] == *child);
        },
        Tree::Reject { child, .. } => {
            assert(operands(t)[0] == *child);
        },
        Tree::ParquetCast { child, .. } => {
            assert(operands(t)[0] == *child);
        },
        Tree::SparkCast { child, .. } => {
            assert(operands(t)[0] == *child);
        },
    }
}

/// Checking the columns under plain casts gives what holds of the expression.
pub proof fn checked_casts_are_in_range(expr: &Expr, n: usize, r: bool)
    requires
        call_ensures(casts_within, (expr, n), r),
    ensures
        r == casts_in_range(expr@, n as int),
{
}

} // verus!
