//! Rewriting expressions for a file: default values for columns that it lacks, casts that
//! convert as Spark does, and the names that its columns have.

use crate::adapter::{DefaultValue, SparkPhysicalExprAdapter};
use crate::case_tables::{CaseData, JvmCaseTables};
use crate::casts::{cast_verdict, decide_cast, holds_text, is_string_or_binary, CastVerdict};
use crate::errors::{
    bracketed, conversion_problem, in_brackets, parquet_schema_convert_err, reject_on_non_empty,
    rejection, Problem, SparkError,
};
use crate::expr::{
    all_casts_in_range, all_column_names, casts_in_range, column_names, operand_in_range, outcome,
    trees, Column, Expr, Failure, RewriteError, Tree,
};
use crate::lowercase::{data_of, names_equal_ignore_case_java, same_name};
use crate::remap::{matches_by_id, names_of};
use crate::schema::{
    as_position, field_id, index_by_name, index_of, is_named, parse_field_id, plain_field,
    same_type, schema_has_field_ids, types_equal, DataType, Field, FieldRef, FieldView, Schema,
};
use crate::search::{first_index, first_index_is_least, lemma_found, lemma_not_found};
use crate::string_map::StringMap;
use crate::text::{join, joined, texts};
use std::sync::Arc;
use vstd::prelude::*;
use vstd::string::*;

verus! {

/// One pass over an expression.
#[derive(PartialEq, Eq, Structural, Clone, Copy, Debug)]
pub enum Pass {
    /// Columns that the file lacks become default values.
    FillDefaults,
    /// Plain casts become casts that convert as Spark does.
    ReplaceCasts,
    /// Columns of another type than requested are cast.
    WrapMismatches,
    /// Columns get the names back that they have in the file.
    RestoreNames,
}

// ---------------------------------------------------------------------------------------------
// Duplicate columns
// ---------------------------------------------------------------------------------------------

/// The names of the fields that agree with `name` up to case, in order.
pub open spec fn names_like(
    fields: Seq<FieldRef>,
    name: Seq<char>,
    tables: Option<CaseData>,
) -> Seq<Seq<char>> {
    names_of(fields.filter(|f: FieldRef| same_name(f.name@, name, tables)))
}

/// The names of the fields that agree with `col_name` up to case.
fn collect_names_like(
    col_name: &str,
    schema: &Schema,
    case_tables: Option<&JvmCaseTables>,
) -> (r: Vec<String>)
    ensures
        texts(r@) == names_like(schema.fields@, col_name@, data_of(case_tables)),
{
    let mut out: Vec<String> = Vec::new();
    let ghost tables = data_of(case_tables);
    let ghost wanted = |f: FieldRef| same_name(f.name@, col_name@, tables);
    let ghost fields = schema.fields@;
    for i in 0..schema.fields.len()
        invariant
            fields == schema.fields@,
            tables == data_of(case_tables),
            wanted == (|f: FieldRef| same_name(f.name@, col_name@, tables)),
            texts(out@) == names_of(fields.take(i as int).filter(wanted)),
    {
        let field = &schema.fields[i];
        let ghost before = fields.take(i as int);
        proof {
            assert(fields.take(i + 1) =~= before.push(fields[i as int]));
            before.lemma_filter_push(fields[i as int], wanted);
        }
        if names_equal_ignore_case_java(field.name.as_str(), col_name, case_tables) {
            out.push(field.name.clone());
            proof {
                assert(texts(out@) =~= names_of(before.filter(wanted)).push(field.name@));
                assert(names_of(before.filter(wanted).push(fields[i as int])) =~= names_of(
                    before.filter(wanted),
                ).push(field.name@));
            }
        }
    }
    proof {
        assert(fields.take(fields.len() as int) =~= fields);
    }
    out
}

/// If more than one column of the file agrees with `col_name` up to case: the name, and the
/// names of those columns in brackets.
pub fn check_column_duplicate(
    col_name: &str,
    physical_schema: &Schema,
    case_tables: Option<&JvmCaseTables>,
) -> (r: Option<(String, String)>)
    ensures
        ({
            let matched = names_like(physical_schema.fields@, col_name@, data_of(case_tables));
            match r {
                Some((name, shown)) => {
                    &&& matched.len() > 1
                    &&& name@ == col_name@
                    &&& shown@ == in_brackets(joined(matched, ", "@))
                },
                None => matched.len() <= 1,
            }
        }),
{
    let matched = collect_names_like(col_name, physical_schema, case_tables);
    assert(texts(matched@).len() == matched@.len());
    if matched.len() > 1 {
        Some((col_name.to_owned(), bracketed(join(&matched, ", ").as_str())))
    } else {
        None
    }
}

impl SparkPhysicalExprAdapter {
    /// Whether the column of this name is requested by identifier.
    pub open spec fn is_routed_by_id(&self, name: Seq<char>) -> bool {
        let logical = self.logical_file_schema.fields@;
        &&& matches_by_id(logical, self.parquet_options.use_field_id)
        &&& index_by_name(logical, name) matches Some(k)
        &&& field_id(*logical[k]) is Some
    }

    /// The problem that more than one column of the file has this name up to case. Names count
    /// only where they are matched up to case, and not for columns requested by identifier.
    pub open spec fn duplicate_of(&self, name: Seq<char>) -> Option<Problem> {
        match self.original_physical_schema {
            Some(schema) => {
                let matched = names_like(
                    schema.fields@,
                    name,
                    data_of(self.parquet_options.tables()),
                );
                if !self.is_routed_by_id(name) && matched.len() > 1 {
                    Some(
                        Problem::DuplicateName {
                            required_field_name: name,
                            matched_fields: in_brackets(joined(matched, ", "@)),
                        },
                    )
                } else {
                    None
                }
            },
            None => None,
        }
    }

    /// The problem of the last of these names that has one.
    pub open spec fn last_duplicate(&self, names: Seq<Seq<char>>) -> Option<Problem>
        decreases names.len(),
    {
        if names.len() == 0 {
            None
        } else {
            match self.duplicate_of(names.last()) {
                Some(p) => Some(p),
                None => self.last_duplicate(names.drop_last()),
            }
        }
    }

    proof fn lemma_last_duplicate_concat(&self, a: Seq<Seq<char>>, b: Seq<Seq<char>>)
        ensures
            self.last_duplicate(a + b) == match self.last_duplicate(b) {
                Some(p) => Some(p),
                None => self.last_duplicate(a),
            },
        decreases b.len(),
    {
        if b.len() == 0 {
            assert(a + b =~= a);
        } else {
            assert((a + b).drop_last() =~= a + b.drop_last());
            assert((a + b).last() == b.last());
            self.lemma_last_duplicate_concat(a, b.drop_last());
        }
    }

    fn check_duplicate(&self, name: &String, schema: &Schema) -> (r: Option<SparkError>)
        requires
            self.original_physical_schema matches Some(s) && *s == *schema,
        ensures
            match r {
                Some(e) => self.duplicate_of(name@) == Some(e@),
                None => self.duplicate_of(name@) is None,
            },
    {
        let match_by_id: bool = self.parquet_options.use_field_id && schema_has_field_ids(
            &self.logical_file_schema,
        );
        let id_routed: bool = match_by_id && match index_of(&self.logical_file_schema, name) {
            Some(k) => {
                proof {
                    let n = name@;
                    first_index_is_least(
                        self.logical_file_schema.fields@,
                        |f: FieldRef| is_named(f, n),
                    );
                }
                parse_field_id(&self.logical_file_schema.fields[k]).is_some()
            },
            None => false,
        };
        if id_routed {
            return None;
        }
        match check_column_duplicate(
            name.as_str(),
            schema,
            self.parquet_options.case_tables(),
        ) {
            Some((required_field_name, matched_fields)) => Some(
                SparkError::DuplicateFieldCaseInsensitive { required_field_name, matched_fields },
            ),
            None => None,
        }
    }

    /// The error of the last duplicate column of an expression.
    fn find_duplicate(&self, expr: &Expr, schema: &Schema) -> (r: Option<SparkError>)
        requires
            self.original_physical_schema matches Some(s) && *s == *schema,
        ensures
            match r {
                Some(e) => self.last_duplicate(column_names(expr@)) == Some(e@),
                None => self.last_duplicate(column_names(expr@)) is None,
            },
        decreases expr,
    {
        match expr {
            Expr::Column(c) => {
                proof {
                    let names = column_names(expr@);
                    assert(names.drop_last() =~= Seq::<Seq<char>>::empty());
                    reveal_with_fuel(SparkPhysicalExprAdapter::last_duplicate, 2);
                }
                self.check_duplicate(&c.name, schema)
            },
            Expr::DefaultValue { .. } => None,
            Expr::Cast { child, .. } => self.find_duplicate(child, schema),
            Expr::Other { children, .. } => self.find_duplicate_in(children, schema),
            Expr::Reject { child, .. } => self.find_duplicate(child, schema),
            Expr::ParquetCast { child, .. } => self.find_duplicate(child, schema),
            Expr::SparkCast { child, .. } => self.find_duplicate(child, schema),
        }
    }

    /// The error of the last duplicate column of several expressions.
    fn find_duplicate_in(&self, exprs: &Vec<Expr>, schema: &Schema) -> (r: Option<SparkError>)
        requires
            self.original_physical_schema matches Some(s) && *s == *schema,
        ensures
            match r {
                Some(e) => self.last_duplicate(all_column_names(trees(exprs@))) == Some(e@),
                None => self.last_duplicate(all_column_names(trees(exprs@))) is None,
            },
        decreases exprs,
    {
        let mut found: Option<SparkError> = None;
        let ghost ts = trees(exprs@);
        proof {
            assert(ts.take(0) =~= Seq::<Tree>::empty());
        }
        for i in 0..exprs.len()
            invariant
                ts == trees(exprs@),
                self.original_physical_schema matches Some(s) && *s == *schema,
                match found {
                    Some(e) => self.last_duplicate(all_column_names(ts.take(i as int))) == Some(e@),
                    None => self.last_duplicate(all_column_names(ts.take(i as int))) is None,
                },
        {
            proof {
                assert(decreases_to!(*exprs => exprs@));
                assert(decreases_to!(exprs@ => exprs@[i as int]));
                assert(ts.take(i + 1).drop_last() =~= ts.take(i as int));
                assert(ts.take(i + 1).last() == exprs@[i as int]@);
                self.lemma_last_duplicate_concat(
                    all_column_names(ts.take(i as int)),
                    column_names(exprs@[i as int]@),
                );
            }
            if let Some(e) = self.find_duplicate(&exprs[i], schema) {
                found = Some(e);
            }
        }
        proof {
            assert(ts.take(ts.len() as int) =~= ts);
        }
        found
    }
}

// ---------------------------------------------------------------------------------------------
// What becomes of one node
// ---------------------------------------------------------------------------------------------

/// The position of the last default value for a column of this name.
pub open spec fn last_default(defaults: Seq<DefaultValue>, name: Seq<char>) -> Option<int>
    decreases defaults.len(),
{
    if defaults.len() == 0 {
        None
    } else if defaults.last().column.name@ == name {
        Some(defaults.len() - 1)
    } else {
        last_default(defaults.drop_last(), name)
    }
}

impl SparkPhysicalExprAdapter {
    /// Whether a field is found under this name: exactly, or up to case.
    pub open spec fn is_found(&self, field: FieldRef, name: Seq<char>) -> bool {
        if self.parquet_options.case_sensitive {
            field.name@ == name
        } else {
            same_name(field.name@, name, data_of(self.parquet_options.tables()))
        }
    }

    /// The position of the first field that is found under this name.
    pub open spec fn position(&self, fields: Seq<FieldRef>, name: Seq<char>) -> Option<int> {
        first_index(fields, |f: FieldRef| self.is_found(f, name))
    }

    /// The default values.
    pub open spec fn defaults(&self) -> Seq<DefaultValue> {
        match self.default_values {
            Some(d) => d@,
            None => seq![],
        }
    }

    /// The type to which the default value at this position is to be converted: that of the
    /// requested field of its name, if it is another than the value's own.
    pub open spec fn default_target(&self, position: int) -> Option<Arc<DataType>> {
        let logical = self.logical_file_schema.fields@;
        let default = self.defaults()[position];
        match index_by_name(logical, default.column.name@) {
            Some(k) => if same_type(*default.data_type, *logical[k].data_type) {
                None
            } else {
                Some(logical[k].data_type)
            },
            None => None,
        }
    }

    /// A column that the file lacks becomes the last default value of its name.
    pub open spec fn filled(&self, t: Tree) -> Tree {
        match t {
            Tree::Column { name, .. } => match (
                self.position(self.physical_file_schema.fields@, name),
                last_default(self.defaults(), name),
            ) {
                (None, Some(j)) => Tree::DefaultValue {
                    position: j as usize,
                    convert_to: self.default_target(j),
                },
                _ => t,
            },
            _ => t,
        }
    }

    /// The field that a cast converts: the column that is cast, or a made-up field for any
    /// other operand.
    pub open spec fn cast_input(
        &self,
        child: Tree,
        child_type: Option<Arc<DataType>>,
        target_field: FieldView,
    ) -> Option<FieldView> {
        match child {
            Tree::Column { index, .. } => Some(
                self.physical_file_schema.fields@[index as int]@,
            ),
            _ => match child_type {
                Some(t) => Some(plain_field(target_field.name, *t, true)),
                None => None,
            },
        }
    }

    /// A plain cast becomes what the rules for conversions say.
    pub open spec fn cast_replaced(&self, t: Tree) -> Result<Tree, Failure> {
        match t {
            Tree::Cast { node, child, child_type, target_field } => match self.cast_input(
                *child,
                child_type,
                target_field,
            ) {
                Some(input) => {
                    let physical = input.data_type;
                    let target = target_field.data_type;
                    match cast_verdict(
                        physical,
                        target,
                        self.parquet_options.allow_type_promotion,
                        self.parquet_options.allow_timestamp_ltz_to_ntz,
                    ) {
                        CastVerdict::Identity => Ok(*child),
                        CastVerdict::Refused => Err(
                            Failure::Spark(conversion_problem(input.name, physical, target)),
                        ),
                        CastVerdict::RefusedOnRows => Ok(
                            Tree::Reject {
                                child,
                                rejection: rejection(target_field, input.name, physical),
                            },
                        ),
                        CastVerdict::ParquetConvert => Ok(
                            Tree::ParquetCast {
                                child,
                                input_field: input,
                                target_field,
                                options: self.parquet_options,
                            },
                        ),
                        CastVerdict::SparkCast => Ok(
                            Tree::SparkCast {
                                child,
                                target_type: target,
                                cast_options: self.parquet_options.adapting_cast(),
                            },
                        ),
                    }
                },
                None => Err(Failure::UntypedOperand(node)),
            },
            _ => Ok(t),
        }
    }

    /// A column that both schemas have gets its position in the file, and is cast where the
    /// requested type is another.
    pub open spec fn wrapped(&self, t: Tree) -> Result<Tree, Failure> {
        let logical = self.logical_file_schema.fields@;
        let physical = self.physical_file_schema.fields@;
        match t {
            Tree::Column { name, index } => match (
                self.position(logical, name),
                self.position(physical, name),
            ) {
                (Some(l), Some(p)) => {
                    let stored = *physical[p].data_type;
                    let wanted = *logical[l].data_type;
                    let column = Tree::Column { name, index: p as usize };
                    if same_type(wanted, stored) {
                        Ok(column)
                    } else if holds_text(stored) && !holds_text(wanted) {
                        Err(
                            Failure::Spark(
                                conversion_problem(physical[p].name@, stored, wanted),
                            ),
                        )
                    } else {
                        Ok(
                            Tree::ParquetCast {
                                child: Box::new(column),
                                input_field: physical[p]@,
                                target_field: logical[l]@,
                                options: self.parquet_options,
                            },
                        )
                    }
                },
                _ => Ok(t),
            },
            _ => Ok(t),
        }
    }

    /// A column that was renamed gets the name back that it has in the file.
    pub open spec fn restored(&self, t: Tree) -> Tree {
        match (t, self.logical_to_physical_names) {
            (Tree::Column { name, index }, Some(names)) => if names@.contains_key(name) {
                Tree::Column { name: names@[name], index }
            } else {
                t
            },
            _ => t,
        }
    }

    /// What becomes of a node in a pass, once its operands are done.
    pub open spec fn image(&self, pass: Pass, t: Tree) -> Result<Tree, Failure> {
        match pass {
            Pass::FillDefaults => Ok(self.filled(t)),
            Pass::ReplaceCasts => self.cast_replaced(t),
            Pass::WrapMismatches => self.wrapped(t),
            Pass::RestoreNames => Ok(self.restored(t)),
        }
    }

    /// What becomes of an expression in a pass: operands come first, from left to right, and
    /// the first failure ends the pass.
    pub open spec fn rewritten(&self, pass: Pass, t: Tree) -> Result<Tree, Failure>
        decreases t,
    {
        match t {
            Tree::Column { .. } => self.image(pass, t),
            Tree::DefaultValue { .. } => self.image(pass, t),
            Tree::Cast { node, child, child_type, target_field } => match self.rewritten(
                pass,
                *child,
            ) {
                Ok(c) => self.image(
                    pass,
                    Tree::Cast { node, child: Box::new(c), child_type, target_field },
                ),
                Err(f) => Err(f),
            },
            Tree::Other { node, children } => match self.all_rewritten(pass, children) {
                Ok(cs) => self.image(pass, Tree::Other { node, children: cs }),
                Err(f) => Err(f),
            },
            Tree::Reject { child, rejection } => match self.rewritten(pass, *child) {
                Ok(c) => self.image(pass, Tree::Reject { child: Box::new(c), rejection }),
                Err(f) => Err(f),
            },
            Tree::ParquetCast { child, input_field, target_field, options } => match self.rewritten(
                pass,
                *child,
            ) {
                Ok(c) => self.image(
                    pass,
                    Tree::ParquetCast { child: Box::new(c), input_field, target_field, options },
                ),
                Err(f) => Err(f),
            },
            Tree::SparkCast { child, target_type, cast_options } => match self.rewritten(
                pass,
                *child,
            ) {
                Ok(c) => self.image(
                    pass,
                    Tree::SparkCast { child: Box::new(c), target_type, cast_options },
                ),
                Err(f) => Err(f),
            },
        }
    }

    /// What becomes of several expressions in a pass.
    pub open spec fn all_rewritten(&self, pass: Pass, ts: Seq<Tree>) -> Result<Seq<Tree>, Failure>
        decreases ts,
    {
        if ts.len() == 0 {
            Ok(seq![])
        } else {
            match self.all_rewritten(pass, ts.drop_last()) {
                Ok(done) => match self.rewritten(pass, ts.last()) {
                    Ok(t) => Ok(done.push(t)),
                    Err(f) => Err(f),
                },
                Err(f) => Err(f),
            }
        }
    }
}

// ---------------------------------------------------------------------------------------------
// Rewriting one node
// ---------------------------------------------------------------------------------------------

impl SparkPhysicalExprAdapter {
    /// The position of the first field that is found under `name`.
    fn find_field(&self, schema: &Schema, name: &String) -> (r: Option<usize>)
        ensures
            as_position(r) == self.position(schema.fields@, name@),
            r matches Some(i) ==> i < schema.fields@.len(),
    {
        let ghost wanted = |f: FieldRef| self.is_found(f, name@);
        for i in 0..schema.fields.len()
            invariant
                wanted == (|f: FieldRef| self.is_found(f, name@)),
                forall|j: int| 0 <= j < i ==> !wanted(#[trigger] schema.fields@[j]),
        {
            let field = &schema.fields[i];
            let found = if self.parquet_options.case_sensitive {
                field.name == *name
            } else {
                names_equal_ignore_case_java(
                    field.name.as_str(),
                    name.as_str(),
                    self.parquet_options.case_tables(),
                )
            };
            if found {
                proof {
                    lemma_found(schema.fields@, wanted, i as int);
                }
                return Some(i);
            }
        }
        proof {
            lemma_not_found(schema.fields@, wanted);
        }
        None
    }

    /// The position of the last default value for a column of this name.
    fn find_default(&self, name: &String) -> (r: Option<usize>)
        ensures
            as_position(r) == last_default(self.defaults(), name@),
            r matches Some(j) ==> j < self.defaults().len(),
    {
        let defaults: &Vec<DefaultValue> = match &self.default_values {
            Some(d) => d,
            None => return None,
        };
        let mut n: usize = defaults.len();
        proof {
            assert(defaults@.take(n as int) =~= defaults@);
        }
        while n > 0
            invariant
                n <= defaults@.len(),
                defaults@ == self.defaults(),
                last_default(defaults@, name@) == last_default(defaults@.take(n as int), name@),
            decreases n,
        {
            proof {
                let t = defaults@.take(n as int);
                assert(t.drop_last() =~= defaults@.take(n - 1));
                assert(t.last() == defaults@[n - 1]);
            }
            if defaults[n - 1].column.name == *name {
                return Some(n - 1);
            }
            n = n - 1;
        }
        None
    }

    /// The type to which the default value at this position is to be converted.
    fn find_default_target(&self, position: usize) -> (r: Option<Arc<DataType>>)
        requires
            position < self.defaults().len(),
        ensures
            r == self.default_target(position as int),
    {
        let defaults: &Vec<DefaultValue> = match &self.default_values {
            Some(d) => d,
            None => return None,
        };
        let default = &defaults[position];
        match index_of(&self.logical_file_schema, &default.column.name) {
            Some(k) => {
                proof {
                    let n = default.column.name@;
                    first_index_is_least(
                        self.logical_file_schema.fields@,
                        |f: FieldRef| is_named(f, n),
                    );
                }
                let field = &self.logical_file_schema.fields[k];
                if types_equal(&default.data_type, &field.data_type) {
                    None
                } else {
                    Some(Arc::clone(&field.data_type))
                }
            },
            None => None,
        }
    }

    /// Replaces a column that the file lacks with its default value.
    fn fill_default(&self, column: Column) -> (r: Expr)
        ensures
            r@ == self.filled(Expr::Column(column)@),
    {
        if self.find_field(&self.physical_file_schema, &column.name).is_none() {
            if let Some(position) = self.find_default(&column.name) {
                let convert_to = self.find_default_target(position);
                return Expr::DefaultValue { position, convert_to };
            }
        }
        Expr::Column(column)
    }

    /// Gives a renamed column the name back that it has in the file.
    fn restore_name(&self, column: Column) -> (r: Expr)
        ensures
            r@ == self.restored(Expr::Column(column)@),
    {
        if let Some(names) = &self.logical_to_physical_names {
            if let Some(name) = names.get(column.name.as_str()) {
                return Expr::Column(Column { name: name.clone(), index: column.index });
            }
        }
        Expr::Column(column)
    }

    /// Gives a column its position in the file, and casts it where the requested type is
    /// another.
    fn wrap_type_mismatch(&self, column: Column) -> (r: Result<Expr, RewriteError>)
        ensures
            outcome(r) == self.wrapped(Expr::Column(column)@),
    {
        let l: usize = match self.find_field(&self.logical_file_schema, &column.name) {
            Some(l) => l,
            None => return Ok(Expr::Column(column)),
        };
        let p: usize = match self.find_field(&self.physical_file_schema, &column.name) {
            Some(p) => p,
            None => return Ok(Expr::Column(column)),
        };
        let logical_field = &self.logical_file_schema.fields[l];
        let physical_field = &self.physical_file_schema.fields[p];
        let ghost name = column.name@;
        let remapped = Expr::Column(Column { name: column.name, index: p });
        assert(remapped.tree() == (Tree::Column { name, index: p }));
        if types_equal(&logical_field.data_type, &physical_field.data_type) {
            return Ok(remapped);
        }
        if is_string_or_binary(&physical_field.data_type) && !is_string_or_binary(
            &logical_field.data_type,
        ) {
            return Err(
                RewriteError::Spark(
                    parquet_schema_convert_err(
                        physical_field.name.as_str(),
                        &physical_field.data_type,
                        &logical_field.data_type,
                    ),
                ),
            );
        }
        Ok(
            Expr::ParquetCast {
                child: Box::new(remapped),
                input_field: Arc::clone(physical_field),
                target_field: Arc::clone(logical_field),
                options: Arc::clone(&self.parquet_options),
            },
        )
    }

    /// Replaces a plain cast with what the rules for conversions say.
    fn replace_with_spark_cast(
        &self,
        node: usize,
        child: Box<Expr>,
        child_type: Option<Arc<DataType>>,
        target_field: FieldRef,
    ) -> (r: Result<Expr, RewriteError>)
        requires
            operand_in_range(child@, self.physical_file_schema.fields@.len() as int),
        ensures
            outcome(r) == self.cast_replaced(
                Expr::Cast { node, child, child_type, target_field }@,
            ),
    {
        let input_field: FieldRef = match &*child {
            Expr::Column(c) => Arc::clone(&self.physical_file_schema.fields[c.index]),
            _ => match child_type {
                Some(t) => Arc::new(
                    Field {
                        name: target_field.name.clone(),
                        data_type: t,
                        nullable: true,
                        metadata: Arc::new(StringMap::new()),
                    },
                ),
                None => return Err(RewriteError::UntypedOperand(node)),
            },
        };
        match decide_cast(
            &input_field.data_type,
            &target_field.data_type,
            self.parquet_options.allow_type_promotion,
            self.parquet_options.allow_timestamp_ltz_to_ntz,
        ) {
            CastVerdict::Identity => Ok(*child),
            CastVerdict::Refused => Err(
                RewriteError::Spark(
                    parquet_schema_convert_err(
                        input_field.name.as_str(),
                        &input_field.data_type,
                        &target_field.data_type,
                    ),
                ),
            ),
            CastVerdict::RefusedOnRows => {
                let rejection = reject_on_non_empty(
                    &target_field,
                    input_field.name.as_str(),
                    &input_field.data_type,
                );
                Ok(Expr::Reject { child, rejection })
            },
            CastVerdict::ParquetConvert => Ok(
                Expr::ParquetCast {
                    child,
                    input_field,
                    target_field,
                    options: Arc::clone(&self.parquet_options),
                },
            ),
            CastVerdict::SparkCast => Ok(
                Expr::SparkCast {
                    child,
                    target_type: Arc::clone(&target_field.data_type),
                    cast_options: self.parquet_options.cast_options(),
                },
            ),
        }
    }

    /// Rewrites a node whose operands are done.
    fn rewrite_node(&self, pass: Pass, expr: Expr) -> (r: Result<Expr, RewriteError>)
        requires
            pass is ReplaceCasts ==> (expr@ matches Tree::Cast { child, .. } ==> operand_in_range(
                *child,
                self.physical_file_schema.fields@.len() as int,
            )),
        ensures
            outcome(r) == self.image(pass, expr@),
    {
        match (pass, expr) {
            (Pass::FillDefaults, Expr::Column(c)) => Ok(self.fill_default(c)),
            (Pass::WrapMismatches, Expr::Column(c)) => self.wrap_type_mismatch(c),
            (Pass::RestoreNames, Expr::Column(c)) => Ok(self.restore_name(c)),
            (
                Pass::ReplaceCasts,
                Expr::Cast { node, child, child_type, target_field },
            ) => self.replace_with_spark_cast(node, child, child_type, target_field),
            (_, e) => Ok(e),
        }
    }
}

// ---------------------------------------------------------------------------------------------
// Rewriting an expression
// ---------------------------------------------------------------------------------------------

impl SparkPhysicalExprAdapter {
    /// A column that comes out of replacing casts was there before, alone or under a cast.
    proof fn lemma_columns_stay_in_range(&self, t: Tree, n: int)
        requires
            casts_in_range(t, n),
        ensures
            self.rewritten(Pass::ReplaceCasts, t) matches Ok(u) ==> u == t || operand_in_range(
                u,
                n,
            ),
        decreases t,
    {
        if let Tree::Cast { child, .. } = t {
            self.lemma_columns_stay_in_range(*child, n);
        }
    }

    /// Rewrites the operands of a node and then the node.
    fn transform(&self, pass: Pass, expr: Expr) -> (r: Result<Expr, RewriteError>)
        requires
            pass is ReplaceCasts ==> casts_in_range(
                expr@,
                self.physical_file_schema.fields@.len() as int,
            ),
        ensures
            outcome(r) == self.rewritten(pass, expr@),
        decreases expr,
    {
        proof {
            if pass is ReplaceCasts {
                if let Tree::Cast { child, .. } = expr@ {
                    self.lemma_columns_stay_in_range(
                        *child,
                        self.physical_file_schema.fields@.len() as int,
                    );
                }
            }
        }
        let done = match expr {
            Expr::Column(c) => Expr::Column(c),
            Expr::DefaultValue { position, convert_to } => Expr::DefaultValue {
                position,
                convert_to,
            },
            Expr::Cast { node, child, child_type, target_field } => {
                match self.transform(pass, *child) {
                    Ok(c) => Expr::Cast { node, child: Box::new(c), child_type, target_field },
                    Err(e) => return Err(e),
                }
            },
            Expr::Other { node, children } => {
                match self.transform_all(pass, children) {
                    Ok(children) => Expr::Other { node, children },
                    Err(e) => return Err(e),
                }
            },
            Expr::Reject { child, rejection } => {
                match self.transform(pass, *child) {
                    Ok(c) => Expr::Reject { child: Box::new(c), rejection },
                    Err(e) => return Err(e),
                }
            },
            Expr::ParquetCast { child, input_field, target_field, options } => {
                match self.transform(pass, *child) {
                    Ok(c) => Expr::ParquetCast {
                        child: Box::new(c),
                        input_field,
                        target_field,
                        options,
                    },
                    Err(e) => return Err(e),
                }
            },
            Expr::SparkCast { child, target_type, cast_options } => {
                match self.transform(pass, *child) {
                    Ok(c) => Expr::SparkCast { child: Box::new(c), target_type, cast_options },
                    Err(e) => return Err(e),
                }
            },
        };
        self.rewrite_node(pass, done)
    }

    /// Rewrites several expressions, in order.
    fn transform_all(&self, pass: Pass, exprs: Vec<Expr>) -> (r: Result<Vec<Expr>, RewriteError>)
        requires
            pass is ReplaceCasts ==> all_casts_in_range(
                trees(exprs@),
                self.physical_file_schema.fields@.len() as int,
            ),
        ensures
            match r {
                Ok(done) => self.all_rewritten(pass, trees(exprs@)) == Ok::<Seq<Tree>, Failure>(
                    trees(done@),
                ),
                Err(e) => self.all_rewritten(pass, trees(exprs@)) == Err::<Seq<Tree>, Failure>(e@),
            },
        decreases exprs,
    {
        let mut done: Vec<Expr> = Vec::new();
        let ghost all = exprs@;
        let ghost ts = trees(all);
        proof {
            assert(decreases_to!(exprs => all));
            assert(ts.take(0) =~= seq![]);
            assert(trees(done@) =~= seq![]);
        }
        for expr in it: exprs
            invariant
                it.seq() == all,
                ts == trees(all),
                decreases_to!(exprs => all),
                pass is ReplaceCasts ==> all_casts_in_range(
                    ts,
                    self.physical_file_schema.fields@.len() as int,
                ),
                self.all_rewritten(pass, ts.take(it.index() as int)) == Ok::<Seq<Tree>, Failure>(
                    trees(done@),
                ),
        {
            let ghost i = it.index() as int;
            let ghost before = done@;
            proof {
                assert(decreases_to!(all => all[i]));
                assert(ts.take(i + 1).drop_last() =~= ts.take(i));
                assert(ts.take(i + 1).last() == ts[i]);
                assert(ts[i] == expr@);
            }
            match self.transform(pass, expr) {
                Ok(e) => {
                    done.push(e);
                    assert(trees(done@) =~= trees(before).push(e@));
                },
                Err(e) => {
                    proof {
                        self.lemma_failure_spreads(pass, ts, i + 1);
                    }
                    return Err(e);
                },
            }
        }
        proof {
            assert(ts.take(ts.len() as int) =~= ts);
        }
        Ok(done)
    }

    /// A failure among the first `n` expressions is the failure of all.
    proof fn lemma_failure_spreads(&self, pass: Pass, ts: Seq<Tree>, n: int)
        requires
            0 <= n <= ts.len(),
            self.all_rewritten(pass, ts.take(n)) is Err,
        ensures
            self.all_rewritten(pass, ts) == self.all_rewritten(pass, ts.take(n)),
        decreases ts.len() - n,
    {
        if n < ts.len() {
            assert(ts.take(n + 1).drop_last() =~= ts.take(n));
            self.lemma_failure_spreads(pass, ts, n + 1);
        } else {
            assert(ts.take(n) =~= ts);
        }
    }
}

// ---------------------------------------------------------------------------------------------
// The steps of adapting an expression
// ---------------------------------------------------------------------------------------------

/// The outcome of `pass` on the outcome of what came before it.
pub open spec fn followed_by(
    adapter: &SparkPhysicalExprAdapter,
    before: Result<Tree, Failure>,
    pass: Pass,
) -> Result<Tree, Failure> {
    match before {
        Ok(t) => adapter.rewritten(pass, t),
        Err(f) => Err(f),
    }
}

impl SparkPhysicalExprAdapter {
    /// Replaces the columns that the file lacks with default values.
    pub fn replace_missing_with_defaults(&self, expr: Expr) -> (r: Result<Expr, RewriteError>)
        ensures
            outcome(r) == self.rewritten(Pass::FillDefaults, expr@),
    {
        self.transform(Pass::FillDefaults, expr)
    }

    /// Replaces the plain casts of an expression with casts that convert as Spark does.
    pub fn replace_casts(&self, expr: Expr) -> (r: Result<Expr, RewriteError>)
        requires
            casts_in_range(expr@, self.physical_file_schema.fields@.len() as int),
        ensures
            outcome(r) == self.rewritten(Pass::ReplaceCasts, expr@),
    {
        self.transform(Pass::ReplaceCasts, expr)
    }

    /// Casts every column of another type than requested, in an expression over the query's
    /// columns.
    pub fn wrap_all_type_mismatches(&self, expr: Expr) -> (r: Result<Expr, RewriteError>)
        ensures
            outcome(r) == self.rewritten(Pass::WrapMismatches, expr@),
    {
        self.transform(Pass::WrapMismatches, expr)
    }

    /// Gives the renamed columns of an expression the names back that they have in the file.
    pub fn restore_names(&self, expr: Expr) -> (r: Result<Expr, RewriteError>)
        ensures
            outcome(r) == self.rewritten(Pass::RestoreNames, expr@),
    {
        self.transform(Pass::RestoreNames, expr)
    }

    /// What stands before the general adaptation of an expression: a column that the file has
    /// more than once is refused, and columns that it lacks become default values.
    pub open spec fn begun(&self, t: Tree) -> Result<Tree, Failure> {
        match self.last_duplicate(column_names(t)) {
            Some(p) => Err(Failure::Spark(p)),
            None => self.rewritten(Pass::FillDefaults, t),
        }
    }

    /// What comes after the general adaptation of an expression. `adapted` is what came out of
    /// it, with plain casts where types differ; it is absent where the adaptation failed, and
    /// `begun` is then cast column by column.
    pub open spec fn finished(&self, begun: Tree, adapted: Option<Tree>) -> Result<Tree, Failure> {
        followed_by(
            self,
            match adapted {
                Some(t) => self.rewritten(Pass::ReplaceCasts, t),
                None => self.rewritten(Pass::WrapMismatches, begun),
            },
            Pass::RestoreNames,
        )
    }

    /// The first half of rewriting `expr`, up to the general adaptation of expressions.
    pub fn begin_rewrite(&self, expr: Expr) -> (r: Result<Expr, RewriteError>)
        ensures
            outcome(r) == self.begun(expr@),
    {
        match &self.original_physical_schema {
            Some(schema) => {
                if let Some(e) = self.find_duplicate(&expr, schema) {
                    return Err(RewriteError::Spark(e));
                }
            },
            None => {
                proof {
                    self.lemma_no_duplicates(column_names(expr@));
                }
            },
        }
        self.replace_missing_with_defaults(expr)
    }

    /// The second half of rewriting an expression. `begun` came out of the first half, and
    /// `adapted` out of its general adaptation, if that did not fail.
    pub fn finish_rewrite(&self, begun: Expr, adapted: Option<Expr>) -> (r: Result<
        Expr,
        RewriteError,
    >)
        requires
            adapted matches Some(e) ==> casts_in_range(
                e@,
                self.physical_file_schema.fields@.len() as int,
            ),
        ensures
            outcome(r) == self.finished(
                begun@,
                match adapted {
                    Some(e) => Some(e@),
                    None => None,
                },
            ),
    {
        let cast = match adapted {
            Some(e) => self.replace_casts(e),
            None => self.wrap_all_type_mismatches(begun),
        };
        match cast {
            Ok(e) => self.restore_names(e),
            Err(e) => Err(e),
        }
    }

    proof fn lemma_no_duplicates(&self, names: Seq<Seq<char>>)
        requires
            self.original_physical_schema is None,
        ensures
            self.last_duplicate(names) is None,
        decreases names.len(),
    {
        if names.len() > 0 {
            self.lemma_no_duplicates(names.drop_last());
        }
    }
}

} // verus!
