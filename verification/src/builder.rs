use vstd::prelude::*;
use vstd::string::StringExecFns;
use std::sync::Arc;
use crate::arena::Arena;
use crate::arena::Node;
use crate::dtype::DataType;
use crate::error::ErrorKind;
use crate::error::PlanError;
use crate::expr::all_resolve;
use crate::expr::expr_irs_to_schema;
use crate::expr::expr_fields;
use crate::expr::extends;
use crate::expr::exprs_schema;
use crate::expr::first_failure;
use crate::expr::resolve;
use crate::expr::resolve_node;
use crate::expr::to_aexpr;
use crate::expr::Expr;
use crate::expr::Naming;
use crate::expr::OutputName;
use crate::expr::lemma_no_failure;
use crate::expr::try_expr_irs_to_schema;
use crate::expr::AExpr;
use crate::expr::Context;
use crate::expr::ExprIR;
use crate::ir::exploded;
use crate::ir::texts;
use crate::ir::unpivoted;
use crate::ir::with_row_index;
use crate::ir::ir_schema;
use crate::ir::lemma_schema_of_prefix;
use crate::ir::node_schema;
use crate::ir::plan_is_wf;
use crate::ir::plan_wf;
use crate::ir::schema_of;
use crate::ir::CachedSchema;
use crate::ir::FunctionIR;
use crate::ir::IR;
use crate::join::det_join_schema;
use crate::join::join_schema;
use crate::optimize::coerced_ir;
use crate::optimize::node_failure;
use crate::optimize::optimize_node;
use crate::options::GroupbyOptions;
use crate::options::IdxSize;
use crate::options::JoinOptionsIR;
use crate::options::UdfRef;
use crate::options::ProjectionOptions;
use crate::options::SortMultipleOptions;
use crate::options::UnpivotArgsIR;
use crate::schema::columns_of;
use crate::schema::dtype_of;
use crate::schema::has_column;
use crate::schema::lemma_collected;
use crate::schema::lemma_merge_distinct;
use crate::schema::names_unique;
use crate::schema::merge;
use crate::schema::with_column;
use crate::schema::without_all;
use crate::schema::Columns;
use crate::schema::Field;
use crate::schema::Schema;

verus! {

/// A cursor over a plan that is being built: the handle of the plan's
/// current root, and the two arenas that hold its nodes and expressions.
/// Each step takes the builder and gives back the builder of the longer plan.
pub struct IRBuilder<'a> {
    pub root: Node,
    pub expr_arena: &'a mut Arena<AExpr>,
    pub lp_arena: &'a mut Arena<IR>,
}

/// `after` is `before` with the node `ir` in one more slot, and `root` is
/// that slot's handle.
pub open spec fn appended(before: Seq<IR>, after: Seq<IR>, root: Node, ir: IR) -> bool {
    &&& after == before.push(ir)
    &&& root.0 == before.len()
}

/// The first of `names` that is no column of `cols`, if there is one.
pub open spec fn first_missing(cols: Columns, names: Seq<Seq<char>>) -> Option<Seq<char>>
    decreases names.len(),
{
    if names.len() == 0 {
        None
    } else {
        match first_missing(cols, names.drop_last()) {
            Some(m) => Some(m),
            None => if has_column(cols, names.last()) {
                None
            } else {
                Some(names.last())
            },
        }
    }
}

/// The columns of `cols` called `names`, one for each name, in the order of
/// `names`.
pub open spec fn picked(cols: Columns, names: Seq<Seq<char>>) -> Columns {
    Seq::new(names.len(), |i: int| (names[i], dtype_of(cols, names[i])->Some_0))
}

/// The schema of a projection of `cols` onto `names`. A name asked for twice
/// gives one column, so the schema is then shorter than `names`.
pub open spec fn projected(cols: Columns, names: Seq<Seq<char>>) -> Columns {
    merge(Seq::empty(), picked(cols, names))
}

/// The names of the column expressions in the slots `nodes` of `exprs`.
pub open spec fn column_names(exprs: Seq<AExpr>, nodes: Seq<Node>) -> Seq<Seq<char>> {
    Seq::new(nodes.len(), |i: int| exprs[nodes[i].0 as int]->Column_0@)
}

/// Every handle of `nodes` is a slot of `exprs` that holds a column expression.
pub open spec fn all_columns(exprs: Seq<AExpr>, nodes: Seq<Node>) -> bool {
    forall|i: int|
        0 <= i < nodes.len() ==> {
            &&& (#[trigger] nodes[i]).0 < exprs.len()
            &&& exprs[nodes[i].0 as int] is Column
        }
}

/// The columns that the expression nodes `nodes` come to against `cols`,
/// one for each node.
pub open spec fn node_fields(exprs: Seq<AExpr>, nodes: Seq<Node>, cols: Columns) -> Columns {
    Seq::new(
        nodes.len(),
        |i: int|
            {
                let x = resolve(exprs, nodes[i].0 as int, cols)->Ok_0;
                (x.0, x.1)
            },
    )
}

/// Every expression node of `nodes` comes to a column against `cols`.
pub open spec fn nodes_resolve(exprs: Seq<AExpr>, nodes: Seq<Node>, cols: Columns) -> bool {
    forall|i: int|
        0 <= i < nodes.len() ==> (#[trigger] resolve(exprs, nodes[i].0 as int, cols)) is Ok
}

/// The expressions `es` are the nodes `nodes`, each with the name and the
/// type of the column it comes to written into it.
pub open spec fn annotated(es: Seq<ExprIR>, nodes: Seq<Node>, fields: Columns) -> bool {
    &&& es.len() == nodes.len()
    &&& forall|i: int|
        #![trigger es[i]]
        0 <= i < es.len() ==> {
            &&& es[i].node == nodes[i]
            &&& es[i].output_name@ == Naming::ColumnLhs(fields[i].0)
            &&& es[i].output_dtype == Some(fields[i].1)
        }
}

/// The index column of a grouping by windows is a column of `cols`.
pub open spec fn window_column_known(cols: Columns, options: GroupbyOptions) -> bool {
    match options.rolling {
        Some(o) => has_column(cols, o.index_column@),
        None => match options.dynamic {
            Some(o) => has_column(cols, o.index_column@),
            None => true,
        },
    }
}

/// `keys` with the columns that a grouping by windows adds: the index
/// column, and before it the two window bounds where they are asked for.
pub open spec fn with_window_columns(
    keys: Columns,
    cols: Columns,
    options: GroupbyOptions,
) -> Columns {
    match options.rolling {
        Some(o) => with_column(keys, o.index_column@, dtype_of(cols, o.index_column@)->Some_0),
        None => match options.dynamic {
            Some(o) => {
                let d = dtype_of(cols, o.index_column@)->Some_0;
                let bounded = if o.include_boundaries {
                    with_column(with_column(keys, "_lower_boundary"@, d), "_upper_boundary"@, d)
                } else {
                    keys
                };
                with_column(bounded, o.index_column@, d)
            },
            None => keys,
        },
    }
}

/// The output columns of a grouping: those of the keys, then what the
/// windows add, then those of the aggregations, which are evaluated once
/// per group.
pub open spec fn group_by_schema(
    cols: Columns,
    keys: Seq<ExprIR>,
    aggs: Seq<ExprIR>,
    exprs: Seq<AExpr>,
    options: GroupbyOptions,
) -> Columns {
    merge(
        with_window_columns(exprs_schema(keys, exprs, cols, Context::Default), cols, options),
        exprs_schema(aggs, exprs, cols, Context::Aggregation),
    )
}

impl<'a> IRBuilder<'a> {
    /// The root is a slot of the plan arena, and every node of that arena
    /// reads only from slots before its own.
    pub open spec fn wf(&self) -> bool {
        self.root.0 < self.lp_arena@.len() && plan_wf(self.lp_arena@)
    }

    /// The output columns of the current root.
    pub open spec fn columns(&self) -> Columns {
        schema_of(self.lp_arena@, self.root.0 as int)
    }

    /// A builder that stands on the node `root` of `lp_arena`.
    pub fn new(root: Node, expr_arena: &'a mut Arena<AExpr>, lp_arena: &'a mut Arena<IR>) -> (b:
        Self)
        ensures
            b.root == root,
            *b.expr_arena == *old(expr_arena),
            *b.lp_arena == *old(lp_arena),
            *final(b.expr_arena) == *final(expr_arena),
            *final(b.lp_arena) == *final(lp_arena),
    {
        IRBuilder { root, expr_arena, lp_arena }
    }

    /// Puts `lp` into the plan arena and stands on it.
    pub fn from_lp(lp: IR, expr_arena: &'a mut Arena<AExpr>, lp_arena: &'a mut Arena<IR>) -> (b:
        Self)
        ensures
            appended(old(lp_arena)@, b.lp_arena@, b.root, lp),
            *b.expr_arena == *old(expr_arena),
            *final(b.expr_arena) == *final(expr_arena),
            *final(b.lp_arena) == *final(lp_arena),
            plan_wf(old(lp_arena)@) && lp.inputs_before(old(lp_arena)@.len() as int) ==> b.wf(),
    {
        let root = lp_arena.add(lp);
        IRBuilder { root, expr_arena, lp_arena }
    }

    /// Puts `lp` into the plan arena and moves the root to it.
    pub fn add_alp(self, lp: IR) -> (b: Self)
        ensures
            appended(old(self.lp_arena)@, b.lp_arena@, b.root, lp),
            *b.expr_arena == *old(self.expr_arena),
            *final(b.expr_arena) == *final(self.expr_arena),
            *final(b.lp_arena) == *final(self.lp_arena),
            plan_wf(old(self.lp_arena)@) && lp.inputs_before(old(self.lp_arena)@.len() as int)
                ==> b.wf(),
    {
        let node = self.lp_arena.add(lp);
        IRBuilder::new(node, self.expr_arena, self.lp_arena)
    }

    /// Orders the rows by the expressions `by_column`.
    pub fn sort(
        self,
        by_column: Vec<ExprIR>,
        slice: Option<(i64, usize)>,
        sort_options: SortMultipleOptions,
    ) -> (b: Self)
        ensures
            appended(
                old(self.lp_arena)@,
                b.lp_arena@,
                b.root,
                (IR::Sort { input: self.root, by_column, slice, sort_options }),
            ),
            *b.expr_arena == *old(self.expr_arena),
            *final(b.expr_arena) == *final(self.expr_arena),
            *final(b.lp_arena) == *final(self.lp_arena),
            self.wf() ==> b.wf() && b.columns() == self.columns(),
    {
        let ir = IR::Sort { input: self.root, by_column, slice, sort_options };
        let b = self.add_alp(ir);
        proof {
            if self.wf() {
                lemma_schema_of_prefix(old(self.lp_arena)@, b.lp_arena@, self.root.0 as int);
            }
        }
        b
    }

    /// The handle of the current root. The arenas are as the steps left them.
    pub fn node(self) -> (n: Node)
        ensures
            n == self.root,
            *final(self.expr_arena) == *old(self.expr_arena),
            *final(self.lp_arena) == *old(self.lp_arena),
    {
        self.root
    }

    /// The output schema of the current root.
    pub fn schema(&self) -> (s: Schema)
        requires
            self.wf(),
        ensures
            s@ == self.columns(),
    {
        node_schema(self.lp_arena, self.root)
    }

    /// One row for each element of the lists in `columns`. The node's output
    /// schema is left to be written down later.
    pub fn explode(self, columns: Vec<String>) -> (b: Self)
        ensures
            appended(old(self.lp_arena)@, b.lp_arena@, b.root, (IR::MapFunction {
                input: self.root,
                function: FunctionIR::Explode { columns, schema: CachedSchema::Pending },
            })),
            *b.expr_arena == *old(self.expr_arena),
            *final(b.expr_arena) == *final(self.expr_arena),
            *final(b.lp_arena) == *final(self.lp_arena),
            self.wf() ==> b.wf() && b.columns() == exploded(self.columns(), texts(columns@)),
    {
        let lp = IR::MapFunction {
            input: self.root,
            function: FunctionIR::Explode { columns, schema: CachedSchema::Pending },
        };
        let b = self.add_alp(lp);
        proof {
            if self.wf() {
                lemma_schema_of_prefix(old(self.lp_arena)@, b.lp_arena@, self.root.0 as int);
            }
        }
        b
    }

    /// Turns columns into rows. The node's output schema is left to be
    /// written down later.
    pub fn unpivot(self, args: Arc<UnpivotArgsIR>) -> (b: Self)
        ensures
            appended(old(self.lp_arena)@, b.lp_arena@, b.root, (IR::MapFunction {
                input: self.root,
                function: FunctionIR::Unpivot { args, schema: CachedSchema::Pending },
            })),
            *b.expr_arena == *old(self.expr_arena),
            *final(b.expr_arena) == *final(self.expr_arena),
            *final(b.lp_arena) == *final(self.lp_arena),
            self.wf() ==> b.wf() && b.columns() == unpivoted(self.columns(), *args),
    {
        let lp = IR::MapFunction {
            input: self.root,
            function: FunctionIR::Unpivot { args, schema: CachedSchema::Pending },
        };
        let b = self.add_alp(lp);
        proof {
            if self.wf() {
                lemma_schema_of_prefix(old(self.lp_arena)@, b.lp_arena@, self.root.0 as int);
            }
        }
        b
    }

    /// Puts a column first that counts the rows. The node's output schema is
    /// left to be written down later.
    pub fn row_index(self, name: String, offset: Option<IdxSize>) -> (b: Self)
        ensures
            appended(old(self.lp_arena)@, b.lp_arena@, b.root, (IR::MapFunction {
                input: self.root,
                function: FunctionIR::RowIndex { name, offset, schema: CachedSchema::Pending },
            })),
            *b.expr_arena == *old(self.expr_arena),
            *final(b.expr_arena) == *final(self.expr_arena),
            *final(b.lp_arena) == *final(self.lp_arena),
            self.wf() ==> b.wf() && b.columns() == with_row_index(self.columns(), name@),
    {
        let lp = IR::MapFunction {
            input: self.root,
            function: FunctionIR::RowIndex { name, offset, schema: CachedSchema::Pending },
        };
        let b = self.add_alp(lp);
        proof {
            if self.wf() {
                lemma_schema_of_prefix(old(self.lp_arena)@, b.lp_arena@, self.root.0 as int);
            }
        }
        b
    }

    /// Writes the expression `expr` into the expression arena and returns it
    /// as a plan node holds it, named as `expr` names its output. The
    /// expression must come to a column against the current schema: else its
    /// failure is returned. Either way the nodes stay in the arena.
    pub fn add_expr(&mut self, expr: Expr) -> (r: Result<ExprIR, PlanError>)
        requires
            old(self).wf(),
        ensures
            final(self).root == old(self).root,
            *final(self).lp_arena == *old(self).lp_arena,
            *final(final(self).lp_arena) == *final(old(self).lp_arena),
            *final(final(self).expr_arena) == *final(old(self).expr_arena),
            final(self).expr_arena@.len() == old(self).expr_arena@.len() + expr.nodes(),
            extends(old(self).expr_arena@, final(self).expr_arena@),
            match r {
                Ok(e) => {
                    &&& e.node.0 == final(self).expr_arena@.len() - 1
                    &&& e.output_dtype is None
                    &&& e.output_name@ == expr.naming()
                    &&& expr.eval(old(self).columns()) is Ok
                    &&& resolve(
                        final(self).expr_arena@,
                        e.node.0 as int,
                        old(self).columns(),
                    ) == expr.eval(old(self).columns())
                },
                Err(e) => expr.eval(old(self).columns()) == Err::<(Seq<char>, DataType, bool), _>(
                    (e.kind, e.subject@),
                ) && e.context@.len() == 0,
            },
    {
        let schema = self.schema();
        let output_name = expr.output_name();
        let node = to_aexpr(expr, self.expr_arena);
        match resolve_node(self.expr_arena, node, &schema) {
            Ok(_) => Ok(ExprIR::new(node, output_name)),
            Err(e) => Err(e),
        }
    }

    /// Whether the root is a slot of the plan arena and every node of that
    /// arena reads only from slots before its own.
    pub fn is_wf(&self) -> (b: bool)
        ensures
            b == self.wf(),
    {
        self.root.0 < self.lp_arena.len() && plan_is_wf(self.lp_arena)
    }

    /// Whether every handle of `nodes` is a slot of the expression arena
    /// that holds a column expression.
    pub fn are_columns(&self, nodes: &Vec<Node>) -> (b: bool)
        ensures
            b == all_columns(old(self.expr_arena)@, nodes@),
    {
        let mut i: usize = 0;
        while i < nodes.len()
            invariant
                i <= nodes.len(),
                forall|k: int|
                    0 <= k < i ==> (#[trigger] nodes@[k]).0 < self.expr_arena@.len()
                        && self.expr_arena@[nodes@[k].0 as int] is Column,
            decreases nodes.len() - i,
        {
            if nodes[i].0 >= self.expr_arena.len() {
                return false;
            }
            match self.expr_arena.get(nodes[i]) {
                AExpr::Column(_) => {},
                _ => {
                    return false;
                },
            }
            i = i + 1;
        }
        true
    }

    /// Whether every expression node of `nodes` comes to a column against
    /// the current schema.
    pub fn can_resolve_nodes(&self, nodes: &Vec<Node>) -> (b: bool)
        requires
            self.wf(),
        ensures
            b == nodes_resolve(old(self.expr_arena)@, nodes@, self.columns()),
    {
        let schema = self.schema();
        let mut i: usize = 0;
        while i < nodes.len()
            invariant
                i <= nodes.len(),
                schema@ == self.columns(),
                forall|k: int|
                    0 <= k < i ==> (#[trigger] resolve(
                        self.expr_arena@,
                        nodes@[k].0 as int,
                        schema@,
                    )) is Ok,
            decreases nodes.len() - i,
        {
            if resolve_node(self.expr_arena, nodes[i], &schema).is_err() {
                return false;
            }
            i = i + 1;
        }
        true
    }

    /// Whether the index column of a grouping by windows is a column of the
    /// current schema.
    pub fn knows_window_column(&self, options: &GroupbyOptions) -> (b: bool)
        requires
            self.wf(),
        ensures
            b == window_column_known(self.columns(), *options),
    {
        let schema = self.schema();
        match &options.rolling {
            Some(o) => schema.contains(o.index_column.as_str()),
            None => match &options.dynamic {
                Some(o) => schema.contains(o.index_column.as_str()),
                None => true,
            },
        }
    }

    /// Whether a join of the current root with the node `other` has an
    /// output schema.
    pub fn can_join(
        &self,
        other: Node,
        left_on: &Vec<ExprIR>,
        right_on: &Vec<ExprIR>,
        options: &JoinOptionsIR,
    ) -> (b: bool)
        requires
            self.wf(),
            other.0 < self.lp_arena@.len(),
        ensures
            b == join_schema(
                self.columns(),
                schema_of(old(self.lp_arena)@, other.0 as int),
                left_on@,
                right_on@,
                *options,
            ) is Ok,
    {
        let schema_left = self.schema();
        let schema_right = node_schema(self.lp_arena, other);
        det_join_schema(&schema_left, &schema_right, left_on, right_on, options).is_ok()
    }

    /// Whether every expression of `exprs` produces a column against the
    /// current schema.
    pub fn can_resolve(&self, exprs: &Vec<ExprIR>, ctx: Context) -> (b: bool)
        requires
            self.wf(),
        ensures
            b == all_resolve(exprs@, old(self.expr_arena)@, self.columns(), ctx),
    {
        let schema = self.schema();
        proof {
            lemma_no_failure(exprs@, self.expr_arena@, schema@, ctx);
        }
        try_expr_irs_to_schema(exprs, &schema, ctx, self.expr_arena).is_ok()
    }

    /// Evaluates `exprs` on the current root. With no expression the plan
    /// stays as it is: every column is selected.
    pub fn project(self, exprs: Vec<ExprIR>, options: ProjectionOptions) -> (b: Self)
        requires
            exprs@.len() > 0 ==> self.wf() && all_resolve(
                exprs@,
                self.expr_arena@,
                self.columns(),
                Context::Default,
            ),
        ensures
            *b.expr_arena == *old(self.expr_arena),
            *final(b.expr_arena) == *final(self.expr_arena),
            *final(b.lp_arena) == *final(self.lp_arena),
            exprs@.len() == 0 ==> b.root == self.root && *b.lp_arena == *old(self.lp_arena),
            exprs@.len() > 0 ==> ({
                &&& b.lp_arena@.last() matches IR::Select { input, expr, schema, options: o }
                &&& input == self.root
                &&& expr == exprs
                &&& o == options
                &&& schema@ == exprs_schema(
                    exprs@,
                    old(self.expr_arena)@,
                    schema_of(old(self.lp_arena)@, self.root.0 as int),
                    Context::Default,
                )
                &&& appended(old(self.lp_arena)@, b.lp_arena@, b.root, b.lp_arena@.last())
                &&& b.wf()
                &&& b.columns() == schema@
            }),
    {
        if exprs.len() == 0 {
            self
        } else {
            let input_schema = self.schema();
            let schema = expr_irs_to_schema(
                &exprs,
                &input_schema,
                Context::Default,
                self.expr_arena,
            );
            let lp = IR::Select { expr: exprs, input: self.root, schema, options };
            self.add_alp(lp)
        }
    }

    fn project_names(self, names: Vec<String>) -> (r: Result<Self, PlanError>)
        requires
            names@.len() > 0 ==> self.wf(),
        ensures
            simple_projection(
                old(self.lp_arena)@,
                self.root,
                texts(names@),
                r,
            ),
            r matches Ok(b) ==> *b.expr_arena == *old(self.expr_arena),
            r matches Ok(b) ==> *final(b.expr_arena) == *final(self.expr_arena),
            r matches Ok(b) ==> *final(b.lp_arena) == *final(self.lp_arena),
            r matches Ok(b) ==> (names@.len() == 0 ==> *b.lp_arena == *old(self.lp_arena)),
            r is Err ==> *final(self.expr_arena) == *old(self.expr_arena),
            r is Err ==> *final(self.lp_arena) == *old(self.lp_arena),
    {
        if names.len() == 0 {
            return Ok(self);
        }
        let input_schema = self.schema();
        let mut fields: Vec<Field> = Vec::new();
        let mut i: usize = 0;
        while i < names.len()
            invariant
                i <= names.len(),
                fields.len() == i,
                names@.len() > 0,
                *self.lp_arena == *old(self.lp_arena),
                *self.expr_arena == *old(self.expr_arena),
                input_schema@ == schema_of(self.lp_arena@, self.root.0 as int),
                first_missing(input_schema@, texts(names@).take(i as int)) is None,
                columns_of(fields@) == picked(input_schema@, texts(names@)).take(i as int),
            decreases names.len() - i,
        {
            proof {
                assert(texts(names@).take(i + 1).drop_last() =~= texts(names@).take(i as int));
                assert(texts(names@).take(i + 1).last() == names@[i as int]@);
            }
            match input_schema.try_get(names[i].as_str()) {
                Ok(d) => {
                    let ghost before = fields@;
                    fields.push(Field::new(names[i].clone(), d.clone()));
                    assert forall|k: int| 0 <= k < i + 1 implies columns_of(fields@)[k] == picked(
                        input_schema@,
                        texts(names@),
                    )[k] by {
                        if k < i {
                            assert(fields@[k] == before[k]);
                            assert(columns_of(before)[k] == picked(
                                input_schema@,
                                texts(names@),
                            ).take(i as int)[k]);
                        }
                    }
                    assert(columns_of(fields@) =~= picked(input_schema@, texts(names@)).take(i + 1));
                },
                Err(e) => {
                    proof {
                        assert(first_missing(input_schema@, texts(names@).take(i + 1)) == Some(
                            names@[i as int]@,
                        ));
                        assert(texts(names@) =~= texts(names@).take(i + 1) + texts(names@).subrange(
                            i + 1,
                            names@.len() as int,
                        ));
                        lemma_first_missing_stays(
                            input_schema@,
                            texts(names@).take(i + 1),
                            texts(names@).subrange(i + 1, names@.len() as int),
                        );
                    }
                    return Err(e);
                },
            }
            i = i + 1;
        }
        assert(texts(names@).take(i as int) =~= texts(names@));
        assert(picked(input_schema@, texts(names@)).take(i as int) =~= picked(
            input_schema@,
            texts(names@),
        ));
        let schema = Schema::from_fields(fields);
        if names.len() != schema.len() {
            return Err(PlanError::new(ErrorKind::Duplicate, "found duplicate columns".to_owned()));
        }
        let lp = IR::SimpleProjection { input: self.root, columns: schema };
        Ok(self.add_alp(lp))
    }

    /// Keeps the columns called `names`, in that order. With no name the plan
    /// stays as it is. A name that is no column is a `ColumnNotFound` failure
    /// that names it; a name given twice is a `Duplicate` failure. A failure
    /// leaves the arenas as they were.
    pub fn project_simple(self, names: Vec<String>) -> (r: Result<Self, PlanError>)
        requires
            names@.len() > 0 ==> self.wf(),
        ensures
            simple_projection(old(self.lp_arena)@, self.root, texts(names@), r),
            r matches Ok(b) ==> *b.expr_arena == *old(self.expr_arena),
            r matches Ok(b) ==> *final(b.expr_arena) == *final(self.expr_arena),
            r matches Ok(b) ==> *final(b.lp_arena) == *final(self.lp_arena),
            r matches Ok(b) ==> (names@.len() == 0 ==> *b.lp_arena == *old(self.lp_arena)),
            r is Err ==> *final(self.expr_arena) == *old(self.expr_arena),
            r is Err ==> *final(self.lp_arena) == *old(self.lp_arena),
    {
        self.project_names(names)
    }

    /// Keeps the columns that the column expressions `nodes` name, as
    /// `project_simple` does.
    pub fn project_simple_nodes(self, nodes: Vec<Node>) -> (r: Result<Self, PlanError>)
        requires
            all_columns(self.expr_arena@, nodes@),
            nodes@.len() > 0 ==> self.wf(),
        ensures
            simple_projection(
                old(self.lp_arena)@,
                self.root,
                column_names(old(self.expr_arena)@, nodes@),
                r,
            ),
            r matches Ok(b) ==> *b.expr_arena == *old(self.expr_arena),
            r matches Ok(b) ==> *final(b.expr_arena) == *final(self.expr_arena),
            r matches Ok(b) ==> *final(b.lp_arena) == *final(self.lp_arena),
            r matches Ok(b) ==> (nodes@.len() == 0 ==> *b.lp_arena == *old(self.lp_arena)),
            r is Err ==> *final(self.expr_arena) == *old(self.expr_arena),
            r is Err ==> *final(self.lp_arena) == *old(self.lp_arena),
    {
        let mut names: Vec<String> = Vec::new();
        let mut i: usize = 0;
        while i < nodes.len()
            invariant
                i <= nodes.len(),
                names.len() == i,
                all_columns(self.expr_arena@, nodes@),
                forall|k: int|
                    0 <= k < i ==> (#[trigger] names@[k])@ == column_names(
                        self.expr_arena@,
                        nodes@,
                    )[k],
            decreases nodes.len() - i,
        {
            assert(nodes@[i as int].0 < self.expr_arena@.len());
            match self.expr_arena.get(nodes[i]) {
                AExpr::Column(name) => {
                    names.push(name.clone());
                },
                _ => {},
            }
            i = i + 1;
        }
        assert(texts(names@) =~= column_names(self.expr_arena@, nodes@));
        self.project_names(names)
    }

    /// Takes out the columns called `names`; a name that is no column is
    /// passed over. With no name the plan stays as it is.
    pub fn drop(self, names: Vec<String>) -> (b: Self)
        requires
            names@.len() > 0 ==> self.wf(),
        ensures
            *b.expr_arena == *old(self.expr_arena),
            *final(b.expr_arena) == *final(self.expr_arena),
            *final(b.lp_arena) == *final(self.lp_arena),
            names@.len() == 0 ==> b.root == self.root && *b.lp_arena == *old(self.lp_arena),
            names@.len() > 0 ==> ({
                &&& b.lp_arena@.last() matches IR::SimpleProjection { input, columns }
                &&& input == self.root
                &&& columns@ == without_all(
                    schema_of(old(self.lp_arena)@, self.root.0 as int),
                    texts(names@),
                )
                &&& appended(old(self.lp_arena)@, b.lp_arena@, b.root, b.lp_arena@.last())
                &&& b.wf()
                &&& b.columns() == columns@
            }),
    {
        if names.len() == 0 {
            self
        } else {
            let mut schema = self.schema();
            let ghost start = schema@;
            let mut i: usize = 0;
            while i < names.len()
                invariant
                    i <= names.len(),
                    schema@ == without_all(start, texts(names@).take(i as int)),
                decreases names.len() - i,
            {
                proof {
                    assert(texts(names@).take(i + 1).drop_last() =~= texts(names@).take(i as int));
                    assert(texts(names@).take(i + 1).last() == names@[i as int]@);
                }
                schema.remove(names[i].as_str());
                i = i + 1;
            }
            assert(texts(names@).take(i as int) =~= texts(names@));
            let lp = IR::SimpleProjection { input: self.root, columns: schema };
            self.add_alp(lp)
        }
    }

    /// Takes the plan's root out of the arena and ends the building. A root
    /// in the last slot leaves with its slot; a root further down leaves an
    /// emptied slot, so that every other handle stays good. The node that
    /// comes back has the output columns that the builder reported.
    pub fn build(self) -> (ir: IR)
        requires
            self.root.0 < self.lp_arena@.len(),
        ensures
            ir == old(self.lp_arena)@[self.root.0 as int],
            *final(self.expr_arena) == *old(self.expr_arena),
            self.root.0 + 1 == old(self.lp_arena)@.len() ==> final(self.lp_arena)@ == old(
                self.lp_arena,
            )@.drop_last(),
            self.root.0 + 1 != old(self.lp_arena)@.len() ==> final(self.lp_arena)@ == old(
                self.lp_arena,
            )@.update(self.root.0 as int, IR::Invalid),
            plan_wf(old(self.lp_arena)@) ==> ir_schema(ir, final(self.lp_arena)@) == schema_of(
                old(self.lp_arena)@,
                self.root.0 as int,
            ),
    {
        let ghost before = self.lp_arena@;
        let ir = if self.root.0 == self.lp_arena.len() - 1 {
            match self.lp_arena.pop() {
                Some(ir) => ir,
                None => vstd::pervasive::unreached(),
            }
        } else {
            let ir = self.lp_arena.take(self.root);
            assert(self.lp_arena@ =~= before.update(self.root.0 as int, IR::Invalid));
            ir
        };
        proof {
            if plan_wf(before) {
                lemma_detached_schema(before, self.lp_arena@, self.root.0 as int);
            }
        }
        ir
    }

    /// Sets the columns that `exprs` produce among those of the current
    /// root: a name that is there keeps its place and takes the new type, a
    /// new name goes to the end.
    pub fn with_columns(self, exprs: Vec<ExprIR>, options: ProjectionOptions) -> (b: Self)
        requires
            self.wf(),
            all_resolve(exprs@, self.expr_arena@, self.columns(), Context::Default),
        ensures
            *b.expr_arena == *old(self.expr_arena),
            *final(b.expr_arena) == *final(self.expr_arena),
            *final(b.lp_arena) == *final(self.lp_arena),
            b.lp_arena@.last() matches IR::HStack { input, exprs: es, schema, options: o } && input
                == self.root && es == exprs && o == options && schema@ == merge(
                schema_of(old(self.lp_arena)@, self.root.0 as int),
                exprs_schema(
                    exprs@,
                    old(self.expr_arena)@,
                    schema_of(old(self.lp_arena)@, self.root.0 as int),
                    Context::Default,
                ),
            ) && b.columns() == schema@,
            appended(old(self.lp_arena)@, b.lp_arena@, b.root, b.lp_arena@.last()),
            b.wf(),
    {
        let schema = self.schema();
        let mut new_schema = schema.clone();
        let hstack_schema = expr_irs_to_schema(&exprs, &schema, Context::Default, self.expr_arena);
        new_schema.merge(hstack_schema);
        let lp = IR::HStack { input: self.root, exprs, schema: new_schema, options };
        self.add_alp(lp)
    }

    /// Sets the columns that the expression nodes `exprs` come to among
    /// those of the current root, as `with_columns` does. Each node goes
    /// into the plan with the name and the type of its column written into it.
    pub fn with_columns_simple(self, exprs: Vec<Node>, options: ProjectionOptions) -> (b: Self)
        requires
            self.wf(),
            nodes_resolve(self.expr_arena@, exprs@, self.columns()),
        ensures
            *b.expr_arena == *old(self.expr_arena),
            *final(b.expr_arena) == *final(self.expr_arena),
            *final(b.lp_arena) == *final(self.lp_arena),
            b.lp_arena@.last() matches IR::HStack { input, exprs: es, schema, options: o } && input
                == self.root && o == options && annotated(
                es@,
                exprs@,
                node_fields(
                    old(self.expr_arena)@,
                    exprs@,
                    schema_of(old(self.lp_arena)@, self.root.0 as int),
                ),
            ) && schema@ == merge(
                schema_of(old(self.lp_arena)@, self.root.0 as int),
                node_fields(
                    old(self.expr_arena)@,
                    exprs@,
                    schema_of(old(self.lp_arena)@, self.root.0 as int),
                ),
            ) && b.columns() == schema@,
            appended(old(self.lp_arena)@, b.lp_arena@, b.root, b.lp_arena@.last()),
            b.wf(),
    {
        let schema = self.schema();
        let mut new_schema = schema.clone();
        let ghost fields = node_fields(self.expr_arena@, exprs@, schema@);
        let mut expr_irs: Vec<ExprIR> = Vec::with_capacity(exprs.len());
        let mut i: usize = 0;
        while i < exprs.len()
            invariant
                i <= exprs.len(),
                *self.lp_arena == *old(self.lp_arena),
                *self.expr_arena == *old(self.expr_arena),
                nodes_resolve(self.expr_arena@, exprs@, schema@),
                fields == node_fields(self.expr_arena@, exprs@, schema@),
                annotated(expr_irs@, exprs@.take(i as int), fields),
                new_schema@ == merge(schema@, fields.take(i as int)),
            decreases exprs.len() - i,
        {
            let node = exprs[i];
            assert(resolve(self.expr_arena@, exprs@[i as int].0 as int, schema@) is Ok);
            match resolve_node(self.expr_arena, node, &schema) {
                Ok(x) => {
                    proof {
                        assert(fields.take(i + 1).drop_last() =~= fields.take(i as int));
                        assert(fields.take(i + 1).last() == (x.name@, x.dtype));
                    }
                    let ghost before = expr_irs@;
                    expr_irs.push(
                        ExprIR::new(node, OutputName::ColumnLhs(x.name.clone())).with_dtype(
                            x.dtype.clone(),
                        ),
                    );
                    assert forall|k: int| 0 <= k < expr_irs@.len() implies {
                        &&& (#[trigger] expr_irs@[k]).node == exprs@.take(i + 1)[k]
                        &&& expr_irs@[k].output_name@ == Naming::ColumnLhs(fields[k].0)
                        &&& expr_irs@[k].output_dtype == Some(fields[k].1)
                    } by {
                        if k < i {
                            assert(expr_irs@[k] == before[k]);
                        }
                    }
                    new_schema.with_column(x.name, x.dtype);
                },
                Err(_) => {},
            }
            i = i + 1;
        }
        assert(exprs@.take(i as int) =~= exprs@);
        assert(fields.take(i as int) =~= fields);
        let lp = IR::HStack { input: self.root, exprs: expr_irs, schema: new_schema, options };
        self.add_alp(lp)
    }

    /// Groups the rows by `keys` and evaluates `aggs` once for each group.
    pub fn group_by(
        self,
        keys: Vec<ExprIR>,
        aggs: Vec<ExprIR>,
        apply: Option<UdfRef>,
        maintain_order: bool,
        options: Arc<GroupbyOptions>,
    ) -> (b: Self)
        requires
            self.wf(),
            all_resolve(keys@, self.expr_arena@, self.columns(), Context::Default),
            all_resolve(aggs@, self.expr_arena@, self.columns(), Context::Aggregation),
            window_column_known(self.columns(), *options),
        ensures
            *b.expr_arena == *old(self.expr_arena),
            *final(b.expr_arena) == *final(self.expr_arena),
            *final(b.lp_arena) == *final(self.lp_arena),
            b.lp_arena@.last() matches IR::GroupBy {
                input,
                keys: k,
                aggs: a,
                schema,
                apply: u,
                maintain_order: m,
                options: o,
            } && input == self.root && k == keys && a == aggs && u == apply && m == maintain_order
                && o == options && schema@ == group_by_schema(
                schema_of(old(self.lp_arena)@, self.root.0 as int),
                keys@,
                aggs@,
                old(self.expr_arena)@,
                *options,
            ) && b.columns() == schema@,
            appended(old(self.lp_arena)@, b.lp_arena@, b.root, b.lp_arena@.last()),
            b.wf(),
    {
        let current_schema = self.schema();
        let mut schema = expr_irs_to_schema(
            &keys,
            &current_schema,
            Context::Default,
            self.expr_arena,
        );
        match &options.rolling {
            Some(o) => {
                match current_schema.get(o.index_column.as_str()) {
                    Some(dtype) => {
                        schema.with_column(o.index_column.clone(), dtype.clone());
                    },
                    None => {},
                }
            },
            None => {
                match &options.dynamic {
                    Some(o) => {
                        match current_schema.get(o.index_column.as_str()) {
                            Some(dtype) => {
                                if o.include_boundaries {
                                    schema.with_column("_lower_boundary".to_owned(), dtype.clone());
                                    schema.with_column("_upper_boundary".to_owned(), dtype.clone());
                                }
                                schema.with_column(o.index_column.clone(), dtype.clone());
                            },
                            None => {},
                        }
                    },
                    None => {},
                }
            },
        }
        let agg_schema = expr_irs_to_schema(
            &aggs,
            &current_schema,
            Context::Aggregation,
            self.expr_arena,
        );
        schema.merge(agg_schema);
        let lp = IR::GroupBy {
            input: self.root,
            keys,
            aggs,
            schema,
            apply,
            maintain_order,
            options,
        };
        self.add_alp(lp)
    }

    /// Joins the current root, as the left input, with the node `other`.
    /// Where the two inputs have no output schema together, see
    /// `join_schema`, the failure is returned and the arenas are as they were.
    pub fn join(
        self,
        other: Node,
        left_on: Vec<ExprIR>,
        right_on: Vec<ExprIR>,
        options: Arc<JoinOptionsIR>,
    ) -> (r: Result<Self, PlanError>)
        requires
            self.wf(),
            other.0 < self.lp_arena@.len(),
        ensures
            match join_schema(
                schema_of(old(self.lp_arena)@, self.root.0 as int),
                schema_of(old(self.lp_arena)@, other.0 as int),
                left_on@,
                right_on@,
                *options,
            ) {
                Ok(cols) => {
                    &&& r matches Ok(b)
                    &&& b.lp_arena@.last() matches IR::Join {
                        input_left,
                        input_right,
                        schema,
                        left_on: l,
                        right_on: ro,
                        options: o,
                    }
                    &&& input_left == self.root
                    &&& input_right == other
                    &&& l == left_on
                    &&& ro == right_on
                    &&& o == options
                    &&& schema@ == cols
                    &&& appended(old(self.lp_arena)@, b.lp_arena@, b.root, b.lp_arena@.last())
                    &&& b.wf()
                    &&& b.columns() == cols
                },
                Err(f) => r matches Err(e) && (e.kind, e.subject@) == f && e.context@.len() == 0,
            },
            r matches Ok(b) ==> *b.expr_arena == *old(self.expr_arena),
            r matches Ok(b) ==> *final(b.expr_arena) == *final(self.expr_arena),
            r matches Ok(b) ==> *final(b.lp_arena) == *final(self.lp_arena),
            r is Err ==> *final(self.expr_arena) == *old(self.expr_arena),
            r is Err ==> *final(self.lp_arena) == *old(self.lp_arena),
    {
        let schema_left = self.schema();
        let schema_right = node_schema(self.lp_arena, other);
        match det_join_schema(&schema_left, &schema_right, &left_on, &right_on, &options) {
            Err(e) => Err(e),
            Ok(schema) => {
                let lp = IR::Join {
                    input_left: self.root,
                    input_right: other,
                    schema,
                    left_on,
                    right_on,
                    options,
                };
                Ok(self.add_alp(lp))
            },
        }
    }

    /// Puts `lp` into the plan arena after `optimize_node` has put the
    /// conversions into its expressions that they need, and moves the root to
    /// it. A node that reads from a slot that is not before its own is an
    /// `InvalidOperation` failure, and an expression that produces no column
    /// even with conversions fails as it does there. A failure carries a note
    /// that names the kind of node; the node then goes into the arena as it
    /// was given.
    pub fn add_alp_optimized(self, lp: IR) -> (r: Result<Self, PlanError>)
        requires
            plan_wf(self.lp_arena@),
        ensures
            optimized(old(self.lp_arena)@, old(self.expr_arena)@, lp, r),
            r matches Ok(b) ==> *final(b.expr_arena) == *final(self.expr_arena),
            r matches Ok(b) ==> *final(b.lp_arena) == *final(self.lp_arena),
            r is Err ==> final(self.expr_arena)@ == old(self.expr_arena)@,
            r is Err ==> final(self.lp_arena)@ == old(self.lp_arena)@.push(lp),
    {
        let name = lp.name();
        if !lp.has_inputs_before(self.lp_arena.len()) {
            self.lp_arena.add(lp);
            let note = "optimizing '".to_owned().concat(name).concat("' failed");
            return Err(PlanError::new(ErrorKind::InvalidOperation, String::new()).context(note));
        }
        match optimize_node(lp, self.expr_arena, self.lp_arena) {
            Ok(out) => Ok(self.add_alp(out)),
            Err(back) => {
                self.lp_arena.add(back.0);
                let note = "optimizing '".to_owned().concat(name).concat("' failed");
                Err(back.1.context(note))
            },
        }
    }

    /// Puts the node that `f` makes of the current root into the plan arena
    /// and goes on as `add_alp_optimized` does.
    pub fn add_alp_optimize_exprs<F>(self, f: F) -> (r: Result<Self, PlanError>) where
        F: FnOnce(Node) -> IR,

        requires
            plan_wf(self.lp_arena@),
            f.requires((self.root,)),
        ensures
            exists|lp: IR|
                {
                    &&& #[trigger] f.ensures((self.root,), lp)
                    &&& optimized(old(self.lp_arena)@, old(self.expr_arena)@, lp, r)
                    &&& r is Err ==> final(self.lp_arena)@ == old(self.lp_arena)@.push(lp)
                },
            r matches Ok(b) ==> *final(b.expr_arena) == *final(self.expr_arena),
            r matches Ok(b) ==> *final(b.lp_arena) == *final(self.lp_arena),
            r is Err ==> final(self.expr_arena)@ == old(self.expr_arena)@,
    {
        let lp = f(self.root);
        self.add_alp_optimized(lp)
    }
}

/// The note that a failure carries which was found in the expressions of a
/// node of the kind `name`.
pub open spec fn optimize_note(name: Seq<char>) -> Seq<char> {
    "optimizing '"@ + name + "' failed"@
}

/// What putting the node `lp` into the plan `plans` with a pass over its
/// expressions comes to. A node that reads from a slot that is not before its
/// own, or one of whose expressions fails, gives the failure, with
/// `optimize_note` as its only note. Else the builder stands on a new last
/// slot that holds the node with the conversions put into its expressions,
/// and the expression arena starts with the slots that it had.
pub open spec fn optimized(
    plans: Seq<IR>,
    exprs: Seq<AExpr>,
    lp: IR,
    r: Result<IRBuilder<'_>, PlanError>,
) -> bool {
    let n = plans.len() as int;
    if !lp.inputs_before(n) {
        r matches Err(e) && e.kind == ErrorKind::InvalidOperation && e.subject@ == Seq::<
            char,
        >::empty() && e.context@.len() == 1 && e.context@[0]@ == optimize_note(lp.spec_name())
    } else {
        match node_failure(lp, plans, exprs) {
            Some(failure) => r matches Err(e) && (e.kind, e.subject@) == failure && e.context@.len()
                == 1 && e.context@[0]@ == optimize_note(lp.spec_name()),
            None => {
                &&& r matches Ok(b)
                &&& appended(plans, b.lp_arena@, b.root, b.lp_arena@.last())
                &&& coerced_ir(lp, b.lp_arena@.last(), exprs, b.expr_arena@, plans)
                &&& extends(exprs, b.expr_arena@)
                &&& b.wf()
            },
        }
    }
}

/// What a projection onto `names` of the node `root` of `plans` comes to.
/// With no name the builder stays on `root`. Else the first name that is no
/// column fails as `ColumnNotFound`; a projected schema shorter than `names`
/// fails as `Duplicate`; and otherwise a simple projection onto the
/// projected schema is appended.
pub open spec fn simple_projection(
    plans: Seq<IR>,
    root: Node,
    names: Seq<Seq<char>>,
    r: Result<IRBuilder<'_>, PlanError>,
) -> bool {
    let cols = schema_of(plans, root.0 as int);
    if names.len() == 0 {
        r matches Ok(b) && b.root == root
    } else {
        match first_missing(cols, names) {
            Some(m) => r matches Err(e) && e.kind == ErrorKind::ColumnNotFound && e.subject@ == m
                && e.context@.len() == 0,
            None => if projected(cols, names).len() != names.len() {
                r matches Err(e) && e.kind == ErrorKind::Duplicate && e.subject@
                    == "found duplicate columns"@ && e.context@.len() == 0
            } else {
                &&& r matches Ok(b)
                &&& b.lp_arena@.last() matches IR::SimpleProjection { input, columns }
                &&& input == root
                &&& columns@ == projected(cols, names)
                &&& appended(plans, b.lp_arena@, b.root, b.lp_arena@.last())
                &&& b.wf()
                &&& b.columns() == columns@
            },
        }
    }
}

/// The first missing name is not changed by the names that come after it.
pub proof fn lemma_first_missing_stays(cols: Columns, names: Seq<Seq<char>>, more: Seq<Seq<char>>)
    requires
        first_missing(cols, names) is Some,
    ensures
        first_missing(cols, names + more) == first_missing(cols, names),
    decreases more.len(),
{
    if more.len() == 0 {
        assert(names + more =~= names);
    } else {
        assert((names + more).drop_last() =~= names + more.drop_last());
        lemma_first_missing_stays(cols, names, more.drop_last());
    }
}

/// A node taken out of a well-formed plan has, against what is left, the
/// output columns that it had in its slot.
pub proof fn lemma_detached_schema(before: Seq<IR>, after: Seq<IR>, n: int)
    requires
        plan_wf(before),
        0 <= n < before.len(),
        after.len() >= n,
        forall|i: int| 0 <= i < n ==> after[i] == before[i],
    ensures
        ir_schema(before[n], after) == schema_of(before, n),
{
    assert(before[n].inputs_before(n));
    match before[n] {
        IR::Sort { input, .. } => {
            lemma_schema_of_prefix(before, after, input.0 as int);
        },
        IR::MapFunction { input, .. } => {
            lemma_schema_of_prefix(before, after, input.0 as int);
        },
        _ => {},
    }
}

/// A projection has as many columns as names were asked for exactly when no
/// name was asked for twice.
pub proof fn lemma_projection_duplicates(cols: Columns, names: Seq<Seq<char>>)
    ensures
        projected(cols, names).len() == names.len() <==> names.no_duplicates(),
{
    let fields = picked(cols, names);
    lemma_collected(fields);
    if names.no_duplicates() {
        assert forall|i: int, j: int| 0 <= i < j < fields.len() implies fields[i].0 != fields[j].0 by {
            assert(names[i] != names[j]);
        }
    }
    if names_unique(fields) {
        assert forall|i: int, j: int|
            0 <= i < names.len() && 0 <= j < names.len() && i != j implies names[i] != names[j] by {
            if i < j {
                assert(fields[i].0 != fields[j].0);
            } else {
                assert(fields[j].0 != fields[i].0);
            }
        }
    }
}

/// Names asked for once each are projected in the order they were asked for.
pub proof fn lemma_projection_order(cols: Columns, names: Seq<Seq<char>>)
    requires
        names.no_duplicates(),
    ensures
        projected(cols, names) == picked(cols, names),
{
    let fields = picked(cols, names);
    assert forall|i: int, j: int| 0 <= i < j < fields.len() implies fields[i].0 != fields[j].0 by {
        assert(names[i] != names[j]);
    }
    assert(Seq::<(Seq<char>, DataType)>::empty() + fields =~= fields);
    lemma_merge_distinct(Seq::empty(), fields);
}

/// A grouping without windows whose keys and aggregations produce columns
/// of different names has exactly those columns: the keys first, then the
/// aggregations, each in the order given.
pub proof fn lemma_group_by_columns(
    cols: Columns,
    keys: Seq<ExprIR>,
    aggs: Seq<ExprIR>,
    exprs: Seq<AExpr>,
    options: GroupbyOptions,
)
    requires
        options.rolling is None,
        options.dynamic is None,
        names_unique(
            expr_fields(keys, exprs, cols, Context::Default) + expr_fields(
                aggs,
                exprs,
                cols,
                Context::Aggregation,
            ),
        ),
    ensures
        group_by_schema(cols, keys, aggs, exprs, options) == expr_fields(
            keys,
            exprs,
            cols,
            Context::Default,
        ) + expr_fields(aggs, exprs, cols, Context::Aggregation),
{
    let k = expr_fields(keys, exprs, cols, Context::Default);
    let a = expr_fields(aggs, exprs, cols, Context::Aggregation);
    assert forall|i: int, j: int| 0 <= i < j < k.len() implies k[i].0 != k[j].0 by {
        assert((k + a)[i] == k[i]);
        assert((k + a)[j] == k[j]);
    }
    assert forall|i: int, j: int| 0 <= i < j < a.len() implies a[i].0 != a[j].0 by {
        assert((k + a)[k.len() + i] == a[i]);
        assert((k + a)[k.len() + j] == a[j]);
    }
    assert(Seq::<(Seq<char>, DataType)>::empty() + k =~= k);
    assert(Seq::<(Seq<char>, DataType)>::empty() + a =~= a);
    lemma_merge_distinct(Seq::empty(), k);
    lemma_merge_distinct(Seq::empty(), a);
    lemma_merge_distinct(k, a);
}

} // verus!
