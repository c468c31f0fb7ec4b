use vstd::prelude::*;
use crate::arena::Arena;
use crate::coerce::coerce_expr;
use crate::coerce::coerced;
use crate::coerce::coerced_node;
use crate::coerce::lemma_extends_same;
use crate::coerce::lemma_coerced_of_resolved;
use crate::error::ErrorKind;
use crate::error::PlanError;
use crate::expr::extends;
use crate::expr::field_from;
use crate::expr::lemma_extends_refl;
use crate::expr::lemma_extends_slots;
use crate::expr::lemma_extends_trans;
use crate::expr::resolve;
use crate::expr::AExpr;
use crate::expr::Context;
use crate::expr::ExprIR;
use crate::expr::FieldOutcome;
use crate::ir::node_schema;
use crate::ir::plan_wf;
use crate::ir::schema_of;
use crate::ir::IR;
use crate::schema::Columns;
use crate::schema::Schema;

verus! {

/// The expression carries no name or no type, so that its node is looked at.
pub open spec fn reads_node(e: ExprIR) -> bool {
    e.output_name.name() is None || e.output_dtype is None
}

/// The column that `e` produces against `cols` once numbers of different
/// types that meet in an operation are converted to the type they meet in.
pub open spec fn coerced_field(e: ExprIR, exprs: Seq<AExpr>, cols: Columns, ctx: Context) -> FieldOutcome {
    field_from(e, coerced(exprs, e.node.0 as int, cols), ctx)
}

/// The failure of the first expression of `es` that produces no column
/// against `cols` even with conversions, if there is one.
pub open spec fn first_coerced_failure(es: Seq<ExprIR>, exprs: Seq<AExpr>, cols: Columns) -> Option<
    (ErrorKind, Seq<char>),
>
    decreases es.len(),
{
    if es.len() == 0 {
        None
    } else {
        match first_coerced_failure(es.drop_last(), exprs, cols) {
            Some(e) => Some(e),
            None => match coerced_field(es.last(), exprs, cols, Context::Default) {
                Err(e) => Some(e),
                Ok(_) => None,
            },
        }
    }
}

/// Every expression of `es` whose node is looked at comes to something
/// with conversions.
pub open spec fn all_coerce(es: Seq<ExprIR>, exprs: Seq<AExpr>, cols: Columns) -> bool {
    forall|i: int|
        0 <= i < es.len() && reads_node(#[trigger] es[i]) ==> coerced(
            exprs,
            es[i].node.0 as int,
            cols,
        ) is Ok
}

/// Every expression of `es` whose node is looked at comes to something
/// without conversions.
pub open spec fn all_typed(es: Seq<ExprIR>, exprs: Seq<AExpr>, cols: Columns) -> bool {
    forall|i: int|
        0 <= i < es.len() && reads_node(#[trigger] es[i]) ==> resolve(
            exprs,
            es[i].node.0 as int,
            cols,
        ) is Ok
}

/// No expression fails with conversions exactly when each one whose node
/// is looked at comes to something with them.
pub proof fn lemma_no_coerced_failure(es: Seq<ExprIR>, exprs: Seq<AExpr>, cols: Columns)
    ensures
        first_coerced_failure(es, exprs, cols) is None <==> all_coerce(es, exprs, cols),
    decreases es.len(),
{
    if es.len() > 0 {
        let rest = es.drop_last();
        lemma_no_coerced_failure(rest, exprs, cols);
        if all_coerce(es, exprs, cols) {
            assert forall|i: int| 0 <= i < rest.len() && reads_node(#[trigger] rest[i]) implies coerced(
                exprs,
                rest[i].node.0 as int,
                cols,
            ) is Ok by {
                assert(rest[i] == es[i]);
            }
            assert(es[es.len() - 1] == es.last());
        }
        if first_coerced_failure(es, exprs, cols) is None {
            assert forall|i: int| 0 <= i < es.len() && reads_node(#[trigger] es[i]) implies coerced(
                exprs,
                es[i].node.0 as int,
                cols,
            ) is Ok by {
                if i < es.len() - 1 {
                    assert(rest[i] == es[i]);
                }
            }
        }
    }
}

/// The first failure is not changed by what comes after it.
pub proof fn lemma_coerced_failure_stays(
    es: Seq<ExprIR>,
    more: Seq<ExprIR>,
    exprs: Seq<AExpr>,
    cols: Columns,
)
    requires
        first_coerced_failure(es, exprs, cols) is Some,
    ensures
        first_coerced_failure(es + more, exprs, cols) == first_coerced_failure(es, exprs, cols),
    decreases more.len(),
{
    if more.len() == 0 {
        assert(es + more =~= es);
    } else {
        assert((es + more).drop_last() =~= es + more.drop_last());
        lemma_coerced_failure_stays(es, more.drop_last(), exprs, cols);
    }
}

/// The expressions `out` are the expressions `es` of the arena `before`
/// with their conversions put in, in the arena `after`: each has the name and
/// the type that it carried, and, where its node is looked at, a node that
/// comes to something without conversions, namely to what the node it had
/// comes to with them. An expression that needed no conversion has the node
/// that it had.
pub open spec fn coerced_list(
    es: Seq<ExprIR>,
    out: Seq<ExprIR>,
    before: Seq<AExpr>,
    after: Seq<AExpr>,
    cols: Columns,
) -> bool {
    &&& out.len() == es.len()
    &&& forall|i: int|
        #![trigger out[i]]
        0 <= i < es.len() ==> {
            &&& out[i].output_name == es[i].output_name
            &&& out[i].output_dtype == es[i].output_dtype
            &&& reads_node(es[i]) ==> {
                &&& out[i].node.0 < after.len()
                &&& resolve(after, out[i].node.0 as int, cols) is Ok
                &&& resolve(after, out[i].node.0 as int, cols) == coerced(
                    before,
                    es[i].node.0 as int,
                    cols,
                )
            }
            &&& !reads_node(es[i]) || resolve(before, es[i].node.0 as int, cols) is Ok
                ==> out[i].node == es[i].node
        }
}

/// What holds of a list of expressions with their conversions in one arena
/// holds in every arena that starts with it.
pub proof fn lemma_coerced_list_extends(
    es: Seq<ExprIR>,
    out: Seq<ExprIR>,
    before: Seq<AExpr>,
    after: Seq<AExpr>,
    later: Seq<AExpr>,
    cols: Columns,
)
    requires
        coerced_list(es, out, before, after, cols),
        extends(after, later),
    ensures
        coerced_list(es, out, before, later, cols),
{
    lemma_extends_slots(after, later);
    assert forall|i: int| #![trigger out[i]] 0 <= i < es.len() && reads_node(es[i]) implies {
        &&& out[i].node.0 < later.len()
        &&& resolve(later, out[i].node.0 as int, cols) == resolve(after, out[i].node.0 as int, cols)
    } by {
        lemma_extends_same(after, later, out[i].node.0 as int, cols);
    }
}

/// The failure of the first of the node's own expressions that produces no
/// column against the schema of the input it reads, even with conversions,
/// if there is one. The keys of a join read from the input of their side.
pub open spec fn node_failure(lp: IR, plans: Seq<IR>, exprs: Seq<AExpr>) -> Option<
    (ErrorKind, Seq<char>),
> {
    match lp {
        IR::Select { input, expr, .. } => first_coerced_failure(
            expr@,
            exprs,
            schema_of(plans, input.0 as int),
        ),
        IR::HStack { input, exprs: es, .. } => first_coerced_failure(
            es@,
            exprs,
            schema_of(plans, input.0 as int),
        ),
        IR::Sort { input, by_column, .. } => first_coerced_failure(
            by_column@,
            exprs,
            schema_of(plans, input.0 as int),
        ),
        IR::GroupBy { input, keys, aggs, .. } => match first_coerced_failure(
            keys@,
            exprs,
            schema_of(plans, input.0 as int),
        ) {
            Some(e) => Some(e),
            None => first_coerced_failure(aggs@, exprs, schema_of(plans, input.0 as int)),
        },
        IR::Join { input_left, input_right, left_on, right_on, .. } => match first_coerced_failure(
            left_on@,
            exprs,
            schema_of(plans, input_left.0 as int),
        ) {
            Some(e) => Some(e),
            None => first_coerced_failure(
                right_on@,
                exprs,
                schema_of(plans, input_right.0 as int),
            ),
        },
        _ => None,
    }
}

/// Every expression of the node whose node is looked at comes to something
/// without conversions.
pub open spec fn node_typed(lp: IR, plans: Seq<IR>, exprs: Seq<AExpr>) -> bool {
    match lp {
        IR::Select { input, expr, .. } => all_typed(expr@, exprs, schema_of(plans, input.0 as int)),
        IR::HStack { input, exprs: es, .. } => all_typed(
            es@,
            exprs,
            schema_of(plans, input.0 as int),
        ),
        IR::Sort { input, by_column, .. } => all_typed(
            by_column@,
            exprs,
            schema_of(plans, input.0 as int),
        ),
        IR::GroupBy { input, keys, aggs, .. } => all_typed(
            keys@,
            exprs,
            schema_of(plans, input.0 as int),
        ) && all_typed(aggs@, exprs, schema_of(plans, input.0 as int)),
        IR::Join { input_left, input_right, left_on, right_on, .. } => all_typed(
            left_on@,
            exprs,
            schema_of(plans, input_left.0 as int),
        ) && all_typed(right_on@, exprs, schema_of(plans, input_right.0 as int)),
        _ => true,
    }
}

/// The node `out` is the node `lp` with the conversions put into its
/// expressions, see `coerced_list`: of the same kind, with the same inputs
/// and arguments.
pub open spec fn coerced_ir(
    lp: IR,
    out: IR,
    before: Seq<AExpr>,
    after: Seq<AExpr>,
    plans: Seq<IR>,
) -> bool {
    match lp {
        IR::Select { input, expr, schema, options } => {
            &&& out matches IR::Select { input: i, expr: e, schema: s, options: o }
            &&& i == input
            &&& s == schema
            &&& o == options
            &&& coerced_list(expr@, e@, before, after, schema_of(plans, input.0 as int))
        },
        IR::HStack { input, exprs, schema, options } => {
            &&& out matches IR::HStack { input: i, exprs: e, schema: s, options: o }
            &&& i == input
            &&& s == schema
            &&& o == options
            &&& coerced_list(exprs@, e@, before, after, schema_of(plans, input.0 as int))
        },
        IR::Sort { input, by_column, slice, sort_options } => {
            &&& out matches IR::Sort { input: i, by_column: e, slice: s, sort_options: o }
            &&& i == input
            &&& s == slice
            &&& o == sort_options
            &&& coerced_list(by_column@, e@, before, after, schema_of(plans, input.0 as int))
        },
        IR::GroupBy { input, keys, aggs, schema, apply, maintain_order, options } => {
            &&& out matches IR::GroupBy {
                input: i,
                keys: k,
                aggs: a,
                schema: s,
                apply: u,
                maintain_order: m,
                options: o,
            }
            &&& i == input
            &&& s == schema
            &&& u == apply
            &&& m == maintain_order
            &&& o == options
            &&& coerced_list(keys@, k@, before, after, schema_of(plans, input.0 as int))
            &&& coerced_list(aggs@, a@, before, after, schema_of(plans, input.0 as int))
        },
        IR::Join { input_left, input_right, schema, left_on, right_on, options } => {
            &&& out matches IR::Join {
                input_left: il,
                input_right: ir,
                schema: s,
                left_on: l,
                right_on: r,
                options: o,
            }
            &&& il == input_left
            &&& ir == input_right
            &&& s == schema
            &&& o == options
            &&& coerced_list(left_on@, l@, before, after, schema_of(plans, input_left.0 as int))
            &&& coerced_list(right_on@, r@, before, after, schema_of(plans, input_right.0 as int))
        },
        _ => out == lp,
    }
}

fn expr_reads_node(e: &ExprIR) -> (b: bool)
    ensures
        b == reads_node(*e),
{
    e.output_name.get().is_none() || e.output_dtype.is_none()
}

fn check_coerced(es: &Vec<ExprIR>, schema: &Schema, arena: &Arena<AExpr>) -> (r: Result<
    (),
    PlanError,
>)
    ensures
        match r {
            Ok(_) => first_coerced_failure(es@, arena@, schema@) is None,
            Err(e) => first_coerced_failure(es@, arena@, schema@) == Some((e.kind, e.subject@))
                && e.context@.len() == 0,
        },
{
    let mut i: usize = 0;
    while i < es.len()
        invariant
            i <= es.len(),
            first_coerced_failure(es@.take(i as int), arena@, schema@) is None,
        decreases es.len() - i,
    {
        proof {
            assert(es@.take(i + 1).drop_last() =~= es@.take(i as int));
            assert(es@.take(i + 1).last() == es@[i as int]);
        }
        if expr_reads_node(&es[i]) {
            match coerced_node(arena, es[i].node, schema) {
                Ok(_) => {},
                Err(e) => {
                    proof {
                        assert(es@ =~= es@.take(i + 1) + es@.subrange(i + 1, es@.len() as int));
                        lemma_coerced_failure_stays(
                            es@.take(i + 1),
                            es@.subrange(i + 1, es@.len() as int),
                            arena@,
                            schema@,
                        );
                    }
                    return Err(e);
                },
            }
        }
        i = i + 1;
    }
    assert(es@.take(i as int) =~= es@);
    Ok(())
}

fn coerce_exprs(es: &Vec<ExprIR>, schema: &Schema, arena: &mut Arena<AExpr>) -> (out: Vec<ExprIR>)
    requires
        all_coerce(es@, old(arena)@, schema@),
    ensures
        extends(old(arena)@, final(arena)@),
        coerced_list(es@, out@, old(arena)@, final(arena)@, schema@),
        all_typed(es@, old(arena)@, schema@) ==> final(arena)@ == old(arena)@,
{
    let ghost start = arena@;
    let mut out: Vec<ExprIR> = Vec::with_capacity(es.len());
    let mut i: usize = 0;
    proof {
        lemma_extends_refl(start);
    }
    while i < es.len()
        invariant
            i <= es.len(),
            all_coerce(es@, start, schema@),
            extends(start, arena@),
            coerced_list(es@.take(i as int), out@, start, arena@, schema@),
            all_typed(es@.take(i as int), start, schema@) ==> arena@ == start,
        decreases es.len() - i,
    {
        let ghost mid = arena@;
        let ghost done = out@;
        let e = &es[i];
        let node = if expr_reads_node(e) {
            proof {
                assert(reads_node(es@[i as int]));
                assert(coerced(start, e.node.0 as int, schema@) is Ok);
                lemma_extends_same(start, mid, e.node.0 as int, schema@);
            }
            let (n, _) = coerce_expr(arena, e.node, schema);
            n
        } else {
            proof {
                lemma_extends_refl(mid);
            }
            e.node
        };
        proof {
            lemma_extends_trans(start, mid, arena@);
            lemma_coerced_list_extends(es@.take(i as int), done, start, mid, arena@, schema@);
        }
        out.push(
            ExprIR { output_name: e.output_name.clone(), node, output_dtype: e.output_dtype.clone() },
        );
        proof {
            let next = es@.take(i + 1);
            assert forall|k: int| #![trigger out@[k]] 0 <= k < next.len() implies {
                &&& out@[k].output_name == next[k].output_name
                &&& out@[k].output_dtype == next[k].output_dtype
                &&& reads_node(next[k]) ==> {
                    &&& out@[k].node.0 < arena@.len()
                    &&& resolve(arena@, out@[k].node.0 as int, schema@) is Ok
                    &&& resolve(arena@, out@[k].node.0 as int, schema@) == coerced(
                        start,
                        next[k].node.0 as int,
                        schema@,
                    )
                }
                &&& !reads_node(next[k]) || resolve(start, next[k].node.0 as int, schema@) is Ok
                    ==> out@[k].node == next[k].node
            } by {
                if k < i {
                    assert(out@[k] == done[k]);
                    assert(next[k] == es@.take(i as int)[k]);
                } else {
                    if reads_node(next[k]) {
                        assert(coerced(start, e.node.0 as int, schema@) is Ok);
                        lemma_extends_same(start, mid, e.node.0 as int, schema@);
                    }
                }
            }
            if all_typed(next, start, schema@) {
                assert forall|k: int|
                    0 <= k < i && reads_node(#[trigger] es@.take(i as int)[k]) implies resolve(
                    start,
                    es@.take(i as int)[k].node.0 as int,
                    schema@,
                ) is Ok by {
                    assert(next[k] == es@.take(i as int)[k]);
                }
                assert(next[i as int] == es@[i as int]);
            }
        }
        i = i + 1;
    }
    assert(es@.take(i as int) =~= es@);
    out
}

/// The pass over the expressions of the node `lp` on its way into the plan
/// of `lp_arena`. Each expression must come to a column against the schema of
/// the input that it reads, once numbers of different types that meet in an
/// operation are converted to the type they meet in: else the node comes
/// back with the failure, and nothing has changed. The node that comes out
/// has those conversions in its expressions, written into new slots of the
/// expression arena; a node that needs none comes out with the expressions
/// that it had, and the arena stays as it was.
pub fn optimize_node(lp: IR, expr_arena: &mut Arena<AExpr>, lp_arena: &Arena<IR>) -> (r: Result<
    IR,
    (IR, PlanError),
>)
    requires
        plan_wf(lp_arena@),
        lp.inputs_before(lp_arena@.len() as int),
    ensures
        match r {
            Ok(out) => node_failure(lp, lp_arena@, old(expr_arena)@) is None && coerced_ir(
                lp,
                out,
                old(expr_arena)@,
                final(expr_arena)@,
                lp_arena@,
            ) && extends(old(expr_arena)@, final(expr_arena)@),
            Err(back) => back.0 == lp && node_failure(lp, lp_arena@, old(expr_arena)@) == Some(
                (back.1.kind, back.1.subject@),
            ) && back.1.context@.len() == 0 && final(expr_arena)@ == old(expr_arena)@,
        },
        node_typed(lp, lp_arena@, old(expr_arena)@) ==> final(expr_arena)@ == old(expr_arena)@,
{
    match lp {
        IR::Select { input, expr, schema, options } => {
            let cols = node_schema(lp_arena, input);
            match check_coerced(&expr, &cols, expr_arena) {
                Err(e) => Err((IR::Select { input, expr, schema, options }, e)),
                Ok(_) => {
                    proof {
                        lemma_no_coerced_failure(expr@, expr_arena@, cols@);
                    }
                    let expr2 = coerce_exprs(&expr, &cols, expr_arena);
                    Ok(IR::Select { input, expr: expr2, schema, options })
                },
            }
        },
        IR::HStack { input, exprs, schema, options } => {
            let cols = node_schema(lp_arena, input);
            match check_coerced(&exprs, &cols, expr_arena) {
                Err(e) => Err((IR::HStack { input, exprs, schema, options }, e)),
                Ok(_) => {
                    proof {
                        lemma_no_coerced_failure(exprs@, expr_arena@, cols@);
                    }
                    let exprs2 = coerce_exprs(&exprs, &cols, expr_arena);
                    Ok(IR::HStack { input, exprs: exprs2, schema, options })
                },
            }
        },
        IR::Sort { input, by_column, slice, sort_options } => {
            let cols = node_schema(lp_arena, input);
            match check_coerced(&by_column, &cols, expr_arena) {
                Err(e) => Err((IR::Sort { input, by_column, slice, sort_options }, e)),
                Ok(_) => {
                    proof {
                        lemma_no_coerced_failure(by_column@, expr_arena@, cols@);
                    }
                    let by_column2 = coerce_exprs(&by_column, &cols, expr_arena);
                    Ok(IR::Sort { input, by_column: by_column2, slice, sort_options })
                },
            }
        },
        IR::GroupBy { input, keys, aggs, schema, apply, maintain_order, options } => {
            let cols = node_schema(lp_arena, input);
            let found = match check_coerced(&keys, &cols, expr_arena) {
                Ok(_) => check_coerced(&aggs, &cols, expr_arena),
                Err(e) => Err(e),
            };
            match found {
                Err(e) => Err(
                    (IR::GroupBy { input, keys, aggs, schema, apply, maintain_order, options }, e),
                ),
                Ok(_) => {
                    let ghost start = expr_arena@;
                    proof {
                        lemma_no_coerced_failure(keys@, start, cols@);
                        lemma_no_coerced_failure(aggs@, start, cols@);
                    }
                    let keys2 = coerce_exprs(&keys, &cols, expr_arena);
                    let ghost mid = expr_arena@;
                    proof {
                        lemma_all_coerce_extends(aggs@, start, mid, cols@);
                    }
                    let aggs2 = coerce_exprs(&aggs, &cols, expr_arena);
                    proof {
                        lemma_extends_trans(start, mid, expr_arena@);
                        lemma_coerced_list_extends(keys@, keys2@, start, mid, expr_arena@, cols@);
                        lemma_coerced_list_rebase(aggs@, aggs2@, start, mid, expr_arena@, cols@);
                        if node_typed(lp, lp_arena@, start) {
                            lemma_all_typed_extends(aggs@, start, mid, cols@);
                        }
                    }
                    Ok(
                        IR::GroupBy {
                            input,
                            keys: keys2,
                            aggs: aggs2,
                            schema,
                            apply,
                            maintain_order,
                            options,
                        },
                    )
                },
            }
        },
        IR::Join { input_left, input_right, schema, left_on, right_on, options } => {
            let left = node_schema(lp_arena, input_left);
            let right = node_schema(lp_arena, input_right);
            let found = match check_coerced(&left_on, &left, expr_arena) {
                Ok(_) => check_coerced(&right_on, &right, expr_arena),
                Err(e) => Err(e),
            };
            match found {
                Err(e) => Err(
                    (IR::Join { input_left, input_right, schema, left_on, right_on, options }, e),
                ),
                Ok(_) => {
                    let ghost start = expr_arena@;
                    proof {
                        lemma_no_coerced_failure(left_on@, start, left@);
                        lemma_no_coerced_failure(right_on@, start, right@);
                    }
                    let left_on2 = coerce_exprs(&left_on, &left, expr_arena);
                    let ghost mid = expr_arena@;
                    proof {
                        lemma_all_coerce_extends(right_on@, start, mid, right@);
                    }
                    let right_on2 = coerce_exprs(&right_on, &right, expr_arena);
                    proof {
                        lemma_extends_trans(start, mid, expr_arena@);
                        lemma_coerced_list_extends(
                            left_on@,
                            left_on2@,
                            start,
                            mid,
                            expr_arena@,
                            left@,
                        );
                        lemma_coerced_list_rebase(
                            right_on@,
                            right_on2@,
                            start,
                            mid,
                            expr_arena@,
                            right@,
                        );
                        if node_typed(lp, lp_arena@, start) {
                            lemma_all_typed_extends(right_on@, start, mid, right@);
                        }
                    }
                    Ok(
                        IR::Join {
                            input_left,
                            input_right,
                            schema,
                            left_on: left_on2,
                            right_on: right_on2,
                            options,
                        },
                    )
                },
            }
        },
        other => {
            proof {
                lemma_extends_refl(expr_arena@);
            }
            Ok(other)
        },
    }
}

/// Expressions that come to something with conversions in an arena do so
/// in every arena that starts with it.
proof fn lemma_all_coerce_extends(es: Seq<ExprIR>, a: Seq<AExpr>, b: Seq<AExpr>, cols: Columns)
    requires
        all_coerce(es, a, cols),
        extends(a, b),
    ensures
        all_coerce(es, b, cols),
{
    lemma_extends_slots(a, b);
    assert forall|i: int| 0 <= i < es.len() && reads_node(#[trigger] es[i]) implies coerced(
        b,
        es[i].node.0 as int,
        cols,
    ) is Ok by {
        assert(coerced(a, es[i].node.0 as int, cols) is Ok);
        lemma_extends_same(a, b, es[i].node.0 as int, cols);
    }
}

/// Expressions that come to something without conversions in an arena do
/// so in every arena that starts with it.
proof fn lemma_all_typed_extends(es: Seq<ExprIR>, a: Seq<AExpr>, b: Seq<AExpr>, cols: Columns)
    requires
        all_typed(es, a, cols),
        extends(a, b),
    ensures
        all_typed(es, b, cols),
{
    lemma_extends_slots(a, b);
    assert forall|i: int| 0 <= i < es.len() && reads_node(#[trigger] es[i]) implies resolve(
        b,
        es[i].node.0 as int,
        cols,
    ) is Ok by {
        assert(resolve(a, es[i].node.0 as int, cols) is Ok);
        lemma_extends_same(a, b, es[i].node.0 as int, cols);
    }
}

/// A list of expressions with their conversions, made in an arena that
/// starts with another, is that list for the other arena too.
proof fn lemma_coerced_list_rebase(
    es: Seq<ExprIR>,
    out: Seq<ExprIR>,
    start: Seq<AExpr>,
    mid: Seq<AExpr>,
    after: Seq<AExpr>,
    cols: Columns,
)
    requires
        extends(start, mid),
        all_coerce(es, start, cols),
        coerced_list(es, out, mid, after, cols),
    ensures
        coerced_list(es, out, start, after, cols),
{
    lemma_extends_slots(start, mid);
    assert forall|i: int| #![trigger out[i]] 0 <= i < es.len() implies {
        &&& reads_node(es[i]) ==> resolve(after, out[i].node.0 as int, cols) == coerced(
            start,
            es[i].node.0 as int,
            cols,
        )
        &&& !reads_node(es[i]) || resolve(start, es[i].node.0 as int, cols) is Ok ==> out[i].node
            == es[i].node
    } by {
        if reads_node(es[i]) {
            assert(coerced(start, es[i].node.0 as int, cols) is Ok);
            lemma_extends_same(start, mid, es[i].node.0 as int, cols);
        }
    }
}

/// Expressions that come to something without conversions do so with them.
pub proof fn lemma_typed_coerces(es: Seq<ExprIR>, exprs: Seq<AExpr>, cols: Columns)
    requires
        all_typed(es, exprs, cols),
    ensures
        all_coerce(es, exprs, cols),
        first_coerced_failure(es, exprs, cols) is None,
{
    assert forall|i: int| 0 <= i < es.len() && reads_node(#[trigger] es[i]) implies coerced(
        exprs,
        es[i].node.0 as int,
        cols,
    ) is Ok by {
        lemma_coerced_of_resolved(exprs, es[i].node.0 as int, cols);
    }
    lemma_no_coerced_failure(es, exprs, cols);
}

/// A node whose expressions need no conversion passes.
pub proof fn lemma_typed_node_passes(lp: IR, plans: Seq<IR>, exprs: Seq<AExpr>)
    requires
        node_typed(lp, plans, exprs),
    ensures
        node_failure(lp, plans, exprs) is None,
{
    match lp {
        IR::Select { input, expr, .. } => {
            lemma_typed_coerces(expr@, exprs, schema_of(plans, input.0 as int));
        },
        IR::HStack { input, exprs: es, .. } => {
            lemma_typed_coerces(es@, exprs, schema_of(plans, input.0 as int));
        },
        IR::Sort { input, by_column, .. } => {
            lemma_typed_coerces(by_column@, exprs, schema_of(plans, input.0 as int));
        },
        IR::GroupBy { input, keys, aggs, .. } => {
            lemma_typed_coerces(keys@, exprs, schema_of(plans, input.0 as int));
            lemma_typed_coerces(aggs@, exprs, schema_of(plans, input.0 as int));
        },
        IR::Join { input_left, input_right, left_on, right_on, .. } => {
            lemma_typed_coerces(left_on@, exprs, schema_of(plans, input_left.0 as int));
            lemma_typed_coerces(right_on@, exprs, schema_of(plans, input_right.0 as int));
        },
        _ => {},
    }
}

/// The node that the pass gives needs no conversion: a second pass finds
/// nothing to do.
pub proof fn lemma_optimized_is_typed(
    lp: IR,
    out: IR,
    before: Seq<AExpr>,
    after: Seq<AExpr>,
    plans: Seq<IR>,
)
    requires
        coerced_ir(lp, out, before, after, plans),
    ensures
        node_typed(out, plans, after),
{
    match lp {
        IR::Select { input, expr, .. } => {
            lemma_list_is_typed(
                expr@,
                out->Select_expr@,
                before,
                after,
                schema_of(plans, input.0 as int),
            );
        },
        IR::HStack { input, exprs, .. } => {
            lemma_list_is_typed(
                exprs@,
                out->HStack_exprs@,
                before,
                after,
                schema_of(plans, input.0 as int),
            );
        },
        IR::Sort { input, by_column, .. } => {
            lemma_list_is_typed(
                by_column@,
                out->by_column@,
                before,
                after,
                schema_of(plans, input.0 as int),
            );
        },
        IR::GroupBy { input, keys, aggs, .. } => {
            lemma_list_is_typed(
                keys@,
                out->keys@,
                before,
                after,
                schema_of(plans, input.0 as int),
            );
            lemma_list_is_typed(
                aggs@,
                out->aggs@,
                before,
                after,
                schema_of(plans, input.0 as int),
            );
        },
        IR::Join { input_left, input_right, left_on, right_on, .. } => {
            lemma_list_is_typed(
                left_on@,
                out->left_on@,
                before,
                after,
                schema_of(plans, input_left.0 as int),
            );
            lemma_list_is_typed(
                right_on@,
                out->right_on@,
                before,
                after,
                schema_of(plans, input_right.0 as int),
            );
        },
        _ => {},
    }
}

/// Expressions with their conversions put in need no conversion.
proof fn lemma_list_is_typed(
    es: Seq<ExprIR>,
    out: Seq<ExprIR>,
    before: Seq<AExpr>,
    after: Seq<AExpr>,
    cols: Columns,
)
    requires
        coerced_list(es, out, before, after, cols),
    ensures
        all_typed(out, after, cols),
{
    assert forall|i: int| 0 <= i < out.len() && reads_node(#[trigger] out[i]) implies resolve(
        after,
        out[i].node.0 as int,
        cols,
    ) is Ok by {
        assert(reads_node(es[i]));
    }
}

} // verus!
