use vstd::prelude::*;
use crate::arena::Arena;
use crate::arena::Node;
use crate::dtype::DataType;
use crate::error::ErrorKind;
use crate::error::PlanError;
use crate::schema::columns_of;
use crate::schema::dtype_of;
use crate::schema::merge;
use crate::schema::Columns;
use crate::schema::Field;
use crate::schema::Schema;

verus! {

/// Where an expression is evaluated: once per row, or once per group.
#[derive(Clone, Copy, Debug, PartialEq, Eq, Structural)]
pub enum Context {
    Default,
    Aggregation,
}

/// A binary operator.
#[derive(Clone, Copy, Debug, PartialEq, Eq, Structural)]
pub enum Operator {
    Eq,
    NotEq,
    Lt,
    LtEq,
    Gt,
    GtEq,
    Plus,
    Minus,
    Multiply,
    And,
    Or,
}

/// A reduction of many values to one.
#[derive(Clone, Copy, Debug, PartialEq, Eq, Structural)]
pub enum AggKind {
    Min,
    Max,
    First,
    Last,
    Sum,
    Mean,
    Count,
    NUnique,
    Implode,
}

/// A node of an expression, held in an expression arena. Its inputs are
/// handles into the same arena.
#[derive(Debug)]
pub enum AExpr {
    /// The column of that name.
    Column(String),
    /// A constant of that type.
    Literal(DataType),
    /// The input converted to `dtype`.
    Cast { expr: Node, dtype: DataType },
    BinaryExpr { left: Node, op: Operator, right: Node },
    Agg { kind: AggKind, input: Node },
    /// The number of rows.
    Len,
}

impl Default for AExpr {
    fn default() -> (e: Self)
        ensures
            e matches AExpr::Column(name) && name@ == Seq::<char>::empty(),
    {
        AExpr::Column(String::new())
    }
}

/// How the column that an expression produces gets its name.
#[derive(Debug)]
pub enum OutputName {
    /// No name was set.
    Unset,
    /// The name of the literal the expression starts from.
    LiteralLhs(String),
    /// The name of the column the expression starts from.
    ColumnLhs(String),
    /// A name given by the query.
    Alias(String),
}

/// The model of an output name: the kind of name, and its characters.
pub enum Naming {
    Unset,
    LiteralLhs(Seq<char>),
    ColumnLhs(Seq<char>),
    Alias(Seq<char>),
}

impl View for OutputName {
    type V = Naming;

    open spec fn view(&self) -> Naming {
        match self {
            OutputName::Unset => Naming::Unset,
            OutputName::LiteralLhs(n) => Naming::LiteralLhs(n@),
            OutputName::ColumnLhs(n) => Naming::ColumnLhs(n@),
            OutputName::Alias(n) => Naming::Alias(n@),
        }
    }
}

impl OutputName {
    /// The name that was set, if one was.
    pub open spec fn name(self) -> Option<Seq<char>> {
        match self {
            OutputName::Unset => None,
            OutputName::LiteralLhs(n) => Some(n@),
            OutputName::ColumnLhs(n) => Some(n@),
            OutputName::Alias(n) => Some(n@),
        }
    }

    /// The name that was set, if one was.
    pub fn get(&self) -> (r: Option<&String>)
        ensures
            match r {
                Some(n) => self.name() == Some(n@),
                None => self.name() is None,
            },
    {
        match self {
            OutputName::Unset => None,
            OutputName::LiteralLhs(n) => Some(n),
            OutputName::ColumnLhs(n) => Some(n),
            OutputName::Alias(n) => Some(n),
        }
    }
}

impl Clone for OutputName {
    fn clone(&self) -> (r: Self)
        ensures
            r == *self,
    {
        match self {
            OutputName::Unset => OutputName::Unset,
            OutputName::LiteralLhs(n) => OutputName::LiteralLhs(n.clone()),
            OutputName::ColumnLhs(n) => OutputName::ColumnLhs(n.clone()),
            OutputName::Alias(n) => OutputName::Alias(n.clone()),
        }
    }
}

/// An expression as a plan node holds it: the handle of its root in the
/// expression arena, how its output is named, and its output type where
/// that was worked out before.
#[derive(Debug)]
pub struct ExprIR {
    pub output_name: OutputName,
    pub node: Node,
    pub output_dtype: Option<DataType>,
}

impl ExprIR {
    pub fn new(node: Node, output_name: OutputName) -> (e: Self)
        ensures
            e.node == node,
            e.output_name == output_name,
            e.output_dtype is None,
    {
        ExprIR { output_name, node, output_dtype: None }
    }

    /// The same expression with `dtype` kept as its output type.
    pub fn with_dtype(self, dtype: DataType) -> (e: Self)
        ensures
            e.node == self.node,
            e.output_name == self.output_name,
            e.output_dtype == Some(dtype),
    {
        ExprIR { output_name: self.output_name, node: self.node, output_dtype: Some(dtype) }
    }

    pub fn node(&self) -> (n: Node)
        ensures
            n == self.node,
    {
        self.node
    }

    /// The name that the query gave, if it gave one.
    pub fn get_alias(&self) -> (r: Option<&String>)
        ensures
            match r {
                Some(n) => self.output_name matches OutputName::Alias(a) && a@ == n@,
                None => !(self.output_name is Alias),
            },
    {
        match &self.output_name {
            OutputName::Alias(n) => Some(n),
            _ => None,
        }
    }
}

/// Whether arithmetic is defined on values of the type.
pub open spec fn is_numeric(d: DataType) -> bool {
    d is UInt8 || d is UInt16 || d is UInt32 || d is UInt64 || d is Int8 || d is Int16 || d is Int32
        || d is Int64 || d is Float32 || d is Float64
}

/// Whether the operator yields a truth value.
pub open spec fn is_predicate(op: Operator) -> bool {
    !(op is Plus || op is Minus || op is Multiply)
}

/// The type of a reduction of values of type `d`.
pub open spec fn agg_dtype(kind: AggKind, d: DataType) -> DataType {
    match kind {
        AggKind::Min | AggKind::Max | AggKind::First | AggKind::Last => d,
        AggKind::Sum => match d {
            DataType::Int8 | DataType::UInt8 | DataType::Int16 | DataType::UInt16 => DataType::Int64,
            DataType::Boolean => DataType::UInt32,
            _ => d,
        },
        AggKind::Mean => match d {
            DataType::Float32 => DataType::Float32,
            _ => DataType::Float64,
        },
        AggKind::Count | AggKind::NUnique => DataType::UInt32,
        AggKind::Implode => DataType::List(Box::new(d)),
    }
}

/// What an expression comes to: the name of the column it starts from, its
/// type, and whether it is a single value however many rows go in; or the
/// class of its failure and the name that the failure is about.
pub type Outcome = Result<(Seq<char>, DataType, bool), (ErrorKind, Seq<char>)>;

/// What the column called `name` comes to against `cols`.
pub open spec fn column_outcome(cols: Columns, name: Seq<char>) -> Outcome {
    match dtype_of(cols, name) {
        Some(d) => Ok((name, d, false)),
        None => Err((ErrorKind::ColumnNotFound, name)),
    }
}

/// What a conversion to `dtype` makes of its input.
pub open spec fn cast_outcome(input: Outcome, dtype: DataType) -> Outcome {
    match input {
        Ok(x) => Ok((x.0, dtype, x.2)),
        Err(e) => Err(e),
    }
}

/// What a binary operation makes of its inputs. Both must have the same
/// type, and arithmetic needs numbers: else it is a `SchemaMismatch` failure
/// about the left input. A predicate gives a truth value, arithmetic a value
/// of the inputs' type.
pub open spec fn binary_outcome(left: Outcome, op: Operator, right: Outcome) -> Outcome {
    match left {
        Err(e) => Err(e),
        Ok(l) => match right {
            Err(e) => Err(e),
            Ok(r) => if l.1 != r.1 || (!is_predicate(op) && !is_numeric(l.1)) {
                Err((ErrorKind::SchemaMismatch, l.0))
            } else if is_predicate(op) {
                Ok((l.0, DataType::Boolean, l.2 && r.2))
            } else {
                Ok((l.0, l.1, l.2 && r.2))
            },
        },
    }
}

/// What a reduction makes of its input: a single value.
pub open spec fn agg_outcome(kind: AggKind, input: Outcome) -> Outcome {
    match input {
        Ok(x) => Ok((x.0, agg_dtype(kind, x.1), true)),
        Err(e) => Err(e),
    }
}

/// The failure of an expression that reads from a slot that is not before
/// its own.
pub open spec fn invalid_outcome() -> Outcome {
    Err((ErrorKind::InvalidOperation, Seq::empty()))
}

/// What the expression node in slot `n` of `exprs` comes to against the
/// columns `cols`. An input must stand in an earlier slot than the node that
/// reads it.
pub open spec fn resolve(exprs: Seq<AExpr>, n: int, cols: Columns) -> Outcome
    decreases n,
{
    if !(0 <= n < exprs.len()) {
        invalid_outcome()
    } else {
        match exprs[n] {
            AExpr::Column(name) => column_outcome(cols, name@),
            AExpr::Literal(d) => Ok(("literal"@, d, true)),
            AExpr::Len => Ok(("len"@, DataType::UInt32, true)),
            AExpr::Cast { expr, dtype } => if expr.0 < n {
                cast_outcome(resolve(exprs, expr.0 as int, cols), dtype)
            } else {
                invalid_outcome()
            },
            AExpr::BinaryExpr { left, op, right } => if left.0 < n && right.0 < n {
                binary_outcome(
                    resolve(exprs, left.0 as int, cols),
                    op,
                    resolve(exprs, right.0 as int, cols),
                )
            } else {
                invalid_outcome()
            },
            AExpr::Agg { kind, input } => if input.0 < n {
                agg_outcome(kind, resolve(exprs, input.0 as int, cols))
            } else {
                invalid_outcome()
            },
        }
    }
}

/// What an expression node comes to depends on the slots up to its own only.
pub proof fn lemma_resolve_prefix(a: Seq<AExpr>, b: Seq<AExpr>, n: int, cols: Columns)
    requires
        0 <= n < a.len(),
        n < b.len(),
        forall|i: int| 0 <= i <= n ==> a[i] == b[i],
    ensures
        resolve(a, n, cols) == resolve(b, n, cols),
    decreases n,
{
    match a[n] {
        AExpr::Cast { expr, .. } => {
            if expr.0 < n {
                lemma_resolve_prefix(a, b, expr.0 as int, cols);
            }
        },
        AExpr::BinaryExpr { left, right, .. } => {
            if left.0 < n && right.0 < n {
                lemma_resolve_prefix(a, b, left.0 as int, cols);
                lemma_resolve_prefix(a, b, right.0 as int, cols);
            }
        },
        AExpr::Agg { input, .. } => {
            if input.0 < n {
                lemma_resolve_prefix(a, b, input.0 as int, cols);
            }
        },
        _ => {},
    }
}

/// `after` starts with the slots of `before`.
#[verifier::opaque]
pub open spec fn extends(before: Seq<AExpr>, after: Seq<AExpr>) -> bool {
    before.len() <= after.len() && forall|i: int| 0 <= i < before.len() ==> after[i] == before[i]
}

/// An arena starts with its own slots.
pub proof fn lemma_extends_refl(a: Seq<AExpr>)
    ensures
        extends(a, a),
{
    reveal(extends);
}

/// An arena with one more slot starts with the slots it had.
pub proof fn lemma_extends_push(a: Seq<AExpr>, b: Seq<AExpr>, x: AExpr)
    requires
        extends(a, b),
    ensures
        extends(a, b.push(x)),
        extends(b, b.push(x)),
{
    reveal(extends);
}

/// What starts with the start of an arena is continued by the arena.
pub proof fn lemma_extends_trans(a: Seq<AExpr>, b: Seq<AExpr>, c: Seq<AExpr>)
    requires
        extends(a, b),
        extends(b, c),
    ensures
        extends(a, c),
{
    reveal(extends);
}

/// The slots of the start of an arena are slots of the arena, and an arena
/// that is no longer than its start is its start.
pub proof fn lemma_extends_slots(a: Seq<AExpr>, b: Seq<AExpr>)
    requires
        extends(a, b),
    ensures
        a.len() <= b.len(),
        forall|i: int| 0 <= i < a.len() ==> b[i] == a[i],
        a.len() == b.len() ==> a == b,
{
    reveal(extends);
    if a.len() == b.len() {
        assert(a =~= b);
    }
}

/// A node of the start of an arena comes to the same in the arena.
pub proof fn lemma_extends_resolve(a: Seq<AExpr>, b: Seq<AExpr>, n: int, cols: Columns)
    requires
        extends(a, b),
        0 <= n < a.len(),
    ensures
        resolve(b, n, cols) == resolve(a, n, cols),
{
    lemma_extends_slots(a, b);
    lemma_resolve_prefix(a, b, n, cols);
}

/// An expression as a query writes it: a tree.
#[derive(Debug)]
pub enum Expr {
    Column(String),
    Literal(DataType),
    /// The input under another name.
    Alias(Box<Expr>, String),
    Cast { expr: Box<Expr>, dtype: DataType },
    BinaryExpr { left: Box<Expr>, op: Operator, right: Box<Expr> },
    Agg { kind: AggKind, input: Box<Expr> },
    Len,
}

impl Expr {
    /// What the expression comes to against the columns `cols`. A name
    /// given on the way changes nothing of it.
    pub open spec fn eval(self, cols: Columns) -> Outcome
        decreases self,
    {
        match self {
            Expr::Column(name) => column_outcome(cols, name@),
            Expr::Literal(d) => Ok(("literal"@, d, true)),
            Expr::Len => Ok(("len"@, DataType::UInt32, true)),
            Expr::Alias(e, _) => e.eval(cols),
            Expr::Cast { expr, dtype } => cast_outcome(expr.eval(cols), dtype),
            Expr::BinaryExpr { left, op, right } => binary_outcome(
                left.eval(cols),
                op,
                right.eval(cols),
            ),
            Expr::Agg { kind, input } => agg_outcome(kind, input.eval(cols)),
        }
    }

    /// The number of nodes that the expression takes in an arena: one for
    /// each of its parts but the names given on the way.
    pub open spec fn nodes(self) -> nat
        decreases self,
    {
        match self {
            Expr::Column(_) => 1,
            Expr::Literal(_) => 1,
            Expr::Len => 1,
            Expr::Alias(e, _) => e.nodes(),
            Expr::Cast { expr, .. } => expr.nodes() + 1,
            Expr::BinaryExpr { left, right, .. } => left.nodes() + right.nodes() + 1,
            Expr::Agg { input, .. } => input.nodes() + 1,
        }
    }

    /// How the column that the expression produces gets its name: from the
    /// first name given on the way down its left-most inputs, else from the
    /// column or the constant that it starts from.
    pub open spec fn naming(self) -> Naming
        decreases self,
    {
        match self {
            Expr::Column(name) => Naming::ColumnLhs(name@),
            Expr::Literal(_) => Naming::LiteralLhs("literal"@),
            Expr::Len => Naming::LiteralLhs("len"@),
            Expr::Alias(_, name) => Naming::Alias(name@),
            Expr::Cast { expr, .. } => expr.naming(),
            Expr::BinaryExpr { left, .. } => left.naming(),
            Expr::Agg { input, .. } => input.naming(),
        }
    }

    /// The output name of the expression.
    pub fn output_name(&self) -> (r: OutputName)
        ensures
            r@ == self.naming(),
        decreases *self,
    {
        match self {
            Expr::Column(name) => OutputName::ColumnLhs(name.clone()),
            Expr::Literal(_) => OutputName::LiteralLhs("literal".to_owned()),
            Expr::Len => OutputName::LiteralLhs("len".to_owned()),
            Expr::Alias(_, name) => OutputName::Alias(name.clone()),
            Expr::Cast { expr, .. } => expr.output_name(),
            Expr::BinaryExpr { left, .. } => left.output_name(),
            Expr::Agg { input, .. } => input.output_name(),
        }
    }
}

/// Writes the expression `expr` into `arena` as nodes, inputs first, and
/// returns the handle of its root, which is the last slot. The earlier slots
/// stay as they were, and the root comes to what the expression comes to.
pub fn to_aexpr(expr: Expr, arena: &mut Arena<AExpr>) -> (node: Node)
    ensures
        final(arena)@.len() == old(arena)@.len() + expr.nodes(),
        expr.nodes() > 0,
        node.0 == final(arena)@.len() - 1,
        extends(old(arena)@, final(arena)@),
        forall|cols: Columns|
            #[trigger] resolve(final(arena)@, node.0 as int, cols) == expr.eval(cols),
    decreases expr,
{
    let ghost start = arena@;
    proof {
        lemma_extends_refl(start);
    }
    match expr {
        Expr::Column(name) => {
            let node = arena.add(AExpr::Column(name));
            proof {
                lemma_extends_push(start, start, arena@.last());
            }
            node
        },
        Expr::Literal(d) => {
            let node = arena.add(AExpr::Literal(d));
            proof {
                lemma_extends_push(start, start, arena@.last());
            }
            node
        },
        Expr::Len => {
            let node = arena.add(AExpr::Len);
            proof {
                lemma_extends_push(start, start, arena@.last());
            }
            node
        },
        Expr::Alias(e, _) => to_aexpr(*e, arena),
        Expr::Cast { expr: inner, dtype } => {
            let input = to_aexpr(*inner, arena);
            let ghost mid = arena@;
            let node = arena.add(AExpr::Cast { expr: input, dtype });
            proof {
                lemma_extends_push(start, mid, arena@.last());
                assert forall|cols: Columns| #[trigger]
                    resolve(arena@, node.0 as int, cols) == expr.eval(cols) by {
                    lemma_extends_resolve(mid, arena@, input.0 as int, cols);
                }
            }
            node
        },
        Expr::BinaryExpr { left, op, right } => {
            let l = to_aexpr(*left, arena);
            let ghost mid1 = arena@;
            let r = to_aexpr(*right, arena);
            let ghost mid2 = arena@;
            let node = arena.add(AExpr::BinaryExpr { left: l, op, right: r });
            proof {
                lemma_extends_trans(start, mid1, mid2);
                lemma_extends_push(start, mid2, arena@.last());
                lemma_extends_trans(mid1, mid2, arena@);
                assert forall|cols: Columns| #[trigger]
                    resolve(arena@, node.0 as int, cols) == expr.eval(cols) by {
                    lemma_extends_resolve(mid1, arena@, l.0 as int, cols);
                    lemma_extends_resolve(mid2, arena@, r.0 as int, cols);
                }
            }
            node
        },
        Expr::Agg { kind, input: inner } => {
            let input = to_aexpr(*inner, arena);
            let ghost mid = arena@;
            let node = arena.add(AExpr::Agg { kind, input });
            proof {
                lemma_extends_push(start, mid, arena@.last());
                assert forall|cols: Columns| #[trigger]
                    resolve(arena@, node.0 as int, cols) == expr.eval(cols) by {
                    lemma_extends_resolve(mid, arena@, input.0 as int, cols);
                }
            }
            node
        },
    }
}

/// The type of the column that holds an expression of type `dtype` in the
/// given context: per group, what is not a single value becomes a list.
pub open spec fn dtype_in_context(dtype: DataType, scalar: bool, ctx: Context) -> DataType {
    if ctx is Aggregation && !scalar {
        DataType::List(Box::new(dtype))
    } else {
        dtype
    }
}

/// The column that an expression produces, or the failure that keeps it
/// from producing one.
pub type FieldOutcome = Result<(Seq<char>, DataType), (ErrorKind, Seq<char>)>;

/// The column that `e` produces in the context `ctx` where its node comes
/// to `x`. A name or a type that `e` carries wins over what its node comes
/// to; with both, the node is not looked at.
pub open spec fn field_from(e: ExprIR, x: Outcome, ctx: Context) -> FieldOutcome {
    match (e.output_name.name(), e.output_dtype) {
        (Some(name), Some(dtype)) => Ok((name, dtype)),
        _ => match x {
            Err(err) => Err(err),
            Ok(x) => Ok(
                (
                    match e.output_name.name() {
                        Some(name) => name,
                        None => x.0,
                    },
                    match e.output_dtype {
                        Some(dtype) => dtype,
                        None => dtype_in_context(x.1, x.2, ctx),
                    },
                ),
            ),
        },
    }
}

/// The column that `e` produces against `cols`.
pub open spec fn expr_field(e: ExprIR, exprs: Seq<AExpr>, cols: Columns, ctx: Context) -> FieldOutcome {
    field_from(e, resolve(exprs, e.node.0 as int, cols), ctx)
}

/// Every expression of `es` produces a column against `cols`.
pub open spec fn all_resolve(
    es: Seq<ExprIR>,
    exprs: Seq<AExpr>,
    cols: Columns,
    ctx: Context,
) -> bool {
    forall|i: int| 0 <= i < es.len() ==> (#[trigger] expr_field(es[i], exprs, cols, ctx)) is Ok
}

/// The columns that the expressions of `es` produce, one each, in order.
pub open spec fn expr_fields(
    es: Seq<ExprIR>,
    exprs: Seq<AExpr>,
    cols: Columns,
    ctx: Context,
) -> Columns {
    Seq::new(es.len(), |i: int| expr_field(es[i], exprs, cols, ctx)->Ok_0)
}

/// The schema of the result of evaluating `es`: each column set in turn, so
/// that a name produced twice stays where it first stood with the later type.
pub open spec fn exprs_schema(
    es: Seq<ExprIR>,
    exprs: Seq<AExpr>,
    cols: Columns,
    ctx: Context,
) -> Columns {
    merge(Seq::empty(), expr_fields(es, exprs, cols, ctx))
}

/// The failure of the first expression of `es` that produces no column
/// against `cols`, if there is one.
pub open spec fn first_failure(
    es: Seq<ExprIR>,
    exprs: Seq<AExpr>,
    cols: Columns,
    ctx: Context,
) -> Option<(ErrorKind, Seq<char>)>
    decreases es.len(),
{
    if es.len() == 0 {
        None
    } else {
        match first_failure(es.drop_last(), exprs, cols, ctx) {
            Some(e) => Some(e),
            None => match expr_field(es.last(), exprs, cols, ctx) {
                Err(e) => Some(e),
                Ok(_) => None,
            },
        }
    }
}

/// No expression fails exactly when every expression produces a column.
pub proof fn lemma_no_failure(es: Seq<ExprIR>, exprs: Seq<AExpr>, cols: Columns, ctx: Context)
    ensures
        first_failure(es, exprs, cols, ctx) is None <==> all_resolve(es, exprs, cols, ctx),
    decreases es.len(),
{
    if es.len() > 0 {
        lemma_no_failure(es.drop_last(), exprs, cols, ctx);
        if all_resolve(es, exprs, cols, ctx) {
            assert forall|i: int| 0 <= i < es.drop_last().len() implies (#[trigger] expr_field(
                es.drop_last()[i],
                exprs,
                cols,
                ctx,
            )) is Ok by {
                assert(es.drop_last()[i] == es[i]);
            }
            assert(expr_field(es[es.len() - 1], exprs, cols, ctx) is Ok);
        }
        if first_failure(es, exprs, cols, ctx) is None {
            assert forall|i: int| 0 <= i < es.len() implies (#[trigger] expr_field(
                es[i],
                exprs,
                cols,
                ctx,
            )) is Ok by {
                if i < es.len() - 1 {
                    assert(es.drop_last()[i] == es[i]);
                }
            }
        }
    }
}

/// The first failure is not changed by what comes after it.
pub proof fn lemma_first_failure_stays(
    es: Seq<ExprIR>,
    more: Seq<ExprIR>,
    exprs: Seq<AExpr>,
    cols: Columns,
    ctx: Context,
)
    requires
        first_failure(es, exprs, cols, ctx) is Some,
    ensures
        first_failure(es + more, exprs, cols, ctx) == first_failure(es, exprs, cols, ctx),
    decreases more.len(),
{
    if more.len() == 0 {
        assert(es + more =~= es);
    } else {
        assert((es + more).drop_last() =~= es + more.drop_last());
        lemma_first_failure_stays(es, more.drop_last(), exprs, cols, ctx);
    }
}

/// An expression node worked out against a schema.
pub struct Resolved {
    pub name: String,
    pub dtype: DataType,
    pub scalar: bool,
}

impl View for Resolved {
    type V = (Seq<char>, DataType, bool);

    open spec fn view(&self) -> (Seq<char>, DataType, bool) {
        (self.name@, self.dtype, self.scalar)
    }
}

/// What a result of resolving says, in the terms of the model.
pub open spec fn outcome<T: View>(r: Result<T, PlanError>) -> Result<T::V, (ErrorKind, Seq<char>)> {
    match r {
        Ok(x) => Ok(x@),
        Err(e) => Err((e.kind, e.subject@)),
    }
}

fn dtype_is_numeric(d: &DataType) -> (b: bool)
    ensures
        b == is_numeric(*d),
{
    match d {
        DataType::UInt8 | DataType::UInt16 | DataType::UInt32 | DataType::UInt64 | DataType::Int8
        | DataType::Int16 | DataType::Int32 | DataType::Int64 | DataType::Float32
        | DataType::Float64 => true,
        _ => false,
    }
}

fn op_is_predicate(op: Operator) -> (b: bool)
    ensures
        b == is_predicate(op),
{
    match op {
        Operator::Plus | Operator::Minus | Operator::Multiply => false,
        _ => true,
    }
}

pub(crate) fn agg_output_dtype(kind: AggKind, d: DataType) -> (r: DataType)
    ensures
        r == agg_dtype(kind, d),
{
    match kind {
        AggKind::Min | AggKind::Max | AggKind::First | AggKind::Last => d,
        AggKind::Sum => match d {
            DataType::Int8 | DataType::UInt8 | DataType::Int16 | DataType::UInt16 => DataType::Int64,
            DataType::Boolean => DataType::UInt32,
            _ => d,
        },
        AggKind::Mean => match d {
            DataType::Float32 => DataType::Float32,
            _ => DataType::Float64,
        },
        AggKind::Count | AggKind::NUnique => DataType::UInt32,
        AggKind::Implode => DataType::List(Box::new(d)),
    }
}

fn invalid_handle<T>() -> (r: Result<T, PlanError>)
    ensures
        r matches Err(e) && e.kind == ErrorKind::InvalidOperation && e.subject@ == Seq::<char>::empty()
            && e.context@.len() == 0,
{
    Err(PlanError::new(ErrorKind::InvalidOperation, String::new()))
}

/// Works out the expression node `node` of `arena` against `schema`.
pub fn resolve_node(arena: &Arena<AExpr>, node: Node, schema: &Schema) -> (r: Result<
    Resolved,
    PlanError,
>)
    ensures
        outcome(r) == resolve(arena@, node.0 as int, schema@),
        r matches Err(e) ==> e.context@.len() == 0,
    decreases node.0,
{
    if node.0 >= arena.len() {
        return invalid_handle();
    }
    match arena.get(node) {
        AExpr::Column(name) => {
            match schema.try_get(name.as_str()) {
                Ok(d) => Ok(Resolved { name: name.clone(), dtype: d.clone(), scalar: false }),
                Err(e) => Err(e),
            }
        },
        AExpr::Literal(d) => Ok(
            Resolved { name: "literal".to_owned(), dtype: d.clone(), scalar: true },
        ),
        AExpr::Len => Ok(Resolved { name: "len".to_owned(), dtype: DataType::UInt32, scalar: true }),
        AExpr::Cast { expr, dtype } => {
            if expr.0 >= node.0 {
                return invalid_handle();
            }
            match resolve_node(arena, *expr, schema) {
                Ok(x) => Ok(Resolved { name: x.name, dtype: dtype.clone(), scalar: x.scalar }),
                Err(e) => Err(e),
            }
        },
        AExpr::BinaryExpr { left, op, right } => {
            if left.0 >= node.0 || right.0 >= node.0 {
                return invalid_handle();
            }
            let l = match resolve_node(arena, *left, schema) {
                Ok(l) => l,
                Err(e) => {
                    return Err(e);
                },
            };
            let r = match resolve_node(arena, *right, schema) {
                Ok(r) => r,
                Err(e) => {
                    return Err(e);
                },
            };
            let predicate = op_is_predicate(*op);
            if l.dtype != r.dtype || (!predicate && !dtype_is_numeric(&l.dtype)) {
                Err(PlanError::new(ErrorKind::SchemaMismatch, l.name))
            } else if predicate {
                Ok(Resolved { name: l.name, dtype: DataType::Boolean, scalar: l.scalar && r.scalar })
            } else {
                Ok(Resolved { name: l.name, dtype: l.dtype, scalar: l.scalar && r.scalar })
            }
        },
        AExpr::Agg { kind, input } => {
            if input.0 >= node.0 {
                return invalid_handle();
            }
            match resolve_node(arena, *input, schema) {
                Ok(x) => Ok(
                    Resolved { name: x.name, dtype: agg_output_dtype(*kind, x.dtype), scalar: true },
                ),
                Err(e) => Err(e),
            }
        },
    }
}

impl AExpr {
    /// The column that the expression node `node` produces against `schema`
    /// in the context `ctx`.
    pub fn to_field(arena: &Arena<AExpr>, node: Node, schema: &Schema, ctx: Context) -> (r: Result<
        Field,
        PlanError,
    >)
        ensures
            outcome(r) == match resolve(arena@, node.0 as int, schema@) {
                Ok(x) => Ok((x.0, dtype_in_context(x.1, x.2, ctx))),
                Err(e) => Err(e),
            },
            r matches Err(e) ==> e.context@.len() == 0,
    {
        match resolve_node(arena, node, schema) {
            Ok(x) => {
                let dtype = match ctx {
                    Context::Aggregation => if x.scalar {
                        x.dtype
                    } else {
                        DataType::List(Box::new(x.dtype))
                    },
                    Context::Default => x.dtype,
                };
                Ok(Field::new(x.name, dtype))
            },
            Err(e) => Err(e),
        }
    }
}

impl ExprIR {
    /// The column that this expression produces against `schema`.
    pub fn field(&self, schema: &Schema, ctx: Context, arena: &Arena<AExpr>) -> (r: Result<
        Field,
        PlanError,
    >)
        ensures
            outcome(r) == expr_field(*self, arena@, schema@, ctx),
            r matches Err(e) ==> e.context@.len() == 0,
    {
        match (self.output_name.get(), &self.output_dtype) {
            (Some(name), Some(dtype)) => Ok(Field::new(name.clone(), dtype.clone())),
            _ => {
                match resolve_node(arena, self.node, schema) {
                    Err(e) => Err(e),
                    Ok(x) => {
                        let dtype = match &self.output_dtype {
                            Some(dtype) => dtype.clone(),
                            None => match ctx {
                                Context::Aggregation => if x.scalar {
                                    x.dtype
                                } else {
                                    DataType::List(Box::new(x.dtype))
                                },
                                Context::Default => x.dtype,
                            },
                        };
                        let name = match self.output_name.get() {
                            Some(name) => name.clone(),
                            None => x.name,
                        };
                        Ok(Field::new(name, dtype))
                    },
                }
            },
        }
    }
}

/// The columns that the expressions produce against `schema`, or the failure
/// of the first one that produces none.
pub fn try_expr_irs_to_schema(
    exprs: &Vec<ExprIR>,
    schema: &Schema,
    ctx: Context,
    arena: &Arena<AExpr>,
) -> (r: Result<Schema, PlanError>)
    ensures
        match r {
            Ok(s) => first_failure(exprs@, arena@, schema@, ctx) is None && s@ == exprs_schema(
                exprs@,
                arena@,
                schema@,
                ctx,
            ),
            Err(e) => first_failure(exprs@, arena@, schema@, ctx) == Some((e.kind, e.subject@))
                && e.context@.len() == 0,
        },
{
    let mut fields: Vec<Field> = Vec::new();
    let mut i: usize = 0;
    while i < exprs.len()
        invariant
            i <= exprs.len(),
            fields.len() == i,
            first_failure(exprs@.take(i as int), arena@, schema@, ctx) is None,
            columns_of(fields@) == expr_fields(exprs@, arena@, schema@, ctx).take(i as int),
        decreases exprs.len() - i,
    {
        proof {
            assert(exprs@.take(i + 1).drop_last() =~= exprs@.take(i as int));
            assert(exprs@.take(i + 1).last() == exprs@[i as int]);
        }
        match exprs[i].field(schema, ctx, arena) {
            Ok(f) => {
                let ghost before = fields@;
                fields.push(f);
                assert forall|k: int| 0 <= k < i + 1 implies columns_of(fields@)[k] == expr_fields(
                    exprs@,
                    arena@,
                    schema@,
                    ctx,
                )[k] by {
                    if k < i {
                        assert(fields@[k] == before[k]);
                        assert(columns_of(before)[k] == expr_fields(
                            exprs@,
                            arena@,
                            schema@,
                            ctx,
                        ).take(i as int)[k]);
                    }
                }
                assert(columns_of(fields@) =~= expr_fields(exprs@, arena@, schema@, ctx).take(
                    i + 1,
                ));
            },
            Err(e) => {
                proof {
                    assert(exprs@ =~= exprs@.take(i + 1) + exprs@.subrange(
                        i + 1,
                        exprs@.len() as int,
                    ));
                    lemma_first_failure_stays(
                        exprs@.take(i + 1),
                        exprs@.subrange(i + 1, exprs@.len() as int),
                        arena@,
                        schema@,
                        ctx,
                    );
                }
                return Err(e);
            },
        }
        i = i + 1;
    }
    assert(exprs@.take(i as int) =~= exprs@);
    assert(expr_fields(exprs@, arena@, schema@, ctx).take(i as int) =~= expr_fields(
        exprs@,
        arena@,
        schema@,
        ctx,
    ));
    Ok(Schema::from_fields(fields))
}

/// The schema of the result of evaluating `exprs` against `schema`.
pub fn expr_irs_to_schema(
    exprs: &Vec<ExprIR>,
    schema: &Schema,
    ctx: Context,
    arena: &Arena<AExpr>,
) -> (s: Schema)
    requires
        all_resolve(exprs@, arena@, schema@, ctx),
    ensures
        s@ == exprs_schema(exprs@, arena@, schema@, ctx),
{
    proof {
        lemma_no_failure(exprs@, arena@, schema@, ctx);
    }
    match try_expr_irs_to_schema(exprs, schema, ctx, arena) {
        Ok(s) => s,
        Err(_) => vstd::pervasive::unreached(),
    }
}

} // verus!
