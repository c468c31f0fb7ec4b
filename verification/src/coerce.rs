use vstd::prelude::*;
use crate::arena::Arena;
use crate::arena::Node;
use crate::dtype::DataType;
use crate::error::ErrorKind;
use crate::error::PlanError;
use crate::expr::agg_outcome;
use crate::expr::cast_outcome;
use crate::expr::column_outcome;
use crate::expr::invalid_outcome;
use crate::expr::is_numeric;
use crate::expr::is_predicate;
use crate::expr::extends;
use crate::expr::lemma_extends_push;
use crate::expr::lemma_extends_refl;
use crate::expr::lemma_extends_resolve;
use crate::expr::lemma_extends_slots;
use crate::expr::lemma_extends_trans;
use crate::expr::outcome;
use crate::expr::resolve;
use crate::expr::resolve_node;
use crate::expr::AExpr;
use crate::expr::Operator;
use crate::expr::Outcome;
use crate::expr::Resolved;
use crate::schema::Columns;
use crate::schema::Schema;

verus! {

/// The number of bits of a value of a numeric type.
pub open spec fn bits(d: DataType) -> int {
    match d {
        DataType::UInt8 | DataType::Int8 => 8,
        DataType::UInt16 | DataType::Int16 => 16,
        DataType::UInt32 | DataType::Int32 | DataType::Float32 => 32,
        _ => 64,
    }
}

/// Whether the type is an integer type without sign.
pub open spec fn is_unsigned(d: DataType) -> bool {
    d is UInt8 || d is UInt16 || d is UInt32 || d is UInt64
}

/// Whether the type is a floating-point type.
pub open spec fn is_float(d: DataType) -> bool {
    d is Float32 || d is Float64
}

/// The signed integer type of the given number of bits.
pub open spec fn signed(width: int) -> DataType {
    if width <= 8 {
        DataType::Int8
    } else if width <= 16 {
        DataType::Int16
    } else if width <= 32 {
        DataType::Int32
    } else {
        DataType::Int64
    }
}

/// The type to which values of the numeric types `a` and `b` are both
/// converted before they meet in an operation. Two integers of one
/// signedness meet in the wider type. A signed and an unsigned integer meet
/// in the signed type, where that is wider, and else in the signed type of
/// twice the bits of the unsigned one; past 64 bits they meet in `Float64`.
/// `Float32` meets an integer of at most 16 bits in `Float32`; every other
/// meeting with a floating-point type is in `Float64`.
pub open spec fn supertype(a: DataType, b: DataType) -> DataType {
    if a == b {
        a
    } else if is_float(a) || is_float(b) {
        if a is Float64 || b is Float64 || bits(a) >= 32 && bits(b) >= 32 {
            DataType::Float64
        } else {
            DataType::Float32
        }
    } else if is_unsigned(a) == is_unsigned(b) {
        if bits(a) >= bits(b) {
            a
        } else {
            b
        }
    } else {
        let u = if is_unsigned(a) {
            a
        } else {
            b
        };
        let s = if is_unsigned(a) {
            b
        } else {
            a
        };
        if bits(u) < bits(s) {
            s
        } else if bits(u) == 64 {
            DataType::Float64
        } else {
            signed(2 * bits(u))
        }
    }
}

/// The meeting type of two numeric types is numeric, and does not depend on
/// their order.
pub proof fn lemma_supertype(a: DataType, b: DataType)
    requires
        is_numeric(a),
        is_numeric(b),
    ensures
        is_numeric(supertype(a, b)),
        supertype(a, b) == supertype(b, a),
        supertype(a, a) == a,
{
}

fn dtype_bits(d: &DataType) -> (n: u8)
    ensures
        n == bits(*d),
{
    match d {
        DataType::UInt8 | DataType::Int8 => 8,
        DataType::UInt16 | DataType::Int16 => 16,
        DataType::UInt32 | DataType::Int32 | DataType::Float32 => 32,
        _ => 64,
    }
}

fn dtype_is_unsigned(d: &DataType) -> (b: bool)
    ensures
        b == is_unsigned(*d),
{
    match d {
        DataType::UInt8 | DataType::UInt16 | DataType::UInt32 | DataType::UInt64 => true,
        _ => false,
    }
}

fn dtype_is_float(d: &DataType) -> (b: bool)
    ensures
        b == is_float(*d),
{
    match d {
        DataType::Float32 | DataType::Float64 => true,
        _ => false,
    }
}

fn dtype_is_numeric(d: &DataType) -> (b: bool)
    ensures
        b == is_numeric(*d),
{
    match d {
        DataType::UInt8 | DataType::UInt16 | DataType::UInt32 | DataType::UInt64 | DataType::Int8
        | DataType::Int16 | DataType::Int32 | DataType::Int64 | DataType::Float32
        | DataType::Float64 => true,
        _ => false,
    }
}

/// The type to which values of the types `a` and `b` are both converted
/// before they meet in an operation.
pub fn get_supertype(a: &DataType, b: &DataType) -> (t: DataType)
    ensures
        t == supertype(*a, *b),
{
    if *a == *b {
        return a.clone();
    }
    let wa: u8 = dtype_bits(a);
    let wb: u8 = dtype_bits(b);
    if dtype_is_float(a) || dtype_is_float(b) {
        let double = match (a, b) {
            (DataType::Float64, _) => true,
            (_, DataType::Float64) => true,
            _ => wa >= 32 && wb >= 32,
        };
        if double {
            DataType::Float64
        } else {
            DataType::Float32
        }
    } else if dtype_is_unsigned(a) == dtype_is_unsigned(b) {
        if wa >= wb {
            a.clone()
        } else {
            b.clone()
        }
    } else {
        let (wu, ws, s) = if dtype_is_unsigned(a) {
            (wa, wb, b)
        } else {
            (wb, wa, a)
        };
        if wu < ws {
            s.clone()
        } else if wu == 64 {
            DataType::Float64
        } else if wu == 8 {
            DataType::Int16
        } else if wu == 16 {
            DataType::Int32
        } else {
            DataType::Int64
        }
    }
}

/// What a binary operation makes of its inputs once numbers of different
/// types are converted to the type they meet in. What is no number must
/// have the type of the other input, and arithmetic needs numbers: else it is
/// a `SchemaMismatch` failure about the left input.
pub open spec fn coercing_binary_outcome(left: Outcome, op: Operator, right: Outcome) -> Outcome {
    match left {
        Err(e) => Err(e),
        Ok(l) => match right {
            Err(e) => Err(e),
            Ok(r) => if is_numeric(l.1) && is_numeric(r.1) {
                Ok(
                    (
                        l.0,
                        if is_predicate(op) {
                            DataType::Boolean
                        } else {
                            supertype(l.1, r.1)
                        },
                        l.2 && r.2,
                    ),
                )
            } else if l.1 != r.1 || !is_predicate(op) {
                Err((ErrorKind::SchemaMismatch, l.0))
            } else {
                Ok((l.0, DataType::Boolean, l.2 && r.2))
            },
        },
    }
}

/// What the expression node in slot `n` of `exprs` comes to against the
/// columns `cols` once numbers of different types that meet in an operation
/// are converted to the type they meet in.
pub open spec fn coerced(exprs: Seq<AExpr>, n: int, cols: Columns) -> Outcome
    decreases n,
{
    if !(0 <= n < exprs.len()) {
        invalid_outcome()
    } else {
        match exprs[n] {
            AExpr::Column(name) => column_outcome(cols, name@),
            AExpr::Literal(d) => Ok(("literal"@, d, true)),
            AExpr::Len => Ok(("len"@, DataType::UInt32, true)),
            AExpr::Cast { expr, dtype } => if expr.0 < n {
                cast_outcome(coerced(exprs, expr.0 as int, cols), dtype)
            } else {
                invalid_outcome()
            },
            AExpr::BinaryExpr { left, op, right } => if left.0 < n && right.0 < n {
                coercing_binary_outcome(
                    coerced(exprs, left.0 as int, cols),
                    op,
                    coerced(exprs, right.0 as int, cols),
                )
            } else {
                invalid_outcome()
            },
            AExpr::Agg { kind, input } => if input.0 < n {
                agg_outcome(kind, coerced(exprs, input.0 as int, cols))
            } else {
                invalid_outcome()
            },
        }
    }
}

/// An expression that needs no conversion comes to the same with and
/// without conversions.
pub proof fn lemma_coerced_of_resolved(exprs: Seq<AExpr>, n: int, cols: Columns)
    requires
        resolve(exprs, n, cols) is Ok,
    ensures
        coerced(exprs, n, cols) == resolve(exprs, n, cols),
    decreases n,
{
    if 0 <= n < exprs.len() {
        match exprs[n] {
            AExpr::Cast { expr, .. } => {
                if expr.0 < n {
                    lemma_coerced_of_resolved(exprs, expr.0 as int, cols);
                }
            },
            AExpr::BinaryExpr { left, right, .. } => {
                if left.0 < n && right.0 < n {
                    lemma_coerced_of_resolved(exprs, left.0 as int, cols);
                    lemma_coerced_of_resolved(exprs, right.0 as int, cols);
                }
            },
            AExpr::Agg { input, .. } => {
                if input.0 < n {
                    lemma_coerced_of_resolved(exprs, input.0 as int, cols);
                }
            },
            _ => {},
        }
    }
}

/// What an expression node comes to with conversions depends on the slots
/// up to its own only.
pub proof fn lemma_coerced_prefix(a: Seq<AExpr>, b: Seq<AExpr>, n: int, cols: Columns)
    requires
        0 <= n < a.len(),
        n < b.len(),
        forall|i: int| 0 <= i <= n ==> a[i] == b[i],
    ensures
        coerced(a, n, cols) == coerced(b, n, cols),
    decreases n,
{
    match a[n] {
        AExpr::Cast { expr, .. } => {
            if expr.0 < n {
                lemma_coerced_prefix(a, b, expr.0 as int, cols);
            }
        },
        AExpr::BinaryExpr { left, right, .. } => {
            if left.0 < n && right.0 < n {
                lemma_coerced_prefix(a, b, left.0 as int, cols);
                lemma_coerced_prefix(a, b, right.0 as int, cols);
            }
        },
        AExpr::Agg { input, .. } => {
            if input.0 < n {
                lemma_coerced_prefix(a, b, input.0 as int, cols);
            }
        },
        _ => {},
    }
}

fn invalid_handle<T>() -> (r: Result<T, PlanError>)
    ensures
        r matches Err(e) && e.kind == ErrorKind::InvalidOperation && e.subject@ == Seq::<
            char,
        >::empty() && e.context@.len() == 0,
{
    Err(PlanError::new(ErrorKind::InvalidOperation, String::new()))
}

fn op_is_predicate(op: Operator) -> (b: bool)
    ensures
        b == is_predicate(op),
{
    match op {
        Operator::Plus | Operator::Minus | Operator::Multiply => false,
        _ => true,
    }
}

/// Works out the expression node `node` of `arena` against `schema` as it
/// will be once numbers of different types are converted where they meet.
pub fn coerced_node(arena: &Arena<AExpr>, node: Node, schema: &Schema) -> (r: Result<
    Resolved,
    PlanError,
>)
    ensures
        outcome(r) == coerced(arena@, node.0 as int, schema@),
        r matches Err(e) ==> e.context@.len() == 0,
    decreases node.0,
{
    if node.0 >= arena.len() {
        return invalid_handle();
    }
    match arena.get(node) {
        AExpr::BinaryExpr { left, op, right } => {
            if left.0 >= node.0 || right.0 >= node.0 {
                return invalid_handle();
            }
            let l = match coerced_node(arena, *left, schema) {
                Ok(l) => l,
                Err(e) => {
                    return Err(e);
                },
            };
            let r = match coerced_node(arena, *right, schema) {
                Ok(r) => r,
                Err(e) => {
                    return Err(e);
                },
            };
            let predicate = op_is_predicate(*op);
            let scalar = l.scalar && r.scalar;
            if dtype_is_numeric(&l.dtype) && dtype_is_numeric(&r.dtype) {
                let dtype = if predicate {
                    DataType::Boolean
                } else {
                    get_supertype(&l.dtype, &r.dtype)
                };
                Ok(Resolved { name: l.name, dtype, scalar })
            } else if l.dtype != r.dtype || !predicate {
                Err(PlanError::new(ErrorKind::SchemaMismatch, l.name))
            } else {
                Ok(Resolved { name: l.name, dtype: DataType::Boolean, scalar })
            }
        },
        AExpr::Cast { expr, dtype } => {
            if expr.0 >= node.0 {
                return invalid_handle();
            }
            match coerced_node(arena, *expr, schema) {
                Ok(x) => Ok(Resolved { name: x.name, dtype: dtype.clone(), scalar: x.scalar }),
                Err(e) => Err(e),
            }
        },
        AExpr::Agg { kind, input } => {
            if input.0 >= node.0 {
                return invalid_handle();
            }
            match coerced_node(arena, *input, schema) {
                Ok(x) => {
                    let dtype = crate::expr::agg_output_dtype(*kind, x.dtype);
                    Ok(Resolved { name: x.name, dtype, scalar: true })
                },
                Err(e) => Err(e),
            }
        },
        _ => resolve_node(arena, node, schema),
    }
}

/// A node of the start of an arena comes to the same in the arena.
pub proof fn lemma_extends_same(a: Seq<AExpr>, b: Seq<AExpr>, n: int, cols: Columns)
    requires
        extends(a, b),
        0 <= n < a.len(),
    ensures
        resolve(b, n, cols) == resolve(a, n, cols),
        coerced(b, n, cols) == coerced(a, n, cols),
{
    lemma_extends_slots(a, b);
    lemma_extends_resolve(a, b, n, cols);
    lemma_coerced_prefix(a, b, n, cols);
}

/// What `coerce_expr` gives for the node `node` of the arena `before`: the
/// handle `r` of a node of the arena `after`, which starts with `before`,
/// that comes to `x` without conversions, as `node` does with them; and the
/// node itself in the arena as it was where `node` needs no conversion.
pub open spec fn coerces(
    before: Seq<AExpr>,
    node: Node,
    cols: Columns,
    after: Seq<AExpr>,
    r: Node,
    x: Resolved,
) -> bool {
    &&& extends(before, after)
    &&& r.0 < after.len()
    &&& resolve(after, r.0 as int, cols) == coerced(before, node.0 as int, cols)
    &&& Ok::<_, (ErrorKind, Seq<char>)>(x@) == coerced(before, node.0 as int, cols)
    &&& resolve(before, node.0 as int, cols) is Ok ==> r == node && after == before
}

/// Puts the conversions into the expression node `node` that it needs, and
/// returns the handle of the expression that has them, with what it comes to.
/// An expression that needs none is returned as it is, and the arena stays as
/// it is. Else the expression with the conversions is written into new slots;
/// the slots that were there stay.
pub fn coerce_expr(arena: &mut Arena<AExpr>, node: Node, schema: &Schema) -> (r: (Node, Resolved))
    requires
        coerced(old(arena)@, node.0 as int, schema@) is Ok,
    ensures
        coerces(old(arena)@, node, schema@, final(arena)@, r.0, r.1),
    decreases node.0, 1int,
{
    match arena.get(node) {
        AExpr::BinaryExpr { left, op, right } => {
            let left = *left;
            let op = *op;
            let right = *right;
            coerce_binary(arena, node, left, op, right, schema)
        },
        AExpr::Cast { expr, dtype } => {
            let expr = *expr;
            let dtype = dtype.clone();
            coerce_cast(arena, node, expr, dtype, schema)
        },
        AExpr::Agg { kind, input } => {
            let kind = *kind;
            let input = *input;
            coerce_agg(arena, node, kind, input, schema)
        },
        _ => {
            proof {
                lemma_extends_refl(arena@);
            }
            match resolve_node(arena, node, schema) {
                Ok(x) => (node, x),
                Err(_) => vstd::pervasive::unreached(),
            }
        },
    }
}

fn coerce_cast(
    arena: &mut Arena<AExpr>,
    node: Node,
    expr: Node,
    dtype: DataType,
    schema: &Schema,
) -> (r: (Node, Resolved))
    requires
        node.0 < old(arena)@.len(),
        old(arena)@[node.0 as int] == (AExpr::Cast { expr, dtype }),
        coerced(old(arena)@, node.0 as int, schema@) is Ok,
    ensures
        coerces(old(arena)@, node, schema@, final(arena)@, r.0, r.1),
    decreases node.0, 0int,
{
    let ghost start = arena@;
    let (e, x) = coerce_expr(arena, expr, schema);
    let ghost mid = arena@;
    let out = Resolved { name: x.name, dtype: dtype.clone(), scalar: x.scalar };
    if e.0 == expr.0 {
        proof {
            lemma_extends_slots(start, mid);
        }
        (node, out)
    } else {
        let n = arena.add(AExpr::Cast { expr: e, dtype });
        proof {
            lemma_extends_push(start, mid, arena@.last());
            lemma_extends_same(mid, arena@, e.0 as int, schema@);
        }
        (n, out)
    }
}

fn coerce_agg(
    arena: &mut Arena<AExpr>,
    node: Node,
    kind: crate::expr::AggKind,
    input: Node,
    schema: &Schema,
) -> (r: (Node, Resolved))
    requires
        node.0 < old(arena)@.len(),
        old(arena)@[node.0 as int] == (AExpr::Agg { kind, input }),
        coerced(old(arena)@, node.0 as int, schema@) is Ok,
    ensures
        coerces(old(arena)@, node, schema@, final(arena)@, r.0, r.1),
    decreases node.0, 0int,
{
    let ghost start = arena@;
    let (e, x) = coerce_expr(arena, input, schema);
    let ghost mid = arena@;
    let dtype = crate::expr::agg_output_dtype(kind, x.dtype);
    let out = Resolved { name: x.name, dtype, scalar: true };
    if e.0 == input.0 {
        proof {
            lemma_extends_slots(start, mid);
        }
        (node, out)
    } else {
        let n = arena.add(AExpr::Agg { kind, input: e });
        proof {
            lemma_extends_push(start, mid, arena@.last());
            lemma_extends_same(mid, arena@, e.0 as int, schema@);
        }
        (n, out)
    }
}

/// Converts the expression `e`, which comes to `x`, to the type `meet`
/// where it has another type.
fn cast_to(arena: &mut Arena<AExpr>, e: Node, x: &Resolved, meet: &DataType, schema: &Schema) -> (r:
    Node)
    requires
        e.0 < old(arena)@.len(),
        resolve(old(arena)@, e.0 as int, schema@) == Ok::<_, (ErrorKind, Seq<char>)>(x@),
    ensures
        extends(old(arena)@, final(arena)@),
        r.0 < final(arena)@.len(),
        resolve(final(arena)@, r.0 as int, schema@) == Ok::<_, (ErrorKind, Seq<char>)>(
            (x.name@, *meet, x.scalar),
        ),
        x.dtype == *meet ==> r == e && final(arena)@ == old(arena)@,
{
    if x.dtype != *meet {
        let ghost start = arena@;
        let n = arena.add(AExpr::Cast { expr: e, dtype: meet.clone() });
        proof {
            lemma_extends_refl(start);
            lemma_extends_push(start, start, arena@.last());
            lemma_extends_same(start, arena@, e.0 as int, schema@);
        }
        n
    } else {
        proof {
            lemma_extends_refl(arena@);
        }
        e
    }
}

fn coerce_binary(
    arena: &mut Arena<AExpr>,
    node: Node,
    left: Node,
    op: Operator,
    right: Node,
    schema: &Schema,
) -> (r: (Node, Resolved))
    requires
        node.0 < old(arena)@.len(),
        old(arena)@[node.0 as int] == (AExpr::BinaryExpr { left, op, right }),
        coerced(old(arena)@, node.0 as int, schema@) is Ok,
    ensures
        coerces(old(arena)@, node, schema@, final(arena)@, r.0, r.1),
    decreases node.0, 0int,
{
    let ghost start = arena@;
    let (l, xl) = coerce_expr(arena, left, schema);
    let ghost mid1 = arena@;
    proof {
        lemma_extends_same(start, mid1, right.0 as int, schema@);
    }
    let (r, xr) = coerce_expr(arena, right, schema);
    let ghost mid2 = arena@;
    proof {
        lemma_extends_trans(start, mid1, mid2);
        lemma_extends_same(mid1, mid2, l.0 as int, schema@);
    }
    let numeric = dtype_is_numeric(&xl.dtype) && dtype_is_numeric(&xr.dtype);
    let left_to = if numeric {
        get_supertype(&xl.dtype, &xr.dtype)
    } else {
        xl.dtype.clone()
    };
    let right_to = if numeric {
        left_to.clone()
    } else {
        xr.dtype.clone()
    };
    let l2 = cast_to(arena, l, &xl, &left_to, schema);
    let ghost mid3 = arena@;
    proof {
        lemma_extends_trans(start, mid2, mid3);
        lemma_extends_same(mid2, mid3, r.0 as int, schema@);
    }
    let r2 = cast_to(arena, r, &xr, &right_to, schema);
    let ghost mid4 = arena@;
    proof {
        lemma_extends_trans(start, mid3, mid4);
        lemma_extends_same(mid3, mid4, l2.0 as int, schema@);
        if is_numeric(xl.dtype) && is_numeric(xr.dtype) {
            lemma_supertype(xl.dtype, xr.dtype);
        }
    }
    let dtype = if op_is_predicate(op) {
        DataType::Boolean
    } else {
        left_to
    };
    let out = Resolved { name: xl.name, dtype, scalar: xl.scalar && xr.scalar };
    if l2.0 == left.0 && r2.0 == right.0 {
        proof {
            lemma_extends_slots(start, mid4);
        }
        (node, out)
    } else {
        let n = arena.add(AExpr::BinaryExpr { left: l2, op, right: r2 });
        proof {
            lemma_extends_push(start, mid4, arena@.last());
            lemma_extends_same(mid4, arena@, l2.0 as int, schema@);
            lemma_extends_same(mid4, arena@, r2.0 as int, schema@);
            if resolve(start, node.0 as int, schema@) is Ok {
                lemma_coerced_of_resolved(start, left.0 as int, schema@);
                lemma_coerced_of_resolved(start, right.0 as int, schema@);
            }
        }
        (n, out)
    }
}

} // verus!
