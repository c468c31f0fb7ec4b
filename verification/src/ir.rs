use vstd::prelude::*;
use std::sync::Arc;
use crate::arena::Arena;
use crate::arena::Node;
use crate::dtype::DataType;
use crate::expr::ExprIR;
use crate::options::GroupbyOptions;
use crate::options::IdxSize;
use crate::options::JoinOptionsIR;
use crate::options::ProjectionOptions;
use crate::options::SortMultipleOptions;
use crate::options::UdfRef;
use crate::options::UnpivotArgsIR;
use crate::schema::dtype_of;
use crate::schema::has_column;
use crate::schema::lemma_with_column_unique;
use crate::schema::same_text;
use crate::schema::with_column;
use crate::schema::without;
use crate::schema::Columns;
use crate::schema::Field;
use crate::schema::Schema;

verus! {

/// The characters of each string of a sequence.
pub open spec fn texts(v: Seq<String>) -> Seq<Seq<char>> {
    v.map_values(|s: String| s@)
}

/// The output schema of a node whose shape is settled after the node is
/// made: not yet written down, or written down.
#[derive(Debug)]
pub enum CachedSchema {
    Pending,
    Resolved(Schema),
}

impl Default for CachedSchema {
    fn default() -> (c: Self)
        ensures
            c is Pending,
    {
        CachedSchema::Pending
    }
}

/// An operation on a whole table.
#[derive(Debug)]
pub enum FunctionIR {
    /// One row for each element of the lists in `columns`.
    Explode { columns: Vec<String>, schema: CachedSchema },
    /// The columns `on` turned into rows.
    Unpivot { args: Arc<UnpivotArgsIR>, schema: CachedSchema },
    /// A first column that counts the rows from `offset`.
    RowIndex { name: String, offset: Option<IdxSize>, schema: CachedSchema },
}

/// A node of a logical plan, held in a plan arena. Its inputs are handles
/// into the same arena.
#[derive(Debug)]
#[allow(inconsistent_fields)]
pub enum IR {
    /// A source of rows with the given columns.
    Scan { sources: Vec<String>, schema: Schema },
    /// The expressions `expr` evaluated on the input.
    Select { input: Node, expr: Vec<ExprIR>, schema: Schema, options: ProjectionOptions },
    /// Some of the input's columns, as they are.
    SimpleProjection { input: Node, columns: Schema },
    /// The input's columns with those of `exprs` set among them.
    HStack { input: Node, exprs: Vec<ExprIR>, schema: Schema, options: ProjectionOptions },
    Sort {
        input: Node,
        by_column: Vec<ExprIR>,
        slice: Option<(i64, usize)>,
        sort_options: SortMultipleOptions,
    },
    GroupBy {
        input: Node,
        keys: Vec<ExprIR>,
        aggs: Vec<ExprIR>,
        schema: Schema,
        apply: Option<UdfRef>,
        maintain_order: bool,
        options: Arc<GroupbyOptions>,
    },
    Join {
        input_left: Node,
        input_right: Node,
        schema: Schema,
        left_on: Vec<ExprIR>,
        right_on: Vec<ExprIR>,
        options: Arc<JoinOptionsIR>,
    },
    MapFunction { input: Node, function: FunctionIR },
    /// What a slot holds after its node was taken out.
    Invalid,
}

impl Default for IR {
    fn default() -> (ir: Self)
        ensures
            ir is Invalid,
    {
        IR::Invalid
    }
}

/// The type of the elements of a list type; any other type is its own.
pub open spec fn element_type(d: DataType) -> DataType {
    match d {
        DataType::List(inner) => *inner,
        _ => d,
    }
}

/// The columns after an explode of the columns `names`: a list column among
/// them holds its elements, every other column is as before.
pub open spec fn exploded(cols: Columns, names: Seq<Seq<char>>) -> Columns {
    cols.map_values(
        |c: (Seq<char>, DataType)|
            if names.contains(c.0) {
                (c.0, element_type(c.1))
            } else {
                c
            },
    )
}

/// The columns after a row index called `name` was put first.
pub open spec fn with_row_index(cols: Columns, name: Seq<char>) -> Columns {
    seq![(name, DataType::UInt32)] + without(cols, name)
}

/// Those of the columns `names` that `cols` has, in the order of `names`.
pub open spec fn selected(cols: Columns, names: Seq<Seq<char>>) -> Columns
    decreases names.len(),
{
    if names.len() == 0 {
        Seq::empty()
    } else {
        let rest = selected(cols, names.drop_last());
        match dtype_of(cols, names.last()) {
            Some(d) => with_column(rest, names.last(), d),
            None => rest,
        }
    }
}

/// The type of the first of the columns `names` that `cols` has.
pub open spec fn first_dtype(cols: Columns, names: Seq<Seq<char>>) -> Option<DataType>
    decreases names.len(),
{
    if names.len() == 0 {
        None
    } else {
        match first_dtype(cols, names.drop_last()) {
            Some(d) => Some(d),
            None => dtype_of(cols, names.last()),
        }
    }
}

/// The name an option gives, or `default` where it gives none.
pub open spec fn name_or(name: Option<String>, default: Seq<char>) -> Seq<char> {
    match name {
        Some(n) => n@,
        None => default,
    }
}

/// The columns after an unpivot: the index columns that the input has, then
/// a string column for the names of the columns turned into rows, then a
/// column for their values, which has the type of the first of them that
/// the input has.
pub open spec fn unpivoted(cols: Columns, args: UnpivotArgsIR) -> Columns {
    with_column(
        with_column(
            selected(cols, texts(args.index@)),
            name_or(args.variable_name, "variable"@),
            DataType::String,
        ),
        name_or(args.value_name, "value"@),
        match first_dtype(cols, texts(args.on@)) {
            Some(d) => d,
            None => DataType::Unknown,
        },
    )
}

impl CachedSchema {
    /// The schema written down, if one is.
    pub open spec fn known(self) -> Option<Columns> {
        match self {
            CachedSchema::Pending => None,
            CachedSchema::Resolved(s) => Some(s@),
        }
    }

    pub fn is_pending(&self) -> (b: bool)
        ensures
            b == (*self is Pending),
    {
        match self {
            CachedSchema::Pending => true,
            CachedSchema::Resolved(_) => false,
        }
    }
}

impl FunctionIR {
    /// The output schema kept in the node, if one was written down.
    pub open spec fn cached(self) -> Option<Columns> {
        match self {
            FunctionIR::Explode { schema, .. } => schema.known(),
            FunctionIR::Unpivot { schema, .. } => schema.known(),
            FunctionIR::RowIndex { schema, .. } => schema.known(),
        }
    }

    /// The output columns for the input columns `cols`, as the operation
    /// and its arguments give them.
    pub open spec fn derived(self, cols: Columns) -> Columns {
        match self {
            FunctionIR::Explode { columns, .. } => exploded(cols, texts(columns@)),
            FunctionIR::Unpivot { args, .. } => unpivoted(cols, *args),
            FunctionIR::RowIndex { name, .. } => with_row_index(cols, name@),
        }
    }

    /// The output columns for the input columns `cols`: those written down
    /// in the node, else those derived from the input.
    pub open spec fn output(self, cols: Columns) -> Columns {
        match self.cached() {
            Some(s) => s,
            None => self.derived(cols),
        }
    }

    /// Whether the node's output schema is still to be written down.
    pub fn schema_is_pending(&self) -> (b: bool)
        ensures
            b == (self.cached() is None),
    {
        match self {
            FunctionIR::Explode { schema, .. } => schema.is_pending(),
            FunctionIR::Unpivot { schema, .. } => schema.is_pending(),
            FunctionIR::RowIndex { schema, .. } => schema.is_pending(),
        }
    }

    /// The output schema for the input schema `input`.
    pub fn schema(&self, input: &Schema) -> (s: Schema)
        ensures
            s@ == self.output(input@),
    {
        match self {
            FunctionIR::Explode { columns, schema } => match schema {
                CachedSchema::Resolved(s) => s.clone(),
                CachedSchema::Pending => explode_schema(input, columns),
            },
            FunctionIR::Unpivot { args, schema } => match schema {
                CachedSchema::Resolved(s) => s.clone(),
                CachedSchema::Pending => unpivot_schema(input, args),
            },
            FunctionIR::RowIndex { name, offset: _, schema } => match schema {
                CachedSchema::Resolved(s) => s.clone(),
                CachedSchema::Pending => {
                    let mut s = input.clone();
                    s.insert_first(name.clone(), DataType::UInt32);
                    s
                },
            },
        }
    }
}

/// Whether one of `names` is `name`.
pub fn contains_name(names: &Vec<String>, name: &str) -> (b: bool)
    ensures
        b == texts(names@).contains(name@),
{
    let mut i: usize = 0;
    while i < names.len()
        invariant
            i <= names.len(),
            forall|j: int| 0 <= j < i ==> texts(names@)[j] != name@,
        decreases names.len() - i,
    {
        if same_text(names[i].as_str(), name) {
            assert(texts(names@)[i as int] == name@);
            return true;
        }
        i = i + 1;
    }
    false
}

fn explode_schema(input: &Schema, columns: &Vec<String>) -> (s: Schema)
    ensures
        s@ == exploded(input@, texts(columns@)),
{
    let n: usize = input.len();
    let mut s = input.clone();
    let mut i: usize = 0;
    while i < n
        invariant
            i <= n,
            n == input@.len(),
            s@.len() == n,
            forall|j: int| 0 <= j < i ==> s@[j] == exploded(input@, texts(columns@))[j],
            forall|j: int| i <= j < n ==> s@[j] == input@[j],
        decreases n - i,
    {
        let f = s.get_at_index(i);
        if contains_name(columns, f.name.as_str()) {
            match &f.dtype {
                DataType::List(inner) => {
                    let name = f.name.clone();
                    let dtype = (**inner).clone();
                    let ghost before = s@;
                    proof {
                        crate::schema::lemma_index_of_is(before, name@, i as int);
                    }
                    s.with_column(name, dtype);
                },
                _ => {},
            }
        }
        i = i + 1;
    }
    assert(s@ =~= exploded(input@, texts(columns@)));
    s
}

fn unpivot_schema(input: &Schema, args: &UnpivotArgsIR) -> (s: Schema)
    ensures
        s@ == unpivoted(input@, *args),
{
    let mut s = Schema::new();
    let mut i: usize = 0;
    while i < args.index.len()
        invariant
            i <= args.index.len(),
            s@ == selected(input@, texts(args.index@).take(i as int)),
        decreases args.index.len() - i,
    {
        proof {
            assert(texts(args.index@).take(i + 1).drop_last() =~= texts(args.index@).take(i as int));
            assert(texts(args.index@).take(i + 1).last() == args.index@[i as int]@);
        }
        match input.get(args.index[i].as_str()) {
            Some(d) => {
                s.with_column(args.index[i].clone(), d.clone());
            },
            None => {},
        }
        i = i + 1;
    }
    assert(texts(args.index@).take(i as int) =~= texts(args.index@));
    let mut value: Option<DataType> = None;
    let mut k: usize = 0;
    while k < args.on.len()
        invariant
            k <= args.on.len(),
            value == first_dtype(input@, texts(args.on@).take(k as int)),
        decreases args.on.len() - k,
    {
        proof {
            assert(texts(args.on@).take(k + 1).drop_last() =~= texts(args.on@).take(k as int));
            assert(texts(args.on@).take(k + 1).last() == args.on@[k as int]@);
        }
        if value.is_none() {
            match input.get(args.on[k].as_str()) {
                Some(d) => {
                    value = Some(d.clone());
                },
                None => {},
            }
        }
        k = k + 1;
    }
    assert(texts(args.on@).take(k as int) =~= texts(args.on@));
    let variable_name = match &args.variable_name {
        Some(n) => n.clone(),
        None => "variable".to_owned(),
    };
    let value_name = match &args.value_name {
        Some(n) => n.clone(),
        None => "value".to_owned(),
    };
    s.with_column(variable_name, DataType::String);
    s.with_column(
        value_name,
        match value {
            Some(d) => d,
            None => DataType::Unknown,
        },
    );
    s
}

impl IR {
    /// The output schema of this node, which reads from `arena`.
    pub fn schema(&self, arena: &Arena<IR>) -> (s: Schema)
        requires
            plan_wf(arena@),
            self.inputs_before(arena@.len() as int),
        ensures
            s@ == ir_schema(*self, arena@),
    {
        match self {
            IR::Scan { schema, .. } => schema.clone(),
            IR::Select { schema, .. } => schema.clone(),
            IR::SimpleProjection { columns, .. } => columns.clone(),
            IR::HStack { schema, .. } => schema.clone(),
            IR::Sort { input, .. } => node_schema(arena, *input),
            IR::GroupBy { schema, .. } => schema.clone(),
            IR::Join { schema, .. } => schema.clone(),
            IR::MapFunction { input, function } => {
                let below = node_schema(arena, *input);
                function.schema(&below)
            },
            IR::Invalid => Schema::new(),
        }
    }

    /// Every input of the node stands in a slot before place `n`.
    pub open spec fn inputs_before(self, n: int) -> bool {
        match self {
            IR::Scan { .. } => true,
            IR::Select { input, .. } => input.0 < n,
            IR::SimpleProjection { input, .. } => input.0 < n,
            IR::HStack { input, .. } => input.0 < n,
            IR::Sort { input, .. } => input.0 < n,
            IR::GroupBy { input, .. } => input.0 < n,
            IR::Join { input_left, input_right, .. } => input_left.0 < n && input_right.0 < n,
            IR::MapFunction { input, .. } => input.0 < n,
            IR::Invalid => true,
        }
    }

    /// Whether every input of the node stands in a slot before place `n`.
    pub fn has_inputs_before(&self, n: usize) -> (b: bool)
        ensures
            b == self.inputs_before(n as int),
    {
        match self {
            IR::Scan { .. } => true,
            IR::Select { input, .. } => input.0 < n,
            IR::SimpleProjection { input, .. } => input.0 < n,
            IR::HStack { input, .. } => input.0 < n,
            IR::Sort { input, .. } => input.0 < n,
            IR::GroupBy { input, .. } => input.0 < n,
            IR::Join { input_left, input_right, .. } => input_left.0 < n && input_right.0 < n,
            IR::MapFunction { input, .. } => input.0 < n,
            IR::Invalid => true,
        }
    }

    /// The name of the kind of node.
    pub open spec fn spec_name(self) -> Seq<char> {
        match self {
            IR::Scan { .. } => "scan"@,
            IR::Select { .. } => "select"@,
            IR::SimpleProjection { .. } => "simple_projection"@,
            IR::HStack { .. } => "with_columns"@,
            IR::Sort { .. } => "sort"@,
            IR::GroupBy { .. } => "group_by"@,
            IR::Join { .. } => "join"@,
            IR::MapFunction { .. } => "map_function"@,
            IR::Invalid => "invalid"@,
        }
    }

    /// The name of the kind of node.
    pub fn name(&self) -> (r: &'static str)
        ensures
            r@ == self.spec_name(),
    {
        match self {
            IR::Scan { .. } => "scan",
            IR::Select { .. } => "select",
            IR::SimpleProjection { .. } => "simple_projection",
            IR::HStack { .. } => "with_columns",
            IR::Sort { .. } => "sort",
            IR::GroupBy { .. } => "group_by",
            IR::Join { .. } => "join",
            IR::MapFunction { .. } => "map_function",
            IR::Invalid => "invalid",
        }
    }
}

/// Every node of the plan reads only from slots before its own.
pub open spec fn plan_wf(plans: Seq<IR>) -> bool {
    forall|i: int| 0 <= i < plans.len() ==> (#[trigger] plans[i]).inputs_before(i)
}

/// The output columns of the node in slot `n`. A node that keeps a schema
/// has that one; a sort has its input's; a table operation has what it makes
/// of its input's; an emptied slot has none.
pub open spec fn schema_of(plans: Seq<IR>, n: int) -> Columns
    decreases n,
{
    if 0 <= n < plans.len() {
        match plans[n] {
            IR::Scan { schema, .. } => schema@,
            IR::Select { schema, .. } => schema@,
            IR::SimpleProjection { columns, .. } => columns@,
            IR::HStack { schema, .. } => schema@,
            IR::Sort { input, .. } => if input.0 < n {
                schema_of(plans, input.0 as int)
            } else {
                Seq::empty()
            },
            IR::GroupBy { schema, .. } => schema@,
            IR::Join { schema, .. } => schema@,
            IR::MapFunction { input, function } => if input.0 < n {
                function.output(schema_of(plans, input.0 as int))
            } else {
                Seq::empty()
            },
            IR::Invalid => Seq::empty(),
        }
    } else {
        Seq::empty()
    }
}

/// The output columns of a node that is not, or no longer, in the arena,
/// with its inputs in `plans`.
pub open spec fn ir_schema(ir: IR, plans: Seq<IR>) -> Columns {
    match ir {
        IR::Scan { schema, .. } => schema@,
        IR::Select { schema, .. } => schema@,
        IR::SimpleProjection { columns, .. } => columns@,
        IR::HStack { schema, .. } => schema@,
        IR::Sort { input, .. } => schema_of(plans, input.0 as int),
        IR::GroupBy { schema, .. } => schema@,
        IR::Join { schema, .. } => schema@,
        IR::MapFunction { input, function } => function.output(schema_of(plans, input.0 as int)),
        IR::Invalid => Seq::empty(),
    }
}

/// The output columns of a node depend on the slots up to its own only.
pub proof fn lemma_schema_of_prefix(a: Seq<IR>, b: Seq<IR>, n: int)
    requires
        0 <= n < a.len(),
        n < b.len(),
        forall|i: int| 0 <= i <= n ==> a[i] == b[i],
    ensures
        schema_of(a, n) == schema_of(b, n),
    decreases n,
{
    match a[n] {
        IR::Sort { input, .. } => {
            if input.0 < n {
                lemma_schema_of_prefix(a, b, input.0 as int);
            }
        },
        IR::MapFunction { input, .. } => {
            if input.0 < n {
                lemma_schema_of_prefix(a, b, input.0 as int);
            }
        },
        _ => {},
    }
}

/// Whether every node of the arena reads only from slots before its own.
pub fn plan_is_wf(arena: &Arena<IR>) -> (b: bool)
    ensures
        b == plan_wf(arena@),
{
    let mut i: usize = 0;
    while i < arena.len()
        invariant
            i <= arena@.len(),
            forall|j: int| 0 <= j < i ==> (#[trigger] arena@[j]).inputs_before(j),
        decreases arena@.len() - i,
    {
        if !arena.get(Node(i)).has_inputs_before(i) {
            return false;
        }
        i = i + 1;
    }
    true
}

/// The output schema of the node `node`.
pub fn node_schema(arena: &Arena<IR>, node: Node) -> (s: Schema)
    requires
        node.0 < arena@.len(),
        plan_wf(arena@),
    ensures
        s@ == schema_of(arena@, node.0 as int),
    decreases node.0,
{
    match arena.get(node) {
        IR::Scan { schema, .. } => schema.clone(),
        IR::Select { schema, .. } => schema.clone(),
        IR::SimpleProjection { columns, .. } => columns.clone(),
        IR::HStack { schema, .. } => schema.clone(),
        IR::Sort { input, .. } => node_schema(arena, *input),
        IR::GroupBy { schema, .. } => schema.clone(),
        IR::Join { schema, .. } => schema.clone(),
        IR::MapFunction { input, function } => {
            let below = node_schema(arena, *input);
            function.schema(&below)
        },
        IR::Invalid => Schema::new(),
    }
}

} // verus!
