use vstd::prelude::*;

verus! {

/// The type of a row count or a row index.
pub type IdxSize = u32;

/// How a projection is run.
#[derive(Clone, Copy, Debug, PartialEq, Eq, Structural)]
pub struct ProjectionOptions {
    pub run_parallel: bool,
    pub duplicate_check: bool,
    pub should_broadcast: bool,
}

impl Default for ProjectionOptions {
    fn default() -> (o: Self)
        ensures
            o == (ProjectionOptions {
                run_parallel: true,
                duplicate_check: true,
                should_broadcast: true,
            }),
    {
        ProjectionOptions { run_parallel: true, duplicate_check: true, should_broadcast: true }
    }
}

/// How rows are ordered by several columns.
#[derive(Debug)]
pub struct SortMultipleOptions {
    pub descending: Vec<bool>,
    pub nulls_last: Vec<bool>,
    pub multithreaded: bool,
    pub maintain_order: bool,
    pub limit: Option<IdxSize>,
}

/// Which ends of a window belong to it.
#[derive(Clone, Copy, Debug, PartialEq, Eq, Structural)]
pub enum ClosedWindow {
    Left,
    Right,
    Both,
    Neither,
}

/// Groups that are windows sliding over an index column. Lengths in nanoseconds.
#[derive(Debug)]
pub struct RollingGroupOptions {
    pub index_column: String,
    pub period: i64,
    pub offset: i64,
    pub closed_window: ClosedWindow,
}

/// Groups that are windows placed at regular steps of an index column.
/// Lengths in nanoseconds.
#[derive(Debug)]
pub struct DynamicGroupOptions {
    pub index_column: String,
    pub every: i64,
    pub period: i64,
    pub offset: i64,
    pub include_boundaries: bool,
    pub closed_window: ClosedWindow,
}

/// How groups are formed.
#[derive(Debug)]
pub struct GroupbyOptions {
    pub dynamic: Option<DynamicGroupOptions>,
    pub rolling: Option<RollingGroupOptions>,
    pub slice: Option<(i64, usize)>,
}

/// The kind of a join.
#[derive(Clone, Copy, Debug, PartialEq, Eq, Structural)]
pub enum JoinType {
    Inner,
    Left,
    Right,
    Full,
    Cross,
    Semi,
    Anti,
}

/// How two inputs are joined.
#[derive(Debug)]
pub struct JoinOptionsIR {
    pub how: JoinType,
    /// What is added to the name of a right column that the left input has
    /// too; `"_right"` where none is given.
    pub suffix: Option<String>,
    /// Whether the key columns of both sides become one.
    pub coalesce: bool,
    pub allow_parallel: bool,
    pub force_parallel: bool,
    pub slice: Option<(i64, usize)>,
}

/// The columns that an unpivot turns into rows, and those it keeps.
#[derive(Debug)]
pub struct UnpivotArgsIR {
    pub on: Vec<String>,
    pub index: Vec<String>,
    pub variable_name: Option<String>,
    pub value_name: Option<String>,
}

/// A function on whole groups that the engine holds under this number.
#[derive(Clone, Copy, Debug, PartialEq, Eq, Structural)]
pub struct UdfRef(pub u64);

} // verus!
