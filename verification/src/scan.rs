use vstd::prelude::*;
use crate::error::PlanError;
use crate::options::IdxSize;
use crate::schema::Schema;

verus! {

/// A column that counts the rows, and the number it starts from.
#[derive(Debug)]
pub struct RowIndex {
    pub name: String,
    pub offset: IdxSize,
}

/// How a store in the cloud is reached.
#[derive(Debug)]
pub struct CloudOptions {
    pub max_retries: usize,
    pub file_cache_ttl: u64,
    pub config: Vec<(String, String)>,
}

/// How directory names that hold column values are read.
#[derive(Debug)]
pub struct HiveOptions {
    pub enabled: Option<bool>,
    pub hive_start_idx: usize,
    pub schema: Option<Schema>,
    pub try_parse_dates: bool,
}

impl Default for HiveOptions {
    fn default() -> (o: Self)
        ensures
            o.enabled is None,
            o.hive_start_idx == 0,
            o.schema is None,
            o.try_parse_dates,
    {
        HiveOptions { enabled: None, hive_start_idx: 0, schema: None, try_parse_dates: true }
    }
}

/// What a scan of files in the IPC format is asked to do.
#[derive(Debug)]
pub struct ScanArgsIpc {
    pub n_rows: Option<usize>,
    pub cache: bool,
    pub rechunk: bool,
    pub row_index: Option<RowIndex>,
    pub cloud_options: Option<CloudOptions>,
    pub hive_options: HiveOptions,
    pub include_file_paths: Option<String>,
}

impl Default for ScanArgsIpc {
    fn default() -> (a: Self)
        ensures
            a.n_rows is None,
            a.cache,
            !a.rechunk,
            a.row_index is None,
            a.cloud_options is None,
            a.hive_options.enabled is None,
            a.hive_options.hive_start_idx == 0,
            a.hive_options.schema is None,
            a.hive_options.try_parse_dates,
            a.include_file_paths is None,
    {
        ScanArgsIpc {
            n_rows: None,
            cache: true,
            rechunk: false,
            row_index: None,
            cloud_options: None,
            hive_options: HiveOptions::default(),
            include_file_paths: None,
        }
    }
}

/// A run of rows, counted from the start or from the end.
#[derive(Clone, Copy, Debug, PartialEq, Eq, Structural)]
pub enum Slice {
    Positive { offset: usize, len: usize },
    Negative { offset_from_end: usize, len: usize },
}

/// What is done where a column of a file has another type than asked for.
#[derive(Clone, Copy, Debug, PartialEq, Eq, Structural)]
pub enum CastColumnsPolicy {
    ErrorOnMismatch,
    Upcast,
}

/// What is done where a file lacks a column.
#[derive(Clone, Copy, Debug, PartialEq, Eq, Structural)]
pub enum MissingColumnsPolicy {
    Raise,
    Insert,
}

/// What is done where a file has a column that was not asked for.
#[derive(Clone, Copy, Debug, PartialEq, Eq, Structural)]
pub enum ExtraColumnsPolicy {
    Raise,
    Ignore,
}

/// Where the rows of a scan come from.
#[derive(Debug)]
pub enum ScanSources {
    Paths(Vec<String>),
}

impl Default for ScanSources {
    fn default() -> (s: Self)
        ensures
            s matches ScanSources::Paths(p) && p@.len() == 0,
    {
        ScanSources::Paths(Vec::new())
    }
}

/// What a scan of any format is asked to do.
#[derive(Debug)]
pub struct UnifiedScanArgs {
    pub schema: Option<Schema>,
    pub cloud_options: Option<CloudOptions>,
    pub hive_options: HiveOptions,
    pub rechunk: bool,
    pub cache: bool,
    pub glob: bool,
    pub projection: Option<Vec<String>>,
    pub row_index: Option<RowIndex>,
    pub pre_slice: Option<Slice>,
    pub cast_columns_policy: CastColumnsPolicy,
    pub missing_columns_policy: MissingColumnsPolicy,
    pub extra_columns_policy: ExtraColumnsPolicy,
    pub include_file_paths: Option<String>,
    pub column_mapping: Option<Vec<(String, String)>>,
    pub deletion_files: Option<Vec<String>>,
}

/// What is particular to a scan of the IPC format: nothing.
#[derive(Clone, Copy, Debug, PartialEq, Eq, Structural)]
pub struct IpcScanOptions {}

/// The format of the files of a scan.
#[derive(Clone, Copy, Debug, PartialEq, Eq, Structural)]
pub enum FileScan {
    Ipc { options: IpcScanOptions },
}

/// A plan as a query states it.
#[derive(Debug)]
pub enum DslPlan {
    Scan { sources: ScanSources, unified_scan_args: Box<UnifiedScanArgs>, scan_type: FileScan },
}

/// A query that is run when its result is asked for.
#[derive(Debug)]
pub struct LazyFrame {
    pub logical_plan: DslPlan,
}

/// The rows that a limit of `n_rows` rows keeps: the first so many.
pub open spec fn pre_slice_of(n_rows: Option<usize>) -> Option<Slice> {
    match n_rows {
        Some(len) => Some(Slice::Positive { offset: 0, len }),
        None => None,
    }
}

/// The plan `plan` scans `sources` in the IPC format as `args` asks: with
/// the limit of rows as a slice from the start, with what `args` says of
/// the cloud, of hive names, of rechunking, of caching, of the row index and
/// of the file paths unchanged, with names in paths expanded, with nothing
/// fixed about schema, projection, column mapping or deletion files, and with
/// every departure of a file from what was asked for raised as an error.
pub open spec fn scans_ipc(plan: DslPlan, sources: ScanSources, args: ScanArgsIpc) -> bool {
    &&& plan matches DslPlan::Scan { sources: s, unified_scan_args: u, scan_type }
    &&& s == sources
    &&& scan_type == (FileScan::Ipc { options: IpcScanOptions {  } })
    &&& u.schema is None
    &&& u.cloud_options == args.cloud_options
    &&& u.hive_options == args.hive_options
    &&& u.rechunk == args.rechunk
    &&& u.cache == args.cache
    &&& u.glob
    &&& u.projection is None
    &&& u.row_index == args.row_index
    &&& u.pre_slice == pre_slice_of(args.n_rows)
    &&& u.cast_columns_policy == CastColumnsPolicy::ErrorOnMismatch
    &&& u.missing_columns_policy == MissingColumnsPolicy::Raise
    &&& u.extra_columns_policy == ExtraColumnsPolicy::Raise
    &&& u.include_file_paths == args.include_file_paths
    &&& u.column_mapping is None
    &&& u.deletion_files is None
}

/// A scan of IPC files that is still being described.
#[derive(Debug)]
pub struct LazyIpcReader {
    pub args: ScanArgsIpc,
    pub sources: ScanSources,
}

impl LazyIpcReader {
    /// A reader that does as `args` asks and has no source yet.
    pub fn new(args: ScanArgsIpc) -> (r: Self)
        ensures
            r.args == args,
            r.sources matches ScanSources::Paths(p) && p@.len() == 0,
    {
        LazyIpcReader { args, sources: ScanSources::default() }
    }

    /// The query that scans the sources as the arguments ask.
    pub fn finish(self) -> (r: Result<LazyFrame, PlanError>)
        ensures
            r matches Ok(lf) && scans_ipc(lf.logical_plan, self.sources, self.args),
    {
        let args = self.args;
        let options = IpcScanOptions {  };
        let pre_slice = match args.n_rows {
            Some(len) => Some(Slice::Positive { offset: 0, len }),
            None => None,
        };
        let unified_scan_args = UnifiedScanArgs {
            schema: None,
            cloud_options: args.cloud_options,
            hive_options: args.hive_options,
            rechunk: args.rechunk,
            cache: args.cache,
            glob: true,
            projection: None,
            row_index: args.row_index,
            pre_slice,
            cast_columns_policy: CastColumnsPolicy::ErrorOnMismatch,
            missing_columns_policy: MissingColumnsPolicy::Raise,
            extra_columns_policy: ExtraColumnsPolicy::Raise,
            include_file_paths: args.include_file_paths,
            column_mapping: None,
            deletion_files: None,
        };
        let logical_plan = DslPlan::Scan {
            sources: self.sources,
            unified_scan_args: Box::new(unified_scan_args),
            scan_type: FileScan::Ipc { options },
        };
        Ok(LazyFrame { logical_plan })
    }

    pub fn sources(&self) -> (s: &ScanSources)
        ensures
            *s == self.sources,
    {
        &self.sources
    }

    pub fn with_sources(self, sources: ScanSources) -> (r: Self)
        ensures
            r.sources == sources,
            r.args == self.args,
    {
        LazyIpcReader { args: self.args, sources }
    }

    pub fn with_n_rows(self, n_rows: Option<usize>) -> (r: Self)
        ensures
            r == (LazyIpcReader {
                args: ScanArgsIpc { n_rows, ..self.args },
                sources: self.sources,
            }),
    {
        let mut r = self;
        r.args.n_rows = n_rows;
        r
    }

    pub fn with_row_index(self, row_index: Option<RowIndex>) -> (r: Self)
        ensures
            r == (LazyIpcReader {
                args: ScanArgsIpc { row_index, ..self.args },
                sources: self.sources,
            }),
    {
        let mut r = self;
        r.args.row_index = row_index;
        r
    }

    pub fn rechunk(&self) -> (b: bool)
        ensures
            b == self.args.rechunk,
    {
        self.args.rechunk
    }

    pub fn with_rechunk(self, toggle: bool) -> (r: Self)
        ensures
            r == (LazyIpcReader {
                args: ScanArgsIpc { rechunk: toggle, ..self.args },
                sources: self.sources,
            }),
    {
        let mut r = self;
        r.args.rechunk = toggle;
        r
    }

    pub fn n_rows(&self) -> (n: Option<usize>)
        ensures
            n == self.args.n_rows,
    {
        self.args.n_rows
    }

    pub fn row_index(&self) -> (r: Option<&RowIndex>)
        ensures
            r == match self.args.row_index {
                Some(x) => Some(&x),
                None => None,
            },
    {
        self.args.row_index.as_ref()
    }

    /// How the store is reached in which the files are listed.
    pub fn cloud_options(&self) -> (r: Option<&CloudOptions>)
        ensures
            r == match self.args.cloud_options {
                Some(x) => Some(&x),
                None => None,
            },
    {
        self.args.cloud_options.as_ref()
    }
}

impl LazyFrame {
    /// The query that scans the IPC file at `path`.
    pub fn scan_ipc(path: String, args: ScanArgsIpc) -> (r: Result<LazyFrame, PlanError>)
        ensures
            r matches Ok(lf) && lf.logical_plan matches DslPlan::Scan { sources, .. }
                && sources matches ScanSources::Paths(p) && p@ == seq![path] && scans_ipc(
                lf.logical_plan,
                sources,
                args,
            ),
    {
        let mut paths: Vec<String> = Vec::new();
        paths.push(path);
        assert(paths@ =~= seq![path]);
        LazyFrame::scan_ipc_sources(ScanSources::Paths(paths), args)
    }

    /// The query that scans the IPC files at `paths`.
    pub fn scan_ipc_files(paths: Vec<String>, args: ScanArgsIpc) -> (r: Result<
        LazyFrame,
        PlanError,
    >)
        ensures
            r matches Ok(lf) && scans_ipc(lf.logical_plan, ScanSources::Paths(paths), args),
    {
        LazyFrame::scan_ipc_sources(ScanSources::Paths(paths), args)
    }

    /// The query that scans `sources` in the IPC format.
    pub fn scan_ipc_sources(sources: ScanSources, args: ScanArgsIpc) -> (r: Result<
        LazyFrame,
        PlanError,
    >)
        ensures
            r matches Ok(lf) && scans_ipc(lf.logical_plan, sources, args),
    {
        LazyIpcReader::new(args).with_sources(sources).finish()
    }
}

} // verus!
