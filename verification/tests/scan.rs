use plancore::scan::CastColumnsPolicy;
use plancore::scan::CloudOptions;
use plancore::scan::DslPlan;
use plancore::scan::ExtraColumnsPolicy;
use plancore::scan::FileScan;
use plancore::scan::IpcScanOptions;
use plancore::scan::LazyFrame;
use plancore::scan::LazyIpcReader;
use plancore::scan::MissingColumnsPolicy;
use plancore::scan::RowIndex;
use plancore::scan::ScanArgsIpc;
use plancore::scan::ScanSources;
use plancore::scan::Slice;

#[test]
fn scan_args_default_caches_and_does_not_rechunk() {
    let a = ScanArgsIpc::default();
    assert_eq!(a.n_rows, None);
    assert!(a.cache);
    assert!(!a.rechunk);
    assert!(a.row_index.is_none());
    assert!(a.cloud_options.is_none());
    assert_eq!(a.hive_options.enabled, None);
    assert_eq!(a.hive_options.hive_start_idx, 0);
    assert!(a.hive_options.schema.is_none());
    assert!(a.hive_options.try_parse_dates);
    assert!(a.include_file_paths.is_none());
}

#[test]
fn reader_setters_change_one_argument() {
    let r = LazyIpcReader::new(ScanArgsIpc::default());
    assert_eq!(r.n_rows(), None);
    assert!(!r.rechunk());
    assert!(r.row_index().is_none());
    assert!(r.cloud_options().is_none());
    let ScanSources::Paths(p) = r.sources();
    assert!(p.is_empty());
    let r = r
        .with_n_rows(Some(5))
        .with_rechunk(true)
        .with_row_index(Some(RowIndex { name: "i".to_string(), offset: 3 }))
        .with_sources(ScanSources::Paths(vec!["a.ipc".to_string()]));
    assert_eq!(r.n_rows(), Some(5));
    assert!(r.rechunk());
    assert_eq!(r.row_index().unwrap().name, "i");
    assert_eq!(r.row_index().unwrap().offset, 3);
    assert!(r.args.cache);
    let ScanSources::Paths(p) = r.sources();
    assert_eq!(p, &vec!["a.ipc".to_string()]);
}

#[test]
fn finish_threads_the_arguments_through() {
    let args = ScanArgsIpc {
        n_rows: Some(7),
        cache: false,
        rechunk: true,
        row_index: Some(RowIndex { name: "row".to_string(), offset: 1 }),
        cloud_options: Some(CloudOptions {
            max_retries: 2,
            file_cache_ttl: 60,
            config: vec![("region".to_string(), "eu".to_string())],
        }),
        hive_options: Default::default(),
        include_file_paths: Some("path".to_string()),
    };
    let lf = LazyFrame::scan_ipc_files(vec!["a.ipc".to_string(), "b.ipc".to_string()], args).unwrap();
    let DslPlan::Scan { sources, unified_scan_args: u, scan_type } = lf.logical_plan;
    let ScanSources::Paths(p) = sources;
    assert_eq!(p, vec!["a.ipc", "b.ipc"]);
    assert_eq!(scan_type, FileScan::Ipc { options: IpcScanOptions {} });
    assert!(u.schema.is_none());
    assert_eq!(u.pre_slice, Some(Slice::Positive { offset: 0, len: 7 }));
    assert!(!u.cache);
    assert!(u.rechunk);
    assert!(u.glob);
    assert!(u.projection.is_none());
    assert_eq!(u.row_index.as_ref().unwrap().name, "row");
    assert_eq!(u.row_index.as_ref().unwrap().offset, 1);
    assert_eq!(u.cloud_options.as_ref().unwrap().max_retries, 2);
    assert_eq!(u.cloud_options.as_ref().unwrap().config.len(), 1);
    assert_eq!(u.include_file_paths.as_deref(), Some("path"));
    assert_eq!(u.cast_columns_policy, CastColumnsPolicy::ErrorOnMismatch);
    assert_eq!(u.missing_columns_policy, MissingColumnsPolicy::Raise);
    assert_eq!(u.extra_columns_policy, ExtraColumnsPolicy::Raise);
    assert!(u.column_mapping.is_none());
    assert!(u.deletion_files.is_none());
}

#[test]
fn scan_ipc_scans_one_path_without_a_limit() {
    let lf = LazyFrame::scan_ipc("only.ipc".to_string(), ScanArgsIpc::default()).unwrap();
    let DslPlan::Scan { sources, unified_scan_args: u, .. } = lf.logical_plan;
    let ScanSources::Paths(p) = sources;
    assert_eq!(p, vec!["only.ipc"]);
    assert_eq!(u.pre_slice, None);
    assert!(u.cache);
    assert!(!u.rechunk);
}

#[test]
fn scan_ipc_sources_keeps_the_sources() {
    let lf = LazyFrame::scan_ipc_sources(ScanSources::default(), ScanArgsIpc::default()).unwrap();
    let DslPlan::Scan { sources, .. } = lf.logical_plan;
    let ScanSources::Paths(p) = sources;
    assert!(p.is_empty());
}
