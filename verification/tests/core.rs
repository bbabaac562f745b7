use tbl_core::aggregate::aggregate;
use tbl_core::aggregate::check_required_columns;
use tbl_core::aggregate::collect_metadata;
use tbl_core::aggregate::row_counts_of;
use tbl_core::aggregate::schemas_of;
use tbl_core::aggregate::sorted_groups;
use tbl_core::aggregate::MetaRead;
use tbl_core::aggregate::SortKey;
use tbl_core::errors::TblError;
use tbl_core::fileset::enumerate;
use tbl_core::fileset::FileSet;
use tbl_core::fileset::Listing;
use tbl_core::outputs::derive_outputs;
use tbl_core::outputs::detect_collision;
use tbl_core::outputs::DirPolicy;
use tbl_core::outputs::OutputPolicy;
use tbl_core::path::FilePath;
use tbl_core::precheck::count_existing;
use tbl_core::schema::Column;
use tbl_core::schema::FileSchema;

fn p(dirs: &[&str], stem: &str, ext: &str) -> FilePath {
    FilePath {
        dirs: dirs.iter().map(|d| d.to_string()).collect(),
        stem: stem.to_string(),
        ext: ext.to_string(),
    }
}

fn schema(cols: &[(&str, &str)]) -> FileSchema {
    FileSchema {
        columns: cols
            .iter()
            .map(|(n, t)| Column { name: n.to_string(), dtype: t.to_string() })
            .collect(),
    }
}

fn file_set(paths: Vec<FilePath>) -> FileSet {
    let listings: Vec<Listing> = paths.into_iter().map(Listing::File).collect();
    enumerate(&listings).expect("file set")
}

fn path_str(fp: &FilePath) -> String {
    let mut s = String::new();
    for d in &fp.dirs {
        s.push_str(d);
        s.push('/');
    }
    s.push_str(&fp.stem);
    if !fp.ext.is_empty() {
        s.push('.');
        s.push_str(&fp.ext);
    }
    s
}

fn metas_for(
    files: &FileSet,
    reads: Vec<MetaRead>,
) -> Vec<tbl_core::aggregate::FileMeta> {
    collect_metadata(files, reads).expect("metadata")
}

#[test]
fn total_rows_is_sum_of_row_counts() {
    let files = file_set(vec![
        p(&["data"], "a", "parquet"),
        p(&["data"], "b", "parquet"),
        p(&["data"], "c", "parquet"),
    ]);
    let sch = schema(&[("id", "int64")]);
    let reads = vec![
        MetaRead::Meta(sch.clone(), 10, 100),
        MetaRead::Meta(sch.clone(), 20, 200),
        MetaRead::Meta(sch.clone(), 30, 300),
    ];
    let metas = metas_for(&files, reads);
    let counts = row_counts_of(&metas);
    let total: u128 = counts.iter().map(|c| *c as u128).sum();
    let summary = aggregate(&metas);
    assert_eq!(summary.total_rows, total);
    assert_eq!(summary.total_rows, 60);
    assert_eq!(summary.total_bytes, 600);
    assert_eq!(summary.file_count, 3);
}

#[test]
fn schemas_are_index_aligned_with_files() {
    let files = file_set(vec![
        p(&["data"], "a", "parquet"),
        p(&["data"], "b", "parquet"),
    ]);
    let s1 = schema(&[("id", "int64")]);
    let s2 = schema(&[("name", "utf8"), ("id", "int64")]);
    let metas = metas_for(
        &files,
        vec![MetaRead::Meta(s1.clone(), 1, 1), MetaRead::Meta(s2.clone(), 2, 2)],
    );
    let schemas = schemas_of(&metas);
    assert_eq!(schemas.len(), files.len());
    assert_eq!(schemas[0].columns.len(), 1);
    assert_eq!(schemas[1].columns.len(), 2);
    assert_eq!(schemas[0].columns[0].name, "id");
    assert_eq!(schemas[1].columns[0].name, "name");
}

#[test]
fn in_place_derivation_is_identity() {
    let files = file_set(vec![
        p(&["a", "b"], "x", "parquet"),
        p(&["a"], "y", "parquet"),
    ]);
    let mapping = derive_outputs(&files, &OutputPolicy::in_place()).expect("mapping");
    assert_eq!(mapping.len(), 2);
    for i in 0..mapping.len() {
        assert_eq!(path_str(mapping.input_at(i)), path_str(mapping.output_at(i)));
    }
    assert_eq!(path_str(mapping.output_at(0)), "a/b/x.parquet");
}

#[test]
fn directory_redirect_preserves_relative_structure() {
    let files = file_set(vec![
        p(&["a", "b"], "c", "parquet"),
        p(&["a"], "d", "parquet"),
    ]);
    let policy = OutputPolicy {
        dir: DirPolicy::Redirect(vec!["out".to_string()]),
        prefix: String::new(),
        postfix: String::new(),
    };
    let mapping = derive_outputs(&files, &policy).expect("mapping");
    assert_eq!(path_str(mapping.output_at(0)), "out/b/c.parquet");
    assert_eq!(path_str(mapping.output_at(1)), "out/d.parquet");
}

#[test]
fn filename_affix_composes_around_stem() {
    let files = file_set(vec![p(&["d"], "file", "parquet")]);
    let policy = OutputPolicy {
        dir: DirPolicy::InPlace,
        prefix: "p_".to_string(),
        postfix: "_q".to_string(),
    };
    let mapping = derive_outputs(&files, &policy).expect("mapping");
    assert_eq!(path_str(mapping.output_at(0)), "d/p_file_q.parquet");
}

#[test]
fn identical_outputs_are_reported_as_collision() {
    let outputs = vec![
        p(&["out"], "x", "parquet"),
        p(&["out"], "y", "parquet"),
        p(&["out"], "x", "parquet"),
    ];
    match detect_collision(&outputs) {
        Some((first, second)) => {
            assert_eq!((first, second), (0, 2));
        }
        None => panic!("collision not detected"),
    }
    let distinct = vec![p(&["out"], "x", "parquet"), p(&["out"], "y", "parquet")];
    assert!(detect_collision(&distinct).is_none());
}

#[test]
fn derivation_never_overwrites_one_input_with_another() {
    // two files of the same name under different directories, redirected
    // and affixed: the outputs keep the relative structure and stay apart
    let files = file_set(vec![
        p(&["a", "left"], "x", "parquet"),
        p(&["a", "right"], "x", "parquet"),
    ]);
    let policy = OutputPolicy {
        dir: DirPolicy::Redirect(vec!["out".to_string()]),
        prefix: "p_".to_string(),
        postfix: String::new(),
    };
    let mapping = derive_outputs(&files, &policy).expect("mapping");
    assert_eq!(path_str(mapping.output_at(0)), "out/left/p_x.parquet");
    assert_eq!(path_str(mapping.output_at(1)), "out/right/p_x.parquet");
}

#[test]
fn grouping_splits_by_schema() {
    let files = file_set(vec![
        p(&["d"], "a", "parquet"),
        p(&["d"], "b", "parquet"),
        p(&["d"], "c", "parquet"),
    ]);
    let shared = schema(&[("id", "int64"), ("v", "double")]);
    let other = schema(&[("id", "int64")]);
    let metas = metas_for(
        &files,
        vec![
            MetaRead::Meta(shared.clone(), 5, 50),
            MetaRead::Meta(shared.clone(), 7, 70),
            MetaRead::Meta(other.clone(), 9, 90),
        ],
    );
    let summary = aggregate(&metas);
    assert_eq!(summary.groups.len(), 2);
    assert_eq!(summary.groups[0].file_count, 2);
    assert_eq!(summary.groups[0].total_rows, 12);
    assert_eq!(summary.groups[0].total_bytes, 120);
    assert_eq!(summary.groups[1].file_count, 1);
    assert_eq!(summary.groups[1].total_rows, 9);
}

#[test]
fn schemas_differing_in_column_order_are_distinct_groups() {
    let files = file_set(vec![p(&["d"], "a", "parquet"), p(&["d"], "b", "parquet")]);
    let s1 = schema(&[("id", "int64"), ("name", "utf8")]);
    let s2 = schema(&[("name", "utf8"), ("id", "int64")]);
    let metas = metas_for(
        &files,
        vec![MetaRead::Meta(s1, 1, 1), MetaRead::Meta(s2, 1, 1)],
    );
    let summary = aggregate(&metas);
    assert_eq!(summary.groups.len(), 2);
}

#[test]
fn groups_sort_descending_by_each_key() {
    let files = file_set(vec![
        p(&["d"], "a", "parquet"),
        p(&["d"], "b", "parquet"),
        p(&["d"], "c", "parquet"),
    ]);
    let s1 = schema(&[("id", "int64")]);
    let s2 = schema(&[("v", "utf8")]);
    let metas = metas_for(
        &files,
        vec![
            MetaRead::Meta(s1.clone(), 1, 900),
            MetaRead::Meta(s2.clone(), 50, 10),
            MetaRead::Meta(s2.clone(), 60, 10),
        ],
    );
    let summary = aggregate(&metas);
    let by_bytes = sorted_groups(summary.groups, SortKey::Bytes);
    assert_eq!(by_bytes[0].total_bytes, 900);
    let by_rows = sorted_groups(by_bytes, SortKey::Rows);
    assert_eq!(by_rows[0].total_rows, 110);
    let by_files = sorted_groups(by_rows, SortKey::Files);
    assert_eq!(by_files[0].file_count, 2);
}

#[test]
fn missing_column_names_the_exact_file() {
    let files = file_set(vec![p(&["d"], "a", "parquet"), p(&["d"], "b", "parquet")]);
    let with_col = schema(&[("id", "int64"), ("x", "utf8")]);
    let without_col = schema(&[("id", "int64")]);
    let metas = metas_for(
        &files,
        vec![MetaRead::Meta(with_col, 1, 1), MetaRead::Meta(without_col, 1, 1)],
    );
    let columns = vec!["x".to_string()];
    match check_required_columns(&metas, &columns) {
        Err(TblError::MissingColumn(path, column)) => {
            assert_eq!(path_str(&path), "d/b.parquet");
            assert_eq!(column, "x");
        }
        other => panic!("expected MissingColumn, got {}", kind_of(&other)),
    }
    let present = vec!["id".to_string()];
    assert!(check_required_columns(&metas, &present).is_ok());
}

fn kind_of(r: &Result<(), TblError>) -> String {
    match r {
        Ok(_) => "ok".to_string(),
        Err(e) => e.kind().to_string(),
    }
}

#[test]
fn empty_enumeration_is_the_empty_set_error() {
    // an existing directory with no matching files yields EmptySet
    let listings = vec![Listing::Directory(vec![p(&["d"], "notes", "txt")])];
    match enumerate(&listings) {
        Err(TblError::EmptySet) => {}
        _ => panic!("expected EmptySet"),
    }
    let none: Vec<Listing> = Vec::new();
    match enumerate(&none) {
        Err(TblError::EmptySet) => {}
        _ => panic!("expected EmptySet"),
    }
}

#[test]
fn missing_explicit_path_is_not_found() {
    let listings = vec![
        Listing::File(p(&["d"], "a", "parquet")),
        Listing::Missing(p(&["d"], "gone", "parquet")),
    ];
    match enumerate(&listings) {
        Err(TblError::NotFound(path)) => assert_eq!(path_str(&path), "d/gone.parquet"),
        _ => panic!("expected NotFound"),
    }
}

#[test]
fn enumeration_dedupes_and_filters_by_extension() {
    let listings = vec![
        Listing::File(p(&["d"], "a", "parquet")),
        Listing::Directory(vec![
            p(&["d"], "a", "parquet"),
            p(&["d"], "notes", "txt"),
            p(&["d"], "b", "parquet"),
        ]),
    ];
    let files = enumerate(&listings).expect("file set");
    assert_eq!(files.len(), 2);
    assert_eq!(path_str(files.get(0)), "d/a.parquet");
    assert_eq!(path_str(files.get(1)), "d/b.parquet");
}

#[test]
fn unreadable_metadata_names_the_file_and_fails_the_batch() {
    let files = file_set(vec![p(&["d"], "a", "parquet"), p(&["d"], "bad", "parquet")]);
    let reads = vec![
        MetaRead::Meta(schema(&[("id", "int64")]), 1, 1),
        MetaRead::Unreadable,
    ];
    match collect_metadata(&files, reads) {
        Err(TblError::UnreadableMetadata(path)) => {
            assert_eq!(path_str(&path), "d/bad.parquet")
        }
        _ => panic!("expected UnreadableMetadata"),
    }
}

#[test]
fn count_existing_counts_set_flags() {
    assert_eq!(count_existing(&vec![true, false, true, true]), 3);
    assert_eq!(count_existing(&vec![]), 0);
    assert_eq!(count_existing(&vec![false, false]), 0);
}

#[test]
fn largest_row_counts_do_not_overflow_totals() {
    let files = file_set(vec![p(&["d"], "a", "parquet"), p(&["d"], "b", "parquet")]);
    let sch = schema(&[("id", "int64")]);
    let metas = metas_for(
        &files,
        vec![
            MetaRead::Meta(sch.clone(), u64::MAX, u64::MAX),
            MetaRead::Meta(sch.clone(), u64::MAX, u64::MAX),
        ],
    );
    let summary = aggregate(&metas);
    assert_eq!(summary.total_rows, 2 * (u64::MAX as u128));
    assert_eq!(summary.total_bytes, 2 * (u64::MAX as u128));
    assert_eq!(summary.groups[0].total_rows, 2 * (u64::MAX as u128));
}
