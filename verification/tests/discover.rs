use shp2geojson::discover::{
    check_entry, discover, dry_run_report, has_shp_extension, sidecars, walk_failure, EntryStatus,
    FoundFile,
};
use shp2geojson::error::AppError;

/// The regular files with these names in one directory, each with the sidecars that
/// are among them.
fn files(names: &[&str]) -> Vec<FoundFile> {
    let exists = |path: &str| names.iter().any(|n| format!("/in/{n}") == path);
    names
        .iter()
        .map(|n| {
            let path = format!("/in/{n}");
            let beside = sidecars(&path);
            FoundFile {
                size: 0,
                dbf: exists(&beside.dbf),
                shx: exists(&beside.shx),
                prj: exists(&beside.prj),
                cpg: exists(&beside.cpg),
                path,
            }
        })
        .collect()
}

#[test]
fn test_discover_finds_valid_entry() {
    let report = discover(&files(&["region.dbf", "region.shp", "region.shx"]));
    assert_eq!(report.entries.len(), 1);
    assert_eq!(report.entries[0].status, EntryStatus::Valid);
    assert_eq!(report.valid_count, 1);
    assert_eq!(report.invalid_count, 0);
    assert_eq!(report.entries[0].shp, "/in/region.shp");
    assert_eq!(report.entries[0].dbf, "/in/region.dbf");
    assert_eq!(report.entries[0].shx, "/in/region.shx");
}

#[test]
fn test_discover_skips_missing_dbf() {
    let report = discover(&files(&["region.shp", "region.shx"]));
    assert_eq!(report.entries.len(), 1);
    assert!(matches!(report.entries[0].status, EntryStatus::Invalid(_)));
    if let EntryStatus::Invalid(ref missing) = report.entries[0].status {
        assert!(missing.contains(&".dbf"));
    }
    assert_eq!(report.valid_count, 0);
    assert_eq!(report.invalid_count, 1);
}

#[test]
fn test_discover_skips_missing_shx() {
    let report = discover(&files(&["region.dbf", "region.shp"]));
    assert_eq!(report.entries.len(), 1);
    assert_eq!(report.entries[0].status, EntryStatus::Invalid(vec![".shx"]));
    if let EntryStatus::Invalid(ref missing) = report.entries[0].status {
        assert!(missing.contains(&".shx"));
    }
}

#[test]
fn test_discover_both_sidecars_missing() {
    let report = discover(&files(&["region.shp"]));
    assert_eq!(report.entries.len(), 1);
    assert_eq!(report.entries[0].status, EntryStatus::Invalid(vec![".dbf", ".shx"]));
    if let EntryStatus::Invalid(ref missing) = report.entries[0].status {
        assert_eq!(missing.len(), 2);
    }
}

#[test]
fn test_discover_optional_prj_and_cpg() {
    let report = discover(&files(&[
        "region.cpg",
        "region.dbf",
        "region.prj",
        "region.shp",
        "region.shx",
    ]));
    assert_eq!(report.entries.len(), 1);
    assert_eq!(report.entries[0].status, EntryStatus::Valid);
    assert!(report.entries[0].prj.is_some());
    assert!(report.entries[0].cpg.is_some());
    assert_eq!(report.entries[0].prj.as_deref(), Some("/in/region.prj"));
    assert_eq!(report.entries[0].cpg.as_deref(), Some("/in/region.cpg"));
}

#[test]
fn test_discover_ignores_non_shp_files() {
    let report = discover(&files(&["data.SHP", "data.geojson", "readme.txt"]));
    assert_eq!(report.entries.len(), 0);
    assert_eq!(report.valid_count, 0);
    assert_eq!(report.invalid_count, 0);
}

#[test]
fn test_discover_recursive() {
    let report = discover(&files(&[
        "sub/nested/deep.dbf",
        "sub/nested/deep.shp",
        "sub/nested/deep.shx",
    ]));
    assert_eq!(report.entries.len(), 1);
    assert_eq!(report.entries[0].status, EntryStatus::Valid);
}

#[test]
fn test_discover_empty_directory() {
    let report = discover(&files(&[]));
    assert_eq!(report.entries.len(), 0);
    assert_eq!(report.valid_count, 0);
    assert_eq!(report.invalid_count, 0);
    assert_eq!(report.total_input_bytes, 0);
    assert_eq!(report.estimated_output_bytes, 0);
}

#[test]
fn test_discover_multiple_files() {
    let report = discover(&files(&[
        "a.dbf", "a.shp", "a.shx", "b.dbf", "b.shp", "b.shx", "c.dbf", "c.shp", "c.shx",
    ]));
    assert_eq!(report.entries.len(), 3);
    assert!(report.entries.iter().all(|e| e.status == EntryStatus::Valid));
    assert!(report.entries.iter().all(|e| e.is_valid()));
    assert_eq!(report.valid_count, 3);
    assert_eq!(report.invalid_count, 0);
}

#[test]
fn test_discover_report_counts_valid_and_invalid() {
    let report = discover(&files(&[
        "bad.shp", "bad.shx", "good1.dbf", "good1.shp", "good1.shx", "good2.dbf", "good2.shp",
        "good2.shx",
    ]));
    assert_eq!(report.entries.len(), 3);
    assert_eq!(report.valid_count, 2);
    assert_eq!(report.invalid_count, 1);
}

#[test]
fn test_discover_report_estimated_output_bytes_ratio() {
    let mut found = files(&["x.dbf", "x.shp", "x.shx"]);
    for f in found.iter_mut() {
        f.size = 10;
    }
    let report = discover(&found);
    assert_eq!(report.total_input_bytes, 10);
    // 10 * 37 / 10 = 37
    assert_eq!(report.estimated_output_bytes, 37);
}

#[test]
fn test_discover_counts_no_bytes_of_invalid_entries() {
    let mut found = files(&["a.dbf", "a.shp", "a.shx", "b.shp"]);
    found[1].size = 5;
    found[3].size = 1_000;
    let report = discover(&found);
    assert_eq!(report.total_input_bytes, 5);
    // 5 * 37 / 10, rounded down
    assert_eq!(report.estimated_output_bytes, 18);
}

#[test]
fn test_discover_caps_the_estimate() {
    let mut found = files(&["a.dbf", "a.shp", "a.shx"]);
    // The greatest size of which the estimate still fits.
    found[1].size = 4_985_606_506_407_986_923;
    let report = discover(&found);
    assert_eq!(report.estimated_output_bytes, 18_446_744_073_709_551_615);
    found[1].size = u64::MAX;
    let report = discover(&found);
    assert_eq!(report.total_input_bytes, u64::MAX);
    assert_eq!(report.estimated_output_bytes, u64::MAX);
}

#[test]
fn test_shp_extension_is_in_lower_case_and_not_the_whole_name() {
    assert!(has_shp_extension("a/b.shp"));
    assert!(has_shp_extension("a/b.x.shp"));
    assert!(!has_shp_extension("a/b.SHP"));
    assert!(!has_shp_extension("a/.shp"));
    assert!(!has_shp_extension("a/shp"));
    assert!(!has_shp_extension("a.shp/.."));
}

#[test]
fn test_sidecars_stand_beside_the_shapefile() {
    let s = sidecars("/d/a.b.shp");
    assert_eq!(s.dbf, "/d/a.b.dbf");
    assert_eq!(s.shx, "/d/a.b.shx");
    assert_eq!(s.prj, "/d/a.b.prj");
    assert_eq!(s.cpg, "/d/a.b.cpg");
}

#[test]
fn test_check_entry_of_one_file() {
    let entry = check_entry(&FoundFile {
        path: "x.shp".to_string(),
        size: 1,
        dbf: true,
        shx: false,
        prj: true,
        cpg: false,
    });
    assert_eq!(entry.status, EntryStatus::Invalid(vec![".shx"]));
    assert!(!entry.is_valid());
    assert_eq!(entry.prj.as_deref(), Some("x.prj"));
    assert_eq!(entry.cpg, None);
}

#[test]
fn test_dry_run_report_lines() {
    let mut found = files(&["a.dbf", "a.shp", "a.shx", "b.shp"]);
    found[1].size = 2_048;
    let lines = dry_run_report(&discover(&found));
    assert_eq!(
        lines,
        vec![
            "Discovery report:",
            "  Total .shp files found   : 2",
            "  Valid (all sidecars OK)  : 1",
            "  Invalid (missing sidecar): 1",
            "  Total input size         : 2.0 KB",
            "  Estimated output size    : 7.4 KB",
            "",
            "  OK       /in/a.shp",
            "  INVALID  /in/b.shp — missing .dbf, .shx",
        ]
    );
}

#[test]
fn test_dry_run_report_gives_gigabytes_where_worth_it() {
    let mut found = files(&["a.dbf", "a.shp", "a.shx"]);
    // 2 902 005 * 37 / 10 = 10 737 418, which is under a hundredth of a gigabyte.
    found[1].size = 2_902_005;
    let lines = dry_run_report(&discover(&found));
    assert_eq!(lines.len(), 8);
    // 2 902 006 * 37 / 10 = 10 737 422.
    found[1].size = 2_902_006;
    let lines = dry_run_report(&discover(&found));
    assert_eq!(lines.len(), 9);
    assert_eq!(lines[6], "                             (0.0 GB → 0.0 GB)");
    found[1].size = 3 * 1_073_741_824;
    let lines = dry_run_report(&discover(&found));
    assert_eq!(lines[6], "                             (3.0 GB → 11.1 GB)");
}

#[test]
fn test_gigabyte_threshold_is_that_of_the_quotient() {
    let threshold = shp2geojson::discover::WORTH_GIGABYTES;
    assert!(threshold as f64 / 1_073_741_824.0 >= 0.01);
    assert!((threshold - 1) as f64 / 1_073_741_824.0 < 0.01);
}

#[test]
fn test_walk_failure_at_the_root_is_an_error() {
    assert_eq!(
        walk_failure("/in", 0, "denied".to_string()).unwrap_err(),
        AppError::Io { path: "/in".to_string(), source: "denied".to_string() }
    );
    assert_eq!(
        walk_failure("/in", 1, "denied".to_string()).unwrap(),
        "warning: directory walk error: denied"
    );
}
