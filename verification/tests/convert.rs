use shp2geojson::convert::{
    convert, output_path_for, ConversionStats, ConvertEvent, ConvertOptions, ConvertState,
};
use shp2geojson::discover::{EntryStatus, ShapefileEntry};
use shp2geojson::error::AppError;
use shp2geojson::paths::temporary_path;

fn entry() -> ShapefileEntry {
    ShapefileEntry {
        shp: "/data/a.shp".to_string(),
        dbf: "/data/a.dbf".to_string(),
        shx: "/data/a.shx".to_string(),
        prj: None,
        cpg: None,
        status: EntryStatus::Valid,
    }
}

fn options(overwrite: bool) -> ConvertOptions {
    ConvertOptions { geojsonl: false, overwrite, reproject_from_prj: None }
}

fn step(overwrite: bool, state: ConvertState, event: ConvertEvent) -> ConvertState {
    convert(&entry(), "/out/a.geojson", &options(overwrite), state, event)
}

#[test]
fn test_output_path_for_geojson() {
    let result = output_path_for("/data/regions/europe.shp", "/data", "/out", false).unwrap();
    assert_eq!(result, "/out/regions/europe.geojson");
}

#[test]
fn test_output_path_for_geojsonl() {
    let result = output_path_for("/data/regions/europe.shp", "/data", "/out", true).unwrap();
    assert_eq!(result, "/out/regions/europe.geojsonl");
}

#[test]
fn test_output_path_for_root_level() {
    let result = output_path_for("/data/file.shp", "/data", "/out", false).unwrap();
    assert_eq!(result, "/out/file.geojson");
}

#[test]
fn test_output_path_for_wrong_root_returns_error() {
    assert!(output_path_for("/other/file.shp", "/data", "/out", false).is_err());
}

#[test]
fn test_output_path_error_names_both_paths() {
    assert_eq!(
        output_path_for("/other/file.shp", "/data", "/out", false).unwrap_err(),
        AppError::GeoJson {
            path: "/other/file.shp".to_string(),
            reason: "could not make /other/file.shp relative to /data".to_string(),
        }
    );
}

#[test]
fn test_output_path_mirrors_relative_roots_and_dotted_names() {
    assert_eq!(
        output_path_for("./in/a/b.c.shp", "./in", "out", false).unwrap(),
        "out/a/b.c.geojson"
    );
    assert_eq!(output_path_for("x.shp", "", "out", true).unwrap(), "out/x.geojsonl");
}

#[test]
fn test_temporary_path_stands_beside_the_file() {
    assert_eq!(temporary_path("/out/a.geojson"), "/out/a.geojson.tmp");
    assert_eq!(temporary_path("/out/a.b.geojsonl"), "/out/a.b.geojsonl.tmp");
    assert_eq!(temporary_path("/out/plain"), "/out/plain.tmp");
    assert_eq!(temporary_path("/out/.hidden"), "/out/.hidden.tmp");
    assert_eq!(temporary_path("/out/dot."), "/out/dot..tmp");
    assert_eq!(temporary_path("/"), "/");
}

#[test]
fn test_conversion_from_start_to_end() {
    let tmp = "/out/a.geojson.tmp".to_string();
    let s = step(false, ConvertState::Starting, ConvertEvent::OutputExists(false));
    assert_eq!(s, ConvertState::CreatingDirectory { dir: "/out".to_string() });
    let s = step(false, s, ConvertEvent::DirectoryCreated(Ok(())));
    assert_eq!(s, ConvertState::Writing { tmp: tmp.clone() });
    let s = step(false, s, ConvertEvent::Written(Ok((7, 2))));
    assert_eq!(s, ConvertState::Renaming { tmp, features_written: 7, records_skipped: 2 });
    let s = step(false, s, ConvertEvent::Renamed { result: Ok(()), duration_ms: 12 });
    assert_eq!(
        s,
        ConvertState::Done(ConversionStats {
            input: "/data/a.shp".to_string(),
            output: "/out/a.geojson".to_string(),
            features_written: 7,
            records_skipped: 2,
            duration_ms: 12,
        })
    );
}

#[test]
fn test_existing_output_is_kept_unless_overwritten() {
    let refused = step(false, ConvertState::Starting, ConvertEvent::OutputExists(true));
    assert_eq!(
        refused,
        ConvertState::Failed(AppError::OutputExists { path: "/out/a.geojson".to_string() })
    );
    let still = step(false, refused, ConvertEvent::DirectoryCreated(Ok(())));
    assert!(matches!(still, ConvertState::Failed(AppError::OutputExists { .. })));
    let allowed = step(true, ConvertState::Starting, ConvertEvent::OutputExists(true));
    assert!(matches!(allowed, ConvertState::CreatingDirectory { .. }));
}

#[test]
fn test_directory_failure_names_the_directory() {
    let s = step(
        false,
        ConvertState::CreatingDirectory { dir: "/out".to_string() },
        ConvertEvent::DirectoryCreated(Err("denied".to_string())),
    );
    assert_eq!(
        s,
        ConvertState::Failed(AppError::Io {
            path: "/out".to_string(),
            source: "denied".to_string()
        })
    );
}

#[test]
fn test_temporary_file_is_removed_when_writing_fails() {
    let tmp = "/out/a.geojson.tmp".to_string();
    let error = AppError::ShapefileRead {
        path: "/data/a.shp".to_string(),
        source: "bad header".to_string(),
    };
    let s = step(
        false,
        ConvertState::Writing { tmp: tmp.clone() },
        ConvertEvent::Written(Err(error)),
    );
    assert!(matches!(s, ConvertState::Removing { tmp: ref t, .. } if *t == tmp));
    let s = step(false, s, ConvertEvent::Removed);
    assert_eq!(
        s,
        ConvertState::Failed(AppError::ShapefileRead {
            path: "/data/a.shp".to_string(),
            source: "bad header".to_string(),
        })
    );
}

#[test]
fn test_temporary_file_is_removed_when_renaming_fails() {
    let tmp = "/out/a.geojson.tmp".to_string();
    let s = step(
        true,
        ConvertState::Renaming { tmp: tmp.clone(), features_written: 1, records_skipped: 0 },
        ConvertEvent::Renamed { result: Err("cross-device".to_string()), duration_ms: 1 },
    );
    let s = match s {
        ConvertState::Removing { tmp: t, error } => {
            assert_eq!(t, tmp);
            ConvertState::Removing { tmp: t, error }
        }
        other => panic!("expected Removing, got {other:?}"),
    };
    assert_eq!(
        step(true, s, ConvertEvent::Removed),
        ConvertState::Failed(AppError::Io {
            path: "/out/a.geojson".to_string(),
            source: "cross-device".to_string()
        })
    );
}

#[test]
fn test_event_out_of_turn_changes_nothing() {
    assert_eq!(
        step(false, ConvertState::Starting, ConvertEvent::Removed),
        ConvertState::Starting
    );
}

#[test]
fn test_different_files_have_different_outputs() {
    let files = [
        "/data/a.shp", "/data/b.shp", "/data/a.b.shp", "/data/v1.2.shp", "/data/sub/a.shp",
        "/data/sub/sub/a.shp", "/data/a.shp.shp", "/data/ a.shp", "/data/A.shp",
    ];
    let outputs: Vec<String> = files
        .iter()
        .map(|f| output_path_for(f, "/data", "/out", false).unwrap())
        .collect();
    for (i, a) in outputs.iter().enumerate() {
        for b in &outputs[i + 1..] {
            assert_ne!(a, b);
        }
    }
    assert_eq!(outputs[3], "/out/v1.2.geojson");
}

#[test]
fn test_output_path_for_a_root_without_components() {
    let place = |shp: &str| output_path_for(shp, "", "/out", false).unwrap();
    assert_eq!(place("sub/a.shp"), "/out/sub/a.geojson");
    // A leading `.` is no place of its own.
    assert_eq!(
        std::path::Path::new(&place("./a.shp")),
        std::path::Path::new("/out/a.geojson")
    );
    // An absolute path is not below the output root.
    assert_eq!(place("/data/a.shp"), "/data/a.geojson");
    assert_eq!(output_path_for("sub/a.shp", "", "", true).unwrap(), "sub/a.geojsonl");
}

#[test]
fn test_output_path_for_the_root_itself() {
    assert_eq!(
        output_path_for("/data/a.shp", "/data/a.shp", "/out", false).unwrap(),
        "/out.geojson"
    );
}
