use shp2geojson::checkpoint::{
    done_set, generate_run_id, lists, relative_shp_path, state_path, takes_up_checkpoint,
    CheckpointRead, CheckpointState, SaveEvent, SaveStep,
};
use shp2geojson::error::AppError;

fn make_state() -> CheckpointState {
    CheckpointState::new(
        "deadbeef".to_string(),
        "2026-03-09T00:00:00Z".to_string(),
        "/data".to_string(),
        "/out".to_string(),
    )
}

#[test]
fn test_new_has_empty_lists() {
    let s = make_state();
    assert_eq!(s.run_id, "deadbeef");
    assert_eq!(s.started, "2026-03-09T00:00:00Z");
    assert_eq!(s.input_root, "/data");
    assert_eq!(s.output_root, "/out");
    assert!(s.done.is_empty());
    assert!(s.failed.is_empty());
    assert!(s.pending.is_empty());
}

#[test]
fn test_mark_done_moves_from_pending_to_done() {
    let mut s = make_state();
    s.pending.push("foo/bar.shp".to_string());
    s.mark_done("foo/bar.shp");
    assert!(s.done.contains(&"foo/bar.shp".to_string()));
    assert!(!s.pending.contains(&"foo/bar.shp".to_string()));
}

#[test]
fn test_mark_done_idempotent() {
    let mut s = make_state();
    s.mark_done("a.shp");
    s.mark_done("a.shp");
    assert_eq!(s.done.iter().filter(|d| *d == "a.shp").count(), 1);
}

#[test]
fn test_mark_failed_moves_from_pending_to_failed() {
    let mut s = make_state();
    s.pending.push("bad.shp".to_string());
    s.mark_failed("bad.shp");
    assert!(s.failed.contains(&"bad.shp".to_string()));
    assert!(!s.pending.contains(&"bad.shp".to_string()));
}

#[test]
fn test_mark_failed_idempotent() {
    let mut s = make_state();
    s.mark_failed("b.shp");
    s.mark_failed("b.shp");
    assert_eq!(s.failed.iter().filter(|f| *f == "b.shp").count(), 1);
}

#[test]
fn test_marking_takes_every_occurrence_and_no_other_file() {
    let mut s = make_state();
    for name in ["a.shp", "b.shp", "a.shp", "c.shp"] {
        s.pending.push(name.to_string());
    }
    s.failed.push("z.shp".to_string());
    s.mark_done("a.shp");
    assert_eq!(s.pending, vec!["b.shp".to_string(), "c.shp".to_string()]);
    assert_eq!(s.done, vec!["a.shp".to_string()]);
    assert_eq!(s.failed, vec!["z.shp".to_string()]);
}

#[test]
fn test_generate_run_id_length() {
    let id = generate_run_id(1_772_928_000_123_456_789);
    assert_eq!(id.len(), 8, "run_id must be exactly 8 chars, got: {id}");
}

#[test]
fn test_generate_run_id_hex_chars_only() {
    let id = generate_run_id(1_772_928_000_123_456_789);
    assert!(
        id.chars().all(|c| c.is_ascii_hexdigit()),
        "run_id contains non-hex character: {id}"
    );
}

#[test]
fn test_generate_run_id_is_the_lower_32_bits() {
    assert_eq!(generate_run_id(0), "00000000");
    assert_eq!(generate_run_id(0xdead_beef), "deadbeef");
    assert_eq!(generate_run_id(0x1234_5678_00ab_cdef), "00abcdef");
    for n in [1u128, 255, 4_294_967_295, 4_294_967_296, u128::MAX] {
        assert_eq!(generate_run_id(n), format!("{:08x}", n as u32));
    }
}

#[test]
fn test_relative_shp_path_strips_prefix() {
    assert_eq!(
        relative_shp_path("/data/regions/europe.shp", "/data"),
        Some("regions/europe.shp".to_string())
    );
}

#[test]
fn test_relative_shp_path_returns_none_when_not_under_root() {
    assert_eq!(relative_shp_path("/other/file.shp", "/data"), None);
}

#[test]
fn test_relative_shp_path_goes_by_components() {
    assert_eq!(relative_shp_path("/database/x.shp", "/data"), None);
    assert_eq!(
        relative_shp_path("/data//a/./b.shp", "/data/"),
        Some("a/./b.shp".to_string())
    );
    assert_eq!(relative_shp_path("./a/b.shp", "."), Some("a/b.shp".to_string()));
}

#[test]
fn test_done_set_contains_all_done_entries() {
    let mut s = make_state();
    s.done.push("a.shp".to_string());
    s.done.push("b/c.shp".to_string());
    let set = done_set(&s);
    assert!(set.contains("a.shp"));
    assert!(set.contains("b/c.shp"));
    assert!(!set.contains("z.shp"));
}

#[test]
fn test_lists_looks_for_the_whole_text() {
    let list = vec!["a.shp".to_string(), "b.shp".to_string()];
    assert!(lists(&list, "b.shp"));
    assert!(!lists(&list, "b.sh"));
}

#[test]
fn test_load_returns_error_for_missing_file() {
    let result = CheckpointState::load(
        "/nonexistent/state.json",
        CheckpointRead::Unreadable("No such file or directory (os error 2)".to_string()),
    );
    assert!(result.is_err());
    assert_eq!(
        result.unwrap_err(),
        AppError::Checkpoint {
            reason: "cannot read /nonexistent/state.json: No such file or directory (os error 2)"
                .to_string()
        }
    );
}

#[test]
fn test_load_returns_error_for_invalid_json() {
    let result = CheckpointState::load(
        "/x/bad.json",
        CheckpointRead::Malformed("expected ident at line 1 column 2".to_string()),
    );
    assert!(result.is_err());
    assert_eq!(
        result.unwrap_err().message(),
        "checkpoint error: failed to parse /x/bad.json: expected ident at line 1 column 2"
    );
}

#[test]
fn test_load_gives_what_was_parsed() {
    let mut s = make_state();
    s.done.push("a.shp".to_string());
    let mut same = make_state();
    same.done.push("a.shp".to_string());
    assert_eq!(
        CheckpointState::load("/x", CheckpointRead::Parsed(s)).unwrap(),
        same
    );
}

#[test]
fn test_save_is_atomic_tmp_file_not_left_behind() {
    let path = "/out/state.json";
    let tmp = "/out/state.json.tmp".to_string();
    assert_eq!(
        CheckpointState::save(path, SaveEvent::Encoded(Ok(()))),
        SaveStep::Write { tmp: tmp.clone() }
    );
    assert_eq!(
        CheckpointState::save(path, SaveEvent::Written(Ok(()))),
        SaveStep::Rename { tmp: tmp.clone(), path: path.to_string() }
    );
    assert_eq!(CheckpointState::save(path, SaveEvent::Renamed(Ok(()))), SaveStep::Saved);
}

#[test]
fn test_save_reports_where_it_failed() {
    let path = "/out/state.json";
    let cause = "disk full".to_string();
    assert_eq!(
        CheckpointState::save(path, SaveEvent::Encoded(Err(cause.clone()))),
        SaveStep::Failed(AppError::Checkpoint { reason: cause.clone() })
    );
    assert_eq!(
        CheckpointState::save(path, SaveEvent::Written(Err(cause.clone()))),
        SaveStep::Failed(AppError::Io {
            path: "/out/state.json.tmp".to_string(),
            source: cause.clone()
        })
    );
    assert_eq!(
        CheckpointState::save(path, SaveEvent::Renamed(Err(cause.clone()))),
        SaveStep::Failed(AppError::Io { path: path.to_string(), source: cause })
    );
}

#[test]
fn test_state_file_stands_in_the_output_root() {
    assert_eq!(state_path("/out"), "/out/.shp2geojson_state.json");
    assert!(takes_up_checkpoint(true, true));
    assert!(!takes_up_checkpoint(true, false));
    assert!(!takes_up_checkpoint(false, true));
}
