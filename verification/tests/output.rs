use shp2geojson::error::AppError;
use shp2geojson::cli::OutputFormat;
use shp2geojson::output::{
    emit, format_bytes, format_gigabytes, log_line, Emission, LogLevel, OutputEvent,
};
use shp2geojson::timestamp::unix_secs_to_datetime_str;

#[test]
fn test_display_start() {
    let event = OutputEvent::Start {
        total_files: 10,
        total_bytes: 1_073_741_824, // 1 GB
        timestamp: "2026-03-09T00:00:00Z".to_string(),
    };
    let s = event.to_text();
    assert!(s.contains("10 file(s)"));
    assert!(s.contains("1.0 GB"));
    assert!(s.contains("2026-03-09T00:00:00Z"));
    assert_eq!(s, "Starting conversion: 10 file(s), 1.0 GB input, 2026-03-09T00:00:00Z");
}

#[test]
fn test_display_file_done() {
    let event = OutputEvent::FileDone {
        file: "/data/a.shp".to_string(),
        output: "/out/a.geojson".to_string(),
        duration_ms: 42,
        features: 100,
    };
    let s = event.to_text();
    assert!(s.contains("/data/a.shp"));
    assert!(s.contains("/out/a.geojson"));
    assert!(s.contains("100 features"));
    assert!(s.contains("42ms"));
    assert_eq!(s, "converted  /data/a.shp -> /out/a.geojson  (100 features, 42ms)");
}

#[test]
fn test_display_file_failed() {
    let event = OutputEvent::FileFailed {
        file: "/data/b.shp".to_string(),
        reason: "missing .dbf".to_string(),
    };
    let s = event.to_text();
    assert!(s.contains("FAILED"));
    assert!(s.contains("/data/b.shp"));
    assert!(s.contains("missing .dbf"));
    assert_eq!(s, "FAILED   /data/b.shp — missing .dbf");
}

#[test]
fn test_display_file_skipped() {
    let event = OutputEvent::FileSkipped {
        file: "/data/c.shp".to_string(),
        reason: "already completed in previous run".to_string(),
    };
    let s = event.to_text();
    assert!(s.contains("SKIPPED"));
    assert!(s.contains("/data/c.shp"));
    assert!(s.contains("already completed in previous run"));
}

#[test]
fn test_display_batch_done() {
    let event = OutputEvent::BatchDone {
        converted: 8,
        failed: 2,
        elapsed_s: format!("{:.1}", 3.5f64),
        gb_processed: format!("{:.3}", 0.123f64),
    };
    let s = event.to_text();
    assert!(s.contains("8 converted"));
    assert!(s.contains("2 failed"));
    assert!(s.contains("3.5s"));
    assert_eq!(s, "\nDone: 8 converted, 2 failed, 3.5s elapsed, 0.123 GB processed");
}

#[test]
fn test_display_of_interactive_events() {
    let paused: OutputEvent = OutputEvent::Paused { converted: 1, failed: 2, pending: 3 };
    assert_eq!(paused.to_text(), "PAUSED — 1 done, 2 failed, 3 pending");
    let resumed: OutputEvent = OutputEvent::Resumed;
    assert_eq!(resumed.to_text(), "RESUMED — workers are running");
    let changed: OutputEvent = OutputEvent::WorkersChanged { from: 4, to: 8 };
    assert_eq!(changed.to_text(), "Workers: 4 → 8");
    let skipped = OutputEvent::FileSkippedByUser { file: "a.shp".to_string() };
    assert_eq!(skipped.to_text(), "SKIPPED (user)  a.shp");
}

#[test]
fn test_events_go_out_as_json_or_text() {
    let event: OutputEvent = OutputEvent::Resumed;
    assert_eq!(emit(&event, OutputFormat::Json), Emission::Json);
    assert_eq!(
        emit(&event, OutputFormat::Human),
        Emission::Text("RESUMED — workers are running".to_string())
    );
}

#[test]
fn test_format_bytes_small() {
    assert_eq!(format_bytes(500), "500 B");
}

#[test]
fn test_format_bytes_kb() {
    assert_eq!(format_bytes(2_048), "2.0 KB");
}

#[test]
fn test_format_bytes_mb() {
    assert_eq!(format_bytes(5 * 1_024 * 1_024), "5.0 MB");
}

#[test]
fn test_format_bytes_gb() {
    assert_eq!(format_bytes(2 * 1_024 * 1_024 * 1_024), "2.0 GB");
}

#[test]
fn test_format_bytes_zero() {
    assert_eq!(format_bytes(0), "0 B");
}

fn expected_bytes(bytes: u64) -> String {
    let kb = 1_024u64;
    let mb = 1_024 * kb;
    let gb = 1_024 * mb;
    if bytes >= gb {
        format!("{:.1} GB", bytes as f64 / gb as f64)
    } else if bytes >= mb {
        format!("{:.1} MB", bytes as f64 / mb as f64)
    } else if bytes >= kb {
        format!("{:.1} KB", bytes as f64 / kb as f64)
    } else {
        format!("{bytes} B")
    }
}

#[test]
fn test_format_bytes_rounds_as_doubles_are_printed() {
    let mut samples: Vec<u64> = vec![
        1_023, 1_024, 1_075, 1_076, 1_126, 1_127, 1_280, 1_536, 1_048_575, 1_048_576, 1_073_741_823,
        1_073_741_824, u64::MAX, u64::MAX - 1_023, 1 << 53, (1 << 53) + 1, (1 << 60) + 12_345,
    ];
    // Ties: odd multiples of a twentieth of a unit that are whole numbers of bytes.
    for k in 0..40u64 {
        samples.push(1_024 + 256 * k);
        samples.push(1_048_576 + 262_144 * k);
        samples.push(1_073_741_824 + 268_435_456 * k);
    }
    let mut x: u64 = 88_172_645_463_325_252;
    for _ in 0..2_000 {
        x ^= x << 13;
        x ^= x >> 7;
        x ^= x << 17;
        samples.push(x);
        samples.push(x >> 20);
        samples.push(x >> 34);
        samples.push(x >> 44);
    }
    for n in samples {
        assert_eq!(format_bytes(n), expected_bytes(n), "{n}");
        assert_eq!(format_gigabytes(n), format!("{:.3}", n as f64 / 1_073_741_824.0), "{n}");
    }
}

#[test]
fn test_log_line_format() {
    assert_eq!(
        log_line("2026-03-08 14:22:01", LogLevel::Failed, "input/broken.shp", "missing .dbf"),
        "[2026-03-08 14:22:01] FAILED   input/broken.shp  — missing .dbf\n"
    );
    for (level, name) in [
        (LogLevel::Failed, "FAILED"),
        (LogLevel::Invalid, "INVALID"),
        (LogLevel::Skipped, "SKIPPED"),
        (LogLevel::Warn, "WARN"),
    ] {
        assert_eq!(log_line("t", level, "p", "r"), format!("[t] {:<8} p  — r\n", name));
    }
}

#[test]
fn test_error_messages() {
    let s = |t: &str| t.to_string();
    let cases: Vec<(AppError, &str)> = vec![
        (
            AppError::MissingSidecar { shp: s("/data/counties.shp"), ext: s(".dbf") },
            "missing sidecar .dbf for /data/counties.shp",
        ),
        (
            AppError::ShapefileRead { path: s("a.shp"), source: s("eof") },
            "shapefile read error in a.shp: eof",
        ),
        (AppError::Io { path: s("a"), source: s("denied") }, "I/O error for a: denied"),
        (
            AppError::GeoJson { path: s("a"), reason: s("r") },
            "GeoJSON serialisation error in a: r",
        ),
        (
            AppError::Projection { path: s("a"), reason: s("r") },
            "projection unavailable for a: r",
        ),
        (
            AppError::OutputExists { path: s("o") },
            "output already exists: o (use --overwrite to replace)",
        ),
        (AppError::Checkpoint { reason: s("r") }, "checkpoint error: r"),
        (AppError::Config { reason: s("r") }, "config error: r"),
    ];
    for (error, text) in cases {
        assert_eq!(error.message(), text);
    }
}

#[test]
fn test_datetime_of_known_moments() {
    assert_eq!(unix_secs_to_datetime_str(0, false), "1970-01-01 00:00:00");
    assert_eq!(unix_secs_to_datetime_str(0, true), "1970-01-01T00:00:00Z");
    assert_eq!(unix_secs_to_datetime_str(86_399, true), "1970-01-01T23:59:59Z");
    assert_eq!(unix_secs_to_datetime_str(68_169_600, true), "1972-02-29T00:00:00Z");
    assert_eq!(unix_secs_to_datetime_str(951_868_799, false), "2000-02-29 23:59:59");
    assert_eq!(unix_secs_to_datetime_str(951_868_800, false), "2000-03-01 00:00:00");
    assert_eq!(unix_secs_to_datetime_str(4_107_542_400, true), "2100-03-01T00:00:00Z");
    assert_eq!(unix_secs_to_datetime_str(253_402_300_799, true), "9999-12-31T23:59:59Z");
    assert_eq!(unix_secs_to_datetime_str(253_402_300_800, true), "10000-01-01T00:00:00Z");
    assert_eq!(unix_secs_to_datetime_str(u64::MAX, true), "584554051223-11-09T07:00:15Z");
}

#[test]
fn test_timestamps_sort_by_time() {
    let moments: [u64; 10] = [
        0,
        9,
        10,
        59,
        60,
        3_600,
        86_400,
        951_868_799,
        4_107_542_400,
        253_402_300_799,
    ];
    for iso in [false, true] {
        let texts: Vec<String> =
            moments.iter().map(|m| unix_secs_to_datetime_str(*m, iso)).collect();
        assert!(texts.windows(2).all(|w| w[0] < w[1]));
        assert!(texts.iter().all(|t| t.len() == if iso { 20 } else { 19 }));
    }
    for m in moments {
        let plain = unix_secs_to_datetime_str(m, false);
        assert_eq!(unix_secs_to_datetime_str(m, true), format!("{}Z", plain.replace(' ', "T")));
    }
}
