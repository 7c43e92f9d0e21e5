use shp2geojson::convert::{ConversionStats, ConvertOptions};
use shp2geojson::discover::{EntryStatus, ShapefileEntry};
use shp2geojson::error::AppError;
use shp2geojson::interactive::PauseFlag;
use shp2geojson::queue::{Job, JobResult, WorkQueue};
use shp2geojson::worker::{
    default_flags, progress_label, worker_count, worker_loop, workers_for, StringHashSet,
    WorkerEvent, WorkerFlags, WorkerState,
};

fn job(shp: &str) -> Job {
    Job {
        entry: ShapefileEntry {
            shp: shp.to_string(),
            dbf: shp.replace(".shp", ".dbf"),
            shx: shp.replace(".shp", ".shx"),
            prj: None,
            cpg: None,
            status: EntryStatus::Valid,
        },
        output_path: "/tmp/out.geojson".to_string(),
        options: ConvertOptions { geojsonl: false, overwrite: true, reproject_from_prj: None },
    }
}

#[test]
fn test_work_queue_new_channels_are_empty() {
    let queue = WorkQueue::new();
    // Channels start empty — try_recv returns Err(Empty).
    assert!(queue.job_rx.try_recv().is_err());
    assert!(queue.result_rx.try_recv().is_err());
}

#[test]
fn test_work_queue_default_equals_new() {
    // Default must not panic; channels must be usable.
    let queue = WorkQueue::default();
    assert!(queue.job_rx.try_recv().is_err());
    assert!(queue.result_rx.try_recv().is_err());
}

#[test]
fn test_work_queue_ends_are_connected() {
    let queue = WorkQueue::new();
    assert_eq!(queue.job_tx.capacity(), None);
    assert_eq!(queue.result_tx.capacity(), None);
    queue.job_tx.send(job("/data/a.shp")).unwrap();
    queue.job_tx.send(job("/data/b.shp")).unwrap();
    assert_eq!(queue.job_rx.recv().unwrap().entry.shp, "/data/a.shp");
    assert_eq!(queue.job_rx.recv().unwrap().entry.shp, "/data/b.shp");
    queue.result_tx.send(JobResult::Skipped { shp: "/data/a.shp".to_string() }).unwrap();
    assert_eq!(
        queue.result_rx.recv().unwrap(),
        JobResult::Skipped { shp: "/data/a.shp".to_string() }
    );
    drop(queue.job_tx);
    assert!(queue.job_rx.recv().is_err());
}

#[test]
fn test_job_result_failed_carries_shp_and_reason() {
    let result = JobResult::Failed {
        shp: "/data/bad.shp".to_string(),
        reason: "missing .dbf".to_string(),
    };
    match result {
        JobResult::Failed { shp, reason } => {
            assert_eq!(shp, "/data/bad.shp");
            assert_eq!(reason, "missing .dbf");
        }
        JobResult::Done(_) => panic!("expected Failed"),
        JobResult::Skipped { .. } => panic!("expected Failed"),
    }
}

/// Runs a worker over a closed queue of jobs, each of which fails for this reason, and
/// gives the results that it sends.
fn run_worker(flags: &mut WorkerFlags, jobs: Vec<Job>, reason: &str) -> Vec<JobResult> {
    let queue = WorkQueue::new();
    for j in jobs {
        queue.job_tx.send(j).unwrap();
    }
    drop(queue.job_tx);
    let mut state: WorkerState = WorkerState::Polling;
    loop {
        let (next, event) = match state {
            WorkerState::Polling => (WorkerState::Polling, WorkerEvent::Polled),
            WorkerState::Idling => panic!("the run is not paused"),
            WorkerState::Receiving => {
                (WorkerState::Receiving, WorkerEvent::Received(queue.job_rx.recv().ok()))
            }
            WorkerState::Converting(j) => {
                let error = AppError::ShapefileRead {
                    path: j.entry.shp.clone(),
                    source: reason.to_string(),
                };
                (WorkerState::Converting(j), WorkerEvent::Converted(Err(error)))
            }
            WorkerState::Sending(result) => {
                let sent = queue.result_tx.send(result.clone()).is_ok();
                (WorkerState::Sending(result), WorkerEvent::Sent(sent))
            }
            WorkerState::Stopped => break,
        };
        state = worker_loop(flags, next, event);
    }
    drop(queue.result_tx);
    queue.result_rx.iter().collect()
}

#[test]
fn test_worker_loop_exits_on_empty_closed_channel() {
    let mut flags = default_flags("/".to_string());
    assert!(run_worker(&mut flags, vec![], "").is_empty());
}

#[test]
fn test_worker_loop_sends_failed_for_nonexistent_shp() {
    let mut flags = default_flags("/nonexistent".to_string());
    let results = run_worker(&mut flags, vec![job("/nonexistent/file.shp")], "no such file");
    assert_eq!(results.len(), 1);
    match &results[0] {
        JobResult::Failed { shp, reason } => {
            assert_eq!(shp, "/nonexistent/file.shp");
            assert_eq!(
                reason,
                "shapefile read error in /nonexistent/file.shp: no such file"
            );
        }
        JobResult::Done(_) => panic!("expected Failed, got Done"),
        JobResult::Skipped { .. } => panic!("expected Failed, got Skipped"),
    }
}

#[test]
fn test_worker_loop_sends_skipped_for_skip_set_entry() {
    let mut skip_set = StringHashSet::new();
    // Insert the relative path that should be skipped.
    skip_set.insert("sub/file.shp".to_string());
    let mut flags = WorkerFlags::new(PauseFlag::new(), skip_set, "/data".to_string());
    let results = run_worker(&mut flags, vec![job("/data/sub/file.shp")], "");
    assert_eq!(results, vec![JobResult::Skipped { shp: "/data/sub/file.shp".to_string() }]);
}

#[test]
fn test_worker_flags_done_set_after_exit() {
    let mut flags = default_flags("/".to_string());
    assert!(!flags.done);
    run_worker(&mut flags, vec![], "");
    assert!(flags.done, "done flag should be set");
}

#[test]
fn test_worker_sends_one_result_per_job_in_order() {
    let mut flags = default_flags("/data".to_string());
    flags.skip("b.shp".to_string());
    let results = run_worker(
        &mut flags,
        vec![job("/data/a.shp"), job("/data/b.shp"), job("/data/c.shp")],
        "x",
    );
    assert_eq!(results.len(), 3);
    assert!(matches!(&results[0], JobResult::Failed { shp, .. } if shp == "/data/a.shp"));
    assert!(matches!(&results[1], JobResult::Skipped { shp } if shp == "/data/b.shp"));
    assert!(matches!(&results[2], JobResult::Failed { shp, .. } if shp == "/data/c.shp"));
}

#[test]
fn test_paused_worker_idles_and_exits_only_when_resumed() {
    let mut flags = default_flags("/".to_string());
    flags.pause.set_paused();
    flags.exit = true;
    let s = worker_loop(&mut flags, WorkerState::Polling, WorkerEvent::Polled);
    assert_eq!(s, WorkerState::Idling);
    let s = worker_loop(&mut flags, s, WorkerEvent::Woke);
    assert_eq!(s, WorkerState::Polling);
    assert!(!flags.done);
    flags.pause.clear();
    let s = worker_loop(&mut flags, s, WorkerEvent::Polled);
    assert_eq!(s, WorkerState::Stopped);
    assert!(flags.done);
}

#[test]
fn test_worker_sends_statistics_and_stops_when_nobody_listens() {
    let mut flags = default_flags("/data".to_string());
    let stats = || ConversionStats {
        input: "/data/a.shp".to_string(),
        output: "/out/a.geojson".to_string(),
        features_written: 3,
        records_skipped: 1,
        duration_ms: 9,
    };
    let s = worker_loop(
        &mut flags,
        WorkerState::Converting(job("/data/a.shp")),
        WorkerEvent::Converted(Ok(stats())),
    );
    assert_eq!(s, WorkerState::Sending(JobResult::Done(stats())));
    assert_eq!(worker_loop(&mut flags, s, WorkerEvent::Sent(false)), WorkerState::Stopped);
}

#[test]
fn test_should_skip_needs_the_exact_relative_path() {
    let mut flags = default_flags("/data".to_string());
    flags.skip("sub/a.shp".to_string());
    assert!(flags.should_skip("/data/sub/a.shp"));
    assert!(!flags.should_skip("/data/a.shp"));
    assert!(!flags.should_skip("/other/sub/a.shp"));
}

#[test]
fn test_progress_label_is_the_file_name() {
    assert_eq!(progress_label("/data/sub/a.shp"), "a.shp");
    assert_eq!(progress_label("/data/sub/.."), "/data/sub/..");
    assert_eq!(progress_label("/"), "/");
}

#[test]
fn test_worker_count_follows_the_request_and_the_machine() {
    assert_eq!(workers_for(Some(5), 8), 5);
    assert_eq!(workers_for(Some(0), 8), 1);
    assert_eq!(workers_for(None, 8), 8);
    assert_eq!(workers_for(None, 0), 1);
    assert_eq!(worker_count(Some(3)), 3);
    assert_eq!(worker_count(None), num_cpus::get().max(1));
}
