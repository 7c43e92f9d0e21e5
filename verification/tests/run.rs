use shp2geojson::batch::{on_interrupt, Batch, Interrupt};
use shp2geojson::checkpoint::CheckpointState;
use shp2geojson::commands::count_active;
use shp2geojson::config::{HooksConfig, RunSettings};
use shp2geojson::convert::ConversionStats;
use shp2geojson::discover::{discover, DiscoveryReport, FoundFile};
use shp2geojson::effects::{save_warning, Effect};
use shp2geojson::error::AppError;
use shp2geojson::interactive::SlashCommand;
use shp2geojson::output::{LogLevel, OutputEvent};
use shp2geojson::plan::{plan, prepare_resume, RunContext};
use shp2geojson::queue::JobResult;

fn s(t: &str) -> String {
    t.to_string()
}

fn context(resume: bool) -> RunContext {
    RunContext {
        input: s("/in"),
        output_root: s("/out"),
        resume,
        settings: RunSettings {
            geojsonl: false,
            overwrite: true,
            reproject: true,
            jobs: None,
            log_path: s("/out/conversion_errors.log"),
        },
        hooks: None,
    }
}

fn with_hooks(hooks: HooksConfig) -> RunContext {
    let mut ctx = context(false);
    ctx.hooks = Some(hooks);
    ctx
}

fn checkpoint() -> CheckpointState {
    CheckpointState::new(s("deadbeef"), s("2026-03-09T00:00:00Z"), s("/in"), s("/out"))
}

fn found(path: &str, complete: bool, prj: bool) -> FoundFile {
    FoundFile { path: s(path), size: 100, dbf: complete, shx: true, prj, cpg: false }
}

fn report() -> DiscoveryReport {
    discover(&vec![
        found("/in/a.shp", true, true),
        found("/in/bad.shp", false, true),
        found("/in/sub/c.shp", true, false),
        found("/elsewhere/d.shp", true, true),
    ])
}

fn start() -> Effect {
    Effect::Emit(OutputEvent::Start { total_files: 4, total_bytes: 300, timestamp: s("now") })
}

fn print(text: &str) -> Effect {
    Effect::Print(s(text))
}

// ── Planning ────────────────────────────────────────────────────────────────

#[test]
fn test_plan_of_a_fresh_run() {
    let mut cp = checkpoint();
    let p = plan(&context(false), &report(), &mut cp, s("now"));
    let lost = "GeoJSON serialisation error in /elsewhere/d.shp: could not make /elsewhere/d.shp relative to /in";
    assert_eq!(
        p.effects,
        vec![
            start(),
            Effect::Log {
                level: LogLevel::Invalid,
                shp: s("/in/bad.shp"),
                reason: s("missing sidecar(s): .dbf")
            },
            Effect::Emit(OutputEvent::FileFailed {
                file: s("/in/bad.shp"),
                reason: s("missing sidecar(s): .dbf")
            }),
            Effect::Log {
                level: LogLevel::Warn,
                shp: s("/in/sub/c.shp"),
                reason: s("no .prj found, CRS unknown, coordinates passed through unchanged")
            },
            Effect::Warn(s(
                "could not relativize path, skipping checkpoint entry: /elsewhere/d.shp"
            )),
            Effect::Log { level: LogLevel::Failed, shp: s("/elsewhere/d.shp"), reason: s(lost) },
            Effect::Emit(OutputEvent::FileFailed {
                file: s("/elsewhere/d.shp"),
                reason: s(lost)
            }),
            Effect::SaveCheckpoint { aloud: false },
        ]
    );
    assert_eq!(p.failed, 2);
    assert_eq!(p.jobs.len(), 2);
    assert_eq!(p.jobs[0].entry.shp, "/in/a.shp");
    assert_eq!(p.jobs[0].output_path, "/out/a.geojson");
    assert_eq!(p.jobs[0].options.reproject_from_prj.as_deref(), Some("/in/a.prj"));
    assert!(p.jobs[0].options.overwrite);
    assert_eq!(p.jobs[1].output_path, "/out/sub/c.geojson");
    assert_eq!(p.jobs[1].options.reproject_from_prj, None);
    assert_eq!(cp.pending, vec![s("a.shp"), s("sub/c.shp")]);
}

#[test]
fn test_plan_of_a_resumed_run_skips_what_is_done() {
    let mut cp = checkpoint();
    cp.done.push(s("a.shp"));
    let p = plan(&context(true), &report(), &mut cp, s("now"));
    assert_eq!(p.jobs.len(), 1);
    assert_eq!(p.jobs[0].entry.shp, "/in/sub/c.shp");
    assert_eq!(
        p.effects[3],
        Effect::Emit(OutputEvent::FileSkipped {
            file: s("/in/a.shp"),
            reason: s("already completed in previous run")
        })
    );
    assert_eq!(
        p.effects[4],
        Effect::Log {
            level: LogLevel::Skipped,
            shp: s("/in/a.shp"),
            reason: s("output exists, --resume active")
        }
    );
    // Without --resume, what is done makes no difference.
    let p = plan(&context(false), &report(), &mut cp, s("now"));
    assert_eq!(p.jobs.len(), 2);
}

#[test]
fn test_plan_without_reprojection_reads_no_prj() {
    let mut ctx = context(false);
    ctx.settings.reproject = false;
    ctx.settings.geojsonl = true;
    let mut cp = checkpoint();
    let p = plan(&ctx, &report(), &mut cp, s("now"));
    assert!(p.jobs.iter().all(|j| j.options.reproject_from_prj.is_none()));
    assert_eq!(p.jobs[0].output_path, "/out/a.geojsonl");
    assert!(!p.effects.iter().any(|e| matches!(e, Effect::Log { level: LogLevel::Warn, .. })));
}

#[test]
fn test_resuming_clears_what_failed() {
    let mut cp = checkpoint();
    cp.failed.push(s("x.shp"));
    cp.failed.push(s("sub/y.shp"));
    cp.done.push(s("a.shp"));
    let effects = prepare_resume(&context(true), &mut cp);
    assert_eq!(
        effects,
        vec![
            Effect::RemoveFile(s("/out/x.geojson")),
            Effect::RemoveFile(s("/out/x.geojson.tmp")),
            Effect::RemoveFile(s("/out/sub/y.geojson")),
            Effect::RemoveFile(s("/out/sub/y.geojson.tmp")),
        ]
    );
    assert!(cp.failed.is_empty());
    assert_eq!(cp.done, vec![s("a.shp")]);
}

#[test]
fn test_resuming_removes_what_interrupted_jobs_left() {
    let mut cp = checkpoint();
    cp.failed.push(s("x.shp"));
    cp.pending.push(s("a.shp"));
    cp.pending.push(s("sub/c.shp"));
    let effects = prepare_resume(&context(true), &mut cp);
    assert_eq!(
        effects,
        vec![
            Effect::RemoveFile(s("/out/x.geojson")),
            Effect::RemoveFile(s("/out/x.geojson.tmp")),
            Effect::RemoveFile(s("/out/a.geojson.tmp")),
            Effect::RemoveFile(s("/out/sub/c.geojson.tmp")),
        ]
    );
}

#[test]
fn test_resuming_records_each_pending_file_once() {
    let mut cp = checkpoint();
    let first = plan(&context(false), &report(), &mut cp, s("now"));
    assert_eq!(first.jobs.len(), 2);
    // Interrupted before any job was done.
    prepare_resume(&context(true), &mut cp);
    let second = plan(&context(true), &report(), &mut cp, s("later"));
    assert_eq!(second.jobs.len(), 2);
    assert_eq!(cp.pending, vec![s("a.shp"), s("sub/c.shp")]);
    // A file that is gone since is no longer pending.
    cp.pending.push(s("gone.shp"));
    plan(&context(true), &report(), &mut cp, s("later still"));
    assert_eq!(cp.pending, vec![s("a.shp"), s("sub/c.shp")]);
}

#[test]
fn test_resuming_warns_of_another_input_root() {
    let mut cp = checkpoint();
    cp.input_root = s("/in/./");
    assert!(prepare_resume(&context(true), &mut cp).is_empty());
    cp.input_root = s("/data");
    assert_eq!(
        prepare_resume(&context(true), &mut cp),
        vec![Effect::Warn(s(
            "--resume: checkpoint input_root differs from --input; done-file lookup may be incorrect checkpoint_root=/data cli_input=/in"
        ))]
    );
}

// ── Results ─────────────────────────────────────────────────────────────────

fn batch(pending: &[&str]) -> Batch {
    let mut cp = checkpoint();
    for p in pending {
        cp.pending.push(s(p));
    }
    Batch::new(cp, 1, pending.len() as u64)
}

fn stats() -> ConversionStats {
    ConversionStats {
        input: s("/in/a.shp"),
        output: s("/out/a.geojson"),
        features_written: 5,
        records_skipped: 1,
        duration_ms: 42,
    }
}

#[test]
fn test_converted_file_is_recorded_and_announced() {
    let ctx = with_hooks(HooksConfig {
        on_file_complete: Some(s("echo {{file}} {{output}} {{features}} {{duration_ms}}")),
        on_file_failed: None,
        on_batch_done: None,
        on_pause: None,
    });
    let mut b = batch(&["a.shp", "b.shp"]);
    assert!(b.can_count(Some(100)));
    let effects = b.on_result(&ctx, JobResult::Done(stats()), Some(100));
    assert_eq!(
        effects,
        vec![
            Effect::AdvanceProgress,
            Effect::Emit(OutputEvent::FileDone {
                file: s("/in/a.shp"),
                output: s("/out/a.geojson"),
                duration_ms: 42,
                features: 5
            }),
            Effect::RunHook {
                name: s("on_file_complete"),
                command: s("echo '/in/a.shp' '/out/a.geojson' '5' '42'")
            },
            Effect::SaveCheckpoint { aloud: false },
        ]
    );
    assert_eq!((b.converted, b.failed, b.results_received), (1, 1, 1));
    assert_eq!(b.bytes_processed, 100);
    assert_eq!(b.checkpoint.done, vec![s("a.shp")]);
    assert_eq!(b.checkpoint.pending, vec![s("b.shp")]);
    assert!(!b.all_results_in());
    b.on_result(&ctx, JobResult::Skipped { shp: s("/in/b.shp") }, None);
    assert!(b.all_results_in());
}

#[test]
fn test_failed_file_is_recorded_and_announced() {
    let ctx = with_hooks(HooksConfig {
        on_file_complete: None,
        on_file_failed: Some(s("echo {{file}}: {{reason}}")),
        on_batch_done: None,
        on_pause: None,
    });
    let mut b = batch(&["a.shp"]);
    let effects = b.on_result(
        &ctx,
        JobResult::Failed { shp: s("/in/a.shp"), reason: s("it's broken") },
        None,
    );
    assert_eq!(
        effects,
        vec![
            Effect::Log {
                level: LogLevel::Failed,
                shp: s("/in/a.shp"),
                reason: s("it's broken")
            },
            Effect::Emit(OutputEvent::FileFailed {
                file: s("/in/a.shp"),
                reason: s("it's broken")
            }),
            Effect::RunHook {
                name: s("on_file_failed"),
                command: s("echo '/in/a.shp': 'it'\\''s broken'")
            },
            Effect::SaveCheckpoint { aloud: false },
        ]
    );
    assert_eq!((b.converted, b.failed, b.results_received), (0, 2, 1));
    assert_eq!(b.checkpoint.failed, vec![s("a.shp")]);
    assert!(b.checkpoint.pending.is_empty());
}

#[test]
fn test_resumed_run_retries_failures_and_skips_successes() {
    let mut cp = checkpoint();
    let first = plan(&context(false), &report(), &mut cp, s("now"));
    let mut b = Batch::new(cp, first.failed, first.jobs.len() as u64);
    b.on_result(&context(false), JobResult::Done(stats()), None);
    b.on_result(
        &context(false),
        JobResult::Failed { shp: s("/in/sub/c.shp"), reason: s("eof") },
        None,
    );
    let mut cp = b.checkpoint;
    assert_eq!(cp.failed, vec![s("sub/c.shp")]);
    prepare_resume(&context(true), &mut cp);
    let second = plan(&context(true), &report(), &mut cp, s("later"));
    assert_eq!(second.jobs.len(), 1);
    assert_eq!(second.jobs[0].entry.shp, "/in/sub/c.shp");
}

#[test]
fn test_skipped_file_only_advances_progress() {
    let mut b = batch(&["a.shp"]);
    let effects =
        b.on_result(&context(false), JobResult::Skipped { shp: s("/in/a.shp") }, Some(7));
    assert_eq!(effects, vec![Effect::AdvanceProgress]);
    assert_eq!((b.converted, b.failed, b.bytes_processed), (0, 1, 0));
}

#[test]
fn test_counters_say_when_they_are_full() {
    let mut b = batch(&["a.shp"]);
    b.bytes_processed = u64::MAX - 5;
    assert!(b.can_count(Some(5)));
    assert!(!b.can_count(Some(6)));
    assert!(b.can_count(None));
    b.failed = u64::MAX;
    assert!(!b.can_count(None));
}

#[test]
fn test_run_is_over_when_no_worker_is_left() {
    let mut b = batch(&["a.shp", "b.shp"]);
    assert!(!b.is_over(&vec![true, false], false));
    assert!(!b.is_over(&vec![true, true], true));
    assert!(b.is_over(&vec![true, true], false));
    b.results_received = 2;
    assert!(b.is_over(&vec![false, false], true));
    assert!(batch(&[]).is_over(&vec![false], false));
}

// ── Signals ─────────────────────────────────────────────────────────────────

#[test]
fn test_interrupt_stops_the_active_workers_once() {
    let mut b = batch(&["a.shp"]);
    let done = vec![false, true, false];
    assert!(b.on_tick(false, &done).is_empty());
    assert_eq!(
        b.on_tick(true, &done),
        vec![
            Effect::SignalExit(0),
            Effect::SignalExit(2),
            Effect::SaveCheckpoint { aloud: false },
        ]
    );
    assert!(b.quit_requested);
    assert!(b.on_tick(true, &done).is_empty());
    assert_eq!(on_interrupt(false), Interrupt::Drain);
    assert_eq!(on_interrupt(true), Interrupt::ExitNow);
    b.pause.set_paused();
    b.drain();
    assert!(!b.pause.is_paused());
}

#[test]
fn test_save_warnings() {
    let e = AppError::Checkpoint { reason: s("full") };
    assert_eq!(save_warning(&e, true), "warning: checkpoint save failed: checkpoint error: full");
    assert_eq!(save_warning(&e, false), "checkpoint save failed: checkpoint error: full");
}

#[test]
fn test_end_of_a_run() {
    let ctx = with_hooks(HooksConfig {
        on_file_complete: None,
        on_file_failed: None,
        on_batch_done: Some(s(
            "{{converted}} {{failed}} {{elapsed_s}} {{gb_processed}} {{summary_json}}",
        )),
        on_pause: None,
    });
    let mut b = batch(&[]);
    b.converted = 3;
    b.bytes_processed = 1_610_612_736;
    assert_eq!(
        b.finish(&ctx, "2.5", "{}"),
        vec![
            Effect::RunHook { name: s("on_batch_done"), command: s("'3' '1' '2.5' '1.500' '{}'") },
            Effect::Emit(OutputEvent::BatchDone {
                converted: 3,
                failed: 1,
                elapsed_s: s("2.5"),
                gb_processed: s("1.500")
            }),
        ]
    );
}

// ── Commands ────────────────────────────────────────────────────────────────

fn command(b: &mut Batch, cmd: SlashCommand, done: Vec<bool>) -> Vec<Effect> {
    b.handle_slash_command(&context(false), cmd, &done, "1.5s", None)
}

#[test]
fn test_status_command() {
    let mut b = batch(&["a.shp", "b.shp"]);
    b.converted = 7;
    assert_eq!(
        command(&mut b, SlashCommand::Status, vec![false, true, false]),
        vec![print(
            "  \x1b[38;5;78m✓ 7\x1b[0m done  \x1b[38;5;203m✗ 1\x1b[0m failed  \x1b[38;5;80m⧖ 2\x1b[0m pending\n  \x1b[38;5;69mworkers:\x1b[0m 2 active  \x1b[38;5;103m1.5s elapsed\x1b[0m"
        )]
    );
}

#[test]
fn test_pause_and_resume_commands() {
    let ctx = with_hooks(HooksConfig {
        on_file_complete: None,
        on_file_failed: None,
        on_batch_done: None,
        on_pause: Some(s("echo paused {{file}}")),
    });
    let mut b = batch(&["a.shp"]);
    assert_eq!(
        command(&mut b, SlashCommand::Resume, vec![]),
        vec![print("Not paused.")]
    );
    assert_eq!(
        b.handle_slash_command(&ctx, SlashCommand::Pause, &vec![], "", None),
        vec![
            Effect::SetPaused(true),
            Effect::SaveCheckpoint { aloud: true },
            Effect::RunHook { name: s("on_pause"), command: s("echo paused {{file}}") },
            print("Paused. Workers will idle after current file. Type /resume to continue."),
            Effect::Emit(OutputEvent::Paused { converted: 0, failed: 1, pending: 1 }),
        ]
    );
    assert!(b.pause.is_paused());
    assert_eq!(
        command(&mut b, SlashCommand::Resume, vec![]),
        vec![
            Effect::SetPaused(false),
            print("Resuming workers."),
            Effect::Emit(OutputEvent::Resumed),
        ]
    );
    assert!(!b.pause.is_paused());
}

#[test]
fn test_workers_command_scales_up_and_down() {
    let mut b = batch(&["a.shp"]);
    assert_eq!(count_active(&vec![false, true, false, false]), 3);
    assert_eq!(
        command(&mut b, SlashCommand::Workers(5), vec![false, true, false]),
        vec![
            Effect::SpawnWorkers(3),
            print("Workers: 2 → 5"),
            Effect::Emit(OutputEvent::WorkersChanged { from: 2, to: 5 }),
        ]
    );
    assert_eq!(
        command(&mut b, SlashCommand::Workers(0), vec![false, false, true, false]),
        vec![
            Effect::SignalExit(3),
            Effect::SignalExit(1),
            print("Workers: 3 → 1"),
            Effect::Emit(OutputEvent::WorkersChanged { from: 3, to: 1 }),
        ]
    );
    assert_eq!(
        command(&mut b, SlashCommand::Workers(2), vec![false, false]),
        vec![
            print("Workers: 2 → 2"),
            Effect::Emit(OutputEvent::WorkersChanged { from: 2, to: 2 }),
        ]
    );
}

#[test]
fn test_skip_command() {
    let mut b = batch(&["x/a.shp", "y/a.shp", "b.shp"]);
    assert_eq!(
        command(&mut b, SlashCommand::Skip(s(" a.shp ")), vec![]),
        vec![
            Effect::SkipFile(s("x/a.shp")),
            Effect::SaveCheckpoint { aloud: true },
            Effect::Log {
                level: LogLevel::Skipped,
                shp: s("/in/x/a.shp"),
                reason: s("user /skip command")
            },
            print("  skipped: x/a.shp"),
            Effect::Emit(OutputEvent::FileSkippedByUser { file: s("x/a.shp") }),
        ]
    );
    assert_eq!(b.checkpoint.pending, vec![s("y/a.shp"), s("b.shp")]);
    assert_eq!(
        command(&mut b, SlashCommand::Skip(s("z.shp")), vec![]),
        vec![print("  not found in pending queue: z.shp")]
    );
    assert_eq!(b.checkpoint.pending.len(), 2);
}

#[test]
fn test_log_command_shows_the_last_lines() {
    let mut b = batch(&[]);
    let ctx = context(false);
    assert_eq!(
        b.handle_slash_command(&ctx, SlashCommand::Log, &vec![], "", None),
        vec![print("  error log not found")]
    );
    let mut log = String::new();
    for i in 0..25 {
        log.push_str(&format!("line {i}\r\n"));
    }
    log.push_str("tail");
    let effects = b.handle_slash_command(&ctx, SlashCommand::Log, &vec![], "", Some(log));
    assert_eq!(effects.len(), 22);
    assert_eq!(effects[0], print("── error log (last 20 lines) ──────────────────────"));
    assert_eq!(effects[1], print("  line 6"));
    assert_eq!(effects[19], print("  line 24"));
    assert_eq!(effects[20], print("  tail"));
    assert_eq!(effects[21], print("────────────────────────────────────────────────────"));
    let few = b.handle_slash_command(&ctx, SlashCommand::Log, &vec![], "", Some(s("\na\n\r\n")));
    assert_eq!(few.len(), 5);
    assert_eq!(few[1..4], [print("  "), print("  a"), print("  ")]);
}

#[test]
fn test_dry_run_command_lists_pending_files() {
    let mut b = batch(&["a.shp", "b.shp"]);
    assert_eq!(
        command(&mut b, SlashCommand::DryRun, vec![]),
        vec![
            print("── Remaining pending (2) ──"),
            print("  pending  a.shp"),
            print("  pending  b.shp"),
            print("────────────────────────────────────────────────────"),
        ]
    );
}

#[test]
fn test_quit_and_help_commands() {
    let mut b = batch(&["a.shp"]);
    b.pause.set_paused();
    assert_eq!(
        command(&mut b, SlashCommand::Quit, vec![true, false]),
        vec![
            Effect::SetPaused(false),
            Effect::SignalExit(0),
            Effect::SignalExit(1),
            Effect::SaveCheckpoint { aloud: true },
            print("Saving checkpoint and exiting after in-flight files complete..."),
        ]
    );
    assert!(!b.pause.is_paused());
    assert!(command(&mut b, SlashCommand::Help, vec![]).is_empty());
}
