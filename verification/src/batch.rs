//! The run itself: what each result, command and signal leads to.
use vstd::hash_map::StringHashMap;
use vstd::prelude::*;
use vstd::string::*;

use crate::checkpoint::{
    law_mark_done, law_mark_failed, law_marking_keeps_the_others, marked_done, marked_failed,
    relative_shp_path, CheckpointModel, CheckpointState,
};
use crate::commands::{
    active, count_active, law_active_workers_are_stopped, push_stop_active, stop_active,
};
use crate::config::HooksConfig;
use crate::convert::ConversionStats;
use crate::discover::EntryModel;
use crate::effects::{effects_view, hook_effect, push_effect, push_hook, Effect, EffectModel};
use crate::hooks::{substituted, values_of};
use crate::interactive::{all_digits, number_of, PauseFlag};
use crate::output::{format_gigabytes, thousandths_text, LogLevel, OutputEvent, GB};
use crate::paths::remainder;
use crate::plan::{
    jobs_of, law_completed_files_are_not_redone, law_files_not_done_are_tried, relative_of,
    RunContext,
};
use crate::queue::JobResult;
use crate::text::{decimal, decimal_text, law_decimal_stands_for_the_number};

verus! {

/// Where a run stands.
#[derive(Debug, PartialEq, Eq)]
pub struct Batch<C = CheckpointState, P = PauseFlag> {
    pub checkpoint: C,
    /// Whether the workers are to pause.
    pub pause: P,
    /// Number of files converted.
    pub converted: u64,
    /// Number of files that failed.
    pub failed: u64,
    /// Sum of the sizes of the files that were converted (bytes).
    pub bytes_processed: u64,
    /// Number of jobs that were dispatched.
    pub jobs_enqueued: u64,
    /// Number of results that came back.
    pub results_received: u64,
    /// The user has interrupted the run, and the workers know.
    pub quit_requested: bool,
}

/// Where a run stands, as mathematical values.
pub type BatchModel = Batch<CheckpointModel, bool>;

impl View for Batch {
    type V = BatchModel;

    open spec fn view(&self) -> BatchModel {
        Batch {
            checkpoint: self.checkpoint@,
            pause: self.pause.spec_paused(),
            converted: self.converted,
            failed: self.failed,
            bytes_processed: self.bytes_processed,
            jobs_enqueued: self.jobs_enqueued,
            results_received: self.results_received,
            quit_requested: self.quit_requested,
        }
    }
}

// ── Results ─────────────────────────────────────────────────────────────────
/// The values that the hook on a converted file can use.
pub open spec fn done_vars(stats: ConversionStats<Seq<char>>) -> Map<Seq<char>, Seq<char>> {
    Map::empty().insert("file"@, stats.input).insert("output"@, stats.output).insert(
        "features"@,
        decimal(stats.features_written as nat),
    ).insert("duration_ms"@, decimal(stats.duration_ms as nat))
}

/// The values that the hook on a failed file can use.
pub open spec fn failed_vars(shp: Seq<char>, reason: Seq<char>) -> Map<Seq<char>, Seq<char>> {
    Map::empty().insert("file"@, shp).insert("reason"@, reason)
}

/// The checkpoint is saved after a file that it can record.
pub open spec fn save_for(ctx: &RunContext, shp: Seq<char>) -> Seq<EffectModel> {
    if remainder(shp, ctx.input@) is Some {
        seq![Effect::SaveCheckpoint { aloud: false }]
    } else {
        Seq::empty()
    }
}

/// What to do about a result.
pub open spec fn result_effects(ctx: &RunContext, result: JobResult<Seq<char>>) -> Seq<EffectModel> {
    match result {
        JobResult::Done(stats) => seq![
            Effect::AdvanceProgress,
            Effect::Emit(
                OutputEvent::FileDone {
                    file: stats.input,
                    output: stats.output,
                    duration_ms: (stats.duration_ms % 0x1_0000_0000_0000_0000) as u64,
                    features: stats.features_written,
                },
            ),
        ] + hook_effect(ctx.hooks, "on_file_complete"@, done_vars(stats)) + save_for(
            ctx,
            stats.input,
        ),
        JobResult::Failed { shp, reason } => seq![
            Effect::Log { level: LogLevel::Failed, shp, reason },
            Effect::Emit(OutputEvent::FileFailed { file: shp, reason }),
        ] + hook_effect(ctx.hooks, "on_file_failed"@, failed_vars(shp, reason)) + save_for(
            ctx,
            shp,
        ),
        JobResult::Skipped { shp: _ } => seq![Effect::AdvanceProgress],
    }
}

/// Where a run stands after a result. `size` is that of the source file, where it is
/// known.
pub open spec fn after_result(
    ctx: &RunContext,
    b: BatchModel,
    result: JobResult<Seq<char>>,
    size: Option<u64>,
) -> BatchModel {
    let results_received = (b.results_received + 1) as u64;
    match result {
        JobResult::Done(stats) => Batch {
            results_received,
            converted: (b.converted + 1) as u64,
            bytes_processed: (b.bytes_processed + match size {
                Some(n) => n,
                None => 0,
            }) as u64,
            checkpoint: match remainder(stats.input, ctx.input@) {
                Some(rel) => marked_done(b.checkpoint, rel),
                None => b.checkpoint,
            },
            ..b
        },
        JobResult::Failed { shp, reason: _ } => Batch {
            results_received,
            failed: (b.failed + 1) as u64,
            checkpoint: match remainder(shp, ctx.input@) {
                Some(rel) => marked_failed(b.checkpoint, rel),
                None => b.checkpoint,
            },
            ..b
        },
        JobResult::Skipped { shp: _ } => Batch { results_received, ..b },
    }
}

/// The counters have room for one more result, on a file of this size.
pub open spec fn has_room(b: BatchModel, size: Option<u64>) -> bool {
    &&& b.results_received < u64::MAX
    &&& b.converted < u64::MAX
    &&& b.failed < u64::MAX
    &&& (size matches Some(n) ==> b.bytes_processed + n <= u64::MAX)
}

/// All results are in.
pub open spec fn is_complete(b: BatchModel) -> bool {
    b.results_received >= b.jobs_enqueued
}

proof fn lemma_values_insert(m: Map<Seq<char>, String>, k: Seq<char>, v: String)
    ensures
        m.insert(k, v).map_values(|s: String| s@) == m.map_values(|s: String| s@).insert(k, v@),
{
    assert(m.insert(k, v).map_values(|s: String| s@) =~= m.map_values(|s: String| s@).insert(
        k,
        v@,
    ));
}

fn set_var(vars: &mut StringHashMap<String>, key: &str, value: String)
    ensures
        values_of(final(vars)) == values_of(old(vars)).insert(key@, value@),
{
    proof {
        lemma_values_insert(vars@, key@, value);
    }
    vars.insert(String::from_str(key), value);
}

pub(crate) fn no_vars() -> (r: StringHashMap<String>)
    ensures
        values_of(&r) == Map::<Seq<char>, Seq<char>>::empty(),
{
    let r = StringHashMap::new();
    assert(values_of(&r) =~= Map::<Seq<char>, Seq<char>>::empty());
    r
}

impl Batch {
    /// A run that is about to begin, with so many jobs dispatched and so many files
    /// failed before.
    pub fn new(checkpoint: CheckpointState, failed: u64, jobs_enqueued: u64) -> (r: Self)
        ensures
            r@ == (Batch {
                checkpoint: checkpoint@,
                pause: false,
                converted: 0,
                failed,
                bytes_processed: 0,
                jobs_enqueued,
                results_received: 0,
                quit_requested: false,
            }),
    {
        Batch {
            checkpoint,
            pause: PauseFlag::new(),
            converted: 0,
            failed,
            bytes_processed: 0,
            jobs_enqueued,
            results_received: 0,
            quit_requested: false,
        }
    }

    /// Whether the counters have room for one more result, on a file of this size.
    pub fn can_count(&self, size: Option<u64>) -> (r: bool)
        ensures
            r == has_room(self@, size),
    {
        self.results_received < u64::MAX && self.converted < u64::MAX && self.failed < u64::MAX
            && match size {
            Some(n) => self.bytes_processed <= u64::MAX - n,
            None => true,
        }
    }

    /// Whether all results are in.
    pub fn all_results_in(&self) -> (r: bool)
        ensures
            r == is_complete(self@),
    {
        self.results_received >= self.jobs_enqueued
    }

    fn on_done(&mut self, ctx: &RunContext, stats: ConversionStats, size: Option<u64>) -> (r: Vec<
        Effect,
    >)
        requires
            has_room(old(self)@, size),
        ensures
            final(self)@ == after_result(ctx, old(self)@, JobResult::Done(stats@), size),
            effects_view(r@) == result_effects(ctx, JobResult::Done(stats@)),
    {
        self.results_received = self.results_received + 1;
        self.converted = self.converted + 1;
        match size {
            Some(n) => {
                self.bytes_processed = self.bytes_processed + n;
            },
            None => {},
        }
        let mut out: Vec<Effect> = Vec::new();
        push_effect(&mut out, Effect::AdvanceProgress);
        push_effect(
            &mut out,
            Effect::Emit(
                OutputEvent::FileDone {
                    file: stats.input.clone(),
                    output: stats.output.clone(),
                    duration_ms: (stats.duration_ms % 0x1_0000_0000_0000_0000) as u64,
                    features: stats.features_written,
                },
            ),
        );
        let mut vars = no_vars();
        set_var(&mut vars, "file", stats.input.clone());
        set_var(&mut vars, "output", stats.output.clone());
        set_var(&mut vars, "features", decimal_text(stats.features_written as u128));
        set_var(&mut vars, "duration_ms", decimal_text(stats.duration_ms));
        push_hook(&mut out, &ctx.hooks, "on_file_complete", &vars);
        match relative_shp_path(stats.input.as_str(), ctx.input.as_str()) {
            Some(rel) => {
                self.checkpoint.mark_done(rel.as_str());
                push_effect(&mut out, Effect::SaveCheckpoint { aloud: false });
            },
            None => {},
        }
        assert(effects_view(out@) =~= result_effects(ctx, JobResult::Done(stats@)));
        out
    }

    fn on_failed(&mut self, ctx: &RunContext, shp: String, reason: String) -> (r: Vec<Effect>)
        requires
            has_room(old(self)@, None),
        ensures
            final(self)@ == after_result(
                ctx,
                old(self)@,
                JobResult::Failed { shp: shp@, reason: reason@ },
                None,
            ),
            effects_view(r@) == result_effects(
                ctx,
                JobResult::Failed { shp: shp@, reason: reason@ },
            ),
    {
        self.results_received = self.results_received + 1;
        self.failed = self.failed + 1;
        let mut out: Vec<Effect> = Vec::new();
        push_effect(
            &mut out,
            Effect::Log { level: LogLevel::Failed, shp: shp.clone(), reason: reason.clone() },
        );
        push_effect(
            &mut out,
            Effect::Emit(OutputEvent::FileFailed { file: shp.clone(), reason: reason.clone() }),
        );
        let mut vars = no_vars();
        set_var(&mut vars, "file", shp.clone());
        set_var(&mut vars, "reason", reason.clone());
        push_hook(&mut out, &ctx.hooks, "on_file_failed", &vars);
        match relative_shp_path(shp.as_str(), ctx.input.as_str()) {
            Some(rel) => {
                self.checkpoint.mark_failed(rel.as_str());
                push_effect(&mut out, Effect::SaveCheckpoint { aloud: false });
            },
            None => {},
        }
        assert(effects_view(out@) =~= result_effects(
            ctx,
            JobResult::Failed { shp: shp@, reason: reason@ },
        ));
        out
    }

    /// Takes a result in, and says what to do about it. `size` is that of the source
    /// file, where it is known.
    ///
    /// The checkpoint is updated after each file that was converted or failed. A file
    /// that was skipped was taken out of it by the command to skip it.
    pub fn on_result(&mut self, ctx: &RunContext, result: JobResult, size: Option<u64>) -> (r: Vec<
        Effect,
    >)
        requires
            has_room(old(self)@, size),
        ensures
            final(self)@ == after_result(ctx, old(self)@, result@, size),
            effects_view(r@) == result_effects(ctx, result@),
    {
        match result {
            JobResult::Done(stats) => self.on_done(ctx, stats, size),
            JobResult::Failed { shp, reason } => self.on_failed(ctx, shp, reason),
            JobResult::Skipped { shp: _ } => {
                self.results_received = self.results_received + 1;
                let mut out: Vec<Effect> = Vec::new();
                push_effect(&mut out, Effect::AdvanceProgress);
                assert(effects_view(out@) =~= seq![Effect::<Seq<char>>::AdvanceProgress]);
                out
            },
        }
    }
}

// ── Signals ─────────────────────────────────────────────────────────────────
/// What to do at a tick of the clock. The first time that the user is seen to have
/// interrupted the run, the workers that are not done are told to exit, and the
/// checkpoint is saved.
pub open spec fn tick_effects(b: BatchModel, interrupted: bool, done: Seq<bool>) -> Seq<
    EffectModel,
> {
    if interrupted && !b.quit_requested {
        stop_active(done).push(Effect::SaveCheckpoint { aloud: false })
    } else {
        Seq::empty()
    }
}

/// What an interrupt from the keyboard leads to.
#[derive(Debug, Clone, Copy, PartialEq, Eq, Structural)]
pub enum Interrupt {
    /// The first: the workers go on, so that they can drain and exit.
    Drain,
    /// Any other: the process exits at once.
    ExitNow,
}

/// What an interrupt from the keyboard leads to, given whether it is the first.
pub fn on_interrupt(interrupted_before: bool) -> (r: Interrupt)
    ensures
        r == (if interrupted_before {
            Interrupt::ExitNow
        } else {
            Interrupt::Drain
        }),
{
    if interrupted_before {
        Interrupt::ExitNow
    } else {
        Interrupt::Drain
    }
}

impl Batch {
    /// Takes notice of a tick of the clock. `interrupted` says whether the user has
    /// interrupted the run, and `done` of each worker whether it is done.
    pub fn on_tick(&mut self, interrupted: bool, done: &Vec<bool>) -> (r: Vec<Effect>)
        ensures
            final(self)@ == (Batch {
                quit_requested: old(self)@.quit_requested || interrupted,
                ..old(self)@
            }),
            effects_view(r@) == tick_effects(old(self)@, interrupted, done@),
    {
        let mut out: Vec<Effect> = Vec::new();
        if interrupted && !self.quit_requested {
            self.quit_requested = true;
            push_stop_active(&mut out, done);
            push_effect(&mut out, Effect::SaveCheckpoint { aloud: false });
        }
        assert(effects_view(out@) =~= tick_effects(old(self)@, interrupted, done@));
        out
    }

    /// Lets the workers go on, so that they can drain and exit.
    pub fn drain(&mut self)
        ensures
            final(self)@ == (Batch { pause: false, ..old(self)@ }),
    {
        self.pause.clear();
    }

    /// Whether the run is over: all results are in, or no worker is left that could
    /// send one and none is waiting to be received.
    pub fn is_over(&self, done: &Vec<bool>, results_waiting: bool) -> (r: bool)
        ensures
            r == (is_complete(self@) || (active(done@) == 0 && !results_waiting)),
    {
        self.all_results_in() || (count_active(done) == 0 && !results_waiting)
    }
}

// ── The end ─────────────────────────────────────────────────────────────────
/// The values that the hook on the end of a run can use.
pub open spec fn batch_vars(b: BatchModel, elapsed_s: Seq<char>, summary: Seq<char>) -> Map<
    Seq<char>,
    Seq<char>,
> {
    Map::empty().insert("converted"@, decimal(b.converted as nat)).insert(
        "failed"@,
        decimal(b.failed as nat),
    ).insert("elapsed_s"@, elapsed_s).insert(
        "gb_processed"@,
        thousandths_text(b.bytes_processed as nat, GB as nat),
    ).insert("summary_json"@, summary)
}

impl Batch {
    /// What to do at the end of a run: fire the hook on it, and announce it.
    /// `elapsed_s` is the time that it took, in seconds to one decimal, and `summary`
    /// what the hook is given as the summary.
    pub fn finish(&self, ctx: &RunContext, elapsed_s: &str, summary: &str) -> (r: Vec<Effect>)
        ensures
            effects_view(r@) == hook_effect(
                ctx.hooks,
                "on_batch_done"@,
                batch_vars(self@, elapsed_s@, summary@),
            ).push(
                Effect::Emit(
                    OutputEvent::BatchDone {
                        converted: self.converted,
                        failed: self.failed,
                        elapsed_s: elapsed_s@,
                        gb_processed: thousandths_text(self.bytes_processed as nat, GB as nat),
                    },
                ),
            ),
    {
        let gb = format_gigabytes(self.bytes_processed);
        let mut vars = no_vars();
        set_var(&mut vars, "converted", decimal_text(self.converted as u128));
        set_var(&mut vars, "failed", decimal_text(self.failed as u128));
        set_var(&mut vars, "elapsed_s", String::from_str(elapsed_s));
        set_var(&mut vars, "gb_processed", gb.clone());
        set_var(&mut vars, "summary_json", String::from_str(summary));
        let mut out: Vec<Effect> = Vec::new();
        push_hook(&mut out, &ctx.hooks, "on_batch_done", &vars);
        push_effect(
            &mut out,
            Effect::Emit(
                OutputEvent::BatchDone {
                    converted: self.converted,
                    failed: self.failed,
                    elapsed_s: String::from_str(elapsed_s),
                    gb_processed: gb,
                },
            ),
        );
        assert(effects_view(out@) =~= hook_effect(
            ctx.hooks,
            "on_batch_done"@,
            batch_vars(self@, elapsed_s@, summary@),
        ).push(
            Effect::Emit(
                OutputEvent::BatchDone {
                    converted: self.converted,
                    failed: self.failed,
                    elapsed_s: elapsed_s@,
                    gb_processed: thousandths_text(self.bytes_processed as nat, GB as nat),
                },
            ),
        ));
        out
    }
}

// ── Laws ────────────────────────────────────────────────────────────────────
/// A result counts once: as converted, as failed, or as skipped.
pub proof fn law_each_result_counts_once(
    ctx: &RunContext,
    b: BatchModel,
    result: JobResult<Seq<char>>,
    size: Option<u64>,
)
    requires
        has_room(b, size),
    ensures
        ({
            let a = after_result(ctx, b, result, size);
            &&& a.results_received == b.results_received + 1
            &&& a.converted == b.converted + (if result is Done {
                1int
            } else {
                0
            })
            &&& a.failed == b.failed + (if result is Failed {
                1int
            } else {
                0
            })
            &&& a.jobs_enqueued == b.jobs_enqueued
        }),
{
}

/// A file that was converted is done in the checkpoint and no longer pending, and one
/// that failed is recorded as failed. No file becomes pending during a run, and none
/// that is done is forgotten.
pub proof fn law_results_reach_the_checkpoint(
    ctx: &RunContext,
    b: BatchModel,
    result: JobResult<Seq<char>>,
    size: Option<u64>,
)
    ensures
        ({
            let before = b.checkpoint;
            let after = after_result(ctx, b, result, size).checkpoint;
            &&& result matches JobResult::Done(stats) ==> (remainder(stats.input, ctx.input@)
                matches Some(rel) ==> after.done.contains(rel) && !after.pending.contains(rel))
            &&& result matches JobResult::Failed { shp, reason: _ } ==> (remainder(shp, ctx.input@)
                matches Some(rel) ==> after.failed.contains(rel) && !after.pending.contains(rel))
            &&& forall|x: Seq<char>| #[trigger]
                after.pending.contains(x) ==> before.pending.contains(x)
            &&& forall|x: Seq<char>| before.done.contains(x) ==> #[trigger] after.done.contains(x)
        }),
{
    match result {
        JobResult::Done(stats) => match remainder(stats.input, ctx.input@) {
            Some(rel) => law_mark_done(b.checkpoint, rel),
            None => {},
        },
        JobResult::Failed { shp, reason: _ } => match remainder(shp, ctx.input@) {
            Some(rel) => law_mark_failed(b.checkpoint, rel),
            None => {},
        },
        JobResult::Skipped { shp: _ } => {},
    }
}

/// Where a run stands after these results, each with the size of its source file.
pub open spec fn after_results(
    ctx: &RunContext,
    b: BatchModel,
    results: Seq<(JobResult<Seq<char>>, Option<u64>)>,
) -> BatchModel
    decreases results.len(),
{
    if results.len() == 0 {
        b
    } else {
        after_result(
            ctx,
            after_results(ctx, b, results.drop_last()),
            results.last().0,
            results.last().1,
        )
    }
}

/// A run that gets one result for each of its jobs is complete, and not before.
pub proof fn law_run_ends_with_its_last_result(
    ctx: &RunContext,
    b: BatchModel,
    results: Seq<(JobResult<Seq<char>>, Option<u64>)>,
)
    requires
        b.results_received == 0,
        results.len() <= b.jobs_enqueued,
    ensures
        is_complete(after_results(ctx, b, results)) <==> results.len() == b.jobs_enqueued,
{
    lemma_results_are_counted(ctx, b, results);
}

proof fn lemma_results_are_counted(
    ctx: &RunContext,
    b: BatchModel,
    results: Seq<(JobResult<Seq<char>>, Option<u64>)>,
)
    requires
        b.results_received == 0,
        results.len() <= b.jobs_enqueued,
    ensures
        after_results(ctx, b, results).results_received == results.len(),
        after_results(ctx, b, results).jobs_enqueued == b.jobs_enqueued,
    decreases results.len(),
{
    if results.len() > 0 {
        lemma_results_are_counted(ctx, b, results.drop_last());
    }
}

/// An interrupt is acted on once: after that there is nothing more to do about it.
pub proof fn law_interrupt_is_acted_on_once(b: BatchModel, done: Seq<bool>)
    ensures
        !b.quit_requested ==> tick_effects(b, true, done).last() is SaveCheckpoint,
        b.quit_requested ==> tick_effects(b, true, done).len() == 0,
        tick_effects(b, false, done).len() == 0,
{
}

/// A file that was converted is not converted again by a run that resumes from the
/// checkpoint, however the directory looks by then.
pub proof fn law_converted_file_is_skipped_on_resume(
    ctx: &RunContext,
    b: BatchModel,
    stats: ConversionStats<Seq<char>>,
    size: Option<u64>,
    entries: Seq<EntryModel>,
)
    requires
        ctx.resume,
        remainder(stats.input, ctx.input@) is Some,
    ensures
        ({
            let done = after_result(ctx, b, JobResult::Done(stats), size).checkpoint.done.to_set();
            let jobs = jobs_of(ctx, done, entries);
            forall|i: int|
                0 <= i < jobs.len() ==> relative_of(ctx, (#[trigger] jobs[i]).entry.shp)
                    != relative_of(ctx, stats.input)
        }),
{
    let after = after_result(ctx, b, JobResult::Done(stats), size).checkpoint;
    law_results_reach_the_checkpoint(ctx, b, JobResult::Done(stats), size);
    law_completed_files_are_not_redone(ctx, after.done.to_set(), entries);
}

/// A file that failed, and was not converted before, is tried again by a run that
/// resumes from the checkpoint, if it is still there with its required sidecars.
pub proof fn law_failed_file_is_retried_on_resume(
    ctx: &RunContext,
    b: BatchModel,
    reason: Seq<char>,
    entries: Seq<EntryModel>,
    i: int,
)
    requires
        0 <= i < entries.len(),
        entries[i].status is Valid,
        remainder(entries[i].shp, ctx.input@) matches Some(rel) && !b.checkpoint.done.contains(rel),
    ensures
        ({
            let result = JobResult::Failed { shp: entries[i].shp, reason };
            let done = after_result(ctx, b, result, None).checkpoint.done.to_set();
            exists|j: int|
                0 <= j < jobs_of(ctx, done, entries).len() && (#[trigger] jobs_of(
                    ctx,
                    done,
                    entries,
                )[j]).entry == entries[i]
        }),
{
    let result = JobResult::Failed { shp: entries[i].shp, reason };
    let after = after_result(ctx, b, result, None).checkpoint;
    law_files_not_done_are_tried(ctx, after.done.to_set(), entries, i);
}

/// Only the size of a file that was converted counts, and where it is known.
pub proof fn law_sizes_are_added_up(
    ctx: &RunContext,
    b: BatchModel,
    result: JobResult<Seq<char>>,
    size: Option<u64>,
)
    requires
        has_room(b, size),
    ensures
        ({
            let a = after_result(ctx, b, result, size);
            a.bytes_processed == b.bytes_processed + (match (result, size) {
                (JobResult::Done(_), Some(n)) => n as int,
                _ => 0int,
            })
        }),
{
}

/// A result changes nothing but the counts and the checkpoint's lists. A file that was
/// skipped does not change the checkpoint, nor does one that is not under the input root.
pub proof fn law_results_touch_nothing_else(
    ctx: &RunContext,
    b: BatchModel,
    result: JobResult<Seq<char>>,
    size: Option<u64>,
)
    ensures
        ({
            let a = after_result(ctx, b, result, size);
            let (before, after) = (b.checkpoint, a.checkpoint);
            &&& a.pause == b.pause
            &&& a.quit_requested == b.quit_requested
            &&& a.jobs_enqueued == b.jobs_enqueued
            &&& after.run_id == before.run_id
            &&& after.started == before.started
            &&& after.input_root == before.input_root
            &&& after.output_root == before.output_root
            &&& result is Skipped ==> after == before
            &&& result matches JobResult::Done(stats) ==> (remainder(stats.input, ctx.input@)
                is None ==> after == before)
            &&& result matches JobResult::Failed { shp, reason: _ } ==> (remainder(shp, ctx.input@)
                is None ==> after == before)
            &&& result matches JobResult::Done(stats) ==> (remainder(stats.input, ctx.input@)
                matches Some(rel) ==> forall|x: Seq<char>|
                x != rel ==> (#[trigger] after.pending.contains(x) <==> before.pending.contains(x)))
            &&& result matches JobResult::Failed { shp, reason: _ } ==> (remainder(shp, ctx.input@)
                matches Some(rel) ==> forall|x: Seq<char>|
                x != rel ==> (#[trigger] after.pending.contains(x) <==> before.pending.contains(x)))
        }),
{
    match result {
        JobResult::Done(stats) => match remainder(stats.input, ctx.input@) {
            Some(rel) => law_marking_keeps_the_others(b.checkpoint, rel),
            None => {},
        },
        JobResult::Failed { shp, reason: _ } => match remainder(shp, ctx.input@) {
            Some(rel) => law_marking_keeps_the_others(b.checkpoint, rel),
            None => {},
        },
        JobResult::Skipped { shp: _ } => {},
    }
}

/// What is said and done about a result. A file that was converted is announced with its
/// own input, output and number of features, and one that failed with its own reason,
/// which is logged too. Neither is said of the other. The hook that is run, if any, is
/// the one for the outcome, and the checkpoint is saved after each file that it records,
/// as the last thing.
pub proof fn law_results_are_announced(ctx: &RunContext, result: JobResult<Seq<char>>)
    ensures
        ({
            let effects = result_effects(ctx, result);
            match result {
                JobResult::Done(stats) => {
                    &&& effects[0] is AdvanceProgress
                    &&& effects[1] matches Effect::Emit(
                        OutputEvent::FileDone { file, output, duration_ms, features },
                    ) && file == stats.input && output == stats.output && features
                        == stats.features_written && (stats.duration_ms <= u64::MAX ==> duration_ms
                        == stats.duration_ms)
                    &&& forall|i: int|
                        2 <= i < effects.len() ==> !(#[trigger] effects[i] is Emit) && !(effects[i]
                            is Log)
                    &&& forall|i: int|
                        0 <= i < effects.len() ==> (#[trigger] effects[i] matches Effect::RunHook {
                            name,
                            command: _,
                        } ==> name == "on_file_complete"@)
                    &&& (effects.last() is SaveCheckpoint) == (remainder(stats.input, ctx.input@)
                        is Some)
                },
                JobResult::Failed { shp, reason } => {
                    &&& effects[0] == Effect::<Seq<char>>::Log {
                        level: LogLevel::Failed,
                        shp,
                        reason,
                    }
                    &&& effects[1] == Effect::<Seq<char>>::Emit(
                        OutputEvent::FileFailed { file: shp, reason },
                    )
                    &&& forall|i: int|
                        2 <= i < effects.len() ==> !(#[trigger] effects[i] is Emit) && !(effects[i]
                            is Log)
                    &&& forall|i: int|
                        0 <= i < effects.len() ==> (#[trigger] effects[i] matches Effect::RunHook {
                            name,
                            command: _,
                        } ==> name == "on_file_failed"@)
                    &&& (effects.last() is SaveCheckpoint) == (remainder(shp, ctx.input@) is Some)
                },
                JobResult::Skipped { shp: _ } => effects.len() == 1 && effects[0]
                    is AdvanceProgress,
            }
        }),
{
}

/// What the hooks are given: on a converted file its input and output, the number of its
/// features and the time that it took; on one that failed the file and the reason; at the
/// end of a run the counts, the time, the gigabytes and the summary. Each stands under
/// its own name, and there is nothing else.
pub proof fn law_hooks_are_given_the_facts(
    stats: ConversionStats<Seq<char>>,
    shp: Seq<char>,
    reason: Seq<char>,
    b: BatchModel,
    elapsed_s: Seq<char>,
    summary: Seq<char>,
)
    ensures
        ({
            let done = done_vars(stats);
            &&& done.dom() == set!["file"@, "output"@, "features"@, "duration_ms"@]
            &&& done["file"@] == stats.input
            &&& done["output"@] == stats.output
            &&& number_of(done["features"@]) == stats.features_written
            &&& number_of(done["duration_ms"@]) == stats.duration_ms
            &&& all_digits(done["features"@]) && all_digits(done["duration_ms"@])
        }),
        ({
            let failed = failed_vars(shp, reason);
            &&& failed.dom() == set!["file"@, "reason"@]
            &&& failed["file"@] == shp
            &&& failed["reason"@] == reason
        }),
        ({
            let end = batch_vars(b, elapsed_s, summary);
            &&& end.dom() == set![
                "converted"@,
                "failed"@,
                "elapsed_s"@,
                "gb_processed"@,
                "summary_json"@,
            ]
            &&& number_of(end["converted"@]) == b.converted
            &&& number_of(end["failed"@]) == b.failed
            &&& all_digits(end["converted"@]) && all_digits(end["failed"@])
            &&& end["elapsed_s"@] == elapsed_s
            &&& end["gb_processed"@] == thousandths_text(b.bytes_processed as nat, GB as nat)
            &&& end["summary_json"@] == summary
        }),
{
    reveal_strlit("file");
    reveal_strlit("output");
    reveal_strlit("features");
    reveal_strlit("duration_ms");
    reveal_strlit("reason");
    reveal_strlit("converted");
    reveal_strlit("failed");
    reveal_strlit("elapsed_s");
    reveal_strlit("gb_processed");
    reveal_strlit("summary_json");
    assert("file"@.len() == 4 && "output"@.len() == 6 && "features"@.len() == 8
        && "duration_ms"@.len() == 11 && "reason"@.len() == 6 && "converted"@.len() == 9
        && "failed"@.len() == 6 && "elapsed_s"@.len() == 9 && "gb_processed"@.len() == 12
        && "summary_json"@.len() == 12);
    assert("converted"@[0] != "elapsed_s"@[0]);
    assert("gb_processed"@[0] != "summary_json"@[0]);
    law_decimal_stands_for_the_number(stats.features_written as nat);
    law_decimal_stands_for_the_number(stats.duration_ms as nat);
    law_decimal_stands_for_the_number(b.converted as nat);
    law_decimal_stands_for_the_number(b.failed as nat);
    assert(done_vars(stats).dom() =~= set!["file"@, "output"@, "features"@, "duration_ms"@]);
    assert(failed_vars(shp, reason).dom() =~= set!["file"@, "reason"@]);
    assert(batch_vars(b, elapsed_s, summary).dom() =~= set![
        "converted"@,
        "failed"@,
        "elapsed_s"@,
        "gb_processed"@,
        "summary_json"@,
    ]);
}

/// On the first interrupt every worker that is not done is told to exit, and no other,
/// and the checkpoint is saved.
pub proof fn law_interrupt_reaches_every_worker(b: BatchModel, done: Seq<bool>)
    requires
        !b.quit_requested,
        done.len() <= usize::MAX,
    ensures
        ({
            let effects = tick_effects(b, true, done);
            &&& effects.last() is SaveCheckpoint
            &&& forall|i: int|
                0 <= i < done.len() ==> (effects.contains(Effect::SignalExit(i as usize)) <==> !(
                #[trigger] done[i]))
        }),
{
    let effects = tick_effects(b, true, done);
    law_active_workers_are_stopped(done);
    assert forall|i: int| 0 <= i < done.len() implies (effects.contains(
        Effect::SignalExit(i as usize),
    ) <==> !(#[trigger] done[i])) by {
        let e = Effect::<Seq<char>>::SignalExit(i as usize);
        let stops = stop_active(done);
        assert(effects == stops.push(Effect::SaveCheckpoint { aloud: false }));
        if stops.contains(e) {
            let k = choose|k: int| 0 <= k < stops.len() && stops[k] == e;
            assert(effects[k] == e);
        }
        if effects.contains(e) {
            let k = choose|k: int| 0 <= k < effects.len() && effects[k] == e;
            assert(k < stops.len());
            assert(stops[k] == e);
        }
    }
}

/// The hook that is configured for a converted file, or for one that failed, is run on
/// each such result, with the values of that result put in.
pub proof fn law_hooks_are_fired(
    ctx: &RunContext,
    h: HooksConfig,
    template: String,
    result: JobResult<Seq<char>>,
)
    requires
        ctx.hooks == Some(h),
        result is Done ==> h.on_file_complete == Some(template),
        result is Failed ==> h.on_file_failed == Some(template),
    ensures
        match result {
            JobResult::Done(stats) => result_effects(ctx, result).contains(
                Effect::RunHook {
                    name: "on_file_complete"@,
                    command: substituted(template@, done_vars(stats)),
                },
            ),
            JobResult::Failed { shp, reason } => result_effects(ctx, result).contains(
                Effect::RunHook {
                    name: "on_file_failed"@,
                    command: substituted(template@, failed_vars(shp, reason)),
                },
            ),
            JobResult::Skipped { shp: _ } => forall|i: int|
                0 <= i < result_effects(ctx, result).len() ==> !(#[trigger] result_effects(
                    ctx,
                    result,
                )[i] is RunHook),
        },
{
    reveal_strlit("on_file_complete");
    reveal_strlit("on_file_failed");
    assert("on_file_complete"@.len() != "on_file_failed"@.len());
    let effects = result_effects(ctx, result);
    if !(result is Skipped) {
        assert(effects[2] is RunHook);
        assert(effects.contains(effects[2]));
    }
}

/// There is room for a result exactly where none of the counters that it may raise would
/// pass what it can hold.
pub proof fn law_room_is_what_counting_takes(b: BatchModel, size: Option<u64>)
    ensures
        has_room(b, size) <==> b.results_received + 1 <= u64::MAX && b.converted + 1 <= u64::MAX
            && b.failed + 1 <= u64::MAX && b.bytes_processed + (match size {
            Some(n) => n as int,
            None => 0,
        }) <= u64::MAX,
{
}

/// After a result or an interrupt the checkpoint is saved quietly.
pub proof fn law_results_are_saved_quietly(
    ctx: &RunContext,
    b: BatchModel,
    result: JobResult<Seq<char>>,
    done: Seq<bool>,
    i: int,
)
    ensures
        0 <= i < result_effects(ctx, result).len() ==> (result_effects(ctx, result)[i] matches
            Effect::SaveCheckpoint { aloud } ==> !aloud),
        !b.quit_requested ==> tick_effects(b, true, done).last() == (Effect::<
            Seq<char>,
        >::SaveCheckpoint { aloud: false }),
{
}

} // verus!
