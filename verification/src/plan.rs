//! The plan of a run: what becomes of each shapefile that was found.
use vstd::hash_set::StringHashSet;
use vstd::prelude::*;
use vstd::string::*;

use crate::checkpoint::{done_set, relative_shp_path, CheckpointState};
use crate::config::{HooksConfig, RunSettings};
use crate::convert::{mirrors, output_path, output_path_for, ConvertOptions};
use crate::discover::{
    entries_view, DiscoveryReport, EntryModel, EntryStatus, ShapefileEntry,
};
use crate::effects::{effects_view, push_effect, Effect, EffectModel};
use crate::error::message_of;
use crate::output::{LogLevel, OutputEvent};
use crate::paths::{
    components, join, joined_path, remainder, same_path, temporary_of, temporary_path,
};
use crate::queue::{Job, JobModel};
use crate::text::{join_text, joined, law_texts_are_joined, occurs, occurs_at, texts};

verus! {

/// What a run is about.
#[derive(Debug, PartialEq, Eq)]
pub struct RunContext {
    /// The input root.
    pub input: String,
    /// The output root.
    pub output_root: String,
    /// Files that were completed in a prior run are skipped.
    pub resume: bool,
    pub settings: RunSettings,
    pub hooks: Option<HooksConfig>,
}

// ── Resuming ────────────────────────────────────────────────────────────────
/// What to remove before a file that failed in a prior run is tried again: its output,
/// and the temporary file of its output.
pub open spec fn stale_files(ctx: &RunContext, rel: Seq<char>) -> Seq<EffectModel> {
    match output_path(
        joined_path(ctx.input@, rel),
        ctx.input@,
        ctx.output_root@,
        ctx.settings.geojsonl,
    ) {
        Ok(out) => seq![Effect::RemoveFile(out), Effect::RemoveFile(temporary_of(out))],
        Err(_) => Seq::empty(),
    }
}

/// What to remove before the files that failed in a prior run are tried again.
pub open spec fn all_stale_files(ctx: &RunContext, failed: Seq<Seq<char>>) -> Seq<EffectModel>
    decreases failed.len(),
{
    if failed.len() == 0 {
        Seq::empty()
    } else {
        all_stale_files(ctx, failed.drop_last()) + stale_files(ctx, failed.last())
    }
}

/// What to remove before a file whose conversion may have been interrupted in a prior run
/// is tried again: the temporary file of its output, which is all that an interrupted
/// conversion leaves.
pub open spec fn partial_files(ctx: &RunContext, rel: Seq<char>) -> Seq<EffectModel> {
    match output_path(
        joined_path(ctx.input@, rel),
        ctx.input@,
        ctx.output_root@,
        ctx.settings.geojsonl,
    ) {
        Ok(out) => seq![Effect::RemoveFile(temporary_of(out))],
        Err(_) => Seq::empty(),
    }
}

/// What to remove before the files that were pending at the end of a prior run are tried
/// again.
pub open spec fn all_partial_files(ctx: &RunContext, pending: Seq<Seq<char>>) -> Seq<EffectModel>
    decreases pending.len(),
{
    if pending.len() == 0 {
        Seq::empty()
    } else {
        all_partial_files(ctx, pending.drop_last()) + partial_files(ctx, pending.last())
    }
}

/// What is said where the input root is not that of the prior run. Both are named.
pub open spec fn root_warning(ctx: &RunContext, recorded: Seq<char>) -> Seq<EffectModel> {
    if components(recorded) == components(ctx.input@) {
        Seq::empty()
    } else {
        seq![
            Effect::Warn(
                "--resume: checkpoint input_root differs from --input; done-file lookup may be incorrect"@
                    + " checkpoint_root="@ + recorded + " cli_input="@ + ctx.input@,
            ),
        ]
    }
}

fn push_stale_files(out: &mut Vec<Effect>, ctx: &RunContext, rel: &str)
    ensures
        effects_view(final(out)@) == effects_view(old(out)@) + stale_files(ctx, rel@),
{
    let shp = join(ctx.input.as_str(), rel);
    match output_path_for(
        shp.as_str(),
        ctx.input.as_str(),
        ctx.output_root.as_str(),
        ctx.settings.geojsonl,
    ) {
        Ok(path) => {
            let tmp = temporary_path(path.as_str());
            push_effect(out, Effect::RemoveFile(path));
            push_effect(out, Effect::RemoveFile(tmp));
        },
        Err(_) => {},
    }
    assert(effects_view(out@) =~= effects_view(old(out)@) + stale_files(ctx, rel@));
}

fn push_partial_files(out: &mut Vec<Effect>, ctx: &RunContext, rel: &str)
    ensures
        effects_view(final(out)@) == effects_view(old(out)@) + partial_files(ctx, rel@),
{
    let shp = join(ctx.input.as_str(), rel);
    match output_path_for(
        shp.as_str(),
        ctx.input.as_str(),
        ctx.output_root.as_str(),
        ctx.settings.geojsonl,
    ) {
        Ok(path) => {
            push_effect(out, Effect::RemoveFile(temporary_path(path.as_str())));
        },
        Err(_) => {},
    }
    assert(effects_view(out@) =~= effects_view(old(out)@) + partial_files(ctx, rel@));
}

/// Prepares a checkpoint of a prior run for this one: warns if the input root has
/// changed, cleans up partial outputs of the files that failed and of those that were
/// interrupted, and clears the list of those that failed, so that they are retried.
pub fn prepare_resume(ctx: &RunContext, checkpoint: &mut CheckpointState) -> (r: Vec<Effect>)
    ensures
        effects_view(r@) == root_warning(ctx, old(checkpoint)@.input_root) + all_stale_files(
            ctx,
            old(checkpoint)@.failed,
        ) + all_partial_files(ctx, old(checkpoint)@.pending),
        final(checkpoint)@ == (CheckpointState {
            failed: Seq::<Seq<char>>::empty(),
            ..old(checkpoint)@
        }),
{
    let mut out: Vec<Effect> = Vec::new();
    if !same_path(checkpoint.input_root.as_str(), ctx.input.as_str()) {
        let mut text = String::from_str(
            "--resume: checkpoint input_root differs from --input; done-file lookup may be incorrect",
        );
        text.append(" checkpoint_root=");
        text.append(checkpoint.input_root.as_str());
        text.append(" cli_input=");
        text.append(ctx.input.as_str());
        push_effect(&mut out, Effect::Warn(text));
    }
    let ghost head = root_warning(ctx, checkpoint@.input_root);
    let ghost all = checkpoint@.failed;
    assert(effects_view(out@) =~= head + all_stale_files(ctx, all.take(0)));
    let mut i: usize = 0;
    while i < checkpoint.failed.len()
        invariant
            i <= checkpoint.failed@.len(),
            *checkpoint == *old(checkpoint),
            all == texts(checkpoint.failed@),
            effects_view(out@) == head + all_stale_files(ctx, all.take(i as int)),
        decreases checkpoint.failed@.len() - i,
    {
        push_stale_files(&mut out, ctx, checkpoint.failed[i].as_str());
        proof {
            assert(all.take(i + 1).drop_last() =~= all.take(i as int));
            assert(all.take(i + 1).last() == all[i as int]);
            assert(effects_view(out@) =~= head + all_stale_files(ctx, all.take(i + 1)));
        }
        i = i + 1;
    }
    assert(all.take(all.len() as int) =~= all);
    let ghost removed = effects_view(out@);
    let ghost rest = checkpoint@.pending;
    assert(removed =~= removed + all_partial_files(ctx, rest.take(0)));
    let mut k: usize = 0;
    while k < checkpoint.pending.len()
        invariant
            k <= checkpoint.pending@.len(),
            *checkpoint == *old(checkpoint),
            rest == texts(checkpoint.pending@),
            effects_view(out@) == removed + all_partial_files(ctx, rest.take(k as int)),
        decreases checkpoint.pending@.len() - k,
    {
        push_partial_files(&mut out, ctx, checkpoint.pending[k].as_str());
        proof {
            assert(rest.take(k + 1).drop_last() =~= rest.take(k as int));
            assert(rest.take(k + 1).last() == rest[k as int]);
            assert(effects_view(out@) =~= removed + all_partial_files(ctx, rest.take(k + 1)));
        }
        k = k + 1;
    }
    assert(rest.take(rest.len() as int) =~= rest);
    checkpoint.failed = Vec::new();
    assert(texts(checkpoint.failed@) =~= Seq::empty());
    out
}

// ── Entries that are not complete ───────────────────────────────────────────
/// What is said of an entry without all required sidecars.
pub open spec fn missing_reason(missing: Seq<Seq<char>>) -> Seq<char> {
    "missing sidecar(s): "@ + joined(missing, ", "@)
}

/// What to do about an entry, if it is not complete.
pub open spec fn invalid_effects(entry: EntryModel) -> Seq<EffectModel> {
    match entry.status {
        EntryStatus::Valid => Seq::empty(),
        EntryStatus::Invalid(missing) => seq![
            Effect::Log {
                level: LogLevel::Invalid,
                shp: entry.shp,
                reason: missing_reason(missing),
            },
            Effect::Emit(
                OutputEvent::FileFailed { file: entry.shp, reason: missing_reason(missing) },
            ),
        ],
    }
}

/// What to do about the entries that are not complete.
pub open spec fn all_invalid_effects(entries: Seq<EntryModel>) -> Seq<EffectModel>
    decreases entries.len(),
{
    if entries.len() == 0 {
        Seq::empty()
    } else {
        all_invalid_effects(entries.drop_last()) + invalid_effects(entries.last())
    }
}

fn push_invalid(out: &mut Vec<Effect>, entry: &ShapefileEntry)
    ensures
        effects_view(final(out)@) == effects_view(old(out)@) + invalid_effects(entry@),
{
    match &entry.status {
        EntryStatus::Valid => {},
        EntryStatus::Invalid(missing) => {
            let mut reason = String::from_str("missing sidecar(s): ");
            let list = join_text(missing, ", ");
            reason.append(list.as_str());
            push_effect(
                out,
                Effect::Log {
                    level: LogLevel::Invalid,
                    shp: entry.shp.clone(),
                    reason: reason.clone(),
                },
            );
            push_effect(
                out,
                Effect::Emit(OutputEvent::FileFailed { file: entry.shp.clone(), reason }),
            );
        },
    }
    assert(effects_view(out@) =~= effects_view(old(out)@) + invalid_effects(entry@));
}

// ── Complete entries ────────────────────────────────────────────────────────
/// What becomes of a shapefile.
#[derive(Debug, PartialEq, Eq)]
pub enum Fate<T = String, L = Vec<&'static str>> {
    /// A required sidecar is missing.
    Invalid,
    /// It was completed in a prior run.
    Skipped,
    /// It has no place under the output root.
    Failed,
    /// It is converted. The checkpoint knows it under this relative path.
    Queued { rel: T, job: Job<T, L> },
}

/// What becomes of a shapefile, as a mathematical value.
pub type FateModel = Fate<Seq<char>, Seq<Seq<char>>>;

/// The relative path under which the checkpoint knows a file.
pub open spec fn relative_of(ctx: &RunContext, shp: Seq<char>) -> Seq<char> {
    match remainder(shp, ctx.input@) {
        Some(rel) => rel,
        None => Seq::empty(),
    }
}

/// The file was completed in a prior run that is being resumed.
pub open spec fn is_done(ctx: &RunContext, done: Set<Seq<char>>, shp: Seq<char>) -> bool {
    ctx.resume && done.contains(relative_of(ctx, shp))
}

/// The output path of a file.
pub open spec fn output_of(ctx: &RunContext, shp: Seq<char>) -> Result<
    Seq<char>,
    crate::error::AppError<Seq<char>>,
> {
    output_path(shp, ctx.input@, ctx.output_root@, ctx.settings.geojsonl)
}

/// The job for an entry.
pub open spec fn job_of(ctx: &RunContext, entry: EntryModel, out: Seq<char>) -> JobModel {
    Job {
        entry,
        output_path: out,
        options: ConvertOptions {
            geojsonl: ctx.settings.geojsonl,
            overwrite: ctx.settings.overwrite,
            reproject_from_prj: if ctx.settings.reproject {
                entry.prj
            } else {
                None
            },
        },
    }
}

/// What becomes of an entry.
pub open spec fn fate_of(ctx: &RunContext, done: Set<Seq<char>>, entry: EntryModel) -> FateModel {
    if !(entry.status is Valid) {
        Fate::Invalid
    } else if is_done(ctx, done, entry.shp) {
        Fate::Skipped
    } else {
        match output_of(ctx, entry.shp) {
            Ok(out) => Fate::Queued {
                rel: relative_of(ctx, entry.shp),
                job: job_of(ctx, entry, out),
            },
            Err(_) => Fate::Failed,
        }
    }
}

/// What to do about a complete entry before it is converted, or instead.
pub open spec fn valid_effects(ctx: &RunContext, done: Set<Seq<char>>, entry: EntryModel) -> Seq<
    EffectModel,
> {
    let unknown = if remainder(entry.shp, ctx.input@) is None {
        seq![
            Effect::Warn(
                "could not relativize path, skipping checkpoint entry: "@ + entry.shp,
            ),
        ]
    } else {
        Seq::empty()
    };
    let no_crs = if ctx.settings.reproject && entry.prj is None {
        seq![
            Effect::Log {
                level: LogLevel::Warn,
                shp: entry.shp,
                reason: "no .prj found, CRS unknown, coordinates passed through unchanged"@,
            },
        ]
    } else {
        Seq::empty()
    };
    if !(entry.status is Valid) {
        Seq::empty()
    } else if is_done(ctx, done, entry.shp) {
        unknown + seq![
            Effect::Emit(
                OutputEvent::FileSkipped {
                    file: entry.shp,
                    reason: "already completed in previous run"@,
                },
            ),
            Effect::Log {
                level: LogLevel::Skipped,
                shp: entry.shp,
                reason: "output exists, --resume active"@,
            },
        ]
    } else {
        match output_of(ctx, entry.shp) {
            Ok(_) => unknown + no_crs,
            Err(e) => unknown + no_crs + seq![
                Effect::Log { level: LogLevel::Failed, shp: entry.shp, reason: message_of(e) },
                Effect::Emit(OutputEvent::FileFailed { file: entry.shp, reason: message_of(e) }),
            ],
        }
    }
}

/// What to do about the complete entries before they are converted, or instead.
pub open spec fn all_valid_effects(
    ctx: &RunContext,
    done: Set<Seq<char>>,
    entries: Seq<EntryModel>,
) -> Seq<EffectModel>
    decreases entries.len(),
{
    if entries.len() == 0 {
        Seq::empty()
    } else {
        all_valid_effects(ctx, done, entries.drop_last()) + valid_effects(ctx, done, entries.last())
    }
}

/// The jobs of a run, in the order of the entries.
pub open spec fn jobs_of(ctx: &RunContext, done: Set<Seq<char>>, entries: Seq<EntryModel>) -> Seq<
    JobModel,
>
    decreases entries.len(),
{
    if entries.len() == 0 {
        Seq::empty()
    } else {
        let front = jobs_of(ctx, done, entries.drop_last());
        match fate_of(ctx, done, entries.last()) {
            Fate::Queued { rel: _, job } => front.push(job),
            _ => front,
        }
    }
}

/// The relative paths of the files that are to be converted, in the order of the
/// entries.
pub open spec fn pending_of(
    ctx: &RunContext,
    done: Set<Seq<char>>,
    entries: Seq<EntryModel>,
) -> Seq<Seq<char>>
    decreases entries.len(),
{
    if entries.len() == 0 {
        Seq::empty()
    } else {
        let front = pending_of(ctx, done, entries.drop_last());
        match fate_of(ctx, done, entries.last()) {
            Fate::Queued { rel, job: _ } => front.push(rel),
            _ => front,
        }
    }
}

/// The number of entries that fail before any is converted.
pub open spec fn failed_of(ctx: &RunContext, done: Set<Seq<char>>, entries: Seq<EntryModel>) -> nat
    decreases entries.len(),
{
    if entries.len() == 0 {
        0
    } else {
        failed_of(ctx, done, entries.drop_last()) + match fate_of(ctx, done, entries.last()) {
            Fate::Invalid => 1nat,
            Fate::Failed => 1nat,
            _ => 0nat,
        }
    }
}

/// The number of entries that were completed in a prior run.
pub open spec fn skipped_of(ctx: &RunContext, done: Set<Seq<char>>, entries: Seq<EntryModel>) -> nat
    decreases entries.len(),
{
    if entries.len() == 0 {
        0
    } else {
        skipped_of(ctx, done, entries.drop_last()) + if fate_of(ctx, done, entries.last())
            is Skipped {
            1nat
        } else {
            0nat
        }
    }
}

fn copy_optional(t: &Option<String>) -> (r: Option<String>)
    ensures
        r == *t,
{
    match t {
        Some(s) => Some(s.clone()),
        None => None,
    }
}

fn copy_valid(entry: &ShapefileEntry) -> (r: ShapefileEntry)
    requires
        entry.status is Valid,
    ensures
        r@ == entry@,
{
    ShapefileEntry {
        shp: entry.shp.clone(),
        dbf: entry.dbf.clone(),
        shx: entry.shx.clone(),
        prj: copy_optional(&entry.prj),
        cpg: copy_optional(&entry.cpg),
        status: EntryStatus::Valid,
    }
}

impl View for Fate {
    type V = FateModel;

    open spec fn view(&self) -> FateModel {
        match self {
            Fate::Invalid => Fate::Invalid,
            Fate::Skipped => Fate::Skipped,
            Fate::Failed => Fate::Failed,
            Fate::Queued { rel, job } => Fate::Queued { rel: rel@, job: job@ },
        }
    }
}

/// Decides what becomes of an entry, and adds what to do about it if it is complete.
pub fn decide(
    out: &mut Vec<Effect>,
    ctx: &RunContext,
    done: &StringHashSet,
    entry: &ShapefileEntry,
) -> (r: Fate)
    ensures
        r@ == fate_of(ctx, done@, entry@),
        effects_view(final(out)@) == effects_view(old(out)@) + valid_effects(ctx, done@, entry@),
        r matches Fate::Queued { rel: _, job } ==> {
            &&& job.entry@ == entry@
            &&& job.options.overwrite == ctx.settings.overwrite
            &&& job.options.geojsonl == ctx.settings.geojsonl
            &&& mirrors(
                job.output_path@,
                entry.shp@,
                ctx.input@,
                ctx.output_root@,
                ctx.settings.geojsonl,
            )
        },
{
    if !entry.is_valid() {
        assert(effects_view(out@) =~= effects_view(old(out)@) + valid_effects(ctx, done@, entry@));
        return Fate::Invalid;
    }
    let shp = entry.shp.as_str();
    let rel = match relative_shp_path(shp, ctx.input.as_str()) {
        Some(rel) => rel,
        None => {
            let mut text = String::from_str(
                "could not relativize path, skipping checkpoint entry: ",
            );
            text.append(shp);
            push_effect(out, Effect::Warn(text));
            String::new()
        },
    };
    assert(rel@ =~= relative_of(ctx, entry.shp@));
    if ctx.resume && done.contains(rel.as_str()) {
        push_effect(
            out,
            Effect::Emit(
                OutputEvent::FileSkipped {
                    file: entry.shp.clone(),
                    reason: String::from_str("already completed in previous run"),
                },
            ),
        );
        push_effect(
            out,
            Effect::Log {
                level: LogLevel::Skipped,
                shp: entry.shp.clone(),
                reason: String::from_str("output exists, --resume active"),
            },
        );
        assert(effects_view(out@) =~= effects_view(old(out)@) + valid_effects(ctx, done@, entry@));
        return Fate::Skipped;
    }
    if ctx.settings.reproject && entry.prj.is_none() {
        push_effect(
            out,
            Effect::Log {
                level: LogLevel::Warn,
                shp: entry.shp.clone(),
                reason: String::from_str(
                    "no .prj found, CRS unknown, coordinates passed through unchanged",
                ),
            },
        );
    }
    match output_path_for(
        shp,
        ctx.input.as_str(),
        ctx.output_root.as_str(),
        ctx.settings.geojsonl,
    ) {
        Err(e) => {
            let reason = e.message();
            push_effect(
                out,
                Effect::Log {
                    level: LogLevel::Failed,
                    shp: entry.shp.clone(),
                    reason: reason.clone(),
                },
            );
            push_effect(
                out,
                Effect::Emit(OutputEvent::FileFailed { file: entry.shp.clone(), reason }),
            );
            assert(effects_view(out@) =~= effects_view(old(out)@) + valid_effects(
                ctx,
                done@,
                entry@,
            ));
            Fate::Failed
        },
        Ok(path) => {
            assert(effects_view(out@) =~= effects_view(old(out)@) + valid_effects(
                ctx,
                done@,
                entry@,
            ));
            let options = ConvertOptions {
                geojsonl: ctx.settings.geojsonl,
                overwrite: ctx.settings.overwrite,
                reproject_from_prj: if ctx.settings.reproject {
                    copy_optional(&entry.prj)
                } else {
                    None
                },
            };
            let job = Job { entry: copy_valid(entry), output_path: path, options };
            Fate::Queued { rel, job }
        },
    }
}

// ── The plan ────────────────────────────────────────────────────────────────
/// The plan of a run.
#[derive(Debug, PartialEq, Eq)]
pub struct Plan {
    /// What to do before the first job.
    pub effects: Vec<Effect>,
    /// The jobs for the workers.
    pub jobs: Vec<Job>,
    /// The number of files that have failed already.
    pub failed: u64,
}

pub open spec fn jobs_view(jobs: Seq<Job>) -> Seq<JobModel> {
    jobs.map_values(|job: Job| job@)
}

/// What to do before the first job.
pub open spec fn opening_effects(
    ctx: &RunContext,
    done: Set<Seq<char>>,
    report: &DiscoveryReport,
    timestamp: Seq<char>,
) -> Seq<EffectModel> {
    let entries = entries_view(report.entries@);
    seq![
        Effect::Emit(
            OutputEvent::Start {
                total_files: entries.len() as usize,
                total_bytes: report.total_input_bytes,
                timestamp,
            },
        ),
    ] + all_invalid_effects(entries) + all_valid_effects(ctx, done, entries) + seq![
        Effect::SaveCheckpoint { aloud: false },
    ]
}

/// Plans a run: announces it, disposes of the entries that are not complete, skips
/// those that were completed in a prior run, and makes a job of each other. The
/// checkpoint records the jobs as pending before any is dispatched, in place of what was
/// pending at the end of a prior run.
pub fn plan(
    ctx: &RunContext,
    report: &DiscoveryReport,
    checkpoint: &mut CheckpointState,
    timestamp: String,
) -> (r: Plan)
    ensures
        ({
            let done = old(checkpoint)@.done.to_set();
            let entries = entries_view(report.entries@);
            &&& effects_view(r.effects@) == opening_effects(ctx, done, report, timestamp@)
            &&& jobs_view(r.jobs@) == jobs_of(ctx, done, entries)
            &&& r.failed == failed_of(ctx, done, entries)
            &&& forall|i: int|
                0 <= i < r.jobs@.len() ==> mirrors(
                    (#[trigger] r.jobs@[i]).output_path@,
                    r.jobs@[i].entry.shp@,
                    ctx.input@,
                    ctx.output_root@,
                    ctx.settings.geojsonl,
                )
            &&& final(checkpoint)@ == (CheckpointState {
                pending: pending_of(ctx, done, entries),
                ..old(checkpoint)@
            })
        }),
{
    let done = done_set(checkpoint);
    let ghost entries = entries_view(report.entries@);
    let ghost stamp = timestamp@;
    let ghost start = Effect::Emit(
        OutputEvent::Start {
            total_files: entries.len() as usize,
            total_bytes: report.total_input_bytes,
            timestamp: stamp,
        },
    );
    let mut out: Vec<Effect> = Vec::new();
    push_effect(
        &mut out,
        Effect::Emit(
            OutputEvent::Start {
                total_files: report.entries.len(),
                total_bytes: report.total_input_bytes,
                timestamp,
            },
        ),
    );
    let len: usize = report.entries.len();
    let mut i: usize = 0;
    assert(effects_view(out@) =~= seq![start] + all_invalid_effects(entries.take(0)));
    while i < len
        invariant
            i <= len,
            len == report.entries@.len(),
            entries == entries_view(report.entries@),
            effects_view(out@) == seq![start] + all_invalid_effects(entries.take(i as int)),
        decreases len - i,
    {
        push_invalid(&mut out, &report.entries[i]);
        proof {
            assert(entries.take(i + 1).drop_last() =~= entries.take(i as int));
            assert(entries.take(i + 1).last() == entries[i as int]);
            assert(effects_view(out@) =~= seq![start] + all_invalid_effects(entries.take(i + 1)));
        }
        i = i + 1;
    }
    assert(entries.take(len as int) =~= entries);
    let ghost head = effects_view(out@);
    checkpoint.pending = Vec::new();
    let mut jobs: Vec<Job> = Vec::new();
    let mut failed: u64 = 0;
    let mut k: usize = 0;
    proof {
        assert(effects_view(out@) =~= head + all_valid_effects(ctx, done@, entries.take(0)));
        assert(jobs_view(jobs@) =~= jobs_of(ctx, done@, entries.take(0)));
        assert(texts(checkpoint.pending@) =~= pending_of(ctx, done@, entries.take(0)));
    }
    while k < len
        invariant
            k <= len,
            len == report.entries@.len(),
            entries == entries_view(report.entries@),
            done@ == old(checkpoint)@.done.to_set(),
            effects_view(out@) == head + all_valid_effects(ctx, done@, entries.take(k as int)),
            jobs_view(jobs@) == jobs_of(ctx, done@, entries.take(k as int)),
            failed == failed_of(ctx, done@, entries.take(k as int)),
            forall|i: int|
                0 <= i < jobs@.len() ==> mirrors(
                    (#[trigger] jobs@[i]).output_path@,
                    jobs@[i].entry.shp@,
                    ctx.input@,
                    ctx.output_root@,
                    ctx.settings.geojsonl,
                ),
            failed <= k,
            checkpoint@ == (CheckpointState {
                pending: pending_of(ctx, done@, entries.take(k as int)),
                ..old(checkpoint)@
            }),
        decreases len - k,
    {
        let ghost jobs_before = jobs_view(jobs@);
        let ghost pending_before = checkpoint@.pending;
        let ghost now = entries.take(k + 1);
        proof {
            assert(now.drop_last() =~= entries.take(k as int));
            assert(now.last() == entries[k as int]);
        }
        let fate = decide(&mut out, ctx, &done, &report.entries[k]);
        assert(effects_view(out@) =~= head + all_valid_effects(ctx, done@, now));
        match fate {
            Fate::Queued { rel, job } => {
                checkpoint.pending.push(rel);
                jobs.push(job);
                proof {
                    assert(texts(checkpoint.pending@) =~= pending_before.push(rel@));
                    assert(jobs_view(jobs@) =~= jobs_before.push(job@));
                    assert(pending_before.push(rel@) =~= pending_of(ctx, done@, now));
                }
            },
            Fate::Skipped => {},
            Fate::Invalid => {
                failed = failed + 1;
            },
            Fate::Failed => {
                failed = failed + 1;
            },
        }
        k = k + 1;
    }
    push_effect(&mut out, Effect::SaveCheckpoint { aloud: false });
    assert(effects_view(out@) =~= opening_effects(ctx, done@, report, stamp));
    Plan { effects: out, jobs, failed }
}

// ── Laws ────────────────────────────────────────────────────────────────────
/// Every entry meets exactly one fate: it fails, is skipped, or becomes a job.
pub proof fn law_every_entry_is_accounted_for(
    ctx: &RunContext,
    done: Set<Seq<char>>,
    entries: Seq<EntryModel>,
)
    ensures
        failed_of(ctx, done, entries) + skipped_of(ctx, done, entries) + jobs_of(
            ctx,
            done,
            entries,
        ).len() == entries.len(),
    decreases entries.len(),
{
    if entries.len() > 0 {
        law_every_entry_is_accounted_for(ctx, done, entries.drop_last());
    }
}

/// The checkpoint records a pending file for each job, under the path relative to the
/// input root.
pub proof fn law_every_job_is_pending(
    ctx: &RunContext,
    done: Set<Seq<char>>,
    entries: Seq<EntryModel>,
)
    ensures
        pending_of(ctx, done, entries).len() == jobs_of(ctx, done, entries).len(),
        forall|i: int|
            0 <= i < jobs_of(ctx, done, entries).len() ==> pending_of(ctx, done, entries)[i]
                == relative_of(ctx, (#[trigger] jobs_of(ctx, done, entries)[i]).entry.shp),
    decreases entries.len(),
{
    if entries.len() > 0 {
        law_every_job_is_pending(ctx, done, entries.drop_last());
    }
}

/// Before a resumed run tries a file again that failed or was interrupted, the temporary
/// file of its output is removed, and the output itself if the file failed.
pub proof fn law_partial_outputs_are_removed(
    ctx: &RunContext,
    failed: Seq<Seq<char>>,
    pending: Seq<Seq<char>>,
    rel: Seq<char>,
    out: Seq<char>,
)
    requires
        failed.contains(rel) || pending.contains(rel),
        output_of(ctx, joined_path(ctx.input@, rel)) == Ok::<
            Seq<char>,
            crate::error::AppError<Seq<char>>,
        >(out),
    ensures
        ({
            let removed = all_stale_files(ctx, failed) + all_partial_files(ctx, pending);
            &&& removed.contains(Effect::RemoveFile(temporary_of(out)))
            &&& failed.contains(rel) ==> removed.contains(Effect::RemoveFile(out))
        }),
{
    let stale = all_stale_files(ctx, failed);
    let partial = all_partial_files(ctx, pending);
    let removed = stale + partial;
    if failed.contains(rel) {
        lemma_stale_files(ctx, failed, rel);
        assert(stale_files(ctx, rel)[0] == Effect::<Seq<char>>::RemoveFile(out));
        assert(stale_files(ctx, rel)[1] == Effect::<Seq<char>>::RemoveFile(temporary_of(out)));
        let at = choose|at: int|
            0 <= at && at + stale_files(ctx, rel).len() <= stale.len() && #[trigger] stale.subrange(
                at,
                at + stale_files(ctx, rel).len(),
            ) == stale_files(ctx, rel);
        let part = stale.subrange(at, at + stale_files(ctx, rel).len());
        assert(part[0] == removed[at]);
        assert(part[1] == removed[at + 1]);
    } else {
        lemma_partial_files(ctx, pending, rel);
        assert(partial_files(ctx, rel)[0] == Effect::<Seq<char>>::RemoveFile(temporary_of(out)));
        let at = choose|at: int|
            0 <= at && at + partial_files(ctx, rel).len() <= partial.len()
                && #[trigger] partial.subrange(at, at + partial_files(ctx, rel).len())
                == partial_files(ctx, rel);
        let part = partial.subrange(at, at + partial_files(ctx, rel).len());
        assert(part[0] == removed[stale.len() + at]);
    }
}

proof fn lemma_stale_files(ctx: &RunContext, failed: Seq<Seq<char>>, rel: Seq<char>)
    requires
        failed.contains(rel),
    ensures
        exists|at: int|
            0 <= at && at + stale_files(ctx, rel).len() <= all_stale_files(ctx, failed).len()
                && #[trigger] all_stale_files(ctx, failed).subrange(
                at,
                at + stale_files(ctx, rel).len(),
            ) == stale_files(ctx, rel),
    decreases failed.len(),
{
    let front = all_stale_files(ctx, failed.drop_last());
    let all = all_stale_files(ctx, failed);
    let n = stale_files(ctx, rel).len();
    if failed.last() == rel {
        assert(all.subrange(front.len() as int, (front.len() + n) as int) =~= stale_files(ctx, rel));
    } else {
        let i = choose|i: int| 0 <= i < failed.len() && failed[i] == rel;
        assert(failed.drop_last()[i] == rel);
        lemma_stale_files(ctx, failed.drop_last(), rel);
        let at = choose|at: int|
            0 <= at && at + n <= front.len() && #[trigger] front.subrange(at, at + n)
                == stale_files(ctx, rel);
        assert(all.subrange(at, at + n) =~= front.subrange(at, at + n));
    }
}

proof fn lemma_partial_files(ctx: &RunContext, pending: Seq<Seq<char>>, rel: Seq<char>)
    requires
        pending.contains(rel),
    ensures
        exists|at: int|
            0 <= at && at + partial_files(ctx, rel).len() <= all_partial_files(ctx, pending).len()
                && #[trigger] all_partial_files(ctx, pending).subrange(
                at,
                at + partial_files(ctx, rel).len(),
            ) == partial_files(ctx, rel),
    decreases pending.len(),
{
    let front = all_partial_files(ctx, pending.drop_last());
    let all = all_partial_files(ctx, pending);
    let n = partial_files(ctx, rel).len();
    if pending.last() == rel {
        assert(all.subrange(front.len() as int, (front.len() + n) as int) =~= partial_files(ctx, rel));
    } else {
        let i = choose|i: int| 0 <= i < pending.len() && pending[i] == rel;
        assert(pending.drop_last()[i] == rel);
        lemma_partial_files(ctx, pending.drop_last(), rel);
        let at = choose|at: int|
            0 <= at && at + n <= front.len() && #[trigger] front.subrange(at, at + n)
                == partial_files(ctx, rel);
        assert(all.subrange(at, at + n) =~= front.subrange(at, at + n));
    }
}

/// A resumed run never converts a file again that was completed, and converts only
/// files with all required sidecars.
pub proof fn law_completed_files_are_not_redone(
    ctx: &RunContext,
    done: Set<Seq<char>>,
    entries: Seq<EntryModel>,
)
    ensures
        forall|i: int|
            0 <= i < jobs_of(ctx, done, entries).len() ==> {
                let job = #[trigger] jobs_of(ctx, done, entries)[i];
                &&& job.entry.status is Valid
                &&& ctx.resume ==> !done.contains(relative_of(ctx, job.entry.shp))
            },
    decreases entries.len(),
{
    if entries.len() > 0 {
        law_completed_files_are_not_redone(ctx, done, entries.drop_last());
    }
}

/// Files that failed in a prior run are tried again: only those that were completed
/// are left out.
pub proof fn law_files_not_done_are_tried(
    ctx: &RunContext,
    done: Set<Seq<char>>,
    entries: Seq<EntryModel>,
    i: int,
)
    requires
        0 <= i < entries.len(),
        entries[i].status is Valid,
        remainder(entries[i].shp, ctx.input@) matches Some(rel) && !done.contains(rel),
    ensures
        exists|j: int|
            0 <= j < jobs_of(ctx, done, entries).len() && (#[trigger] jobs_of(
                ctx,
                done,
                entries,
            )[j]).entry == entries[i],
    decreases entries.len(),
{
    let front = jobs_of(ctx, done, entries.drop_last());
    let all = jobs_of(ctx, done, entries);
    if i == entries.len() - 1 {
        assert(all[all.len() - 1].entry == entries[i]);
    } else {
        law_files_not_done_are_tried(ctx, done, entries.drop_last(), i);
        let j = choose|j: int| 0 <= j < front.len() && (#[trigger] front[j]).entry == entries[i];
        assert(all[j] == front[j]);
    }
}

/// With reprojection off, no job reads a `.prj` file; with it on, each job reads the
/// one that its entry has.
pub proof fn law_reprojection_follows_the_settings(
    ctx: &RunContext,
    done: Set<Seq<char>>,
    entries: Seq<EntryModel>,
)
    ensures
        forall|i: int|
            0 <= i < jobs_of(ctx, done, entries).len() ==> {
                let job = #[trigger] jobs_of(ctx, done, entries)[i];
                job.options.reproject_from_prj == (if ctx.settings.reproject {
                    job.entry.prj
                } else {
                    None
                })
            },
    decreases entries.len(),
{
    if entries.len() > 0 {
        law_reprojection_follows_the_settings(ctx, done, entries.drop_last());
    }
}

/// Every job of a plan carries the settings of the run, and its output path is that of
/// its entry in the format of the run. It is one of the entries.
pub proof fn law_jobs_carry_the_settings(
    ctx: &RunContext,
    done: Set<Seq<char>>,
    entries: Seq<EntryModel>,
)
    ensures
        forall|i: int|
            0 <= i < jobs_of(ctx, done, entries).len() ==> {
                let job = #[trigger] jobs_of(ctx, done, entries)[i];
                &&& job.options.overwrite == ctx.settings.overwrite
                &&& job.options.geojsonl == ctx.settings.geojsonl
                &&& entries.contains(job.entry)
                &&& output_path(
                    job.entry.shp,
                    ctx.input@,
                    ctx.output_root@,
                    ctx.settings.geojsonl,
                ) == Ok::<Seq<char>, crate::error::AppError<Seq<char>>>(job.output_path)
            },
    decreases entries.len(),
{
    if entries.len() > 0 {
        let front = entries.drop_last();
        law_jobs_carry_the_settings(ctx, done, front);
        let (jobs, before) = (jobs_of(ctx, done, entries), jobs_of(ctx, done, front));
        assert forall|i: int| 0 <= i < jobs.len() implies entries.contains(
            (#[trigger] jobs[i]).entry,
        ) by {
            if i < before.len() {
                assert(jobs[i] == before[i]);
                let k = choose|k: int| 0 <= k < front.len() && front[k] == before[i].entry;
                assert(entries[k] == before[i].entry);
            } else {
                assert(entries[entries.len() - 1] == jobs[i].entry);
            }
        }
        assert forall|i: int| 0 <= i < jobs.len() implies ({
            let job = #[trigger] jobs[i];
            &&& job.options.overwrite == ctx.settings.overwrite
            &&& job.options.geojsonl == ctx.settings.geojsonl
            &&& output_path(
                job.entry.shp,
                ctx.input@,
                ctx.output_root@,
                ctx.settings.geojsonl,
            ) == Ok::<Seq<char>, crate::error::AppError<Seq<char>>>(job.output_path)
        }) by {
            if i < before.len() {
                assert(jobs[i] == before[i]);
            }
        }
    }
}

/// The jobs stand in the order of their entries: one more entry adds at most one job, at
/// the end, and adds it exactly where the entry is complete, has a place under the output
/// root, and was not completed in a run that is being resumed.
pub proof fn law_one_more_entry(
    ctx: &RunContext,
    done: Set<Seq<char>>,
    entries: Seq<EntryModel>,
    entry: EntryModel,
)
    ensures
        ({
            let before = jobs_of(ctx, done, entries);
            let after = jobs_of(ctx, done, entries.push(entry));
            let rel = match remainder(entry.shp, ctx.input@) {
                Some(rel) => rel,
                None => Seq::empty(),
            };
            if entry.status is Valid && !(ctx.resume && done.contains(rel)) && output_path(
                entry.shp,
                ctx.input@,
                ctx.output_root@,
                ctx.settings.geojsonl,
            ) is Ok {
                &&& after.len() == before.len() + 1
                &&& after.drop_last() == before
                &&& after.last().entry == entry
                &&& pending_of(ctx, done, entries.push(entry)) == pending_of(
                    ctx,
                    done,
                    entries,
                ).push(rel)
                &&& failed_of(ctx, done, entries.push(entry)) == failed_of(ctx, done, entries)
            } else {
                &&& after == before
                &&& pending_of(ctx, done, entries.push(entry)) == pending_of(ctx, done, entries)
                &&& failed_of(ctx, done, entries.push(entry)) == failed_of(ctx, done, entries) + (
                if entry.status is Valid && ctx.resume && done.contains(rel) {
                    0nat
                } else {
                    1nat
                })
            }
        }),
{
    assert(entries.push(entry).drop_last() =~= entries);
    let before = jobs_of(ctx, done, entries);
    let after = jobs_of(ctx, done, entries.push(entry));
    if after.len() > before.len() {
        assert(after.drop_last() =~= before);
    }
}

/// What is reported of an entry that is not complete: a line in the error log and an
/// event, both about its `.shp` file and naming the sidecars that are missing.
pub proof fn law_incomplete_entry_is_reported(entry: EntryModel, missing: Seq<Seq<char>>)
    requires
        entry.status == EntryStatus::Invalid(missing),
    ensures
        ({
            let effects = invalid_effects(entry);
            let reason = missing_reason(missing);
            &&& effects.len() == 2
            &&& effects[0] == Effect::<Seq<char>>::Log {
                level: LogLevel::Invalid,
                shp: entry.shp,
                reason,
            }
            &&& effects[1] == Effect::<Seq<char>>::Emit(
                OutputEvent::FileFailed { file: entry.shp, reason },
            )
        }),
        missing == seq![".dbf"@] ==> missing_reason(missing) == "missing sidecar(s): "@ + ".dbf"@,
        missing == seq![".shx"@] ==> missing_reason(missing) == "missing sidecar(s): "@ + ".shx"@,
        missing == seq![".dbf"@, ".shx"@] ==> missing_reason(missing) == "missing sidecar(s): "@ + (
        ".dbf"@ + ", "@ + ".shx"@),
{
    let one = seq![".dbf"@];
    assert(one.push(".shx"@) =~= seq![".dbf"@, ".shx"@]);
    law_texts_are_joined(one, ".shx"@, ", "@);
    law_texts_are_joined(one, ".dbf"@, ", "@);
    assert(one =~= seq![".dbf"@]);
}

/// One of the effects is such.
pub open spec fn some_effect(
    effects: Seq<EffectModel>,
    such: spec_fn(EffectModel) -> bool,
) -> bool {
    exists|i: int| 0 <= i < effects.len() && such(#[trigger] effects[i])
}

/// It is said that this file is skipped.
pub open spec fn skips(shp: Seq<char>) -> spec_fn(EffectModel) -> bool {
    |e: EffectModel| e matches Effect::Emit(OutputEvent::FileSkipped { file, .. }) && file == shp
}

/// It is said that this file failed, for this reason.
pub open spec fn fails(shp: Seq<char>, why: Seq<char>) -> spec_fn(EffectModel) -> bool {
    |e: EffectModel|
        e == Effect::<Seq<char>>::Emit(OutputEvent::FileFailed { file: shp, reason: why })
}

/// A line at this level is logged about this file.
pub open spec fn logs(level: LogLevel, shp: Seq<char>) -> spec_fn(EffectModel) -> bool {
    |e: EffectModel|
        e matches Effect::Log { level: at, shp: file, .. } && at == level && file == shp
}

/// What is reported of a complete entry before its conversion. One that was completed in
/// a run that is being resumed is skipped, with an event and a line in the error log. Of
/// one that is to be reprojected and has no `.prj`, the log gets a warning. One without a
/// place under the output root fails, with a line in the log and an event that says why.
/// Nothing else is said of it, but where its path is not under the input root.
#[verifier::spinoff_prover]
#[verifier::rlimit(40)]
pub proof fn law_complete_entry_is_reported(
    ctx: &RunContext,
    done: Set<Seq<char>>,
    entry: EntryModel,
)
    requires
        entry.status is Valid,
    ensures
        ({
            let effects = valid_effects(ctx, done, entry);
            let rel = match remainder(entry.shp, ctx.input@) {
                Some(rel) => rel,
                None => Seq::empty(),
            };
            let skipped = ctx.resume && done.contains(rel);
            let out = output_path(
                entry.shp,
                ctx.input@,
                ctx.output_root@,
                ctx.settings.geojsonl,
            );
            &&& some_effect(effects, skips(entry.shp)) == skipped
            &&& some_effect(effects, logs(LogLevel::Skipped, entry.shp)) == skipped
            &&& some_effect(effects, logs(LogLevel::Warn, entry.shp)) == (!skipped
                && ctx.settings.reproject && entry.prj is None)
            &&& some_effect(effects, logs(LogLevel::Failed, entry.shp)) == (!skipped && out is Err)
            &&& (!skipped && out is Err) ==> some_effect(
                effects,
                fails(entry.shp, message_of(out->Err_0)),
            )
            &&& some_effect(effects, |e: EffectModel| e is Warn) == (remainder(
                entry.shp,
                ctx.input@,
            ) is None)
            &&& !some_effect(effects, logs(LogLevel::Invalid, entry.shp))
        }),
{
    let effects = valid_effects(ctx, done, entry);
    let head: int = if remainder(entry.shp, ctx.input@) is Some {
        0
    } else {
        1
    };
    if head == 1 {
        assert(effects[0] is Warn);
    }
    if is_done(ctx, done, entry.shp) {
        assert(skips(entry.shp)(effects[head]));
        assert(logs(LogLevel::Skipped, entry.shp)(effects[head + 1]));
    } else {
        let log: int = if ctx.settings.reproject && entry.prj is None {
            1
        } else {
            0
        };
        if log == 1 {
            assert(logs(LogLevel::Warn, entry.shp)(effects[head]));
        }
        if let Err(e) = output_of(ctx, entry.shp) {
            assert(logs(LogLevel::Failed, entry.shp)(effects[head + log]));
            assert(fails(entry.shp, message_of(e))(effects[head + log + 1]));
        }
    }
}

/// A run is announced first, with the number of all entries, and the checkpoint is saved
/// last, before any job starts.
pub proof fn law_run_is_announced_first(
    ctx: &RunContext,
    done: Set<Seq<char>>,
    report: &DiscoveryReport,
    timestamp: Seq<char>,
)
    requires
        report.entries@.len() <= usize::MAX,
    ensures
        ({
            let effects = opening_effects(ctx, done, report, timestamp);
            &&& effects.len() >= 2
            &&& effects[0] matches Effect::Emit(
                OutputEvent::Start { total_files, total_bytes, timestamp: at },
            ) && total_files == report.entries@.len() && total_bytes == report.total_input_bytes
                && at == timestamp
            &&& effects.last() == (Effect::<Seq<char>>::SaveCheckpoint { aloud: false })
        }),
{
}

/// A checkpoint of the same input root is taken up without a word. Of another root the
/// user is warned, and both roots are named. What is removed is never an output of a file
/// that was completed: it belongs to files that failed or were pending.
pub proof fn law_other_root_is_pointed_out(ctx: &RunContext, recorded: Seq<char>)
    ensures
        components(recorded) == components(ctx.input@) <==> root_warning(ctx, recorded).len() == 0,
        components(recorded) != components(ctx.input@) ==> root_warning(ctx, recorded).len() == 1
            && (root_warning(ctx, recorded)[0] matches Effect::Warn(text) && occurs(text, recorded)
            && occurs(text, ctx.input@)),
{
    if components(recorded) != components(ctx.input@) {
        let a =
            "--resume: checkpoint input_root differs from --input; done-file lookup may be incorrect"@;
        let b = " checkpoint_root="@;
        let c = " cli_input="@;
        let text = a + b + recorded + c + ctx.input@;
        assert(text.subrange((a + b).len() as int, ((a + b).len() + recorded.len()) as int)
            =~= recorded);
        assert(occurs_at(text, recorded, (a + b).len() as int));
        let head = a + b + recorded + c;
        assert(text.subrange(head.len() as int, (head.len() + ctx.input@.len()) as int)
            =~= ctx.input@);
        assert(occurs_at(text, ctx.input@, head.len() as int));
    }
}

/// Only what belongs to the files that failed or were pending is removed on resuming.
pub proof fn law_only_stale_files_are_removed(
    ctx: &RunContext,
    failed: Seq<Seq<char>>,
    pending: Seq<Seq<char>>,
    path: Seq<char>,
)
    requires
        (all_stale_files(ctx, failed) + all_partial_files(ctx, pending)).contains(
            Effect::RemoveFile(path),
        ),
    ensures
        exists|rel: Seq<char>, out: Seq<char>|
            #![trigger joined_path(ctx.input@, rel), temporary_of(out)]
            (failed.contains(rel) || pending.contains(rel)) && output_path(
                joined_path(ctx.input@, rel),
                ctx.input@,
                ctx.output_root@,
                ctx.settings.geojsonl,
            ) == Ok::<Seq<char>, crate::error::AppError<Seq<char>>>(out) && (path == temporary_of(
                out,
            ) || (path == out && failed.contains(rel))),
{
    let (stale, partial) = (all_stale_files(ctx, failed), all_partial_files(ctx, pending));
    let all = stale + partial;
    let i = choose|i: int| 0 <= i < all.len() && all[i] == Effect::<Seq<char>>::RemoveFile(path);
    if i < stale.len() {
        lemma_stale_origin(ctx, failed, i);
        let rel = choose|rel: Seq<char>|
            failed.contains(rel) && #[trigger] stale_files(ctx, rel).contains(stale[i]);
        let out = output_of(ctx, joined_path(ctx.input@, rel))->Ok_0;
        let own = stale_files(ctx, rel);
        let k = choose|k: int| 0 <= k < own.len() && own[k] == stale[i];
        assert(temporary_of(out) == temporary_of(out));
        assert(path == out || path == temporary_of(out));
    } else {
        lemma_partial_origin(ctx, pending, i - stale.len());
        let e = partial[i - stale.len()];
        let rel = choose|rel: Seq<char>|
            pending.contains(rel) && #[trigger] partial_files(ctx, rel).contains(e);
        let out = output_of(ctx, joined_path(ctx.input@, rel))->Ok_0;
        let own = partial_files(ctx, rel);
        let k = choose|k: int| 0 <= k < own.len() && own[k] == e;
        assert(path == temporary_of(out));
    }
}

proof fn lemma_stale_origin(ctx: &RunContext, failed: Seq<Seq<char>>, i: int)
    requires
        0 <= i < all_stale_files(ctx, failed).len(),
    ensures
        exists|rel: Seq<char>|
            failed.contains(rel) && #[trigger] stale_files(ctx, rel).contains(
                all_stale_files(ctx, failed)[i],
            ),
    decreases failed.len(),
{
    let front = all_stale_files(ctx, failed.drop_last());
    let e = all_stale_files(ctx, failed)[i];
    if i < front.len() {
        lemma_stale_origin(ctx, failed.drop_last(), i);
        let rel = choose|rel: Seq<char>|
            failed.drop_last().contains(rel) && #[trigger] stale_files(ctx, rel).contains(front[i]);
        let k = choose|k: int| 0 <= k < failed.drop_last().len() && failed.drop_last()[k] == rel;
        assert(failed[k] == rel);
        assert(failed.contains(rel) && stale_files(ctx, rel).contains(e));
    } else {
        let rel = failed.last();
        assert(stale_files(ctx, rel)[i - front.len()] == e);
        assert(failed[failed.len() - 1] == rel);
        assert(failed.contains(rel) && stale_files(ctx, rel).contains(e));
    }
}

proof fn lemma_partial_origin(ctx: &RunContext, pending: Seq<Seq<char>>, i: int)
    requires
        0 <= i < all_partial_files(ctx, pending).len(),
    ensures
        exists|rel: Seq<char>|
            pending.contains(rel) && #[trigger] partial_files(ctx, rel).contains(
                all_partial_files(ctx, pending)[i],
            ),
    decreases pending.len(),
{
    let front = all_partial_files(ctx, pending.drop_last());
    let e = all_partial_files(ctx, pending)[i];
    if i < front.len() {
        lemma_partial_origin(ctx, pending.drop_last(), i);
        let rel = choose|rel: Seq<char>|
            pending.drop_last().contains(rel) && #[trigger] partial_files(ctx, rel).contains(
                front[i],
            );
        let k = choose|k: int| 0 <= k < pending.drop_last().len() && pending.drop_last()[k] == rel;
        assert(pending[k] == rel);
        assert(pending.contains(rel) && partial_files(ctx, rel).contains(e));
    } else {
        let rel = pending.last();
        assert(partial_files(ctx, rel)[i - front.len()] == e);
        assert(pending[pending.len() - 1] == rel);
        assert(pending.contains(rel) && partial_files(ctx, rel).contains(e));
    }
}

/// Each entry is reported, one after the other and in their order: first all that are
/// not complete, then all that are.
pub proof fn law_each_entry_is_reported(
    ctx: &RunContext,
    done: Set<Seq<char>>,
    entries: Seq<EntryModel>,
    entry: EntryModel,
)
    ensures
        all_invalid_effects(Seq::empty()).len() == 0,
        all_valid_effects(ctx, done, Seq::empty()).len() == 0,
        all_invalid_effects(entries.push(entry)) == all_invalid_effects(entries) + invalid_effects(
            entry,
        ),
        all_valid_effects(ctx, done, entries.push(entry)) == all_valid_effects(ctx, done, entries)
            + valid_effects(ctx, done, entry),
        entry.status is Valid ==> invalid_effects(entry).len() == 0,
        !(entry.status is Valid) ==> valid_effects(ctx, done, entry).len() == 0,
{
    assert(entries.push(entry).drop_last() =~= entries);
}

/// What is done before the first job: the run is announced, each entry reported, and the
/// checkpoint saved, and nothing is left out.
pub proof fn law_opening_is_complete(
    ctx: &RunContext,
    done: Set<Seq<char>>,
    report: &DiscoveryReport,
    timestamp: Seq<char>,
)
    ensures
        ({
            let effects = opening_effects(ctx, done, report, timestamp);
            let invalid = all_invalid_effects(entries_view(report.entries@));
            let valid = all_valid_effects(ctx, done, entries_view(report.entries@));
            &&& effects.len() == invalid.len() + valid.len() + 2
            &&& effects.subrange(1, 1int + invalid.len()) == invalid
            &&& effects.subrange(1int + invalid.len(), effects.len() - 1) == valid
        }),
{
    let effects = opening_effects(ctx, done, report, timestamp);
    let invalid = all_invalid_effects(entries_view(report.entries@));
    let valid = all_valid_effects(ctx, done, entries_view(report.entries@));
    assert(effects.subrange(1, 1int + invalid.len()) =~= invalid);
    assert(effects.subrange(1int + invalid.len(), effects.len() - 1) =~= valid);
}

/// What is said of a file says which file and why: that it was completed in a prior run,
/// that its CRS is unknown, or that its path is not under the input root.
pub proof fn law_reasons_are_told(
    ctx: &RunContext,
    done: Set<Seq<char>>,
    entry: EntryModel,
    i: int,
)
    requires
        entry.status is Valid,
        0 <= i < valid_effects(ctx, done, entry).len(),
    ensures
        match valid_effects(ctx, done, entry)[i] {
            Effect::Emit(OutputEvent::FileSkipped { file, reason }) => file == entry.shp && reason
                == "already completed in previous run"@,
            Effect::Log { level: LogLevel::Skipped, shp, reason } => shp == entry.shp && reason
                == "output exists, --resume active"@,
            Effect::Log { level: LogLevel::Warn, shp, reason } => shp == entry.shp && reason
                == "no .prj found, CRS unknown, coordinates passed through unchanged"@,
            Effect::Log { level: LogLevel::Failed, shp, .. } => shp == entry.shp,
            Effect::Emit(OutputEvent::FileFailed { file, .. }) => file == entry.shp,
            Effect::Warn(text) => entry.shp.is_suffix_of(text),
            _ => false,
        },
{
    let head = "could not relativize path, skipping checkpoint entry: "@;
    let text = head + entry.shp;
    assert(entry.shp =~= text.subrange(text.len() - entry.shp.len(), text.len() as int));
}

} // verus!
