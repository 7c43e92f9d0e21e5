//! What a worker does: it pulls jobs, converts, and sends results.
pub use vstd::hash_set::StringHashSet;
use vstd::prelude::*;
use vstd::string::*;

use crate::convert::ConversionStats;
use crate::error::{message_of, AppError};
use crate::interactive::PauseFlag;
use crate::paths::{file_name, file_name_of, remainder, strip_prefix};
use crate::queue::{Job, JobModel, JobResult};

verus! {

// ── Control flags ───────────────────────────────────────────────────────────
/// Control flags for a worker thread.
pub struct WorkerFlags {
    /// When set, the worker idles instead of pulling jobs.
    pub pause: PauseFlag,
    /// When `true`, the worker exits after its current job completes.
    pub exit: bool,
    /// Set of relative `.shp` paths that should be skipped (populated by `/skip`).
    pub skip_set: StringHashSet,
    /// The input root directory; used to compute relative paths for skip lookups.
    pub input_root: String,
    /// Set to `true` once the worker's loop has exited.
    pub done: bool,
}

/// The control flags of a worker, as mathematical values.
pub struct FlagsModel {
    pub paused: bool,
    pub exit: bool,
    pub skip_set: Set<Seq<char>>,
    pub input_root: Seq<char>,
    pub done: bool,
}

impl View for WorkerFlags {
    type V = FlagsModel;

    open spec fn view(&self) -> FlagsModel {
        FlagsModel {
            paused: self.pause.spec_paused(),
            exit: self.exit,
            skip_set: self.skip_set@,
            input_root: self.input_root@,
            done: self.done,
        }
    }
}

/// The relative form of `shp` is in the skip set.
pub open spec fn skipped(flags: FlagsModel, shp: Seq<char>) -> bool {
    remainder(shp, flags.input_root) matches Some(rel) && flags.skip_set.contains(rel)
}

impl WorkerFlags {
    /// Creates a new `WorkerFlags` with the given pause flag and skip set.
    ///
    /// `exit` and `done` are initialised to `false`.
    pub fn new(pause: PauseFlag, skip_set: StringHashSet, input_root: String) -> (r: Self)
        ensures
            r@ == (FlagsModel {
                paused: pause.spec_paused(),
                exit: false,
                skip_set: skip_set@,
                input_root: input_root@,
                done: false,
            }),
    {
        WorkerFlags { pause, exit: false, skip_set, input_root, done: false }
    }

    /// Returns `true` if the given `.shp` path's relative form is in the skip set.
    pub fn should_skip(&self, shp: &str) -> (r: bool)
        ensures
            r == skipped(self@, shp@),
    {
        match strip_prefix(shp, self.input_root.as_str()) {
            Some(rel) => self.skip_set.contains(rel.as_str()),
            None => false,
        }
    }

    /// Puts a relative `.shp` path into the skip set.
    pub fn skip(&mut self, relative_shp: String)
        ensures
            final(self)@ == (FlagsModel {
                skip_set: old(self)@.skip_set.insert(relative_shp@),
                ..old(self)@
            }),
    {
        self.skip_set.insert(relative_shp);
    }
}

/// Creates a `WorkerFlags` with all flags in default (inactive) state.
pub fn default_flags(input_root: String) -> (r: WorkerFlags)
    ensures
        r@ == (FlagsModel {
            paused: false,
            exit: false,
            skip_set: Set::empty(),
            input_root: input_root@,
            done: false,
        }),
{
    let skip_set = StringHashSet::new();
    assert(skip_set@ =~= Set::empty());
    WorkerFlags::new(PauseFlag::new(), skip_set, input_root)
}

// ── The loop ────────────────────────────────────────────────────────────────
/// What a worker is doing.
#[derive(Debug, PartialEq, Eq)]
pub enum WorkerState<T = String, L = Vec<&'static str>> {
    /// Looking at its flags.
    Polling,
    /// Idling for a moment, because the run is paused.
    Idling,
    /// Waiting for the next job.
    Receiving,
    /// Converting this job.
    Converting(Job<T, L>),
    /// Sending this result.
    Sending(JobResult<T>),
    /// Nothing more.
    Stopped,
}

/// What a worker is doing, as a mathematical value.
pub type WorkerModel = WorkerState<Seq<char>, Seq<Seq<char>>>;

impl View for WorkerState {
    type V = WorkerModel;

    open spec fn view(&self) -> WorkerModel {
        match self {
            WorkerState::Polling => WorkerState::Polling,
            WorkerState::Idling => WorkerState::Idling,
            WorkerState::Receiving => WorkerState::Receiving,
            WorkerState::Converting(job) => WorkerState::Converting(job@),
            WorkerState::Sending(result) => WorkerState::Sending(result@),
            WorkerState::Stopped => WorkerState::Stopped,
        }
    }
}

/// What came of what a worker was doing.
#[derive(Debug, PartialEq, Eq)]
pub enum WorkerEvent<T = String, L = Vec<&'static str>> {
    /// The flags are as they are given.
    Polled,
    /// The moment has passed.
    Woke,
    /// The next job; none where no more will come.
    Received(Option<Job<T, L>>),
    /// The job was converted, or could not be.
    Converted(Result<ConversionStats<T>, AppError<T>>),
    /// Whether anyone takes results.
    Sent(bool),
}

/// What came of what a worker was doing, as a mathematical value.
pub type EventModel = WorkerEvent<Seq<char>, Seq<Seq<char>>>;

impl View for WorkerEvent {
    type V = EventModel;

    open spec fn view(&self) -> EventModel {
        match self {
            WorkerEvent::Polled => WorkerEvent::Polled,
            WorkerEvent::Woke => WorkerEvent::Woke,
            WorkerEvent::Received(job) => WorkerEvent::Received(
                match job {
                    Some(job) => Some(job@),
                    None => None,
                },
            ),
            WorkerEvent::Converted(r) => WorkerEvent::Converted(
                match r {
                    Ok(stats) => Ok(stats@),
                    Err(e) => Err(e@),
                },
            ),
            WorkerEvent::Sent(taken) => WorkerEvent::Sent(*taken),
        }
    }
}

/// What a worker does next. An event that does not belong to what it is doing changes
/// nothing.
pub open spec fn next_worker(flags: FlagsModel, state: WorkerModel, event: EventModel) ->
    WorkerModel {
    match (state, event) {
        (WorkerState::Polling, WorkerEvent::Polled) => if flags.paused {
            WorkerState::Idling
        } else if flags.exit {
            WorkerState::Stopped
        } else {
            WorkerState::Receiving
        },
        (WorkerState::Idling, WorkerEvent::Woke) => WorkerState::Polling,
        (WorkerState::Receiving, WorkerEvent::Received(None)) => WorkerState::Stopped,
        (WorkerState::Receiving, WorkerEvent::Received(Some(job))) => if skipped(
            flags,
            job.entry.shp,
        ) {
            WorkerState::Sending(JobResult::Skipped { shp: job.entry.shp })
        } else {
            WorkerState::Converting(job)
        },
        (WorkerState::Converting(job), WorkerEvent::Converted(r)) => match r {
            Ok(stats) => WorkerState::Sending(JobResult::Done(stats)),
            Err(e) => WorkerState::Sending(
                JobResult::Failed { shp: job.entry.shp, reason: message_of(e) },
            ),
        },
        (WorkerState::Sending(_), WorkerEvent::Sent(taken)) => if taken {
            WorkerState::Polling
        } else {
            WorkerState::Stopped
        },
        _ => state,
    }
}

/// Runs the worker loop, step by step: given what the worker is doing and what came of
/// it, says what it does next.
///
/// The worker:
/// 1. Idles while the pause flag is set.
/// 2. Exits early if the exit flag is set.
/// 3. Receives the next job; exits if no more will come.
/// 4. Checks if the job should be skipped; sends `JobResult::Skipped` if so.
/// 5. Otherwise performs the conversion and sends the result.
///
/// Sets `flags.done` to `true` when it stops. Any conversion error is captured as
/// [`JobResult::Failed`].
pub fn worker_loop(flags: &mut WorkerFlags, state: WorkerState, event: WorkerEvent) -> (r:
    WorkerState)
    ensures
        r@ == next_worker(old(flags)@, state@, event@),
        final(flags)@ == (FlagsModel {
            done: old(flags)@.done || r is Stopped,
            ..old(flags)@
        }),
{
    let next = match (state, event) {
        (WorkerState::Polling, WorkerEvent::Polled) => if flags.pause.is_paused() {
            WorkerState::Idling
        } else if flags.exit {
            WorkerState::Stopped
        } else {
            WorkerState::Receiving
        },
        (WorkerState::Idling, WorkerEvent::Woke) => WorkerState::Polling,
        (WorkerState::Receiving, WorkerEvent::Received(None)) => WorkerState::Stopped,
        (WorkerState::Receiving, WorkerEvent::Received(Some(job))) => if flags.should_skip(
            job.entry.shp.as_str(),
        ) {
            WorkerState::Sending(JobResult::Skipped { shp: job.entry.shp })
        } else {
            WorkerState::Converting(job)
        },
        (WorkerState::Converting(job), WorkerEvent::Converted(r)) => match r {
            Ok(stats) => WorkerState::Sending(JobResult::Done(stats)),
            Err(e) => WorkerState::Sending(
                JobResult::Failed { shp: job.entry.shp, reason: e.message() },
            ),
        },
        (WorkerState::Sending(_), WorkerEvent::Sent(taken)) => if taken {
            WorkerState::Polling
        } else {
            WorkerState::Stopped
        },
        (state, _) => state,
    };
    match &next {
        WorkerState::Stopped => {
            flags.done = true;
        },
        _ => {},
    }
    next
}

/// What the progress display calls a file: its name, or the whole path where it has
/// none.
pub fn progress_label(shp: &str) -> (r: String)
    ensures
        r@ == (match file_name_of(shp@) {
            Some(name) => name,
            None => shp@,
        }),
{
    match file_name(shp) {
        Some(name) => name,
        None => String::from_str(shp),
    }
}

// ── How many workers ────────────────────────────────────────────────────────
/// `num_cpus::get` gives the number of logical CPUs that this process may use. It
/// depends on the machine, and nothing is claimed of it.
#[verifier::external_body]
fn logical_cpus() -> (r: usize) {
    num_cpus::get()
}

/// The number of workers to start with, on a machine with so many CPUs: the number
/// that was asked for, or else one per CPU, and never none.
pub fn workers_for(jobs: Option<usize>, cpus: usize) -> (r: usize)
    ensures
        r == (match jobs {
            Some(n) => if n > 0 {
                n
            } else {
                1
            },
            None => if cpus > 0 {
                cpus
            } else {
                1
            },
        }),
{
    let n: usize = match jobs {
        Some(n) => n,
        None => cpus,
    };
    if n > 0 {
        n
    } else {
        1
    }
}

/// The number of workers to start with.
pub fn worker_count(jobs: Option<usize>) -> (r: usize)
    ensures
        r >= 1,
        jobs matches Some(n) ==> n > 0 ==> r == n,
        jobs == Some(0usize) ==> r == 1,
{
    workers_for(jobs, logical_cpus())
}

// ── Laws ────────────────────────────────────────────────────────────────────
/// What a worker is doing after these events, each with the flags as they stood.
pub open spec fn worker_after(steps: Seq<(FlagsModel, EventModel)>) -> WorkerModel
    decreases steps.len(),
{
    if steps.len() == 0 {
        WorkerState::Polling
    } else {
        next_worker(steps.last().0, worker_after(steps.drop_last()), steps.last().1)
    }
}

/// The number of jobs that a worker has received.
pub open spec fn jobs_received(steps: Seq<(FlagsModel, EventModel)>) -> nat
    decreases steps.len(),
{
    if steps.len() == 0 {
        0
    } else {
        jobs_received(steps.drop_last()) + match (worker_after(steps.drop_last()), steps.last().1) {
            (WorkerState::Receiving, WorkerEvent::Received(Some(_))) => 1nat,
            _ => 0nat,
        }
    }
}

/// The number of results that a worker has sent.
pub open spec fn results_sent(steps: Seq<(FlagsModel, EventModel)>) -> nat
    decreases steps.len(),
{
    if steps.len() == 0 {
        0
    } else {
        results_sent(steps.drop_last()) + match (worker_after(steps.drop_last()), steps.last().1) {
            (WorkerState::Sending(_), WorkerEvent::Sent(_)) => 1nat,
            _ => 0nat,
        }
    }
}

/// A worker sends exactly one result for each job that it receives: they differ by
/// the job that it has in hand, and when it stops it has none.
pub proof fn law_one_result_for_each_job(steps: Seq<(FlagsModel, EventModel)>)
    ensures
        ({
            let s = worker_after(steps);
            &&& jobs_received(steps) == results_sent(steps) + (if s is Converting || s is Sending {
                1nat
            } else {
                0nat
            })
            &&& s is Stopped ==> jobs_received(steps) == results_sent(steps)
        }),
    decreases steps.len(),
{
    if steps.len() > 0 {
        law_one_result_for_each_job(steps.drop_last());
    }
}

/// While the run is paused no worker goes for a job, and a worker that is told to
/// exit goes for none either: it stops once it is not paused.
pub proof fn law_flags_hold_back_jobs(flags: FlagsModel, state: WorkerModel, event: EventModel)
    requires
        !(state is Receiving),
    ensures
        next_worker(flags, state, event) is Receiving ==> !flags.paused && !flags.exit,
        state is Polling && event is Polled && flags.paused ==> next_worker(flags, state, event)
            is Idling,
        state is Polling && event is Polled && flags.exit && !flags.paused ==> next_worker(
            flags,
            state,
            event,
        ) is Stopped,
{
}

/// A file in the skip set is not converted, and its result says so.
pub proof fn law_skipped_file_is_not_converted(flags: FlagsModel, job: JobModel)
    requires
        skipped(flags, job.entry.shp),
    ensures
        next_worker(
            flags,
            WorkerState::Receiving,
            WorkerEvent::Received(Some(job)),
        ) == WorkerState::<Seq<char>, Seq<Seq<char>>>::Sending(
            JobResult::Skipped { shp: job.entry.shp },
        ),
{
}

/// A worker that nothing holds back takes the next job, converts that very job, and
/// sends what came of it: the statistics, or the file of the job with the reason. Then it
/// looks for another. It stops where no more jobs will come, or nobody takes results.
pub proof fn law_worker_runs_its_course(
    flags: FlagsModel,
    job: JobModel,
    r: Result<ConversionStats<Seq<char>>, AppError<Seq<char>>>,
    result: JobResult<Seq<char>>,
)
    requires
        !flags.paused,
        !flags.exit,
        !skipped(flags, job.entry.shp),
    ensures
        ({
            let next = |s: WorkerModel, e: EventModel| next_worker(flags, s, e);
            let converting = next(
                next(WorkerState::Polling, WorkerEvent::Polled),
                WorkerEvent::Received(Some(job)),
            );
            &&& converting == WorkerState::<Seq<char>, Seq<Seq<char>>>::Converting(job)
            &&& next(converting, WorkerEvent::Converted(r)) matches WorkerState::Sending(sent)
                && match r {
                Ok(stats) => sent == JobResult::Done(stats),
                Err(e) => sent == (JobResult::Failed {
                    shp: job.entry.shp,
                    reason: message_of(e),
                }),
            }
            &&& next(WorkerState::Sending(result), WorkerEvent::Sent(true)) is Polling
            &&& next(WorkerState::Sending(result), WorkerEvent::Sent(false)) is Stopped
            &&& next(WorkerState::Receiving, WorkerEvent::Received(None)) is Stopped
        }),
{
}

/// A worker that idles looks at its flags again when it wakes, and one that has stopped
/// does nothing more.
pub proof fn law_idle_worker_wakes(flags: FlagsModel, event: EventModel)
    ensures
        next_worker(flags, WorkerState::Idling, WorkerEvent::Woke) is Polling,
        next_worker(flags, WorkerState::Stopped, event) is Stopped,
{
}

/// A file that is put into the skip set is skipped from then on, and no other is on that
/// account. A file that is not under the input root is never skipped.
pub proof fn law_skipping_concerns_one_file(flags: FlagsModel, rel: Seq<char>, shp: Seq<char>)
    ensures
        ({
            let after = FlagsModel { skip_set: flags.skip_set.insert(rel), ..flags };
            skipped(after, shp) <==> skipped(flags, shp) || remainder(shp, flags.input_root) == Some(
                rel,
            )
        }),
        remainder(shp, flags.input_root) is None ==> !skipped(flags, shp),
        skipped(FlagsModel { skip_set: Set::empty(), ..flags }, shp) == false,
{
}

} // verus!
