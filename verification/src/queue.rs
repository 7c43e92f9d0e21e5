//! The work queue: jobs for the workers, and what came of them.
use vstd::prelude::*;
use vstd::string::*;

use crate::convert::{ConversionStats, ConvertOptions};
use crate::discover::ShapefileEntry;

verus! {

/// A single unit of work dispatched to a worker thread.
///
/// Contains everything the worker needs to perform a conversion without holding
/// references back to the main thread.
#[derive(Debug, PartialEq, Eq)]
pub struct Job<T = String, L = Vec<&'static str>> {
    /// The validated shapefile entry to convert.
    pub entry: ShapefileEntry<T, L>,
    /// Where the output GeoJSON / GeoJSONL file should be written.
    pub output_path: T,
    /// Conversion options (format, overwrite, reprojection).
    pub options: ConvertOptions<T>,
}

/// A job as a mathematical value.
pub type JobModel = Job<Seq<char>, Seq<Seq<char>>>;

impl View for Job {
    type V = JobModel;

    open spec fn view(&self) -> JobModel {
        Job { entry: self.entry@, output_path: self.output_path@, options: self.options@ }
    }
}

/// The outcome of a single job, sent back to the main thread over the result channel.
#[derive(Debug, PartialEq, Eq)]
pub enum JobResult<T = String> {
    /// The conversion succeeded; carries per-file statistics.
    Done(ConversionStats<T>),
    /// The conversion failed; carries the source path and a human-readable reason.
    Failed {
        /// Path to the `.shp` file that could not be converted.
        shp: T,
        /// Human-readable description of the failure.
        reason: T,
    },
    /// The file was skipped because the user requested it via `/skip`.
    Skipped {
        /// Path to the `.shp` file that was skipped.
        shp: T,
    },
}

impl View for JobResult {
    type V = JobResult<Seq<char>>;

    open spec fn view(&self) -> JobResult<Seq<char>> {
        match self {
            JobResult::Done(stats) => JobResult::Done(stats@),
            JobResult::Failed { shp, reason } => JobResult::Failed { shp: shp@, reason: reason@ },
            JobResult::Skipped { shp } => JobResult::Skipped { shp: shp@ },
        }
    }
}

impl Clone for JobResult {
    fn clone(&self) -> (r: Self)
        ensures
            r == *self,
    {
        match self {
            JobResult::Done(stats) => JobResult::Done(
                ConversionStats {
                    input: stats.input.clone(),
                    output: stats.output.clone(),
                    features_written: stats.features_written,
                    records_skipped: stats.records_skipped,
                    duration_ms: stats.duration_ms,
                },
            ),
            JobResult::Failed { shp, reason } => JobResult::Failed {
                shp: shp.clone(),
                reason: reason.clone(),
            },
            JobResult::Skipped { shp } => JobResult::Skipped { shp: shp.clone() },
        }
    }
}

// ── Channels ────────────────────────────────────────────────────────────────
/// The sending end of a channel of `crossbeam_channel`.
#[verifier::external_type_specification]
#[verifier::external_body]
#[verifier::reject_recursive_types(T)]
pub struct ExSender<T>(crossbeam_channel::Sender<T>);

/// The receiving end of a channel of `crossbeam_channel`.
#[verifier::external_type_specification]
#[verifier::external_body]
#[verifier::reject_recursive_types(T)]
pub struct ExReceiver<T>(crossbeam_channel::Receiver<T>);

/// The two are ends of one channel of jobs: what goes in at the first comes out at
/// the second.
pub uninterp spec fn carries_jobs(
    tx: crossbeam_channel::Sender<Job>,
    rx: crossbeam_channel::Receiver<Job>,
) -> bool;

/// `crossbeam_channel::unbounded` makes a new channel, which never makes a sender
/// wait, and gives its two ends. What the channel holds is not spoken of: it changes
/// under every thread that has an end.
#[verifier::external_body]
fn job_channel() -> (r: (crossbeam_channel::Sender<Job>, crossbeam_channel::Receiver<Job>))
    ensures
        carries_jobs(r.0, r.1),
{
    crossbeam_channel::unbounded()
}

/// The two are ends of one channel of results: what goes in at the first comes out at
/// the second.
pub uninterp spec fn carries_results(
    tx: crossbeam_channel::Sender<JobResult>,
    rx: crossbeam_channel::Receiver<JobResult>,
) -> bool;

/// `crossbeam_channel::unbounded`, for results: as above, the two ends of a new
/// channel.
#[verifier::external_body]
fn result_channel() -> (r: (
    crossbeam_channel::Sender<JobResult>,
    crossbeam_channel::Receiver<JobResult>,
))
    ensures
        carries_results(r.0, r.1),
{
    crossbeam_channel::unbounded()
}

/// Holds the crossbeam channel pairs used for job dispatch and result collection.
///
/// After construction:
/// - Enqueue jobs on `job_tx`, then drop it to signal completion.
/// - Spawn workers that consume `job_rx` and send results on `result_tx`.
/// - Drop `result_tx` and `job_rx` on the main thread after spawning workers.
/// - Drain `result_rx` on the main thread until the channel is empty.
pub struct WorkQueue {
    /// Send end of the job channel — enqueue [`Job`]s here.
    pub job_tx: crossbeam_channel::Sender<Job>,
    /// Receive end of the job channel — workers pull from this.
    pub job_rx: crossbeam_channel::Receiver<Job>,
    /// Send end of the result channel — workers push [`JobResult`]s here.
    pub result_tx: crossbeam_channel::Sender<JobResult>,
    /// Receive end of the result channel — main thread drains this.
    pub result_rx: crossbeam_channel::Receiver<JobResult>,
}

impl WorkQueue {
    /// Jobs sent come out where jobs are received, and so do results.
    pub open spec fn connected(&self) -> bool {
        carries_jobs(self.job_tx, self.job_rx) && carries_results(self.result_tx, self.result_rx)
    }

    /// Creates a new `WorkQueue` with two unbounded crossbeam channels.
    pub fn new() -> (r: Self)
        ensures
            r.connected(),
    {
        let (job_tx, job_rx) = job_channel();
        let (result_tx, result_rx) = result_channel();
        WorkQueue { job_tx, job_rx, result_tx, result_rx }
    }
}

impl Default for WorkQueue {
    fn default() -> (r: Self)
        ensures
            r.connected(),
    {
        WorkQueue::new()
    }
}

} // verus!
