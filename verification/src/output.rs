//! What a run tells: events, sizes, and the lines of the error log.
use vstd::prelude::*;
use vstd::string::*;

use crate::cli::OutputFormat;
use crate::interactive::{all_digits, number_of};
use crate::text::{
    decimal, decimal_text, law_decimal_stands_for_the_number, law_padded_stands_for_the_number,
    lemma_middle_occurs, occurs, padded, padded_text,
};

verus! {

// ── Sizes ───────────────────────────────────────────────────────────────────
/// `n / d`, rounded to the nearest whole number, and to the even one of two that
/// are equally near.
pub open spec fn rounded(n: nat, d: nat) -> nat {
    let q = n / d;
    let r = n % d;
    if 2 * r < d || (2 * r == d && q % 2 == 0) {
        q
    } else {
        q + 1
    }
}

/// The distance between neighbouring numbers of 53 significant bits, about `n`.
pub open spec fn spacing(n: nat) -> nat
    decreases n,
{
    if n < 0x20_0000_0000_0000 {
        1
    } else {
        2 * spacing(n / 2)
    }
}

/// The number of 53 significant bits that is nearest to `n`: `n` in double precision.
pub open spec fn as_double(n: nat) -> nat {
    rounded(n, spacing(n)) * spacing(n)
}

/// `bytes / unit` in double precision, with one digit behind the point.
pub open spec fn tenths_text(bytes: nat, unit: nat) -> Seq<char> {
    let t = rounded(10 * as_double(bytes), unit);
    decimal(t / 10) + "."@ + decimal(t % 10)
}

/// `bytes / unit` in double precision, with three digits behind the point.
pub open spec fn thousandths_text(bytes: nat, unit: nat) -> Seq<char> {
    let t = rounded(1000 * as_double(bytes), unit);
    decimal(t / 1000) + "."@ + padded(t % 1000, 3)
}

pub const KB: u64 = 1024;

pub const MB: u64 = 1_048_576;

pub const GB: u64 = 1_073_741_824;

/// A byte count as the user reads it.
pub open spec fn bytes_text(bytes: nat) -> Seq<char> {
    if bytes >= GB {
        tenths_text(bytes, GB as nat) + " GB"@
    } else if bytes >= MB {
        tenths_text(bytes, MB as nat) + " MB"@
    } else if bytes >= KB {
        tenths_text(bytes, KB as nat) + " KB"@
    } else {
        decimal(bytes) + " B"@
    }
}

fn round_div(n: u128, d: u128) -> (r: u128)
    requires
        0 < d <= GB,
        n < 0x1000_0000_0000_0000_0000_0000,
    ensures
        r == rounded(n as nat, d as nat),
        r <= n,
{
    let q: u128 = n / d;
    let rest: u128 = n % d;
    proof {
        assert(q <= n) by (nonlinear_arith)
            requires
                q == n / d,
                0 < d,
        ;
        assert(2 * rest >= d ==> q + 1 <= n) by (nonlinear_arith)
            requires
                q == n / d,
                rest == n % d,
                0 < d,
        ;
    }
    if 2 * rest < d || (2 * rest == d && q % 2 == 0) {
        q
    } else {
        q + 1
    }
}

fn spacing_of(n: u64) -> (r: u64)
    ensures
        r == spacing(n as nat),
        1 <= r <= 4096,
        r > 1 ==> r * 0x10_0000_0000_0000 <= n,
    decreases n,
{
    if n < 0x20_0000_0000_0000 {
        1
    } else {
        2 * spacing_of(n / 2)
    }
}

fn to_double(n: u64) -> (r: u128)
    ensures
        r == as_double(n as nat),
        r <= 0x2_0000_0000_0000_0000,
{
    let s: u64 = spacing_of(n);
    let q: u128 = round_div(n as u128, s as u128);
    proof {
        let whole = n as int / s as int;
        assert(q <= whole + 1);
        assert(whole * s <= n) by (nonlinear_arith)
            requires
                whole == n as int / s as int,
                0 < s,
        ;
        assert(q * s <= (whole + 1) * s) by (nonlinear_arith)
            requires
                q <= whole + 1,
                0 < s,
        ;
        assert((whole + 1) * s == whole * s + s) by (nonlinear_arith);
    }
    q * (s as u128)
}

/// `bytes` in units of `unit`, to one decimal.
pub(crate) fn tenths(bytes: u64, unit: u64) -> (r: String)
    requires
        0 < unit <= GB,
    ensures
        r@ == tenths_text(bytes as nat, unit as nat),
{
    let t: u128 = round_div(10 * to_double(bytes), unit as u128);
    let mut s = decimal_text(t / 10);
    s.append(".");
    let tail = decimal_text(t % 10);
    s.append(tail.as_str());
    s
}

/// Formats a byte count as a human-readable string (B / KB / MB / GB).
pub fn format_bytes(bytes: u64) -> (r: String)
    ensures
        r@ == bytes_text(bytes as nat),
{
    if bytes >= GB {
        let mut s = tenths(bytes, GB);
        s.append(" GB");
        s
    } else if bytes >= MB {
        let mut s = tenths(bytes, MB);
        s.append(" MB");
        s
    } else if bytes >= KB {
        let mut s = tenths(bytes, KB);
        s.append(" KB");
        s
    } else {
        let mut s = decimal_text(bytes as u128);
        s.append(" B");
        s
    }
}

/// A byte count in gigabytes, with three digits behind the point.
pub fn format_gigabytes(bytes: u64) -> (r: String)
    ensures
        r@ == thousandths_text(bytes as nat, GB as nat),
{
    let t: u128 = round_div(1000 * to_double(bytes), GB as u128);
    let mut s = decimal_text(t / 1000);
    s.append(".");
    let tail = padded_text(t % 1000, 3);
    s.append(tail.as_str());
    s
}

// ── Events ──────────────────────────────────────────────────────────────────
/// A lifecycle event of a conversion run.
#[derive(Debug, PartialEq, Eq)]
pub enum OutputEvent<T = String> {
    /// Emitted once before any conversion work begins.
    Start {
        /// Total number of shapefile entries discovered (valid + invalid).
        total_files: usize,
        /// Sum of `.shp` file sizes for valid entries (bytes).
        total_bytes: u64,
        /// ISO 8601 UTC timestamp when the run started.
        timestamp: T,
    },
    /// Emitted after a file is converted successfully.
    FileDone {
        /// Path to the source `.shp` file.
        file: T,
        /// Path to the output GeoJSON / GeoJSONL file.
        output: T,
        /// Wall-clock time taken to convert this file (milliseconds).
        duration_ms: u64,
        /// Number of GeoJSON features written.
        features: u64,
    },
    /// Emitted when a file fails to convert (invalid sidecars or read errors).
    FileFailed {
        /// Path to the source `.shp` file.
        file: T,
        /// Human-readable description of why conversion failed.
        reason: T,
    },
    /// Emitted when a file is skipped because it was already completed in a prior run.
    FileSkipped {
        /// Path to the source `.shp` file.
        file: T,
        /// Human-readable reason for skipping.
        reason: T,
    },
    /// Emitted once after all files have been processed.
    BatchDone {
        /// Number of files converted successfully.
        converted: u64,
        /// Number of files that failed.
        failed: u64,
        /// Wall-clock time for the entire batch: seconds, to one decimal.
        elapsed_s: T,
        /// Gigabytes of `.shp` data processed, to three decimals.
        gb_processed: T,
    },
    /// Emitted when the user pauses the run via `/pause`.
    Paused {
        /// Number of files converted so far.
        converted: u64,
        /// Number of files failed so far.
        failed: u64,
        /// Number of files still pending in the queue.
        pending: usize,
    },
    /// Emitted when the user resumes the run via `/resume`.
    Resumed,
    /// Emitted when the user changes the worker count via `/workers N`.
    WorkersChanged {
        /// Previous active worker count.
        from: usize,
        /// New requested worker count.
        to: usize,
    },
    /// Emitted when a file is skipped because the user issued `/skip`.
    FileSkippedByUser {
        /// Relative path to the `.shp` file that was skipped.
        file: T,
    },
}

impl View for OutputEvent {
    type V = OutputEvent<Seq<char>>;

    open spec fn view(&self) -> OutputEvent<Seq<char>> {
        match self {
            OutputEvent::Start { total_files, total_bytes, timestamp } => OutputEvent::Start {
                total_files: *total_files,
                total_bytes: *total_bytes,
                timestamp: timestamp@,
            },
            OutputEvent::FileDone { file, output, duration_ms, features } => OutputEvent::FileDone {
                file: file@,
                output: output@,
                duration_ms: *duration_ms,
                features: *features,
            },
            OutputEvent::FileFailed { file, reason } => OutputEvent::FileFailed {
                file: file@,
                reason: reason@,
            },
            OutputEvent::FileSkipped { file, reason } => OutputEvent::FileSkipped {
                file: file@,
                reason: reason@,
            },
            OutputEvent::BatchDone { converted, failed, elapsed_s, gb_processed } =>
                OutputEvent::BatchDone {
                converted: *converted,
                failed: *failed,
                elapsed_s: elapsed_s@,
                gb_processed: gb_processed@,
            },
            OutputEvent::Paused { converted, failed, pending } => OutputEvent::Paused {
                converted: *converted,
                failed: *failed,
                pending: *pending,
            },
            OutputEvent::Resumed => OutputEvent::Resumed,
            OutputEvent::WorkersChanged { from, to } => OutputEvent::WorkersChanged {
                from: *from,
                to: *to,
            },
            OutputEvent::FileSkippedByUser { file } => OutputEvent::FileSkippedByUser {
                file: file@,
            },
        }
    }
}

/// What a person reads of an event.
pub open spec fn event_text(e: OutputEvent<Seq<char>>) -> Seq<char> {
    match e {
        OutputEvent::Start { total_files, total_bytes, timestamp } => "Starting conversion: "@
            + decimal(total_files as nat) + " file(s), "@ + bytes_text(total_bytes as nat)
            + " input, "@ + timestamp,
        OutputEvent::FileDone { file, output, duration_ms, features } => "converted  "@ + file
            + " -> "@ + output + "  ("@ + decimal(features as nat) + " features, "@ + decimal(
            duration_ms as nat,
        ) + "ms)"@,
        OutputEvent::FileFailed { file, reason } => "FAILED   "@ + file + " — "@ + reason,
        OutputEvent::FileSkipped { file, reason } => "SKIPPED  "@ + file + " — "@ + reason,
        OutputEvent::BatchDone { converted, failed, elapsed_s, gb_processed } => "\nDone: "@
            + decimal(converted as nat) + " converted, "@ + decimal(failed as nat) + " failed, "@
            + elapsed_s + "s elapsed, "@ + gb_processed + " GB processed"@,
        OutputEvent::Paused { converted, failed, pending } => "PAUSED — "@ + decimal(
            converted as nat,
        ) + " done, "@ + decimal(failed as nat) + " failed, "@ + decimal(pending as nat)
            + " pending"@,
        OutputEvent::Resumed => "RESUMED — workers are running"@,
        OutputEvent::WorkersChanged { from, to } => "Workers: "@ + decimal(from as nat) + " → "@
            + decimal(to as nat),
        OutputEvent::FileSkippedByUser { file } => "SKIPPED (user)  "@ + file,
    }
}

fn append_number(s: &mut String, n: u64)
    ensures
        final(s)@ == old(s)@ + decimal(n as nat),
{
    let d = decimal_text(n as u128);
    s.append(d.as_str());
}

impl OutputEvent {
    /// What a person reads of this event.
    pub fn to_text(&self) -> (r: String)
        ensures
            r@ == event_text(self@),
    {
        match self {
            OutputEvent::Start { total_files, total_bytes, timestamp } => {
                let mut s = String::from_str("Starting conversion: ");
                append_number(&mut s, *total_files as u64);
                s.append(" file(s), ");
                let size = format_bytes(*total_bytes);
                s.append(size.as_str());
                s.append(" input, ");
                s.append(timestamp.as_str());
                s
            },
            OutputEvent::FileDone { file, output, duration_ms, features } => {
                let mut s = String::from_str("converted  ");
                s.append(file.as_str());
                s.append(" -> ");
                s.append(output.as_str());
                s.append("  (");
                append_number(&mut s, *features);
                s.append(" features, ");
                append_number(&mut s, *duration_ms);
                s.append("ms)");
                s
            },
            OutputEvent::FileFailed { file, reason } => {
                let mut s = String::from_str("FAILED   ");
                s.append(file.as_str());
                s.append(" — ");
                s.append(reason.as_str());
                s
            },
            OutputEvent::FileSkipped { file, reason } => {
                let mut s = String::from_str("SKIPPED  ");
                s.append(file.as_str());
                s.append(" — ");
                s.append(reason.as_str());
                s
            },
            OutputEvent::BatchDone { converted, failed, elapsed_s, gb_processed } => {
                let mut s = String::from_str("\nDone: ");
                append_number(&mut s, *converted);
                s.append(" converted, ");
                append_number(&mut s, *failed);
                s.append(" failed, ");
                s.append(elapsed_s.as_str());
                s.append("s elapsed, ");
                s.append(gb_processed.as_str());
                s.append(" GB processed");
                s
            },
            OutputEvent::Paused { converted, failed, pending } => {
                let mut s = String::from_str("PAUSED — ");
                append_number(&mut s, *converted);
                s.append(" done, ");
                append_number(&mut s, *failed);
                s.append(" failed, ");
                append_number(&mut s, *pending as u64);
                s.append(" pending");
                s
            },
            OutputEvent::Resumed => String::from_str("RESUMED — workers are running"),
            OutputEvent::WorkersChanged { from, to } => {
                let mut s = String::from_str("Workers: ");
                append_number(&mut s, *from as u64);
                s.append(" → ");
                append_number(&mut s, *to as u64);
                s
            },
            OutputEvent::FileSkippedByUser { file } => {
                let mut s = String::from_str("SKIPPED (user)  ");
                s.append(file.as_str());
                s
            },
        }
    }
}

// ── Where events go ─────────────────────────────────────────────────────────
/// How an event leaves the program.
#[derive(Debug, PartialEq, Eq)]
pub enum Emission<T = String> {
    /// As a line of JSON, on stdout.
    Json,
    /// As this text, on stderr, above the progress bars where there are any.
    Text(T),
}

impl View for Emission {
    type V = Emission<Seq<char>>;

    open spec fn view(&self) -> Emission<Seq<char>> {
        match self {
            Emission::Json => Emission::Json,
            Emission::Text(text) => Emission::Text(text@),
        }
    }
}

/// Decides how an event leaves the program.
///
/// This is the single point responsible for the stdout/stderr routing decision.
pub fn emit(event: &OutputEvent, format: OutputFormat) -> (r: Emission)
    ensures
        r@ == (match format {
            OutputFormat::Json => Emission::Json,
            OutputFormat::Human => Emission::Text(event_text(event@)),
        }),
{
    match format {
        OutputFormat::Json => Emission::Json,
        OutputFormat::Human => Emission::Text(event.to_text()),
    }
}

// ── The error log ───────────────────────────────────────────────────────────
/// What a line of the error log is about.
#[derive(Debug, Clone, Copy, PartialEq, Eq, Structural)]
pub enum LogLevel {
    /// Conversion was attempted and failed.
    Failed,
    /// Sidecar validation failed; conversion was never attempted.
    Invalid,
    /// The file was skipped.
    Skipped,
    /// The file is converted, with a caveat.
    Warn,
}

/// The level as it stands in the log, filled up to eight characters.
pub open spec fn level_text(level: LogLevel) -> Seq<char> {
    match level {
        LogLevel::Failed => "FAILED  "@,
        LogLevel::Invalid => "INVALID "@,
        LogLevel::Skipped => "SKIPPED "@,
        LogLevel::Warn => "WARN    "@,
    }
}

/// A line of the error log: `[YYYY-MM-DD HH:MM:SS] LEVEL    path  — reason`.
pub fn log_line(timestamp: &str, level: LogLevel, shp: &str, reason: &str) -> (r: String)
    ensures
        r@ == "["@ + timestamp@ + "] "@ + level_text(level) + " "@ + shp@ + "  — "@ + reason@
            + "\n"@,
{
    let mut s = String::from_str("[");
    s.append(timestamp);
    s.append("] ");
    s.append(
        match level {
            LogLevel::Failed => "FAILED  ",
            LogLevel::Invalid => "INVALID ",
            LogLevel::Skipped => "SKIPPED ",
            LogLevel::Warn => "WARN    ",
        },
    );
    s.append(" ");
    s.append(shp);
    s.append("  — ");
    s.append(reason);
    s.append("\n");
    s
}

// ── Laws ────────────────────────────────────────────────────────────────────
/// Rounding gives a whole number that none is nearer than, and the even one of two that
/// are equally near.
pub proof fn law_rounding_is_to_the_nearest(n: nat, d: nat)
    requires
        d > 0,
    ensures
        2 * n <= 2 * (rounded(n, d) * d) + d,
        2 * (rounded(n, d) * d) <= 2 * n + d,
        2 * n == 2 * (rounded(n, d) * d) + d || 2 * (rounded(n, d) * d) == 2 * n + d ==> rounded(
            n,
            d,
        ) % 2 == 0,
{
    let (q, r) = (n / d, n % d);
    assert(n == q * d + r && r < d) by (nonlinear_arith)
        requires
            q == n / d,
            r == n % d,
            d > 0,
    ;
    assert((q + 1) * d == q * d + d) by (nonlinear_arith);
}

/// Byte counts up to 2^53 are exact in double precision.
pub proof fn law_small_counts_are_exact(n: nat)
    requires
        n <= 0x20_0000_0000_0000,
    ensures
        as_double(n) == n,
{
    reveal_with_fuel(spacing, 2);
    if n == 0x20_0000_0000_0000 {
        assert(spacing(n) == 2);
        assert(n / 2 * 2 == n);
    } else {
        assert(spacing(n) == 1);
        assert(n / 1 == n);
        assert(n % 1 == 0);
    }
}

/// `whole` and `part` are decimal digits that stand for the number `t / scale`, with as
/// many behind the point as the scale has zeros.
pub open spec fn reads_as_fraction(
    text: Seq<char>,
    whole: Seq<char>,
    part: Seq<char>,
    t: nat,
    scale: nat,
) -> bool {
    &&& text == whole + "."@ + part
    &&& all_digits(whole)
    &&& all_digits(part)
    &&& number_of(whole) * scale + number_of(part) == t
    &&& number_of(part) < scale
}

/// A size in some unit is given to the nearest tenth.
pub proof fn law_tenths_are_nearest(bytes: nat, unit: nat)
    requires
        unit > 0,
    ensures
        exists|whole: Seq<char>, part: Seq<char>, t: nat| #[trigger]
            reads_as_fraction(tenths_text(bytes, unit), whole, part, t, 10) && part.len() == 1 && 2
                * (10 * as_double(bytes)) <= 2 * (t * unit) + unit && 2 * (t * unit) <= 2 * (10
                * as_double(bytes)) + unit,
{
    let t = rounded(10 * as_double(bytes), unit);
    law_rounding_is_to_the_nearest(10 * as_double(bytes), unit);
    law_decimal_stands_for_the_number(t / 10);
    law_decimal_stands_for_the_number(t % 10);
    assert(reads_as_fraction(
        tenths_text(bytes, unit),
        decimal(t / 10),
        decimal(t % 10),
        t,
        10,
    ));
}

/// A size in some unit is given to the nearest thousandth.
pub proof fn law_thousandths_are_nearest(bytes: nat, unit: nat)
    requires
        unit > 0,
    ensures
        exists|whole: Seq<char>, part: Seq<char>, t: nat| #[trigger]
            reads_as_fraction(thousandths_text(bytes, unit), whole, part, t, 1000) && part.len()
                == 3 && 2 * (1000 * as_double(bytes)) <= 2 * (t * unit) + unit && 2 * (t * unit)
                <= 2 * (1000 * as_double(bytes)) + unit,
{
    let t = rounded(1000 * as_double(bytes), unit);
    law_rounding_is_to_the_nearest(1000 * as_double(bytes), unit);
    law_decimal_stands_for_the_number(t / 1000);
    law_decimal_stands_for_the_number(t % 1000);
    law_padded_stands_for_the_number(t % 1000, 3);
    reveal_with_fuel(decimal, 4);
    assert(padded(t % 1000, 3).len() == 3);
    assert(reads_as_fraction(
        thousandths_text(bytes, unit),
        decimal(t / 1000),
        padded(t % 1000, 3),
        t,
        1000,
    ));
}

/// A byte count is given in the largest unit that it comes to, and in bytes below a
/// kilobyte. A unit is 1024 of the next smaller one.
pub proof fn law_unit_follows_the_size(bytes: nat)
    ensures
        bytes < 1024 ==> bytes_text(bytes) == decimal(bytes) + " B"@,
        1024 <= bytes < 1024 * 1024 ==> bytes_text(bytes) == tenths_text(bytes, 1024) + " KB"@,
        1024 * 1024 <= bytes < 1024 * 1024 * 1024 ==> bytes_text(bytes) == tenths_text(
            bytes,
            1024 * 1024,
        ) + " MB"@,
        bytes >= 1024 * 1024 * 1024 ==> bytes_text(bytes) == tenths_text(bytes, 1024 * 1024 * 1024)
            + " GB"@,
{
}

/// What a person reads of an event tells the facts of the event: files, reasons and
/// numbers, each with what it is.
#[verifier::spinoff_prover]
#[verifier::rlimit(40)]
pub proof fn law_events_tell_their_facts(e: OutputEvent<Seq<char>>)
    ensures
        match e {
            OutputEvent::Start { total_files, total_bytes, timestamp } => {
                &&& occurs(event_text(e), ": "@ + decimal(total_files as nat) + " file(s), "@)
                &&& occurs(event_text(e), bytes_text(total_bytes as nat) + " input, "@ + timestamp)
            },
            OutputEvent::FileDone { file, output, duration_ms, features } => {
                &&& "converted  "@.is_prefix_of(event_text(e))
                &&& occurs(event_text(e), file + " -> "@ + output)
                &&& occurs(event_text(e), decimal(features as nat) + " features, "@)
                &&& occurs(event_text(e), decimal(duration_ms as nat) + "ms)"@)
            },
            OutputEvent::FileFailed { file, reason } => {
                &&& "FAILED   "@.is_prefix_of(event_text(e))
                &&& occurs(event_text(e), file + " — "@ + reason)
            },
            OutputEvent::FileSkipped { file, reason } => {
                &&& "SKIPPED  "@.is_prefix_of(event_text(e))
                &&& occurs(event_text(e), file + " — "@ + reason)
            },
            OutputEvent::BatchDone { converted, failed, elapsed_s, gb_processed } => {
                &&& "\nDone: "@.is_prefix_of(event_text(e))
                &&& occurs(event_text(e), decimal(converted as nat) + " converted, "@)
                &&& occurs(event_text(e), decimal(failed as nat) + " failed, "@)
                &&& occurs(event_text(e), elapsed_s + "s elapsed, "@)
                &&& occurs(event_text(e), gb_processed + " GB processed"@)
            },
            OutputEvent::Paused { converted, failed, pending } => {
                &&& "PAUSED — "@.is_prefix_of(event_text(e))
                &&& occurs(event_text(e), decimal(converted as nat) + " done, "@)
                &&& occurs(event_text(e), decimal(failed as nat) + " failed, "@)
                &&& occurs(event_text(e), decimal(pending as nat) + " pending"@)
            },
            OutputEvent::Resumed => event_text(e) == "RESUMED — workers are running"@,
            OutputEvent::WorkersChanged { from, to } => {
                &&& "Workers: "@.is_prefix_of(event_text(e))
                &&& occurs(event_text(e), decimal(from as nat) + " → "@ + decimal(to as nat))
            },
            OutputEvent::FileSkippedByUser { file } => {
                &&& "SKIPPED (user)  "@.is_prefix_of(event_text(e))
                &&& occurs(event_text(e), file)
            },
        },
{
    let none = Seq::<char>::empty();
    let s = event_text(e);
    match e {
        OutputEvent::Start { total_files, total_bytes, timestamp } => {
            reveal_strlit("Starting conversion: ");
            reveal_strlit(": ");
            let head = "Starting conversion: "@.take(19);
            assert("Starting conversion: "@ =~= head + ": "@);
            let n = ": "@ + decimal(total_files as nat) + " file(s), "@;
            let tail = bytes_text(total_bytes as nat) + " input, "@ + timestamp;
            assert(s =~= head + n + tail);
            lemma_middle_occurs(head, n, tail);
            assert(s =~= (head + n) + tail + none);
            lemma_middle_occurs(head + n, tail, none);
        },
        OutputEvent::FileDone { file, output, duration_ms, features } => {
            let head = "converted  "@;
            let names = file + " -> "@ + output;
            let f = decimal(features as nat) + " features, "@;
            let d = decimal(duration_ms as nat) + "ms)"@;
            assert(s =~= head + names + ("  ("@ + f + d));
            lemma_middle_occurs(head, names, "  ("@ + f + d);
            assert(s =~= (head + names + "  ("@) + f + d);
            lemma_middle_occurs(head + names + "  ("@, f, d);
            assert(s =~= (head + names + "  ("@ + f) + d + none);
            lemma_middle_occurs(head + names + "  ("@ + f, d, none);
            assert(head =~= s.subrange(0, head.len() as int));
        },
        OutputEvent::FileFailed { file, reason } => {
            let (head, tail) = ("FAILED   "@, file + " — "@ + reason);
            assert(s =~= head + tail + none);
            lemma_middle_occurs(head, tail, none);
            assert(head =~= s.subrange(0, head.len() as int));
        },
        OutputEvent::FileSkipped { file, reason } => {
            let (head, tail) = ("SKIPPED  "@, file + " — "@ + reason);
            assert(s =~= head + tail + none);
            lemma_middle_occurs(head, tail, none);
            assert(head =~= s.subrange(0, head.len() as int));
        },
        OutputEvent::BatchDone { converted, failed, elapsed_s, gb_processed } => {
            let head = "\nDone: "@;
            let a = decimal(converted as nat) + " converted, "@;
            let b = decimal(failed as nat) + " failed, "@;
            let c = elapsed_s + "s elapsed, "@;
            let d = gb_processed + " GB processed"@;
            assert(s =~= head + a + (b + c + d));
            lemma_middle_occurs(head, a, b + c + d);
            assert(s =~= (head + a) + b + (c + d));
            lemma_middle_occurs(head + a, b, c + d);
            assert(s =~= (head + a + b) + c + d);
            lemma_middle_occurs(head + a + b, c, d);
            assert(s =~= (head + a + b + c) + d + none);
            lemma_middle_occurs(head + a + b + c, d, none);
            assert(head =~= s.subrange(0, head.len() as int));
        },
        OutputEvent::Paused { converted, failed, pending } => {
            let head = "PAUSED — "@;
            let a = decimal(converted as nat) + " done, "@;
            let b = decimal(failed as nat) + " failed, "@;
            let c = decimal(pending as nat) + " pending"@;
            assert(s =~= head + a + (b + c));
            lemma_middle_occurs(head, a, b + c);
            assert(s =~= (head + a) + b + c);
            lemma_middle_occurs(head + a, b, c);
            assert(s =~= (head + a + b) + c + none);
            lemma_middle_occurs(head + a + b, c, none);
            assert(head =~= s.subrange(0, head.len() as int));
        },
        OutputEvent::Resumed => {},
        OutputEvent::WorkersChanged { from, to } => {
            let tail = decimal(from as nat) + " → "@ + decimal(to as nat);
            let head = "Workers: "@;
            assert(s =~= head + tail + none);
            lemma_middle_occurs(head, tail, none);
            assert(head =~= s.subrange(0, head.len() as int));
        },
        OutputEvent::FileSkippedByUser { file } => {
            let head = "SKIPPED (user)  "@;
            assert(s =~= head + file + none);
            lemma_middle_occurs(head, file, none);
            assert(head =~= s.subrange(0, head.len() as int));
        },
    }
}

/// The levels of the error log all take eight characters, and tell each other apart.
pub proof fn law_levels_are_told_apart(a: LogLevel, b: LogLevel)
    ensures
        level_text(a).len() == 8,
        level_text(a) == level_text(b) <==> a == b,
        "FAILED"@.is_prefix_of(level_text(LogLevel::Failed)),
        "INVALID"@.is_prefix_of(level_text(LogLevel::Invalid)),
        "SKIPPED"@.is_prefix_of(level_text(LogLevel::Skipped)),
        "WARN"@.is_prefix_of(level_text(LogLevel::Warn)),
{
    reveal_strlit("FAILED  ");
    reveal_strlit("INVALID ");
    reveal_strlit("SKIPPED ");
    reveal_strlit("WARN    ");
    reveal_strlit("FAILED");
    reveal_strlit("INVALID");
    reveal_strlit("SKIPPED");
    reveal_strlit("WARN");
    assert(level_text(LogLevel::Failed)[0] == 'F');
    assert(level_text(LogLevel::Invalid)[0] == 'I');
    assert(level_text(LogLevel::Skipped)[0] == 'S');
    assert(level_text(LogLevel::Warn)[0] == 'W');
    assert("FAILED"@ =~= level_text(LogLevel::Failed).subrange(0, 6));
    assert("INVALID"@ =~= level_text(LogLevel::Invalid).subrange(0, 7));
    assert("SKIPPED"@ =~= level_text(LogLevel::Skipped).subrange(0, 7));
    assert("WARN"@ =~= level_text(LogLevel::Warn).subrange(0, 4));
}

/// A count in double precision has 53 significant bits: the distance between neighbours
/// is a power of two, such that the count lies between 2^52 and 2^53 of them, and the
/// count is moved by half that distance at most.
pub proof fn law_double_has_53_bits(n: nat)
    ensures
        spacing(n) >= 1,
        n < spacing(n) * 0x20_0000_0000_0000,
        n >= 0x20_0000_0000_0000 ==> spacing(n) * 0x10_0000_0000_0000 <= n,
        n >= 0x20_0000_0000_0000 ==> spacing(n) == 2 * spacing(n / 2),
        2 * n <= 2 * as_double(n) + spacing(n),
        2 * as_double(n) <= 2 * n + spacing(n),
    decreases n,
{
    if n >= 0x20_0000_0000_0000 {
        law_double_has_53_bits(n / 2);
        if n / 2 < 0x20_0000_0000_0000 {
            assert(spacing(n / 2) == 1);
        }
    }
    law_rounding_is_to_the_nearest(n, spacing(n));
}

} // verus!
