//! What can go wrong in the conversion pipeline.
use vstd::prelude::*;
use vstd::string::*;

use crate::text::{lemma_middle_occurs, occurs};

verus! {

/// All errors that can occur in the conversion pipeline. What a library or the
/// system had to say is carried as text.
#[derive(Debug, PartialEq, Eq)]
pub enum AppError<T = String> {
    /// A required sidecar file (`.dbf` or `.shx`) is missing alongside a `.shp`.
    MissingSidecar { shp: T, ext: T },
    /// Geometry or records could not be read.
    ShapefileRead { path: T, source: T },
    /// A general I/O error associated with a file path.
    Io { path: T, source: T },
    /// A feature cannot be expressed in GeoJSON.
    GeoJson { path: T, reason: T },
    /// Reprojection was requested but the CRS is unavailable or invalid.
    Projection { path: T, reason: T },
    /// The output file already exists and must not be overwritten.
    OutputExists { path: T },
    /// The checkpoint state file cannot be read or written.
    Checkpoint { reason: T },
    /// The configuration file cannot be loaded.
    Config { reason: T },
}

impl View for AppError {
    type V = AppError<Seq<char>>;

    open spec fn view(&self) -> AppError<Seq<char>> {
        match self {
            AppError::MissingSidecar { shp, ext } => AppError::MissingSidecar {
                shp: shp@,
                ext: ext@,
            },
            AppError::ShapefileRead { path, source } => AppError::ShapefileRead {
                path: path@,
                source: source@,
            },
            AppError::Io { path, source } => AppError::Io { path: path@, source: source@ },
            AppError::GeoJson { path, reason } => AppError::GeoJson { path: path@, reason: reason@ },
            AppError::Projection { path, reason } => AppError::Projection {
                path: path@,
                reason: reason@,
            },
            AppError::OutputExists { path } => AppError::OutputExists { path: path@ },
            AppError::Checkpoint { reason } => AppError::Checkpoint { reason: reason@ },
            AppError::Config { reason } => AppError::Config { reason: reason@ },
        }
    }
}

/// What the user reads of an error.
pub open spec fn message_of(e: AppError<Seq<char>>) -> Seq<char> {
    match e {
        AppError::MissingSidecar { shp, ext } => "missing sidecar "@ + ext + " for "@ + shp,
        AppError::ShapefileRead { path, source } => "shapefile read error in "@ + path + ": "@
            + source,
        AppError::Io { path, source } => "I/O error for "@ + path + ": "@ + source,
        AppError::GeoJson { path, reason } => "GeoJSON serialisation error in "@ + path + ": "@
            + reason,
        AppError::Projection { path, reason } => "projection unavailable for "@ + path + ": "@
            + reason,
        AppError::OutputExists { path } => "output already exists: "@ + path
            + " (use --overwrite to replace)"@,
        AppError::Checkpoint { reason } => "checkpoint error: "@ + reason,
        AppError::Config { reason } => "config error: "@ + reason,
    }
}

fn two_parts(head: &str, first: &str, middle: &str, second: &str) -> (r: String)
    ensures
        r@ == head@ + first@ + middle@ + second@,
{
    let mut s = String::from_str(head);
    s.append(first);
    s.append(middle);
    s.append(second);
    s
}

impl AppError {
    /// What the user reads of this error.
    pub fn message(&self) -> (r: String)
        ensures
            r@ == message_of(self@),
    {
        match self {
            AppError::MissingSidecar { shp, ext } => two_parts(
                "missing sidecar ",
                ext.as_str(),
                " for ",
                shp.as_str(),
            ),
            AppError::ShapefileRead { path, source } => two_parts(
                "shapefile read error in ",
                path.as_str(),
                ": ",
                source.as_str(),
            ),
            AppError::Io { path, source } => two_parts(
                "I/O error for ",
                path.as_str(),
                ": ",
                source.as_str(),
            ),
            AppError::GeoJson { path, reason } => two_parts(
                "GeoJSON serialisation error in ",
                path.as_str(),
                ": ",
                reason.as_str(),
            ),
            AppError::Projection { path, reason } => two_parts(
                "projection unavailable for ",
                path.as_str(),
                ": ",
                reason.as_str(),
            ),
            AppError::OutputExists { path } => {
                let mut s = String::from_str("output already exists: ");
                s.append(path.as_str());
                s.append(" (use --overwrite to replace)");
                s
            },
            AppError::Checkpoint { reason } => {
                let mut s = String::from_str("checkpoint error: ");
                s.append(reason.as_str());
                s
            },
            AppError::Config { reason } => {
                let mut s = String::from_str("config error: ");
                s.append(reason.as_str());
                s
            },
        }
    }
}

/// What the user reads of an error names the file that it is about, and the cause.
pub proof fn law_message_names_file_and_cause(e: AppError<Seq<char>>)
    ensures
        match e {
            AppError::MissingSidecar { shp, ext } => occurs(message_of(e), shp) && occurs(
                message_of(e),
                ext,
            ),
            AppError::ShapefileRead { path, source } => occurs(
                message_of(e),
                path + ": "@ + source,
            ),
            AppError::Io { path, source } => occurs(message_of(e), path + ": "@ + source),
            AppError::GeoJson { path, reason } => occurs(message_of(e), path + ": "@ + reason),
            AppError::Projection { path, reason } => occurs(message_of(e), path + ": "@ + reason),
            AppError::OutputExists { path } => occurs(message_of(e), path) && occurs(
                message_of(e),
                "--overwrite"@,
            ),
            AppError::Checkpoint { reason } => occurs(message_of(e), reason),
            AppError::Config { reason } => occurs(message_of(e), reason),
        },
{
    let none = Seq::<char>::empty();
    let m = message_of(e);
    match e {
        AppError::MissingSidecar { shp, ext } => {
            assert(m =~= "missing sidecar "@ + ext + (" for "@ + shp));
            lemma_middle_occurs("missing sidecar "@, ext, " for "@ + shp);
            assert(m =~= ("missing sidecar "@ + ext + " for "@) + shp + none);
            lemma_middle_occurs("missing sidecar "@ + ext + " for "@, shp, none);
        },
        AppError::ShapefileRead { path, source } => {
            let rest = path + ": "@ + source;
            assert(m =~= "shapefile read error in "@ + rest + none);
            lemma_middle_occurs("shapefile read error in "@, rest, none);
        },
        AppError::Io { path, source } => {
            let rest = path + ": "@ + source;
            assert(m =~= "I/O error for "@ + rest + none);
            lemma_middle_occurs("I/O error for "@, rest, none);
        },
        AppError::GeoJson { path, reason } => {
            let rest = path + ": "@ + reason;
            assert(m =~= "GeoJSON serialisation error in "@ + rest + none);
            lemma_middle_occurs("GeoJSON serialisation error in "@, rest, none);
        },
        AppError::Projection { path, reason } => {
            let rest = path + ": "@ + reason;
            assert(m =~= "projection unavailable for "@ + rest + none);
            lemma_middle_occurs("projection unavailable for "@, rest, none);
        },
        AppError::OutputExists { path } => {
            let tail = " (use --overwrite to replace)"@;
            assert(m =~= "output already exists: "@ + path + tail);
            lemma_middle_occurs("output already exists: "@, path, tail);
            reveal_strlit(" (use --overwrite to replace)");
            reveal_strlit("--overwrite");
            let (a, c) = (tail.take(6), tail.skip(17));
            assert(tail =~= a + "--overwrite"@ + c);
            assert(m =~= ("output already exists: "@ + path + a) + "--overwrite"@ + c);
            lemma_middle_occurs("output already exists: "@ + path + a, "--overwrite"@, c);
        },
        AppError::Checkpoint { reason } => {
            assert(m =~= "checkpoint error: "@ + reason + none);
            lemma_middle_occurs("checkpoint error: "@, reason, none);
        },
        AppError::Config { reason } => {
            assert(m =~= "config error: "@ + reason + none);
            lemma_middle_occurs("config error: "@, reason, none);
        },
    }
}

} // verus!
