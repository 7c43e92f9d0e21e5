//! What the command line says.
use vstd::prelude::*;
use vstd::string::*;

verus! {

/// Output format for progress and status messages.
#[derive(Debug, Clone, Copy, PartialEq, Eq, Structural)]
pub enum OutputFormat {
    /// Rich human-readable terminal output (default).
    Human,
    /// Newline-delimited JSON events for CI/CD pipelines.
    Json,
}

/// The options of one invocation.
#[derive(Debug, PartialEq, Eq)]
pub struct Cli {
    /// Source folder (scanned recursively for `.shp` files).
    pub input: Option<String>,
    /// Output root directory (mirrors source structure).
    pub output: Option<String>,
    /// Number of parallel worker threads.
    pub jobs: Option<usize>,
    /// Skip files that were already successfully converted in a prior run.
    pub resume: bool,
    /// Discover and validate shapefiles without writing any output.
    pub dry_run: bool,
    /// Format for status and progress output.
    pub output_format: OutputFormat,
    /// Reproject to WGS84 when a `.prj` is present.
    pub reproject: bool,
    /// Pass coordinates through unchanged.
    pub no_reproject: bool,
    /// Write one Feature per line instead of a FeatureCollection.
    pub geojsonl: bool,
    /// Overwrite existing output files.
    pub overwrite: bool,
    /// Path for the error log file.
    pub log: Option<String>,
    /// Path to the project configuration file.
    pub config: Option<String>,
}

/// What an invocation lacks.
#[derive(Debug, Clone, Copy, PartialEq, Eq, Structural)]
pub enum MissingArgument {
    /// There is no input folder.
    Input,
    /// There is no output folder, and this is no dry run.
    Output,
}

impl Cli {
    /// The first required option that is absent.
    pub fn missing_argument(&self) -> (r: Option<MissingArgument>)
        ensures
            r == (if self.input is None {
                Some(MissingArgument::Input)
            } else if self.output is None && !self.dry_run {
                Some(MissingArgument::Output)
            } else {
                None
            }),
    {
        if self.input.is_none() {
            Some(MissingArgument::Input)
        } else if self.output.is_none() && !self.dry_run {
            Some(MissingArgument::Output)
        } else {
            None
        }
    }
}

impl MissingArgument {
    /// What the user reads of it.
    pub fn message(&self) -> (r: String)
        ensures
            r@ == (match self {
                MissingArgument::Input => "--input is required"@,
                MissingArgument::Output => "--output is required unless --dry-run is specified"@,
            }),
    {
        match self {
            MissingArgument::Input => String::from_str("--input is required"),
            MissingArgument::Output => String::from_str(
                "--output is required unless --dry-run is specified",
            ),
        }
    }
}

} // verus!
