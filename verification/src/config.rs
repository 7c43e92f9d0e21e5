//! The configuration file, and how it and the command line settle a run.
use vstd::prelude::*;
use vstd::string::*;

use crate::cli::Cli;
use crate::error::AppError;
use crate::paths::{join, joined_path};
use crate::text::same_text;

verus! {

/// Top-level structure of `.shp2geojson.toml`.
#[derive(Debug, PartialEq, Eq)]
pub struct AppConfig {
    pub conversion: Option<ConversionConfig>,
    pub output: Option<OutputConfig>,
    pub hooks: Option<HooksConfig>,
}

/// Conversion-related settings. All fields are optional; command line flags always
/// take precedence.
#[derive(Debug, PartialEq, Eq)]
pub struct ConversionConfig {
    pub reproject: Option<bool>,
    /// Output format: `"geojson"` or `"geojsonl"`.
    pub output_format: Option<String>,
    pub overwrite: Option<bool>,
    pub jobs: Option<usize>,
}

/// Output-related settings.
#[derive(Debug, PartialEq, Eq)]
pub struct OutputConfig {
    pub log_file: Option<String>,
    /// Reserved; directory mirroring is always enabled.
    pub mirror_structure: Option<bool>,
}

/// Shell hook commands fired on lifecycle events.
///
/// Each field is an optional shell command template. Template variables use
/// `{{name}}` syntax and are substituted before execution.
#[derive(Debug, PartialEq, Eq)]
pub struct HooksConfig {
    /// Fired after each file is converted successfully.
    pub on_file_complete: Option<String>,
    /// Fired after each file fails to convert.
    pub on_file_failed: Option<String>,
    /// Fired once after the entire batch finishes.
    pub on_batch_done: Option<String>,
    /// Fired when the user pauses the run via `/pause`.
    pub on_pause: Option<String>,
}

impl Default for AppConfig {
    fn default() -> (r: Self)
        ensures
            r.conversion is None,
            r.output is None,
            r.hooks is None,
    {
        AppConfig { conversion: None, output: None, hooks: None }
    }
}

/// The config file of a run: the one that `--config` names, otherwise
/// `.shp2geojson.toml` in the current directory. The flag says whether it was named.
pub fn resolve_config_path(cli_config: &Option<String>) -> (r: (String, bool))
    ensures
        match cli_config {
            Some(p) => r.0@ == p@ && r.1,
            None => r.0@ == ".shp2geojson.toml"@ && !r.1,
        },
{
    match cli_config {
        Some(p) => (p.clone(), true),
        None => (String::from_str(".shp2geojson.toml"), false),
    }
}

/// What came of reading and parsing a config file. Failures are carried as text.
#[derive(Debug, PartialEq, Eq)]
pub enum ConfigRead {
    /// The file was read, and this is what it says.
    Parsed(AppConfig),
    /// The file was read, but is no valid configuration.
    Malformed(String),
    /// There is no such file.
    NotFound(String),
    /// The file is there, but cannot be read.
    Unreadable(String),
}

fn config_error(what: &str, path: &str, cause: &str) -> (r: AppError)
    ensures
        r@ == (AppError::Config { reason: what@ + path@ + ": "@ + cause@ }),
{
    let mut reason = String::from_str(what);
    reason.append(path);
    reason.append(": ");
    reason.append(cause);
    AppError::Config { reason }
}

/// The configuration of a run, from what came of reading the file at `path`.
///
/// Where the user named the file (`explicit`), a missing file is an error;
/// otherwise it stands for an empty configuration.
pub fn load_config(path: &str, explicit: bool, read: ConfigRead) -> (r: Result<AppConfig, AppError>)
    ensures
        match read {
            ConfigRead::Parsed(config) => r == Ok::<AppConfig, AppError>(config),
            ConfigRead::Malformed(e) => r matches Err(err) && err@ == (AppError::Config {
                reason: "failed to parse "@ + path@ + ": "@ + e@,
            }),
            ConfigRead::NotFound(e) => if explicit {
                r matches Err(err) && err@ == (AppError::Config {
                    reason: "cannot read "@ + path@ + ": "@ + e@,
                })
            } else {
                r matches Ok(c) && c.conversion is None && c.output is None && c.hooks is None
            },
            ConfigRead::Unreadable(e) => r matches Err(err) && err@ == (AppError::Config {
                reason: "cannot read "@ + path@ + ": "@ + e@,
            }),
        },
{
    match read {
        ConfigRead::Parsed(config) => Ok(config),
        ConfigRead::Malformed(e) => Err(config_error("failed to parse ", path, e.as_str())),
        ConfigRead::NotFound(e) => if explicit {
            Err(config_error("cannot read ", path, e.as_str()))
        } else {
            Ok(AppConfig::default())
        },
        ConfigRead::Unreadable(e) => Err(config_error("cannot read ", path, e.as_str())),
    }
}

/// How a run converts.
#[derive(Debug, PartialEq, Eq)]
pub struct RunSettings {
    /// Write GeoJSONL instead of a FeatureCollection.
    pub geojsonl: bool,
    /// Replace existing output files.
    pub overwrite: bool,
    /// Reproject to WGS84 where a `.prj` is present.
    pub reproject: bool,
    /// Number of workers that was asked for.
    pub jobs: Option<usize>,
    /// Path of the error log.
    pub log_path: String,
}

/// Whether a run writes GeoJSONL.
pub open spec fn chosen_geojsonl(cli: &Cli, config: &AppConfig) -> bool {
    ||| cli.geojsonl
    ||| config.conversion matches Some(c) && c.output_format matches Some(f) && f@ == "geojsonl"@
}

/// Whether a run replaces existing output files.
pub open spec fn chosen_overwrite(cli: &Cli, config: &AppConfig) -> bool {
    ||| cli.overwrite
    ||| config.conversion matches Some(c) && c.overwrite == Some(true)
}

/// Whether a run reprojects.
pub open spec fn chosen_reproject(cli: &Cli, config: &AppConfig) -> bool {
    if cli.reproject {
        true
    } else if cli.no_reproject {
        false
    } else {
        match config.conversion {
            Some(c) => c.reproject != Some(false),
            None => true,
        }
    }
}

/// The number of workers that a run is asked to have.
pub open spec fn chosen_jobs(cli: &Cli, config: &AppConfig) -> Option<usize> {
    match cli.jobs {
        Some(n) => Some(n),
        None => match config.conversion {
            Some(c) => match c.jobs {
                Some(n) => if n > 0 {
                    Some(n)
                } else {
                    None
                },
                None => None,
            },
            None => None,
        },
    }
}

/// Where a run logs errors.
pub open spec fn chosen_log(cli: &Cli, config: &AppConfig, output_root: Seq<char>) -> Seq<char> {
    match cli.log {
        Some(p) => p@,
        None => match config.output {
            Some(o) => match o.log_file {
                Some(p) => p@,
                None => joined_path(output_root, "conversion_errors.log"@),
            },
            None => joined_path(output_root, "conversion_errors.log"@),
        },
    }
}

/// Settles a run: the command line decides, then the config file, then the defaults.
pub fn merge_settings(cli: &Cli, config: &AppConfig, output_root: &str) -> (r: RunSettings)
    ensures
        r.geojsonl == chosen_geojsonl(cli, config),
        r.overwrite == chosen_overwrite(cli, config),
        r.reproject == chosen_reproject(cli, config),
        r.jobs == chosen_jobs(cli, config),
        r.log_path@ == chosen_log(cli, config, output_root@),
{
    let mut geojsonl = cli.geojsonl;
    let mut overwrite = cli.overwrite;
    let mut reproject = true;
    let mut jobs: Option<usize> = None;
    if let Some(c) = &config.conversion {
        if let Some(f) = &c.output_format {
            if same_text(f.as_str(), "geojsonl") {
                geojsonl = true;
            }
        }
        if let Some(o) = c.overwrite {
            if o {
                overwrite = true;
            }
        }
        if let Some(p) = c.reproject {
            reproject = p;
        }
        if let Some(n) = c.jobs {
            if n > 0 {
                jobs = Some(n);
            }
        }
    }
    if cli.reproject {
        reproject = true;
    } else if cli.no_reproject {
        reproject = false;
    }
    if cli.jobs.is_some() {
        jobs = cli.jobs;
    }
    let log_path = match &cli.log {
        Some(p) => p.clone(),
        None => match &config.output {
            Some(o) => match &o.log_file {
                Some(p) => p.clone(),
                None => join(output_root, "conversion_errors.log"),
            },
            None => join(output_root, "conversion_errors.log"),
        },
    };
    RunSettings { geojsonl, overwrite, reproject, jobs, log_path }
}

/// A flag on the command line decides, whatever the config file says.
pub proof fn law_command_line_decides(cli: &Cli, config: &AppConfig, root: Seq<char>)
    ensures
        cli.geojsonl ==> chosen_geojsonl(cli, config),
        cli.overwrite ==> chosen_overwrite(cli, config),
        cli.reproject ==> chosen_reproject(cli, config),
        !cli.reproject && cli.no_reproject ==> !chosen_reproject(cli, config),
        cli.jobs is Some ==> chosen_jobs(cli, config) == cli.jobs,
        cli.log matches Some(p) ==> chosen_log(cli, config, root) == p@,
{
}

/// Where neither the command line nor the config file says anything, a run writes
/// FeatureCollections, keeps existing output, reprojects, leaves the number of workers
/// open, and logs errors in the output root.
pub proof fn law_defaults(cli: &Cli, config: &AppConfig, root: Seq<char>)
    requires
        config.conversion is None,
        config.output is None,
    ensures
        !cli.geojsonl ==> !chosen_geojsonl(cli, config),
        !cli.overwrite ==> !chosen_overwrite(cli, config),
        !cli.no_reproject ==> chosen_reproject(cli, config),
        cli.jobs is None ==> chosen_jobs(cli, config) is None,
        cli.log is None ==> chosen_log(cli, config, root) == joined_path(
            root,
            "conversion_errors.log"@,
        ),
{
}

/// What the config file says of reprojection, if anything.
pub open spec fn given_reproject(config: &AppConfig) -> Option<bool> {
    match config.conversion {
        Some(c) => c.reproject,
        None => None,
    }
}

/// What the config file says of overwriting, if anything.
pub open spec fn given_overwrite(config: &AppConfig) -> Option<bool> {
    match config.conversion {
        Some(c) => c.overwrite,
        None => None,
    }
}

/// What the config file says of the output format, if anything.
pub open spec fn given_format(config: &AppConfig) -> Option<Seq<char>> {
    match config.conversion {
        Some(c) => match c.output_format {
            Some(f) => Some(f@),
            None => None,
        },
        None => None,
    }
}

/// What the config file says of the number of workers, if anything.
pub open spec fn given_jobs(config: &AppConfig) -> Option<usize> {
    match config.conversion {
        Some(c) => c.jobs,
        None => None,
    }
}

/// What the config file says of the error log, if anything.
pub open spec fn given_log(config: &AppConfig) -> Option<Seq<char>> {
    match config.output {
        Some(o) => match o.log_file {
            Some(p) => Some(p@),
            None => None,
        },
        None => None,
    }
}

/// Where the command line is silent about a setting, what the config file gives for that
/// setting is chosen, whatever it says of the others. Where it gives nothing for it, in a
/// section or for want of one, the default is: reprojection, no overwriting,
/// FeatureCollections, as many workers as there are processors, and a log in the output
/// root. No workers at all cannot be asked for.
pub proof fn law_config_file_decides_each_setting(cli: &Cli, config: &AppConfig, root: Seq<char>)
    ensures
        !cli.reproject && !cli.no_reproject ==> chosen_reproject(cli, config) == (
        match given_reproject(config) {
            Some(b) => b,
            None => true,
        }),
        !cli.overwrite ==> chosen_overwrite(cli, config) == (given_overwrite(config) == Some(true)),
        !cli.geojsonl ==> chosen_geojsonl(cli, config) == (given_format(config) == Some(
            "geojsonl"@,
        )),
        cli.jobs is None && given_jobs(config) is None ==> chosen_jobs(cli, config) is None,
        cli.jobs is None && given_jobs(config) == Some(0usize) ==> chosen_jobs(cli, config) is None,
        cli.jobs is None && given_jobs(config) is Some && given_jobs(config) != Some(0usize)
            ==> chosen_jobs(cli, config) == given_jobs(config),
        cli.log is None && given_log(config) is Some ==> chosen_log(cli, config, root)
            == given_log(config).unwrap(),
        cli.log is None && given_log(config) is None ==> chosen_log(cli, config, root)
            == joined_path(root, "conversion_errors.log"@),
{
}

/// What one setting is depends on nothing that is said of another.
pub proof fn law_settings_are_settled_apart(
    cli: &Cli,
    cli2: &Cli,
    config: &AppConfig,
    config2: &AppConfig,
    root: Seq<char>,
)
    ensures
        cli.reproject == cli2.reproject && cli.no_reproject == cli2.no_reproject && given_reproject(
            config,
        ) == given_reproject(config2) ==> chosen_reproject(cli, config) == chosen_reproject(
            cli2,
            config2,
        ),
        cli.overwrite == cli2.overwrite && given_overwrite(config) == given_overwrite(config2)
            ==> chosen_overwrite(cli, config) == chosen_overwrite(cli2, config2),
        cli.geojsonl == cli2.geojsonl && given_format(config) == given_format(config2)
            ==> chosen_geojsonl(cli, config) == chosen_geojsonl(cli2, config2),
        cli.jobs == cli2.jobs && given_jobs(config) == given_jobs(config2) ==> chosen_jobs(
            cli,
            config,
        ) == chosen_jobs(cli2, config2),
        cli.log == cli2.log && given_log(config) == given_log(config2) ==> chosen_log(
            cli,
            config,
            root,
        ) == chosen_log(cli2, config2, root),
{
}

} // verus!
