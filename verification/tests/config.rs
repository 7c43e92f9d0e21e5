use shp2geojson::cli::{Cli, MissingArgument, OutputFormat};
use shp2geojson::config::{
    load_config, merge_settings, resolve_config_path, AppConfig, ConfigRead, ConversionConfig,
    HooksConfig, OutputConfig,
};
use shp2geojson::error::AppError;

fn bare_cli() -> Cli {
    Cli {
        input: Some("/data".to_string()),
        output: Some("/out".to_string()),
        jobs: None,
        resume: false,
        dry_run: false,
        output_format: OutputFormat::Human,
        reproject: false,
        no_reproject: false,
        geojsonl: false,
        overwrite: false,
        log: None,
        config: None,
    }
}

fn full_config() -> AppConfig {
    AppConfig {
        conversion: Some(ConversionConfig {
            reproject: Some(false),
            output_format: Some("geojsonl".to_string()),
            overwrite: Some(true),
            jobs: Some(4),
        }),
        output: Some(OutputConfig {
            log_file: Some("errors.log".to_string()),
            mirror_structure: None,
        }),
        hooks: None,
    }
}

#[test]
fn test_resolve_config_path_default() {
    let (path, explicit) = resolve_config_path(&None);
    assert_eq!(path, ".shp2geojson.toml");
    assert!(!explicit);
}

#[test]
fn test_resolve_config_path_with_cli_flag() {
    let cli_path = "/custom/path/config.toml".to_string();
    let (path, explicit) = resolve_config_path(&Some(cli_path.clone()));
    assert_eq!(path, cli_path);
    assert!(explicit);
}

#[test]
fn test_load_config_missing_file_not_explicit_returns_default() {
    let result = load_config(
        "/nonexistent/path/config.toml",
        false,
        ConfigRead::NotFound("No such file or directory (os error 2)".to_string()),
    );
    assert!(result.is_ok());
    let cfg = result.unwrap();
    assert!(cfg.conversion.is_none());
    assert!(cfg.output.is_none());
    assert!(cfg.hooks.is_none());
}

#[test]
fn test_load_config_missing_file_explicit_returns_error() {
    let result = load_config(
        "/nonexistent/path/config.toml",
        true,
        ConfigRead::NotFound("No such file or directory (os error 2)".to_string()),
    );
    assert!(result.is_err());
    let err = result.unwrap_err();
    assert!(err.message().contains("config error"));
    assert_eq!(
        err,
        AppError::Config {
            reason:
                "cannot read /nonexistent/path/config.toml: No such file or directory (os error 2)"
                    .to_string()
        }
    );
}

#[test]
fn test_load_config_invalid_toml_returns_error() {
    let result = load_config("c.toml", true, ConfigRead::Malformed("expected `=`".to_string()));
    assert!(result.is_err());
    assert_eq!(
        result.unwrap_err().message(),
        "config error: failed to parse c.toml: expected `=`"
    );
}

#[test]
fn test_load_config_unknown_field_in_section_errors() {
    let result = load_config(
        "c.toml",
        true,
        ConfigRead::Malformed("unknown field `unknown_field`".to_string()),
    );
    assert!(result.is_err(), "expected error for unknown field, got: {:?}", result.unwrap());
}

#[test]
fn test_load_config_all_fields_optional() {
    let empty = AppConfig { conversion: None, output: None, hooks: None };
    let result = load_config("c.toml", true, ConfigRead::Parsed(empty));
    assert!(result.is_ok());
    let cfg = result.unwrap();
    assert!(cfg.conversion.is_none());
    assert!(cfg.output.is_none());
    assert!(cfg.hooks.is_none());
}

#[test]
fn test_load_config_unreadable_file_is_always_an_error() {
    for explicit in [false, true] {
        let r = load_config("c.toml", explicit, ConfigRead::Unreadable("denied".to_string()));
        assert_eq!(
            r.unwrap_err(),
            AppError::Config { reason: "cannot read c.toml: denied".to_string() }
        );
    }
}

#[test]
fn test_load_config_valid_toml_parses() {
    let text = |t: &str| Some(t.to_string());
    let parsed = AppConfig {
        conversion: Some(ConversionConfig {
            reproject: Some(true),
            output_format: text("geojsonl"),
            overwrite: Some(false),
            jobs: Some(4),
        }),
        output: Some(OutputConfig { log_file: text("/tmp/errors.log"), mirror_structure: None }),
        hooks: Some(HooksConfig {
            on_file_complete: text("echo done {{file}}"),
            on_file_failed: text("echo failed {{file}}"),
            on_batch_done: text("echo batch done"),
            on_pause: None,
        }),
    };
    let result = load_config("config.toml", true, ConfigRead::Parsed(parsed));
    assert!(result.is_ok(), "parse error: {:?}", result.unwrap_err());
    let cfg = result.unwrap();

    let conv = cfg.conversion.as_ref().unwrap();
    assert_eq!(conv.reproject, Some(true));
    assert_eq!(conv.output_format.as_deref(), Some("geojsonl"));
    assert_eq!(conv.overwrite, Some(false));
    assert_eq!(conv.jobs, Some(4));

    let out = cfg.output.as_ref().unwrap();
    assert_eq!(out.log_file.as_deref(), Some("/tmp/errors.log"));

    let hooks = cfg.hooks.as_ref().unwrap();
    assert_eq!(hooks.on_file_complete.as_deref(), Some("echo done {{file}}"));
    assert_eq!(hooks.on_file_failed.as_deref(), Some("echo failed {{file}}"));
    assert_eq!(hooks.on_batch_done.as_deref(), Some("echo batch done"));
}

#[test]
fn test_load_config_gives_what_was_parsed() {
    let r = load_config("c.toml", false, ConfigRead::Parsed(full_config()));
    assert_eq!(r.unwrap(), full_config());
}

#[test]
fn test_default_config_says_nothing() {
    let c = AppConfig::default();
    assert!(c.conversion.is_none() && c.output.is_none() && c.hooks.is_none());
}

#[test]
fn test_settings_default() {
    let s = merge_settings(&bare_cli(), &AppConfig::default(), "/out");
    assert!(!s.geojsonl);
    assert!(!s.overwrite);
    assert!(s.reproject);
    assert_eq!(s.jobs, None);
    assert_eq!(s.log_path, "/out/conversion_errors.log");
}

#[test]
fn test_settings_from_the_config_file() {
    let s = merge_settings(&bare_cli(), &full_config(), "/out");
    assert!(s.geojsonl);
    assert!(s.overwrite);
    assert!(!s.reproject);
    assert_eq!(s.jobs, Some(4));
    assert_eq!(s.log_path, "errors.log");
}

#[test]
fn test_settings_command_line_decides() {
    let mut cli = bare_cli();
    cli.reproject = true;
    cli.jobs = Some(9);
    cli.log = Some("/tmp/x.log".to_string());
    let s = merge_settings(&cli, &full_config(), "/out");
    assert!(s.reproject);
    assert_eq!(s.jobs, Some(9));
    assert_eq!(s.log_path, "/tmp/x.log");

    let mut cli = bare_cli();
    cli.no_reproject = true;
    cli.geojsonl = true;
    cli.overwrite = true;
    let s = merge_settings(&cli, &AppConfig::default(), "/out");
    assert!(!s.reproject && s.geojsonl && s.overwrite);
}

#[test]
fn test_settings_zero_jobs_in_the_config_file_means_any_number() {
    let mut config = full_config();
    config.conversion.as_mut().unwrap().jobs = Some(0);
    config.conversion.as_mut().unwrap().output_format = Some("geojson".to_string());
    let s = merge_settings(&bare_cli(), &config, "/out");
    assert_eq!(s.jobs, None);
    assert!(!s.geojsonl);
}

#[test]
fn test_missing_arguments() {
    let mut cli = bare_cli();
    assert_eq!(cli.missing_argument(), None);
    cli.output = None;
    let missing = cli.missing_argument();
    assert_eq!(
        missing.unwrap().message(),
        "--output is required unless --dry-run is specified"
    );
    cli.dry_run = true;
    assert_eq!(cli.missing_argument(), None);
    cli.input = None;
    assert_eq!(cli.missing_argument(), Some(MissingArgument::Input));
    assert_eq!(cli.missing_argument().unwrap().message(), "--input is required");
}
