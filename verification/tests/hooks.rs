use shp2geojson::config::HooksConfig;
use shp2geojson::hooks::{
    fire_hook, fire_hook_if_configured, shell_quote, substitute_template, HookOutcome,
    StringHashMap,
};

fn vars(pairs: &[(&str, &str)]) -> StringHashMap<String> {
    let mut m = StringHashMap::new();
    for (k, v) in pairs {
        m.insert(k.to_string(), v.to_string());
    }
    m
}

fn only_file_complete() -> Option<HooksConfig> {
    Some(HooksConfig {
        on_file_complete: Some("echo done".to_string()),
        on_file_failed: None,
        on_batch_done: None,
        on_pause: None,
    })
}

#[test]
fn test_substitute_template_basic() {
    let result = substitute_template("Processing {{file}}", &vars(&[("file", "/data/foo.shp")]));
    assert_eq!(result, "Processing '/data/foo.shp'");
}

#[test]
fn test_substitute_template_multiple_vars() {
    let result = substitute_template(
        "{{file}} has {{features}} features",
        &vars(&[("file", "/data/foo.shp"), ("features", "42")]),
    );
    assert_eq!(result, "'/data/foo.shp' has '42' features");
}

#[test]
fn test_substitute_template_unknown_placeholder_left_intact() {
    let result = substitute_template("echo {{unknown}}", &vars(&[]));
    assert_eq!(result, "echo {{unknown}}");
}

#[test]
fn test_substitute_template_empty_template() {
    let result = substitute_template("", &vars(&[("file", "/data/foo.shp")]));
    assert_eq!(result, "");
}

#[test]
fn test_substitute_template_no_placeholders() {
    let result = substitute_template("echo hello world", &vars(&[("file", "/data/foo.shp")]));
    assert_eq!(result, "echo hello world");
}

#[test]
fn test_substitute_template_escapes_single_quotes() {
    let result = substitute_template("echo {{file}}", &vars(&[("file", "it's a file.shp")]));
    assert_eq!(result, "echo 'it'\\''s a file.shp'");
}

#[test]
fn test_substitute_template_prevents_injection() {
    let result = substitute_template("echo {{file}}", &vars(&[("file", "payload; rm -rf /")]));
    // Value is safely quoted — semicolon is inside single quotes.
    assert_eq!(result, "echo 'payload; rm -rf /'");
}

#[test]
fn test_fire_hook_if_configured_none_hooks_does_nothing() {
    assert_eq!(fire_hook_if_configured(&None, "on_file_complete", &vars(&[])), None);
}

#[test]
fn test_fire_hook_if_configured_unknown_hook_does_nothing() {
    assert_eq!(
        fire_hook_if_configured(&only_file_complete(), "on_mysterious_event", &vars(&[])),
        None
    );
}

#[test]
fn test_fire_hook_if_configured_gives_the_command() {
    let hooks = Some(HooksConfig {
        on_file_complete: Some("a {{x}}".to_string()),
        on_file_failed: Some("b {{x}}".to_string()),
        on_batch_done: Some("c {{x}}".to_string()),
        on_pause: Some("d".to_string()),
    });
    let v = vars(&[("x", "1")]);
    assert_eq!(
        fire_hook_if_configured(&hooks, "on_file_complete", &v),
        Some("a '1'".to_string())
    );
    assert_eq!(fire_hook_if_configured(&hooks, "on_file_failed", &v), Some("b '1'".to_string()));
    assert_eq!(fire_hook_if_configured(&hooks, "on_batch_done", &v), Some("c '1'".to_string()));
    assert_eq!(fire_hook_if_configured(&hooks, "on_pause", &v), Some("d".to_string()));
    assert_eq!(fire_hook_if_configured(&only_file_complete(), "on_pause", &v), None);
}

#[test]
fn test_substituted_values_are_not_read_as_templates() {
    let result =
        substitute_template("{{a}}{{b}}", &vars(&[("a", "{{b}}"), ("b", "x")]));
    assert_eq!(result, "'{{b}}''x'");
}

#[test]
fn test_unclosed_placeholder_stays() {
    assert_eq!(substitute_template("{{file", &vars(&[("file", "x")])), "{{file");
    assert_eq!(
        substitute_template("{{nope}} {{file}} }}", &vars(&[("file", "x")])),
        "{{nope}} 'x' }}"
    );
}

#[test]
fn test_shell_quote_of_quotes_and_nothing() {
    assert_eq!(shell_quote(""), "''");
    assert_eq!(shell_quote("'"), "''\\'''");
    assert_eq!(shell_quote("a b"), "'a b'");
}

#[test]
fn test_hook_failures_are_reported() {
    assert_eq!(fire_hook("on_pause", HookOutcome::Succeeded), None);
    assert_eq!(
        fire_hook(
            "on_pause",
            HookOutcome::Failed { code: Some(3), stderr: " no such file\n".to_string() }
        ),
        Some("HOOK ERR  on_pause  exit 3  — no such file".to_string())
    );
    assert_eq!(
        fire_hook("on_pause", HookOutcome::Failed { code: None, stderr: String::new() }),
        Some("HOOK ERR  on_pause  exit -1  — ".to_string())
    );
    assert_eq!(
        fire_hook(
            "on_pause",
            HookOutcome::Failed { code: Some(i32::MIN), stderr: String::new() }
        ),
        Some("HOOK ERR  on_pause  exit -2147483648  — ".to_string())
    );
    assert_eq!(
        fire_hook("on_batch_done", HookOutcome::NotStarted("denied".to_string())),
        Some("HOOK ERR  on_batch_done  spawn failed: denied".to_string())
    );
}
