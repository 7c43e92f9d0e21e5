use shp2geojson::interactive::{
    command_from, parse_command, parse_count, read_line, LineAction, PauseFlag, SlashCommand,
    HELP_TEXT,
};

fn is_status(cmd: &Option<SlashCommand>) -> bool {
    matches!(cmd, Some(SlashCommand::Status))
}

fn is_pause(cmd: &Option<SlashCommand>) -> bool {
    matches!(cmd, Some(SlashCommand::Pause))
}

fn is_resume(cmd: &Option<SlashCommand>) -> bool {
    matches!(cmd, Some(SlashCommand::Resume))
}

fn is_log(cmd: &Option<SlashCommand>) -> bool {
    matches!(cmd, Some(SlashCommand::Log))
}

fn is_dry_run(cmd: &Option<SlashCommand>) -> bool {
    matches!(cmd, Some(SlashCommand::DryRun))
}

fn is_quit(cmd: &Option<SlashCommand>) -> bool {
    matches!(cmd, Some(SlashCommand::Quit))
}

fn is_help(cmd: &Option<SlashCommand>) -> bool {
    matches!(cmd, Some(SlashCommand::Help))
}

#[test]
fn test_parse_command_status() {
    assert!(is_status(&parse_command("/status")));
}

#[test]
fn test_parse_command_pause() {
    assert!(is_pause(&parse_command("/pause")));
}

#[test]
fn test_parse_command_resume() {
    assert!(is_resume(&parse_command("/resume")));
}

#[test]
fn test_parse_command_workers_valid() {
    let cmd = parse_command("/workers 4");
    assert!(matches!(cmd, Some(SlashCommand::Workers(4))));
}

#[test]
fn test_parse_command_workers_zero() {
    // Zero is a valid usize — the caller clamps it to 1.
    let cmd = parse_command("/workers 0");
    assert!(matches!(cmd, Some(SlashCommand::Workers(0))));
}

#[test]
fn test_parse_command_workers_invalid() {
    // Non-numeric argument fails to parse.
    let cmd = parse_command("/workers abc");
    assert!(cmd.is_none());
}

#[test]
fn test_parse_command_skip() {
    let cmd = parse_command("/skip data/foo.shp");
    assert!(matches!(cmd, Some(SlashCommand::Skip(ref s)) if s == "data/foo.shp"));
}

#[test]
fn test_parse_command_skip_no_arg() {
    // `/skip` with no argument returns None.
    let cmd = parse_command("/skip");
    assert!(cmd.is_none());
}

#[test]
fn test_parse_command_quit() {
    assert!(is_quit(&parse_command("/quit")));
}

#[test]
fn test_parse_command_dry_run() {
    assert!(is_dry_run(&parse_command("/dry-run")));
}

#[test]
fn test_parse_command_log() {
    assert!(is_log(&parse_command("/log")));
}

#[test]
fn test_parse_command_help() {
    assert!(is_help(&parse_command("/help")));
}

#[test]
fn test_parse_command_non_slash() {
    assert!(parse_command("status").is_none());
    assert!(parse_command("hello world").is_none());
}

#[test]
fn test_parse_command_empty() {
    assert!(parse_command("").is_none());
}

#[test]
fn test_parse_command_bare_slash() {
    // A lone `/` has an empty command name — not recognised.
    assert!(parse_command("/").is_none());
}

#[test]
fn test_parse_command_unknown() {
    assert!(parse_command("/unknown").is_none());
    assert!(parse_command("/xyzzy").is_none());
}

#[test]
fn test_parse_command_case_insensitive() {
    assert!(is_status(&parse_command("/STATUS")));
    assert!(is_pause(&parse_command("/PAUSE")));
    assert!(is_resume(&parse_command("/RESUME")));
    assert!(is_quit(&parse_command("/QUIT")));
    let cmd = parse_command("/WORKERS 8");
    assert!(matches!(cmd, Some(SlashCommand::Workers(8))));
}

#[test]
fn test_parse_command_leading_space() {
    // Leading whitespace on the line is stripped.
    assert!(is_status(&parse_command("  /status")));
    assert!(is_pause(&parse_command("  /pause")));
}

#[test]
fn test_pause_flag_default_not_paused() {
    let flag = PauseFlag::new();
    assert!(!flag.is_paused());
    assert!(!PauseFlag::default().is_paused());
}

#[test]
fn test_pause_flag_set_and_clear() {
    let mut flag = PauseFlag::new();
    flag.set_paused();
    assert!(flag.is_paused());
    flag.clear();
    assert!(!flag.is_paused());
}

#[test]
fn test_parse_command_splits_at_the_first_white_space() {
    assert_eq!(
        parse_command("/skip   my file.shp \t"),
        Some(SlashCommand::Skip("my file.shp".to_string()))
    );
    assert_eq!(parse_command("/skip\tx"), Some(SlashCommand::Skip("x".to_string())));
    assert_eq!(parse_command("/ status"), None);
    assert_eq!(parse_command("/status now"), Some(SlashCommand::Status));
    assert_eq!(parse_command("\u{3000}/log\u{a0}"), Some(SlashCommand::Log));
}

#[test]
fn test_parse_command_folds_case_beyond_ascii() {
    // U+212A, the Kelvin sign, is a capital k.
    assert_eq!(
        parse_command("/S\u{212A}IP a"),
        Some(SlashCommand::Skip("a".to_string()))
    );
}

#[test]
fn test_parse_count_reads_what_std_reads() {
    for text in [
        "0", "7", "007", "+5", "", "+", "-1", "++1", "1 2", "18446744073709551615",
        "18446744073709551616", "99999999999999999999", "12a", "a12", "٣",
    ] {
        assert_eq!(parse_count(text), text.parse::<usize>().ok(), "{text}");
    }
}

#[test]
fn test_command_from_takes_names_in_lower_case() {
    assert_eq!(command_from("status", None), Some(SlashCommand::Status));
    assert_eq!(command_from("STATUS", None), None);
    assert_eq!(command_from("workers", None), None);
    assert_eq!(command_from("workers", Some("3")), Some(SlashCommand::Workers(3)));
    assert_eq!(command_from("skip", Some("")), None);
}

#[test]
fn test_lines_of_input() {
    assert_eq!(
        read_line(" /help "),
        LineAction::Forward { command: SlashCommand::Help, show_help: true }
    );
    assert_eq!(
        read_line("/quit"),
        LineAction::Forward { command: SlashCommand::Quit, show_help: false }
    );
    assert_eq!(
        read_line(" /nope x "),
        LineAction::Complain("Unknown command: /nope x. Type /help for commands.".to_string())
    );
    assert_eq!(read_line("hello"), LineAction::Ignore);
    assert_eq!(read_line("  "), LineAction::Ignore);
}

#[test]
fn test_help_text_names_every_command() {
    for name in [
        "/status", "/pause", "/resume", "/workers", "/skip", "/log", "/dry-run", "/quit", "/help",
    ] {
        assert!(HELP_TEXT.contains(name), "{name}");
    }
}

#[test]
fn test_case_of_the_name_makes_no_difference() {
    for name in ["skip", "SKIP", "Skip", "sKiP"] {
        assert_eq!(
            parse_command(&format!("  /{name}  Dir One/A.shp ")),
            Some(SlashCommand::Skip("Dir One/A.shp".to_string()))
        );
    }
    // A letter beyond ASCII beside them: the Kelvin sign.
    assert_eq!(
        parse_command("/S\u{212a}IP a.shp"),
        parse_command("/s\u{212a}ip a.shp")
    );
    assert_eq!(parse_command("/\u{c4}BC"), None);
    assert_eq!(parse_command("/\u{c4}bc"), None);
}

#[test]
fn test_lines_are_answered_in_order() {
    let lines = [
        "/status", "hello", "/HELP", "/nope", "", "/workers 3", "  /help", "/workers x", "/quit",
    ];
    let mut commands = Vec::new();
    let mut printed = Vec::new();
    for line in lines {
        match read_line(line) {
            LineAction::Forward { command, show_help } => {
                commands.push(command);
                if show_help {
                    printed.push(HELP_TEXT.to_string());
                }
            }
            LineAction::Complain(text) => printed.push(text),
            LineAction::Ignore => {}
        }
    }
    let parsed: Vec<SlashCommand> = lines.iter().filter_map(|l| parse_command(l)).collect();
    assert_eq!(commands, parsed);
    assert_eq!(
        commands,
        vec![
            SlashCommand::Status,
            SlashCommand::Help,
            SlashCommand::Workers(3),
            SlashCommand::Help,
            SlashCommand::Quit,
        ]
    );
    assert_eq!(
        printed,
        vec![
            HELP_TEXT.to_string(),
            "Unknown command: /nope. Type /help for commands.".to_string(),
            HELP_TEXT.to_string(),
            "Unknown command: /workers x. Type /help for commands.".to_string(),
        ]
    );
}

#[test]
fn test_pause_flag_is_what_was_written_last() {
    let mut flag = PauseFlag::new();
    for writes in [[true, true], [false, false], [false, true], [true, false]] {
        for write in writes {
            if write {
                flag.set_paused();
            } else {
                flag.clear();
            }
        }
        assert_eq!(flag.is_paused(), writes[1]);
    }
}
