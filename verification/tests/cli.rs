use std::collections::VecDeque;

use loggle::cli::{
    format_age, merged_source_fields, pages_table, parse_buffer_lines, parse_level, parse_number,
    parse_property_filter, parse_runner_commands, parse_source_field, parse_source_filter,
    parse_tail_lines, parse_text_filter, runtime_input_summary, runtime_request,
    ResolvedRuntimeInput, RuntimeRequest,
};
use loggle::config::{
    named_config_path, parse_config, project_config_path, validate_config, ConfigEnv, ConfigError,
    RawCommand, RawConfig, StartConfig,
};
use loggle::model::Level;
use loggle::page_log::registry::ActiveLogPage;
use loggle::runtime::{NamedCommand, RuntimeInput, StartCommand};

fn command(values: &[&str]) -> Vec<String> {
    values.iter().map(|value| value.to_string()).collect()
}

fn named_command(name: &str, values: &[&str]) -> NamedCommand {
    NamedCommand {
        name: name.to_string(),
        command: command(values),
        cwd: None,
    }
}

fn runtime_input(values: Vec<String>) -> RuntimeInput {
    match runtime_request(values) {
        Ok(RuntimeRequest::Input(input)) => input,
        other => panic!("not an input: {other:?}"),
    }
}

fn runtime_error(values: Vec<String>) -> String {
    runtime_request(values).unwrap_err()
}

fn text_of(value: &toml::Value) -> String {
    value.as_str().unwrap().to_string()
}

fn texts_of(value: &toml::Value) -> Vec<String> {
    value.as_array().unwrap().iter().map(text_of).collect()
}

fn raw_config(input: &str) -> Result<RawConfig, ConfigError> {
    let table = match input.parse::<toml::Table>() {
        Ok(table) => table,
        Err(error) => {
            return Err(ConfigError::Parse {
                path: None,
                reason: error.to_string(),
            })
        }
    };
    Ok(RawConfig {
        root: table.get("root").map(text_of),
        source_fields: table.get("source_fields").map(texts_of).unwrap_or_default(),
        commands: table.get("commands").map(|commands| {
            commands
                .as_table()
                .unwrap()
                .iter()
                .map(|(name, command)| RawCommand {
                    name: name.clone(),
                    command: texts_of(command),
                })
                .collect()
        }),
    })
}

fn parse(input: &str) -> Result<StartConfig, ConfigError> {
    parse_config(raw_config(input)?)
}

fn config_text(root: &str) -> String {
    format!(
        r#"
root = "{root}"
source_fields = ["service", "app"]

[commands]
api = ["pnpm", "start"]
"#
    )
}

#[test]
fn dc_expands_to_docker_compose_up() {
    assert_eq!(
        runtime_input(command(&["dc"])),
        RuntimeInput::Command(command(&["docker", "compose", "up"]))
    );
}

#[test]
fn dc_with_arguments_is_not_a_compose_shortcut() {
    assert_eq!(
        runtime_input(command(&["dc", "logs", "-f"])),
        RuntimeInput::Command(command(&["dc", "logs", "-f"]))
    );
}

#[test]
fn ordinary_commands_are_unchanged() {
    assert_eq!(
        runtime_input(command(&["docker", "compose", "logs", "-f"])),
        RuntimeInput::Command(command(&["docker", "compose", "logs", "-f"]))
    );
}

#[test]
fn empty_command_reads_from_stdin() {
    assert_eq!(runtime_input(Vec::new()), RuntimeInput::Stdin);
}

#[test]
fn cli_source_fields_are_checked_before_config_source_fields() {
    assert_eq!(
        merged_source_fields(command(&["logger"]), command(&["service", "logger"])),
        command(&["logger", "service", "logger"])
    );
}

#[test]
fn runner_cli_parses_two_named_commands() {
    assert_eq!(
        runtime_input(command(&[
            "run", "--name", "api", "--", "pnpm", "start", "--name", "web", "--", "pnpm", "dev",
        ])),
        RuntimeInput::Commands(vec![
            named_command("api", &["pnpm", "start"]),
            named_command("web", &["pnpm", "dev"]),
        ])
    );
}

#[test]
fn runner_cli_preserves_command_arguments_after_top_level_separator() {
    assert_eq!(
        runtime_input(command(&["docker", "compose", "up", "--watch"])),
        RuntimeInput::Command(command(&["docker", "compose", "up", "--watch"]))
    );
}

#[test]
fn log_command_cli_parses_canonical_level_aliases_and_formats() {
    for (alias, expected) in [
        ("fatal", Level::Fatal),
        ("ERR", Level::Error),
        ("warning", Level::Warn),
        ("log", Level::Info),
        ("debug", Level::Debug),
        ("verbose", Level::Trace),
        ("unknown", Level::Unknown),
    ] {
        assert_eq!(parse_level(alias), Ok(expected));
    }
}

#[test]
fn log_command_cli_rejects_invalid_level_with_canonical_values() {
    let message = parse_level("notice").unwrap_err();

    assert!(message.contains("invalid level 'notice'"));
    assert!(message.contains("fatal, error, warn, info, debug, trace, unknown"));
}

#[test]
fn runtime_input_summary_describes_page_command() {
    assert_eq!(
        runtime_input_summary(&RuntimeInput::Command(command(&[
            "docker", "compose", "up"
        ]))),
        "docker compose up"
    );
    assert_eq!(
        runtime_input_summary(&RuntimeInput::Commands(vec![
            named_command("api", &["pnpm", "start"]),
            named_command("web", &["pnpm", "dev"]),
        ])),
        "run api, web"
    );
}

#[test]
fn format_age_uses_compact_units() {
    assert_eq!(format_age(100, 105), "5s");
    assert_eq!(format_age(100, 220), "2m");
    assert_eq!(format_age(100, 7300), "2h");
    assert_eq!(format_age(100, 172900), "2d");
}

#[test]
fn runner_rejects_missing_name() {
    assert_eq!(
        runtime_error(command(&["run", "api", "--", "pnpm", "start"])),
        "runner commands must start with --name <name> -- <command>"
    );
}

#[test]
fn runner_rejects_empty_command() {
    assert_eq!(
        runtime_error(command(&["run", "--name", "api", "--"])),
        "runner command 'api' is empty"
    );
}

#[test]
fn runner_rejects_missing_command_separator() {
    assert_eq!(
        runtime_error(command(&["run", "--name", "api", "pnpm", "start"])),
        "runner command 'api' must include -- before the command"
    );
}

#[test]
fn start_without_name_loads_project_config() {
    assert!(matches!(
        runtime_request(command(&["start"])),
        Ok(RuntimeRequest::ProjectConfig)
    ));
    let path = project_config_path("/work");
    let raw = raw_config(&config_text("/work/workspace")).unwrap();
    let resolved = ResolvedRuntimeInput::from_config(validate_config(raw, Some(path)).unwrap());

    assert_eq!(resolved.source_fields, command(&["service", "app"]));
    assert_eq!(
        resolved.input,
        RuntimeInput::StartCommands(vec![StartCommand {
            name: "api".to_string(),
            argv: command(&["pnpm", "start"]),
            cwd: Some("/work/workspace".to_string()),
            env: Vec::new(),
            wait_for: Vec::new(),
            ready: None,
        }])
    );
}

#[test]
fn start_without_name_reports_missing_project_config() {
    let error = ConfigError::MissingFile(project_config_path("/work")).message();

    assert!(error.contains(".loggle.toml"));
    assert!(error.starts_with("config file not found: "));
}

#[test]
fn start_with_name_loads_named_home_config() {
    let name = match runtime_request(command(&["start", "libre"])) {
        Ok(RuntimeRequest::NamedConfig(name)) => name,
        other => panic!("not a named configuration: {other:?}"),
    };
    let path = named_config_path(
        &name,
        &ConfigEnv {
            xdg_config_home: None,
            home: Some("/home".to_string()),
        },
    )
    .unwrap();
    assert_eq!(path, "/home/.config/loggle/libre.toml");
    let raw = raw_config(&config_text("/home/workspace")).unwrap();
    let resolved = ResolvedRuntimeInput::from_config(validate_config(raw, Some(path)).unwrap());

    assert_eq!(
        resolved.input,
        RuntimeInput::StartCommands(vec![StartCommand {
            name: "api".to_string(),
            argv: command(&["pnpm", "start"]),
            cwd: Some("/home/workspace".to_string()),
            env: Vec::new(),
            wait_for: Vec::new(),
            ready: None,
        }])
    );
}

#[test]
fn start_rejects_extra_args() {
    assert_eq!(
        runtime_error(command(&["start", "libre", "extra"])),
        "start accepts at most one config name"
    );
}

#[test]
fn parses_start_config() {
    let config = parse(
        r#"
root = "/Users/max-vev/Local/librestock"
source_fields = ["service", "app", "logger"]

[commands]
api = ["pnpm", "--filter", "api", "dev"]
web = ["pnpm", "--filter", "web", "dev"]
"#,
    )
    .unwrap();

    assert_eq!(config.root, "/Users/max-vev/Local/librestock");
    assert_eq!(config.source_fields, command(&["service", "app", "logger"]));
    assert_eq!(
        config.commands,
        vec![
            NamedCommand {
                name: "api".to_string(),
                command: command(&["pnpm", "--filter", "api", "dev"]),
                cwd: Some("/Users/max-vev/Local/librestock".to_string()),
            },
            NamedCommand {
                name: "web".to_string(),
                command: command(&["pnpm", "--filter", "web", "dev"]),
                cwd: Some("/Users/max-vev/Local/librestock".to_string()),
            },
        ]
    );
}

#[test]
fn rejects_missing_root() {
    assert_eq!(
        parse("[commands]\napi = [\"pnpm\", \"dev\"]")
            .unwrap_err()
            .message(),
        "invalid config: missing required field `root`"
    );
}

#[test]
fn rejects_missing_commands_table() {
    assert_eq!(
        parse("root = \"/tmp\"").unwrap_err().message(),
        "invalid config: missing required table `[commands]`"
    );
}

#[test]
fn rejects_empty_commands_table() {
    assert_eq!(
        parse("root = \"/tmp\"\n[commands]").unwrap_err().message(),
        "invalid config: `[commands]` must include at least one command"
    );
}

#[test]
fn rejects_empty_command_arrays() {
    assert_eq!(
        parse("root = \"/tmp\"\n[commands]\napi = []")
            .unwrap_err()
            .message(),
        "invalid config: command 'api' must not be empty"
    );
}

#[test]
fn rejects_malformed_toml() {
    assert!(parse("root = ")
        .unwrap_err()
        .message()
        .starts_with("failed to parse config: TOML parse error"));
}

#[test]
fn named_config_path_uses_xdg_config_home_when_present() {
    let path = named_config_path(
        "libre",
        &ConfigEnv {
            xdg_config_home: Some("/xdg".to_string()),
            home: Some("/home/max".to_string()),
        },
    )
    .unwrap();

    assert_eq!(path, "/xdg/loggle/libre.toml");
}

#[test]
fn named_config_path_falls_back_to_home_config() {
    let path = named_config_path(
        "libre",
        &ConfigEnv {
            xdg_config_home: None,
            home: Some("/home/max".to_string()),
        },
    )
    .unwrap();

    assert_eq!(path, "/home/max/.config/loggle/libre.toml");
}

#[test]
fn config_errors_say_what_is_wrong_and_where() {
    let env = ConfigEnv::from_env(Some(String::new()), None);
    assert_eq!(env.xdg_config_home, None);
    assert_eq!(
        named_config_path("a/b", &env).unwrap_err(),
        ConfigError::InvalidName {
            name: "a/b".to_string()
        }
    );
    assert_eq!(
        named_config_path("libre", &env).unwrap_err(),
        ConfigError::MissingConfigDirectory
    );
    let read = ConfigError::Read {
        path: "/c.toml".to_string(),
        reason: "denied".to_string(),
    };
    assert!(read.message().contains("/c.toml"));
    assert!(read.message().contains("denied"));
    let located = validate_config(
        RawConfig {
            root: None,
            source_fields: Vec::new(),
            commands: None,
        },
        Some("/c.toml".to_string()),
    )
    .unwrap_err();
    assert!(located.message().contains("/c.toml"));
    assert!(located.message().contains("missing required field `root`"));
}

#[test]
fn numbers_read_as_the_standard_library_reads_them() {
    for input in [
        "", "+", "-", "0", "7", "+7", "-7", "007", "1 ", " 1", "1x", "++1", "18446744073709551615",
        "18446744073709551616", "99999999999999999999999", "\u{663}",
    ] {
        assert_eq!(
            parse_number(input),
            input.parse::<usize>().map_err(|error| error.to_string())
        );
    }
    assert_eq!(parse_buffer_lines("25"), Ok(25));
    assert_eq!(
        parse_buffer_lines("0"),
        Err("buffer size must be greater than zero".to_string())
    );
    assert_eq!(
        parse_buffer_lines("x"),
        Err("invalid buffer size: invalid digit found in string".to_string())
    );
    assert_eq!(parse_tail_lines("0"), Ok(0));
    assert_eq!(
        parse_tail_lines(""),
        Err("invalid line count: cannot parse integer from empty string".to_string())
    );
}

#[test]
fn options_of_text_are_trimmed_and_must_hold_something() {
    assert_eq!(parse_source_field(" service "), Ok("service".to_string()));
    assert_eq!(
        parse_source_field(" "),
        Err("source field must not be empty".to_string())
    );
    assert_eq!(
        parse_source_filter(""),
        Err("source filter must not be empty".to_string())
    );
    assert_eq!(
        parse_property_filter("\t"),
        Err("property filter must not be empty".to_string())
    );
    assert_eq!(
        parse_text_filter("\n"),
        Err("text filter must not be empty".to_string())
    );
}

#[test]
fn runner_needs_a_command() {
    assert_eq!(
        parse_runner_commands(&[]).unwrap_err(),
        "runner mode requires at least one --name <name> -- <command>"
    );
}

#[test]
fn pages_are_listed_in_a_table() {
    assert_eq!(
        pages_table(&VecDeque::new(), 100),
        vec!["no active loggle pages".to_string()]
    );
    let pages: VecDeque<ActiveLogPage> = [ActiveLogPage {
        id: "1".to_string(),
        pid: 42,
        command: "docker compose up".to_string(),
        started_unix_seconds: 100,
    }]
    .into_iter()
    .collect();
    assert_eq!(
        pages_table(&pages, 220),
        vec![
            "ID\tPID\tAGE\tCOMMAND".to_string(),
            "1\t42\t2m\tdocker compose up".to_string()
        ]
    );
}
