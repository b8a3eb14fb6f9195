use shell_t::builtins::{BuiltinCommand, BuiltinManager, BuiltinOutcome, BuiltinResult, EnvRequest};
use shell_t::config::{validate_args, validate_command, Config};
use shell_t::environment::validate_environment;
use shell_t::error::ShellError;
use shell_t::screening;
use shell_t::ui::{InputReader, PromptColor, ProgressIndicator, TableFormatter, UiManager};

#[test]
fn default_configuration_values() {
    let c = Config::default();
    assert_eq!(c.security.max_command_length, 4096);
    assert_eq!(c.limits.max_pipeline_length, 10);
    assert!(c.security.allowed_commands.contains(&"ls".to_string()));
    assert!(c.security.blocked_commands.contains(&"sudo".to_string()));
    assert!(c.validate().is_ok());
    let mut bad = Config::default();
    bad.limits.max_pipeline_length = 0;
    assert_eq!(bad.validate().unwrap_err(), "Max pipeline length must be greater than 0");
}

#[test]
fn policy_block_set_wins_over_allow_set() {
    let mut c = Config::default();
    c.security.allowed_commands.push("rm".to_string());
    let e = validate_command(&c, "rm").unwrap_err();
    assert_eq!(e.message(), "Security error: Dangerous command blocked: rm");
    let e = validate_command(&c, "echo").unwrap_err();
    assert_eq!(e.message(), "Security error: Dangerous command blocked: Command not in whitelist: echo");
    assert!(validate_command(&c, "ls").is_ok());
    c.security.allowed_commands.clear();
    assert!(validate_command(&c, "echo").is_ok());
}

#[test]
fn policy_argument_limits() {
    let c = Config::default();
    assert!(validate_args(&c, &["x".to_string()]).is_ok());
    assert!(validate_args(&c, &["a".repeat(4097)]).is_err());
}

#[test]
fn environment_checks() {
    assert!(validate_environment(false, &[("HOME".to_string(), "/root".to_string())]).is_ok());
    assert!(validate_environment(true, &[]).is_err());
    let e = validate_environment(false, &[("LD_PRELOAD".to_string(), "x".to_string())]).unwrap_err();
    assert_eq!(e.message(), "Security error: Dangerous command blocked: Suspicious environment variable: LD_PRELOAD");
    let e = validate_environment(false, &[("A".to_string(), "x\0".to_string())]).unwrap_err();
    assert_eq!(e.message(), "Security error: Invalid input: Null byte in environment variable: A");
}

#[test]
fn screening_checks() {
    assert!(screening::validate_path("/usr/bin/ls").is_ok());
    assert!(screening::validate_path("/etc/passwd").is_err());
    assert!(screening::validate_path("a\0b").is_err());
    assert!(screening::validate_path("../a").is_err());
    assert!(screening::validate_path("a/../b").is_err());
    assert!(screening::validate_path("a..b").is_ok());
    assert_eq!(
        screening::validate_path("../a").unwrap_err().message(),
        "Security error: Path traversal attempt detected: ../a"
    );
    assert!(screening::validate_path(&"a".repeat(4097)).is_err());
    assert!(screening::validate_command_args(&["fine".to_string()]).is_ok());
    assert!(screening::validate_command_args(&["it's".to_string()]).is_err());
    assert!(screening::validate_command_args(&["a".repeat(1025)]).is_err());
    assert_eq!(screening::sanitize_input("rm -rf /; echo $X"), "rm -rf / echo X");
    assert_eq!(screening::sanitize_input("héllo"), "héllo");
}

#[test]
fn builtins_decide() {
    let m = BuiltinManager::new(Config::default());
    assert!(BuiltinCommand::is_builtin("cd"));
    assert_eq!(BuiltinCommand::from_str("type"), Some(BuiltinCommand::Type));
    assert!(m.execute_builtin("ls", &[]).unwrap().is_none());
    match m.execute_builtin("export", &["A=b=c".to_string()]).unwrap() {
        Some(BuiltinOutcome::Env(EnvRequest::SetVar { key, value })) => {
            assert_eq!(key, "A");
            assert_eq!(value, "b=c");
        }
        other => panic!("unexpected {:?}", other),
    }
    match m.execute_builtin("export", &["AB".to_string()]).unwrap() {
        Some(BuiltinOutcome::Done(BuiltinResult::Error(t))) => {
            assert_eq!(t, "export: invalid format, use KEY=VALUE")
        }
        other => panic!("unexpected {:?}", other),
    }
    match m.execute_builtin("type", &["cd".to_string()]).unwrap() {
        Some(BuiltinOutcome::Done(BuiltinResult::Info(t))) => assert_eq!(t, "cd is a shell builtin"),
        other => panic!("unexpected {:?}", other),
    }
    match m.execute_builtin("which", &["no-such-program-here".to_string()]).unwrap() {
        Some(BuiltinOutcome::Done(BuiltinResult::Error(t))) => {
            assert_eq!(t, "which: no-such-program-here: command not found")
        }
        other => panic!("unexpected {:?}", other),
    }
}

#[test]
fn ui_decisions() {
    let mut config = Config::default();
    config.ui.prompt_color = "cyan".to_string();
    assert_eq!(UiManager::new(config.clone()).prompt_style(), Some(PromptColor::Cyan));
    config.ui.enable_colors = false;
    assert_eq!(UiManager::new(config).prompt_style(), None);
    let p = ProgressIndicator::new("build".to_string(), UiManager::new(Config::default()));
    assert_eq!(p.start(), "Starting: build");
}

#[test]
fn history_navigation() {
    let mut r = InputReader::new(UiManager::new(Config::default()));
    assert!(r.next_command().is_none());
    assert!(r.previous_command().is_none());
    assert_eq!(r.record_line("  ls  "), "ls");
    r.record_line("ls");
    r.record_line("pwd");
    r.record_line("   ");
    assert_eq!(r.history().len(), 2);
    assert_eq!(r.previous_command().unwrap(), "pwd");
    assert_eq!(r.previous_command().unwrap(), "ls");
    assert!(r.previous_command().is_none());
    assert_eq!(r.next_command().unwrap(), "pwd");
    assert!(r.next_command().is_none());
}

#[test]
fn error_messages() {
    let e = ShellError::Process("Pipeline too long".to_string());
    assert_eq!(e.message(), "Process error: Pipeline too long");
}

#[test]
fn table_layout() {
    let mut t = TableFormatter::new(
        vec!["name".to_string(), "n".to_string()],
        UiManager::new(Config::default()),
    );
    t.add_row(vec!["ls".to_string(), "12".to_string()]);
    t.add_row(vec!["cat".to_string(), "3".to_string(), "x".to_string()]);
    assert_eq!(
        t.render(),
        vec!["name | n ", "-----+---", "ls   | 12", "cat  | 3  | x         "]
    );
    let empty = TableFormatter::new(vec![], UiManager::new(Config::default()));
    assert!(empty.render().is_empty());
}
