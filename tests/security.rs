use std::path::PathBuf;
use std::time::Duration;

use shell_t::config::Config;
use shell_t::error::{SecurityError, ShellError};
use shell_t::security::{check_output_size, monitored_verdict, RunOutcome, SecurityManager};
use shell_t::validation;

fn create_test_config() -> Config {
    Config::default()
}

#[test]
fn test_security_manager_creation() {
    let manager = SecurityManager::new();
    assert_eq!(manager.active_processes(), 0);
}

#[test]
fn test_process_registration() {
    let mut manager = SecurityManager::new();
    let config = create_test_config();

    assert!(manager.can_start_process(&config).is_ok());

    let _guard = manager.register_process();
    assert_eq!(manager.active_processes(), 1);
}

#[test]
fn test_process_guard_drop() {
    let mut manager = SecurityManager::new();
    assert_eq!(manager.active_processes(), 0);

    {
        let guard = manager.register_process();
        assert_eq!(manager.active_processes(), 1);
        manager.release_process(guard);
    }

    assert_eq!(manager.active_processes(), 0);
}

#[test]
fn test_rate_limiting() {
    let mut manager = SecurityManager::new();
    let config = create_test_config();

    let key = "test_user";

    for _i in 0..10 {
        assert!(manager.check_rate_limit(key, &config).is_ok());
    }

    assert!(manager.check_rate_limit(key, &config).is_err());
}

#[test]
fn test_command_recording() {
    let mut manager = SecurityManager::new();

    let command = "ls";
    let execution_time = Duration::from_millis(100);

    manager.record_command(command, execution_time);

    let stats = manager.command_stats(command).unwrap();

    assert_eq!(stats.count, 1);
    assert_eq!(stats.total_time as u128, execution_time.as_micros());
}

#[test]
fn test_input_validation_valid() {
    let manager = SecurityManager::new();

    let valid_inputs = vec!["ls -la", "echo hello world", "pwd", "cd /tmp"];

    for input in valid_inputs {
        assert!(manager.validate_input(input).is_ok());
    }
}

#[test]
fn test_input_validation_null_bytes() {
    let manager = SecurityManager::new();

    let input = "ls\0-la";
    assert!(manager.validate_input(input).is_err());
}

#[test]
fn test_input_validation_too_long() {
    let manager = SecurityManager::new();

    let input = "a".repeat(10001);
    assert!(manager.validate_input(&input).is_err());
}

#[test]
fn test_input_validation_suspicious_patterns() {
    let manager = SecurityManager::new();

    let suspicious_inputs = vec![
        "ls; rm -rf /",
        "echo hello && dangerous_command",
        "cat `dangerous_command`",
        "ls $HOME",
        "cat (dangerous)",
        "ls ../etc",
    ];

    for input in suspicious_inputs {
        assert!(manager.validate_input(input).is_err());
    }
}

#[test]
fn test_sanitize_input_basic() {
    let config = create_test_config();
    let input = "ls -la";

    let result = validation::sanitize_input(input, &config);
    assert!(result.is_ok());
    assert_eq!(result.unwrap(), input);
}

#[test]
fn test_sanitize_input_null_bytes() {
    let config = create_test_config();
    let input = "ls\0-la";

    let result = validation::sanitize_input(input, &config);
    assert!(result.is_ok());
    assert_eq!(result.unwrap(), "ls-la");
}

#[test]
fn test_sanitize_input_control_chars() {
    let config = create_test_config();
    let input = "ls\r\n-la\t";

    let result = validation::sanitize_input(input, &config);
    assert!(result.is_ok());
    assert_eq!(result.unwrap(), "ls\n-la\t");
}

#[test]
fn test_validate_file_path_basic() {
    let config = create_test_config();
    let path = "test.txt";

    let result = validation::validate_file_path(path, &config);
    assert!(result.is_ok());
    assert_eq!(PathBuf::from(result.unwrap()), PathBuf::from(path));
}

#[test]
fn test_validate_file_path_path_traversal() {
    let config = create_test_config();
    let path = "../etc/passwd";

    let result = validation::validate_file_path(path, &config);
    assert!(result.is_err());
}

#[test]
fn test_validate_file_path_allowed_absolute() {
    let config = create_test_config();
    let allowed_paths = vec![
        "/tmp/test.txt",
        "/var/tmp/file.log",
        "/home/user/doc.txt",
        "/Users/user/file.txt",
    ];

    for path in allowed_paths {
        let result = validation::validate_file_path(path, &config);
        assert!(result.is_ok(), "Path {} should be allowed", path);
    }
}

#[test]
fn test_validate_file_path_disallowed_absolute() {
    let config = create_test_config();
    let disallowed_paths = vec!["/etc/passwd", "/bin/sh", "/usr/bin/sudo", "/root/secret.txt"];

    for path in disallowed_paths {
        let result = validation::validate_file_path(path, &config);
        assert!(result.is_err(), "Path {} should be disallowed", path);
    }
}

#[test]
fn test_sanitize_input_disabled() {
    let mut config = create_test_config();
    config.security.sanitize_input = false;

    let input = "ls\0-la";
    let result = validation::sanitize_input(input, &config);
    assert!(result.is_ok());
    assert_eq!(result.unwrap(), input);
}

#[test]
fn test_validate_file_path_disabled() {
    let mut config = create_test_config();
    config.security.validate_paths = false;

    let path = "/etc/passwd";
    let result = validation::validate_file_path(path, &config);
    assert!(result.is_ok());
    assert_eq!(PathBuf::from(result.unwrap()), PathBuf::from(path));
}

#[test]
fn rate_limiter_resets_after_a_full_window() {
    let mut manager = SecurityManager::new();
    for t in 0..10u64 {
        assert!(manager.check_rate_limit_at("k", t * 1000).is_ok());
    }
    assert!(manager.check_rate_limit_at("k", 10_000).is_err());
    assert!(manager.check_rate_limit_at("other", 10_000).is_ok());
    assert!(manager.check_rate_limit_at("k", 9_000 + 61_000).is_ok());
}

#[test]
fn rate_limiter_window_slides() {
    let mut manager = SecurityManager::new();
    for t in 0..10u64 {
        assert!(manager.check_rate_limit_at("k", t).is_ok());
    }
    assert!(manager.check_rate_limit_at("k", 59_999).is_err());
    assert!(manager.check_rate_limit_at("k", 60_000).is_ok());
    let e = manager.check_rate_limit_at("k", 60_000).unwrap_err();
    assert_eq!(e.message(), "Security error: Resource limit exceeded: Rate limit exceeded");
}

#[test]
fn guards_balance_over_many_cycles() {
    let mut manager = SecurityManager::new();
    let mut guards = Vec::new();
    for _ in 0..25 {
        guards.push(manager.register_process());
    }
    assert_eq!(manager.active_processes(), 25);
    for g in guards {
        manager.release_process(g);
    }
    assert_eq!(manager.active_processes(), 0);
}

#[test]
fn process_ceiling_is_enforced() {
    let mut manager = SecurityManager::new();
    let mut config = create_test_config();
    config.limits.max_background_processes = 1;
    let g = manager.register_process();
    assert!(manager.can_start_process(&config).is_err());
    manager.release_process(g);
    assert!(manager.can_start_process(&config).is_ok());
}

#[test]
fn stats_accumulate_per_command() {
    let mut manager = SecurityManager::new();
    manager.record_command_at("ls", 5, 100);
    manager.record_command_at("ls", 7, 200);
    manager.record_command_at("cat", 1, 300);
    let ls = manager.command_stats("ls").unwrap();
    assert_eq!(ls.count, 2);
    assert_eq!(ls.total_time, 12);
    assert_eq!(ls.last_execution, 200);
    assert_eq!(manager.command_stats("cat").unwrap().count, 1);
    assert!(manager.command_stats("pwd").is_none());
    manager.record_command_at("ls", u64::MAX, 300);
    assert_eq!(manager.command_stats("ls").unwrap().total_time, u64::MAX);
}

#[test]
fn validate_input_names_the_first_fragment() {
    let manager = SecurityManager::new();
    let e = manager.validate_input("cat /etc/passwd").unwrap_err();
    assert_eq!(e.message(), "Security error: Invalid input: Suspicious pattern detected: /etc/");
    assert!(manager.validate_input(&"a".repeat(10000)).is_ok());
}

#[test]
fn sanitize_rejects_command_substitution() {
    let config = create_test_config();
    let e = validation::sanitize_input("echo $(whoami)", &config).unwrap_err();
    assert_eq!(
        e.message(),
        "Security error: Dangerous command blocked: Suspicious pattern detected: \\$\\(.*\\)"
    );
    assert!(validation::sanitize_input("a && b && c", &config).is_err());
    assert!(validation::sanitize_input("a && b", &config).is_ok());
}

#[test]
fn sanitize_truncates_without_splitting_characters() {
    let mut config = create_test_config();
    config.security.max_command_length = 4;
    assert_eq!(validation::sanitize_input("abcdef", &config).unwrap(), "abcd");
    assert_eq!(validation::sanitize_input("abé", &config).unwrap(), "abé");
    assert_eq!(validation::sanitize_input("abcé", &config).unwrap(), "abc");
}

#[test]
fn sanitize_with_given_verdicts() {
    let config = create_test_config();
    let none = vec![Some(false); 6];
    assert_eq!(validation::sanitize_with_verdicts("a\u{7}b", &none, &config).unwrap(), "ab");
    let mut hit = none.clone();
    hit[3] = Some(true);
    let e = validation::sanitize_with_verdicts("x", &hit, &config).unwrap_err();
    assert_eq!(e.message(), "Security error: Dangerous command blocked: Suspicious pattern detected: ;.*;");
}

#[test]
fn validate_arguments_reports_first_fault() {
    let config = create_test_config();
    assert!(validation::validate_arguments(&["ok".to_string()], &config).is_ok());
    let e = validation::validate_arguments(&["ok".to_string(), "a;b".to_string()], &config).unwrap_err();
    assert_eq!(e.message(), "Security error: Dangerous command blocked: Dangerous character in argument: a;b");
    let many: Vec<String> = (0..101).map(|i| i.to_string()).collect();
    let e = validation::validate_arguments(&many, &config).unwrap_err();
    assert!(matches!(e, ShellError::Security(SecurityError::InvalidInput(_))));
}

#[test]
fn output_size_ceiling() {
    let mut config = create_test_config();
    config.limits.max_memory_mb = 1;
    assert!(check_output_size(1_048_576, &config).is_ok());
    assert!(check_output_size(1_048_577, &config).is_err());
}

#[test]
fn file_path_rejects_nul_and_overlong() {
    let config = create_test_config();
    assert!(validation::validate_file_path("a\0b", &config).is_err());
    assert!(validation::validate_file_path(&"a".repeat(4096), &config).is_ok());
    assert!(validation::validate_file_path(&"a".repeat(4097), &config).is_err());
}

#[test]
fn arguments_may_not_hold_quotes() {
    let config = create_test_config();
    assert!(validation::validate_arguments(&["it's".to_string()], &config).is_err());
    assert!(validation::validate_arguments(&["say \"x\"".to_string()], &config).is_err());
}

#[test]
fn monitored_run_verdicts() {
    let config = create_test_config();
    assert!(monitored_verdict(RunOutcome::Finished(10), &config).is_ok());
    let e = monitored_verdict(RunOutcome::TimedOut, &config).unwrap_err();
    assert_eq!(e.message(), "Security error: Resource limit exceeded: Command execution timeout");
    let e = monitored_verdict(RunOutcome::Failed("no such file".to_string()), &config).unwrap_err();
    assert_eq!(e.message(), "Command execution failed: no such file");
    assert!(monitored_verdict(RunOutcome::Finished(512 * 1048576 + 1), &config).is_err());
}

#[test]
fn only_a_parent_component_is_traversal() {
    let config = create_test_config();
    assert!(validation::validate_file_path("a..b", &config).is_ok());
    assert!(validation::validate_file_path("/tmp/x..y/z", &config).is_ok());
    assert!(validation::validate_file_path("a/../b", &config).is_err());
    assert!(validation::validate_file_path("a/..", &config).is_err());
    assert!(validation::validate_file_path("..", &config).is_err());
}
