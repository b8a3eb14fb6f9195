use shell_t::config::Config;
use shell_t::executor::{CommandExecutor, StdinSource, StdoutTarget};
use shell_t::parser::Command as ParsedCommand;

fn create_test_executor() -> CommandExecutor {
    let config = Config::default();
    CommandExecutor::new(config)
}

fn create_test_command(program: &str, args: Vec<&str>) -> ParsedCommand {
    ParsedCommand {
        program: program.to_string(),
        args: args.iter().map(|s| s.to_string()).collect(),
        input_redirect: None,
        output_redirect: None,
        append: false,
        background: false,
    }
}

#[test]
fn test_executor_creation() {
    let _executor = create_test_executor();
    assert!(true);
}

#[test]
fn test_resolve_command_regular() {
    let executor = create_test_executor();

    let (cmd, args) = executor.resolve_command("ls", &["-la".to_string()]).unwrap();
    assert_eq!(cmd, "ls");
    assert_eq!(args, vec!["-la"]);
}

#[test]
fn test_resolve_command_python() {
    let executor = create_test_executor();

    let (cmd, args) = executor.resolve_command("script.py", &["arg1".to_string()]).unwrap();
    assert_eq!(cmd, "python3");
    assert_eq!(args, vec!["script.py", "arg1"]);
}

#[test]
fn test_resolve_command_ruby() {
    let executor = create_test_executor();

    let (cmd, args) = executor.resolve_command("script.rb", &["arg1".to_string()]).unwrap();
    assert_eq!(cmd, "ruby");
    assert_eq!(args, vec!["script.rb", "arg1"]);
}

#[test]
fn test_resolve_command_javascript() {
    let executor = create_test_executor();

    let (cmd, args) = executor.resolve_command("script.js", &["arg1".to_string()]).unwrap();
    assert_eq!(cmd, "node");
    assert_eq!(args, vec!["script.js", "arg1"]);
}

#[test]
fn test_validate_command_whitelist_allowed() {
    let mut config = Config::default();
    config.security.command_whitelist = Some(vec!["ls".to_string(), "pwd".to_string()]);

    let executor = CommandExecutor::new(config);

    assert!(executor.validate_command("ls").is_ok());
    assert!(executor.validate_command("pwd").is_ok());
}

#[test]
fn test_validate_command_whitelist_denied() {
    let mut config = Config::default();
    config.security.command_whitelist = Some(vec!["ls".to_string(), "pwd".to_string()]);

    let executor = CommandExecutor::new(config);

    assert!(executor.validate_command("rm").is_err());
    assert!(executor.validate_command("sudo").is_err());
}

#[test]
fn test_validate_command_blacklist() {
    let mut config = Config::default();
    config.security.command_blacklist = Some(vec!["rm".to_string(), "sudo".to_string()]);

    let executor = CommandExecutor::new(config);

    assert!(executor.validate_command("ls").is_ok());
    assert!(executor.validate_command("rm").is_err());
    assert!(executor.validate_command("sudo").is_err());
}

#[test]
fn test_validate_args_path_traversal() {
    let executor = create_test_executor();

    let args = vec!["../../../etc/passwd".to_string()];
    assert!(executor.validate_args(&args).is_err());
}

#[test]
fn test_validate_args_too_long() {
    let executor = create_test_executor();

    let long_arg = "a".repeat(10000);
    let args = vec![long_arg];
    assert!(executor.validate_args(&args).is_err());
}

#[test]
fn test_validate_args_valid() {
    let executor = create_test_executor();

    let args = vec!["-la".to_string(), "--color".to_string(), "file.txt".to_string()];
    assert!(executor.validate_args(&args).is_ok());
}

#[test]
fn test_execute_pipeline_empty() {
    let executor = create_test_executor();
    let commands: Vec<ParsedCommand> = Vec::new();

    let result = executor.admit_pipeline(&commands);
    assert!(result.is_ok());
}

#[test]
fn test_execute_pipeline_too_long() {
    let mut config = Config::default();
    config.limits.max_pipeline_length = 2;

    let executor = CommandExecutor::new(config);

    let commands = vec![
        create_test_command("ls", vec![]),
        create_test_command("grep", vec!["test"]),
        create_test_command("sort", vec![]),
    ];

    let result = executor.admit_pipeline(&commands);
    assert!(result.is_err());
}

#[test]
fn test_execute_pipeline_single_command() {
    let executor = create_test_executor();
    let commands = vec![create_test_command("true", vec![])];

    assert!(executor.admit_pipeline(&commands).is_ok());
    let plan = executor.plan_stage(&commands, 0).unwrap().unwrap();
    assert_eq!(plan.program, "true");
    assert_eq!(plan.stdin, StdinSource::Inherit);
    assert_eq!(plan.stdout, StdoutTarget::Inherit);
}

#[test]
fn test_execute_pipeline_with_empty_program() {
    let executor = create_test_executor();

    let mut cmd = create_test_command("", vec![]);
    cmd.program = String::new();

    let commands = vec![cmd];

    let result = executor.plan_stage(&commands, 0);
    assert!(result.unwrap().is_none());
}

#[test]
fn block_list_takes_precedence_over_allow_list() {
    let mut config = Config::default();
    config.security.command_whitelist = Some(vec!["rm".to_string()]);
    config.security.command_blacklist = Some(vec!["rm".to_string()]);
    let executor = CommandExecutor::new(config);
    let e = executor.validate_command("rm").unwrap_err();
    assert_eq!(e.message(), "Security violation: Command blacklisted: rm");
}

#[test]
fn whitelist_message_names_the_command() {
    let mut config = Config::default();
    config.security.command_whitelist = Some(vec!["ls".to_string()]);
    let executor = CommandExecutor::new(config);
    let e = executor.validate_command("cat").unwrap_err();
    assert_eq!(e.message(), "Security violation: Command not in whitelist: cat");
}

#[test]
fn backslash_traversal_and_length_limit() {
    let executor = create_test_executor();
    assert!(executor.validate_args(&["..\\x".to_string()]).is_err());
    assert!(executor.validate_args(&["a".repeat(4096)]).is_ok());
    assert!(executor.validate_args(&["a".repeat(4097)]).is_err());
    assert!(executor.validate_args(&["..".to_string()]).is_ok());
}

#[test]
fn scripts_resolve_through_configured_interpreter() {
    let mut config = Config::default();
    config.interpreters.python_path = "/opt/py/bin/python3".to_string();
    let executor = CommandExecutor::new(config);
    let (cmd, args) = executor.resolve_command("tool.py", &[]).unwrap();
    assert_eq!(cmd, "/opt/py/bin/python3");
    assert_eq!(args, vec!["tool.py"]);
    let (cmd, args) = executor.resolve_command("py", &["x".to_string()]).unwrap();
    assert_eq!(cmd, "py");
    assert_eq!(args, vec!["x"]);
}

#[test]
fn interpreter_program_is_what_gets_validated() {
    let mut config = Config::default();
    config.security.command_blacklist = Some(vec!["python3".to_string()]);
    let executor = CommandExecutor::new(config);
    let commands = vec![create_test_command("run.py", vec!["a"])];
    assert!(executor.plan_stage(&commands, 0).is_err());
}

#[test]
fn stages_are_wired_through_pipes() {
    let executor = create_test_executor();
    let mut first = create_test_command("cat", vec![]);
    first.input_redirect = Some("in.txt".to_string());
    let skipped = create_test_command("", vec![]);
    let mut last = create_test_command("sort", vec![]);
    last.output_redirect = Some("out.txt".to_string());
    last.append = true;
    let commands = vec![first, skipped, last];

    let plan_first = executor.plan_stage(&commands, 0).unwrap().unwrap();
    assert_eq!(plan_first.stdin, StdinSource::File("in.txt".to_string()));
    assert_eq!(plan_first.stdout, StdoutTarget::Pipe);
    assert!(executor.plan_stage(&commands, 1).unwrap().is_none());
    let plan_last = executor.plan_stage(&commands, 2).unwrap().unwrap();
    assert_eq!(plan_last.stdin, StdinSource::Pipe);
    assert_eq!(plan_last.stdout, StdoutTarget::File { path: "out.txt".to_string(), append: true });
    assert!(CommandExecutor::waits_for_completion(&commands));
}

#[test]
fn background_pipeline_is_not_waited_for() {
    let mut c = create_test_command("sleep", vec!["1"]);
    c.background = true;
    assert!(!CommandExecutor::waits_for_completion(&[c]));
}

#[test]
fn echo_into_grep_is_wired_through_a_pipe() {
    let executor = create_test_executor();
    let commands = shell_t::parser::parse_command("echo hello | grep hello").unwrap();
    assert!(executor.admit_pipeline(&commands).is_ok());
    let echo = executor.plan_stage(&commands, 0).unwrap().unwrap();
    let grep = executor.plan_stage(&commands, 1).unwrap().unwrap();
    assert_eq!(echo.program, "echo");
    assert_eq!(echo.args, vec!["hello"]);
    assert_eq!(echo.stdin, StdinSource::Inherit);
    assert_eq!(echo.stdout, StdoutTarget::Pipe);
    assert_eq!(grep.stdin, StdinSource::Pipe);
    assert_eq!(grep.stdout, StdoutTarget::Inherit);
    assert!(CommandExecutor::waits_for_completion(&commands));
}

#[test]
fn truncate_then_append_to_the_same_file() {
    let executor = create_test_executor();
    let first = shell_t::parser::parse_command("echo x > /tmp/t.txt").unwrap();
    let second = shell_t::parser::parse_command("echo x >> /tmp/t.txt").unwrap();
    let truncating = executor.plan_stage(&first, 0).unwrap().unwrap();
    let appending = executor.plan_stage(&second, 0).unwrap().unwrap();
    assert_eq!(truncating.stdout, StdoutTarget::File { path: "/tmp/t.txt".to_string(), append: false });
    assert_eq!(appending.stdout, StdoutTarget::File { path: "/tmp/t.txt".to_string(), append: true });
}

#[test]
fn rejected_pipeline_is_never_planned() {
    let mut config = Config::default();
    config.limits.max_pipeline_length = 1;
    let executor = CommandExecutor::new(config);
    let commands = shell_t::parser::parse_command("ls | wc").unwrap();
    let e = executor.admit_pipeline(&commands).unwrap_err();
    assert_eq!(e.message(), "Process error: Pipeline too long");
}

#[test]
fn empty_allow_list_is_no_gate() {
    let mut config = Config::default();
    config.security.command_whitelist = Some(vec![]);
    config.security.command_blacklist = Some(vec!["rm".to_string()]);
    let executor = CommandExecutor::new(config);
    assert!(executor.validate_command("ls").is_ok());
    assert!(executor.validate_command("rm").is_err());
}
