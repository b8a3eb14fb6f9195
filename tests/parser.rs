use shell_t::parser::{parse_command, Command};

#[test]
fn test_parse_simple_command() {
    let result = parse_command("ls -la");
    assert!(result.is_ok());
    let commands = result.unwrap();
    assert_eq!(commands.len(), 1);
    assert_eq!(commands[0].program, "ls");
    assert_eq!(commands[0].args, vec!["-la"]);
    assert_eq!(commands[0].input_redirect, None);
    assert_eq!(commands[0].output_redirect, None);
    assert_eq!(commands[0].append, false);
}

#[test]
fn test_parse_command_with_quotes() {
    let result = parse_command("echo \"hello world\"");
    assert!(result.is_ok());
    let commands = result.unwrap();
    assert_eq!(commands.len(), 1);
    assert_eq!(commands[0].program, "echo");
    assert_eq!(commands[0].args, vec!["hello world"]);
}

#[test]
fn test_parse_command_with_single_quotes() {
    let result = parse_command("echo 'hello world'");
    assert!(result.is_ok());
    let commands = result.unwrap();
    assert_eq!(commands.len(), 1);
    assert_eq!(commands[0].program, "echo");
    assert_eq!(commands[0].args, vec!["hello world"]);
}

#[test]
fn test_parse_input_redirection() {
    let result = parse_command("cat < input.txt");
    assert!(result.is_ok());
    let commands = result.unwrap();
    assert_eq!(commands.len(), 1);
    assert_eq!(commands[0].program, "cat");
    assert_eq!(commands[0].args, Vec::<String>::new());
    assert_eq!(commands[0].input_redirect, Some("input.txt".to_string()));
}

#[test]
fn test_parse_output_redirection() {
    let result = parse_command("echo hello > output.txt");
    assert!(result.is_ok());
    let commands = result.unwrap();
    assert_eq!(commands.len(), 1);
    assert_eq!(commands[0].program, "echo");
    assert_eq!(commands[0].args, vec!["hello"]);
    assert_eq!(commands[0].output_redirect, Some("output.txt".to_string()));
    assert_eq!(commands[0].append, false);
}

#[test]
fn test_parse_append_redirection() {
    let result = parse_command("echo hello >> output.txt");
    assert!(result.is_ok());
    let commands = result.unwrap();
    assert_eq!(commands.len(), 1);
    assert_eq!(commands[0].program, "echo");
    assert_eq!(commands[0].args, vec!["hello"]);
    assert_eq!(commands[0].output_redirect, Some("output.txt".to_string()));
    assert_eq!(commands[0].append, true);
}

#[test]
fn test_parse_pipeline() {
    let result = parse_command("ls -la | grep txt");
    assert!(result.is_ok());
    let commands = result.unwrap();
    assert_eq!(commands.len(), 2);

    assert_eq!(commands[0].program, "ls");
    assert_eq!(commands[0].args, vec!["-la"]);

    assert_eq!(commands[1].program, "grep");
    assert_eq!(commands[1].args, vec!["txt"]);
}

#[test]
fn test_parse_complex_pipeline() {
    let result = parse_command("cat file.txt | grep error | sort | uniq > results.txt");
    assert!(result.is_ok());
    let commands = result.unwrap();
    assert_eq!(commands.len(), 4);

    assert_eq!(commands[0].program, "cat");
    assert_eq!(commands[0].args, vec!["file.txt"]);

    assert_eq!(commands[1].program, "grep");
    assert_eq!(commands[1].args, vec!["error"]);

    assert_eq!(commands[2].program, "sort");
    assert_eq!(commands[2].args, Vec::<String>::new());

    assert_eq!(commands[3].program, "uniq");
    assert_eq!(commands[3].args, Vec::<String>::new());
    assert_eq!(commands[3].output_redirect, Some("results.txt".to_string()));
}

#[test]
fn test_parse_empty_command() {
    let result = parse_command("");
    assert!(result.is_err());
    assert_eq!(result.unwrap_err(), "Empty command");
}

#[test]
fn test_parse_whitespace_only() {
    let result = parse_command("   \t   ");
    assert!(result.is_err());
    assert_eq!(result.unwrap_err(), "Empty command");
}

#[test]
fn test_parse_redirection_without_file() {
    let result = parse_command("cat <");
    assert!(result.is_err());
    assert!(result.unwrap_err().contains("Missing input file"));
}

#[test]
fn test_parse_output_redirection_without_file() {
    let result = parse_command("echo >");
    assert!(result.is_err());
    assert!(result.unwrap_err().contains("Missing output file"));
}

#[test]
fn test_parse_append_redirection_without_file() {
    let result = parse_command("echo >>");
    assert!(result.is_err());
    assert!(result.unwrap_err().contains("Missing output file"));
}

#[test]
fn test_parse_missing_command_after_pipe() {
    let result = parse_command("ls |");
    assert!(result.is_err());
    assert_eq!(result.unwrap_err(), "Missing command after pipe");
}

fn only(line: &str) -> Command {
    let mut commands = parse_command(line).unwrap();
    assert_eq!(commands.len(), 1);
    commands.remove(0)
}

#[test]
fn leading_and_doubled_pipes_are_rejected() {
    assert_eq!(parse_command("| ls").unwrap_err(), "Missing command after pipe");
    assert_eq!(parse_command("ls || wc").unwrap_err(), "Missing command after pipe");
    assert_eq!(parse_command("ls |   | wc").unwrap_err(), "Missing command after pipe");
}

#[test]
fn redirections_and_arguments_together() {
    let c = only("sort a b < in > out");
    assert_eq!(c.program, "sort");
    assert_eq!(c.args, vec!["a", "b"]);
    assert_eq!(c.input_redirect, Some("in".to_string()));
    assert_eq!(c.output_redirect, Some("out".to_string()));
    assert!(!c.append);
}

#[test]
fn last_output_redirection_decides_the_mode() {
    let c = only("echo x > a >> b");
    assert_eq!(c.output_redirect, Some("b".to_string()));
    assert!(c.append);
    let c = only("echo x >> a > b");
    assert_eq!(c.output_redirect, Some("b".to_string()));
    assert!(!c.append);
}

#[test]
fn quoted_span_keeps_inner_white_space() {
    let c = only("echo \"a   b\" c");
    assert_eq!(c.args, vec!["a   b", "c"]);
    let c = only("echo 'say \"hi\"'");
    assert_eq!(c.args, vec!["say \"hi\""]);
}

#[test]
fn quoted_pipe_does_not_split() {
    let c = only("echo \"a|b\"");
    assert_eq!(c.args, vec!["a|b"]);
}

#[test]
fn unterminated_quote_runs_to_the_end() {
    let c = only("echo \"a b");
    assert_eq!(c.args, vec!["a b"]);
}

#[test]
fn background_only_on_the_last_stage() {
    let cs = parse_command("sleep 1 & | cat &").unwrap();
    assert_eq!(cs.len(), 2);
    assert!(!cs[0].background);
    assert!(cs[1].background);
    assert_eq!(cs[0].args, vec!["1"]);
    assert!(cs[1].args.is_empty());
}

#[test]
fn stage_without_program_is_an_error() {
    assert_eq!(parse_command("< in").unwrap_err(), "No command specified");
    assert_eq!(parse_command("&").unwrap_err(), "No command specified");
}

#[test]
fn stage_without_words_is_skipped() {
    let cs = parse_command("ls | \"\"").unwrap();
    assert_eq!(cs.len(), 1);
    assert_eq!(cs[0].program, "ls");
    assert_eq!(parse_command("''").unwrap_err(), "No commands to execute");
}

#[test]
fn tabs_split_words_outside_quotes() {
    let c = only("\techo a\tb ");
    assert_eq!(c.program, "echo");
    assert_eq!(c.args, vec!["a", "b"]);
    let c = only("echo 'a\tb'");
    assert_eq!(c.args, vec!["a\tb"]);
}

#[test]
fn single_quoted_argument_keeps_its_spaces() {
    let c = only("grep 'a | b  c'");
    assert_eq!(c.program, "grep");
    assert_eq!(c.args, vec!["a | b  c"]);
}

#[test]
fn input_operand_is_not_read_as_an_operator() {
    let c = only("cat < > f");
    assert_eq!(c.input_redirect, Some(">".to_string()));
    assert_eq!(c.output_redirect, None);
    assert_eq!(c.args, vec!["f"]);
}
