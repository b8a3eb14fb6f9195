//! Configuration, its defaults, and the policy's command and argument rules.
use vstd::prelude::*;
use crate::error::{ErrorKind, ErrorView, SecurityError, ShellError, ShellResult, err_of, fails_with};
use crate::text::{byte_len, contains_text, pushed, texts, utf8_len};

verus! {

/// Main configuration.
#[derive(Debug, Clone)]
pub struct Config {
    pub security: SecurityConfig,
    pub limits: ResourceLimits,
    pub ui: UiConfig,
    pub interpreters: InterpreterConfig,
}

/// Security configuration.
///
/// `allowed_commands` / `blocked_commands` are the allow-set and block-set of
/// the policy; `command_whitelist` / `command_blacklist` are the optional
/// lists that the executor applies to each stage of a pipeline.
#[derive(Debug, Clone)]
pub struct SecurityConfig {
    pub enable_logging: bool,
    pub enable_auditing: bool,
    pub max_command_length: usize,
    pub max_arg_count: usize,
    pub allowed_commands: Vec<String>,
    pub blocked_commands: Vec<String>,
    pub command_whitelist: Option<Vec<String>>,
    pub command_blacklist: Option<Vec<String>>,
    pub validate_paths: bool,
    pub sanitize_input: bool,
}

/// Resource limits.
#[derive(Debug, Clone)]
pub struct ResourceLimits {
    pub max_background_processes: usize,
    pub max_pipeline_length: usize,
    /// Per-command timeout, in seconds.
    pub command_timeout: u64,
    pub max_memory_mb: usize,
    /// Longest argument, in bytes, that the executor lets through.
    pub max_arg_length: usize,
}

/// Terminal configuration.
#[derive(Debug, Clone)]
pub struct UiConfig {
    pub enable_colors: bool,
    pub prompt_color: String,
    pub show_timestamps: bool,
    pub enable_completion: bool,
}

/// Interpreters that script files are handed to.
#[derive(Debug, Clone)]
pub struct InterpreterConfig {
    pub python_path: String,
    pub ruby_path: String,
    pub node_path: String,
    pub enable_scripts: bool,
    pub allowed_extensions: Vec<String>,
}

impl SecurityConfig {
    pub open spec fn is_default(&self) -> bool {
        &&& self.enable_logging
        &&& self.enable_auditing
        &&& self.max_command_length == 4096
        &&& self.max_arg_count == 100
        &&& texts(self.allowed_commands) == seq![
            "ls"@,
            "pwd"@,
            "cd"@,
            "cat"@,
            "grep"@,
            "head"@,
            "tail"@,
            "wc"@,
            "sort"@,
            "uniq"@,
        ]
        &&& texts(self.blocked_commands) == seq![
            "rm"@,
            "rmdir"@,
            "mv"@,
            "cp"@,
            "chmod"@,
            "chown"@,
            "sudo"@,
            "su"@,
        ]
        &&& self.command_whitelist is None
        &&& self.command_blacklist is None
        &&& self.validate_paths
        &&& self.sanitize_input
    }
}

impl ResourceLimits {
    pub open spec fn is_default(&self) -> bool {
        &&& self.max_background_processes == 10
        &&& self.max_pipeline_length == 10
        &&& self.command_timeout == 300
        &&& self.max_memory_mb == 512
        &&& self.max_arg_length == 4096
    }
}

impl UiConfig {
    pub open spec fn is_default(&self) -> bool {
        &&& self.enable_colors
        &&& self.prompt_color@ == "green"@
        &&& !self.show_timestamps
        &&& self.enable_completion
    }
}

impl InterpreterConfig {
    pub open spec fn is_default(&self) -> bool {
        &&& self.python_path@ == "python3"@
        &&& self.ruby_path@ == "ruby"@
        &&& self.node_path@ == "node"@
        &&& self.enable_scripts
        &&& texts(self.allowed_extensions) == seq!["py"@, "rb"@, "js"@, "sh"@]
    }
}

impl Config {
    pub open spec fn is_default(&self) -> bool {
        &&& self.security.is_default()
        &&& self.limits.is_default()
        &&& self.ui.is_default()
        &&& self.interpreters.is_default()
    }
}

impl Default for SecurityConfig {
    fn default() -> (r: SecurityConfig)
        ensures
            r.is_default(),
    {
        let mut allowed: Vec<String> = Vec::new();
        allowed = pushed(allowed, "ls");
        allowed = pushed(allowed, "pwd");
        allowed = pushed(allowed, "cd");
        allowed = pushed(allowed, "cat");
        allowed = pushed(allowed, "grep");
        allowed = pushed(allowed, "head");
        allowed = pushed(allowed, "tail");
        allowed = pushed(allowed, "wc");
        allowed = pushed(allowed, "sort");
        allowed = pushed(allowed, "uniq");
        let mut blocked: Vec<String> = Vec::new();
        blocked = pushed(blocked, "rm");
        blocked = pushed(blocked, "rmdir");
        blocked = pushed(blocked, "mv");
        blocked = pushed(blocked, "cp");
        blocked = pushed(blocked, "chmod");
        blocked = pushed(blocked, "chown");
        blocked = pushed(blocked, "sudo");
        blocked = pushed(blocked, "su");
        assert(texts(allowed) =~= seq![
            "ls"@,
            "pwd"@,
            "cd"@,
            "cat"@,
            "grep"@,
            "head"@,
            "tail"@,
            "wc"@,
            "sort"@,
            "uniq"@,
        ]);
        assert(texts(blocked) =~= seq![
            "rm"@,
            "rmdir"@,
            "mv"@,
            "cp"@,
            "chmod"@,
            "chown"@,
            "sudo"@,
            "su"@,
        ]);
        SecurityConfig {
            enable_logging: true,
            enable_auditing: true,
            max_command_length: 4096,
            max_arg_count: 100,
            allowed_commands: allowed,
            blocked_commands: blocked,
            command_whitelist: None,
            command_blacklist: None,
            validate_paths: true,
            sanitize_input: true,
        }
    }
}

impl Default for ResourceLimits {
    fn default() -> (r: ResourceLimits)
        ensures
            r.is_default(),
    {
        ResourceLimits {
            max_background_processes: 10,
            max_pipeline_length: 10,
            command_timeout: 300,
            max_memory_mb: 512,
            max_arg_length: 4096,
        }
    }
}

impl Default for UiConfig {
    fn default() -> (r: UiConfig)
        ensures
            r.is_default(),
    {
        UiConfig {
            enable_colors: true,
            prompt_color: "green".to_owned(),
            show_timestamps: false,
            enable_completion: true,
        }
    }
}

impl Default for InterpreterConfig {
    fn default() -> (r: InterpreterConfig)
        ensures
            r.is_default(),
    {
        let mut exts: Vec<String> = Vec::new();
        exts = pushed(exts, "py");
        exts = pushed(exts, "rb");
        exts = pushed(exts, "js");
        exts = pushed(exts, "sh");
        assert(texts(exts) =~= seq!["py"@, "rb"@, "js"@, "sh"@]);
        InterpreterConfig {
            python_path: "python3".to_owned(),
            ruby_path: "ruby".to_owned(),
            node_path: "node".to_owned(),
            enable_scripts: true,
            allowed_extensions: exts,
        }
    }
}

impl Default for Config {
    fn default() -> (r: Config)
        ensures
            r.is_default(),
    {
        Config {
            security: SecurityConfig::default(),
            limits: ResourceLimits::default(),
            ui: UiConfig::default(),
            interpreters: InterpreterConfig::default(),
        }
    }
}

impl Config {
    /// Reads a configuration text. No key is read yet: every text gives the
    /// default configuration.
    pub fn parse_toml(_content: &str) -> (r: Result<Config, ShellError>)
        ensures
            r matches Ok(c) && c.is_default(),
    {
        Ok(Config::default())
    }

    /// Checks that the limits are usable: none of them is zero.
    pub fn validate(&self) -> (r: Result<(), String>)
        ensures
            self.security.max_command_length == 0 ==> (r matches Err(e) && e@
                == "Max command length must be greater than 0"@),
            self.security.max_command_length != 0 && self.limits.max_background_processes == 0
                ==> (r matches Err(e) && e@ == "Max background processes must be greater than 0"@),
            self.security.max_command_length != 0 && self.limits.max_background_processes != 0
                && self.limits.max_pipeline_length == 0 ==> (r matches Err(e) && e@
                == "Max pipeline length must be greater than 0"@),
            r is Ok <==> (self.security.max_command_length != 0
                && self.limits.max_background_processes != 0 && self.limits.max_pipeline_length
                != 0),
    {
        if self.security.max_command_length == 0 {
            return Err("Max command length must be greater than 0".to_owned());
        }
        if self.limits.max_background_processes == 0 {
            return Err("Max background processes must be greater than 0".to_owned());
        }
        if self.limits.max_pipeline_length == 0 {
            return Err("Max pipeline length must be greater than 0".to_owned());
        }
        Ok(())
    }

    /// Saving is not supported yet: this succeeds and writes nothing.
    pub fn save(&self) -> (r: Result<(), ShellError>)
        ensures
            r is Ok,
    {
        Ok(())
    }
}

/// What is wrong with a command name under the policy, if anything: its
/// length first, then the block-set, then (when it is not empty) the allow-set.
pub open spec fn policy_command_fault(config: Config, c: Seq<char>) -> Option<ErrorView> {
    if utf8_len(c) > config.security.max_command_length {
        Some(err_of(ErrorKind::InvalidInput, "Command too long"@))
    } else if texts(config.security.blocked_commands).contains(c) {
        Some(err_of(ErrorKind::DangerousCommand, c))
    } else if texts(config.security.allowed_commands).len() > 0 && !texts(
        config.security.allowed_commands,
    ).contains(c) {
        Some(err_of(ErrorKind::DangerousCommand, "Command not in whitelist: "@ + c))
    } else {
        None
    }
}

/// A command in both the allow-set and the block-set is rejected: the
/// block-set takes precedence over the allow-set.
pub proof fn lemma_block_set_wins(config: Config, c: Seq<char>)
    requires
        texts(config.security.blocked_commands).contains(c),
        texts(config.security.allowed_commands).contains(c),
    ensures
        policy_command_fault(config, c) is Some,
        utf8_len(c) <= config.security.max_command_length ==> policy_command_fault(config, c)
            == Some(err_of(ErrorKind::DangerousCommand, c)),
{
}

/// Checks a command name against the policy (see [`policy_command_fault`]).
pub fn validate_command(config: &Config, command: &str) -> (r: ShellResult<()>)
    ensures
        match policy_command_fault(*config, command@) {
            None => r is Ok,
            Some(e) => fails_with(r, e),
        },
{
    if command.len() > config.security.max_command_length {
        return Err(ShellError::Security(SecurityError::InvalidInput("Command too long".to_owned())));
    }
    if contains_text(&config.security.blocked_commands, command) {
        return Err(ShellError::Security(SecurityError::DangerousCommand(command.to_owned())));
    }
    if config.security.allowed_commands.len() > 0 && !contains_text(
        &config.security.allowed_commands,
        command,
    ) {
        let mut m = "Command not in whitelist: ".to_owned();
        m.append(command);
        return Err(ShellError::Security(SecurityError::DangerousCommand(m)));
    }
    Ok(())
}

/// Checks an argument list against the policy: its count, then the length
/// of each argument.
pub fn validate_args(config: &Config, args: &[String]) -> (r: ShellResult<()>)
    ensures
        args@.len() > config.security.max_arg_count ==> fails_with(
            r,
            err_of(ErrorKind::InvalidInput, "Too many arguments"@),
        ),
        args@.len() <= config.security.max_arg_count && (exists|k: int|
            0 <= k < args@.len() && utf8_len(#[trigger] args@[k]@)
                > config.security.max_command_length) ==> fails_with(
            r,
            err_of(ErrorKind::InvalidInput, "Argument too long"@),
        ),
        r is Ok <==> (args@.len() <= config.security.max_arg_count && forall|k: int|
            0 <= k < args@.len() ==> utf8_len(#[trigger] args@[k]@)
                <= config.security.max_command_length),
{
    if args.len() > config.security.max_arg_count {
        return Err(ShellError::Security(SecurityError::InvalidInput("Too many arguments".to_owned())));
    }
    let mut i: usize = 0;
    while i < args.len()
        invariant
            i <= args@.len(),
            args@.len() <= config.security.max_arg_count,
            forall|k: int|
                0 <= k < i ==> utf8_len(#[trigger] args@[k]@) <= config.security.max_command_length,
        decreases args@.len() - i,
    {
        if byte_len(&args[i]) > config.security.max_command_length {
            return Err(
                ShellError::Security(SecurityError::InvalidInput("Argument too long".to_owned())),
            );
        }
        i += 1;
    }
    Ok(())
}

} // verus!
