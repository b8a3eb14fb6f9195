//! Built-in commands.
use vstd::prelude::*;
use crate::config::Config;
use crate::error::ShellResult;
use crate::text::{chars_of, string_of};

verus! {

/// Built-in commands.
#[derive(Debug, Clone, Copy, PartialEq, Eq, Structural)]
pub enum BuiltinCommand {
    Cd,
    Pwd,
    Exit,
    Help,
    History,
    Alias,
    Unalias,
    Export,
    Unset,
    Jobs,
    Fg,
    Bg,
    Kill,
    Which,
    Type,
}

/// The builtin named `s`, if any.
pub open spec fn builtin_named(s: Seq<char>) -> Option<BuiltinCommand> {
    if s == "cd"@ {
        Some(BuiltinCommand::Cd)
    } else if s == "pwd"@ {
        Some(BuiltinCommand::Pwd)
    } else if s == "exit"@ {
        Some(BuiltinCommand::Exit)
    } else if s == "help"@ {
        Some(BuiltinCommand::Help)
    } else if s == "history"@ {
        Some(BuiltinCommand::History)
    } else if s == "alias"@ {
        Some(BuiltinCommand::Alias)
    } else if s == "unalias"@ {
        Some(BuiltinCommand::Unalias)
    } else if s == "export"@ {
        Some(BuiltinCommand::Export)
    } else if s == "unset"@ {
        Some(BuiltinCommand::Unset)
    } else if s == "jobs"@ {
        Some(BuiltinCommand::Jobs)
    } else if s == "fg"@ {
        Some(BuiltinCommand::Fg)
    } else if s == "bg"@ {
        Some(BuiltinCommand::Bg)
    } else if s == "kill"@ {
        Some(BuiltinCommand::Kill)
    } else if s == "which"@ {
        Some(BuiltinCommand::Which)
    } else if s == "type"@ {
        Some(BuiltinCommand::Type)
    } else {
        None
    }
}

fn same_text(a: &String, b: &str) -> (r: bool)
    ensures
        r == (a@ == b@),
{
    *a == b.to_owned()
}

impl BuiltinCommand {
    /// The builtin named `s`, if any.
    pub fn from_str(s: &str) -> (r: Option<BuiltinCommand>)
        ensures
            r == builtin_named(s@),
    {
        let o = s.to_owned();
        if same_text(&o, "cd") {
            Some(BuiltinCommand::Cd)
        } else if same_text(&o, "pwd") {
            Some(BuiltinCommand::Pwd)
        } else if same_text(&o, "exit") {
            Some(BuiltinCommand::Exit)
        } else if same_text(&o, "help") {
            Some(BuiltinCommand::Help)
        } else if same_text(&o, "history") {
            Some(BuiltinCommand::History)
        } else if same_text(&o, "alias") {
            Some(BuiltinCommand::Alias)
        } else if same_text(&o, "unalias") {
            Some(BuiltinCommand::Unalias)
        } else if same_text(&o, "export") {
            Some(BuiltinCommand::Export)
        } else if same_text(&o, "unset") {
            Some(BuiltinCommand::Unset)
        } else if same_text(&o, "jobs") {
            Some(BuiltinCommand::Jobs)
        } else if same_text(&o, "fg") {
            Some(BuiltinCommand::Fg)
        } else if same_text(&o, "bg") {
            Some(BuiltinCommand::Bg)
        } else if same_text(&o, "kill") {
            Some(BuiltinCommand::Kill)
        } else if same_text(&o, "which") {
            Some(BuiltinCommand::Which)
        } else if same_text(&o, "type") {
            Some(BuiltinCommand::Type)
        } else {
            None
        }
    }

    /// Whether `s` names a builtin.
    pub fn is_builtin(s: &str) -> (r: bool)
        ensures
            r == builtin_named(s@) is Some,
    {
        BuiltinCommand::from_str(s).is_some()
    }
}

/// Result of a builtin.
#[derive(Debug)]
pub enum BuiltinResult {
    Success(Option<String>),
    Error(String),
    Info(String),
    Warning(String),
    Exit,
}

/// Work on the process environment that a builtin leaves to its caller.
#[derive(Debug)]
pub enum EnvRequest {
    /// Change the working directory to this path.
    ChangeDir(String),
    /// Change the working directory to `$HOME`.
    ChangeDirHome,
    /// Report the working directory.
    CurrentDir,
    /// Set an environment variable.
    SetVar { key: String, value: String },
    /// Remove an environment variable.
    UnsetVar(String),
}

/// What running a builtin comes to: a finished result, or environment work
/// for the caller.
#[derive(Debug)]
pub enum BuiltinOutcome {
    Done(BuiltinResult),
    Env(EnvRequest),
}

/// Text of the `help` builtin.
pub const HELP_TEXT: &'static str = "Shell-T Built-in Commands:

Navigation:
  cd <dir>          Change directory
  pwd               Print working directory

Process Control:
  jobs              List background jobs
  fg [JOB]          Bring job to foreground
  bg [JOB]          Send job to background
  kill [PID]        Kill a process

Environment:
  export KEY=VALUE  Set environment variable
  unset KEY         Unset environment variable

Utilities:
  alias             Manage command aliases
  history           Show command history
  which COMMAND     Locate a command
  type COMMAND      Show command type
  help              Show this help
  exit              Exit the shell

Security Features:
- Input validation and sanitization
- Path traversal protection
- Resource limits and monitoring
- Command whitelisting/blacklisting
- Audit logging

For more information, see the documentation.";

/// Relies on `which::which`: the full path of the executable `name` found
/// through `PATH`, if there is one. What it finds depends on the file system.
#[verifier::external_body]
fn locate(name: &str) -> Option<String> {
    match which::which(name) {
        Ok(p) => Some(p.display().to_string()),
        Err(_) => None,
    }
}

/// Position of the first `=` in `s`, if any.
pub open spec fn first_eq(s: Seq<char>) -> Option<int> {
    if exists|i: int| 0 <= i < s.len() && s[i] == '=' {
        Some(choose|i: int| 0 <= i < s.len() && s[i] == '=' && forall|j: int| 0 <= j < i ==> s[j] != '=')
    } else {
        None
    }
}

/// The fixed answer of the builtins that only report that they are not
/// available yet.
pub open spec fn stub_text(c: BuiltinCommand) -> Option<Seq<char>> {
    match c {
        BuiltinCommand::History => Some("Command history not yet implemented"@),
        BuiltinCommand::Alias => Some("Command aliasing not yet implemented"@),
        BuiltinCommand::Unalias => Some("Command unaliasing not yet implemented"@),
        BuiltinCommand::Jobs => Some("Background jobs not yet implemented"@),
        BuiltinCommand::Fg => Some("Foreground job control not yet implemented"@),
        BuiltinCommand::Bg => Some("Background job control not yet implemented"@),
        BuiltinCommand::Kill => Some("Process killing not yet implemented"@),
        _ => None,
    }
}

/// Manager of the built-in commands.
pub struct BuiltinManager {
    config: Config,
}

fn joined(a: &str, b: &str) -> (r: String)
    ensures
        r@ == a@ + b@,
{
    let mut r = a.to_owned();
    r.append(b);
    r
}

fn info(text: &str) -> (r: BuiltinOutcome)
    ensures
        r matches BuiltinOutcome::Done(BuiltinResult::Info(t)) && t@ == text@,
{
    BuiltinOutcome::Done(BuiltinResult::Info(text.to_owned()))
}

fn error(text: &str) -> (r: BuiltinOutcome)
    ensures
        r matches BuiltinOutcome::Done(BuiltinResult::Error(t)) && t@ == text@,
{
    BuiltinOutcome::Done(BuiltinResult::Error(text.to_owned()))
}

/// The answer of `which name` once the lookup gave `found`.
pub fn which_result(name: &str, found: Option<String>) -> (r: BuiltinResult)
    ensures
        match found {
            Some(p) => r matches BuiltinResult::Info(t) && t@ == p@,
            None => r matches BuiltinResult::Error(t) && t@ == "which: "@ + name@ + ": command not found"@,
        },
{
    match found {
        Some(p) => BuiltinResult::Info(p),
        None => {
            let mut m = joined("which: ", name);
            m.append(": command not found");
            BuiltinResult::Error(m)
        },
    }
}

/// The answer of `type name` for a name that is not a builtin, once the
/// lookup gave `found`.
pub fn type_result(name: &str, found: Option<String>) -> (r: BuiltinResult)
    ensures
        match found {
            Some(p) => r matches BuiltinResult::Info(t) && t@ == name@ + " is "@ + p@,
            None => r matches BuiltinResult::Error(t) && t@ == "type: "@ + name@ + ": not found"@,
        },
{
    match found {
        Some(p) => {
            let mut m = joined(name, " is ");
            m.append(p.as_str());
            BuiltinResult::Info(m)
        },
        None => {
            let mut m = joined("type: ", name);
            m.append(": not found");
            BuiltinResult::Error(m)
        },
    }
}

/// The request of `export arg`: `KEY=VALUE` split at its first `=`.
pub fn export_request(arg: &str) -> (r: Option<EnvRequest>)
    ensures
        match first_eq(arg@) {
            Some(i) => r matches Some(EnvRequest::SetVar { key, value }) && key@ == arg@.take(i)
                && value@ == arg@.skip(i + 1),
            None => r is None,
        },
{
    let cs = chars_of(arg);
    let mut i: usize = 0;
    while i < cs.len()
        invariant
            i <= cs@.len(),
            cs@ == arg@,
            forall|j: int| 0 <= j < i ==> cs@[j] != '=',
        decreases cs@.len() - i,
    {
        if cs[i] == '=' {
            let key = string_of(&cs, 0, i);
            let value = string_of(&cs, i + 1, cs.len());
            proof {
                let k = choose|k: int| 0 <= k < arg@.len() && arg@[k] == '=' && forall|j: int| 0 <= j < k ==> arg@[j] != '=';
                if k < i {
                } else if k > i {
                }
                assert(k == i);
                assert(cs@.subrange(0, i as int) =~= arg@.take(i as int));
                assert(cs@.subrange(i + 1, cs@.len() as int) =~= arg@.skip(i + 1));
            }
            return Some(EnvRequest::SetVar { key, value });
        }
        i += 1;
    }
    None
}

impl BuiltinManager {
    /// A manager that applies `config`.
    pub fn new(config: Config) -> (r: BuiltinManager) {
        BuiltinManager { config }
    }

    /// Runs the builtin `command` with `args`: `None` when `command` is not a
    /// builtin. `cd`, `pwd`, `export` and `unset` come back as environment
    /// work for the caller; `which` and `type` look the program up.
    pub fn execute_builtin(&self, command: &str, args: &[String]) -> (r: ShellResult<
        Option<BuiltinOutcome>,
    >)
        ensures
            r is Ok,
            (r->Ok_0 is None) <==> builtin_named(command@) is None,
            builtin_named(command@) == Some(BuiltinCommand::Exit) ==> r->Ok_0 matches Some(
                BuiltinOutcome::Done(BuiltinResult::Exit),
            ),
            builtin_named(command@) == Some(BuiltinCommand::Help) ==> (r->Ok_0 matches Some(
                BuiltinOutcome::Done(BuiltinResult::Info(t)),
            ) && t@ == HELP_TEXT@),
            builtin_named(command@) == Some(BuiltinCommand::Cd) ==> (if args@.len() == 0 {
                r->Ok_0 matches Some(BuiltinOutcome::Env(EnvRequest::ChangeDirHome))
            } else {
                r->Ok_0 matches Some(BuiltinOutcome::Env(EnvRequest::ChangeDir(p))) && p@ == args@[0]@
            }),
            builtin_named(command@) == Some(BuiltinCommand::Pwd) ==> r->Ok_0 matches Some(
                BuiltinOutcome::Env(EnvRequest::CurrentDir),
            ),
            builtin_named(command@) == Some(BuiltinCommand::Unset) ==> (if args@.len() == 0 {
                r->Ok_0 matches Some(BuiltinOutcome::Done(BuiltinResult::Error(t))) && t@
                    == "unset: missing argument"@
            } else {
                r->Ok_0 matches Some(BuiltinOutcome::Env(EnvRequest::UnsetVar(k))) && k@ == args@[0]@
            }),
            builtin_named(command@) == Some(BuiltinCommand::Export) ==> (if args@.len() == 0 {
                r->Ok_0 matches Some(BuiltinOutcome::Done(BuiltinResult::Error(t))) && t@
                    == "export: missing argument"@
            } else if first_eq(args@[0]@) is None {
                r->Ok_0 matches Some(BuiltinOutcome::Done(BuiltinResult::Error(t))) && t@
                    == "export: invalid format, use KEY=VALUE"@
            } else {
                r->Ok_0 matches Some(BuiltinOutcome::Env(EnvRequest::SetVar { key, value }))
                    && key@ == args@[0]@.take(first_eq(args@[0]@)->Some_0) && value@ == args@[0]@.skip(
                    first_eq(args@[0]@)->Some_0 + 1,
                )
            }),
            builtin_named(command@) == Some(BuiltinCommand::Which) && args@.len() == 0
                ==> (r->Ok_0 matches Some(BuiltinOutcome::Done(BuiltinResult::Error(t))) && t@
                == "which: missing argument"@),
            builtin_named(command@) == Some(BuiltinCommand::Type) && args@.len() == 0
                ==> (r->Ok_0 matches Some(BuiltinOutcome::Done(BuiltinResult::Error(t))) && t@
                == "type: missing argument"@),
            builtin_named(command@) == Some(BuiltinCommand::Type) && args@.len() > 0 && builtin_named(
                args@[0]@,
            ) is Some ==> (r->Ok_0 matches Some(BuiltinOutcome::Done(BuiltinResult::Info(t))) && t@
                == args@[0]@ + " is a shell builtin"@),
            builtin_named(command@) == Some(BuiltinCommand::Which) && args@.len() > 0 ==> (
            r->Ok_0 matches Some(BuiltinOutcome::Done(BuiltinResult::Info(_))) || (r->Ok_0 matches Some(
                BuiltinOutcome::Done(BuiltinResult::Error(t)),
            ) && t@ == "which: "@ + args@[0]@ + ": command not found"@)),
            builtin_named(command@) == Some(BuiltinCommand::Type) && args@.len() > 0 && builtin_named(
                args@[0]@,
            ) is None ==> ((r->Ok_0 matches Some(BuiltinOutcome::Done(BuiltinResult::Info(t)))
                && exists|p: Seq<char>| t@ == args@[0]@ + " is "@ + p) || (r->Ok_0 matches Some(
                BuiltinOutcome::Done(BuiltinResult::Error(t)),
            ) && t@ == "type: "@ + args@[0]@ + ": not found"@)),
            builtin_named(command@) is Some && stub_text(builtin_named(command@)->Some_0) is Some ==> (
            r->Ok_0 matches Some(BuiltinOutcome::Done(BuiltinResult::Info(t))) && t@ == stub_text(
                builtin_named(command@)->Some_0,
            )->Some_0),
    {
        let cmd = match BuiltinCommand::from_str(command) {
            Some(c) => c,
            None => {
                return Ok(None);
            },
        };
        let out = match cmd {
            BuiltinCommand::Cd => {
                if args.len() == 0 {
                    BuiltinOutcome::Env(EnvRequest::ChangeDirHome)
                } else {
                    BuiltinOutcome::Env(EnvRequest::ChangeDir(args[0].clone()))
                }
            },
            BuiltinCommand::Pwd => BuiltinOutcome::Env(EnvRequest::CurrentDir),
            BuiltinCommand::Exit => BuiltinOutcome::Done(BuiltinResult::Exit),
            BuiltinCommand::Help => info(HELP_TEXT),
            BuiltinCommand::History => info("Command history not yet implemented"),
            BuiltinCommand::Alias => info("Command aliasing not yet implemented"),
            BuiltinCommand::Unalias => info("Command unaliasing not yet implemented"),
            BuiltinCommand::Export => {
                if args.len() == 0 {
                    error("export: missing argument")
                } else {
                    match export_request(args[0].as_str()) {
                        Some(req) => BuiltinOutcome::Env(req),
                        None => error("export: invalid format, use KEY=VALUE"),
                    }
                }
            },
            BuiltinCommand::Unset => {
                if args.len() == 0 {
                    error("unset: missing argument")
                } else {
                    BuiltinOutcome::Env(EnvRequest::UnsetVar(args[0].clone()))
                }
            },
            BuiltinCommand::Jobs => info("Background jobs not yet implemented"),
            BuiltinCommand::Fg => info("Foreground job control not yet implemented"),
            BuiltinCommand::Bg => info("Background job control not yet implemented"),
            BuiltinCommand::Kill => info("Process killing not yet implemented"),
            BuiltinCommand::Which => {
                if args.len() == 0 {
                    error("which: missing argument")
                } else {
                    let found = locate(args[0].as_str());
                    BuiltinOutcome::Done(which_result(args[0].as_str(), found))
                }
            },
            BuiltinCommand::Type => {
                if args.len() == 0 {
                    error("type: missing argument")
                } else if BuiltinCommand::is_builtin(args[0].as_str()) {
                    BuiltinOutcome::Done(
                        BuiltinResult::Info(joined(args[0].as_str(), " is a shell builtin")),
                    )
                } else {
                    let found = locate(args[0].as_str());
                    BuiltinOutcome::Done(type_result(args[0].as_str(), found))
                }
            },
        };
        Ok(Some(out))
    }
}

} // verus!
