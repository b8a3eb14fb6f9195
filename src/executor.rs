//! Pipeline planning: admission, interpreter dispatch, per-stage checks and
//! the wiring of each stage's streams.
use vstd::prelude::*;
use crate::config::{Config, InterpreterConfig};
use crate::error::{ErrorKind, ErrorView, ShellError, ShellResult, err_of, fails_with};
use crate::parser::Command;
use crate::text::{byte_len, chars_of, contains_infix, contains_text, has_infix, texts, utf8_len};

verus! {

/// Where a stage reads its standard input from.
#[derive(Debug, Clone, PartialEq, Eq)]
pub enum StdinSource {
    /// The shell's own standard input.
    Inherit,
    /// The standard output of the stage spawned before it.
    Pipe,
    /// A file, opened for reading.
    File(String),
}

/// Where a stage writes its standard output to.
#[derive(Debug, Clone, PartialEq, Eq)]
pub enum StdoutTarget {
    /// The shell's own standard output.
    Inherit,
    /// A pipe that the next stage reads.
    Pipe,
    /// A file, truncated or appended to.
    File { path: String, append: bool },
}

/// How to spawn one stage: the program that actually runs, its arguments,
/// and the wiring of its standard streams. Standard error is always inherited.
#[derive(Debug, Clone)]
pub struct StagePlan {
    pub program: String,
    pub args: Vec<String>,
    pub stdin: StdinSource,
    pub stdout: StdoutTarget,
}

pub open spec fn has_suffix(s: Seq<char>, p: Seq<char>) -> bool {
    p.len() <= s.len() && s.subrange(s.len() - p.len(), s.len() as int) == p
}

/// The interpreter that runs a script named `program`, chosen by its suffix.
pub open spec fn interpreter_for(program: Seq<char>, ic: InterpreterConfig) -> Option<Seq<char>> {
    if has_suffix(program, ".py"@) {
        Some(ic.python_path@)
    } else if has_suffix(program, ".rb"@) {
        Some(ic.ruby_path@)
    } else if has_suffix(program, ".js"@) {
        Some(ic.node_path@)
    } else {
        None
    }
}

/// The program that runs and its arguments: a script goes to its
/// interpreter, with the script's name as first argument.
pub open spec fn resolved(program: Seq<char>, args: Seq<Seq<char>>, ic: InterpreterConfig) -> (
    Seq<char>,
    Seq<Seq<char>>,
) {
    match interpreter_for(program, ic) {
        Some(i) => (i, seq![program] + args),
        None => (program, args),
    }
}

/// What is wrong with one argument for the executor, if anything.
pub open spec fn exec_arg_fault(a: Seq<char>, max: usize) -> Option<ErrorView> {
    if has_infix(a, "../"@) || has_infix(a, "..\\"@) {
        Some(err_of(ErrorKind::SecurityViolation, "Path traversal detected"@))
    } else if utf8_len(a) > max {
        Some(err_of(ErrorKind::SecurityViolation, "Argument too long"@))
    } else {
        None
    }
}

/// What is wrong with a command name for the executor, if anything: the
/// block list is tried first, then the allow list, which gates only when it
/// is set and not empty.
pub open spec fn exec_command_fault(c: Seq<char>, config: Config) -> Option<ErrorView> {
    if config.security.command_blacklist matches Some(b) && texts(b).contains(c) {
        Some(err_of(ErrorKind::SecurityViolation, "Command blacklisted: "@ + c))
    } else if config.security.command_whitelist matches Some(w) && texts(w).len() > 0 && !texts(
        w,
    ).contains(c) {
        Some(err_of(ErrorKind::SecurityViolation, "Command not in whitelist: "@ + c))
    } else {
        None
    }
}

/// A command in both the allow list and the block list is rejected: the
/// block list takes precedence.
pub proof fn lemma_block_list_wins(config: Config, c: Seq<char>)
    requires
        config.security.command_blacklist matches Some(b) && texts(b).contains(c),
        config.security.command_whitelist matches Some(w) && texts(w).contains(c),
    ensures
        exec_command_fault(c, config) == Some(
            err_of(ErrorKind::SecurityViolation, "Command blacklisted: "@ + c),
        ),
{
}

pub open spec fn first_arg_fault(args: Seq<Seq<char>>, max: usize) -> Option<ErrorView>
    decreases args.len(),
{
    if args.len() == 0 {
        None
    } else if exec_arg_fault(args[0], max) is Some {
        exec_arg_fault(args[0], max)
    } else {
        first_arg_fault(args.drop_first(), max)
    }
}

/// The standard input of stage `i`: the pipe of an earlier stage that runs,
/// else the input file, else the shell's.
pub open spec fn stdin_of(commands: Seq<Command>, i: int) -> StdinSource {
    if exists|j: int| 0 <= j < i && #[trigger] commands[j].program@.len() > 0 {
        StdinSource::Pipe
    } else {
        match commands[i].input_redirect {
            Some(f) => StdinSource::File(f),
            None => StdinSource::Inherit,
        }
    }
}

/// The standard output of stage `i`: a pipe unless it is the last stage,
/// else the output file, else the shell's.
pub open spec fn stdout_of(commands: Seq<Command>, i: int) -> StdoutTarget {
    if i < commands.len() - 1 {
        StdoutTarget::Pipe
    } else {
        match commands[i].output_redirect {
            Some(f) => StdoutTarget::File { path: f, append: commands[i].append },
            None => StdoutTarget::Inherit,
        }
    }
}

/// The plan of a stage, or the fault that stops the pipeline at it.
pub open spec fn stage_outcome(commands: Seq<Command>, i: int, config: Config) -> Result<
    Option<(Seq<char>, Seq<Seq<char>>, StdinSource, StdoutTarget)>,
    ErrorView,
> {
    let c = commands[i];
    if c.program@.len() == 0 {
        Ok(None)
    } else {
        let (p, a) = resolved(c.program@, c.args.deep_view(), config.interpreters);
        if exec_command_fault(p, config) is Some {
            Err(exec_command_fault(p, config)->Some_0)
        } else if first_arg_fault(a, config.limits.max_arg_length) is Some {
            Err(first_arg_fault(a, config.limits.max_arg_length)->Some_0)
        } else {
            Ok(Some((p, a, stdin_of(commands, i), stdout_of(commands, i))))
        }
    }
}

pub open spec fn plan_view(p: StagePlan) -> (Seq<char>, Seq<Seq<char>>, StdinSource, StdoutTarget) {
    (p.program@, p.args.deep_view(), p.stdin, p.stdout)
}

/// Runs pipelines: it decides, for each stage, what to spawn and how to wire
/// it; the spawning itself is left to the caller.
///
/// Each stage is checked against the executor's own optional block and allow
/// lists (`command_blacklist`, `command_whitelist`) and its argument rules,
/// not against the policy's default allow-set (`allowed_commands`): that set
/// leaves out everyday programs such as `echo`, so applying it here would
/// refuse ordinary pipelines like `echo hello | grep hello`. The policy's
/// rules stay available as `config::validate_command` and
/// `validation::validate_arguments`.
pub struct CommandExecutor {
    config: Config,
}

fn ends_with(s: &Vec<char>, p: &str) -> (r: bool)
    ensures
        r == has_suffix(s@, p@),
{
    let pc = chars_of(p);
    if pc.len() > s.len() {
        return false;
    }
    let off = s.len() - pc.len();
    let mut i: usize = 0;
    while i < pc.len()
        invariant
            i <= pc@.len(),
            pc@ == p@,
            s@.len() <= usize::MAX,
            off + pc@.len() == s@.len(),
            forall|k: int| 0 <= k < i ==> s@[off + k] == pc@[k],
        decreases pc@.len() - i,
    {
        if s[off + i] != pc[i] {
            assert(s@.subrange(off as int, s@.len() as int)[i as int] != pc@[i as int]);
            return false;
        }
        i += 1;
    }
    assert(s@.subrange(off as int, s@.len() as int) =~= pc@);
    true
}

fn clone_texts(v: &[String]) -> (r: Vec<String>)
    ensures
        r.deep_view() == v@.map_values(|s: String| s@),
{
    let mut r: Vec<String> = Vec::new();
    let mut i: usize = 0;
    while i < v.len()
        invariant
            i <= v@.len(),
            r.deep_view() == v@.take(i as int).map_values(|s: String| s@),
        decreases v@.len() - i,
    {
        let ghost before = r.deep_view();
        let c = v[i].clone();
        r.push(c);
        assert(r.deep_view() =~= before.push(v@[i as int]@));
        assert(v@.take(i + 1).map_values(|s: String| s@) =~= v@.take(i as int).map_values(
            |s: String| s@,
        ).push(v@[i as int]@));
        i += 1;
    }
    assert(v@.take(v@.len() as int) =~= v@);
    r
}

impl CommandExecutor {
    pub closed spec fn cfg(&self) -> Config {
        self.config
    }

    /// The configuration this executor applies.
    pub fn config(&self) -> (r: &Config)
        ensures
            *r == self.cfg(),
    {
        &self.config
    }

    /// An executor that applies `config`.
    pub fn new(config: Config) -> (r: CommandExecutor)
        ensures
            r.cfg() == config,
    {
        CommandExecutor { config }
    }

    /// The program that actually runs and its arguments: `.py`, `.rb` and
    /// `.js` scripts go to the configured interpreter, with the script's name
    /// as first argument; anything else runs as it is.
    pub fn resolve_command(&self, program: &str, args: &[String]) -> (r: ShellResult<(String, Vec<String>)>)
        ensures
            r matches Ok(pa) && (pa.0@, pa.1.deep_view()) == resolved(
                program@,
                args@.map_values(|s: String| s@),
                self.cfg().interpreters,
            ),
    {
        let cs = chars_of(program);
        let interp = if ends_with(&cs, ".py") {
            Some(self.config.interpreters.python_path.clone())
        } else if ends_with(&cs, ".rb") {
            Some(self.config.interpreters.ruby_path.clone())
        } else if ends_with(&cs, ".js") {
            Some(self.config.interpreters.node_path.clone())
        } else {
            None
        };
        let rest = clone_texts(args);
        match interp {
            Some(i) => {
                let mut all: Vec<String> = Vec::new();
                all.push(program.to_owned());
                let mut k: usize = 0;
                while k < rest.len()
                    invariant
                        k <= rest@.len(),
                        all.deep_view() == seq![program@] + rest.deep_view().take(k as int),
                    decreases rest@.len() - k,
                {
                    let ghost before = all.deep_view();
                    let c = rest[k].clone();
                    all.push(c);
                    assert(all.deep_view() =~= before.push(rest.deep_view()[k as int]));
                    assert(all.deep_view() =~= seq![program@] + rest.deep_view().take(k + 1));
                    k += 1;
                }
                assert(rest.deep_view().take(rest@.len() as int) =~= rest.deep_view());
                Ok((i, all))
            },
            None => Ok((program.to_owned(), rest)),
        }
    }

    /// Admits a pipeline: one with more stages than the configured maximum is
    /// refused, before any of its stages is planned.
    pub fn admit_pipeline(&self, commands: &[Command]) -> (r: ShellResult<()>)
        ensures
            r is Ok <==> commands@.len() <= self.cfg().limits.max_pipeline_length,
            r is Err ==> fails_with(r, err_of(ErrorKind::Process, "Pipeline too long"@)),
    {
        if commands.len() > self.config.limits.max_pipeline_length {
            return Err(ShellError::Process("Pipeline too long".to_owned()));
        }
        Ok(())
    }

    /// Plans stage `i` of an admitted pipeline: `None` for a stage without a
    /// program (it is skipped); else the resolved program and arguments, once
    /// they pass [`Self::validate_command`] and [`Self::validate_args`], with
    /// the wiring of the stage's streams.
    pub fn plan_stage(&self, commands: &[Command], i: usize) -> (r: ShellResult<Option<StagePlan>>)
        requires
            i < commands@.len() <= self.cfg().limits.max_pipeline_length,
        ensures
            match stage_outcome(commands@, i as int, self.cfg()) {
                Ok(None) => r matches Ok(None),
                Ok(Some(p)) => r matches Ok(Some(sp)) && plan_view(sp) == p,
                Err(e) => fails_with(r, e),
            },
    {
        let c = &commands[i];
        if c.program.as_str().is_empty() {
            return Ok(None);
        }
        let (program, args) = match self.resolve_command(c.program.as_str(), c.args.as_slice()) {
            Ok(pa) => pa,
            Err(e) => {
                return Err(e);
            },
        };
        assert(c.args@.map_values(|s: String| s@) =~= c.args.deep_view());
        match self.validate_command(program.as_str()) {
            Ok(()) => {},
            Err(e) => {
                return Err(e);
            },
        }
        assert(args@.map_values(|s: String| s@) =~= args.deep_view());
        match self.validate_args(args.as_slice()) {
            Ok(()) => {},
            Err(e) => {
                return Err(e);
            },
        }
        let mut earlier = false;
        let mut j: usize = 0;
        while j < i
            invariant
                j <= i < commands@.len(),
                earlier <==> exists|k: int| 0 <= k < j && #[trigger] commands@[k].program@.len() > 0,
            decreases i - j,
        {
            if !commands[j].program.as_str().is_empty() {
                earlier = true;
            }
            j += 1;
        }
        let stdin = if earlier {
            StdinSource::Pipe
        } else {
            match &c.input_redirect {
                Some(f) => StdinSource::File(f.clone()),
                None => StdinSource::Inherit,
            }
        };
        let stdout = if i < commands.len() - 1 {
            StdoutTarget::Pipe
        } else {
            match &c.output_redirect {
                Some(f) => StdoutTarget::File { path: f.clone(), append: c.append },
                None => StdoutTarget::Inherit,
            }
        };
        Ok(Some(StagePlan { program, args, stdin, stdout }))
    }

    /// Whether the caller waits for the spawned stages: not when the last
    /// stage is marked for the background.
    pub fn waits_for_completion(commands: &[Command]) -> (r: bool)
        ensures
            r == (commands@.len() == 0 || !commands@.last().background),
    {
        if commands.len() == 0 {
            return true;
        }
        !commands[commands.len() - 1].background
    }

    /// Checks a program against the configured block list (first) and allow list.
    pub fn validate_command(&self, command: &str) -> (r: ShellResult<()>)
        ensures
            match exec_command_fault(command@, self.cfg()) {
                None => r is Ok,
                Some(e) => fails_with(r, e),
            },
    {
        if let Some(b) = &self.config.security.command_blacklist {
            if contains_text(b, command) {
                let mut m = "Command blacklisted: ".to_owned();
                m.append(command);
                return Err(ShellError::SecurityViolation(m));
            }
        }
        if let Some(w) = &self.config.security.command_whitelist {
            if w.len() > 0 && !contains_text(w, command) {
                let mut m = "Command not in whitelist: ".to_owned();
                m.append(command);
                return Err(ShellError::SecurityViolation(m));
            }
        }
        Ok(())
    }

    /// Checks arguments in order: no `../` or `..\` in them, and none longer
    /// than the configured argument length.
    pub fn validate_args(&self, args: &[String]) -> (r: ShellResult<()>)
        ensures
            match first_arg_fault(args@.map_values(|s: String| s@), self.cfg().limits.max_arg_length) {
                None => r is Ok,
                Some(e) => fails_with(r, e),
            },
    {
        let ghost all = args@.map_values(|s: String| s@);
        let max = self.config.limits.max_arg_length;
        let up = chars_of("../");
        let up_back = chars_of("..\\");
        let mut i: usize = 0;
        assert(all.subrange(0, all.len() as int) =~= all);
        while i < args.len()
            invariant
                i <= args@.len(),
                all == args@.map_values(|s: String| s@),
                max == self.cfg().limits.max_arg_length,
                up@ == "../"@,
                up_back@ == "..\\"@,
                first_arg_fault(all, max) == first_arg_fault(all.subrange(i as int, all.len() as int), max),
            decreases args@.len() - i,
        {
            let ghost rest = all.subrange(i as int, all.len() as int);
            assert(rest[0] == args@[i as int]@);
            assert(rest.drop_first() =~= all.subrange(i + 1, all.len() as int));
            let cs = chars_of(args[i].as_str());
            if contains_infix(&cs, &up) || contains_infix(&cs, &up_back) {
                return Err(ShellError::SecurityViolation("Path traversal detected".to_owned()));
            }
            if byte_len(&args[i]) > max {
                return Err(ShellError::SecurityViolation("Argument too long".to_owned()));
            }
            i += 1;
        }
        Ok(())
    }
}

} // verus!
