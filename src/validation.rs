//! Input sanitizing, file-path checks and argument checks.
use vstd::prelude::*;
use crate::config::Config;
use crate::error::{ErrorKind, ErrorView, SecurityError, ShellError, ShellResult, err_of, fails_with};
use crate::text::{
    byte_len, chars_of, contains_char, contains_parent_component, has_parent_component, has_prefix,
    push_char, pushed, starts_with, texts, utf8_len,
};

verus! {

/// What `regex` says of `pattern` on `text`: `None` where the pattern does
/// not compile, else whether it matches somewhere in `text`.
pub uninterp spec fn regex_verdict(pattern: Seq<char>, text: Seq<char>) -> Option<bool>;

/// Relies on `regex::Regex::new` and `regex::Regex::is_match`: compiles
/// `pattern` and searches `text` for a match.
#[verifier::external_body]
fn regex_search(pattern: &str, text: &str) -> (r: Option<bool>)
    ensures
        r == regex_verdict(pattern@, text@),
{
    match regex::Regex::new(pattern) {
        Ok(re) => Some(re.is_match(text)),
        Err(_) => None,
    }
}

/// Patterns of command substitution and chained operators that
/// `sanitize_input` refuses, in the order they are tried.
pub open spec fn attack_patterns() -> Seq<Seq<char>> {
    seq![
        "\\$\\(.*\\)"@,
        "`.*`"@,
        "\\$\\{.*\\}"@,
        ";.*;"@,
        "&&.*&&"@,
        "\\|\\|.*\\|\\|"@,
    ]
}

fn attack_pattern_list() -> (r: Vec<String>)
    ensures
        texts(r) == attack_patterns(),
{
    let mut v: Vec<String> = Vec::new();
    v = pushed(v, "\\$\\(.*\\)");
    v = pushed(v, "`.*`");
    v = pushed(v, "\\$\\{.*\\}");
    v = pushed(v, ";.*;");
    v = pushed(v, "&&.*&&");
    v = pushed(v, "\\|\\|.*\\|\\|");
    assert(texts(v) =~= attack_patterns());
    v
}

/// `k` is the first position of `verdicts` that reports a match.
pub open spec fn first_match(verdicts: Seq<Option<bool>>, k: int) -> bool {
    &&& 0 <= k < verdicts.len()
    &&& verdicts[k] == Some(true)
    &&& forall|j: int| 0 <= j < k ==> #[trigger] verdicts[j] != Some(true)
}

pub open spec fn any_match(verdicts: Seq<Option<bool>>) -> bool {
    exists|k: int| 0 <= k < verdicts.len() && #[trigger] verdicts[k] == Some(true)
}

/// The verdicts of the attack patterns on `text`.
pub open spec fn attack_verdicts(text: Seq<char>) -> Seq<Option<bool>> {
    attack_patterns().map_values(|p: Seq<char>| regex_verdict(p, text))
}

/// Rejects `text` when one of the attack patterns matches it: the error names
/// the first one that does. A pattern that does not compile is passed over.
pub fn check_suspicious_patterns(text: &str) -> (r: ShellResult<()>)
    ensures
        r is Ok <==> !any_match(attack_verdicts(text@)),
        r is Err ==> exists|k: int|
            first_match(attack_verdicts(text@), k) && fails_with(
                r,
                err_of(
                    ErrorKind::DangerousCommand,
                    "Suspicious pattern detected: "@ + #[trigger] attack_patterns()[k],
                ),
            ),
{
    let pats = attack_pattern_list();
    let ghost vs = attack_verdicts(text@);
    let mut k: usize = 0;
    while k < pats.len()
        invariant
            k <= pats@.len(),
            texts(pats) == attack_patterns(),
            vs == attack_verdicts(text@),
            forall|j: int| 0 <= j < k ==> #[trigger] vs[j] != Some(true),
        decreases pats@.len() - k,
    {
        let v = regex_search(pats[k].as_str(), text);
        assert(v == vs[k as int]);
        if v == Some(true) {
            let mut m = "Suspicious pattern detected: ".to_owned();
            m.append(pats[k].as_str());
            assert(first_match(vs, k as int));
            return Err(ShellError::Security(SecurityError::DangerousCommand(m)));
        }
        k += 1;
    }
    Ok(())
}

/// Control characters (Unicode category Cc), as `char::is_control` classifies them.
pub open spec fn is_control(c: char) -> bool {
    c <= '\u{1f}' || ('\u{7f}' <= c && c <= '\u{9f}')
}

/// Characters that sanitizing keeps: all but control characters, with
/// newline and tab kept.
pub open spec fn kept_char(c: char) -> bool {
    !is_control(c) || c == '\n' || c == '\t'
}

pub open spec fn stripped(s: Seq<char>) -> Seq<char> {
    s.filter(|c: char| kept_char(c))
}

/// `s` without NUL and control characters, newline and tab kept.
fn strip_controls(s: &str) -> (r: String)
    ensures
        r@ == stripped(s@),
{
    let cs = chars_of(s);
    let mut r = String::new();
    let mut i: usize = 0;
    proof {
        reveal(Seq::filter);
        assert(cs@.take(0) =~= Seq::<char>::empty());
    }
    while i < cs.len()
        invariant
            i <= cs@.len(),
            r@ == stripped(cs@.take(i as int)),
        decreases cs@.len() - i,
    {
        let c = cs[i];
        proof {
            reveal(Seq::filter);
            assert(cs@.take(i + 1).drop_last() =~= cs@.take(i as int));
            assert(cs@.take(i + 1).last() == c);
        }
        if !(c <= '\u{1f}' || ('\u{7f}' <= c && c <= '\u{9f}')) || c == '\n' || c == '\t' {
            push_char(&mut r, c);
        }
        i += 1;
    }
    assert(cs@.take(cs@.len() as int) =~= cs@);
    r
}

/// Bytes that `c` takes in UTF-8.
pub open spec fn char_width(c: char) -> nat {
    if (c as u32) < 0x80 {
        1
    } else if (c as u32) < 0x800 {
        2
    } else if (c as u32) < 0x10000 {
        3
    } else {
        4
    }
}

/// How many leading characters of `s` fit in `budget` bytes.
pub open spec fn fit_count(s: Seq<char>, budget: nat) -> nat
    decreases s.len(),
{
    if s.len() > 0 && char_width(s[0]) <= budget {
        1 + fit_count(s.drop_first(), (budget - char_width(s[0])) as nat)
    } else {
        0
    }
}

/// The longest prefix of `s` that fits in `max` bytes without splitting a character.
pub open spec fn truncated(s: Seq<char>, max: nat) -> Seq<char> {
    s.take(fit_count(s, max) as int)
}

fn char_width_exec(c: char) -> (r: usize)
    ensures
        r == char_width(c),
{
    if (c as u32) < 0x80 {
        1
    } else if (c as u32) < 0x800 {
        2
    } else if (c as u32) < 0x10000 {
        3
    } else {
        4
    }
}

/// `s` cut to at most `max` bytes.
fn truncate_to(s: String, max: usize) -> (r: String)
    ensures
        r@ == truncated(s@, max as nat),
{
    let cs = chars_of(s.as_str());
    let mut used: usize = 0;
    let mut i: usize = 0;
    assert(cs@.subrange(0, cs@.len() as int) =~= s@);
    while i < cs.len() && char_width_exec(cs[i]) <= max - used
        invariant
            i <= cs@.len(),
            used <= max,
            cs@ == s@,
            fit_count(s@, max as nat) == i + fit_count(cs@.subrange(i as int, cs@.len() as int), (max - used) as nat),
        decreases cs@.len() - i,
    {
        assert(cs@.subrange(i as int, cs@.len() as int).drop_first() =~= cs@.subrange(i + 1, cs@.len() as int));
        used = used + char_width_exec(cs[i]);
        i += 1;
    }
    string_prefix(&cs, i)
}

/// The string of `cs[..n]`.
fn string_prefix(cs: &Vec<char>, n: usize) -> (r: String)
    requires
        n <= cs@.len(),
    ensures
        r@ == cs@.take(n as int),
{
    let r = crate::text::string_of(cs, 0, n);
    assert(cs@.subrange(0, n as int) =~= cs@.take(n as int));
    r
}

/// The attack patterns' verdicts on `text`, in order.
fn verdicts_on(text: &String) -> (r: Vec<Option<bool>>)
    ensures
        r@ == attack_verdicts(text@),
{
    let pats = attack_pattern_list();
    let mut r: Vec<Option<bool>> = Vec::new();
    let mut k: usize = 0;
    while k < pats.len()
        invariant
            k <= pats@.len(),
            texts(pats) == attack_patterns(),
            r@ == attack_verdicts(text@).take(k as int),
        decreases pats@.len() - k,
    {
        let v = regex_search(pats[k].as_str(), text.as_str());
        r.push(v);
        assert(r@ =~= attack_verdicts(text@).take(k + 1));
        k += 1;
    }
    assert(r@ =~= attack_verdicts(text@));
    r
}

/// The sanitizing of `input` once the attack patterns' verdicts on its
/// stripped text are known: when sanitizing is off the input comes back
/// unchanged; else a match of a pattern rejects it, naming the first one
/// that matched; else the stripped text comes back cut to the configured
/// length.
pub fn sanitize_with_verdicts(input: &str, verdicts: &Vec<Option<bool>>, config: &Config) -> (r:
    ShellResult<String>)
    requires
        verdicts@.len() == attack_patterns().len(),
    ensures
        !config.security.sanitize_input ==> (r matches Ok(o) && o@ == input@),
        config.security.sanitize_input && any_match(verdicts@) ==> exists|k: int|
            first_match(verdicts@, k) && fails_with(
                r,
                err_of(
                    ErrorKind::DangerousCommand,
                    "Suspicious pattern detected: "@ + #[trigger] attack_patterns()[k],
                ),
            ),
        config.security.sanitize_input && !any_match(verdicts@) ==> (r matches Ok(o) && o@
            == truncated(stripped(input@), config.security.max_command_length as nat)),
{
    if !config.security.sanitize_input {
        return Ok(input.to_owned());
    }
    let pats = attack_pattern_list();
    let mut k: usize = 0;
    while k < verdicts.len()
        invariant
            k <= verdicts@.len(),
            config.security.sanitize_input,
            verdicts@.len() == attack_patterns().len(),
            texts(pats) == attack_patterns(),
            forall|j: int| 0 <= j < k ==> #[trigger] verdicts@[j] != Some(true),
        decreases verdicts@.len() - k,
    {
        if verdicts[k] == Some(true) {
            let mut m = "Suspicious pattern detected: ".to_owned();
            m.append(pats[k].as_str());
            assert(first_match(verdicts@, k as int));
            return Err(ShellError::Security(SecurityError::DangerousCommand(m)));
        }
        k += 1;
    }
    let s = strip_controls(input);
    Ok(truncate_to(s, config.security.max_command_length))
}

/// Sanitizes a raw input line: control characters but newline and tab are
/// dropped, the attack patterns are searched in what remains, and the result
/// is cut to the configured length. Passes the input through when
/// sanitizing is off.
pub fn sanitize_input(input: &str, config: &Config) -> (r: ShellResult<String>)
    ensures
        !config.security.sanitize_input ==> (r matches Ok(o) && o@ == input@),
        config.security.sanitize_input && any_match(attack_verdicts(stripped(input@)))
            ==> exists|k: int|
            first_match(attack_verdicts(stripped(input@)), k) && fails_with(
                r,
                err_of(
                    ErrorKind::DangerousCommand,
                    "Suspicious pattern detected: "@ + #[trigger] attack_patterns()[k],
                ),
            ),
        config.security.sanitize_input && !any_match(attack_verdicts(stripped(input@))) ==> (r matches Ok(o)
            && o@ == truncated(stripped(input@), config.security.max_command_length as nat)),
{
    if !config.security.sanitize_input {
        return Ok(input.to_owned());
    }
    let s = strip_controls(input);
    let vs = verdicts_on(&s);
    sanitize_with_verdicts(input, &vs, config)
}

/// Base directories that an absolute path must lie under.
pub open spec fn allowed_bases() -> Seq<Seq<char>> {
    seq!["/tmp"@, "/var/tmp"@, "/home"@, "/Users"@]
}

/// Longest path, in bytes, that `validate_file_path` lets through.
pub const MAX_PATH_BYTES: usize = 4096;

/// Checks a file path: no `..` component, an absolute path must lie under one
/// of [`allowed_bases`], no NUL character, and at most [`MAX_PATH_BYTES`]
/// bytes. Passes the path through when path checks are off.
pub fn validate_file_path(path: &str, config: &Config) -> (r: ShellResult<String>)
    ensures
        !config.security.validate_paths ==> (r matches Ok(o) && o@ == path@),
        config.security.validate_paths && has_parent_component(path@) ==> fails_with(
            r,
            err_of(ErrorKind::PathTraversal, path@),
        ),
        config.security.validate_paths && !has_parent_component(path@) && has_prefix(path@, "/"@) && !(
        exists|k: int| 0 <= k < allowed_bases().len() && has_prefix(path@, #[trigger] allowed_bases()[k]))
            ==> fails_with(
            r,
            err_of(ErrorKind::PathTraversal, "Absolute path not in allowed directories"@),
        ),
        config.security.validate_paths && !has_parent_component(path@) && (!has_prefix(path@, "/"@)
            || exists|k: int|
            0 <= k < allowed_bases().len() && has_prefix(path@, #[trigger] allowed_bases()[k]))
            && path@.contains('\0') ==> fails_with(
            r,
            err_of(ErrorKind::InvalidInput, "Null byte detected"@),
        ),
        config.security.validate_paths && !has_parent_component(path@) && (!has_prefix(path@, "/"@)
            || exists|k: int|
            0 <= k < allowed_bases().len() && has_prefix(path@, #[trigger] allowed_bases()[k]))
            && !path@.contains('\0') && path.len() > MAX_PATH_BYTES ==> fails_with(
            r,
            err_of(ErrorKind::InvalidInput, "Path too long"@),
        ),
        r is Ok ==> r->Ok_0@ == path@,
        config.security.validate_paths ==> (r is Ok <==> (!has_parent_component(path@) && (
        !has_prefix(path@, "/"@) || exists|k: int|
            0 <= k < allowed_bases().len() && has_prefix(path@, #[trigger] allowed_bases()[k]))
            && !path@.contains('\0') && path.len() <= MAX_PATH_BYTES)),
{
    if !config.security.validate_paths {
        return Ok(path.to_owned());
    }
    let cs = chars_of(path);
    if contains_parent_component(&cs) {
        return Err(ShellError::Security(SecurityError::PathTraversal(path.to_owned())));
    }
    let root = chars_of("/");
    if starts_with(&cs, &root) {
        let mut bases: Vec<String> = Vec::new();
        bases = pushed(bases, "/tmp");
        bases = pushed(bases, "/var/tmp");
        bases = pushed(bases, "/home");
        bases = pushed(bases, "/Users");
        assert(texts(bases) =~= allowed_bases());
        let mut k: usize = 0;
        let mut allowed = false;
        while k < bases.len()
            invariant
                k <= bases@.len(),
                texts(bases) == allowed_bases(),
                cs@ == path@,
                allowed <==> exists|j: int| 0 <= j < k && has_prefix(path@, #[trigger] allowed_bases()[j]),
            decreases bases@.len() - k,
        {
            let b = chars_of(bases[k].as_str());
            assert(b@ == allowed_bases()[k as int]);
            if starts_with(&cs, &b) {
                allowed = true;
            }
            assert(allowed <==> exists|j: int| 0 <= j < k + 1 && has_prefix(path@, #[trigger] allowed_bases()[j])) by {
                if !allowed {
                    assert forall|j: int| 0 <= j < k + 1 implies !has_prefix(path@, #[trigger] allowed_bases()[j]) by {
                        if j < k {
                        }
                    }
                }
            }
            k += 1;
        }
        if !allowed {
            return Err(
                ShellError::Security(
                    SecurityError::PathTraversal("Absolute path not in allowed directories".to_owned()),
                ),
            );
        }
    }
    if contains_char(&cs, '\0') {
        return Err(ShellError::Security(SecurityError::InvalidInput("Null byte detected".to_owned())));
    }
    if path.len() > MAX_PATH_BYTES {
        return Err(ShellError::Security(SecurityError::InvalidInput("Path too long".to_owned())));
    }
    Ok(path.to_owned())
}

/// Characters that an argument may not hold.
pub open spec fn is_dangerous_char(c: char) -> bool {
    c == ';' || c == '&' || c == '|' || c == '`' || c == '$' || c == '(' || c == ')' || c == '<'
        || c == '>' || c == '"' || c == '\'' || c == '\\'
}

/// What is wrong with one argument, if anything: its length first, then a
/// dangerous character.
pub open spec fn arg_fault(a: Seq<char>, max: usize) -> Option<ErrorView> {
    if utf8_len(a) > max {
        Some(err_of(ErrorKind::InvalidInput, "Argument too long"@))
    } else if exists|i: int| 0 <= i < a.len() && is_dangerous_char(#[trigger] a[i]) {
        Some(err_of(ErrorKind::DangerousCommand, "Dangerous character in argument: "@ + a))
    } else {
        None
    }
}

fn has_dangerous_char(s: &String) -> (r: bool)
    ensures
        r == exists|i: int| 0 <= i < s@.len() && is_dangerous_char(#[trigger] s@[i]),
{
    let cs = chars_of(s.as_str());
    let mut i: usize = 0;
    while i < cs.len()
        invariant
            i <= cs@.len(),
            cs@ == s@,
            forall|j: int| 0 <= j < i ==> !is_dangerous_char(#[trigger] s@[j]),
        decreases cs@.len() - i,
    {
        let c = cs[i];
        if c == ';' || c == '&' || c == '|' || c == '`' || c == '$' || c == '(' || c == ')' || c
            == '<' || c == '>' || c == '"' || c == '\'' || c == '\\' {
            assert(is_dangerous_char(s@[i as int]));
            return true;
        }
        i += 1;
    }
    false
}

/// Checks an argument list: its count, then each argument in order (see
/// [`arg_fault`]); the first fault found is the error.
pub fn validate_arguments(args: &[String], config: &Config) -> (r: ShellResult<()>)
    ensures
        args@.len() > config.security.max_arg_count ==> fails_with(
            r,
            err_of(ErrorKind::InvalidInput, "Too many arguments"@),
        ),
        args@.len() <= config.security.max_arg_count && r is Err ==> exists|k: int|
            0 <= k < args@.len() && (forall|j: int|
                0 <= j < k ==> arg_fault(#[trigger] args@[j]@, config.security.max_command_length)
                    is None) && arg_fault(args@[k]@, config.security.max_command_length) == Some(
                r->Err_0@,
            ),
        r is Ok <==> (args@.len() <= config.security.max_arg_count && forall|k: int|
            0 <= k < args@.len() ==> arg_fault(#[trigger] args@[k]@, config.security.max_command_length)
                is None),
{
    if args.len() > config.security.max_arg_count {
        return Err(ShellError::Security(SecurityError::InvalidInput("Too many arguments".to_owned())));
    }
    let max = config.security.max_command_length;
    let mut i: usize = 0;
    while i < args.len()
        invariant
            i <= args@.len(),
            args@.len() <= config.security.max_arg_count,
            max == config.security.max_command_length,
            forall|j: int| 0 <= j < i ==> arg_fault(#[trigger] args@[j]@, max) is None,
        decreases args@.len() - i,
    {
        if byte_len(&args[i]) > max {
            return Err(ShellError::Security(SecurityError::InvalidInput("Argument too long".to_owned())));
        }
        if has_dangerous_char(&args[i]) {
            let mut m = "Dangerous character in argument: ".to_owned();
            m.append(args[i].as_str());
            return Err(ShellError::Security(SecurityError::DangerousCommand(m)));
        }
        i += 1;
    }
    Ok(())
}

} // verus!
