//! Basic path and argument screening.
use vstd::prelude::*;
use crate::error::{ErrorKind, ErrorView, SecurityError, ShellError, ShellResult, err_of, fails_with};
use crate::text::{
    byte_len, chars_of, contains_char, contains_parent_component, has_parent_component, has_prefix,
    push_char, pushed, starts_with, texts, utf8_len,
};

verus! {

/// Whether `char::is_alphanumeric` holds of `c` (Unicode `Alphabetic` or `Numeric`).
pub uninterp spec fn unicode_alnum(c: char) -> bool;

/// Relies on `char::is_alphanumeric`; on ASCII it holds of letters and digits only.
#[verifier::external_body]
fn is_alnum(c: char) -> (r: bool)
    ensures
        r == unicode_alnum(c),
        (c as u32) < 128 ==> (r <==> (('a' <= c && c <= 'z') || ('A' <= c && c <= 'Z') || ('0' <= c
            && c <= '9'))),
{
    c.is_alphanumeric()
}

/// Absolute paths that `validate_path` lets through start with one of these.
pub open spec fn allowed_prefixes() -> Seq<Seq<char>> {
    seq!["/usr/local/bin"@, "/usr/bin"@, "/bin"@, "/opt"@, "/home"@, "/Users"@]
}

pub open spec fn allowed_absolute(path: Seq<char>) -> bool {
    exists|k: int| 0 <= k < allowed_prefixes().len() && has_prefix(path, #[trigger] allowed_prefixes()[k])
}

/// Whether `path` starts with one of [`allowed_prefixes`].
pub fn is_allowed_absolute_path(path: &str) -> (r: bool)
    ensures
        r == allowed_absolute(path@),
{
    let cs = chars_of(path);
    let mut v: Vec<String> = Vec::new();
    v = pushed(v, "/usr/local/bin");
    v = pushed(v, "/usr/bin");
    v = pushed(v, "/bin");
    v = pushed(v, "/opt");
    v = pushed(v, "/home");
    v = pushed(v, "/Users");
    assert(texts(v) =~= allowed_prefixes());
    let mut k: usize = 0;
    while k < v.len()
        invariant
            k <= v@.len(),
            texts(v) == allowed_prefixes(),
            cs@ == path@,
            forall|j: int| 0 <= j < k ==> !has_prefix(path@, #[trigger] allowed_prefixes()[j]),
        decreases v@.len() - k,
    {
        let p = chars_of(v[k].as_str());
        assert(p@ == allowed_prefixes()[k as int]);
        if starts_with(&cs, &p) {
            return true;
        }
        k += 1;
    }
    false
}

/// What is wrong with a path, if anything: a `..` component, or an absolute
/// path outside [`allowed_prefixes`]; then a NUL character; then more than
/// 4096 bytes.
pub open spec fn path_fault(path: Seq<char>) -> Option<ErrorView> {
    if has_parent_component(path) || (has_prefix(path, "/"@) && !allowed_absolute(path)) {
        Some(err_of(ErrorKind::PathTraversal, path))
    } else if path.contains('\0') {
        Some(err_of(ErrorKind::InvalidInput, "Null byte detected"@))
    } else if utf8_len(path) > 4096 {
        Some(err_of(ErrorKind::InvalidInput, "Path too long"@))
    } else {
        None
    }
}

/// Checks a path (see [`path_fault`]).
pub fn validate_path(path: &str) -> (r: ShellResult<()>)
    ensures
        match path_fault(path@) {
            None => r is Ok,
            Some(e) => fails_with(r, e),
        },
{
    let cs = chars_of(path);
    let root = chars_of("/");
    if contains_parent_component(&cs) || (starts_with(&cs, &root) && !is_allowed_absolute_path(path)) {
        return Err(ShellError::Security(SecurityError::PathTraversal(path.to_owned())));
    }
    if contains_char(&cs, '\0') {
        return Err(ShellError::Security(SecurityError::InvalidInput("Null byte detected".to_owned())));
    }
    if path.len() > 4096 {
        return Err(ShellError::Security(SecurityError::InvalidInput("Path too long".to_owned())));
    }
    Ok(())
}

/// Characters that `validate_command_args` refuses in an argument.
pub open spec fn is_shell_meta(c: char) -> bool {
    c == ';' || c == '&' || c == '|' || c == '`' || c == '$' || c == '(' || c == ')' || c == '<'
        || c == '>' || c == '"' || c == '\''
}

/// What is wrong with one argument, if anything: a shell metacharacter first,
/// then more than 1024 bytes.
pub open spec fn meta_fault(a: Seq<char>) -> Option<ErrorView> {
    if exists|i: int| 0 <= i < a.len() && is_shell_meta(#[trigger] a[i]) {
        Some(err_of(ErrorKind::DangerousCommand, "Dangerous character in argument: "@ + a))
    } else if utf8_len(a) > 1024 {
        Some(err_of(ErrorKind::InvalidInput, "Argument too long"@))
    } else {
        None
    }
}

fn has_shell_meta(s: &String) -> (r: bool)
    ensures
        r == exists|i: int| 0 <= i < s@.len() && is_shell_meta(#[trigger] s@[i]),
{
    let cs = chars_of(s.as_str());
    let mut i: usize = 0;
    while i < cs.len()
        invariant
            i <= cs@.len(),
            cs@ == s@,
            forall|j: int| 0 <= j < i ==> !is_shell_meta(#[trigger] s@[j]),
        decreases cs@.len() - i,
    {
        let c = cs[i];
        if c == ';' || c == '&' || c == '|' || c == '`' || c == '$' || c == '(' || c == ')' || c
            == '<' || c == '>' || c == '"' || c == '\'' {
            assert(is_shell_meta(s@[i as int]));
            return true;
        }
        i += 1;
    }
    false
}

/// Checks each argument in order (see [`meta_fault`]); the first fault found
/// is the error.
pub fn validate_command_args(args: &[String]) -> (r: ShellResult<()>)
    ensures
        r is Err ==> exists|k: int|
            0 <= k < args@.len() && (forall|j: int|
                0 <= j < k ==> meta_fault(#[trigger] args@[j]@) is None) && meta_fault(args@[k]@)
                == Some(r->Err_0@),
        r is Ok <==> forall|k: int| 0 <= k < args@.len() ==> meta_fault(#[trigger] args@[k]@) is None,
{
    let mut i: usize = 0;
    while i < args.len()
        invariant
            i <= args@.len(),
            forall|j: int| 0 <= j < i ==> meta_fault(#[trigger] args@[j]@) is None,
        decreases args@.len() - i,
    {
        if has_shell_meta(&args[i]) {
            let mut m = "Dangerous character in argument: ".to_owned();
            m.append(args[i].as_str());
            return Err(ShellError::Security(SecurityError::DangerousCommand(m)));
        }
        if byte_len(&args[i]) > 1024 {
            return Err(ShellError::Security(SecurityError::InvalidInput("Argument too long".to_owned())));
        }
        i += 1;
    }
    Ok(())
}

/// Characters that `sanitize_input` keeps: alphanumerics, and space, `.`,
/// `-`, `_` and `/`.
pub open spec fn plain_char(c: char) -> bool {
    unicode_alnum(c) || c == ' ' || c == '.' || c == '-' || c == '_' || c == '/'
}

/// `input` with every character but [`plain_char`]s dropped.
pub fn sanitize_input(input: &str) -> (r: String)
    ensures
        r@ == input@.filter(|c: char| plain_char(c)),
{
    let cs = chars_of(input);
    let mut r = String::new();
    let mut i: usize = 0;
    proof {
        reveal(Seq::filter);
        assert(cs@.take(0) =~= Seq::<char>::empty());
    }
    while i < cs.len()
        invariant
            i <= cs@.len(),
            r@ == cs@.take(i as int).filter(|c: char| plain_char(c)),
        decreases cs@.len() - i,
    {
        let c = cs[i];
        proof {
            reveal(Seq::filter);
            assert(cs@.take(i + 1).drop_last() =~= cs@.take(i as int));
            assert(cs@.take(i + 1).last() == c);
        }
        if is_alnum(c) || c == ' ' || c == '.' || c == '-' || c == '_' || c == '/' {
            push_char(&mut r, c);
        }
        i += 1;
    }
    assert(cs@.take(cs@.len() as int) =~= cs@);
    r
}

} // verus!
