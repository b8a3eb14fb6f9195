//! Checks on the process environment that commands run in.
use vstd::prelude::*;
use crate::error::{ErrorKind, ErrorView, SecurityError, ShellError, ShellResult, err_of, fails_with};
use crate::text::{chars_of, contains_char, contains_infix, has_infix, pushed, texts};

verus! {

/// Variables that are removed from the environment before commands run.
pub open spec fn dangerous_variable_names() -> Seq<Seq<char>> {
    seq!["LD_PRELOAD"@, "LD_LIBRARY_PATH"@, "PATH"@, "SHELL"@, "BASH_ENV"@, "ENV"@]
}

/// `PATH` that replaces the removed one.
pub const SAFE_PATH: &'static str = "/usr/local/bin:/usr/bin:/bin";

/// `SHELL` that replaces the removed one.
pub const SAFE_SHELL: &'static str = "/bin/sh";

/// The names of [`dangerous_variable_names`].
pub fn dangerous_variables() -> (r: Vec<String>)
    ensures
        texts(r) == dangerous_variable_names(),
{
    let mut v: Vec<String> = Vec::new();
    v = pushed(v, "LD_PRELOAD");
    v = pushed(v, "LD_LIBRARY_PATH");
    v = pushed(v, "PATH");
    v = pushed(v, "SHELL");
    v = pushed(v, "BASH_ENV");
    v = pushed(v, "ENV");
    assert(texts(v) =~= dangerous_variable_names());
    v
}

/// What is wrong with one environment variable, if anything: a loader
/// variable (`LD_` or `DYLD_` in its name) first, then a NUL in its value.
pub open spec fn variable_fault(key: Seq<char>, value: Seq<char>) -> Option<ErrorView> {
    if has_infix(key, "LD_"@) || has_infix(key, "DYLD_"@) {
        Some(err_of(ErrorKind::DangerousCommand, "Suspicious environment variable: "@ + key))
    } else if value.contains('\0') {
        Some(err_of(ErrorKind::InvalidInput, "Null byte in environment variable: "@ + key))
    } else {
        None
    }
}

/// Checks the environment that commands would run in: refused outright when
/// running with elevated privileges, else each variable in order (see
/// [`variable_fault`]); the first fault found is the error.
pub fn validate_environment(elevated: bool, vars: &[(String, String)]) -> (r: ShellResult<()>)
    ensures
        elevated ==> fails_with(
            r,
            err_of(ErrorKind::PermissionDenied, "Running with elevated privileges"@),
        ),
        !elevated && r is Err ==> exists|k: int|
            0 <= k < vars@.len() && (forall|j: int|
                0 <= j < k ==> variable_fault(#[trigger] vars@[j].0@, vars@[j].1@) is None)
                && variable_fault(vars@[k].0@, vars@[k].1@) == Some(r->Err_0@),
        r is Ok <==> !elevated && forall|k: int|
            0 <= k < vars@.len() ==> variable_fault(#[trigger] vars@[k].0@, vars@[k].1@) is None,
{
    if elevated {
        return Err(
            ShellError::Security(
                SecurityError::PermissionDenied("Running with elevated privileges".to_owned()),
            ),
        );
    }
    let ld = chars_of("LD_");
    let dyld = chars_of("DYLD_");
    let mut i: usize = 0;
    while i < vars.len()
        invariant
            i <= vars@.len(),
            !elevated,
            ld@ == "LD_"@,
            dyld@ == "DYLD_"@,
            forall|j: int| 0 <= j < i ==> variable_fault(#[trigger] vars@[j].0@, vars@[j].1@) is None,
        decreases vars@.len() - i,
    {
        let (key, value) = &vars[i];
        let kc = chars_of(key.as_str());
        if contains_infix(&kc, &ld) || contains_infix(&kc, &dyld) {
            let mut m = "Suspicious environment variable: ".to_owned();
            m.append(key.as_str());
            return Err(ShellError::Security(SecurityError::DangerousCommand(m)));
        }
        let vc = chars_of(value.as_str());
        if contains_char(&vc, '\0') {
            let mut m = "Null byte in environment variable: ".to_owned();
            m.append(key.as_str());
            return Err(ShellError::Security(SecurityError::InvalidInput(m)));
        }
        i += 1;
    }
    Ok(())
}

} // verus!
