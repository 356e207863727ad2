//! Installing the tool with the language runtime's package manager.
//!
//! The front end looks the package manager up on the search path; where it is
//! missing it looks up the runtime, to say which of the two is missing; where
//! it is found it runs it with `install_args`.
use vstd::prelude::*;
use crate::command::arg_views;
use crate::error::ToolError;
use crate::text::{chars_of, opt_view, text_range, trim, trim_bounds};

verus! {

/// The path that a search-path lookup printed: its output, trimmed, if not empty.
pub open spec fn looked_up(stdout: Seq<char>) -> Option<Seq<char>> {
    if trim(stdout).len() == 0 {
        None
    } else {
        Some(trim(stdout))
    }
}

/// Reads the output of a search-path lookup.
pub fn lookup_path(stdout: &str) -> (r: Option<String>)
    ensures
        opt_view(r) == looked_up(stdout@),
{
    let sc = chars_of(stdout);
    let (a, b) = trim_bounds(&sc);
    if a == b {
        return None;
    }
    Some(text_range(stdout, a, b))
}

/// The error when the package manager is missing, from the runtime lookup's output.
pub fn missing_package_manager(runtime_lookup: &str) -> (r: ToolError)
    ensures
        looked_up(runtime_lookup@) is None ==> r == ToolError::RuntimeMissing,
        looked_up(runtime_lookup@) is Some ==> r == ToolError::PackageManagerMissing,
{
    match lookup_path(runtime_lookup) {
        Some(_) => ToolError::PackageManagerMissing,
        None => ToolError::RuntimeMissing,
    }
}

/// The package manager's arguments that install the tool.
pub fn install_args() -> (r: Vec<String>)
    ensures
        arg_views(r@) == seq!["install"@, "you-get"@],
{
    let mut r: Vec<String> = Vec::new();
    r.push("install".to_owned());
    r.push("you-get".to_owned());
    assert(arg_views(r@) =~= seq!["install"@, "you-get"@]);
    r
}

/// The result of an installation, from the package manager's exit status and stderr.
pub fn install_outcome(success: bool, stderr: &str) -> (r: Result<(), ToolError>)
    ensures
        success ==> r is Ok,
        !success ==> (r matches Err(ToolError::InstallFailed(m)) && m@ == stderr@),
{
    if success {
        Ok(())
    } else {
        Err(ToolError::InstallFailed(stderr.to_owned()))
    }
}

} // verus!
