//! Creating a template: which workspace it is stored in.

use crate::commands::apply::{pick_workspace, target_from};
use crate::text::{optional_text, push_str, string_of};
use crate::utils::config::{workspace_views, Workspace};
use vstd::prelude::*;

verus! {

#[derive(Debug)]
pub struct CreateOpts {
    /// Name of cloup
    pub name: String,
    /// Files to insert; if empty, the current directory is taken as a whole
    pub files: Vec<String>,
    /// Files or directories that are left out of the cloup
    pub exclude: Vec<String>,
    /// Workspace to create cloup in
    pub workspace: Option<String>,
}

/// The workspace that a cloup is created in.
pub fn find_workspace<'a>(opts: &'a CreateOpts, workspaces: &'a [Workspace]) -> (r: Option<
    &'a Workspace,
>)
    ensures
        ({
            let i = target_from(workspace_views(workspaces@), optional_text(opts.workspace), 0);
            if i < workspaces.len() {
                r == Some(&workspaces@[i])
            } else {
                r is None
            }
        }),
{
    pick_workspace(&opts.workspace, workspaces)
}

/// What tells that the cloup `name` was created in the workspace
/// `workspace`.
pub open spec fn created_text(name: Seq<char>, workspace: Seq<char>) -> Seq<char> {
    "\x1b[1;32mÂ»\x1b[0m Created cloup '"@ + name + "' in workspace '"@ + workspace + "'"@
}

/// What tells that the cloup `name` was created in the workspace
/// `workspace`.
pub fn created_message(name: &str, workspace: &str) -> (text: String)
    ensures
        text@ == created_text(name@, workspace@),
{
    let mut out: Vec<char> = Vec::new();
    push_str(&mut out, "\x1b[1;32mÂ»\x1b[0m Created cloup '");
    push_str(&mut out, name);
    push_str(&mut out, "' in workspace '");
    push_str(&mut out, workspace);
    push_str(&mut out, "'");
    assert(out@ =~= created_text(name@, workspace@));
    string_of(&out)
}

} // verus!
