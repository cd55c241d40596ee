//! Applying a template: which workspace it is taken from.

use crate::text::{optional_text, push_str, string_of};
use crate::utils::config::{workspace_views, Workspace, WorkspaceView};
use vstd::prelude::*;

verus! {

#[derive(Debug)]
pub struct ApplyOpts {
    /// Name of cloup
    pub name: String,
    /// Workspace to take the cloup from
    pub workspace: Option<String>,
}

/// Whether `workspace` is the one that a command works on: the one named
/// `wanted`, or the active one where none is named.
pub open spec fn is_target(workspace: WorkspaceView, wanted: Option<Seq<char>>) -> bool {
    match wanted {
        Some(name) => workspace.name == name,
        None => workspace.active,
    }
}

/// Offset of the first of `workspaces` at or after `from` that a command
/// works on; the length of `workspaces` where there is none.
pub open spec fn target_from(
    workspaces: Seq<WorkspaceView>,
    wanted: Option<Seq<char>>,
    from: int,
) -> int
    decreases workspaces.len() - from,
{
    if from < 0 || from >= workspaces.len() {
        workspaces.len() as int
    } else if is_target(workspaces[from], wanted) {
        from
    } else {
        target_from(workspaces, wanted, from + 1)
    }
}

/// The first of `workspaces` that is named `wanted`, or that is active where
/// no name is given.
pub fn pick_workspace<'a>(wanted: &Option<String>, workspaces: &'a [Workspace]) -> (r: Option<
    &'a Workspace,
>)
    ensures
        ({
            let i = target_from(workspace_views(workspaces@), optional_text(*wanted), 0);
            if i < workspaces.len() {
                r == Some(&workspaces@[i])
            } else {
                r is None
            }
        }),
{
    let ghost views = workspace_views(workspaces@);
    let mut i: usize = 0;
    while i < workspaces.len()
        invariant
            i <= workspaces.len(),
            views == workspace_views(workspaces@),
            target_from(views, optional_text(*wanted), i as int) == target_from(
                views,
                optional_text(*wanted),
                0,
            ),
        decreases workspaces.len() - i,
    {
        let hit = match wanted {
            Some(name) => workspaces[i].name == *name,
            None => workspaces[i].active,
        };
        if hit {
            return Some(&workspaces[i]);
        }
        i += 1;
    }
    None
}

/// The workspace that a cloup is applied from.
pub fn find_workspace<'a>(opts: &'a ApplyOpts, workspaces: &'a [Workspace]) -> (r: Option<
    &'a Workspace,
>)
    ensures
        ({
            let i = target_from(workspace_views(workspaces@), optional_text(opts.workspace), 0);
            if i < workspaces.len() {
                r == Some(&workspaces@[i])
            } else {
                r is None
            }
        }),
{
    pick_workspace(&opts.workspace, workspaces)
}

/// The name of the directory that holds the cloup `name`.
pub open spec fn cloup_dir_name(name: Seq<char>) -> Seq<char> {
    "cl_"@ + name
}

/// The name of the directory that holds the cloup `name`.
pub fn cloup_dir(name: &str) -> (dir: String)
    ensures
        dir@ == cloup_dir_name(name@),
{
    let mut out: Vec<char> = Vec::new();
    push_str(&mut out, "cl_");
    push_str(&mut out, name);
    assert(out@ =~= cloup_dir_name(name@));
    string_of(&out)
}

/// What tells that the cloup `name` was applied to the directory `target`.
pub open spec fn applied_text(name: Seq<char>, target: Seq<char>) -> Seq<char> {
    "\x1b[1;32m»\x1b[0m Applied cloup \x1b[1m"@ + name + "\x1b[0m to \x1b[1m"@ + target
        + "\x1b[0m"@
}

/// What tells that the workspace `workspace` has no cloup `name`.
pub open spec fn missing_text(name: Seq<char>, workspace: Seq<char>) -> Seq<char> {
    "\x1b[1;33m»\x1b[0m Cloup \x1b[1m"@ + name + "\x1b[0m does not exist in workspace '"@
        + workspace + "'"@
}

/// What tells that the cloup `name` was applied to the directory `target`.
pub fn applied_message(name: &str, target: &str) -> (text: String)
    ensures
        text@ == applied_text(name@, target@),
{
    let mut out: Vec<char> = Vec::new();
    push_str(&mut out, "\x1b[1;32m»\x1b[0m Applied cloup \x1b[1m");
    push_str(&mut out, name);
    push_str(&mut out, "\x1b[0m to \x1b[1m");
    push_str(&mut out, target);
    push_str(&mut out, "\x1b[0m");
    assert(out@ =~= applied_text(name@, target@));
    string_of(&out)
}

/// What tells that the workspace `workspace` has no cloup `name`.
pub fn missing_message(name: &str, workspace: &str) -> (text: String)
    ensures
        text@ == missing_text(name@, workspace@),
{
    let mut out: Vec<char> = Vec::new();
    push_str(&mut out, "\x1b[1;33m»\x1b[0m Cloup \x1b[1m");
    push_str(&mut out, name);
    push_str(&mut out, "\x1b[0m does not exist in workspace '");
    push_str(&mut out, workspace);
    push_str(&mut out, "'");
    assert(out@ =~= missing_text(name@, workspace@));
    string_of(&out)
}

} // verus!
