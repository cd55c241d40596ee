//! Choosing, listing and creating workspaces.

use crate::commands::init::optional_document;
use crate::text::{optional_text, push_str, string_of, texts};
use crate::toml::data::{Entry, Toml, Value};
use crate::utils::config::{
    activate_workspace, activated, add_workspace, with_workspaces, workspace_entries,
    workspace_views, Config, Workspace, WorkspaceView,
};
use vstd::prelude::*;

verus! {

#[derive(Debug)]
pub struct WorkspaceOpts {
    /// List all workspaces (return early)
    pub list: bool,
    /// Create a new workspace
    pub create: bool,
    /// Name of workspace to set as active
    pub name: Option<String>,
}

/// What `workspace` found to do.
#[derive(Debug)]
pub enum WorkspaceStep {
    /// The workspaces are listed, one line each.
    Listed { lines: Vec<String> },
    /// A workspace of this name was made.
    Created { name: String },
    /// There is no workspace of the name, and none was to be made.
    NotFound,
    /// A workspace of this name was to be made, and there is one already.
    Exists { name: String },
    /// The workspace of this name is the active one now.
    Activated { name: String },
    /// Nothing.
    Nothing,
}

/// What a [`WorkspaceStep`] stands for.
#[allow(inconsistent_fields)]
pub enum StepView {
    Listed { lines: Seq<Seq<char>> },
    Created { name: Seq<char> },
    NotFound,
    Exists { name: Seq<char> },
    Activated { name: Seq<char> },
    Nothing,
}

impl View for WorkspaceStep {
    type V = StepView;

    open spec fn view(&self) -> StepView {
        match *self {
            WorkspaceStep::Listed { lines } => StepView::Listed { lines: texts(lines@) },
            WorkspaceStep::Created { name } => StepView::Created { name: name@ },
            WorkspaceStep::NotFound => StepView::NotFound,
            WorkspaceStep::Exists { name } => StepView::Exists { name: name@ },
            WorkspaceStep::Activated { name } => StepView::Activated { name: name@ },
            WorkspaceStep::Nothing => StepView::Nothing,
        }
    }
}

/// What `workspace` is to do: the step, and the document to write to the
/// configuration file, if any.
#[derive(Debug)]
pub struct WorkspacePlan {
    pub step: WorkspaceStep,
    pub document: Option<Toml>,
}

/// The line that lists a workspace: a mark where it is the active one, its
/// name, and its location.
pub open spec fn listing_line(workspace: WorkspaceView) -> Seq<char> {
    (if workspace.active {
        "\x1b[1;33m»\x1b[0m "@
    } else {
        Seq::empty()
    }) + workspace.name + ": "@ + workspace.location
}

/// The lines that list `workspaces`, in their order.
pub open spec fn listing(workspaces: Seq<WorkspaceView>) -> Seq<Seq<char>> {
    Seq::new(workspaces.len(), |i: int| listing_line(workspaces[i]))
}

/// Whether one of `workspaces` has the name `name`.
pub open spec fn is_known(workspaces: Seq<WorkspaceView>, name: Seq<char>) -> bool {
    exists|i: int| 0 <= i < workspaces.len() && (#[trigger] workspaces[i]).name == name
}

/// The sentence that tells of a step; the lines of a listing are not part
/// of it.
pub open spec fn step_text(step: StepView) -> Option<Seq<char>> {
    match step {
        StepView::Created { name } => Some(
            "\x1b[1;33m»\x1b[0m Workspace \x1b[1;33m"@ + name + "\x1b[0m created"@,
        ),
        StepView::Exists { name } => Some(
            "\x1b[1;33m»\x1b[0m Workspace \x1b[1;33m"@ + name + "\x1b[0m already exists"@,
        ),
        StepView::Activated { name } => Some(
            "\x1b[1;33m»\x1b[0m The active workspace has been set to \x1b[1;33m"@ + name
                + "\x1b[0m"@,
        ),
        _ => None,
    }
}

impl WorkspaceStep {
    /// The sentence that tells of this step, if it has one.
    pub fn message(&self) -> (text: Option<String>)
        ensures
            optional_text(text) == step_text(self@),
    {
        let mut out: Vec<char> = Vec::new();
        match self {
            WorkspaceStep::Created { name } => {
                push_str(&mut out, "\x1b[1;33m»\x1b[0m Workspace \x1b[1;33m");
                push_str(&mut out, name.as_str());
                push_str(&mut out, "\x1b[0m created");
            },
            WorkspaceStep::Exists { name } => {
                push_str(&mut out, "\x1b[1;33m»\x1b[0m Workspace \x1b[1;33m");
                push_str(&mut out, name.as_str());
                push_str(&mut out, "\x1b[0m already exists");
            },
            WorkspaceStep::Activated { name } => {
                push_str(
                    &mut out,
                    "\x1b[1;33m»\x1b[0m The active workspace has been set to \x1b[1;33m",
                );
                push_str(&mut out, name.as_str());
                push_str(&mut out, "\x1b[0m");
            },
            _ => {
                return None;
            },
        }
        assert(Some(out@) =~= step_text(self@));
        Some(string_of(&out))
    }
}

/// What `workspace` is to do. A listing comes first. With a name that no
/// workspace has, the workspace is made where that is asked for, and is not
/// found where it is not; with a name that a workspace has, that one is
/// made the active one, unless it was to be made. Without a name there is
/// nothing to do. A document comes with the step where the file is to be
/// written.
pub open spec fn planned(
    list: bool,
    create: bool,
    name: Option<Seq<char>>,
    workspaces: Seq<WorkspaceView>,
    doc: Seq<Entry>,
    current_dir: Seq<char>,
) -> (StepView, Option<Seq<Entry>>) {
    if list {
        (StepView::Listed { lines: listing(workspaces) }, None)
    } else {
        match name {
            None => (StepView::Nothing, None),
            Some(name) => if !is_known(workspaces, name) {
                if create {
                    (
                        StepView::Created { name },
                        Some(
                            match workspace_entries(doc) {
                                Some(entries) => with_workspaces(
                                    doc,
                                    entries.push(
                                        Entry { key: name, value: Value::Text(current_dir) },
                                    ),
                                ),
                                None => doc,
                            },
                        ),
                    )
                } else {
                    (StepView::NotFound, None)
                }
            } else if create {
                (StepView::Exists { name }, None)
            } else {
                (StepView::Activated { name }, Some(activated(doc, name)))
            },
        }
    }
}

/// The lines that list `workspaces`.
pub fn list_workspaces(workspaces: &Vec<Workspace>) -> (lines: Vec<String>)
    ensures
        texts(lines@) == listing(workspace_views(workspaces@)),
{
    let mut lines: Vec<String> = Vec::new();
    let mut i: usize = 0;
    while i < workspaces.len()
        invariant
            i <= workspaces.len(),
            texts(lines@) == listing(workspace_views(workspaces@)).take(i as int),
        decreases workspaces.len() - i,
    {
        let w = &workspaces[i];
        let mut out: Vec<char> = Vec::new();
        if w.active {
            push_str(&mut out, "\x1b[1;33m»\x1b[0m ");
        }
        push_str(&mut out, w.name.as_str());
        push_str(&mut out, ": ");
        push_str(&mut out, w.location.as_str());
        assert(out@ =~= listing_line(w@));
        let ghost before = texts(lines@);
        lines.push(string_of(&out));
        assert(texts(lines@) =~= before.push(listing_line(w@)));
        assert(listing(workspace_views(workspaces@)).take(i + 1) =~= listing(
            workspace_views(workspaces@),
        ).take(i as int).push(listing_line(w@)));
        i += 1;
    }
    assert(listing(workspace_views(workspaces@)).take(i as int) =~= listing(
        workspace_views(workspaces@),
    ));
    lines
}

/// Whether one of `workspaces` has the name `name`.
pub fn knows(workspaces: &Vec<Workspace>, name: &String) -> (b: bool)
    ensures
        b == is_known(workspace_views(workspaces@), name@),
{
    let mut i: usize = 0;
    while i < workspaces.len()
        invariant
            i <= workspaces.len(),
            forall|j: int| 0 <= j < i ==> (#[trigger] workspace_views(workspaces@)[j]).name != name@,
        decreases workspaces.len() - i,
    {
        if workspaces[i].name == *name {
            assert(workspace_views(workspaces@)[i as int].name == name@);
            return true;
        }
        i += 1;
    }
    false
}

/// What `workspace` is to do with the options `opts` and the configuration
/// `config`.
pub fn plan(opts: WorkspaceOpts, config: Config) -> (r: WorkspacePlan)
    ensures
        (r.step@, optional_document(r.document)) == planned(
            opts.list,
            opts.create,
            optional_text(opts.name),
            config.data@,
            config.toml@,
            config.current_dir@,
        ),
{
    let Config { initial_run: _, version: _, current_dir, config_path: _, data, toml } = config;
    let mut toml = toml;
    if opts.list {
        return WorkspacePlan {
            step: WorkspaceStep::Listed { lines: list_workspaces(&data.workspaces) },
            document: None,
        };
    }
    match opts.name {
        None => WorkspacePlan { step: WorkspaceStep::Nothing, document: None },
        Some(name) => {
            if !knows(&data.workspaces, &name) {
                if opts.create {
                    let _ = add_workspace(&mut toml, name.clone(), current_dir);
                    return WorkspacePlan {
                        step: WorkspaceStep::Created { name },
                        document: Some(toml),
                    };
                }
                return WorkspacePlan { step: WorkspaceStep::NotFound, document: None };
            }
            if opts.create {
                return WorkspacePlan { step: WorkspaceStep::Exists { name }, document: None };
            }
            activate_workspace(&mut toml, name.clone());
            WorkspacePlan { step: WorkspaceStep::Activated { name }, document: Some(toml) }
        },
    }
}

} // verus!
