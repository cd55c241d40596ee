//! Setting the location of a workspace.

use crate::text::{optional_text, push_str, string_of};
use crate::toml::data::{Entry, Toml, Value};
use crate::utils::config::{
    add_workspace, locate_workspace, located, relocate_workspace, relocated, with_workspaces,
    workspace_entries, workspace_views, Config, ConfigError, Located, Workspace, WorkspaceView,
};
use vstd::prelude::*;

verus! {

#[derive(Debug)]
pub struct InitOpts {
    /// Overwrite path
    pub overwrite: bool,
    /// Workspace name
    pub workspace: Option<String>,
}

/// What there is to tell the user after `init`.
#[derive(Debug)]
pub enum InitReport {
    /// The first run made the workspace `default`.
    CreatedDefault,
    /// The active workspace has a location; `-o` is needed to change it.
    ConfirmActive { name: String, location: String },
    /// The active workspace has the current directory as its new location.
    Moved { name: String },
    /// A workspace of this name was made.
    Created { name: String },
    /// The named workspace has a location; `-o` is needed to change it.
    ConfirmNamed { name: String, location: String },
    /// Nothing.
    Silent,
}

/// What an [`InitReport`] stands for.
#[allow(inconsistent_fields)]
pub enum ReportView {
    CreatedDefault,
    ConfirmActive { name: Seq<char>, location: Seq<char> },
    Moved { name: Seq<char> },
    Created { name: Seq<char> },
    ConfirmNamed { name: Seq<char>, location: Seq<char> },
    Silent,
}

impl View for InitReport {
    type V = ReportView;

    open spec fn view(&self) -> ReportView {
        match *self {
            InitReport::CreatedDefault => ReportView::CreatedDefault,
            InitReport::ConfirmActive { name, location } => ReportView::ConfirmActive {
                name: name@,
                location: location@,
            },
            InitReport::Moved { name } => ReportView::Moved { name: name@ },
            InitReport::Created { name } => ReportView::Created { name: name@ },
            InitReport::ConfirmNamed { name, location } => ReportView::ConfirmNamed {
                name: name@,
                location: location@,
            },
            InitReport::Silent => ReportView::Silent,
        }
    }
}

/// What `init` is to do: what to tell the user, and the document to write
/// to the configuration file, if any.
#[derive(Debug)]
pub struct InitPlan {
    pub report: InitReport,
    pub document: Option<Toml>,
}

/// What an optional document stands for.
pub open spec fn optional_document(document: Option<Toml>) -> Option<Seq<Entry>> {
    match document {
        Some(toml) => Some(toml@),
        None => None,
    }
}

/// Offset of the last of the first `n` of `workspaces` that is active; `-1`
/// where none is.
pub open spec fn last_active(workspaces: Seq<WorkspaceView>, n: int) -> int
    decreases n,
{
    if n <= 0 {
        -1
    } else if workspaces[n - 1].active {
        n - 1
    } else {
        last_active(workspaces, n - 1)
    }
}

/// The sentence of a report; `current_dir` is the directory that `init`
/// was called in.
pub open spec fn report_text(report: ReportView, current_dir: Seq<char>) -> Option<Seq<char>> {
    match report {
        ReportView::CreatedDefault => Some(
            "\x1b[1;32m»\x1b[0m Created new workspace for storing cloups: default ("@
                + current_dir + ")."@,
        ),
        ReportView::ConfirmActive { name, location } => Some(
            "\x1b[1;33m»\x1b[0m Overwrite existing location? (\x1b[1m"@ + name + ": "@ + location
                + "\x1b[0m)\n\nPass the '-o' flag to overwrite"@,
        ),
        ReportView::Moved { name } => Some(
            "\x1b[1;32m»\x1b[0m New location for workspace "@ + name + ": ("@ + current_dir
                + ")"@,
        ),
        ReportView::Created { name } => Some(
            "\x1b[1;32m»\x1b[0m Created new workspace for storing cloups: "@ + name
                + "\n\nTo change to this workspace, use 'cloup workspace "@ + name + "'"@,
        ),
        ReportView::ConfirmNamed { name, location } => Some(
            "\x1b[1;33m»\x1b[0m Overwrite current location? (\x1b[1m"@ + name + ": "@ + location
                + "\x1b[0m)\n\nPass the '-o' flag to overwrite"@,
        ),
        ReportView::Silent => None,
    }
}

impl InitReport {
    /// The sentence of this report, if it has one; `current_dir` is the
    /// directory that `init` was called in.
    pub fn message(&self, current_dir: &str) -> (text: Option<String>)
        ensures
            optional_text(text) == report_text(self@, current_dir@),
    {
        let mut out: Vec<char> = Vec::new();
        match self {
            InitReport::CreatedDefault => {
                push_str(
                    &mut out,
                    "\x1b[1;32m»\x1b[0m Created new workspace for storing cloups: default (",
                );
                push_str(&mut out, current_dir);
                push_str(&mut out, ").");
            },
            InitReport::ConfirmActive { name, location } => {
                push_str(&mut out, "\x1b[1;33m»\x1b[0m Overwrite existing location? (\x1b[1m");
                push_str(&mut out, name.as_str());
                push_str(&mut out, ": ");
                push_str(&mut out, location.as_str());
                push_str(&mut out, "\x1b[0m)\n\nPass the '-o' flag to overwrite");
            },
            InitReport::Moved { name } => {
                push_str(&mut out, "\x1b[1;32m»\x1b[0m New location for workspace ");
                push_str(&mut out, name.as_str());
                push_str(&mut out, ": (");
                push_str(&mut out, current_dir);
                push_str(&mut out, ")");
            },
            InitReport::Created { name } => {
                push_str(
                    &mut out,
                    "\x1b[1;32m»\x1b[0m Created new workspace for storing cloups: ",
                );
                push_str(&mut out, name.as_str());
                push_str(&mut out, "\n\nTo change to this workspace, use 'cloup workspace ");
                push_str(&mut out, name.as_str());
                push_str(&mut out, "'");
            },
            InitReport::ConfirmNamed { name, location } => {
                push_str(&mut out, "\x1b[1;33m»\x1b[0m Overwrite current location? (\x1b[1m");
                push_str(&mut out, name.as_str());
                push_str(&mut out, ": ");
                push_str(&mut out, location.as_str());
                push_str(&mut out, "\x1b[0m)\n\nPass the '-o' flag to overwrite");
            },
            InitReport::Silent => {
                return None;
            },
        }
        assert(Some(out@) =~= report_text(self@, current_dir@));
        Some(string_of(&out))
    }
}

/// What `init` is to do. On a first run without a name there is only the
/// default workspace to tell of. Without a name the active workspace gets
/// the current directory as its location, if `overwrite` says so. With a
/// name the workspace of that name is made where there is none, and gets the
/// current directory as its location where there is one and `overwrite`
/// says so. A document comes with the plan where the file is to be written.
pub open spec fn planned(
    overwrite: bool,
    workspace: Option<Seq<char>>,
    initial_run: bool,
    workspaces: Seq<WorkspaceView>,
    doc: Seq<Entry>,
    current_dir: Seq<char>,
) -> Result<(ReportView, Option<Seq<Entry>>), ConfigError> {
    let active = workspaces[last_active(workspaces, workspaces.len() as int)];
    match workspace {
        None => if initial_run {
            Ok((ReportView::CreatedDefault, None))
        } else if !overwrite {
            Ok((ReportView::ConfirmActive { name: active.name, location: active.location }, None))
        } else {
            Ok(
                (
                    ReportView::Moved { name: active.name },
                    Some(
                        match workspace_entries(doc) {
                            Some(entries) => with_workspaces(
                                doc,
                                relocated(entries, active.name, current_dir),
                            ),
                            None => doc,
                        },
                    ),
                ),
            )
        },
        Some(name) => match located(doc, name) {
            None => Err(ConfigError::KeyMissing),
            Some(None) => Ok(
                (
                    ReportView::Created { name },
                    Some(
                        with_workspaces(
                            doc,
                            workspace_entries(doc)->0.push(
                                Entry { key: name, value: Value::Text(current_dir) },
                            ),
                        ),
                    ),
                ),
            ),
            Some(Some(value)) => if !overwrite {
                Ok(
                    (
                        match value {
                            Value::Text(location) => ReportView::ConfirmNamed { name, location },
                            _ => ReportView::Silent,
                        },
                        None,
                    ),
                )
            } else {
                Ok(
                    (
                        ReportView::Silent,
                        Some(
                            with_workspaces(
                                doc,
                                relocated(workspace_entries(doc)->0, name, current_dir),
                            ),
                        ),
                    ),
                )
            },
        },
    }
}

/// Whether `plan` can be made: a workspace must be active, but on a first
/// run without a name.
pub open spec fn can_plan(opts: InitOpts, config: Config) -> bool {
    (config.initial_run && opts.workspace is None) || last_active(
        config.data@,
        config.data@.len() as int,
    ) >= 0
}

/// The last of `workspaces` that is active.
pub fn find_active(workspaces: &Vec<Workspace>) -> (r: Option<usize>)
    ensures
        match r {
            Some(i) => i == last_active(workspace_views(workspaces@), workspaces.len() as int) && i
                < workspaces.len(),
            None => last_active(workspace_views(workspaces@), workspaces.len() as int) == -1,
        },
{
    let mut n: usize = workspaces.len();
    while n > 0
        invariant
            n <= workspaces.len(),
            last_active(workspace_views(workspaces@), n as int) == last_active(
                workspace_views(workspaces@),
                workspaces.len() as int,
            ),
        decreases n,
    {
        if workspaces[n - 1].active {
            return Some(n - 1);
        }
        n -= 1;
    }
    None
}

/// What `init` is to do with the options `opts` and the configuration
/// `config`.
pub fn plan(opts: InitOpts, config: Config) -> (r: Result<InitPlan, ConfigError>)
    requires
        can_plan(opts, config),
    ensures
        match planned(
            opts.overwrite,
            optional_text(opts.workspace),
            config.initial_run,
            config.data@,
            config.toml@,
            config.current_dir@,
        ) {
            Ok((report, document)) => r matches Ok(found) && found.report@ == report
                && optional_document(found.document) == document,
            Err(e) => r == Err::<InitPlan, ConfigError>(e),
        },
{
    let Config { initial_run, version: _, current_dir, config_path: _, data, toml } = config;
    let mut toml = toml;
    if initial_run && opts.workspace.is_none() {
        return Ok(InitPlan { report: InitReport::CreatedDefault, document: None });
    }
    let found = find_active(&data.workspaces);
    match opts.workspace {
        None => {
            let active = &data.workspaces[found.unwrap()];
            if !opts.overwrite {
                return Ok(
                    InitPlan {
                        report: InitReport::ConfirmActive {
                            name: active.name.clone(),
                            location: active.location.clone(),
                        },
                        document: None,
                    },
                );
            }
            relocate_workspace(&mut toml, &active.name, current_dir);
            Ok(
                InitPlan {
                    report: InitReport::Moved { name: active.name.clone() },
                    document: Some(toml),
                },
            )
        },
        Some(name) => {
            match locate_workspace(&toml, &name) {
                Located::NoTable => Err(ConfigError::KeyMissing),
                Located::Absent => {
                    let _ = add_workspace(&mut toml, name.clone(), current_dir);
                    Ok(InitPlan { report: InitReport::Created { name }, document: Some(toml) })
                },
                Located::At(location) => {
                    if !opts.overwrite {
                        Ok(
                            InitPlan {
                                report: InitReport::ConfirmNamed { name, location },
                                document: None,
                            },
                        )
                    } else {
                        relocate_workspace(&mut toml, &name, current_dir);
                        Ok(InitPlan { report: InitReport::Silent, document: Some(toml) })
                    }
                },
                Located::NoText => {
                    if !opts.overwrite {
                        Ok(InitPlan { report: InitReport::Silent, document: None })
                    } else {
                        relocate_workspace(&mut toml, &name, current_dir);
                        Ok(InitPlan { report: InitReport::Silent, document: Some(toml) })
                    }
                },
            }
        },
    }
}

} // verus!
