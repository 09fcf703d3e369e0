//! Opening and closing: what is to be done for the selected entry, and what follows from it.

use crate::app::App;
use crate::file_path::FilePath;
use crate::model::{
    ActionView, Entry, EntryAction, EntryView, Source, WorkspaceKind, WorkspaceRef,
};
use crate::text::{
    concat2, concat3, content, contents, copy_option, list3, push_text, str_content, trim, trimmed,
    utf8_lossy,
};
use crate::workspaces::{
    close_current_workspace_error, created_label, created_workspace_label,
    previous_workspace_to_record, workspace_focus_to_restore,
};
use vstd::prelude::*;
use vstd::string::StringExecFns;

verus! {

/// The first workspace of a kind in a list.
pub open spec fn first_of_kind(list: Seq<WorkspaceRef>, kind: WorkspaceKind) -> Option<WorkspaceRef>
    decreases list.len(),
{
    if list.len() == 0 {
        None
    } else if list[0].kind == kind {
        Some(list[0])
    } else {
        first_of_kind(list.drop_first(), kind)
    }
}

fn find_kind(list: &Vec<WorkspaceRef>, kind: WorkspaceKind) -> (found: Option<&WorkspaceRef>)
    ensures
        first_of_kind(list@, kind) == (match found {
            Some(workspace) => Some(*workspace),
            None => None,
        }),
{
    let mut i: usize = 0;
    assert(list@.skip(0) == list@);
    while i < list.len()
        invariant
            i <= list.len(),
            first_of_kind(list@, kind) == first_of_kind(list@.skip(i as int), kind),
        decreases list.len() - i,
    {
        if list[i].kind == kind {
            return Some(&list[i]);
        }
        assert(list@.skip(i as int).drop_first() =~= list@.skip(i + 1));
        i += 1;
    }
    None
}

impl App {
    /// The open workspaces of a directory.
    pub open spec fn open_at(self, key: Seq<char>) -> Seq<WorkspaceRef> {
        if self.path_to_workspaces@.dom().contains(key) {
            self.path_to_workspaces@[key]
        } else {
            Seq::empty()
        }
    }

    /// The workspace of a directory that a template is applied to: one that was created for the
    /// directory, or else the first.
    pub open spec fn template_workspace(self, key: Seq<char>) -> Option<WorkspaceRef> {
        match first_of_kind(self.open_at(key), WorkspaceKind::Dir) {
            Some(workspace) => Some(workspace),
            None => if self.open_at(key).len() > 0 {
                Some(self.open_at(key)[0])
            } else {
                None
            },
        }
    }

    /// The open workspaces of an entry's directory.
    pub fn workspaces_for_entry(&self, e: &Entry) -> (found: &[WorkspaceRef])
        ensures
            found@ == self.open_at(e@.key()),
    {
        match self.path_to_workspaces.get(e.key()) {
            Some(workspaces) => workspaces.as_slice(),
            None => {
                let none: &[WorkspaceRef] = &[];
                assert(none@ =~= Seq::empty());
                none
            },
        }
    }

    /// The open workspace that was created for an entry's project.
    pub fn matching_project_workspace(&self, e: &Entry) -> (found: Option<&WorkspaceRef>)
        ensures
            first_of_kind(self.open_at(e@.key()), WorkspaceKind::Project) == (match found {
                Some(workspace) => Some(*workspace),
                None => None,
            }),
    {
        match self.path_to_workspaces.get(e.key()) {
            Some(workspaces) => find_kind(workspaces, WorkspaceKind::Project),
            None => None,
        }
    }

    /// The open workspace that was created for an entry's directory.
    pub fn matching_dir_workspace(&self, e: &Entry) -> (found: Option<&WorkspaceRef>)
        ensures
            first_of_kind(self.open_at(e@.key()), WorkspaceKind::Dir) == (match found {
                Some(workspace) => Some(*workspace),
                None => None,
            }),
    {
        self.matching_dir_workspace_by_key(e.key())
    }

    /// The open workspace that was created for a directory.
    pub fn matching_dir_workspace_by_key(&self, key: &str) -> (found: Option<&WorkspaceRef>)
        ensures
            first_of_kind(self.open_at(key@), WorkspaceKind::Dir) == (match found {
                Some(workspace) => Some(*workspace),
                None => None,
            }),
    {
        match self.path_to_workspaces.get(key) {
            Some(workspaces) => find_kind(workspaces, WorkspaceKind::Dir),
            None => None,
        }
    }

    /// The workspace of a directory that a template is applied to.
    pub fn matching_template_workspace_by_key(&self, key: &str) -> (found: Option<&WorkspaceRef>)
        ensures
            self.template_workspace(key@) == (match found {
                Some(workspace) => Some(*workspace),
                None => None,
            }),
    {
        match self.path_to_workspaces.get(key) {
            Some(workspaces) => match find_kind(workspaces, WorkspaceKind::Dir) {
                Some(workspace) => Some(workspace),
                None => if workspaces.len() > 0 {
                    Some(&workspaces[0])
                } else {
                    None
                },
            },
            None => None,
        }
    }

    /// The identifier of the open workspace that closing an entry closes.
    pub open spec fn to_close(self, e: EntryView) -> Option<Seq<char>> {
        match e.source {
            Source::Workspace => e.workspace_id,
            Source::Agent => e.workspace_id,
            Source::Project => id_of(first_of_kind(self.open_at(e.key()), WorkspaceKind::Project)),
            Source::Zoxide => id_of(first_of_kind(self.open_at(e.key()), WorkspaceKind::Dir)),
            Source::Root => id_of(first_of_kind(self.open_at(e.key()), WorkspaceKind::Dir)),
            _ => None,
        }
    }

    /// The identifier of the open workspace that closing an entry closes.
    pub fn workspace_to_close(&self, e: &Entry) -> (id: Option<String>)
        ensures
            content(id) == self.to_close(e@),
    {
        match e.source {
            Source::Workspace | Source::Agent => copy_option(&e.workspace_id),
            Source::Project => match self.matching_project_workspace(e) {
                Some(workspace) => Some(workspace.id.clone()),
                None => None,
            },
            Source::Zoxide | Source::Root => match self.matching_dir_workspace(e) {
                Some(workspace) => Some(workspace.id.clone()),
                None => None,
            },
            Source::Server | Source::Session | Source::QuickAction | Source::Integration => None,
            Source::Tab | Source::Pane => None,
        }
    }

    /// The template that the selected entry can be opened with.
    pub open spec fn offered_template(self) -> Option<Seq<char>> {
        match self.config.picker.directory_template {
            Some(template) => if trimmed(template@).len() > 0 && self.selection() is Some
                && self.selection()->0@.action == ActionView::FocusOrCreateDir {
                Some(trimmed(template@))
            } else {
                None
            },
            None => None,
        }
    }

    /// The template that the selected entry can be opened with: the configured one, where the entry
    /// is a directory.
    pub fn directory_template_for_selected(&self) -> (template: Option<&str>)
        ensures
            str_content(template) == self.offered_template(),
    {
        match &self.config.picker.directory_template {
            Some(template) => {
                let name: &str = trim(template.as_str());
                if name.is_empty() {
                    return None;
                }
                match self.selected_entry() {
                    Some(entry) => match &entry.action {
                        EntryAction::FocusOrCreateDir => Some(name),
                        _ => None,
                    },
                    None => None,
                }
            },
            None => None,
        }
    }
}

/// What a directory goes by: its path with links resolved, or as it is shown where that cannot be
/// done.
pub open spec fn dir_key(path: Seq<u8>, resolved: Option<Seq<char>>) -> Seq<char> {
    match resolved {
        Some(text) => text,
        None => utf8_lossy(path),
    }
}

/// The identifier of a workspace, where there is one.
pub open spec fn id_of(workspace: Option<WorkspaceRef>) -> Option<Seq<char>> {
    match workspace {
        Some(w) => Some(w.id@),
        None => None,
    }
}

/// A step in opening a directory or project. The steps are taken in order, until one fails.
#[derive(Debug)]
pub enum Step {
    /// Load the template of a name.
    LoadTemplate { name: String },
    /// Focus an open workspace.
    Focus { id: String },
    /// Create and focus a workspace, and remember what it was created for.
    Create { cwd: String, label: String, kind: WorkspaceKind },
    /// Add the tabs of the entry's project to the created workspace.
    AddProjectTabs { dir: FilePath },
    /// Add the tabs of the loaded template to the created workspace.
    AddTemplateTabs { dir: FilePath },
    /// Add the tabs of the loaded template to an open workspace, beside its own.
    AppendTemplateTabs { id: String, dir: FilePath },
}

/// A step in opening a directory or project.
pub enum StepView {
    LoadTemplate { name: Seq<char> },
    Focus { id: Seq<char> },
    Create { cwd: Seq<char>, label: Seq<char>, kind: WorkspaceKind },
    AddProjectTabs { dir: Seq<u8> },
    AddTemplateTabs { dir: Seq<u8> },
    AppendTemplateTabs { id: Seq<char>, dir: Seq<u8> },
}

impl View for Step {
    type V = StepView;

    open spec fn view(&self) -> StepView {
        match *self {
            Step::LoadTemplate { name } => StepView::LoadTemplate { name: name@ },
            Step::Focus { id } => StepView::Focus { id: id@ },
            Step::Create { cwd, label, kind } => StepView::Create { cwd: cwd@, label: label@, kind },
            Step::AddProjectTabs { dir } => StepView::AddProjectTabs { dir: dir@ },
            Step::AddTemplateTabs { dir } => StepView::AddTemplateTabs { dir: dir@ },
            Step::AppendTemplateTabs { id, dir } => StepView::AppendTemplateTabs {
                id: id@,
                dir: dir@,
            },
        }
    }
}

/// Steps by what they say.
pub open spec fn steps_view(steps: Seq<Step>) -> Seq<StepView> {
    steps.map_values(|step: Step| step@)
}

impl StepView {
    /// What Herdr is called with, where the step is a call of it.
    pub open spec fn args(self) -> Option<Seq<Seq<char>>> {
        match self {
            StepView::Focus { id } => Some(seq!["workspace"@, "focus"@, id]),
            StepView::Create { cwd, label, .. } => Some(
                seq!["workspace"@, "create"@, "--cwd"@, cwd, "--label"@, label, "--focus"@],
            ),
            _ => None,
        }
    }
}

impl Step {
    /// What Herdr is called with, where the step is a call of it.
    pub fn herdr_args(&self) -> (args: Option<Vec<String>>)
        ensures
            self@.args() == (match args {
                Some(list) => Some(contents(list@)),
                None => None,
            }),
    {
        match self {
            Step::Focus { id } => Some(list3("workspace", "focus", id.as_str())),
            Step::Create { cwd, label, .. } => {
                let mut args: Vec<String> = list3("workspace", "create", "--cwd");
                push_text(&mut args, cwd.as_str());
                push_text(&mut args, "--label");
                push_text(&mut args, label.as_str());
                push_text(&mut args, "--focus");
                assert(contents(args@) =~= self@.args()->0);
                Some(args)
            },
            _ => None,
        }
    }
}

/// The result of planning.
pub open spec fn plan_view(plan: Result<Vec<Step>, String>) -> Result<Seq<StepView>, Seq<char>> {
    match plan {
        Ok(steps) => Ok(steps_view(steps@)),
        Err(message) => Err(message@),
    }
}

fn one_step(step: Step) -> (steps: Vec<Step>)
    ensures
        steps_view(steps@) == seq![step@],
{
    let mut steps: Vec<Step> = Vec::new();
    steps.push(step);
    assert(steps_view(steps@) =~= seq![step@]);
    steps
}

fn add_step(steps: &mut Vec<Step>, step: Step)
    ensures
        steps_view(final(steps)@) == steps_view(old(steps)@).push(step@),
{
    steps.push(step);
    assert(steps_view(steps@) =~= steps_view(old(steps)@).push(step@));
}

/// The name of an entry's project, or its title where it has none.
pub open spec fn project_name(e: EntryView) -> Seq<char> {
    match e.project {
        Some(project) => project.name@,
        None => e.title,
    }
}

impl App {
    /// The steps that open a project entry.
    pub open spec fn project_steps(self, e: EntryView) -> Result<Seq<StepView>, Seq<char>> {
        let open = first_of_kind(self.open_at(e.key()), WorkspaceKind::Project);
        if self.config.picker.reuse_existing && open is Some {
            Ok(seq![StepView::Focus { id: open->0.id@ }])
        } else if !self.config.picker.create_missing {
            Err("create_missing=false and no workspace exists"@)
        } else {
            let creation = StepView::Create {
                cwd: e.path,
                label: created_label(
                    WorkspaceKind::Project,
                    project_name(e),
                    self.config.picker.prefix_workspace_labels,
                ),
                kind: WorkspaceKind::Project,
            };
            if e.project is Some {
                Ok(seq![creation, StepView::AddProjectTabs { dir: e.path_bytes }])
            } else {
                Ok(seq![creation])
            }
        }
    }

    /// The step that creates a workspace for a directory.
    pub open spec fn dir_creation(self, path: Seq<char>, label: Seq<char>) -> StepView {
        StepView::Create {
            cwd: path,
            label: created_label(
                WorkspaceKind::Dir,
                label,
                self.config.picker.prefix_workspace_labels,
            ),
            kind: WorkspaceKind::Dir,
        }
    }

    /// The steps that open a directory.
    pub open spec fn dir_steps(
        self,
        path: Seq<u8>,
        resolved: Option<Seq<char>>,
        label: Seq<char>,
        use_directory_template: bool,
    ) -> Result<Seq<StepView>, Seq<char>> {
        let key = dir_key(path, resolved);
        let open = first_of_kind(self.open_at(key), WorkspaceKind::Dir);
        if use_directory_template {
            match self.config.picker.directory_template {
                Some(template) => {
                    let load = StepView::LoadTemplate { name: template@ };
                    match self.template_workspace(key) {
                        Some(workspace) => Ok(
                            seq![
                                load,
                                StepView::Focus { id: workspace.id@ },
                                StepView::AppendTemplateTabs { id: workspace.id@, dir: path },
                            ],
                        ),
                        None => Ok(
                            seq![
                                load,
                                self.dir_creation(utf8_lossy(path), label),
                                StepView::AddTemplateTabs { dir: path },
                            ],
                        ),
                    }
                },
                None => Err("no directory_template configured"@),
            }
        } else if self.config.picker.reuse_existing && open is Some {
            Ok(seq![StepView::Focus { id: open->0.id@ }])
        } else if !self.config.picker.create_missing {
            Err("create_missing=false and no workspace exists"@)
        } else {
            Ok(seq![self.dir_creation(utf8_lossy(path), label)])
        }
    }

    /// The steps that open a project entry: its workspace is focused, or one is created and gets
    /// the project's tabs.
    pub fn open_project(&self, e: &Entry) -> (plan: Result<Vec<Step>, String>)
        ensures
            plan_view(plan) == self.project_steps(e@),
    {
        if self.config.picker.reuse_existing {
            if let Some(workspace) = self.matching_project_workspace(e) {
                return Ok(one_step(Step::Focus { id: workspace.id.clone() }));
            }
        }
        if !self.config.picker.create_missing {
            return Err("create_missing=false and no workspace exists".to_owned());
        }
        let name: &str = match &e.project {
            Some(project) => project.name.as_str(),
            None => e.title.as_str(),
        };
        let label: String = created_workspace_label(
            WorkspaceKind::Project,
            name,
            self.config.picker.prefix_workspace_labels,
        );
        let mut steps: Vec<Step> = one_step(
            Step::Create { cwd: e.path.shown().to_owned(), label, kind: WorkspaceKind::Project },
        );
        if e.project.is_some() {
            add_step(&mut steps, Step::AddProjectTabs { dir: e.path.copy() });
        }
        assert(steps_view(steps@) =~= self.project_steps(e@)->Ok_0);
        Ok(steps)
    }

    /// The step that creates a workspace for a directory.
    fn create_dir(&self, path: &str, label: &str) -> (step: Step)
        ensures
            step@ == self.dir_creation(path@, label@),
    {
        Step::Create {
            cwd: path.to_owned(),
            label: created_workspace_label(
                WorkspaceKind::Dir,
                label,
                self.config.picker.prefix_workspace_labels,
            ),
            kind: WorkspaceKind::Dir,
        }
    }

    /// The steps that open a directory: its workspace is focused, or one is created, with the tabs
    /// of the configured template where that is asked for. `resolved` is the directory with links
    /// resolved, where that can be done.
    pub fn focus_or_create_dir(
        &self,
        path: &FilePath,
        resolved: Option<&str>,
        label: &str,
        use_directory_template: bool,
    ) -> (plan: Result<Vec<Step>, String>)
        ensures
            plan_view(plan) == self.dir_steps(
                path@,
                str_content(resolved),
                label@,
                use_directory_template,
            ),
    {
        let key: &str = match resolved {
            Some(text) => text,
            None => path.shown(),
        };
        if use_directory_template {
            let mut steps: Vec<Step> = match &self.config.picker.directory_template {
                Some(template) => one_step(Step::LoadTemplate { name: template.clone() }),
                None => {
                    return Err("no directory_template configured".to_owned());
                },
            };
            match self.matching_template_workspace_by_key(key) {
                Some(workspace) => {
                    add_step(&mut steps, Step::Focus { id: workspace.id.clone() });
                    add_step(
                        &mut steps,
                        Step::AppendTemplateTabs { id: workspace.id.clone(), dir: path.copy() },
                    );
                },
                None => {
                    add_step(&mut steps, self.create_dir(path.shown(), label));
                    add_step(&mut steps, Step::AddTemplateTabs { dir: path.copy() });
                },
            }
            assert(steps_view(steps@) =~= self.dir_steps(
                path@,
                str_content(resolved),
                label@,
                use_directory_template,
            )->Ok_0);
            return Ok(steps);
        }
        if self.config.picker.reuse_existing {
            if let Some(workspace) = self.matching_dir_workspace_by_key(key) {
                return Ok(one_step(Step::Focus { id: workspace.id.clone() }));
            }
        }
        if !self.config.picker.create_missing {
            return Err("create_missing=false and no workspace exists".to_owned());
        }
        Ok(one_step(self.create_dir(path.shown(), label)))
    }
}

/// What opening an entry calls for.
#[derive(Debug)]
pub enum OpenTask {
    /// Call Herdr.
    Herdr { args: Vec<String> },
    /// Take steps to a workspace, or fail with a message.
    Workspace { plan: Result<Vec<Step>, String> },
    /// Open a remote host.
    Remote { target: String },
    /// Attach to a session.
    Session { name: String },
    /// Run a command.
    Command { command: String },
}

/// What opening an entry calls for.
pub enum OpenTaskView {
    Herdr { args: Seq<Seq<char>> },
    Workspace { plan: Result<Seq<StepView>, Seq<char>> },
    Remote { target: Seq<char> },
    Session { name: Seq<char> },
    Command { command: Seq<char> },
}

impl View for OpenTask {
    type V = OpenTaskView;

    open spec fn view(&self) -> OpenTaskView {
        match *self {
            OpenTask::Herdr { args } => OpenTaskView::Herdr { args: contents(args@) },
            OpenTask::Workspace { plan } => OpenTaskView::Workspace { plan: plan_view(plan) },
            OpenTask::Remote { target } => OpenTaskView::Remote { target: target@ },
            OpenTask::Session { name } => OpenTaskView::Session { name: name@ },
            OpenTask::Command { command } => OpenTaskView::Command { command: command@ },
        }
    }
}

/// How the selected entry is opened.
#[derive(Debug)]
pub struct OpenPlan {
    pub title: String,
    pub task: OpenTask,
    /// Whether the workspace that is left is remembered as the previous one.
    pub tracks_workspace_transition: bool,
    pub notify_success: bool,
    pub notify_failure: bool,
}

/// Whether an action leads to a workspace.
pub open spec fn leads_to_workspace(action: ActionView) -> bool {
    match action {
        ActionView::FocusAgent { .. } => true,
        ActionView::FocusWorkspace { .. } => true,
        ActionView::FocusTab { .. } => true,
        ActionView::FocusPane { .. } => true,
        ActionView::OpenProject => true,
        ActionView::FocusOrCreateDir => true,
        _ => false,
    }
}

/// Whether a notice follows when opening went well.
pub open spec fn notifies_success(action: ActionView) -> bool {
    match action {
        ActionView::OpenRemote { .. } => false,
        ActionView::AttachSession { .. } => false,
        ActionView::RunCommand { notify_success, .. } => notify_success,
        _ => true,
    }
}

/// Whether a notice follows when opening failed.
pub open spec fn notifies_failure(action: ActionView) -> bool {
    match action {
        ActionView::RunCommand { notify_error, .. } => notify_error,
        _ => true,
    }
}

impl App {
    /// What opening an entry calls for.
    pub open spec fn task_for(
        self,
        e: EntryView,
        resolved: Option<Seq<char>>,
        use_directory_template: bool,
    ) -> OpenTaskView {
        match e.action {
            ActionView::FocusAgent { target } => OpenTaskView::Herdr {
                args: seq!["agent"@, "focus"@, target],
            },
            ActionView::FocusWorkspace { id } => OpenTaskView::Herdr {
                args: seq!["workspace"@, "focus"@, id],
            },
            ActionView::FocusTab { id } => OpenTaskView::Herdr { args: seq!["tab"@, "focus"@, id] },
            ActionView::FocusPane { id } => OpenTaskView::Herdr {
                args: seq!["pane"@, "focus"@, id],
            },
            ActionView::OpenProject => OpenTaskView::Workspace { plan: self.project_steps(e) },
            ActionView::OpenRemote { target } => OpenTaskView::Remote { target },
            ActionView::AttachSession { name, .. } => OpenTaskView::Session { name },
            ActionView::InvokePluginAction { action } => OpenTaskView::Herdr {
                args: seq!["plugin"@, "action"@, "invoke"@, action],
            },
            ActionView::FocusOrCreateDir => OpenTaskView::Workspace {
                plan: self.dir_steps(e.path_bytes, resolved, e.title, use_directory_template),
            },
            ActionView::RunCommand { command, .. } => OpenTaskView::Command { command },
        }
    }

    /// Whether a plan says how the selected entry is opened.
    pub open spec fn plans_opening(
        self,
        resolved: Option<Seq<char>>,
        use_directory_template: bool,
        plan: Result<OpenPlan, String>,
    ) -> bool {
        match self.selection() {
            Some(entry) => {
                &&& plan is Ok
                &&& plan->Ok_0.title@ == entry@.title
                &&& plan->Ok_0.task@ == self.task_for(entry@, resolved, use_directory_template)
                &&& plan->Ok_0.tracks_workspace_transition == (self.config.jump_back.enabled
                    && leads_to_workspace(entry@.action))
                &&& plan->Ok_0.notify_success == notifies_success(entry@.action)
                &&& plan->Ok_0.notify_failure == notifies_failure(entry@.action)
            },
            None => plan matches Err(message) && message@ == "nothing selected"@,
        }
    }

    /// How the selected entry is opened. `resolved` is its path with links resolved, where that can
    /// be done.
    pub fn open_selected(
        &self,
        resolved: Option<&str>,
        use_directory_template: bool,
    ) -> (plan: Result<OpenPlan, String>)
        ensures
            self.plans_opening(str_content(resolved), use_directory_template, plan),
    {
        let e: &Entry = match self.selected_entry() {
            Some(e) => e,
            None => {
                return Err("nothing selected".to_owned());
            },
        };
        let leads: bool = match &e.action {
            EntryAction::FocusAgent { .. } => true,
            EntryAction::FocusWorkspace { .. } => true,
            EntryAction::FocusTab { .. } => true,
            EntryAction::FocusPane { .. } => true,
            EntryAction::OpenProject => true,
            EntryAction::FocusOrCreateDir => true,
            _ => false,
        };
        let (task, notify_success, notify_failure) = match &e.action {
            EntryAction::FocusAgent { target } => (
                OpenTask::Herdr { args: list3("agent", "focus", target.as_str()) },
                true,
                true,
            ),
            EntryAction::FocusWorkspace { id } => (
                OpenTask::Herdr { args: list3("workspace", "focus", id.as_str()) },
                true,
                true,
            ),
            EntryAction::FocusTab { id } => (
                OpenTask::Herdr { args: list3("tab", "focus", id.as_str()) },
                true,
                true,
            ),
            EntryAction::FocusPane { id } => (
                OpenTask::Herdr { args: list3("pane", "focus", id.as_str()) },
                true,
                true,
            ),
            EntryAction::OpenProject => (
                OpenTask::Workspace { plan: self.open_project(e) },
                true,
                true,
            ),
            EntryAction::OpenRemote { target } => (
                OpenTask::Remote { target: target.clone() },
                false,
                true,
            ),
            EntryAction::AttachSession { name, .. } => (
                OpenTask::Session { name: name.clone() },
                false,
                true,
            ),
            EntryAction::InvokePluginAction { action } => {
                let mut args: Vec<String> = list3("plugin", "action", "invoke");
                push_text(&mut args, action.as_str());
                assert(contents(args@) =~= seq!["plugin"@, "action"@, "invoke"@, action@]);
                (OpenTask::Herdr { args }, true, true)
            },
            EntryAction::FocusOrCreateDir => (
                OpenTask::Workspace {
                    plan: self.focus_or_create_dir(
                        &e.path,
                        resolved,
                        e.title.as_str(),
                        use_directory_template,
                    ),
                },
                true,
                true,
            ),
            EntryAction::RunCommand { command, notify_success, notify_error } => (
                OpenTask::Command { command: command.clone() },
                *notify_success,
                *notify_error,
            ),
        };
        Ok(
            OpenPlan {
                title: e.title.clone(),
                task,
                tracks_workspace_transition: self.config.jump_back.enabled && leads,
                notify_success,
                notify_failure,
            },
        )
    }
}

/// What the user is told.
#[derive(Debug)]
pub enum Notice {
    Done { message: String },
    Error { message: String },
}

/// What the user is told.
pub enum NoticeView {
    Done { message: Seq<char> },
    Error { message: Seq<char> },
}

impl View for Notice {
    type V = NoticeView;

    open spec fn view(&self) -> NoticeView {
        match *self {
            Notice::Done { message } => NoticeView::Done { message: message@ },
            Notice::Error { message } => NoticeView::Error { message: message@ },
        }
    }
}

/// What follows from how opening went.
#[derive(Debug)]
pub struct OpenOutcome {
    /// The workspace to remember as the previous one.
    pub previous: Option<String>,
    pub notice: Option<Notice>,
    pub result: Result<(), String>,
}

impl OpenPlan {
    /// The workspace that is left: the one that the picker was launched in, or else the current one.
    /// It is asked for only where leaving it is remembered.
    pub fn origin<'a>(&self, launched_in: Option<&'a str>, current: Option<&'a str>) -> (id: Option<
        &'a str,
    >)
        ensures
            id == (if !self.tracks_workspace_transition {
                None
            } else if launched_in is Some {
                launched_in
            } else {
                current
            }),
    {
        if !self.tracks_workspace_transition {
            return None;
        }
        match launched_in {
            Some(id) => Some(id),
            None => current,
        }
    }

    /// Whether an outcome follows from how opening went.
    pub open spec fn comes_to(
        self,
        result: Result<(), String>,
        origin: Option<Seq<char>>,
        destination: Option<Seq<char>>,
        outcome: OpenOutcome,
    ) -> bool {
        &&& outcome.result == result
        &&& content(outcome.previous) == (if result is Ok && self.tracks_workspace_transition
            && origin is Some && destination is Some && origin != destination {
            origin
        } else {
            None
        })
        &&& (match outcome.notice {
            Some(notice) => Some(notice@),
            None => None,
        }) == (match result {
            Ok(_) => if self.notify_success {
                Some(NoticeView::Done { message: "Opened "@ + self.title@ })
            } else {
                None
            },
            Err(error) => if self.notify_failure {
                Some(
                    NoticeView::Error {
                        message: "Failed "@ + self.title@ + ": "@ + trimmed(error@),
                    },
                )
            } else {
                None
            },
        })
    }

    /// What follows from how opening went. `origin` and `destination` are the workspaces before and
    /// after.
    pub fn outcome(
        &self,
        result: Result<(), String>,
        origin: Option<&str>,
        destination: Option<&str>,
    ) -> (outcome: OpenOutcome)
        ensures
            self.comes_to(result, str_content(origin), str_content(destination), outcome),
    {
        let previous: Option<String> = match &result {
            Ok(_) => if self.tracks_workspace_transition {
                match previous_workspace_to_record(origin, destination) {
                    Some(previous) => Some(previous.to_owned()),
                    None => None,
                }
            } else {
                None
            },
            Err(_) => None,
        };
        let notice: Option<Notice> = match &result {
            Ok(_) => if self.notify_success {
                Some(Notice::Done { message: concat2("Opened ", self.title.as_str()) })
            } else {
                None
            },
            Err(error) => if self.notify_failure {
                let mut message: String = concat3("Failed ", self.title.as_str(), ": ");
                message.append(trim(error.as_str()));
                Some(Notice::Error { message })
            } else {
                None
            },
        };
        OpenOutcome { previous, notice, result }
    }
}

/// How the workspace of the selected entry is closed.
#[derive(Debug)]
pub struct ClosePlan {
    pub id: String,
    pub title: String,
    /// The workspace to focus after that.
    pub restore: Option<String>,
}

impl App {
    /// Whether a plan says how the workspace of the selected entry is closed.
    pub open spec fn plans_closing(
        self,
        origin: Option<Seq<char>>,
        plan: Result<ClosePlan, String>,
    ) -> bool {
        match self.selection() {
            None => plan matches Err(message) && message@ == "nothing selected"@,
            Some(entry) => match self.to_close(entry@) {
                None => plan matches Err(message) && message@
                    == "no open workspace for selected item"@,
                Some(id) => if origin == Some(id) {
                    plan matches Err(message) && message@
                        == "can't close the workspace that owns this picker; switch away first"@
                } else {
                    &&& plan is Ok
                    &&& plan->Ok_0.id@ == id
                    &&& plan->Ok_0.title@ == entry@.title
                    &&& content(plan->Ok_0.restore) == origin
                },
            },
        }
    }

    /// How the workspace of the selected entry is closed. `origin` is the workspace that the picker
    /// was opened in; it is focused again after that, and cannot be closed itself.
    pub fn close_selected_workspace(&self, origin: Option<&str>) -> (plan: Result<ClosePlan, String>)
        ensures
            self.plans_closing(str_content(origin), plan),
    {
        let e: &Entry = match self.selected_entry() {
            Some(e) => e,
            None => {
                return Err("nothing selected".to_owned());
            },
        };
        let id: String = match self.workspace_to_close(e) {
            Some(id) => id,
            None => {
                return Err("no open workspace for selected item".to_owned());
            },
        };
        if let Some(error) = close_current_workspace_error(id.as_str(), origin) {
            return Err(error);
        }
        let restore: Option<String> = match workspace_focus_to_restore(id.as_str(), origin) {
            Some(origin) => Some(origin.to_owned()),
            None => None,
        };
        Ok(ClosePlan { id, title: e.title.clone(), restore })
    }
}

impl ClosePlan {
    /// What Herdr is called with to close the workspace.
    pub fn herdr_args(&self) -> (args: Vec<String>)
        ensures
            contents(args@) == seq!["workspace"@, "close"@, self.id@],
    {
        list3("workspace", "close", self.id.as_str())
    }

    /// What Herdr is called with to focus the workspace that the picker was opened in.
    pub fn restore_args(&self) -> (args: Option<Vec<String>>)
        ensures
            args is Some <==> self.restore is Some,
            args matches Some(list) ==> contents(list@) == seq![
                "workspace"@,
                "focus"@,
                self.restore->0@,
            ],
    {
        match &self.restore {
            Some(id) => Some(list3("workspace", "focus", id.as_str())),
            None => None,
        }
    }

    /// What the user is told once the workspace is closed. `focus` tells how focusing went.
    pub fn notice(&self, focus: &Result<(), String>) -> (notice: Notice)
        ensures
            notice@ == (match *focus {
                Ok(_) => NoticeView::Done { message: "Closed "@ + self.title@ },
                Err(error) => NoticeView::Error {
                    message: "Closed "@ + self.title@ + ", but failed to restore focus: "@ + error@,
                },
            }),
    {
        match focus {
            Ok(_) => Notice::Done { message: concat2("Closed ", self.title.as_str()) },
            Err(error) => {
                let mut message: String = concat3(
                    "Closed ",
                    self.title.as_str(),
                    ", but failed to restore focus: ",
                );
                message.append(error.as_str());
                Notice::Error { message }
            },
        }
    }
}

} // verus!
