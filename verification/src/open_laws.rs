//! What holds of opening, closing and jumping back: which workspace is focused or created, with what,
//! and what the user is told.

use crate::app::App;
use crate::data::{Data, DataView};
use crate::laws::law_first_of_kind;
use crate::model::{ActionView, EntryView, Source, WorkspaceKind, WorkspaceRef};
use crate::open::{
    dir_key, first_of_kind, plan_view, steps_view, ClosePlan, NoticeView, OpenOutcome, OpenPlan,
    OpenTaskView, Step, StepView,
};
use crate::text::{content, trimmed, utf8_lossy};
use crate::workspaces::{
    created_in, created_label, first_focused, first_label, focused_in, jump_step, label_in,
    launch_id, JumpView,
};
use vstd::prelude::*;

verus! {

/// Whenever opening a directory plans to create a workspace, with a template or without, the
/// workspace is created in the directory as it is shown, whatever the label is, and for a directory.
/// Its label is the given one, with `dir: ` in front where that is asked for.
pub proof fn law_a_directory_is_created_where_it_is(
    app: App,
    path: Seq<u8>,
    resolved: Option<Seq<char>>,
    label: Seq<char>,
    use_directory_template: bool,
    steps: Seq<StepView>,
    k: int,
)
    requires
        app.dir_steps(path, resolved, label, use_directory_template) == Ok::<
            Seq<StepView>,
            Seq<char>,
        >(steps),
        0 <= k < steps.len(),
        steps[k] is Create,
    ensures
        steps[k]->cwd == utf8_lossy(path),
        steps[k]->kind == WorkspaceKind::Dir,
        app.config.picker.prefix_workspace_labels ==> steps[k]->label == "dir: "@ + label,
        !app.config.picker.prefix_workspace_labels ==> steps[k]->label == label,
{
    lemma_prefixes(label);
}

proof fn lemma_prefixes(label: Seq<char>)
    ensures
        "dir"@ + ": "@ + label == "dir: "@ + label,
        "project"@ + ": "@ + label == "project: "@ + label,
{
    reveal_strlit("dir");
    reveal_strlit("project");
    reveal_strlit(": ");
    reveal_strlit("dir: ");
    reveal_strlit("project: ");
    assert("dir"@ + ": "@ =~= "dir: "@);
    assert("project"@ + ": "@ =~= "project: "@);
}

/// Opening a selected directory creates a workspace nowhere else than in that directory.
pub proof fn law_opening_a_directory_creates_it_there(
    app: App,
    resolved: Option<Seq<char>>,
    use_directory_template: bool,
    plan: Result<OpenPlan, String>,
    steps: Seq<StepView>,
    k: int,
)
    requires
        app.plans_opening(resolved, use_directory_template, plan),
        app.selection() is Some,
        app.selection()->0@.action is FocusOrCreateDir,
        plan is Ok,
        plan->Ok_0.task@ == (OpenTaskView::Workspace { plan: Ok(steps) }),
        0 <= k < steps.len(),
        steps[k] is Create,
    ensures
        steps[k]->cwd == utf8_lossy(app.selection()->0.path@),
        app.config.picker.prefix_workspace_labels ==> steps[k]->label == "dir: "@
            + app.selection()->0.title@,
        !app.config.picker.prefix_workspace_labels ==> steps[k]->label == app.selection()->0.title@,
{
    let e = app.selection()->0@;
    law_a_directory_is_created_where_it_is(
        app,
        e.path_bytes,
        resolved,
        e.title,
        use_directory_template,
        steps,
        k,
    );
}

/// The steps that are planned for a directory create a workspace nowhere else than there, and put
/// tabs nowhere else.
pub proof fn law_planned_steps_stay_in_the_directory(
    app: App,
    path: Seq<u8>,
    resolved: Option<Seq<char>>,
    label: Seq<char>,
    use_directory_template: bool,
    plan: Result<Vec<Step>, String>,
    k: int,
)
    requires
        plan_view(plan) == app.dir_steps(path, resolved, label, use_directory_template),
        plan is Ok,
        0 <= k < plan->Ok_0@.len(),
    ensures
        plan->Ok_0@[k] matches Step::Create { cwd, label: shown, kind } ==> cwd@ == utf8_lossy(path)
            && kind == WorkspaceKind::Dir && (shown@ == label || shown@ == "dir: "@ + label),
        plan->Ok_0@[k] matches Step::AddTemplateTabs { dir } ==> dir@ == path,
        plan->Ok_0@[k] matches Step::AppendTemplateTabs { id, dir } ==> dir@ == path,
        plan->Ok_0@[k] !is AddProjectTabs,
{
    let steps = plan->Ok_0@;
    let seen = steps_view(steps);
    let planned = app.dir_steps(path, resolved, label, use_directory_template)->Ok_0;
    assert(planned == seen);
    assert(seen[k] == steps[k]@);
    assert(planned[k] == steps[k]@);
    if planned[k] is Create {
        law_a_directory_is_created_where_it_is(
            app,
            path,
            resolved,
            label,
            use_directory_template,
            planned,
            k,
        );
    } else if planned[k] is AddTemplateTabs {
        assert(planned[k]->AddTemplateTabs_dir == path);
    } else if planned[k] is AppendTemplateTabs {
        assert(planned[k]->AppendTemplateTabs_dir == path);
    }
}

/// Whenever opening a project plans to create a workspace, it is created in the project's directory
/// and for a project. Its label is the project's name, or the title where there is no project, with
/// `project: ` in front where that is asked for.
pub proof fn law_a_project_is_created_where_it_is(
    app: App,
    e: EntryView,
    steps: Seq<StepView>,
    k: int,
    name: Seq<char>,
)
    requires
        app.project_steps(e) == Ok::<Seq<StepView>, Seq<char>>(steps),
        0 <= k < steps.len(),
        steps[k] is Create,
        e.project is Some ==> name == e.project->0.name@,
        e.project is None ==> name == e.title,
    ensures
        steps[k]->cwd == e.path,
        steps[k]->kind == WorkspaceKind::Project,
        app.config.picker.prefix_workspace_labels ==> steps[k]->label == "project: "@ + name,
        !app.config.picker.prefix_workspace_labels ==> steps[k]->label == name,
{
    lemma_prefixes(name);
}

/// The label of a created workspace names its kind in front where that is known and asked for, and
/// else is the label.
pub proof fn law_labels_name_the_kind(kind: WorkspaceKind, label: Seq<char>, prefix: bool)
    ensures
        !prefix ==> created_label(kind, label, prefix) == label,
        kind == WorkspaceKind::Unknown ==> created_label(kind, label, prefix) == label,
        prefix && kind == WorkspaceKind::Dir ==> created_label(kind, label, prefix) == "dir: "@
            + label,
        prefix && kind == WorkspaceKind::Project ==> created_label(kind, label, prefix)
            == "project: "@ + label,
{
    lemma_prefixes(label);
}

/// The first workspace of a kind is the one before which none is of that kind.
pub proof fn law_first_of_kind_comes_first(list: Seq<WorkspaceRef>, kind: WorkspaceKind, i: int)
    requires
        0 <= i < list.len(),
        list[i].kind == kind,
        forall|j: int| 0 <= j < i ==> (#[trigger] list[j]).kind != kind,
    ensures
        first_of_kind(list, kind) == Some(list[i]),
    decreases list.len(),
{
    if i > 0 {
        let rest = list.drop_first();
        assert(list[0].kind != kind);
        assert forall|j: int| 0 <= j < i - 1 implies (#[trigger] rest[j]).kind != kind by {
            assert(rest[j] == list[j + 1]);
        }
        law_first_of_kind_comes_first(rest, kind, i - 1);
    }
}

proof fn lemma_none_of_kind(list: Seq<WorkspaceRef>, kind: WorkspaceKind)
    requires
        forall|j: int| 0 <= j < list.len() ==> (#[trigger] list[j]).kind != kind,
    ensures
        first_of_kind(list, kind) is None,
{
    law_first_of_kind(list, kind);
    if let Some(workspace) = first_of_kind(list, kind) {
        let j = choose|j: int| 0 <= j < list.len() && list[j] == workspace;
        assert(list[j].kind != kind);
    }
}

/// The open workspaces of a directory are those that are known for it, and a directory goes by its
/// resolved path where there is one.
pub proof fn law_open_workspaces_go_by_the_resolved_path(
    app: App,
    path: Seq<u8>,
    text: Seq<char>,
    key: Seq<char>,
)
    ensures
        dir_key(path, Some(text)) == text,
        dir_key(path, None) == utf8_lossy(path),
        app.path_to_workspaces@.dom().contains(key) ==> app.open_at(key)
            == app.path_to_workspaces@[key],
        !app.path_to_workspaces@.dom().contains(key) ==> app.open_at(key).len() == 0,
{
}

/// Opening a directory without a template: its first workspace that was created for a directory is
/// focused where workspaces are reused, and nothing else is done. Where there is none, or none is
/// reused, one is created, where that is allowed.
pub proof fn law_directories_are_reused_or_created(
    app: App,
    path: Seq<u8>,
    resolved: Option<Seq<char>>,
    label: Seq<char>,
    i: int,
)
    ensures
        ({
            let open = app.open_at(dir_key(path, resolved));
            app.config.picker.reuse_existing && 0 <= i < open.len() && open[i].kind
                == WorkspaceKind::Dir && (forall|j: int|
                0 <= j < i ==> (#[trigger] open[j]).kind != WorkspaceKind::Dir)
        }) ==> app.dir_steps(path, resolved, label, false) == Ok::<Seq<StepView>, Seq<char>>(
            seq![StepView::Focus { id: app.open_at(dir_key(path, resolved))[i].id@ }],
        ),
        !app.config.picker.reuse_existing || (forall|j: int|
            0 <= j < app.open_at(dir_key(path, resolved)).len() ==> (#[trigger] app.open_at(
                dir_key(path, resolved),
            )[j]).kind != WorkspaceKind::Dir) ==> {
            let plan = app.dir_steps(path, resolved, label, false);
            &&& app.config.picker.create_missing ==> plan is Ok && plan->Ok_0.len() == 1
                && plan->Ok_0[0] is Create
            &&& !app.config.picker.create_missing ==> plan == Err::<Seq<StepView>, Seq<char>>(
                "create_missing=false and no workspace exists"@,
            )
        },
{
    let open = app.open_at(dir_key(path, resolved));
    if 0 <= i < open.len() && open[i].kind == WorkspaceKind::Dir && (forall|j: int|
        0 <= j < i ==> (#[trigger] open[j]).kind != WorkspaceKind::Dir) {
        law_first_of_kind_comes_first(open, WorkspaceKind::Dir, i);
    }
    if forall|j: int| 0 <= j < open.len() ==> (#[trigger] open[j]).kind != WorkspaceKind::Dir {
        lemma_none_of_kind(open, WorkspaceKind::Dir);
    }
}

/// Opening a directory with the template: the template of the configured name is loaded first. It is
/// applied to a workspace that is open for the directory, one that was created for a directory before
/// others, or else to one that is created. Without a template that fails.
pub proof fn law_the_template_is_loaded_and_applied(
    app: App,
    path: Seq<u8>,
    resolved: Option<Seq<char>>,
    label: Seq<char>,
    i: int,
)
    ensures
        app.config.picker.directory_template is None ==> app.dir_steps(path, resolved, label, true)
            == Err::<Seq<StepView>, Seq<char>>("no directory_template configured"@),
        app.config.picker.directory_template is Some ==> {
            let plan = app.dir_steps(path, resolved, label, true);
            let open = app.open_at(dir_key(path, resolved));
            &&& plan is Ok
            &&& plan->Ok_0.len() == 3
            &&& plan->Ok_0[0] == (StepView::LoadTemplate {
                name: app.config.picker.directory_template->0@,
            })
            &&& open.len() == 0 ==> plan->Ok_0[1] is Create && plan->Ok_0[2] == (
            StepView::AddTemplateTabs { dir: path })
            &&& 0 <= i < open.len() && open[i].kind == WorkspaceKind::Dir && (forall|j: int|
                0 <= j < i ==> (#[trigger] open[j]).kind != WorkspaceKind::Dir) ==> plan->Ok_0[1]
                == (StepView::Focus { id: open[i].id@ }) && plan->Ok_0[2] == (
            StepView::AppendTemplateTabs { id: open[i].id@, dir: path })
            &&& open.len() > 0 && (forall|j: int|
                0 <= j < open.len() ==> (#[trigger] open[j]).kind != WorkspaceKind::Dir)
                ==> plan->Ok_0[1] == (StepView::Focus { id: open[0].id@ }) && plan->Ok_0[2] == (
            StepView::AppendTemplateTabs { id: open[0].id@, dir: path })
        },
{
    let open = app.open_at(dir_key(path, resolved));
    if 0 <= i < open.len() && open[i].kind == WorkspaceKind::Dir && (forall|j: int|
        0 <= j < i ==> (#[trigger] open[j]).kind != WorkspaceKind::Dir) {
        law_first_of_kind_comes_first(open, WorkspaceKind::Dir, i);
    }
    if forall|j: int| 0 <= j < open.len() ==> (#[trigger] open[j]).kind != WorkspaceKind::Dir {
        lemma_none_of_kind(open, WorkspaceKind::Dir);
    }
}

/// Opening a project: its first workspace that was created for a project is focused where workspaces
/// are reused. Else one is created where that is allowed, and the project's tabs are added to it in
/// the project's directory.
pub proof fn law_projects_are_reused_or_created(app: App, e: EntryView, i: int)
    ensures
        app.config.picker.reuse_existing && 0 <= i < app.open_at(e.key()).len() && app.open_at(
            e.key(),
        )[i].kind == WorkspaceKind::Project && (forall|j: int|
            0 <= j < i ==> (#[trigger] app.open_at(e.key())[j]).kind != WorkspaceKind::Project)
            ==> app.project_steps(e) == Ok::<Seq<StepView>, Seq<char>>(
            seq![StepView::Focus { id: app.open_at(e.key())[i].id@ }],
        ),
        !app.config.picker.reuse_existing || (forall|j: int|
            0 <= j < app.open_at(e.key()).len() ==> (#[trigger] app.open_at(e.key())[j]).kind
                != WorkspaceKind::Project) ==> {
            let plan = app.project_steps(e);
            &&& !app.config.picker.create_missing ==> plan == Err::<Seq<StepView>, Seq<char>>(
                "create_missing=false and no workspace exists"@,
            )
            &&& app.config.picker.create_missing ==> plan is Ok && plan->Ok_0.len() > 0
                && plan->Ok_0[0] is Create
            &&& app.config.picker.create_missing && e.project is None ==> plan->Ok_0.len() == 1
            &&& app.config.picker.create_missing && e.project is Some ==> plan->Ok_0.len() == 2
                && plan->Ok_0[1] == (StepView::AddProjectTabs { dir: e.path_bytes })
        },
{
    let open = app.open_at(e.key());
    if 0 <= i < open.len() && open[i].kind == WorkspaceKind::Project && (forall|j: int|
        0 <= j < i ==> (#[trigger] open[j]).kind != WorkspaceKind::Project) {
        law_first_of_kind_comes_first(open, WorkspaceKind::Project, i);
    }
    if forall|j: int| 0 <= j < open.len() ==> (#[trigger] open[j]).kind != WorkspaceKind::Project {
        lemma_none_of_kind(open, WorkspaceKind::Project);
    }
}

/// What Herdr is called with for a step: to focus a workspace by its identifier, or to create and
/// focus one in a directory with a label. Other steps are no calls of it.
pub proof fn law_steps_call_herdr(
    id: Seq<char>,
    cwd: Seq<char>,
    label: Seq<char>,
    kind: WorkspaceKind,
    dir: Seq<u8>,
)
    ensures
        (StepView::Focus { id }).args() == Some(seq!["workspace"@, "focus"@, id]),
        (StepView::Create { cwd, label, kind }).args() == Some(
            seq!["workspace"@, "create"@, "--cwd"@, cwd, "--label"@, label, "--focus"@],
        ),
        (StepView::LoadTemplate { name: id }).args() is None,
        (StepView::AddProjectTabs { dir }).args() is None,
        (StepView::AddTemplateTabs { dir }).args() is None,
        (StepView::AppendTemplateTabs { id, dir }).args() is None,
{
}

/// How the selected entry is opened goes by its action: agents, workspaces, tabs and panes are
/// focused by their own identifiers, plugin actions invoked by their own name, and so on. The plan
/// has the entry's title.
pub proof fn law_opening_goes_by_the_action(
    app: App,
    resolved: Option<Seq<char>>,
    use_directory_template: bool,
    plan: Result<OpenPlan, String>,
    text: Seq<char>,
    remote: Option<Seq<char>>,
)
    requires
        app.plans_opening(resolved, use_directory_template, plan),
    ensures
        app.selection() is None ==> plan is Err && plan->Err_0@ == "nothing selected"@,
        app.selection() is Some ==> {
            let action = app.selection()->0@.action;
            &&& plan is Ok
            &&& plan->Ok_0.title@ == app.selection()->0.title@
            &&& action == (ActionView::FocusAgent { target: text }) ==> plan->Ok_0.task@ == (
            OpenTaskView::Herdr { args: seq!["agent"@, "focus"@, text] })
            &&& action == (ActionView::FocusWorkspace { id: text }) ==> plan->Ok_0.task@ == (
            OpenTaskView::Herdr { args: seq!["workspace"@, "focus"@, text] })
            &&& action == (ActionView::FocusTab { id: text }) ==> plan->Ok_0.task@ == (
            OpenTaskView::Herdr { args: seq!["tab"@, "focus"@, text] })
            &&& action == (ActionView::FocusPane { id: text }) ==> plan->Ok_0.task@ == (
            OpenTaskView::Herdr { args: seq!["pane"@, "focus"@, text] })
            &&& action == (ActionView::InvokePluginAction { action: text }) ==> plan->Ok_0.task@ == (
            OpenTaskView::Herdr { args: seq!["plugin"@, "action"@, "invoke"@, text] })
            &&& action == (ActionView::OpenRemote { target: text }) ==> plan->Ok_0.task@ == (
            OpenTaskView::Remote { target: text })
            &&& action == (ActionView::AttachSession { name: text, remote }) ==> plan->Ok_0.task@
                == (OpenTaskView::Session { name: text })
            &&& action is RunCommand ==> plan->Ok_0.task@ == (OpenTaskView::Command {
                command: action->command,
            })
            &&& action is OpenProject ==> plan->Ok_0.task@ == (OpenTaskView::Workspace {
                plan: app.project_steps(app.selection()->0@),
            })
            &&& action is FocusOrCreateDir ==> plan->Ok_0.task@ == (OpenTaskView::Workspace {
                plan: app.dir_steps(
                    app.selection()->0.path@,
                    resolved,
                    app.selection()->0.title@,
                    use_directory_template,
                ),
            })
        },
{
}

/// Leaving a workspace is remembered where jumping back is enabled and the entry leads to another
/// one. Commands tell what they are set to tell; going to another host or session tells nothing when
/// it went well.
pub proof fn law_what_opening_remembers_and_tells(
    app: App,
    resolved: Option<Seq<char>>,
    use_directory_template: bool,
    plan: Result<OpenPlan, String>,
)
    requires
        app.plans_opening(resolved, use_directory_template, plan),
        app.selection() is Some,
    ensures
        ({
            let action = app.selection()->0@.action;
            &&& plan is Ok
            &&& !app.config.jump_back.enabled ==> !plan->Ok_0.tracks_workspace_transition
            &&& action is OpenRemote || action is AttachSession || action is InvokePluginAction
                || action is RunCommand ==> !plan->Ok_0.tracks_workspace_transition
            &&& app.config.jump_back.enabled && (action is FocusAgent || action is FocusWorkspace
                || action is FocusTab || action is FocusPane || action is OpenProject
                || action is FocusOrCreateDir) ==> plan->Ok_0.tracks_workspace_transition
            &&& action is RunCommand ==> plan->Ok_0.notify_success == action->notify_success
                && plan->Ok_0.notify_failure == action->notify_error
            &&& action is OpenRemote || action is AttachSession ==> !plan->Ok_0.notify_success
            &&& action !is RunCommand ==> plan->Ok_0.notify_failure
            &&& action !is RunCommand && action !is OpenRemote && action !is AttachSession
                ==> plan->Ok_0.notify_success
        }),
{
}

/// What follows from opening: the result itself; the workspace that was left is remembered exactly
/// where opening went well, is to be remembered, and led to another one; and the notice names the
/// title.
pub proof fn law_what_follows_from_opening(
    plan: OpenPlan,
    result: Result<(), String>,
    origin: Option<Seq<char>>,
    destination: Option<Seq<char>>,
    outcome: OpenOutcome,
)
    requires
        plan.comes_to(result, origin, destination, outcome),
    ensures
        outcome.result == result,
        outcome.previous is Some <==> result is Ok && plan.tracks_workspace_transition
            && origin is Some && destination is Some && origin != destination,
        outcome.previous is Some ==> outcome.previous->0@ == origin->0,
        outcome.notice is Some <==> (result is Ok && plan.notify_success) || (result is Err
            && plan.notify_failure),
        result is Ok && plan.notify_success ==> outcome.notice->0@ == (NoticeView::Done {
            message: "Opened "@ + plan.title@,
        }),
        result is Err && plan.notify_failure ==> outcome.notice->0@ == (NoticeView::Error {
            message: "Failed "@ + plan.title@ + ": "@ + trimmed(result->Err_0@),
        }),
{
}

/// What closing an entry closes: the workspace that a workspace or an agent names, or else the first
/// open one that was created for the project or the directory. Other entries close nothing.
pub proof fn law_closing_goes_by_the_source(app: App, e: EntryView, i: int)
    ensures
        e.source == Source::Workspace || e.source == Source::Agent ==> app.to_close(e)
            == e.workspace_id,
        e.source == Source::Project && 0 <= i < app.open_at(e.key()).len() && app.open_at(
            e.key(),
        )[i].kind == WorkspaceKind::Project && (forall|j: int|
            0 <= j < i ==> (#[trigger] app.open_at(e.key())[j]).kind != WorkspaceKind::Project)
            ==> app.to_close(e) == Some(app.open_at(e.key())[i].id@),
        (e.source == Source::Zoxide || e.source == Source::Root) && 0 <= i < app.open_at(
            e.key(),
        ).len() && app.open_at(e.key())[i].kind == WorkspaceKind::Dir && (forall|j: int|
            0 <= j < i ==> (#[trigger] app.open_at(e.key())[j]).kind != WorkspaceKind::Dir)
            ==> app.to_close(e) == Some(app.open_at(e.key())[i].id@),
        e.source == Source::Project && (forall|j: int|
            0 <= j < app.open_at(e.key()).len() ==> (#[trigger] app.open_at(e.key())[j]).kind
                != WorkspaceKind::Project) ==> app.to_close(e) is None,
        (e.source == Source::Zoxide || e.source == Source::Root) && (forall|j: int|
            0 <= j < app.open_at(e.key()).len() ==> (#[trigger] app.open_at(e.key())[j]).kind
                != WorkspaceKind::Dir) ==> app.to_close(e) is None,
        e.source == Source::Server || e.source == Source::Session || e.source
            == Source::QuickAction || e.source == Source::Integration || e.source == Source::Tab
            || e.source == Source::Pane ==> app.to_close(e) is None,
{
    let open = app.open_at(e.key());
    let kind = if e.source == Source::Project {
        WorkspaceKind::Project
    } else {
        WorkspaceKind::Dir
    };
    if 0 <= i < open.len() && open[i].kind == kind && (forall|j: int|
        0 <= j < i ==> (#[trigger] open[j]).kind != kind) {
        law_first_of_kind_comes_first(open, kind, i);
    }
    if forall|j: int| 0 <= j < open.len() ==> (#[trigger] open[j]).kind != kind {
        lemma_none_of_kind(open, kind);
    }
}

/// A plan to close closes the workspace of the selected entry, never the one that the picker was
/// opened in, and goes back to that one. It is refused exactly where nothing is selected, the entry
/// has no open workspace, or it is the picker's own.
pub proof fn law_closing_returns_to_the_origin(
    app: App,
    origin: Option<Seq<char>>,
    plan: Result<ClosePlan, String>,
)
    requires
        app.plans_closing(origin, plan),
    ensures
        plan is Ok <==> app.selection() is Some && app.to_close(app.selection()->0@) is Some
            && app.to_close(app.selection()->0@) != origin,
        plan is Ok ==> {
            &&& Some(plan->Ok_0.id@) == app.to_close(app.selection()->0@)
            &&& Some(plan->Ok_0.id@) != origin
            &&& plan->Ok_0.title@ == app.selection()->0.title@
            &&& content(plan->Ok_0.restore) == origin
        },
        app.selection() is None ==> plan->Err_0@ == "nothing selected"@,
        app.selection() is Some && app.to_close(app.selection()->0@) is None ==> plan->Err_0@
            == "no open workspace for selected item"@,
        app.selection() is Some && app.to_close(app.selection()->0@) is Some && app.to_close(
            app.selection()->0@,
        ) == origin ==> plan->Err_0@
            == "can't close the workspace that owns this picker; switch away first"@,
{
}

/// A template is offered exactly where one is configured, with more than white space, and a directory
/// is selected: the configured one, trimmed.
pub proof fn law_templates_are_offered_for_directories(app: App)
    ensures
        app.offered_template() is Some <==> app.config.picker.directory_template is Some && trimmed(
            app.config.picker.directory_template->0@,
        ).len() > 0 && app.selection() is Some && app.selection()->0@.action is FocusOrCreateDir,
        app.offered_template() is Some ==> app.offered_template()->0 == trimmed(
            app.config.picker.directory_template->0@,
        ),
{
}

/// A first focused workspace is listed and focused, with none focused before it.
pub proof fn law_the_focused_workspace_is_the_first(workspaces: Seq<DataView>, i: int)
    ensures
        0 <= i < workspaces.len() && workspaces[i].member_true("focused"@) && (forall|j: int|
            0 <= j < i ==> !(#[trigger] workspaces[j]).member_true("focused"@)) ==> first_focused(
            workspaces,
        ) == workspaces[i].member_text("workspace_id"@),
        (forall|j: int|
            0 <= j < workspaces.len() ==> !(#[trigger] workspaces[j]).member_true("focused"@))
            ==> first_focused(workspaces) is None,
    decreases workspaces.len(),
{
    if workspaces.len() > 0 && !workspaces[0].member_true("focused"@) {
        let rest = workspaces.drop_first();
        assert(forall|j: int| 0 <= j < rest.len() ==> #[trigger] rest[j] == workspaces[j + 1]);
        law_the_focused_workspace_is_the_first(rest, i - 1);
    }
}

/// The label of a workspace is that of the first one listed with its identifier.
pub proof fn law_the_label_is_that_of_the_workspace(
    workspaces: Seq<DataView>,
    id: Seq<char>,
    i: int,
)
    ensures
        0 <= i < workspaces.len() && workspaces[i].member_text("workspace_id"@) == Some(id) && (
        forall|j: int|
            0 <= j < i ==> (#[trigger] workspaces[j]).member_text("workspace_id"@) != Some(id))
            ==> first_label(workspaces, id) == workspaces[i].member_text("label"@),
        (forall|j: int|
            0 <= j < workspaces.len() ==> (#[trigger] workspaces[j]).member_text("workspace_id"@)
                != Some(id)) ==> first_label(workspaces, id) is None,
    decreases workspaces.len(),
{
    if workspaces.len() > 0 && workspaces[0].member_text("workspace_id"@) != Some(id) {
        let rest = workspaces.drop_first();
        assert(forall|j: int| 0 <= j < rest.len() ==> #[trigger] rest[j] == workspaces[j + 1]);
        law_the_label_is_that_of_the_workspace(rest, id, i - 1);
    }
}

/// What is read of a reply stands where Herdr puts it: the lists of workspaces in its result, and a
/// created workspace there too. A context names a workspace where its identifier is not empty.
pub proof fn law_replies_name_workspaces(
    reply: DataView,
    workspaces: Seq<DataView>,
    id: Seq<char>,
    result: DataView,
    workspace: DataView,
)
    ensures
        reply.result_list("workspaces"@) == Some(workspaces) ==> focused_in(reply) == first_focused(
            workspaces,
        ) && label_in(reply, id) == first_label(workspaces, id),
        reply.result_list("workspaces"@) is None ==> focused_in(reply) is None && label_in(
            reply,
            id,
        ) is None,
        reply.member("result"@) == Some(result) && result.member("workspace"@) == Some(workspace)
            ==> created_in(reply) == workspace.member_text("workspace_id"@),
        created_in(reply) is Some ==> reply.member("result"@) is Some && reply.member(
            "result"@,
        )->0.member("workspace"@) is Some,
        launch_id(None) is None,
        launch_id(Some(reply)) == Some(id) <==> reply.member_text("workspace_id"@) == Some(id)
            && id.len() > 0,
        reply.member_text("workspace_id"@) is None ==> launch_id(Some(reply)) is None,
{
}

/// Jumping back focuses the stored workspace exactly where it is enabled, the stored one is listed
/// with a label, and another one is focused; the one that is left is the focused one.
pub proof fn law_jumping_back_focuses_the_stored_workspace(
    enabled: bool,
    workspaces: Data,
    previous: String,
    current: Seq<char>,
    label: Seq<char>,
)
    ensures
        enabled && focused_in(workspaces@) == Some(current) && previous@ != current && label_in(
            workspaces@,
            previous@,
        ) == Some(label) ==> jump_step(enabled, Some(Ok(workspaces)), Some(Ok(previous))) == (
        JumpView::Focus { previous: previous@, current, label }),
        jump_step(enabled, Some(Ok(workspaces)), Some(Ok(previous))) is Focus ==> {
            let step = jump_step(enabled, Some(Ok(workspaces)), Some(Ok(previous)));
            &&& enabled
            &&& step->previous == previous@
            &&& step->previous != step->current
            &&& focused_in(workspaces@) == Some(step->current)
            &&& label_in(workspaces@, previous@) == Some(step->label)
            &&& step.args() == Some(seq!["workspace"@, "focus"@, previous@])
        },
        enabled && focused_in(workspaces@) == Some(current) && previous@ != current && label_in(
            workspaces@,
            previous@,
        ) is None ==> jump_step(enabled, Some(Ok(workspaces)), Some(Ok(previous))) == (
        JumpView::Forget { message: "previous workspace no longer exists"@ }),
        enabled && focused_in(workspaces@) == Some(previous@) ==> jump_step(
            enabled,
            Some(Ok(workspaces)),
            Some(Ok(previous)),
        ) == (JumpView::Fail { message: "no previous workspace yet"@ }),
{
}

/// What jumping back does before it knows enough, and where it fails.
pub proof fn law_jumping_back_asks_in_turn(
    enabled: bool,
    workspaces: Data,
    reply: Option<Result<Data, String>>,
    previous: Option<Result<String, String>>,
    error: String,
)
    ensures
        !enabled ==> jump_step(enabled, reply, previous) == (JumpView::Fail {
            message: "jump back is disabled in config"@,
        }),
        enabled ==> jump_step(enabled, None, previous) == JumpView::ListWorkspaces,
        enabled ==> jump_step(enabled, Some(Err(error)), previous) == (JumpView::Fail {
            message: error@,
        }),
        enabled && focused_in(workspaces@) is None ==> jump_step(
            enabled,
            Some(Ok(workspaces)),
            previous,
        ) == (JumpView::Fail { message: "can't determine the current workspace"@ }),
        enabled && focused_in(workspaces@) is Some ==> jump_step(
            enabled,
            Some(Ok(workspaces)),
            None,
        ) == JumpView::ReadPrevious,
        enabled && focused_in(workspaces@) is Some ==> jump_step(
            enabled,
            Some(Ok(workspaces)),
            Some(Err(error)),
        ) == (JumpView::Fail { message: error@ }),
        JumpView::ListWorkspaces.args() == Some(seq!["workspace"@, "list"@]),
        JumpView::ReadPrevious.args() is None,
{
}

} // verus!
