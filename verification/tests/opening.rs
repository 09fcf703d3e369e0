//! Opening, closing and jumping between workspaces.

use herdr_navigator::app::App;
use herdr_navigator::config::Config;
use herdr_navigator::data::Data;
use herdr_navigator::file_path::FilePath;
use herdr_navigator::model::{Entry, EntryAction, Project, Source, WorkspaceKind, WorkspaceRef};
use herdr_navigator::open::{Notice, OpenPlan, OpenTask, Step};
use herdr_navigator::workspaces::{
    current_workspace_id, jump_back, launch_workspace_id, launch_workspace_in,
    read_previous_workspace, record_created_workspace, JumpStep, ReadFailure,
};

fn entry(source: Source, path: &str, title: &str, action: EntryAction) -> Entry {
    Entry {
        source,
        title: title.into(),
        subtitle: String::new(),
        path: FilePath::from_text(path),
        workspace_id: None,
        workspace_label: None,
        agent_target: None,
        project: None,
        action,
        source_label: None,
        search_terms: vec![],
        parent_id: None,
        canonical: None,
    }
}

fn workspace(id: &str, kind: WorkspaceKind) -> WorkspaceRef {
    WorkspaceRef {
        id: id.into(),
        label: id.into(),
        kind,
        path: FilePath::from_text("/tmp"),
        tab_count: 1,
        pane_count: 1,
    }
}

fn app_with(entries: Vec<Entry>) -> App {
    let mut app = App::new(Config::default());
    app.entries = entries;
    app.apply_filter();
    app
}

fn open(app: &App, use_directory_template: bool) -> OpenPlan {
    app.open_selected(None, use_directory_template).unwrap()
}

fn args_of(step: &Step) -> Vec<String> {
    step.herdr_args().unwrap()
}

fn steps_of(plan: OpenPlan) -> Result<Vec<Step>, String> {
    match plan.task {
        OpenTask::Workspace { plan } => plan,
        other => panic!("unexpected task {other:?}"),
    }
}

fn herdr_args_of(plan: OpenPlan) -> Vec<String> {
    match plan.task {
        OpenTask::Herdr { args } => args,
        other => panic!("unexpected task {other:?}"),
    }
}

fn message(notice: Option<Notice>) -> String {
    match notice {
        Some(Notice::Done { message }) => format!("done: {message}"),
        Some(Notice::Error { message }) => format!("error: {message}"),
        None => String::new(),
    }
}

#[test]
fn nothing_selected_cannot_be_opened_or_closed() {
    let app = App::new(Config::default());
    assert_eq!(app.open_selected(None, false).unwrap_err(), "nothing selected");
    assert_eq!(
        app.close_selected_workspace(None).unwrap_err(),
        "nothing selected"
    );
}

#[test]
fn targets_are_focused_by_herdr() {
    let focus = |action| {
        let app = app_with(vec![entry(Source::Root, "/", "x", action)]);
        herdr_args_of(open(&app, false))
    };
    assert_eq!(
        focus(EntryAction::FocusAgent { target: "t1".into() }),
        ["agent", "focus", "t1"]
    );
    assert_eq!(
        focus(EntryAction::FocusWorkspace { id: "w1".into() }),
        ["workspace", "focus", "w1"]
    );
    assert_eq!(
        focus(EntryAction::FocusTab { id: "t1".into() }),
        ["tab", "focus", "t1"]
    );
    assert_eq!(
        focus(EntryAction::FocusPane { id: "p1".into() }),
        ["pane", "focus", "p1"]
    );
    assert_eq!(
        focus(EntryAction::InvokePluginAction { action: "a1".into() }),
        ["plugin", "action", "invoke", "a1"]
    );
}

#[test]
fn remotes_sessions_and_commands_are_opened_by_name() {
    let task = |action| open(&app_with(vec![entry(Source::Server, "/", "x", action)]), false);
    let remote = task(EntryAction::OpenRemote { target: "host".into() });
    assert!(matches!(&remote.task, OpenTask::Remote { target } if target == "host"));
    assert!(!remote.tracks_workspace_transition);
    assert!(!remote.notify_success && remote.notify_failure);
    let session = task(EntryAction::AttachSession {
        name: "main".into(),
        remote: None,
    });
    assert!(matches!(&session.task, OpenTask::Session { name } if name == "main"));
    assert!(!session.notify_success && session.notify_failure);
    let command = task(EntryAction::RunCommand {
        command: "make".into(),
        notify_success: true,
        notify_error: false,
    });
    assert!(matches!(&command.task, OpenTask::Command { command } if command == "make"));
    assert!(command.notify_success && !command.notify_failure);
}

#[test]
fn projects_reuse_their_workspace_or_create_one_with_their_tabs() {
    let mut project = entry(Source::Project, "/tmp", "shown", EntryAction::OpenProject);
    project.project = Some(Project {
        name: "tmp".into(),
        description: String::new(),
        working_dir: "/tmp".into(),
        tabs: vec!["one".into()],
    });
    let mut app = app_with(vec![project]);

    let steps = steps_of(open(&app, false)).unwrap();
    assert_eq!(
        args_of(&steps[0]),
        [
            "workspace", "create", "--cwd", "/tmp", "--label", "project: tmp", "--focus"
        ]
    );
    assert!(matches!(&steps[1], Step::AddProjectTabs { dir } if dir.shown() == "/tmp"));
    assert!(steps[1].herdr_args().is_none());
    assert_eq!(steps.len(), 2);

    app.path_to_workspaces
        .insert("/tmp".into(), vec![workspace("w2", WorkspaceKind::Dir)]);
    app.config.picker.create_missing = false;
    assert_eq!(
        steps_of(open(&app, false)).unwrap_err(),
        "create_missing=false and no workspace exists"
    );

    app.path_to_workspaces
        .insert("/tmp".into(), vec![workspace("w1", WorkspaceKind::Project)]);
    let steps = steps_of(open(&app, false)).unwrap();
    assert_eq!(steps.len(), 1);
    assert_eq!(args_of(&steps[0]), ["workspace", "focus", "w1"]);

    app.config.picker.reuse_existing = false;
    assert!(steps_of(open(&app, false)).is_err());
}

#[test]
fn a_project_entry_without_a_project_goes_by_its_title() {
    let app = app_with(vec![entry(
        Source::Project,
        "/tmp",
        "shown",
        EntryAction::OpenProject,
    )]);
    let steps = steps_of(open(&app, false)).unwrap();
    assert_eq!(steps.len(), 1);
    assert_eq!(args_of(&steps[0])[5], "project: shown");
}

#[test]
fn directories_reuse_their_workspace_or_create_one() {
    let mut app = app_with(vec![entry(
        Source::Zoxide,
        "/tmp",
        "tmp",
        EntryAction::FocusOrCreateDir,
    )]);
    let steps = steps_of(open(&app, false)).unwrap();
    assert_eq!(steps.len(), 1);
    assert_eq!(args_of(&steps[0])[5], "dir: tmp");

    app.path_to_workspaces
        .insert("/real".into(), vec![workspace("w2", WorkspaceKind::Dir)]);
    let plan = app.open_selected(Some("/real"), false).unwrap();
    let steps = steps_of(plan).unwrap();
    assert_eq!(args_of(&steps[0]), ["workspace", "focus", "w2"]);

    app.config.picker.create_missing = false;
    assert_eq!(
        app.focus_or_create_dir(&FilePath::from_text("/tmp"), None, "tmp", false)
            .unwrap_err(),
        "create_missing=false and no workspace exists"
    );
}

#[test]
fn templates_are_loaded_before_anything_else_is_done() {
    let mut app = app_with(vec![entry(
        Source::Zoxide,
        "/tmp",
        "tmp",
        EntryAction::FocusOrCreateDir,
    )]);
    assert_eq!(
        steps_of(open(&app, true)).unwrap_err(),
        "no directory_template configured"
    );

    app.config.picker.directory_template = Some("default.toml".into());
    app.config.picker.create_missing = false;
    let steps = steps_of(open(&app, true)).unwrap();
    assert!(matches!(&steps[0], Step::LoadTemplate { name } if name == "default.toml"));
    assert!(matches!(&steps[1], Step::Create { kind: WorkspaceKind::Dir, .. }));
    assert!(matches!(&steps[2], Step::AddTemplateTabs { dir } if dir.shown() == "/tmp"));

    app.path_to_workspaces
        .insert("/tmp".into(), vec![workspace("w1", WorkspaceKind::Project)]);
    let steps = steps_of(open(&app, true)).unwrap();
    assert!(matches!(&steps[0], Step::LoadTemplate { .. }));
    assert_eq!(args_of(&steps[1]), ["workspace", "focus", "w1"]);
    assert!(
        matches!(&steps[2], Step::AppendTemplateTabs { id, dir } if id == "w1" && dir.shown() == "/tmp")
    );
}

#[test]
fn templates_are_offered_for_directories_only() {
    let mut app = app_with(vec![entry(
        Source::Workspace,
        "/tmp",
        "tmp",
        EntryAction::FocusWorkspace { id: "w1".into() },
    )]);
    app.config.picker.directory_template = Some("default.toml".into());
    assert_eq!(app.directory_template_for_selected(), None);
    app.entries[0].action = EntryAction::FocusOrCreateDir;
    app.config.picker.directory_template = Some("  ".into());
    assert_eq!(app.directory_template_for_selected(), None);
    app.config.picker.directory_template = Some(" default.toml ".into());
    assert_eq!(app.directory_template_for_selected(), Some("default.toml"));
}

#[test]
fn opening_tells_how_it_went_and_remembers_where_it_left() {
    let mut app = app_with(vec![entry(
        Source::Workspace,
        "/tmp",
        "tmp",
        EntryAction::FocusWorkspace { id: "w2".into() },
    )]);
    let plan = open(&app, false);
    assert!(plan.tracks_workspace_transition);
    assert_eq!(plan.origin(Some("w1"), Some("w3")), Some("w1"));
    assert_eq!(plan.origin(None, Some("w3")), Some("w3"));

    let done = plan.outcome(Ok(()), Some("w1"), Some("w2"));
    assert_eq!(done.previous, Some("w1".into()));
    assert_eq!(message(done.notice), "done: Opened tmp");
    assert_eq!(done.result, Ok(()));

    let stayed = plan.outcome(Ok(()), Some("w2"), Some("w2"));
    assert_eq!(stayed.previous, None);

    let failed = plan.outcome(Err(" boom\n".into()), Some("w1"), Some("w2"));
    assert_eq!(failed.previous, None);
    assert_eq!(message(failed.notice), "error: Failed tmp: boom");
    assert_eq!(failed.result, Err(" boom\n".into()));

    app.config.jump_back.enabled = false;
    let plan = open(&app, false);
    assert!(!plan.tracks_workspace_transition);
    assert_eq!(plan.origin(Some("w1"), Some("w3")), None);
}

#[test]
fn commands_can_keep_quiet() {
    let app = app_with(vec![entry(
        Source::Integration,
        "/",
        "x",
        EntryAction::RunCommand {
            command: "make".into(),
            notify_success: false,
            notify_error: false,
        },
    )]);
    let plan = open(&app, false);
    assert!(plan.outcome(Ok(()), None, None).notice.is_none());
    assert!(plan.outcome(Err("e".into()), None, None).notice.is_none());
}

#[test]
fn workspaces_are_closed_and_the_origin_is_focused_again() {
    let mut selected = entry(
        Source::Workspace,
        "/tmp",
        "tmp",
        EntryAction::FocusWorkspace { id: "w2".into() },
    );
    selected.workspace_id = Some("w2".into());
    let app = app_with(vec![selected]);

    let plan = app.close_selected_workspace(Some("w1")).unwrap();
    assert_eq!(plan.herdr_args(), ["workspace", "close", "w2"]);
    assert_eq!(plan.restore_args().unwrap(), ["workspace", "focus", "w1"]);
    assert_eq!(message(Some(plan.notice(&Ok(())))), "done: Closed tmp");
    assert_eq!(
        message(Some(plan.notice(&Err("gone".into())))),
        "error: Closed tmp, but failed to restore focus: gone"
    );

    assert!(app
        .close_selected_workspace(None)
        .unwrap()
        .restore_args()
        .is_none());
    assert_eq!(
        app.close_selected_workspace(Some("w2")).unwrap_err(),
        "can't close the workspace that owns this picker; switch away first"
    );
}

#[test]
fn what_has_no_workspace_cannot_be_closed() {
    let app = app_with(vec![entry(
        Source::Session,
        "/tmp",
        "tmp",
        EntryAction::AttachSession {
            name: "s".into(),
            remote: None,
        },
    )]);
    assert_eq!(
        app.close_selected_workspace(None).unwrap_err(),
        "no open workspace for selected item"
    );
    assert!(app.workspaces_for_entry(&app.entries[0]).is_empty());
}

fn workspace_list(focused: &str) -> Data {
    let item = |id: &str, label: &str| {
        format!(
            r#"{{"workspace_id": "{id}", "label": "{label}", "focused": {}}}"#,
            id == focused
        )
    };
    Data::from_json(&format!(
        r#"{{"result": {{"workspaces": [{}, {}]}}}}"#,
        item("w1", "one"),
        item("w2", "two")
    ))
    .unwrap()
}

#[test]
fn jumping_back_asks_for_what_it_needs_in_turn() {
    let config = Config::default();
    let first = jump_back(&config, &None, &None);
    assert!(matches!(first, JumpStep::ListWorkspaces));
    assert_eq!(first.herdr_args().unwrap(), ["workspace", "list"]);
    let list = Some(Ok(workspace_list("w2")));
    let second = jump_back(&config, &list, &None);
    assert!(matches!(second, JumpStep::ReadPrevious));
    assert!(second.herdr_args().is_none());
    let third = jump_back(&config, &list, &Some(Ok("w1".into())));
    assert_eq!(third.herdr_args().unwrap(), ["workspace", "focus", "w1"]);
    match third {
        JumpStep::Focus {
            previous,
            current,
            label,
        } => assert_eq!((previous, current, label), ("w1".into(), "w2".into(), "one".into())),
        other => panic!("unexpected step {other:?}"),
    }
}

#[test]
fn jumping_back_twice_returns() {
    let config = Config::default();
    let first = jump_back(&config, &Some(Ok(workspace_list("w2"))), &Some(Ok("w1".into())));
    let JumpStep::Focus {
        previous, current, ..
    } = first
    else {
        panic!("no jump");
    };
    let second = jump_back(&config, &Some(Ok(workspace_list(&previous))), &Some(Ok(current)));
    assert!(matches!(
        second,
        JumpStep::Focus { previous, current, label }
            if previous == "w2" && current == "w1" && label == "two"
    ));
}

#[test]
fn jumping_back_says_why_it_cannot() {
    let fail = |config: &Config,
                list: Option<Result<Data, String>>,
                previous: Option<Result<String, String>>| {
        match jump_back(config, &list, &previous) {
            JumpStep::Fail { message } => message,
            other => panic!("unexpected step {other:?}"),
        }
    };
    let mut config = Config::default();
    assert_eq!(fail(&config, Some(Err("down".into())), None), "down");
    assert_eq!(
        fail(&config, Some(Ok(Data::Null)), None),
        "can't determine the current workspace"
    );
    let list = || Some(Ok(workspace_list("w2")));
    assert_eq!(fail(&config, list(), Some(Err("unread".into()))), "unread");
    assert_eq!(
        fail(&config, list(), Some(Ok("w2".into()))),
        "no previous workspace yet"
    );
    match jump_back(&config, &list(), &Some(Ok("w9".into()))) {
        JumpStep::Forget { message } => {
            assert_eq!(message, "previous workspace no longer exists")
        }
        other => panic!("unexpected step {other:?}"),
    }
    config.jump_back.enabled = false;
    assert_eq!(
        fail(&config, list(), Some(Ok("w1".into()))),
        "jump back is disabled in config"
    );
}

#[test]
fn the_current_workspace_is_the_focused_one() {
    assert_eq!(
        current_workspace_id(&Ok(workspace_list("w2"))),
        Ok("w2".into())
    );
    assert_eq!(
        current_workspace_id(&Ok(workspace_list("none"))),
        Err("can't determine the current workspace".into())
    );
    assert_eq!(current_workspace_id(&Err("down".into())), Err("down".into()));
}

#[test]
fn the_launching_workspace_is_read_from_the_context() {
    assert_eq!(
        launch_workspace_id(Some(r#"{"workspace_id": "w1"}"#)),
        Some("w1".into())
    );
    assert_eq!(launch_workspace_id(Some(r#"{"workspace_id": ""}"#)), None);
    assert_eq!(launch_workspace_id(Some(r#"{"workspace_id": 3}"#)), None);
    assert_eq!(launch_workspace_id(Some("not json")), None);
    assert_eq!(launch_workspace_id(None), None);
    assert_eq!(launch_workspace_in(&None), None);
}

#[test]
fn the_previous_workspace_is_read_from_its_file() {
    assert_eq!(
        read_previous_workspace(&Ok(" w1\n".into())),
        Ok("w1".into())
    );
    assert_eq!(
        read_previous_workspace(&Ok(" \n".into())),
        Err("no previous workspace yet".into())
    );
    assert_eq!(
        read_previous_workspace(&Err(ReadFailure::NotFound)),
        Err("no previous workspace yet".into())
    );
    assert_eq!(
        read_previous_workspace(&Err(ReadFailure::Other {
            message: "denied".into()
        })),
        Err("failed to read jump-back state: denied".into())
    );
}

#[test]
fn created_workspaces_are_remembered_by_their_kind() {
    let reply = Data::from_json(r#"{"result": {"workspace": {"workspace_id": "w42"}}}"#).unwrap();
    assert_eq!(
        record_created_workspace(&reply, WorkspaceKind::Dir),
        Some(("w42".into(), WorkspaceKind::Dir))
    );
    assert_eq!(
        record_created_workspace(&Data::Null, WorkspaceKind::Dir),
        None
    );
}

#[test]
fn directories_that_no_text_spells_are_opened_by_their_bytes() {
    let mut app = app_with(vec![entry(
        Source::Zoxide,
        "",
        "odd",
        EntryAction::FocusOrCreateDir,
    )]);
    app.entries[0].path = FilePath::from_bytes(b"/a\xff".to_vec());
    app.config.picker.directory_template = Some("default.toml".into());
    let steps = steps_of(open(&app, true)).unwrap();
    assert_eq!(args_of(&steps[1])[3], "/a\u{fffd}");
    assert!(matches!(&steps[2], Step::AddTemplateTabs { dir } if dir.bytes() == b"/a\xff"));
}
