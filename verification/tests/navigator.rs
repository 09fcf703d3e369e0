//! The list, the tree, pins and workspaces.

use herdr_navigator::app::App;
use herdr_navigator::config::Config;
use herdr_navigator::data::Data;
use herdr_navigator::file_path::FilePath;
use herdr_navigator::keys::{pin_key, push_unique};
use herdr_navigator::model::{Entry, EntryAction, Project, Source, WorkspaceKind, WorkspaceRef};
use herdr_navigator::panel::agent_sort;
use herdr_navigator::pins::{read_pinned_entries, saved_pinned_entries};
use herdr_navigator::query::{agent_status_bonus, Query};
use herdr_navigator::string_set::StringSet;
use herdr_navigator::workspaces::{
    close_current_workspace_error, created_workspace_label, focused_workspace_id,
    previous_workspace_to_record, workspace_created_id, workspace_focus_to_restore,
    workspace_label,
};

fn entry(source: Source, path: &str, title: &str) -> Entry {
    Entry {
        source,
        title: title.into(),
        subtitle: String::new(),
        path: FilePath::from_text(path),
        workspace_id: None,
        workspace_label: None,
        agent_target: None,
        project: None,
        action: EntryAction::FocusOrCreateDir,
        source_label: None,
        search_terms: vec![],
        parent_id: None,
        canonical: None,
    }
}

fn workspace(id: &str, label: &str, kind: WorkspaceKind, path: &str) -> WorkspaceRef {
    WorkspaceRef {
        id: id.into(),
        label: label.into(),
        kind,
        path: FilePath::from_text(path),
        tab_count: 1,
        pane_count: 1,
    }
}

fn workspace_entry(id: &str, path: &str, title: &str) -> Entry {
    Entry {
        workspace_id: Some(id.into()),
        action: EntryAction::FocusWorkspace { id: id.into() },
        ..entry(Source::Workspace, path, title)
    }
}

fn tab_entry(id: &str, title: &str, subtitle: &str) -> Entry {
    Entry {
        subtitle: subtitle.into(),
        workspace_id: Some("w1".into()),
        action: EntryAction::FocusTab { id: id.into() },
        parent_id: Some("w1".into()),
        ..entry(Source::Tab, "", title)
    }
}

fn project() -> Project {
    Project {
        name: "tmp".into(),
        description: String::new(),
        working_dir: "/tmp".into(),
        tabs: vec![],
    }
}

fn agent_entry() -> Entry {
    agent_entry_with_status("idle")
}

fn agent_entry_with_status(status: &str) -> Entry {
    Entry {
        source: Source::Agent,
        title: "aider · Dotfiles · dotfiles".into(),
        subtitle: format!("{status} · wF:p2 · wF:t2"),
        path: FilePath::from_text("/home/fenix/dotfiles"),
        workspace_id: Some("wF".into()),
        workspace_label: Some("Dotfiles".into()),
        agent_target: Some("term_1".into()),
        project: None,
        action: EntryAction::FocusAgent {
            target: "term_1".into(),
        },
        source_label: None,
        search_terms: vec!["main ai dot".into()],
        parent_id: None,
        canonical: None,
    }
}

#[test]
fn created_workspace_labels_prefix_by_default_and_can_be_plain() {
    assert_eq!(
        created_workspace_label(WorkspaceKind::Project, "Navigator", true),
        "project: Navigator"
    );
    assert_eq!(
        created_workspace_label(WorkspaceKind::Dir, "tmp", false),
        "tmp"
    );
    assert_eq!(
        created_workspace_label(WorkspaceKind::Dir, "tmp", true),
        "dir: tmp"
    );
    assert_eq!(
        created_workspace_label(WorkspaceKind::Unknown, "tmp", true),
        "tmp"
    );
}

#[test]
fn extracts_created_workspace_stable_id() {
    let response = Data::from_json(
        r#"{"result": {"type": "workspace_created", "workspace": {"workspace_id": "w42"}}}"#,
    )
    .unwrap();
    assert_eq!(workspace_created_id(&response), Some("w42"));
    assert_eq!(workspace_created_id(&Data::Null), None);
}

#[test]
fn agent_token_filters_match_identity_parts() {
    let agent = agent_entry();

    assert!(Query::parse("!aider @dot /dot #idle").filters_match(&agent));
    assert!(Query::parse("@wF").filters_match(&agent));
    assert!(!Query::parse("!codex").filters_match(&agent));
    assert!(!Query::parse("!dotfiles").filters_match(&agent));
    assert!(!Query::parse("!aider").filters_match(&entry(Source::Project, "/tmp", "aider")));
}

#[test]
fn agent_shortcut_shows_all_agents_and_priority_is_configurable() {
    let idle = agent_entry_with_status("idle");
    let working = agent_entry_with_status("working");
    let blocked = agent_entry_with_status("blocking");
    let attention = agent_entry_with_status("needs attention");
    let done = agent_entry_with_status("done");

    assert!(Query::parse("@").filters_match(&idle));
    assert!(Query::parse("@").filters_match(&blocked));
    assert!(Query::parse("@idle").filters_match(&idle));
    assert!(Query::parse("@Dotfiles").filters_match(&idle));
    assert_eq!(agent_status_bonus(&blocked), 4);
    assert_eq!(agent_status_bonus(&attention), 3);
    assert_eq!(agent_status_bonus(&done), 2);
    assert_eq!(agent_status_bonus(&working), 1);
    assert_eq!(agent_status_bonus(&idle), 0);
    assert_eq!(agent_sort("priority", "spaces"), "priority");
    assert_eq!(agent_sort("spaces", "priority"), "spaces");
}

#[test]
fn agent_aliases_are_searchable_plain_text() {
    assert!(agent_entry().haystack().contains("main ai dot"));
}

#[test]
fn default_empty_picker_prioritizes_agent_status() {
    let mut app = App::new(Config::default());
    app.config.picker.agent_sort = "priority".into();
    app.entries = vec![
        agent_entry_with_status("idle"),
        agent_entry_with_status("done"),
    ];
    app.apply_filter();

    let first = app.get_entry(app.filtered[0]).unwrap();
    assert!(first.subtitle.starts_with("done"));
}

#[test]
fn cycle_filter_follows_enabled_source_order() {
    let mut config = Config::default();
    config.picker.source_order = vec!["agent".into(), "workspace".into(), "project".into()];
    config.sources.servers = false;
    config.sources.sessions = false;
    let mut app = App::new(config);

    app.cycle_filter();
    assert_eq!(app.source_filter, Some(Source::Agent));
    app.cycle_filter();
    assert_eq!(app.source_filter, Some(Source::Workspace));
    app.cycle_filter();
    assert_eq!(app.source_filter, Some(Source::Project));
}

#[test]
fn page_down_advances_by_list_height_and_clamps_at_end() {
    let mut app = App::new(Config::default());
    app.entries = (0..30)
        .map(|i| entry(Source::Workspace, &format!("/p{i}"), &format!("p{i}")))
        .collect();
    app.apply_filter();
    assert_eq!(app.selected, 0);

    // No recorded height yet -> page size falls back to 1.
    app.list_height = 0;
    app.page_down();
    assert_eq!(app.selected, 1);

    // A 10-row list pages by 10 entries.
    app.list_height = 10;
    app.page_down();
    assert_eq!(app.selected, 11);
    app.page_down();
    assert_eq!(app.selected, 21);
    // Clamps at the last entry (index 29).
    app.page_down();
    assert_eq!(app.selected, 29);
    app.page_down();
    assert_eq!(app.selected, 29);
}

#[test]
fn page_up_moves_back_by_list_height_and_clamps_at_zero() {
    let mut app = App::new(Config::default());
    app.entries = (0..30)
        .map(|i| entry(Source::Workspace, &format!("/p{i}"), &format!("p{i}")))
        .collect();
    app.apply_filter();
    app.selected = 29;

    app.list_height = 10;
    app.page_up();
    assert_eq!(app.selected, 19);
    app.page_up();
    assert_eq!(app.selected, 9);
    // Clamps at zero.
    app.page_up();
    assert_eq!(app.selected, 0);
    app.page_up();
    assert_eq!(app.selected, 0);
}

#[test]
fn page_movement_is_noop_on_empty_results() {
    let mut app = App::new(Config::default());
    app.entries = vec![];
    app.apply_filter();
    app.list_height = 10;
    app.page_down();
    assert_eq!(app.selected, 0);
    app.page_up();
    assert_eq!(app.selected, 0);
}

#[test]
fn expand_and_collapse_workspace_toggles_expanded_set() {
    let mut app = App::new(Config::default());
    app.entries = vec![workspace_entry("w1", "/tmp", "x")];
    app.apply_filter();

    // Not expanded initially.
    assert!(!app.selected_is_expanded());
    assert!(app.selected_is_expandable());

    // Marked as expanded.
    app.expanded.insert("ws:w1".to_string());
    assert!(app.selected_is_expanded());

    // And no longer.
    app.expanded.remove("ws:w1");
    assert!(!app.selected_is_expanded());
}

#[test]
fn interleave_children_inserts_tabs_after_expanded_workspace() {
    let mut app = App::new(Config::default());
    app.entries = vec![workspace_entry("w1", "/tmp", "x")];
    app.apply_filter();

    app.child_entries.push(tab_entry("w1:t1", "main", "1 panes"));

    // Without expansion, filtered is just the workspace.
    assert_eq!(app.filtered.len(), 1);

    // Expand and re-apply filter.
    app.expanded.insert("ws:w1".to_string());
    app.apply_filter();
    // Workspace + 1 tab child.
    assert_eq!(app.filtered.len(), 2);
    // The second entry should be the tab child.
    let child = app.get_entry(app.filtered[1]).unwrap();
    assert_eq!(child.source, Source::Tab);
    assert_eq!(child.title, "main");
}

#[test]
fn interleave_children_excluded_when_query_active() {
    let mut app = App::new(Config::default());
    app.entries = vec![workspace_entry("w1", "/tmp", "x")];
    app.apply_filter();

    app.child_entries.push(tab_entry("w1:t1", "main", ""));
    app.expanded.insert("ws:w1".to_string());

    // With a query, children are not interleaved (flat search).
    app.query = "x".into();
    assert_eq!(app.match_request().0, "x");
    app.set_match_scores(vec![Some(1)]);
    assert_eq!(app.filtered.len(), 1); // just the workspace
    app.apply_filter();
    assert_eq!(app.filtered.len(), 1);
}

#[test]
fn expand_preserves_current_selection() {
    let mut app = App::new(Config::default());
    app.entries = vec![
        workspace_entry("w1", "/a", "alpha"),
        workspace_entry("w2", "/b", "bravo"),
    ];
    app.apply_filter();

    // Select the second workspace.
    app.selected = 1;
    assert_eq!(app.selected_entry().unwrap().title, "bravo");

    // Expand it — selection must stay on bravo, not reset to alpha.
    app.expand_selected(&Data::Null);
    assert_eq!(app.selected_entry().unwrap().title, "bravo");
    assert!(app.selected_is_expanded());

    // Collapse — selection still stays on bravo.
    app.collapse_selected();
    assert_eq!(app.selected_entry().unwrap().title, "bravo");
    assert!(!app.selected_is_expanded());
}

#[test]
fn interleave_children_recurses_into_expanded_tabs() {
    let mut app = App::new(Config::default());
    app.entries = vec![workspace_entry("w1", "/tmp", "x")];
    app.apply_filter();

    // Add a tab child and a pane child.
    app.child_entries.push(tab_entry("w1:t1", "main", ""));
    app.child_entries.push(Entry {
        workspace_id: Some("w1".into()),
        action: EntryAction::FocusPane {
            id: "w1:t1:p1".into(),
        },
        parent_id: Some("w1:t1".into()),
        ..entry(Source::Pane, "", "shell")
    });

    // Expand both the workspace and its tab.
    app.expanded.insert("ws:w1".to_string());
    app.expanded.insert("tab:w1:t1".to_string());
    app.apply_filter();

    // Should see: workspace, tab, pane (3 entries).
    assert_eq!(app.filtered.len(), 3);
    assert_eq!(
        app.get_entry(app.filtered[0]).unwrap().source,
        Source::Workspace
    );
    assert_eq!(app.get_entry(app.filtered[1]).unwrap().source, Source::Tab);
    assert_eq!(app.get_entry(app.filtered[2]).unwrap().source, Source::Pane);
}

#[test]
fn previous_workspace_is_pinned_only_on_initial_unfiltered_view() {
    let mut app = App::new(Config::default());
    app.entries = vec![
        workspace_entry("w1", "/alpha", "alpha"),
        workspace_entry("w2", "/zulu", "zulu"),
    ];
    app.previous_workspace_id = Some("w2".into());

    app.apply_filter();
    assert_eq!(
        app.selected_entry().unwrap().workspace_id.as_deref(),
        Some("w2")
    );

    app.source_filter = Some(Source::Workspace);
    app.apply_filter();
    assert_eq!(
        app.selected_entry().unwrap().workspace_id.as_deref(),
        Some("w1")
    );

    app.source_filter = None;
    app.config.jump_back.pin_previous = false;
    app.apply_filter();
    assert_eq!(
        app.selected_entry().unwrap().workspace_id.as_deref(),
        Some("w1")
    );
}

#[test]
fn equal_score_ties_preserve_insertion_order() {
    let mut app = App::new(Config::default());
    app.entries = vec![
        entry(Source::Zoxide, "/zulu", "zulu"),
        entry(Source::Zoxide, "/alpha", "alpha"),
    ];

    app.apply_filter();

    assert_eq!(app.selected_entry().unwrap().title, "zulu");
}

#[test]
fn pinned_entries_sort_first_and_persist() {
    let mut app = App::new(Config::default());
    app.entries = vec![
        entry(Source::Root, "/alpha", "alpha"),
        entry(Source::Root, "/zulu", "zulu"),
    ];
    app.pinned_entries.insert(pin_key(&app.entries[1]));

    app.apply_filter();

    assert_eq!(app.selected_entry().unwrap().title, "zulu");

    let stored = saved_pinned_entries(&app.pinned_entries).unwrap();
    assert_eq!(
        read_pinned_entries(&Ok(stored)).unwrap(),
        app.pinned_entries
    );
}

#[test]
fn previous_workspace_sorts_before_marked_entries() {
    let mut app = App::new(Config::default());
    app.entries = vec![
        entry(Source::Root, "/marked", "marked"),
        workspace_entry("w2", "/previous", "previous"),
    ];
    app.pinned_entries.insert(pin_key(&app.entries[0]));
    app.previous_workspace_id = Some("w2".into());

    app.apply_filter();

    assert_eq!(
        app.selected_entry().unwrap().workspace_id.as_deref(),
        Some("w2")
    );
}

#[test]
fn source_specific_reuse_distinguishes_same_path_workspaces() {
    let mut app = App::new(Config::default());
    app.path_to_workspaces.insert(
        "/tmp".into(),
        vec![
            workspace("w1", "project: tmp", WorkspaceKind::Project, "/tmp"),
            workspace("w2", "dir: tmp", WorkspaceKind::Dir, "/tmp"),
        ],
    );

    let mut from_project = entry(Source::Project, "/tmp", "tmp");
    from_project.project = Some(project());
    let dir = entry(Source::Zoxide, "/tmp", "tmp");

    assert_eq!(
        app.matching_project_workspace(&from_project).unwrap().id,
        "w1"
    );
    assert_eq!(app.matching_dir_workspace(&dir).unwrap().id, "w2");
}

#[test]
fn offers_directory_template_for_new_and_existing_directory_workspaces() {
    let mut config = Config::default();
    config.picker.directory_template = Some("default.toml".into());
    let mut app = App::new(config);
    app.entries = vec![entry(Source::Zoxide, "/tmp", "tmp")];
    app.apply_filter();

    assert_eq!(app.directory_template_for_selected(), Some("default.toml"));

    app.path_to_workspaces.insert(
        "/tmp".into(),
        vec![workspace("w2", "dir: tmp", WorkspaceKind::Dir, "/tmp")],
    );
    assert_eq!(app.directory_template_for_selected(), Some("default.toml"));

    app.config.picker.create_missing = false;
    assert_eq!(app.directory_template_for_selected(), Some("default.toml"));

    app.path_to_workspaces.insert(
        "/tmp".into(),
        vec![workspace(
            "w1",
            "project: tmp",
            WorkspaceKind::Project,
            "/tmp",
        )],
    );
    assert_eq!(
        app.matching_template_workspace_by_key("/tmp").unwrap().id,
        "w1"
    );
}

#[test]
fn close_target_matches_entry_kind() {
    let mut app = App::new(Config::default());
    app.path_to_workspaces.insert(
        "/tmp".into(),
        vec![
            workspace("w1", "project: tmp", WorkspaceKind::Project, "/tmp"),
            workspace("w2", "dir: tmp", WorkspaceKind::Dir, "/tmp"),
        ],
    );

    let mut from_project = entry(Source::Project, "/tmp", "tmp");
    from_project.project = Some(project());
    let dir = entry(Source::Root, "/tmp", "tmp");

    assert_eq!(app.workspace_to_close(&from_project), Some("w1".into()));
    assert_eq!(app.workspace_to_close(&dir), Some("w2".into()));
}

#[test]
fn refuses_to_close_picker_owning_workspace() {
    assert_eq!(
        close_current_workspace_error("w1", Some("w1")),
        Some("can't close the workspace that owns this picker; switch away first".into())
    );
    assert_eq!(close_current_workspace_error("w1", Some("w2")), None);
    assert_eq!(close_current_workspace_error("w1", None), None);
}

#[test]
fn restores_focus_to_picker_origin_after_closing_another_workspace() {
    assert_eq!(workspace_focus_to_restore("w2", Some("w1")), Some("w1"));
    assert_eq!(workspace_focus_to_restore("w1", Some("w1")), None);
    assert_eq!(workspace_focus_to_restore("w2", None), None);
}

#[test]
fn workspace_rows_are_not_deduped_by_path() {
    let mut entries = Vec::new();
    let mut seen = StringSet::new();
    push_unique(
        &mut entries,
        &mut seen,
        vec![
            workspace_entry("w1", "/tmp", "project: tmp"),
            workspace_entry("w2", "/tmp", "dir: tmp"),
        ],
    );

    assert_eq!(entries.len(), 2);
}

#[test]
fn jump_back_records_only_real_workspace_transitions() {
    assert_eq!(
        previous_workspace_to_record(Some("w1"), Some("w2")),
        Some("w1")
    );
    assert_eq!(previous_workspace_to_record(Some("w1"), Some("w1")), None);
    assert_eq!(previous_workspace_to_record(None, Some("w2")), None);
    assert_eq!(previous_workspace_to_record(Some("w1"), None), None);
}

#[test]
fn jump_back_resolves_focused_and_previous_workspaces() {
    let json = Data::from_json(
        r#"{"result": {"workspaces": [
            {"workspace_id": "w1", "label": "one", "focused": false},
            {"workspace_id": "w2", "label": "two", "focused": true}
        ]}}"#,
    )
    .unwrap();

    assert_eq!(focused_workspace_id(&json), Some("w2"));
    assert_eq!(workspace_label(&json, "w1"), Some("one"));
    assert_eq!(workspace_label(&json, "missing"), None);
}
