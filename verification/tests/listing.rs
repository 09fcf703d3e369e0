//! Queries, keys, the order of the list, the tree and pins.

use herdr_navigator::app::App;
use herdr_navigator::config::{Config, SourceBonus};
use herdr_navigator::data::Data;
use herdr_navigator::file_path::FilePath;
use herdr_navigator::keys::{entry_identity_key, expand_key, pin_key, push_unique, unique_key};
use herdr_navigator::load::Found;
use herdr_navigator::model::{Entry, EntryAction, Source, WorkspaceMap};
use herdr_navigator::panel::{agent_sort, herdr_agent_panel_sort, panel_sort_in, sort_for};
use herdr_navigator::pins::{pins_from, read_pinned_entries, saved_pinned_entries};
use herdr_navigator::query::{
    agent_text, all_match, all_match_either, push_token, status_bonus, status_text,
    workspace_text, Query,
};
use herdr_navigator::selection::Fetch;
use herdr_navigator::string_set::StringSet;
use herdr_navigator::text::{
    contains, decimal_text, join, lines_of, same, split_words, text_before, trim, trim_end,
};

fn entry(source: Source, path: &str, title: &str) -> Entry {
    Entry {
        source,
        title: title.into(),
        subtitle: String::new(),
        path: FilePath::from_text(path),
        workspace_id: None,
        workspace_label: None,
        agent_target: None,
        project: None,
        action: EntryAction::FocusOrCreateDir,
        source_label: None,
        search_terms: vec![],
        parent_id: None,
        canonical: None,
    }
}

fn workspace_entry(id: &str, title: &str) -> Entry {
    Entry {
        workspace_id: Some(id.into()),
        action: EntryAction::FocusWorkspace { id: id.into() },
        ..entry(Source::Workspace, "/tmp", title)
    }
}

fn agent_entry(status: &str) -> Entry {
    Entry {
        subtitle: status.into(),
        action: EntryAction::FocusAgent { target: "t".into() },
        ..entry(Source::Agent, "/tmp", "aider")
    }
}

fn app_with(entries: Vec<Entry>) -> App {
    let mut app = App::new(Config::default());
    app.entries = entries;
    app.apply_filter();
    app
}

fn titles(app: &App) -> Vec<String> {
    app.filtered
        .iter()
        .map(|&idx| app.get_entry(idx).unwrap().title.clone())
        .collect()
}

fn strings(list: &[&str]) -> Vec<String> {
    list.iter().map(|s| s.to_string()).collect()
}

fn nothing_found() -> Found {
    Found {
        workspaces: vec![],
        path_to_workspaces: WorkspaceMap::new(),
        projects: vec![],
        zoxide: vec![],
        roots: vec![],
        servers: vec![],
        sessions: vec![],
        agents: vec![],
        quick_actions: None,
        integrations: vec![],
        pinned: None,
        previous: None,
    }
}

#[test]
fn texts_are_trimmed_split_and_searched() {
    assert_eq!(trim(" \u{a0}a b\u{3000}\n"), "a b");
    assert_eq!(trim_end(" a \t"), " a");
    assert_eq!(split_words("  a\u{2003}bc\nd "), ["a", "bc", "d"]);
    assert_eq!(split_words(" \t").len(), 0);
    assert_eq!(text_before("a·b·c", '·'), "a");
    assert_eq!(text_before("abc", '·'), "abc");
    assert!(contains("abcab", "cab") && contains("abc", "") && !contains("abc", "ac"));
    assert!(!contains("ab", "abc"));
    assert!(same("é", "é") && !same("e", "é"));
    assert_eq!(join(&strings(&["a", "b", "c"]), ", "), "a, b, c");
    assert_eq!(join(&vec![], ", "), "");
    assert_eq!(decimal_text(0), "0");
    assert_eq!(decimal_text(u64::MAX), "18446744073709551615");
}

#[test]
fn texts_are_split_into_lines() {
    assert_eq!(lines_of("a\r\nb\n\nc"), ["a", "b", "", "c"]);
    assert_eq!(lines_of("a\n"), ["a"]);
    assert_eq!(lines_of("a\r"), ["a\r"]);
    assert_eq!(lines_of("\r\n"), [""]);
    assert!(lines_of("").is_empty());
}

#[test]
fn queries_are_taken_apart_in_lower_case() {
    let query = Query::parse("  FOO !Aider @ @WS /Src #IDLE bar ! / #");
    assert_eq!(query.plain, "foo bar");
    assert_eq!(query.agent, ["aider"]);
    assert_eq!(query.workspace_or_status, ["ws"]);
    assert_eq!(query.path, ["src"]);
    assert_eq!(query.status, ["idle"]);
    assert!(query.all_agents);
    let blank = Query::parse(" \t ");
    assert_eq!(blank.plain, "");
    assert!(!blank.all_agents && blank.agent.is_empty());
    assert!(blank.filters_match(&entry(Source::Root, "/", "x")));
}

#[test]
fn path_tokens_filter_every_source() {
    let query = Query::parse("/SRC");
    assert!(query.filters_match(&entry(Source::Root, "/home/Src", "x")));
    assert!(!query.filters_match(&entry(Source::Root, "/home", "src")));
}

#[test]
fn tokens_match_in_lower_case() {
    assert!(all_match(&strings(&["éa", "b"]), "ÉAB"));
    assert!(!all_match(&strings(&["a", "c"]), "AB"));
    assert!(all_match(&vec![], ""));
    assert!(all_match_either(&strings(&["a", "c"]), "A", "C"));
    assert!(!all_match_either(&strings(&["a", "d"]), "A", "C"));
    let mut tokens = vec![];
    push_token(&mut tokens, "");
    push_token(&mut tokens, "x");
    assert_eq!(tokens, ["x"]);
}

#[test]
fn texts_of_an_agent_are_read_up_to_the_first_dot() {
    let mut agent = agent_entry(" Needs Review · p1");
    agent.title = "Aider · repo".into();
    agent.workspace_id = Some("w1".into());
    assert_eq!(status_text(&agent), "needs review");
    assert_eq!(agent_text(&agent), "Aider ");
    assert_eq!(workspace_text(&agent), "w1  Aider · repo");
}

#[test]
fn statuses_are_ranked_by_urgency() {
    for (status, rank) in [
        ("failed", 4),
        ("error", 4),
        ("waiting", 3),
        ("question", 3),
        ("completed", 2),
        ("running", 1),
        ("", 0),
    ] {
        assert_eq!(status_bonus(status), rank);
    }
    let query = Query::parse("");
    assert_eq!(query.score_bonus(&agent_entry("done"), true), 2);
    assert_eq!(query.score_bonus(&agent_entry("done"), false), 0);
    assert_eq!(query.score_bonus(&entry(Source::Root, "/", "done"), true), 0);
}

#[test]
fn agents_are_sorted_as_configured_or_as_the_panel_does() {
    assert_eq!(agent_sort("PRIORITY", "spaces"), "priority");
    assert_eq!(agent_sort("herdr", "priority"), "priority");
    assert_eq!(sort_for("spaces", "priority"), "spaces");
    assert_eq!(
        herdr_agent_panel_sort(Some("[ui]\nagent_panel_sort = \"priority\"\n")),
        "priority"
    );
    assert_eq!(
        herdr_agent_panel_sort(Some("agent_panel_sort = \"priority\"\n[ui]\n")),
        "priority"
    );
    assert_eq!(
        herdr_agent_panel_sort(Some("agent_panel_sort = \"a\"\n[ui]\nagent_panel_sort = 1\n")),
        "spaces"
    );
    assert_eq!(herdr_agent_panel_sort(Some("= broken")), "spaces");
    assert_eq!(herdr_agent_panel_sort(None), "spaces");
    assert_eq!(panel_sort_in(&Some(Data::Other)), "spaces");
}

#[test]
fn keys_tell_entries_apart() {
    let with = |action| Entry {
        action,
        ..entry(Source::Root, "/r", "x")
    };
    let workspace = with(EntryAction::FocusWorkspace { id: "1".into() });
    let tab = with(EntryAction::FocusTab { id: "1".into() });
    let pane = with(EntryAction::FocusPane { id: "1".into() });
    let agent = with(EntryAction::FocusAgent { target: "1".into() });
    assert_eq!(entry_identity_key(&workspace), "workspace:1");
    assert_eq!(entry_identity_key(&tab), "tab:1");
    assert_eq!(entry_identity_key(&pane), "pane:1");
    assert_eq!(entry_identity_key(&agent), "agent:1");
    assert_eq!(expand_key(&workspace), Some("ws:1".into()));
    assert_eq!(expand_key(&tab), Some("tab:1".into()));
    assert_eq!(expand_key(&pane), None);
    assert_eq!(unique_key(&workspace), "open:1");
    assert_eq!(pin_key(&with(EntryAction::OpenProject)), "project:/r");
    assert_eq!(
        pin_key(&with(EntryAction::OpenRemote { target: "h".into() })),
        "remote:h"
    );
    assert_eq!(
        pin_key(&with(EntryAction::AttachSession {
            name: "s".into(),
            remote: None
        })),
        "session:local:s"
    );
    assert_eq!(
        pin_key(&with(EntryAction::AttachSession {
            name: "s".into(),
            remote: Some("h".into())
        })),
        "session:h:s"
    );
    let mut plugin = with(EntryAction::InvokePluginAction { action: "a".into() });
    plugin.source_label = Some("p".into());
    assert_eq!(pin_key(&plugin), "plugin:p:a");
    assert_eq!(unique_key(&plugin), "p:/r");
    let mut dir = with(EntryAction::FocusOrCreateDir);
    dir.canonical = Some("/real".into());
    assert_eq!(pin_key(&dir), "root:/real");
    let command = with(EntryAction::RunCommand {
        command: "make".into(),
        notify_success: true,
        notify_error: true,
    });
    assert_eq!(pin_key(&command), "root:make");
    assert_eq!(unique_key(&command), "root:make");
}

#[test]
fn each_key_is_listed_once() {
    let mut entries = vec![];
    let mut seen = StringSet::new();
    push_unique(
        &mut entries,
        &mut seen,
        vec![
            entry(Source::Root, "/a", "first"),
            entry(Source::Root, "/a", "second"),
        ],
    );
    push_unique(&mut entries, &mut seen, vec![entry(Source::Root, "/a", "third")]);
    push_unique(&mut entries, &mut seen, vec![entry(Source::Zoxide, "/a", "other")]);
    let found: Vec<&str> = entries.iter().map(|e| e.title.as_str()).collect();
    assert_eq!(found, ["first", "other"]);
    assert!(seen.contains("root:/a") && seen.contains("zoxide:/a"));
}

#[test]
fn refreshing_lists_the_enabled_sources() {
    let mut app = App::new(Config::default());
    app.config.sources.zoxide = false;
    app.expanded.insert("ws:w1".into());
    app.child_entries.push(entry(Source::Tab, "", "stale"));
    let mut pins = StringSet::new();
    pins.insert("root:/r".into());
    let found = Found {
        workspaces: vec![workspace_entry("w1", "one"), workspace_entry("w1", "again")],
        zoxide: vec![entry(Source::Zoxide, "/z", "z")],
        roots: vec![entry(Source::Root, "/r", "r")],
        agents: vec![agent_entry("idle"), agent_entry("idle")],
        quick_actions: Some(entry(Source::QuickAction, "/", "quick")),
        integrations: vec![
            entry(Source::Root, "/r", "twice"),
            entry(Source::Integration, "/", "tool"),
        ],
        pinned: Some(pins),
        previous: Some("w1".into()),
        ..nothing_found()
    };
    app.refresh(found, vec![]);
    let listed: Vec<&str> = app.entries.iter().map(|e| e.title.as_str()).collect();
    assert_eq!(listed, ["one", "r", "aider", "aider", "quick", "tool"]);
    assert_eq!(titles(&app)[..2], ["one", "r"]);
    assert!(app.child_entries.is_empty() && app.expanded.is_empty());
    assert_eq!(app.previous_workspace_id, Some("w1".into()));
    assert!(app.is_pinned(&app.entries[1]));

    app.config.jump_back.pin_previous = false;
    let found = Found {
        previous: Some("w1".into()),
        ..nothing_found()
    };
    app.refresh(found, vec![]);
    assert_eq!(app.previous_workspace_id, None);
    assert!(app.pinned_entries.is_empty());
}

#[test]
fn scores_bonuses_and_sources_order_the_list() {
    let mut app = app_with(vec![
        entry(Source::Root, "/a", "low"),
        entry(Source::Root, "/b", "unmatched"),
        entry(Source::Root, "/c", "high"),
        entry(Source::Zoxide, "/d", "tie"),
    ]);
    assert_eq!(titles(&app), ["tie", "low", "unmatched", "high"]);
    app.query = "word".into();
    let (words, texts) = app.match_request();
    assert_eq!(words, "word");
    assert_eq!(texts[0], "low  /a");
    app.set_match_scores(vec![Some(1), None, Some(7), Some(1)]);
    assert_eq!(titles(&app), ["high", "tie", "low"]);
    assert_eq!(app.filtered_scores, [7, 1, 1]);
    app.config.picker.source_bonuses = vec![SourceBonus {
        source: Source::Zoxide,
        bonus: 10,
    }];
    app.apply_filter();
    assert_eq!(titles(&app), ["tie", "high", "low"]);
    assert_eq!(app.filtered_scores, [11, 7, 1]);
}

#[test]
fn singled_out_sources_list_their_own_entries() {
    let mut app = app_with(vec![
        entry(Source::Root, "/a", "root"),
        entry(Source::Zoxide, "/b", "zoxide"),
    ]);
    app.selected = 1;
    app.set_filter(Some(Source::Root));
    assert_eq!((app.source_filter, app.selected), (Some(Source::Root), 0));
    app.apply_filter();
    assert_eq!(titles(&app), ["root"]);
    app.set_filter(Some(Source::Root));
    assert_eq!(app.source_filter, None);
    app.config.sources.zoxide = false;
    app.set_filter(Some(Source::Zoxide));
    assert_eq!(app.source_filter, None);
    app.set_filter(Some(Source::Tab));
    assert_eq!(app.source_filter, None);
}

#[test]
fn cycling_visits_each_source_and_ends() {
    let mut app = App::new(Config::default());
    app.config.picker.source_order = strings(&["root", "agent"]);
    app.config.sources.zoxide = false;
    let mut visited = vec![];
    loop {
        app.cycle_filter();
        match app.source_filter {
            Some(source) => visited.push(source),
            None => break,
        }
    }
    assert_eq!(visited[..2], [Source::Root, Source::Agent]);
    assert_eq!(visited.len(), 8);
    assert!(!visited.contains(&Source::Zoxide) && !visited.contains(&Source::Tab));
}

#[test]
fn moving_stays_in_the_list() {
    let mut app = app_with(vec![
        entry(Source::Root, "/a", "a"),
        entry(Source::Root, "/b", "b"),
    ]);
    app.prev();
    assert_eq!(app.selected, 0);
    app.next();
    app.next();
    assert_eq!(app.selected, 1);
    app.prev();
    assert_eq!(app.selected, 0);
    assert_eq!(app.page_size(), 1);
    app.list_height = 7;
    assert_eq!(app.page_size(), 7);
    let mut empty = App::new(Config::default());
    empty.next();
    assert_eq!(empty.selected, 0);
}

#[test]
fn deleting_a_word_takes_the_white_space_before_it() {
    let mut app = App::new(Config::default());
    app.query = "one  two   ".into();
    app.delete_query_word();
    assert_eq!(app.query, "one");
    app.delete_query_word();
    assert_eq!(app.query, "");
    app.delete_query_word();
    assert_eq!(app.query, "");
}

#[test]
fn pins_are_toggled_once_they_are_stored() {
    let mut app = app_with(vec![
        entry(Source::Root, "/a", "a"),
        entry(Source::Root, "/b", "b"),
    ]);
    app.selected = 1;
    let pins = app.toggled_pins().unwrap();
    assert_eq!(saved_pinned_entries(&pins).unwrap(), "[\n  \"root:/b\"\n]");
    assert_eq!(
        app.toggle_selected_pin(Err("full".into())),
        Err("full".into())
    );
    assert_eq!(titles(&app), ["a", "b"]);
    assert_eq!(app.selected, 1);
    assert_eq!(app.toggle_selected_pin(Ok(())), Ok(()));
    assert_eq!(titles(&app), ["b", "a"]);
    assert_eq!(app.selected, 0);
    assert_eq!(app.toggle_selected_pin(Ok(())), Ok(()));
    assert_eq!(titles(&app), ["a", "b"]);
    assert!(app.pinned_entries.is_empty());
    let mut empty = App::new(Config::default());
    assert_eq!(empty.toggled_pins().unwrap_err(), "nothing selected");
    assert_eq!(
        empty.toggle_selected_pin(Ok(())),
        Err("nothing selected".into())
    );
}

#[test]
fn pins_are_stored_in_order_and_read_back() {
    let mut pins = StringSet::new();
    for key in ["b", "a\"\n", "é", "B"] {
        pins.insert(key.into());
    }
    let text = saved_pinned_entries(&pins).unwrap();
    assert_eq!(text, "[\n  \"B\",\n  \"a\\\"\\n\",\n  \"b\",\n  \"é\"\n]");
    assert_eq!(read_pinned_entries(&Ok(text)).unwrap(), pins);
    let repeated = read_pinned_entries(&Ok(r#"["a", "a"]"#.into())).unwrap();
    assert_eq!(repeated.sorted(), ["a"]);
    assert!(read_pinned_entries(&Ok("{}".into()))
        .unwrap_err()
        .starts_with("failed to parse pinned entries: "));
    assert_eq!(
        read_pinned_entries(&Err("denied".into())).unwrap_err(),
        "failed to read pinned entries: denied"
    );
    assert_eq!(
        pins_from(Err("bad".into())).unwrap_err(),
        "failed to parse pinned entries: bad"
    );
}

#[test]
fn expanding_fetches_tabs_and_panes_once() {
    let mut app = app_with(vec![workspace_entry("w1", "one"), workspace_entry("w2", "two")]);
    app.selected = 1;
    assert!(matches!(
        app.expand_request(),
        Some(Fetch::Tabs { workspace_id }) if workspace_id == "w2"
    ));
    assert_eq!(
        app.expand_request().unwrap().herdr_args(),
        ["tab", "list", "--workspace", "w2"]
    );
    let tabs = Data::from_json(
        r#"{"result": {"tabs": [
            {"tab_id": "w2:t1", "label": "main", "focused": true, "pane_count": 2, "agent_status": "idle"},
            {"tab_id": "w2:t2"}
        ]}}"#,
    )
    .unwrap();
    assert!(app.can_expand(&tabs));
    app.expand_selected(&tabs);
    assert_eq!(titles(&app), ["one", "two", "main", "tab w2:t2"]);
    assert_eq!(app.selected_entry().unwrap().title, "two");
    assert_eq!(app.child_entries[0].subtitle, "focused · idle · 2 panes");
    assert_eq!(app.child_entries[1].subtitle, "unknown · 0 panes");
    assert_eq!(app.child_entries[0].search_terms, ["w2:t1", "main"]);

    app.selected = 2;
    assert!(matches!(
        app.expand_request(),
        Some(Fetch::Panes { workspace_id, tab_id }) if workspace_id == "w2" && tab_id == "w2:t1"
    ));
    assert_eq!(
        app.expand_request().unwrap().herdr_args(),
        ["pane", "list", "--workspace", "w2"]
    );
    let panes = Data::from_json(
        r#"{"result": {"panes": [
            {"pane_id": "p1", "tab_id": "w2:t1", "cwd": "/src", "agent": "aider"},
            {"pane_id": "p2", "tab_id": "w2:t2"},
            {"pane_id": "p3", "tab_id": "w2:t1", "label": "shell", "focused": true},
            {"pane_id": "p4", "tab_id": "w2:t1"}
        ]}}"#,
    )
    .unwrap();
    app.toggle_expand_selected(&panes);
    assert_eq!(
        titles(&app),
        ["one", "two", "main", "aider", "shell", "p4", "tab w2:t2"]
    );
    assert_eq!(app.selected_entry().unwrap().title, "main");
    let subtitles: Vec<&str> = app.child_entries[2..]
        .iter()
        .map(|e| e.subtitle.as_str())
        .collect();
    assert_eq!(subtitles, ["/src · p1", "focused · p3", "p4"]);
    assert_eq!(app.child_entries[2].path.shown(), "/src");
    assert_eq!(app.child_entries[2].agent_target, Some("p1".into()));

    app.toggle_expand_selected(&Data::Null);
    assert_eq!(titles(&app), ["one", "two", "main", "tab w2:t2"]);
    assert!(app.expand_request().is_none());
    app.expand_selected(&Data::Null);
    assert_eq!(app.filtered.len(), 7);
    assert!(app.selected_is_expanded());
    app.selected = 3;
    assert!(!app.selected_is_expandable());
    app.collapse_selected();
    assert_eq!((app.filtered.len(), app.selected), (7, 3));
}

#[test]
fn a_tree_that_holds_itself_is_not_expanded() {
    let mut app = app_with(vec![workspace_entry("w1", "one")]);
    app.child_entries.push(Entry {
        action: EntryAction::FocusTab { id: "w1".into() },
        parent_id: Some("w1".into()),
        ..entry(Source::Tab, "", "itself")
    });
    app.expanded.insert("ws:w1".into());
    assert!(app.is_sound());
    app.apply_filter();
    assert_eq!(titles(&app), ["one", "itself"]);
    app.selected = 1;
    assert!(!app.can_expand(&Data::Null));
    app.expanded.insert("tab:w1".into());
    assert!(!app.is_sound());
    // Where nothing shows the tree it does no harm.
    app.expanded.remove("ws:w1");
    assert!(app.is_sound());
    app.apply_filter();
    assert_eq!(titles(&app), ["one"]);
}

#[test]
fn the_selection_goes_to_the_first_row_where_its_entry_is_gone() {
    let mut app = app_with(vec![workspace_entry("w1", "one"), workspace_entry("w2", "two")]);
    app.selected = 1;
    app.reapply_filter_preserving_selection();
    assert_eq!(app.selected, 1);
    app.selected = 7;
    app.reapply_filter_preserving_selection();
    assert_eq!(app.selected, 0);
}

#[test]
fn json_is_read_as_a_tree() {
    let data = Data::from_json(r#"{"a": {"b": [1, -1, "x", true, null]}, "n": 7}"#).unwrap();
    assert_eq!(data.member_number("n"), 7);
    match data.member("a").unwrap().member("b") {
        Some(Data::List(items)) => {
            assert!(matches!(items[0], Data::Number(Some(1))));
            assert!(matches!(items[1], Data::Number(None)));
            assert!(matches!(&items[2], Data::Text(text) if text == "x"));
            assert!(matches!(items[3], Data::Bool(true)));
            assert!(matches!(items[4], Data::Null));
        }
        other => panic!("unexpected {other:?}"),
    }
    assert!(Data::from_json("{").is_none());
}

#[test]
fn string_sets_hold_each_string_once() {
    let mut set = StringSet::from_list(strings(&["b", "a", "b"]));
    assert_eq!(set.sorted(), ["a", "b"]);
    assert!(!set.insert("a".into()) && set.insert("c".into()));
    assert!(set.remove("b") && !set.remove("b"));
    assert_eq!(set, StringSet::from_list(strings(&["c", "a"])));
    assert_eq!(set.copy(), set);
    set.clear();
    assert!(set.is_empty());
}

#[test]
fn building_the_list_twice_changes_nothing() {
    let mut app = app_with(vec![
        agent_entry("done"),
        workspace_entry("w1", "one"),
        entry(Source::Root, "/r", "root"),
    ]);
    let (rows, scores) = (app.filtered.clone(), app.filtered_scores.clone());
    app.apply_filter();
    assert_eq!((app.filtered, app.filtered_scores), (rows, scores));
}

fn tabs_of_w1() -> Data {
    Data::from_json(r#"{"result": {"tabs": [{"tab_id": "w1:t1", "label": "main"}]}}"#).unwrap()
}

#[test]
fn toggling_twice_restores_the_list() {
    let mut app = app_with(vec![workspace_entry("w1", "one"), workspace_entry("w2", "two")]);
    let rows = app.filtered.clone();
    app.toggle_expand_selected(&tabs_of_w1());
    assert!(app.selected_is_expanded());
    assert_eq!(titles(&app), ["one", "main", "two"]);
    app.toggle_expand_selected(&Data::Null);
    assert!(app.expanded.is_empty());
    assert_eq!(app.filtered, rows);
    assert_eq!(app.selected_entry().unwrap().title, "one");
}

#[test]
fn toggling_an_expanded_row_twice_restores_what_is_expanded() {
    let mut app = app_with(vec![workspace_entry("w1", "one")]);
    app.expand_selected(&tabs_of_w1());
    let expanded = app.expanded.copy();
    app.toggle_expand_selected(&Data::Null);
    assert!(!app.selected_is_expanded());
    app.toggle_expand_selected(&Data::Null);
    assert_eq!(app.expanded, expanded);
    assert_eq!(titles(&app), ["one", "main"]);
    assert_eq!(app.selected_entry().unwrap().title, "one");
}

/// A workspace that shows a tab of its own identifier, which is expanded too.
fn app_with_loop() -> App {
    let mut app = app_with(vec![workspace_entry("w1", "one")]);
    app.child_entries.push(Entry {
        action: EntryAction::FocusTab { id: "w1".into() },
        parent_id: Some("w1".into()),
        ..entry(Source::Tab, "", "itself")
    });
    app.expanded.insert("ws:w1".into());
    app.expanded.insert("tab:w1".into());
    app
}

#[test]
fn a_tree_that_holds_itself_can_be_searched() {
    let mut app = app_with_loop();
    assert!(!app.is_sound());
    assert!(!app.try_toggle_expand_selected(&Data::Null));
    assert!(app.try_toggle_selected_pin(Ok(())).is_none());
    assert!(!app.try_set_match_scores(vec![]));
    app.query = "one".into();
    assert!(app.is_sound());
    assert!(app.try_set_match_scores(vec![Some(3)]));
    assert_eq!(titles(&app), ["one"]);
    assert_eq!(app.try_toggle_selected_pin(Ok(())), Some(Ok(())));
    app.query = String::new();
    assert!(app.try_cycle_filter());
    assert_eq!(app.source_filter, Some(Source::Workspace));
    assert_eq!(titles(&app), ["one"]);
    app.config.picker.source_order = strings(&["agent"]);
    app.source_filter = Some(Source::Integration);
    assert!(!app.try_cycle_filter());
    assert_eq!(app.source_filter, Some(Source::Integration));
}

#[test]
fn scores_out_of_range_are_refused() {
    let mut app = app_with(vec![entry(Source::Root, "/r", "r")]);
    app.config.picker.source_bonuses = vec![SourceBonus {
        source: Source::Root,
        bonus: 1,
    }];
    app.query = "r".into();
    assert!(!app.try_set_match_scores(vec![Some(i64::MAX)]));
    assert!(app.match_scores.is_empty());
    assert!(app.try_set_match_scores(vec![Some(i64::MAX - 1)]));
    assert_eq!(app.filtered_scores, [i64::MAX]);
    app.query = String::new();
    app.match_scores = vec![Some(i64::MAX)];
    assert!(app.is_sound());
}

#[test]
fn paths_need_not_be_valid_text() {
    let path = FilePath::from_bytes(b"/a\xff".to_vec());
    assert_eq!(path.shown(), "/a\u{fffd}");
    assert_eq!(path.bytes(), b"/a\xff");
    assert_eq!(path.text(), None);
    assert_eq!(path.copy().bytes(), path.bytes());
    let valid = FilePath::from_text("/é");
    assert_eq!(valid.shown(), "/é");
    assert_eq!(valid.bytes(), "/é".as_bytes());
    assert_eq!(valid.text(), Some("/é".into()));
    let mut odd = entry(Source::Root, "", "odd");
    odd.path = path;
    assert_eq!(pin_key(&odd), "root:/a\u{fffd}");
    assert_eq!(odd.haystack(), "odd  /a\u{fffd}");
}

fn two_roots() -> Found {
    Found {
        roots: vec![
            entry(Source::Root, "/a", "low"),
            entry(Source::Root, "/a", "twice"),
            entry(Source::Root, "/b", "high"),
        ],
        agents: vec![agent_entry("idle")],
        ..nothing_found()
    }
}

#[test]
fn refreshing_lists_what_matches_the_query() {
    let mut app = App::new(Config::default());
    app.query = "Word".into();
    let (words, texts) = app.refresh_request(&two_roots());
    assert_eq!(words, "word");
    assert_eq!(texts, ["low  /a", "high  /b", "aider idle /tmp"]);
    app.refresh(two_roots(), vec![Some(1), Some(7), None]);
    assert_eq!(titles(&app), ["high", "low"]);
    assert_eq!(app.filtered_scores, [7, 1]);
}

#[test]
fn refreshing_refuses_scores_out_of_range() {
    let mut app = App::new(Config::default());
    app.config.picker.source_bonuses = vec![SourceBonus {
        source: Source::Root,
        bonus: -1,
    }];
    app.query = "word".into();
    assert!(!app.try_refresh(two_roots(), vec![Some(i64::MIN)]));
    assert!(app.entries.is_empty());
    assert!(app.try_refresh(two_roots(), vec![Some(i64::MIN + 1)]));
    assert_eq!(app.filtered_scores, [i64::MIN]);
    app.source_filter = Some(Source::Agent);
    assert!(app.try_refresh(two_roots(), vec![Some(i64::MIN)]));
    assert!(app.filtered.is_empty());
}

#[test]
fn white_space_is_what_unicode_says() {
    for c in '\0'..=char::MAX {
        let white = matches!(
            c,
            '\u{9}'..='\u{d}'
                | '\u{20}'
                | '\u{85}'
                | '\u{a0}'
                | '\u{1680}'
                | '\u{2000}'..='\u{200a}'
                | '\u{2028}'
                | '\u{2029}'
                | '\u{202f}'
                | '\u{205f}'
                | '\u{3000}'
        );
        assert_eq!(trim(&c.to_string()).is_empty(), white, "{c:?}");
    }
}
