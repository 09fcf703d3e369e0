//! Previews: headers, panes, git status and directory trees.

use herdr_navigator::config::Config;
use herdr_navigator::data::Data;
use herdr_navigator::dir_tree::{arrange, DirItem, ItemKind, TreeWalk};
use herdr_navigator::file_path::FilePath;
use herdr_navigator::model::{Entry, EntryAction, Source};
use herdr_navigator::preview::{
    build_preview, directory_tree, git_status_args, git_status_block, git_status_lines,
    header_lines, pane_id_for_entry, pane_list_args, pane_read_args, pane_scrollback,
    preview_part, PreviewPart, StyledLine,
};

fn entry(source: Source, path: &str, title: &str) -> Entry {
    Entry {
        source,
        title: title.into(),
        subtitle: String::new(),
        path: FilePath::from_text(path),
        workspace_id: None,
        workspace_label: None,
        agent_target: None,
        project: None,
        action: EntryAction::FocusOrCreateDir,
        source_label: None,
        search_terms: vec![],
        parent_id: None,
        canonical: None,
    }
}

fn text_of(line: &StyledLine) -> String {
    line.spans.iter().map(|span| span.content.as_str()).collect()
}

fn texts(lines: &[StyledLine]) -> Vec<String> {
    lines.iter().map(text_of).collect()
}

fn item(dir: &str, name: &str, kind: ItemKind) -> DirItem {
    DirItem {
        name: name.into(),
        path: format!("{dir}/{name}").into_bytes(),
        kind,
    }
}

/// Walks a tree of which the listings are given by path.
fn walk_all(walk: TreeWalk, listings: &[(&str, &[(&str, ItemKind)])]) -> (Vec<String>, Vec<String>) {
    let mut walk = walk;
    let mut reads = Vec::new();
    while let Some(path) = walk.next_directory() {
        let path = String::from_utf8(path.clone()).unwrap();
        let listing = listings
            .iter()
            .find(|(dir, _)| *dir == path)
            .map(|(dir, items)| items.iter().map(|(name, kind)| item(dir, name, *kind)).collect());
        walk = walk.supply(listing);
        reads.push(path);
    }
    (walk.finish().unwrap(), reads)
}

#[test]
fn header_lists_type_title_and_path() {
    let e = entry(Source::Zoxide, "/tmp/dir", "dir");
    let lines = build_preview(&e, &Config::default(), None, None, &vec![]);
    let joined = texts(&lines).join("\n");
    assert!(joined.contains("type: zoxide"));
    assert!(joined.contains("title: dir"));
    assert!(joined.contains("path: /tmp/dir"));
}

#[test]
fn directory_tree_lists_entries_with_markers() {
    let (tree, _) = walk_all(
        TreeWalk::new(&b"/t".to_vec(), 2, 40),
        &[
            (
                "/t",
                &[
                    ("b.txt", ItemKind::File),
                    ("sub", ItemKind::Dir),
                    ("a.txt", ItemKind::File),
                ],
            ),
            ("/t/sub", &[]),
        ],
    );
    let joined = tree.join("\n");
    // Directories first: sub/ before a.txt and b.txt.
    assert!(joined.contains("sub/"));
    assert!(joined.contains("a.txt"));
    assert!(joined.contains("b.txt"));
    assert!(joined.find("sub/").unwrap() < joined.find("a.txt").unwrap());
}

#[test]
fn directory_tree_respects_max_entries() {
    let (tree, _) = walk_all(
        TreeWalk::new(&b"/t".to_vec(), 2, 2),
        &[(
            "/t",
            &[
                ("f0.txt", ItemKind::File),
                ("f1.txt", ItemKind::File),
                ("f2.txt", ItemKind::File),
                ("f3.txt", ItemKind::File),
                ("f4.txt", ItemKind::File),
            ],
        )],
    );
    let joined = tree.join("\n");
    assert!(joined.contains("… (3 more)"));
}

#[test]
fn directory_tree_empty_dir_yields_no_lines() {
    let (tree, reads) = walk_all(TreeWalk::new(&b"/t".to_vec(), 2, 40), &[("/t", &[])]);
    assert!(tree.is_empty());
    assert_eq!(reads, vec!["/t"]);
}

#[test]
fn git_status_block_returns_none_for_non_repo() {
    assert!(git_status_block(false, &vec![]).is_none());
    assert!(git_status_block(false, &b"fatal: not a git repository".to_vec()).is_none());
}

#[test]
fn pane_id_for_entry_returns_none_without_workspace_or_agent() {
    let e = entry(Source::Workspace, "/tmp", "x");
    // No workspace_id and no agent_target -> None (no Herdr call needed to
    // know it cannot resolve).
    assert!(pane_id_for_entry(&e, None).is_none());
    assert!(pane_list_args(&e).is_none());
}

#[test]
fn trees_draw_every_level() {
    let (tree, reads) = walk_all(
        TreeWalk::new(&b"/t".to_vec(), 2, 40),
        &[
            (
                "/t",
                &[
                    ("z", ItemKind::Dir),
                    ("notes.md", ItemKind::File),
                    ("a", ItemKind::Dir),
                ],
            ),
            ("/t/a", &[("deep", ItemKind::Dir), ("x", ItemKind::File)]),
            ("/t/z", &[("y", ItemKind::File)]),
            ("/t/a/deep", &[("hidden", ItemKind::File)]),
        ],
    );
    assert_eq!(
        tree,
        vec![
            "├── a/",
            "│   ├── deep/",
            "│   └── x",
            "├── z/",
            "│   └── y",
            "└── notes.md",
        ]
    );
    assert_eq!(reads, vec!["/t", "/t/a", "/t/z"]);
}

#[test]
fn trees_indent_below_the_last_item_without_a_bar() {
    let (tree, _) = walk_all(
        TreeWalk::new(&b"/t".to_vec(), 3, 40),
        &[
            ("/t", &[("a", ItemKind::Dir)]),
            ("/t/a", &[("b", ItemKind::Dir)]),
            ("/t/a/b", &[("c", ItemKind::File)]),
        ],
    );
    assert_eq!(tree, vec!["└── a/", "    └── b/", "        └── c"]);
}

#[test]
fn trees_of_one_level_read_the_root_only() {
    for depth in [0, 1] {
        let (tree, reads) = walk_all(
            TreeWalk::new(&b"/t".to_vec(), depth, 40),
            &[
                ("/t", &[("a", ItemKind::Dir)]),
                ("/t/a", &[("b", ItemKind::File)]),
            ],
        );
        assert_eq!(tree, vec!["└── a/"]);
        assert_eq!(reads, vec!["/t"]);
    }
}

#[test]
fn trees_skip_links_and_what_cannot_be_read() {
    let (tree, reads) = walk_all(
        TreeWalk::new(&b"/t".to_vec(), 2, 40),
        &[(
            "/t",
            &[
                ("link", ItemKind::Link),
                ("locked", ItemKind::Dir),
                ("odd", ItemKind::Unknown),
                ("plain", ItemKind::File),
            ],
        )],
    );
    assert_eq!(tree, vec!["├── locked/", "└── plain"]);
    assert_eq!(reads, vec!["/t", "/t/locked"]);
    let (nothing, _) = walk_all(TreeWalk::new(&b"/gone".to_vec(), 2, 40), &[]);
    assert!(nothing.is_empty());
}

#[test]
fn a_full_tree_says_so_on_every_open_level() {
    let (tree, reads) = walk_all(
        TreeWalk::new(&b"/t".to_vec(), 2, 2),
        &[
            ("/t", &[("a", ItemKind::Dir), ("b", ItemKind::File)]),
            (
                "/t/a",
                &[
                    ("x", ItemKind::File),
                    ("y", ItemKind::File),
                    ("z", ItemKind::File),
                ],
            ),
        ],
    );
    assert_eq!(
        tree,
        vec!["├── a/", "│   ├── x", "… (2 more)", "… (1 more)"]
    );
    assert_eq!(reads, vec!["/t", "/t/a"]);
}

#[test]
fn a_walk_ends_when_it_asks_for_nothing() {
    let walk = TreeWalk::new(&b"/t".to_vec(), 2, 40);
    assert_eq!(walk.next_directory(), Some(&b"/t".to_vec()));
    assert!(walk.finish().is_none());
    let walk = TreeWalk::new(&b"/t".to_vec(), 2, 40).supply(None);
    assert_eq!(walk.next_directory(), None);
    let walk = walk.supply(Some(vec![item("/t", "a", ItemKind::File)]));
    assert_eq!(walk.finish().unwrap(), Vec::<String>::new());
}

#[test]
fn items_are_arranged_by_kind_and_name() {
    let list = arrange(vec![
        item("/t", "b", ItemKind::File),
        item("/t", "l", ItemKind::Link),
        item("/t", "z", ItemKind::Dir),
        item("/t", "B", ItemKind::File),
        item("/t", "y", ItemKind::Dir),
    ]);
    let names: Vec<&str> = list.iter().map(|item| item.name.as_str()).collect();
    assert_eq!(names, vec!["y", "z", "B", "b"]);
}

#[test]
fn the_tree_of_a_preview_follows_the_settings() {
    let mut config = Config::default();
    config.picker.preview_tree_depth = 1;
    let items: Vec<(String, ItemKind)> = (0..42)
        .map(|i| (format!("f{i:02}"), ItemKind::File))
        .collect();
    let listing: Vec<(&str, ItemKind)> = items
        .iter()
        .map(|(name, kind)| (name.as_str(), *kind))
        .collect();
    let (tree, _) = walk_all(
        directory_tree(&entry(Source::Root, "/t", "t"), &config),
        &[("/t", listing.as_slice())],
    );
    assert_eq!(tree.len(), 41);
    assert_eq!(tree[39], "├── f39");
    assert_eq!(tree[40], "… (2 more)");
}

#[test]
fn headers_have_a_name_and_a_value_on_each_line() {
    let mut e = entry(Source::Integration, "/tmp", "x");
    e.source_label = Some("docker".into());
    let lines = header_lines(&e);
    assert_eq!(
        texts(&lines),
        vec!["type: docker", "title: x", "path: /tmp"]
    );
    assert_eq!(lines[0].spans.len(), 2);
    assert_eq!(lines[0].spans[1].fg, None);
}

#[test]
fn previews_are_made_of_what_their_source_calls_for() {
    let config = Config::default();
    assert_eq!(
        preview_part(&entry(Source::Agent, "", ""), &config),
        PreviewPart::Scrollback
    );
    assert_eq!(
        preview_part(&entry(Source::Workspace, "", ""), &config),
        PreviewPart::Scrollback
    );
    assert_eq!(
        preview_part(&entry(Source::Root, "", ""), &config),
        PreviewPart::Directory { git_status: true }
    );
    assert_eq!(
        preview_part(&entry(Source::Session, "", ""), &config),
        PreviewPart::Nothing
    );
    let other = build_preview(&entry(Source::Session, "", "s"), &config, None, None, &vec![]);
    assert_eq!(other.len(), 3);
}

#[test]
fn panes_show_their_scrollback_or_say_that_there_is_none() {
    let config = Config::default();
    let e = entry(Source::Workspace, "/tmp", "x");
    let none = build_preview(&e, &config, None, None, &vec![]);
    assert_eq!(
        texts(&none)[3..],
        ["", "no scrollback available for this pane"]
    );
    let some = build_preview(&e, &config, pane_scrollback("one\ntwo\n"), None, &vec![]);
    assert_eq!(texts(&some)[3..], ["", "one", "two"]);
}

#[test]
fn directories_show_their_git_status_above_their_tree() {
    let mut config = Config::default();
    let e = entry(Source::Zoxide, "/tmp", "x");
    let tree = vec!["└── a".to_string()];
    let status = || git_status_lines("## main\n M a\n");
    let full = build_preview(&e, &config, None, status(), &tree);
    assert_eq!(
        texts(&full)[3..],
        ["", "git status", "──────────", "## main", " M a", "", "└── a"]
    );
    config.picker.preview_git_status = false;
    let plain = build_preview(&e, &config, None, status(), &tree);
    assert_eq!(texts(&plain)[3..], ["", "└── a"]);
    let empty = build_preview(&e, &config, None, None, &vec![]);
    assert_eq!(texts(&empty)[3..], ["", "(empty or unreadable directory)"]);
}

#[test]
fn escapes_become_styles() {
    let lines = pane_scrollback("\u{1b}[1;31mred\u{1b}[0m plain\n\u{1b}[48;2;1;2;3mbg").unwrap();
    assert_eq!(texts(&lines), vec!["red plain", "bg"]);
    assert_eq!(lines[0].spans[0].fg.as_deref(), Some("Red"));
    assert_eq!(lines[0].spans[0].add_modifier, 1);
    assert_eq!(lines[0].spans[1].content, " plain");
    assert_eq!(lines[0].spans[1].fg.as_deref(), Some("Reset"));
    assert_eq!(lines[1].spans[0].bg.as_deref(), Some("#010203"));
}

#[test]
fn blank_scrollback_is_none() {
    assert!(pane_scrollback("").is_none());
    assert!(pane_scrollback(" \n\t\n").is_none());
}

#[test]
fn agents_show_their_own_pane() {
    let mut e = entry(Source::Agent, "/tmp", "x");
    e.agent_target = Some("term_1".into());
    e.workspace_id = Some("w1".into());
    assert!(pane_list_args(&e).is_none());
    assert_eq!(pane_id_for_entry(&e, None), Some("term_1".into()));
}

#[test]
fn workspaces_show_their_focused_pane_or_their_first() {
    let mut e = entry(Source::Workspace, "/tmp", "x");
    e.workspace_id = Some("w1".into());
    assert_eq!(
        pane_list_args(&e).unwrap(),
        vec!["pane", "list", "--workspace", "w1"]
    );
    let focused = Data::from_json(
        r#"{"result": {"panes": [{"pane_id": "p1"}, {"pane_id": "p2", "focused": true}]}}"#,
    )
    .unwrap();
    assert_eq!(pane_id_for_entry(&e, Some(&focused)), Some("p2".into()));
    let first = Data::from_json(
        r#"{"result": {"panes": [{"pane_id": "p1", "focused": false}, {"focused": true}]}}"#,
    )
    .unwrap();
    assert_eq!(pane_id_for_entry(&e, Some(&first)), Some("p1".into()));
    let none = Data::from_json(r#"{"result": {"panes": []}}"#).unwrap();
    assert_eq!(pane_id_for_entry(&e, Some(&none)), None);
    assert_eq!(pane_id_for_entry(&e, Some(&Data::Null)), None);
    assert_eq!(pane_id_for_entry(&e, None), None);
}

#[test]
fn panes_are_read_by_at_least_one_line() {
    let mut config = Config::default();
    config.picker.preview_scrollback_lines = 0;
    let args = pane_read_args("p1", &config);
    assert_eq!(
        args,
        vec![
            "pane", "read", "p1", "--source", "recent", "--lines", "1", "--format", "ansi"
        ]
    );
    config.picker.preview_scrollback_lines = 250;
    assert_eq!(pane_read_args("p1", &config)[6], "250");
}

#[test]
fn git_is_asked_for_a_short_status() {
    assert_eq!(
        git_status_args(&FilePath::from_text("/tmp")).unwrap(),
        vec!["-C", "/tmp", "status", "--short", "--branch", "--show-stash"]
    );
}

#[test]
fn git_status_is_split_into_lines() {
    let block = git_status_block(true, &b"## main\r\n\r\n M \xff\n\n".to_vec()).unwrap();
    assert_eq!(texts(&block), vec!["## main", "", " M \u{fffd}"]);
    assert_eq!(block[1].spans.len(), 0);
    assert!(git_status_block(true, &b" \n".to_vec()).is_none());
}

#[test]
fn directories_that_no_text_spells_are_walked() {
    let mut e = entry(Source::Root, "", "odd");
    e.path = FilePath::from_bytes(b"/a\xff".to_vec());
    let walk = directory_tree(&e, &Config::default());
    assert_eq!(walk.next_directory(), Some(&b"/a\xff".to_vec()));
    let walk = walk.supply(Some(vec![DirItem {
        name: "b\u{fffd}".into(),
        path: b"/a\xff/b\xfe".to_vec(),
        kind: ItemKind::Dir,
    }]));
    assert_eq!(walk.next_directory(), Some(&b"/a\xff/b\xfe".to_vec()));
    assert_eq!(
        walk.supply(None).finish().unwrap(),
        vec!["└── b\u{fffd}/"]
    );
    assert!(git_status_args(&e.path).is_none());
    assert_eq!(texts(&header_lines(&e))[2], "path: /a\u{fffd}");
}
