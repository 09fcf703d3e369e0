//! The preview of an entry: a pane's scrollback, or a directory's tree below its git status.

use crate::config::Config;
use crate::data::{trees, Data, DataView};
use crate::dir_tree::{tree_walk, Limits, Listings, TreeWalk};
use crate::file_path::FilePath;
use crate::model::{Entry, EntryView, Source};
use crate::text::{
    content, contents, decimal, decimal_text, lines, lines_of, lossy_text, push_text, str_content,
    trim_end, trimmed_end, utf8_lossy,
};
use ansi_to_tui::IntoText;
use vstd::prelude::*;
use vstd::utf8::{decode_utf8, valid_utf8};

verus! {

/// A piece of a line in one style. Colours go by the names that `ratatui` gives them, and the
/// modifiers are the bits of its `Modifier`.
#[derive(Debug)]
pub struct StyledSpan {
    pub content: String,
    pub fg: Option<String>,
    pub bg: Option<String>,
    pub add_modifier: u16,
    pub sub_modifier: u16,
}

/// A line of styled pieces.
#[derive(Debug)]
pub struct StyledLine {
    pub spans: Vec<StyledSpan>,
}

/// A piece of a line in one style.
pub struct SpanView {
    pub content: Seq<char>,
    pub fg: Option<Seq<char>>,
    pub bg: Option<Seq<char>>,
    pub add_modifier: u16,
    pub sub_modifier: u16,
}

impl View for StyledSpan {
    type V = SpanView;

    open spec fn view(&self) -> SpanView {
        SpanView {
            content: self.content@,
            fg: content(self.fg),
            bg: content(self.bg),
            add_modifier: self.add_modifier,
            sub_modifier: self.sub_modifier,
        }
    }
}

impl View for StyledLine {
    type V = Seq<SpanView>;

    open spec fn view(&self) -> Seq<SpanView> {
        Seq::new(self.spans@.len(), |i: int| self.spans@[i]@)
    }
}

/// The pieces of each line.
pub open spec fn line_views(list: Seq<StyledLine>) -> Seq<Seq<SpanView>> {
    Seq::new(list.len(), |i: int| list[i]@)
}

/// The pieces of each line, where there are lines.
pub open spec fn block_view(block: Option<Vec<StyledLine>>) -> Option<Seq<Seq<SpanView>>> {
    match block {
        Some(list) => Some(line_views(list@)),
        None => None,
    }
}

/// The lines that `ansi_to_tui` makes of a text with ANSI escapes.
pub uninterp spec fn ansi_lines(text: Seq<char>) -> Option<Seq<Seq<SpanView>>>;

/// `ansi_to_tui::IntoText::into_text` turns a text with ANSI escapes into styled lines, which
/// depend on the text alone. Which lines those are this contract does not say. They are taken over
/// piece by piece; the styles and alignments of whole lines, which it leaves unset, are not.
#[verifier::external_body]
fn parse_ansi(text: &str) -> (parsed: Option<Vec<StyledLine>>)
    ensures
        block_view(parsed) == ansi_lines(text@),
{
    let taken = |span: ratatui::text::Span<'static>| StyledSpan {
        content: span.content.into_owned(),
        fg: span.style.fg.map(|color| color.to_string()),
        bg: span.style.bg.map(|color| color.to_string()),
        add_modifier: span.style.add_modifier.bits(),
        sub_modifier: span.style.sub_modifier.bits(),
    };
    text.into_text().ok().map(|text| text.lines.into_iter().map(|line| StyledLine {
        spans: line.spans.into_iter().map(taken).collect(),
    }).collect())
}

/// A piece without a style.
pub open spec fn raw(text: Seq<char>) -> SpanView {
    SpanView { content: text, fg: None, bg: None, add_modifier: 0, sub_modifier: 0 }
}

/// A line of text without a style. An empty one has no pieces.
pub open spec fn plain_line(text: Seq<char>) -> Seq<SpanView> {
    if text.len() == 0 {
        Seq::empty()
    } else {
        seq![raw(text)]
    }
}

/// The lines of a text without a style.
pub open spec fn plain_lines(text: Seq<char>) -> Seq<Seq<SpanView>> {
    lines(text).map_values(|line: Seq<char>| plain_line(line))
}

fn raw_span(text: &str) -> (span: StyledSpan)
    ensures
        span@ == raw(text@),
{
    StyledSpan {
        content: text.to_owned(),
        fg: None,
        bg: None,
        add_modifier: 0,
        sub_modifier: 0,
    }
}

fn blank_line() -> (line: StyledLine)
    ensures
        line@ == Seq::<SpanView>::empty(),
{
    let line = StyledLine { spans: Vec::new() };
    assert(line@ =~= Seq::<SpanView>::empty());
    line
}

fn span_line(text: &str) -> (line: StyledLine)
    ensures
        line@ == seq![raw(text@)],
{
    let mut spans: Vec<StyledSpan> = Vec::new();
    spans.push(raw_span(text));
    let line = StyledLine { spans };
    assert(line@ =~= seq![raw(text@)]);
    line
}

fn pair_line(name: &str, value: &str) -> (line: StyledLine)
    ensures
        line@ == seq![raw(name@), raw(value@)],
{
    let mut spans: Vec<StyledSpan> = Vec::new();
    spans.push(raw_span(name));
    spans.push(raw_span(value));
    let line = StyledLine { spans };
    assert(line@ =~= seq![raw(name@), raw(value@)]);
    line
}

fn push_line(list: &mut Vec<StyledLine>, line: StyledLine)
    ensures
        line_views(final(list)@) == line_views(old(list)@).push(line@),
{
    list.push(line);
    assert(line_views(list@) =~= line_views(old(list)@).push(line@));
}

fn push_lines(list: &mut Vec<StyledLine>, more: Vec<StyledLine>)
    ensures
        line_views(final(list)@) == line_views(old(list)@) + line_views(more@),
{
    let ghost added = more@;
    let mut rest: Vec<StyledLine> = more;
    list.append(&mut rest);
    assert(line_views(list@) =~= line_views(old(list)@) + line_views(added));
}

/// The first lines of every preview: the entry's type, title and path.
pub open spec fn header(e: EntryView) -> Seq<Seq<SpanView>> {
    seq![
        seq![raw("type: "@), raw(e.source_name())],
        seq![raw("title: "@), raw(e.title)],
        seq![raw("path: "@), raw(e.path)],
    ]
}

/// The first lines of every preview: the entry's type, title and path.
pub fn header_lines(entry: &Entry) -> (list: Vec<StyledLine>)
    ensures
        line_views(list@) == header(entry@),
{
    let mut list: Vec<StyledLine> = Vec::new();
    push_line(&mut list, pair_line("type: ", entry.source_name()));
    push_line(&mut list, pair_line("title: ", entry.title.as_str()));
    push_line(&mut list, pair_line("path: ", entry.path.shown()));
    assert(line_views(list@) =~= header(entry@));
    list
}

/// What a preview is made of beside its header.
#[derive(Clone, Copy, Debug, PartialEq, Eq, Structural)]
pub enum PreviewPart {
    /// A pane's scrollback.
    Scrollback,
    /// A directory's tree, below its git status where that is asked for.
    Directory { git_status: bool },
    Nothing,
}

/// What the preview of an entry is made of beside its header.
pub open spec fn part_of(source: Source, git_status: bool) -> PreviewPart {
    match source {
        Source::Agent => PreviewPart::Scrollback,
        Source::Workspace => PreviewPart::Scrollback,
        Source::Zoxide => PreviewPart::Directory { git_status },
        Source::Root => PreviewPart::Directory { git_status },
        _ => PreviewPart::Nothing,
    }
}

/// What the preview of an entry is made of beside its header.
pub fn preview_part(entry: &Entry, config: &Config) -> (part: PreviewPart)
    ensures
        part == part_of(entry@.source, config.picker.preview_git_status),
{
    match entry.source {
        Source::Agent | Source::Workspace => PreviewPart::Scrollback,
        Source::Zoxide | Source::Root => PreviewPart::Directory {
            git_status: config.picker.preview_git_status,
        },
        _ => PreviewPart::Nothing,
    }
}

/// The lines of a preview.
pub open spec fn preview(
    e: EntryView,
    git_status: bool,
    scrollback: Option<Seq<Seq<SpanView>>>,
    git: Option<Seq<Seq<SpanView>>>,
    tree: Seq<Seq<char>>,
) -> Seq<Seq<SpanView>> {
    let blank = Seq::<SpanView>::empty();
    header(e) + (match part_of(e.source, git_status) {
        PreviewPart::Scrollback => seq![blank] + (match scrollback {
            Some(list) => list,
            None => seq![seq![raw("no scrollback available for this pane"@)]],
        }),
        PreviewPart::Directory { git_status } => {
            (match git {
                Some(list) if git_status => seq![
                    blank,
                    seq![raw("git status"@)],
                    seq![raw("──────────"@)],
                ] + list,
                _ => Seq::empty(),
            }) + seq![blank] + (if tree.len() == 0 {
                seq![seq![raw("(empty or unreadable directory)"@)]]
            } else {
                tree.map_values(|line: Seq<char>| seq![raw(line)])
            })
        },
        PreviewPart::Nothing => Seq::empty(),
    })
}

/// The preview of an entry: its header, and below it what `preview_part` says. `scrollback` is that
/// of the entry's pane, where there is any; `git` is the git status of the entry's directory, where
/// it has one; `tree` holds the lines of the directory's tree.
pub fn build_preview(
    entry: &Entry,
    config: &Config,
    scrollback: Option<Vec<StyledLine>>,
    git: Option<Vec<StyledLine>>,
    tree: &Vec<String>,
) -> (list: Vec<StyledLine>)
    ensures
        line_views(list@) == preview(
            entry@,
            config.picker.preview_git_status,
            block_view(scrollback),
            block_view(git),
            contents(tree@),
        ),
{
    let ghost whole = preview(
        entry@,
        config.picker.preview_git_status,
        block_view(scrollback),
        block_view(git),
        contents(tree@),
    );
    let mut list: Vec<StyledLine> = header_lines(entry);
    match preview_part(entry, config) {
        PreviewPart::Scrollback => {
            push_line(&mut list, blank_line());
            match scrollback {
                Some(text) => push_lines(&mut list, text),
                None => push_line(&mut list, span_line("no scrollback available for this pane")),
            }
        },
        PreviewPart::Directory { git_status } => {
            if git_status {
                if let Some(block) = git {
                    push_line(&mut list, blank_line());
                    push_line(&mut list, span_line("git status"));
                    push_line(&mut list, span_line("──────────"));
                    push_lines(&mut list, block);
                }
            }
            push_line(&mut list, blank_line());
            if tree.is_empty() {
                push_line(&mut list, span_line("(empty or unreadable directory)"));
            } else {
                push_tree(&mut list, tree);
            }
        },
        PreviewPart::Nothing => {},
    }
    assert(line_views(list@) =~= whole);
    list
}

fn push_tree(list: &mut Vec<StyledLine>, tree: &Vec<String>)
    ensures
        line_views(final(list)@) == line_views(old(list)@) + contents(tree@).map_values(
            |line: Seq<char>| seq![raw(line)],
        ),
{
    let ghost start = line_views(list@);
    let ghost shown = contents(tree@).map_values(|line: Seq<char>| seq![raw(line)]);
    let mut i: usize = 0;
    assert(start + shown.take(0) =~= start);
    while i < tree.len()
        invariant
            i <= tree.len(),
            shown == contents(tree@).map_values(|line: Seq<char>| seq![raw(line)]),
            line_views(list@) == start + shown.take(i as int),
        decreases tree.len() - i,
    {
        push_line(list, span_line(tree[i].as_str()));
        assert((start + shown.take(i as int)).push(seq![raw(tree@[i as int]@)]) =~= start
            + shown.take(i + 1));
        i += 1;
    }
    assert(shown.take(i as int) =~= shown);
}

/// The pane of the first focused item in a list of panes.
pub open spec fn focused_pane(panes: Seq<DataView>) -> Option<Seq<char>>
    decreases panes.len(),
{
    if panes.len() == 0 {
        None
    } else if panes[0].member_true("focused"@) {
        panes[0].member_text("pane_id"@)
    } else {
        focused_pane(panes.drop_first())
    }
}

/// The pane to show of a workspace's panes: the focused one, or else the first.
pub open spec fn pane_in(panes: Seq<DataView>) -> Option<Seq<char>> {
    if focused_pane(panes) is Some {
        focused_pane(panes)
    } else if panes.len() > 0 {
        panes[0].member_text("pane_id"@)
    } else {
        None
    }
}

/// The pane to show for an entry: an agent's own, or the one that Herdr's list of the workspace's
/// panes points to.
pub open spec fn pane_of(e: EntryView, reply: Option<DataView>) -> Option<Seq<char>> {
    if e.agent_target is Some {
        e.agent_target
    } else if e.workspace_id is Some && reply is Some {
        match reply->0.result_list("panes"@) {
            Some(panes) => pane_in(panes),
            None => None,
        }
    } else {
        None
    }
}

/// What Herdr is called with to list the panes that `pane_id_for_entry` chooses from; none where it
/// needs no list.
pub fn pane_list_args(entry: &Entry) -> (args: Option<Vec<String>>)
    ensures
        args is Some <==> entry@.agent_target is None && entry@.workspace_id is Some,
        args matches Some(list) ==> contents(list@) == seq![
            "pane"@,
            "list"@,
            "--workspace"@,
            entry@.workspace_id->0,
        ],
{
    if entry.agent_target.is_some() {
        return None;
    }
    match &entry.workspace_id {
        Some(id) => {
            let mut args: Vec<String> = Vec::new();
            push_text(&mut args, "pane");
            push_text(&mut args, "list");
            push_text(&mut args, "--workspace");
            push_text(&mut args, id.as_str());
            assert(contents(args@) =~= seq!["pane"@, "list"@, "--workspace"@, id@]);
            Some(args)
        },
        None => None,
    }
}

/// The pane to show for an entry. `reply` is Herdr's answer to `pane_list_args`, where there is one.
pub fn pane_id_for_entry(entry: &Entry, reply: Option<&Data>) -> (pane: Option<String>)
    ensures
        content(pane) == pane_of(
            entry@,
            match reply {
                Some(data) => Some(data@),
                None => None,
            },
        ),
{
    if let Some(target) = &entry.agent_target {
        return Some(target.clone());
    }
    if entry.workspace_id.is_none() {
        return None;
    }
    match reply {
        Some(data) => match data.result_list("panes") {
            Some(panes) => pane_among(panes),
            None => None,
        },
        None => None,
    }
}

fn pane_among(panes: &Vec<Data>) -> (pane: Option<String>)
    ensures
        content(pane) == pane_in(trees(panes@)),
{
    let ghost all = trees(panes@);
    let mut focused: Option<&str> = None;
    let mut i: usize = 0;
    assert(all.skip(0) == all);
    while i < panes.len()
        invariant_except_break
            i <= panes.len(),
            all == trees(panes@),
            focused is None,
            focused_pane(all) == focused_pane(all.skip(i as int)),
        ensures
            str_content(focused) == focused_pane(all),
        decreases panes.len() - i,
    {
        assert(all.skip(i as int)[0] == panes@[i as int]@);
        if panes[i].member_true("focused") {
            focused = panes[i].member_text("pane_id");
            break;
        }
        assert(all.skip(i as int).drop_first() =~= all.skip(i + 1));
        i += 1;
    }
    match focused {
        Some(pane) => Some(pane.to_owned()),
        None => if panes.len() > 0 {
            match panes[0].member_text("pane_id") {
                Some(pane) => Some(pane.to_owned()),
                None => None,
            }
        } else {
            None
        },
    }
}

/// What Herdr is called with to read a pane's recent scrollback: at least one line.
pub fn pane_read_args(pane: &str, config: &Config) -> (args: Vec<String>)
    ensures
        contents(args@) == seq![
            "pane"@,
            "read"@,
            pane@,
            "--source"@,
            "recent"@,
            "--lines"@,
            decimal(
                if config.picker.preview_scrollback_lines > 0 {
                    config.picker.preview_scrollback_lines as nat
                } else {
                    1
                },
            ),
            "--format"@,
            "ansi"@,
        ],
{
    let limit: u64 = if config.picker.preview_scrollback_lines > 0 {
        config.picker.preview_scrollback_lines as u64
    } else {
        1
    };
    let mut args: Vec<String> = Vec::new();
    push_text(&mut args, "pane");
    push_text(&mut args, "read");
    push_text(&mut args, pane);
    push_text(&mut args, "--source");
    push_text(&mut args, "recent");
    push_text(&mut args, "--lines");
    push_text(&mut args, decimal_text(limit).as_str());
    push_text(&mut args, "--format");
    push_text(&mut args, "ansi");
    assert(contents(args@) =~= seq![
        "pane"@,
        "read"@,
        pane@,
        "--source"@,
        "recent"@,
        "--lines"@,
        decimal(limit as nat),
        "--format"@,
        "ansi"@,
    ]);
    args
}

/// A pane's scrollback as styled lines, from the text that Herdr read.
pub open spec fn scrollback_of(read: Seq<char>) -> Option<Seq<Seq<SpanView>>> {
    if trimmed_end(read).len() > 0 {
        ansi_lines(trimmed_end(read))
    } else {
        None
    }
}

/// A pane's scrollback as styled lines, from the text that Herdr read. White space alone is none.
pub fn pane_scrollback(read: &str) -> (text: Option<Vec<StyledLine>>)
    ensures
        block_view(text) == scrollback_of(read@),
{
    let shown: &str = trim_end(read);
    if shown.is_empty() {
        return None;
    }
    parse_ansi(shown)
}

/// What git is called with for the status of a directory; nothing where no text spells its path.
pub fn git_status_args(path: &FilePath) -> (args: Option<Vec<String>>)
    ensures
        args is Some <==> valid_utf8(path@),
        args matches Some(list) ==> contents(list@) == seq![
            "-C"@,
            decode_utf8(path@),
            "status"@,
            "--short"@,
            "--branch"@,
            "--show-stash"@,
        ],
{
    let text: String = match path.text() {
        Some(text) => text,
        None => {
            return None;
        },
    };
    let mut args: Vec<String> = Vec::new();
    push_text(&mut args, "-C");
    push_text(&mut args, text.as_str());
    push_text(&mut args, "status");
    push_text(&mut args, "--short");
    push_text(&mut args, "--branch");
    push_text(&mut args, "--show-stash");
    assert(contents(args@) =~= seq![
        "-C"@,
        text@,
        "status"@,
        "--short"@,
        "--branch"@,
        "--show-stash"@,
    ]);
    Some(args)
}

/// The lines of a git status, from its text. White space alone is none.
pub open spec fn status_block(text: Seq<char>) -> Option<Seq<Seq<SpanView>>> {
    if trimmed_end(text).len() > 0 {
        Some(plain_lines(trimmed_end(text)))
    } else {
        None
    }
}

/// The lines of a git status, from what git wrote and whether it went well. Outside a repository it
/// does not.
pub fn git_status_block(success: bool, output: &Vec<u8>) -> (block: Option<Vec<StyledLine>>)
    ensures
        block_view(block) == (if success {
            status_block(utf8_lossy(output@))
        } else {
            None
        }),
        success && valid_utf8(output@) ==> block_view(block) == status_block(
            decode_utf8(output@),
        ),
{
    if !success {
        return None;
    }
    git_status_lines(lossy_text(output).as_str())
}

/// The lines of a git status, from its text.
pub fn git_status_lines(text: &str) -> (block: Option<Vec<StyledLine>>)
    ensures
        block_view(block) == status_block(text@),
{
    let shown: &str = trim_end(text);
    if shown.is_empty() {
        return None;
    }
    let split: Vec<String> = lines_of(shown);
    let ghost whole = plain_lines(shown@);
    let mut list: Vec<StyledLine> = Vec::new();
    let mut i: usize = 0;
    assert(line_views(list@) =~= whole.take(0));
    while i < split.len()
        invariant
            i <= split.len(),
            contents(split@) == lines(shown@),
            whole == plain_lines(shown@),
            line_views(list@) == whole.take(i as int),
        decreases split.len() - i,
    {
        let line: StyledLine = if split[i].as_str().is_empty() {
            blank_line()
        } else {
            span_line(split[i].as_str())
        };
        assert(contents(split@)[i as int] == split@[i as int]@);
        assert(line@ == plain_line(split@[i as int]@));
        push_line(&mut list, line);
        assert(whole.take(i as int).push(line@) =~= whole.take(i + 1));
        i += 1;
    }
    assert(whole.take(i as int) =~= whole);
    Some(list)
}

/// How far the tree of a preview goes: forty items for each level of the configured depth.
pub open spec fn tree_limits(depth: nat) -> Limits {
    Limits { max_depth: depth, max_entries: depth * 40 }
}

/// The walk of the tree that the preview of an entry shows: of the configured depth, and forty items
/// for each level.
pub fn directory_tree(entry: &Entry, config: &Config) -> (walk: TreeWalk)
    requires
        config.picker.preview_tree_depth * 40 <= usize::MAX,
    ensures
        walk.asks() == Some(entry@.path_bytes),
        forall|listings: Listings| #[trigger]
            walk.outcome(listings) == tree_walk(
                listings,
                entry@.path_bytes,
                tree_limits(config.picker.preview_tree_depth as nat),
            ),
{
    let depth: u32 = config.picker.preview_tree_depth;
    TreeWalk::new(entry.path.bytes(), depth, depth as usize * 40)
}

} // verus!
