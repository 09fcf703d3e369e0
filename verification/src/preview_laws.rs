//! What holds of previews: what stands below the header, and which pane is shown.

use crate::data::DataView;
use crate::laws::all_white;
use crate::model::{EntryView, Source};
use crate::preview::{
    ansi_lines, focused_pane, pane_in, pane_of, part_of, preview, scrollback_of, status_block,
    PreviewPart, SpanView,
};
use crate::text::{lines, trimmed_end, white_space};
use crate::text_laws::law_trimming_white_space_leaves_nothing;
use vstd::prelude::*;

verus! {

/// A piece of text without a style.
pub open spec fn unstyled(piece: SpanView, text: Seq<char>) -> bool {
    &&& piece.content == text
    &&& piece.fg is None
    &&& piece.bg is None
    &&& piece.add_modifier == 0
    &&& piece.sub_modifier == 0
}

/// Each preview starts with the type, the title and the path of the entry, in lines of their own.
pub proof fn law_previews_name_the_entry(
    e: EntryView,
    git_status: bool,
    scrollback: Option<Seq<Seq<SpanView>>>,
    git: Option<Seq<Seq<SpanView>>>,
    tree: Seq<Seq<char>>,
)
    ensures
        ({
            let shown = preview(e, git_status, scrollback, git, tree);
            &&& shown.len() >= 3
            &&& shown[0].len() == 2 && unstyled(shown[0][0], "type: "@) && unstyled(
                shown[0][1],
                e.source_name(),
            )
            &&& shown[1].len() == 2 && unstyled(shown[1][0], "title: "@) && unstyled(
                shown[1][1],
                e.title,
            )
            &&& shown[2].len() == 2 && unstyled(shown[2][0], "path: "@) && unstyled(
                shown[2][1],
                e.path,
            )
        }),
{
}

/// For an agent or a workspace whose scrollback was read, the preview below the header is one blank
/// line and then exactly the lines of the scrollback.
pub proof fn law_scrollback_is_shown_below_the_header(
    e: EntryView,
    git_status: bool,
    scrollback: Seq<Seq<SpanView>>,
    git: Option<Seq<Seq<SpanView>>>,
    tree: Seq<Seq<char>>,
)
    requires
        e.source == Source::Agent || e.source == Source::Workspace,
    ensures
        preview(e, git_status, Some(scrollback), git, tree).len() == 4 + scrollback.len(),
        preview(e, git_status, Some(scrollback), git, tree)[3].len() == 0,
        preview(e, git_status, Some(scrollback), git, tree).skip(4) == scrollback,
        preview(e, git_status, None, git, tree).len() == 5,
        preview(e, git_status, None, git, tree)[3].len() == 0,
        preview(e, git_status, None, git, tree)[4].len() == 1,
        unstyled(
            preview(e, git_status, None, git, tree)[4][0],
            "no scrollback available for this pane"@,
        ),
{
    let shown = preview(e, git_status, Some(scrollback), git, tree);
    assert(shown.skip(4) =~= scrollback);
}

/// For a directory the preview ends in a blank line and the lines of its tree, or a note where it has
/// none. Without a git status nothing stands between that and the header.
pub proof fn law_the_tree_is_shown_last(
    e: EntryView,
    git_status: bool,
    scrollback: Option<Seq<Seq<SpanView>>>,
    git: Option<Seq<Seq<SpanView>>>,
    tree: Seq<Seq<char>>,
    k: int,
)
    requires
        e.source == Source::Zoxide || e.source == Source::Root,
        git is None || !git_status,
    ensures
        tree.len() > 0 ==> {
            let shown = preview(e, git_status, scrollback, git, tree);
            &&& shown.len() == 4 + tree.len()
            &&& shown[3].len() == 0
            &&& 0 <= k < tree.len() ==> shown[4 + k].len() == 1 && unstyled(
                shown[4 + k][0],
                tree[k],
            )
        },
        tree.len() == 0 ==> {
            let shown = preview(e, git_status, scrollback, git, tree);
            &&& shown.len() == 5
            &&& shown[3].len() == 0
            &&& shown[4].len() == 1
            &&& unstyled(shown[4][0], "(empty or unreadable directory)"@)
        },
{
}

/// Where the git status is asked for and there is one, it stands under a title between the header and
/// the tree, which is otherwise the same.
pub proof fn law_the_git_status_stands_above_the_tree(
    e: EntryView,
    scrollback: Option<Seq<Seq<SpanView>>>,
    git: Seq<Seq<SpanView>>,
    tree: Seq<Seq<char>>,
)
    requires
        e.source == Source::Zoxide || e.source == Source::Root,
    ensures
        ({
            let shown = preview(e, true, scrollback, Some(git), tree);
            let without = preview(e, true, scrollback, None, tree);
            &&& shown.len() == without.len() + 3 + git.len()
            &&& shown.take(3) == without.take(3)
            &&& shown[3].len() == 0
            &&& shown[4].len() == 1 && unstyled(shown[4][0], "git status"@)
            &&& shown[5].len() == 1 && unstyled(shown[5][0], "──────────"@)
            &&& shown.subrange(6, 6 + git.len() as int) == git
            &&& shown.skip(6 + git.len() as int) == without.skip(3)
        }),
{
    let shown = preview(e, true, scrollback, Some(git), tree);
    let without = preview(e, true, scrollback, None, tree);
    assert(shown.take(3) =~= without.take(3));
    assert(shown.subrange(6, 6 + git.len() as int) =~= git);
    assert(shown.skip(6 + git.len() as int) =~= without.skip(3));
}

/// The preview of any other entry is its header only, and what is not asked for does not matter.
pub proof fn law_other_previews_are_the_header(
    e: EntryView,
    git_status: bool,
    scrollback: Option<Seq<Seq<SpanView>>>,
    git: Option<Seq<Seq<SpanView>>>,
    tree: Seq<Seq<char>>,
)
    ensures
        e.source != Source::Agent && e.source != Source::Workspace && e.source != Source::Zoxide
            && e.source != Source::Root ==> preview(e, git_status, scrollback, git, tree).len() == 3
            && part_of(e.source, git_status) == PreviewPart::Nothing,
        e.source == Source::Agent || e.source == Source::Workspace ==> part_of(e.source, git_status)
            == PreviewPart::Scrollback,
        e.source == Source::Zoxide || e.source == Source::Root ==> part_of(e.source, git_status) == (
        PreviewPart::Directory { git_status }),
{
}

proof fn lemma_more_white(text: Seq<char>, white: Seq<char>)
    requires
        all_white(white),
    ensures
        trimmed_end(text + white) == trimmed_end(text),
    decreases white.len(),
{
    if white.len() == 0 {
        assert(text + white =~= text);
    } else {
        let less = white.drop_last();
        assert((text + white).drop_last() =~= text + less);
        assert((text + white).last() == white.last());
        assert(white_space(white[white.len() - 1]));
        assert forall|i: int| 0 <= i < less.len() implies white_space(#[trigger] less[i]) by {
            assert(less[i] == white[i]);
        }
        lemma_more_white(text, less);
    }
}

/// White space at the end of what was read does not matter, and white space alone is nothing. What
/// ends in something else is shown whole.
pub proof fn law_trailing_white_space_is_not_shown(text: Seq<char>, white: Seq<char>)
    requires
        all_white(white),
    ensures
        scrollback_of(text + white) == scrollback_of(text),
        status_block(text + white) == status_block(text),
        scrollback_of(white) is None,
        status_block(white) is None,
        text.len() > 0 && !white_space(text.last()) ==> scrollback_of(text) == ansi_lines(text)
            && status_block(text) is Some,
{
    lemma_more_white(text, white);
    law_trimming_white_space_leaves_nothing(white);
    if text.len() > 0 && !white_space(text.last()) {
        assert(trimmed_end(text) == text);
    }
}

/// A git status is shown line by line, without a style; an empty line has no pieces.
pub proof fn law_the_git_status_is_shown_line_by_line(text: Seq<char>, k: int)
    requires
        text.len() > 0,
        !white_space(text.last()),
        0 <= k < lines(text).len(),
    ensures
        status_block(text) is Some,
        status_block(text)->0.len() == lines(text).len(),
        lines(text)[k].len() == 0 ==> status_block(text)->0[k].len() == 0,
        lines(text)[k].len() > 0 ==> status_block(text)->0[k].len() == 1 && unstyled(
            status_block(text)->0[k][0],
            lines(text)[k],
        ),
{
    assert(trimmed_end(text) == text);
}

/// The pane that is shown of a workspace is the first focused one, or the first where that has no
/// identifier or none is focused.
pub proof fn law_the_focused_pane_is_shown(panes: Seq<DataView>, i: int)
    ensures
        0 <= i < panes.len() && panes[i].member_true("focused"@) && (forall|j: int|
            0 <= j < i ==> !(#[trigger] panes[j]).member_true("focused"@)) && panes[i].member_text(
            "pane_id"@,
        ) is Some ==> pane_in(panes) == panes[i].member_text("pane_id"@),
        0 <= i < panes.len() && panes[i].member_true("focused"@) && (forall|j: int|
            0 <= j < i ==> !(#[trigger] panes[j]).member_true("focused"@)) && panes[i].member_text(
            "pane_id"@,
        ) is None ==> pane_in(panes) == panes[0].member_text("pane_id"@),
        panes.len() > 0 && (forall|j: int|
            0 <= j < panes.len() ==> !(#[trigger] panes[j]).member_true("focused"@)) ==> pane_in(
            panes,
        ) == panes[0].member_text("pane_id"@),
        panes.len() == 0 ==> pane_in(panes) is None,
{
    lemma_focused_pane(panes, i);
}

proof fn lemma_focused_pane(panes: Seq<DataView>, i: int)
    ensures
        0 <= i < panes.len() && panes[i].member_true("focused"@) && (forall|j: int|
            0 <= j < i ==> !(#[trigger] panes[j]).member_true("focused"@)) ==> focused_pane(panes)
            == panes[i].member_text("pane_id"@),
        (forall|j: int|
            0 <= j < panes.len() ==> !(#[trigger] panes[j]).member_true("focused"@))
            ==> focused_pane(panes) is None,
    decreases panes.len(),
{
    if panes.len() > 0 && !panes[0].member_true("focused"@) {
        let rest = panes.drop_first();
        assert(forall|j: int| 0 <= j < rest.len() ==> #[trigger] rest[j] == panes[j + 1]);
        lemma_focused_pane(rest, i - 1);
    }
}

/// An entry that names a pane shows that one, whatever Herdr lists; a workspace shows one of those
/// that Herdr lists for it; other entries show none.
pub proof fn law_an_agent_shows_its_own_pane(
    e: EntryView,
    reply: Option<DataView>,
    list: DataView,
    panes: Seq<DataView>,
    target: Seq<char>,
)
    ensures
        e.agent_target == Some(target) ==> pane_of(e, reply) == Some(target),
        e.agent_target is None && e.workspace_id is Some && list.result_list("panes"@) == Some(panes)
            ==> pane_of(e, Some(list)) == pane_in(panes),
        e.agent_target is None && list.result_list("panes"@) is None ==> pane_of(
            e,
            Some(list),
        ) is None,
        e.agent_target is None ==> pane_of(e, None) is None,
        e.agent_target is None && e.workspace_id is None ==> pane_of(e, reply) is None,
{
}

} // verus!
