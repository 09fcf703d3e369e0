//! What holds of the rows of the tree: what they are made of, when they are asked for, and where they
//! stand.

use crate::app::App;
use crate::children::{pane_row, pane_rows, rows_of_tab, tab_row, tab_rows};
use crate::data::{lookup, DataView};
use crate::laws::law_unfiltered_lists_everything;
use crate::model::{ActionView, Entry, EntryView, Source};
use crate::selection::FetchView;
use crate::text::decimal;
use crate::tree::{below, entry_at, opens, subtree, tree_rows, views};
use crate::tree_laws::has_row;
use vstd::prelude::*;
use vstd::utf8::encode_utf8;

verus! {

/// A member of a table is found by its name, the first one of that name, and read as what it is.
pub proof fn law_members_go_by_their_names(
    members: Seq<(Seq<char>, DataView)>,
    name: Seq<char>,
    other: Seq<char>,
    i: int,
)
    ensures
        0 <= i < members.len() && members[i].0 == name && (forall|j: int|
            0 <= j < i ==> (#[trigger] members[j]).0 != name) ==> {
            let table = DataView::Table(members);
            &&& table.member(name) == Some(members[i].1)
            &&& members[i].1 is Text ==> table.member_text(name) == Some(members[i].1->Text_0)
            &&& members[i].1 is Text ==> table.member_text_or(name, other) == members[i].1->Text_0
            &&& members[i].1 !is Text ==> table.member_text(name) is None
            &&& members[i].1 !is Text ==> table.member_text_or(name, other) == other
            &&& table.member_true(name) <==> members[i].1 == DataView::Bool(true)
            &&& members[i].1 is Number && members[i].1->Number_0 is Some ==> table.member_number(
                name,
            ) == members[i].1->Number_0->0
            &&& members[i].1 !is Number || members[i].1->Number_0 is None ==> table.member_number(
                name,
            ) == 0
        },
        (forall|j: int| 0 <= j < members.len() ==> (#[trigger] members[j]).0 != name) ==> {
            let table = DataView::Table(members);
            &&& table.member(name) is None
            &&& table.member_text(name) is None
            &&& table.member_text_or(name, other) == other
            &&& !table.member_true(name)
            &&& table.member_number(name) == 0
        },
    decreases members.len(),
{
    if members.len() > 0 && members[0].0 != name {
        let rest = members.drop_first();
        law_members_go_by_their_names(rest, name, other, i - 1);
        assert(forall|j: int| 0 <= j < rest.len() ==> #[trigger] rest[j] == members[j + 1]);
        assert(lookup(members, name) == lookup(rest, name));
        assert(DataView::Table(members).member(name) == DataView::Table(rest).member(name));
    }
}

/// The list in a reply is the member of that name of the member `result`.
pub proof fn law_reply_lists_stand_in_the_result(
    reply: DataView,
    result: DataView,
    name: Seq<char>,
    items: Seq<DataView>,
)
    ensures
        reply.member("result"@) == Some(result) && result.member(name) == Some(
            DataView::List(items),
        ) ==> reply.result_list(name) == Some(items),
        reply.result_list(name) is Some ==> reply.member("result"@) is Some && reply.member(
            "result"@,
        )->0.member(name) == Some(DataView::List(reply.result_list(name)->0)),
{
}

/// What the row for a pane says, in terms of the pane's members: it focuses that pane, names it as
/// its target, stands under the tab, and shows the agent, the label or the identifier.
pub proof fn law_pane_row_says_what_the_pane_does(
    pane: DataView,
    workspace_id: Seq<char>,
    tab_id: Seq<char>,
    id: Seq<char>,
)
    requires
        pane.member_text("pane_id"@) == Some(id) || (pane.member_text("pane_id"@) is None
            && id.len() == 0),
    ensures
        pane_row(pane, workspace_id, tab_id).action == (ActionView::FocusPane { id }),
        pane_row(pane, workspace_id, tab_id).agent_target == Some(id),
        pane_row(pane, workspace_id, tab_id).source == Source::Pane,
        pane_row(pane, workspace_id, tab_id).workspace_id == Some(workspace_id),
        pane_row(pane, workspace_id, tab_id).parent_id == Some(tab_id),
        pane_row(pane, workspace_id, tab_id).workspace_label is None,
        pane_row(pane, workspace_id, tab_id).project is None,
        pane_row(pane, workspace_id, tab_id).source_label is None,
        pane_row(pane, workspace_id, tab_id).canonical is None,
        pane_row(pane, workspace_id, tab_id).search_terms.len() == 3,
        pane_row(pane, workspace_id, tab_id).search_terms[0] == id,
        pane.member_text("label"@) is Some ==> pane_row(
            pane,
            workspace_id,
            tab_id,
        ).search_terms[1] == pane.member_text("label"@)->0,
        pane.member_text("cwd"@) is Some ==> {
            let row = pane_row(pane, workspace_id, tab_id);
            let cwd = pane.member_text("cwd"@)->0;
            &&& row.search_terms[2] == cwd
            &&& row.path == cwd
            &&& row.path_bytes == encode_utf8(cwd)
            &&& cwd.len() > 0 && pane.member_true("focused"@) ==> row.subtitle == "focused · "@ + cwd
                + " · "@ + id
            &&& cwd.len() > 0 && !pane.member_true("focused"@) ==> row.subtitle == cwd + " · "@ + id
            &&& cwd.len() == 0 && pane.member_true("focused"@) ==> row.subtitle == "focused · "@ + id
            &&& cwd.len() == 0 && !pane.member_true("focused"@) ==> row.subtitle == id
        },
        pane.member_text("cwd"@) is None ==> {
            let row = pane_row(pane, workspace_id, tab_id);
            &&& row.path.len() == 0
            &&& pane.member_true("focused"@) ==> row.subtitle == "focused · "@ + id
            &&& !pane.member_true("focused"@) ==> row.subtitle == id
        },
        pane.member_text("agent"@) is Some ==> pane_row(pane, workspace_id, tab_id).title
            == pane.member_text("agent"@)->0,
        pane.member_text("agent"@) is None && pane.member_text("label"@) is Some
            && pane.member_text("label"@)->0.len() > 0 ==> pane_row(
            pane,
            workspace_id,
            tab_id,
        ).title == pane.member_text("label"@)->0,
        pane.member_text("agent"@) is None && (pane.member_text("label"@) is None
            || pane.member_text("label"@)->0.len() == 0) ==> pane_row(
            pane,
            workspace_id,
            tab_id,
        ).title == id,
{
    let row = pane_row(pane, workspace_id, tab_id);
    assert(id =~= pane.member_text_or("pane_id"@, Seq::empty()));
    let cwd = pane.member_text_or("cwd"@, Seq::empty());
    let none = Seq::<char>::empty();
    assert(none + (cwd + " · "@) + id =~= cwd + " · "@ + id);
    assert("focused · "@ + (cwd + " · "@) + id =~= "focused · "@ + cwd + " · "@ + id);
    assert(none + none + id =~= id);
    assert("focused · "@ + none + id =~= "focused · "@ + id);
}

/// Rows of panes with different identifiers do different things, and so do rows of tabs.
pub proof fn law_rows_of_others_focus_others(
    one: DataView,
    other: DataView,
    workspace_id: Seq<char>,
    tab_id: Seq<char>,
)
    ensures
        one.member_text("pane_id"@) is Some && other.member_text("pane_id"@) is Some
            && one.member_text("pane_id"@) != other.member_text("pane_id"@) ==> pane_row(
            one,
            workspace_id,
            tab_id,
        ).action != pane_row(other, workspace_id, tab_id).action,
        one.member_text("tab_id"@) is Some && other.member_text("tab_id"@) is Some
            && one.member_text("tab_id"@) != other.member_text("tab_id"@) ==> tab_row(
            one,
            workspace_id,
        ).action != tab_row(other, workspace_id).action,
{
}

/// What the row for a tab says, in terms of the tab's members.
pub proof fn law_tab_row_says_what_the_tab_does(
    tab: DataView,
    workspace_id: Seq<char>,
    id: Seq<char>,
    status: Seq<char>,
)
    requires
        tab.member_text("tab_id"@) == Some(id) || (tab.member_text("tab_id"@) is None && id.len()
            == 0),
        tab.member_text("agent_status"@) == Some(status) || (tab.member_text("agent_status"@) is None
            && status == "unknown"@),
    ensures
        tab_row(tab, workspace_id).action == (ActionView::FocusTab { id }),
        tab_row(tab, workspace_id).source == Source::Tab,
        tab_row(tab, workspace_id).workspace_id == Some(workspace_id),
        tab_row(tab, workspace_id).parent_id == Some(workspace_id),
        tab_row(tab, workspace_id).path.len() == 0,
        tab_row(tab, workspace_id).path_bytes.len() == 0,
        tab_row(tab, workspace_id).workspace_label is None,
        tab_row(tab, workspace_id).agent_target is None,
        tab_row(tab, workspace_id).project is None,
        tab_row(tab, workspace_id).source_label is None,
        tab_row(tab, workspace_id).canonical is None,
        tab_row(tab, workspace_id).search_terms.len() == 2,
        tab_row(tab, workspace_id).search_terms[0] == id,
        tab.member_text("label"@) is Some ==> tab_row(tab, workspace_id).search_terms[1]
            == tab.member_text("label"@)->0,
        tab.member_text("label"@) is Some && tab.member_text("label"@)->0.len() > 0 ==> tab_row(
            tab,
            workspace_id,
        ).title == tab.member_text("label"@)->0,
        tab.member_text("label"@) is None || tab.member_text("label"@)->0.len() == 0 ==> tab_row(
            tab,
            workspace_id,
        ).title == "tab "@ + id,
        tab.member_true("focused"@) ==> tab_row(tab, workspace_id).subtitle == "focused · "@ + status
            + " · "@ + decimal(tab.member_number("pane_count"@) as nat) + " panes"@,
        !tab.member_true("focused"@) ==> tab_row(tab, workspace_id).subtitle == status + " · "@
            + decimal(tab.member_number("pane_count"@) as nat) + " panes"@,
{
    assert(id =~= tab.member_text_or("tab_id"@, Seq::empty()));
    assert(Seq::<char>::empty() + status =~= status);
}

/// Whether a row focuses a listed pane of a tab.
pub open spec fn focuses_listed_pane(
    panes: Seq<DataView>,
    tab_id: Seq<char>,
    row: EntryView,
    i: int,
) -> bool {
    &&& 0 <= i < panes.len()
    &&& panes[i].member_text_or("tab_id"@, Seq::empty()) == tab_id
    &&& row.action == (ActionView::FocusPane {
        id: panes[i].member_text_or("pane_id"@, Seq::empty()),
    })
}

/// The rows under a tab are those of its own panes: each row focuses a listed pane of the tab, and
/// each listed pane of the tab has a row that focuses it.
pub proof fn law_rows_of_a_tab_are_its_panes(
    reply: DataView,
    panes: Seq<DataView>,
    workspace_id: Seq<char>,
    tab_id: Seq<char>,
    k: int,
    i: int,
    id: Seq<char>,
)
    requires
        reply.result_list("panes"@) == Some(panes),
    ensures
        0 <= k < pane_rows(reply, workspace_id, tab_id).len() ==> exists|at: int| #[trigger]
            focuses_listed_pane(panes, tab_id, pane_rows(reply, workspace_id, tab_id)[k], at),
        0 <= i < panes.len() && panes[i].member_text("tab_id"@) == Some(tab_id)
            && panes[i].member_text("pane_id"@) == Some(id) ==> exists|at: int|
            0 <= at < pane_rows(reply, workspace_id, tab_id).len() && (#[trigger] pane_rows(
                reply,
                workspace_id,
                tab_id,
            )[at]).action == (ActionView::FocusPane { id }),
{
    if 0 <= k < rows_of_tab(panes, workspace_id, tab_id).len() {
        lemma_row_from(panes, workspace_id, tab_id, k);
    }
    if 0 <= i < panes.len() && panes[i].member_text("tab_id"@) == Some(tab_id) {
        lemma_row_for(panes, workspace_id, tab_id, i);
        let row = pane_row(panes[i], workspace_id, tab_id);
        let all = pane_rows(reply, workspace_id, tab_id);
        let at = choose|at: int| 0 <= at < all.len() && all[at] == row;
        assert(all[at].action == row.action);
    }
}

/// Entries that were made for the panes of a tab focus those panes, by their own identifiers.
pub proof fn law_pane_entries_focus_their_panes(
    entries: Seq<Entry>,
    reply: DataView,
    panes: Seq<DataView>,
    workspace_id: Seq<char>,
    tab_id: Seq<char>,
    k: int,
)
    requires
        views(entries) == pane_rows(reply, workspace_id, tab_id),
        reply.result_list("panes"@) == Some(panes),
        0 <= k < entries.len(),
    ensures
        entries[k].action is FocusPane,
        exists|at: int|
            0 <= at < panes.len() && (#[trigger] panes[at]).member_text_or("tab_id"@, Seq::empty())
                == tab_id && entries[k].action->FocusPane_id@ == panes[at].member_text_or(
                "pane_id"@,
                Seq::empty(),
            ),
{
    lemma_row_from(panes, workspace_id, tab_id, k);
    let row = views(entries)[k];
    assert(row.action == entries[k].action@);
    let at = choose|at: int| #[trigger] focuses_listed_pane(panes, tab_id, row, at);
    assert(panes[at].member_text_or("tab_id"@, Seq::empty()) == tab_id);
}

proof fn lemma_row_from(panes: Seq<DataView>, workspace_id: Seq<char>, tab_id: Seq<char>, k: int)
    requires
        0 <= k < rows_of_tab(panes, workspace_id, tab_id).len(),
    ensures
        exists|at: int| #[trigger]
            focuses_listed_pane(panes, tab_id, rows_of_tab(panes, workspace_id, tab_id)[k], at),
    decreases panes.len(),
{
    let init = panes.drop_last();
    let row = rows_of_tab(panes, workspace_id, tab_id)[k];
    if k < rows_of_tab(init, workspace_id, tab_id).len() {
        lemma_row_from(init, workspace_id, tab_id, k);
        let at = choose|at: int| #[trigger] focuses_listed_pane(init, tab_id, row, at);
        assert(focuses_listed_pane(panes, tab_id, row, at));
    } else {
        assert(focuses_listed_pane(panes, tab_id, row, panes.len() - 1));
    }
}

proof fn lemma_row_for(panes: Seq<DataView>, workspace_id: Seq<char>, tab_id: Seq<char>, i: int)
    requires
        0 <= i < panes.len(),
        panes[i].member_text("tab_id"@) == Some(tab_id),
    ensures
        exists|at: int|
            0 <= at < rows_of_tab(panes, workspace_id, tab_id).len() && rows_of_tab(
                panes,
                workspace_id,
                tab_id,
            )[at] == pane_row(panes[i], workspace_id, tab_id),
    decreases panes.len(),
{
    let init = panes.drop_last();
    let (all, head) = (
        rows_of_tab(panes, workspace_id, tab_id),
        rows_of_tab(init, workspace_id, tab_id),
    );
    let row = pane_row(panes[i], workspace_id, tab_id);
    if i == panes.len() - 1 {
        assert(all[head.len() as int] == row);
    } else {
        lemma_row_for(init, workspace_id, tab_id, i);
        let at = choose|at: int| 0 <= at < head.len() && head[at] == row;
        assert(all[at] == row);
    }
}

/// The rows of more panes are those of the first ones and then those of the others: the order of the
/// reply is kept, and a pane of another tab has no row.
pub proof fn law_rows_keep_the_order_of_the_panes(
    panes: Seq<DataView>,
    others: Seq<DataView>,
    pane: DataView,
    workspace_id: Seq<char>,
    tab_id: Seq<char>,
)
    ensures
        rows_of_tab(panes + others, workspace_id, tab_id) == rows_of_tab(panes, workspace_id, tab_id)
            + rows_of_tab(others, workspace_id, tab_id),
        pane.member_text("tab_id"@) == Some(tab_id) ==> rows_of_tab(
            seq![pane],
            workspace_id,
            tab_id,
        ) == seq![pane_row(pane, workspace_id, tab_id)],
        pane.member_text("tab_id"@) is Some && pane.member_text("tab_id"@) != Some(tab_id)
            ==> rows_of_tab(seq![pane], workspace_id, tab_id).len() == 0,
        rows_of_tab(Seq::empty(), workspace_id, tab_id).len() == 0,
    decreases others.len(),
{
    let one = seq![pane];
    assert(one.drop_last() =~= Seq::empty());
    assert(rows_of_tab(one.drop_last(), workspace_id, tab_id) =~= Seq::empty());
    assert(one.last() == pane);
    assert(Seq::<EntryView>::empty().push(pane_row(pane, workspace_id, tab_id)) =~= seq![
        pane_row(pane, workspace_id, tab_id),
    ]);
    if others.len() == 0 {
        assert(panes + others =~= panes);
        assert(rows_of_tab(panes, workspace_id, tab_id) + rows_of_tab(others, workspace_id, tab_id)
            =~= rows_of_tab(panes, workspace_id, tab_id));
    } else {
        let init = others.drop_last();
        law_rows_keep_the_order_of_the_panes(panes, init, pane, workspace_id, tab_id);
        assert((panes + others).drop_last() =~= panes + init);
        assert((panes + others).last() == others.last());
        assert(rows_of_tab(panes + others, workspace_id, tab_id) =~= rows_of_tab(
            panes,
            workspace_id,
            tab_id,
        ) + rows_of_tab(others, workspace_id, tab_id));
    }
}

/// Each tab that a reply lists has one row, at its place, which focuses it; without a list there are
/// none.
pub proof fn law_each_tab_has_its_row(
    reply: DataView,
    tabs: Seq<DataView>,
    workspace_id: Seq<char>,
    tab_id: Seq<char>,
    i: int,
    id: Seq<char>,
)
    ensures
        reply.result_list("tabs"@) == Some(tabs) ==> tab_rows(reply, workspace_id).len()
            == tabs.len(),
        reply.result_list("tabs"@) == Some(tabs) && 0 <= i < tabs.len() && tabs[i].member_text(
            "tab_id"@,
        ) == Some(id) ==> tab_rows(reply, workspace_id)[i].action == (ActionView::FocusTab { id }),
        reply.result_list("tabs"@) == Some(tabs) && 0 <= i < tabs.len() ==> tab_rows(
            reply,
            workspace_id,
        )[i] == tab_row(tabs[i], workspace_id),
        reply.result_list("tabs"@) is None ==> tab_rows(reply, workspace_id).len() == 0,
        reply.result_list("panes"@) is None ==> pane_rows(reply, workspace_id, tab_id).len() == 0,
{
}

/// What is asked of Herdr when an entry is expanded: the tabs of a workspace or the panes of a tab,
/// where none is known yet and the entry is not expanded.
pub proof fn law_expanding_asks_for_what_is_missing(app: App, id: Seq<char>, workspace_id: Seq<char>)
    requires
        app.selected < app.filtered@.len(),
        app.filtered@[app.selected as int] < app.entries@.len() + app.child_entries@.len(),
    ensures
        app.selection() is Some,
        app.filtered@[app.selected as int] < app.entries@.len() ==> app.selection()->0
            == app.entries@[app.filtered@[app.selected as int] as int],
        app.filtered@[app.selected as int] >= app.entries@.len() ==> app.selection()->0
            == app.child_entries@[app.filtered@[app.selected as int] - app.entries@.len()],
        app.selection()->0@.action == (ActionView::FocusWorkspace { id }) && !app.expanded@.contains(
            "ws:"@ + id,
        ) && (forall|c: int|
            0 <= c < app.child_entries@.len() ==> (#[trigger] app.child_entries@[c])@.parent_id
                != Some(id)) ==> app.fetch_needed() == Some(FetchView::Tabs { workspace_id: id }),
        app.selection()->0@.action == (ActionView::FocusTab { id }) && !app.expanded@.contains(
            "tab:"@ + id,
        ) && app.selection()->0@.workspace_id == Some(workspace_id) && (forall|c: int|
            0 <= c < app.child_entries@.len() ==> (#[trigger] app.child_entries@[c])@.parent_id
                != Some(id)) ==> app.fetch_needed() == Some(
            FetchView::Panes { workspace_id, tab_id: id },
        ),
        app.selection()->0@.action == (ActionView::FocusWorkspace { id }) && app.expanded@.contains(
            "ws:"@ + id,
        ) ==> app.fetch_needed() is None,
        app.selection()->0@.action == (ActionView::FocusTab { id }) && app.expanded@.contains(
            "tab:"@ + id,
        ) ==> app.fetch_needed() is None,
        app.fetch_needed() is Some ==> app.selection()->0@.action is FocusWorkspace
            || app.selection()->0@.action is FocusTab,
        app.fetch_needed() == Some(FetchView::Tabs { workspace_id: id }) ==> (forall|c: int|
            0 <= c < app.child_entries@.len() ==> (#[trigger] app.child_entries@[c])@.parent_id
                != Some(id)),
        app.fetch_needed() == Some(FetchView::Panes { workspace_id, tab_id: id }) ==> (forall|c: int|
            0 <= c < app.child_entries@.len() ==> (#[trigger] app.child_entries@[c])@.parent_id
                != Some(id)),
{
}

/// What Herdr is called with for the tabs or panes, and what its reply becomes.
pub proof fn law_fetches_name_their_workspace(
    workspace_id: Seq<char>,
    tab_id: Seq<char>,
    reply: DataView,
)
    ensures
        (FetchView::Tabs { workspace_id }).args() == seq![
            "tab"@,
            "list"@,
            "--workspace"@,
            workspace_id,
        ],
        (FetchView::Panes { workspace_id, tab_id }).args() == seq![
            "pane"@,
            "list"@,
            "--workspace"@,
            workspace_id,
        ],
        (FetchView::Tabs { workspace_id }).rows(reply) == tab_rows(reply, workspace_id),
        (FetchView::Panes { workspace_id, tab_id }).rows(reply) == pane_rows(
            reply,
            workspace_id,
            tab_id,
        ),
{
}

/// After expanding, the entry is marked as expanded, and behind the rows that were known stand those
/// that Herdr's reply lists; after collapsing the mark is gone and the rows stay known. Nothing else
/// is marked or unmarked.
pub proof fn law_expanding_marks_the_selected_entry(
    before: App,
    after: App,
    reply: DataView,
    id: Seq<char>,
    other: Seq<char>,
)
    requires
        before.selection() is Some,
        before.selection()->0@.action == (ActionView::FocusWorkspace { id }),
    ensures
        !before.expanded@.contains("ws:"@ + id) && after.is_toggled_from(before, reply) ==> {
            &&& after.expanded@.contains("ws:"@ + id)
            &&& other != "ws:"@ + id ==> (after.expanded@.contains(other)
                <==> before.expanded@.contains(other))
            &&& !before.has_children(id) ==> views(after.child_entries@) == views(
                before.child_entries@,
            ) + tab_rows(reply, id)
            &&& before.has_children(id) ==> views(after.child_entries@) == views(
                before.child_entries@,
            )
            &&& after.entries == before.entries
            &&& after.query == before.query
            &&& after.source_filter == before.source_filter
        },
        before.expanded@.contains("ws:"@ + id) && after.is_toggled_from(before, reply) ==> {
            &&& !after.expanded@.contains("ws:"@ + id)
            &&& other != "ws:"@ + id ==> (after.expanded@.contains(other)
                <==> before.expanded@.contains(other))
            &&& after.child_entries == before.child_entries
            &&& after.entries == before.entries
            &&& after.query == before.query
            &&& after.source_filter == before.source_filter
        },
{
    let kept = views(before.child_entries@);
    assert(kept + Seq::<EntryView>::empty() =~= kept);
}

/// The same for a tab, whose rows are its panes.
pub proof fn law_expanding_marks_the_selected_tab(
    before: App,
    after: App,
    reply: DataView,
    id: Seq<char>,
    workspace_id: Seq<char>,
    other: Seq<char>,
)
    requires
        before.selection() is Some,
        before.selection()->0@.action == (ActionView::FocusTab { id }),
        before.selection()->0@.workspace_id == Some(workspace_id),
    ensures
        !before.expanded@.contains("tab:"@ + id) && after.is_toggled_from(before, reply) ==> {
            &&& after.expanded@.contains("tab:"@ + id)
            &&& other != "tab:"@ + id ==> (after.expanded@.contains(other)
                <==> before.expanded@.contains(other))
            &&& !before.has_children(id) ==> views(after.child_entries@) == views(
                before.child_entries@,
            ) + pane_rows(reply, workspace_id, id)
            &&& before.has_children(id) ==> views(after.child_entries@) == views(
                before.child_entries@,
            )
        },
        before.expanded@.contains("tab:"@ + id) && after.is_toggled_from(before, reply) ==> {
            &&& !after.expanded@.contains("tab:"@ + id)
            &&& other != "tab:"@ + id ==> (after.expanded@.contains(other)
                <==> before.expanded@.contains(other))
            &&& after.child_entries == before.child_entries
        },
{
    let kept = views(before.child_entries@);
    assert(kept + Seq::<EntryView>::empty() =~= kept);
}

/// Entries that are neither workspaces nor tabs neither expand nor collapse.
pub proof fn law_other_entries_do_not_expand(before: App, after: App, reply: DataView)
    requires
        before.selection() is Some ==> before.selection()->0@.action !is FocusWorkspace
            && before.selection()->0@.action !is FocusTab,
        after.is_toggled_from(before, reply),
    ensures
        after == before,
        before.fetch_needed() is None,
{
}

/// A row of the tree is shown under a workspace or a tab that names it as its parent and is marked as
/// expanded, and under nothing else.
pub proof fn law_rows_show_under_expanded_parents(
    children: Seq<EntryView>,
    expanded: Set<Seq<char>>,
    parent: EntryView,
    c: int,
    id: Seq<char>,
)
    ensures
        parent.action == (ActionView::FocusWorkspace { id }) ==> (opens(children, expanded, parent, c)
            <==> expanded.contains("ws:"@ + id) && children[c].parent_id == Some(id)),
        parent.action == (ActionView::FocusTab { id }) ==> (opens(children, expanded, parent, c)
            <==> expanded.contains("tab:"@ + id) && children[c].parent_id == Some(id)),
        parent.action !is FocusWorkspace && parent.action !is FocusTab ==> !opens(
            children,
            expanded,
            parent,
            c,
        ),
{
}

/// A list is shown entry by entry: each one's own row, with its score, then the rows under it, which
/// are rows of the tree and have no score.
pub proof fn law_each_entry_heads_its_rows(
    entries: Seq<EntryView>,
    children: Seq<EntryView>,
    expanded: Set<Seq<char>>,
    list: Seq<(int, i64)>,
    others: Seq<(int, i64)>,
    idx: int,
    score: i64,
    k: int,
)
    requires
        0 <= idx < entries.len() + children.len(),
    ensures
        tree_rows(entries, children, expanded, list + others) == tree_rows(
            entries,
            children,
            expanded,
            list,
        ) + tree_rows(entries, children, expanded, others),
        tree_rows(entries, children, expanded, seq![(idx, score)]).len() > 0,
        tree_rows(entries, children, expanded, seq![(idx, score)])[0] == (idx, score),
        0 < k < tree_rows(entries, children, expanded, seq![(idx, score)]).len() ==> {
            let row = tree_rows(entries, children, expanded, seq![(idx, score)])[k];
            entries.len() <= row.0 < entries.len() + children.len() && row.1 == 0
        },
    decreases others.len(),
{
    let one = seq![(idx, score)];
    assert(one.drop_last() =~= Seq::empty());
    let block = subtree(entries, children, expanded, idx, score, children.len());
    assert(tree_rows(entries, children, expanded, one.drop_last()) =~= Seq::empty());
    assert(one.last() == (idx, score));
    assert(tree_rows(entries, children, expanded, one) =~= block);
    lemma_block(entries, children, expanded, idx, score, children.len());
    if others.len() == 0 {
        assert(list + others =~= list);
        assert(tree_rows(entries, children, expanded, list) + tree_rows(
            entries,
            children,
            expanded,
            others,
        ) =~= tree_rows(entries, children, expanded, list));
    } else {
        let init = others.drop_last();
        law_each_entry_heads_its_rows(entries, children, expanded, list, init, idx, score, k);
        assert((list + others).drop_last() =~= list + init);
        assert((list + others).last() == others.last());
        assert(tree_rows(entries, children, expanded, list + others) =~= tree_rows(
            entries,
            children,
            expanded,
            list,
        ) + tree_rows(entries, children, expanded, others));
    }
}

proof fn lemma_block(
    entries: Seq<EntryView>,
    children: Seq<EntryView>,
    expanded: Set<Seq<char>>,
    idx: int,
    score: i64,
    depth: nat,
)
    ensures
        subtree(entries, children, expanded, idx, score, depth).len() > 0,
        subtree(entries, children, expanded, idx, score, depth)[0] == (idx, score),
        forall|k: int|
            0 < k < subtree(entries, children, expanded, idx, score, depth).len() ==> {
                let row = #[trigger] subtree(entries, children, expanded, idx, score, depth)[k];
                entries.len() <= row.0 < entries.len() + children.len() && row.1 == 0
            },
    decreases depth, 0nat,
{
    if depth > 0 && idx < entries.len() + children.len() {
        let parent = entry_at(entries, children, idx);
        let rest = below(entries, children, expanded, parent, children.len(), (depth - 1) as nat);
        lemma_below_block(entries, children, expanded, parent, children.len(), (depth - 1) as nat);
        let all = subtree(entries, children, expanded, idx, score, depth);
        assert forall|k: int| 0 < k < all.len() implies {
            let row = #[trigger] all[k];
            entries.len() <= row.0 < entries.len() + children.len() && row.1 == 0
        } by {
            assert(all[k] == rest[k - 1]);
        }
    }
}

proof fn lemma_below_block(
    entries: Seq<EntryView>,
    children: Seq<EntryView>,
    expanded: Set<Seq<char>>,
    parent: EntryView,
    n: nat,
    depth: nat,
)
    requires
        n <= children.len(),
    ensures
        forall|k: int|
            0 <= k < below(entries, children, expanded, parent, n, depth).len() ==> {
                let row = #[trigger] below(entries, children, expanded, parent, n, depth)[k];
                entries.len() <= row.0 < entries.len() + children.len() && row.1 == 0
            },
    decreases depth, n,
{
    if n > 0 {
        let c = (n - 1) as nat;
        let head = below(entries, children, expanded, parent, c, depth);
        let all = below(entries, children, expanded, parent, n, depth);
        let block = subtree(entries, children, expanded, (entries.len() + c) as int, 0, depth);
        lemma_below_block(entries, children, expanded, parent, c, depth);
        if opens(children, expanded, parent, c as int) {
            lemma_sub_block(entries, children, expanded, c as int, depth);
        }
        assert forall|k: int| 0 <= k < all.len() implies {
            let row = #[trigger] all[k];
            entries.len() <= row.0 < entries.len() + children.len() && row.1 == 0
        } by {
            if k < head.len() {
                assert(all[k] == head[k]);
            } else {
                assert(all[k] == block[k - head.len()]);
            }
        }
    }
}

proof fn lemma_sub_block(
    entries: Seq<EntryView>,
    children: Seq<EntryView>,
    expanded: Set<Seq<char>>,
    c: int,
    depth: nat,
)
    requires
        0 <= c < children.len(),
    ensures
        forall|k: int|
            0 <= k < subtree(entries, children, expanded, entries.len() + c, 0, depth).len() ==> {
                let row = #[trigger] subtree(
                    entries,
                    children,
                    expanded,
                    entries.len() + c,
                    0,
                    depth,
                )[k];
                entries.len() <= row.0 < entries.len() + children.len() && row.1 == 0
            },
    decreases depth, 0nat,
{
    let idx = entries.len() + c;
    let all = subtree(entries, children, expanded, idx, 0, depth);
    if depth > 0 {
        let parent = entry_at(entries, children, idx);
        let rest = below(entries, children, expanded, parent, children.len(), (depth - 1) as nat);
        lemma_below_block(entries, children, expanded, parent, children.len(), (depth - 1) as nat);
        assert forall|k: int| 0 <= k < all.len() implies {
            let row = #[trigger] all[k];
            entries.len() <= row.0 < entries.len() + children.len() && row.1 == 0
        } by {
            if k > 0 {
                assert(all[k] == rest[k - 1]);
            }
        }
    }
}

/// The rows directly under a parent come in the order of the tree.
pub proof fn law_rows_under_a_parent_keep_their_order(
    entries: Seq<EntryView>,
    children: Seq<EntryView>,
    expanded: Set<Seq<char>>,
    parent: EntryView,
    c: int,
    d: int,
    depth: nat,
)
    requires
        0 <= c < d < children.len(),
        opens(children, expanded, parent, c),
        opens(children, expanded, parent, d),
    ensures
        exists|k: int, l: int|
            0 <= k < l < below(entries, children, expanded, parent, children.len(), depth).len()
                && #[trigger] below(entries, children, expanded, parent, children.len(), depth)[k]
                == (entries.len() + c, 0i64) && #[trigger] below(
                entries,
                children,
                expanded,
                parent,
                children.len(),
                depth,
            )[l] == (entries.len() + d, 0i64),
{
    let all = below(entries, children, expanded, parent, children.len(), depth);
    let (k, l) = (
        below(entries, children, expanded, parent, c as nat, depth).len() as int,
        below(entries, children, expanded, parent, d as nat, depth).len() as int,
    );
    lemma_below_grows(entries, children, expanded, parent, (c + 1) as nat, d as nat, depth);
    lemma_below_grows(entries, children, expanded, parent, (c + 1) as nat, children.len(), depth);
    lemma_below_grows(entries, children, expanded, parent, (d + 1) as nat, children.len(), depth);
    lemma_block(entries, children, expanded, entries.len() + c, 0, depth);
    lemma_block(entries, children, expanded, entries.len() + d, 0, depth);
    let upto_c = below(entries, children, expanded, parent, (c + 1) as nat, depth);
    let upto_d = below(entries, children, expanded, parent, (d + 1) as nat, depth);
    assert(upto_c[k] == subtree(entries, children, expanded, entries.len() + c, 0, depth)[0]);
    assert(upto_d[l] == subtree(entries, children, expanded, entries.len() + d, 0, depth)[0]);
    assert(all[k] == upto_c[k]);
    assert(all[l] == upto_d[l]);
}

proof fn lemma_below_grows(
    entries: Seq<EntryView>,
    children: Seq<EntryView>,
    expanded: Set<Seq<char>>,
    parent: EntryView,
    n: nat,
    m: nat,
    depth: nat,
)
    requires
        n <= m,
    ensures
        below(entries, children, expanded, parent, n, depth).len() <= below(
            entries,
            children,
            expanded,
            parent,
            m,
            depth,
        ).len(),
        forall|k: int|
            0 <= k < below(entries, children, expanded, parent, n, depth).len()
                ==> #[trigger] below(entries, children, expanded, parent, m, depth)[k] == below(
                entries,
                children,
                expanded,
                parent,
                n,
                depth,
            )[k],
    decreases m,
{
    if n < m {
        lemma_below_grows(entries, children, expanded, parent, n, (m - 1) as nat, depth);
    }
}

/// A row that a parent opens stands at some place under it, with what is under the row behind it.
proof fn lemma_opened_row(
    entries: Seq<EntryView>,
    children: Seq<EntryView>,
    expanded: Set<Seq<char>>,
    parent: EntryView,
    c: int,
    depth: nat,
)
    requires
        0 <= c < children.len(),
        opens(children, expanded, parent, c),
    ensures
        exists|start: int| #[trigger]
            holds_block(
                below(entries, children, expanded, parent, children.len(), depth),
                subtree(entries, children, expanded, entries.len() + c, 0, depth),
                start,
            ),
{
    let n = children.len();
    let rest = below(entries, children, expanded, parent, n, depth);
    let head = below(entries, children, expanded, parent, c as nat, depth);
    let upto = below(entries, children, expanded, parent, (c + 1) as nat, depth);
    let own = subtree(entries, children, expanded, entries.len() + c, 0, depth);
    lemma_below_grows(entries, children, expanded, parent, (c + 1) as nat, n, depth);
    assert(upto == head + own);
    let (start, end) = (head.len() as int, (head.len() + own.len()) as int);
    assert forall|k: int| 0 <= k < own.len() implies rest.subrange(start, end)[k] == own[k] by {
        assert(rest[start + k] == upto[start + k]);
    }
    assert(rest.subrange(start, end) =~= own);
    assert(holds_block(rest, own, start));
}

/// Whatever is directly under an entry of an unfiltered list that is expanded is shown.
pub proof fn law_expanded_entries_show_their_rows(app: App, i: int, c: int, id: Seq<char>)
    requires
        app.is_ranking(app.ranking()),
        app.is_unfiltered(),
        0 <= i < app.entries@.len() <= usize::MAX,
        0 <= c < app.child_entries@.len(),
        app.entries@[i]@.action == (ActionView::FocusWorkspace { id }),
        app.expanded@.contains("ws:"@ + id),
        app.child_entries@[c]@.parent_id == Some(id),
    ensures
        has_row(app.listing(), app.entries@.len() + c),
{
    let (entries, children) = (views(app.entries@), views(app.child_entries@));
    let depth = (children.len() - 1) as nat;
    lemma_entry_block(app, i);
    let block = choose|block: Seq<(int, i64)>| #[trigger] is_block_of(app, i, block);
    let rest = below(entries, children, app.expanded@, entries[i], children.len(), depth);
    let own = subtree(entries, children, app.expanded@, entries.len() + c, 0, depth);
    assert(opens(children, app.expanded@, entries[i], c));
    lemma_opened_row(entries, children, app.expanded@, entries[i], c, depth);
    lemma_block(entries, children, app.expanded@, entries.len() + c, 0, depth);
    let at = choose|at: int| #[trigger] holds_block(rest, own, at);
    assert(rest.subrange(at, at + own.len())[0] == own[0]);
    assert(block[at + 1] == own[0]);
    let start = choose|start: int| #[trigger] holds_block(app.listing(), block, start);
    assert(app.listing().subrange(start, start + block.len())[at + 1] == block[at + 1]);
    assert(app.listing()[start + at + 1] == own[0]);
}

/// What is directly under an expanded tab of an expanded workspace is shown too.
pub proof fn law_expanded_tabs_show_their_rows(
    app: App,
    i: int,
    c: int,
    d: int,
    id: Seq<char>,
    tab_id: Seq<char>,
)
    requires
        app.is_ranking(app.ranking()),
        app.is_unfiltered(),
        0 <= i < app.entries@.len() <= usize::MAX,
        0 <= c < app.child_entries@.len(),
        0 <= d < app.child_entries@.len(),
        c != d,
        app.entries@[i]@.action == (ActionView::FocusWorkspace { id }),
        app.expanded@.contains("ws:"@ + id),
        app.child_entries@[c]@.parent_id == Some(id),
        app.child_entries@[c]@.action == (ActionView::FocusTab { id: tab_id }),
        app.expanded@.contains("tab:"@ + tab_id),
        app.child_entries@[d]@.parent_id == Some(tab_id),
    ensures
        has_row(app.listing(), app.entries@.len() + d),
{
    let (entries, children) = (views(app.entries@), views(app.child_entries@));
    let depth = (children.len() - 1) as nat;
    let less = (depth - 1) as nat;
    lemma_entry_block(app, i);
    let block = choose|block: Seq<(int, i64)>| #[trigger] is_block_of(app, i, block);
    let rest = below(entries, children, app.expanded@, entries[i], children.len(), depth);
    let own = subtree(entries, children, app.expanded@, entries.len() + c, 0, depth);
    let inner = below(entries, children, app.expanded@, children[c], children.len(), less);
    let pane = subtree(entries, children, app.expanded@, entries.len() + d, 0, less);
    assert(opens(children, app.expanded@, entries[i], c));
    assert(opens(children, app.expanded@, children[c], d));
    lemma_opened_row(entries, children, app.expanded@, entries[i], c, depth);
    lemma_opened_row(entries, children, app.expanded@, children[c], d, less);
    lemma_block(entries, children, app.expanded@, entries.len() + d, 0, less);
    assert(entry_at(entries, children, entries.len() + c) == children[c]);
    assert(own == seq![((entries.len() + c) as int, 0i64)] + inner);
    let low = choose|low: int| #[trigger] holds_block(inner, pane, low);
    assert(inner.subrange(low, low + pane.len())[0] == pane[0]);
    assert(own[low + 1] == pane[0]);
    let at = choose|at: int| #[trigger] holds_block(rest, own, at);
    assert(rest.subrange(at, at + own.len())[low + 1] == own[low + 1]);
    assert(block[at + low + 2] == pane[0]);
    let start = choose|start: int| #[trigger] holds_block(app.listing(), block, start);
    assert(app.listing().subrange(start, start + block.len())[at + low + 2] == block[at + low + 2]);
    assert(app.listing()[start + at + low + 2] == pane[0]);
}

/// Whether a block is an entry's own row and the rows under it, somewhere in the list.
spec fn is_block_of(app: App, i: int, block: Seq<(int, i64)>) -> bool {
    let (entries, children) = (views(app.entries@), views(app.child_entries@));
    &&& children.len() > 0 ==> block.len() > 0 && block.drop_first() == below(
        entries,
        children,
        app.expanded@,
        entries[i],
        children.len(),
        (children.len() - 1) as nat,
    )
    &&& exists|start: int| #[trigger] holds_block(app.listing(), block, start)
}

proof fn lemma_entry_block(app: App, i: int)
    requires
        app.is_ranking(app.ranking()),
        app.is_unfiltered(),
        0 <= i < app.entries@.len() <= usize::MAX,
    ensures
        exists|block: Seq<(int, i64)>| #[trigger] is_block_of(app, i, block),
{
    let (entries, children) = (views(app.entries@), views(app.child_entries@));
    let list = app.flat_rows();
    let index = i as usize;
    law_unfiltered_lists_everything(app, i);
    assert(app.is_listed(index as int));
    assert(app.ranking().contains(index));
    let at = choose|at: int| 0 <= at < app.ranking().len() && app.ranking()[at] == index;
    assert(list[at].0 == i);
    let block = subtree(entries, children, app.expanded@, i, list[at].1, children.len());
    lemma_block_in_list(entries, children, app.expanded@, list, at);
    assert(app.listing() == tree_rows(entries, children, app.expanded@, list));
    let start = choose|start: int| #[trigger]
        holds_block(tree_rows(entries, children, app.expanded@, list), block, start);
    assert(holds_block(app.listing(), block, start));
    if children.len() > 0 {
        assert(block.drop_first() =~= below(
            entries,
            children,
            app.expanded@,
            entries[i],
            children.len(),
            (children.len() - 1) as nat,
        ));
    }
    assert(is_block_of(app, i, block));
}

/// Whether a block of rows stands at a place in a list.
pub open spec fn holds_block(list: Seq<(int, i64)>, block: Seq<(int, i64)>, start: int) -> bool {
    &&& 0 <= start
    &&& start + block.len() <= list.len()
    &&& list.subrange(start, start + block.len()) == block
}

proof fn lemma_block_in_list(
    entries: Seq<EntryView>,
    children: Seq<EntryView>,
    expanded: Set<Seq<char>>,
    list: Seq<(int, i64)>,
    at: int,
)
    requires
        0 <= at < list.len(),
    ensures
        exists|start: int| #[trigger]
            holds_block(
                tree_rows(entries, children, expanded, list),
                subtree(entries, children, expanded, list[at].0, list[at].1, children.len()),
                start,
            ),
    decreases list.len(),
{
    let init = list.drop_last();
    let (all, head) = (
        tree_rows(entries, children, expanded, list),
        tree_rows(entries, children, expanded, init),
    );
    let block = subtree(entries, children, expanded, list[at].0, list[at].1, children.len());
    if at == list.len() - 1 {
        assert(all.subrange(head.len() as int, (head.len() + block.len()) as int) =~= block);
        assert(holds_block(all, block, head.len() as int));
    } else {
        lemma_block_in_list(entries, children, expanded, init, at);
        let start = choose|start: int| #[trigger] holds_block(head, block, start);
        assert(all.subrange(start, start + block.len()) =~= head.subrange(
            start,
            start + block.len(),
        ));
        assert(holds_block(all, block, start));
    }
}

} // verus!
