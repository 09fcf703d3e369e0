//! The rows of the tree, read from Herdr's lists of tabs and panes.

use crate::data::{trees, Data, DataView};
use crate::file_path::FilePath;
use crate::model::{ActionView, Entry, EntryAction, EntryView, Source};
use crate::text::{concat2, contents, decimal, decimal_text, same};
use crate::tree::views;
use vstd::prelude::*;
use vstd::string::StringExecFns;
use vstd::utf8::encode_utf8;

verus! {

/// What marks a focused tab or pane.
pub open spec fn focus_mark(item: DataView) -> Seq<char> {
    if item.member_true("focused"@) {
        "focused · "@
    } else {
        Seq::empty()
    }
}

/// The row for a tab of a workspace.
pub open spec fn tab_row(tab: DataView, workspace_id: Seq<char>) -> EntryView {
    let tab_id = tab.member_text_or("tab_id"@, Seq::empty());
    let label = tab.member_text_or("label"@, Seq::empty());
    EntryView {
        source: Source::Tab,
        title: if label.len() == 0 {
            "tab "@ + tab_id
        } else {
            label
        },
        subtitle: focus_mark(tab) + tab.member_text_or("agent_status"@, "unknown"@) + " · "@
            + decimal(tab.member_number("pane_count"@) as nat) + " panes"@,
        path: Seq::empty(),
        path_bytes: Seq::empty(),
        workspace_id: Some(workspace_id),
        workspace_label: None,
        agent_target: None,
        project: None,
        action: ActionView::FocusTab { id: tab_id },
        source_label: None,
        search_terms: seq![tab_id, label],
        parent_id: Some(workspace_id),
        canonical: None,
    }
}

/// The rows for the tabs that a reply lists.
pub open spec fn tab_rows(reply: DataView, workspace_id: Seq<char>) -> Seq<EntryView> {
    match reply.result_list("tabs"@) {
        Some(tabs) => Seq::new(tabs.len(), |i: int| tab_row(tabs[i], workspace_id)),
        None => Seq::empty(),
    }
}

/// The row for a pane of a tab.
pub open spec fn pane_row(
    pane: DataView,
    workspace_id: Seq<char>,
    tab_id: Seq<char>,
) -> EntryView {
    let pane_id = pane.member_text_or("pane_id"@, Seq::empty());
    let label = pane.member_text_or("label"@, Seq::empty());
    let cwd = pane.member_text_or("cwd"@, Seq::empty());
    EntryView {
        source: Source::Pane,
        title: match pane.member_text("agent"@) {
            Some(agent) => agent,
            None => if label.len() > 0 {
                label
            } else {
                pane_id
            },
        },
        subtitle: focus_mark(pane) + (if cwd.len() > 0 {
            cwd + " · "@
        } else {
            Seq::empty()
        }) + pane_id,
        path: cwd,
        path_bytes: encode_utf8(cwd),
        workspace_id: Some(workspace_id),
        workspace_label: None,
        agent_target: Some(pane_id),
        project: None,
        action: ActionView::FocusPane { id: pane_id },
        source_label: None,
        search_terms: seq![pane_id, label, cwd],
        parent_id: Some(tab_id),
        canonical: None,
    }
}

/// The rows for those of the panes that belong to a tab.
pub open spec fn rows_of_tab(
    panes: Seq<DataView>,
    workspace_id: Seq<char>,
    tab_id: Seq<char>,
) -> Seq<EntryView>
    decreases panes.len(),
{
    if panes.len() == 0 {
        Seq::empty()
    } else {
        let head = rows_of_tab(panes.drop_last(), workspace_id, tab_id);
        if panes.last().member_text_or("tab_id"@, Seq::empty()) == tab_id {
            head.push(pane_row(panes.last(), workspace_id, tab_id))
        } else {
            head
        }
    }
}

/// The rows for the panes of a tab that a reply lists.
pub open spec fn pane_rows(reply: DataView, workspace_id: Seq<char>, tab_id: Seq<char>) -> Seq<
    EntryView,
> {
    match reply.result_list("panes"@) {
        Some(panes) => rows_of_tab(panes, workspace_id, tab_id),
        None => Seq::empty(),
    }
}

/// Each row for a tab names the workspace that its tabs were asked of as its parent.
pub proof fn law_tab_rows_name_their_workspace(
    reply: DataView,
    workspace_id: Seq<char>,
    k: int,
)
    requires
        0 <= k < tab_rows(reply, workspace_id).len(),
    ensures
        tab_rows(reply, workspace_id)[k].parent_id == Some(workspace_id),
        tab_rows(reply, workspace_id)[k].workspace_id == Some(workspace_id),
{
}

/// Each row for a pane names the tab that its panes were asked of as its parent, and has no rows
/// under it.
pub proof fn law_pane_rows_open_nothing(
    reply: DataView,
    workspace_id: Seq<char>,
    tab_id: Seq<char>,
)
    ensures
        forall|k: int|
            0 <= k < pane_rows(reply, workspace_id, tab_id).len() ==> {
                &&& (#[trigger] pane_rows(reply, workspace_id, tab_id)[k]).parent_id == Some(tab_id)
                &&& pane_rows(reply, workspace_id, tab_id)[k].workspace_id == Some(workspace_id)
                &&& pane_rows(reply, workspace_id, tab_id)[k].expand_key() is None
            },
{
    if let Some(panes) = reply.result_list("panes"@) {
        lemma_rows_of_tab(panes, workspace_id, tab_id);
    }
}

proof fn lemma_rows_of_tab(panes: Seq<DataView>, workspace_id: Seq<char>, tab_id: Seq<char>)
    ensures
        forall|k: int|
            0 <= k < rows_of_tab(panes, workspace_id, tab_id).len() ==> {
                &&& (#[trigger] rows_of_tab(panes, workspace_id, tab_id)[k]).parent_id == Some(
                    tab_id,
                )
                &&& rows_of_tab(panes, workspace_id, tab_id)[k].workspace_id == Some(workspace_id)
                &&& rows_of_tab(panes, workspace_id, tab_id)[k].expand_key() is None
            },
    decreases panes.len(),
{
    if panes.len() > 0 {
        lemma_rows_of_tab(panes.drop_last(), workspace_id, tab_id);
        let head = rows_of_tab(panes.drop_last(), workspace_id, tab_id);
        let all = rows_of_tab(panes, workspace_id, tab_id);
        assert forall|k: int| 0 <= k < all.len() implies {
            &&& (#[trigger] all[k]).parent_id == Some(tab_id)
            &&& all[k].workspace_id == Some(workspace_id)
            &&& all[k].expand_key() is None
        } by {
            if k < head.len() {
                assert(all[k] == head[k]);
            }
        }
    }
}

fn focus_text(item: &Data) -> (mark: &'static str)
    ensures
        mark@ == focus_mark(item@),
{
    if item.member_true("focused") {
        "focused · "
    } else {
        proof {
            reveal_strlit("");
            assert(""@ =~= Seq::<char>::empty());
        }
        ""
    }
}

fn tab_entry(tab: &Data, workspace_id: &str) -> (entry: Entry)
    ensures
        entry@ == tab_row(tab@, workspace_id@),
{
    proof {
        reveal_strlit("");
        assert(""@ =~= Seq::<char>::empty());
    }
    let tab_id: &str = tab.member_text_or("tab_id", "");
    let label: &str = tab.member_text_or("label", "");
    let title: String = if label.is_empty() {
        concat2("tab ", tab_id)
    } else {
        label.to_owned()
    };
    let mut subtitle: String = concat2(
        focus_text(tab),
        tab.member_text_or("agent_status", "unknown"),
    );
    subtitle.append(" · ");
    subtitle.append(decimal_text(tab.member_number("pane_count")).as_str());
    subtitle.append(" panes");
    let mut search_terms: Vec<String> = Vec::new();
    search_terms.push(tab_id.to_owned());
    search_terms.push(label.to_owned());
    assert(contents(search_terms@) =~= seq![tab_id@, label@]);
    Entry {
        source: Source::Tab,
        title,
        subtitle,
        path: FilePath::from_text(""),
        workspace_id: Some(workspace_id.to_owned()),
        workspace_label: None,
        agent_target: None,
        project: None,
        action: EntryAction::FocusTab { id: tab_id.to_owned() },
        source_label: None,
        search_terms,
        parent_id: Some(workspace_id.to_owned()),
        canonical: None,
    }
}

fn pane_entry(pane: &Data, workspace_id: &str, tab_id: &str) -> (entry: Entry)
    ensures
        entry@ == pane_row(pane@, workspace_id@, tab_id@),
{
    proof {
        reveal_strlit("");
        assert(""@ =~= Seq::<char>::empty());
    }
    let pane_id: &str = pane.member_text_or("pane_id", "");
    let label: &str = pane.member_text_or("label", "");
    let cwd: &str = pane.member_text_or("cwd", "");
    let title: String = match pane.member_text("agent") {
        Some(agent) => agent.to_owned(),
        None => if !label.is_empty() {
            label.to_owned()
        } else {
            pane_id.to_owned()
        },
    };
    let mut subtitle: String = focus_text(pane).to_owned();
    let place: String = if !cwd.is_empty() {
        concat2(cwd, " · ")
    } else {
        String::new()
    };
    subtitle.append(place.as_str());
    subtitle.append(pane_id);
    let mut search_terms: Vec<String> = Vec::new();
    search_terms.push(pane_id.to_owned());
    search_terms.push(label.to_owned());
    search_terms.push(cwd.to_owned());
    assert(contents(search_terms@) =~= seq![pane_id@, label@, cwd@]);
    Entry {
        source: Source::Pane,
        title,
        subtitle,
        path: FilePath::from_text(cwd),
        workspace_id: Some(workspace_id.to_owned()),
        workspace_label: None,
        agent_target: Some(pane_id.to_owned()),
        project: None,
        action: EntryAction::FocusPane { id: pane_id.to_owned() },
        source_label: None,
        search_terms,
        parent_id: Some(tab_id.to_owned()),
        canonical: None,
    }
}

/// The rows for the tabs of a workspace that Herdr's reply lists.
pub fn tab_entries(reply: &Data, workspace_id: &str) -> (found: Vec<Entry>)
    ensures
        views(found@) == tab_rows(reply@, workspace_id@),
{
    let mut found: Vec<Entry> = Vec::new();
    if let Some(tabs) = reply.result_list("tabs") {
        let mut i: usize = 0;
        while i < tabs.len()
            invariant
                i <= tabs.len(),
                found.len() == i,
                forall|k: int|
                    0 <= k < i ==> (#[trigger] found@[k])@ == tab_row(tabs@[k]@, workspace_id@),
            decreases tabs.len() - i,
        {
            found.push(tab_entry(&tabs[i], workspace_id));
            i += 1;
        }
        assert(reply@.result_list("tabs"@) == Some(trees(tabs@)));
    }
    assert(views(found@) =~= tab_rows(reply@, workspace_id@));
    found
}

/// The rows for the panes of a tab that Herdr's reply lists.
pub fn pane_entries(reply: &Data, workspace_id: &str, tab_id: &str) -> (found: Vec<Entry>)
    ensures
        views(found@) == pane_rows(reply@, workspace_id@, tab_id@),
{
    proof {
        reveal_strlit("");
        assert(""@ =~= Seq::<char>::empty());
    }
    let mut found: Vec<Entry> = Vec::new();
    if let Some(panes) = reply.result_list("panes") {
        let ghost all = trees(panes@);
        let mut i: usize = 0;
        assert(views(found@) =~= rows_of_tab(all.take(0), workspace_id@, tab_id@));
        while i < panes.len()
            invariant
                i <= panes.len(),
                all == trees(panes@),
                ""@ == Seq::<char>::empty(),
                views(found@) == rows_of_tab(all.take(i as int), workspace_id@, tab_id@),
            decreases panes.len() - i,
        {
            let ghost done = found@;
            assert(all.take(i + 1).drop_last() =~= all.take(i as int));
            if same(panes[i].member_text_or("tab_id", ""), tab_id) {
                found.push(pane_entry(&panes[i], workspace_id, tab_id));
                assert(views(found@) =~= views(done).push(
                    pane_row(panes@[i as int]@, workspace_id@, tab_id@),
                ));
            }
            i += 1;
        }
        assert(all.take(i as int) =~= all);
    } else {
        assert(views(found@) =~= Seq::empty());
    }
    found
}

} // verus!
