//! Moving through the list, and expanding what it shows.

use crate::app::{lemma_same_listing, lemma_wf_kept, App};
use crate::children::{pane_entries, pane_rows, tab_entries, tab_rows};
use crate::data::{Data, DataView};
use crate::keys::{entry_identity_key, expand_key};
use crate::model::{ActionView, Entry, EntryAction, EntryView, Source};
use crate::string_set::StringSet;
use crate::text::{
    chars_of, contents, list3, push_text, same, same_option, trim, trim_end, trimmed_end,
    white_space,
};
use crate::tree::{
    covers_entries, is_covered, is_expanded, is_finite_tree, opens, tree_is_finite, views,
};
use vstd::prelude::*;
use vstd::string::StrSliceExecFns;

verus! {

/// A list that Herdr is asked for.
#[derive(Debug)]
pub enum Fetch {
    /// The tabs of a workspace.
    Tabs { workspace_id: String },
    /// The panes of a tab.
    Panes { workspace_id: String, tab_id: String },
}

/// What list Herdr is asked for.
pub enum FetchView {
    Tabs { workspace_id: Seq<char> },
    Panes { workspace_id: Seq<char>, tab_id: Seq<char> },
}

impl View for Fetch {
    type V = FetchView;

    open spec fn view(&self) -> FetchView {
        match *self {
            Fetch::Tabs { workspace_id } => FetchView::Tabs { workspace_id: workspace_id@ },
            Fetch::Panes { workspace_id, tab_id } => FetchView::Panes {
                workspace_id: workspace_id@,
                tab_id: tab_id@,
            },
        }
    }
}

impl FetchView {
    /// What Herdr is called with.
    pub open spec fn args(self) -> Seq<Seq<char>> {
        match self {
            FetchView::Tabs { workspace_id } => seq![
                "tab"@,
                "list"@,
                "--workspace"@,
                workspace_id,
            ],
            FetchView::Panes { workspace_id, .. } => seq![
                "pane"@,
                "list"@,
                "--workspace"@,
                workspace_id,
            ],
        }
    }

    /// The rows that a reply brings.
    pub open spec fn rows(self, reply: DataView) -> Seq<EntryView> {
        match self {
            FetchView::Tabs { workspace_id } => tab_rows(reply, workspace_id),
            FetchView::Panes { workspace_id, tab_id } => pane_rows(reply, workspace_id, tab_id),
        }
    }
}

impl Fetch {
    /// What Herdr is called with.
    pub fn herdr_args(&self) -> (args: Vec<String>)
        ensures
            contents(args@) == self@.args(),
    {
        let (what, id): (&str, &str) = match self {
            Fetch::Tabs { workspace_id } => ("tab", workspace_id.as_str()),
            Fetch::Panes { workspace_id, .. } => ("pane", workspace_id.as_str()),
        };
        let mut args: Vec<String> = list3(what, "list", "--workspace");
        push_text(&mut args, id);
        assert(contents(args@) =~= self@.args());
        args
    }
}

impl App {
    /// The entry at an index of the list: an entry, or a row of the tree.
    pub open spec fn entry(self, idx: int) -> Option<Entry> {
        if idx < self.entries@.len() {
            Some(self.entries@[idx])
        } else if idx < self.entries@.len() + self.child_entries@.len() {
            Some(self.child_entries@[idx - self.entries@.len()])
        } else {
            None
        }
    }

    /// The entry in a row of the list.
    pub open spec fn entry_in_row(self, row: int) -> Option<Entry> {
        if 0 <= row < self.filtered@.len() {
            self.entry(self.filtered@[row] as int)
        } else {
            None
        }
    }

    /// The selected entry.
    pub open spec fn selection(self) -> Option<Entry> {
        self.entry_in_row(self.selected as int)
    }

    /// Whether a row of the list holds the entry with an identity.
    pub open spec fn row_has(self, row: int, key: Seq<char>) -> bool {
        self.entry_in_row(row) is Some && self.entry_in_row(row)->0@.identity_key() == key
    }

    /// Whether the first row with an identity is selected, or the first row where there is none.
    pub open spec fn selects(self, key: Seq<char>) -> bool {
        if exists|row: int| #[trigger] self.row_has(row, key) {
            &&& self.row_has(self.selected as int, key)
            &&& forall|row: int| 0 <= row < self.selected ==> !#[trigger] self.row_has(row, key)
        } else {
            self.selected == 0
        }
    }

    /// Whether the list shows what is to be shown, with the selection where it was in another state.
    pub open spec fn shows_with_selection_of(self, before: App) -> bool {
        &&& self.shows(self.listing())
        &&& self.is_ranking(self.ranking())
        &&& match before.selection() {
            Some(entry) => self.selects(entry@.identity_key()),
            None => self.selected == 0,
        }
    }

    /// Resolves an index of the list to an entry.
    pub fn get_entry(&self, idx: usize) -> (found: Option<&Entry>)
        ensures
            self.entry(idx as int) == (match found {
                Some(entry) => Some(*entry),
                None => None,
            }),
    {
        if idx < self.entries.len() {
            Some(&self.entries[idx])
        } else {
            let at: usize = idx - self.entries.len();
            if at < self.child_entries.len() {
                Some(&self.child_entries[at])
            } else {
                None
            }
        }
    }

    /// The selected entry.
    pub fn selected_entry(&self) -> (found: Option<&Entry>)
        ensures
            self.selection() == (match found {
                Some(entry) => Some(*entry),
                None => None,
            }),
    {
        if self.selected < self.filtered.len() {
            self.get_entry(self.filtered[self.selected])
        } else {
            None
        }
    }

    /// Builds the list anew and keeps the selection on the entry it was on, where that is still
    /// listed.
    pub fn reapply_filter_preserving_selection(&mut self)
        requires
            old(self).wf(),
        ensures
            final(self).same_but_list(*old(self)),
            final(self).wf(),
            old(self).is_ranking(old(self).ranking()),
            final(self).shows(old(self).listing()),
            match old(self).selection() {
                Some(entry) => final(self).selects(entry@.identity_key()),
                None => final(self).selected == 0,
            },
    {
        let selected_key: Option<String> = match self.selected_entry() {
            Some(entry) => Some(entry_identity_key(entry)),
            None => None,
        };
        self.apply_filter();
        let ghost listed = *self;
        if let Some(key) = selected_key {
            let row: usize = self.row_of(key.as_str());
            self.selected = row;
            proof {
                assert forall|r: int| #[trigger] self.row_has(r, key@) == listed.row_has(r, key@) by {
                }
                if exists|r: int| #[trigger] self.row_has(r, key@) {
                    let r = choose|r: int| #[trigger] self.row_has(r, key@);
                    assert(listed.row_has(r, key@));
                }
                if exists|r: int| #[trigger] listed.row_has(r, key@) {
                    let r = choose|r: int| #[trigger] listed.row_has(r, key@);
                    assert(self.row_has(r, key@));
                }
            }
        }
        proof {
            lemma_wf_kept(listed, *self);
        }
    }

    /// The first row with an identity, or the first row where there is none.
    fn row_of(&self, key: &str) -> (found: usize)
        ensures
            if exists|row: int| #[trigger] self.row_has(row, key@) {
                &&& self.row_has(found as int, key@)
                &&& forall|row: int| 0 <= row < found ==> !#[trigger] self.row_has(row, key@)
            } else {
                found == 0
            },
    {
        let mut row: usize = 0;
        while row < self.filtered.len()
            invariant
                row <= self.filtered.len(),
                forall|r: int| 0 <= r < row ==> !#[trigger] self.row_has(r, key@),
            decreases self.filtered.len() - row,
        {
            if let Some(entry) = self.get_entry(self.filtered[row]) {
                if same(entry_identity_key(entry).as_str(), key) {
                    assert(self.row_has(row as int, key@));
                    return row;
                }
            }
            row += 1;
        }
        0
    }
}

impl App {
    /// The key that expanding the selected entry marks, where it can be expanded and is not.
    pub open spec fn expansion(self) -> Option<Seq<char>> {
        match self.selection() {
            Some(entry) => match entry@.expand_key() {
                Some(key) => if self.expanded@.contains(key) {
                    None
                } else {
                    Some(key)
                },
                None => None,
            },
            None => None,
        }
    }

    /// The key that collapsing the selected entry unmarks, where it is expanded.
    pub open spec fn collapse(self) -> Option<Seq<char>> {
        match self.selection() {
            Some(entry) => match entry@.expand_key() {
                Some(key) => if self.expanded@.contains(key) {
                    Some(key)
                } else {
                    None
                },
                None => None,
            },
            None => None,
        }
    }

    /// Whether a row of the tree names a parent.
    pub open spec fn has_children(self, id: Seq<char>) -> bool {
        exists|c: int|
            0 <= c < self.child_entries@.len() && (#[trigger] self.child_entries@[c])@.parent_id
                == Some(id)
    }

    /// What Herdr is asked for when the selected entry is expanded: nothing where the rows under it
    /// are known already.
    pub open spec fn fetch_needed(self) -> Option<FetchView> {
        if self.expansion() is None {
            None
        } else {
            let entry = self.selection()->0@;
            match entry.action {
                ActionView::FocusWorkspace { id } => if self.has_children(id) {
                    None
                } else {
                    Some(FetchView::Tabs { workspace_id: id })
                },
                ActionView::FocusTab { id } => if self.has_children(id) {
                    None
                } else {
                    match entry.workspace_id {
                        Some(workspace_id) => Some(FetchView::Panes { workspace_id, tab_id: id }),
                        None => None,
                    }
                },
                _ => None,
            }
        }
    }

    /// The rows that Herdr's reply adds when the selected entry is expanded.
    pub open spec fn new_rows(self, reply: DataView) -> Seq<EntryView> {
        match self.fetch_needed() {
            Some(fetch) => fetch.rows(reply),
            None => Seq::empty(),
        }
    }

    /// Whether there are indices for all of the tree, and it stays finite where it is shown, when the
    /// selected entry is expanded with Herdr's reply.
    pub open spec fn expands_soundly(self, reply: DataView) -> bool {
        match self.expansion() {
            Some(key) => {
                &&& self.entries@.len() + self.child_entries@.len() + self.new_rows(reply).len()
                    <= usize::MAX
                &&& self.is_unfiltered() ==> is_finite_tree(
                    views(self.entries@),
                    views(self.child_entries@) + self.new_rows(reply),
                    self.expanded@.insert(key),
                )
            },
            None => true,
        }
    }

    /// Whether two states are the same but for the list, the selection and the tree.
    pub open spec fn same_but_tree(self, other: App) -> bool {
        &&& self.same_but_filter(other)
        &&& self.source_filter == other.source_filter
        &&& self.query == other.query
        &&& self.pinned_entries == other.pinned_entries
        &&& self.match_scores == other.match_scores
        &&& self.entries == other.entries
        &&& self.path_to_workspaces == other.path_to_workspaces
        &&& self.previous_workspace_id == other.previous_workspace_id
    }

    /// Whether a state follows from another by expanding the selected entry with Herdr's reply.
    pub open spec fn is_expanded_from(self, before: App, reply: DataView) -> bool {
        match before.expansion() {
            Some(key) => {
                &&& self.same_but_tree(before)
                &&& self.expanded@ == before.expanded@.insert(key)
                &&& views(self.child_entries@) == views(before.child_entries@) + before.new_rows(
                    reply,
                )
                &&& self.shows_with_selection_of(before)
            },
            None => self == before,
        }
    }

    /// Whether a state follows from another by collapsing the selected entry.
    pub open spec fn is_collapsed_from(self, before: App) -> bool {
        match before.collapse() {
            Some(key) => {
                &&& self.same_but_tree(before)
                &&& self.expanded@ == before.expanded@.remove(key)
                &&& self.child_entries == before.child_entries
                &&& self.shows_with_selection_of(before)
            },
            None => self == before,
        }
    }

    /// Whether a state follows from another by toggling the selected entry with Herdr's reply.
    pub open spec fn is_toggled_from(self, before: App, reply: DataView) -> bool {
        if before.collapse() is Some {
            self.is_collapsed_from(before)
        } else {
            self.is_expanded_from(before, reply)
        }
    }

    /// Whether a row of the tree names a parent.
    fn knows_children(&self, id: &str) -> (yes: bool)
        ensures
            yes == self.has_children(id@),
    {
        let mut c: usize = 0;
        while c < self.child_entries.len()
            invariant
                c <= self.child_entries.len(),
                forall|k: int|
                    0 <= k < c ==> (#[trigger] self.child_entries@[k])@.parent_id != Some(id@),
            decreases self.child_entries.len() - c,
        {
            if same_option(&self.child_entries[c].parent_id, Some(id)) {
                assert(self.child_entries@[c as int]@.parent_id == Some(id@));
                return true;
            }
            c += 1;
        }
        false
    }

    /// What Herdr is to be asked for before the selected entry is expanded. The answer goes to
    /// `expand_selected`.
    pub fn expand_request(&self) -> (request: Option<Fetch>)
        ensures
            self.fetch_needed() == (match request {
                Some(fetch) => Some(fetch@),
                None => None,
            }),
    {
        match self.selected_entry() {
            Some(entry) => {
                if is_expanded(entry, &self.expanded) {
                    return None;
                }
                match &entry.action {
                    EntryAction::FocusWorkspace { id } => if self.knows_children(id.as_str()) {
                        None
                    } else {
                        Some(Fetch::Tabs { workspace_id: id.clone() })
                    },
                    EntryAction::FocusTab { id } => if self.knows_children(id.as_str()) {
                        None
                    } else {
                        match &entry.workspace_id {
                            Some(workspace_id) => Some(
                                Fetch::Panes {
                                    workspace_id: workspace_id.clone(),
                                    tab_id: id.clone(),
                                },
                            ),
                            None => None,
                        }
                    },
                    _ => None,
                }
            },
            None => None,
        }
    }

    /// The rows that Herdr's reply adds when the selected entry is expanded.
    fn rows_to_add(&self, reply: &Data) -> (found: Vec<Entry>)
        ensures
            views(found@) == self.new_rows(reply@),
    {
        match self.expand_request() {
            Some(Fetch::Tabs { workspace_id }) => tab_entries(reply, workspace_id.as_str()),
            Some(Fetch::Panes { workspace_id, tab_id }) => pane_entries(
                reply,
                workspace_id.as_str(),
                tab_id.as_str(),
            ),
            None => {
                let found: Vec<Entry> = Vec::new();
                assert(views(found@) =~= Seq::empty());
                found
            },
        }
    }

    /// Whether the selected entry can be expanded with Herdr's reply: the tree stays finite where it
    /// is shown.
    pub fn can_expand(&self, reply: &Data) -> (yes: bool)
        requires
            self.wf(),
        ensures
            yes == self.expands_soundly(reply@),
    {
        let key: Option<String> = match self.selected_entry() {
            Some(entry) => expand_key(entry),
            None => None,
        };
        match key {
            Some(key) => {
                if self.expanded.contains(key.as_str()) {
                    return true;
                }
                let added: Vec<Entry> = self.rows_to_add(reply);
                assert(views(added@).len() == added.len());
                if added.len() > usize::MAX - self.entries.len() - self.child_entries.len() {
                    return false;
                }
                if !trim(self.query.as_str()).is_empty() || self.source_filter.is_some() {
                    return true;
                }
                let mut expanded: StringSet = self.expanded.copy();
                let _new: bool = expanded.insert(key);
                tree_is_finite(&self.entries, &self.child_entries, &added, &expanded)
            },
            None => true,
        }
    }

    /// Adds rows for the tabs of a workspace from Herdr's reply.
    pub fn fetch_tabs(&mut self, workspace_id: &str, reply: &Data)
        ensures
            final(self).same_but_tree(*old(self)),
            final(self).filtered == old(self).filtered,
            final(self).filtered_scores == old(self).filtered_scores,
            final(self).selected == old(self).selected,
            final(self).expanded == old(self).expanded,
            views(final(self).child_entries@) == views(old(self).child_entries@) + tab_rows(
                reply@,
                workspace_id@,
            ),
            final(self).child_entries@.take(old(self).child_entries@.len() as int) == old(
                self,
            ).child_entries@,
    {
        let mut added: Vec<Entry> = tab_entries(reply, workspace_id);
        let ghost rows = added@;
        self.child_entries.append(&mut added);
        assert(views(self.child_entries@) =~= views(old(self).child_entries@) + views(rows));
        assert(self.child_entries@.take(old(self).child_entries@.len() as int) =~= old(
            self,
        ).child_entries@);
    }

    /// Adds rows for the panes of a tab from Herdr's reply.
    pub fn fetch_panes(&mut self, workspace_id: &str, tab_id: &str, reply: &Data)
        ensures
            final(self).same_but_tree(*old(self)),
            final(self).filtered == old(self).filtered,
            final(self).filtered_scores == old(self).filtered_scores,
            final(self).selected == old(self).selected,
            final(self).expanded == old(self).expanded,
            views(final(self).child_entries@) == views(old(self).child_entries@) + pane_rows(
                reply@,
                workspace_id@,
                tab_id@,
            ),
            final(self).child_entries@.take(old(self).child_entries@.len() as int) == old(
                self,
            ).child_entries@,
    {
        let mut added: Vec<Entry> = pane_entries(reply, workspace_id, tab_id);
        let ghost rows = added@;
        self.child_entries.append(&mut added);
        assert(views(self.child_entries@) =~= views(old(self).child_entries@) + views(rows));
        assert(self.child_entries@.take(old(self).child_entries@.len() as int) =~= old(
            self,
        ).child_entries@);
    }

    /// Expands the selected workspace or tab. `reply` is what Herdr answered to `expand_request`, or
    /// any value where nothing was to be asked.
    pub fn expand_selected(&mut self, reply: &Data)
        requires
            old(self).wf(),
            old(self).expands_soundly(reply@),
        ensures
            final(self).wf(),
            final(self).is_expanded_from(*old(self), reply@),
    {
        let key: String = match self.selected_entry() {
            Some(entry) => match expand_key(entry) {
                Some(key) => key,
                None => {
                    return;
                },
            },
            None => {
                return;
            },
        };
        if self.expanded.contains(key.as_str()) {
            return;
        }
        let ghost before = *self;
        let request: Option<Fetch> = self.expand_request();
        let _new: bool = self.expanded.insert(key);
        match request {
            Some(Fetch::Tabs { workspace_id }) => {
                self.fetch_tabs(workspace_id.as_str(), reply);
            },
            Some(Fetch::Panes { workspace_id, tab_id }) => {
                self.fetch_panes(workspace_id.as_str(), tab_id.as_str(), reply);
            },
            None => {
                assert(views(self.child_entries@) =~= views(before.child_entries@)
                    + before.new_rows(reply@));
                assert(self.child_entries@.take(before.child_entries@.len() as int)
                    =~= before.child_entries@);
            },
        }
        let ghost grown = *self;
        proof {
            assert(views(grown.child_entries@).len() == grown.child_entries@.len());
            assert(views(before.child_entries@).len() == before.child_entries@.len());
            assert forall|i: int| 0 <= i < grown.entries@.len() implies #[trigger] grown.score_fits(
                i,
            ) by {
                assert(before.score_fits(i));
            }
            assert(grown.selection() == before.selection()) by {
                let idx = before.filtered@[before.selected as int] as int;
                if idx >= before.entries@.len() {
                    let c = idx - before.entries@.len();
                    assert(grown.child_entries@.take(before.child_entries@.len() as int)[c]
                        == grown.child_entries@[c]);
                }
            }
        }
        self.reapply_filter_preserving_selection();
        proof {
            lemma_same_listing(grown, *self);
        }
    }

    /// Collapses the selected workspace or tab.
    pub fn collapse_selected(&mut self)
        requires
            old(self).wf(),
        ensures
            final(self).wf(),
            final(self).is_collapsed_from(*old(self)),
    {
        let key: String = match self.selected_entry() {
            Some(entry) => match expand_key(entry) {
                Some(key) => key,
                None => {
                    return;
                },
            },
            None => {
                return;
            },
        };
        if !self.expanded.contains(key.as_str()) {
            return;
        }
        let ghost before = *self;
        let _removed: bool = self.expanded.remove(key.as_str());
        let ghost shrunk = *self;
        proof {
            if before.is_unfiltered() {
                lemma_finite_subset(
                    views(before.entries@),
                    views(before.child_entries@),
                    before.expanded@,
                    shrunk.expanded@,
                );
            }
            assert forall|i: int| 0 <= i < shrunk.entries@.len() implies #[trigger] shrunk.score_fits(
                i,
            ) by {
                assert(before.score_fits(i));
            }
        }
        self.reapply_filter_preserving_selection();
        proof {
            lemma_same_listing(shrunk, *self);
        }
    }

    /// Expands the selected workspace or tab, or collapses it where it is expanded.
    pub fn toggle_expand_selected(&mut self, reply: &Data)
        requires
            old(self).wf(),
            old(self).expands_soundly(reply@),
        ensures
            final(self).wf(),
            final(self).is_toggled_from(*old(self), reply@),
    {
        if self.selected_is_expanded() {
            self.collapse_selected();
        } else {
            self.expand_selected(reply);
        }
    }

    /// Whether the selected entry is a workspace or a tab.
    pub fn selected_is_expandable(&self) -> (yes: bool)
        ensures
            yes == (self.selection() is Some && self.selection()->0@.expand_key() is Some),
    {
        match self.selected_entry() {
            Some(entry) => match &entry.action {
                EntryAction::FocusWorkspace { .. } => true,
                EntryAction::FocusTab { .. } => true,
                _ => false,
            },
            None => false,
        }
    }

    /// Whether the selected entry is expanded.
    pub fn selected_is_expanded(&self) -> (yes: bool)
        ensures
            yes == (self.collapse() is Some),
    {
        match self.selected_entry() {
            Some(entry) => is_expanded(entry, &self.expanded),
            None => false,
        }
    }
}

/// How many characters of a text stand before its last word.
pub open spec fn last_word_start(text: Seq<char>) -> nat
    decreases text.len(),
{
    if text.len() == 0 || white_space(text.last()) {
        text.len()
    } else {
        last_word_start(text.drop_last())
    }
}

/// A text without its last word, the white space before it and what follows it.
pub open spec fn without_last_word(text: Seq<char>) -> Seq<char> {
    let head = trimmed_end(text);
    trimmed_end(head.take(last_word_start(head) as int))
}

/// The source that follows another in a list: the first one behind none or one that is not listed,
/// and none behind the last one.
pub open spec fn source_after(list: Seq<Source>, current: Option<Source>) -> Option<Source> {
    let next: int = match current {
        Some(source) => if list.contains(source) {
            list.index_of(source) + 1
        } else {
            0
        },
        None => 0,
    };
    if next < list.len() {
        Some(list[next])
    } else {
        None
    }
}

/// The source that is singled out when one is chosen while another is: choosing it again lifts it.
pub open spec fn toggled_source(current: Option<Source>, chosen: Option<Source>) -> Option<Source> {
    if current == chosen {
        None
    } else {
        chosen
    }
}

/// Choosing a source twice lifts the filter, whatever was singled out before.
pub proof fn law_choosing_a_source_twice_lifts_it(current: Option<Source>, chosen: Option<Source>)
    requires
        current != chosen,
    ensures
        toggled_source(toggled_source(current, chosen), chosen) is None,
{
}

/// The row that lies `n` rows further down in a list, or the last one. In an empty list nothing
/// moves.
pub open spec fn row_below(row: int, n: int, len: int) -> int {
    if len == 0 {
        row
    } else if row + n < len {
        row + n
    } else {
        len - 1
    }
}

/// The row that lies `n` rows further up, or the first one.
pub open spec fn row_above(row: int, n: int) -> int {
    if row > n {
        row - n
    } else {
        0
    }
}

/// Moving leaves the selection on a row of the list, wherever it was before: moving down always,
/// and moving up where it was on one.
pub proof fn law_moving_stays_in_the_list(row: int, n: int, len: int)
    requires
        0 <= row,
        0 <= n,
        0 < len,
    ensures
        0 <= row_below(row, n, len) < len,
        row < len ==> 0 <= row_above(row, n) < len,
{
}

/// Moving up undoes moving down, unless the end of the list was in the way.
pub proof fn law_moving_up_undoes_moving_down(row: int, n: int, len: int)
    requires
        0 <= row,
        0 < n,
        row + n < len,
    ensures
        row_above(row_below(row, n, len), n) == row,
{
}

impl App {
    /// Whether two states are the same but for the selection.
    pub open spec fn same_but_selected(self, other: App) -> bool {
        &&& self.same_but_list(other)
        &&& self.filtered == other.filtered
        &&& self.filtered_scores == other.filtered_scores
    }

    /// The state with another source singled out.
    pub open spec fn with_source(self, source: Option<Source>) -> App {
        App { source_filter: source, ..self }
    }

    /// Drops the last word of the query and the white space before it.
    pub fn delete_query_word(&mut self)
        ensures
            final(self).query@ == without_last_word(old(self).query@),
            *final(self) == (App { query: final(self).query, ..*old(self) }),
    {
        let head: &str = trim_end(self.query.as_str());
        let chars: Vec<char> = chars_of(head);
        let mut cut: usize = chars.len();
        assert(head@.take(cut as int) == head@);
        while cut > 0 && !chars[cut - 1].is_whitespace()
            invariant
                chars@ == head@,
                cut <= chars.len(),
                last_word_start(head@.take(cut as int)) == last_word_start(head@),
            ensures
                cut <= chars.len(),
                last_word_start(head@.take(cut as int)) == last_word_start(head@),
                cut > 0 ==> white_space(head@[cut - 1]),
            decreases cut,
        {
            assert(head@.take(cut as int).drop_last() =~= head@.take(cut - 1));
            cut -= 1;
        }
        let kept: String = trim_end(head.substring_char(0, cut)).to_owned();
        assert(head@.subrange(0, cut as int) =~= head@.take(cut as int));
        self.query = kept;
    }

    /// Singles a source out, or lifts that where it was singled out already. Sources that are not
    /// enabled are left alone.
    pub fn set_filter(&mut self, source: Option<Source>)
        ensures
            source is Some && !old(self).config.sources.spec_enabled(source->0) ==> *final(self)
                == *old(self),
            source is None || old(self).config.sources.spec_enabled(source->0) ==> *final(self)
                == (App {
                source_filter: toggled_source(old(self).source_filter, source),
                selected: 0,
                ..*old(self)
            }),
    {
        if let Some(wanted) = source {
            if !self.config.sources.enabled(&wanted) {
                return;
            }
        }
        let same_source: bool = match (self.source_filter, source) {
            (Some(a), Some(b)) => a == b,
            (None, None) => true,
            _ => false,
        };
        self.source_filter = if same_source {
            None
        } else {
            source
        };
        self.selected = 0;
    }

    /// The state with the next enabled source in the configured order singled out, or none behind the
    /// last.
    pub open spec fn with_next_source(self) -> App {
        self.with_source(source_after(self.config.source_sequence(), self.source_filter))
    }

    /// The next enabled source in the configured order, or none behind the last.
    fn next_source(&self) -> (next: Option<Source>)
        ensures
            self.config.is_source_order(self.config.source_sequence()),
            next == source_after(self.config.source_sequence(), self.source_filter),
    {
        let sources: Vec<Source> = self.config.enabled_sources_in_order();
        let mut next: usize = 0;
        if let Some(current) = self.source_filter {
            let mut i: usize = 0;
            while i < sources.len()
                invariant_except_break
                    next == 0,
                    forall|k: int| 0 <= k < i ==> #[trigger] sources@[k] != current,
                invariant
                    self.config.is_source_order(sources@),
                    i <= sources.len(),
                ensures
                    next == (if sources@.contains(current) {
                        sources@.index_of(current) + 1
                    } else {
                        0
                    }),
                decreases sources.len() - i,
            {
                if sources[i] == current {
                    proof {
                        assert(sources@.contains(current));
                        let p = sources@.index_of(current);
                        assert(sources@[p] == current);
                        if p > i {
                            assert(self.config.source_before(sources@[i as int], sources@[p]));
                        }
                    }
                    next = i + 1;
                    break;
                }
                i += 1;
            }
        }
        if next < sources.len() {
            Some(sources[next])
        } else {
            None
        }
    }

    /// Singles out the next enabled source in the configured order, or none behind the last.
    pub fn cycle_filter(&mut self)
        requires
            old(self).with_next_source().wf(),
        ensures
            old(self).config.is_source_order(old(self).config.source_sequence()),
            final(self).same_but_list(old(self).with_next_source()),
            final(self).wf(),
            final(self).selected == 0,
            final(self).is_ranking(final(self).ranking()),
            final(self).shows(final(self).listing()),
    {
        self.source_filter = self.next_source();
        self.selected = 0;
        let ghost turned = *self;
        proof {
            lemma_wf_kept(old(self).with_next_source(), turned);
        }
        self.apply_filter();
        proof {
            lemma_same_listing(turned, *self);
        }
    }

    /// Does what `cycle_filter` does where the state is sound after that, and tells whether it is.
    pub fn try_cycle_filter(&mut self) -> (done: bool)
        ensures
            done == old(self).with_next_source().wf(),
            !done ==> *final(self) == *old(self),
            done ==> {
                &&& final(self).same_but_list(old(self).with_next_source())
                &&& final(self).wf()
                &&& final(self).selected == 0
                &&& final(self).is_ranking(final(self).ranking())
                &&& final(self).shows(final(self).listing())
            },
    {
        let held: Option<Source> = self.source_filter;
        self.source_filter = self.next_source();
        let sound: bool = self.is_sound();
        self.source_filter = held;
        if sound {
            self.cycle_filter();
        }
        sound
    }

    /// Does what `toggle_expand_selected` does where the state is sound and stays so, and tells
    /// whether it does.
    pub fn try_toggle_expand_selected(&mut self, reply: &Data) -> (done: bool)
        ensures
            done == (old(self).wf() && old(self).expands_soundly(reply@)),
            !done ==> *final(self) == *old(self),
            done ==> final(self).wf() && final(self).is_toggled_from(*old(self), reply@),
    {
        if !self.is_sound() || !self.can_expand(reply) {
            return false;
        }
        self.toggle_expand_selected(reply);
        true
    }

    /// Moves the selection down by one row, at most to the last.
    pub fn next(&mut self)
        requires
            old(self).filtered@.len() > 0 ==> old(self).selected < usize::MAX,
        ensures
            final(self).same_but_selected(*old(self)),
            final(self).selected == row_below(
                old(self).selected as int,
                1,
                old(self).filtered@.len() as int,
            ),
    {
        if !self.filtered.is_empty() {
            let last: usize = self.filtered.len() - 1;
            let below: usize = self.selected + 1;
            self.selected = if below < last {
                below
            } else {
                last
            };
        }
    }

    /// Moves the selection up by one row, at most to the first.
    pub fn prev(&mut self)
        ensures
            final(self).same_but_selected(*old(self)),
            final(self).selected == row_above(old(self).selected as int, 1),
    {
        self.selected = self.selected.saturating_sub(1);
    }

    /// The number of rows of a page: those that the list last had on the screen, and at least one.
    pub fn page_size(&self) -> (size: usize)
        ensures
            size == self.rows_of_page(),
    {
        if self.list_height > 0 {
            self.list_height as usize
        } else {
            1
        }
    }

    /// Moves the selection down by one page, at most to the last row.
    pub fn page_down(&mut self)
        ensures
            final(self).same_but_selected(*old(self)),
            final(self).selected == row_below(
                old(self).selected as int,
                old(self).rows_of_page(),
                old(self).filtered@.len() as int,
            ),
    {
        if self.filtered.is_empty() {
            return;
        }
        let last: usize = self.filtered.len() - 1;
        let below: usize = self.selected.saturating_add(self.page_size());
        self.selected = if below < last {
            below
        } else {
            last
        };
    }

    /// Moves the selection up by one page, at most to the first row.
    pub fn page_up(&mut self)
        ensures
            final(self).same_but_selected(*old(self)),
            final(self).selected == row_above(
                old(self).selected as int,
                old(self).rows_of_page(),
            ),
    {
        self.selected = self.selected.saturating_sub(self.page_size());
    }

    /// The number of rows of a page.
    pub open spec fn rows_of_page(self) -> int {
        if self.list_height > 0 {
            self.list_height as int
        } else {
            1
        }
    }
}

/// A tree stays finite when less of it is expanded.
pub proof fn lemma_finite_subset(
    entries: Seq<EntryView>,
    children: Seq<EntryView>,
    expanded: Set<Seq<char>>,
    fewer: Set<Seq<char>>,
)
    requires
        is_finite_tree(entries, children, expanded),
        fewer.subset_of(expanded),
    ensures
        is_finite_tree(entries, children, fewer),
{
    let ranks = choose|ranks: Seq<Option<nat>>|
        covers_entries(entries, children, expanded, ranks);
    assert forall|c: int, d: int|
        0 <= c < children.len() && 0 <= d < children.len() && ranks[c] is Some && #[trigger] opens(
            children,
            fewer,
            children[c],
            d,
        ) implies ranks[d] is Some && ranks[d]->0 < ranks[c]->0 by {
        assert(opens(children, expanded, children[c], d));
    }
    assert forall|i: int| 0 <= i < entries.len() implies #[trigger] is_covered(
        entries,
        children,
        fewer,
        ranks,
        i,
    ) by {
        assert(is_covered(entries, children, expanded, ranks, i));
        assert forall|d: int|
            0 <= d < children.len() && #[trigger] opens(
                children,
                fewer,
                entries[i],
                d,
            ) implies ranks[d] is Some by {
            assert(opens(children, expanded, entries[i], d));
        }
    }
    assert(covers_entries(entries, children, fewer, ranks));
}

} // verus!
