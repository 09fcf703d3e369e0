//! The state of the navigator: what is listed, in which order, and what is selected.

use crate::config::{bonus_for, Config};
use crate::keys::pin_key;
use crate::model::{Entry, EntryView, Source, WorkspaceMap};
use crate::order::{comes_first, orders, sorted_order, Ranked};
use crate::panel::{agent_sort, sort_of};
use crate::query::{parsed, Query, QueryView};
use crate::string_set::StringSet;
use crate::text::{content, lowercase, same, trim, trimmed};
use crate::tree::{
    entry_at, is_finite_below, is_finite_tree, lemma_finite_below_entries, lemma_none_below,
    put_tree_in, rows, subtree, tree_rows, views,
};
use vstd::prelude::*;

verus! {

/// What keys do at the moment.
#[derive(Clone, Copy, Debug, PartialEq, Eq, Structural)]
pub enum InputMode {
    Normal,
    Search,
    Help,
}

/// The state of the navigator.
#[derive(Debug)]
pub struct App {
    pub config: Config,
    pub entries: Vec<Entry>,
    /// What is listed: indices of entries, and behind them of rows of the tree.
    pub filtered: Vec<usize>,
    /// The score of each listed row.
    pub filtered_scores: Vec<i64>,
    /// The position in the list that is selected.
    pub selected: usize,
    pub query: String,
    pub input_mode: InputMode,
    pub source_filter: Option<Source>,
    pub preview: bool,
    /// The open workspaces of each directory.
    pub path_to_workspaces: WorkspaceMap,
    pub previous_workspace_id: Option<String>,
    pub pinned_entries: StringSet,
    pub spinner_tick: u32,
    pub update_available: Option<String>,
    /// The number of rows that the list last had on the screen.
    pub list_height: u16,
    /// The rows of the tree: tabs of workspaces and panes of tabs. Their indices stand behind those
    /// of the entries.
    pub child_entries: Vec<Entry>,
    /// The keys of the expanded workspaces and tabs.
    pub expanded: StringSet,
    /// What the matcher gave each entry for the plain words of the query: a score, or nothing where
    /// the entry does not match.
    pub match_scores: Vec<Option<i64>>,
    /// How Herdr's own panel sorts agents.
    pub panel_sort: String,
}

/// The score at a position, where there is one.
pub open spec fn score_at(scores: Seq<Option<i64>>, i: int) -> Option<i64> {
    if 0 <= i < scores.len() {
        scores[i]
    } else {
        None
    }
}

impl App {
    /// What the query says.
    pub open spec fn asked(self) -> QueryView {
        parsed(self.query@)
    }

    /// What the matcher gave an entry.
    pub open spec fn match_score(self, i: int) -> Option<i64> {
        score_at(self.match_scores@, i)
    }

    /// Whether agents are sorted by the urgency of their status.
    pub open spec fn uses_agent_priority(self) -> bool {
        &&& self.asked().plain.len() == 0
        &&& self.asked().all_agents || self.source_filter == Some(Source::Agent)
            || self.source_filter is None
        &&& sort_of(lowercase(self.config.picker.agent_sort@), self.panel_sort@) == "priority"@
    }

    /// Whether the query is empty or white space only and no source is singled out.
    pub open spec fn is_unfiltered(self) -> bool {
        trimmed(self.query@).len() == 0 && self.source_filter is None
    }

    /// Whether an entry passes the singled-out source and the marked tokens of the query.
    pub open spec fn passes(self, entry: Entry) -> bool {
        &&& self.source_filter is Some ==> entry.source == self.source_filter->0
        &&& self.asked().filters_match(entry@)
    }

    /// Whether an entry is listed.
    pub open spec fn is_listed(self, i: int) -> bool {
        &&& self.passes(self.entries@[i])
        &&& self.asked().plain.len() > 0 ==> self.match_score(i) is Some
    }

    /// The score of a listed entry: what the matcher gave it, the bonus of its source and, where
    /// agents are sorted by it, the urgency of its status.
    pub open spec fn score(self, i: int) -> int {
        let matched: int = if self.asked().plain.len() > 0 {
            self.match_score(i)->0 as int
        } else {
            0
        };
        matched + bonus_for(self.config.picker.source_bonuses@, self.entries@[i].source)
            + self.asked().score_bonus(self.entries@[i]@, self.uses_agent_priority())
    }

    /// Whether an entry is the previous workspace and listed as such.
    pub open spec fn is_previous(self, i: int) -> bool {
        &&& self.config.jump_back.enabled
        &&& self.config.jump_back.pin_previous
        &&& self.is_unfiltered()
        &&& self.entries@[i].source == Source::Workspace
        &&& content(self.entries@[i].workspace_id) == content(self.previous_workspace_id)
    }

    /// Whether an entry is pinned.
    pub open spec fn has_pin(self, entry: EntryView) -> bool {
        self.pinned_entries@.contains(entry.pin_key())
    }

    /// Whether entry `i` is listed before entry `j`: the previous workspace comes first, then pinned
    /// entries, then higher scores, then sources in their order, then earlier entries.
    pub open spec fn before(self, i: int, j: int) -> bool {
        let pinned_i = self.has_pin(self.entries@[i]@);
        let pinned_j = self.has_pin(self.entries@[j]@);
        let rank_i = self.config.picker.spec_source_rank(self.entries@[i].source);
        let rank_j = self.config.picker.spec_source_rank(self.entries@[j].source);
        if self.is_previous(i) != self.is_previous(j) {
            self.is_previous(i)
        } else if pinned_i != pinned_j {
            pinned_i
        } else if self.score(i) != self.score(j) {
            self.score(i) > self.score(j)
        } else if rank_i != rank_j {
            rank_i < rank_j
        } else {
            i < j
        }
    }

    /// Whether a list holds the listed entries, each once, in their order.
    pub open spec fn is_ranking(self, list: Seq<usize>) -> bool {
        &&& forall|k: int|
            0 <= k < list.len() ==> #[trigger] list[k] < self.entries@.len() && self.is_listed(
                list[k] as int,
            )
        &&& forall|i: usize|
            i < self.entries@.len() && self.is_listed(i as int) ==> #[trigger] list.contains(i)
        &&& forall|a: int, b: int|
            0 <= a < b < list.len() ==> #[trigger] self.before(
                #[trigger] list[a] as int,
                #[trigger] list[b] as int,
            )
    }

    /// The listed entries in their order.
    pub open spec fn ranking(self) -> Seq<usize> {
        choose|list: Seq<usize>| self.is_ranking(list)
    }

    /// The listed entries in their order, with their scores.
    pub open spec fn flat_rows(self) -> Seq<(int, i64)> {
        let list = self.ranking();
        Seq::new(list.len(), |k: int| (list[k] as int, self.score(list[k] as int) as i64))
    }

    /// The rows that are to be shown. Without a filter the rows of the tree stand under their
    /// expanded parents; a search is flat.
    pub open spec fn listing(self) -> Seq<(int, i64)> {
        if self.is_unfiltered() {
            tree_rows(
                views(self.entries@),
                views(self.child_entries@),
                self.expanded@,
                self.flat_rows(),
            )
        } else {
            self.flat_rows()
        }
    }

    /// Whether the list shows what is to be shown.
    pub open spec fn shows(self, listing: Seq<(int, i64)>) -> bool {
        &&& self.filtered@.len() == self.filtered_scores@.len()
        &&& rows(self.filtered@, self.filtered_scores@) == listing
    }

    /// Whether a score that the matcher gives an entry is in range with the bonus of its source,
    /// where it counts.
    pub open spec fn takes_score(self, entry: Entry, score: Option<i64>) -> bool {
        let bonus = bonus_for(self.config.picker.source_bonuses@, entry.source);
        self.asked().plain.len() > 0 && self.passes(entry) && score is Some ==> i64::MIN <= score->0
            + bonus <= i64::MAX
    }

    /// Whether all scores that the matcher gives entries are in range.
    pub open spec fn takes_scores(self, entries: Seq<Entry>, scores: Seq<Option<i64>>) -> bool {
        forall|i: int|
            0 <= i < entries.len() ==> #[trigger] self.takes_score(entries[i], score_at(scores, i))
    }

    /// Whether the score of an entry, where it is listed, is in range with the bonus of its source.
    pub open spec fn score_fits(self, i: int) -> bool {
        self.takes_score(self.entries@[i], self.match_score(i))
    }

    /// Whether the state is sound: there are indices for all entries and rows, the tree is finite
    /// where it is shown, and the scores stay in range.
    pub open spec fn wf(self) -> bool {
        &&& self.entries@.len() + self.child_entries@.len() <= usize::MAX
        &&& self.is_unfiltered() ==> is_finite_tree(
            views(self.entries@),
            views(self.child_entries@),
            self.expanded@,
        )
        &&& forall|i: int| 0 <= i < self.entries@.len() ==> #[trigger] self.score_fits(i)
    }

    /// Whether two states are the same but for the list and the selection.
    pub open spec fn same_but_list(self, other: App) -> bool {
        &&& self.same_but_filter(other)
        &&& self.source_filter == other.source_filter
        &&& self.query == other.query
        &&& self.pinned_entries == other.pinned_entries
        &&& self.expanded == other.expanded
        &&& self.child_entries == other.child_entries
        &&& self.match_scores == other.match_scores
        &&& self.entries == other.entries
        &&& self.path_to_workspaces == other.path_to_workspaces
        &&& self.previous_workspace_id == other.previous_workspace_id
    }

    /// Whether two states agree on the settings and on what only the screen needs.
    pub open spec fn same_but_filter(self, other: App) -> bool {
        &&& self.config == other.config
        &&& self.input_mode == other.input_mode
        &&& self.preview == other.preview
        &&& self.spinner_tick == other.spinner_tick
        &&& self.update_available == other.update_available
        &&& self.list_height == other.list_height
        &&& self.panel_sort == other.panel_sort
    }
}

/// One entry that is listed, with what it is sorted by.
struct Candidate {
    previous_pinned: bool,
    user_pinned: bool,
    score: i64,
    source_rank: usize,
    idx: usize,
}

impl Ranked for Candidate {
    closed spec fn goes_before(&self, other: &Self) -> bool {
        if self.previous_pinned != other.previous_pinned {
            self.previous_pinned
        } else if self.user_pinned != other.user_pinned {
            self.user_pinned
        } else if self.score != other.score {
            self.score > other.score
        } else if self.source_rank != other.source_rank {
            self.source_rank < other.source_rank
        } else {
            self.idx < other.idx
        }
    }

    fn is_before(&self, other: &Self) -> (yes: bool) {
        if self.previous_pinned != other.previous_pinned {
            self.previous_pinned
        } else if self.user_pinned != other.user_pinned {
            self.user_pinned
        } else if self.score != other.score {
            self.score > other.score
        } else if self.source_rank != other.source_rank {
            self.source_rank < other.source_rank
        } else {
            self.idx < other.idx
        }
    }

    proof fn law_asymmetric(a: &Self, b: &Self) {
    }

    proof fn law_comparable(a: &Self, b: &Self, c: &Self) {
    }
}

impl App {
    /// Whether a candidate holds what its entry is sorted by.
    spec fn is_candidate(self, c: Candidate) -> bool {
        &&& c.idx < self.entries@.len()
        &&& self.is_listed(c.idx as int)
        &&& c.previous_pinned == self.is_previous(c.idx as int)
        &&& c.user_pinned == self.has_pin(self.entries@[c.idx as int]@)
        &&& c.score == self.score(c.idx as int)
        &&& c.source_rank == self.config.picker.spec_source_rank(self.entries@[c.idx as int].source)
    }

    /// The listed entries, not yet in order.
    fn candidates(&self) -> (found: Vec<Candidate>)
        requires
            self.wf(),
        ensures
            forall|k: int| 0 <= k < found.len() ==> self.is_candidate(#[trigger] found@[k]),
            forall|i: int|
                0 <= i < self.entries@.len() && #[trigger] self.is_listed(i) ==> exists|k: int|
                    0 <= k < found.len() && (#[trigger] found@[k]).idx == i,
            forall|a: int, b: int|
                0 <= a < b < found.len() ==> (#[trigger] found@[a]).idx < (#[trigger] found@[b]).idx,
    {
        let query: Query = Query::parse(self.query.as_str());
        let empty_query: bool = query.plain.as_str().is_empty();
        let agent_view: bool = query.all_agents || (self.source_filter == Some(Source::Agent)
            && empty_query);
        let sort: String = agent_sort(
            self.config.picker.agent_sort.as_str(),
            self.panel_sort.as_str(),
        );
        let use_agent_priority: bool = empty_query && (agent_view || self.source_filter.is_none())
            && same(sort.as_str(), "priority");
        let pin_previous: bool = self.config.jump_back.enabled && self.config.jump_back.pin_previous
            && trim(self.query.as_str()).is_empty() && self.source_filter.is_none();
        let mut found: Vec<Candidate> = Vec::new();
        let mut idx: usize = 0;
        while idx < self.entries.len()
            invariant
                self.wf(),
                query@ == self.asked(),
                empty_query == (self.asked().plain.len() == 0),
                use_agent_priority == self.uses_agent_priority(),
                pin_previous == (self.config.jump_back.enabled
                    && self.config.jump_back.pin_previous && self.is_unfiltered()),
                idx <= self.entries.len(),
                forall|k: int|
                    0 <= k < found.len() ==> self.is_candidate(#[trigger] found@[k])
                        && found@[k].idx < idx,
                forall|i: int|
                    0 <= i < idx && #[trigger] self.is_listed(i) ==> exists|k: int|
                        0 <= k < found.len() && (#[trigger] found@[k]).idx == i,
                forall|a: int, b: int|
                    0 <= a < b < found.len() ==> (#[trigger] found@[a]).idx < (
                    #[trigger] found@[b]).idx,
            decreases self.entries.len() - idx,
        {
            let ghost done = found@;
            if let Some(candidate) = self.candidate(
                &query,
                use_agent_priority,
                pin_previous,
                idx,
            ) {
                found.push(candidate);
                assert(found@[found.len() - 1].idx == idx);
            }
            proof {
                assert forall|i: int|
                    0 <= i < idx + 1 && #[trigger] self.is_listed(i) implies exists|k: int|
                    0 <= k < found.len() && (#[trigger] found@[k]).idx == i by {
                    if i < idx {
                        let k = choose|k: int| 0 <= k < done.len() && (#[trigger] done[k]).idx == i;
                        assert(found@[k].idx == i);
                    }
                }
            }
            idx += 1;
        }
        found
    }

    /// What an entry is sorted by, if it is listed.
    fn candidate(
        &self,
        query: &Query,
        use_agent_priority: bool,
        pin_previous: bool,
        idx: usize,
    ) -> (found: Option<Candidate>)
        requires
            self.wf(),
            query@ == self.asked(),
            use_agent_priority == self.uses_agent_priority(),
            pin_previous == (self.config.jump_back.enabled && self.config.jump_back.pin_previous
                && self.is_unfiltered()),
            idx < self.entries.len(),
        ensures
            found is Some == self.is_listed(idx as int),
            found matches Some(c) ==> c.idx == idx && self.is_candidate(c),
    {
        let e: &Entry = &self.entries[idx];
        if let Some(source) = self.source_filter {
            if e.source != source {
                return None;
            }
        }
        if !query.filters_match(e) {
            return None;
        }
        let bonus: i64 = self.config.picker.source_bonus(&e.source) + query.score_bonus(
            e,
            use_agent_priority,
        );
        let score: i64 = if query.plain.as_str().is_empty() {
            bonus
        } else {
            let matched: Option<i64> = if idx < self.match_scores.len() {
                self.match_scores[idx]
            } else {
                None
            };
            assert(matched == self.match_score(idx as int));
            match matched {
                Some(score) => {
                    assert(self.is_listed(idx as int));
                    assert(self.score_fits(idx as int));
                    score + bonus
                },
                None => {
                    return None;
                },
            }
        };
        let is_previous: bool = match (&e.workspace_id, &self.previous_workspace_id) {
            (Some(id), Some(previous)) => same(id.as_str(), previous.as_str()),
            (None, None) => true,
            _ => false,
        };
        Some(
            Candidate {
                previous_pinned: pin_previous && e.source == Source::Workspace && is_previous,
                user_pinned: self.is_pinned(e),
                score,
                source_rank: self.config.picker.source_rank(&e.source),
                idx,
            },
        )
    }

    /// Whether an entry is pinned.
    pub fn is_pinned(&self, entry: &Entry) -> (pinned: bool)
        ensures
            pinned == self.has_pin(entry@),
    {
        self.pinned_entries.contains(pin_key(entry).as_str())
    }
}

proof fn lemma_ranking_prefix(app: App, one: Seq<usize>, other: Seq<usize>, n: int)
    requires
        app.is_ranking(one),
        app.is_ranking(other),
        0 <= n <= one.len(),
    ensures
        n <= other.len(),
        one.take(n) == other.take(n),
    decreases n,
{
    if n > 0 {
        let k = n - 1;
        lemma_ranking_prefix(app, one, other, k);
        assert(other.contains(one[k]));
        let m = choose|m: int| 0 <= m < other.len() && other[m] == one[k];
        if m < k {
            assert(one.take(k)[m] == one[m]);
            assert(other.take(k)[m] == other[m]);
            assert(app.before(one[m] as int, one[k] as int));
        }
        assert(one.contains(other[k]));
        let p = choose|p: int| 0 <= p < one.len() && one[p] == other[k];
        if p < k {
            assert(one.take(k)[p] == one[p]);
            assert(other.take(k)[p] == other[p]);
            assert(app.before(other[p] as int, other[k] as int));
        }
        if m > k && p > k {
            assert(app.before(other[k] as int, other[m] as int));
            assert(app.before(one[k] as int, one[p] as int));
        }
        assert(one[k] == other[k]);
        assert(one.take(n) =~= one.take(k).push(one[k]));
        assert(other.take(n) =~= other.take(k).push(other[k]));
    }
}

/// The listed entries have one order only.
pub proof fn law_ranking_unique(app: App, one: Seq<usize>, other: Seq<usize>)
    requires
        app.is_ranking(one),
        app.is_ranking(other),
    ensures
        one == other,
{
    lemma_ranking_prefix(app, one, other, one.len() as int);
    lemma_ranking_prefix(app, other, one, other.len() as int);
    assert(one.take(one.len() as int) =~= one);
    assert(other.take(other.len() as int) =~= other);
}

/// What is to be shown does not depend on what is shown and selected.
pub proof fn lemma_same_listing(from: App, to: App)
    requires
        to.same_but_list(from),
        from.is_ranking(from.ranking()),
    ensures
        to.is_ranking(to.ranking()),
        to.listing() == from.listing(),
{
    assert forall|i: int, j: int| #[trigger] to.before(i, j) == from.before(i, j) by {
    }
    assert(to.is_ranking(from.ranking()));
    law_ranking_unique(to, to.ranking(), from.ranking());
    assert(to.flat_rows() =~= from.flat_rows());
}

/// Where nothing is expanded the tree adds nothing to a list.
pub proof fn law_collapsed_tree_adds_nothing(
    entries: Seq<EntryView>,
    children: Seq<EntryView>,
    expanded: Set<Seq<char>>,
    list: Seq<(int, i64)>,
)
    requires
        expanded == Set::<Seq<char>>::empty(),
    ensures
        tree_rows(entries, children, expanded, list) == list,
    decreases list.len(),
{
    if list.len() > 0 {
        law_collapsed_tree_adds_nothing(entries, children, expanded, list.drop_last());
        let (idx, score) = list.last();
        if children.len() > 0 && idx < entries.len() + children.len() {
            lemma_none_below(
                entries,
                children,
                expanded,
                entry_at(entries, children, idx),
                children.len(),
                (children.len() - 1) as nat,
            );
        }
        assert(subtree(entries, children, expanded, idx, score, children.len()) =~= seq![
            (idx, score),
        ]);
        assert(list =~= list.drop_last() + seq![list.last()]);
    } else {
        assert(list =~= Seq::empty());
    }
}

/// A state stays sound when only the list and the selection change.
pub proof fn lemma_wf_kept(from: App, to: App)
    requires
        from.wf(),
        to.same_but_list(from),
    ensures
        to.wf(),
{
    assert forall|i: int| 0 <= i < to.entries@.len() implies #[trigger] to.score_fits(i) by {
        assert(from.score_fits(i));
    }
}

impl App {
    /// The listed entries in their order, with their scores.
    fn ranked(&self) -> (list: (Vec<usize>, Vec<i64>))
        requires
            self.wf(),
        ensures
            self.is_ranking(list.0@),
            list.0@ == self.ranking(),
            list.0@.len() == list.1@.len(),
            rows(list.0@, list.1@) == self.flat_rows(),
    {
        let found: Vec<Candidate> = self.candidates();
        let order: Vec<usize> = sorted_order(&found);
        let mut filtered: Vec<usize> = Vec::new();
        let mut scores: Vec<i64> = Vec::new();
        let mut i: usize = 0;
        while i < order.len()
            invariant
                orders(found@, order@),
                i <= order.len(),
                filtered.len() == i,
                scores.len() == i,
                forall|k: int|
                    #![trigger filtered@[k]]
                    #![trigger scores@[k]]
                    0 <= k < i ==> filtered@[k] == found@[order@[k] as int].idx && scores@[k]
                        == found@[order@[k] as int].score,
            decreases order.len() - i,
        {
            filtered.push(found[order[i]].idx);
            scores.push(found[order[i]].score);
            i += 1;
        }
        proof {
            assert forall|i: usize| i < self.entries@.len() && self.is_listed(i as int) implies
                #[trigger] filtered@.contains(i) by {
                assert(self.is_listed(i as int));
                let k = choose|k: int| 0 <= k < found.len() && (#[trigger] found@[k]).idx == i as int;
                assert(order@.contains(k as usize));
                let m = choose|m: int| 0 <= m < order.len() && order@[m] == k as usize;
                assert(filtered@[m] == i);
            }
            assert forall|a: int, b: int| 0 <= a < b < filtered.len() implies #[trigger] self.before(
                #[trigger] filtered@[a] as int,
                #[trigger] filtered@[b] as int,
            ) by {
                let (p, q) = (order@[a] as int, order@[b] as int);
                assert(comes_first(found@, p, q));
                assert(self.is_candidate(found@[p]));
                assert(self.is_candidate(found@[q]));
                if p != q {
                    assert(found@[p].idx != found@[q].idx);
                }
            }
            assert forall|k: int| 0 <= k < filtered.len() implies #[trigger] filtered@[k]
                < self.entries@.len() && self.is_listed(filtered@[k] as int) by {
                assert(self.is_candidate(found@[order@[k] as int]));
            }
            assert(self.is_ranking(filtered@));
            law_ranking_unique(*self, filtered@, self.ranking());
            assert forall|k: int| 0 <= k < filtered.len() implies scores@[k] == self.score(
                filtered@[k] as int,
            ) by {
                assert(self.is_candidate(found@[order@[k] as int]));
            }
            assert(rows(filtered@, scores@) =~= self.flat_rows());
        }
        (filtered, scores)
    }

    /// Builds the list anew and selects its first row.
    pub fn apply_filter(&mut self)
        requires
            old(self).wf(),
        ensures
            final(self).same_but_list(*old(self)),
            final(self).wf(),
            final(self).selected == 0,
            old(self).is_ranking(old(self).ranking()),
            final(self).shows(old(self).listing()),
    {
        let (filtered, scores) = self.ranked();
        self.filtered = filtered;
        self.filtered_scores = scores;
        self.selected = 0;
        if trim(self.query.as_str()).is_empty() && self.source_filter.is_none() {
            proof {
                lemma_finite_below_entries(
                    views(self.entries@),
                    views(self.child_entries@),
                    self.expanded@,
                    self.filtered@,
                );
            }
            self.interleave_children();
        }
        proof {
            lemma_wf_kept(*old(self), *self);
        }
    }

    /// Puts the rows of the tree into the list, each behind its expanded parent, so that expanded
    /// tabs show their panes too.
    pub fn interleave_children(&mut self)
        requires
            old(self).entries@.len() + old(self).child_entries@.len() <= usize::MAX,
            is_finite_below(
                views(old(self).entries@),
                views(old(self).child_entries@),
                old(self).expanded@,
                old(self).filtered@,
            ),
        ensures
            final(self).same_but_list(*old(self)),
            final(self).selected == old(self).selected,
            rows(final(self).filtered@, final(self).filtered_scores@) == tree_rows(
                views(old(self).entries@),
                views(old(self).child_entries@),
                old(self).expanded@,
                rows(old(self).filtered@, old(self).filtered_scores@),
            ),
            old(self).filtered@.len() == old(self).filtered_scores@.len()
                ==> final(self).filtered@.len() == final(self).filtered_scores@.len(),
    {
        if self.expanded.is_empty() || self.filtered.is_empty() {
            proof {
                let list = rows(self.filtered@, self.filtered_scores@);
                if self.filtered@.len() == 0 {
                    assert(list =~= Seq::empty());
                } else {
                    law_collapsed_tree_adds_nothing(
                        views(self.entries@),
                        views(self.child_entries@),
                        self.expanded@,
                        list,
                    );
                }
            }
            return;
        }
        let (filtered, scores) = put_tree_in(
            &self.entries,
            &self.child_entries,
            &self.expanded,
            &self.filtered,
            &self.filtered_scores,
        );
        self.filtered = filtered;
        self.filtered_scores = scores;
    }
}

} // verus!
