//! Filling the navigator: a new state, what the sources found, and pins.

use crate::app::{lemma_same_listing, score_at, App, InputMode};
use crate::config::{Config, SourcesConfig};
use crate::keys::{
    new_entries, pin_key, push_unique, push_unique_refs, targets, unique_keys,
};
use crate::model::{Entry, WorkspaceMap, WorkspaceRef};
use crate::query::Query;
use crate::string_set::StringSet;
use crate::text::trim;
use crate::tree::{covers_entries, is_finite_tree, is_ranked, tree_is_finite, views};
use vstd::prelude::*;

verus! {

/// What the sources found.
#[derive(Debug)]
pub struct Found {
    pub workspaces: Vec<Entry>,
    pub path_to_workspaces: WorkspaceMap,
    pub projects: Vec<Entry>,
    pub zoxide: Vec<Entry>,
    pub roots: Vec<Entry>,
    pub servers: Vec<Entry>,
    pub sessions: Vec<Entry>,
    pub agents: Vec<Entry>,
    /// The entry for quick actions, where there are any.
    pub quick_actions: Option<Entry>,
    pub integrations: Vec<Entry>,
    /// The stored pins, where they could be read.
    pub pinned: Option<StringSet>,
    /// The stored previous workspace, where it could be read.
    pub previous: Option<String>,
}

/// A list of entries and the keys that are taken, with the entries of an enabled source added, each
/// key once only.
#[verifier::opaque]
pub open spec fn added(
    list: (Seq<Entry>, Set<Seq<char>>),
    enabled: bool,
    incoming: Seq<Entry>,
) -> (Seq<Entry>, Set<Seq<char>>) {
    if enabled {
        (
            list.0 + new_entries(incoming, list.1, incoming.len() as int),
            list.1.union(unique_keys(incoming).to_set()),
        )
    } else {
        list
    }
}

impl Found {
    /// The entries of the sources up to the sessions, each key once only, and the keys.
    pub open spec fn places(self, on: SourcesConfig) -> (Seq<Entry>, Set<Seq<char>>) {
        let none = (Seq::<Entry>::empty(), Set::<Seq<char>>::empty());
        let with_workspaces = added(none, on.open_workspaces, self.workspaces@);
        let with_projects = added(with_workspaces, on.herdr_plus_projects, self.projects@);
        let with_zoxide = added(with_projects, on.zoxide, self.zoxide@);
        let with_roots = added(with_zoxide, on.roots, self.roots@);
        let with_servers = added(with_roots, on.servers, self.servers@);
        added(with_servers, on.sessions, self.sessions@)
    }

    /// The agents and the entry for quick actions, where they are enabled.
    pub open spec fn actors(self, on: SourcesConfig) -> Seq<Entry> {
        (if on.agents {
            self.agents@
        } else {
            Seq::empty()
        }) + (if on.herdr_plus_quick_actions && self.quick_actions is Some {
            seq![self.quick_actions->0]
        } else {
            Seq::empty()
        })
    }

    /// All entries of the enabled sources: the places, then agents and quick actions, then what the
    /// integrations add to the places.
    pub open spec fn gathered(self, on: SourcesConfig) -> Seq<Entry> {
        let (places, taken) = self.places(on);
        places + self.actors(on) + new_entries(
            self.integrations@,
            taken,
            self.integrations@.len() as int,
        )
    }
}

/// A set without a member that it has, or with one that it has not.
pub open spec fn toggled(set: Set<Seq<char>>, key: Seq<char>) -> Set<Seq<char>> {
    if set.contains(key) {
        set.remove(key)
    } else {
        set.insert(key)
    }
}

/// Toggling a pin twice leaves the pins as they were.
pub proof fn law_toggle_twice(set: Set<Seq<char>>, key: Seq<char>)
    ensures
        toggled(toggled(set, key), key) == set,
{
    assert(toggled(toggled(set, key), key) =~= set);
}

/// Where nothing is expanded a tree is finite.
pub proof fn lemma_collapsed_finite(app: App)
    requires
        app.expanded@ == Set::<Seq<char>>::empty(),
    ensures
        is_finite_tree(views(app.entries@), views(app.child_entries@), app.expanded@),
{
    let children = views(app.child_entries@);
    let ranks = Seq::new(children.len(), |c: int| Some(0nat));
    assert(is_ranked(children, app.expanded@, ranks));
    assert(covers_entries(views(app.entries@), children, app.expanded@, ranks));
}

/// Adds the entries of an enabled source to a list, each key once only.
fn add_source(entries: &mut Vec<Entry>, seen: &mut StringSet, enabled: bool, incoming: Vec<Entry>)
    ensures
        (final(entries)@, final(seen)@) == added((old(entries)@, old(seen)@), enabled, incoming@),
{
    reveal(added);
    if enabled {
        push_unique(entries, seen, incoming);
    }
}

/// The entries of the enabled sources, and what else was found.
fn gather(on: &SourcesConfig, found: Found) -> (all: (
    Vec<Entry>,
    WorkspaceMap,
    Option<StringSet>,
    Option<String>,
))
    ensures
        all.0@ == found.gathered(*on),
        all.1 == found.path_to_workspaces,
        all.2 == found.pinned,
        all.3 == found.previous,
{
    let ghost all_found = found;
    let Found {
        workspaces,
        path_to_workspaces,
        projects,
        zoxide,
        roots,
        servers,
        sessions,
        agents,
        quick_actions,
        integrations,
        pinned,
        previous,
    } = found;
    let mut entries: Vec<Entry> = Vec::new();
    let mut seen: StringSet = StringSet::new();
    add_source(&mut entries, &mut seen, on.open_workspaces, workspaces);
    add_source(&mut entries, &mut seen, on.herdr_plus_projects, projects);
    add_source(&mut entries, &mut seen, on.zoxide, zoxide);
    add_source(&mut entries, &mut seen, on.roots, roots);
    add_source(&mut entries, &mut seen, on.servers, servers);
    add_source(&mut entries, &mut seen, on.sessions, sessions);
    let ghost places = entries@;
    assert((entries@, seen@) == all_found.places(*on));
    let mut actors: Vec<Entry> = agents;
    if on.agents {
        entries.append(&mut actors);
    }
    if on.herdr_plus_quick_actions {
        if let Some(entry) = quick_actions {
            entries.push(entry);
        }
    }
    assert(entries@ =~= places + all_found.actors(*on));
    push_unique(&mut entries, &mut seen, integrations);
    (entries, path_to_workspaces, pinned, previous)
}

/// The score at a position, where there is one.
fn position_score(scores: &Vec<Option<i64>>, i: usize) -> (score: Option<i64>)
    ensures
        score == score_at(scores@, i as int),
{
    if i < scores.len() {
        scores[i]
    } else {
        None
    }
}

/// Adds references to the entries of an enabled source to a list, each key once only.
fn add_source_refs<'a>(
    refs: &mut Vec<&'a Entry>,
    seen: &mut StringSet,
    enabled: bool,
    incoming: &'a Vec<Entry>,
)
    ensures
        (targets(final(refs)@), final(seen)@) == added(
            (targets(old(refs)@), old(seen)@),
            enabled,
            incoming@,
        ),
{
    reveal(added);
    if enabled {
        push_unique_refs(refs, seen, incoming);
    }
}

/// Adds references to all entries of an enabled source to a list.
fn add_all_refs<'a>(refs: &mut Vec<&'a Entry>, enabled: bool, incoming: &'a Vec<Entry>)
    ensures
        targets(final(refs)@) == targets(old(refs)@) + (if enabled {
            incoming@
        } else {
            Seq::empty()
        }),
{
    let ghost held = targets(refs@);
    if !enabled {
        assert(held + Seq::empty() =~= held);
        return;
    }
    let mut i: usize = 0;
    assert(held + incoming@.take(0) =~= held);
    while i < incoming.len()
        invariant
            i <= incoming.len(),
            targets(refs@) == held + incoming@.take(i as int),
        decreases incoming.len() - i,
    {
        let ghost done = refs@;
        refs.push(&incoming[i]);
        assert(targets(refs@) =~= targets(done).push(incoming@[i as int]));
        assert(targets(refs@) =~= held + incoming@.take(i + 1));
        i += 1;
    }
    assert(incoming@.take(i as int) =~= incoming@);
}

/// References to the entries of the enabled sources.
fn gather_refs<'a>(on: &SourcesConfig, found: &'a Found) -> (refs: Vec<&'a Entry>)
    ensures
        targets(refs@) == found.gathered(*on),
{
    let mut refs: Vec<&'a Entry> = Vec::new();
    let mut seen: StringSet = StringSet::new();
    assert(targets(refs@) =~= Seq::empty());
    add_source_refs(&mut refs, &mut seen, on.open_workspaces, &found.workspaces);
    add_source_refs(&mut refs, &mut seen, on.herdr_plus_projects, &found.projects);
    add_source_refs(&mut refs, &mut seen, on.zoxide, &found.zoxide);
    add_source_refs(&mut refs, &mut seen, on.roots, &found.roots);
    add_source_refs(&mut refs, &mut seen, on.servers, &found.servers);
    add_source_refs(&mut refs, &mut seen, on.sessions, &found.sessions);
    let ghost places = targets(refs@);
    assert((targets(refs@), seen@) == found.places(*on));
    add_all_refs(&mut refs, on.agents, &found.agents);
    let ghost with_agents = refs@;
    if on.herdr_plus_quick_actions {
        if let Some(entry) = &found.quick_actions {
            refs.push(entry);
            assert(targets(refs@) =~= targets(with_agents).push(*entry));
        }
    }
    assert(targets(refs@) =~= places + found.actors(*on));
    push_unique_refs(&mut refs, &mut seen, &found.integrations);
    refs
}

impl App {
    /// A state without entries.
    pub fn new(config: Config) -> (app: App)
        ensures
            app.wf(),
            app.config == config,
            app.preview == config.picker.preview,
            app.entries@.len() == 0,
            app.filtered@.len() == 0,
            app.filtered_scores@.len() == 0,
            app.selected == 0,
            app.query@.len() == 0,
            app.input_mode == InputMode::Normal,
            app.source_filter is None,
            app.path_to_workspaces@ == Map::<Seq<char>, Seq<WorkspaceRef>>::empty(),
            app.previous_workspace_id is None,
            app.pinned_entries@ == Set::<Seq<char>>::empty(),
            app.spinner_tick == 0,
            app.update_available is None,
            app.list_height == 0,
            app.child_entries@.len() == 0,
            app.expanded@ == Set::<Seq<char>>::empty(),
            app.match_scores@.len() == 0,
            app.panel_sort@ == "spaces"@,
    {
        let preview: bool = config.picker.preview;
        let app = App {
            config,
            entries: Vec::new(),
            filtered: Vec::new(),
            filtered_scores: Vec::new(),
            selected: 0,
            query: String::new(),
            input_mode: InputMode::Normal,
            source_filter: None,
            preview,
            path_to_workspaces: WorkspaceMap::new(),
            previous_workspace_id: None,
            pinned_entries: StringSet::new(),
            spinner_tick: 0,
            update_available: None,
            list_height: 0,
            child_entries: Vec::new(),
            expanded: StringSet::new(),
            match_scores: Vec::new(),
            panel_sort: "spaces".to_owned(),
        };
        proof {
            lemma_collapsed_finite(app);
        }
        app
    }

    /// Whether the state is sound.
    pub fn is_sound(&self) -> (sound: bool)
        ensures
            sound == self.wf(),
    {
        if self.child_entries.len() > usize::MAX - self.entries.len() {
            return false;
        }
        if trim(self.query.as_str()).is_empty() && self.source_filter.is_none() {
            let none: Vec<Entry> = Vec::new();
            assert(views(self.child_entries@) + views(none@) =~= views(self.child_entries@));
            if !tree_is_finite(&self.entries, &self.child_entries, &none, &self.expanded) {
                return false;
            }
        }
        let query: Query = Query::parse(self.query.as_str());
        if query.plain.as_str().is_empty() {
            return true;
        }
        let mut i: usize = 0;
        while i < self.entries.len()
            invariant
                query@ == self.asked(),
                query@.plain.len() > 0,
                i <= self.entries.len(),
                forall|k: int| 0 <= k < i ==> #[trigger] self.score_fits(k),
            decreases self.entries.len() - i,
        {
            let score: Option<i64> = position_score(&self.match_scores, i);
            if !self.fits(&query, &self.entries[i], score) {
                assert(!self.score_fits(i as int));
                return false;
            }
            assert(self.score_fits(i as int));
            i += 1;
        }
        true
    }

    /// Whether a score that the matcher gives an entry is in range with the bonus of its source.
    fn fits(&self, query: &Query, entry: &Entry, score: Option<i64>) -> (fits: bool)
        requires
            query@ == self.asked(),
            query@.plain.len() > 0,
        ensures
            fits == self.takes_score(*entry, score),
    {
        if let Some(source) = self.source_filter {
            if entry.source != source {
                return true;
            }
        }
        if !query.filters_match(entry) {
            return true;
        }
        let bonus: i64 = self.config.picker.source_bonus(&entry.source);
        match score {
            Some(score) => if bonus >= 0 {
                score <= i64::MAX - bonus
            } else {
                score >= i64::MIN - bonus
            },
            None => true,
        }
    }

    /// What the matcher is to score: the plain words of the query, and a text for each entry. Where
    /// there are no plain words nothing is to be scored.
    pub fn match_request(&self) -> (request: (String, Vec<String>))
        ensures
            request.0@ == self.asked().plain,
            request.1@.len() == self.entries@.len(),
            forall|i: int|
                0 <= i < request.1@.len() ==> (#[trigger] request.1@[i])@
                    == self.entries@[i]@.haystack(),
    {
        let query: Query = Query::parse(self.query.as_str());
        let mut texts: Vec<String> = Vec::new();
        let mut i: usize = 0;
        while i < self.entries.len()
            invariant
                i <= self.entries.len(),
                texts.len() == i,
                forall|k: int|
                    0 <= k < i ==> (#[trigger] texts@[k])@ == self.entries@[k]@.haystack(),
            decreases self.entries.len() - i,
        {
            texts.push(self.entries[i].haystack());
            i += 1;
        }
        (query.plain, texts)
    }

    /// Takes what the matcher answered to `match_request`, and builds the list anew.
    pub fn set_match_scores(&mut self, scores: Vec<Option<i64>>)
        requires
            (App { match_scores: scores, ..*old(self) }).wf(),
        ensures
            final(self).wf(),
            final(self).same_but_list(App { match_scores: scores, ..*old(self) }),
            final(self).selected == 0,
            final(self).is_ranking(final(self).ranking()),
            final(self).shows(final(self).listing()),
    {
        self.match_scores = scores;
        let ghost before = *self;
        self.apply_filter();
        proof {
            lemma_same_listing(before, *self);
        }
    }

    /// Does what `set_match_scores` does where the scores stay in range and the state is sound, and
    /// tells whether it does.
    pub fn try_set_match_scores(&mut self, scores: Vec<Option<i64>>) -> (done: bool)
        ensures
            done == (App { match_scores: scores, ..*old(self) }).wf(),
            !done ==> *final(self) == *old(self),
            done ==> {
                &&& final(self).wf()
                &&& final(self).same_but_list(App { match_scores: scores, ..*old(self) })
                &&& final(self).selected == 0
                &&& final(self).is_ranking(final(self).ranking())
                &&& final(self).shows(final(self).listing())
            },
    {
        let mut held: Vec<Option<i64>> = scores;
        std::mem::swap(&mut held, &mut self.match_scores);
        let sound: bool = self.is_sound();
        std::mem::swap(&mut held, &mut self.match_scores);
        if sound {
            self.set_match_scores(held);
        }
        sound
    }

    /// What the matcher is to score before `refresh`: the plain words of the query, and a text for
    /// each entry that is going to be there.
    pub fn refresh_request(&self, found: &Found) -> (request: (String, Vec<String>))
        ensures
            request.0@ == self.asked().plain,
            request.1@.len() == found.gathered(self.config.sources).len(),
            forall|i: int|
                0 <= i < request.1@.len() ==> (#[trigger] request.1@[i])@ == found.gathered(
                    self.config.sources,
                )[i]@.haystack(),
    {
        let query: Query = Query::parse(self.query.as_str());
        let refs: Vec<&Entry> = gather_refs(&self.config.sources, found);
        let mut texts: Vec<String> = Vec::new();
        let mut i: usize = 0;
        while i < refs.len()
            invariant
                i <= refs.len(),
                texts.len() == i,
                forall|k: int|
                    0 <= k < i ==> (#[trigger] texts@[k])@ == targets(refs@)[k]@.haystack(),
            decreases refs.len() - i,
        {
            texts.push(refs[i].haystack());
            i += 1;
        }
        assert(targets(refs@).len() == refs.len());
        (query.plain, texts)
    }

    /// Whether a state follows from another by taking what the sources found and what the matcher
    /// answered.
    pub open spec fn is_refreshed_from(
        self,
        before: App,
        found: Found,
        scores: Vec<Option<i64>>,
    ) -> bool {
        &&& self.same_but_filter(before)
        &&& self.query == before.query
        &&& self.source_filter == before.source_filter
        &&& self.child_entries@.len() == 0
        &&& self.expanded@ == Set::<Seq<char>>::empty()
        &&& self.match_scores == scores
        &&& self.path_to_workspaces == found.path_to_workspaces
        &&& self.entries@ == found.gathered(before.config.sources)
        &&& self.pinned_entries@ == (match found.pinned {
            Some(pins) => pins@,
            None => Set::empty(),
        })
        &&& self.previous_workspace_id == (if before.config.jump_back.enabled
            && before.config.jump_back.pin_previous {
            found.previous
        } else {
            None
        })
        &&& self.selected == 0
        &&& self.is_ranking(self.ranking())
        &&& self.shows(self.listing())
    }

    /// Takes what the sources found, and what the matcher answered to `refresh_request`: lists the
    /// entries of the enabled sources, collapses the tree, and builds the list anew.
    pub fn refresh(&mut self, found: Found, scores: Vec<Option<i64>>)
        requires
            old(self).takes_scores(found.gathered(old(self).config.sources), scores@),
        ensures
            final(self).wf(),
            final(self).is_refreshed_from(*old(self), found, scores),
    {
        self.child_entries = Vec::new();
        self.expanded.clear();
        self.match_scores = scores;
        let (entries, path_to_workspaces, pinned, previous) = gather(&self.config.sources, found);
        self.path_to_workspaces = path_to_workspaces;
        self.entries = entries;
        self.pinned_entries = match pinned {
            Some(pins) => pins,
            None => StringSet::new(),
        };
        self.previous_workspace_id = if self.config.jump_back.enabled
            && self.config.jump_back.pin_previous {
            previous
        } else {
            None
        };
        let ghost before = *self;
        proof {
            lemma_collapsed_finite(before);
            assert(before.entries.len() <= usize::MAX);
            assert(before.child_entries@.len() == 0);
            assert forall|i: int| 0 <= i < before.entries@.len() implies
                #[trigger] before.score_fits(i) by {
                assert(old(self).takes_score(before.entries@[i], score_at(scores@, i)));
            }
        }
        self.apply_filter();
        proof {
            lemma_same_listing(before, *self);
        }
    }

    /// Does what `refresh` does where the scores are in range, and tells whether they are.
    pub fn try_refresh(&mut self, found: Found, scores: Vec<Option<i64>>) -> (done: bool)
        ensures
            done == old(self).takes_scores(found.gathered(old(self).config.sources), scores@),
            !done ==> *final(self) == *old(self),
            done ==> final(self).wf() && final(self).is_refreshed_from(*old(self), found, scores),
    {
        if !self.accepts(&found, &scores) {
            return false;
        }
        self.refresh(found, scores);
        true
    }

    /// Whether the scores of the entries that the sources found are in range.
    fn accepts(&self, found: &Found, scores: &Vec<Option<i64>>) -> (yes: bool)
        ensures
            yes == self.takes_scores(found.gathered(self.config.sources), scores@),
    {
        let query: Query = Query::parse(self.query.as_str());
        if query.plain.as_str().is_empty() {
            return true;
        }
        let refs: Vec<&Entry> = gather_refs(&self.config.sources, found);
        let ghost all = targets(refs@);
        assert(all.len() == refs.len());
        let mut i: usize = 0;
        while i < refs.len()
            invariant
                query@ == self.asked(),
                query@.plain.len() > 0,
                all == targets(refs@),
                all == found.gathered(self.config.sources),
                all.len() == refs.len(),
                i <= refs.len(),
                forall|k: int|
                    0 <= k < i ==> #[trigger] self.takes_score(all[k], score_at(scores@, k)),
            decreases refs.len() - i,
        {
            assert(*refs@[i as int] == all[i as int]);
            if !self.fits(&query, refs[i], position_score(scores, i)) {
                assert(!self.takes_score(all[i as int], score_at(scores@, i as int)));
                return false;
            }
            i += 1;
        }
        true
    }

    /// The pins with that of the selected entry set, or taken off where it was set. They are to be
    /// stored before `toggle_selected_pin`.
    pub fn toggled_pins(&self) -> (pins: Result<StringSet, String>)
        ensures
            match pins {
                Ok(set) => self.selection() is Some && set@ == toggled(
                    self.pinned_entries@,
                    self.selection()->0@.pin_key(),
                ),
                Err(message) => self.selection() is None && message@ == "nothing selected"@,
            },
    {
        match self.selected_entry() {
            Some(entry) => {
                let key: String = pin_key(entry);
                let mut pins: StringSet = self.pinned_entries.copy();
                if !pins.remove(key.as_str()) {
                    assert(pins@.insert(key@) =~= toggled(self.pinned_entries@, key@));
                    let _new: bool = pins.insert(key);
                }
                Ok(pins)
            },
            None => Err("nothing selected".to_owned()),
        }
    }

    /// Whether a state follows from another by toggling the pin of the selected entry.
    pub open spec fn is_pinned_from(
        self,
        before: App,
        saved: Result<(), String>,
        outcome: Result<(), String>,
    ) -> bool {
        if before.selection() is None {
            &&& self == before
            &&& outcome matches Err(message) && message@ == "nothing selected"@
        } else if saved is Err {
            &&& self == before
            &&& outcome == saved
        } else {
            &&& outcome is Ok
            &&& self.pinned_entries@ == toggled(
                before.pinned_entries@,
                before.selection()->0@.pin_key(),
            )
            &&& self.same_but_list((App { pinned_entries: self.pinned_entries, ..before }))
            &&& self.selected == 0
            &&& self.is_ranking(self.ranking())
            &&& self.shows(self.listing())
        }
    }

    /// Pins the selected entry, or unpins it, once the pins were stored; `saved` tells whether that
    /// went well.
    pub fn toggle_selected_pin(&mut self, saved: Result<(), String>) -> (outcome: Result<
        (),
        String,
    >)
        requires
            old(self).wf(),
        ensures
            final(self).wf(),
            final(self).is_pinned_from(*old(self), saved, outcome),
    {
        match self.toggled_pins() {
            Ok(pins) => match saved {
                Ok(()) => {
                    let ghost start = *self;
                    self.pinned_entries = pins;
                    let ghost before = *self;
                    proof {
                        assert forall|i: int| 0 <= i < before.entries@.len() implies
                            #[trigger] before.score_fits(i) by {
                            assert(start.score_fits(i));
                        }
                    }
                    self.apply_filter();
                    proof {
                        lemma_same_listing(before, *self);
                    }
                    Ok(())
                },
                Err(error) => Err(error),
            },
            Err(error) => Err(error),
        }
    }

    /// Does what `toggle_selected_pin` does where the state is sound; where it is not, nothing.
    pub fn try_toggle_selected_pin(&mut self, saved: Result<(), String>) -> (outcome: Option<
        Result<(), String>,
    >)
        ensures
            outcome is Some <==> old(self).wf(),
            outcome is None ==> *final(self) == *old(self),
            outcome is Some ==> final(self).wf() && final(self).is_pinned_from(
                *old(self),
                saved,
                outcome->0,
            ),
    {
        if !self.is_sound() {
            return None;
        }
        Some(self.toggle_selected_pin(saved))
    }
}

} // verus!
