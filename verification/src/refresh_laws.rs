//! What holds of filling the navigator: what a refresh lists, what it keeps, and what a pin changes.

use crate::app::App;
use crate::config::SourcesConfig;
use crate::keys::{is_new, new_entries, unique_keys};
use crate::laws::{law_new_keys_are_taken_once, law_places_are_listed_once};
use crate::listing_laws::{
    law_a_search_shows_the_ranking, law_every_entry_is_shown_unfiltered,
    law_unfiltered_is_without_words,
};
use crate::load::{added, Found};
use crate::model::{ActionView, Entry, EntryView, Source};
use crate::text::{content, words};
use vstd::prelude::*;

verus! {

/// Whether one of the entries goes by a key.
pub open spec fn lists_key(entries: Seq<Entry>, key: Seq<char>) -> bool {
    exists|k: int| 0 <= k < entries.len() && (#[trigger] entries[k])@.unique_key() == key
}

proof fn lemma_prefix(a: Seq<Entry>, b: Seq<Entry>, known: Set<Seq<char>>, n: int)
    requires
        0 <= n <= a.len(),
    ensures
        new_entries(a + b, known, n) == new_entries(a, known, n),
    decreases n,
{
    if n > 0 {
        lemma_prefix(a, b, known, n - 1);
        assert(forall|j: int| 0 <= j < n ==> #[trigger] (a + b)[j] == a[j]);
        assert(is_new(a + b, known, n - 1) == is_new(a, known, n - 1)) by {
            if is_new(a + b, known, n - 1) {
                assert forall|j: int| 0 <= j < n - 1 implies #[trigger] a[j]@.unique_key()
                    != a[n - 1]@.unique_key() by {
                    assert((a + b)[j]@.unique_key() != (a + b)[n - 1]@.unique_key());
                }
            }
            if is_new(a, known, n - 1) {
                assert forall|j: int| 0 <= j < n - 1 implies #[trigger] (a + b)[j]@.unique_key()
                    != (a + b)[n - 1]@.unique_key() by {
                    assert(a[j]@.unique_key() != a[n - 1]@.unique_key());
                }
            }
        }
    }
}

proof fn lemma_suffix(a: Seq<Entry>, b: Seq<Entry>, n: int)
    requires
        0 <= n <= b.len(),
    ensures
        new_entries(a + b, Set::empty(), a.len() + n) == new_entries(
            a,
            Set::empty(),
            a.len() as int,
        ) + new_entries(b, unique_keys(a).to_set(), n),
    decreases n,
{
    let keys = unique_keys(a).to_set();
    let none = Set::<Seq<char>>::empty();
    if n == 0 {
        lemma_prefix(a, b, none, a.len() as int);
        assert(new_entries(a, none, a.len() as int) + new_entries(b, keys, 0) =~= new_entries(
            a,
            none,
            a.len() as int,
        ));
    } else {
        lemma_suffix(a, b, n - 1);
        let at = a.len() + n - 1;
        assert((a + b)[at] == b[n - 1]);
        assert(is_new(a + b, none, at) == is_new(b, keys, n - 1)) by {
            if is_new(a + b, none, at) {
                if keys.contains(b[n - 1]@.unique_key()) {
                    let j = choose|j: int|
                        0 <= j < a.len() && unique_keys(a)[j] == b[n - 1]@.unique_key();
                    assert((a + b)[j]@.unique_key() != (a + b)[at]@.unique_key());
                }
                assert forall|j: int| 0 <= j < n - 1 implies #[trigger] b[j]@.unique_key()
                    != b[n - 1]@.unique_key() by {
                    assert((a + b)[a.len() + j]@.unique_key() != (a + b)[at]@.unique_key());
                    assert((a + b)[a.len() + j] == b[j]);
                }
            }
            if is_new(b, keys, n - 1) {
                assert forall|j: int| 0 <= j < at implies #[trigger] (a + b)[j]@.unique_key() != (a
                    + b)[at]@.unique_key() by {
                    if j < a.len() {
                        assert((a + b)[j] == a[j]);
                        assert(unique_keys(a)[j] == a[j]@.unique_key());
                        assert(unique_keys(a).contains(a[j]@.unique_key()));
                    } else {
                        assert((a + b)[j] == b[j - a.len()]);
                        assert(b[j - a.len()]@.unique_key() != b[n - 1]@.unique_key());
                    }
                }
            }
        }
        assert(new_entries(a + b, none, a.len() + n) =~= new_entries(a, none, a.len() as int)
            + new_entries(b, keys, n));
    }
}

proof fn lemma_added_to_all(all: Seq<Entry>, enabled: bool, incoming: Seq<Entry>)
    ensures
        added(
            (new_entries(all, Set::empty(), all.len() as int), unique_keys(all).to_set()),
            enabled,
            incoming,
        ) == (
            new_entries(
                all + (if enabled {
                    incoming
                } else {
                    Seq::empty()
                }),
                Set::empty(),
                (all + (if enabled {
                    incoming
                } else {
                    Seq::empty()
                })).len() as int,
            ),
            unique_keys(
                all + (if enabled {
                    incoming
                } else {
                    Seq::empty()
                }),
            ).to_set(),
        ),
{
    reveal(added);
    if enabled {
        lemma_suffix(all, incoming, incoming.len() as int);
        let both = unique_keys(all + incoming);
        assert(both =~= unique_keys(all) + unique_keys(incoming));
        assert forall|key: Seq<char>| both.to_set().contains(key) == unique_keys(all).to_set().union(
            unique_keys(incoming).to_set(),
        ).contains(key) by {
            if unique_keys(all).contains(key) {
                let j = choose|j: int| 0 <= j < all.len() && unique_keys(all)[j] == key;
                assert(both[j] == key);
            }
            if unique_keys(incoming).contains(key) {
                let j = choose|j: int| 0 <= j < incoming.len() && unique_keys(incoming)[j] == key;
                assert(both[all.len() + j] == key);
            }
            if both.contains(key) {
                let j = choose|j: int| 0 <= j < both.len() && both[j] == key;
                if j < all.len() {
                    assert(unique_keys(all)[j] == key);
                } else {
                    assert(unique_keys(incoming)[j - all.len()] == key);
                }
            }
        }
        assert(both.to_set() =~= unique_keys(all).to_set().union(unique_keys(incoming).to_set()));
    } else {
        assert(all + Seq::<Entry>::empty() =~= all);
    }
}

/// The entries, where their source is enabled.
pub open spec fn if_enabled(enabled: bool, entries: Seq<Entry>) -> Seq<Entry> {
    if enabled {
        entries
    } else {
        Seq::empty()
    }
}

/// The places that a refresh lists are what the enabled sources found, one source after the other:
/// workspaces, projects, visited directories, roots, servers, sessions. Of entries with one key the
/// first is listed.
pub proof fn law_sources_come_in_order(found: Found, on: SourcesConfig)
    ensures
        ({
            let all = if_enabled(on.open_workspaces, found.workspaces@) + if_enabled(
                on.herdr_plus_projects,
                found.projects@,
            ) + if_enabled(on.zoxide, found.zoxide@) + if_enabled(on.roots, found.roots@)
                + if_enabled(on.servers, found.servers@) + if_enabled(on.sessions, found.sessions@);
            found.places(on) == (
                new_entries(all, Set::empty(), all.len() as int),
                unique_keys(all).to_set(),
            )
        }),
        if_enabled(false, found.workspaces@).len() == 0,
        if_enabled(true, found.workspaces@) == found.workspaces@,
{
    let none = Seq::<Entry>::empty();
    assert(new_entries(none, Set::empty(), 0) =~= none);
    assert(unique_keys(none).to_set() =~= Set::empty());
    let a = if_enabled(on.open_workspaces, found.workspaces@);
    let b = a + if_enabled(on.herdr_plus_projects, found.projects@);
    let c = b + if_enabled(on.zoxide, found.zoxide@);
    let d = c + if_enabled(on.roots, found.roots@);
    let e = d + if_enabled(on.servers, found.servers@);
    lemma_added_to_all(none, on.open_workspaces, found.workspaces@);
    assert(none + a =~= a);
    lemma_added_to_all(a, on.herdr_plus_projects, found.projects@);
    lemma_added_to_all(b, on.zoxide, found.zoxide@);
    lemma_added_to_all(c, on.roots, found.roots@);
    lemma_added_to_all(d, on.servers, found.servers@);
    lemma_added_to_all(e, on.sessions, found.sessions@);
}

/// Of incoming entries, one is taken exactly where its key is neither known nor that of an earlier
/// one, and those that are taken keep their order.
pub proof fn law_first_of_each_key_is_taken(entries: Seq<Entry>, known: Set<Seq<char>>, n: int)
    requires
        0 <= n < entries.len(),
    ensures
        known.contains(entries[n]@.unique_key()) || lists_key(
            entries.take(n),
            entries[n]@.unique_key(),
        ) ==> new_entries(entries, known, n + 1) == new_entries(entries, known, n),
        !known.contains(entries[n]@.unique_key()) && !lists_key(
            entries.take(n),
            entries[n]@.unique_key(),
        ) ==> new_entries(entries, known, n + 1) == new_entries(entries, known, n).push(entries[n]),
        new_entries(entries, known, 0).len() == 0,
{
    let key = entries[n]@.unique_key();
    if lists_key(entries.take(n), key) {
        let k = choose|k: int|
            0 <= k < n && (#[trigger] entries.take(n)[k])@.unique_key() == key;
        assert(entries[k]@.unique_key() == key);
        assert(!is_new(entries, known, n));
    } else {
        assert forall|j: int| 0 <= j < n implies #[trigger] entries[j]@.unique_key() != key by {
            assert(entries.take(n)[j]@.unique_key() != key);
        }
    }
}

proof fn lemma_listed_key(entries: Seq<Entry>, key: Seq<char>)
    ensures
        unique_keys(entries).to_set().contains(key) == lists_key(entries, key),
{
    if unique_keys(entries).contains(key) {
        let k = choose|k: int| 0 <= k < entries.len() && unique_keys(entries)[k] == key;
        assert(entries[k]@.unique_key() == key);
    }
    if lists_key(entries, key) {
        let k = choose|k: int| 0 <= k < entries.len() && (#[trigger] entries[k])@.unique_key() == key;
        assert(unique_keys(entries)[k] == key);
    }
}

proof fn lemma_places_list(found: Found, on: SourcesConfig, entry: Entry)
    requires
        ({
            ||| on.open_workspaces && found.workspaces@.contains(entry)
            ||| on.herdr_plus_projects && found.projects@.contains(entry)
            ||| on.zoxide && found.zoxide@.contains(entry)
            ||| on.roots && found.roots@.contains(entry)
            ||| on.servers && found.servers@.contains(entry)
            ||| on.sessions && found.sessions@.contains(entry)
        }),
    ensures
        lists_key(found.places(on).0, entry@.unique_key()),
{
    law_sources_come_in_order(found, on);
    law_places_are_listed_once(found, on);
    let a = if_enabled(on.open_workspaces, found.workspaces@);
    let b = a + if_enabled(on.herdr_plus_projects, found.projects@);
    let c = b + if_enabled(on.zoxide, found.zoxide@);
    let d = c + if_enabled(on.roots, found.roots@);
    let e = d + if_enabled(on.servers, found.servers@);
    let all = e + if_enabled(on.sessions, found.sessions@);
    lemma_both_contain(a, if_enabled(on.herdr_plus_projects, found.projects@), entry);
    lemma_both_contain(b, if_enabled(on.zoxide, found.zoxide@), entry);
    lemma_both_contain(c, if_enabled(on.roots, found.roots@), entry);
    lemma_both_contain(d, if_enabled(on.servers, found.servers@), entry);
    lemma_both_contain(e, if_enabled(on.sessions, found.sessions@), entry);
    assert(all.contains(entry));
    let k = choose|k: int| 0 <= k < all.len() && all[k] == entry;
    assert(unique_keys(all)[k] == entry@.unique_key());
    assert(unique_keys(all).contains(entry@.unique_key()));
    lemma_listed_key(found.places(on).0, entry@.unique_key());
}

proof fn lemma_both_contain(a: Seq<Entry>, b: Seq<Entry>, entry: Entry)
    ensures
        (a + b).contains(entry) == (a.contains(entry) || b.contains(entry)),
{
    if a.contains(entry) {
        let k = choose|k: int| 0 <= k < a.len() && a[k] == entry;
        assert((a + b)[k] == entry);
    }
    if b.contains(entry) {
        let k = choose|k: int| 0 <= k < b.len() && b[k] == entry;
        assert((a + b)[a.len() + k] == entry);
    }
}

/// After a refresh everything that an enabled source found is there: of workspaces, projects, visited
/// directories, roots, servers, sessions and integrations an entry with its key, and of agents and
/// quick actions the entry itself.
pub proof fn law_refresh_lists_what_was_found(
    before: App,
    after: App,
    found: Found,
    scores: Vec<Option<i64>>,
    i: int,
)
    requires
        after.is_refreshed_from(before, found, scores),
    ensures
        before.config.sources.open_workspaces && 0 <= i < found.workspaces@.len() ==> lists_key(
            after.entries@,
            found.workspaces@[i]@.unique_key(),
        ),
        before.config.sources.herdr_plus_projects && 0 <= i < found.projects@.len() ==> lists_key(
            after.entries@,
            found.projects@[i]@.unique_key(),
        ),
        before.config.sources.zoxide && 0 <= i < found.zoxide@.len() ==> lists_key(
            after.entries@,
            found.zoxide@[i]@.unique_key(),
        ),
        before.config.sources.roots && 0 <= i < found.roots@.len() ==> lists_key(
            after.entries@,
            found.roots@[i]@.unique_key(),
        ),
        before.config.sources.servers && 0 <= i < found.servers@.len() ==> lists_key(
            after.entries@,
            found.servers@[i]@.unique_key(),
        ),
        before.config.sources.sessions && 0 <= i < found.sessions@.len() ==> lists_key(
            after.entries@,
            found.sessions@[i]@.unique_key(),
        ),
        0 <= i < found.integrations@.len() ==> lists_key(
            after.entries@,
            found.integrations@[i]@.unique_key(),
        ),
        before.config.sources.agents && 0 <= i < found.agents@.len() ==> after.entries@.contains(
            found.agents@[i],
        ),
        before.config.sources.herdr_plus_quick_actions && found.quick_actions is Some
            ==> after.entries@.contains(found.quick_actions->0),
{
    let on = before.config.sources;
    let (places, taken) = found.places(on);
    let actors = found.actors(on);
    let n = found.integrations@.len() as int;
    let new = new_entries(found.integrations@, taken, n);
    let all = places + actors + new;
    assert(after.entries@ == all);
    assert forall|key: Seq<char>| #[trigger] lists_key(places, key) implies lists_key(all, key) by {
        let k = choose|k: int| 0 <= k < places.len() && (#[trigger] places[k])@.unique_key() == key;
        assert(all[k]@.unique_key() == key);
    }
    if on.open_workspaces && 0 <= i < found.workspaces@.len() {
        lemma_places_list(found, on, found.workspaces@[i]);
    }
    if on.herdr_plus_projects && 0 <= i < found.projects@.len() {
        lemma_places_list(found, on, found.projects@[i]);
    }
    if on.zoxide && 0 <= i < found.zoxide@.len() {
        lemma_places_list(found, on, found.zoxide@[i]);
    }
    if on.roots && 0 <= i < found.roots@.len() {
        lemma_places_list(found, on, found.roots@[i]);
    }
    if on.servers && 0 <= i < found.servers@.len() {
        lemma_places_list(found, on, found.servers@[i]);
    }
    if on.sessions && 0 <= i < found.sessions@.len() {
        lemma_places_list(found, on, found.sessions@[i]);
    }
    if 0 <= i < n {
        let key = found.integrations@[i]@.unique_key();
        law_new_keys_are_taken_once(found.integrations@, taken, n);
        law_places_are_listed_once(found, on);
        lemma_listed_key(places, key);
        lemma_listed_key(new, key);
        assert(unique_keys(found.integrations@)[i] == key);
        if !taken.contains(key) {
            assert(unique_keys(new).to_set().contains(key));
            let k = choose|k: int| 0 <= k < new.len() && (#[trigger] new[k])@.unique_key() == key;
            assert(all[places.len() + actors.len() + k]@.unique_key() == key);
        }
    }
    if on.agents && 0 <= i < found.agents@.len() {
        assert(actors[i] == found.agents@[i]);
        assert(all[places.len() + i] == found.agents@[i]);
    }
    if on.herdr_plus_quick_actions && found.quick_actions is Some {
        assert(actors.last() == found.quick_actions->0);
        assert(all[places.len() + actors.len() - 1] == found.quick_actions->0);
    }
}

proof fn lemma_taken_are_incoming(entries: Seq<Entry>, known: Set<Seq<char>>, n: int, k: int)
    requires
        0 <= n <= entries.len(),
        0 <= k < new_entries(entries, known, n).len(),
    ensures
        entries.contains(new_entries(entries, known, n)[k]),
        !known.contains(new_entries(entries, known, n)[k]@.unique_key()),
    decreases n,
{
    if n > 0 {
        if k < new_entries(entries, known, n - 1).len() {
            lemma_taken_are_incoming(entries, known, n - 1, k);
        } else {
            assert(entries[n - 1] == new_entries(entries, known, n)[k]);
        }
    }
}

/// After a refresh nothing else is there: each entry is one that an enabled source found. Those of
/// the integrations have keys that no place has.
pub proof fn law_refresh_lists_nothing_else(
    before: App,
    after: App,
    found: Found,
    scores: Vec<Option<i64>>,
    k: int,
)
    requires
        after.is_refreshed_from(before, found, scores),
        0 <= k < after.entries@.len(),
    ensures
        ({
            let on = before.config.sources;
            let entry = after.entries@[k];
            ||| on.open_workspaces && found.workspaces@.contains(entry)
            ||| on.herdr_plus_projects && found.projects@.contains(entry)
            ||| on.zoxide && found.zoxide@.contains(entry)
            ||| on.roots && found.roots@.contains(entry)
            ||| on.servers && found.servers@.contains(entry)
            ||| on.sessions && found.sessions@.contains(entry)
            ||| on.agents && found.agents@.contains(entry)
            ||| on.herdr_plus_quick_actions && found.quick_actions == Some(entry)
            ||| found.integrations@.contains(entry)
        }),
{
    let on = before.config.sources;
    let (places, taken) = found.places(on);
    let actors = found.actors(on);
    let n = found.integrations@.len() as int;
    let new = new_entries(found.integrations@, taken, n);
    let entry = after.entries@[k];
    assert(after.entries@ == places + actors + new);
    if k < places.len() {
        law_sources_come_in_order(found, on);
        let a = if_enabled(on.open_workspaces, found.workspaces@);
        let b = a + if_enabled(on.herdr_plus_projects, found.projects@);
        let c = b + if_enabled(on.zoxide, found.zoxide@);
        let d = c + if_enabled(on.roots, found.roots@);
        let e = d + if_enabled(on.servers, found.servers@);
        let all = e + if_enabled(on.sessions, found.sessions@);
        lemma_taken_are_incoming(all, Set::empty(), all.len() as int, k);
        assert(entry == places[k]);
        lemma_both_contain(a, if_enabled(on.herdr_plus_projects, found.projects@), entry);
        lemma_both_contain(b, if_enabled(on.zoxide, found.zoxide@), entry);
        lemma_both_contain(c, if_enabled(on.roots, found.roots@), entry);
        lemma_both_contain(d, if_enabled(on.servers, found.servers@), entry);
        lemma_both_contain(e, if_enabled(on.sessions, found.sessions@), entry);
    } else if k < places.len() + actors.len() {
        assert(entry == actors[k - places.len()]);
        if on.agents && k - places.len() < found.agents@.len() {
            assert(found.agents@[k - places.len()] == entry);
        }
    } else {
        lemma_taken_are_incoming(found.integrations@, taken, n, k - places.len() - actors.len());
        assert(entry == new[k - places.len() - actors.len()]);
    }
}

/// Agents and the entry for quick actions stand behind all places, in the order in which they were
/// found, and what the integrations add stands at the end.
pub proof fn law_agents_follow_the_places(found: Found, on: SourcesConfig, i: int)
    ensures
        on.agents && 0 <= i < found.agents@.len() ==> found.gathered(on).len() > found.places(
            on,
        ).0.len() + i && found.gathered(on)[found.places(on).0.len() + i] == found.agents@[i],
        0 <= i < found.places(on).0.len() ==> found.gathered(on)[i] == found.places(on).0[i],
        on.agents && on.herdr_plus_quick_actions && found.quick_actions is Some ==> found.gathered(
            on,
        )[(found.places(on).0.len() + found.agents@.len()) as int] == found.quick_actions->0,
        !on.agents && on.herdr_plus_quick_actions && found.quick_actions is Some ==> found.gathered(
            on,
        )[found.places(on).0.len() as int] == found.quick_actions->0,
{
    let places = found.places(on).0;
    let actors = found.actors(on);
    if on.agents && 0 <= i < found.agents@.len() {
        assert(actors[i] == found.agents@[i]);
    }
    if on.herdr_plus_quick_actions && found.quick_actions is Some {
        assert(actors.last() == found.quick_actions->0);
    }
}

/// What a refresh takes over and what it keeps: the query, the singled-out source and the settings
/// stay, the tree is collapsed, pins and the previous workspace are those that were stored.
pub proof fn law_refresh_keeps_the_query(
    before: App,
    after: App,
    found: Found,
    scores: Vec<Option<i64>>,
)
    requires
        after.is_refreshed_from(before, found, scores),
    ensures
        after.query@ == before.query@,
        after.source_filter == before.source_filter,
        after.config == before.config,
        after.input_mode == before.input_mode,
        after.preview == before.preview,
        after.list_height == before.list_height,
        after.panel_sort == before.panel_sort,
        after.selected == 0,
        after.child_entries@.len() == 0,
        forall|key: Seq<char>| !#[trigger] after.expanded@.contains(key),
        after.match_scores@ == scores@,
        after.path_to_workspaces == found.path_to_workspaces,
        found.pinned is Some ==> after.pinned_entries@ == found.pinned->0@,
        found.pinned is None ==> forall|key: Seq<char>| !#[trigger] after.pinned_entries@.contains(key),
        before.config.jump_back.enabled && before.config.jump_back.pin_previous ==> content(
            after.previous_workspace_id,
        ) == content(found.previous),
        !before.config.jump_back.enabled || !before.config.jump_back.pin_previous
            ==> after.previous_workspace_id is None,
{
}

/// After a refresh, and after a pin was toggled, the list is built anew: without a search every entry
/// has a row, and in a search every entry that the ranking has.
pub proof fn law_a_refresh_shows_the_entries(
    before: App,
    after: App,
    found: Found,
    scores: Vec<Option<i64>>,
    saved: Result<(), String>,
    outcome: Result<(), String>,
    i: int,
)
    requires
        after.is_refreshed_from(before, found, scores) || (after.is_pinned_from(
            before,
            saved,
            outcome,
        ) && before.selection() is Some && saved is Ok),
        after.wf(),
    ensures
        after.is_ranking(after.ranking()),
        words(after.query@).len() == 0 && after.source_filter is None && 0 <= i
            < after.entries@.len() ==> after.filtered@.contains(i as usize),
        words(after.query@).len() > 0 || after.source_filter is Some ==> after.filtered@
            == after.ranking(),
{
    law_unfiltered_is_without_words(after);
    if words(after.query@).len() == 0 && after.source_filter is None {
        if 0 <= i < after.entries@.len() {
            law_every_entry_is_shown_unfiltered(after, i);
        }
    } else if after.filtered@.len() > 0 {
        law_a_search_shows_the_ranking(after, 0);
    } else {
        assert(after.listing().len() == 0);
        assert(after.filtered@ =~= after.ranking());
    }
}

/// Toggling a pin changes that of the selected entry and no other, and only once the pins were
/// stored. Everything but the list stays as it was.
pub proof fn law_a_pin_changes_the_selected_entry_only(
    before: App,
    after: App,
    saved: Result<(), String>,
    outcome: Result<(), String>,
    other: Seq<char>,
)
    requires
        after.is_pinned_from(before, saved, outcome),
    ensures
        before.selection() is Some && saved is Ok ==> {
            let key = before.selection()->0@.identity_key();
            &&& outcome is Ok
            &&& after.pinned_entries@.contains(key) <==> !before.pinned_entries@.contains(key)
            &&& other != key ==> (after.pinned_entries@.contains(other)
                <==> before.pinned_entries@.contains(other))
            &&& after.selected == 0
            &&& after.entries == before.entries
            &&& after.child_entries == before.child_entries
            &&& after.expanded == before.expanded
            &&& after.query == before.query
            &&& after.source_filter == before.source_filter
            &&& after.previous_workspace_id == before.previous_workspace_id
            &&& after.path_to_workspaces == before.path_to_workspaces
        },
        before.selection() is None ==> after == before && outcome is Err && outcome->Err_0@
            == "nothing selected"@,
        before.selection() is Some && saved is Err ==> after == before && outcome == saved,
{
}

/// The key under which an entry is listed once goes by what it opens, and else by its source and its
/// directory.
pub proof fn law_keys_say_what_is_opened(e: EntryView, text: Seq<char>, name: Seq<char>)
    ensures
        e.action == (ActionView::FocusWorkspace { id: text }) ==> e.unique_key() == "open:"@ + text
            && e.identity_key() == "workspace:"@ + text,
        e.action == (ActionView::OpenRemote { target: text }) ==> e.unique_key() == "remote:"@ + text
            && e.identity_key() == "remote:"@ + text,
        e.action == (ActionView::AttachSession { name, remote: Some(text) }) ==> e.unique_key()
            == "session:"@ + text + ":"@ + name && e.identity_key() == "session:"@ + text + ":"@
            + name,
        e.action == (ActionView::AttachSession { name, remote: None }) ==> e.unique_key()
            == "session:"@ + "local"@ + ":"@ + name && e.identity_key() == "session:"@ + "local"@
            + ":"@ + name,
        e.action == (ActionView::FocusAgent { target: text }) ==> e.identity_key() == "agent:"@ + text,
        e.action == (ActionView::FocusTab { id: text }) ==> e.identity_key() == "tab:"@ + text,
        e.action == (ActionView::FocusPane { id: text }) ==> e.identity_key() == "pane:"@ + text,
        e.canonical == Some(text) ==> e.key() == text,
        e.canonical is None ==> e.key() == e.path,
        e.source_label == Some(text) ==> e.source_name() == text,
        e.source_label is None ==> e.source_name() == e.source.spec_name(),
        e.action is OpenProject ==> e.identity_key() == "project:"@ + e.key() && e.unique_key()
            == e.source_name() + ":"@ + e.key(),
        e.action is FocusOrCreateDir ==> e.identity_key() == e.source_name() + ":"@ + e.key()
            && e.unique_key() == e.source_name() + ":"@ + e.key(),
        e.action is FocusAgent || e.action is FocusTab || e.action is FocusPane
            || e.action is InvokePluginAction ==> e.unique_key() == e.source_name() + ":"@ + e.key(),
        e.action == (ActionView::InvokePluginAction { action: text }) ==> e.identity_key()
            == "plugin:"@ + e.source_name() + ":"@ + text,
        e.action is RunCommand ==> e.unique_key() == e.source_name() + ":"@
            + e.action->RunCommand_command && e.identity_key() == e.unique_key(),
        e.pin_key() == e.identity_key(),
        e.action == (ActionView::FocusWorkspace { id: text }) ==> e.expand_key() == Some(
            "ws:"@ + text,
        ) && e.tree_id() == Some(text),
        e.action == (ActionView::FocusTab { id: text }) ==> e.expand_key() == Some("tab:"@ + text)
            && e.tree_id() == Some(text),
        e.action !is FocusWorkspace && e.action !is FocusTab ==> e.expand_key() is None
            && e.tree_id() is None,
{
}

/// The names that sources go by in the settings and in keys.
pub proof fn law_sources_go_by_their_names()
    ensures
        Source::Workspace.spec_name() == "workspace"@,
        Source::Agent.spec_name() == "agent"@,
        Source::Project.spec_name() == "project"@,
        Source::Zoxide.spec_name() == "zoxide"@,
        Source::Root.spec_name() == "root"@,
        Source::Server.spec_name() == "server"@,
        Source::Session.spec_name() == "session"@,
        Source::QuickAction.spec_name() == "quick_action"@,
        Source::Integration.spec_name() == "integration"@,
        Source::Tab.spec_name() == "tab"@,
        Source::Pane.spec_name() == "pane"@,
{
}

/// Each source has a name of its own.
pub proof fn law_source_names_differ(one: Source, other: Source)
    requires
        one != other,
    ensures
        one.spec_name() != other.spec_name(),
{
    reveal_strlit("workspace");
    reveal_strlit("agent");
    reveal_strlit("project");
    reveal_strlit("zoxide");
    reveal_strlit("root");
    reveal_strlit("server");
    reveal_strlit("session");
    reveal_strlit("quick_action");
    reveal_strlit("integration");
    reveal_strlit("tab");
    reveal_strlit("pane");
    assert("workspace"@[0] == 'w' && "agent"@[0] == 'a' && "project"@[0] == 'p' && "zoxide"@[0] == 'z'
        && "root"@[0] == 'r' && "server"@[0] == 's' && "session"@[0] == 's' && "quick_action"@[0]
        == 'q' && "integration"@[0] == 'i' && "tab"@[0] == 't' && "pane"@[0] == 'p');
    assert("project"@.len() == 7 && "pane"@.len() == 4 && "server"@.len() == 6 && "session"@.len()
        == 7);
}

/// A source is enabled by its own setting; integrations always are, and the rows of the tree are no
/// source of their own.
pub proof fn law_sources_are_enabled_one_by_one(on: SourcesConfig)
    ensures
        on.spec_enabled(Source::Workspace) == on.open_workspaces,
        on.spec_enabled(Source::Agent) == on.agents,
        on.spec_enabled(Source::Project) == on.herdr_plus_projects,
        on.spec_enabled(Source::Zoxide) == on.zoxide,
        on.spec_enabled(Source::Root) == on.roots,
        on.spec_enabled(Source::Server) == on.servers,
        on.spec_enabled(Source::Session) == on.sessions,
        on.spec_enabled(Source::QuickAction) == on.herdr_plus_quick_actions,
        on.spec_enabled(Source::Integration),
        !on.spec_enabled(Source::Tab),
        !on.spec_enabled(Source::Pane),
{
}

} // verus!
