//! What holds of the navigator as a whole.

use crate::app::{lemma_same_listing, App};
use crate::config::{Config, SourcesConfig};
use crate::data::DataView;
use crate::keys::{is_new, new_entries, unique_keys};
use crate::load::{added, Found};
use crate::model::{
    ActionView, Entry, EntryView, Source, WorkspaceKind, WorkspaceRef,
};
use crate::open::{dir_key, first_of_kind, StepView};
use crate::preview::{header, preview, SpanView};
use crate::query::tokens_of;
use crate::selection::{last_word_start, source_after, without_last_word};
use crate::text::{
    lemma_word_len, trimmed, trimmed_end, trimmed_start, white_space, word_len, words,
};
use crate::tree::rows;
use crate::workspaces::{focused_in, jump_between, label_in, JumpView};
use vstd::prelude::*;

verus! {

/// Whether an action leads to something that Herdr itself identifies.
pub open spec fn has_target(action: ActionView) -> bool {
    match action {
        ActionView::FocusWorkspace { .. } => true,
        ActionView::FocusAgent { .. } => true,
        ActionView::FocusTab { .. } => true,
        ActionView::FocusPane { .. } => true,
        _ => false,
    }
}

/// Texts with one prefix are the same where what follows it is.
proof fn lemma_same_rest(prefix: Seq<char>, a: Seq<char>, b: Seq<char>)
    requires
        prefix + a == prefix + b,
    ensures
        a == b,
{
    assert((prefix + a).skip(prefix.len() as int) =~= a);
    assert((prefix + b).skip(prefix.len() as int) =~= b);
}

/// Workspaces, agents, tabs and panes never share an identity: where two have the same, they lead to
/// the same. A workspace and a tab with one identifier are told apart.
pub proof fn law_identity_tells_targets_apart(a: EntryView, b: EntryView)
    requires
        has_target(a.action),
        has_target(b.action),
        a.identity_key() == b.identity_key(),
    ensures
        a.action == b.action,
{
    lemma_first_letter(a);
    lemma_first_letter(b);
    match a.action {
        ActionView::FocusWorkspace { id } => {
            lemma_same_rest("workspace:"@, id, b.action->FocusWorkspace_id);
        },
        ActionView::FocusAgent { target } => {
            lemma_same_rest("agent:"@, target, b.action->FocusAgent_target);
        },
        ActionView::FocusTab { id } => {
            lemma_same_rest("tab:"@, id, b.action->FocusTab_id);
        },
        ActionView::FocusPane { id } => {
            lemma_same_rest("pane:"@, id, b.action->FocusPane_id);
        },
        _ => {},
    }
}

proof fn lemma_first_letter(e: EntryView)
    ensures
        e.action is FocusWorkspace ==> e.identity_key()[0] == 'w',
        e.action is FocusAgent ==> e.identity_key()[0] == 'a',
        e.action is FocusTab ==> e.identity_key()[0] == 't',
        e.action is FocusPane ==> e.identity_key()[0] == 'p',
{
    reveal_strlit("workspace:");
    reveal_strlit("agent:");
    reveal_strlit("tab:");
    reveal_strlit("pane:");
}

/// Workspaces are told apart by their identifiers, also where their paths are the same.
pub proof fn law_workspaces_are_kept_apart(a: EntryView, b: EntryView)
    requires
        a.action is FocusWorkspace,
        b.action is FocusWorkspace,
        a.action != b.action,
    ensures
        a.unique_key() != b.unique_key(),
{
    if a.unique_key() == b.unique_key() {
        lemma_same_rest("open:"@, a.action->FocusWorkspace_id, b.action->FocusWorkspace_id);
    }
}

/// Of incoming entries each new key is taken once, and every other key is known.
pub proof fn law_new_keys_are_taken_once(entries: Seq<Entry>, known: Set<Seq<char>>, n: int)
    requires
        0 <= n <= entries.len(),
    ensures
        unique_keys(new_entries(entries, known, n)).no_duplicates(),
        forall|k: int|
            0 <= k < new_entries(entries, known, n).len() ==> !known.contains(
                #[trigger] unique_keys(new_entries(entries, known, n))[k],
            ),
        forall|i: int|
            0 <= i < n ==> known.contains(#[trigger] unique_keys(entries)[i]) || unique_keys(
                new_entries(entries, known, n),
            ).contains(unique_keys(entries)[i]),
    decreases n,
{
    let taken = new_entries(entries, known, n);
    if n > 0 {
        law_new_keys_are_taken_once(entries, known, n - 1);
        lemma_taken_came_in(entries, known, n - 1);
        let before = new_entries(entries, known, n - 1);
        let key = unique_keys(entries)[n - 1];
        if is_new(entries, known, n - 1) {
            assert(unique_keys(taken) =~= unique_keys(before).push(key));
            assert forall|k: int| 0 <= k < before.len() implies #[trigger] unique_keys(before)[k]
                != key by {
                assert(came_in(entries, n - 1, unique_keys(before)[k]));
                let j = choose|j: int|
                    0 <= j < n - 1 && #[trigger] unique_keys(entries)[j] == unique_keys(before)[k];
                assert(entries[j]@.unique_key() != entries[n - 1]@.unique_key());
            }
            assert(unique_keys(taken)[before.len() as int] == key);
        } else if !known.contains(key) {
            let j = choose|j: int|
                0 <= j < n - 1 && #[trigger] entries[j]@.unique_key()
                    == entries[n - 1]@.unique_key();
            assert(unique_keys(entries)[j] == key);
        }
        assert forall|i: int| 0 <= i < n implies known.contains(#[trigger] unique_keys(entries)[i])
            || unique_keys(taken).contains(unique_keys(entries)[i]) by {
            if i < n - 1 && !known.contains(unique_keys(entries)[i]) {
                assert(unique_keys(before).contains(unique_keys(entries)[i]));
                let k = choose|k: int|
                    0 <= k < before.len() && unique_keys(before)[k] == unique_keys(entries)[i];
                assert(unique_keys(taken)[k] == unique_keys(entries)[i]);
            }
        }
    }
}

/// Whether one of the first entries has a key.
spec fn came_in(entries: Seq<Entry>, n: int, key: Seq<char>) -> bool {
    exists|j: int| 0 <= j < n && #[trigger] unique_keys(entries)[j] == key
}

/// The keys that are taken came in.
proof fn lemma_taken_came_in(entries: Seq<Entry>, known: Set<Seq<char>>, n: int)
    requires
        0 <= n <= entries.len(),
    ensures
        forall|k: int|
            0 <= k < new_entries(entries, known, n).len() ==> came_in(
                entries,
                n,
                #[trigger] unique_keys(new_entries(entries, known, n))[k],
            ),
    decreases n,
{
    if n > 0 {
        lemma_taken_came_in(entries, known, n - 1);
        let before = new_entries(entries, known, n - 1);
        let taken = new_entries(entries, known, n);
        assert forall|k: int| 0 <= k < taken.len() implies came_in(
            entries,
            n,
            #[trigger] unique_keys(taken)[k],
        ) by {
            if k < before.len() {
                assert(unique_keys(taken)[k] == unique_keys(before)[k]);
                assert(came_in(entries, n - 1, unique_keys(before)[k]));
            } else {
                assert(unique_keys(entries)[n - 1] == unique_keys(taken)[k]);
            }
        }
    }
}

/// Whether a list of entries has each of the taken keys, and each once.
pub open spec fn holds_keys_once(list: (Seq<Entry>, Set<Seq<char>>)) -> bool {
    &&& unique_keys(list.0).no_duplicates()
    &&& unique_keys(list.0).to_set() == list.1
}

/// Adding the entries of a source keeps each key once.
proof fn lemma_added_once(
    list: (Seq<Entry>, Set<Seq<char>>),
    enabled: bool,
    incoming: Seq<Entry>,
)
    requires
        holds_keys_once(list),
    ensures
        holds_keys_once(added(list, enabled, incoming)),
{
    reveal(added);
    if enabled {
        let new = new_entries(incoming, list.1, incoming.len() as int);
        let (all, keys) = added(list, enabled, incoming);
        law_new_keys_are_taken_once(incoming, list.1, incoming.len() as int);
        lemma_taken_came_in(incoming, list.1, incoming.len() as int);
        let (old_keys, new_keys) = (unique_keys(list.0), unique_keys(new));
        assert(unique_keys(all) =~= old_keys + new_keys);
        assert forall|a: int, b: int|
            0 <= a < old_keys.len() && 0 <= b < new_keys.len() implies old_keys[a]
            != new_keys[b] by {
            assert(old_keys.to_set().contains(old_keys[a]));
        }
        assert forall|key: Seq<char>| unique_keys(all).to_set().contains(key) == keys.contains(
            key,
        ) by {
            if old_keys.contains(key) {
                let a = choose|a: int| 0 <= a < old_keys.len() && old_keys[a] == key;
                assert(unique_keys(all)[a] == key);
            }
            if new_keys.contains(key) {
                let b = choose|b: int| 0 <= b < new_keys.len() && new_keys[b] == key;
                assert(unique_keys(all)[old_keys.len() + b] == key);
                assert(came_in(incoming, incoming.len() as int, new_keys[b]));
                let j = choose|j: int|
                    0 <= j < incoming.len() && #[trigger] unique_keys(incoming)[j] == new_keys[b];
                assert(unique_keys(incoming).contains(key));
            }
            if unique_keys(all).contains(key) {
                let k = choose|k: int| 0 <= k < all.len() && unique_keys(all)[k] == key;
                if k < old_keys.len() {
                    assert(old_keys[k] == key);
                    assert(old_keys.to_set().contains(key));
                } else {
                    assert(new_keys[k - old_keys.len()] == key);
                }
            }
            if unique_keys(incoming).contains(key) {
                let i = choose|i: int|
                    0 <= i < incoming.len() && unique_keys(incoming)[i] == key;
                assert(list.1.contains(unique_keys(incoming)[i]) || new_keys.contains(
                    unique_keys(incoming)[i],
                ));
            }
        }
        assert(unique_keys(all).to_set() =~= keys);
    }
}

/// The workspaces, projects, directories, servers and sessions that are listed have each key once.
pub proof fn law_places_are_listed_once(found: Found, on: SourcesConfig)
    ensures
        holds_keys_once(found.places(on)),
{
    let none = (Seq::<Entry>::empty(), Set::<Seq<char>>::empty());
    assert(unique_keys(none.0).to_set() =~= none.1);
    let with_workspaces = added(none, on.open_workspaces, found.workspaces@);
    lemma_added_once(none, on.open_workspaces, found.workspaces@);
    let with_projects = added(with_workspaces, on.herdr_plus_projects, found.projects@);
    lemma_added_once(with_workspaces, on.herdr_plus_projects, found.projects@);
    let with_zoxide = added(with_projects, on.zoxide, found.zoxide@);
    lemma_added_once(with_projects, on.zoxide, found.zoxide@);
    let with_roots = added(with_zoxide, on.roots, found.roots@);
    lemma_added_once(with_zoxide, on.roots, found.roots@);
    let with_servers = added(with_roots, on.servers, found.servers@);
    lemma_added_once(with_roots, on.servers, found.servers@);
    lemma_added_once(with_servers, on.sessions, found.sessions@);
}

/// The previous workspace is listed first, and pinned entries come before all others.
pub proof fn law_previous_then_pinned(app: App, list: Seq<usize>, a: int, b: int)
    requires
        app.is_ranking(list),
        0 <= a < b < list.len(),
    ensures
        app.is_previous(list[b] as int) ==> app.is_previous(list[a] as int),
        app.has_pin(app.entries@[list[b] as int]@) ==> app.has_pin(
            app.entries@[list[a] as int]@,
        ) || app.is_previous(list[a] as int),
{
    assert(app.before(list[a] as int, list[b] as int));
}

/// Entries that nothing else puts in order stay in the order in which they came.
pub proof fn law_ties_keep_their_order(app: App, list: Seq<usize>, a: int, b: int)
    requires
        app.is_ranking(list),
        0 <= a < b < list.len(),
        app.is_previous(list[a] as int) == app.is_previous(list[b] as int),
        app.has_pin(app.entries@[list[a] as int]@) == app.has_pin(app.entries@[list[b] as int]@),
        app.score(list[a] as int) == app.score(list[b] as int),
        app.entries@[list[a] as int].source == app.entries@[list[b] as int].source,
    ensures
        list[a] < list[b],
{
    assert(app.before(list[a] as int, list[b] as int));
}

/// The previous workspace goes first only where nothing is searched for and no source is singled
/// out.
pub proof fn law_previous_goes_first_only_unfiltered(app: App, i: int)
    requires
        trimmed(app.query@).len() > 0 || app.source_filter is Some,
    ensures
        !app.is_previous(i),
{
}

/// Whether all characters of a text are white space.
pub open spec fn all_white(text: Seq<char>) -> bool {
    forall|i: int| 0 <= i < text.len() ==> white_space(#[trigger] text[i])
}

/// What is left of a text without its trailing white space ends in none.
pub proof fn lemma_trimmed_end_white(text: Seq<char>)
    ensures
        trimmed_end(text).len() == 0 ==> all_white(text),
        trimmed_end(text).len() > 0 ==> !white_space(trimmed_end(text).last()),
    decreases text.len(),
{
    if text.len() > 0 && white_space(text.last()) {
        lemma_trimmed_end_white(text.drop_last());
        if trimmed_end(text).len() == 0 {
            assert forall|i: int| 0 <= i < text.len() implies white_space(#[trigger] text[i]) by {
                if i < text.len() - 1 {
                    assert(text[i] == text.drop_last()[i]);
                }
            }
        }
    }
}

/// A text of which nothing is left without its leading white space is white space only.
proof fn lemma_trimmed_start_white(text: Seq<char>)
    ensures
        trimmed_start(text).len() == 0 ==> all_white(text),
    decreases text.len(),
{
    if text.len() > 0 && white_space(text[0]) {
        lemma_trimmed_start_white(text.drop_first());
        if trimmed_start(text).len() == 0 {
            assert forall|i: int| 0 <= i < text.len() implies white_space(#[trigger] text[i]) by {
                if i > 0 {
                    assert(text[i] == text.drop_first()[i - 1]);
                }
            }
        }
    }
}

/// White space has no words.
pub proof fn lemma_no_words(text: Seq<char>)
    requires
        all_white(text),
    ensures
        words(text).len() == 0,
    decreases text.len(),
{
    if text.len() > 0 {
        assert(white_space(text[0]));
        assert forall|i: int| 0 <= i < text.drop_first().len() implies white_space(
            #[trigger] text.drop_first()[i],
        ) by {
            assert(text.drop_first()[i] == text[i + 1]);
        }
        lemma_no_words(text.drop_first());
    }
}

/// A text that is white space only has no words.
pub proof fn lemma_blank_has_no_words(text: Seq<char>)
    requires
        trimmed(text).len() == 0,
    ensures
        words(text).len() == 0,
{
    let head = trimmed_end(text);
    lemma_trimmed_end_white(text);
    lemma_trimmed_start_white(head);
    if head.len() > 0 {
        assert(white_space(head[head.len() - 1]));
    }
    lemma_no_words(text);
}

/// Where nothing is searched for and no source is singled out, every entry is listed.
pub proof fn law_unfiltered_lists_everything(app: App, i: int)
    requires
        app.is_unfiltered(),
        0 <= i < app.entries@.len(),
    ensures
        app.is_listed(i),
{
    lemma_blank_has_no_words(app.query@);
    assert(tokens_of(app.query@) =~= Seq::empty());
    assert(app.asked().plain.len() == 0);
    assert(app.asked().agent.len() == 0);
    assert(app.asked().workspace_or_status.len() == 0);
    assert(app.asked().path.len() == 0);
    assert(app.asked().status.len() == 0);
}

/// A singled-out source lists its own entries only, and a query for agents lists agents only.
pub proof fn law_filters_list_their_own_only(app: App, list: Seq<usize>, k: int)
    requires
        app.is_ranking(list),
        0 <= k < list.len(),
    ensures
        app.source_filter is Some ==> app.entries@[list[k] as int].source == app.source_filter->0,
        app.asked().asks_for_agents() ==> app.entries@[list[k] as int].source == Source::Agent,
{
    assert(app.is_listed(list[k] as int));
}

/// Stepping through the sources visits each enabled one in its order, and then lifts the filter.
pub proof fn law_cycle_visits_each_source(config: Config, list: Seq<Source>, k: int)
    requires
        config.is_source_order(list),
        0 <= k < list.len(),
    ensures
        source_after(list, None) == Some(list[0]),
        source_after(list, Some(list[k])) == (if k + 1 < list.len() {
            Some(list[k + 1])
        } else {
            None
        }),
{
    assert(list.contains(list[k]));
    let p = list.index_of(list[k]);
    assert(list[p] == list[k]);
    if p < k {
        assert(config.source_before(list[p], list[k]));
    } else if k < p {
        assert(config.source_before(list[k], list[p]));
    }
}

/// Jumping back twice returns to where it started, where both workspaces are still there.
pub proof fn law_jumping_back_twice_returns(
    first: DataView,
    second: DataView,
    previous: String,
    stored: String,
)
    requires
        jump_between(first, Some(Ok(previous))) is Focus,
        stored@ == jump_between(first, Some(Ok(previous)))->current,
        focused_in(second) == Some(previous@),
        label_in(second, stored@) is Some,
    ensures
        jump_between(second, Some(Ok(stored))) == (JumpView::Focus {
            previous: focused_in(first)->0,
            current: previous@,
            label: label_in(second, stored@)->0,
        }),
{
}

/// Building the list twice gives the same list.
pub proof fn law_filtering_twice_changes_nothing(before: App, once: App, twice: App)
    requires
        before.is_ranking(before.ranking()),
        once.same_but_list(before),
        once.shows(before.listing()),
        once.selected == 0,
        twice.same_but_list(once),
        twice.shows(once.listing()),
        twice.selected == 0,
    ensures
        twice.filtered@ == once.filtered@,
        twice.filtered_scores@ == once.filtered_scores@,
        twice.selected == once.selected,
{
    lemma_same_listing(before, once);
    let one = rows(once.filtered@, once.filtered_scores@);
    let two = rows(twice.filtered@, twice.filtered_scores@);
    assert(one == two);
    assert forall|k: int| 0 <= k < one.len() implies once.filtered@[k] == twice.filtered@[k]
        && once.filtered_scores@[k] == twice.filtered_scores@[k] by {
        assert(one[k] == two[k]);
    }
    assert(one.len() == once.filtered@.len() && two.len() == twice.filtered@.len());
    assert(twice.filtered@ =~= once.filtered@);
    assert(twice.filtered_scores@ =~= once.filtered_scores@);
}

/// The first workspace of a kind is in the list and of that kind; where there is none, no workspace
/// in the list is.
pub proof fn law_first_of_kind(list: Seq<WorkspaceRef>, kind: WorkspaceKind)
    ensures
        match first_of_kind(list, kind) {
            Some(workspace) => list.contains(workspace) && workspace.kind == kind,
            None => forall|i: int| 0 <= i < list.len() ==> (#[trigger] list[i]).kind != kind,
        },
    decreases list.len(),
{
    if list.len() > 0 {
        let rest = list.drop_first();
        law_first_of_kind(rest, kind);
        if list[0].kind == kind {
            assert(list.contains(list[0]));
        } else if let Some(workspace) = first_of_kind(rest, kind) {
            let i = choose|i: int| 0 <= i < rest.len() && rest[i] == workspace;
            assert(list[i + 1] == workspace);
        } else {
            assert forall|i: int| 0 <= i < list.len() implies (#[trigger] list[i]).kind != kind by {
                if i > 0 {
                    assert(rest[i - 1] == list[i]);
                }
            }
        }
    }
}

/// Whether a workspace of a kind with an identifier is open for a directory.
pub open spec fn is_open_for(app: App, key: Seq<char>, kind: WorkspaceKind, id: Seq<char>) -> bool {
    exists|workspace: WorkspaceRef| #[trigger]
        app.open_at(key).contains(workspace) && workspace.kind == kind && workspace.id@ == id
}

/// A project reuses a workspace that was created for a project, and a directory one that was
/// created for a directory, also where both are open for one path.
pub proof fn law_reuse_goes_by_kind(
    app: App,
    e: EntryView,
    path: Seq<u8>,
    resolved: Option<Seq<char>>,
    label: Seq<char>,
    id: Seq<char>,
)
    ensures
        app.project_steps(e) == Ok::<Seq<StepView>, Seq<char>>(seq![StepView::Focus { id }])
            ==> is_open_for(app, e.key(), WorkspaceKind::Project, id),
        app.dir_steps(path, resolved, label, false) == Ok::<Seq<StepView>, Seq<char>>(
            seq![StepView::Focus { id }],
        ) ==> is_open_for(app, dir_key(path, resolved), WorkspaceKind::Dir, id),
{
    law_first_of_kind(app.open_at(e.key()), WorkspaceKind::Project);
    law_first_of_kind(app.open_at(dir_key(path, resolved)), WorkspaceKind::Dir);
    let focus = seq![StepView::Focus { id }];
    assert(focus[0] == StepView::Focus { id });
    if app.project_steps(e) == Ok::<Seq<StepView>, Seq<char>>(focus) {
        let steps = app.project_steps(e)->Ok_0;
        assert(steps[0] == StepView::Focus { id });
        let workspace = first_of_kind(app.open_at(e.key()), WorkspaceKind::Project)->0;
        assert(app.open_at(e.key()).contains(workspace) && workspace.id@ == id);
    }
    if app.dir_steps(path, resolved, label, false) == Ok::<Seq<StepView>, Seq<char>>(focus) {
        let steps = app.dir_steps(path, resolved, label, false)->Ok_0;
        assert(steps[0] == StepView::Focus { id });
        let workspace = first_of_kind(app.open_at(dir_key(path, resolved)), WorkspaceKind::Dir)->0;
        assert(app.open_at(dir_key(path, resolved)).contains(workspace) && workspace.id@ == id);
    }
}

/// Without leave to create workspaces none is created, but for a template that is asked for.
pub proof fn law_nothing_is_created_without_leave(
    app: App,
    e: EntryView,
    path: Seq<u8>,
    resolved: Option<Seq<char>>,
    label: Seq<char>,
)
    requires
        !app.config.picker.create_missing,
    ensures
        app.project_steps(e) matches Ok(steps) ==> steps.len() == 1 && steps[0] is Focus,
        app.dir_steps(path, resolved, label, false) matches Ok(steps) ==> steps.len() == 1
            && steps[0] is Focus,
{
}

/// Every preview starts with the entry's header.
pub proof fn law_preview_starts_with_header(
    e: EntryView,
    git_status: bool,
    scrollback: Option<Seq<Seq<SpanView>>>,
    git: Option<Seq<Seq<SpanView>>>,
    tree: Seq<Seq<char>>,
)
    ensures
        preview(e, git_status, scrollback, git, tree).take(3) == header(e),
{
    assert(preview(e, git_status, scrollback, git, tree).take(3) =~= header(e));
}

/// Whether no character of a text is white space.
pub open spec fn none_white(text: Seq<char>) -> bool {
    forall|i: int| 0 <= i < text.len() ==> !white_space(#[trigger] text[i])
}

proof fn lemma_word_len_before_white(a: Seq<char>, b: Seq<char>)
    requires
        word_len(a) < a.len() || all_white(b),
    ensures
        word_len(a + b) == word_len(a),
    decreases a.len(),
{
    if a.len() == 0 {
        assert(a + b =~= b);
        if b.len() > 0 {
            assert(white_space(b[0]));
        }
    } else {
        assert((a + b)[0] == a[0]);
        if !white_space(a[0]) {
            assert((a + b).drop_first() =~= a.drop_first() + b);
            lemma_word_len_before_white(a.drop_first(), b);
        }
    }
}

proof fn lemma_word_ends(a: Seq<char>)
    requires
        a.len() > 0,
        white_space(a.last()),
    ensures
        word_len(a) < a.len(),
    decreases a.len(),
{
    if !white_space(a[0]) {
        assert(a.drop_first().last() == a.last());
        lemma_word_ends(a.drop_first());
    }
}

/// The words of two texts follow each other where the first ends in white space.
pub proof fn lemma_words_follow(a: Seq<char>, b: Seq<char>)
    requires
        a.len() == 0 || white_space(a.last()),
    ensures
        words(a + b) == words(a) + words(b),
    decreases a.len(),
{
    if a.len() == 0 {
        assert(a + b =~= b);
        assert(words(a) + words(b) =~= words(b));
    } else if white_space(a[0]) {
        let rest = a.drop_first();
        assert((a + b)[0] == a[0]);
        assert((a + b).drop_first() =~= rest + b);
        if rest.len() > 0 {
            assert(rest.last() == a.last());
        }
        lemma_words_follow(rest, b);
    } else {
        lemma_word_ends(a);
        lemma_word_len_before_white(a, b);
        lemma_word_len(a);
        let n = word_len(a) as int;
        let rest = a.skip(n);
        assert((a + b)[0] == a[0]);
        assert((a + b).take(n) =~= a.take(n));
        assert((a + b).skip(n) =~= rest + b);
        assert(rest.last() == a.last());
        lemma_words_follow(rest, b);
        assert(words(a + b) =~= words(a) + words(b));
    }
}

/// White space at the end adds no words.
proof fn lemma_white_end(a: Seq<char>, b: Seq<char>)
    requires
        all_white(b),
    ensures
        words(a + b) == words(a),
    decreases a.len(),
{
    if a.len() == 0 {
        assert(a + b =~= b);
        lemma_no_words(b);
        assert(words(b) =~= words(a));
    } else if white_space(a[0]) {
        assert((a + b)[0] == a[0]);
        assert((a + b).drop_first() =~= a.drop_first() + b);
        lemma_white_end(a.drop_first(), b);
    } else {
        lemma_word_len_before_white(a, b);
        lemma_word_len(a);
        let n = word_len(a) as int;
        assert((a + b)[0] == a[0]);
        assert((a + b).take(n) =~= a.take(n));
        assert((a + b).skip(n) =~= a.skip(n) + b);
        lemma_white_end(a.skip(n), b);
    }
}

/// A text without white space is one word.
pub proof fn lemma_one_word(text: Seq<char>)
    requires
        text.len() > 0,
        none_white(text),
    ensures
        words(text) == seq![text],
{
    lemma_whole_word(text);
    assert(text.take(text.len() as int) =~= text);
    assert(!white_space(text[0]));
    assert(words(text.skip(text.len() as int)).len() == 0);
    assert(words(text) =~= seq![text]);
}

proof fn lemma_whole_word(text: Seq<char>)
    requires
        none_white(text),
    ensures
        word_len(text) == text.len(),
    decreases text.len(),
{
    if text.len() > 0 {
        assert(!white_space(text[0]));
        assert forall|i: int| 0 <= i < text.drop_first().len() implies !white_space(
            #[trigger] text.drop_first()[i],
        ) by {
            assert(text.drop_first()[i] == text[i + 1]);
        }
        lemma_whole_word(text.drop_first());
    }
}

/// What trimming cuts off is white space.
pub proof fn lemma_trimmed_end_cut(text: Seq<char>)
    ensures
        trimmed_end(text).len() <= text.len(),
        text == trimmed_end(text) + text.skip(trimmed_end(text).len() as int),
        all_white(text.skip(trimmed_end(text).len() as int)),
    decreases text.len(),
{
    if text.len() > 0 && white_space(text.last()) {
        let init = text.drop_last();
        lemma_trimmed_end_cut(init);
        let n = trimmed_end(text).len() as int;
        assert(text =~= trimmed_end(text) + text.skip(n)) by {
            assert(init == trimmed_end(init) + init.skip(n));
            assert forall|i: int| 0 <= i < n implies text[i] == trimmed_end(text)[i] by {
                assert(init[i] == trimmed_end(init)[i]);
            }
        }
        assert forall|i: int| 0 <= i < text.skip(n).len() implies white_space(
            #[trigger] text.skip(n)[i],
        ) by {
            if i < init.skip(n).len() {
                assert(text.skip(n)[i] == init.skip(n)[i]);
            } else {
                assert(text.skip(n)[i] == text.last());
            }
        }
    } else {
        let n = text.len() as int;
        assert(text =~= text + text.skip(n));
    }
}

proof fn lemma_last_word_start(text: Seq<char>)
    ensures
        last_word_start(text) <= text.len(),
        none_white(text.skip(last_word_start(text) as int)),
        last_word_start(text) > 0 ==> white_space(text[last_word_start(text) - 1]),
    decreases text.len(),
{
    if text.len() > 0 && !white_space(text.last()) {
        let init = text.drop_last();
        lemma_last_word_start(init);
        let n = last_word_start(text) as int;
        assert forall|i: int| 0 <= i < text.skip(n).len() implies !white_space(
            #[trigger] text.skip(n)[i],
        ) by {
            if i < init.skip(n).len() {
                assert(text.skip(n)[i] == init.skip(n)[i]);
            } else {
                assert(text.skip(n)[i] == text.last());
            }
        }
    }
}

/// Deleting a word from the query deletes the last one, keeps the others, and leaves no white space
/// at the end.
pub proof fn law_deleting_a_word_deletes_the_last(text: Seq<char>)
    ensures
        without_last_word(text).len() > 0 ==> !white_space(without_last_word(text).last()),
        words(text).len() == 0 ==> without_last_word(text).len() == 0,
        words(text).len() > 0 ==> words(without_last_word(text)) == words(text).drop_last(),
{
    let head = trimmed_end(text);
    let start = last_word_start(head) as int;
    let (front, word) = (head.take(start), head.skip(start));
    let kept = trimmed_end(front);
    lemma_trimmed_end_white(text);
    lemma_trimmed_end_white(front);
    lemma_trimmed_end_cut(text);
    lemma_trimmed_end_cut(front);
    lemma_last_word_start(head);
    lemma_white_end(head, text.skip(head.len() as int));
    lemma_white_end(kept, front.skip(kept.len() as int));
    assert(words(text) == words(head));
    assert(words(front) == words(kept));
    if head.len() > 0 {
        assert(start < head.len()) by {
            if start == head.len() {
                assert(white_space(head[start - 1]));
            }
        }
        assert(head =~= front + word);
        if front.len() > 0 {
            assert(front.last() == head[start - 1]);
        }
        lemma_words_follow(front, word);
        lemma_one_word(word);
        assert(words(text) =~= words(kept).push(word));
        assert(words(text).drop_last() =~= words(kept));
    } else {
        assert(kept.len() == 0);
    }
}

} // verus!
