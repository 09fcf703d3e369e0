//! What holds of the state of the navigator: moving, singling out sources, settings, and what one
//! operation leaves as it was.

use crate::app::App;
use crate::config::{bonus_for, is_default, place, Config};
use crate::data::{Data, DataView};
use crate::load::lemma_collapsed_finite;
use crate::model::{EntryView, Source};
use crate::panel::{panel_sort_of, sort_of};
use crate::pins::pins_in;
use crate::selection::{row_above, row_below, source_after, toggled_source};
use crate::string_set::{is_listing, lemma_text_asymmetric, text_less};
use crate::text::contents;
use crate::tree::{covers_entries, is_covered, is_finite_tree, is_ranked, opens};
use vstd::prelude::*;

verus! {

/// Building the list anew changes the list, its scores and the selection, and nothing else.
pub proof fn law_filtering_leaves_the_rest(before: App, after: App)
    requires
        after.same_but_list(before),
    ensures
        after == (App {
            filtered: after.filtered,
            filtered_scores: after.filtered_scores,
            selected: after.selected,
            ..before
        }),
{
}

/// Expanding and collapsing change the list, its scores, the selection and the tree, and nothing
/// else.
pub proof fn law_expanding_leaves_the_rest(before: App, after: App, reply: DataView)
    requires
        after.is_toggled_from(before, reply),
    ensures
        after == (App {
            filtered: after.filtered,
            filtered_scores: after.filtered_scores,
            selected: after.selected,
            expanded: after.expanded,
            child_entries: after.child_entries,
            ..before
        }),
{
}

/// Moving changes the selection only.
pub proof fn law_moving_leaves_the_rest(before: App, after: App)
    requires
        after.same_but_selected(before),
    ensures
        after == (App { selected: after.selected, ..before }),
{
}

/// When a list is built anew around a selection, the first row with the identity of what was selected
/// is selected; where there is none, or nothing was selected, the first row is.
pub proof fn law_the_selection_stays_with_its_entry(before: App, after: App, row: int)
    requires
        after.shows_with_selection_of(before),
    ensures
        before.selection() is None ==> after.selected == 0,
        before.selection() is Some && 0 <= row < after.filtered@.len() && after.entry(
            after.filtered@[row] as int,
        ) is Some && after.entry(after.filtered@[row] as int)->0@.identity_key()
            == before.selection()->0@.identity_key() ==> {
            &&& after.selected <= row
            &&& after.selection() is Some
            &&& after.selection()->0@.identity_key() == before.selection()->0@.identity_key()
        },
        after.selected != 0 ==> before.selection() is Some && after.selection() is Some
            && after.selection()->0@.identity_key() == before.selection()->0@.identity_key(),
{
    if let Some(entry) = before.selection() {
        let key = entry@.identity_key();
        if 0 <= row < after.filtered@.len() && after.entry(after.filtered@[row] as int) is Some
            && after.entry(after.filtered@[row] as int)->0@.identity_key() == key {
            assert(after.row_has(row, key));
        }
    }
}

/// What is selected is the entry that the selected row of the list stands for; where there is no such
/// row, nothing is.
pub proof fn law_the_selected_row_is_selected(app: App)
    ensures
        app.selected >= app.filtered@.len() ==> app.selection() is None,
        app.selected < app.filtered@.len() && app.filtered@[app.selected as int]
            < app.entries@.len() ==> app.selection() == Some(
            app.entries@[app.filtered@[app.selected as int] as int],
        ),
        app.selected < app.filtered@.len() && app.entries@.len()
            <= app.filtered@[app.selected as int] < app.entries@.len() + app.child_entries@.len()
            ==> app.selection() == Some(
            app.child_entries@[app.filtered@[app.selected as int] - app.entries@.len()],
        ),
        app.selected < app.filtered@.len() && app.filtered@[app.selected as int]
            >= app.entries@.len() + app.child_entries@.len() ==> app.selection() is None,
{
}

/// Moving goes as far as it is asked to, or to the end of the list. A page is as many rows as the
/// list last had on the screen, and at least one.
pub proof fn law_moving_goes_as_far_as_asked(app: App, row: int, n: int, len: int)
    requires
        0 <= row,
        0 <= n,
        0 <= len,
    ensures
        row + n < len ==> row_below(row, n, len) == row + n,
        0 < len <= row + n ==> row_below(row, n, len) == len - 1,
        len == 0 ==> row_below(row, n, len) == row,
        row >= n ==> row_above(row, n) == row - n,
        row < n ==> row_above(row, n) == 0,
        app.list_height > 0 ==> app.rows_of_page() == app.list_height,
        app.list_height == 0 ==> app.rows_of_page() == 1,
{
}

/// Choosing a source singles it out, and lifts it where it is singled out already.
pub proof fn law_choosing_singles_out(current: Option<Source>, chosen: Option<Source>)
    ensures
        current != chosen ==> toggled_source(current, chosen) == chosen,
        current == chosen ==> toggled_source(current, chosen) is None,
{
}

/// Stepping starts at the first source, also from one that is not listed, and over no sources stays
/// without one.
pub proof fn law_stepping_starts_at_the_first(list: Seq<Source>, current: Source)
    ensures
        list.len() > 0 ==> source_after(list, None) == Some(list[0]),
        list.len() > 0 && !list.contains(current) ==> source_after(list, Some(current)) == Some(
            list[0],
        ),
        list.len() == 0 ==> source_after(list, None) is None && source_after(
            list,
            Some(current),
        ) is None,
{
}

/// The sources that are stepped through are the enabled ones.
pub proof fn law_the_enabled_sources_are_listed(config: Config, list: Seq<Source>, source: Source)
    requires
        config.is_source_order(list),
    ensures
        list.contains(source) <==> config.sources.spec_enabled(source),
{
    if list.contains(source) {
        let k = choose|k: int| 0 <= k < list.len() && list[k] == source;
        assert(config.sources.spec_enabled(list[k]));
    }
}

/// The sources that are stepped through come each once, in the configured order; those with one
/// place there, such as those that it leaves out, are in an order of their own.
pub proof fn law_sources_are_listed_in_the_configured_order(
    config: Config,
    list: Seq<Source>,
    a: int,
    b: int,
)
    requires
        config.is_source_order(list),
        0 <= a < b < list.len(),
    ensures
        list[a] != list[b],
        config.picker.spec_source_rank(list[a]) <= config.picker.spec_source_rank(list[b]),
        config.picker.spec_source_rank(list[a]) == config.picker.spec_source_rank(list[b])
            ==> place(list[a]) < place(list[b]),
        place(Source::Workspace) < place(Source::Agent) < place(Source::Project) < place(
            Source::Zoxide,
        ) < place(Source::Root) < place(Source::Server) < place(Source::Session) < place(
            Source::QuickAction,
        ) < place(Source::Integration),
{
    assert(config.source_before(list[a], list[b]));
}

/// The sort that Herdr's settings name: a text under `ui`, or at the top where there is none under
/// `ui`. Where there is no text it is `spaces`.
pub proof fn law_the_panel_sort_is_read_from_the_settings(
    settings: DataView,
    ui: DataView,
    sort: Seq<char>,
)
    ensures
        settings.member("ui"@) == Some(ui) && ui.member("agent_panel_sort"@) == Some(
            DataView::Text(sort),
        ) ==> panel_sort_of(Some(settings)) == sort,
        settings.member("ui"@) == Some(ui) && ui.member("agent_panel_sort"@) is Some && ui.member(
            "agent_panel_sort"@,
        )->0 !is Text ==> panel_sort_of(Some(settings)) == "spaces"@,
        (settings.member("ui"@) is None || (settings.member("ui"@) == Some(ui) && ui.member(
            "agent_panel_sort"@,
        ) is None)) && settings.member("agent_panel_sort"@) == Some(DataView::Text(sort))
            ==> panel_sort_of(Some(settings)) == sort,
        (settings.member("ui"@) is None || (settings.member("ui"@) == Some(ui) && ui.member(
            "agent_panel_sort"@,
        ) is None)) && settings.member_text("agent_panel_sort"@) is None ==> panel_sort_of(
            Some(settings),
        ) == "spaces"@,
        panel_sort_of(None) == "spaces"@,
{
}

/// A setting of its own decides how agents are sorted; anything else leaves it to Herdr's panel.
pub proof fn law_the_setting_decides_the_sort(setting: Seq<char>, panel_sort: Seq<char>)
    ensures
        sort_of("priority"@, panel_sort) == "priority"@,
        sort_of("spaces"@, panel_sort) == "spaces"@,
        setting != "priority"@ && setting != "spaces"@ ==> sort_of(setting, panel_sort)
            == panel_sort,
{
}

/// The pins are the keys that the stored list holds; what cannot be read is reported.
pub proof fn law_pins_are_those_listed(list: Seq<Seq<char>>, error: Seq<char>, key: Seq<char>)
    ensures
        pins_in(Ok(list)) is Ok,
        pins_in(Ok(list))->Ok_0.contains(key) <==> list.contains(key),
        pins_in(Err(error)) == Err::<Set<Seq<char>>, Seq<char>>(
            "failed to parse pinned entries: "@ + error,
        ),
{
}

/// A listing of a set has each of its texts once, in order, and nothing else.
pub proof fn law_sets_are_listed_in_order(
    list: Seq<Seq<char>>,
    set: Set<Seq<char>>,
    a: int,
    b: int,
    text: Seq<char>,
)
    requires
        is_listing(list, set),
    ensures
        list.contains(text) <==> set.contains(text),
        0 <= a < b < list.len() ==> text_less(list[a], list[b]) && list[a] != list[b],
{
    assert(list.to_set().contains(text) == list.contains(text));
    if 0 <= a < b < list.len() {
        lemma_text_asymmetric(list[a], list[b]);
    }
}

/// What a tree holds is what it was made of.
pub proof fn law_trees_hold_what_they_are_made_of(
    text: String,
    flag: bool,
    number: Option<u64>,
    items: Vec<Data>,
    members: Vec<(String, Data)>,
    i: int,
)
    ensures
        Data::Text(text)@ == DataView::Text(text@),
        Data::Bool(flag)@ == DataView::Bool(flag),
        Data::Number(number)@ == DataView::Number(number),
        Data::List(items)@ is List,
        Data::List(items)@->List_0.len() == items@.len(),
        0 <= i < items@.len() ==> Data::List(items)@->List_0[i] == items@[i]@,
        Data::Table(members)@ is Table,
        Data::Table(members)@->Table_0.len() == members@.len(),
        0 <= i < members@.len() ==> Data::Table(members)@->Table_0[i] == (
            members@[i].0@,
            members@[i].1@,
        ),
{
}

/// Without settings everything is on: all sources, previews with the git status, reuse and creation
/// of workspaces, labels with their kind, and jumping back.
pub proof fn law_everything_is_on_by_default(config: Config, source: Source)
    requires
        is_default(config),
    ensures
        source != Source::Tab && source != Source::Pane ==> config.sources.spec_enabled(source),
        config.picker.preview && config.picker.preview_git_status,
        config.picker.reuse_existing && config.picker.create_missing,
        config.picker.prefix_workspace_labels,
        config.picker.preview_tree_depth == 2 && config.picker.preview_scrollback_lines == 200,
        config.jump_back.enabled && config.jump_back.pin_previous,
        bonus_for(config.picker.source_bonuses@, source) == 0,
        config.picker.directory_template is None,
        config.picker.engine@ == "fuzzy"@,
        config.picker.agent_sort@ == "herdr"@,
        contents(config.picker.source_order@) == seq![
            Source::Workspace.spec_name(),
            Source::Agent.spec_name(),
            Source::Project.spec_name(),
            Source::Zoxide.spec_name(),
            Source::Root.spec_name(),
            Source::Server.spec_name(),
            Source::Session.spec_name(),
            Source::QuickAction.spec_name(),
            Source::Integration.spec_name(),
        ],
{
}

/// A state without an expanded tree is sound where there are indices for its rows and the scores of
/// matching entries stay in range with their bonus.
pub proof fn law_collapsed_states_are_sound(app: App)
    requires
        app.expanded@ == Set::<Seq<char>>::empty(),
        app.entries@.len() + app.child_entries@.len() <= usize::MAX,
        forall|i: int|
            0 <= i < app.entries@.len() && i < app.match_scores@.len() && (
            #[trigger] app.match_scores@[i]) is Some ==> i64::MIN <= app.match_scores@[i]->0
                + bonus_for(app.config.picker.source_bonuses@, app.entries@[i].source) <= i64::MAX,
    ensures
        app.wf(),
{
    lemma_collapsed_finite(app);
    assert forall|i: int| 0 <= i < app.entries@.len() implies #[trigger] app.score_fits(i) by {
        if i < app.match_scores@.len() {
            assert(app.match_score(i) == app.match_scores@[i]);
        }
    }
}

/// In a sound state the score of every listed entry with plain words is in range.
pub proof fn law_sound_states_have_scores_in_range(app: App, list: Seq<usize>, k: int)
    requires
        app.wf(),
        app.is_ranking(list),
        0 <= k < list.len(),
        app.asked().plain.len() > 0,
    ensures
        i64::MIN <= app.score(list[k] as int) <= i64::MAX,
{
    assert(app.is_listed(list[k] as int));
    assert(app.score_fits(list[k] as int));
}

/// A tree in which an entry opens a row that opens itself is not finite.
pub proof fn law_a_row_under_itself_is_not_finite(
    entries: Seq<EntryView>,
    children: Seq<EntryView>,
    expanded: Set<Seq<char>>,
    i: int,
    c: int,
)
    requires
        0 <= i < entries.len(),
        0 <= c < children.len(),
        opens(children, expanded, entries[i], c),
        opens(children, expanded, children[c], c),
    ensures
        !is_finite_tree(entries, children, expanded),
{
    if is_finite_tree(entries, children, expanded) {
        let ranks = choose|ranks: Seq<Option<nat>>|
            covers_entries(entries, children, expanded, ranks);
        assert(is_covered(entries, children, expanded, ranks, i));
        assert(is_ranked(children, expanded, ranks));
        assert(ranks[c] is Some);
    }
}

} // verus!
