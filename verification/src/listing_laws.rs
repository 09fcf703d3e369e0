//! What holds of searching and ranking: which entries a query lists, and in which order.

use crate::app::App;
use crate::config::{bonus_for, name_rank, PickerConfig, SourceBonus};
use crate::laws::{law_unfiltered_lists_everything, lemma_blank_has_no_words};
use crate::model::{EntryView, Source};
use crate::query::{
    marked, or_empty, parsed, plain_tokens, query_of, starts, status_rank, tokens_of, QueryView,
};
use crate::text::{before, content, contents, has_part, joined, lowercase, trimmed, utf8_lossy, words};
use crate::text_laws::{
    law_joined, law_joined_holds_each_piece, law_no_words_is_white_space,
    law_trimming_white_space_leaves_nothing,
};
use crate::tree::rows;
use crate::tree_laws::{law_tree_keeps_the_list, rows_below};
use vstd::prelude::*;

verus! {

proof fn lemma_marked_has(tokens: Seq<Seq<char>>, mark: char, i: int, rest: Seq<char>)
    requires
        0 <= i < tokens.len(),
        tokens[i] == seq![mark] + rest,
        rest.len() > 0,
    ensures
        exists|k: int| 0 <= k < marked(tokens, mark).len() && marked(tokens, mark)[k] == rest,
    decreases tokens.len(),
{
    let init = tokens.drop_last();
    if i == tokens.len() - 1 {
        assert(tokens.last().drop_first() =~= rest);
        assert(marked(tokens, mark)[marked(init, mark).len() as int] == rest);
    } else {
        lemma_marked_has(init, mark, i, rest);
        let k = choose|k: int| 0 <= k < marked(init, mark).len() && marked(init, mark)[k] == rest;
        assert(marked(tokens, mark)[k] == rest);
    }
}

proof fn lemma_marked_from(tokens: Seq<Seq<char>>, mark: char, k: int) -> (i: int)
    requires
        0 <= k < marked(tokens, mark).len(),
    ensures
        0 <= i < tokens.len(),
        tokens[i] == seq![mark] + marked(tokens, mark)[k],
        marked(tokens, mark)[k].len() > 0,
    decreases tokens.len(),
{
    let init = tokens.drop_last();
    if k < marked(init, mark).len() {
        lemma_marked_from(init, mark, k)
    } else {
        assert(tokens.last() =~= seq![mark] + tokens.last().drop_first());
        tokens.len() - 1
    }
}

/// What a query says of one more word goes by the mark that the word starts with, and leaves the
/// rest as it was. A mark alone asks for nothing, but for `@`, which asks for agents.
pub proof fn law_a_word_is_read_by_its_mark(tokens: Seq<Seq<char>>, word: Seq<char>, rest: Seq<char>)
    ensures
        word == seq!['!'] + rest ==> query_of(tokens.push(word)) == (QueryView {
            agent: if rest.len() > 0 {
                query_of(tokens).agent.push(rest)
            } else {
                query_of(tokens).agent
            },
            ..query_of(tokens)
        }),
        word == seq!['/'] + rest ==> query_of(tokens.push(word)) == (QueryView {
            path: if rest.len() > 0 {
                query_of(tokens).path.push(rest)
            } else {
                query_of(tokens).path
            },
            ..query_of(tokens)
        }),
        word == seq!['#'] + rest ==> query_of(tokens.push(word)) == (QueryView {
            status: if rest.len() > 0 {
                query_of(tokens).status.push(rest)
            } else {
                query_of(tokens).status
            },
            ..query_of(tokens)
        }),
        word == seq!['@'] + rest && rest.len() > 0 ==> query_of(tokens.push(word)) == (
        QueryView {
            workspace_or_status: query_of(tokens).workspace_or_status.push(rest),
            ..query_of(tokens)
        }),
        word == seq!['@'] ==> query_of(tokens.push(word)) == (QueryView {
            all_agents: true,
            ..query_of(tokens)
        }),
        query_of(Seq::empty()) == (QueryView {
            plain: Seq::empty(),
            agent: Seq::empty(),
            workspace_or_status: Seq::empty(),
            path: Seq::empty(),
            status: Seq::empty(),
            all_agents: false,
        }),
{
    let more = tokens.push(word);
    assert(more.drop_last() =~= tokens);
    assert(more.last() == word);
    assert(word == seq!['!'] + rest || word == seq!['/'] + rest || word == seq!['#'] + rest || word
        == seq!['@'] + rest ==> word.drop_first() =~= rest);
    assert(forall|i: int| 0 <= i < tokens.len() ==> more[i] == tokens[i]);
    if query_of(tokens).all_agents {
        let i = choose|i: int|
            0 <= i < tokens.len() && starts(#[trigger] tokens[i], '@') && tokens[i].len() == 1;
        assert(starts(more[i], '@') && more[i].len() == 1);
    }
    if word == seq!['@'] {
        assert(starts(more[tokens.len() as int], '@'));
    }
    assert(plain_tokens(Seq::empty()) =~= Seq::empty());
    assert(joined(Seq::empty(), " "@) =~= Seq::empty());
}

/// A word without a mark joins the plain words, with a space between, and leaves the rest as it was.
pub proof fn law_plain_words_are_kept(tokens: Seq<Seq<char>>, word: Seq<char>)
    requires
        word.len() > 0,
        word[0] != '!' && word[0] != '@' && word[0] != '/' && word[0] != '#',
    ensures
        query_of(tokens).plain.len() > 0 ==> query_of(tokens.push(word)).plain == query_of(
            tokens,
        ).plain + " "@ + word,
        has_part(query_of(tokens.push(word)).plain, word),
        query_of(seq![word]).plain == word,
        query_of(tokens.push(word)) == (QueryView {
            plain: query_of(tokens.push(word)).plain,
            ..query_of(tokens)
        }),
{
    let more = tokens.push(word);
    assert(more.drop_last() =~= tokens);
    assert(more.last() == word);
    assert(forall|i: int| 0 <= i < tokens.len() ==> more[i] == tokens[i]);
    let head = plain_tokens(tokens);
    assert(plain_tokens(more) == head.push(word));
    assert(head.push(word) =~= head + seq![word]);
    law_joined(head, seq![word], " "@);
    law_joined_holds_each_piece(head.push(word), " "@, head.len() as int);
    law_joined(seq![word], Seq::empty(), " "@);
    let one = seq![word];
    assert(one.drop_last() =~= Seq::empty());
    assert(plain_tokens(one.drop_last()) =~= Seq::empty());
    assert(plain_tokens(one) =~= seq![word]);
    if query_of(tokens).all_agents {
        let i = choose|i: int|
            0 <= i < tokens.len() && starts(#[trigger] tokens[i], '@') && tokens[i].len() == 1;
        assert(starts(more[i], '@') && more[i].len() == 1);
    }
}

/// What each marked word of a query asks of an entry that is listed: `#` asks for an agent with that
/// status, `!` for an agent of that name, `@` for an agent in that workspace or with that status, `/`
/// for that path.
pub proof fn law_marked_words_choose_the_entries(
    app: App,
    list: Seq<usize>,
    k: int,
    i: int,
    rest: Seq<char>,
)
    requires
        app.is_ranking(list),
        0 <= k < list.len(),
        0 <= i < words(app.query@).len(),
        rest.len() > 0,
    ensures
        list[k] < app.entries@.len(),
        or_empty(None).len() == 0,
        or_empty(Some(rest)) == rest,
        lowercase(words(app.query@)[i]) == seq!['#'] + rest ==> {
            let entry = app.entries@[list[k] as int];
            &&& entry.source == Source::Agent
            &&& has_part(lowercase(lowercase(trimmed(before(entry.subtitle@, '·')))), rest)
        },
        lowercase(words(app.query@)[i]) == seq!['!'] + rest ==> {
            let entry = app.entries@[list[k] as int];
            &&& entry.source == Source::Agent
            &&& has_part(lowercase(before(entry.title@, '·')), rest)
        },
        lowercase(words(app.query@)[i]) == seq!['@'] + rest ==> {
            let entry = app.entries@[list[k] as int];
            &&& entry.source == Source::Agent
            &&& has_part(
                lowercase(
                    or_empty(content(entry.workspace_id)) + " "@ + or_empty(
                        content(entry.workspace_label),
                    ) + " "@ + entry.title@,
                ),
                rest,
            ) || has_part(lowercase(lowercase(trimmed(before(entry.subtitle@, '·')))), rest)
        },
        lowercase(words(app.query@)[i]) == seq!['@'] ==> app.entries@[list[k] as int].source
            == Source::Agent,
        lowercase(words(app.query@)[i]) == seq!['/'] + rest ==> has_part(
            lowercase(utf8_lossy(app.entries@[list[k] as int].path@)),
            rest,
        ),
{
    let tokens = tokens_of(app.query@);
    let word = tokens[i];
    let entry = app.entries@[list[k] as int];
    assert(app.is_listed(list[k] as int));
    assert(app.asked().filters_match(entry@));
    assert(word == lowercase(words(app.query@)[i]));
    if word == seq!['#'] + rest {
        lemma_marked_has(tokens, '#', i, rest);
    }
    if word == seq!['!'] + rest {
        lemma_marked_has(tokens, '!', i, rest);
    }
    if word == seq!['@'] + rest {
        lemma_marked_has(tokens, '@', i, rest);
    }
    if word == seq!['/'] + rest {
        lemma_marked_has(tokens, '/', i, rest);
    }
    if word == seq!['@'] {
        assert(starts(tokens[i], '@') && tokens[i].len() == 1);
    }
}

/// An entry that has what every marked word asks for is listed, where its source is singled out or
/// none is, and the matcher takes it where there are plain words.
pub proof fn law_matching_entries_are_listed(app: App, list: Seq<usize>, at: int)
    requires
        app.is_ranking(list),
        0 <= at < app.entries@.len() <= usize::MAX,
        app.source_filter is None || app.source_filter == Some(app.entries@[at].source),
        app.asked().plain.len() > 0 ==> at < app.match_scores@.len() && app.match_scores@[at] is Some,
        forall|i: int, rest: Seq<char>|
            0 <= i < words(app.query@).len() && rest.len() > 0 && #[trigger] lowercase(
                words(app.query@)[i],
            ) == #[trigger] (seq!['#'] + rest) ==> app.entries@[at].source == Source::Agent
                && has_part(
                lowercase(lowercase(trimmed(before(app.entries@[at].subtitle@, '·')))),
                rest,
            ),
        forall|i: int, rest: Seq<char>|
            0 <= i < words(app.query@).len() && rest.len() > 0 && #[trigger] lowercase(
                words(app.query@)[i],
            ) == #[trigger] (seq!['!'] + rest) ==> app.entries@[at].source == Source::Agent
                && has_part(lowercase(before(app.entries@[at].title@, '·')), rest),
        forall|i: int, rest: Seq<char>|
            0 <= i < words(app.query@).len() && rest.len() > 0 && #[trigger] lowercase(
                words(app.query@)[i],
            ) == #[trigger] (seq!['@'] + rest) ==> app.entries@[at].source == Source::Agent && (
            has_part(
                lowercase(
                    or_empty(content(app.entries@[at].workspace_id)) + " "@ + or_empty(
                        content(app.entries@[at].workspace_label),
                    ) + " "@ + app.entries@[at].title@,
                ),
                rest,
            ) || has_part(
                lowercase(lowercase(trimmed(before(app.entries@[at].subtitle@, '·')))),
                rest,
            )),
        forall|i: int|
            0 <= i < words(app.query@).len() && #[trigger] lowercase(words(app.query@)[i])
                == seq!['@'] ==> app.entries@[at].source == Source::Agent,
        forall|i: int, rest: Seq<char>|
            0 <= i < words(app.query@).len() && rest.len() > 0 && #[trigger] lowercase(
                words(app.query@)[i],
            ) == #[trigger] (seq!['/'] + rest) ==> has_part(
                lowercase(utf8_lossy(app.entries@[at].path@)),
                rest,
            ),
    ensures
        list.contains(at as usize),
{
    let tokens = tokens_of(app.query@);
    let asked = app.asked();
    let entry = app.entries@[at];
    assert(forall|i: int| 0 <= i < tokens.len() ==> tokens[i] == lowercase(words(app.query@)[i]));
    assert forall|k: int| 0 <= k < asked.status.len() implies entry.source == Source::Agent
        && has_part(lowercase(entry@.status_text()), #[trigger] asked.status[k]) by {
        let i = lemma_marked_from(tokens, '#', k);
        assert(lowercase(words(app.query@)[i]) == seq!['#'] + asked.status[k]);
    }
    assert forall|k: int| 0 <= k < asked.agent.len() implies entry.source == Source::Agent
        && has_part(lowercase(entry@.agent_text()), #[trigger] asked.agent[k]) by {
        let i = lemma_marked_from(tokens, '!', k);
        assert(lowercase(words(app.query@)[i]) == seq!['!'] + asked.agent[k]);
    }
    assert forall|k: int| 0 <= k < asked.workspace_or_status.len() implies entry.source
        == Source::Agent && (has_part(
        lowercase(entry@.workspace_text()),
        #[trigger] asked.workspace_or_status[k],
    ) || has_part(lowercase(entry@.status_text()), asked.workspace_or_status[k])) by {
        let i = lemma_marked_from(tokens, '@', k);
        assert(lowercase(words(app.query@)[i]) == seq!['@'] + asked.workspace_or_status[k]);
    }
    assert forall|k: int| 0 <= k < asked.path.len() implies has_part(
        lowercase(entry@.path),
        #[trigger] asked.path[k],
    ) by {
        let i = lemma_marked_from(tokens, '/', k);
        assert(lowercase(words(app.query@)[i]) == seq!['/'] + asked.path[k]);
    }
    if asked.all_agents {
        let i = choose|i: int|
            0 <= i < tokens.len() && starts(#[trigger] tokens[i], '@') && tokens[i].len() == 1;
        assert(tokens[i] =~= seq!['@']);
        assert(lowercase(words(app.query@)[i]) == seq!['@']);
    }
    if asked.asks_for_agents() && !asked.all_agents {
        if asked.agent.len() > 0 {
            assert(has_part(lowercase(entry@.agent_text()), asked.agent[0]));
        } else if asked.status.len() > 0 {
            assert(has_part(lowercase(entry@.status_text()), asked.status[0]));
        } else {
            let token = asked.workspace_or_status[0];
            assert(has_part(lowercase(entry@.workspace_text()), token) || has_part(
                lowercase(entry@.status_text()),
                token,
            ));
        }
    }
    assert(app.passes(entry));
    assert(app.is_listed(at));
    let index = at as usize;
    assert(app.is_listed(index as int));
}

/// What is listed is an entry, from the source that is singled out where one is, and taken by the
/// matcher where there are plain words.
pub proof fn law_listed_entries_match(app: App, list: Seq<usize>, k: int)
    requires
        app.is_ranking(list),
        0 <= k < list.len(),
    ensures
        list[k] < app.entries@.len(),
        app.source_filter is Some ==> app.entries@[list[k] as int].source == app.source_filter->0,
        app.asked().plain.len() > 0 ==> list[k] < app.match_scores@.len()
            && app.match_scores@[list[k] as int] is Some,
{
    assert(app.is_listed(list[k] as int));
}

/// No entry is listed twice.
pub proof fn law_each_entry_is_listed_once(app: App, list: Seq<usize>, a: int, b: int)
    requires
        app.is_ranking(list),
        0 <= a < b < list.len(),
    ensures
        list[a] != list[b],
{
    assert(app.before(list[a] as int, list[b] as int));
}

/// A query is read from its words in lower case; one plain word alone is what is searched for.
pub proof fn law_queries_are_read_in_lower_case(input: Seq<char>)
    ensures
        parsed(input) == query_of(
            Seq::new(words(input).len(), |k: int| lowercase(words(input)[k])),
        ),
        words(input).len() == 1 && lowercase(words(input)[0]).len() > 0 && lowercase(
            words(input)[0],
        )[0] != '!' && lowercase(words(input)[0])[0] != '@' && lowercase(words(input)[0])[0] != '/'
            && lowercase(words(input)[0])[0] != '#' ==> parsed(input).plain == lowercase(
            words(input)[0],
        ),
        words(input).len() == 0 ==> parsed(input).plain.len() == 0,
{
    let tokens = tokens_of(input);
    if words(input).len() == 1 {
        assert(tokens =~= seq![lowercase(words(input)[0])]);
        let word = lowercase(words(input)[0]);
        if word.len() > 0 && word[0] != '!' && word[0] != '@' && word[0] != '/' && word[0] != '#' {
            law_plain_words_are_kept(Seq::empty(), word);
        }
    }
    if words(input).len() == 0 {
        assert(tokens =~= Seq::empty());
        law_a_word_is_read_by_its_mark(tokens, Seq::empty(), Seq::empty());
    }
}

/// Between entries that are neither put first nor pinned differently, the higher score comes first,
/// and of equal scores the source that the configured order names first.
pub proof fn law_scores_then_sources(app: App, list: Seq<usize>, a: int, b: int)
    requires
        app.is_ranking(list),
        0 <= a < b < list.len(),
        app.is_previous(list[a] as int) == app.is_previous(list[b] as int),
        app.has_pin(app.entries@[list[a] as int]@) == app.has_pin(app.entries@[list[b] as int]@),
    ensures
        app.score(list[a] as int) >= app.score(list[b] as int),
        app.score(list[a] as int) == app.score(list[b] as int)
            ==> app.config.picker.spec_source_rank(app.entries@[list[a] as int].source)
            <= app.config.picker.spec_source_rank(app.entries@[list[b] as int].source),
{
    assert(app.before(list[a] as int, list[b] as int));
}

/// With plain words the score is what the matcher gave and the bonus of the source. Without, it is
/// the bonus, and for agents that are sorted by urgency the urgency on top.
pub proof fn law_scores_add_up(app: App, i: int, score: i64)
    requires
        0 <= i < app.entries@.len(),
    ensures
        app.asked().plain.len() > 0 && i < app.match_scores@.len() && app.match_scores@[i] == Some(
            score,
        ) ==> app.score(i) == score + bonus_for(
            app.config.picker.source_bonuses@,
            app.entries@[i].source,
        ),
        app.asked().plain.len() == 0 && app.entries@[i].source != Source::Agent ==> app.score(i)
            == bonus_for(app.config.picker.source_bonuses@, app.entries@[i].source),
        app.asked().plain.len() == 0 && app.entries@[i].source == Source::Agent ==> app.score(i)
            == bonus_for(app.config.picker.source_bonuses@, Source::Agent) + (
        if app.uses_agent_priority() {
            status_rank(lowercase(trimmed(before(app.entries@[i].subtitle@, '·'))))
        } else {
            0
        }),
{
}

/// When agents are sorted by urgency: never with plain words or with another source singled out, and
/// else where the setting says so, or says nothing and Herdr's panel does.
pub proof fn law_urgency_counts_by_the_settings(app: App)
    ensures
        app.asked().plain.len() > 0 ==> !app.uses_agent_priority(),
        app.source_filter is Some && app.source_filter->0 != Source::Agent
            && !app.asked().all_agents ==> !app.uses_agent_priority(),
        app.asked().plain.len() == 0 && (app.source_filter is None || app.source_filter == Some(
            Source::Agent,
        ) || app.asked().all_agents) ==> {
            &&& lowercase(app.config.picker.agent_sort@) == "priority"@ ==> app.uses_agent_priority()
            &&& lowercase(app.config.picker.agent_sort@) == "spaces"@ ==> !app.uses_agent_priority()
            &&& lowercase(app.config.picker.agent_sort@) != "priority"@ && lowercase(
                app.config.picker.agent_sort@,
            ) != "spaces"@ ==> (app.uses_agent_priority() <==> app.panel_sort@ == "priority"@)
        },
{
    reveal_strlit("priority");
    reveal_strlit("spaces");
    assert("priority"@.len() == 8);
    assert("spaces"@.len() == 6);
}

/// How urgent a status is: each level is the one of the words that name it, or of a higher one.
pub proof fn law_urgency_of_a_status(status: Seq<char>)
    ensures
        0 <= status_rank(status) <= 4,
        status_rank(status) == 4 <==> has_part(status, "block"@) || has_part(status, "fail"@)
            || has_part(status, "error"@),
        status_rank(status) >= 3 <==> status_rank(status) == 4 || has_part(status, "need"@)
            || has_part(status, "attention"@) || has_part(status, "review"@) || has_part(
            status,
            "request"@,
        ) || has_part(status, "question"@) || has_part(status, "wait"@),
        status_rank(status) >= 2 <==> status_rank(status) >= 3 || has_part(status, "done"@)
            || has_part(status, "complete"@),
        status_rank(status) >= 1 <==> status_rank(status) >= 2 || has_part(status, "work"@)
            || has_part(status, "run"@),
{
}

/// The bonus of a source is that of the first item that names it; without one it is nothing.
pub proof fn law_bonus_is_the_first_for_the_source(
    bonuses: Seq<SourceBonus>,
    source: Source,
    i: int,
)
    ensures
        0 <= i < bonuses.len() && bonuses[i].source == source && (forall|j: int|
            0 <= j < i ==> #[trigger] bonuses[j].source != source) ==> bonus_for(bonuses, source)
            == bonuses[i].bonus,
        (forall|j: int| 0 <= j < bonuses.len() ==> #[trigger] bonuses[j].source != source)
            ==> bonus_for(bonuses, source) == 0,
    decreases bonuses.len(),
{
    if bonuses.len() > 0 && bonuses[0].source != source {
        let rest = bonuses.drop_first();
        law_bonus_is_the_first_for_the_source(rest, source, i - 1);
        assert(forall|j: int| 0 <= j < rest.len() ==> #[trigger] rest[j] == bonuses[j + 1]);
    }
}

/// The rank of a source is the position at which the configured order first names it, or the end
/// where it does not.
pub proof fn law_rank_is_the_position(picker: PickerConfig, source: Source)
    ensures
        picker.spec_source_rank(source) <= picker.source_order@.len(),
        picker.spec_source_rank(source) < picker.source_order@.len()
            ==> picker.source_order@[picker.spec_source_rank(source) as int]@ == source.spec_name(),
        forall|i: int|
            0 <= i < picker.spec_source_rank(source) ==> #[trigger] picker.source_order@[i]@
                != source.spec_name(),
{
    let names = contents(picker.source_order@);
    lemma_name_rank(names, source.spec_name());
    assert(forall|i: int|
        0 <= i < names.len() ==> #[trigger] picker.source_order@[i]@ == names[i]);
}

proof fn lemma_name_rank(names: Seq<Seq<char>>, name: Seq<char>)
    ensures
        name_rank(names, name) <= names.len(),
        name_rank(names, name) < names.len() ==> names[name_rank(names, name) as int] == name,
        forall|i: int| 0 <= i < name_rank(names, name) ==> #[trigger] names[i] != name,
    decreases names.len(),
{
    if names.len() > 0 && names[0] != name {
        let rest = names.drop_first();
        lemma_name_rank(rest, name);
        assert(forall|j: int| 0 <= j < rest.len() ==> #[trigger] rest[j] == names[j + 1]);
        assert forall|i: int| 0 <= i < name_rank(names, name) implies #[trigger] names[i]
            != name by {
            if i > 0 {
                assert(rest[i - 1] != name);
            }
        }
    }
}

/// The list is unfiltered exactly where the query has no words and no source is singled out.
pub proof fn law_unfiltered_is_without_words(app: App)
    ensures
        app.is_unfiltered() <==> words(app.query@).len() == 0 && app.source_filter is None,
{
    if trimmed(app.query@).len() == 0 {
        lemma_blank_has_no_words(app.query@);
    }
    if words(app.query@).len() == 0 {
        law_no_words_is_white_space(app.query@);
        law_trimming_white_space_leaves_nothing(app.query@);
    }
}

/// The previous workspace is put first where both settings say so, the list is unfiltered, and the
/// entry is the workspace of that identifier; a pin holds by the identity of an entry.
pub proof fn law_what_is_put_first(app: App, i: int)
    requires
        0 <= i < app.entries@.len(),
    ensures
        app.is_previous(i) <==> app.config.jump_back.enabled && app.config.jump_back.pin_previous
            && words(app.query@).len() == 0 && app.source_filter is None && app.entries@[i].source
            == Source::Workspace && content(app.entries@[i].workspace_id) == content(
            app.previous_workspace_id,
        ),
        app.has_pin(app.entries@[i]@) <==> app.pinned_entries@.contains(
            app.entries@[i]@.identity_key(),
        ),
{
    law_unfiltered_is_without_words(app);
}

/// What is shown of a search is the ranking, each row with the score of its entry.
pub proof fn law_a_search_shows_the_ranking(app: App, k: int)
    requires
        app.is_ranking(app.ranking()),
        app.shows(app.listing()),
        !app.is_unfiltered(),
        app.wf(),
        0 <= k < app.filtered@.len(),
    ensures
        app.filtered@ == app.ranking(),
        app.filtered_scores@[k] == app.score(app.filtered@[k] as int) as i64,
{
    let listing = app.listing();
    let shown = rows(app.filtered@, app.filtered_scores@);
    assert(shown.len() == listing.len());
    assert forall|j: int| 0 <= j < app.filtered@.len() implies app.filtered@[j]
        == app.ranking()[j] by {
        assert(shown[j] == listing[j]);
    }
    assert(app.filtered@ =~= app.ranking());
    assert(shown[k] == listing[k]);
}

/// What is shown without a search has the ranking in it, in its order, each entry with its score. All
/// else that is shown are rows of the tree.
pub proof fn law_an_unfiltered_list_shows_the_ranking(app: App)
    requires
        app.is_ranking(app.ranking()),
        app.shows(app.listing()),
        app.is_unfiltered(),
    ensures
        rows_below(rows(app.filtered@, app.filtered_scores@), app.entries@.len() as int) == Seq::new(
            app.ranking().len(),
            |k: int| (app.ranking()[k] as int, app.score(app.ranking()[k] as int) as i64),
        ),
        app.filtered@.len() == app.filtered_scores@.len(),
{
    law_tree_keeps_the_list(app);
}

proof fn lemma_row_is_below(list: Seq<(int, i64)>, n: int, row: (int, i64))
    requires
        rows_below(list, n).contains(row),
    ensures
        list.contains(row),
    decreases list.len(),
{
    let k = choose|k: int| 0 <= k < rows_below(list, n).len() && rows_below(list, n)[k] == row;
    let init = list.drop_last();
    if list.last() == row {
        assert(list[list.len() - 1] == row);
    } else {
        assert(rows_below(init, n)[k] == row);
        lemma_row_is_below(init, n, row);
        let j = choose|j: int| 0 <= j < init.len() && init[j] == row;
        assert(list[j] == row);
    }
}

/// Without words in the query and a singled-out source every entry has a row in the list.
pub proof fn law_every_entry_is_shown_unfiltered(app: App, i: int)
    requires
        app.is_ranking(app.ranking()),
        app.shows(app.listing()),
        words(app.query@).len() == 0,
        app.source_filter is None,
        0 <= i < app.entries@.len() <= usize::MAX,
    ensures
        app.filtered@.contains(i as usize),
{
    law_unfiltered_is_without_words(app);
    law_unfiltered_lists_everything(app, i);
    let index = i as usize;
    assert(app.is_listed(index as int));
    assert(app.ranking().contains(index));
    let at = choose|at: int| 0 <= at < app.ranking().len() && app.ranking()[at] == index;
    let row = app.flat_rows()[at];
    law_tree_keeps_the_list(app);
    assert(rows_below(app.listing(), app.entries@.len() as int)[at] == row);
    lemma_row_is_below(app.listing(), app.entries@.len() as int, row);
    let k = choose|k: int| 0 <= k < app.listing().len() && app.listing()[k] == row;
    assert(rows(app.filtered@, app.filtered_scores@)[k] == row);
    assert(app.filtered@[k] == index);
}

/// A search finds an entry by its title, its subtitle, its path and each of its further terms.
pub proof fn law_haystack_holds_what_is_searched(entry: EntryView, k: int)
    ensures
        has_part(entry.haystack(), entry.title),
        has_part(entry.haystack(), entry.subtitle),
        has_part(entry.haystack(), entry.path),
        0 <= k < entry.search_terms.len() ==> has_part(entry.haystack(), entry.search_terms[k]),
        entry.search_terms.len() == 0 ==> entry.haystack() == entry.title + " "@ + entry.subtitle
            + " "@ + entry.path,
        entry.search_terms.len() > 0 ==> entry.haystack() == entry.title + " "@ + entry.subtitle
            + " "@ + entry.path + " "@ + joined(entry.search_terms, " "@),
{
    let first = seq![entry.title, entry.subtitle, entry.path];
    let parts = first + entry.search_terms;
    law_joined_holds_each_piece(parts, " "@, 0);
    law_joined_holds_each_piece(parts, " "@, 1);
    law_joined_holds_each_piece(parts, " "@, 2);
    if 0 <= k < entry.search_terms.len() {
        law_joined_holds_each_piece(parts, " "@, 3 + k);
        assert(parts[3 + k] == entry.search_terms[k]);
    }
    law_joined(first, entry.search_terms, " "@);
    law_joined(seq![entry.title, entry.subtitle], seq![entry.path], " "@);
    law_joined(seq![entry.title], seq![entry.subtitle], " "@);
    law_joined(seq![entry.title], Seq::empty(), " "@);
    law_joined(seq![entry.subtitle], Seq::empty(), " "@);
    law_joined(seq![entry.path], Seq::empty(), " "@);
    assert(seq![entry.title] + seq![entry.subtitle] =~= seq![entry.title, entry.subtitle]);
    assert(seq![entry.title, entry.subtitle] + seq![entry.path] =~= first);
    if entry.search_terms.len() == 0 {
        assert(parts =~= first);
    }
}

} // verus!
