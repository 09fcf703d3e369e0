//! Search queries: plain words and marked tokens.

use crate::model::{Entry, EntryView, Source};
use crate::text::{
    ascii_lowercase, before, concat3, contains, contents, has_part, is_ascii_text, join, joined,
    lowercase, split_words, text_before, trim, trimmed, words,
};
use vstd::prelude::*;
use vstd::string::StringExecFns;
use vstd::string::StrSliceExecFns;

verus! {

/// A search query, taken apart.
#[derive(Debug)]
pub struct Query {
    /// The words without a mark.
    pub plain: String,
    /// What the agent's name has to hold.
    pub agent: Vec<String>,
    /// What the workspace or the status has to hold.
    pub workspace_or_status: Vec<String>,
    /// What the path has to hold.
    pub path: Vec<String>,
    /// What the status has to hold.
    pub status: Vec<String>,
    /// Whether all agents are asked for.
    pub all_agents: bool,
}

/// What a query says.
pub struct QueryView {
    pub plain: Seq<char>,
    pub agent: Seq<Seq<char>>,
    pub workspace_or_status: Seq<Seq<char>>,
    pub path: Seq<Seq<char>>,
    pub status: Seq<Seq<char>>,
    pub all_agents: bool,
}

impl View for Query {
    type V = QueryView;

    open spec fn view(&self) -> QueryView {
        QueryView {
            plain: self.plain@,
            agent: contents(self.agent@),
            workspace_or_status: contents(self.workspace_or_status@),
            path: contents(self.path@),
            status: contents(self.status@),
            all_agents: self.all_agents,
        }
    }
}

/// Whether a token starts with a mark.
pub open spec fn starts(token: Seq<char>, mark: char) -> bool {
    token.len() > 0 && token[0] == mark
}

/// Whether a token starts with none of the marks.
pub open spec fn is_plain(token: Seq<char>) -> bool {
    !starts(token, '!') && !starts(token, '@') && !starts(token, '/') && !starts(token, '#')
}

/// The tokens without a mark, in order.
pub open spec fn plain_tokens(tokens: Seq<Seq<char>>) -> Seq<Seq<char>>
    decreases tokens.len(),
{
    if tokens.len() == 0 {
        Seq::empty()
    } else if is_plain(tokens.last()) {
        plain_tokens(tokens.drop_last()).push(tokens.last())
    } else {
        plain_tokens(tokens.drop_last())
    }
}

/// What stands behind a mark in the tokens that start with it, in order, leaving out tokens that
/// are the mark alone.
pub open spec fn marked(tokens: Seq<Seq<char>>, mark: char) -> Seq<Seq<char>>
    decreases tokens.len(),
{
    if tokens.len() == 0 {
        Seq::empty()
    } else if starts(tokens.last(), mark) && tokens.last().len() > 1 {
        marked(tokens.drop_last(), mark).push(tokens.last().drop_first())
    } else {
        marked(tokens.drop_last(), mark)
    }
}

/// The query that a list of lowercase tokens spells.
pub open spec fn query_of(tokens: Seq<Seq<char>>) -> QueryView {
    QueryView {
        plain: joined(plain_tokens(tokens), " "@),
        agent: marked(tokens, '!'),
        workspace_or_status: marked(tokens, '@'),
        path: marked(tokens, '/'),
        status: marked(tokens, '#'),
        all_agents: exists|i: int|
            0 <= i < tokens.len() && starts(#[trigger] tokens[i], '@') && tokens[i].len() == 1,
    }
}

/// The words of an input in lower case.
pub open spec fn tokens_of(input: Seq<char>) -> Seq<Seq<char>> {
    Seq::new(words(input).len(), |i: int| lowercase(words(input)[i]))
}

/// The query that an input spells.
pub open spec fn parsed(input: Seq<char>) -> QueryView {
    query_of(tokens_of(input))
}

/// Whether the text holds each of the tokens.
pub open spec fn holds_all(text: Seq<char>, tokens: Seq<Seq<char>>) -> bool {
    forall|i: int| 0 <= i < tokens.len() ==> has_part(text, #[trigger] tokens[i])
}

/// Whether each of the tokens is held by one of the two texts.
pub open spec fn hold_all(left: Seq<char>, right: Seq<char>, tokens: Seq<Seq<char>>) -> bool {
    forall|i: int|
        0 <= i < tokens.len() ==> has_part(left, #[trigger] tokens[i]) || has_part(
            right,
            tokens[i],
        )
}

impl EntryView {
    /// The status of the entry in lower case: its subtitle up to the first dot.
    pub open spec fn status_text(self) -> Seq<char> {
        lowercase(trimmed(before(self.subtitle, '·')))
    }

    /// The agent's name: the title up to the first dot.
    pub open spec fn agent_text(self) -> Seq<char> {
        before(self.title, '·')
    }

    /// What a workspace token is looked up in.
    pub open spec fn workspace_text(self) -> Seq<char> {
        or_empty(self.workspace_id) + " "@ + or_empty(self.workspace_label) + " "@ + self.title
    }
}

/// The text, or the empty one where there is none.
pub open spec fn or_empty(text: Option<Seq<char>>) -> Seq<char> {
    match text {
        Some(t) => t,
        None => Seq::empty(),
    }
}

impl QueryView {
    /// Whether the query asks for agents only.
    pub open spec fn asks_for_agents(self) -> bool {
        ||| self.all_agents
        ||| self.agent.len() > 0
        ||| self.workspace_or_status.len() > 0
        ||| self.status.len() > 0
    }

    /// Whether an entry passes the marked tokens of the query.
    pub open spec fn filters_match(self, entry: EntryView) -> bool {
        &&& self.asks_for_agents() ==> entry.source == Source::Agent
        &&& holds_all(lowercase(entry.agent_text()), self.agent)
        &&& hold_all(
            lowercase(entry.workspace_text()),
            lowercase(entry.status_text()),
            self.workspace_or_status,
        )
        &&& holds_all(lowercase(entry.path), self.path)
        &&& holds_all(lowercase(entry.status_text()), self.status)
    }

    /// The bonus that an agent's status earns.
    pub open spec fn score_bonus(self, entry: EntryView, use_agent_priority: bool) -> int {
        if entry.source == Source::Agent && use_agent_priority {
            status_rank(entry.status_text())
        } else {
            0
        }
    }
}

/// How urgent a status is.
pub open spec fn status_rank(status: Seq<char>) -> int {
    if has_part(status, "block"@) || has_part(status, "fail"@) || has_part(status, "error"@) {
        4
    } else if has_part(status, "need"@) || has_part(status, "attention"@) || has_part(
        status,
        "review"@,
    ) || has_part(status, "request"@) || has_part(status, "question"@) || has_part(
        status,
        "wait"@,
    ) {
        3
    } else if has_part(status, "done"@) || has_part(status, "complete"@) {
        2
    } else if has_part(status, "work"@) || has_part(status, "run"@) {
        1
    } else {
        0
    }
}

/// Adds a token, unless it is empty.
pub fn push_token(tokens: &mut Vec<String>, value: &str)
    ensures
        contents(final(tokens)@) == (if value@.len() > 0 {
            contents(old(tokens)@).push(value@)
        } else {
            contents(old(tokens)@)
        }),
{
    if !value.is_empty() {
        tokens.push(value.to_owned());
        assert(contents(tokens@) =~= contents(old(tokens)@).push(value@));
    }
}

/// `str::strip_prefix` for one character: what stands behind the mark.
fn strip_mark(token: &str, mark: char) -> (rest: Option<&str>)
    ensures
        match rest {
            Some(r) => starts(token@, mark) && r@ == token@.drop_first(),
            None => !starts(token@, mark),
        },
{
    let len: usize = token.unicode_len();
    if len > 0 && token.get_char(0) == mark {
        let rest: &str = token.substring_char(1, len);
        assert(rest@ =~= token@.drop_first());
        Some(rest)
    } else {
        None
    }
}

impl Query {
    /// Takes an input apart into plain words and marked tokens, all in lower case: `!` marks part of
    /// an agent's name, `@` part of a workspace or status, `/` part of a path and `#` part of a
    /// status. An `@` alone asks for all agents.
    pub fn parse(input: &str) -> (query: Query)
        ensures
            query@ == parsed(input@),
    {
        let raw: Vec<String> = split_words(input);
        let mut tokens: Vec<String> = Vec::new();
        let mut i: usize = 0;
        while i < raw.len()
            invariant
                i <= raw.len(),
                contents(raw@) == words(input@),
                tokens.len() == i,
                forall|k: int| 0 <= k < i ==> (#[trigger] tokens@[k])@ == tokens_of(input@)[k],
            decreases raw.len() - i,
        {
            tokens.push(raw[i].as_str().to_lowercase());
            assert(contents(raw@)[i as int] == raw@[i as int]@);
            i += 1;
        }
        assert(contents(raw@).len() == raw.len());
        assert(contents(tokens@) =~= tokens_of(input@));
        Query::from_tokens(&tokens)
    }

    /// The query that a list of lowercase tokens spells.
    pub fn from_tokens(tokens: &Vec<String>) -> (query: Query)
        ensures
            query@ == query_of(contents(tokens@)),
    {
        let mut agent: Vec<String> = Vec::new();
        let mut workspace_or_status: Vec<String> = Vec::new();
        let mut path: Vec<String> = Vec::new();
        let mut status: Vec<String> = Vec::new();
        let mut all_agents: bool = false;
        let mut plain: Vec<String> = Vec::new();
        let ghost all = contents(tokens@);
        let mut i: usize = 0;
        proof {
            assert(contents(agent@) =~= Seq::<Seq<char>>::empty());
        }
        while i < tokens.len()
            invariant
                i <= tokens.len(),
                all == contents(tokens@),
                contents(plain@) == plain_tokens(all.take(i as int)),
                contents(agent@) == marked(all.take(i as int), '!'),
                contents(workspace_or_status@) == marked(all.take(i as int), '@'),
                contents(path@) == marked(all.take(i as int), '/'),
                contents(status@) == marked(all.take(i as int), '#'),
                all_agents == exists|k: int|
                    0 <= k < i && starts(#[trigger] all[k], '@') && all[k].len() == 1,
            decreases tokens.len() - i,
        {
            let token: &str = tokens[i].as_str();
            proof {
                assert(token@ == all[i as int]);
                assert(all.take(i + 1).drop_last() =~= all.take(i as int));
                assert(all.take(i + 1).last() == token@);
            }
            if let Some(rest) = strip_mark(token, '!') {
                push_token(&mut agent, rest);
            } else if let Some(rest) = strip_mark(token, '@') {
                if rest.is_empty() {
                    all_agents = true;
                } else {
                    push_token(&mut workspace_or_status, rest);
                }
            } else if let Some(rest) = strip_mark(token, '/') {
                push_token(&mut path, rest);
            } else if let Some(rest) = strip_mark(token, '#') {
                push_token(&mut status, rest);
            } else {
                let ghost done = plain@;
                plain.push(token.to_owned());
                assert(contents(plain@) =~= contents(done).push(token@));
            }
            i += 1;
        }
        assert(all.take(i as int) =~= all);
        Query {
            plain: join(&plain, " "),
            agent,
            workspace_or_status,
            path,
            status,
            all_agents,
        }
    }

    /// Whether an entry passes the marked tokens of the query.
    pub fn filters_match(&self, entry: &Entry) -> (passes: bool)
        ensures
            passes == self@.filters_match(entry@),
    {
        let agent_query: bool = self.all_agents || !self.agent.is_empty()
            || !self.workspace_or_status.is_empty() || !self.status.is_empty();
        if agent_query && entry.source != Source::Agent {
            return false;
        }
        all_match(&self.agent, agent_text(entry).as_str()) && all_match_either(
            &self.workspace_or_status,
            workspace_text(entry).as_str(),
            status_text(entry).as_str(),
        ) && all_match(&self.path, entry.path.shown()) && all_match(
            &self.status,
            status_text(entry).as_str(),
        )
    }

    /// The bonus that an agent's status earns.
    pub fn score_bonus(&self, entry: &Entry, use_agent_priority: bool) -> (bonus: i64)
        ensures
            bonus == self@.score_bonus(entry@, use_agent_priority),
    {
        if entry.source == Source::Agent && use_agent_priority {
            agent_status_bonus(entry)
        } else {
            0
        }
    }
}

/// Whether the text, in lower case, holds each of the tokens.
pub fn all_match(tokens: &Vec<String>, haystack: &str) -> (matches: bool)
    ensures
        matches == holds_all(lowercase(haystack@), contents(tokens@)),
        is_ascii_text(haystack@) ==> matches == holds_all(
            ascii_lowercase(haystack@),
            contents(tokens@),
        ),
{
    let lower: String = haystack.to_lowercase();
    holds_tokens(tokens, lower.as_str(), lower.as_str())
}

/// Whether each of the tokens is held by one of the two texts, in lower case.
pub fn all_match_either(tokens: &Vec<String>, left: &str, right: &str) -> (matches: bool)
    ensures
        matches == hold_all(lowercase(left@), lowercase(right@), contents(tokens@)),
        is_ascii_text(left@) && is_ascii_text(right@) ==> matches == hold_all(
            ascii_lowercase(left@),
            ascii_lowercase(right@),
            contents(tokens@),
        ),
{
    let left_lower: String = left.to_lowercase();
    let right_lower: String = right.to_lowercase();
    holds_tokens(tokens, left_lower.as_str(), right_lower.as_str())
}

/// Whether each of the tokens is held by one of the two texts.
pub fn holds_tokens(tokens: &Vec<String>, left: &str, right: &str) -> (held: bool)
    ensures
        held == hold_all(left@, right@, contents(tokens@)),
{
    let mut i: usize = 0;
    while i < tokens.len()
        invariant
            i <= tokens.len(),
            forall|k: int|
                0 <= k < i ==> has_part(left@, #[trigger] contents(tokens@)[k]) || has_part(
                    right@,
                    contents(tokens@)[k],
                ),
        decreases tokens.len() - i,
    {
        assert(contents(tokens@)[i as int] == tokens@[i as int]@);
        if !contains(left, tokens[i].as_str()) && !contains(right, tokens[i].as_str()) {
            return false;
        }
        i += 1;
    }
    true
}

/// How urgent the status of an agent is.
pub fn agent_status_bonus(entry: &Entry) -> (bonus: i64)
    ensures
        bonus == status_rank(entry@.status_text()),
{
    status_bonus(status_text(entry).as_str())
}

/// How urgent a status in lower case is.
pub fn status_bonus(status: &str) -> (bonus: i64)
    ensures
        bonus == status_rank(status@),
{
    if contains(status, "block") || contains(status, "fail") || contains(status, "error") {
        4
    } else if contains(status, "need") || contains(status, "attention") || contains(
        status,
        "review",
    ) || contains(status, "request") || contains(status, "question") || contains(status, "wait") {
        3
    } else if contains(status, "done") || contains(status, "complete") {
        2
    } else if contains(status, "work") || contains(status, "run") {
        1
    } else {
        0
    }
}

/// The status of an entry in lower case: its subtitle up to the first dot.
pub fn status_text(entry: &Entry) -> (status: String)
    ensures
        status@ == entry@.status_text(),
{
    trim(text_before(entry.subtitle.as_str(), '·')).to_lowercase()
}

/// The agent's name: the title up to the first dot.
pub fn agent_text(entry: &Entry) -> (name: String)
    ensures
        name@ == entry@.agent_text(),
{
    text_before(entry.title.as_str(), '·').to_owned()
}

/// What a workspace token is looked up in.
pub fn workspace_text(entry: &Entry) -> (text: String)
    ensures
        text@ == entry@.workspace_text(),
{
    let id: &str = match &entry.workspace_id {
        Some(id) => id.as_str(),
        None => "",
    };
    let label: &str = match &entry.workspace_label {
        Some(label) => label.as_str(),
        None => "",
    };
    proof {
        reveal_strlit("");
        assert(""@ =~= Seq::<char>::empty());
    }
    let mut text: String = concat3(id, " ", label);
    text.append(" ");
    text.append(entry.title.as_str());
    text
}

} // verus!
