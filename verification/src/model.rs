//! What the navigator lists: entries, where they come from and what opening them does.

use crate::file_path::FilePath;
use crate::text::{content, contents, join, joined, same, utf8_lossy};
use vstd::prelude::*;

verus! {

/// Where an entry comes from.
#[derive(Clone, Copy, Debug, PartialEq, Eq, Structural)]
pub enum Source {
    Workspace,
    Agent,
    Project,
    Zoxide,
    Root,
    Server,
    Session,
    QuickAction,
    Integration,
    Tab,
    Pane,
}

impl Source {
    /// The name of a source in the configuration and in keys.
    pub open spec fn spec_name(self) -> Seq<char> {
        match self {
            Source::Workspace => "workspace"@,
            Source::Agent => "agent"@,
            Source::Project => "project"@,
            Source::Zoxide => "zoxide"@,
            Source::Root => "root"@,
            Source::Server => "server"@,
            Source::Session => "session"@,
            Source::QuickAction => "quick_action"@,
            Source::Integration => "integration"@,
            Source::Tab => "tab"@,
            Source::Pane => "pane"@,
        }
    }

    /// The name of a source in the configuration and in keys.
    pub fn name(&self) -> (name: &'static str)
        ensures
            name@ == self.spec_name(),
    {
        match self {
            Source::Workspace => "workspace",
            Source::Agent => "agent",
            Source::Project => "project",
            Source::Zoxide => "zoxide",
            Source::Root => "root",
            Source::Server => "server",
            Source::Session => "session",
            Source::QuickAction => "quick_action",
            Source::Integration => "integration",
            Source::Tab => "tab",
            Source::Pane => "pane",
        }
    }
}

/// What a workspace was created for.
#[derive(Clone, Copy, Debug, PartialEq, Eq, Structural)]
pub enum WorkspaceKind {
    Project,
    Dir,
    Unknown,
}

/// A project definition.
#[derive(Debug)]
pub struct Project {
    pub name: String,
    pub description: String,
    pub working_dir: String,
    /// The names of the tabs that the project starts with.
    pub tabs: Vec<String>,
}

/// What opening an entry does.
#[derive(Debug)]
pub enum EntryAction {
    FocusAgent { target: String },
    FocusWorkspace { id: String },
    FocusTab { id: String },
    FocusPane { id: String },
    OpenProject,
    OpenRemote { target: String },
    AttachSession { name: String, remote: Option<String> },
    InvokePluginAction { action: String },
    FocusOrCreateDir,
    RunCommand { command: String, notify_success: bool, notify_error: bool },
}

/// What an action says.
pub enum ActionView {
    FocusAgent { target: Seq<char> },
    FocusWorkspace { id: Seq<char> },
    FocusTab { id: Seq<char> },
    FocusPane { id: Seq<char> },
    OpenProject,
    OpenRemote { target: Seq<char> },
    AttachSession { name: Seq<char>, remote: Option<Seq<char>> },
    InvokePluginAction { action: Seq<char> },
    FocusOrCreateDir,
    RunCommand { command: Seq<char>, notify_success: bool, notify_error: bool },
}

impl View for EntryAction {
    type V = ActionView;

    open spec fn view(&self) -> ActionView {
        match *self {
            EntryAction::FocusAgent { target } => ActionView::FocusAgent { target: target@ },
            EntryAction::FocusWorkspace { id } => ActionView::FocusWorkspace { id: id@ },
            EntryAction::FocusTab { id } => ActionView::FocusTab { id: id@ },
            EntryAction::FocusPane { id } => ActionView::FocusPane { id: id@ },
            EntryAction::OpenProject => ActionView::OpenProject,
            EntryAction::OpenRemote { target } => ActionView::OpenRemote { target: target@ },
            EntryAction::AttachSession { name, remote } => ActionView::AttachSession {
                name: name@,
                remote: content(remote),
            },
            EntryAction::InvokePluginAction { action } => ActionView::InvokePluginAction {
                action: action@,
            },
            EntryAction::FocusOrCreateDir => ActionView::FocusOrCreateDir,
            EntryAction::RunCommand { command, notify_success, notify_error } => {
                ActionView::RunCommand { command: command@, notify_success, notify_error }
            },
        }
    }
}

/// One row that the navigator can list.
#[derive(Debug)]
pub struct Entry {
    pub source: Source,
    pub title: String,
    pub subtitle: String,
    /// The directory of the entry.
    pub path: FilePath,
    pub workspace_id: Option<String>,
    pub workspace_label: Option<String>,
    pub agent_target: Option<String>,
    pub project: Option<Project>,
    pub action: EntryAction,
    /// The name of the source, where it goes by one of its own.
    pub source_label: Option<String>,
    /// Further texts that a search finds the entry by.
    pub search_terms: Vec<String>,
    /// The workspace or tab that a row of the tree stands under.
    pub parent_id: Option<String>,
    /// The directory with links resolved, where it could be.
    pub canonical: Option<String>,
}

/// What an entry says.
pub struct EntryView {
    pub source: Source,
    pub title: Seq<char>,
    pub subtitle: Seq<char>,
    /// The directory as it is shown.
    pub path: Seq<char>,
    /// The directory itself.
    pub path_bytes: Seq<u8>,
    pub workspace_id: Option<Seq<char>>,
    pub workspace_label: Option<Seq<char>>,
    pub agent_target: Option<Seq<char>>,
    pub project: Option<Project>,
    pub action: ActionView,
    pub source_label: Option<Seq<char>>,
    pub search_terms: Seq<Seq<char>>,
    pub parent_id: Option<Seq<char>>,
    pub canonical: Option<Seq<char>>,
}

impl View for Entry {
    type V = EntryView;

    open spec fn view(&self) -> EntryView {
        EntryView {
            source: self.source,
            title: self.title@,
            subtitle: self.subtitle@,
            path: utf8_lossy(self.path@),
            path_bytes: self.path@,
            workspace_id: content(self.workspace_id),
            workspace_label: content(self.workspace_label),
            agent_target: content(self.agent_target),
            project: self.project,
            action: self.action@,
            source_label: content(self.source_label),
            search_terms: contents(self.search_terms@),
            parent_id: content(self.parent_id),
            canonical: content(self.canonical),
        }
    }
}

impl EntryView {
    /// The directory that the entry goes by: the resolved one, or the shown one where there is none.
    pub open spec fn key(self) -> Seq<char> {
        match self.canonical {
            Some(path) => path,
            None => self.path,
        }
    }

    /// The name that the entry's source goes by.
    pub open spec fn source_name(self) -> Seq<char> {
        match self.source_label {
            Some(label) => label,
            None => self.source.spec_name(),
        }
    }

    /// The text that a search looks at.
    pub open spec fn haystack(self) -> Seq<char> {
        joined(seq![self.title, self.subtitle, self.path] + self.search_terms, " "@)
    }
}

impl Entry {
    /// The directory that the entry goes by: the resolved one, or the shown one where there is none.
    pub fn key(&self) -> (key: &str)
        ensures
            key@ == self@.key(),
    {
        match &self.canonical {
            Some(path) => path.as_str(),
            None => self.path.shown(),
        }
    }

    /// The name that the entry's source goes by.
    pub fn source_name(&self) -> (name: &str)
        ensures
            name@ == self@.source_name(),
    {
        match &self.source_label {
            Some(label) => label.as_str(),
            None => self.source.name(),
        }
    }

    /// The text that a search looks at.
    pub fn haystack(&self) -> (text: String)
        ensures
            text@ == self@.haystack(),
    {
        let mut parts: Vec<String> = Vec::new();
        parts.push(self.title.clone());
        parts.push(self.subtitle.clone());
        parts.push(self.path.shown().to_owned());
        let mut i: usize = 0;
        let ghost shown = seq![self.title@, self.subtitle@, utf8_lossy(self.path@)];
        assert(contents(parts@) =~= shown + contents(self.search_terms@).take(0));
        while i < self.search_terms.len()
            invariant
                i <= self.search_terms.len(),
                contents(parts@) == shown + contents(self.search_terms@).take(i as int),
            decreases self.search_terms.len() - i,
        {
            let ghost done = parts@;
            parts.push(self.search_terms[i].clone());
            assert(contents(parts@) =~= contents(done).push(self.search_terms@[i as int]@));
            assert(contents(self.search_terms@).take(i + 1) =~= contents(
                self.search_terms@,
            ).take(i as int).push(self.search_terms@[i as int]@));
            i += 1;
        }
        assert(contents(self.search_terms@).take(i as int) =~= contents(self.search_terms@));
        join(&parts, " ")
    }
}

/// An open workspace.
#[derive(Debug)]
pub struct WorkspaceRef {
    pub id: String,
    pub label: String,
    pub kind: WorkspaceKind,
    pub path: FilePath,
    pub tab_count: u64,
    pub pane_count: u64,
}

/// The open workspaces of each directory.
#[derive(Debug)]
pub struct WorkspaceMap {
    pairs: Vec<(String, Vec<WorkspaceRef>)>,
}

/// The map that a list of pairs spells, where the first pair for a key counts.
spec fn as_map(pairs: Seq<(String, Vec<WorkspaceRef>)>) -> Map<Seq<char>, Seq<WorkspaceRef>>
    decreases pairs.len(),
{
    if pairs.len() == 0 {
        Map::empty()
    } else {
        as_map(pairs.drop_first()).insert(pairs[0].0@, pairs[0].1@)
    }
}

proof fn lemma_found(pairs: Seq<(String, Vec<WorkspaceRef>)>, at: int, key: Seq<char>)
    requires
        0 <= at <= pairs.len(),
        forall|i: int| 0 <= i < at ==> #[trigger] pairs[i].0@ != key,
    ensures
        at == pairs.len() ==> !as_map(pairs).dom().contains(key),
        at < pairs.len() && pairs[at].0@ == key ==> {
            &&& as_map(pairs).dom().contains(key)
            &&& as_map(pairs)[key] == pairs[at].1@
        },
    decreases pairs.len(),
{
    if at > 0 {
        let rest = pairs.drop_first();
        assert forall|i: int| 0 <= i < at - 1 implies #[trigger] rest[i].0@ != key by {
            assert(rest[i] == pairs[i + 1]);
        }
        assert(pairs[0].0@ != key);
        lemma_found(rest, at - 1, key);
    }
}

proof fn lemma_replaced(
    pairs: Seq<(String, Vec<WorkspaceRef>)>,
    at: int,
    pair: (String, Vec<WorkspaceRef>),
)
    requires
        0 <= at < pairs.len(),
        pairs[at].0@ == pair.0@,
        forall|i: int| 0 <= i < at ==> #[trigger] pairs[i].0@ != pair.0@,
    ensures
        as_map(pairs.update(at, pair)) == as_map(pairs).insert(pair.0@, pair.1@),
    decreases pairs.len(),
{
    let new = pairs.update(at, pair);
    let rest = pairs.drop_first();
    if at == 0 {
        assert(new.drop_first() =~= rest);
        assert(as_map(new) =~= as_map(pairs).insert(pair.0@, pair.1@));
    } else {
        assert forall|i: int| 0 <= i < at - 1 implies #[trigger] rest[i].0@ != pair.0@ by {
            assert(rest[i] == pairs[i + 1]);
        }
        assert(pairs[0].0@ != pair.0@);
        lemma_replaced(rest, at - 1, pair);
        assert(new.drop_first() =~= rest.update(at - 1, pair));
        assert(as_map(new) =~= as_map(pairs).insert(pair.0@, pair.1@));
    }
}

proof fn lemma_added(pairs: Seq<(String, Vec<WorkspaceRef>)>, pair: (String, Vec<WorkspaceRef>))
    requires
        forall|i: int| 0 <= i < pairs.len() ==> #[trigger] pairs[i].0@ != pair.0@,
    ensures
        as_map(pairs.push(pair)) == as_map(pairs).insert(pair.0@, pair.1@),
    decreases pairs.len(),
{
    let new = pairs.push(pair);
    if pairs.len() == 0 {
        assert(new.drop_first() =~= pairs);
    } else {
        let rest = pairs.drop_first();
        assert forall|i: int| 0 <= i < rest.len() implies #[trigger] rest[i].0@ != pair.0@ by {
            assert(rest[i] == pairs[i + 1]);
        }
        assert(pairs[0].0@ != pair.0@);
        lemma_added(rest, pair);
        assert(new.drop_first() =~= rest.push(pair));
        assert(as_map(new) =~= as_map(pairs).insert(pair.0@, pair.1@));
    }
}

impl View for WorkspaceMap {
    type V = Map<Seq<char>, Seq<WorkspaceRef>>;

    closed spec fn view(&self) -> Map<Seq<char>, Seq<WorkspaceRef>> {
        as_map(self.pairs@)
    }
}

impl WorkspaceMap {
    /// The map of no directory.
    pub fn new() -> (map: Self)
        ensures
            map@ == Map::<Seq<char>, Seq<WorkspaceRef>>::empty(),
    {
        WorkspaceMap { pairs: Vec::new() }
    }

    fn position(&self, key: &str) -> (at: usize)
        ensures
            at <= self.pairs.len(),
            forall|i: int| 0 <= i < at ==> #[trigger] self.pairs@[i].0@ != key@,
            at < self.pairs.len() ==> self.pairs@[at as int].0@ == key@,
    {
        let mut at: usize = 0;
        while at < self.pairs.len()
            invariant
                at <= self.pairs.len(),
                forall|i: int| 0 <= i < at ==> #[trigger] self.pairs@[i].0@ != key@,
            decreases self.pairs.len() - at,
        {
            if same(self.pairs[at].0.as_str(), key) {
                return at;
            }
            at += 1;
        }
        at
    }

    /// The workspaces of a directory.
    pub fn get(&self, key: &str) -> (found: Option<&Vec<WorkspaceRef>>)
        ensures
            found is Some <==> self@.dom().contains(key@),
            found matches Some(workspaces) ==> workspaces@ == self@[key@],
    {
        let at: usize = self.position(key);
        proof {
            lemma_found(self.pairs@, at as int, key@);
        }
        if at < self.pairs.len() {
            Some(&self.pairs[at].1)
        } else {
            None
        }
    }

    /// Sets the workspaces of a directory.
    pub fn insert(&mut self, key: String, workspaces: Vec<WorkspaceRef>)
        ensures
            final(self)@ == old(self)@.insert(key@, workspaces@),
    {
        let at: usize = self.position(key.as_str());
        proof {
            if at < self.pairs.len() {
                lemma_replaced(self.pairs@, at as int, (key, workspaces));
            } else {
                lemma_added(self.pairs@, (key, workspaces));
            }
        }
        if at < self.pairs.len() {
            self.pairs.set(at, (key, workspaces));
        } else {
            self.pairs.push((key, workspaces));
        }
    }
}

} // verus!
