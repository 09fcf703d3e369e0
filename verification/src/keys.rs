//! The keys that entries are told apart by.

use crate::model::{ActionView, Entry, EntryAction, EntryView};
use crate::string_set::StringSet;
use crate::text::{concat2, concat3};
use vstd::prelude::*;
use vstd::string::StringExecFns;

verus! {

/// The name of a session's host.
pub open spec fn host(remote: Option<Seq<char>>) -> Seq<char> {
    match remote {
        Some(name) => name,
        None => "local"@,
    }
}

impl EntryView {
    /// The identity of the entry, which stays the same when the list is built anew.
    pub open spec fn identity_key(self) -> Seq<char> {
        match self.action {
            ActionView::FocusWorkspace { id } => "workspace:"@ + id,
            ActionView::FocusAgent { target } => "agent:"@ + target,
            ActionView::FocusTab { id } => "tab:"@ + id,
            ActionView::FocusPane { id } => "pane:"@ + id,
            ActionView::OpenProject => "project:"@ + self.key(),
            ActionView::OpenRemote { target } => "remote:"@ + target,
            ActionView::AttachSession { name, remote } => "session:"@ + host(remote) + ":"@ + name,
            ActionView::InvokePluginAction { action } => "plugin:"@ + self.source_name() + ":"@
                + action,
            ActionView::FocusOrCreateDir => self.source_name() + ":"@ + self.key(),
            ActionView::RunCommand { command, .. } => self.source_name() + ":"@ + command,
        }
    }

    /// The key that a pin of the entry is stored under.
    pub open spec fn pin_key(self) -> Seq<char> {
        self.identity_key()
    }

    /// The key that the entry is listed under once only.
    pub open spec fn unique_key(self) -> Seq<char> {
        match self.action {
            ActionView::FocusWorkspace { id } => "open:"@ + id,
            ActionView::OpenRemote { target } => "remote:"@ + target,
            ActionView::AttachSession { name, remote } => "session:"@ + host(remote) + ":"@ + name,
            ActionView::RunCommand { command, .. } => self.source_name() + ":"@ + command,
            _ => self.source_name() + ":"@ + self.key(),
        }
    }

    /// The key under which the entry is marked as expanded, where it can be.
    pub open spec fn expand_key(self) -> Option<Seq<char>> {
        match self.action {
            ActionView::FocusWorkspace { id } => Some("ws:"@ + id),
            ActionView::FocusTab { id } => Some("tab:"@ + id),
            _ => None,
        }
    }

    /// The identifier that the entry's rows in the tree name as their parent.
    pub open spec fn tree_id(self) -> Option<Seq<char>> {
        match self.action {
            ActionView::FocusWorkspace { id } => Some(id),
            ActionView::FocusTab { id } => Some(id),
            _ => None,
        }
    }
}

/// The identity of an entry, which stays the same when the list is built anew. A workspace and a tab
/// with the same identifier have different ones.
pub fn entry_identity_key(entry: &Entry) -> (key: String)
    ensures
        key@ == entry@.identity_key(),
{
    match &entry.action {
        EntryAction::FocusWorkspace { id } => concat2("workspace:", id.as_str()),
        EntryAction::FocusAgent { target } => concat2("agent:", target.as_str()),
        EntryAction::FocusTab { id } => concat2("tab:", id.as_str()),
        EntryAction::FocusPane { id } => concat2("pane:", id.as_str()),
        EntryAction::OpenProject => concat2("project:", entry.key()),
        EntryAction::OpenRemote { target } => concat2("remote:", target.as_str()),
        EntryAction::AttachSession { name, remote } => session_key(name, remote),
        EntryAction::InvokePluginAction { action } => {
            let mut key: String = concat3("plugin:", entry.source_name(), ":");
            key.append(action.as_str());
            key
        },
        EntryAction::FocusOrCreateDir => concat3(entry.source_name(), ":", entry.key()),
        EntryAction::RunCommand { command, .. } => concat3(
            entry.source_name(),
            ":",
            command.as_str(),
        ),
    }
}

fn session_key(name: &String, remote: &Option<String>) -> (key: String)
    ensures
        key@ == "session:"@ + host(crate::text::content(*remote)) + ":"@ + name@,
{
    let host: &str = match remote {
        Some(remote) => remote.as_str(),
        None => "local",
    };
    let mut key: String = concat3("session:", host, ":");
    key.append(name.as_str());
    key
}

/// The key that a pin of an entry is stored under.
pub fn pin_key(entry: &Entry) -> (key: String)
    ensures
        key@ == entry@.pin_key(),
{
    entry_identity_key(entry)
}

/// The key that an entry is listed under once only.
pub fn unique_key(entry: &Entry) -> (key: String)
    ensures
        key@ == entry@.unique_key(),
{
    match &entry.action {
        EntryAction::FocusWorkspace { id } => concat2("open:", id.as_str()),
        EntryAction::OpenRemote { target } => concat2("remote:", target.as_str()),
        EntryAction::AttachSession { name, remote } => session_key(name, remote),
        EntryAction::RunCommand { command, .. } => concat3(
            entry.source_name(),
            ":",
            command.as_str(),
        ),
        _ => concat3(entry.source_name(), ":", entry.key()),
    }
}

/// The key under which an entry is marked as expanded, where it can be.
pub fn expand_key(entry: &Entry) -> (key: Option<String>)
    ensures
        crate::text::content(key) == entry@.expand_key(),
{
    match &entry.action {
        EntryAction::FocusWorkspace { id } => Some(concat2("ws:", id.as_str())),
        EntryAction::FocusTab { id } => Some(concat2("tab:", id.as_str())),
        _ => None,
    }
}

/// The keys of a list of entries.
pub open spec fn unique_keys(entries: Seq<Entry>) -> Seq<Seq<char>> {
    Seq::new(entries.len(), |i: int| entries[i]@.unique_key())
}

/// Whether the key of entry `i` is neither known nor that of an earlier entry.
pub open spec fn is_new(entries: Seq<Entry>, known: Set<Seq<char>>, i: int) -> bool {
    &&& !known.contains(entries[i]@.unique_key())
    &&& forall|j: int| 0 <= j < i ==> #[trigger] entries[j]@.unique_key() != entries[i]@.unique_key()
}

/// Those of the first `n` entries whose keys are new.
pub open spec fn new_entries(entries: Seq<Entry>, known: Set<Seq<char>>, n: int) -> Seq<Entry>
    decreases n,
{
    if n <= 0 {
        Seq::empty()
    } else if is_new(entries, known, n - 1) {
        new_entries(entries, known, n - 1).push(entries[n - 1])
    } else {
        new_entries(entries, known, n - 1)
    }
}

/// A key is new where it is not among those seen before it.
proof fn lemma_seen(all: Seq<Entry>, known: Set<Seq<char>>, seen: Set<Seq<char>>, n: int)
    requires
        0 <= n < all.len(),
        seen == known.union(unique_keys(all.take(n)).to_set()),
    ensures
        seen.contains(all[n]@.unique_key()) == !is_new(all, known, n),
        seen.insert(all[n]@.unique_key()) == known.union(unique_keys(all.take(n + 1)).to_set()),
{
    let key = all[n]@.unique_key();
    let head = unique_keys(all.take(n));
    assert(head.contains(key) == exists|j: int|
        0 <= j < n && #[trigger] all[j]@.unique_key() == key) by {
        if head.contains(key) {
            let j = choose|j: int| 0 <= j < head.len() && head[j] == key;
            assert(all[j]@.unique_key() == key);
        }
        if exists|j: int| 0 <= j < n && #[trigger] all[j]@.unique_key() == key {
            let j = choose|j: int| 0 <= j < n && #[trigger] all[j]@.unique_key() == key;
            assert(head[j] == key);
        }
    }
    let longer = unique_keys(all.take(n + 1));
    assert(longer =~= head.push(key));
    assert forall|k: Seq<char>| longer.to_set().contains(k) == head.to_set().insert(key).contains(
        k,
    ) by {
        if head.contains(k) {
            let j = choose|j: int| 0 <= j < head.len() && head[j] == k;
            assert(longer[j] == k);
        }
        if k == key {
            assert(longer[n] == k);
        }
    }
    assert(known.union(longer.to_set()) =~= known.union(head.to_set()).insert(key));
}

/// Appends the incoming entries whose keys were not seen before, and marks all their keys as seen.
pub fn push_unique(entries: &mut Vec<Entry>, seen: &mut StringSet, incoming: Vec<Entry>)
    ensures
        final(entries)@ == old(entries)@ + new_entries(
            incoming@,
            old(seen)@,
            incoming@.len() as int,
        ),
        final(seen)@ == old(seen)@.union(unique_keys(incoming@).to_set()),
{
    let ghost all = incoming@;
    let ghost known = seen@;
    assert(entries@ + new_entries(all, known, 0) =~= entries@);
    assert(known.union(unique_keys(all.take(0)).to_set()) =~= known);
    for entry in it: incoming
        invariant
            it.seq() == all,
            entries@ == old(entries)@ + new_entries(all, known, it.index() as int),
            seen@ == known.union(unique_keys(all.take(it.index() as int)).to_set()),
    {
        let ghost n = it.index() as int;
        let key: String = unique_key(&entry);
        proof {
            lemma_seen(all, known, seen@, n);
        }
        if seen.insert(key) {
            entries.push(entry);
        }
        assert(entries@ =~= old(entries)@ + new_entries(all, known, n + 1));
    }
    assert(all.take(all.len() as int) =~= all);
}

/// The entries that references lead to.
pub open spec fn targets(refs: Seq<&Entry>) -> Seq<Entry> {
    Seq::new(refs.len(), |i: int| *refs[i])
}

/// Does what `push_unique` does with references to entries.
pub fn push_unique_refs<'a>(
    refs: &mut Vec<&'a Entry>,
    seen: &mut StringSet,
    incoming: &'a Vec<Entry>,
)
    ensures
        targets(final(refs)@) == targets(old(refs)@) + new_entries(
            incoming@,
            old(seen)@,
            incoming@.len() as int,
        ),
        final(seen)@ == old(seen)@.union(unique_keys(incoming@).to_set()),
{
    let ghost all = incoming@;
    let ghost known = seen@;
    let ghost held = targets(refs@);
    let mut n: usize = 0;
    assert(held + new_entries(all, known, 0) =~= held);
    assert(known.union(unique_keys(all.take(0)).to_set()) =~= known);
    while n < incoming.len()
        invariant
            all == incoming@,
            n <= incoming.len(),
            targets(refs@) == held + new_entries(all, known, n as int),
            seen@ == known.union(unique_keys(all.take(n as int)).to_set()),
        decreases incoming.len() - n,
    {
        proof {
            lemma_seen(all, known, seen@, n as int);
        }
        let ghost done = refs@;
        if seen.insert(unique_key(&incoming[n])) {
            refs.push(&incoming[n]);
            assert(targets(refs@) =~= targets(done).push(all[n as int]));
        }
        assert(targets(refs@) =~= held + new_entries(all, known, n + 1));
        n += 1;
    }
    assert(all.take(n as int) =~= all);
}

} // verus!
