//! What holds of the tree: where its rows stand, and that expanding and collapsing keep the
//! selection.

use crate::app::{law_ranking_unique, App};
use crate::children::law_pane_rows_open_nothing;
use crate::data::DataView;
use crate::model::EntryView;
use crate::selection::FetchView;
use crate::tree::{
    below, covers_entries, entry_at, is_covered, is_finite_tree, is_ranked, lemma_none_open_below,
    opens, rows, subtree, tree_rows, views,
};
use vstd::prelude::*;

verus! {

/// Whether a row for an index is in a list.
pub open spec fn has_row(list: Seq<(int, i64)>, idx: int) -> bool {
    exists|k: int| 0 <= k < list.len() && (#[trigger] list[k]).0 == idx
}

/// The rows whose index is below a number.
pub open spec fn rows_below(list: Seq<(int, i64)>, n: int) -> Seq<(int, i64)>
    decreases list.len(),
{
    if list.len() == 0 {
        list
    } else if list.last().0 < n {
        rows_below(list.drop_last(), n).push(list.last())
    } else {
        rows_below(list.drop_last(), n)
    }
}

proof fn lemma_rows_below_concat(a: Seq<(int, i64)>, b: Seq<(int, i64)>, n: int)
    ensures
        rows_below(a + b, n) == rows_below(a, n) + rows_below(b, n),
    decreases b.len(),
{
    if b.len() == 0 {
        assert(a + b =~= a);
        assert(rows_below(a, n) + rows_below(b, n) =~= rows_below(a, n));
    } else {
        assert((a + b).drop_last() =~= a + b.drop_last());
        lemma_rows_below_concat(a, b.drop_last(), n);
        assert(rows_below(a + b, n) =~= rows_below(a, n) + rows_below(b, n));
    }
}

proof fn lemma_child_rows(
    entries: Seq<EntryView>,
    children: Seq<EntryView>,
    expanded: Set<Seq<char>>,
    idx: int,
    score: i64,
    depth: nat,
)
    requires
        idx >= entries.len(),
    ensures
        rows_below(subtree(entries, children, expanded, idx, score, depth), entries.len() as int)
            == Seq::<(int, i64)>::empty(),
    decreases depth, 0nat,
{
    let n = entries.len() as int;
    let own = seq![(idx, score)];
    assert(own.drop_last() =~= Seq::empty());
    assert(rows_below(own, n) =~= Seq::empty()) by {
        assert(rows_below(own.drop_last(), n) =~= Seq::empty());
    }
    if depth > 0 && idx < entries.len() + children.len() {
        let parent = entry_at(entries, children, idx);
        lemma_below_rows(entries, children, expanded, parent, children.len(), (depth - 1) as nat);
        lemma_rows_below_concat(
            own,
            below(entries, children, expanded, parent, children.len(), (depth - 1) as nat),
            n,
        );
    }
}

proof fn lemma_below_rows(
    entries: Seq<EntryView>,
    children: Seq<EntryView>,
    expanded: Set<Seq<char>>,
    parent: EntryView,
    count: nat,
    depth: nat,
)
    ensures
        rows_below(
            below(entries, children, expanded, parent, count, depth),
            entries.len() as int,
        ) == Seq::<(int, i64)>::empty(),
    decreases depth, count,
{
    if count > 0 {
        let c = (count - 1) as nat;
        lemma_below_rows(entries, children, expanded, parent, c, depth);
        if opens(children, expanded, parent, c as int) {
            lemma_child_rows(entries, children, expanded, (entries.len() + c) as int, 0, depth);
            lemma_rows_below_concat(
                below(entries, children, expanded, parent, c, depth),
                subtree(entries, children, expanded, (entries.len() + c) as int, 0, depth),
                entries.len() as int,
            );
        } else {
            assert(below(entries, children, expanded, parent, count, depth) =~= below(
                entries,
                children,
                expanded,
                parent,
                c,
                depth,
            ));
        }
    }
}

proof fn lemma_tree_keeps_list(
    entries: Seq<EntryView>,
    children: Seq<EntryView>,
    expanded: Set<Seq<char>>,
    list: Seq<(int, i64)>,
)
    requires
        forall|k: int| 0 <= k < list.len() ==> (#[trigger] list[k]).0 < entries.len(),
    ensures
        rows_below(tree_rows(entries, children, expanded, list), entries.len() as int) == list,
    decreases list.len(),
{
    let n = entries.len() as int;
    if list.len() > 0 {
        let (idx, score) = list.last();
        lemma_tree_keeps_list(entries, children, expanded, list.drop_last());
        let own = seq![(idx, score)];
        assert(own.drop_last() =~= Seq::empty());
        assert(rows_below(own, n) =~= own) by {
            assert(rows_below(own.drop_last(), n) =~= Seq::empty());
        }
        let part = subtree(entries, children, expanded, idx, score, children.len());
        if children.len() > 0 && idx < entries.len() + children.len() {
            let parent = entry_at(entries, children, idx);
            let depth = (children.len() - 1) as nat;
            lemma_below_rows(entries, children, expanded, parent, children.len(), depth);
            lemma_rows_below_concat(
                own,
                below(entries, children, expanded, parent, children.len(), depth),
                n,
            );
        }
        assert(rows_below(part, n) =~= own);
        lemma_rows_below_concat(
            tree_rows(entries, children, expanded, list.drop_last()),
            part,
            n,
        );
        assert(list =~= list.drop_last() + own);
    } else {
        assert(list =~= Seq::empty());
    }
}

/// The tree leaves the entries that are listed, and their order, as they are.
pub proof fn law_tree_keeps_the_list(app: App)
    requires
        app.is_ranking(app.ranking()),
    ensures
        rows_below(app.listing(), app.entries@.len() as int) == app.flat_rows(),
{
    let list = app.flat_rows();
    assert forall|k: int| 0 <= k < list.len() implies (#[trigger] list[k]).0
        < app.entries@.len() by {
        assert(app.ranking()[k] < app.entries@.len());
    }
    if app.is_unfiltered() {
        lemma_tree_keeps_list(
            views(app.entries@),
            views(app.child_entries@),
            app.expanded@,
            list,
        );
    } else {
        lemma_all_below(list, app.entries@.len() as int);
    }
}

proof fn lemma_all_below(list: Seq<(int, i64)>, n: int)
    requires
        forall|k: int| 0 <= k < list.len() ==> (#[trigger] list[k]).0 < n,
    ensures
        rows_below(list, n) == list,
    decreases list.len(),
{
    if list.len() > 0 {
        lemma_all_below(list.drop_last(), n);
        assert(list =~= list.drop_last().push(list.last()));
    }
}

/// Whether a row of the tree stands behind a row that it is shown under.
pub open spec fn stands_under(
    entries: Seq<EntryView>,
    children: Seq<EntryView>,
    expanded: Set<Seq<char>>,
    list: Seq<(int, i64)>,
    k: int,
) -> bool {
    exists|j: int|
        0 <= j < k && opens(
            children,
            expanded,
            entry_at(entries, children, (#[trigger] list[j]).0),
            list[k].0 - entries.len(),
        )
}

proof fn lemma_under_left(
    entries: Seq<EntryView>,
    children: Seq<EntryView>,
    expanded: Set<Seq<char>>,
    a: Seq<(int, i64)>,
    b: Seq<(int, i64)>,
    k: int,
)
    requires
        0 <= k < a.len(),
        stands_under(entries, children, expanded, a, k),
    ensures
        stands_under(entries, children, expanded, a + b, k),
{
    let j = choose|j: int|
        0 <= j < k && opens(
            children,
            expanded,
            entry_at(entries, children, (#[trigger] a[j]).0),
            a[k].0 - entries.len(),
        );
    assert((a + b)[j] == a[j]);
    assert((a + b)[k] == a[k]);
}

proof fn lemma_under_right(
    entries: Seq<EntryView>,
    children: Seq<EntryView>,
    expanded: Set<Seq<char>>,
    a: Seq<(int, i64)>,
    b: Seq<(int, i64)>,
    k: int,
)
    requires
        0 <= k < b.len(),
        stands_under(entries, children, expanded, b, k),
    ensures
        stands_under(entries, children, expanded, a + b, a.len() + k),
{
    let j = choose|j: int|
        0 <= j < k && opens(
            children,
            expanded,
            entry_at(entries, children, (#[trigger] b[j]).0),
            b[k].0 - entries.len(),
        );
    assert((a + b)[a.len() + j] == b[j]);
    assert((a + b)[a.len() + k] == b[k]);
}

proof fn lemma_subtree_under(
    entries: Seq<EntryView>,
    children: Seq<EntryView>,
    expanded: Set<Seq<char>>,
    idx: int,
    score: i64,
    depth: nat,
)
    ensures
        forall|k: int|
            1 <= k < subtree(entries, children, expanded, idx, score, depth).len()
                ==> #[trigger] stands_under(
                entries,
                children,
                expanded,
                subtree(entries, children, expanded, idx, score, depth),
                k,
            ),
    decreases depth, 0nat,
{
    let whole = subtree(entries, children, expanded, idx, score, depth);
    if depth > 0 && idx < entries.len() + children.len() {
        let own = seq![(idx, score)];
        let parent = entry_at(entries, children, idx);
        let rest = below(entries, children, expanded, parent, children.len(), (depth - 1) as nat);
        lemma_below_under(entries, children, expanded, parent, children.len(), (depth - 1) as nat);
        assert forall|k: int| 1 <= k < whole.len() implies #[trigger] stands_under(
            entries,
            children,
            expanded,
            whole,
            k,
        ) by {
            assert(whole == own + rest);
            assert(is_placed(entries, children, expanded, parent, rest, k - 1));
            if opens(children, expanded, parent, rest[k - 1].0 - entries.len()) {
                assert(whole[0] == (idx, score));
                assert(whole[k] == rest[k - 1]);
            } else {
                lemma_under_right(entries, children, expanded, own, rest, k - 1);
            }
        }
    }
}

spec fn is_placed(
    entries: Seq<EntryView>,
    children: Seq<EntryView>,
    expanded: Set<Seq<char>>,
    parent: EntryView,
    list: Seq<(int, i64)>,
    k: int,
) -> bool {
    ||| opens(children, expanded, parent, list[k].0 - entries.len())
    ||| stands_under(entries, children, expanded, list, k)
}

proof fn lemma_below_under(
    entries: Seq<EntryView>,
    children: Seq<EntryView>,
    expanded: Set<Seq<char>>,
    parent: EntryView,
    count: nat,
    depth: nat,
)
    ensures
        forall|k: int|
            0 <= k < below(entries, children, expanded, parent, count, depth).len()
                ==> #[trigger] is_placed(
                entries,
                children,
                expanded,
                parent,
                below(entries, children, expanded, parent, count, depth),
                k,
            ),
    decreases depth, count,
{
    if count > 0 {
        let c = (count - 1) as nat;
        lemma_below_under(entries, children, expanded, parent, c, depth);
        let whole = below(entries, children, expanded, parent, count, depth);
        let first = below(entries, children, expanded, parent, c, depth);
        if opens(children, expanded, parent, c as int) {
            let part = subtree(entries, children, expanded, (entries.len() + c) as int, 0, depth);
            lemma_subtree_under(entries, children, expanded, (entries.len() + c) as int, 0, depth);
            assert forall|k: int| 0 <= k < whole.len() implies #[trigger] is_placed(
                entries,
                children,
                expanded,
                parent,
                whole,
                k,
            ) by {
                assert(whole == first + part);
                if k < first.len() {
                    assert(is_placed(entries, children, expanded, parent, first, k));
                    assert(whole[k] == first[k]);
                    if !opens(children, expanded, parent, first[k].0 - entries.len()) {
                        lemma_under_left(entries, children, expanded, first, part, k);
                    }
                } else {
                    let m = k - first.len();
                    assert(whole[k] == part[m]);
                    if m == 0 {
                        assert(part[0] == ((entries.len() + c) as int, 0i64));
                    } else {
                        assert(stands_under(entries, children, expanded, part, m));
                        lemma_under_right(entries, children, expanded, first, part, m);
                    }
                }
            }
        } else {
            assert(whole =~= first);
        }
    }
}

proof fn lemma_tree_under(
    entries: Seq<EntryView>,
    children: Seq<EntryView>,
    expanded: Set<Seq<char>>,
    list: Seq<(int, i64)>,
)
    requires
        forall|k: int| 0 <= k < list.len() ==> (#[trigger] list[k]).0 < entries.len(),
    ensures
        forall|k: int|
            0 <= k < tree_rows(entries, children, expanded, list).len() && tree_rows(
                entries,
                children,
                expanded,
                list,
            )[k].0 >= entries.len() ==> #[trigger] stands_under(
                entries,
                children,
                expanded,
                tree_rows(entries, children, expanded, list),
                k,
            ),
    decreases list.len(),
{
    if list.len() > 0 {
        let (idx, score) = list.last();
        lemma_tree_under(entries, children, expanded, list.drop_last());
        lemma_subtree_under(entries, children, expanded, idx, score, children.len());
        let whole = tree_rows(entries, children, expanded, list);
        let first = tree_rows(entries, children, expanded, list.drop_last());
        let part = subtree(entries, children, expanded, idx, score, children.len());
        assert forall|k: int|
            0 <= k < whole.len() && whole[k].0 >= entries.len() implies #[trigger] stands_under(
            entries,
            children,
            expanded,
            whole,
            k,
        ) by {
            assert(whole == first + part);
            if k < first.len() {
                assert(whole[k] == first[k]);
                assert(stands_under(entries, children, expanded, first, k));
                lemma_under_left(entries, children, expanded, first, part, k);
            } else {
                let m = k - first.len();
                assert(whole[k] == part[m]);
                assert(part[0] == (idx, score));
                assert(stands_under(entries, children, expanded, part, m));
                lemma_under_right(entries, children, expanded, first, part, m);
            }
        }
    }
}

/// Every row of the tree stands behind its expanded parent, and a search shows none.
pub proof fn law_tree_rows_follow_their_parents(app: App, k: int)
    requires
        app.is_ranking(app.ranking()),
        0 <= k < app.listing().len(),
        app.listing()[k].0 >= app.entries@.len(),
    ensures
        app.is_unfiltered(),
        stands_under(
            views(app.entries@),
            views(app.child_entries@),
            app.expanded@,
            app.listing(),
            k,
        ),
{
    let list = app.flat_rows();
    assert forall|i: int| 0 <= i < list.len() implies (#[trigger] list[i]).0
        < app.entries@.len() by {
        assert(app.ranking()[i] < app.entries@.len());
    }
    lemma_tree_under(views(app.entries@), views(app.child_entries@), app.expanded@, list);
}

proof fn lemma_has_concat(a: Seq<(int, i64)>, b: Seq<(int, i64)>, idx: int)
    ensures
        has_row(a + b, idx) == (has_row(a, idx) || has_row(b, idx)),
{
    if has_row(a, idx) {
        let k = choose|k: int| 0 <= k < a.len() && (#[trigger] a[k]).0 == idx;
        assert((a + b)[k].0 == idx);
    }
    if has_row(b, idx) {
        let k = choose|k: int| 0 <= k < b.len() && (#[trigger] b[k]).0 == idx;
        assert((a + b)[a.len() + k].0 == idx);
    }
    if has_row(a + b, idx) {
        let k = choose|k: int| 0 <= k < (a + b).len() && (#[trigger] (a + b)[k]).0 == idx;
        if k < a.len() {
            assert(a[k].0 == idx);
        } else {
            assert(b[k - a.len()].0 == idx);
        }
    }
}

/// Whether a row for an index is shown under an entry through row `c` of the tree.
spec fn comes_through(
    entries: Seq<EntryView>,
    children: Seq<EntryView>,
    expanded: Set<Seq<char>>,
    parent: EntryView,
    depth: nat,
    idx: int,
    c: int,
) -> bool {
    &&& opens(children, expanded, parent, c)
    &&& has_row(subtree(entries, children, expanded, entries.len() + c, 0, depth), idx)
}

proof fn lemma_below_has(
    entries: Seq<EntryView>,
    children: Seq<EntryView>,
    expanded: Set<Seq<char>>,
    parent: EntryView,
    count: nat,
    depth: nat,
    idx: int,
)
    ensures
        has_row(below(entries, children, expanded, parent, count, depth), idx) == exists|c: int|
            0 <= c < count && #[trigger] comes_through(
                entries,
                children,
                expanded,
                parent,
                depth,
                idx,
                c,
            ),
    decreases count,
{
    if count > 0 {
        let last = (count - 1) as nat;
        lemma_below_has(entries, children, expanded, parent, last, depth, idx);
        let first = below(entries, children, expanded, parent, last, depth);
        let part = if opens(children, expanded, parent, last as int) {
            subtree(entries, children, expanded, (entries.len() + last) as int, 0, depth)
        } else {
            Seq::empty()
        };
        lemma_has_concat(first, part, idx);
        let whole = below(entries, children, expanded, parent, count, depth);
        assert(whole == first + part);
        if has_row(whole, idx) && has_row(part, idx) {
            assert(comes_through(entries, children, expanded, parent, depth, idx, last as int));
        }
        if exists|c: int|
            0 <= c < count && #[trigger] comes_through(
                entries,
                children,
                expanded,
                parent,
                depth,
                idx,
                c,
            ) {
            let c = choose|c: int|
                0 <= c < count && #[trigger] comes_through(
                    entries,
                    children,
                    expanded,
                    parent,
                    depth,
                    idx,
                    c,
                );
            if c < last {
                assert(has_row(first, idx));
            } else {
                assert(has_row(part, idx));
            }
        }
    }
}

/// A subtree has its own row, and those that come through the rows shown under it.
proof fn lemma_subtree_has(
    entries: Seq<EntryView>,
    children: Seq<EntryView>,
    expanded: Set<Seq<char>>,
    from: int,
    score: i64,
    depth: nat,
    idx: int,
)
    ensures
        has_row(subtree(entries, children, expanded, from, score, depth), idx) == (idx == from || (
        depth > 0 && from < entries.len() + children.len() && exists|c: int|
            0 <= c < children.len() && #[trigger] comes_through(
                entries,
                children,
                expanded,
                entry_at(entries, children, from),
                (depth - 1) as nat,
                idx,
                c,
            ))),
{
    let own = seq![(from, score)];
    assert(has_row(own, idx) == (idx == from)) by {
        assert(own[0].0 == from);
    }
    if depth > 0 && from < entries.len() + children.len() {
        let parent = entry_at(entries, children, from);
        let rest = below(entries, children, expanded, parent, children.len(), (depth - 1) as nat);
        lemma_has_concat(own, rest, idx);
        lemma_below_has(
            entries,
            children,
            expanded,
            parent,
            children.len(),
            (depth - 1) as nat,
            idx,
        );
    }
}

/// How many levels below an index a tree with these ranks can have at most.
spec fn levels(
    entries: Seq<EntryView>,
    children: Seq<EntryView>,
    ranks: Seq<Option<nat>>,
    idx: int,
) -> nat {
    if entries.len() <= idx < entries.len() + children.len() {
        ranks[idx - entries.len()]->0
    } else {
        children.len()
    }
}

/// A row that is shown under another stays so when more is expanded and rows are added.
proof fn lemma_subtree_grows(
    entries: Seq<EntryView>,
    children: Seq<EntryView>,
    expanded: Set<Seq<char>>,
    grown: Seq<EntryView>,
    more: Set<Seq<char>>,
    ranks: Seq<Option<nat>>,
    from: int,
    score: i64,
    other_score: i64,
    depth: nat,
    other_depth: nat,
    idx: int,
)
    requires
        0 <= from,
        children.len() <= grown.len(),
        forall|c: int| 0 <= c < children.len() ==> #[trigger] grown[c] == children[c],
        expanded.subset_of(more),
        is_ranked(grown, more, ranks),
        is_covered(entries, grown, more, ranks, from),
        other_depth >= levels(entries, grown, ranks, from),
        has_row(subtree(entries, children, expanded, from, score, depth), idx),
    ensures
        has_row(subtree(entries, grown, more, from, other_score, other_depth), idx),
    decreases depth,
{
    lemma_subtree_has(entries, children, expanded, from, score, depth, idx);
    lemma_subtree_has(entries, grown, more, from, other_score, other_depth, idx);
    if idx != from {
        let parent = entry_at(entries, children, from);
        let c = choose|c: int|
            0 <= c < children.len() && #[trigger] comes_through(
                entries,
                children,
                expanded,
                parent,
                (depth - 1) as nat,
                idx,
                c,
            );
        assert(grown[c] == children[c]);
        if from >= entries.len() {
            assert(grown[from - entries.len()] == children[from - entries.len()]);
        }
        assert(entry_at(entries, grown, from) == parent);
        assert(opens(grown, more, parent, c));
        if from >= entries.len() {
            assert(opens(grown, more, grown[from - entries.len()], c));
        }
        assert(ranks[c] is Some && other_depth > ranks[c]->0);
        lemma_subtree_grows(
            entries,
            children,
            expanded,
            grown,
            more,
            ranks,
            entries.len() + c,
            0,
            0,
            (depth - 1) as nat,
            (other_depth - 1) as nat,
            idx,
        );
        assert(comes_through(entries, grown, more, parent, (other_depth - 1) as nat, idx, c));
    }
}

/// What is shown under a row of the tree has no higher rank.
proof fn lemma_subtree_ranks(
    entries: Seq<EntryView>,
    children: Seq<EntryView>,
    expanded: Set<Seq<char>>,
    ranks: Seq<Option<nat>>,
    from: int,
    score: i64,
    depth: nat,
    idx: int,
)
    requires
        is_ranked(children, expanded, ranks),
        0 <= from < children.len(),
        ranks[from] is Some,
        entries.len() <= idx < entries.len() + children.len(),
        has_row(subtree(entries, children, expanded, entries.len() + from, score, depth), idx),
    ensures
        ranks[idx - entries.len()] is Some,
        ranks[idx - entries.len()]->0 <= ranks[from]->0,
    decreases depth,
{
    lemma_subtree_has(entries, children, expanded, entries.len() + from, score, depth, idx);
    if idx != entries.len() + from {
        let parent = entry_at(entries, children, entries.len() + from);
        let c = choose|c: int|
            0 <= c < children.len() && #[trigger] comes_through(
                entries,
                children,
                expanded,
                parent,
                (depth - 1) as nat,
                idx,
                c,
            );
        assert(opens(children, expanded, children[from], c));
        lemma_subtree_ranks(
            entries,
            children,
            expanded,
            ranks,
            c,
            0,
            (depth - 1) as nat,
            idx,
        );
    }
}

/// A row of the tree stays where it is when it is collapsed itself.
proof fn lemma_collapsed_row_stays(
    entries: Seq<EntryView>,
    children: Seq<EntryView>,
    expanded: Set<Seq<char>>,
    ranks: Seq<Option<nat>>,
    key: Seq<char>,
    from: int,
    score: i64,
    depth: nat,
    idx: int,
)
    requires
        0 <= from,
        is_ranked(children, expanded, ranks),
        is_covered(entries, children, expanded, ranks, from),
        entries.len() <= idx < entries.len() + children.len(),
        children[idx - entries.len()].expand_key() == Some(key),
        expanded.contains(key),
        has_row(subtree(entries, children, expanded, from, score, depth), idx),
    ensures
        has_row(subtree(entries, children, expanded.remove(key), from, score, depth), idx),
    decreases depth,
{
    let fewer = expanded.remove(key);
    lemma_subtree_has(entries, children, expanded, from, score, depth, idx);
    lemma_subtree_has(entries, children, fewer, from, score, depth, idx);
    if idx != from {
        let parent = entry_at(entries, children, from);
        let c = choose|c: int|
            0 <= c < children.len() && #[trigger] comes_through(
                entries,
                children,
                expanded,
                parent,
                (depth - 1) as nat,
                idx,
                c,
            );
        let e = idx - entries.len();
        if from >= entries.len() {
            assert(opens(children, expanded, children[from - entries.len()], c));
        }
        assert(ranks[c] is Some);
        if parent.expand_key() == Some(key) {
            lemma_same_tree_id(parent, children[e]);
            assert(opens(children, expanded, children[e], c));
            lemma_subtree_ranks(
                entries,
                children,
                expanded,
                ranks,
                c,
                0,
                (depth - 1) as nat,
                idx,
            );
        }
        assert(opens(children, fewer, parent, c));
        lemma_collapsed_row_stays(
            entries,
            children,
            expanded,
            ranks,
            key,
            entries.len() + c,
            0,
            (depth - 1) as nat,
            idx,
        );
        assert(comes_through(entries, children, fewer, parent, (depth - 1) as nat, idx, c));
    }
}

/// Entries that are marked under one key are named by one identifier.
proof fn lemma_same_tree_id(a: EntryView, b: EntryView)
    requires
        a.expand_key() is Some,
        a.expand_key() == b.expand_key(),
    ensures
        a.tree_id() == b.tree_id(),
{
    reveal_strlit("ws:");
    reveal_strlit("tab:");
    let (x, y) = (a.expand_key()->0, b.expand_key()->0);
    assert(a.action is FocusWorkspace ==> x[0] == 'w');
    assert(a.action is FocusTab ==> x[0] == 't');
    assert(b.action is FocusWorkspace ==> y[0] == 'w');
    assert(b.action is FocusTab ==> y[0] == 't');
    let (p, q) = (a.tree_id()->0, b.tree_id()->0);
    if a.action is FocusWorkspace {
        assert(x.skip(3) =~= p);
        assert(y.skip(3) =~= q);
    } else {
        assert(x.skip(4) =~= p);
        assert(y.skip(4) =~= q);
    }
}

/// Whether a row for an index is shown under a row of a list.
spec fn is_reached(
    entries: Seq<EntryView>,
    children: Seq<EntryView>,
    expanded: Set<Seq<char>>,
    list: Seq<(int, i64)>,
    idx: int,
    k: int,
) -> bool {
    has_row(
        subtree(entries, children, expanded, list[k].0, list[k].1, children.len()),
        idx,
    )
}

proof fn lemma_tree_has(
    entries: Seq<EntryView>,
    children: Seq<EntryView>,
    expanded: Set<Seq<char>>,
    list: Seq<(int, i64)>,
    idx: int,
)
    ensures
        has_row(tree_rows(entries, children, expanded, list), idx) == exists|k: int|
            0 <= k < list.len() && #[trigger] is_reached(
                entries,
                children,
                expanded,
                list,
                idx,
                k,
            ),
    decreases list.len(),
{
    if list.len() > 0 {
        let init = list.drop_last();
        let last = list.len() - 1;
        lemma_tree_has(entries, children, expanded, init, idx);
        lemma_has_concat(
            tree_rows(entries, children, expanded, init),
            subtree(
                entries,
                children,
                expanded,
                list.last().0,
                list.last().1,
                children.len(),
            ),
            idx,
        );
        assert(is_reached(entries, children, expanded, list, idx, last) == has_row(
            subtree(
                entries,
                children,
                expanded,
                list.last().0,
                list.last().1,
                children.len(),
            ),
            idx,
        ));
        assert forall|k: int| 0 <= k < last implies #[trigger] is_reached(
            entries,
            children,
            expanded,
            init,
            idx,
            k,
        ) == is_reached(entries, children, expanded, list, idx, k) by {
            assert(init[k] == list[k]);
        }
        if has_row(tree_rows(entries, children, expanded, init), idx) {
            let k = choose|k: int|
                0 <= k < init.len() && #[trigger] is_reached(
                    entries,
                    children,
                    expanded,
                    init,
                    idx,
                    k,
                );
            assert(is_reached(entries, children, expanded, list, idx, k));
        }
        if exists|k: int|
            0 <= k < list.len() && #[trigger] is_reached(
                entries,
                children,
                expanded,
                list,
                idx,
                k,
            ) {
            let k = choose|k: int|
                0 <= k < list.len() && #[trigger] is_reached(
                    entries,
                    children,
                    expanded,
                    list,
                    idx,
                    k,
                );
            if k < last {
                assert(is_reached(entries, children, expanded, init, idx, k));
            }
        }
    }
}

/// The entries that are listed, and their order, do not depend on the tree.
proof fn lemma_same_flat_rows(before: App, after: App)
    requires
        after.same_but_tree(before),
        before.is_ranking(before.ranking()),
    ensures
        after.is_ranking(after.ranking()),
        after.flat_rows() == before.flat_rows(),
{
    assert forall|i: int, j: int| #[trigger] after.before(i, j) == before.before(i, j) by {
    }
    assert(after.is_ranking(before.ranking()));
    law_ranking_unique(after, after.ranking(), before.ranking());
    assert(after.flat_rows() =~= before.flat_rows());
}

/// What a state shows has a row for the selected entry.
proof fn lemma_selected_is_shown(app: App)
    requires
        app.shows(app.listing()),
        app.selection() is Some,
    ensures
        has_row(app.listing(), app.filtered@[app.selected as int] as int),
{
    let list = rows(app.filtered@, app.filtered_scores@);
    assert(list[app.selected as int].0 == app.filtered@[app.selected as int] as int);
}

/// Where a row for an index is shown, the selection goes to the entry's identity.
proof fn lemma_selects_shown(app: App, idx: int, key: Seq<char>)
    requires
        app.shows(app.listing()),
        app.selects(key),
        has_row(app.listing(), idx),
        app.entry(idx) is Some,
        app.entry(idx)->0@.identity_key() == key,
    ensures
        app.selection() is Some,
        app.selection()->0@.identity_key() == key,
{
    let list = app.listing();
    let k = choose|k: int| 0 <= k < list.len() && (#[trigger] list[k]).0 == idx;
    assert(rows(app.filtered@, app.filtered_scores@)[k].0 == app.filtered@[k] as int);
    assert(app.row_has(k, key));
}

/// The index of the selected row.
spec fn selected_index(app: App) -> int {
    app.filtered@[app.selected as int] as int
}

/// Whether a state shows the entry that is selected in another, under the same index.
spec fn shows_selected_of(app: App, before: App) -> bool {
    &&& has_row(app.listing(), selected_index(before))
    &&& app.entry(selected_index(before)) is Some
    &&& app.entry(selected_index(before))->0@ == before.selection()->0@
}

/// Expanding keeps the selected entry shown.
proof fn lemma_expanding_keeps_the_row(before: App, after: App, reply: DataView)
    requires
        before.is_ranking(before.ranking()),
        before.shows(before.listing()),
        before.selection() is Some,
        after.wf(),
        after.is_expanded_from(before, reply),
    ensures
        shows_selected_of(after, before),
{
    lemma_selected_is_shown(before);
    if before.expansion() is Some {
        let idx = selected_index(before);
        let (entries, children) = (views(before.entries@), views(before.child_entries@));
        let (grown, more) = (views(after.child_entries@), after.expanded@);
        let list = before.flat_rows();
        lemma_same_flat_rows(before, after);
        assert forall|c: int| 0 <= c < children.len() implies #[trigger] grown[c]
            == children[c] by {
            assert((children + before.new_rows(reply))[c] == children[c]);
        }
        if before.is_unfiltered() {
            lemma_tree_has(entries, children, before.expanded@, list, idx);
            let k = choose|k: int|
                0 <= k < list.len() && #[trigger] is_reached(
                    entries,
                    children,
                    before.expanded@,
                    list,
                    idx,
                    k,
                );
            let ranks = choose|ranks: Seq<Option<nat>>|
                covers_entries(entries, grown, more, ranks);
            assert(before.ranking()[k] < before.entries@.len());
            assert(is_covered(entries, grown, more, ranks, list[k].0));
            lemma_subtree_grows(
                entries,
                children,
                before.expanded@,
                grown,
                more,
                ranks,
                list[k].0,
                list[k].1,
                list[k].1,
                children.len(),
                grown.len(),
                idx,
            );
            lemma_tree_has(entries, grown, more, list, idx);
            assert(is_reached(entries, grown, more, list, idx, k));
        }
        if idx >= before.entries@.len() {
            let c = idx - before.entries@.len();
            assert(grown[c] == children[c]);
        }
    }
}

/// Expanding keeps the selection on the entry that it is on.
pub proof fn law_expanding_keeps_the_selection(before: App, after: App, reply: DataView)
    requires
        before.is_ranking(before.ranking()),
        before.shows(before.listing()),
        before.selection() is Some,
        after.wf(),
        after.is_expanded_from(before, reply),
    ensures
        after.selection() is Some,
        after.selection()->0@.identity_key() == before.selection()->0@.identity_key(),
{
    if before.expansion() is Some {
        lemma_expanding_keeps_the_row(before, after, reply);
        let key = before.selection()->0@.identity_key();
        lemma_selects_shown(after, selected_index(before), key);
    }
}

/// Collapsing keeps the selected entry shown.
proof fn lemma_collapsing_keeps_the_row(before: App, after: App)
    requires
        before.wf(),
        before.is_ranking(before.ranking()),
        before.shows(before.listing()),
        before.selection() is Some,
        after.is_collapsed_from(before),
    ensures
        shows_selected_of(after, before),
{
    lemma_selected_is_shown(before);
    if before.collapse() is Some {
        let idx = selected_index(before);
        let (entries, children) = (views(before.entries@), views(before.child_entries@));
        let list = before.flat_rows();
        lemma_same_flat_rows(before, after);
        if before.is_unfiltered() {
            lemma_tree_has(entries, children, before.expanded@, list, idx);
            let k = choose|k: int|
                0 <= k < list.len() && #[trigger] is_reached(
                    entries,
                    children,
                    before.expanded@,
                    list,
                    idx,
                    k,
                );
            assert(before.ranking()[k] < before.entries@.len());
            if idx >= before.entries@.len() {
                let ranks = choose|ranks: Seq<Option<nat>>|
                    covers_entries(entries, children, before.expanded@, ranks);
                assert(is_covered(entries, children, before.expanded@, ranks, list[k].0));
                lemma_collapsed_row_stays(
                    entries,
                    children,
                    before.expanded@,
                    ranks,
                    before.collapse()->0,
                    list[k].0,
                    list[k].1,
                    children.len(),
                    idx,
                );
            } else {
                lemma_entry_reached_by_itself(entries, children, before.expanded@, list, idx, k);
                lemma_subtree_has(
                    entries,
                    children,
                    after.expanded@,
                    list[k].0,
                    list[k].1,
                    children.len(),
                    idx,
                );
            }
            lemma_tree_has(entries, children, after.expanded@, list, idx);
            assert(is_reached(entries, children, after.expanded@, list, idx, k));
        }
    }
}

/// Collapsing keeps the selection on the entry that it is on.
pub proof fn law_collapsing_keeps_the_selection(before: App, after: App)
    requires
        before.wf(),
        before.is_ranking(before.ranking()),
        before.shows(before.listing()),
        before.selection() is Some,
        after.is_collapsed_from(before),
    ensures
        after.selection() is Some,
        after.selection()->0@.identity_key() == before.selection()->0@.identity_key(),
{
    if before.collapse() is Some {
        lemma_collapsing_keeps_the_row(before, after);
        let key = before.selection()->0@.identity_key();
        lemma_selects_shown(after, selected_index(before), key);
    }
}

/// An entry of the list is shown in its own row only.
proof fn lemma_entry_reached_by_itself(
    entries: Seq<EntryView>,
    children: Seq<EntryView>,
    expanded: Set<Seq<char>>,
    list: Seq<(int, i64)>,
    idx: int,
    k: int,
)
    requires
        idx < entries.len(),
        is_reached(entries, children, expanded, list, idx, k),
    ensures
        list[k].0 == idx,
{
    if list[k].0 != idx {
        let from = list[k].0;
        lemma_subtree_has(entries, children, expanded, from, list[k].1, children.len(), idx);
        let c = choose|c: int|
            0 <= c < children.len() && #[trigger] comes_through(
                entries,
                children,
                expanded,
                entry_at(entries, children, from),
                (children.len() - 1) as nat,
                idx,
                c,
            );
        lemma_child_has_no_entry(
            entries,
            children,
            expanded,
            entries.len() + c,
            0,
            (children.len() - 1) as nat,
            idx,
        );
    }
}

proof fn lemma_child_has_no_entry(
    entries: Seq<EntryView>,
    children: Seq<EntryView>,
    expanded: Set<Seq<char>>,
    from: int,
    score: i64,
    depth: nat,
    idx: int,
)
    requires
        idx < entries.len() <= from,
    ensures
        !has_row(subtree(entries, children, expanded, from, score, depth), idx),
    decreases depth,
{
    lemma_subtree_has(entries, children, expanded, from, score, depth, idx);
    if has_row(subtree(entries, children, expanded, from, score, depth), idx) {
        let c = choose|c: int|
            0 <= c < children.len() && #[trigger] comes_through(
                entries,
                children,
                expanded,
                entry_at(entries, children, from),
                (depth - 1) as nat,
                idx,
                c,
            );
        lemma_child_has_no_entry(
            entries,
            children,
            expanded,
            entries.len() + c,
            0,
            (depth - 1) as nat,
            idx,
        );
    }
}

/// Whether no two rows of the list have one identity.
pub open spec fn tells_rows_apart(app: App) -> bool {
    forall|a: int, b: int, key: Seq<char>| #[trigger]
        app.row_has(a, key) && #[trigger] app.row_has(b, key) ==> a == b
}

/// Whether workspaces and tabs that have one identifier are marked as expanded under one key: no
/// workspace has the identifier of a tab.
pub open spec fn tells_ids_apart(app: App) -> bool {
    let (entries, children) = (views(app.entries@), views(app.child_entries@));
    forall|i: int, j: int|
        0 <= i < entries.len() + children.len() && 0 <= j < entries.len() + children.len()
            && #[trigger] entry_at(entries, children, i).tree_id() is Some && entry_at(
            entries,
            children,
            i,
        ).tree_id() == #[trigger] entry_at(entries, children, j).tree_id() ==> entry_at(
            entries,
            children,
            i,
        ).expand_key() == entry_at(entries, children, j).expand_key()
}

/// Where identities are told apart, the selection goes to the entry with the identity itself.
proof fn lemma_selects_same_entry(app: App, idx: int, key: Seq<char>)
    requires
        app.shows(app.listing()),
        app.selects(key),
        tells_rows_apart(app),
        has_row(app.listing(), idx),
        app.entry(idx) is Some,
        app.entry(idx)->0@.identity_key() == key,
    ensures
        app.selection() == app.entry(idx),
{
    let list = app.listing();
    let k = choose|k: int| 0 <= k < list.len() && (#[trigger] list[k]).0 == idx;
    assert(rows(app.filtered@, app.filtered_scores@)[k].0 == app.filtered@[k] as int);
    assert(app.row_has(k, key));
    assert(app.row_has(app.selected as int, key));
}

/// A subtree is the same among more rows of which none is shown under the others, and with any
/// depth that suffices.
proof fn lemma_same_subtree(
    entries: Seq<EntryView>,
    children: Seq<EntryView>,
    grown: Seq<EntryView>,
    expanded: Set<Seq<char>>,
    ranks: Seq<Option<nat>>,
    from: int,
    score: i64,
    depth: nat,
    other_depth: nat,
)
    requires
        0 <= from < entries.len() + children.len(),
        adds_unshown(entries, children, grown, expanded),
        is_ranked(children, expanded, ranks),
        is_covered(entries, children, expanded, ranks, from),
        depth >= levels(entries, children, ranks, from),
        other_depth >= levels(entries, children, ranks, from),
    ensures
        subtree(entries, children, expanded, from, score, depth) == subtree(
            entries,
            grown,
            expanded,
            from,
            score,
            other_depth,
        ),
    decreases depth, 0nat,
{
    let parent = entry_at(entries, children, from);
    if from >= entries.len() {
        assert(grown[from - entries.len()] == children[from - entries.len()]);
    }
    assert(entry_at(entries, grown, from) == parent);
    assert forall|d: int| children.len() <= d < grown.len() implies !#[trigger] opens(
        grown,
        expanded,
        parent,
        d,
    ) by {
        assert(!opens(grown, expanded, entry_at(entries, children, from), d));
    }
    assert forall|d: int| 0 <= d < children.len() implies #[trigger] opens(
        grown,
        expanded,
        parent,
        d,
    ) == opens(children, expanded, parent, d) by {
        assert(grown[d] == children[d]);
    }
    if exists|c: int| 0 <= c < children.len() && #[trigger] opens(children, expanded, parent, c) {
        assert forall|c: int|
            0 <= c < children.len() && #[trigger] opens(
                children,
                expanded,
                parent,
                c,
            ) implies ranks[c] is Some && ranks[c]->0 < depth && ranks[c]->0 < other_depth by {
            if from >= entries.len() {
                assert(opens(children, expanded, children[from - entries.len()], c));
            }
        }
        let (lower, other_lower) = ((depth - 1) as nat, (other_depth - 1) as nat);
        lemma_same_below(
            entries,
            children,
            grown,
            expanded,
            ranks,
            parent,
            children.len(),
            lower,
            other_lower,
        );
        lemma_below_tail(entries, children, grown, expanded, parent, grown.len(), other_lower);
    } else {
        let own = seq![(from, score)];
        if depth > 0 {
            lemma_none_open_below(
                entries,
                children,
                expanded,
                parent,
                children.len(),
                (depth - 1) as nat,
            );
        }
        if other_depth > 0 {
            lemma_none_open_below(
                entries,
                grown,
                expanded,
                parent,
                grown.len(),
                (other_depth - 1) as nat,
            );
        }
        assert(own + Seq::<(int, i64)>::empty() =~= own);
    }
}

/// Whether rows of the tree are among more rows of which none is shown under an entry or one of
/// them.
spec fn adds_unshown(
    entries: Seq<EntryView>,
    children: Seq<EntryView>,
    grown: Seq<EntryView>,
    expanded: Set<Seq<char>>,
) -> bool {
    &&& children.len() <= grown.len()
    &&& forall|c: int| 0 <= c < children.len() ==> #[trigger] grown[c] == children[c]
    &&& forall|i: int, d: int|
        0 <= i < entries.len() + children.len() && children.len() <= d < grown.len()
            ==> !#[trigger] opens(grown, expanded, entry_at(entries, children, i), d)
}

proof fn lemma_same_below(
    entries: Seq<EntryView>,
    children: Seq<EntryView>,
    grown: Seq<EntryView>,
    expanded: Set<Seq<char>>,
    ranks: Seq<Option<nat>>,
    parent: EntryView,
    count: nat,
    depth: nat,
    other_depth: nat,
)
    requires
        count <= children.len(),
        adds_unshown(entries, children, grown, expanded),
        is_ranked(children, expanded, ranks),
        forall|c: int|
            0 <= c < children.len() && #[trigger] opens(children, expanded, parent, c)
                ==> ranks[c] is Some && ranks[c]->0 <= depth && ranks[c]->0 <= other_depth,
    ensures
        below(entries, children, expanded, parent, count, depth) == below(
            entries,
            grown,
            expanded,
            parent,
            count,
            other_depth,
        ),
    decreases depth, count,
{
    if count > 0 {
        let c = (count - 1) as nat;
        lemma_same_below(
            entries,
            children,
            grown,
            expanded,
            ranks,
            parent,
            c,
            depth,
            other_depth,
        );
        assert(grown[c as int] == children[c as int]);
        if opens(children, expanded, parent, c as int) {
            lemma_same_subtree(
                entries,
                children,
                grown,
                expanded,
                ranks,
                (entries.len() + c) as int,
                0,
                depth,
                other_depth,
            );
        }
    }
}

proof fn lemma_below_tail(
    entries: Seq<EntryView>,
    children: Seq<EntryView>,
    grown: Seq<EntryView>,
    expanded: Set<Seq<char>>,
    parent: EntryView,
    count: nat,
    depth: nat,
)
    requires
        children.len() <= count <= grown.len(),
        forall|d: int|
            children.len() <= d < grown.len() ==> !#[trigger] opens(grown, expanded, parent, d),
    ensures
        below(entries, grown, expanded, parent, count, depth) == below(
            entries,
            grown,
            expanded,
            parent,
            children.len(),
            depth,
        ),
    decreases count,
{
    if count > children.len() {
        let c = (count - 1) as nat;
        lemma_below_tail(entries, children, grown, expanded, parent, c, depth);
        assert(!opens(grown, expanded, parent, c as int));
        assert(below(entries, grown, expanded, parent, count, depth) =~= below(
            entries,
            grown,
            expanded,
            parent,
            c,
            depth,
        ));
    }
}

proof fn lemma_same_tree(
    entries: Seq<EntryView>,
    children: Seq<EntryView>,
    grown: Seq<EntryView>,
    expanded: Set<Seq<char>>,
    ranks: Seq<Option<nat>>,
    list: Seq<(int, i64)>,
)
    requires
        adds_unshown(entries, children, grown, expanded),
        covers_entries(entries, children, expanded, ranks),
        forall|k: int| 0 <= k < list.len() ==> 0 <= (#[trigger] list[k]).0 < entries.len(),
    ensures
        tree_rows(entries, children, expanded, list) == tree_rows(entries, grown, expanded, list),
    decreases list.len(),
{
    if list.len() > 0 {
        lemma_same_tree(entries, children, grown, expanded, ranks, list.drop_last());
        let (idx, score) = list.last();
        assert(0 <= list[list.len() - 1].0 < entries.len());
        assert(is_covered(entries, children, expanded, ranks, idx));
        lemma_same_subtree(
            entries,
            children,
            grown,
            expanded,
            ranks,
            idx,
            score,
            children.len(),
            grown.len(),
        );
    }
}

/// The rows that Herdr's reply adds name the selected entry as their parent.
proof fn lemma_new_rows_parent(app: App, reply: DataView)
    ensures
        forall|k: int|
            0 <= k < app.new_rows(reply).len() ==> app.selection() is Some && (
            #[trigger] app.new_rows(reply)[k]).parent_id == app.selection()->0@.tree_id(),
{
    if let Some(fetch) = app.fetch_needed() {
        match fetch {
            FetchView::Tabs { .. } => {},
            FetchView::Panes { workspace_id, tab_id } => {
                law_pane_rows_open_nothing(reply, workspace_id, tab_id);
            },
        }
    }
}

/// What is listed before an entry was expanded is listed again where only its own rows were added
/// since, and no workspace has the identifier of a tab.
proof fn lemma_added_rows_are_hidden(before: App, after: App, reply: DataView)
    requires
        before.wf(),
        before.is_ranking(before.ranking()),
        before.expansion() is Some,
        tells_ids_apart(before),
        after.same_but_tree(before),
        after.expanded@ == before.expanded@,
        views(after.child_entries@) == views(before.child_entries@) + before.new_rows(reply),
    ensures
        after.listing() == before.listing(),
{
    let (entries, children) = (views(before.entries@), views(before.child_entries@));
    let grown = views(after.child_entries@);
    let list = before.flat_rows();
    let idx = selected_index(before);
    lemma_same_flat_rows(before, after);
    lemma_new_rows_parent(before, reply);
    assert(entry_at(entries, children, idx) == before.selection()->0@);
    assert forall|i: int, d: int|
        0 <= i < entries.len() + children.len() && children.len() <= d < grown.len()
            implies !#[trigger] opens(
        grown,
        before.expanded@,
        entry_at(entries, children, i),
        d,
    ) by {
        assert(grown[d] == before.new_rows(reply)[d - children.len()]);
        let other = entry_at(entries, children, i);
        if other.tree_id() is Some && other.tree_id() == entry_at(entries, children, idx).tree_id() {
            assert(other.expand_key() == entry_at(entries, children, idx).expand_key());
        }
    }
    assert forall|k: int| 0 <= k < list.len() implies 0 <= (#[trigger] list[k]).0
        < entries.len() by {
        assert(before.ranking()[k] < before.entries@.len());
    }
    if before.is_unfiltered() {
        let ranks = choose|ranks: Seq<Option<nat>>|
            covers_entries(entries, children, before.expanded@, ranks);
        lemma_same_tree(entries, children, grown, before.expanded@, ranks, list);
    }
}

/// Two states that show one listing have the same rows.
proof fn lemma_same_rows(one: App, other: App)
    requires
        one.shows(one.listing()),
        other.shows(other.listing()),
        one.listing() == other.listing(),
    ensures
        one.filtered@ == other.filtered@,
        one.filtered_scores@ == other.filtered_scores@,
{
    let a = rows(one.filtered@, one.filtered_scores@);
    let b = rows(other.filtered@, other.filtered_scores@);
    assert(a.len() == one.filtered@.len() && b.len() == other.filtered@.len());
    assert forall|k: int| 0 <= k < a.len() implies one.filtered@[k] == other.filtered@[k]
        && one.filtered_scores@[k] == other.filtered_scores@[k] by {
        assert(a[k] == b[k]);
    }
    assert(one.filtered@ =~= other.filtered@);
    assert(one.filtered_scores@ =~= other.filtered_scores@);
}

/// Collapsing undoes expanding: what is expanded is as before, and so is the selection; and where no
/// workspace has the identifier of a tab so is the list, whatever rows were fetched. The shown
/// identities must differ.
pub proof fn law_collapsing_undoes_expanding(
    before: App,
    expanded: App,
    after: App,
    reply: DataView,
)
    requires
        before.wf(),
        before.is_ranking(before.ranking()),
        before.shows(before.listing()),
        before.expansion() is Some,
        expanded.wf(),
        expanded.is_expanded_from(before, reply),
        tells_rows_apart(expanded),
        after.is_collapsed_from(expanded),
    ensures
        expanded.collapse() == before.expansion(),
        after.expanded@ == before.expanded@,
        after.selection() is Some,
        after.selection()->0@.identity_key() == before.selection()->0@.identity_key(),
        tells_ids_apart(before) ==> after.filtered@ == before.filtered@
            && after.filtered_scores@ == before.filtered_scores@,
{
    let key = before.selection()->0@.identity_key();
    lemma_expanding_keeps_the_row(before, expanded, reply);
    lemma_selects_same_entry(expanded, selected_index(before), key);
    law_collapsing_keeps_the_selection(expanded, after);
    assert(after.expanded@ =~= before.expanded@);
    if tells_ids_apart(before) {
        lemma_added_rows_are_hidden(before, after, reply);
        lemma_same_rows(after, before);
    }
}

/// Expanding undoes collapsing: what is expanded is as before, and so is the selection; and where no
/// rows were fetched so is the list. The shown identities must differ.
pub proof fn law_expanding_undoes_collapsing(
    before: App,
    collapsed: App,
    after: App,
    reply: DataView,
)
    requires
        before.wf(),
        before.is_ranking(before.ranking()),
        before.shows(before.listing()),
        before.collapse() is Some,
        collapsed.is_collapsed_from(before),
        tells_rows_apart(collapsed),
        after.wf(),
        after.is_expanded_from(collapsed, reply),
    ensures
        collapsed.expansion() == before.collapse(),
        after.expanded@ == before.expanded@,
        after.selection() is Some,
        after.selection()->0@.identity_key() == before.selection()->0@.identity_key(),
        collapsed.new_rows(reply).len() == 0 ==> after.filtered@ == before.filtered@
            && after.filtered_scores@ == before.filtered_scores@,
{
    let key = before.selection()->0@.identity_key();
    lemma_collapsing_keeps_the_row(before, collapsed);
    lemma_selects_same_entry(collapsed, selected_index(before), key);
    law_expanding_keeps_the_selection(collapsed, after, reply);
    assert(after.expanded@ =~= before.expanded@);
    if collapsed.new_rows(reply).len() == 0 {
        lemma_same_flat_rows(before, collapsed);
        lemma_same_flat_rows(collapsed, after);
        assert(views(after.child_entries@) =~= views(before.child_entries@));
        lemma_same_rows(after, before);
    }
}

/// Toggling a workspace or tab flips whether it is expanded, and toggling it twice restores what is
/// expanded and the selection. Where it was not expanded before, the list is as before too, unless a
/// workspace has the identifier of a tab. The shown identities must differ in between.
pub proof fn law_toggling_twice_restores(
    before: App,
    once: App,
    twice: App,
    first_reply: DataView,
    second_reply: DataView,
)
    requires
        before.wf(),
        before.is_ranking(before.ranking()),
        before.shows(before.listing()),
        before.selection() is Some,
        before.selection()->0@.expand_key() is Some,
        once.wf(),
        once.is_toggled_from(before, first_reply),
        tells_rows_apart(once),
        twice.wf(),
        twice.is_toggled_from(once, second_reply),
    ensures
        once.collapse() is Some <==> before.collapse() is None,
        twice.expanded@ == before.expanded@,
        twice.selection() is Some,
        twice.selection()->0@.identity_key() == before.selection()->0@.identity_key(),
        before.collapse() is None && tells_ids_apart(before) ==> twice.filtered@
            == before.filtered@ && twice.filtered_scores@ == before.filtered_scores@,
{
    let key = before.selection()->0@.identity_key();
    if before.collapse() is Some {
        lemma_collapsing_keeps_the_row(before, once);
        lemma_selects_same_entry(once, selected_index(before), key);
        law_expanding_undoes_collapsing(before, once, twice, second_reply);
    } else {
        lemma_expanding_keeps_the_row(before, once, first_reply);
        lemma_selects_same_entry(once, selected_index(before), key);
        law_collapsing_undoes_expanding(before, once, twice, first_reply);
    }
}

/// Expanding a tab whose panes are fetched keeps the tree finite, whatever Herdr replies.
pub proof fn law_fetched_panes_keep_the_tree_finite(app: App, reply: DataView)
    requires
        app.wf(),
        app.fetch_needed() is Some,
        app.fetch_needed()->0 is Panes,
        app.entries@.len() + app.child_entries@.len() + app.new_rows(reply).len() <= usize::MAX,
    ensures
        app.expands_soundly(reply),
{
    if app.is_unfiltered() {
        lemma_fetched_panes(app, reply);
    }
}

proof fn lemma_fetched_panes(app: App, reply: DataView)
    requires
        app.wf(),
        app.is_unfiltered(),
        app.fetch_needed() is Some,
        app.fetch_needed()->0 is Panes,
    ensures
        is_finite_tree(
            views(app.entries@),
            views(app.child_entries@) + app.new_rows(reply),
            app.expanded@.insert(app.expansion()->0),
        ),
{
    let (entries, children) = (views(app.entries@), views(app.child_entries@));
    let added = app.new_rows(reply);
    let all = children + added;
    let (key, id) = (app.expansion()->0, app.selection()->0@.tree_id()->0);
    let more = app.expanded@.insert(key);
    let ranks = choose|ranks: Seq<Option<nat>>|
        covers_entries(entries, children, app.expanded@, ranks);
    lemma_panes_open_nothing(app, reply);
    assert forall|c: int| 0 <= c < children.len() implies #[trigger] children[c].parent_id
        != Some(id) by {
        assert(app.child_entries@[c]@.parent_id != Some(id));
    }
    assert forall|parent: EntryView, d: int|
        0 <= d < children.len() && #[trigger] opens(all, more, parent, d) implies opens(
        children,
        app.expanded@,
        parent,
        d,
    ) by {
        assert(all[d] == children[d]);
        if parent.expand_key() == Some(key) {
            lemma_same_tree_id(parent, app.selection()->0@);
        }
    }
    let lift: nat = if added.len() > 0 {
        1
    } else {
        0
    };
    let lifted = Seq::new(
        all.len(),
        |c: int|
            if c >= children.len() {
                Some(0nat)
            } else if ranks[c] is Some {
                Some(ranks[c]->0 + lift)
            } else {
                None
            },
    );
    assert forall|c: int, d: int|
        0 <= c < all.len() && 0 <= d < all.len() && lifted[c] is Some && #[trigger] opens(
            all,
            more,
            all[c],
            d,
        ) implies lifted[d] is Some && lifted[d]->0 < lifted[c]->0 by {
        if c >= children.len() {
            assert(all[c] == added[c - children.len()]);
        } else {
            assert(all[c] == children[c]);
            if d < children.len() {
                assert(opens(children, app.expanded@, children[c], d));
            }
        }
    }
    assert forall|i: int| 0 <= i < entries.len() implies #[trigger] is_covered(
        entries,
        all,
        more,
        lifted,
        i,
    ) by {
        assert(is_covered(entries, children, app.expanded@, ranks, i));
        assert forall|d: int|
            0 <= d < all.len() && #[trigger] opens(all, more, entries[i], d) implies lifted[d]
            is Some by {
            if d < children.len() {
                assert(opens(children, app.expanded@, entries[i], d));
            }
        }
    }
    assert(covers_entries(entries, all, more, lifted));
}

proof fn lemma_panes_open_nothing(app: App, reply: DataView)
    requires
        app.fetch_needed() is Some,
        app.fetch_needed()->0 is Panes,
    ensures
        forall|c: int|
            0 <= c < app.new_rows(reply).len() ==> (#[trigger] app.new_rows(reply)[c]).expand_key()
                is None,
{
    let fetch = app.fetch_needed()->0;
    law_pane_rows_open_nothing(
        reply,
        fetch->Panes_workspace_id,
        fetch->tab_id,
    );
}

} // verus!
