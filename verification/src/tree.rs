//! The tree of tabs and panes under expanded entries.

use crate::keys::expand_key;
use crate::model::{Entry, EntryAction, EntryView};
use crate::string_set::StringSet;
use crate::text::{content, same_option};
use vstd::prelude::*;

verus! {

/// What each entry says.
pub open spec fn views(entries: Seq<Entry>) -> Seq<EntryView> {
    Seq::new(entries.len(), |i: int| entries[i]@)
}

/// Whether row `c` of the tree is shown under an entry: the entry is expanded and the row names it
/// as its parent.
pub open spec fn opens(
    children: Seq<EntryView>,
    expanded: Set<Seq<char>>,
    parent: EntryView,
    c: int,
) -> bool {
    &&& parent.expand_key() is Some
    &&& expanded.contains(parent.expand_key()->0)
    &&& children[c].parent_id == parent.tree_id()
}

/// Whether rows of the tree have ranks, not necessarily all of them, so that under a row with a rank
/// only rows with lower ranks are shown.
pub open spec fn is_ranked(
    children: Seq<EntryView>,
    expanded: Set<Seq<char>>,
    ranks: Seq<Option<nat>>,
) -> bool {
    &&& ranks.len() == children.len()
    &&& forall|c: int|
        0 <= c < children.len() && (#[trigger] ranks[c]) is Some ==> ranks[c]->0 < children.len()
    &&& forall|c: int, d: int|
        0 <= c < children.len() && 0 <= d < children.len() && ranks[c] is Some && #[trigger] opens(
            children,
            expanded,
            children[c],
            d,
        ) ==> ranks[d] is Some && ranks[d]->0 < ranks[c]->0
}

/// Whether all rows shown under an index have ranks.
pub open spec fn is_covered(
    entries: Seq<EntryView>,
    children: Seq<EntryView>,
    expanded: Set<Seq<char>>,
    ranks: Seq<Option<nat>>,
    idx: int,
) -> bool {
    if idx < entries.len() {
        forall|d: int|
            0 <= d < children.len() && #[trigger] opens(children, expanded, entries[idx], d)
                ==> ranks[d] is Some
    } else if idx < entries.len() + children.len() {
        ranks[idx - entries.len()] is Some
    } else {
        true
    }
}

/// Whether ranks cover all that is shown under some indices.
pub open spec fn covers(
    entries: Seq<EntryView>,
    children: Seq<EntryView>,
    expanded: Set<Seq<char>>,
    ranks: Seq<Option<nat>>,
    indices: Seq<usize>,
) -> bool {
    &&& is_ranked(children, expanded, ranks)
    &&& forall|k: int|
        0 <= k < indices.len() ==> #[trigger] is_covered(
            entries,
            children,
            expanded,
            ranks,
            indices[k] as int,
        )
}

/// Whether nothing that is shown under some indices is shown, through any number of levels, under
/// itself.
pub open spec fn is_finite_below(
    entries: Seq<EntryView>,
    children: Seq<EntryView>,
    expanded: Set<Seq<char>>,
    indices: Seq<usize>,
) -> bool {
    exists|ranks: Seq<Option<nat>>| covers(entries, children, expanded, ranks, indices)
}

/// Whether ranks cover all that is shown under the entries.
pub open spec fn covers_entries(
    entries: Seq<EntryView>,
    children: Seq<EntryView>,
    expanded: Set<Seq<char>>,
    ranks: Seq<Option<nat>>,
) -> bool {
    &&& is_ranked(children, expanded, ranks)
    &&& forall|i: int|
        0 <= i < entries.len() ==> #[trigger] is_covered(entries, children, expanded, ranks, i)
}

/// Whether no row of the tree that is shown under an entry is shown, through any number of levels,
/// under itself.
pub open spec fn is_finite_tree(
    entries: Seq<EntryView>,
    children: Seq<EntryView>,
    expanded: Set<Seq<char>>,
) -> bool {
    exists|ranks: Seq<Option<nat>>| covers_entries(entries, children, expanded, ranks)
}

/// A finite tree is finite below each list of entries.
pub proof fn lemma_finite_below_entries(
    entries: Seq<EntryView>,
    children: Seq<EntryView>,
    expanded: Set<Seq<char>>,
    indices: Seq<usize>,
)
    requires
        is_finite_tree(entries, children, expanded),
        forall|k: int| 0 <= k < indices.len() ==> #[trigger] indices[k] < entries.len(),
    ensures
        is_finite_below(entries, children, expanded, indices),
{
    let ranks = choose|ranks: Seq<Option<nat>>|
        covers_entries(entries, children, expanded, ranks);
    assert forall|k: int| 0 <= k < indices.len() implies #[trigger] is_covered(
        entries,
        children,
        expanded,
        ranks,
        indices[k] as int,
    ) by {
        assert(indices[k] < entries.len());
    }
    assert(covers(entries, children, expanded, ranks, indices));
}

/// The entry at an index: those of the list first, then the rows of the tree.
pub open spec fn entry_at(entries: Seq<EntryView>, children: Seq<EntryView>, idx: int) -> EntryView {
    if idx < entries.len() {
        entries[idx]
    } else {
        children[idx - entries.len()]
    }
}

/// An entry's own row and the rows shown under it, down to `depth` levels. A row is an index and a
/// score. An index that stands for no entry has its own row only.
pub open spec fn subtree(
    entries: Seq<EntryView>,
    children: Seq<EntryView>,
    expanded: Set<Seq<char>>,
    idx: int,
    score: i64,
    depth: nat,
) -> Seq<(int, i64)>
    decreases depth, 0nat,
{
    if depth == 0 || idx >= entries.len() + children.len() {
        seq![(idx, score)]
    } else {
        seq![(idx, score)] + below(
            entries,
            children,
            expanded,
            entry_at(entries, children, idx),
            children.len(),
            (depth - 1) as nat,
        )
    }
}

/// The rows that the first `n` rows of the tree contribute under an entry.
pub open spec fn below(
    entries: Seq<EntryView>,
    children: Seq<EntryView>,
    expanded: Set<Seq<char>>,
    parent: EntryView,
    n: nat,
    depth: nat,
) -> Seq<(int, i64)>
    decreases depth, n,
{
    if n == 0 {
        Seq::empty()
    } else {
        let c = n - 1;
        below(entries, children, expanded, parent, c as nat, depth) + if opens(
            children,
            expanded,
            parent,
            c,
        ) {
            subtree(entries, children, expanded, entries.len() + c, 0, depth)
        } else {
            Seq::empty()
        }
    }
}

/// The rows of a list with the tree put in: each entry of the list is followed by what is shown
/// under it. A tree of finite depth is nowhere deeper than it has rows.
pub open spec fn tree_rows(
    entries: Seq<EntryView>,
    children: Seq<EntryView>,
    expanded: Set<Seq<char>>,
    list: Seq<(int, i64)>,
) -> Seq<(int, i64)>
    decreases list.len(),
{
    if list.len() == 0 {
        Seq::empty()
    } else {
        tree_rows(entries, children, expanded, list.drop_last()) + subtree(
            entries,
            children,
            expanded,
            list.last().0,
            list.last().1,
            children.len(),
        )
    }
}

/// Indices and scores as rows. Where a score is missing it is zero.
pub open spec fn rows(indices: Seq<usize>, scores: Seq<i64>) -> Seq<(int, i64)> {
    Seq::new(
        indices.len(),
        |i: int|
            (
                indices[i] as int,
                if i < scores.len() {
                    scores[i]
                } else {
                    0
                },
            ),
    )
}

/// Whether row `c` is shown under an entry with these keys.
fn is_child(child: &Entry, parent: &Entry) -> (yes: bool)
    ensures
        parent@.tree_id() is Some ==> yes == (content(child.parent_id) == parent@.tree_id()),
{
    match &parent.action {
        EntryAction::FocusWorkspace { id } => same_option(&child.parent_id, Some(id.as_str())),
        EntryAction::FocusTab { id } => same_option(&child.parent_id, Some(id.as_str())),
        _ => false,
    }
}

/// Whether an entry is marked as expanded.
pub fn is_expanded(entry: &Entry, expanded: &StringSet) -> (yes: bool)
    ensures
        yes == (entry@.expand_key() is Some && expanded@.contains(entry@.expand_key()->0)),
{
    match expand_key(entry) {
        Some(key) => expanded.contains(key.as_str()),
        None => false,
    }
}

/// Puts an entry's own row and the rows shown under it at the end of a list.
fn walk(
    entries: &Vec<Entry>,
    children: &Vec<Entry>,
    expanded: &StringSet,
    idx: usize,
    score: i64,
    out: &mut Vec<usize>,
    scores: &mut Vec<i64>,
    Ghost(ranks): Ghost<Seq<Option<nat>>>,
    Ghost(depth): Ghost<nat>,
)
    requires
        entries.len() + children.len() <= usize::MAX,
        is_ranked(views(children@), expanded@, ranks),
        is_covered(views(entries@), views(children@), expanded@, ranks, idx as int),
        depth >= (if entries.len() <= idx < entries.len() + children.len() {
            ranks[idx - entries.len()]->0
        } else {
            children.len() as nat
        }),
        old(out).len() == old(scores).len(),
    ensures
        final(out).len() == final(scores).len(),
        rows(final(out)@, final(scores)@) == rows(old(out)@, old(scores)@) + subtree(
            views(entries@),
            views(children@),
            expanded@,
            idx as int,
            score,
            depth,
        ),
    decreases depth,
{
    out.push(idx);
    scores.push(score);
    let ghost start = rows(out@, scores@);
    assert(start =~= rows(old(out)@, old(scores)@) + seq![(idx as int, score)]);
    if idx >= entries.len() + children.len() {
        return;
    }
    let entry: &Entry = if idx < entries.len() {
        &entries[idx]
    } else {
        &children[idx - entries.len()]
    };
    let ghost parent = entry@;
    proof {
        assert forall|d: int|
            0 <= d < children.len() && #[trigger] opens(
                views(children@),
                expanded@,
                parent,
                d,
            ) implies depth > 0 && ranks[d] is Some && ranks[d]->0 < depth by {
            if idx >= entries.len() {
                assert(opens(views(children@), expanded@, views(children@)[idx - entries.len()], d));
            } else {
                assert(views(entries@)[idx as int] == parent);
            }
        }
    }
    if !is_expanded(entry, expanded) {
        proof {
            lemma_none_below(
                views(entries@),
                views(children@),
                expanded@,
                parent,
                children@.len(),
                (depth - 1) as nat,
            );
            assert(start + Seq::empty() =~= start);
        }
        return;
    }
    let ghost lower: nat = if depth > 0 { (depth - 1) as nat } else { 0 };
    let mut c: usize = 0;
    assert(start + below(views(entries@), views(children@), expanded@, parent, 0, lower) =~= start);
    while c < children.len()
        invariant
            entries.len() + children.len() <= usize::MAX,
            is_ranked(views(children@), expanded@, ranks),
            c <= children.len(),
            parent == entry@,
            parent.expand_key() is Some,
            expanded@.contains(parent.expand_key()->0),
            forall|d: int|
                0 <= d < children.len() && #[trigger] opens(
                    views(children@),
                    expanded@,
                    parent,
                    d,
                ) ==> depth > 0 && ranks[d] is Some && ranks[d]->0 < depth,
            lower == (if depth > 0 {
                (depth - 1) as nat
            } else {
                0
            }),
            out.len() == scores.len(),
            rows(out@, scores@) == start + below(
                views(entries@),
                views(children@),
                expanded@,
                parent,
                c as nat,
                lower,
            ),
        decreases children.len() - c,
    {
        let shown: bool = is_child(&children[c], entry);
        assert(shown == opens(views(children@), expanded@, parent, c as int));
        if shown {
            walk(
                entries,
                children,
                expanded,
                entries.len() + c,
                0,
                out,
                scores,
                Ghost(ranks),
                Ghost(lower),
            );
        }
        proof {
            let grown = below(views(entries@), views(children@), expanded@, parent, c as nat, lower);
            let added = if shown {
                subtree(views(entries@), views(children@), expanded@, entries.len() + c, 0, lower)
            } else {
                Seq::empty()
            };
            assert(start + grown + added =~= start + (grown + added));
        }
        c += 1;
    }
    proof {
        if depth == 0 {
            lemma_none_open_below(
                views(entries@),
                views(children@),
                expanded@,
                parent,
                children@.len(),
                lower,
            );
            assert(start + Seq::empty() =~= start);
        } else {
            assert(rows(old(out)@, old(scores)@) + (seq![(idx as int, score)] + below(
                views(entries@),
                views(children@),
                expanded@,
                parent,
                children@.len(),
                lower,
            )) =~= start + below(
                views(entries@),
                views(children@),
                expanded@,
                parent,
                children@.len(),
                lower,
            ));
        }
    }
}

/// Nothing is shown under an entry that is not expanded.
pub proof fn lemma_none_below(
    entries: Seq<EntryView>,
    children: Seq<EntryView>,
    expanded: Set<Seq<char>>,
    parent: EntryView,
    n: nat,
    depth: nat,
)
    requires
        !(parent.expand_key() is Some && expanded.contains(parent.expand_key()->0)),
    ensures
        below(entries, children, expanded, parent, n, depth) == Seq::<(int, i64)>::empty(),
    decreases n,
{
    if n > 0 {
        lemma_none_below(entries, children, expanded, parent, (n - 1) as nat, depth);
    }
}

/// Nothing is shown under an entry that no row names as its parent.
pub proof fn lemma_none_open_below(
    entries: Seq<EntryView>,
    children: Seq<EntryView>,
    expanded: Set<Seq<char>>,
    parent: EntryView,
    n: nat,
    depth: nat,
)
    requires
        n <= children.len(),
        forall|d: int| 0 <= d < children.len() ==> !#[trigger] opens(children, expanded, parent, d),
    ensures
        below(entries, children, expanded, parent, n, depth) == Seq::<(int, i64)>::empty(),
    decreases n,
{
    if n > 0 {
        lemma_none_open_below(entries, children, expanded, parent, (n - 1) as nat, depth);
    }
}

/// Puts the tree into a list: each of its entries is followed by what is shown under it.
pub fn put_tree_in(
    entries: &Vec<Entry>,
    children: &Vec<Entry>,
    expanded: &StringSet,
    indices: &Vec<usize>,
    scores: &Vec<i64>,
) -> (grown: (Vec<usize>, Vec<i64>))
    requires
        entries.len() + children.len() <= usize::MAX,
        is_finite_below(views(entries@), views(children@), expanded@, indices@),
    ensures
        grown.0.len() == grown.1.len(),
        rows(grown.0@, grown.1@) == tree_rows(
            views(entries@),
            views(children@),
            expanded@,
            rows(indices@, scores@),
        ),
{
    let ghost ranks = choose|ranks: Seq<Option<nat>>|
        covers(views(entries@), views(children@), expanded@, ranks, indices@);
    let ghost list = rows(indices@, scores@);
    let mut out: Vec<usize> = Vec::new();
    let mut out_scores: Vec<i64> = Vec::new();
    let mut i: usize = 0;
    assert(rows(out@, out_scores@) =~= tree_rows(
        views(entries@),
        views(children@),
        expanded@,
        list.take(0),
    ));
    while i < indices.len()
        invariant
            entries.len() + children.len() <= usize::MAX,
            covers(views(entries@), views(children@), expanded@, ranks, indices@),
            list == rows(indices@, scores@),
            i <= indices.len(),
            out.len() == out_scores.len(),
            rows(out@, out_scores@) == tree_rows(
                views(entries@),
                views(children@),
                expanded@,
                list.take(i as int),
            ),
        decreases indices.len() - i,
    {
        let score: i64 = if i < scores.len() {
            scores[i]
        } else {
            0
        };
        assert(is_covered(
            views(entries@),
            views(children@),
            expanded@,
            ranks,
            indices@[i as int] as int,
        ));
        walk(
            entries,
            children,
            expanded,
            indices[i],
            score,
            &mut out,
            &mut out_scores,
            Ghost(ranks),
            Ghost(children@.len()),
        );
        assert(list.take(i + 1).drop_last() =~= list.take(i as int));
        i += 1;
    }
    assert(list.take(i as int) =~= list);
    (out, out_scores)
}

/// How many places are still open, that is, hold `open`.
spec fn open_places(places: Seq<usize>, open: usize) -> nat
    decreases places.len(),
{
    if places.len() == 0 {
        0
    } else {
        open_places(places.drop_last(), open) + if places.last() == open {
            1nat
        } else {
            0
        }
    }
}

proof fn lemma_open_places(places: Seq<usize>, open: usize)
    ensures
        open_places(places, open) <= places.len(),
        open_places(places, open) == 0 ==> forall|i: int|
            0 <= i < places.len() ==> #[trigger] places[i] != open,
    decreases places.len(),
{
    if places.len() > 0 {
        lemma_open_places(places.drop_last(), open);
        if open_places(places, open) == 0 {
            assert forall|i: int| 0 <= i < places.len() implies #[trigger] places[i] != open by {
                if i < places.len() - 1 {
                    assert(places.drop_last()[i] != open);
                }
            }
        }
    }
}

proof fn lemma_place_taken(places: Seq<usize>, open: usize, at: int, value: usize)
    requires
        0 <= at < places.len(),
        places[at] == open,
        value != open,
    ensures
        open_places(places.update(at, value), open) == open_places(places, open) - 1,
    decreases places.len(),
{
    let new = places.update(at, value);
    if at == places.len() - 1 {
        assert(new.drop_last() =~= places.drop_last());
    } else {
        lemma_place_taken(places.drop_last(), open, at, value);
        assert(new.drop_last() =~= places.drop_last().update(at, value));
        assert(new.last() == places.last());
    }
}

/// Whether a row without a place is shown under row `c`.
spec fn shows_open(
    children: Seq<EntryView>,
    expanded: Set<Seq<char>>,
    places: Seq<usize>,
    open: usize,
    c: int,
) -> bool {
    exists|d: int|
        #![trigger opens(children, expanded, children[c], d)]
        0 <= d < children.len() && opens(children, expanded, children[c], d) && places[d] == open
}

/// Whether the places given so far are below `round` and above those of the rows shown under each.
spec fn places_fit(
    children: Seq<EntryView>,
    expanded: Set<Seq<char>>,
    places: Seq<usize>,
    open: usize,
    round: int,
) -> bool {
    &&& places.len() == children.len()
    &&& children.len() == open
    &&& forall|k: int| 0 <= k < places.len() ==> #[trigger] places[k] < round || places[k] == open
    &&& forall|c: int, d: int|
        0 <= c < places.len() && 0 <= d < places.len() && places[c] < open && #[trigger] opens(
            children,
            expanded,
            children[c],
            d,
        ) ==> places[d] < places[c]
}

/// Where each row without a place shows another such row, no such row has a rank.
proof fn lemma_unranked(
    children: Seq<EntryView>,
    expanded: Set<Seq<char>>,
    ranks: Seq<Option<nat>>,
    places: Seq<usize>,
    open: usize,
    c: int,
)
    requires
        places.len() == children.len(),
        forall|i: int|
            0 <= i < children.len() && places[i] == open ==> #[trigger] shows_open(
                children,
                expanded,
                places,
                open,
                i,
            ),
        0 <= c < children.len(),
        places[c] == open,
        ranks[c] is Some,
    ensures
        !is_ranked(children, expanded, ranks),
    decreases ranks[c]->0,
{
    assert(shows_open(children, expanded, places, open, c));
    let d = choose|d: int|
        #![trigger opens(children, expanded, children[c], d)]
        0 <= d < children.len() && opens(children, expanded, children[c], d) && places[d] == open;
    if is_ranked(children, expanded, ranks) {
        lemma_unranked(children, expanded, ranks, places, open, d);
    }
}

/// Whether every row shown under row `c` has a place below `round`.
fn is_settled(
    children: &Vec<Entry>,
    extra: &Vec<Entry>,
    expanded: &StringSet,
    places: &Vec<usize>,
    c: usize,
    round: usize,
) -> (yes: bool)
    requires
        children.len() + extra.len() <= usize::MAX,
        places.len() == children.len() + extra.len(),
        c < places.len(),
    ensures
        yes == forall|d: int|
            0 <= d < places.len() && #[trigger] opens(
                views(children@) + views(extra@),
                expanded@,
                (views(children@) + views(extra@))[c as int],
                d,
            ) ==> places@[d] < round,
{
    let ghost all = views(children@) + views(extra@);
    let parent: &Entry = if c < children.len() {
        &children[c]
    } else {
        &extra[c - children.len()]
    };
    if !is_expanded(parent, expanded) {
        return true;
    }
    let mut d: usize = 0;
    while d < places.len()
        invariant
            children.len() + extra.len() <= usize::MAX,
            all == views(children@) + views(extra@),
            parent@ == all[c as int],
            parent@.expand_key() is Some,
            expanded@.contains(parent@.expand_key()->0),
            places.len() == children.len() + extra.len(),
            d <= places.len(),
            forall|k: int|
                0 <= k < d && #[trigger] opens(all, expanded@, parent@, k) ==> places@[k] < round,
        decreases places.len() - d,
    {
        let child: &Entry = if d < children.len() {
            &children[d]
        } else {
            &extra[d - children.len()]
        };
        if is_child(child, parent) && places[d] >= round {
            assert(opens(all, expanded@, parent@, d as int));
            return false;
        }
        d += 1;
    }
    true
}

/// Gives the place `round` to each row without one all of whose shown rows have one from an earlier
/// round. Tells whether a row is left without a place, and whether one was given.
fn settle_round(
    children: &Vec<Entry>,
    extra: &Vec<Entry>,
    expanded: &StringSet,
    places: &mut Vec<usize>,
    round: usize,
) -> (outcome: (bool, bool))
    requires
        children.len() + extra.len() <= usize::MAX,
        places_fit(
            views(children@) + views(extra@),
            expanded@,
            old(places)@,
            (children.len() + extra.len()) as usize,
            round as int,
        ),
        round + open_places(old(places)@, (children.len() + extra.len()) as usize) <= children.len()
            + extra.len(),
    ensures
        places_fit(
            views(children@) + views(extra@),
            expanded@,
            final(places)@,
            (children.len() + extra.len()) as usize,
            round + 1,
        ),
        outcome.0 == exists|k: int|
            0 <= k < final(places)@.len() && #[trigger] final(places)@[k] == children.len()
                + extra.len(),
        outcome.1 ==> open_places(final(places)@, (children.len() + extra.len()) as usize)
            < open_places(old(places)@, (children.len() + extra.len()) as usize),
        !outcome.1 ==> final(places)@ == old(places)@ && forall|c: int|
            0 <= c < final(places)@.len() && final(places)@[c] == children.len() + extra.len()
                ==> #[trigger] shows_open(
                views(children@) + views(extra@),
                expanded@,
                final(places)@,
                (children.len() + extra.len()) as usize,
                c,
            ),
{
    let ghost all = views(children@) + views(extra@);
    let n: usize = children.len() + extra.len();
    let ghost start = places@;
    let ghost left = open_places(start, n);
    let mut missing: bool = false;
    let mut progress: bool = false;
    let mut c: usize = 0;
    while c < n
        invariant
            n == children.len() + extra.len(),
            n <= usize::MAX,
            all == views(children@) + views(extra@),
            c <= n,
            places_fit(all, expanded@, start, n, round as int),
            places_fit(all, expanded@, places@, n, round + 1),
            left == open_places(start, n),
            round + left <= n,
            progress ==> open_places(places@, n) < left,
            !progress ==> places@ == start,
            open_places(places@, n) <= left,
            forall|k: int|
                0 <= k < n && #[trigger] start[k] < n ==> places@[k] == start[k],
            forall|k: int|
                0 <= k < n && #[trigger] places@[k] < round ==> start[k] < n,
            missing == exists|k: int| 0 <= k < c && #[trigger] places@[k] == n,
            !progress ==> forall|k: int|
                0 <= k < c && places@[k] == n ==> #[trigger] shows_open(
                    all,
                    expanded@,
                    start,
                    n,
                    k,
                ),
        decreases n - c,
    {
        let ghost now = places@;
        if places[c] == n {
            proof {
                lemma_open_places(now, n);
                assert(round < n);
            }
            if is_settled(children, extra, expanded, places, c, round) {
                proof {
                    lemma_place_taken(now, n, c as int, round);
                    assert forall|a: int, d: int|
                        0 <= a < n && 0 <= d < n && now.update(c as int, round)[a] < n
                            && #[trigger] opens(all, expanded@, all[a], d) implies now.update(
                        c as int,
                        round,
                    )[d] < now.update(c as int, round)[a] by {
                        if a != c {
                            assert(now[d] < now[a]);
                        }
                    }
                }
                places.set(c, round);
                progress = true;
            } else {
                proof {
                    let d = choose|d: int|
                        #![trigger opens(all, expanded@, all[c as int], d)]
                        0 <= d < n && opens(all, expanded@, all[c as int], d) && now[d] >= round;
                    if !progress {
                        assert(start[d] == n);
                        assert(shows_open(all, expanded@, start, n, c as int));
                    }
                }
                missing = true;
            }
        }
        proof {
            if exists|k: int| 0 <= k < c && #[trigger] now[k] == n {
                let k = choose|k: int| 0 <= k < c && #[trigger] now[k] == n;
                assert(places@[k] == n);
            }
            if exists|k: int| 0 <= k < c + 1 && #[trigger] places@[k] == n {
                let k = choose|k: int| 0 <= k < c + 1 && #[trigger] places@[k] == n;
                assert(k < c ==> now[k] == n);
            }
        }
        c += 1;
    }
    (missing, progress)
}

/// Whether every row shown under an entry has a place.
fn is_placed(
    entry: &Entry,
    children: &Vec<Entry>,
    extra: &Vec<Entry>,
    expanded: &StringSet,
    places: &Vec<usize>,
) -> (yes: bool)
    requires
        children.len() + extra.len() <= usize::MAX,
        places.len() == children.len() + extra.len(),
    ensures
        yes == forall|d: int|
            0 <= d < places.len() && #[trigger] opens(
                views(children@) + views(extra@),
                expanded@,
                entry@,
                d,
            ) ==> places@[d] < places.len(),
{
    let ghost all = views(children@) + views(extra@);
    if !is_expanded(entry, expanded) {
        return true;
    }
    let mut d: usize = 0;
    while d < places.len()
        invariant
            children.len() + extra.len() <= usize::MAX,
            all == views(children@) + views(extra@),
            entry@.expand_key() is Some,
            expanded@.contains(entry@.expand_key()->0),
            places.len() == children.len() + extra.len(),
            d <= places.len(),
            forall|k: int|
                0 <= k < d && #[trigger] opens(all, expanded@, entry@, k) ==> places@[k]
                    < places.len(),
        decreases places.len() - d,
    {
        let child: &Entry = if d < children.len() {
            &children[d]
        } else {
            &extra[d - children.len()]
        };
        if is_child(child, entry) && places[d] >= places.len() {
            assert(opens(all, expanded@, entry@, d as int));
            return false;
        }
        d += 1;
    }
    true
}

/// Gives places to rows until no row is left that can have one.
fn settle(children: &Vec<Entry>, extra: &Vec<Entry>, expanded: &StringSet) -> (places: Vec<usize>)
    requires
        children.len() + extra.len() <= usize::MAX,
    ensures
        places.len() == children.len() + extra.len(),
        places_fit(
            views(children@) + views(extra@),
            expanded@,
            places@,
            places.len(),
            places.len() as int,
        ),
        forall|c: int|
            0 <= c < places.len() && places@[c] == places.len() ==> #[trigger] shows_open(
                views(children@) + views(extra@),
                expanded@,
                places@,
                places.len(),
                c,
            ),
{
    let ghost all = views(children@) + views(extra@);
    let n: usize = children.len() + extra.len();
    let mut places: Vec<usize> = Vec::new();
    let mut i: usize = 0;
    while i < n
        invariant
            i <= n,
            places.len() == i,
            forall|k: int| 0 <= k < i ==> #[trigger] places@[k] == n,
        decreases n - i,
    {
        places.push(n);
        i += 1;
    }
    let mut round: usize = 0;
    proof {
        lemma_open_places(places@, n);
    }
    loop
        invariant
            n == children.len() + extra.len(),
            n <= usize::MAX,
            all == views(children@) + views(extra@),
            places_fit(all, expanded@, places@, n, round as int),
            round + open_places(places@, n) <= n,
        decreases open_places(places@, n),
    {
        let (missing, progress) = settle_round(children, extra, expanded, &mut places, round);
        if !missing || !progress {
            assert forall|k: int| 0 <= k < places@.len() implies #[trigger] places@[k] < n
                || places@[k] == n by {
                assert(places@[k] < round + 1 || places@[k] == n);
            }
            return places;
        }
        round += 1;
    }
}

/// Whether no row of a tree that is shown under an entry is shown, through any number of levels,
/// under itself. The rows of the tree are given in two parts.
pub fn tree_is_finite(
    entries: &Vec<Entry>,
    children: &Vec<Entry>,
    extra: &Vec<Entry>,
    expanded: &StringSet,
) -> (finite: bool)
    requires
        children.len() + extra.len() <= usize::MAX,
    ensures
        finite == is_finite_tree(views(entries@), views(children@) + views(extra@), expanded@),
{
    let ghost all = views(children@) + views(extra@);
    let ghost listed = views(entries@);
    let places: Vec<usize> = settle(children, extra, expanded);
    let n: usize = places.len();
    let ghost ranks = Seq::new(
        n as nat,
        |k: int|
            if places@[k] < n {
                Some(places@[k] as nat)
            } else {
                None
            },
    );
    assert(is_ranked(all, expanded@, ranks));
    let mut i: usize = 0;
    while i < entries.len()
        invariant
            i <= entries.len(),
            n == children.len() + extra.len(),
            n <= usize::MAX,
            n == places.len(),
            all == views(children@) + views(extra@),
            listed == views(entries@),
            is_ranked(all, expanded@, ranks),
            ranks.len() == n,
            forall|k: int| 0 <= k < n ==> (#[trigger] ranks[k] is Some) == (places@[k] < n),
            forall|c: int|
                0 <= c < n && places@[c] == n ==> #[trigger] shows_open(
                    all,
                    expanded@,
                    places@,
                    n,
                    c,
                ),
            forall|k: int| 0 <= k < n ==> #[trigger] places@[k] <= n,
            forall|k: int|
                0 <= k < i ==> #[trigger] is_covered(listed, all, expanded@, ranks, k),
        decreases entries.len() - i,
    {
        if !is_placed(&entries[i], children, extra, expanded, &places) {
            proof {
                let d = choose|d: int|
                    #![trigger opens(all, expanded@, entries@[i as int]@, d)]
                    0 <= d < n && opens(all, expanded@, entries@[i as int]@, d) && places@[d] >= n;
                if is_finite_tree(listed, all, expanded@) {
                    let others = choose|others: Seq<Option<nat>>|
                        covers_entries(listed, all, expanded@, others);
                    assert(is_covered(listed, all, expanded@, others, i as int));
                    assert(listed[i as int] == entries@[i as int]@);
                    assert(others[d] is Some);
                    lemma_unranked(all, expanded@, others, places@, n, d);
                }
            }
            return false;
        }
        assert(listed[i as int] == entries@[i as int]@);
        assert(is_covered(listed, all, expanded@, ranks, i as int));
        i += 1;
    }
    assert(covers_entries(listed, all, expanded@, ranks));
    true
}

} // verus!
