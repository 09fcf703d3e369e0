//! What holds of the tree of a directory: what is shown of it, in which order, and how it is drawn.

use crate::dir_tree::{
    arranged, arrangement, shown, tree_walk, walked, walked_items, DirItem, ItemKind, Limits,
    Listings,
};
use crate::order::{comes_first, orders, Ranked};
use crate::preview::tree_limits;
use crate::string_set::{lemma_text_asymmetric, text_less};
use crate::text::decimal;
use vstd::prelude::*;

verus! {

/// Directories and files are shown, in the order of the listing; links and what cannot be read are
/// not.
pub proof fn law_directories_and_files_are_shown(
    items: Seq<DirItem>,
    others: Seq<DirItem>,
    item: DirItem,
)
    ensures
        shown(items + others) == shown(items) + shown(others),
        item.kind == ItemKind::Dir || item.kind == ItemKind::File ==> shown(seq![item]) == seq![item],
        item.kind == ItemKind::Link || item.kind == ItemKind::Unknown ==> shown(seq![item]).len()
            == 0,
        shown(Seq::empty()).len() == 0,
    decreases others.len(),
{
    let one = seq![item];
    assert(one.drop_last() =~= Seq::empty());
    assert(one.last() == item);
    assert(shown(one.drop_last()) =~= Seq::empty());
    if others.len() == 0 {
        assert(items + others =~= items);
        assert(shown(items) + shown(others) =~= shown(items));
    } else {
        let init = others.drop_last();
        law_directories_and_files_are_shown(items, init, item);
        assert((items + others).drop_last() =~= items + init);
        assert((items + others).last() == others.last());
        assert(shown(items + others) =~= shown(items) + shown(others));
    }
}

/// All items that are shown are arranged, and nothing else: directories first, and of each kind the
/// names in order.
pub proof fn law_arranging_keeps_the_items(items: Seq<DirItem>, i: int, j: int)
    requires
        orders(shown(items), arrangement(items)),
        shown(items).len() <= usize::MAX,
    ensures
        arranged(items).len() == shown(items).len(),
        0 <= i < shown(items).len() ==> arranged(items).contains(shown(items)[i]),
        0 <= i < arranged(items).len() ==> shown(items).contains(arranged(items)[i]),
        0 <= i < j < arranged(items).len() && arranged(items)[j].kind == ItemKind::Dir
            ==> arranged(items)[i].kind == ItemKind::Dir,
        0 <= i < j < arranged(items).len() && (arranged(items)[i].kind == ItemKind::Dir) == (arranged(
            items,
        )[j].kind == ItemKind::Dir) ==> !text_less(
            arranged(items)[j].name@,
            arranged(items)[i].name@,
        ),
{
    let (list, order) = (shown(items), arrangement(items));
    if 0 <= i < list.len() {
        let place = i as usize;
        assert(order.contains(place));
        let k = choose|k: int| 0 <= k < order.len() && order[k] == place;
        assert(arranged(items)[k] == list[i]);
        assert(list[order[i] as int] == arranged(items)[i]);
    }
    if 0 <= i < j < order.len() {
        let (a, b) = (order[i] as int, order[j] as int);
        assert(comes_first(list, a, b));
        lemma_text_asymmetric(list[a].name@, list[b].name@);
    }
}

/// An order has each position once, never the later of two items first, and leaves level ones as they
/// stand in the list.
pub proof fn law_orders_are_stable<T: Ranked>(items: Seq<T>, order: Seq<usize>, a: int, b: int)
    requires
        orders(items, order),
        0 <= a < b < order.len(),
    ensures
        order.len() == items.len(),
        order[a] != order[b],
        !items[order[b] as int].goes_before(&items[order[a] as int]),
        !items[order[a] as int].goes_before(&items[order[b] as int]) ==> order[a] < order[b],
{
    assert(comes_first(items, order[a] as int, order[b] as int));
    T::law_asymmetric(&items[order[a] as int], &items[order[b] as int]);
}

/// Texts are ordered by the first character in which they differ, and a text comes before each one
/// that goes on behind it.
pub proof fn law_texts_are_ordered_by_their_characters(
    common: Seq<char>,
    a: char,
    b: char,
    one: Seq<char>,
    other: Seq<char>,
)
    ensures
        a < b ==> text_less(common + seq![a] + one, common + seq![b] + other),
        a < b ==> !text_less(common + seq![b] + other, common + seq![a] + one),
        text_less(common, common + seq![a] + one),
        !text_less(common + seq![a] + one, common),
        !text_less(common, common),
    decreases common.len(),
{
    let (x, y) = (common + seq![a] + one, common + seq![b] + other);
    if common.len() > 0 {
        let rest = common.drop_first();
        law_texts_are_ordered_by_their_characters(rest, a, b, one, other);
        assert(x.drop_first() =~= rest + seq![a] + one);
        assert(y.drop_first() =~= rest + seq![b] + other);
        assert(x[0] == common[0] && y[0] == common[0]);
    } else {
        assert(x[0] == a && y[0] == b);
    }
}

/// The walk of a tree starts at its root, with no lines and nothing in front of them. A directory
/// that cannot be read is asked for and shows nothing; of one that can the items are shown arranged.
pub proof fn law_the_walk_starts_at_the_root(
    listings: Listings,
    root: Seq<u8>,
    limits: Limits,
    items: Seq<DirItem>,
)
    ensures
        listings(root) is None ==> {
            let walk = tree_walk(listings, root, limits);
            walk.lines.len() == 0 && walk.reads == seq![root] && walk.count == 0
        },
        listings(root) == Some(items) ==> {
            let walk = tree_walk(listings, root, limits);
            let inner = walked_items(listings, arranged(items), 0, Seq::empty(), 0, limits, 0);
            walk.lines == inner.lines && walk.reads == seq![root] + inner.reads && walk.count
                == inner.count
        },
{
    reveal_strlit("");
    assert(""@ =~= Seq::<char>::empty());
    let walk = tree_walk(listings, root, limits);
    if listings(root) == Some(items) {
        let inner = walked_items(listings, arranged(items), 0, Seq::empty(), 0, limits, 0);
        assert(walk.lines =~= inner.lines);
    }
}

/// An item is drawn with the prefix of its directory, a branch, its name, and a slash for a
/// directory. The last one has a branch of its own.
pub proof fn law_items_are_drawn_with_branches(
    listings: Listings,
    items: Seq<DirItem>,
    at: nat,
    prefix: Seq<char>,
    depth: nat,
    limits: Limits,
    count: nat,
)
    requires
        at < items.len(),
        count < limits.max_entries,
    ensures
        ({
            let walk = walked_items(listings, items, at, prefix, depth, limits, count);
            let item = items[at as int];
            &&& walk.lines.len() > 0
            &&& at + 1 < items.len() && item.kind == ItemKind::Dir ==> walk.lines[0] == prefix
                + "├── "@ + item.name@ + "/"@
            &&& at + 1 < items.len() && item.kind != ItemKind::Dir ==> walk.lines[0] == prefix
                + "├── "@ + item.name@
            &&& at + 1 == items.len() && item.kind == ItemKind::Dir ==> walk.lines[0] == prefix
                + "└── "@ + item.name@ + "/"@
            &&& at + 1 == items.len() && item.kind != ItemKind::Dir ==> walk.lines[0] == prefix
                + "└── "@ + item.name@
        }),
{
    reveal_strlit("");
    let item = items[at as int];
    let (middle, end) = (prefix + "├── "@ + item.name@, prefix + "└── "@ + item.name@);
    assert(middle + ""@ =~= middle);
    assert(end + ""@ =~= end);
}

/// Behind a file, or a directory that is too deep to be read, come the items after it. Behind a
/// directory that is read comes its own walk, one level deeper and moved in, and then those.
pub proof fn law_directories_are_drawn_below_their_line(
    listings: Listings,
    items: Seq<DirItem>,
    at: nat,
    prefix: Seq<char>,
    depth: nat,
    limits: Limits,
    count: nat,
)
    requires
        at < items.len(),
        count < limits.max_entries,
    ensures
        items[at as int].kind != ItemKind::Dir || depth + 1 >= limits.max_depth ==> {
            let walk = walked_items(listings, items, at, prefix, depth, limits, count);
            let rest = walked_items(listings, items, at + 1, prefix, depth, limits, count + 1);
            &&& walk.lines.skip(1) == rest.lines
            &&& walk.reads == rest.reads
            &&& walk.count == rest.count
        },
        items[at as int].kind == ItemKind::Dir && depth + 1 < limits.max_depth ==> {
            let walk = walked_items(listings, items, at, prefix, depth, limits, count);
            let moved = if at + 1 == items.len() {
                prefix + "    "@
            } else {
                prefix + "│   "@
            };
            let inner = walked(
                listings,
                items[at as int].path@,
                moved,
                depth + 1,
                limits,
                count + 1,
            );
            let rest = walked_items(listings, items, at + 1, prefix, depth, limits, inner.count);
            &&& walk.lines.skip(1) == inner.lines + rest.lines
            &&& walk.reads == inner.reads + rest.reads
            &&& inner.reads.len() > 0 && inner.reads[0] == items[at as int].path@
            &&& walk.count == rest.count
        },
{
    let walk = walked_items(listings, items, at, prefix, depth, limits, count);
    let item = items[at as int];
    if item.kind != ItemKind::Dir || depth + 1 >= limits.max_depth {
        let rest = walked_items(listings, items, at + 1, prefix, depth, limits, count + 1);
        assert(walk.lines.skip(1) =~= rest.lines);
        assert(walk.reads =~= rest.reads);
    } else {
        let moved = if at + 1 == items.len() {
            prefix + "    "@
        } else {
            prefix + "│   "@
        };
        let inner = walked(listings, item.path@, moved, depth + 1, limits, count + 1);
        let rest = walked_items(listings, items, at + 1, prefix, depth, limits, inner.count);
        assert(walk.lines.skip(1) =~= inner.lines + rest.lines);
        assert(walk.reads =~= inner.reads + rest.reads);
    }
}

/// Where the limit is reached, one line says how many items of the directory are left out, and
/// nothing more is read; at the end of a directory nothing is written.
pub proof fn law_items_left_out_are_counted(
    listings: Listings,
    items: Seq<DirItem>,
    at: nat,
    prefix: Seq<char>,
    depth: nat,
    limits: Limits,
    count: nat,
)
    ensures
        at < items.len() && count >= limits.max_entries ==> {
            let walk = walked_items(listings, items, at, prefix, depth, limits, count);
            &&& walk.lines == seq!["… ("@ + decimal((items.len() - at) as nat) + " more)"@]
            &&& walk.reads.len() == 0
            &&& walk.count == count
        },
        at >= items.len() ==> {
            let walk = walked_items(listings, items, at, prefix, depth, limits, count);
            walk.lines.len() == 0 && walk.reads.len() == 0 && walk.count == count
        },
{
}

/// A directory whose own directories are not read shows one line for each item while the limit is not
/// reached, and then one line for all others.
pub proof fn law_a_flat_directory_has_a_line_for_each_item(
    listings: Listings,
    items: Seq<DirItem>,
    at: nat,
    prefix: Seq<char>,
    depth: nat,
    limits: Limits,
    count: nat,
)
    requires
        depth + 1 >= limits.max_depth,
        at <= items.len(),
        count <= limits.max_entries,
    ensures
        ({
            let walk = walked_items(listings, items, at, prefix, depth, limits, count);
            &&& items.len() - at <= limits.max_entries - count ==> walk.lines.len() == items.len()
                - at && walk.count == count + items.len() - at
            &&& items.len() - at > limits.max_entries - count ==> {
                &&& walk.lines.len() == limits.max_entries - count + 1
                &&& walk.count == limits.max_entries
                &&& walk.lines.last() == "… ("@ + decimal(
                    (items.len() - at - (limits.max_entries - count)) as nat,
                ) + " more)"@
            }
            &&& walk.reads.len() == 0
        }),
    decreases items.len() - at,
{
    law_items_left_out_are_counted(listings, items, at, prefix, depth, limits, count);
    if at < items.len() && count < limits.max_entries {
        let walk = walked_items(listings, items, at, prefix, depth, limits, count);
        let rest = walked_items(listings, items, at + 1, prefix, depth, limits, count + 1);
        law_directories_are_drawn_below_their_line(
            listings,
            items,
            at,
            prefix,
            depth,
            limits,
            count,
        );
        law_items_are_drawn_with_branches(listings, items, at, prefix, depth, limits, count);
        law_a_flat_directory_has_a_line_for_each_item(
            listings,
            items,
            at + 1,
            prefix,
            depth,
            limits,
            count + 1,
        );
        if rest.lines.len() > 0 {
            assert(walk.lines.last() == walk.lines.skip(1).last());
        }
    }
}

/// The tree of a preview shows forty items for each level.
pub proof fn law_a_preview_shows_forty_items_for_each_level(depth: nat)
    ensures
        tree_limits(depth).max_depth == depth,
        tree_limits(depth).max_entries == 40 * depth,
{
}

} // verus!
