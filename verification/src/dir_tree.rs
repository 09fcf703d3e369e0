//! The tree of a directory: a walk that asks for one listing at a time.

use crate::file_path::copy_bytes;
use crate::order::{comes_first, orders, sorted_order, Ranked};
use crate::string_set::{
    is_less, lemma_text_asymmetric, lemma_text_comparable, text_less,
};
use crate::text::{concat2, concat3, contents, decimal, decimal_text};
use vstd::prelude::*;
use vstd::string::StringExecFns;

verus! {

/// What stands in a directory.
#[derive(Clone, Copy, Debug, PartialEq, Eq, Structural)]
pub enum ItemKind {
    Dir,
    File,
    /// A symbolic link.
    Link,
    /// Something whose kind cannot be read.
    Unknown,
}

/// Something that stands in a directory.
#[derive(Debug)]
pub struct DirItem {
    /// The name as it is shown.
    pub name: String,
    /// The bytes of the path.
    pub path: Vec<u8>,
    pub kind: ItemKind,
}

impl DirItem {
    /// Whether this is a directory.
    pub open spec fn is_dir(self) -> bool {
        self.kind == ItemKind::Dir
    }

    /// Whether this is shown: links and what cannot be read are not.
    pub open spec fn is_shown(self) -> bool {
        self.kind == ItemKind::Dir || self.kind == ItemKind::File
    }
}

impl Ranked for DirItem {
    /// Directories go first; of each kind the names are in order.
    open spec fn goes_before(&self, other: &Self) -> bool {
        if self.is_dir() != other.is_dir() {
            self.is_dir()
        } else {
            text_less(self.name@, other.name@)
        }
    }

    fn is_before(&self, other: &Self) -> (yes: bool) {
        let dir: bool = self.kind == ItemKind::Dir;
        let other_dir: bool = other.kind == ItemKind::Dir;
        if dir != other_dir {
            dir
        } else {
            is_less(self.name.as_str(), other.name.as_str())
        }
    }

    proof fn law_asymmetric(a: &Self, b: &Self) {
        lemma_text_asymmetric(a.name@, b.name@);
    }

    proof fn law_comparable(a: &Self, b: &Self, c: &Self) {
        if a.is_dir() == c.is_dir() {
            lemma_text_comparable(a.name@, b.name@, c.name@);
        }
    }
}

/// The items that are shown.
pub open spec fn shown(items: Seq<DirItem>) -> Seq<DirItem>
    decreases items.len(),
{
    if items.len() == 0 {
        items
    } else if items.last().is_shown() {
        shown(items.drop_last()).push(items.last())
    } else {
        shown(items.drop_last())
    }
}

/// The order in which items are shown.
pub open spec fn arrangement(items: Seq<DirItem>) -> Seq<usize> {
    choose|order: Seq<usize>| orders(shown(items), order)
}

/// The items that are shown, in the order in which they are.
pub open spec fn arranged(items: Seq<DirItem>) -> Seq<DirItem> {
    Seq::new(shown(items).len(), |k: int| shown(items)[arrangement(items)[k] as int])
}

proof fn lemma_shown(items: Seq<DirItem>)
    ensures
        forall|k: int| 0 <= k < shown(items).len() ==> (#[trigger] shown(items)[k]).is_shown(),
    decreases items.len(),
{
    if items.len() > 0 {
        lemma_shown(items.drop_last());
        assert forall|k: int| 0 <= k < shown(items).len() implies (
        #[trigger] shown(items)[k]).is_shown() by {
            if k < shown(items.drop_last()).len() {
                assert(shown(items)[k] == shown(items.drop_last())[k]);
            }
        }
    }
}

/// An order has each position once.
proof fn lemma_places_differ(items: Seq<DirItem>, order: Seq<usize>, i: int, j: int)
    requires
        orders(items, order),
        0 <= i < j < order.len(),
    ensures
        order[i] != order[j],
{
    assert(comes_first(items, order[i] as int, order[j] as int));
    DirItem::law_asymmetric(&items[order[i] as int], &items[order[j] as int]);
}

/// The items that are shown: directories before files, and each of the two by name.
pub fn arrange(items: Vec<DirItem>) -> (list: Vec<DirItem>)
    ensures
        list@ == arranged(items@),
        orders(shown(items@), arrangement(items@)),
        forall|k: int| 0 <= k < list@.len() ==> (#[trigger] list@[k]).is_shown(),
        forall|i: int, j: int|
            0 <= i < j < list@.len() && (#[trigger] list@[j]).is_dir() ==> (
            #[trigger] list@[i]).is_dir(),
        forall|i: int, j: int|
            0 <= i < j < list@.len() && (#[trigger] list@[i]).is_dir() == (
            #[trigger] list@[j]).is_dir() ==> !text_less(list@[j].name@, list@[i].name@),
{
    let ghost all = items@;
    let mut kept: Vec<DirItem> = Vec::new();
    assert(all.take(0) =~= Seq::empty());
    for item in it: items
        invariant
            it.seq() == all,
            kept@ == shown(all.take(it.index() as int)),
    {
        assert(all.take(it.index() + 1).drop_last() =~= all.take(it.index() as int));
        if item.kind == ItemKind::Dir || item.kind == ItemKind::File {
            kept.push(item);
        }
    }
    assert(all.take(all.len() as int) =~= all);
    let order: Vec<usize> = sorted_order(&kept);
    let ghost shown_items = kept@;
    proof {
        crate::order::law_order_unique(kept@, order@, arrangement(all));
    }
    let mut slots: Vec<Option<DirItem>> = Vec::new();
    for item in it: kept
        invariant
            it.seq() == shown_items,
            slots.len() == it.index(),
            forall|k: int|
                0 <= k < slots.len() ==> #[trigger] slots@[k] == Some(shown_items[k]),
    {
        slots.push(Some(item));
    }
    let mut list: Vec<DirItem> = Vec::new();
    let mut k: usize = 0;
    while k < order.len()
        invariant
            orders(shown_items, order@),
            shown_items == shown(all),
            order@ == arrangement(all),
            slots.len() == order.len(),
            k <= order.len(),
            list@ == arranged(all).take(k as int),
            forall|j: int|
                k <= j < order.len() ==> slots@[#[trigger] order@[j] as int] == Some(
                    shown_items[order@[j] as int],
                ),
        decreases order.len() - k,
    {
        let ghost held = slots@;
        let mut slot: Option<DirItem> = None;
        std::mem::swap(&mut slot, &mut slots[order[k]]);
        proof {
            assert forall|j: int| k < j < order.len() implies slots@[#[trigger] order@[j] as int]
                == Some(shown_items[order@[j] as int]) by {
                lemma_places_differ(shown_items, order@, k as int, j);
                assert(held[order@[j] as int] == Some(shown_items[order@[j] as int]));
            }
        }
        if let Some(item) = slot {
            list.push(item);
        }
        assert(list@ =~= arranged(all).take(k + 1));
        k += 1;
    }
    assert(list@ =~= arranged(all));
    proof {
        lemma_shown(all);
        assert forall|i: int, j: int|
            #![trigger list@[i], list@[j]]
            0 <= i < j < list@.len() implies !list@[j].goes_before(&list@[i]) by {
            let (a, b) = (order@[i] as int, order@[j] as int);
            assert(comes_first(shown_items, order@[i] as int, order@[j] as int));
            DirItem::law_asymmetric(&shown_items[a], &shown_items[b]);
        }
    }
    list
}

/// The listings of directories by their path, where they can be read.
pub type Listings = spec_fn(Seq<u8>) -> Option<Seq<DirItem>>;

/// How far a walk goes.
pub struct Limits {
    /// How many levels are shown. The first one always is.
    pub max_depth: nat,
    /// How many items are shown.
    pub max_entries: nat,
}

/// A stretch of a walk: the lines that it writes, the directories that it reads, and how many items
/// are shown after it.
#[verifier::ext_equal]
pub struct Walked {
    pub lines: Seq<Seq<char>>,
    pub reads: Seq<Seq<u8>>,
    pub count: nat,
}

/// A stretch where nothing happens.
pub open spec fn nothing(count: nat) -> Walked {
    Walked { lines: Seq::empty(), reads: Seq::empty(), count }
}

/// One stretch and another that follows it.
pub open spec fn followed(first: Walked, second: Walked) -> Walked {
    Walked {
        lines: first.lines + second.lines,
        reads: first.reads + second.reads,
        count: second.count,
    }
}

/// The line of an item.
pub open spec fn item_line(prefix: Seq<char>, item: DirItem, last: bool) -> Seq<char> {
    prefix + (if last {
        "└── "@
    } else {
        "├── "@
    }) + item.name@ + (if item.is_dir() {
        "/"@
    } else {
        ""@
    })
}

/// What the lines below an item start with.
pub open spec fn child_prefix(prefix: Seq<char>, last: bool) -> Seq<char> {
    prefix + (if last {
        "    "@
    } else {
        "│   "@
    })
}

/// The line in place of items that are too many.
pub open spec fn more_line(n: nat) -> Seq<char> {
    "… ("@ + decimal(n) + " more)"@
}

/// The walk of a directory, where `count` items are shown before it. A directory that cannot be
/// read shows nothing.
pub open spec fn walked(
    listings: Listings,
    path: Seq<u8>,
    prefix: Seq<char>,
    depth: nat,
    limits: Limits,
    count: nat,
) -> Walked
    decreases limits.max_depth - depth, 1int, 0int,
{
    let read = Walked { lines: Seq::empty(), reads: seq![path], count };
    match listings(path) {
        Some(items) => followed(
            read,
            walked_items(listings, arranged(items), 0, prefix, depth, limits, count),
        ),
        None => read,
    }
}

/// The walk of the items of a directory from a position on.
pub open spec fn walked_items(
    listings: Listings,
    items: Seq<DirItem>,
    at: nat,
    prefix: Seq<char>,
    depth: nat,
    limits: Limits,
    count: nat,
) -> Walked
    decreases limits.max_depth - depth, 0int, items.len() - at,
{
    if at >= items.len() {
        nothing(count)
    } else if count >= limits.max_entries {
        Walked { lines: seq![more_line((items.len() - at) as nat)], reads: Seq::empty(), count }
    } else {
        let last = at + 1 == items.len();
        let shown_item = Walked {
            lines: seq![item_line(prefix, items[at as int], last)],
            reads: Seq::empty(),
            count: count + 1,
        };
        let below = if items[at as int].is_dir() && depth + 1 < limits.max_depth {
            walked(
                listings,
                items[at as int].path@,
                child_prefix(prefix, last),
                depth + 1,
                limits,
                count + 1,
            )
        } else {
            nothing(count + 1)
        };
        let rest = walked_items(listings, items, at + 1, prefix, depth, limits, below.count);
        followed(shown_item, followed(below, rest))
    }
}

/// The walk of a whole tree.
pub open spec fn tree_walk(listings: Listings, root: Seq<u8>, limits: Limits) -> Walked {
    walked(listings, root, ""@, 0, limits, 0)
}

/// No more items are shown than the limit says.
pub proof fn law_shown_items_are_limited(listings: Listings, root: Seq<u8>, limits: Limits)
    ensures
        tree_walk(listings, root, limits).count <= limits.max_entries,
{
    lemma_walked_count(listings, root, ""@, 0, limits, 0);
}

proof fn lemma_walked_count(
    listings: Listings,
    path: Seq<u8>,
    prefix: Seq<char>,
    depth: nat,
    limits: Limits,
    count: nat,
)
    requires
        count <= limits.max_entries,
    ensures
        walked(listings, path, prefix, depth, limits, count).count <= limits.max_entries,
    decreases limits.max_depth - depth, 1int, 0int,
{
    if let Some(items) = listings(path) {
        lemma_items_count(listings, arranged(items), 0, prefix, depth, limits, count);
    }
}

proof fn lemma_items_count(
    listings: Listings,
    items: Seq<DirItem>,
    at: nat,
    prefix: Seq<char>,
    depth: nat,
    limits: Limits,
    count: nat,
)
    requires
        count <= limits.max_entries,
    ensures
        walked_items(listings, items, at, prefix, depth, limits, count).count
            <= limits.max_entries,
    decreases limits.max_depth - depth, 0int, items.len() - at,
{
    if at < items.len() && count < limits.max_entries {
        let last = at + 1 == items.len();
        if items[at as int].is_dir() && depth + 1 < limits.max_depth {
            let (path, inner) = (items[at as int].path@, child_prefix(prefix, last));
            lemma_walked_count(listings, path, inner, depth + 1, limits, count + 1);
            let below = walked(listings, path, inner, depth + 1, limits, count + 1);
            lemma_items_count(listings, items, at + 1, prefix, depth, limits, below.count);
        } else {
            lemma_items_count(listings, items, at + 1, prefix, depth, limits, count + 1);
        }
    }
}

/// A tree of one level is read from one listing: that of its root.
pub proof fn law_one_level_reads_the_root_only(
    listings: Listings,
    root: Seq<u8>,
    limits: Limits,
)
    requires
        limits.max_depth <= 1,
    ensures
        tree_walk(listings, root, limits).reads == seq![root],
{
    if let Some(items) = listings(root) {
        lemma_flat_reads(listings, arranged(items), 0, limits, 0);
        assert(tree_walk(listings, root, limits).reads =~= seq![root]);
    }
}

proof fn lemma_flat_reads(
    listings: Listings,
    items: Seq<DirItem>,
    at: nat,
    limits: Limits,
    count: nat,
)
    requires
        limits.max_depth <= 1,
    ensures
        walked_items(listings, items, at, ""@, 0, limits, count).reads.len() == 0,
    decreases items.len() - at,
{
    if at < items.len() && count < limits.max_entries {
        lemma_flat_reads(listings, items, at + 1, limits, count + 1);
    }
}

/// A directory whose items are being shown.
#[derive(Debug)]
struct Frame {
    items: Vec<DirItem>,
    next: usize,
    prefix: String,
}

/// A walk of a tree that goes on when it is given the listing it asks for.
#[derive(Debug)]
pub struct TreeWalk {
    /// The directories that are being shown, the innermost last.
    frames: Vec<Frame>,
    /// The directory whose listing is asked for, and what its lines start with.
    pending: Option<(Vec<u8>, String)>,
    lines: Vec<String>,
    count: usize,
    max_depth: u32,
    max_entries: usize,
}

spec fn resumed(listings: Listings, frames: Seq<Frame>, limits: Limits, count: nat) -> Walked
    decreases frames.len(),
{
    if frames.len() == 0 {
        nothing(count)
    } else {
        let top = frames.last();
        let here = walked_items(
            listings,
            top.items@,
            top.next as nat,
            top.prefix@,
            (frames.len() - 1) as nat,
            limits,
            count,
        );
        followed(here, resumed(listings, frames.drop_last(), limits, here.count))
    }
}

/// The whole walk of which these lines are written and these frames are left.
spec fn total(
    listings: Listings,
    lines: Seq<Seq<char>>,
    frames: Seq<Frame>,
    limits: Limits,
    count: nat,
) -> Walked {
    followed(
        Walked { lines, reads: Seq::empty(), count },
        resumed(listings, frames, limits, count),
    )
}

/// The whole walk of which these lines are written and this directory and these frames are left.
spec fn total_from(
    listings: Listings,
    lines: Seq<Seq<char>>,
    path: Seq<u8>,
    prefix: Seq<char>,
    frames: Seq<Frame>,
    limits: Limits,
    count: nat,
) -> Walked {
    let here = walked(listings, path, prefix, frames.len(), limits, count);
    followed(
        Walked { lines, reads: Seq::empty(), count },
        followed(here, resumed(listings, frames, limits, here.count)),
    )
}

spec fn todo(frames: Seq<Frame>) -> nat
    decreases frames.len(),
{
    if frames.len() == 0 {
        0
    } else {
        let top = frames.last();
        todo(frames.drop_last()) + 1 + (if top.next < top.items.len() {
            (top.items.len() - top.next) as nat
        } else {
            0
        })
    }
}

impl TreeWalk {
    #[verifier::type_invariant]
    spec fn asks_or_ends(self) -> bool {
        self.pending is None ==> self.frames@.len() == 0
    }

    /// How far the walk goes.
    pub closed spec fn limits(self) -> Limits {
        Limits { max_depth: self.max_depth as nat, max_entries: self.max_entries as nat }
    }

    /// The directory whose listing is asked for.
    pub closed spec fn asks(self) -> Option<Seq<u8>> {
        match self.pending {
            Some((path, _)) => Some(path@),
            None => None,
        }
    }

    /// The whole walk, with the lines that are written already, and without the directories that
    /// were read already.
    pub closed spec fn outcome(self, listings: Listings) -> Walked {
        match self.pending {
            Some((path, prefix)) => total_from(
                listings,
                contents(self.lines@),
                path@,
                prefix@,
                self.frames@,
                self.limits(),
                self.count as nat,
            ),
            None => total(
                listings,
                contents(self.lines@),
                self.frames@,
                self.limits(),
                self.count as nat,
            ),
        }
    }

    /// A walk of the tree below a directory.
    pub fn new(root: &Vec<u8>, max_depth: u32, max_entries: usize) -> (walk: TreeWalk)
        ensures
            walk.asks() == Some(root@),
            forall|listings: Listings| #[trigger]
                walk.outcome(listings) == tree_walk(
                    listings,
                    root@,
                    Limits { max_depth: max_depth as nat, max_entries: max_entries as nat },
                ),
    {
        let walk = TreeWalk {
            frames: Vec::new(),
            pending: Some((copy_bytes(root), "".to_owned())),
            lines: Vec::new(),
            count: 0,
            max_depth,
            max_entries,
        };
        proof {
            assert forall|listings: Listings| #[trigger]
                walk.outcome(listings) == tree_walk(listings, root@, walk.limits()) by {
                assert(walk.outcome(listings) =~= tree_walk(listings, root@, walk.limits()));
            }
        }
        walk
    }

    /// The directory whose listing is asked for; none at the end of the walk.
    pub fn next_directory(&self) -> (path: Option<&Vec<u8>>)
        ensures
            self.asks() == (match path {
                Some(bytes) => Some(bytes@),
                None => None,
            }),
    {
        match &self.pending {
            Some((path, _)) => Some(path),
            None => None,
        }
    }

    /// Goes on with the listing that is asked for, up to where the next one is needed. A directory
    /// that cannot be read has none.
    pub fn supply(self, listing: Option<Vec<DirItem>>) -> (walk: TreeWalk)
        ensures
            self.asks() is None ==> walk == self,
            self.asks() is Some ==> forall|listings: Listings|
                #![trigger self.outcome(listings)]
                #![trigger walk.outcome(listings)]
                listings(self.asks()->0) == (match listing {
                    Some(items) => Some(items@),
                    None => None,
                }) ==> {
                    &&& self.outcome(listings).lines == walk.outcome(listings).lines
                    &&& self.outcome(listings).reads == seq![self.asks()->0] + walk.outcome(
                        listings,
                    ).reads
                    &&& self.outcome(listings).count == walk.outcome(listings).count
                },
    {
        let ghost start = self;
        if self.pending.is_none() {
            return self;
        }
        let TreeWalk { frames, pending, lines, count, max_depth, max_entries } = self;
        let mut frames: Vec<Frame> = frames;
        let ghost below = frames@;
        match pending {
            Some((_, prefix)) => {
                if let Some(items) = listing {
                    frames.push(Frame { items: arrange(items), next: 0, prefix });
                }
            },
            None => {},
        }
        let ghost ready = frames@;
        let ghost written = contents(lines@);
        proof {
            let read = seq![start.asks()->0];
            assert forall|listings: Listings|
                listings(start.asks()->0) == (match listing {
                    Some(items) => Some(items@),
                    None => None,
                }) implies {
                let now = #[trigger] total(listings, written, ready, start.limits(), count as nat);
                &&& start.outcome(listings).lines == now.lines
                &&& start.outcome(listings).reads == read + now.reads
                &&& start.outcome(listings).count == now.count
            } by {
                let now = total(listings, written, ready, start.limits(), count as nat);
                if listing is Some {
                    assert(ready.drop_last() =~= below);
                }
                assert(start.outcome(listings).lines =~= now.lines);
                assert(start.outcome(listings).reads =~= read + now.reads);
            }
        }
        let walk = TreeWalk::advance(frames, lines, count, max_depth, max_entries);
        proof {
            assert forall|listings: Listings|
                #![trigger start.outcome(listings)]
                #![trigger walk.outcome(listings)]
                listings(start.asks()->0) == (match listing {
                    Some(items) => Some(items@),
                    None => None,
                }) implies {
                &&& start.outcome(listings).lines == walk.outcome(listings).lines
                &&& start.outcome(listings).reads == seq![start.asks()->0] + walk.outcome(
                    listings,
                ).reads
                &&& start.outcome(listings).count == walk.outcome(listings).count
            } by {
                let now = total(listings, written, ready, start.limits(), count as nat);
                assert(walk.outcome(listings) == now);
            }
        }
        walk
    }

    /// Shows items up to where a listing is needed, or to the end.
    fn advance(
        left: Vec<Frame>,
        written: Vec<String>,
        shown_before: usize,
        max_depth: u32,
        max_entries: usize,
    ) -> (walk: TreeWalk)
        ensures
            forall|listings: Listings| #[trigger]
                walk.outcome(listings) == total(
                    listings,
                    contents(written@),
                    left@,
                    Limits { max_depth: max_depth as nat, max_entries: max_entries as nat },
                    shown_before as nat,
                ),
    {
        let ghost limits = Limits {
            max_depth: max_depth as nat,
            max_entries: max_entries as nat,
        };
        let mut frames: Vec<Frame> = left;
        let mut lines: Vec<String> = written;
        let mut count: usize = shown_before;
        loop
            invariant
                limits.max_depth == max_depth,
                limits.max_entries == max_entries,
                forall|listings: Listings| #[trigger]
                    total(listings, contents(lines@), frames@, limits, count as nat) == total(
                        listings,
                        contents(written@),
                        left@,
                        limits,
                        shown_before as nat,
                    ),
            decreases todo(frames@),
        {
            let ghost held_lines = contents(lines@);
            let ghost held_frames = frames@;
            let ghost held_count = count as nat;
            let top: Frame = match frames.pop() {
                Some(top) => top,
                None => {
                    let walk = TreeWalk {
                        frames,
                        pending: None,
                        lines,
                        count,
                        max_depth,
                        max_entries,
                    };
                    assert(walk.limits() == limits);
                    return walk;
                },
            };
            assert(held_frames.last() == top);
            assert(held_frames.drop_last() =~= frames@);
            let Frame { items, next, prefix } = top;
            if next >= items.len() {
                proof {
                    assert forall|listings: Listings| #[trigger]
                        total(listings, held_lines, frames@, limits, held_count) == total(
                            listings,
                            held_lines,
                            held_frames,
                            limits,
                            held_count,
                        ) by {
                        assert(total(listings, held_lines, frames@, limits, held_count) =~= total(
                            listings,
                            held_lines,
                            held_frames,
                            limits,
                            held_count,
                        ));
                    }
                }
                continue;
            }
            if count >= max_entries {
                let left: usize = items.len() - next;
                let line: String = concat3("… (", decimal_text(left as u64).as_str(), " more)");
                lines.push(line);
                proof {
                    assert(contents(lines@) =~= held_lines.push(line@));
                    assert forall|listings: Listings| #[trigger]
                        total(listings, contents(lines@), frames@, limits, held_count) == total(
                            listings,
                            held_lines,
                            held_frames,
                            limits,
                            held_count,
                        ) by {
                        assert(total(listings, contents(lines@), frames@, limits, held_count)
                            =~= total(listings, held_lines, held_frames, limits, held_count));
                    }
                }
                continue;
            }
            let last: bool = next + 1 == items.len();
            let marker: &str = if last {
                "└── "
            } else {
                "├── "
            };
            let dir: bool = items[next].kind == ItemKind::Dir;
            let suffix: &str = if dir {
                "/"
            } else {
                ""
            };
            let mut line: String = concat3(prefix.as_str(), marker, items[next].name.as_str());
            line.append(suffix);
            assert(line@ == item_line(prefix@, items@[next as int], last));
            lines.push(line);
            count += 1;
            assert(contents(lines@) =~= held_lines.push(line@));
            let depth: usize = frames.len();
            let open: bool = dir && max_depth > 0 && (depth as u64) < (max_depth - 1) as u64;
            let pending: Option<(Vec<u8>, String)> = if open {
                let inner: String = concat2(
                    prefix.as_str(),
                    if last {
                        "    "
                    } else {
                        "│   "
                    },
                );
                Some((copy_bytes(&items[next].path), inner))
            } else {
                None
            };
            frames.push(Frame { items, next: next + 1, prefix });
            assert(frames@.drop_last() =~= held_frames.drop_last());
            if let Some((path, inner)) = pending {
                let walk = TreeWalk {
                    frames,
                    pending: Some((path, inner)),
                    lines,
                    count,
                    max_depth,
                    max_entries,
                };
                proof {
                    assert(walk.limits() == limits);
                    assert forall|listings: Listings| #[trigger]
                        walk.outcome(listings) == total(
                            listings,
                            contents(written@),
                            left@,
                            limits,
                            shown_before as nat,
                        ) by {
                        assert(walk.outcome(listings) =~= total(
                            listings,
                            held_lines,
                            held_frames,
                            limits,
                            held_count,
                        ));
                    }
                }
                return walk;
            }
            proof {
                assert forall|listings: Listings| #[trigger]
                    total(listings, contents(lines@), frames@, limits, count as nat) == total(
                        listings,
                        contents(written@),
                        left@,
                        limits,
                        shown_before as nat,
                    ) by {
                    assert(total(listings, contents(lines@), frames@, limits, count as nat)
                        =~= total(listings, held_lines, held_frames, limits, held_count));
                }
            }
        }
    }

    /// The lines, at the end of the walk.
    pub fn finish(self) -> (lines: Option<Vec<String>>)
        ensures
            lines is Some <==> self.asks() is None,
            lines matches Some(list) ==> forall|listings: Listings| #[trigger]
                self.outcome(listings).lines == contents(list@) && self.outcome(
                    listings,
                ).reads.len() == 0,
    {
        proof {
            use_type_invariant(&self);
            if self.pending is None {
                assert forall|listings: Listings| #[trigger]
                    self.outcome(listings).lines == contents(self.lines@) && self.outcome(
                        listings,
                    ).reads.len() == 0 by {
                    assert(self.outcome(listings).lines =~= contents(self.lines@));
                }
            }
        }
        if self.pending.is_none() {
            Some(self.lines)
        } else {
            None
        }
    }
}

/// The directory that a walk asks for is the next one that it reads.
pub proof fn law_walk_reads_what_it_asks_for(walk: TreeWalk, listings: Listings)
    requires
        walk.asks() is Some,
    ensures
        walk.outcome(listings).reads.len() > 0,
        walk.outcome(listings).reads[0] == walk.asks()->0,
{
}

} // verus!
