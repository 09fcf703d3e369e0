//! Sets of strings and the order of texts.

use crate::order::{comes_first, orders, sorted_order, Ranked};
use crate::text::{chars_of, contents, same};
use vstd::prelude::*;

verus! {

/// Whether one text stands before another in the order of code points, which is that of `str`.
pub open spec fn text_less(a: Seq<char>, b: Seq<char>) -> bool
    decreases a.len(),
{
    if b.len() == 0 {
        false
    } else if a.len() == 0 {
        true
    } else if a[0] != b[0] {
        a[0] < b[0]
    } else {
        text_less(a.drop_first(), b.drop_first())
    }
}

/// No two texts stand before each other.
pub proof fn lemma_text_asymmetric(a: Seq<char>, b: Seq<char>)
    ensures
        !(text_less(a, b) && text_less(b, a)),
    decreases a.len(),
{
    if a.len() > 0 && b.len() > 0 && a[0] == b[0] {
        lemma_text_asymmetric(a.drop_first(), b.drop_first());
    }
}

/// A text that stands before another stands before, or behind, any third.
pub proof fn lemma_text_comparable(a: Seq<char>, b: Seq<char>, c: Seq<char>)
    requires
        text_less(a, c),
    ensures
        text_less(a, b) || text_less(b, c),
    decreases a.len(),
{
    if a.len() > 0 && b.len() > 0 && c.len() > 0 && a[0] == b[0] && b[0] == c[0] {
        lemma_text_comparable(a.drop_first(), b.drop_first(), c.drop_first());
    }
}

/// Of two different texts one stands before the other.
pub proof fn lemma_text_total(a: Seq<char>, b: Seq<char>)
    requires
        a != b,
    ensures
        text_less(a, b) || text_less(b, a),
    decreases a.len(),
{
    if a.len() > 0 && b.len() > 0 && a[0] == b[0] {
        if a.drop_first() == b.drop_first() {
            assert(a =~= seq![a[0]] + a.drop_first());
            assert(b =~= seq![b[0]] + b.drop_first());
        }
        lemma_text_total(a.drop_first(), b.drop_first());
    } else if a.len() == 0 && b.len() == 0 {
        assert(a =~= b);
    }
}

/// Whether `a` stands before `b` in the order of code points.
pub fn is_less(a: &str, b: &str) -> (less: bool)
    ensures
        less == text_less(a@, b@),
{
    let x: Vec<char> = chars_of(a);
    let y: Vec<char> = chars_of(b);
    let mut i: usize = 0;
    assert(a@.skip(0) == a@);
    assert(b@.skip(0) == b@);
    while i < x.len() && i < y.len()
        invariant
            x@ == a@,
            y@ == b@,
            i <= x.len(),
            i <= y.len(),
            text_less(a@, b@) == text_less(a@.skip(i as int), b@.skip(i as int)),
        decreases x.len() - i,
    {
        if x[i] != y[i] {
            return x[i] < y[i];
        }
        assert(a@.skip(i as int).drop_first() =~= a@.skip(i + 1));
        assert(b@.skip(i as int).drop_first() =~= b@.skip(i + 1));
        i += 1;
    }
    i < y.len()
}

impl Ranked for String {
    open spec fn goes_before(&self, other: &Self) -> bool {
        text_less(self@, other@)
    }

    fn is_before(&self, other: &Self) -> (yes: bool) {
        is_less(self.as_str(), other.as_str())
    }

    proof fn law_asymmetric(a: &Self, b: &Self) {
        lemma_text_asymmetric(a@, b@);
    }

    proof fn law_comparable(a: &Self, b: &Self, c: &Self) {
        lemma_text_comparable(a@, b@, c@);
    }
}

/// A set of strings.
#[derive(Debug)]
pub struct StringSet {
    items: Vec<String>,
}

impl View for StringSet {
    type V = Set<Seq<char>>;

    closed spec fn view(&self) -> Set<Seq<char>> {
        contents(self.items@).to_set()
    }
}

impl StringSet {
    /// No string is held twice.
    #[verifier::type_invariant]
    spec fn distinct(self) -> bool {
        contents(self.items@).no_duplicates()
    }

    /// The empty set.
    pub fn new() -> (set: Self)
        ensures
            set@ == Set::<Seq<char>>::empty(),
    {
        let set = StringSet { items: Vec::new() };
        assert(set@ =~= Set::<Seq<char>>::empty());
        set
    }

    /// The position of a string, or the number of strings where it is not held.
    fn position(&self, item: &str) -> (at: usize)
        ensures
            at <= self.items.len(),
            at < self.items.len() ==> self.items@[at as int]@ == item@,
            (at < self.items.len()) == self@.contains(item@),
    {
        let mut at: usize = 0;
        while at < self.items.len()
            invariant
                at <= self.items.len(),
                forall|i: int| 0 <= i < at ==> #[trigger] self.items@[i]@ != item@,
            decreases self.items.len() - at,
        {
            if same(self.items[at].as_str(), item) {
                assert(contents(self.items@)[at as int] == item@);
                return at;
            }
            at += 1;
        }
        proof {
            if contents(self.items@).contains(item@) {
                let i = choose|i: int|
                    0 <= i < self.items.len() && contents(self.items@)[i] == item@;
                assert(self.items@[i]@ == item@);
            }
        }
        at
    }

    /// Whether the set holds a string.
    pub fn contains(&self, item: &str) -> (held: bool)
        ensures
            held == self@.contains(item@),
    {
        self.position(item) < self.items.len()
    }

    /// Whether the set is empty.
    pub fn is_empty(&self) -> (empty: bool)
        ensures
            empty == (self@ == Set::<Seq<char>>::empty()),
    {
        proof {
            if self.items.len() > 0 {
                assert(contents(self.items@)[0] == self.items@[0]@);
                assert(self@.contains(self.items@[0]@));
            } else {
                assert(self@ =~= Set::<Seq<char>>::empty());
            }
        }
        self.items.is_empty()
    }

    /// Adds a string and tells whether it is new.
    pub fn insert(&mut self, item: String) -> (added: bool)
        ensures
            final(self)@ == old(self)@.insert(item@),
            added == !old(self)@.contains(item@),
    {
        proof {
            use_type_invariant(&*self);
        }
        if self.contains(item.as_str()) {
            assert(self@ =~= old(self)@.insert(item@));
            return false;
        }
        let mut items: Vec<String> = Vec::new();
        std::mem::swap(&mut items, &mut self.items);
        let ghost held = items@;
        items.push(item);
        proof {
            assert(contents(items@) =~= contents(held).push(item@));
            assert forall|s: Seq<char>| contents(items@).to_set().contains(s) == contents(
                held,
            ).to_set().insert(item@).contains(s) by {
                lemma_push_contains(contents(held), item@, s);
            }
            assert(contents(items@).to_set() =~= contents(held).to_set().insert(item@));
        }
        self.items = items;
        true
    }

    /// Takes a string out and tells whether it was held.
    pub fn remove(&mut self, item: &str) -> (removed: bool)
        ensures
            final(self)@ == old(self)@.remove(item@),
            removed == old(self)@.contains(item@),
    {
        proof {
            use_type_invariant(&*self);
        }
        let at: usize = self.position(item);
        if at == self.items.len() {
            assert(self@ =~= old(self)@.remove(item@));
            return false;
        }
        let mut items: Vec<String> = Vec::new();
        std::mem::swap(&mut items, &mut self.items);
        let ghost held = items@;
        let _taken: String = items.remove(at);
        proof {
            assert(contents(items@) =~= contents(held).remove(at as int));
            lemma_remove(contents(held), at as int);
        }
        self.items = items;
        true
    }

    /// Takes all strings out.
    pub fn clear(&mut self)
        ensures
            final(self)@ == Set::<Seq<char>>::empty(),
    {
        self.items = Vec::new();
        assert(self@ =~= Set::<Seq<char>>::empty());
    }

    /// A copy of the set.
    pub fn copy(&self) -> (set: StringSet)
        ensures
            set@ == self@,
    {
        proof {
            use_type_invariant(self);
        }
        let mut items: Vec<String> = Vec::new();
        let mut i: usize = 0;
        while i < self.items.len()
            invariant
                i <= self.items.len(),
                items@ == self.items@.take(i as int),
            decreases self.items.len() - i,
        {
            items.push(self.items[i].clone());
            i += 1;
        }
        assert(items@ =~= self.items@);
        StringSet { items }
    }

    /// The set of the listed strings.
    pub fn from_list(list: Vec<String>) -> (set: StringSet)
        ensures
            set@ == contents(list@).to_set(),
    {
        let mut set = StringSet::new();
        let mut i: usize = 0;
        assert(contents(list@).take(0).to_set() =~= Set::<Seq<char>>::empty());
        while i < list.len()
            invariant
                i <= list.len(),
                set@ == contents(list@).take(i as int).to_set(),
            decreases list.len() - i,
        {
            let _new: bool = set.insert(list[i].clone());
            proof {
                let head = contents(list@).take(i as int);
                let item = list@[i as int]@;
                assert(contents(list@).take(i + 1) =~= head.push(item));
                assert forall|s: Seq<char>| head.push(item).to_set().contains(s)
                    == head.to_set().insert(item).contains(s) by {
                    lemma_push_contains(head, item, s);
                }
                assert(head.push(item).to_set() =~= head.to_set().insert(item));
            }
            i += 1;
        }
        assert(contents(list@).take(i as int) =~= contents(list@));
        set
    }

    /// The strings in the order of code points, each once.
    pub fn sorted(&self) -> (list: Vec<String>)
        ensures
            is_listing(contents(list@), self@),
    {
        proof {
            use_type_invariant(self);
        }
        let order: Vec<usize> = sorted_order(&self.items);
        let mut list: Vec<String> = Vec::new();
        let mut i: usize = 0;
        while i < order.len()
            invariant
                orders(self.items@, order@),
                i <= order.len(),
                list.len() == i,
                forall|k: int| 0 <= k < i ==> #[trigger] list@[k] == self.items@[order@[k] as int],
            decreases order.len() - i,
        {
            list.push(self.items[order[i]].clone());
            i += 1;
        }
        proof {
            let found = contents(list@);
            let held = contents(self.items@);
            assert forall|a: int, b: int| 0 <= a < b < found.len() implies text_less(
                #[trigger] found[a],
                #[trigger] found[b],
            ) by {
                let (p, q) = (order@[a] as int, order@[b] as int);
                assert(comes_first(self.items@, p, q));
                lemma_text_asymmetric(held[p], held[q]);
                lemma_text_asymmetric(held[p], held[p]);
                if p != q {
                    assert(held[p] != held[q]);
                    lemma_text_total(held[p], held[q]);
                }
            }
            assert forall|s: Seq<char>| found.to_set().contains(s) == self@.contains(s) by {
                if held.contains(s) {
                    let p = choose|p: int| 0 <= p < held.len() && held[p] == s;
                    assert(order@.contains(p as usize));
                    let k = choose|k: int| 0 <= k < order.len() && order@[k] == p as usize;
                    assert(found[k] == s);
                }
                if found.contains(s) {
                    let k = choose|k: int| 0 <= k < found.len() && found[k] == s;
                    assert(held[order@[k] as int] == s);
                }
            }
            assert(found.to_set() =~= self@);
        }
        list
    }

    /// Whether two sets hold the same strings.
    pub fn same_members(&self, other: &StringSet) -> (equal: bool)
        ensures
            equal == (self@ == other@),
    {
        let equal: bool = self.within(other) && other.within(self);
        assert(equal ==> self@ =~= other@);
        equal
    }

    /// Whether another set holds all strings of this one.
    fn within(&self, other: &StringSet) -> (yes: bool)
        ensures
            yes == self@.subset_of(other@),
    {
        let mut i: usize = 0;
        while i < self.items.len()
            invariant
                i <= self.items.len(),
                forall|k: int| 0 <= k < i ==> other@.contains(#[trigger] contents(self.items@)[k]),
            decreases self.items.len() - i,
        {
            if !other.contains(self.items[i].as_str()) {
                assert(contents(self.items@)[i as int] == self.items@[i as int]@);
                assert(self@.contains(self.items@[i as int]@));
                return false;
            }
            i += 1;
        }
        assert forall|s: Seq<char>| self@.contains(s) implies other@.contains(s) by {
            let k = choose|k: int| 0 <= k < self.items.len() && contents(self.items@)[k] == s;
            assert(other@.contains(contents(self.items@)[k]));
        }
        true
    }
}

/// Whether a list holds the members of a set, each once, in the order of code points.
pub open spec fn is_listing(list: Seq<Seq<char>>, set: Set<Seq<char>>) -> bool {
    &&& list.to_set() == set
    &&& forall|a: int, b: int|
        0 <= a < b < list.len() ==> text_less(#[trigger] list[a], #[trigger] list[b])
}

/// A set is listed in one way only.
pub proof fn law_listing_unique(one: Seq<Seq<char>>, other: Seq<Seq<char>>, set: Set<Seq<char>>)
    requires
        is_listing(one, set),
        is_listing(other, set),
    ensures
        one == other,
{
    lemma_same_listed(one, other, set, one.len() as int);
    lemma_same_listed(other, one, set, other.len() as int);
    assert(one =~= other);
}

proof fn lemma_same_listed(
    one: Seq<Seq<char>>,
    other: Seq<Seq<char>>,
    set: Set<Seq<char>>,
    n: int,
)
    requires
        is_listing(one, set),
        is_listing(other, set),
        0 <= n <= one.len(),
    ensures
        n <= other.len(),
        forall|k: int| 0 <= k < n ==> #[trigger] one[k] == other[k],
    decreases n,
{
    if n > 0 {
        lemma_same_listed(one, other, set, n - 1);
        let next = one[n - 1];
        assert(one.to_set().contains(next));
        assert(other.to_set().contains(next));
        let j = choose|j: int| 0 <= j < other.len() && other[j] == next;
        lemma_text_asymmetric(next, next);
        if j < n - 1 {
            assert(one[j] == other[j]);
        }
        let found = other[n - 1];
        assert(other.to_set().contains(found));
        assert(one.to_set().contains(found));
        let m = choose|m: int| 0 <= m < one.len() && one[m] == found;
        if m < n - 1 {
            assert(one[m] == other[m]);
            lemma_text_asymmetric(found, found);
        }
        lemma_text_asymmetric(next, found);
    }
}

proof fn lemma_push_contains(list: Seq<Seq<char>>, item: Seq<char>, s: Seq<char>)
    ensures
        list.push(item).contains(s) == (list.contains(s) || s == item),
{
    if list.contains(s) {
        let k = choose|k: int| 0 <= k < list.len() && list[k] == s;
        assert(list.push(item)[k] == s);
    }
    if s == item {
        assert(list.push(item)[list.len() as int] == s);
    }
}

proof fn lemma_remove(list: Seq<Seq<char>>, at: int)
    requires
        0 <= at < list.len(),
        list.no_duplicates(),
    ensures
        list.remove(at).no_duplicates(),
        list.remove(at).to_set() == list.to_set().remove(list[at]),
{
    let rest = list.remove(at);
    assert forall|s: Seq<char>| rest.to_set().contains(s) == list.to_set().remove(
        list[at],
    ).contains(s) by {
        if rest.contains(s) {
            let k = choose|k: int| 0 <= k < rest.len() && rest[k] == s;
            let j = if k < at { k } else { k + 1 };
            assert(list[j] == s);
        }
        if list.contains(s) && s != list[at] {
            let j = choose|j: int| 0 <= j < list.len() && list[j] == s;
            let k = if j < at { j } else { j - 1 };
            assert(rest[k] == s);
        }
    }
    assert(rest.to_set() =~= list.to_set().remove(list[at]));
}

impl PartialEq for StringSet {
    fn eq(&self, other: &Self) -> (equal: bool) {
        self.same_members(other)
    }
}

impl vstd::std_specs::cmp::PartialEqSpecImpl for StringSet {
    open spec fn obeys_eq_spec() -> bool {
        true
    }

    open spec fn eq_spec(&self, other: &Self) -> bool {
        self@ == other@
    }
}

} // verus!
