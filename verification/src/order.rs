//! A stable order of the items of a list, given as the list of their positions.

use vstd::prelude::*;

verus! {

/// Items that can be put in order. Items of which neither goes before the other are level.
pub trait Ranked: Sized {
    /// Whether this item goes before `other`.
    spec fn goes_before(&self, other: &Self) -> bool;

    /// Whether this item goes before `other`.
    fn is_before(&self, other: &Self) -> (yes: bool)
        ensures
            yes == self.goes_before(other),
    ;

    /// No two items go before each other.
    proof fn law_asymmetric(a: &Self, b: &Self)
        ensures
            !(a.goes_before(b) && b.goes_before(a)),
    ;

    /// An item that goes before another goes before, or comes after, any third.
    proof fn law_comparable(a: &Self, b: &Self, c: &Self)
        requires
            a.goes_before(c),
        ensures
            a.goes_before(b) || b.goes_before(c),
    ;
}

/// Whether the item at position `i` comes before the one at `j`: it goes before it, or the two are
/// level and it stands earlier in the list.
pub open spec fn comes_first<T: Ranked>(items: Seq<T>, i: int, j: int) -> bool {
    items[i].goes_before(&items[j]) || (!items[j].goes_before(&items[i]) && i < j)
}

/// Whether `order` lists each position from `lo` up to `hi` once, in the order of the items.
pub open spec fn orders_range<T: Ranked>(
    items: Seq<T>,
    lo: int,
    hi: int,
    order: Seq<usize>,
) -> bool {
    &&& order.len() == hi - lo
    &&& forall|k: int| 0 <= k < order.len() ==> lo <= #[trigger] order[k] < hi
    &&& forall|i: usize| lo <= i < hi ==> #[trigger] order.contains(i)
    &&& forall|a: int, b: int|
        0 <= a < b < order.len() ==> #[trigger] comes_first(
            items,
            #[trigger] order[a] as int,
            #[trigger] order[b] as int,
        )
}

/// Whether `order` lists each position of the items once, in the order of the items.
pub open spec fn orders<T: Ranked>(items: Seq<T>, order: Seq<usize>) -> bool {
    orders_range(items, 0, items.len() as int, order)
}

/// `comes_first` is transitive.
pub proof fn lemma_transitive<T: Ranked>(items: Seq<T>, i: int, j: int, k: int)
    requires
        comes_first(items, i, j),
        comes_first(items, j, k),
    ensures
        comes_first(items, i, k),
{
    let (a, b, c) = (&items[i], &items[j], &items[k]);
    T::law_asymmetric(a, b);
    T::law_asymmetric(b, c);
    T::law_asymmetric(a, c);
    if a.goes_before(b) {
        T::law_comparable(a, c, b);
    } else if b.goes_before(c) {
        T::law_comparable(b, a, c);
    } else {
        if c.goes_before(a) {
            T::law_comparable(c, b, a);
        }
    }
}

/// The items have one order only.
pub proof fn law_order_unique<T: Ranked>(items: Seq<T>, one: Seq<usize>, other: Seq<usize>)
    requires
        orders(items, one),
        orders(items, other),
    ensures
        one == other,
{
    assert forall|k: int| 0 <= k < one.len() implies one[k] == other[k] by {
        lemma_same_prefix(items, one, other, k + 1);
        assert(one.take(k + 1)[k] == other.take(k + 1)[k]);
    }
    assert(one =~= other);
}

proof fn lemma_same_prefix<T: Ranked>(items: Seq<T>, one: Seq<usize>, other: Seq<usize>, n: int)
    requires
        orders(items, one),
        orders(items, other),
        0 <= n <= one.len(),
    ensures
        one.take(n) == other.take(n),
    decreases n,
{
    if n > 0 {
        let k = n - 1;
        lemma_same_prefix(items, one, other, k);
        if one[k] != other[k] {
            lemma_not_passed_over(items, one, other, k);
            lemma_not_passed_over(items, other, one, k);
            T::law_asymmetric(&items[one[k] as int], &items[other[k] as int]);
        }
        assert(one.take(n) =~= one.take(k).push(one[k]));
        assert(other.take(n) =~= other.take(k).push(other[k]));
    }
}

/// Where two orders part, what one has there comes first also in the other.
proof fn lemma_not_passed_over<T: Ranked>(
    items: Seq<T>,
    one: Seq<usize>,
    other: Seq<usize>,
    k: int,
)
    requires
        orders(items, one),
        orders(items, other),
        0 <= k < one.len(),
        one.take(k) == other.take(k),
        one[k] != other[k],
    ensures
        comes_first(items, one[k] as int, other[k] as int),
{
    assert(one.contains(other[k]));
    let m = choose|m: int| 0 <= m < one.len() && one[m] == other[k];
    if m < k {
        assert(one.take(k)[m] == one[m]);
        assert(other.take(k)[m] == other[m]);
        assert(comes_first(items, other[m] as int, other[k] as int));
        T::law_asymmetric(&items[other[k] as int], &items[other[k] as int]);
    } else {
        assert(comes_first(items, one[k] as int, one[m] as int));
    }
}

/// The positions of the items in their order.
pub fn sorted_order<T: Ranked>(items: &Vec<T>) -> (order: Vec<usize>)
    ensures
        orders(items@, order@),
{
    sorted_range(items, 0, items.len())
}

/// The positions from `lo` up to `hi` in the order of the items there.
fn sorted_range<T: Ranked>(items: &Vec<T>, lo: usize, hi: usize) -> (order: Vec<usize>)
    requires
        lo <= hi <= items.len(),
    ensures
        orders_range(items@, lo as int, hi as int, order@),
    decreases hi - lo,
{
    if hi - lo <= 1 {
        let mut order: Vec<usize> = Vec::new();
        if lo < hi {
            order.push(lo);
            assert(order@[0] == lo);
        }
        return order;
    }
    let mid: usize = lo + (hi - lo) / 2;
    let left: Vec<usize> = sorted_range(items, lo, mid);
    let right: Vec<usize> = sorted_range(items, mid, hi);
    merge(items, &left, &right, Ghost((lo as int, mid as int, hi as int)))
}

/// What `merge` has taken so far: `out` holds the first `l` of `left` and the first `r` of `right`,
/// in order, and none of them belongs behind what is left.
spec fn merged<T: Ranked>(
    items: Seq<T>,
    left: Seq<usize>,
    right: Seq<usize>,
    l: int,
    r: int,
    out: Seq<usize>,
) -> bool {
    &&& 0 <= l <= left.len()
    &&& 0 <= r <= right.len()
    &&& out.len() == l + r
    &&& forall|k: int|
        0 <= k < out.len() ==> left.contains(#[trigger] out[k]) || right.contains(out[k])
    &&& forall|k: int| 0 <= k < l ==> out.contains(#[trigger] left[k])
    &&& forall|k: int| 0 <= k < r ==> out.contains(#[trigger] right[k])
    &&& forall|a: int, b: int|
        0 <= a < b < out.len() ==> #[trigger] comes_first(
            items,
            #[trigger] out[a] as int,
            #[trigger] out[b] as int,
        )
    &&& forall|a: int, b: int|
        0 <= a < out.len() && l <= b < left.len() ==> #[trigger] comes_first(
            items,
            #[trigger] out[a] as int,
            #[trigger] left[b] as int,
        )
    &&& forall|a: int, b: int|
        0 <= a < out.len() && r <= b < right.len() ==> #[trigger] comes_first(
            items,
            #[trigger] out[a] as int,
            #[trigger] right[b] as int,
        )
}

proof fn lemma_contains_push(s: Seq<usize>, x: usize)
    ensures
        s.push(x).contains(x),
        forall|y: usize| s.contains(y) ==> #[trigger] s.push(x).contains(y),
{
    assert(s.push(x)[s.len() as int] == x);
    assert forall|y: usize| s.contains(y) implies #[trigger] s.push(x).contains(y) by {
        let k = choose|k: int| 0 <= k < s.len() && s[k] == y;
        assert(s.push(x)[k] == y);
    }
}

/// Merges two ordered ranges that stand next to each other.
fn merge<T: Ranked>(
    items: &Vec<T>,
    left: &Vec<usize>,
    right: &Vec<usize>,
    Ghost(bounds): Ghost<(int, int, int)>,
) -> (out: Vec<usize>)
    requires
        0 <= bounds.0 <= bounds.1 <= bounds.2 <= items.len(),
        orders_range(items@, bounds.0, bounds.1, left@),
        orders_range(items@, bounds.1, bounds.2, right@),
    ensures
        orders_range(items@, bounds.0, bounds.2, out@),
{
    let mut out: Vec<usize> = Vec::new();
    let mut l: usize = 0;
    let mut r: usize = 0;
    while l < left.len() || r < right.len()
        invariant
            0 <= bounds.0 <= bounds.1 <= bounds.2 <= items.len(),
            orders_range(items@, bounds.0, bounds.1, left@),
            orders_range(items@, bounds.1, bounds.2, right@),
            l <= left.len(),
            r <= right.len(),
            merged(items@, left@, right@, l as int, r as int, out@),
        decreases left.len() - l + right.len() - r,
    {
        let from_left: bool = if l == left.len() {
            false
        } else if r == right.len() {
            true
        } else {
            !items[right[r]].is_before(&items[left[l]])
        };
        let ghost taken = out@;
        if from_left {
            let next: usize = left[l];
            out.push(next);
            proof {
                lemma_contains_push(taken, next);
                assert(left@.contains(next));
                assert forall|b: int| r <= b < right.len() implies #[trigger] comes_first(
                    items@,
                    next as int,
                    right@[b] as int,
                ) by {
                    assert(comes_first(items@, next as int, right@[r as int] as int));
                    if b > r {
                        lemma_transitive(
                            items@,
                            next as int,
                            right@[r as int] as int,
                            right@[b] as int,
                        );
                    }
                }
            }
            l += 1;
        } else {
            let next: usize = right[r];
            out.push(next);
            proof {
                lemma_contains_push(taken, next);
                assert(right@.contains(next));
                assert forall|b: int| l <= b < left.len() implies #[trigger] comes_first(
                    items@,
                    next as int,
                    left@[b] as int,
                ) by {
                    assert(comes_first(items@, next as int, left@[l as int] as int));
                    if b > l {
                        lemma_transitive(
                            items@,
                            next as int,
                            left@[l as int] as int,
                            left@[b] as int,
                        );
                    }
                }
            }
            r += 1;
        }
    }
    proof {
        assert forall|i: usize| bounds.0 <= i < bounds.2 implies #[trigger] out@.contains(i) by {
            if i < bounds.1 {
                assert(left@.contains(i));
                let k = choose|k: int| 0 <= k < left.len() && left@[k] == i;
                assert(out@.contains(left@[k]));
            } else {
                assert(right@.contains(i));
                let k = choose|k: int| 0 <= k < right.len() && right@[k] == i;
                assert(out@.contains(right@[k]));
            }
        }
    }
    out
}

} // verus!
