//! A stable merge sort that works on positions: the result names, for each
//! place, the position of the item that belongs there.

#![verifier::loop_isolation(false)]

use crate::models::Duplicate;
use vstd::prelude::*;

verus! {

/// A key by which items are put in order. `less` is a strict order in which
/// keys may tie.
pub trait SortKey: Sized {
    /// Whether an item with this key stands before one with the key `other`.
    spec fn less(self, other: Self) -> bool;

    /// Of two keys at most one stands before the other.
    proof fn less_asymmetric(a: Self, b: Self)
        requires
            a.less(b),
        ensures
            !b.less(a),
    ;

    /// Where `a` stands before `b`, any third key stands after `a` or before `b`.
    proof fn less_splits(a: Self, b: Self, c: Self)
        requires
            a.less(b),
        ensures
            a.less(c) || c.less(b),
    ;

    /// Whether an item with this key stands before one with the key `other`.
    fn is_less(&self, other: &Self) -> (r: bool)
        ensures
            r == self.less(*other),
    ;
}

/// Whether the item at position `a` stands before the one at position `b`: its
/// key does, or the keys tie and it came first.
pub open spec fn precedes<K: SortKey>(keys: Seq<K>, a: int, b: int) -> bool {
    keys[a].less(keys[b]) || (!keys[b].less(keys[a]) && a < b)
}

/// Whether `order` lists each position of `keys` once, in the order of the keys.
pub open spec fn is_order<K: SortKey>(keys: Seq<K>, order: Seq<usize>) -> bool {
    &&& order.len() == keys.len()
    &&& forall|i: int| 0 <= i < order.len() ==> 0 <= #[trigger] order[i] < keys.len()
    &&& forall|k: usize| k < keys.len() ==> #[trigger] order.contains(k)
    &&& forall|i: int, j: int|
        0 <= i < j < order.len() ==> precedes(keys, #[trigger] order[i] as int, #[trigger] order[j] as int)
}

/// Whether `order` lists each number below its length once.
pub open spec fn is_permutation(order: Seq<int>) -> bool {
    &&& forall|i: int| 0 <= i < order.len() ==> 0 <= #[trigger] order[i] < order.len()
    &&& forall|i: int, j: int| 0 <= i < j < order.len() ==> #[trigger] order[i] != #[trigger] order[j]
}

/// Whether `output` holds the items of `input` in the order of `less`, those
/// that tie in the order in which they came.
pub open spec fn stably_sorted<A>(input: Seq<A>, output: Seq<A>, less: spec_fn(A, A) -> bool) -> bool {
    exists|order: Seq<int>| #[trigger] sorts(input, output, less, order)
}

/// Whether taking the items of `input` in the order `order` gives `output`,
/// and puts them in the order of `less`, those that tie as they came.
pub open spec fn sorts<A>(
    input: Seq<A>,
    output: Seq<A>,
    less: spec_fn(A, A) -> bool,
    order: Seq<int>,
) -> bool {
    &&& is_permutation(order)
    &&& order.len() == input.len()
    &&& output.len() == input.len()
    &&& forall|i: int| 0 <= i < output.len() ==> output[i] == input[#[trigger] order[i]]
    &&& forall|i: int, j: int|
        0 <= i < j < output.len() ==> less(#[trigger] output[i], #[trigger] output[j]) || (!less(
            output[j],
            output[i],
        ) && order[i] < order[j])
}

/// `precedes` is transitive.
proof fn lemma_precedes_transitive<K: SortKey>(keys: Seq<K>, a: int, b: int, c: int)
    requires
        precedes(keys, a, b),
        precedes(keys, b, c),
    ensures
        precedes(keys, a, c),
{
    let (x, y, z) = (keys[a], keys[b], keys[c]);
    if x.less(y) {
        K::less_splits(x, y, z);
        if y.less(z) {
            K::less_asymmetric(y, z);
        }
    } else if y.less(z) {
        K::less_splits(y, z, x);
    } else if z.less(x) {
        K::less_splits(z, x, y);
    }
}

/// Whether `part` lists the positions from `from` to `to` in order.
spec fn orders_range<K: SortKey>(keys: Seq<K>, part: Seq<usize>, from: int, to: int) -> bool {
    &&& part.len() == to - from
    &&& forall|i: int| 0 <= i < part.len() ==> from <= #[trigger] part[i] < to
    &&& forall|k: usize| from <= k < to ==> #[trigger] part.contains(k)
    &&& forall|i: int, j: int|
        0 <= i < j < part.len() ==> precedes(keys, #[trigger] part[i] as int, #[trigger] part[j] as int)
}

/// Merges two neighbouring ordered ranges into one.
fn merge<K: SortKey>(
    keys: &Vec<K>,
    left: &Vec<usize>,
    right: &Vec<usize>,
    Ghost(from): Ghost<int>,
    Ghost(mid): Ghost<int>,
    Ghost(to): Ghost<int>,
) -> (out: Vec<usize>)
    requires
        0 <= from <= mid <= to <= keys@.len(),
        orders_range(keys@, left@, from, mid),
        orders_range(keys@, right@, mid, to),
    ensures
        orders_range(keys@, out@, from, to),
{
    let mut out: Vec<usize> = Vec::new();
    let mut i: usize = 0;
    let mut j: usize = 0;
    while i < left.len() || j < right.len()
        invariant
            i <= left@.len(),
            j <= right@.len(),
            out@.len() == i + j,
            forall|k: int| 0 <= k < out@.len() ==> from <= #[trigger] out@[k] < to,
            forall|k: int| 0 <= k < i ==> out@.contains(#[trigger] left@[k]),
            forall|k: int| 0 <= k < j ==> out@.contains(#[trigger] right@[k]),
            forall|a: int, b: int|
                0 <= a < b < out@.len() ==> precedes(
                    keys@,
                    #[trigger] out@[a] as int,
                    #[trigger] out@[b] as int,
                ),
            forall|a: int, b: int|
                0 <= a < out@.len() && i <= b < left@.len() ==> precedes(
                    keys@,
                    #[trigger] out@[a] as int,
                    #[trigger] left@[b] as int,
                ),
            forall|a: int, b: int|
                0 <= a < out@.len() && j <= b < right@.len() ==> precedes(
                    keys@,
                    #[trigger] out@[a] as int,
                    #[trigger] right@[b] as int,
                ),
        decreases left@.len() - i + right@.len() - j,
    {
        let take_left: bool = if i >= left.len() {
            false
        } else if j >= right.len() {
            true
        } else {
            !keys[right[j]].is_less(&keys[left[i]])
        };
        let ghost before = out@;
        if take_left {
            out.push(left[i]);
            proof {
                assert(out@[before.len() as int] == left@[i as int]);
                assert forall|k: int| 0 <= k < i + 1 implies out@.contains(#[trigger] left@[k]) by {
                    if k < i {
                        let w = choose|w: int| 0 <= w < before.len() && before[w] == left@[k];
                        assert(out@[w] == left@[k]);
                    }
                }
                assert forall|k: int| 0 <= k < j implies out@.contains(#[trigger] right@[k]) by {
                    let w = choose|w: int| 0 <= w < before.len() && before[w] == right@[k];
                    assert(out@[w] == right@[k]);
                }
                assert forall|b: int| j <= b < right@.len() implies precedes(
                    keys@,
                    left@[i as int] as int,
                    #[trigger] right@[b] as int,
                ) by {
                    assert(precedes(keys@, left@[i as int] as int, right@[j as int] as int));
                    if b > j {
                        lemma_precedes_transitive(
                            keys@,
                            left@[i as int] as int,
                            right@[j as int] as int,
                            right@[b] as int,
                        );
                    }
                }
            }
            i = i + 1;
        } else {
            out.push(right[j]);
            proof {
                assert(out@[before.len() as int] == right@[j as int]);
                assert forall|k: int| 0 <= k < j + 1 implies out@.contains(#[trigger] right@[k]) by {
                    if k < j {
                        let w = choose|w: int| 0 <= w < before.len() && before[w] == right@[k];
                        assert(out@[w] == right@[k]);
                    }
                }
                assert forall|k: int| 0 <= k < i implies out@.contains(#[trigger] left@[k]) by {
                    let w = choose|w: int| 0 <= w < before.len() && before[w] == left@[k];
                    assert(out@[w] == left@[k]);
                }
                assert forall|b: int| i <= b < left@.len() implies precedes(
                    keys@,
                    right@[j as int] as int,
                    #[trigger] left@[b] as int,
                ) by {
                    assert(precedes(keys@, right@[j as int] as int, left@[i as int] as int));
                    if b > i {
                        lemma_precedes_transitive(
                            keys@,
                            right@[j as int] as int,
                            left@[i as int] as int,
                            left@[b] as int,
                        );
                    }
                }
            }
            j = j + 1;
        }
    }
    assert forall|k: usize| from <= k < to implies #[trigger] out@.contains(k) by {
        if k < mid {
            assert(left@.contains(k));
            let w = choose|w: int| 0 <= w < left@.len() && left@[w] == k;
            assert(out@.contains(left@[w]));
        } else {
            assert(right@.contains(k));
            let w = choose|w: int| 0 <= w < right@.len() && right@[w] == k;
            assert(out@.contains(right@[w]));
        }
    }
    out
}

/// Orders the positions from `from` to `to`.
fn order_range<K: SortKey>(keys: &Vec<K>, from: usize, to: usize) -> (out: Vec<usize>)
    requires
        from <= to <= keys@.len(),
    ensures
        orders_range(keys@, out@, from as int, to as int),
    decreases to - from,
{
    if to - from == 0 {
        return Vec::new();
    }
    if to - from == 1 {
        let mut out: Vec<usize> = Vec::new();
        out.push(from);
        assert(out@[0] == from);
        return out;
    }
    let mid: usize = from + (to - from) / 2;
    let left = order_range(keys, from, mid);
    let right = order_range(keys, mid, to);
    merge(keys, &left, &right, Ghost(from as int), Ghost(mid as int), Ghost(to as int))
}

/// The positions of `keys` in the order of the keys, those that tie as they
/// came.
pub fn order_of<K: SortKey>(keys: &Vec<K>) -> (out: Vec<usize>)
    ensures
        is_order(keys@, out@),
{
    order_range(keys, 0, keys.len())
}

/// What an order of keys says of the items that the keys were made for.
pub proof fn lemma_order_sorts<K: SortKey, A>(
    keys: Seq<K>,
    order: Seq<usize>,
    input: Seq<A>,
    output: Seq<A>,
    less: spec_fn(A, A) -> bool,
)
    requires
        is_order(keys, order),
        input.len() == keys.len(),
        output.len() == keys.len(),
        forall|i: int, j: int|
            #![trigger keys[i], keys[j]]
            0 <= i < keys.len() && 0 <= j < keys.len() ==> keys[i].less(keys[j]) == less(
                input[i],
                input[j],
            ),
        forall|i: int| 0 <= i < order.len() ==> output[i] == input[#[trigger] order[i] as int],
    ensures
        stably_sorted(input, output, less),
{
    let picks = Seq::new(order.len(), |i: int| order[i] as int);
    assert(is_permutation(picks)) by {
        assert forall|i: int, j: int| 0 <= i < j < picks.len() implies #[trigger] picks[i]
            != #[trigger] picks[j] by {
            assert(precedes(keys, order[i] as int, order[j] as int));
            let key = keys[picks[i]];
            if picks[i] == picks[j] && key.less(key) {
                K::less_asymmetric(key, key);
            }
        }
    }
    assert forall|i: int, j: int| 0 <= i < j < output.len() implies less(
        #[trigger] output[i],
        #[trigger] output[j],
    ) || (!less(output[j], output[i]) && picks[i] < picks[j]) by {
        assert(precedes(keys, order[i] as int, order[j] as int));
        let (a, b) = (order[i] as int, order[j] as int);
        assert(keys[a].less(keys[b]) == less(input[a], input[b]));
        assert(keys[b].less(keys[a]) == less(input[b], input[a]));
    }
    assert(sorts(input, output, less, picks));
}

/// Numbers in ascending order.
impl SortKey for u64 {
    open spec fn less(self, other: Self) -> bool {
        self < other
    }

    proof fn less_asymmetric(a: Self, b: Self) {
    }

    proof fn less_splits(a: Self, b: Self, c: Self) {
    }

    fn is_less(&self, other: &Self) -> (r: bool) {
        *self < *other
    }
}

/// An order that lists each number once leaves none out.
pub proof fn lemma_permutation_covers(order: Seq<int>, at: int)
    requires
        is_permutation(order),
        0 <= at < order.len(),
    ensures
        exists|i: int| 0 <= i < order.len() && #[trigger] order[i] == at,
{
    let all = vstd::set_lib::set_int_range(0, order.len() as int);
    vstd::set_lib::lemma_int_range(0, order.len() as int);
    assert(order.no_duplicates());
    order.unique_seq_to_set();
    assert(order.to_set().subset_of(all));
    vstd::set_lib::lemma_subset_equality(order.to_set(), all);
    assert(order.to_set().contains(at));
    assert(order.contains(at));
}

/// Whether `less` is an order in which items may tie.
pub open spec fn may_tie<A>(less: spec_fn(A, A) -> bool) -> bool {
    &&& forall|a: A, b: A| #[trigger] less(a, b) ==> !less(b, a)
    &&& forall|a: A, b: A, c: A|
        #![trigger less(a, c), less(c, b)]
        less(a, b) ==> less(a, c) || less(c, b)
}

/// Two lists that hold each number below their length once hold the same numbers.
proof fn lemma_same_numbers(a: Seq<int>, b: Seq<int>)
    requires
        is_permutation(a),
        is_permutation(b),
        a.len() == b.len(),
    ensures
        a.to_multiset() == b.to_multiset(),
{
    broadcast use vstd::seq_lib::group_to_multiset_ensures;

    assert(a.no_duplicates());
    assert(b.no_duplicates());
    a.lemma_multiset_has_no_duplicates();
    b.lemma_multiset_has_no_duplicates();
    assert forall|x: int| a.to_multiset().count(x) == b.to_multiset().count(x) by {
        if 0 <= x < a.len() {
            lemma_permutation_covers(a, x);
            lemma_permutation_covers(b, x);
            assert(a.contains(x) && b.contains(x));
        } else {
            assert(!a.contains(x) && !b.contains(x));
        }
    }
    assert(a.to_multiset() =~= b.to_multiset());
}

/// Whether the item at one position does not stand behind the one at another in a
/// stable order.
spec fn not_behind<A>(input: Seq<A>, less: spec_fn(A, A) -> bool, a: int, b: int) -> bool {
    a == b || less(input[a], input[b]) || (!less(input[b], input[a]) && a < b)
}

/// Positions are totally ordered.
proof fn lemma_positions_ordered<A>(input: Seq<A>, less: spec_fn(A, A) -> bool)
    requires
        may_tie(less),
    ensures
        vstd::relations::total_ordering(|a: int, b: int| not_behind(input, less, a, b)),
{
    let leq = |a: int, b: int| not_behind(input, less, a, b);
    assert(vstd::relations::transitive(leq)) by {
        assert forall|a: int, b: int, c: int| #[trigger] leq(a, b) && #[trigger] leq(b, c) implies leq(
            a,
            c,
        ) by {
            let (p, q, r) = (input[a], input[b], input[c]);
            assert(less(p, q) ==> less(p, r) || less(r, q));
            assert(less(q, r) ==> less(q, p) || less(p, r));
            assert(less(r, p) ==> less(r, q) || less(q, p));
        }
    }
}

/// An order that sorts puts each position behind those before it.
proof fn lemma_sorts_positions<A>(
    input: Seq<A>,
    output: Seq<A>,
    less: spec_fn(A, A) -> bool,
    order: Seq<int>,
)
    requires
        sorts(input, output, less, order),
    ensures
        vstd::relations::sorted_by(order, |a: int, b: int| not_behind(input, less, a, b)),
{
    let leq = |a: int, b: int| not_behind(input, less, a, b);
    assert forall|i: int, j: int| 0 <= i < j < order.len() implies #[trigger] leq(
        order[i],
        order[j],
    ) by {
        assert(output[i] == input[order[i]] && output[j] == input[order[j]]);
    }
}

/// There is one stable order: what sorts a list, leaving items that tie as they
/// came, gives always the same.
pub proof fn stable_order_is_unique<A>(
    input: Seq<A>,
    first: Seq<A>,
    second: Seq<A>,
    less: spec_fn(A, A) -> bool,
)
    requires
        may_tie(less),
        stably_sorted(input, first, less),
        stably_sorted(input, second, less),
    ensures
        first == second,
{
    let x = choose|order: Seq<int>| #[trigger] sorts(input, first, less, order);
    let y = choose|order: Seq<int>| #[trigger] sorts(input, second, less, order);
    let leq = |a: int, b: int| not_behind(input, less, a, b);
    lemma_positions_ordered(input, less);
    lemma_sorts_positions(input, first, less, x);
    lemma_sorts_positions(input, second, less, y);
    lemma_same_numbers(x, y);
    vstd::seq_lib::lemma_sorted_unique(x, y, leq);
    assert forall|i: int| 0 <= i < first.len() implies first[i] == second[i] by {
        assert(first[i] == input[x[i]] && second[i] == input[y[i]]);
    }
    assert(first =~= second);
}

/// The numbers below `n`.
spec fn numbers(n: nat) -> Seq<int> {
    Seq::new(n, |i: int| i)
}

/// Every list has a stable order.
pub proof fn stable_order_exists<A>(input: Seq<A>, less: spec_fn(A, A) -> bool)
    requires
        may_tie(less),
    ensures
        exists|output: Seq<A>| #[trigger] stably_sorted(input, output, less),
{
    broadcast use vstd::seq_lib::group_to_multiset_ensures;

    let leq = |a: int, b: int| not_behind(input, less, a, b);
    let all = numbers(input.len());
    let order = all.sort_by(leq);
    lemma_positions_ordered(input, less);
    all.lemma_sort_by_ensures(leq);
    assert(all.no_duplicates());
    all.lemma_multiset_has_no_duplicates();
    order.lemma_multiset_has_no_duplicates_conv();
    assert(order.len() == order.to_multiset().len());
    assert(all.len() == all.to_multiset().len());
    assert forall|i: int| 0 <= i < order.len() implies 0 <= #[trigger] order[i] < order.len() by {
        assert(order.contains(order[i]));
        assert(all.contains(order[i]));
    }
    assert(is_permutation(order));
    let output = Seq::new(order.len(), |i: int| input[order[i]]);
    assert forall|i: int, j: int| 0 <= i < j < output.len() implies less(
        #[trigger] output[i],
        #[trigger] output[j],
    ) || (!less(output[j], output[i]) && order[i] < order[j]) by {
        assert(leq(order[i], order[j]));
        assert(order[i] != order[j]);
    }
    assert(sorts(input, output, less, order));
    assert(stably_sorted(input, output, less));
}

/// Items at the same positions are the same items, whatever the order.
proof fn lemma_same_items<A>(input: Seq<A>, a: Seq<int>, b: Seq<int>)
    requires
        a.to_multiset() == b.to_multiset(),
    ensures
        a.map_values(|k: int| input[k]).to_multiset() == b.map_values(
            |k: int| input[k],
        ).to_multiset(),
    decreases a.len(),
{
    broadcast use {vstd::seq_lib::group_to_multiset_ensures, vstd::multiset::group_multiset_axioms};

    let f = |k: int| input[k];
    assert(a.len() == a.to_multiset().len() && b.len() == b.to_multiset().len());
    if a.len() == 0 {
        assert(a.map_values(f) =~= b.map_values(f));
    } else {
        let x = a.last();
        assert(a.contains(x));
        assert(b.to_multiset().count(x) > 0);
        let at = b.index_of(x);
        assert(b.contains(x));
        let front = a.drop_last();
        let rest = b.remove(at);
        assert(a =~= front.push(x));
        assert(front.to_multiset() =~= a.to_multiset().remove(x));
        assert(rest.to_multiset() =~= b.to_multiset().remove(x));
        lemma_same_items(input, front, rest);
        assert(a.map_values(f) =~= front.map_values(f).push(f(x)));
        assert(b.map_values(f).remove(at) =~= rest.map_values(f));
        assert(b.map_values(f)[at] == f(x));
        assert(b.map_values(f).contains(f(x)));
        assert(rest.map_values(f).to_multiset() =~= b.map_values(f).to_multiset().remove(f(x)));
        assert(a.map_values(f).to_multiset() =~= b.map_values(f).to_multiset());
    }
}

/// Taking each item once keeps each as often as it is there.
pub proof fn permuting_keeps_items<A>(input: Seq<A>, output: Seq<A>, order: Seq<int>)
    requires
        is_permutation(order),
        order.len() == input.len(),
        output.len() == input.len(),
        forall|i: int| 0 <= i < output.len() ==> output[i] == input[#[trigger] order[i]],
    ensures
        output.to_multiset() == input.to_multiset(),
{
    let all = numbers(input.len());
    lemma_same_numbers(order, all);
    lemma_same_items(input, order, all);
    assert(order.map_values(|k: int| input[k]) =~= output);
    assert(all.map_values(|k: int| input[k]) =~= input);
}

/// The items at these positions.
pub fn items_at<T: Duplicate>(items: &Vec<T>, order: &Vec<usize>) -> (r: Vec<T>)
    requires
        forall|i: int| 0 <= i < order@.len() ==> 0 <= #[trigger] order@[i] < items@.len(),
    ensures
        r@.len() == order@.len(),
        forall|i: int|
            0 <= i < order@.len() ==> r.deep_view()[i] == items.deep_view()[#[trigger] order@[i] as int],
{
    let mut r: Vec<T> = Vec::new();
    let mut i: usize = 0;
    while i < order.len()
        invariant
            i <= order@.len(),
            r@.len() == i,
            forall|j: int|
                0 <= j < i ==> (#[trigger] r@[j]).deep_view() == items@[order@[j] as int].deep_view(),
        decreases order@.len() - i,
    {
        r.push(items[order[i]].duplicate());
        i = i + 1;
    }
    proof {
        assert forall|j: int| 0 <= j < order@.len() implies r.deep_view()[j] == items.deep_view()[
            #[trigger] order@[j] as int] by {
            assert(r@[j].deep_view() == items@[order@[j] as int].deep_view());
        }
    }
    r
}

} // verus!
