//! Lists of items that are found by an id.

#![verifier::loop_isolation(false)]

use crate::text::same;
use vstd::prelude::*;

verus! {

/// An item that has an id.
pub trait HasId: DeepView + Sized {
    /// The id in the item's view.
    spec fn id_of(item: Self::V) -> Seq<char>;

    /// The id.
    fn id(&self) -> (r: &str)
        ensures
            r@ == Self::id_of(self.deep_view()),
    ;
}

/// Whether an item with this id is in the list.
pub open spec fn has_id<T: HasId>(list: Seq<T::V>, id: Seq<char>) -> bool {
    exists|i: int| 0 <= i < list.len() && T::id_of(#[trigger] list[i]) == id
}

/// Whether the first item with this id stands at `i`.
pub open spec fn is_first<T: HasId>(list: Seq<T::V>, id: Seq<char>, i: int) -> bool {
    &&& 0 <= i < list.len()
    &&& T::id_of(list[i]) == id
    &&& forall|j: int| 0 <= j < i ==> T::id_of(#[trigger] list[j]) != id
}

/// The first place with this id, or the length of the list.
pub open spec fn place_of<T: HasId>(list: Seq<T::V>, id: Seq<char>) -> int
    decreases list.len(),
{
    if list.len() == 0 {
        0
    } else if T::id_of(list[0]) == id {
        0
    } else {
        1 + place_of::<T>(list.drop_first(), id)
    }
}

/// The first place with this id is where it says.
pub proof fn lemma_place<T: HasId>(list: Seq<T::V>, id: Seq<char>)
    ensures
        0 <= place_of::<T>(list, id) <= list.len(),
        has_id::<T>(list, id) <==> place_of::<T>(list, id) < list.len(),
        has_id::<T>(list, id) ==> is_first::<T>(list, id, place_of::<T>(list, id)),
        forall|i: int| #[trigger] is_first::<T>(list, id, i) ==> place_of::<T>(list, id) == i,
    decreases list.len(),
{
    if list.len() > 0 {
        let rest = list.drop_first();
        lemma_place::<T>(rest, id);
        if T::id_of(list[0]) == id {
            assert(is_first::<T>(list, id, 0));
        } else {
            if has_id::<T>(list, id) {
                let k = choose|k: int| 0 <= k < list.len() && T::id_of(#[trigger] list[k]) == id;
                assert(rest[k - 1] == list[k]);
                assert(has_id::<T>(rest, id));
                let p = place_of::<T>(rest, id);
                assert(is_first::<T>(rest, id, p));
                assert(list[p + 1] == rest[p]);
                assert forall|j: int| 0 <= j < p + 1 implies T::id_of(#[trigger] list[j]) != id by {
                    if j > 0 {
                        assert(rest[j - 1] == list[j]);
                    }
                }
            }
            if has_id::<T>(rest, id) {
                let k = choose|k: int| 0 <= k < rest.len() && T::id_of(#[trigger] rest[k]) == id;
                assert(list[k + 1] == rest[k]);
            }
            assert forall|i: int| #[trigger] is_first::<T>(list, id, i) implies place_of::<T>(
                list,
                id,
            ) == i by {
                assert(rest[i - 1] == list[i]);
                assert forall|j: int| 0 <= j < i - 1 implies T::id_of(#[trigger] rest[j]) != id by {
                    assert(list[j + 1] == rest[j]);
                }
                assert(is_first::<T>(rest, id, i - 1));
            }
        }
    }
}

/// The place of the first item with this id.
pub fn index_of<T: HasId>(list: &Vec<T>, id: &str) -> (r: Option<usize>)
    ensures
        match r {
            Some(i) => is_first::<T>(list.deep_view(), id@, i as int) && has_id::<T>(
                list.deep_view(),
                id@,
            ) && place_of::<T>(list.deep_view(), id@) == i,
            None => !has_id::<T>(list.deep_view(), id@) && place_of::<T>(list.deep_view(), id@)
                == list@.len(),
        },
{
    let ghost view = list.deep_view();
    proof {
        lemma_place::<T>(view, id@);
    }
    let mut i: usize = 0;
    while i < list.len()
        invariant
            i <= list@.len(),
            forall|j: int| 0 <= j < i ==> T::id_of(#[trigger] view[j]) != id@,
        decreases list@.len() - i,
    {
        assert(view[i as int] == list@[i as int].deep_view());
        if same(list[i].id(), id) {
            assert(is_first::<T>(view, id@, i as int));
            return Some(i);
        }
        i = i + 1;
    }
    None
}

/// The items of the list whose id is another one.
pub open spec fn others<T: HasId>(list: Seq<T::V>, id: Seq<char>) -> Seq<T::V>
    decreases list.len(),
{
    if list.len() == 0 {
        Seq::empty()
    } else if T::id_of(list.last()) == id {
        others::<T>(list.drop_last(), id)
    } else {
        others::<T>(list.drop_last(), id).push(list.last())
    }
}

/// Takes every item with this id out.
pub fn remove_id<T: HasId>(list: &mut Vec<T>, id: &str)
    ensures
        final(list).deep_view() == others::<T>(old(list).deep_view(), id@),
{
    let ghost before = list.deep_view();
    let ghost mut done: int = 0;
    let mut i: usize = 0;
    proof {
        assert(before.take(0) =~= Seq::empty());
        assert(list.deep_view() =~= before.skip(0));
    }
    while i < list.len()
        invariant
            0 <= done <= before.len(),
            i == others::<T>(before.take(done), id@).len(),
            i + before.len() - done == list@.len(),
            forall|j: int|
                0 <= j < i ==> (#[trigger] list@[j]).deep_view() == others::<T>(
                    before.take(done),
                    id@,
                )[j],
            forall|j: int|
                i <= j < list@.len() ==> (#[trigger] list@[j]).deep_view() == before[j - i + done],
        decreases list@.len() - i,
    {
        proof {
            assert(before.take(done + 1).drop_last() =~= before.take(done));
            assert(before.take(done + 1).last() == before[done]);
        }
        let ghost now = list@;
        if same(list[i].id(), id) {
            let _ = list.remove(i);
            proof {
                assert forall|j: int| i <= j < list@.len() implies (#[trigger] list@[j]).deep_view()
                    == before[j - i + done + 1] by {
                    assert(list@[j] == now[j + 1]);
                }
            }
        } else {
            i = i + 1;
        }
        proof {
            done = done + 1;
        }
    }
    proof {
        assert(before.take(done) =~= before);
        assert(list.deep_view() =~= others::<T>(before, id@));
    }
}

/// What is left after taking an id out does not hold it, and holds the rest.
pub proof fn lemma_others<T: HasId>(list: Seq<T::V>, id: Seq<char>)
    ensures
        !has_id::<T>(others::<T>(list, id), id),
        others::<T>(list, id).len() <= list.len(),
        forall|x: T::V|
            #[trigger] others::<T>(list, id).contains(x) <==> list.contains(x) && T::id_of(x) != id,
        forall|a: Seq<char>|
            a != id ==> #[trigger] has_id::<T>(others::<T>(list, id), a) == has_id::<T>(list, a),
    decreases list.len(),
{
    let left = others::<T>(list, id);
    if list.len() > 0 {
        let rest = list.drop_last();
        let last = list.last();
        lemma_others::<T>(rest, id);
        let kept = others::<T>(rest, id);
        assert forall|x: T::V| #[trigger] left.contains(x) <==> list.contains(x) && T::id_of(x)
            != id by {
            if left.contains(x) {
                let i = choose|i: int| 0 <= i < left.len() && left[i] == x;
                if i < kept.len() {
                    assert(kept[i] == x);
                    assert(kept.contains(x));
                    let j = choose|j: int| 0 <= j < rest.len() && rest[j] == x;
                    assert(list[j] == x);
                } else {
                    assert(list[list.len() - 1] == x);
                }
            }
            if list.contains(x) && T::id_of(x) != id {
                let i = choose|i: int| 0 <= i < list.len() && list[i] == x;
                if i < rest.len() {
                    assert(rest[i] == x);
                    assert(kept.contains(x));
                    let j = choose|j: int| 0 <= j < kept.len() && kept[j] == x;
                    assert(left[j] == x);
                } else {
                    assert(left[left.len() - 1] == x);
                }
            }
        }
    }
    assert forall|a: Seq<char>| a != id implies #[trigger] has_id::<T>(left, a) == has_id::<T>(
        list,
        a,
    ) by {
        if has_id::<T>(left, a) {
            let i = choose|i: int| 0 <= i < left.len() && T::id_of(#[trigger] left[i]) == a;
            assert(left.contains(left[i]));
            let j = choose|j: int| 0 <= j < list.len() && list[j] == left[i];
            assert(T::id_of(list[j]) == a);
        }
        if has_id::<T>(list, a) {
            let i = choose|i: int| 0 <= i < list.len() && T::id_of(#[trigger] list[i]) == a;
            assert(list.contains(list[i]));
            assert(left.contains(list[i]));
            let j = choose|j: int| 0 <= j < left.len() && left[j] == list[i];
            assert(T::id_of(left[j]) == a);
        }
    }
    assert(!has_id::<T>(left, id)) by {
        if has_id::<T>(left, id) {
            let i = choose|i: int| 0 <= i < left.len() && T::id_of(#[trigger] left[i]) == id;
            assert(left.contains(left[i]));
        }
    }
}

} // verus!
