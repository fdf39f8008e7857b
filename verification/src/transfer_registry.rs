//! The transfers that are known, and the history of transfers that is kept.

#![verifier::loop_isolation(false)]

use crate::error::{self, AppError, ErrorView};
use crate::keyed::KeyedList;
use crate::models::{Duplicate, TransferStatus, TransferTask, TransferTaskView, duplicate_list};
use crate::sort::{self, SortKey, items_at, order_of};
use crate::text::{self, comes_before, same};
use vstd::prelude::*;

verus! {

/// The version of the history that is written and read.
pub const TRANSFER_SCHEMA: u32 = 1;

/// The number of transfers that are kept.
pub const MAX_HISTORY: usize = 100;

/// The number of bytes that a history may have.
pub const MAX_DOCUMENT_BYTES: u64 = 2_097_152;

/// A history of transfers.
#[derive(Debug)]
pub struct TransferDocument {
    pub schema_version: u32,
    pub tasks: Vec<TransferTask>,
}

/// What a [`TransferDocument`] says.
#[verifier::ext_equal]
pub struct TransferDocumentView {
    pub schema_version: u32,
    pub tasks: Seq<TransferTaskView>,
}

impl View for TransferDocument {
    type V = TransferDocumentView;

    open spec fn view(&self) -> TransferDocumentView {
        TransferDocumentView {
            schema_version: self.schema_version,
            tasks: self.tasks.deep_view(),
        }
    }
}

impl DeepView for TransferDocument {
    type V = TransferDocumentView;

    open spec fn deep_view(&self) -> TransferDocumentView {
        self@
    }
}

impl Duplicate for TransferDocument {
    fn duplicate(&self) -> (r: Self) {
        TransferDocument {
            schema_version: self.schema_version,
            tasks: duplicate_list(&self.tasks),
        }
    }
}

impl Clone for TransferDocument {
    fn clone(&self) -> (r: Self)
        ensures
            r@ == self@,
    {
        self.duplicate()
    }
}

/// The transfers that are known, each under its id.
pub type Tasks = Map<Seq<char>, TransferTaskView>;

/// Whether a transfer waits or runs.
pub open spec fn is_active_task(status: TransferStatus) -> bool {
    status == TransferStatus::Queued || status == TransferStatus::Scanning || status
        == TransferStatus::Running
}

/// Whether a transfer waits or runs.
pub fn active_status(status: TransferStatus) -> (r: bool)
    ensures
        r == is_active_task(status),
{
    match status {
        TransferStatus::Queued => true,
        TransferStatus::Scanning => true,
        TransferStatus::Running => true,
        TransferStatus::Completed => false,
        TransferStatus::Failed => false,
        TransferStatus::Cancelled => false,
    }
}

/// Whether a transfer is written to the history when it reaches this status: it
/// is when it was asked for and when it has ended.
pub fn is_persisted(status: TransferStatus) -> (r: bool)
    ensures
        r == written_down(status),
{
    match status {
        TransferStatus::Queued => true,
        TransferStatus::Scanning => false,
        TransferStatus::Running => false,
        TransferStatus::Completed => true,
        TransferStatus::Failed => true,
        TransferStatus::Cancelled => true,
    }
}

/// Whether a transfer was asked for before another; of two that were asked for at
/// the same time, the one whose id comes first counts as the older.
pub open spec fn older(a: TransferTaskView, b: TransferTaskView) -> bool {
    text::text_before(a.created_at, b.created_at) || (a.created_at == b.created_at && text::text_before(
        a.id,
        b.id,
    ))
}

/// Whether `after` is what is left of `before` once only so many of the newest
/// transfers are kept.
pub open spec fn keeps_newest(before: Tasks, after: Tasks) -> bool {
    &&& after.dom().len() == (if before.dom().len() <= MAX_HISTORY {
        before.dom().len()
    } else {
        MAX_HISTORY as nat
    })
    &&& forall|k: Seq<char>| #[trigger]
        after.contains_key(k) ==> before.contains_key(k) && after[k] == before[k]
    &&& forall|d: Seq<char>, k: Seq<char>|
        before.contains_key(d) && !(#[trigger] after.contains_key(d))
            && #[trigger] after.contains_key(k) ==> older(before[d], before[k])
}

/// Whether `list` holds each of the transfers once.
pub open spec fn lists_all(tasks: Tasks, list: Seq<TransferTaskView>) -> bool {
    &&& forall|i: int|
        0 <= i < list.len() ==> tasks.contains_key((#[trigger] list[i]).id) && tasks[list[i].id]
            == list[i]
    &&& forall|i: int, j: int|
        0 <= i < j < list.len() ==> (#[trigger] list[i]).id != (#[trigger] list[j]).id
    &&& forall|k: Seq<char>| #[trigger]
        tasks.contains_key(k) ==> exists|i: int| 0 <= i < list.len() && (#[trigger] list[i]).id == k
}

/// Whether the transfers that were asked for last come first.
pub open spec fn newest_first(list: Seq<TransferTaskView>) -> bool {
    forall|i: int, j: int|
        0 <= i < j < list.len() ==> !text::text_before(
            (#[trigger] list[i]).created_at,
            (#[trigger] list[j]).created_at,
        )
}

/// The transfers of a session.
pub open spec fn of_session(tasks: Tasks, session_id: Seq<char>) -> Tasks {
    Map::new(
        |k: Seq<char>| tasks.contains_key(k) && tasks[k].session_id == session_id,
        |k: Seq<char>| tasks[k],
    )
}

/// The transfers without those of a session that have ended.
pub open spec fn without_finished(tasks: Tasks, session_id: Seq<char>) -> Tasks {
    Map::new(
        |k: Seq<char>|
            tasks.contains_key(k) && (tasks[k].session_id != session_id || is_active_task(
                tasks[k].status,
            )),
        |k: Seq<char>| tasks[k],
    )
}

/// The transfers of a list, each under its id; of two with the same id, the one
/// that comes last.
pub open spec fn tasks_of(list: Seq<TransferTaskView>) -> Tasks
    decreases list.len(),
{
    if list.len() == 0 {
        Map::empty()
    } else {
        tasks_of(list.drop_last()).insert(list.last().id, list.last())
    }
}

/// When a transfer was asked for; the newest comes first.
struct NewestFirst {
    created_at: String,
}

impl SortKey for NewestFirst {
    closed spec fn less(self, other: Self) -> bool {
        text::text_before(other.created_at@, self.created_at@)
    }

    proof fn less_asymmetric(a: Self, b: Self) {
        text::text_order_asymmetric(b.created_at@, a.created_at@);
    }

    proof fn less_splits(a: Self, b: Self, c: Self) {
        text::text_order_splits(b.created_at@, a.created_at@, c.created_at@);
    }

    fn is_less(&self, other: &Self) -> (r: bool) {
        comes_before(other.created_at.as_str(), self.created_at.as_str())
    }
}

/// Whether `sorted` holds the transfers of `list`, the newest first, and those
/// that were asked for at the same time in the order in which they were.
pub open spec fn sorted_by_age(
    list: Seq<TransferTaskView>,
    sorted: Seq<TransferTaskView>,
) -> bool {
    sort::stably_sorted(
        list,
        sorted,
        |a: TransferTaskView, b: TransferTaskView| text::text_before(b.created_at, a.created_at),
    )
}

/// Puts the newest transfers first.
pub fn sort_by_age(list: &Vec<TransferTask>) -> (r: Vec<TransferTask>)
    ensures
        sorted_by_age(list.deep_view(), r.deep_view()),
{
    let ghost view = list.deep_view();
    let mut keys: Vec<NewestFirst> = Vec::new();
    let mut i: usize = 0;
    while i < list.len()
        invariant
            i <= list@.len(),
            keys@.len() == i,
            forall|j: int| 0 <= j < i ==> (#[trigger] keys@[j]).created_at@ == view[j].created_at,
        decreases list@.len() - i,
    {
        keys.push(NewestFirst { created_at: list[i].created_at.clone() });
        i = i + 1;
    }
    let order = order_of(&keys);
    let r = items_at(list, &order);
    proof {
        let sorted = r.deep_view();
        let less = |a: TransferTaskView, b: TransferTaskView|
            text::text_before(b.created_at, a.created_at);
        assert forall|i: int, j: int|
            #![trigger keys@[i], keys@[j]]
            0 <= i < keys@.len() && 0 <= j < keys@.len() implies keys@[i].less(keys@[j]) == less(
            view[i],
            view[j],
        ) by {}
        sort::lemma_order_sorts(keys@, order@, view, sorted, less);
    }
    r
}

/// Sorting keeps each transfer once and puts the newest first.
proof fn lemma_sorted(
    tasks: Tasks,
    list: Seq<TransferTaskView>,
    sorted: Seq<TransferTaskView>,
)
    requires
        lists_all(tasks, list),
        sorted_by_age(list, sorted),
    ensures
        lists_all(tasks, sorted),
        newest_first(sorted),
{
    let less = |a: TransferTaskView, b: TransferTaskView| text::text_before(b.created_at, a.created_at);
    let order = choose|order: Seq<int>| #[trigger] sort::sorts(list, sorted, less, order);
    assert forall|i: int| 0 <= i < sorted.len() implies tasks.contains_key(
        (#[trigger] sorted[i]).id,
    ) && tasks[sorted[i].id] == sorted[i] by {
        assert(sorted[i] == list[order[i]]);
    }
    assert forall|i: int, j: int| 0 <= i < j < sorted.len() implies (#[trigger] sorted[i]).id != (
    #[trigger] sorted[j]).id by {
        assert(sorted[i] == list[order[i]]);
        assert(sorted[j] == list[order[j]]);
        assert(order[i] != order[j]);
        if order[i] < order[j] {
            assert(list[order[i]].id != list[order[j]].id);
        } else {
            assert(list[order[j]].id != list[order[i]].id);
        }
    }
    assert forall|k: Seq<char>| #[trigger] tasks.contains_key(k) implies exists|i: int|
        0 <= i < sorted.len() && (#[trigger] sorted[i]).id == k by {
        let at = choose|i: int| 0 <= i < list.len() && (#[trigger] list[i]).id == k;
        sort::lemma_permutation_covers(order, at);
        let i = choose|i: int| 0 <= i < order.len() && #[trigger] order[i] == at;
        assert(sorted[i] == list[order[i]]);
        assert(sorted[i].id == k);
    }
    assert forall|i: int, j: int| 0 <= i < j < sorted.len() implies !text::text_before(
        (#[trigger] sorted[i]).created_at,
        (#[trigger] sorted[j]).created_at,
    ) by {
        assert(less(sorted[i], sorted[j]) || !less(sorted[j], sorted[i]));
        if less(sorted[i], sorted[j]) {
            text::text_order_asymmetric(sorted[j].created_at, sorted[i].created_at);
        }
    }
}

/// The transfers that are known.
pub struct TransferRegistry {
    tasks: KeyedList<TransferTask>,
}

impl View for TransferRegistry {
    type V = Tasks;

    closed spec fn view(&self) -> Tasks {
        self.tasks.contents()
    }
}

impl TransferRegistry {
    /// Each transfer stands under its id, and there are not too many.
    pub closed spec fn wf(self) -> bool {
        &&& self.tasks.wf()
        &&& self.ids_match()
        &&& self.tasks.keys().len() <= MAX_HISTORY
    }

    /// Each transfer stands under its id.
    spec fn ids_match(self) -> bool {
        forall|k: Seq<char>| #[trigger] self@.contains_key(k) ==> self@[k].id == k
    }

    /// What the registry knows is bounded.
    pub proof fn history_is_bounded(self)
        requires
            self.wf(),
        ensures
            self@.dom().finite(),
            self@.dom().len() <= MAX_HISTORY,
            forall|k: Seq<char>| #[trigger] self@.contains_key(k) ==> self@[k].id == k,
    {
        self.tasks.lemma_len();
    }

    /// A registry with the transfers of a history.
    pub fn new(initial: &Vec<TransferTask>) -> (r: Self)
        requires
            initial@.len() <= MAX_HISTORY,
        ensures
            r.wf(),
            r@ == tasks_of(initial.deep_view()),
    {
        let ghost view = initial.deep_view();
        let mut tasks: KeyedList<TransferTask> = KeyedList::new();
        let mut i: usize = 0;
        proof {
            assert(view.take(0) =~= Seq::empty());
            assert(tasks.contents() =~= Map::empty());
        }
        while i < initial.len()
            invariant
                i <= initial@.len(),
                tasks.wf(),
                tasks.keys().len() <= i,
                tasks.contents() == tasks_of(view.take(i as int)),
                forall|k: Seq<char>| #[trigger]
                    tasks.contents().contains_key(k) ==> tasks.contents()[k].id == k,
            decreases initial@.len() - i,
        {
            let task = initial[i].duplicate();
            proof {
                assert(view.take(i + 1).drop_last() =~= view.take(i as int));
                assert(view.take(i + 1).last() == task@);
                tasks.lemma_len();
            }
            tasks.put(task.id.clone(), task);
            proof {
                tasks.lemma_len();
            }
            i = i + 1;
        }
        assert(view.take(i as int) =~= view);
        let r = TransferRegistry { tasks };
        assert(r@ =~= tasks_of(view));
        r
    }

    /// The place of the oldest transfer.
    fn oldest(&self) -> (r: usize)
        requires
            self.tasks.wf(),
            self.ids_match(),
            self.tasks.keys().len() > 0,
        ensures
            r < self.tasks.keys().len(),
            forall|k: Seq<char>| #[trigger]
                self@.contains_key(k) && k != self.tasks.keys()[r as int] ==> older(
                    self@[self.tasks.keys()[r as int]],
                    self@[k],
                ),
    {
        let mut r: usize = 0;
        let mut i: usize = 1;
        while i < self.tasks.len()
            invariant
                r < i <= self.tasks.keys().len(),
                forall|j: int|
                    0 <= j < i && j != r ==> older(
                        self.tasks.values()[r as int]@,
                        (#[trigger] self.tasks.values()[j])@,
                    ),
            decreases self.tasks.keys().len() - i,
        {
            let best = self.tasks.value_at(r);
            let next = self.tasks.value_at(i);
            proof {
                self.tasks.lemma_at(r as int);
                self.tasks.lemma_at(i as int);
                assert(best@.id == self.tasks.keys()[r as int]);
                assert(next@.id == self.tasks.keys()[i as int]);
                assert(best@.id != next@.id);
            }
            let earlier = comes_before(next.created_at.as_str(), best.created_at.as_str()) || (same(
                next.created_at.as_str(),
                best.created_at.as_str(),
            ) && comes_before(next.id.as_str(), best.id.as_str()));
            if earlier {
                proof {
                    assert forall|j: int| 0 <= j < i + 1 && j != i implies older(
                        next@,
                        (#[trigger] self.tasks.values()[j])@,
                    ) by {
                        if j != r {
                            lemma_older_transitive(next@, best@, self.tasks.values()[j]@);
                        }
                    }
                }
                r = i;
            } else {
                proof {
                    lemma_older_total(best@, next@);
                }
            }
            i = i + 1;
        }
        proof {
            self.tasks.lemma_at(r as int);
            assert forall|k: Seq<char>| #[trigger]
                self@.contains_key(k) && k != self.tasks.keys()[r as int] implies older(
                self@[self.tasks.keys()[r as int]],
                self@[k],
            ) by {
                let j = self.tasks.keys().index_of(k);
                assert(self.tasks.keys()[j] == k);
                self.tasks.lemma_at(j);
                assert(older(self.tasks.values()[r as int]@, self.tasks.values()[j]@));
            }
        }
        r
    }

    /// Drops the oldest transfers where there are too many.
    fn trim_history(&mut self)
        requires
            old(self).tasks.wf(),
            old(self).ids_match(),
        ensures
            final(self).wf(),
            keeps_newest(old(self)@, final(self)@),
    {
        let ghost before = self@;
        proof {
            self.tasks.lemma_len();
        }
        while self.tasks.len() > MAX_HISTORY
            invariant
                self.tasks.wf(),
                self.ids_match(),
                self.tasks.keys().len() <= before.dom().len(),
                self.tasks.keys().len() == before.dom().len() || self.tasks.keys().len()
                    >= MAX_HISTORY,
                forall|k: Seq<char>| #[trigger]
                    self@.contains_key(k) ==> before.contains_key(k) && self@[k] == before[k],
                forall|d: Seq<char>, k: Seq<char>|
                    before.contains_key(d) && !(#[trigger] self@.contains_key(d))
                        && #[trigger] self@.contains_key(k) ==> older(before[d], before[k]),
            decreases self.tasks.keys().len(),
        {
            let at = self.oldest();
            let ghost tasks = self@;
            let ghost key = self.tasks.keys()[at as int];
            let ghost held = self.tasks;
            let _ = self.tasks.remove_at(at);
            proof {
                assert forall|k: Seq<char>| #[trigger] self@.contains_key(k) implies tasks.contains_key(
                    k,
                ) && self@[k] == tasks[k] && k != key by {
                    assert(self.tasks.has(k));
                    assert(held.has(k));
                }
                assert forall|d: Seq<char>, k: Seq<char>|
                    before.contains_key(d) && !(#[trigger] self@.contains_key(d))
                        && #[trigger] self@.contains_key(k) implies older(before[d], before[k]) by {
                    assert(tasks.contains_key(k));
                    if tasks.contains_key(d) {
                        assert(held.has(d));
                        assert(d == key) by {
                            if d != key {
                                assert(self.tasks.has(d));
                            }
                        }
                    }
                }
            }
        }
        proof {
            self.tasks.lemma_len();
        }
    }

    /// All transfers.
    pub fn snapshot(&self) -> (r: Vec<TransferTask>)
        requires
            self.wf(),
        ensures
            lists_all(self@, r.deep_view()),
    {
        let mut r: Vec<TransferTask> = Vec::new();
        let mut i: usize = 0;
        while i < self.tasks.len()
            invariant
                i <= self.tasks.keys().len(),
                r@.len() == i,
                forall|j: int| 0 <= j < i ==> (#[trigger] r@[j])@ == self.tasks.values()[j]@,
            decreases self.tasks.keys().len() - i,
        {
            r.push(self.tasks.value_at(i).duplicate());
            i = i + 1;
        }
        proof {
            let list = r.deep_view();
            assert forall|j: int| 0 <= j < list.len() implies self@.contains_key(
                (#[trigger] list[j]).id,
            ) && self@[list[j].id] == list[j] && list[j].id == self.tasks.keys()[j] by {
                self.tasks.lemma_at(j);
                assert(list[j] == r@[j]@);
            }
            assert forall|k: Seq<char>| #[trigger] self@.contains_key(k) implies exists|j: int|
                0 <= j < list.len() && (#[trigger] list[j]).id == k by {
                let j = self.tasks.keys().index_of(k);
                assert(self.tasks.keys()[j] == k);
                assert(list[j].id == k);
            }
        }
        r
    }

    /// Keeps the state of a transfer. Where it is to be written to the history, it
    /// gives the transfers that are.
    pub fn record(&mut self, task: TransferTask, persist: bool) -> (r: Option<Vec<TransferTask>>)
        requires
            old(self).wf(),
        ensures
            final(self).wf(),
            keeps_newest(old(self)@.insert(task@.id, task@), final(self)@),
            match r {
                Some(list) => persist && lists_all(final(self)@, list.deep_view()),
                None => !persist,
            },
    {
        self.tasks.put(task.id.clone(), task);
        self.trim_history();
        if persist {
            Some(self.snapshot())
        } else {
            None
        }
    }

    /// The transfers of a session, the newest first.
    pub fn list(&self, session_id: &str) -> (r: Vec<TransferTask>)
        requires
            self.wf(),
        ensures
            lists_all(of_session(self@, session_id@), r.deep_view()),
            newest_first(r.deep_view()),
    {
        let all = self.snapshot();
        let ghost view = all.deep_view();
        let ghost tasks = of_session(self@, session_id@);
        let mut list: Vec<TransferTask> = Vec::new();
        let ghost mut from: Seq<int> = Seq::empty();
        let mut i: usize = 0;
        while i < all.len()
            invariant
                i <= all@.len(),
                list@.len() == from.len(),
                forall|j: int|
                    0 <= j < list@.len() ==> 0 <= #[trigger] from[j] < i && list@[j]@
                        == view[from[j]] && view[from[j]].session_id == session_id@,
                forall|a: int, b: int|
                    0 <= a < b < from.len() ==> #[trigger] from[a] < #[trigger] from[b],
                forall|k: int|
                    0 <= k < i && (#[trigger] view[k]).session_id == session_id@ ==> exists|j: int|
                        0 <= j < from.len() && #[trigger] from[j] == k,
            decreases all@.len() - i,
        {
            let ghost done = from;
            assert(view[i as int] == all@[i as int]@);
            if same(all[i].session_id.as_str(), session_id) {
                list.push(all[i].duplicate());
                proof {
                    from = from.push(i as int);
                    assert forall|k: int|
                        0 <= k < i + 1 && (#[trigger] view[k]).session_id
                            == session_id@ implies exists|j: int|
                        0 <= j < from.len() && #[trigger] from[j] == k by {
                        if k < i {
                            let j = choose|j: int| 0 <= j < done.len() && #[trigger] done[j] == k;
                            assert(from[j] == k);
                        } else {
                            assert(from[done.len() as int] == k);
                        }
                    }
                }
            }
            i = i + 1;
        }
        let r = sort_by_age(&list);
        proof {
            let chosen = list.deep_view();
            assert forall|j: int| 0 <= j < chosen.len() implies tasks.contains_key(
                (#[trigger] chosen[j]).id,
            ) && tasks[chosen[j].id] == chosen[j] by {
                assert(chosen[j] == view[from[j]]);
            }
            assert forall|a: int, b: int| 0 <= a < b < chosen.len() implies (
            #[trigger] chosen[a]).id != (#[trigger] chosen[b]).id by {
                assert(chosen[a] == view[from[a]]);
                assert(chosen[b] == view[from[b]]);
            }
            assert forall|k: Seq<char>| #[trigger] tasks.contains_key(k) implies exists|j: int|
                0 <= j < chosen.len() && (#[trigger] chosen[j]).id == k by {
                assert(self@.contains_key(k));
                let at = choose|i: int| 0 <= i < view.len() && (#[trigger] view[i]).id == k;
                assert(self@[view[at].id] == view[at]);
                let j = choose|j: int| 0 <= j < from.len() && #[trigger] from[j] == at;
                assert(chosen[j] == view[from[j]]);
                assert(chosen[j].id == k);
            }
            lemma_sorted(tasks, chosen, r.deep_view());
        }
        r
    }

    /// Drops the transfers of a session that have ended, and gives those that are
    /// then written to the history.
    pub fn clear_finished(&mut self, session_id: &str) -> (r: Vec<TransferTask>)
        requires
            old(self).wf(),
        ensures
            final(self).wf(),
            final(self)@ == without_finished(old(self)@, session_id@),
            lists_all(final(self)@, r.deep_view()),
    {
        let ghost before = self@;
        let mut i: usize = 0;
        while i < self.tasks.len()
            invariant
                self.wf(),
                i <= self.tasks.keys().len(),
                forall|k: Seq<char>| #[trigger]
                    self@.contains_key(k) ==> before.contains_key(k) && self@[k] == before[k],
                forall|k: Seq<char>|
                    before.contains_key(k) && (before[k].session_id != session_id@
                        || is_active_task(before[k].status)) ==> #[trigger] self@.contains_key(k),
                forall|j: int|
                    0 <= j < i ==> (#[trigger] self.tasks.values()[j])@.session_id != session_id@
                        || is_active_task(self.tasks.values()[j]@.status),
            decreases self.tasks.keys().len() - i,
        {
            proof {
                self.tasks.lemma_at(i as int);
            }
            let task = self.tasks.value_at(i);
            if same(task.session_id.as_str(), session_id) && !active_status(task.status) {
                let ghost held = self.tasks;
                let ghost tasks = self@;
                let _ = self.tasks.remove_at(i);
                proof {
                    assert forall|k: Seq<char>| #[trigger] self@.contains_key(k) implies {
                        &&& before.contains_key(k)
                        &&& self@[k] == before[k]
                    } by {
                        assert(self.tasks.has(k));
                        assert(k != held.keys()[i as int]);
                        assert(held.has(k));
                        assert(tasks.contains_key(k));
                        assert(self@[k] == tasks[k]);
                    }
                    assert forall|k: Seq<char>|
                        before.contains_key(k) && (before[k].session_id != session_id@
                            || is_active_task(
                            before[k].status,
                        )) implies #[trigger] self@.contains_key(k) by {
                        assert(tasks.contains_key(k));
                        assert(k != held.keys()[i as int]);
                        assert(self.tasks.has(k));
                    }
                    assert forall|j: int| 0 <= j < i implies (
                    #[trigger] self.tasks.values()[j])@.session_id != session_id@
                        || is_active_task(self.tasks.values()[j]@.status) by {
                        assert(self.tasks.values()[j] == held.values()[j]);
                    }
                }
            } else {
                i = i + 1;
            }
        }
        proof {
            let after = without_finished(before, session_id@);
            assert forall|k: Seq<char>| #[trigger] self@.contains_key(k) == after.contains_key(
                k,
            ) by {
                if self@.contains_key(k) {
                    let at = self.tasks.keys().index_of(k);
                    assert(self.tasks.keys()[at] == k);
                    self.tasks.lemma_at(at);
                    assert(self.tasks.values()[at]@.session_id != session_id@ || is_active_task(
                        self.tasks.values()[at]@.status,
                    ));
                }
            }
            assert(self@ =~= after);
        }
        self.snapshot()
    }
}

/// Age is a strict order.
proof fn lemma_older_transitive(a: TransferTaskView, b: TransferTaskView, c: TransferTaskView)
    requires
        older(a, b),
        older(b, c),
    ensures
        older(a, c),
{
    if text::text_before(a.created_at, b.created_at) {
        text::text_order_splits(a.created_at, b.created_at, c.created_at);
        if text::text_before(b.created_at, c.created_at) {
            text::text_order_asymmetric(b.created_at, c.created_at);
        }
    } else if !text::text_before(b.created_at, c.created_at) {
        text::text_order_splits(a.id, b.id, c.id);
        text::text_order_asymmetric(b.id, c.id);
    }
}

/// Of two transfers with different ids, one is older.
proof fn lemma_older_total(a: TransferTaskView, b: TransferTaskView)
    requires
        a.id != b.id,
        !older(b, a),
    ensures
        older(a, b),
{
    if !text::text_before(a.created_at, b.created_at) {
        text::text_order_total(a.created_at, b.created_at);
        if !text::text_before(a.id, b.id) {
            text::text_order_total(a.id, b.id);
        }
    }
}

/// The error for a registry that cannot be used any more.
pub open spec fn transfers_unavailable_error() -> ErrorView {
    error::sftp_error(
        "TRANSFER-REGISTRY-UNAVAILABLE"@,
        "传输队列暂时不可用"@,
        "transfer registry lock was poisoned"@,
    )
}

/// The error for a registry that cannot be used any more.
pub fn transfers_unavailable() -> (r: AppError)
    ensures
        r@ == transfers_unavailable_error(),
{
    AppError::sftp(
        "TRANSFER-REGISTRY-UNAVAILABLE",
        "传输队列暂时不可用",
        "transfer registry lock was poisoned",
    )
}

/// A transfer as it is after the application was started again: one that waited
/// or ran has failed.
pub open spec fn restarted(task: TransferTaskView) -> TransferTaskView {
    if is_active_task(task.status) {
        TransferTaskView {
            status: TransferStatus::Failed,
            error: Some("应用已退出，请重新连接后重试"@),
            ..task
        }
    } else {
        task
    }
}

/// The number of transfers of a history that are kept.
pub open spec fn kept_count(count: nat) -> nat {
    if count <= MAX_HISTORY {
        count
    } else {
        MAX_HISTORY as nat
    }
}

/// The transfers that a history gives back.
pub open spec fn loaded_tasks(document: TransferDocumentView) -> Seq<TransferTaskView> {
    if document.schema_version != TRANSFER_SCHEMA {
        Seq::empty()
    } else {
        Seq::new(kept_count(document.tasks.len()), |i: int| restarted(document.tasks[i]))
    }
}

/// Whether a history of this size is read at all.
pub fn history_size_is_allowed(bytes: u64) -> (r: bool)
    ensures
        r == (bytes <= MAX_DOCUMENT_BYTES),
{
    bytes <= MAX_DOCUMENT_BYTES
}

/// The transfers that a history gives back.
pub fn load_history(document: TransferDocument) -> (r: Vec<TransferTask>)
    ensures
        r.deep_view() == loaded_tasks(document@),
        r@.len() <= MAX_HISTORY,
{
    let mut r: Vec<TransferTask> = Vec::new();
    if document.schema_version != TRANSFER_SCHEMA {
        assert(r.deep_view() =~= Seq::empty());
        return r;
    }
    let ghost view = document@.tasks;
    let mut i: usize = 0;
    while i < document.tasks.len() && i < MAX_HISTORY
        invariant
            i <= view.len(),
            i <= MAX_HISTORY,
            r@.len() == i,
            forall|j: int| 0 <= j < i ==> (#[trigger] r@[j])@ == restarted(view[j]),
        decreases view.len() - i,
    {
        assert(view[i as int] == document.tasks@[i as int]@);
        let mut task = document.tasks[i].duplicate();
        if active_status(task.status) {
            task.status = TransferStatus::Failed;
            task.error = Some("应用已退出，请重新连接后重试".to_owned());
        }
        r.push(task);
        i = i + 1;
    }
    assert(r.deep_view() =~= loaded_tasks(document@));
    r
}

/// The history that is written for these transfers: the newest first, and not
/// too many.
pub fn persist_history(tasks: &Vec<TransferTask>) -> (r: TransferDocument)
    ensures
        r@.schema_version == TRANSFER_SCHEMA,
        exists|sorted: Seq<TransferTaskView>|
            sorted_by_age(tasks.deep_view(), sorted) && r@.tasks == #[trigger] sorted.take(
                kept_count(sorted.len()) as int,
            ),
{
    let sorted = sort_by_age(tasks);
    let ghost view = sorted.deep_view();
    let mut kept = sorted;
    if kept.len() > MAX_HISTORY {
        kept.truncate(MAX_HISTORY);
    }
    let r = TransferDocument { schema_version: TRANSFER_SCHEMA, tasks: kept };
    assert(r@.tasks =~= view.take(kept_count(view.len()) as int));
    r
}

/// After a restart no transfer waits or runs: each that did has failed and says
/// that it can be tried again, and all else is as it was written.
pub proof fn restart_fails_active_tasks(document: TransferDocumentView, i: int)
    requires
        0 <= i < loaded_tasks(document).len(),
    ensures
        document.schema_version == TRANSFER_SCHEMA,
        i < document.tasks.len(),
        !is_active_task(loaded_tasks(document)[i].status),
        is_active_task(document.tasks[i].status) ==> loaded_tasks(document)[i].status
            == TransferStatus::Failed && loaded_tasks(document)[i].error is Some,
        !is_active_task(document.tasks[i].status) ==> loaded_tasks(document)[i]
            == document.tasks[i],
        loaded_tasks(document)[i].id == document.tasks[i].id,
{
}

/// What a history gives back is given back again once it is written: reading and
/// writing settle.
pub proof fn loading_settles(document: TransferDocumentView)
    ensures
        loaded_tasks(
            TransferDocumentView {
                schema_version: TRANSFER_SCHEMA,
                tasks: loaded_tasks(document),
            },
        ) == loaded_tasks(document),
{
    assert(loaded_tasks(
        TransferDocumentView { schema_version: TRANSFER_SCHEMA, tasks: loaded_tasks(document) },
    ) =~= loaded_tasks(document));
}

/// A transfer that is recorded is known afterwards, unless there are too many and
/// it is the oldest of them.
pub proof fn recorded_task_is_known(before: Tasks, task: TransferTaskView, after: Tasks)
    requires
        before.dom().finite(),
        before.dom().len() <= MAX_HISTORY,
        after.dom().finite(),
        keeps_newest(before.insert(task.id, task), after),
    ensures
        after.dom().len() <= MAX_HISTORY,
        before.dom().len() < MAX_HISTORY || before.contains_key(task.id) ==> after
            == before.insert(task.id, task),
        after.contains_key(task.id) ==> after[task.id] == task,
        !after.contains_key(task.id) ==> forall|k: Seq<char>| #[trigger]
            after.contains_key(k) ==> older(task, before[k]),
{
    let all = before.insert(task.id, task);
    if before.dom().len() < MAX_HISTORY || before.contains_key(task.id) {
        assert(all.dom() =~= before.dom().insert(task.id));
        assert(all.dom().len() <= MAX_HISTORY);
        assert(after.dom().subset_of(all.dom()));
        vstd::set_lib::lemma_subset_equality(after.dom(), all.dom());
        assert(after =~= all);
    }
    if !after.contains_key(task.id) {
        assert forall|k: Seq<char>| #[trigger] after.contains_key(k) implies older(
            task,
            before[k],
        ) by {
            assert(older(all[task.id], all[k]));
        }
    }
}

/// A transfer is active while it waits, is scanned or runs, and in no other state.
pub proof fn transfers_are_active_until_they_end(status: TransferStatus)
    ensures
        is_active_task(status) <==> status != TransferStatus::Completed && status
            != TransferStatus::Failed && status != TransferStatus::Cancelled,
        written_down(status) <==> status != TransferStatus::Scanning && status
            != TransferStatus::Running,
        MAX_HISTORY == 100,
        MAX_DOCUMENT_BYTES == 2 * 1024 * 1024,
        TRANSFER_SCHEMA == 1,
{
}

/// A session sees its own transfers, all of them and no others, as they are.
pub proof fn sessions_see_their_own_transfers(tasks: Tasks, session_id: Seq<char>, id: Seq<char>)
    ensures
        of_session(tasks, session_id).contains_key(id) <==> tasks.contains_key(id)
            && tasks[id].session_id == session_id,
        of_session(tasks, session_id).contains_key(id) ==> of_session(tasks, session_id)[id]
            == tasks[id],
{
}

/// Clearing what is finished takes out the transfers of the session that have ended and
/// leaves every other transfer as it is.
pub proof fn clearing_takes_out_what_has_ended(tasks: Tasks, session_id: Seq<char>, id: Seq<char>)
    ensures
        ({
            let after = without_finished(tasks, session_id);
            &&& after.contains_key(id) ==> tasks.contains_key(id) && after[id] == tasks[id]
            &&& tasks.contains_key(id) && !after.contains_key(id) <==> tasks.contains_key(id)
                && tasks[id].session_id == session_id && (tasks[id].status
                == TransferStatus::Completed || tasks[id].status == TransferStatus::Failed
                || tasks[id].status == TransferStatus::Cancelled)
        }),
{
}

/// Of two transfers with different ids one is older: the one that was made first, and
/// where both were made at once, the one whose id comes first.
pub proof fn transfers_have_an_age(a: TransferTaskView, b: TransferTaskView)
    requires
        a.id != b.id,
    ensures
        older(a, b) <==> !older(b, a),
        text::text_before(a.created_at, b.created_at) ==> older(a, b),
        a.created_at == b.created_at ==> (older(a, b) <==> text::text_before(a.id, b.id)),
{
    if !text::text_before(a.created_at, b.created_at) && !text::text_before(
        b.created_at,
        a.created_at,
    ) {
        text::text_order_total(a.created_at, b.created_at);
    }
    if !text::text_before(a.id, b.id) && !text::text_before(b.id, a.id) {
        text::text_order_total(a.id, b.id);
    }
    if text::text_before(a.created_at, b.created_at) {
        text::text_order_asymmetric(a.created_at, b.created_at);
    }
    if text::text_before(b.created_at, a.created_at) {
        text::text_order_asymmetric(b.created_at, a.created_at);
    }
    if text::text_before(a.id, b.id) {
        text::text_order_asymmetric(a.id, b.id);
    }
    if text::text_before(b.id, a.id) {
        text::text_order_asymmetric(b.id, a.id);
    }
}

/// A list of transfers makes known each of them, the last of those with one id.
pub proof fn listed_transfers_are_known(list: Seq<TransferTaskView>, id: Seq<char>)
    ensures
        tasks_of(list).contains_key(id) <==> exists|i: int|
            0 <= i < list.len() && (#[trigger] list[i]).id == id,
        tasks_of(list).contains_key(id) ==> exists|i: int|
            0 <= i < list.len() && (#[trigger] list[i]).id == id && tasks_of(list)[id] == list[i]
                && forall|j: int| i < j < list.len() ==> (#[trigger] list[j]).id != id,
    decreases list.len(),
{
    if list.len() > 0 {
        let front = list.drop_last();
        listed_transfers_are_known(front, id);
        assert(list[list.len() - 1] == list.last());
        if list.last().id != id {
            if tasks_of(front).contains_key(id) {
                let i = choose|i: int|
                    0 <= i < front.len() && (#[trigger] front[i]).id == id && tasks_of(front)[id]
                        == front[i] && forall|j: int|
                        i < j < front.len() ==> (#[trigger] front[j]).id != id;
                assert(list[i] == front[i]);
                assert forall|j: int| i < j < list.len() implies (#[trigger] list[j]).id != id by {
                    if j < front.len() {
                        assert(list[j] == front[j]);
                    }
                }
            }
            if exists|i: int| 0 <= i < list.len() && (#[trigger] list[i]).id == id {
                let i = choose|i: int| 0 <= i < list.len() && (#[trigger] list[i]).id == id;
                assert(front[i] == list[i]);
            }
        }
    }
}

/// What was written down comes back after a restart, up to a hundred transfers: each is the
/// one that was written, with all that it had done, but for the state of one that was not
/// over.
pub proof fn histories_come_back(document: TransferDocumentView, i: int)
    requires
        document.schema_version == 1,
        0 <= i < document.tasks.len(),
        i < 100,
    ensures
        ({
            let after = loaded_tasks(document);
            let task = document.tasks[i];
            &&& after.len() == if document.tasks.len() <= 100 {
                document.tasks.len()
            } else {
                100
            }
            &&& after[i] == (TransferTaskView {
                status: after[i].status,
                error: after[i].error,
                ..task
            })
            &&& task.status == TransferStatus::Completed || task.status == TransferStatus::Failed
                || task.status == TransferStatus::Cancelled ==> after[i] == task
        }),
{
}

/// A history of another kind is not read.
pub proof fn other_histories_are_not_read(document: TransferDocumentView)
    requires
        document.schema_version != 1,
    ensures
        loaded_tasks(document).len() == 0,
{
}

/// Whether a transfer in this state is written down.
pub open spec fn written_down(status: TransferStatus) -> bool {
    status == TransferStatus::Queued || !is_active_task(status)
}

/// What is written down is the newest first: a transfer that was made later comes before
/// one that was made earlier, and no transfer is lost or comes twice by sorting.
pub proof fn newer_transfers_are_written_first(
    list: Seq<TransferTaskView>,
    sorted: Seq<TransferTaskView>,
    i: int,
    j: int,
)
    requires
        sorted_by_age(list, sorted),
        0 <= i < j < sorted.len(),
    ensures
        sorted.len() == list.len(),
        sorted.to_multiset() == list.to_multiset(),
        !text::text_before(sorted[i].created_at, sorted[j].created_at),
        newest_first(sorted),
{
    let less = |a: TransferTaskView, b: TransferTaskView|
        text::text_before(b.created_at, a.created_at);
    let order = choose|order: Seq<int>| #[trigger] sort::sorts(list, sorted, less, order);
    sort::permuting_keeps_items(list, sorted, order);
    assert forall|i: int, j: int| 0 <= i < j < sorted.len() implies !text::text_before(
        (#[trigger] sorted[i]).created_at,
        (#[trigger] sorted[j]).created_at,
    ) by {
        assert(less(sorted[i], sorted[j]) || !less(sorted[j], sorted[i]));
        if less(sorted[i], sorted[j]) {
            text::text_order_asymmetric(sorted[j].created_at, sorted[i].created_at);
        }
    }
}

/// A list of all transfers holds each of them once, as it is.
pub proof fn listed_transfers_are_those_known(
    tasks: Tasks,
    list: Seq<TransferTaskView>,
    task: TransferTaskView,
)
    requires
        lists_all(tasks, list),
    ensures
        list.contains(task) ==> tasks.contains_key(task.id) && tasks[task.id] == task,
        tasks.contains_key(task.id) && tasks[task.id] == task ==> list.contains(task),
        list.no_duplicates(),
{
    if tasks.contains_key(task.id) && tasks[task.id] == task {
        let i = choose|i: int| 0 <= i < list.len() && (#[trigger] list[i]).id == task.id;
        assert(list[i] == task);
    }
    assert forall|i: int, j: int| 0 <= i < list.len() && 0 <= j < list.len() && i != j implies list[i]
        != list[j] by {
        if i < j {
            assert(list[i].id != list[j].id);
        } else {
            assert(list[j].id != list[i].id);
        }
    }
}

/// In a list with the newest first, no transfer comes before one that was made later.
pub proof fn newest_transfers_are_listed_first(list: Seq<TransferTaskView>, i: int, j: int)
    requires
        newest_first(list),
        0 <= i < j < list.len(),
    ensures
        list[i].created_at == list[j].created_at || text::text_before(
            list[j].created_at,
            list[i].created_at,
        ),
{
    if !text::text_before(list[j].created_at, list[i].created_at) {
        text::text_order_total(list[i].created_at, list[j].created_at);
    }
}

} // verus!
