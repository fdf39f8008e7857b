//! What holds of whole walks: of a scan of the sources of a transfer, and of a walk
//! of a remote tree.

use crate::models::RemoteEntryKind;
use crate::sftp::{self, PendingEntryView, RawEntryView, TreeEntryView, TreeScanView, TreeStepView};
use crate::sort;
use crate::text;
use crate::transfer::{
    self, FoundKind, PendingSourceView, ScanStepView, TransferItemKind, TransferItemView,
    TransferPlanView, TransferScanView,
};
use vstd::multiset::Multiset;
use vstd::prelude::*;

verus! {

// ---------------------------------------------------------------------------
// Scans
// ---------------------------------------------------------------------------

/// What is found where a source is looked at, and for a directory the sources that
/// lie in it.
#[verifier::ext_equal]
pub struct ScanAnswerView {
    pub kind: FoundKind,
    pub size: u64,
    pub modified_at: Option<u32>,
    pub children: Seq<PendingSourceView>,
}

/// The sources that an answer adds.
pub open spec fn added_sources(answer: ScanAnswerView) -> Seq<PendingSourceView> {
    if answer.kind == FoundKind::Directory {
        answer.children
    } else {
        Seq::empty()
    }
}

/// A scan after the next source was looked at, or `None` where nothing is looked at
/// next.
pub open spec fn scan_step(scan: TransferScanView, answer: ScanAnswerView) -> Option<
    TransferScanView,
> {
    match transfer::scan_next(scan, false) {
        (after, ScanStepView::Inspect(item)) => Some(
            TransferScanView {
                plan: transfer::plan_after(
                    after.plan,
                    item,
                    answer.kind,
                    answer.size,
                    answer.modified_at,
                ),
                pending: after.pending + added_sources(answer),
                ..after
            },
        ),
        _ => None,
    }
}

/// A scan after one source after the other was looked at.
pub open spec fn scanned(scan: TransferScanView, answers: Seq<ScanAnswerView>) -> Option<
    TransferScanView,
>
    decreases answers.len(),
{
    if answers.len() == 0 {
        Some(scan)
    } else {
        match scanned(scan, answers.drop_last()) {
            Some(before) => scan_step(before, answers.last()),
            None => None,
        }
    }
}

/// The sources that are looked at, in their order.
pub open spec fn looked_at(scan: TransferScanView, answers: Seq<ScanAnswerView>) -> Seq<
    PendingSourceView,
>
    decreases answers.len(),
{
    if answers.len() == 0 {
        Seq::empty()
    } else {
        looked_at(scan, answers.drop_last()).push(
            scanned(scan, answers.drop_last())->0.pending.last(),
        )
    }
}

/// The sources that the answers add.
pub open spec fn all_added(answers: Seq<ScanAnswerView>) -> Seq<PendingSourceView>
    decreases answers.len(),
{
    if answers.len() == 0 {
        Seq::empty()
    } else {
        all_added(answers.drop_last()) + added_sources(answers.last())
    }
}

/// Whether what is found is planned.
pub open spec fn is_planned(kind: FoundKind) -> bool {
    kind == FoundKind::Directory || kind == FoundKind::File
}

/// The item that is planned for a source.
pub open spec fn planned_item(source: PendingSourceView, answer: ScanAnswerView) -> TransferItemView {
    TransferItemView {
        source: source.source,
        target: source.target,
        kind: if answer.kind == FoundKind::Directory {
            TransferItemKind::Directory
        } else {
            TransferItemKind::File
        },
        modified_at: answer.modified_at,
    }
}

/// The items that are planned for sources, in their order.
pub open spec fn planned_items(
    sources: Seq<PendingSourceView>,
    answers: Seq<ScanAnswerView>,
) -> Seq<TransferItemView>
    decreases answers.len(),
{
    if answers.len() == 0 {
        Seq::empty()
    } else {
        let front = planned_items(sources.drop_last(), answers.drop_last());
        if is_planned(answers.last().kind) {
            front.push(planned_item(sources.last(), answers.last()))
        } else {
            front
        }
    }
}

/// The number of sources that are planned.
pub open spec fn planned_count(answers: Seq<ScanAnswerView>) -> nat
    decreases answers.len(),
{
    if answers.len() == 0 {
        0
    } else {
        planned_count(answers.drop_last()) + (if is_planned(answers.last().kind) {
            1nat
        } else {
            0nat
        })
    }
}

/// A scan that looked at sources looked at the first of them.
proof fn lemma_scanned_before(scan: TransferScanView, answers: Seq<ScanAnswerView>, n: int)
    requires
        scanned(scan, answers) is Some,
        0 <= n <= answers.len(),
    ensures
        scanned(scan, answers.take(n)) is Some,
        n < answers.len() ==> scanned(scan, answers.take(n + 1)) == scan_step(
            scanned(scan, answers.take(n))->0,
            answers[n],
        ),
        n < answers.len() ==> looked_at(scan, answers)[n] == scanned(
            scan,
            answers.take(n),
        )->0.pending.last(),
        looked_at(scan, answers).len() == answers.len(),
        n < answers.len() ==> scanned(scan, answers.take(n))->0.pending.len() > 0,
    decreases answers.len(),
{
    if n == answers.len() {
        assert(answers.take(n) =~= answers);
        if answers.len() > 0 {
            lemma_scanned_before(scan, answers.drop_last(), answers.len() - 1);
        }
    } else {
        let front = answers.drop_last();
        assert(front.take(n) =~= answers.take(n));
        lemma_scanned_before(scan, front, n);
        assert(answers.take(n + 1).drop_last() =~= answers.take(n));
        if n == answers.len() - 1 {
            assert(answers.take(n + 1) =~= answers);
            assert(front =~= answers.take(n));
        } else {
            assert(front.take(n + 1) =~= answers.take(n + 1));
        }
    }
}

/// What is taken from one side of a balance and put on the other keeps it.
proof fn lemma_moved<A>(
    first: Multiset<A>,
    added: Multiset<A>,
    more: Multiset<A>,
    left: Multiset<A>,
    seen: Multiset<A>,
    item: A,
)
    requires
        first.add(added) == left.insert(item).add(seen),
    ensures
        first.add(added.add(more)) == left.add(more).add(seen.insert(item)),
{
    broadcast use vstd::multiset::group_multiset_axioms;

    assert forall|x: A|
        first.add(added.add(more)).count(x) == left.add(more).add(seen.insert(item)).count(x) by {
        let one = Multiset::singleton(item);
        assert(first.add(added).count(x) == left.insert(item).add(seen).count(x));
        assert(left.insert(item).count(x) == left.count(x) + one.count(x));
        assert(seen.insert(item).count(x) == seen.count(x) + one.count(x));
        assert(added.add(more).count(x) == added.count(x) + more.count(x));
        assert(left.add(more).count(x) == left.count(x) + more.count(x));
        assert(first.add(added).count(x) == first.count(x) + added.count(x));
        assert(left.insert(item).add(seen).count(x) == left.insert(item).count(x) + seen.count(x));
        assert(first.add(added.add(more)).count(x) == first.count(x) + added.add(more).count(x));
        assert(left.add(more).add(seen.insert(item)).count(x) == left.add(more).count(x)
            + seen.insert(item).count(x));
    }
    assert(first.add(added.add(more)) =~= left.add(more).add(seen.insert(item)));
}

/// What a scan keeps: the sources that it began with and those that were added are
/// those that were looked at and those that wait, and the plan has what was found.
proof fn lemma_scan(scan: TransferScanView, answers: Seq<ScanAnswerView>)
    requires
        scan.plan == transfer::empty_plan(),
        scanned(scan, answers) is Some,
        answers.len() <= u64::MAX,
    ensures
        ({
            let end = scanned(scan, answers)->0;
            let looked = looked_at(scan, answers);
            &&& scan.pending.to_multiset().add(all_added(answers).to_multiset())
                == end.pending.to_multiset().add(looked.to_multiset())
            &&& looked.len() == answers.len()
            &&& end.plan.items == planned_items(looked, answers)
            &&& end.plan.items.len() == planned_count(answers)
            &&& transfer::plan_counts(end.plan)
            &&& end.plan.skipped + end.plan.items.len() == answers.len()
        }),
    decreases answers.len(),
{
    broadcast use {vstd::seq_lib::group_to_multiset_ensures, vstd::multiset::group_multiset_axioms};

    let end = scanned(scan, answers)->0;
    let looked = looked_at(scan, answers);
    if answers.len() == 0 {
        assert(looked.to_multiset() =~= Multiset::empty());
        assert(all_added(answers).to_multiset() =~= Multiset::empty());
        assert(scan.pending.to_multiset().add(all_added(answers).to_multiset())
            =~= end.pending.to_multiset().add(looked.to_multiset()));
    } else {
        let front = answers.drop_last();
        let answer = answers.last();
        let before = scanned(scan, front)->0;
        let seen = looked_at(scan, front);
        lemma_scan(scan, front);
        let item = before.pending.last();
        let left = before.pending.drop_last();
        let more = added_sources(answer);
        assert(before.pending =~= left.push(item));
        vstd::seq_lib::lemma_multiset_commutative(left, more);
        vstd::seq_lib::lemma_multiset_commutative(all_added(front), more);
        assert(looked =~= seen.push(item));
        assert(looked.drop_last() =~= seen);
        assert(end.pending == left + more);
        assert(all_added(answers) == all_added(front) + more);
        assert(end.pending.to_multiset() == left.to_multiset().add(more.to_multiset()));
        assert(all_added(answers).to_multiset() == all_added(front).to_multiset().add(
            more.to_multiset(),
        ));
        assert(before.pending.to_multiset() == left.to_multiset().insert(item));
        assert(looked.to_multiset() == seen.to_multiset().insert(item));
        lemma_moved(
            scan.pending.to_multiset(),
            all_added(front).to_multiset(),
            more.to_multiset(),
            left.to_multiset(),
            seen.to_multiset(),
            item,
        );
        transfer::lemma_counts(before.plan.items);
        if is_planned(answer.kind) {
            assert(end.plan.items =~= before.plan.items.push(planned_item(item, answer)));
            assert(end.plan.items.drop_last() =~= before.plan.items);
        }
    }
}

/// A source that waits is looked at later, where nothing waits in the end.
proof fn lemma_waiting_comes_later(
    scan: TransferScanView,
    answers: Seq<ScanAnswerView>,
    n: int,
    source: PendingSourceView,
)
    requires
        scanned(scan, answers) is Some,
        scanned(scan, answers)->0.pending.len() == 0,
        0 <= n <= answers.len(),
        scanned(scan, answers.take(n))->0.pending.contains(source),
    ensures
        exists|j: int| n <= j < answers.len() && #[trigger] looked_at(scan, answers)[j] == source,
    decreases answers.len() - n,
{
    lemma_scanned_before(scan, answers, n);
    if n == answers.len() {
        assert(answers.take(n) =~= answers);
    } else {
        let before = scanned(scan, answers.take(n))->0;
        let after = scanned(scan, answers.take(n + 1))->0;
        let looked = looked_at(scan, answers);
        lemma_scanned_before(scan, answers, n + 1);
        if before.pending.last() == source {
            assert(looked[n] == source);
        } else {
            let k = choose|k: int| 0 <= k < before.pending.len() && before.pending[k] == source;
            assert(after.pending[k] == source);
            lemma_waiting_comes_later(scan, answers, n + 1, source);
            let j = choose|j: int| n + 1 <= j < answers.len() && #[trigger] looked[j] == source;
            assert(looked[j] == source);
        }
    }
}

/// A scan that ends looks at each source once, and at each entry of each directory
/// once: what it looked at is what it began with and what the directories added. It
/// plans each file and each directory once, in the order in which it looked at them,
/// passes over the rest, and counts both. Sorting keeps all that.
pub proof fn scan_plans_everything_once(
    scan: TransferScanView,
    answers: Seq<ScanAnswerView>,
    sorted: TransferPlanView,
)
    requires
        scan.plan == transfer::empty_plan(),
        answers.len() <= u64::MAX,
        scanned(scan, answers) is Some,
        scanned(scan, answers)->0.pending.len() == 0,
        transfer::plan_sorted(scanned(scan, answers)->0.plan, sorted),
    ensures
        ({
            let looked = looked_at(scan, answers);
            let plan = scanned(scan, answers)->0.plan;
            &&& looked.to_multiset() == scan.pending.to_multiset().add(
                all_added(answers).to_multiset(),
            )
            &&& plan.items == planned_items(looked, answers)
            &&& sorted.items.to_multiset() == plan.items.to_multiset()
            &&& transfer::plan_counts(plan)
            &&& sorted.files == plan.files && sorted.directories == plan.directories
            &&& sorted.files + sorted.directories == sorted.items.len()
            &&& sorted.items.len() + sorted.skipped == looked.len()
            &&& looked.len() == answers.len()
        }),
{
    broadcast use {vstd::seq_lib::group_to_multiset_ensures, vstd::multiset::group_multiset_axioms};

    let end = scanned(scan, answers)->0;
    let looked = looked_at(scan, answers);
    lemma_scan(scan, answers);
    assert(end.pending =~= Seq::empty());
    assert(end.pending.to_multiset() =~= Multiset::empty());
    assert(looked.to_multiset() =~= scan.pending.to_multiset().add(
        all_added(answers).to_multiset(),
    ));
    let less = |a: TransferItemView, b: TransferItemView| transfer::directory_before_file(a, b);
    let order = choose|order: Seq<int>| #[trigger]
        sort::sorts(end.plan.items, sorted.items, less, order);
    sort::permuting_keeps_items(end.plan.items, sorted.items, order);
    transfer::lemma_counts(end.plan.items);
}

/// In a scan that ends, every entry of a directory is looked at after the directory.
pub proof fn entries_are_looked_at_after_their_directory(
    scan: TransferScanView,
    answers: Seq<ScanAnswerView>,
    i: int,
    child: PendingSourceView,
)
    requires
        scanned(scan, answers) is Some,
        scanned(scan, answers)->0.pending.len() == 0,
        0 <= i < answers.len(),
        answers[i].kind == FoundKind::Directory,
        answers[i].children.contains(child),
    ensures
        exists|j: int| i < j < answers.len() && #[trigger] looked_at(scan, answers)[j] == child,
{
    lemma_scanned_before(scan, answers, i);
    let before = scanned(scan, answers.take(i))->0;
    let after = scanned(scan, answers.take(i + 1))->0;
    let k = choose|k: int| 0 <= k < answers[i].children.len() && answers[i].children[k] == child;
    lemma_scanned_before(scan, answers, i + 1);
    assert(after.pending == before.pending.drop_last() + answers[i].children);
    assert(after.pending[before.pending.len() - 1 + k] == child);
    lemma_waiting_comes_later(scan, answers, i + 1, child);
    let looked = looked_at(scan, answers);
    let j = choose|j: int| i + 1 <= j < answers.len() && #[trigger] looked[j] == child;
    assert(looked[j] == child);
}

/// What is planned for the source that is looked at as the one with this number
/// stands behind what is planned for those before it.
proof fn lemma_planned_place(
    sources: Seq<PendingSourceView>,
    answers: Seq<ScanAnswerView>,
    i: int,
)
    requires
        sources.len() == answers.len(),
        0 <= i < answers.len(),
        is_planned(answers[i].kind),
    ensures
        planned_items(sources, answers).len() == planned_count(answers),
        planned_count(answers.take(i)) < planned_count(answers),
        planned_items(sources, answers)[planned_count(answers.take(i)) as int] == planned_item(
            sources[i],
            answers[i],
        ),
    decreases answers.len(),
{
    let front = answers.drop_last();
    lemma_planned_len(sources, answers);
    lemma_planned_len(sources.drop_last(), front);
    if i == answers.len() - 1 {
        assert(answers.take(i) =~= front);
    } else {
        lemma_planned_place(sources.drop_last(), front, i);
        assert(front.take(i) =~= answers.take(i));
    }
}

/// As many items are planned as are counted.
proof fn lemma_planned_len(sources: Seq<PendingSourceView>, answers: Seq<ScanAnswerView>)
    ensures
        planned_items(sources, answers).len() == planned_count(answers),
    decreases answers.len(),
{
    if answers.len() > 0 {
        lemma_planned_len(sources.drop_last(), answers.drop_last());
    }
}

/// More answers plan no less.
proof fn lemma_planned_grows(answers: Seq<ScanAnswerView>, i: int, j: int)
    requires
        0 <= i < j <= answers.len(),
        is_planned(answers[i].kind),
    ensures
        planned_count(answers.take(i)) < planned_count(answers.take(j)),
    decreases j,
{
    assert(answers.take(j).drop_last() =~= answers.take(j - 1));
    if i < j - 1 {
        lemma_planned_grows(answers, i, j - 1);
    }
}

/// A directory comes before everything that is looked at after it, and so before all
/// its entries: in the sorted plan the place of the directory is in front of the
/// place of the other.
pub proof fn directories_come_before_their_entries(
    scan: TransferScanView,
    answers: Seq<ScanAnswerView>,
    sorted: TransferPlanView,
    i: int,
    j: int,
)
    requires
        scan.plan == transfer::empty_plan(),
        answers.len() <= u64::MAX,
        scanned(scan, answers) is Some,
        transfer::plan_sorted(scanned(scan, answers)->0.plan, sorted),
        0 <= i < j < answers.len(),
        answers[i].kind == FoundKind::Directory,
        is_planned(answers[j].kind),
    ensures
        exists|p: int, q: int|
            0 <= p < q < sorted.items.len() && #[trigger] sorted.items[p] == planned_item(
                looked_at(scan, answers)[i],
                answers[i],
            ) && #[trigger] sorted.items[q] == planned_item(looked_at(scan, answers)[j], answers[j]),
{
    let plan = scanned(scan, answers)->0.plan;
    let looked = looked_at(scan, answers);
    lemma_scan(scan, answers);
    lemma_planned_place(looked, answers, i);
    lemma_planned_place(looked, answers, j);
    lemma_planned_grows(answers, i, j);
    let less = |a: TransferItemView, b: TransferItemView| transfer::directory_before_file(a, b);
    let order = choose|order: Seq<int>| #[trigger]
        sort::sorts(plan.items, sorted.items, less, order);
    let a = planned_count(answers.take(i)) as int;
    let b = planned_count(answers.take(j)) as int;
    sort::lemma_permutation_covers(order, a);
    sort::lemma_permutation_covers(order, b);
    let p = choose|p: int| 0 <= p < order.len() && #[trigger] order[p] == a;
    let q = choose|q: int| 0 <= q < order.len() && #[trigger] order[q] == b;
    assert(sorted.items[p] == plan.items[order[p]]);
    assert(sorted.items[q] == plan.items[order[q]]);
    if q < p {
        assert(less(sorted.items[q], sorted.items[p]) || (!less(sorted.items[p], sorted.items[q])
            && order[q] < order[p]));
    }
}

// ---------------------------------------------------------------------------
// Trees
// ---------------------------------------------------------------------------

/// What a server says of an entry: its kind, and for a directory what lies in it.
#[verifier::ext_equal]
pub struct TreeAnswerView {
    pub kind: RemoteEntryKind,
    pub children: Seq<RawEntryView>,
}

/// The entries that an answer adds to a walk.
pub open spec fn added_entries(scan: TreeScanView, depth: usize, answer: TreeAnswerView) -> Seq<
    PendingEntryView,
> {
    if answer.kind == RemoteEntryKind::Directory {
        sftp::children_walked(answer.children, scan.include_symlinks, (depth + 1) as usize)
    } else {
        Seq::empty()
    }
}

/// A walk after the next entry was looked at, or `None` where the walk ends here.
pub open spec fn tree_step(scan: TreeScanView, answer: TreeAnswerView) -> Option<TreeScanView> {
    match sftp::tree_next(scan) {
        (after, TreeStepView::Inspect(entry)) => match sftp::tree_inspected(
            after,
            entry,
            answer.kind,
        ) {
            Ok(found) => Some(
                if answer.kind == RemoteEntryKind::Directory {
                    sftp::tree_listed(found, entry.depth, answer.children)
                } else {
                    found
                },
            ),
            Err(_) => None,
        },
        _ => None,
    }
}

/// A walk after one entry after the other was looked at.
pub open spec fn tree_walked(scan: TreeScanView, answers: Seq<TreeAnswerView>) -> Option<
    TreeScanView,
>
    decreases answers.len(),
{
    if answers.len() == 0 {
        Some(scan)
    } else {
        match tree_walked(scan, answers.drop_last()) {
            Some(before) => tree_step(before, answers.last()),
            None => None,
        }
    }
}

/// The walk of a tree, before anything was looked at.
pub open spec fn new_walk(root: Seq<char>, include_symlinks: bool) -> TreeScanView {
    TreeScanView {
        root,
        include_symlinks,
        pending: seq![PendingEntryView { path: root, depth: 0 }],
        found: Seq::empty(),
    }
}

/// The path of an entry of a remote directory, as the entries that are read have it.
pub open spec fn entry_path(directory: Seq<char>, name: Seq<char>) -> Seq<char> {
    if directory.last() == '/' {
        directory + name
    } else {
        directory.push('/') + name
    }
}

/// Whether the entries of a directory have the paths of names in it.
pub open spec fn lie_in(directory: Seq<char>, children: Seq<RawEntryView>) -> bool {
    forall|i: int|
        0 <= i < children.len() ==> {
            let child = #[trigger] children[i];
            &&& child.name.len() > 0
            &&& !child.name.contains('/')
            &&& child.path == entry_path(directory, child.name)
        }
}

/// Whether each directory that is walked is answered with entries that lie in it.
pub open spec fn truthful(scan: TreeScanView, answers: Seq<TreeAnswerView>) -> bool
    decreases answers.len(),
{
    answers.len() > 0 ==> {
        &&& truthful(scan, answers.drop_last())
        &&& tree_walked(scan, answers.drop_last()) matches Some(before) ==> before.pending.len() > 0
            ==> lie_in(before.pending.last().path, answers.last().children)
    }
}

/// How many slashes a path has.
spec fn slashes(path: Seq<char>) -> nat
    decreases path.len(),
{
    if path.len() == 0 {
        0
    } else {
        slashes(path.drop_last()) + (if path.last() == '/' {
            1nat
        } else {
            0nat
        })
    }
}

/// The slashes of two texts add up.
proof fn lemma_slashes(a: Seq<char>, b: Seq<char>)
    ensures
        slashes(a + b) == slashes(a) + slashes(b),
    decreases b.len(),
{
    if b.len() == 0 {
        assert(a + b =~= a);
    } else {
        assert((a + b).drop_last() =~= a + b.drop_last());
        lemma_slashes(a, b.drop_last());
    }
}

/// A name has no slashes.
proof fn lemma_no_slashes(name: Seq<char>)
    requires
        !name.contains('/'),
    ensures
        slashes(name) == 0,
    decreases name.len(),
{
    if name.len() > 0 {
        assert(name[name.len() - 1] == name.last());
        assert forall|i: int| 0 <= i < name.drop_last().len() implies name.drop_last()[i] != '/' by {
            assert(name[i] == name.drop_last()[i]);
        }
        lemma_no_slashes(name.drop_last());
    }
}

/// Whether a path lies as deep below the root as it says.
spec fn is_placed(root: Seq<char>, path: Seq<char>, depth: usize) -> bool {
    if depth == 0 {
        path == root
    } else {
        &&& path.len() > root.len()
        &&& path.last() != '/'
        &&& slashes(path) + (if root.last() == '/' {
            1int
        } else {
            0int
        }) == slashes(root) + depth
    }
}

/// What lies in a directory lies one deeper than the directory.
proof fn lemma_placed(root: Seq<char>, path: Seq<char>, depth: usize, name: Seq<char>)
    requires
        root.len() > 0,
        is_placed(root, path, depth),
        depth < usize::MAX,
        name.len() > 0,
        !name.contains('/'),
    ensures
        is_placed(root, entry_path(path, name), (depth + 1) as usize),
{
    lemma_no_slashes(name);
    assert(name.last() != '/') by {
        assert(name[name.len() - 1] == name.last());
    }
    let child = entry_path(path, name);
    assert(child.last() == name.last());
    if path.last() == '/' {
        lemma_slashes(path, name);
    } else {
        lemma_slashes(path.push('/'), name);
        assert(path.push('/').drop_last() =~= path);
    }
}

/// Whether everything in a walk lies as deep as it says.
spec fn all_placed(scan: TreeScanView) -> bool {
    &&& forall|i: int|
        0 <= i < scan.pending.len() ==> is_placed(
            scan.root,
            (#[trigger] scan.pending[i]).path,
            scan.pending[i].depth,
        )
    &&& forall|i: int|
        0 <= i < scan.found.len() ==> is_placed(
            scan.root,
            (#[trigger] scan.found[i]).path,
            scan.found[i].depth,
        )
}

/// The entries of a directory lie one deeper than it.
proof fn lemma_children_placed(
    root: Seq<char>,
    entry: PendingEntryView,
    children: Seq<RawEntryView>,
    include_symlinks: bool,
)
    requires
        root.len() > 0,
        entry.depth <= sftp::MAX_DEPTH,
        is_placed(root, entry.path, entry.depth),
        lie_in(entry.path, children),
    ensures
        ({
            let more = sftp::children_walked(children, include_symlinks, (entry.depth + 1) as usize);
            forall|i: int|
                0 <= i < more.len() ==> is_placed(root, (#[trigger] more[i]).path, more[i].depth)
        }),
    decreases children.len(),
{
    if children.len() > 0 {
        let front = children.drop_last();
        assert forall|i: int| 0 <= i < front.len() implies {
            let child = #[trigger] front[i];
            &&& child.name.len() > 0
            &&& !child.name.contains('/')
            &&& child.path == entry_path(entry.path, child.name)
        } by {
            assert(front[i] == children[i]);
        }
        lemma_children_placed(root, entry, front, include_symlinks);
        assert(children[children.len() - 1] == children.last());
        lemma_placed(root, entry.path, entry.depth, children.last().name);
        let depth = (entry.depth + 1) as usize;
        let before = sftp::children_walked(front, include_symlinks, depth);
        let more = sftp::children_walked(children, include_symlinks, depth);
        assert forall|i: int| 0 <= i < more.len() implies is_placed(
            root,
            (#[trigger] more[i]).path,
            more[i].depth,
        ) by {
            if i < before.len() {
                assert(more[i] == before[i]);
            }
        }
    }
}

/// The first of the entries that a walk looked at and those that wait.
spec fn tree_entries(scan: TreeScanView) -> Multiset<PendingEntryView> {
    scan.pending.to_multiset().add(places(scan.found).to_multiset())
}

/// Where entries lie.
pub open spec fn places(found: Seq<TreeEntryView>) -> Seq<PendingEntryView> {
    Seq::new(found.len(), |i: int| PendingEntryView { path: found[i].path, depth: found[i].depth })
}

/// The entries that the answers of a walk add.
pub open spec fn all_entries(scan: TreeScanView, answers: Seq<TreeAnswerView>) -> Seq<
    PendingEntryView,
>
    decreases answers.len(),
{
    if answers.len() == 0 {
        scan.pending
    } else {
        let before = tree_walked(scan, answers.drop_last())->0;
        all_entries(scan, answers.drop_last()) + added_entries(
            before,
            before.pending.last().depth,
            answers.last(),
        )
    }
}

/// What a walk keeps.
proof fn lemma_walk(scan: TreeScanView, answers: Seq<TreeAnswerView>)
    requires
        scan.root.len() > 0,
        scan.found.len() == 0,
        all_placed(scan),
        tree_walked(scan, answers) is Some,
    ensures
        ({
            let end = tree_walked(scan, answers)->0;
            &&& end.root == scan.root
            &&& end.include_symlinks == scan.include_symlinks
            &&& end.found.len() == answers.len()
            &&& sftp::tree_bounded(end)
            &&& truthful(scan, answers) ==> all_placed(end)
            &&& all_entries(scan, answers).to_multiset() == tree_entries(end)
        }),
    decreases answers.len(),
{
    broadcast use {vstd::seq_lib::group_to_multiset_ensures, vstd::multiset::group_multiset_axioms};

    let end = tree_walked(scan, answers)->0;
    if answers.len() == 0 {
        assert(places(scan.found).to_multiset() =~= Multiset::empty());
        assert(all_entries(scan, answers).to_multiset() =~= tree_entries(end));
    } else {
        let front = answers.drop_last();
        let answer = answers.last();
        let before = tree_walked(scan, front)->0;
        lemma_walk(scan, front);
        let entry = before.pending.last();
        let left = before.pending.drop_last();
        let more = added_entries(before, entry.depth, answer);
        assert(sftp::tree_next(before).1 == TreeStepView::Inspect(entry));
        sftp::tree_stays_bounded(before, answer.kind, answer.children);
        assert(before.pending =~= left.push(entry));
        assert(end.pending =~= left + more);
        assert(places(end.found) =~= places(before.found).push(entry));
        vstd::seq_lib::lemma_multiset_commutative(left, more);
        vstd::seq_lib::lemma_multiset_commutative(all_entries(scan, front), more);
        assert(all_entries(scan, front).to_multiset().add(Multiset::empty())
            =~= all_entries(scan, front).to_multiset());
        lemma_moved(
            all_entries(scan, front).to_multiset(),
            Multiset::empty(),
            more.to_multiset(),
            left.to_multiset(),
            places(before.found).to_multiset(),
            entry,
        );
        assert(all_entries(scan, front).to_multiset().add(
            Multiset::empty().add(more.to_multiset()),
        ) =~= all_entries(scan, answers).to_multiset());
        if truthful(scan, answers) {
            assert(before.pending[before.pending.len() - 1] == entry);
            lemma_children_placed(
                scan.root,
                entry,
                answer.children,
                before.include_symlinks,
            );
            assert forall|i: int| 0 <= i < end.pending.len() implies is_placed(
                end.root,
                (#[trigger] end.pending[i]).path,
                end.pending[i].depth,
            ) by {
                if i < left.len() {
                    assert(end.pending[i] == before.pending[i]);
                } else {
                    assert(end.pending[i] == more[i - left.len()]);
                }
            }
            assert forall|i: int| 0 <= i < end.found.len() implies is_placed(
                end.root,
                (#[trigger] end.found[i]).path,
                end.found[i].depth,
            ) by {
                if i < before.found.len() {
                    assert(end.found[i] == before.found[i]);
                }
            }
        }
    }
}

/// The entries that are deleted of a tree are the entries that were found in it,
/// each once, and all of them lie in it: the root, and where the walk came to its
/// end, everything that the directories added.
pub proof fn deleted_entries_are_those_of_the_tree(
    root: Seq<char>,
    include_symlinks: bool,
    answers: Seq<TreeAnswerView>,
    sorted: Seq<TreeEntryView>,
)
    requires
        root.len() > 0,
        tree_walked(new_walk(root, include_symlinks), answers) is Some,
        ({
            let end = tree_walked(new_walk(root, include_symlinks), answers)->0;
            &&& end.pending.len() == 0
            &&& sort::stably_sorted(
                end.found,
                sorted,
                |a: TreeEntryView, b: TreeEntryView| sftp::deeper(a, b),
            )
        }),
    ensures
        sorted.len() == answers.len(),
        places(sorted).to_multiset() == all_entries(
            new_walk(root, include_symlinks),
            answers,
        ).to_multiset(),
        forall|i: int| 0 <= i < sorted.len() ==> sftp::in_tree(root, (#[trigger] sorted[i]).path),
{
    broadcast use {vstd::seq_lib::group_to_multiset_ensures, vstd::multiset::group_multiset_axioms};

    let scan = new_walk(root, include_symlinks);
    let end = tree_walked(scan, answers)->0;
    lemma_walk(scan, answers);
    let less = |a: TreeEntryView, b: TreeEntryView| sftp::deeper(a, b);
    let order = choose|order: Seq<int>| #[trigger] sort::sorts(end.found, sorted, less, order);
    assert forall|i: int| 0 <= i < sorted.len() implies places(sorted)[i] == places(end.found)[
        #[trigger] order[i]] by {
        assert(sorted[i] == end.found[order[i]]);
    }
    sort::permuting_keeps_items(places(end.found), places(sorted), order);
    assert(end.pending =~= Seq::empty());
    assert(end.pending.to_multiset() =~= Multiset::empty());
    assert(tree_entries(end) =~= places(end.found).to_multiset());
    assert forall|i: int| 0 <= i < sorted.len() implies sftp::in_tree(
        root,
        (#[trigger] sorted[i]).path,
    ) by {
        assert(sorted[i] == end.found[order[i]]);
    }
}

/// A path that lies in a tree, but is not its root, has more slashes than the root.
proof fn lemma_inside(directory: Seq<char>, path: Seq<char>)
    requires
        directory.len() > 0,
        directory.last() != '/',
        sftp::in_tree(directory, path),
        path != directory,
    ensures
        slashes(path) > slashes(directory),
        path.len() > directory.len(),
{
    reveal_strlit("/");
    let front = directory + "/"@;
    assert(text::trim_end_of(directory, '/') == directory);
    assert(front =~= directory.push('/'));
    assert(front.drop_last() =~= directory);
    let rest = path.skip(front.len() as int);
    assert(path =~= front + rest) by {
        assert(path.take(front.len() as int) =~= front);
    }
    lemma_slashes(front, rest);
}

/// A directory is deleted after everything in it: where one entry of a tree that is
/// deleted lies in another, it is deleted first.
pub proof fn contents_are_deleted_first(
    root: Seq<char>,
    include_symlinks: bool,
    answers: Seq<TreeAnswerView>,
    sorted: Seq<TreeEntryView>,
    directory: int,
    entry: int,
)
    requires
        root.len() > 0,
        tree_walked(new_walk(root, include_symlinks), answers) is Some,
        truthful(new_walk(root, include_symlinks), answers),
        sort::stably_sorted(
            tree_walked(new_walk(root, include_symlinks), answers)->0.found,
            sorted,
            |a: TreeEntryView, b: TreeEntryView| sftp::deeper(a, b),
        ),
        0 <= directory < sorted.len(),
        0 <= entry < sorted.len(),
        sftp::in_tree(sorted[directory].path, sorted[entry].path),
        sorted[entry].path != sorted[directory].path,
    ensures
        entry < directory,
{
    let scan = new_walk(root, include_symlinks);
    let end = tree_walked(scan, answers)->0;
    lemma_walk(scan, answers);
    let less = |a: TreeEntryView, b: TreeEntryView| sftp::deeper(a, b);
    let order = choose|order: Seq<int>| #[trigger] sort::sorts(end.found, sorted, less, order);
    let outer = sorted[directory];
    let inner = sorted[entry];
    assert(outer == end.found[order[directory]]);
    assert(inner == end.found[order[entry]]);
    assert(is_placed(root, outer.path, outer.depth));
    assert(is_placed(root, inner.path, inner.depth));
    assert(inner.depth > outer.depth) by {
        if outer.depth > 0 {
            lemma_inside(outer.path, inner.path);
        }
    }
    if directory < entry {
        sftp::deeper_entries_go_first(end.found, sorted, directory, entry);
    }
}

} // verus!
