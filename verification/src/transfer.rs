//! Transfers of files: what is asked for, what is found to be transferred, and
//! under which name it is written.

#![verifier::loop_isolation(false)]

use crate::error::{self, AppError, ErrorView};
use crate::models::{
    Duplicate, TransferConflictPolicy, TransferDirection, TransferStatus, TransferTask,
    TransferTaskView, duplicate_list,
};
use crate::outside::{self, new_id, now};
use crate::paths::{self, join_local_path, join_remote_path, transfer_source_name};
use crate::sftp::{MAX_DEPTH, MAX_ENTRIES, MAX_PENDING};
use crate::sort::{self, SortKey, items_at, order_of};
use crate::text::{self, byte_len, cat2, cat4, decimal_text, starts_with, without_trailing};
use vstd::prelude::*;

verus! {

/// The number of bytes that a path may have.
pub const MAX_PATH_BYTES: usize = 4096;

/// The number of names that are tried where a target exists.
pub const MAX_CONFLICT_NAMES: usize = 999;

// ---------------------------------------------------------------------------
// Tasks
// ---------------------------------------------------------------------------

/// The name under which a transfer is shown.
pub open spec fn task_name(sources: Seq<Seq<char>>, direction: TransferDirection) -> Seq<char> {
    if sources.len() == 1 {
        match paths::source_name(sources[0], direction) {
            Some(name) => name,
            None => "未命名对象"@,
        }
    } else {
        text::decimal(sources.len()) + " 个对象"@
    }
}

/// A transfer that was asked for.
pub open spec fn queued_task(
    session_id: Seq<char>,
    direction: TransferDirection,
    sources: Seq<Seq<char>>,
    target_directory: Seq<char>,
    conflict_policy: TransferConflictPolicy,
    new_id: Seq<char>,
    now: Seq<char>,
) -> TransferTaskView {
    TransferTaskView {
        id: new_id,
        created_at: now,
        session_id,
        file_name: task_name(sources, direction),
        direction,
        source: if sources.len() > 0 {
            sources[0]
        } else {
            Seq::empty()
        },
        target: target_directory,
        sources,
        target_directory,
        conflict_policy,
        transferred_bytes: 0,
        total_bytes: None,
        total_files: 0,
        total_directories: 0,
        completed_files: 0,
        completed_directories: 0,
        skipped_files: 0,
        bytes_per_second: 0,
        current_path: None,
        elapsed_seconds: 0,
        status: TransferStatus::Queued,
        error: None,
        errors: Seq::empty(),
    }
}

/// A transfer that is asked for, with this id and at this time.
pub fn new_transfer_task_at(
    session_id: &str,
    direction: TransferDirection,
    sources: Vec<String>,
    target_directory: String,
    conflict_policy: TransferConflictPolicy,
    new_id: String,
    now: String,
) -> (r: TransferTask)
    ensures
        r@ == queued_task(
            session_id@,
            direction,
            sources.deep_view(),
            target_directory@,
            conflict_policy,
            new_id@,
            now@,
        ),
{
    let ghost view = sources.deep_view();
    let count: usize = sources.len();
    let file_name = if count == 1 {
        assert(view[0] == sources@[0]@);
        match transfer_source_name(sources[0].as_str(), direction) {
            Some(name) => name,
            None => "未命名对象".to_owned(),
        }
    } else {
        cat2(decimal_text(count as u64).as_str(), " 个对象")
    };
    let source = if count > 0 {
        assert(view[0] == sources@[0]@);
        sources[0].clone()
    } else {
        String::new()
    };
    let errors: Vec<String> = Vec::new();
    let r = TransferTask {
        id: new_id,
        created_at: now,
        session_id: session_id.to_owned(),
        file_name,
        direction,
        source,
        target: target_directory.clone(),
        sources,
        target_directory,
        conflict_policy,
        transferred_bytes: 0,
        total_bytes: None,
        total_files: 0,
        total_directories: 0,
        completed_files: 0,
        completed_directories: 0,
        skipped_files: 0,
        bytes_per_second: 0,
        current_path: None,
        elapsed_seconds: 0,
        status: TransferStatus::Queued,
        error: None,
        errors,
    };
    proof {
        assert(r@.errors =~= Seq::empty());
        assert(r@.source =~= (if view.len() > 0 {
            view[0]
        } else {
            Seq::empty()
        }));
    }
    r
}

/// A transfer that is asked for.
pub fn new_transfer_task(
    session_id: &str,
    direction: TransferDirection,
    sources: Vec<String>,
    target_directory: String,
    conflict_policy: TransferConflictPolicy,
) -> (r: TransferTask)
    ensures
        outside::is_id_text(r@.id),
        r@ == queued_task(
            session_id@,
            direction,
            sources.deep_view(),
            target_directory@,
            conflict_policy,
            r@.id,
            r@.created_at,
        ),
{
    new_transfer_task_at(
        session_id,
        direction,
        sources,
        target_directory,
        conflict_policy,
        new_id(),
        now(),
    )
}

// ---------------------------------------------------------------------------
// Scans
// ---------------------------------------------------------------------------

/// What is transferred.
#[derive(Clone, Copy, Debug, PartialEq, Eq, Structural)]
pub enum TransferItemKind {
    Directory,
    File,
}

/// What was found at a source.
#[derive(Clone, Copy, Debug, PartialEq, Eq, Structural)]
pub enum FoundKind {
    Symlink,
    Directory,
    File,
    Other,
}

/// Something that is transferred, and when it was changed last.
#[derive(Debug)]
pub struct TransferItem {
    pub source: String,
    pub target: String,
    pub kind: TransferItemKind,
    pub modified_at: Option<u32>,
}

/// What a [`TransferItem`] says.
#[verifier::ext_equal]
pub struct TransferItemView {
    pub source: Seq<char>,
    pub target: Seq<char>,
    pub kind: TransferItemKind,
    pub modified_at: Option<u32>,
}

impl View for TransferItem {
    type V = TransferItemView;

    open spec fn view(&self) -> TransferItemView {
        TransferItemView {
            source: self.source@,
            target: self.target@,
            kind: self.kind,
            modified_at: self.modified_at,
        }
    }
}

impl DeepView for TransferItem {
    type V = TransferItemView;

    open spec fn deep_view(&self) -> TransferItemView {
        self@
    }
}

impl Duplicate for TransferItem {
    fn duplicate(&self) -> (r: Self) {
        TransferItem {
            source: self.source.clone(),
            target: self.target.clone(),
            kind: self.kind,
            modified_at: self.modified_at,
        }
    }
}

impl Clone for TransferItem {
    fn clone(&self) -> (r: Self)
        ensures
            r@ == self@,
    {
        self.duplicate()
    }
}

/// All that is transferred, and what was passed over.
#[derive(Debug)]
pub struct TransferPlan {
    pub items: Vec<TransferItem>,
    pub files: u64,
    pub directories: u64,
    pub bytes: u64,
    pub skipped: u64,
}

/// What a [`TransferPlan`] says.
#[verifier::ext_equal]
pub struct TransferPlanView {
    pub items: Seq<TransferItemView>,
    pub files: u64,
    pub directories: u64,
    pub bytes: u64,
    pub skipped: u64,
}

impl View for TransferPlan {
    type V = TransferPlanView;

    open spec fn view(&self) -> TransferPlanView {
        TransferPlanView {
            items: self.items.deep_view(),
            files: self.files,
            directories: self.directories,
            bytes: self.bytes,
            skipped: self.skipped,
        }
    }
}

impl DeepView for TransferPlan {
    type V = TransferPlanView;

    open spec fn deep_view(&self) -> TransferPlanView {
        self@
    }
}

impl Duplicate for TransferPlan {
    fn duplicate(&self) -> (r: Self) {
        TransferPlan {
            items: duplicate_list(&self.items),
            files: self.files,
            directories: self.directories,
            bytes: self.bytes,
            skipped: self.skipped,
        }
    }
}

impl Clone for TransferPlan {
    fn clone(&self) -> (r: Self)
        ensures
            r@ == self@,
    {
        self.duplicate()
    }
}

/// A source that waits to be looked at, and how deep it lies.
#[derive(Debug)]
pub struct PendingSource {
    pub source: String,
    pub target: String,
    pub depth: usize,
}

/// What a [`PendingSource`] says.
#[verifier::ext_equal]
pub struct PendingSourceView {
    pub source: Seq<char>,
    pub target: Seq<char>,
    pub depth: usize,
}

impl View for PendingSource {
    type V = PendingSourceView;

    open spec fn view(&self) -> PendingSourceView {
        PendingSourceView {
            source: self.source@,
            target: self.target@,
            depth: self.depth,
        }
    }
}

impl DeepView for PendingSource {
    type V = PendingSourceView;

    open spec fn deep_view(&self) -> PendingSourceView {
        self@
    }
}

impl Duplicate for PendingSource {
    fn duplicate(&self) -> (r: Self) {
        PendingSource {
            source: self.source.clone(),
            target: self.target.clone(),
            depth: self.depth,
        }
    }
}

impl Clone for PendingSource {
    fn clone(&self) -> (r: Self)
        ensures
            r@ == self@,
    {
        self.duplicate()
    }
}

/// An entry of a directory: its path and its name.
#[derive(Debug)]
pub struct FoundChild {
    pub path: String,
    pub name: String,
}

/// What a [`FoundChild`] says.
#[verifier::ext_equal]
pub struct FoundChildView {
    pub path: Seq<char>,
    pub name: Seq<char>,
}

impl View for FoundChild {
    type V = FoundChildView;

    open spec fn view(&self) -> FoundChildView {
        FoundChildView {
            path: self.path@,
            name: self.name@,
        }
    }
}

impl DeepView for FoundChild {
    type V = FoundChildView;

    open spec fn deep_view(&self) -> FoundChildView {
        self@
    }
}

impl Duplicate for FoundChild {
    fn duplicate(&self) -> (r: Self) {
        FoundChild {
            path: self.path.clone(),
            name: self.name.clone(),
        }
    }
}

impl Clone for FoundChild {
    fn clone(&self) -> (r: Self)
        ensures
            r@ == self@,
    {
        self.duplicate()
    }
}

/// The error for a transfer that was cancelled.
pub open spec fn transfer_cancelled_error() -> ErrorView {
    error::sftp_error("TRANSFER-CANCELLED"@, "传输已取消"@, "cancelled by user"@)
}

/// The error for a transfer that was cancelled.
pub fn cancelled_error() -> (r: AppError)
    ensures
        r@ == transfer_cancelled_error(),
{
    AppError::sftp("TRANSFER-CANCELLED", "传输已取消", "cancelled by user")
}

/// The error for a tree that is too large.
pub open spec fn transfer_limit_error(depth: nat, entries: nat) -> ErrorView {
    error::sftp_error(
        "SFTP-RECURSIVE-LIMIT"@,
        "递归传输超过安全上限"@,
        "depth="@ + text::decimal(depth) + " entries="@ + text::decimal(entries),
    )
}

/// The error for a tree that is too large.
pub fn recursive_limit_error(depth: usize, entries: usize) -> (r: AppError)
    ensures
        r@ == transfer_limit_error(depth as nat, entries as nat),
{
    AppError::sftp(
        "SFTP-RECURSIVE-LIMIT",
        "递归传输超过安全上限",
        cat4(
            "depth=",
            decimal_text(depth as u64).as_str(),
            " entries=",
            decimal_text(entries as u64).as_str(),
        ).as_str(),
    )
}

/// The error for a source without a name.
pub open spec fn nameless_error(direction: TransferDirection, source: Seq<char>) -> ErrorView {
    error::sftp_error(
        "TRANSFER-SCAN-FAILED"@,
        match direction {
            TransferDirection::Upload => "无法确定本地对象名称"@,
            TransferDirection::Download => "无法确定远端对象名称"@,
        },
        source,
    )
}

/// The names of the sources of a transfer, or the error for the first that has
/// none.
pub open spec fn names_of_sources(
    sources: Seq<Seq<char>>,
    direction: TransferDirection,
) -> Result<Seq<Seq<char>>, ErrorView>
    decreases sources.len(),
{
    if sources.len() == 0 {
        Ok(Seq::empty())
    } else {
        match names_of_sources(sources.drop_last(), direction) {
            Err(error) => Err(error),
            Ok(names) => match paths::source_name(sources.last(), direction) {
                Some(name) => Ok(names.push(name)),
                None => Err(nameless_error(direction, sources.last())),
            },
        }
    }
}

/// A failure among the first sources is the failure of all.
proof fn lemma_names_prefix(
    sources: Seq<Seq<char>>,
    direction: TransferDirection,
    count: int,
    error: ErrorView,
)
    requires
        0 <= count <= sources.len(),
        names_of_sources(sources.take(count), direction) == Err::<Seq<Seq<char>>, ErrorView>(error),
    ensures
        names_of_sources(sources, direction) == Err::<Seq<Seq<char>>, ErrorView>(error),
    decreases sources.len(),
{
    if count < sources.len() {
        assert(sources.drop_last().take(count) =~= sources.take(count));
        lemma_names_prefix(sources.drop_last(), direction, count, error);
    } else {
        assert(sources.take(count) =~= sources);
    }
}

/// The names of the sources of a transfer.
pub fn source_names(sources: &Vec<String>, direction: TransferDirection) -> (r: Result<
    Vec<String>,
    AppError,
>)
    ensures
        error::ends_as(r, names_of_sources(sources.deep_view(), direction)),
{
    let ghost view = sources.deep_view();
    let mut names: Vec<String> = Vec::new();
    let mut i: usize = 0;
    proof {
        assert(view.take(0) =~= Seq::empty());
        assert(names.deep_view() =~= Seq::empty());
    }
    while i < sources.len()
        invariant
            i <= sources@.len(),
            names_of_sources(view.take(i as int), direction) == Ok::<Seq<Seq<char>>, ErrorView>(
                names.deep_view(),
            ),
        decreases sources@.len() - i,
    {
        let ghost done = names.deep_view();
        proof {
            assert(view.take(i + 1).drop_last() =~= view.take(i as int));
            assert(view.take(i + 1).last() == sources@[i as int]@);
        }
        match transfer_source_name(sources[i].as_str(), direction) {
            Some(name) => {
                let ghost one = name@;
                names.push(name);
                assert(names.deep_view() =~= done.push(one));
            },
            None => {
                let message = match direction {
                    TransferDirection::Upload => "无法确定本地对象名称",
                    TransferDirection::Download => "无法确定远端对象名称",
                };
                let error = AppError::sftp("TRANSFER-SCAN-FAILED", message, sources[i].as_str());
                proof {
                    lemma_names_prefix(view, direction, i + 1, error@);
                }
                return Err(error);
            },
        }
        i = i + 1;
    }
    assert(view.take(i as int) =~= view);
    Ok(names)
}

/// A scan of the sources of a transfer.
#[verifier::ext_equal]
pub struct TransferScanView {
    pub direction: TransferDirection,
    pub pending: Seq<PendingSourceView>,
    pub plan: TransferPlanView,
}

/// A plan of nothing.
pub open spec fn empty_plan() -> TransferPlanView {
    TransferPlanView { items: Seq::empty(), files: 0, directories: 0, bytes: 0, skipped: 0 }
}

/// What comes next in a scan.
#[derive(Debug)]
pub enum ScanStep {
    /// The source is looked at.
    Inspect(PendingSource),
    /// Everything was scanned.
    Finish,
    /// The scan is given up.
    Refuse(AppError),
}

/// What a [`ScanStep`] says.
#[verifier::ext_equal]
pub enum ScanStepView {
    Inspect(PendingSourceView),
    Finish,
    Refuse(ErrorView),
}

impl View for ScanStep {
    type V = ScanStepView;

    open spec fn view(&self) -> ScanStepView {
        match self {
            ScanStep::Inspect(source) => ScanStepView::Inspect(source@),
            ScanStep::Finish => ScanStepView::Finish,
            ScanStep::Refuse(error) => ScanStepView::Refuse(error@),
        }
    }
}

/// What is wrong with the paths of a source.
pub open spec fn path_fault(direction: TransferDirection, item: PendingSourceView) -> Option<
    ErrorView,
> {
    match direction {
        TransferDirection::Upload => if text::utf8_len(item.target) > MAX_PATH_BYTES {
            Some(
                error::sftp_error(
                    "TRANSFER-SCAN-FAILED"@,
                    "远端目标路径超过长度限制"@,
                    item.target,
                ),
            )
        } else {
            None
        },
        TransferDirection::Download => if text::utf8_len(item.source) > MAX_PATH_BYTES || text::utf8_len(
            item.target,
        ) > MAX_PATH_BYTES {
            Some(
                error::sftp_error("TRANSFER-SCAN-FAILED"@, "传输路径超过长度限制"@, item.source),
            )
        } else {
            None
        },
    }
}

/// The next source of a scan that is looked at.
pub open spec fn scan_next(scan: TransferScanView, cancelled: bool) -> (
    TransferScanView,
    ScanStepView,
) {
    if scan.pending.len() == 0 {
        (scan, ScanStepView::Finish)
    } else {
        let item = scan.pending.last();
        let after = TransferScanView { pending: scan.pending.drop_last(), ..scan };
        let step = if cancelled {
            ScanStepView::Refuse(transfer_cancelled_error())
        } else if item.depth > MAX_DEPTH || scan.plan.items.len() >= MAX_ENTRIES
            || after.pending.len() > MAX_PENDING {
            ScanStepView::Refuse(
                transfer_limit_error(item.depth as nat, scan.plan.items.len()),
            )
        } else {
            match path_fault(scan.direction, item) {
                Some(error) => ScanStepView::Refuse(error),
                None => ScanStepView::Inspect(item),
            }
        };
        (after, step)
    }
}

/// A sum that stays at the largest number where it is too large.
pub open spec fn saturated(a: u64, b: u64) -> u64 {
    if a + b > u64::MAX {
        u64::MAX
    } else {
        (a + b) as u64
    }
}

/// A plan after a source was looked at.
pub open spec fn plan_after(
    plan: TransferPlanView,
    item: PendingSourceView,
    kind: FoundKind,
    size: u64,
    modified_at: Option<u32>,
) -> TransferPlanView {
    match kind {
        FoundKind::Symlink => TransferPlanView { skipped: (plan.skipped + 1) as u64, ..plan },
        FoundKind::Other => TransferPlanView { skipped: (plan.skipped + 1) as u64, ..plan },
        FoundKind::Directory => TransferPlanView {
            directories: (plan.directories + 1) as u64,
            items: plan.items.push(
                TransferItemView {
                    source: item.source,
                    target: item.target,
                    kind: TransferItemKind::Directory,
                    modified_at,
                },
            ),
            ..plan
        },
        FoundKind::File => TransferPlanView {
            files: (plan.files + 1) as u64,
            bytes: saturated(plan.bytes, size),
            items: plan.items.push(
                TransferItemView {
                    source: item.source,
                    target: item.target,
                    kind: TransferItemKind::File,
                    modified_at,
                },
            ),
            ..plan
        },
    }
}

/// The entries of a local directory, as sources of an upload.
pub open spec fn uploaded_children(
    parent: PendingSourceView,
    children: Seq<FoundChildView>,
) -> Seq<PendingSourceView> {
    Seq::new(
        children.len(),
        |i: int|
            PendingSourceView {
                source: children[i].path,
                target: paths::joined_path(parent.target, children[i].name),
                depth: (parent.depth + 1) as usize,
            },
    )
}

/// The error for an entry that does not lie in the directory that was read.
pub open spec fn child_escape_error(path: Seq<char>) -> ErrorView {
    error::sftp_error("SFTP-PATH-ESCAPE"@, "远端目录返回了根路径以外的对象"@, path)
}

/// The entries of a remote directory, as sources of a download, or the error for
/// the first that does not lie in it.
pub open spec fn downloaded_children(
    parent: PendingSourceView,
    children: Seq<FoundChildView>,
    separator: char,
) -> Result<Seq<PendingSourceView>, ErrorView>
    decreases children.len(),
{
    if children.len() == 0 {
        Ok(Seq::empty())
    } else {
        let last = children.last();
        match downloaded_children(parent, children.drop_last(), separator) {
            Err(error) => Err(error),
            Ok(front) => if !(text::trim_end_of(parent.source, '/') + "/"@).is_prefix_of(last.path) {
                Err(child_escape_error(last.path))
            } else {
                Ok(
                    front.push(
                        PendingSourceView {
                            source: last.path,
                            target: paths::local_child(parent.target, last.name, separator),
                            depth: (parent.depth + 1) as usize,
                        },
                    ),
                )
            },
        }
    }
}

/// A failure among the first entries is the failure of all.
proof fn lemma_children_prefix(
    parent: PendingSourceView,
    children: Seq<FoundChildView>,
    separator: char,
    count: int,
    error: ErrorView,
)
    requires
        0 <= count <= children.len(),
        downloaded_children(parent, children.take(count), separator) == Err::<
            Seq<PendingSourceView>,
            ErrorView,
        >(error),
    ensures
        downloaded_children(parent, children, separator) == Err::<Seq<PendingSourceView>, ErrorView>(error),
    decreases children.len(),
{
    if count < children.len() {
        assert(children.drop_last().take(count) =~= children.take(count));
        lemma_children_prefix(parent, children.drop_last(), separator, count, error);
    } else {
        assert(children.take(count) =~= children);
    }
}

/// The number of items of a kind.
pub open spec fn count_kind(items: Seq<TransferItemView>, kind: TransferItemKind) -> nat
    decreases items.len(),
{
    if items.len() == 0 {
        0
    } else {
        count_kind(items.drop_last(), kind) + (if items.last().kind == kind {
            1nat
        } else {
            0nat
        })
    }
}

/// Whether a plan says how many files and directories it has.
pub open spec fn plan_counts(plan: TransferPlanView) -> bool {
    &&& plan.files == count_kind(plan.items, TransferItemKind::File)
    &&& plan.directories == count_kind(plan.items, TransferItemKind::Directory)
    &&& plan.items.len() <= MAX_ENTRIES
}

/// The items are files and directories.
pub(crate) proof fn lemma_counts(items: Seq<TransferItemView>)
    ensures
        count_kind(items, TransferItemKind::File) + count_kind(items, TransferItemKind::Directory)
            == items.len(),
    decreases items.len(),
{
    if items.len() > 0 {
        lemma_counts(items.drop_last());
    }
}

/// A scan of the sources of a transfer.
pub struct TransferScan {
    direction: TransferDirection,
    pending: Vec<PendingSource>,
    plan: TransferPlan,
}

impl View for TransferScan {
    type V = TransferScanView;

    closed spec fn view(&self) -> TransferScanView {
        TransferScanView {
            direction: self.direction,
            pending: self.pending.deep_view(),
            plan: self.plan@,
        }
    }
}

/// The sources that a scan starts with.
pub open spec fn first_sources(
    sources: Seq<Seq<char>>,
    targets: Seq<Seq<char>>,
) -> Seq<PendingSourceView> {
    Seq::new(
        sources.len(),
        |i: int| PendingSourceView { source: sources[i], target: targets[i], depth: 0 },
    )
}

/// The targets of names in a remote directory.
pub open spec fn joined_paths(directory: Seq<char>, names: Seq<Seq<char>>) -> Seq<Seq<char>> {
    Seq::new(names.len(), |i: int| paths::joined_path(directory, names[i]))
}

/// The targets of names in a local directory.
pub open spec fn local_children(
    directory: Seq<char>,
    names: Seq<Seq<char>>,
    separator: char,
) -> Seq<Seq<char>> {
    Seq::new(names.len(), |i: int| paths::local_child(directory, names[i], separator))
}

impl TransferScan {
    /// The plan counts what it has.
    pub open spec fn wf(self) -> bool {
        plan_counts(self@.plan)
    }

    /// Starts a scan of sources, each with the path that it is written to.
    pub fn start(direction: TransferDirection, sources: &Vec<String>, targets: &Vec<String>) -> (r:
        Self)
        requires
            sources@.len() == targets@.len(),
        ensures
            r.wf(),
            r@ == (TransferScanView {
                direction,
                pending: first_sources(sources.deep_view(), targets.deep_view()),
                plan: empty_plan(),
            }),
    {
        let mut pending: Vec<PendingSource> = Vec::new();
        let mut i: usize = 0;
        while i < sources.len()
            invariant
                i <= sources@.len(),
                pending@.len() == i,
                forall|j: int|
                    0 <= j < i ==> (#[trigger] pending@[j])@ == (PendingSourceView {
                        source: sources@[j]@,
                        target: targets@[j]@,
                        depth: 0,
                    }),
            decreases sources@.len() - i,
        {
            pending.push(
                PendingSource { source: sources[i].clone(), target: targets[i].clone(), depth: 0 },
            );
            i = i + 1;
        }
        let items: Vec<TransferItem> = Vec::new();
        let plan = TransferPlan { items, files: 0, directories: 0, bytes: 0, skipped: 0 };
        let r = TransferScan { direction, pending, plan };
        proof {
            assert(r@.plan.items =~= Seq::empty());
            assert(r@.pending =~= first_sources(sources.deep_view(), targets.deep_view()));
        }
        r
    }

    /// Starts a scan of local sources for an upload to a remote directory.
    pub fn upload(sources: &Vec<String>, directory: &str) -> (r: Result<Self, AppError>)
        ensures
            match names_of_sources(sources.deep_view(), TransferDirection::Upload) {
                Err(error) => error::error_of(r) == Some(error),
                Ok(names) => r matches Ok(scan) && scan.wf() && scan@ == (TransferScanView {
                    direction: TransferDirection::Upload,
                    pending: first_sources(sources.deep_view(), joined_paths(directory@, names)),
                    plan: empty_plan(),
                }),
            },
    {
        let names = match source_names(sources, TransferDirection::Upload) {
            Ok(names) => names,
            Err(error) => {
                return Err(error);
            },
        };
        proof {
            lemma_names_len(sources.deep_view(), TransferDirection::Upload);
        }
        let mut targets: Vec<String> = Vec::new();
        let mut i: usize = 0;
        while i < names.len()
            invariant
                i <= names@.len(),
                targets@.len() == i,
                forall|j: int|
                    0 <= j < i ==> (#[trigger] targets@[j])@ == paths::joined_path(directory@, names@[j]@),
            decreases names@.len() - i,
        {
            targets.push(join_remote_path(directory, names[i].as_str()));
            i = i + 1;
        }
        assert(targets.deep_view() =~= joined_paths(directory@, names.deep_view()));
        Ok(TransferScan::start(TransferDirection::Upload, sources, &targets))
    }

    /// Starts a scan of remote sources for a download to a local directory, with this
    /// separator.
    pub fn download(sources: &Vec<String>, directory: &str, separator: char) -> (r: Result<
        Self,
        AppError,
    >)
        ensures
            match names_of_sources(sources.deep_view(), TransferDirection::Download) {
                Err(error) => error::error_of(r) == Some(error),
                Ok(names) => r matches Ok(scan) && scan.wf() && scan@ == (TransferScanView {
                    direction: TransferDirection::Download,
                    pending: first_sources(
                        sources.deep_view(),
                        local_children(directory@, names, separator),
                    ),
                    plan: empty_plan(),
                }),
            },
    {
        let names = match source_names(sources, TransferDirection::Download) {
            Ok(names) => names,
            Err(error) => {
                return Err(error);
            },
        };
        proof {
            lemma_names_len(sources.deep_view(), TransferDirection::Download);
        }
        let mut targets: Vec<String> = Vec::new();
        let mut i: usize = 0;
        while i < names.len()
            invariant
                i <= names@.len(),
                targets@.len() == i,
                forall|j: int|
                    0 <= j < i ==> (#[trigger] targets@[j])@ == paths::local_child(
                        directory@,
                        names@[j]@,
                        separator,
                    ),
            decreases names@.len() - i,
        {
            targets.push(join_local_path(directory, names[i].as_str(), separator));
            i = i + 1;
        }
        assert(targets.deep_view() =~= local_children(directory@, names.deep_view(), separator));
        Ok(TransferScan::start(TransferDirection::Download, sources, &targets))
    }

    /// The next source that is looked at.
    pub fn next(&mut self, cancelled: bool) -> (r: ScanStep)
        requires
            old(self).wf(),
        ensures
            final(self).wf(),
            (final(self)@, r@) == scan_next(old(self)@, cancelled),
    {
        let ghost before = self@;
        let ghost all = self.pending@;
        match self.pending.pop() {
            None => ScanStep::Finish,
            Some(item) => {
                proof {
                    assert(item == all.last());
                    assert(self.pending.deep_view() =~= before.pending.drop_last()) by {
                        assert forall|j: int| 0 <= j < self.pending@.len() implies (
                        #[trigger] self.pending.deep_view()[j]) == before.pending.drop_last()[j] by {
                            assert(self.pending@[j] == all[j]);
                        }
                    }
                }
                if cancelled {
                    return ScanStep::Refuse(cancelled_error());
                }
                if item.depth > MAX_DEPTH || self.plan.items.len() >= MAX_ENTRIES
                    || self.pending.len() > MAX_PENDING {
                    return ScanStep::Refuse(
                        recursive_limit_error(item.depth, self.plan.items.len()),
                    );
                }
                match self.direction {
                    TransferDirection::Upload => {
                        if byte_len(item.target.as_str()) > MAX_PATH_BYTES {
                            return ScanStep::Refuse(
                                AppError::sftp(
                                    "TRANSFER-SCAN-FAILED",
                                    "远端目标路径超过长度限制",
                                    item.target.as_str(),
                                ),
                            );
                        }
                    },
                    TransferDirection::Download => {
                        if byte_len(item.source.as_str()) > MAX_PATH_BYTES || byte_len(
                            item.target.as_str(),
                        ) > MAX_PATH_BYTES {
                            return ScanStep::Refuse(
                                AppError::sftp(
                                    "TRANSFER-SCAN-FAILED",
                                    "传输路径超过长度限制",
                                    item.source.as_str(),
                                ),
                            );
                        }
                    },
                }
                ScanStep::Inspect(item)
            },
        }
    }

    /// Goes on after a source was looked at. Where it is a directory, its entries
    /// are read next.
    pub fn inspected(
        &mut self,
        item: &PendingSource,
        kind: FoundKind,
        size: u64,
        modified_at: Option<u32>,
    )
        requires
            old(self).wf(),
            old(self)@.plan.items.len() < MAX_ENTRIES,
            old(self)@.plan.skipped < u64::MAX,
        ensures
            final(self).wf(),
            final(self)@ == (TransferScanView {
                plan: plan_after(old(self)@.plan, item@, kind, size, modified_at),
                ..old(self)@
            }),
    {
        let ghost before = self@.plan;
        proof {
            lemma_counts(before.items);
        }
        match kind {
            FoundKind::Symlink => {
                self.plan.skipped = self.plan.skipped + 1;
            },
            FoundKind::Other => {
                self.plan.skipped = self.plan.skipped + 1;
            },
            FoundKind::Directory => {
                self.plan.directories = self.plan.directories + 1;
                let found = TransferItem {
                    source: item.source.clone(),
                    target: item.target.clone(),
                    kind: TransferItemKind::Directory,
                    modified_at,
                };
                let ghost one = found@;
                self.plan.items.push(found);
                assert(self@.plan.items =~= before.items.push(one));
                assert(self@.plan.items.drop_last() =~= before.items);
            },
            FoundKind::File => {
                self.plan.files = self.plan.files + 1;
                self.plan.bytes = match self.plan.bytes.checked_add(size) {
                    Some(bytes) => bytes,
                    None => u64::MAX,
                };
                let found = TransferItem {
                    source: item.source.clone(),
                    target: item.target.clone(),
                    kind: TransferItemKind::File,
                    modified_at,
                };
                let ghost one = found@;
                self.plan.items.push(found);
                assert(self@.plan.items =~= before.items.push(one));
                assert(self@.plan.items.drop_last() =~= before.items);
            },
        }
    }

    /// Goes on after a local directory was read: its entries are uploaded under
    /// their names.
    pub fn listed_upload(&mut self, parent: &PendingSource, children: &Vec<FoundChild>)
        requires
            old(self).wf(),
            parent@.depth <= MAX_DEPTH,
        ensures
            final(self).wf(),
            final(self)@ == (TransferScanView {
                pending: old(self)@.pending + uploaded_children(parent@, children.deep_view()),
                ..old(self)@
            }),
    {
        let ghost before = self@;
        let ghost view = children.deep_view();
        let ghost added = uploaded_children(parent@, view);
        let mut i: usize = 0;
        assert(self@.pending =~= before.pending + added.take(0));
        while i < children.len()
            invariant
                i <= children@.len(),
                self@ == (TransferScanView {
                    pending: before.pending + added.take(i as int),
                    ..before
                }),
            decreases children@.len() - i,
        {
            let ghost now = self@.pending;
            let item = PendingSource {
                source: children[i].path.clone(),
                target: join_remote_path(parent.target.as_str(), children[i].name.as_str()),
                depth: parent.depth + 1,
            };
            let ghost one = item@;
            proof {
                assert(view[i as int] == children@[i as int]@);
                assert(one == added[i as int]);
            }
            self.pending.push(item);
            proof {
                assert(self@.pending =~= now.push(one));
                assert(self@.pending =~= before.pending + added.take(i + 1));
            }
            i = i + 1;
        }
        assert(added.take(i as int) =~= added);
    }

    /// Goes on after a remote directory was read: its entries are downloaded under
    /// their names, with this separator. Where one does not lie in the directory,
    /// the scan is given up.
    pub fn listed_download(
        &mut self,
        parent: &PendingSource,
        children: &Vec<FoundChild>,
        separator: char,
    ) -> (r: Result<(), AppError>)
        requires
            old(self).wf(),
            parent@.depth <= MAX_DEPTH,
        ensures
            final(self).wf(),
            match downloaded_children(parent@, children.deep_view(), separator) {
                Ok(more) => r is Ok && final(self)@ == (TransferScanView {
                    pending: old(self)@.pending + more,
                    ..old(self)@
                }),
                Err(error) => error::error_of(r) == Some(error) && final(self)@ == old(self)@,
            },
    {
        let ghost before = self@;
        let ghost view = children.deep_view();
        let prefix = cat2(without_trailing(parent.source.as_str(), '/').as_str(), "/");
        let mut more: Vec<PendingSource> = Vec::new();
        let mut i: usize = 0;
        proof {
            assert(view.take(0) =~= Seq::empty());
            assert(more.deep_view() =~= Seq::empty());
        }
        while i < children.len()
            invariant
                i <= children@.len(),
                downloaded_children(parent@, view.take(i as int), separator) == Ok::<
                    Seq<PendingSourceView>,
                    ErrorView,
                >(more.deep_view()),
            decreases children@.len() - i,
        {
            let ghost done = more.deep_view();
            proof {
                assert(view.take(i + 1).drop_last() =~= view.take(i as int));
                assert(view.take(i + 1).last() == children@[i as int]@);
            }
            if !starts_with(children[i].path.as_str(), prefix.as_str()) {
                let error = AppError::sftp(
                    "SFTP-PATH-ESCAPE",
                    "远端目录返回了根路径以外的对象",
                    children[i].path.as_str(),
                );
                proof {
                    lemma_children_prefix(parent@, view, separator, i + 1, error@);
                }
                return Err(error);
            }
            let item = PendingSource {
                source: children[i].path.clone(),
                target: join_local_path(
                    parent.target.as_str(),
                    children[i].name.as_str(),
                    separator,
                ),
                depth: parent.depth + 1,
            };
            let ghost one = item@;
            more.push(item);
            assert(more.deep_view() =~= done.push(one));
            i = i + 1;
        }
        assert(view.take(i as int) =~= view);
        let ghost added = more.deep_view();
        self.pending.append(&mut more);
        assert(self@.pending =~= before.pending + added);
        Ok(())
    }

    /// The plan once everything was scanned: the directories come first.
    pub fn finish(self) -> (r: TransferPlan)
        ensures
            plan_sorted(self@.plan, r@),
    {
        let ghost view = self@.plan.items;
        let mut keys: Vec<u64> = Vec::new();
        let mut i: usize = 0;
        while i < self.plan.items.len()
            invariant
                i <= self.plan.items@.len(),
                keys@.len() == i,
                forall|j: int|
                    0 <= j < i ==> #[trigger] keys@[j] == (if view[j].kind
                        == TransferItemKind::Directory {
                        0u64
                    } else {
                        1u64
                    }),
            decreases self.plan.items@.len() - i,
        {
            assert(view[i as int] == self.plan.items@[i as int]@);
            let key: u64 = match self.plan.items[i].kind {
                TransferItemKind::Directory => 0,
                TransferItemKind::File => 1,
            };
            keys.push(key);
            i = i + 1;
        }
        let order = order_of(&keys);
        let items = items_at(&self.plan.items, &order);
        proof {
            let sorted = items.deep_view();
            let less = |a: TransferItemView, b: TransferItemView| directory_before_file(a, b);
            assert forall|i: int, j: int|
                #![trigger keys@[i], keys@[j]]
                0 <= i < keys@.len() && 0 <= j < keys@.len() implies SortKey::less(keys@[i], keys@[j])
                == less(view[i], view[j]) by {}
            sort::lemma_order_sorts(keys@, order@, view, sorted, less);
        }
        TransferPlan {
            items,
            files: self.plan.files,
            directories: self.plan.directories,
            bytes: self.plan.bytes,
            skipped: self.plan.skipped,
        }
    }
}

/// Every source has a name where the names are found.
proof fn lemma_names_len(sources: Seq<Seq<char>>, direction: TransferDirection)
    ensures
        names_of_sources(sources, direction) matches Ok(names) ==> names.len() == sources.len(),
    decreases sources.len(),
{
    if sources.len() > 0 {
        lemma_names_len(sources.drop_last(), direction);
    }
}

/// Whether an item is a directory and another a file.
pub open spec fn directory_before_file(a: TransferItemView, b: TransferItemView) -> bool {
    a.kind == TransferItemKind::Directory && b.kind == TransferItemKind::File
}

/// Whether a plan is another with the directories first.
pub open spec fn plan_sorted(plan: TransferPlanView, sorted: TransferPlanView) -> bool {
    &&& sort::stably_sorted(
        plan.items,
        sorted.items,
        |a: TransferItemView, b: TransferItemView| directory_before_file(a, b),
    )
    &&& sorted == (TransferPlanView { items: sorted.items, ..plan })
}

/// A directory is made before anything is written into it: in a sorted plan no
/// file comes before a directory.
pub proof fn directories_come_first(plan: TransferPlanView, sorted: TransferPlanView, i: int, j: int)
    requires
        plan_sorted(plan, sorted),
        0 <= i < j < sorted.items.len(),
        sorted.items[j].kind == TransferItemKind::Directory,
    ensures
        sorted.items[i].kind == TransferItemKind::Directory,
{
    let less = |a: TransferItemView, b: TransferItemView| directory_before_file(a, b);
    let order = choose|order: Seq<int>| #[trigger] sort::sorts(plan.items, sorted.items, less, order);
    assert(less(sorted.items[i], sorted.items[j]) || !less(sorted.items[j], sorted.items[i]));
}

/// Of two directories, and of two files, the one that was found first comes
/// first.
pub proof fn sorting_keeps_the_order_found(plan: TransferPlanView, sorted: TransferPlanView)
    requires
        plan_sorted(plan, sorted),
    ensures
        exists|order: Seq<int>|
            sort::is_permutation(order) && order.len() == sorted.items.len() && (forall|i: int|
                0 <= i < sorted.items.len() ==> sorted.items[i] == plan.items[#[trigger] order[i]])
                && (forall|i: int, j: int|
                0 <= i < j < sorted.items.len() && sorted.items[i].kind == sorted.items[j].kind
                    ==> #[trigger] order[i] < #[trigger] order[j]),
{
    let less = |a: TransferItemView, b: TransferItemView| directory_before_file(a, b);
    let order = choose|order: Seq<int>| #[trigger] sort::sorts(plan.items, sorted.items, less, order);
    assert forall|i: int, j: int|
        0 <= i < j < sorted.items.len() && sorted.items[i].kind
            == sorted.items[j].kind implies #[trigger] order[i] < #[trigger] order[j] by {
        assert(!less(sorted.items[i], sorted.items[j]));
        assert(less(sorted.items[i], sorted.items[j]) || (!less(sorted.items[j], sorted.items[i])
            && order[i] < order[j]));
    }
}

/// A scan never plans more than is allowed, and only what lies not too deep is
/// looked at.
pub proof fn scan_stays_bounded(scan: TransferScanView, cancelled: bool)
    requires
        plan_counts(scan.plan),
    ensures
        scan_next(scan, cancelled).1 matches ScanStepView::Inspect(item) ==> {
            &&& !cancelled
            &&& item.depth <= MAX_DEPTH
            &&& scan.plan.items.len() < MAX_ENTRIES
            &&& path_fault(scan.direction, item) is None
        },
{
}

/// What is downloaded from a directory lies in it, and where the names are plain, it
/// is written into the directory that stands for it: its target begins with the
/// target of the directory.
pub proof fn downloads_stay_in_directory(
    parent: PendingSourceView,
    children: Seq<FoundChildView>,
    separator: char,
    i: int,
)
    requires
        downloaded_children(parent, children, separator) is Ok,
        0 <= i < children.len(),
    ensures
        ({
            let more = downloaded_children(parent, children, separator)->Ok_0;
            &&& more.len() == children.len()
            &&& more[i].source == children[i].path
            &&& (text::trim_end_of(parent.source, '/') + "/"@).is_prefix_of(children[i].path)
            &&& more[i].target == paths::local_child(parent.target, children[i].name, separator)
            &&& plain_name(children[i].name) ==> parent.target.is_prefix_of(more[i].target)
        }),
    decreases children.len(),
{
    if i < children.len() - 1 {
        downloads_stay_in_directory(parent, children.drop_last(), separator, i);
    } else if children.len() > 1 {
        downloads_stay_in_directory(parent, children.drop_last(), separator, 0);
    }
    if plain_name(children[i].name) {
        paths::local_names_stay_in_directory(parent.target, children[i].name, separator);
    }
}

/// Whether a name names an entry of a local directory: it is no path.
pub open spec fn plain_name(name: Seq<char>) -> bool {
    &&& name.len() > 0
    &&& forall|i: int| 0 <= i < name.len() ==> !paths::is_separator(#[trigger] name[i])
    &&& !paths::has_drive(name)
}

/// A transfer that is asked for waits, as it was asked for: for its session, in its
/// direction, with its sources, its directory and its way to settle conflicts, and with
/// nothing done yet.
pub proof fn transfers_are_queued_as_asked(
    session_id: Seq<char>,
    direction: TransferDirection,
    sources: Seq<Seq<char>>,
    target_directory: Seq<char>,
    conflict_policy: TransferConflictPolicy,
    new_id: Seq<char>,
    now: Seq<char>,
)
    ensures
        ({
            let task = queued_task(
                session_id,
                direction,
                sources,
                target_directory,
                conflict_policy,
                new_id,
                now,
            );
            &&& task.id == new_id
            &&& task.created_at == now
            &&& task.session_id == session_id
            &&& task.direction == direction
            &&& task.sources == sources
            &&& task.target_directory == target_directory
            &&& task.target == target_directory
            &&& task.conflict_policy == conflict_policy
            &&& task.status == TransferStatus::Queued
            &&& sources.len() > 0 ==> task.source == sources[0]
            &&& task.total_bytes is None
            &&& task.transferred_bytes == 0
            &&& task.total_files == 0
            &&& task.total_directories == 0
            &&& task.completed_files == 0
            &&& task.completed_directories == 0
            &&& task.skipped_files == 0
            &&& task.bytes_per_second == 0
            &&& task.elapsed_seconds == 0
            &&& task.current_path is None
            &&& task.error is None
            &&& task.errors.len() == 0
            &&& sources.len() == 1 ==> (paths::source_name(sources[0], direction) matches Some(name)
                ==> task.file_name == name)
            &&& sources.len() != 1 ==> text::decimal(sources.len()).is_prefix_of(task.file_name)
        }),
{
    let task = queued_task(
        session_id,
        direction,
        sources,
        target_directory,
        conflict_policy,
        new_id,
        now,
    );
    let count = text::decimal(sources.len());
    if sources.len() != 1 {
        assert(task.file_name.take(count.len() as int) =~= count);
    }
}

/// Each source gets its own name; it is refused only where one has none.
pub proof fn sources_keep_their_names(
    sources: Seq<Seq<char>>,
    direction: TransferDirection,
)
    ensures
        match names_of_sources(sources, direction) {
            Ok(names) => names.len() == sources.len() && forall|i: int|
                0 <= i < sources.len() ==> paths::source_name(#[trigger] sources[i], direction)
                    == Some(names[i]),
            Err(error) => error.code == "TRANSFER-SCAN-FAILED"@ && exists|i: int|
                0 <= i < sources.len() && paths::source_name(#[trigger] sources[i], direction)
                    is None && error.technical_details == Some(sources[i]),
        },
    decreases sources.len(),
{
    if sources.len() > 0 {
        let front = sources.drop_last();
        sources_keep_their_names(front, direction);
        assert(sources[sources.len() - 1] == sources.last());
        match names_of_sources(front, direction) {
            Ok(names) => {
                if let Ok(all) = names_of_sources(sources, direction) {
                    assert forall|i: int| 0 <= i < sources.len() implies paths::source_name(
                        #[trigger] sources[i],
                        direction,
                    ) == Some(all[i]) by {
                        if i < front.len() {
                            assert(front[i] == sources[i]);
                        }
                    }
                }
            },
            Err(error) => {
                let i = choose|i: int|
                    0 <= i < front.len() && paths::source_name(#[trigger] front[i], direction)
                        is None && error.technical_details == Some(front[i]);
                assert(sources[i] == front[i]);
            },
        }
    }
}

/// A scan is over if and only if nothing is left to look at. Otherwise the source that was
/// put off last is taken: it is refused where the scan was cancelled, where it lies deeper
/// than 64 directories, where a hundred thousand items are planned or ten thousand are put
/// off, or where a path is too long, and looked at in every other case.
pub proof fn scans_look_at_everything(scan: TransferScanView, cancelled: bool)
    ensures
        ({
            let (after, step) = scan_next(scan, cancelled);
            &&& after.plan == scan.plan
            &&& after.direction == scan.direction
            &&& step is Finish <==> scan.pending.len() == 0
            &&& step is Finish ==> after == scan
            &&& scan.pending.len() > 0 ==> {
                let item = scan.pending.last();
                let too_much = item.depth > 64 || scan.plan.items.len() >= 100_000
                    || scan.pending.len() > 10_001;
                &&& after.pending == scan.pending.drop_last()
                &&& step is Refuse <==> cancelled || too_much || path_fault(
                    scan.direction,
                    item,
                ) is Some
                &&& step matches ScanStepView::Inspect(found) ==> found == item
                &&& step matches ScanStepView::Refuse(error) ==> error.code == if cancelled {
                    "TRANSFER-CANCELLED"@
                } else if too_much {
                    "SFTP-RECURSIVE-LIMIT"@
                } else {
                    "TRANSFER-SCAN-FAILED"@
                }
            }
        }),
{
}

/// A path is too long if and only if it has more than 4096 bytes: for an upload the one on
/// the server, for a download either.
pub proof fn long_paths_are_refused(direction: TransferDirection, item: PendingSourceView)
    ensures
        path_fault(direction, item) is Some <==> text::utf8_len(item.target) > 4096 || (direction
            == TransferDirection::Download && text::utf8_len(item.source) > 4096),
        path_fault(direction, item) matches Some(error) ==> error.code == "TRANSFER-SCAN-FAILED"@,
{
}

/// What is found is planned: a file and a directory as the next item, from where it was
/// found to where it goes, and anything else, a link among it, is skipped and counted. The
/// items that were planned before stay.
pub proof fn found_items_are_planned(
    plan: TransferPlanView,
    item: PendingSourceView,
    kind: FoundKind,
    size: u64,
    modified_at: Option<u32>,
)
    requires
        plan.files < u64::MAX,
        plan.directories < u64::MAX,
        plan.skipped < u64::MAX,
    ensures
        ({
            let after = plan_after(plan, item, kind, size, modified_at);
            let planned = kind == FoundKind::File || kind == FoundKind::Directory;
            &&& planned ==> {
                &&& after.items.len() == plan.items.len() + 1
                &&& after.items.drop_last() == plan.items
                &&& after.items.last().source == item.source
                &&& after.items.last().target == item.target
                &&& after.items.last().modified_at == modified_at
                &&& after.items.last().kind == TransferItemKind::File <==> kind == FoundKind::File
                &&& after.skipped == plan.skipped
            }
            &&& !planned ==> after.items == plan.items && after.skipped == plan.skipped + 1
            &&& after.files == plan.files + if kind == FoundKind::File {
                1int
            } else {
                0
            }
            &&& after.directories == plan.directories + if kind == FoundKind::Directory {
                1int
            } else {
                0
            }
            &&& kind == FoundKind::File && plan.bytes + size <= u64::MAX ==> after.bytes
                == plan.bytes + size
            &&& kind == FoundKind::File && plan.bytes + size > u64::MAX ==> after.bytes == u64::MAX
            &&& kind != FoundKind::File ==> after.bytes == plan.bytes
        }),
{
    let after = plan_after(plan, item, kind, size, modified_at);
    if kind == FoundKind::File || kind == FoundKind::Directory {
        assert(after.items.drop_last() =~= plan.items);
    }
}

/// What is uploaded from a directory goes below the directory that stands for it, under
/// its own name, and lies one deeper.
pub proof fn uploads_go_below_their_directory(
    parent: PendingSourceView,
    children: Seq<FoundChildView>,
    i: int,
)
    requires
        0 <= i < children.len(),
        parent.depth < usize::MAX,
    ensures
        ({
            let more = uploaded_children(parent, children);
            &&& more.len() == children.len()
            &&& more[i].source == children[i].path
            &&& more[i].depth == parent.depth + 1
            &&& children[i].name.is_suffix_of(more[i].target)
            &&& text::trim_end_of(parent.target, '/').is_prefix_of(more[i].target)
        }),
{
    let more = uploaded_children(parent, children);
    let (name, target) = (children[i].name, more[i].target);
    let front = text::trim_end_of(parent.target, '/');
    reveal_strlit("/");
    if parent.target == "/"@ {
        reveal_with_fuel(text::trim_end_of, 2);
        assert(front.len() == 0);
    }
    assert(target.skip(target.len() - name.len()) =~= name);
    assert(target.take(front.len() as int) =~= front);
}

/// Each source is looked at once to begin with, goes to its own target, and lies at the top.
pub proof fn scans_begin_with_the_sources(sources: Seq<Seq<char>>, targets: Seq<Seq<char>>, i: int)
    requires
        0 <= i < sources.len(),
        sources.len() == targets.len(),
    ensures
        first_sources(sources, targets).len() == sources.len(),
        first_sources(sources, targets)[i].source == sources[i],
        first_sources(sources, targets)[i].target == targets[i],
        first_sources(sources, targets)[i].depth == 0,
{
}

/// What is downloaded from a directory is refused if and only if something in it lies
/// outside of it; it otherwise lies one deeper than the directory.
pub proof fn escaping_downloads_are_refused(
    parent: PendingSourceView,
    children: Seq<FoundChildView>,
    separator: char,
)
    requires
        parent.depth < usize::MAX,
    ensures
        ({
            let inside = text::trim_end_of(parent.source, '/') + "/"@;
            match downloaded_children(parent, children, separator) {
                Ok(more) => more.len() == children.len() && (forall|i: int|
                    0 <= i < children.len() ==> inside.is_prefix_of((#[trigger] children[i]).path))
                    && (forall|i: int|
                    0 <= i < more.len() ==> (#[trigger] more[i]).depth == parent.depth + 1),
                Err(error) => error.code == "SFTP-PATH-ESCAPE"@ && exists|i: int|
                    0 <= i < children.len() && !inside.is_prefix_of((#[trigger] children[i]).path),
            }
        }),
    decreases children.len(),
{
    if children.len() > 0 {
        let front = children.drop_last();
        escaping_downloads_are_refused(parent, front, separator);
        let inside = text::trim_end_of(parent.source, '/') + "/"@;
        assert(children[children.len() - 1] == children.last());
        match downloaded_children(parent, front, separator) {
            Ok(less) => {
                if let Ok(more) = downloaded_children(parent, children, separator) {
                    assert forall|i: int| 0 <= i < children.len() implies inside.is_prefix_of(
                        (#[trigger] children[i]).path,
                    ) by {
                        if i < front.len() {
                            assert(front[i] == children[i]);
                        }
                    }
                    assert forall|i: int| 0 <= i < more.len() implies (#[trigger] more[i]).depth
                        == parent.depth + 1 by {
                        if i < less.len() {
                            assert(more[i] == less[i]);
                        }
                    }
                }
            },
            Err(_) => {
                let i = choose|i: int|
                    0 <= i < front.len() && !inside.is_prefix_of((#[trigger] front[i]).path);
                assert(children[i] == front[i]);
            },
        }
    }
}

/// The targets of a transfer are its names in the directory, each at its place: on a server
/// they have those names.
pub proof fn targets_are_the_names_in_the_directory(
    directory: Seq<char>,
    names: Seq<Seq<char>>,
    separator: char,
    i: int,
)
    requires
        0 <= i < names.len(),
        plain_name(names[i]),
    ensures
        joined_paths(directory, names).len() == names.len(),
        paths::source_name(joined_paths(directory, names)[i], TransferDirection::Download) == Some(
            names[i],
        ),
        local_children(directory, names, separator).len() == names.len(),
        directory.is_prefix_of(local_children(directory, names, separator)[i]),
        names[i].is_suffix_of(local_children(directory, names, separator)[i]),
{
    let name = names[i];
    assert(!name.contains('/')) by {
        if name.contains('/') {
            let k = choose|k: int| 0 <= k < name.len() && name[k] == '/';
            assert(paths::is_separator(name[k]));
        }
    }
    paths::name_of_joined(directory, name);
    paths::local_names_stay_in_directory(directory, name, separator);
    let whole = local_children(directory, names, separator)[i];
    paths::plain_names_end_their_path(directory, name, separator);
    assert(whole.skip(whole.len() - name.len()) =~= name);
}

} // verus!
