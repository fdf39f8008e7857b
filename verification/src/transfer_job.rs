//! The work of a transfer: what is done with each item, what is done with each
//! file, and how the transfer ends.

#![verifier::loop_isolation(false)]

use crate::error::{self, AppError, ErrorView};
use crate::models::{Duplicate, TransferDirection, TransferStatus, TransferTask, TransferTaskView};
use crate::text::{self, cat2, cat4, decimal_text, same};
use crate::transfer::{
    self, TransferItem, TransferItemKind, TransferItemView, TransferPlan, TransferPlanView,
    cancelled_error,
};
use crate::transfer_files::{self, FileFault, Side, file_failed, target_there};
use crate::transfer_registry;
use vstd::prelude::*;

verus! {

/// The number of failures that a transfer reports.
pub const MAX_REPORTED_ERRORS: usize = 20;

/// The number of bytes that are read at a time.
pub const CHUNK_BYTES: usize = 131_072;

// ---------------------------------------------------------------------------
// One file
// ---------------------------------------------------------------------------

/// How far the transfer of a file has come.
#[verifier::ext_equal]
pub enum FileStepView {
    /// The source is opened.
    Open,
    /// The caller says whether the target exists.
    Check,
    /// The file that is written first is made.
    Create,
    /// The source is copied into it.
    Copy,
    /// It is put in the place of the target.
    Replace,
    /// It is removed, since it was not copied whole.
    DropPart { error: ErrorView },
    /// It is removed, since it could not be put in place.
    DropWhole { error: ErrorView },
    /// The file was transferred.
    Finished,
    /// It was not.
    Failed { error: ErrorView },
}

/// What came of what the caller did. `Found` answers whether the target exists.
#[derive(Debug)]
pub enum FileEvent {
    Found(bool),
    Done,
    Failed(AppError),
}

/// What a [`FileEvent`] says.
#[verifier::ext_equal]
pub enum FileEventView {
    Found(bool),
    Done,
    Failed(ErrorView),
}

impl View for FileEvent {
    type V = FileEventView;

    open spec fn view(&self) -> FileEventView {
        match self {
            FileEvent::Found(there) => FileEventView::Found(*there),
            FileEvent::Done => FileEventView::Done,
            FileEvent::Failed(error) => FileEventView::Failed(error@),
        }
    }
}

/// The side on which a transfer writes.
pub open spec fn target_side(direction: TransferDirection) -> Side {
    match direction {
        TransferDirection::Upload => Side::Remote,
        TransferDirection::Download => Side::Local,
    }
}

/// The side on which a transfer writes.
pub fn side_of(direction: TransferDirection) -> (r: Side)
    ensures
        r == target_side(direction),
{
    match direction {
        TransferDirection::Upload => Side::Remote,
        TransferDirection::Download => Side::Local,
    }
}

/// The first step. A download looks for its target before anything else, an upload
/// once its source is open; neither does where the target may be overwritten.
pub open spec fn first_step(direction: TransferDirection, overwrite: bool) -> FileStepView {
    if direction == TransferDirection::Download && !overwrite {
        FileStepView::Check
    } else {
        FileStepView::Open
    }
}

/// What a file that could not be removed is called on a side.
pub open spec fn part_fault(direction: TransferDirection) -> FileFault {
    match direction {
        TransferDirection::Upload => FileFault::RemoveRemotePart,
        TransferDirection::Download => FileFault::RemoveLocalPart,
    }
}

/// Whether an event answers a step.
pub open spec fn file_event_fits(step: FileStepView, event: FileEventView) -> bool {
    event is Failed || (event is Found <==> step is Check)
}

/// The step after the caller did what was asked.
pub open spec fn file_after(
    step: FileStepView,
    direction: TransferDirection,
    target: Seq<char>,
    overwrite: bool,
    event: FileEventView,
) -> FileStepView {
    match (step, event) {
        (FileStepView::Finished, _) => step,
        (FileStepView::Failed { .. }, _) => step,
        (FileStepView::Copy, FileEventView::Failed(error)) => FileStepView::DropPart { error },
        (FileStepView::Replace, FileEventView::Failed(error)) => FileStepView::DropWhole { error },
        (FileStepView::DropWhole { error }, _) => FileStepView::Failed { error },
        (_, FileEventView::Failed(error)) => FileStepView::Failed { error },
        (FileStepView::DropPart { error }, _) => FileStepView::Failed { error },
        (FileStepView::Check, FileEventView::Found(there)) => if there {
            FileStepView::Failed { error: transfer_files::target_there_error(target_side(direction), target) }
        } else if direction == TransferDirection::Upload {
            FileStepView::Create
        } else {
            FileStepView::Open
        },
        (FileStepView::Check, _) => step,
        (FileStepView::Open, _) => if direction == TransferDirection::Upload && !overwrite {
            FileStepView::Check
        } else {
            FileStepView::Create
        },
        (FileStepView::Create, _) => FileStepView::Copy,
        (FileStepView::Copy, _) => FileStepView::Replace,
        (FileStepView::Replace, _) => FileStepView::Finished,
    }
}

/// How far the transfer of a file has come.
#[derive(Debug)]
pub enum FileStep {
    Open,
    Check,
    Create,
    Copy,
    Replace,
    DropPart { error: AppError },
    DropWhole { error: AppError },
    Finished,
    Failed { error: AppError },
}

impl View for FileStep {
    type V = FileStepView;

    open spec fn view(&self) -> FileStepView {
        match self {
            FileStep::Open => FileStepView::Open,
            FileStep::Check => FileStepView::Check,
            FileStep::Create => FileStepView::Create,
            FileStep::Copy => FileStepView::Copy,
            FileStep::Replace => FileStepView::Replace,
            FileStep::DropPart { error } => FileStepView::DropPart { error: error@ },
            FileStep::DropWhole { error } => FileStepView::DropWhole { error: error@ },
            FileStep::Finished => FileStepView::Finished,
            FileStep::Failed { error } => FileStepView::Failed { error: error@ },
        }
    }
}

/// The transfer of a file.
pub struct FileTransfer {
    direction: TransferDirection,
    target: String,
    overwrite: bool,
    step: FileStep,
}

impl View for FileTransfer {
    type V = FileStepView;

    closed spec fn view(&self) -> FileStepView {
        self.step@
    }
}

impl FileTransfer {
    /// Whether the file is read here or there.
    pub closed spec fn direction(self) -> TransferDirection {
        self.direction
    }

    /// Where it is written.
    pub closed spec fn target(self) -> Seq<char> {
        self.target@
    }

    /// Whether a target that exists is replaced.
    pub closed spec fn overwrite(self) -> bool {
        self.overwrite
    }

    /// Starts the transfer of a file.
    pub fn new(direction: TransferDirection, target: &str, overwrite: bool) -> (r: Self)
        ensures
            r.direction() == direction,
            r.target() == target@,
            r.overwrite() == overwrite,
            r@ == first_step(direction, overwrite),
    {
        let step = if direction == TransferDirection::Download && !overwrite {
            FileStep::Check
        } else {
            FileStep::Open
        };
        FileTransfer { direction, target: target.to_owned(), overwrite, step }
    }

    /// What the caller does next.
    pub fn step(&self) -> (r: &FileStep)
        ensures
            r@ == self@,
    {
        &self.step
    }

    /// Goes on after the caller did what was asked.
    pub fn advance(&mut self, event: FileEvent)
        requires
            file_event_fits(old(self)@, event@),
        ensures
            final(self).direction() == old(self).direction(),
            final(self).target() == old(self).target(),
            final(self).overwrite() == old(self).overwrite(),
            final(self)@ == file_after(
                old(self)@,
                old(self).direction(),
                old(self).target(),
                old(self).overwrite(),
                event@,
            ),
    {
        let next = match (&self.step, event) {
            (FileStep::Finished, _) => FileStep::Finished,
            (FileStep::Failed { error }, _) => FileStep::Failed { error: error.duplicate() },
            (FileStep::Copy, FileEvent::Failed(error)) => FileStep::DropPart { error },
            (FileStep::Replace, FileEvent::Failed(error)) => FileStep::DropWhole { error },
            (FileStep::DropWhole { error }, _) => FileStep::Failed { error: error.duplicate() },
            (_, FileEvent::Failed(error)) => FileStep::Failed { error },
            (FileStep::DropPart { error }, _) => FileStep::Failed { error: error.duplicate() },
            (FileStep::Check, FileEvent::Found(there)) => {
                if there {
                    FileStep::Failed {
                        error: target_there(side_of(self.direction), self.target.as_str()),
                    }
                } else if self.direction == TransferDirection::Upload {
                    FileStep::Create
                } else {
                    FileStep::Open
                }
            },
            (FileStep::Check, _) => FileStep::Check,
            (FileStep::Open, _) => {
                if self.direction == TransferDirection::Upload && !self.overwrite {
                    FileStep::Check
                } else {
                    FileStep::Create
                }
            },
            (FileStep::Create, _) => FileStep::Copy,
            (FileStep::Copy, _) => FileStep::Replace,
            (FileStep::Replace, _) => FileStep::Finished,
        };
        self.step = next;
    }

    /// The error for a file that was not copied whole and could not be removed.
    pub fn part_stays(&self, reason: &str) -> (r: AppError)
        ensures
            r@ == transfer_files::fault_error(part_fault(self.direction()), reason@),
    {
        match self.direction {
            TransferDirection::Upload => file_failed(FileFault::RemoveRemotePart, reason),
            TransferDirection::Download => file_failed(FileFault::RemoveLocalPart, reason),
        }
    }

    /// Whether the file was transferred, once nothing is left to do.
    pub fn outcome(self) -> (r: Option<Result<(), AppError>>)
        ensures
            match r {
                None => !(self@ is Finished) && !(self@ is Failed),
                Some(Ok(())) => self@ is Finished,
                Some(Err(error)) => self@ == (FileStepView::Failed { error: error@ }),
            },
    {
        match self.step {
            FileStep::Finished => Some(Ok(())),
            FileStep::Failed { error } => Some(Err(error)),
            _ => None,
        }
    }
}

/// A file counts as transferred only once it was copied whole and put in place,
/// and whatever fails after the file that is written first was made, that file is
/// removed before the transfer fails.
pub proof fn transferred_files_are_whole(
    step: FileStepView,
    direction: TransferDirection,
    target: Seq<char>,
    overwrite: bool,
    event: FileEventView,
)
    ensures
        file_after(step, direction, target, overwrite, event) is Finished ==> step is Finished || (
        step is Replace && !(event is Failed)),
        file_after(step, direction, target, overwrite, event) is Replace ==> step is Copy && !(
        event is Failed),
        file_after(step, direction, target, overwrite, event) is Failed ==> !(step is Copy) && !(
        step is Replace),
{
}

/// Counts bytes that were copied.
pub fn count_bytes(task: &mut TransferTask, count: usize)
    requires
        old(task)@.transferred_bytes + count <= u64::MAX,
    ensures
        final(task)@ == (TransferTaskView {
            transferred_bytes: (old(task)@.transferred_bytes + count) as u64,
            ..old(task)@
        }),
{
    task.transferred_bytes = task.transferred_bytes + count as u64;
}

// ---------------------------------------------------------------------------
// All items
// ---------------------------------------------------------------------------

/// The work of a transfer: its task, its items, the number of those that are dealt
/// with, and whether the next one was begun.
#[verifier::ext_equal]
pub struct TransferJobView {
    pub task: TransferTaskView,
    pub items: Seq<TransferItemView>,
    pub at: int,
    pub begun: bool,
}

/// A task whose work begins.
pub open spec fn running_task(task: TransferTaskView, plan: TransferPlanView) -> TransferTaskView {
    TransferTaskView {
        total_files: plan.files,
        total_directories: plan.directories,
        total_bytes: Some(plan.bytes),
        skipped_files: plan.skipped,
        status: TransferStatus::Running,
        ..task
    }
}

/// What is done with an item.
#[derive(Debug)]
pub enum JobStep {
    /// A directory is made at the target.
    MakeDirectory(TransferItem),
    /// A file is written, under the name that is chosen for the target.
    WriteFile(TransferItem),
    /// Everything is done.
    Finish,
    /// The work is given up.
    Refuse(AppError),
}

/// What a [`JobStep`] says.
#[verifier::ext_equal]
pub enum JobStepView {
    MakeDirectory(TransferItemView),
    WriteFile(TransferItemView),
    Finish,
    Refuse(ErrorView),
}

impl View for JobStep {
    type V = JobStepView;

    open spec fn view(&self) -> JobStepView {
        match self {
            JobStep::MakeDirectory(item) => JobStepView::MakeDirectory(item@),
            JobStep::WriteFile(item) => JobStepView::WriteFile(item@),
            JobStep::Finish => JobStepView::Finish,
            JobStep::Refuse(error) => JobStepView::Refuse(error@),
        }
    }
}

/// The next item of the work.
pub open spec fn job_next(job: TransferJobView, cancelled: bool) -> (TransferJobView, JobStepView) {
    if job.at >= job.items.len() {
        (job, JobStepView::Finish)
    } else if cancelled {
        (job, JobStepView::Refuse(transfer::transfer_cancelled_error()))
    } else {
        let item = job.items[job.at];
        (
            TransferJobView {
                task: TransferTaskView {
                    current_path: Some(item.source),
                    source: item.source,
                    target: item.target,
                    ..job.task
                },
                begun: true,
                ..job
            },
            match item.kind {
                TransferItemKind::Directory => JobStepView::MakeDirectory(item),
                TransferItemKind::File => JobStepView::WriteFile(item),
            },
        )
    }
}

/// What is done with a file once a name was chosen for it: the work goes on with
/// the name, or passes the file over, or is given up.
pub open spec fn job_chosen(
    job: TransferJobView,
    choice: Result<Option<Seq<char>>, ErrorView>,
) -> Result<(TransferJobView, bool), ErrorView> {
    match choice {
        Err(error) => Err(error),
        Ok(Some(target)) => Ok(
            (
                TransferJobView { task: TransferTaskView { target, ..job.task }, ..job },
                true,
            ),
        ),
        Ok(None) => Ok(
            (
                TransferJobView {
                    task: TransferTaskView {
                        skipped_files: (job.task.skipped_files + 1) as u64,
                        ..job.task
                    },
                    at: job.at + 1,
                    begun: false,
                    ..job
                },
                false,
            ),
        ),
    }
}

/// Whether an error says that the transfer was cancelled.
pub open spec fn is_cancellation(error: ErrorView) -> bool {
    error.code == "TRANSFER-CANCELLED"@
}

/// The failure of an item, as it is reported.
pub open spec fn item_report(item: TransferItemView, error: ErrorView) -> Seq<char> {
    item.source + " ["@ + error.code + "]: "@ + error.message
}

/// A task after an item was dealt with.
pub open spec fn task_after_item(
    task: TransferTaskView,
    item: TransferItemView,
    failure: Option<ErrorView>,
    elapsed: u64,
) -> TransferTaskView {
    let counted = match failure {
        None => match item.kind {
            TransferItemKind::Directory => TransferTaskView {
                completed_directories: (task.completed_directories + 1) as u64,
                ..task
            },
            TransferItemKind::File => TransferTaskView {
                completed_files: (task.completed_files + 1) as u64,
                ..task
            },
        },
        Some(error) => if task.errors.len() < MAX_REPORTED_ERRORS {
            TransferTaskView { errors: task.errors.push(item_report(item, error)), ..task }
        } else {
            task
        },
    };
    TransferTaskView { elapsed_seconds: elapsed, ..counted }
}

/// The work after an item was dealt with. A failure is reported and the work goes
/// on, but for a cancellation, which ends it.
pub open spec fn job_item_done(job: TransferJobView, failure: Option<ErrorView>, elapsed: u64) -> Result<
    TransferJobView,
    ErrorView,
> {
    match failure {
        Some(error) => if is_cancellation(error) {
            Err(error)
        } else {
            Ok(
                TransferJobView {
                    task: task_after_item(job.task, job.items[job.at], failure, elapsed),
                    at: job.at + 1,
                    begun: false,
                    ..job
                },
            )
        },
        None => Ok(
            TransferJobView {
                task: task_after_item(job.task, job.items[job.at], failure, elapsed),
                at: job.at + 1,
                begun: false,
                ..job
            },
        ),
    }
}

/// The work of a transfer.
pub struct TransferJob {
    task: TransferTask,
    items: Vec<TransferItem>,
    at: usize,
    begun: bool,
}

impl View for TransferJob {
    type V = TransferJobView;

    closed spec fn view(&self) -> TransferJobView {
        TransferJobView {
            task: self.task@,
            items: self.items.deep_view(),
            at: self.at as int,
            begun: self.begun,
        }
    }
}

impl TransferJob {
    /// The counts of the task fit the number of items that were dealt with.
    pub open spec fn wf(self) -> bool {
        &&& 0 <= self@.at <= self@.items.len() <= u64::MAX
        &&& self@.begun ==> self@.at < self@.items.len()
        &&& self@.task.completed_files <= self@.at
        &&& self@.task.completed_directories <= self@.at
        &&& self@.task.skipped_files + (self@.items.len() - self@.at) <= u64::MAX
        &&& self@.task.errors.len() <= MAX_REPORTED_ERRORS
    }

    /// Begins the work on a plan.
    pub fn new(task: TransferTask, plan: TransferPlan) -> (r: Self)
        requires
            task@.completed_files == 0,
            task@.completed_directories == 0,
            task@.errors.len() == 0,
            plan@.skipped + plan@.items.len() <= u64::MAX,
        ensures
            r.wf(),
            r@ == (TransferJobView {
                task: running_task(task@, plan@),
                items: plan@.items,
                at: 0,
                begun: false,
            }),
    {
        let mut task = task;
        task.total_files = plan.files;
        task.total_directories = plan.directories;
        task.total_bytes = Some(plan.bytes);
        task.skipped_files = plan.skipped;
        task.status = TransferStatus::Running;
        TransferJob { task, items: plan.items, at: 0, begun: false }
    }

    /// The task, as it stands.
    pub fn task(&self) -> (r: &TransferTask)
        ensures
            r@ == self@.task,
    {
        &self.task
    }

    /// Counts bytes that were copied.
    pub fn count_bytes(&mut self, count: usize)
        requires
            old(self).wf(),
            old(self)@.task.transferred_bytes + count <= u64::MAX,
        ensures
            final(self).wf(),
            final(self)@ == (TransferJobView {
                task: TransferTaskView {
                    transferred_bytes: (old(self)@.task.transferred_bytes + count) as u64,
                    ..old(self)@.task
                },
                ..old(self)@
            }),
    {
        count_bytes(&mut self.task, count);
    }

    /// Sets the speed of the transfer, as it is measured.
    pub fn set_speed(&mut self, bytes_per_second: u64)
        requires
            old(self).wf(),
        ensures
            final(self).wf(),
            final(self)@ == (TransferJobView {
                task: TransferTaskView { bytes_per_second, ..old(self)@.task },
                ..old(self)@
            }),
    {
        self.task.bytes_per_second = bytes_per_second;
    }

    /// The next item.
    pub fn next(&mut self, cancelled: bool) -> (r: JobStep)
        requires
            old(self).wf(),
            !old(self)@.begun,
        ensures
            final(self).wf(),
            (final(self)@, r@) == job_next(old(self)@, cancelled),
    {
        if self.at >= self.items.len() {
            return JobStep::Finish;
        }
        if cancelled {
            return JobStep::Refuse(cancelled_error());
        }
        let item = self.items[self.at].duplicate();
        assert(item@ == self@.items[self@.at]);
        self.task.current_path = Some(item.source.clone());
        self.task.source = item.source.clone();
        self.task.target = item.target.clone();
        self.begun = true;
        match item.kind {
            TransferItemKind::Directory => JobStep::MakeDirectory(item),
            TransferItemKind::File => JobStep::WriteFile(item),
        }
    }

    /// Goes on after a name was chosen for a file. It says whether the file is
    /// written.
    pub fn chosen(&mut self, choice: Result<Option<String>, AppError>) -> (r: Result<
        bool,
        AppError,
    >)
        requires
            old(self).wf(),
            old(self)@.begun,
        ensures
            final(self).wf(),
            match job_chosen(
                old(self)@,
                match choice {
                    Ok(target) => Ok(target.deep_view()),
                    Err(error) => Err(error@),
                },
            ) {
                Ok((after, written)) => r == Ok::<bool, AppError>(written) && final(self)@ == after,
                Err(error) => error::error_of(r) == Some(error) && final(self)@ == old(self)@,
            },
    {
        match choice {
            Err(error) => Err(error),
            Ok(Some(target)) => {
                self.task.target = target;
                Ok(true)
            },
            Ok(None) => {
                self.task.skipped_files = self.task.skipped_files + 1;
                assert(self.at < self.items.len());
                self.at = self.at + 1;
                self.begun = false;
                Ok(false)
            },
        }
    }

    /// Goes on after an item was dealt with.
    pub fn item_done(&mut self, result: Result<(), AppError>, elapsed: u64) -> (r: Result<
        (),
        AppError,
    >)
        requires
            old(self).wf(),
            old(self)@.begun,
        ensures
            final(self).wf(),
            match job_item_done(old(self)@, error::error_of(result), elapsed) {
                Ok(after) => r is Ok && final(self)@ == after,
                Err(error) => error::error_of(r) == Some(error) && final(self)@ == old(self)@,
            },
    {
        let ghost item = self@.items[self@.at];
        let ghost errors = self@.task.errors;
        match result {
            Ok(()) => {
                match self.items[self.at].kind {
                    TransferItemKind::Directory => {
                        self.task.completed_directories = self.task.completed_directories + 1;
                    },
                    TransferItemKind::File => {
                        self.task.completed_files = self.task.completed_files + 1;
                    },
                }
            },
            Err(error) => {
                if same(error.code, "TRANSFER-CANCELLED") {
                    return Err(error);
                }
                if self.task.errors.len() < MAX_REPORTED_ERRORS {
                    let mut report = cat4(
                        self.items[self.at].source.as_str(),
                        " [",
                        error.code,
                        "]: ",
                    );
                    report.append(error.message.as_str());
                    let ghost one = report@;
                    self.task.errors.push(report);
                    assert(self@.task.errors =~= errors.push(one));
                }
            },
        }
        self.task.elapsed_seconds = elapsed;
        assert(self.at < self.items.len());
        self.at = self.at + 1;
        self.begun = false;
        Ok(())
    }

    /// The task, once the work is over.
    pub fn into_task(self) -> (r: TransferTask)
        ensures
            r@ == self@.task,
    {
        self.task
    }
}

/// A task whose sources are scanned.
pub fn begin_scanning(task: &mut TransferTask)
    ensures
        final(task)@ == (TransferTaskView { status: TransferStatus::Scanning, ..old(task)@ }),
{
    task.status = TransferStatus::Scanning;
}

/// A task that was cancelled before its turn came.
pub fn cancel_queued(task: &mut TransferTask)
    ensures
        final(task)@ == (TransferTaskView { status: TransferStatus::Cancelled, ..old(task)@ }),
{
    task.status = TransferStatus::Cancelled;
}

/// A task once its work is over.
pub open spec fn ended_task(task: TransferTaskView, failure: Option<ErrorView>, elapsed: u64) -> TransferTaskView {
    let ended = match failure {
        None => if task.errors.len() == 0 {
            TransferTaskView { status: TransferStatus::Completed, ..task }
        } else {
            TransferTaskView {
                status: TransferStatus::Failed,
                error: Some(text::decimal(task.errors.len()) + " 个项目失败"@),
                ..task
            }
        },
        Some(error) => if is_cancellation(error) {
            TransferTaskView { status: TransferStatus::Cancelled, ..task }
        } else {
            TransferTaskView {
                status: TransferStatus::Failed,
                error: Some(error.message),
                ..task
            }
        },
    };
    TransferTaskView { current_path: None, elapsed_seconds: elapsed, ..ended }
}

/// Ends a task whose work is over.
pub fn end_transfer(task: &mut TransferTask, result: Result<(), AppError>, elapsed: u64)
    ensures
        final(task)@ == ended_task(old(task)@, error::error_of(result), elapsed),
{
    match result {
        Ok(()) => {
            if task.errors.len() == 0 {
                task.status = TransferStatus::Completed;
            } else {
                task.status = TransferStatus::Failed;
                task.error = Some(
                    cat2(decimal_text(task.errors.len() as u64).as_str(), " 个项目失败"),
                );
            }
        },
        Err(error) => {
            if same(error.code, "TRANSFER-CANCELLED") {
                task.status = TransferStatus::Cancelled;
            } else {
                task.status = TransferStatus::Failed;
                task.error = Some(error.message);
            }
        },
    }
    task.current_path = None;
    task.elapsed_seconds = elapsed;
}

/// The name of a direction in a report.
pub open spec fn direction_name(direction: TransferDirection) -> Seq<char> {
    match direction {
        TransferDirection::Upload => "Upload"@,
        TransferDirection::Download => "Download"@,
    }
}

/// The name of a status in a report.
pub open spec fn status_name(status: TransferStatus) -> Seq<char> {
    match status {
        TransferStatus::Queued => "Queued"@,
        TransferStatus::Scanning => "Scanning"@,
        TransferStatus::Running => "Running"@,
        TransferStatus::Completed => "Completed"@,
        TransferStatus::Failed => "Failed"@,
        TransferStatus::Cancelled => "Cancelled"@,
    }
}

/// What is written to the diagnostic log about a transfer.
pub fn transfer_report(task: &TransferTask) -> (r: String)
    ensures
        r@ == "session="@ + task@.session_id + " direction="@ + direction_name(task@.direction)
            + " status="@ + status_name(task@.status) + " bytes="@ + text::decimal(
            task@.transferred_bytes as nat,
        ),
{
    let direction = match task.direction {
        TransferDirection::Upload => "Upload",
        TransferDirection::Download => "Download",
    };
    let status = match task.status {
        TransferStatus::Queued => "Queued",
        TransferStatus::Scanning => "Scanning",
        TransferStatus::Running => "Running",
        TransferStatus::Completed => "Completed",
        TransferStatus::Failed => "Failed",
        TransferStatus::Cancelled => "Cancelled",
    };
    let mut r = cat4("session=", task.session_id.as_str(), " direction=", direction);
    r.append(" status=");
    r.append(status);
    r.append(" bytes=");
    r.append(decimal_text(task.transferred_bytes).as_str());
    r
}

/// A transfer ends as completed only where its work was done and no item failed;
/// it ends as cancelled only where it was; and it never ends as one that still
/// runs.
pub proof fn completed_transfers_had_no_failure(
    task: TransferTaskView,
    failure: Option<ErrorView>,
    elapsed: u64,
)
    ensures
        ({
            let ended = ended_task(task, failure, elapsed);
            &&& ended.status == TransferStatus::Completed <==> failure is None && task.errors.len()
                == 0
            &&& ended.status == TransferStatus::Cancelled <==> (failure matches Some(error)
                && is_cancellation(error))
            &&& !transfer_registry::is_active_task(ended.status)
            &&& ended.status == TransferStatus::Failed ==> ended.error is Some
        }),
{
}

/// Every item that was dealt with is counted once: as completed, as passed over,
/// or as a failure.
pub proof fn items_are_counted_once(
    job: TransferJobView,
    failure: Option<ErrorView>,
    elapsed: u64,
)
    requires
        0 <= job.at < job.items.len(),
        job.task.completed_files < u64::MAX,
        job.task.completed_directories < u64::MAX,
        job.task.errors.len() <= MAX_REPORTED_ERRORS,
    ensures
        job_item_done(job, failure, elapsed) matches Ok(after) ==> {
            &&& after.at == job.at + 1
            &&& failure is None ==> after.task.completed_files + after.task.completed_directories
                == job.task.completed_files + job.task.completed_directories + 1
                && after.task.errors == job.task.errors
            &&& failure is Some ==> after.task.completed_files == job.task.completed_files
                && after.task.completed_directories == job.task.completed_directories
                && after.task.errors.len() > 0
            &&& after.task.errors.len() <= MAX_REPORTED_ERRORS
        },
{
}

// ---------------------------------------------------------------------------
// Laws of one file
// ---------------------------------------------------------------------------

/// The step at which a transfer is after these answers.
pub open spec fn file_run(
    direction: TransferDirection,
    target: Seq<char>,
    overwrite: bool,
    events: Seq<FileEventView>,
) -> FileStepView
    decreases events.len(),
{
    if events.len() == 0 {
        first_step(direction, overwrite)
    } else {
        file_after(
            file_run(direction, target, overwrite, events.drop_last()),
            direction,
            target,
            overwrite,
            events.last(),
        )
    }
}

/// Whether each answer is one to the step that was asked for.
pub open spec fn file_answers(
    direction: TransferDirection,
    target: Seq<char>,
    overwrite: bool,
    events: Seq<FileEventView>,
) -> bool {
    forall|i: int|
        0 <= i < events.len() ==> file_event_fits(
            file_run(direction, target, overwrite, events.take(i)),
            #[trigger] events[i],
        )
}

/// One more answer takes a transfer one step further.
proof fn lemma_last_answer(
    direction: TransferDirection,
    target: Seq<char>,
    overwrite: bool,
    events: Seq<FileEventView>,
)
    requires
        file_answers(direction, target, overwrite, events),
        events.len() > 0,
    ensures
        file_answers(direction, target, overwrite, events.drop_last()),
        file_event_fits(
            file_run(direction, target, overwrite, events.drop_last()),
            events.last(),
        ),
        forall|i: int|
            0 <= i < events.len() ==> #[trigger] events.drop_last().take(i) == events.take(i),
        events.take(events.len() - 1) == events.drop_last(),
{
    let front = events.drop_last();
    let n = front.len() as int;
    assert forall|i: int| 0 <= i < events.len() implies #[trigger] front.take(i) == events.take(
        i,
    ) by {
        assert(front.take(i) =~= events.take(i));
    }
    assert forall|i: int| 0 <= i < front.len() implies file_event_fits(
        file_run(direction, target, overwrite, front.take(i)),
        #[trigger] front[i],
    ) by {
        assert(front[i] == events[i]);
        assert(front.take(i) == events.take(i));
    }
    assert(events.take(n) =~= front);
    assert(file_event_fits(file_run(direction, target, overwrite, events.take(n)), events[n]));
}

/// Where the target may be overwritten it is never looked for, in either direction,
/// whatever the answers are: such a transfer fails only with an error that the caller
/// handed in.
pub proof fn overwriting_never_looks_for_the_target(
    direction: TransferDirection,
    target: Seq<char>,
    events: Seq<FileEventView>,
)
    ensures
        !(file_run(direction, target, true, events) is Check),
        match file_run(direction, target, true, events) {
            FileStepView::Failed { error }
            | FileStepView::DropPart { error }
            | FileStepView::DropWhole { error } => events.contains(FileEventView::Failed(error)),
            _ => true,
        },
    decreases events.len(),
{
    if events.len() > 0 {
        let front = events.drop_last();
        overwriting_never_looks_for_the_target(direction, target, front);
        assert forall|e: FileEventView| front.contains(e) implies events.contains(e) by {
            let i = choose|i: int| 0 <= i < front.len() && front[i] == e;
            assert(events[i] == e);
        }
        assert(events[events.len() - 1] == events.last());
    }
}

/// A transfer whose every step succeeds goes through its steps in order and ends with
/// the file in place. Where the target may be overwritten nothing is looked for;
/// otherwise a download looks for it first and an upload once the source is open.
pub proof fn successes_lead_to_the_end(
    direction: TransferDirection,
    target: Seq<char>,
    overwrite: bool,
    events: Seq<FileEventView>,
    steps: Seq<FileStepView>,
)
    requires
        file_answers(direction, target, overwrite, events),
        forall|i: int|
            0 <= i < events.len() ==> (#[trigger] events[i]) is Done || events[i]
                == FileEventView::Found(false),
        steps == (if overwrite {
            seq![
                FileStepView::Open,
                FileStepView::Create,
                FileStepView::Copy,
                FileStepView::Replace,
                FileStepView::Finished,
            ]
        } else if direction == TransferDirection::Upload {
            seq![
                FileStepView::Open,
                FileStepView::Check,
                FileStepView::Create,
                FileStepView::Copy,
                FileStepView::Replace,
                FileStepView::Finished,
            ]
        } else {
            seq![
                FileStepView::Check,
                FileStepView::Open,
                FileStepView::Create,
                FileStepView::Copy,
                FileStepView::Replace,
                FileStepView::Finished,
            ]
        }),
    ensures
        events.len() < steps.len() ==> file_run(direction, target, overwrite, events)
            == steps[events.len() as int],
        events.len() >= steps.len() ==> file_run(direction, target, overwrite, events) is Finished,
    decreases events.len(),
{
    if events.len() > 0 {
        let front = events.drop_last();
        lemma_last_answer(direction, target, overwrite, events);
        assert forall|i: int| 0 <= i < front.len() implies (#[trigger] front[i]) is Done || front[i]
            == FileEventView::Found(false) by {
            assert(front[i] == events[i]);
        }
        successes_lead_to_the_end(direction, target, overwrite, front, steps);
        let before = file_run(direction, target, overwrite, front);
        assert(events.last() == events[events.len() - 1]);
        lemma_success(direction, target, overwrite, before, events.last());
    }
}

/// What comes after a step that succeeded.
proof fn lemma_success(
    direction: TransferDirection,
    target: Seq<char>,
    overwrite: bool,
    step: FileStepView,
    event: FileEventView,
)
    requires
        file_event_fits(step, event),
        event is Done || event == FileEventView::Found(false),
    ensures
        ({
            let after = file_after(step, direction, target, overwrite, event);
            let upload = direction == TransferDirection::Upload;
            match step {
                FileStepView::Open => after == if upload && !overwrite {
                    FileStepView::Check
                } else {
                    FileStepView::Create
                },
                FileStepView::Check => after == if upload {
                    FileStepView::Create
                } else {
                    FileStepView::Open
                },
                FileStepView::Create => after is Copy,
                FileStepView::Copy => after is Replace,
                FileStepView::Replace => after is Finished,
                _ => true,
            }
        }),
{
}

/// Whether a transfer that looks for its target has done so.
spec fn looked(direction: TransferDirection, step: FileStepView) -> bool {
    match step {
        FileStepView::Check => false,
        FileStepView::Open => direction == TransferDirection::Download,
        _ => true,
    }
}

/// A target that must not be overwritten is looked for at most once, and a file is made
/// and put in its place only once it was found not to be there. Where it is there the
/// transfer fails at once, and says so.
pub proof fn other_targets_are_looked_for_once(
    direction: TransferDirection,
    target: Seq<char>,
    events: Seq<FileEventView>,
)
    requires
        file_answers(direction, target, false, events),
    ensures
        match file_run(direction, target, false, events) {
            FileStepView::Create
            | FileStepView::Copy
            | FileStepView::Replace
            | FileStepView::DropPart { .. }
            | FileStepView::DropWhole { .. }
            | FileStepView::Finished => exists|i: int|
                0 <= i < events.len() && file_run(direction, target, false, events.take(i))
                    is Check && #[trigger] events[i] == FileEventView::Found(false),
            _ => true,
        },
        forall|i: int|
            0 <= i < events.len() && file_run(direction, target, false, #[trigger] events.take(i))
                is Check ==> !(file_run(direction, target, false, events) is Check),
        events.len() > 0 && events.last() == FileEventView::Found(true) && file_run(
            direction,
            target,
            false,
            events.drop_last(),
        ) is Check ==> {
            let end = file_run(direction, target, false, events);
            end matches FileStepView::Failed { error } && error.code == "TRANSFER-TARGET-EXISTS"@
        },
{
    let step = file_run(direction, target, false, events);
    if looked(direction, step) && !(step is Failed) {
        lemma_looked_for(direction, target, events);
    }
    assert forall|i: int|
        0 <= i < events.len() && file_run(
            direction,
            target,
            false,
            #[trigger] events.take(i),
        ) is Check implies !(step is Check) by {
        lemma_looked_once(direction, target, events, i);
    }
}

/// Looking is done once and for all, and a file is made only after it.
proof fn lemma_looking(
    direction: TransferDirection,
    target: Seq<char>,
    step: FileStepView,
    event: FileEventView,
)
    requires
        file_event_fits(step, event),
    ensures
        ({
            let after = file_after(step, direction, target, false, event);
            &&& looked(direction, step) ==> looked(direction, after)
            &&& step is Check ==> looked(direction, after)
            &&& looked(direction, after) && !(after is Failed) ==> (looked(direction, step) && !(
            step is Failed)) || (step is Check && event == FileEventView::Found(false))
        }),
{
}

/// A file that must not overwrite its target is made only once the target was looked
/// for.
proof fn lemma_looked_for(
    direction: TransferDirection,
    target: Seq<char>,
    events: Seq<FileEventView>,
)
    requires
        file_answers(direction, target, false, events),
        looked(direction, file_run(direction, target, false, events)),
        !(file_run(direction, target, false, events) is Failed),
    ensures
        exists|i: int|
            0 <= i < events.len() && file_run(direction, target, false, events.take(i)) is Check
                && #[trigger] events[i] == FileEventView::Found(false),
    decreases events.len(),
{
    if events.len() > 0 {
        let front = events.drop_last();
        lemma_last_answer(direction, target, false, events);
        let before = file_run(direction, target, false, front);
        lemma_looking(direction, target, before, events.last());
        if looked(direction, before) && !(before is Failed) {
            lemma_looked_for(direction, target, front);
            let i = choose|i: int|
                0 <= i < front.len() && file_run(direction, target, false, front.take(i)) is Check
                    && #[trigger] front[i] == FileEventView::Found(false);
            assert(front.take(i) == events.take(i));
            assert(events[i] == front[i]);
        } else {
            assert(events[events.len() - 1] == events.last());
        }
    }
}

/// Once a target was looked for it is not looked for again.
proof fn lemma_looked_once(
    direction: TransferDirection,
    target: Seq<char>,
    events: Seq<FileEventView>,
    i: int,
)
    requires
        file_answers(direction, target, false, events),
        0 <= i < events.len(),
        file_run(direction, target, false, events.take(i)) is Check,
    ensures
        looked(direction, file_run(direction, target, false, events)),
    decreases events.len(),
{
    let front = events.drop_last();
    lemma_last_answer(direction, target, false, events);
    lemma_looking(direction, target, file_run(direction, target, false, front), events.last());
    if i < front.len() {
        assert(front.take(i) == events.take(i));
        lemma_looked_once(direction, target, front, i);
    }
}

/// A transfer of which a step fails fails with the error of that step. One that fails
/// before anything was written fails at once; one that fails later first has what it
/// wrote removed. Where a file that was not copied whole cannot be removed, the transfer
/// fails with that error.
pub proof fn failures_are_told(
    step: FileStepView,
    direction: TransferDirection,
    target: Seq<char>,
    overwrite: bool,
    error: ErrorView,
    next: FileEventView,
)
    ensures
        ({
            let failed = FileEventView::Failed(error);
            let after = file_after(step, direction, target, overwrite, failed);
            let then = file_after(after, direction, target, overwrite, next);
            match step {
                FileStepView::Open | FileStepView::Check | FileStepView::Create => after == (
                FileStepView::Failed { error }),
                FileStepView::Copy => after == (FileStepView::DropPart { error }) && then == (
                FileStepView::Failed {
                    error: match next {
                        FileEventView::Failed(later) => later,
                        _ => error,
                    },
                }),
                FileStepView::Replace => after == (FileStepView::DropWhole { error }) && then == (
                FileStepView::Failed { error }),
                FileStepView::Finished | FileStepView::Failed { .. } => after == step && then
                    == step,
                _ => true,
            }
        }),
{
}

/// Uploads are written on the server, downloads here.
pub proof fn transfers_are_written_on_the_other_side(direction: TransferDirection)
    ensures
        target_side(direction) == Side::Remote <==> direction == TransferDirection::Upload,
        target_side(direction) == Side::Local <==> direction == TransferDirection::Download,
        part_fault(direction) == FileFault::RemoveRemotePart <==> direction
            == TransferDirection::Upload,
        part_fault(direction) == FileFault::RemoveLocalPart <==> direction
            == TransferDirection::Download,
{
}

// ---------------------------------------------------------------------------
// Laws of all items
// ---------------------------------------------------------------------------

/// Whether two tasks are one and the same: what was asked for is the same in both.
pub open spec fn same_request(a: TransferTaskView, b: TransferTaskView) -> bool {
    &&& a.id == b.id
    &&& a.created_at == b.created_at
    &&& a.session_id == b.session_id
    &&& a.file_name == b.file_name
    &&& a.direction == b.direction
    &&& a.sources == b.sources
    &&& a.target_directory == b.target_directory
    &&& a.conflict_policy == b.conflict_policy
}

/// Once everything was scanned the task runs and tells how much there is to do; nothing
/// of it is done yet.
pub proof fn scanned_totals_are_told(task: TransferTaskView, plan: TransferPlanView)
    ensures
        ({
            let after = running_task(task, plan);
            &&& same_request(after, task)
            &&& after.status == TransferStatus::Running
            &&& after.total_files == plan.files
            &&& after.total_directories == plan.directories
            &&& after.total_bytes == Some(plan.bytes)
            &&& after.skipped_files == plan.skipped
            &&& after.completed_files == task.completed_files
            &&& after.completed_directories == task.completed_directories
            &&& after.transferred_bytes == task.transferred_bytes
            &&& after.errors == task.errors
            &&& after.error == task.error
        }),
{
}

/// The items are dealt with one after the other: the work is over if and only if none is
/// left, it is refused if and only if one is left and the task was cancelled, and
/// otherwise the next item is made if it is a directory and written if it is a file, and
/// the task tells which it is.
pub proof fn items_are_dealt_with_in_order(job: TransferJobView, cancelled: bool)
    requires
        0 <= job.at <= job.items.len(),
    ensures
        ({
            let (after, step) = job_next(job, cancelled);
            &&& after.items == job.items
            &&& after.at == job.at
            &&& same_request(after.task, job.task)
            &&& after.task.status == job.task.status
            &&& after.task.errors == job.task.errors
            &&& after.task.completed_files == job.task.completed_files
            &&& after.task.completed_directories == job.task.completed_directories
            &&& after.task.skipped_files == job.task.skipped_files
            &&& step is Finish <==> job.at == job.items.len()
            &&& step is Refuse <==> job.at < job.items.len() && cancelled
            &&& step matches JobStepView::Refuse(error) ==> error.code == "TRANSFER-CANCELLED"@
                && is_cancellation(error)
            &&& step matches JobStepView::MakeDirectory(item) ==> item == job.items[job.at]
                && item.kind == TransferItemKind::Directory
            &&& step matches JobStepView::WriteFile(item) ==> item == job.items[job.at]
                && item.kind == TransferItemKind::File
            &&& step is MakeDirectory || step is WriteFile ==> {
                &&& after.begun
                &&& after.task.current_path == Some(job.items[job.at].source)
                &&& after.task.source == job.items[job.at].source
                &&& after.task.target == job.items[job.at].target
            }
        }),
{
}

/// A name that was chosen is the one that is written; an item that is to be skipped is
/// counted as skipped, is not written, and the next one comes; and where no name could be
/// chosen the work says why.
pub proof fn choices_are_followed(
    job: TransferJobView,
    choice: Result<Option<Seq<char>>, ErrorView>,
)
    requires
        job.task.skipped_files < u64::MAX,
    ensures
        match (choice, job_chosen(job, choice)) {
            (Err(error), Err(told)) => told == error,
            (Ok(Some(target)), Ok((after, written))) => {
                &&& written
                &&& after.at == job.at
                &&& after.items == job.items
                &&& after.begun == job.begun
                &&& after.task == (TransferTaskView { target, ..job.task })
            },
            (Ok(None), Ok((after, written))) => {
                &&& !written
                &&& after.at == job.at + 1
                &&& after.items == job.items
                &&& !after.begun
                &&& after.task.skipped_files == job.task.skipped_files + 1
                &&& after.task == (TransferTaskView {
                    skipped_files: after.task.skipped_files,
                    ..job.task
                })
            },
            _ => false,
        },
{
}

/// A cancellation ends the work; no other failure does. An item that was dealt with counts
/// by its kind where it succeeded, and is reported by its source and what went wrong where
/// it did not, as long as there is room for reports.
pub proof fn failed_items_are_reported(
    job: TransferJobView,
    failure: Option<ErrorView>,
    elapsed: u64,
)
    requires
        0 <= job.at < job.items.len(),
        job.task.completed_files < u64::MAX,
        job.task.completed_directories < u64::MAX,
    ensures
        ({
            let item = job.items[job.at];
            match job_item_done(job, failure, elapsed) {
                Err(error) => failure == Some(error) && error.code == "TRANSFER-CANCELLED"@,
                Ok(after) => {
                    &&& !(failure matches Some(error) && error.code == "TRANSFER-CANCELLED"@)
                    &&& same_request(after.task, job.task)
                    &&& after.items == job.items
                    &&& after.at == job.at + 1
                    &&& !after.begun
                    &&& after.task.elapsed_seconds == elapsed
                    &&& after.task.status == job.task.status
                    &&& after.task.skipped_files == job.task.skipped_files
                    &&& after.task.transferred_bytes == job.task.transferred_bytes
                    &&& after.task.completed_files == job.task.completed_files + if failure is None
                        && item.kind == TransferItemKind::File {
                        1int
                    } else {
                        0
                    }
                    &&& after.task.completed_directories == job.task.completed_directories
                        + if failure is None && item.kind == TransferItemKind::Directory {
                        1int
                    } else {
                        0
                    }
                    &&& failure matches Some(error) ==> if job.task.errors.len() < 20 {
                        &&& after.task.errors.len() == job.task.errors.len() + 1
                        &&& after.task.errors.drop_last() == job.task.errors
                        &&& item.source.is_prefix_of(after.task.errors.last())
                        &&& error.message.is_suffix_of(after.task.errors.last())
                        &&& after.task.errors.last() == item.source + " ["@ + error.code + "]: "@
                            + error.message
                    } else {
                        after.task.errors == job.task.errors
                    }
                    &&& failure is None ==> after.task.errors == job.task.errors
                },
            }
        }),
{
    if let (Some(error), Ok(after)) = (failure, job_item_done(job, failure, elapsed)) {
        let item = job.items[job.at];
        if job.task.errors.len() < 20 {
            let report = after.task.errors.last();
            assert(after.task.errors.drop_last() =~= job.task.errors);
            assert(report.take(item.source.len() as int) =~= item.source);
            assert(report.skip(report.len() - error.message.len()) =~= error.message);
        }
    }
}

/// A task that has ended is the one that ran, with all that was counted: it tells no
/// current path, how long it took, and where it failed, what went wrong or how many items
/// did.
pub proof fn ended_tasks_tell_what_happened(
    task: TransferTaskView,
    failure: Option<ErrorView>,
    elapsed: u64,
)
    ensures
        ({
            let after = ended_task(task, failure, elapsed);
            &&& same_request(after, task)
            &&& after.current_path is None
            &&& after.elapsed_seconds == elapsed
            &&& after.errors == task.errors
            &&& after.transferred_bytes == task.transferred_bytes
            &&& after.total_bytes == task.total_bytes
            &&& after.total_files == task.total_files
            &&& after.total_directories == task.total_directories
            &&& after.completed_files == task.completed_files
            &&& after.completed_directories == task.completed_directories
            &&& after.skipped_files == task.skipped_files
            &&& after.source == task.source
            &&& after.target == task.target
            &&& match failure {
                None => if task.errors.len() == 0 {
                    after.status == TransferStatus::Completed && after.error == task.error
                } else {
                    after.status == TransferStatus::Failed && (after.error matches Some(text)
                        && text::decimal(task.errors.len()).is_prefix_of(text))
                },
                Some(error) => if error.code == "TRANSFER-CANCELLED"@ {
                    after.status == TransferStatus::Cancelled && after.error == task.error
                } else {
                    after.status == TransferStatus::Failed && after.error == Some(error.message)
                },
            }
        }),
{
    let after = ended_task(task, failure, elapsed);
    if failure is None && task.errors.len() > 0 {
        let count = text::decimal(task.errors.len());
        assert(after.error->0.take(count.len() as int) =~= count);
    }
}

} // verus!
