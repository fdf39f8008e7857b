//! The files that a transfer writes: what can fail, which name is written, and how
//! a file is put in the place of another.

#![verifier::loop_isolation(false)]

use crate::error::{self, AppError, ErrorView};
use crate::models::{Duplicate, RemoteEntryKind, TransferConflictPolicy};
use crate::paths::{self, backup_local_path, backup_remote_path, conflict_name};
use crate::text::{cat3, clone_text};
use crate::transfer::MAX_CONFLICT_NAMES;
use vstd::prelude::*;

verus! {

// ---------------------------------------------------------------------------
// Faults
// ---------------------------------------------------------------------------

/// What failed on one of the two sides of a transfer.
#[derive(Clone, Copy, Debug, PartialEq, Eq, Structural)]
pub enum FileFault {
    /// Looking at a local source.
    ScanLocal,
    /// Reading a local directory.
    ReadLocalDirectory,
    /// Reading an entry of a local directory.
    ReadLocalEntry,
    /// Making a local directory.
    MakeLocalDirectory,
    /// Looking for a local target.
    CheckLocal,
    /// Opening a local source.
    OpenLocal,
    /// Reading what is known of a local source.
    InspectLocal,
    /// Reading a local source.
    ReadLocal,
    /// Making the local file that is written first.
    CreateLocal,
    /// Writing a local file.
    WriteLocal,
    /// Moving a local target away.
    BackupLocal,
    /// Putting a local file in place.
    InstallLocal,
    /// Removing the local file that was moved away.
    RemoveLocalBackup,
    /// Removing the local file that was written first.
    RemoveLocalPart,
    /// Setting the time of a local file.
    SetLocalTime,
    /// Running the work that sets the time of a local file.
    RunLocalTime,
    /// Reading a remote source.
    ReadRemote,
    /// Writing a remote file.
    WriteRemote,
    /// Putting a remote file in place.
    InstallRemote,
    /// Removing the remote file that was moved away.
    RemoveRemoteBackup,
    /// Removing the remote file that was written first.
    RemoveRemotePart,
    /// Anything else that a server refused.
    Remote,
}

/// The code and the message of a failure.
pub open spec fn fault_text(fault: FileFault) -> (Seq<char>, Seq<char>) {
    match fault {
        FileFault::ScanLocal => ("TRANSFER-SCAN-FAILED"@, "无法扫描本地对象"@),
        FileFault::ReadLocalDirectory => ("TRANSFER-SCAN-FAILED"@, "无法读取本地目录"@),
        FileFault::ReadLocalEntry => ("TRANSFER-SCAN-FAILED"@, "无法扫描本地目录"@),
        FileFault::MakeLocalDirectory => ("LOCAL-WRITE-FAILED"@, "无法创建本地目录"@),
        FileFault::CheckLocal => ("LOCAL-WRITE-FAILED"@, "无法检查本地目标"@),
        FileFault::OpenLocal => ("LOCAL-READ-FAILED"@, "无法读取本地文件"@),
        FileFault::InspectLocal => ("LOCAL-READ-FAILED"@, "无法读取本地文件信息"@),
        FileFault::ReadLocal => ("LOCAL-READ-FAILED"@, "读取本地文件失败"@),
        FileFault::CreateLocal => ("LOCAL-WRITE-FAILED"@, "无法创建本地临时文件"@),
        FileFault::WriteLocal => ("LOCAL-WRITE-FAILED"@, "写入本地文件失败"@),
        FileFault::BackupLocal => ("LOCAL-WRITE-FAILED"@, "无法备份本地目标文件"@),
        FileFault::InstallLocal => (
            "TRANSFER-ATOMIC-REPLACE-FAILED"@,
            "无法原子替换本地目标文件"@,
        ),
        FileFault::RemoveLocalBackup => (
            "TRANSFER-TEMP-CLEANUP-FAILED"@,
            "无法清理本地备份文件"@,
        ),
        FileFault::RemoveLocalPart => (
            "TRANSFER-TEMP-CLEANUP-FAILED"@,
            "传输失败且无法清理本地临时文件"@,
        ),
        FileFault::SetLocalTime => ("LOCAL-WRITE-FAILED"@, "无法恢复本地文件修改时间"@),
        FileFault::RunLocalTime => ("LOCAL-WRITE-FAILED"@, "本地文件时间恢复任务失败"@),
        FileFault::ReadRemote => ("SFTP-READ-FAILED"@, "读取远端文件失败"@),
        FileFault::WriteRemote => ("SFTP-WRITE-FAILED"@, "写入远端文件失败"@),
        FileFault::InstallRemote => (
            "TRANSFER-ATOMIC-REPLACE-FAILED"@,
            "无法原子替换远端目标文件"@,
        ),
        FileFault::RemoveRemoteBackup => (
            "TRANSFER-TEMP-CLEANUP-FAILED"@,
            "无法清理远端备份文件"@,
        ),
        FileFault::RemoveRemotePart => (
            "TRANSFER-TEMP-CLEANUP-FAILED"@,
            "传输失败且无法清理远端临时文件"@,
        ),
        FileFault::Remote => ("SFTP-BROWSE-FAILED"@, "无法读取远端目录"@),
    }
}

/// The error for a failure.
pub open spec fn fault_error(fault: FileFault, reason: Seq<char>) -> ErrorView {
    error::sftp_error(fault_text(fault).0, fault_text(fault).1, reason)
}

/// The error for a failure.
pub fn file_failed(fault: FileFault, reason: &str) -> (r: AppError)
    ensures
        r@ == fault_error(fault, reason@),
{
    match fault {
        FileFault::ScanLocal => AppError::sftp("TRANSFER-SCAN-FAILED", "无法扫描本地对象", reason),
        FileFault::ReadLocalDirectory => AppError::sftp(
            "TRANSFER-SCAN-FAILED",
            "无法读取本地目录",
            reason,
        ),
        FileFault::ReadLocalEntry => AppError::sftp(
            "TRANSFER-SCAN-FAILED",
            "无法扫描本地目录",
            reason,
        ),
        FileFault::MakeLocalDirectory => AppError::sftp(
            "LOCAL-WRITE-FAILED",
            "无法创建本地目录",
            reason,
        ),
        FileFault::CheckLocal => AppError::sftp("LOCAL-WRITE-FAILED", "无法检查本地目标", reason),
        FileFault::OpenLocal => AppError::sftp("LOCAL-READ-FAILED", "无法读取本地文件", reason),
        FileFault::InspectLocal => AppError::sftp(
            "LOCAL-READ-FAILED",
            "无法读取本地文件信息",
            reason,
        ),
        FileFault::ReadLocal => AppError::sftp("LOCAL-READ-FAILED", "读取本地文件失败", reason),
        FileFault::CreateLocal => AppError::sftp(
            "LOCAL-WRITE-FAILED",
            "无法创建本地临时文件",
            reason,
        ),
        FileFault::WriteLocal => AppError::sftp("LOCAL-WRITE-FAILED", "写入本地文件失败", reason),
        FileFault::BackupLocal => AppError::sftp(
            "LOCAL-WRITE-FAILED",
            "无法备份本地目标文件",
            reason,
        ),
        FileFault::InstallLocal => AppError::sftp(
            "TRANSFER-ATOMIC-REPLACE-FAILED",
            "无法原子替换本地目标文件",
            reason,
        ),
        FileFault::RemoveLocalBackup => AppError::sftp(
            "TRANSFER-TEMP-CLEANUP-FAILED",
            "无法清理本地备份文件",
            reason,
        ),
        FileFault::RemoveLocalPart => AppError::sftp(
            "TRANSFER-TEMP-CLEANUP-FAILED",
            "传输失败且无法清理本地临时文件",
            reason,
        ),
        FileFault::SetLocalTime => AppError::sftp(
            "LOCAL-WRITE-FAILED",
            "无法恢复本地文件修改时间",
            reason,
        ),
        FileFault::RunLocalTime => AppError::sftp(
            "LOCAL-WRITE-FAILED",
            "本地文件时间恢复任务失败",
            reason,
        ),
        FileFault::ReadRemote => AppError::sftp("SFTP-READ-FAILED", "读取远端文件失败", reason),
        FileFault::WriteRemote => AppError::sftp("SFTP-WRITE-FAILED", "写入远端文件失败", reason),
        FileFault::InstallRemote => AppError::sftp(
            "TRANSFER-ATOMIC-REPLACE-FAILED",
            "无法原子替换远端目标文件",
            reason,
        ),
        FileFault::RemoveRemoteBackup => AppError::sftp(
            "TRANSFER-TEMP-CLEANUP-FAILED",
            "无法清理远端备份文件",
            reason,
        ),
        FileFault::RemoveRemotePart => AppError::sftp(
            "TRANSFER-TEMP-CLEANUP-FAILED",
            "传输失败且无法清理远端临时文件",
            reason,
        ),
        FileFault::Remote => AppError::sftp("SFTP-BROWSE-FAILED", "无法读取远端目录", reason),
    }
}

/// The error for a local source that could not be scanned.
pub fn scan_failed(fault: FileFault, source: &str, reason: &str) -> (r: AppError)
    ensures
        r@ == fault_error(fault, source@ + ": "@ + reason@),
{
    file_failed(fault, cat3(source, ": ", reason).as_str())
}

/// The seconds of a time of change, where a file can carry them.
pub fn modified_timestamp(seconds: u64) -> (r: Option<u32>)
    ensures
        r == (if seconds <= u32::MAX {
            Some(seconds as u32)
        } else {
            None
        }),
{
    if seconds <= u32::MAX as u64 {
        Some(seconds as u32)
    } else {
        None
    }
}

// ---------------------------------------------------------------------------
// Names
// ---------------------------------------------------------------------------

/// The side on which a file is written.
#[derive(Clone, Copy, Debug, PartialEq, Eq, Structural)]
pub enum Side {
    Local,
    Remote,
}

/// The error for a target that exists.
pub open spec fn conflict_error(target: Seq<char>) -> ErrorView {
    error::sftp_error(
        "TRANSFER-CONFLICT"@,
        "目标已存在，请选择覆盖、跳过或自动重命名"@,
        target,
    )
}

/// The error where every name that is tried exists.
pub open spec fn names_exhausted_error(side: Side, target: Seq<char>) -> ErrorView {
    match side {
        Side::Local => conflict_error(target),
        Side::Remote => error::sftp_error("TRANSFER-CONFLICT"@, "无法生成无冲突名称"@, target),
    }
}

/// How far the choice of a name has come.
#[verifier::ext_equal]
pub enum ChoiceView {
    /// The caller says whether the target exists.
    Target,
    /// The caller says whether the name with this number exists.
    Name(nat),
    /// The name was chosen; without one, nothing is written.
    Chosen(Option<Seq<char>>),
    /// No name could be chosen.
    Failed(ErrorView),
}

/// The choice after the caller said whether the path that was asked about exists.
pub open spec fn choice_after(
    choice: ChoiceView,
    side: Side,
    target: Seq<char>,
    policy: TransferConflictPolicy,
    exists_already: bool,
) -> ChoiceView {
    match choice {
        ChoiceView::Target => if !exists_already || policy == TransferConflictPolicy::Overwrite {
            ChoiceView::Chosen(Some(target))
        } else if policy == TransferConflictPolicy::Skip {
            ChoiceView::Chosen(None)
        } else if policy == TransferConflictPolicy::Rename {
            ChoiceView::Name(1)
        } else {
            ChoiceView::Failed(conflict_error(target))
        },
        ChoiceView::Name(index) => if !exists_already {
            ChoiceView::Chosen(Some(paths::conflict_path(target, index)))
        } else if index < MAX_CONFLICT_NAMES {
            ChoiceView::Name(index + 1)
        } else {
            ChoiceView::Failed(names_exhausted_error(side, target))
        },
        _ => choice,
    }
}

/// The path that the caller is asked about.
pub open spec fn choice_path(choice: ChoiceView, target: Seq<char>) -> Option<Seq<char>> {
    match choice {
        ChoiceView::Target => Some(target),
        ChoiceView::Name(index) => Some(paths::conflict_path(target, index)),
        _ => None,
    }
}

/// How far the choice of a name has come.
#[derive(Debug)]
enum Choice {
    Target,
    Name(usize),
    Chosen(Option<String>),
    Failed(AppError),
}

/// The choice of the name under which a file is written.
pub struct ConflictChoice {
    side: Side,
    target: String,
    policy: TransferConflictPolicy,
    choice: Choice,
}

impl View for ConflictChoice {
    type V = ChoiceView;

    closed spec fn view(&self) -> ChoiceView {
        match self.choice {
            Choice::Target => ChoiceView::Target,
            Choice::Name(index) => ChoiceView::Name(index as nat),
            Choice::Chosen(name) => ChoiceView::Chosen(name.deep_view()),
            Choice::Failed(error) => ChoiceView::Failed(error@),
        }
    }
}

impl ConflictChoice {
    /// The side on which the file is written.
    pub closed spec fn side(self) -> Side {
        self.side
    }

    /// The path that was asked for.
    pub closed spec fn target(self) -> Seq<char> {
        self.target@
    }

    /// What is done where it exists.
    pub closed spec fn policy(self) -> TransferConflictPolicy {
        self.policy
    }

    /// Not too many names are tried.
    pub closed spec fn wf(self) -> bool {
        self.choice matches Choice::Name(index) ==> 1 <= index <= MAX_CONFLICT_NAMES
    }

    /// Starts to choose a name.
    pub fn new(side: Side, target: &str, policy: TransferConflictPolicy) -> (r: Self)
        ensures
            r.wf(),
            r.side() == side,
            r.target() == target@,
            r.policy() == policy,
            r@ == ChoiceView::Target,
    {
        ConflictChoice { side, target: target.to_owned(), policy, choice: Choice::Target }
    }

    /// The path of which the caller says next whether it exists.
    pub fn asks(&self) -> (r: Option<String>)
        ensures
            r.deep_view() == choice_path(self@, self.target()),
    {
        match &self.choice {
            Choice::Target => Some(self.target.clone()),
            Choice::Name(index) => Some(conflict_name(self.target.as_str(), *index)),
            Choice::Chosen(_) => None,
            Choice::Failed(_) => None,
        }
    }

    /// The error for a target that exists.
    fn conflict(&self) -> (r: AppError)
        ensures
            r@ == conflict_error(self.target()),
    {
        AppError::sftp(
            "TRANSFER-CONFLICT",
            "目标已存在，请选择覆盖、跳过或自动重命名",
            self.target.as_str(),
        )
    }

    /// Goes on after the caller said whether the path exists.
    pub fn answer(&mut self, exists_already: bool)
        requires
            old(self).wf(),
        ensures
            final(self).wf(),
            final(self).side() == old(self).side(),
            final(self).target() == old(self).target(),
            final(self).policy() == old(self).policy(),
            final(self)@ == choice_after(
                old(self)@,
                old(self).side(),
                old(self).target(),
                old(self).policy(),
                exists_already,
            ),
    {
        let next = match &self.choice {
            Choice::Target => {
                if !exists_already || self.policy == TransferConflictPolicy::Overwrite {
                    Choice::Chosen(Some(self.target.clone()))
                } else if self.policy == TransferConflictPolicy::Skip {
                    Choice::Chosen(None)
                } else if self.policy == TransferConflictPolicy::Rename {
                    Choice::Name(1)
                } else {
                    Choice::Failed(self.conflict())
                }
            },
            Choice::Name(index) => {
                if !exists_already {
                    Choice::Chosen(Some(conflict_name(self.target.as_str(), *index)))
                } else if *index < MAX_CONFLICT_NAMES {
                    Choice::Name(*index + 1)
                } else {
                    match self.side {
                        Side::Local => Choice::Failed(self.conflict()),
                        Side::Remote => Choice::Failed(
                            AppError::sftp(
                                "TRANSFER-CONFLICT",
                                "无法生成无冲突名称",
                                self.target.as_str(),
                            ),
                        ),
                    }
                }
            },
            Choice::Chosen(name) => Choice::Chosen(clone_text(name)),
            Choice::Failed(error) => Choice::Failed(error.duplicate()),
        };
        self.choice = next;
    }

    /// The name, once it is chosen.
    pub fn outcome(self) -> (r: Option<Result<Option<String>, AppError>>)
        ensures
            match r {
                None => choice_path(self@, self.target()) is Some,
                Some(Ok(name)) => self@ == ChoiceView::Chosen(name.deep_view()),
                Some(Err(error)) => self@ == ChoiceView::Failed(error@),
            },
    {
        match self.choice {
            Choice::Chosen(name) => Some(Ok(name)),
            Choice::Failed(error) => Some(Err(error)),
            _ => None,
        }
    }
}

/// Where the choice of a name ends, given which paths exist.
pub open spec fn choice_end(
    choice: ChoiceView,
    side: Side,
    target: Seq<char>,
    policy: TransferConflictPolicy,
    there: spec_fn(Seq<char>) -> bool,
) -> ChoiceView
    decreases
            (match choice {
                ChoiceView::Target => MAX_CONFLICT_NAMES + 2,
                ChoiceView::Name(index) => if index <= MAX_CONFLICT_NAMES {
                    MAX_CONFLICT_NAMES + 1 - index
                } else {
                    1int
                },
                _ => 0int,
            }),
{
    match choice_path(choice, target) {
        None => choice,
        Some(path) => choice_end(
            choice_after(choice, side, target, policy, there(path)),
            side,
            target,
            policy,
            there,
        ),
    }
}

/// Trying one name after the other ends with the first that is free.
proof fn lemma_names_tried(
    from: nat,
    side: Side,
    target: Seq<char>,
    there: spec_fn(Seq<char>) -> bool,
)
    requires
        1 <= from <= MAX_CONFLICT_NAMES,
    ensures
        ({
            let end = choice_end(
                ChoiceView::Name(from),
                side,
                target,
                TransferConflictPolicy::Rename,
                there,
            );
            match end {
                ChoiceView::Chosen(Some(name)) => exists|index: nat|
                    from <= index <= MAX_CONFLICT_NAMES && name == #[trigger] paths::conflict_path(
                        target,
                        index,
                    ) && !there(name) && forall|k: nat|
                        from <= k < index ==> there(#[trigger] paths::conflict_path(target, k)),
                ChoiceView::Failed(error) => error == names_exhausted_error(side, target)
                    && forall|k: nat|
                    from <= k <= MAX_CONFLICT_NAMES ==> there(#[trigger] paths::conflict_path(target, k)),
                _ => false,
            }
        }),
    decreases MAX_CONFLICT_NAMES - from,
{
    let policy = TransferConflictPolicy::Rename;
    let choice = ChoiceView::Name(from);
    let path = paths::conflict_path(target, from);
    let next = choice_after(choice, side, target, policy, there(path));
    assert(choice_end(choice, side, target, policy, there) == choice_end(
        next,
        side,
        target,
        policy,
        there,
    ));
    if there(path) && from < MAX_CONFLICT_NAMES {
        lemma_names_tried(from + 1, side, target, there);
        let end = choice_end(next, side, target, policy, there);
        if let ChoiceView::Chosen(Some(name)) = end {
            let index = choose|index: nat|
                from + 1 <= index <= MAX_CONFLICT_NAMES && name == #[trigger] paths::conflict_path(
                    target,
                    index,
                ) && !there(name) && forall|k: nat|
                    from + 1 <= k < index ==> there(#[trigger] paths::conflict_path(target, k));
            assert forall|k: nat| from <= k < index implies there(
                #[trigger] paths::conflict_path(target, k),
            ) by {
                if k == from {
                }
            }
        }
    } else if !there(path) {
        assert(choice_end(next, side, target, policy, there) == next);
        assert(path == paths::conflict_path(target, from));
    } else {
        assert(choice_end(next, side, target, policy, there) == next);
    }
}

/// The policies for a target that exists are deterministic. One that is free is
/// written as it is. One that is not is refused, passed over or overwritten, as
/// the policy says; under the policy to rename, the first free name is taken, and
/// it is refused where there is none.
pub proof fn conflict_policies_are_deterministic(
    side: Side,
    target: Seq<char>,
    policy: TransferConflictPolicy,
    there: spec_fn(Seq<char>) -> bool,
)
    ensures
        ({
            let end = choice_end(ChoiceView::Target, side, target, policy, there);
            if !there(target) || policy == TransferConflictPolicy::Overwrite {
                end == ChoiceView::Chosen(Some(target))
            } else {
                match policy {
                    TransferConflictPolicy::Skip => end == ChoiceView::Chosen(None),
                    TransferConflictPolicy::Rename => match end {
                        ChoiceView::Chosen(Some(name)) => exists|index: nat|
                            1 <= index <= MAX_CONFLICT_NAMES && name == #[trigger] paths::conflict_path(
                                target,
                                index,
                            ) && !there(name) && forall|k: nat|
                                1 <= k < index ==> there(#[trigger] paths::conflict_path(target, k)),
                        ChoiceView::Failed(error) => error == names_exhausted_error(side, target)
                            && forall|k: nat|
                            1 <= k <= MAX_CONFLICT_NAMES ==> there(
                                #[trigger] paths::conflict_path(target, k),
                            ),
                        _ => false,
                    },
                    _ => end == ChoiceView::Failed(conflict_error(target)),
                }
            }
        }),
{
    let next = choice_after(ChoiceView::Target, side, target, policy, there(target));
    assert(choice_end(ChoiceView::Target, side, target, policy, there) == choice_end(
        next,
        side,
        target,
        policy,
        there,
    ));
    if there(target) && policy == TransferConflictPolicy::Rename {
        lemma_names_tried(1, side, target, there);
    } else {
        assert(choice_path(next, target) is None);
    }
}

/// Whether a remote directory has to be made, given what is at its path.
pub fn ensure_remote_directory(path: &str, found: Option<RemoteEntryKind>) -> (r: Result<
    bool,
    AppError,
>)
    ensures
        match found {
            None => r == Ok::<bool, AppError>(true),
            Some(RemoteEntryKind::Directory) => r == Ok::<bool, AppError>(false),
            Some(_) => error::error_of(r) == Some(
                error::sftp_error("TRANSFER-CONFLICT"@, "远端目录路径已被文件占用"@, path@),
            ),
        },
{
    match found {
        None => Ok(true),
        Some(kind) => {
            if kind == RemoteEntryKind::Directory {
                Ok(false)
            } else {
                Err(AppError::sftp("TRANSFER-CONFLICT", "远端目录路径已被文件占用", path))
            }
        },
    }
}

// ---------------------------------------------------------------------------
// Putting a file in place
// ---------------------------------------------------------------------------

/// How far putting a file in place has come.
#[verifier::ext_equal]
pub enum ReplaceView {
    /// The caller says whether the target exists.
    Check,
    /// The target is moved away.
    Backup,
    /// The new file is moved to the target; `backed_up` where one was moved away.
    Install { backed_up: bool },
    /// What was moved away is moved back.
    Restore { error: ErrorView },
    /// What was moved away is removed.
    RemoveBackup,
    /// The file is in place.
    Replaced,
    /// It is not.
    Failed { error: ErrorView },
}

/// The error for a target that exists and must not be overwritten.
pub open spec fn target_there_error(side: Side, target: Seq<char>) -> ErrorView {
    error::sftp_error(
        "TRANSFER-TARGET-EXISTS"@,
        match side {
            Side::Local => "本地已存在同名文件，请确认覆盖"@,
            Side::Remote => "远端已存在同名文件，请确认覆盖"@,
        },
        target,
    )
}

/// The error for a target that exists and must not be overwritten.
pub fn target_there(side: Side, target: &str) -> (r: AppError)
    ensures
        r@ == target_there_error(side, target@),
{
    match side {
        Side::Local => AppError::sftp(
            "TRANSFER-TARGET-EXISTS",
            "本地已存在同名文件，请确认覆盖",
            target,
        ),
        Side::Remote => AppError::sftp(
            "TRANSFER-TARGET-EXISTS",
            "远端已存在同名文件，请确认覆盖",
            target,
        ),
    }
}

/// What a failure is called on a side, in a step.
pub open spec fn replace_fault(side: Side, step: ReplaceView) -> FileFault {
    match (side, step) {
        (Side::Local, ReplaceView::Check) => FileFault::CheckLocal,
        (Side::Local, ReplaceView::Backup) => FileFault::BackupLocal,
        (Side::Local, ReplaceView::Install { .. }) => FileFault::InstallLocal,
        (Side::Local, _) => FileFault::RemoveLocalBackup,
        (Side::Remote, ReplaceView::Check) => FileFault::Remote,
        (Side::Remote, ReplaceView::Backup) => FileFault::Remote,
        (Side::Remote, ReplaceView::Install { .. }) => FileFault::InstallRemote,
        (Side::Remote, _) => FileFault::RemoveRemoteBackup,
    }
}

/// What came of what the caller did. `Found` answers whether the target exists.
#[derive(Debug)]
pub enum ReplaceEvent {
    Found(bool),
    Done,
    Broken(String),
}

/// What a [`ReplaceEvent`] says.
#[verifier::ext_equal]
pub enum ReplaceEventView {
    Found(bool),
    Done,
    Broken(Seq<char>),
}

impl View for ReplaceEvent {
    type V = ReplaceEventView;

    open spec fn view(&self) -> ReplaceEventView {
        match self {
            ReplaceEvent::Found(there) => ReplaceEventView::Found(*there),
            ReplaceEvent::Done => ReplaceEventView::Done,
            ReplaceEvent::Broken(reason) => ReplaceEventView::Broken(reason@),
        }
    }
}

/// Whether an event answers a step: whether the target exists is said where it was
/// asked, and only there.
pub open spec fn event_fits(step: ReplaceView, event: ReplaceEventView) -> bool {
    event is Broken || (event is Found <==> step is Check)
}

/// The step after the caller did what was asked.
pub open spec fn replace_after(
    step: ReplaceView,
    side: Side,
    target: Seq<char>,
    overwrite: bool,
    event: ReplaceEventView,
) -> ReplaceView {
    match (step, event) {
        (ReplaceView::Restore { error }, _) => ReplaceView::Failed { error },
        (ReplaceView::Replaced, _) => step,
        (ReplaceView::Failed { .. }, _) => step,
        (ReplaceView::Install { backed_up }, ReplaceEventView::Broken(reason)) => {
            let error = fault_error(replace_fault(side, step), reason);
            if backed_up {
                ReplaceView::Restore { error }
            } else {
                ReplaceView::Failed { error }
            }
        },
        (_, ReplaceEventView::Broken(reason)) => ReplaceView::Failed {
            error: fault_error(replace_fault(side, step), reason),
        },
        (ReplaceView::Check, ReplaceEventView::Found(there)) => if there && !overwrite {
            ReplaceView::Failed { error: target_there_error(side, target) }
        } else if there {
            ReplaceView::Backup
        } else {
            ReplaceView::Install { backed_up: false }
        },
        (ReplaceView::Backup, _) => ReplaceView::Install { backed_up: true },
        (ReplaceView::Install { backed_up }, _) => if backed_up {
            ReplaceView::RemoveBackup
        } else {
            ReplaceView::Replaced
        },
        (ReplaceView::RemoveBackup, _) => ReplaceView::Replaced,
        (ReplaceView::Check, ReplaceEventView::Done) => step,
    }
}

/// What the caller does next with the three files.
#[derive(Debug)]
pub enum ReplaceAction {
    /// Says whether the path exists.
    Check(String),
    /// Moves a file.
    Move { from: String, to: String },
    /// Removes a file.
    Remove(String),
    /// Nothing is left to do.
    Finish,
}

/// What a [`ReplaceAction`] says.
#[verifier::ext_equal]
pub enum ReplaceActionView {
    Check(Seq<char>),
    Move { from: Seq<char>, to: Seq<char> },
    Remove(Seq<char>),
    Finish,
}

impl View for ReplaceAction {
    type V = ReplaceActionView;

    open spec fn view(&self) -> ReplaceActionView {
        match self {
            ReplaceAction::Check(path) => ReplaceActionView::Check(path@),
            ReplaceAction::Move { from, to } => ReplaceActionView::Move { from: from@, to: to@ },
            ReplaceAction::Remove(path) => ReplaceActionView::Remove(path@),
            ReplaceAction::Finish => ReplaceActionView::Finish,
        }
    }
}

/// The files that are moved: the new one, the target, and where the target is kept meanwhile.
#[derive(Debug)]
pub struct ReplacePaths {
    pub temporary: String,
    pub target: String,
    pub backup: String,
}

/// What a [`ReplacePaths`] says.
#[verifier::ext_equal]
pub struct ReplacePathsView {
    pub temporary: Seq<char>,
    pub target: Seq<char>,
    pub backup: Seq<char>,
}

impl View for ReplacePaths {
    type V = ReplacePathsView;

    open spec fn view(&self) -> ReplacePathsView {
        ReplacePathsView {
            temporary: self.temporary@,
            target: self.target@,
            backup: self.backup@,
        }
    }
}

impl DeepView for ReplacePaths {
    type V = ReplacePathsView;

    open spec fn deep_view(&self) -> ReplacePathsView {
        self@
    }
}

impl Duplicate for ReplacePaths {
    fn duplicate(&self) -> (r: Self) {
        ReplacePaths {
            temporary: self.temporary.clone(),
            target: self.target.clone(),
            backup: self.backup.clone(),
        }
    }
}

impl Clone for ReplacePaths {
    fn clone(&self) -> (r: Self)
        ensures
            r@ == self@,
    {
        self.duplicate()
    }
}

/// What the caller does in a step.
pub open spec fn replace_action(step: ReplaceView, paths: ReplacePathsView) -> ReplaceActionView {
    match step {
        ReplaceView::Check => ReplaceActionView::Check(paths.target),
        ReplaceView::Backup => ReplaceActionView::Move { from: paths.target, to: paths.backup },
        ReplaceView::Install { .. } => ReplaceActionView::Move {
            from: paths.temporary,
            to: paths.target,
        },
        ReplaceView::Restore { .. } => ReplaceActionView::Move {
            from: paths.backup,
            to: paths.target,
        },
        ReplaceView::RemoveBackup => ReplaceActionView::Remove(paths.backup),
        _ => ReplaceActionView::Finish,
    }
}

/// How far putting a file in place has come.
#[derive(Debug)]
enum ReplaceStep {
    Check,
    Backup,
    Install { backed_up: bool },
    Restore { error: AppError },
    RemoveBackup,
    Replaced,
    Failed { error: AppError },
}

/// Puts a new file in the place of a target.
pub struct FileReplacement {
    side: Side,
    paths: ReplacePaths,
    overwrite: bool,
    step: ReplaceStep,
}

impl View for FileReplacement {
    type V = ReplaceView;

    closed spec fn view(&self) -> ReplaceView {
        match self.step {
            ReplaceStep::Check => ReplaceView::Check,
            ReplaceStep::Backup => ReplaceView::Backup,
            ReplaceStep::Install { backed_up } => ReplaceView::Install { backed_up },
            ReplaceStep::Restore { error } => ReplaceView::Restore { error: error@ },
            ReplaceStep::RemoveBackup => ReplaceView::RemoveBackup,
            ReplaceStep::Replaced => ReplaceView::Replaced,
            ReplaceStep::Failed { error } => ReplaceView::Failed { error: error@ },
        }
    }
}

/// The files that are moved to put a new file in place.
pub open spec fn replace_paths(
    side: Side,
    temporary: Seq<char>,
    target: Seq<char>,
    task_id: Seq<char>,
) -> ReplacePathsView {
    ReplacePathsView {
        temporary,
        target,
        backup: match side {
            Side::Local => paths::local_backup(target, task_id),
            Side::Remote => paths::remote_backup(target, task_id),
        },
    }
}

impl FileReplacement {
    /// The side on which the files are.
    pub closed spec fn side(self) -> Side {
        self.side
    }

    /// The files that are moved.
    pub closed spec fn paths(self) -> ReplacePathsView {
        self.paths@
    }

    /// Whether a target that exists is replaced.
    pub closed spec fn overwrite(self) -> bool {
        self.overwrite
    }

    /// Starts to put a new file in place.
    pub fn new(side: Side, temporary: &str, target: &str, task_id: &str, overwrite: bool) -> (r:
        Self)
        ensures
            r@ == ReplaceView::Check,
            r.side() == side,
            r.overwrite() == overwrite,
            r.paths() == replace_paths(side, temporary@, target@, task_id@),
    {
        let backup = match side {
            Side::Local => backup_local_path(target, task_id),
            Side::Remote => backup_remote_path(target, task_id),
        };
        FileReplacement {
            side,
            paths: ReplacePaths {
                temporary: temporary.to_owned(),
                target: target.to_owned(),
                backup,
            },
            overwrite,
            step: ReplaceStep::Check,
        }
    }

    /// What the caller does next.
    pub fn action(&self) -> (r: ReplaceAction)
        ensures
            r@ == replace_action(self@, self.paths()),
    {
        match &self.step {
            ReplaceStep::Check => ReplaceAction::Check(self.paths.target.clone()),
            ReplaceStep::Backup => ReplaceAction::Move {
                from: self.paths.target.clone(),
                to: self.paths.backup.clone(),
            },
            ReplaceStep::Install { .. } => ReplaceAction::Move {
                from: self.paths.temporary.clone(),
                to: self.paths.target.clone(),
            },
            ReplaceStep::Restore { .. } => ReplaceAction::Move {
                from: self.paths.backup.clone(),
                to: self.paths.target.clone(),
            },
            ReplaceStep::RemoveBackup => ReplaceAction::Remove(self.paths.backup.clone()),
            ReplaceStep::Replaced => ReplaceAction::Finish,
            ReplaceStep::Failed { .. } => ReplaceAction::Finish,
        }
    }

    /// What a failure is called now.
    fn fault(&self) -> (r: FileFault)
        ensures
            r == replace_fault(self.side(), self@),
    {
        match self.side {
            Side::Local => match &self.step {
                ReplaceStep::Check => FileFault::CheckLocal,
                ReplaceStep::Backup => FileFault::BackupLocal,
                ReplaceStep::Install { .. } => FileFault::InstallLocal,
                _ => FileFault::RemoveLocalBackup,
            },
            Side::Remote => match &self.step {
                ReplaceStep::Check => FileFault::Remote,
                ReplaceStep::Backup => FileFault::Remote,
                ReplaceStep::Install { .. } => FileFault::InstallRemote,
                _ => FileFault::RemoveRemoteBackup,
            },
        }
    }

    /// Goes on after the caller did what was asked.
    pub fn advance(&mut self, event: ReplaceEvent)
        requires
            event_fits(old(self)@, event@),
        ensures
            final(self).side() == old(self).side(),
            final(self).paths() == old(self).paths(),
            final(self).overwrite() == old(self).overwrite(),
            final(self)@ == replace_after(
                old(self)@,
                old(self).side(),
                old(self).paths().target,
                old(self).overwrite(),
                event@,
            ),
    {
        let fault = self.fault();
        let next = match (&self.step, event) {
            (ReplaceStep::Restore { error }, _) => ReplaceStep::Failed { error: error.duplicate() },
            (ReplaceStep::Replaced, _) => ReplaceStep::Replaced,
            (ReplaceStep::Failed { error }, _) => ReplaceStep::Failed { error: error.duplicate() },
            (ReplaceStep::Install { backed_up }, ReplaceEvent::Broken(reason)) => {
                let error = file_failed(fault, reason.as_str());
                if *backed_up {
                    ReplaceStep::Restore { error }
                } else {
                    ReplaceStep::Failed { error }
                }
            },
            (_, ReplaceEvent::Broken(reason)) => ReplaceStep::Failed {
                error: file_failed(fault, reason.as_str()),
            },
            (ReplaceStep::Check, ReplaceEvent::Found(there)) => {
                if there && !self.overwrite {
                    ReplaceStep::Failed {
                        error: target_there(self.side, self.paths.target.as_str()),
                    }
                } else if there {
                    ReplaceStep::Backup
                } else {
                    ReplaceStep::Install { backed_up: false }
                }
            },
            (ReplaceStep::Backup, _) => ReplaceStep::Install { backed_up: true },
            (ReplaceStep::Install { backed_up }, _) => {
                if *backed_up {
                    ReplaceStep::RemoveBackup
                } else {
                    ReplaceStep::Replaced
                }
            },
            (ReplaceStep::RemoveBackup, _) => ReplaceStep::Replaced,
            (ReplaceStep::Check, ReplaceEvent::Done) => ReplaceStep::Check,
        };
        self.step = next;
    }

    /// Whether the file is in place, once nothing is left to do.
    pub fn outcome(self) -> (r: Option<Result<(), AppError>>)
        ensures
            match r {
                None => !(replace_action(self@, self.paths()) is Finish),
                Some(Ok(())) => self@ is Replaced,
                Some(Err(error)) => self@ == (ReplaceView::Failed { error: error@ }),
            },
    {
        match self.step {
            ReplaceStep::Replaced => Some(Ok(())),
            ReplaceStep::Failed { error } => Some(Err(error)),
            _ => None,
        }
    }
}

/// The files of one side: what each path holds.
pub type Files = Map<Seq<char>, Seq<u8>>;

/// The files after the caller did what was asked.
pub open spec fn files_after(files: Files, action: ReplaceActionView) -> Files {
    match action {
        ReplaceActionView::Move { from, to } => files.remove(from).insert(to, files[from]),
        ReplaceActionView::Remove(path) => files.remove(path),
        _ => files,
    }
}

/// The answer to a step where the caller succeeds.
pub open spec fn honest_event(step: ReplaceView, paths: ReplacePathsView, files: Files) -> ReplaceEventView {
    match step {
        ReplaceView::Check => ReplaceEventView::Found(files.contains_key(paths.target)),
        _ => ReplaceEventView::Done,
    }
}

/// The files and the end of putting a file in place, where moving the new file to
/// the target fails with `reason`, or where nothing fails.
pub open spec fn replacement_played(
    step: ReplaceView,
    side: Side,
    paths: ReplacePathsView,
    overwrite: bool,
    files: Files,
    install_fails: Option<Seq<char>>,
    steps: nat,
) -> (Files, ReplaceView)
    decreases steps,
{
    if steps == 0 || replace_action(step, paths) is Finish {
        (files, step)
    } else {
        match (step, install_fails) {
            (ReplaceView::Install { .. }, Some(reason)) => replacement_played(
                replace_after(step, side, paths.target, overwrite, ReplaceEventView::Broken(reason)),
                side,
                paths,
                overwrite,
                files,
                install_fails,
                (steps - 1) as nat,
            ),
            _ => replacement_played(
                replace_after(
                    step,
                    side,
                    paths.target,
                    overwrite,
                    honest_event(step, paths, files),
                ),
                side,
                paths,
                overwrite,
                files_after(files, replace_action(step, paths)),
                install_fails,
                (steps - 1) as nat,
            ),
        }
    }
}

/// Where the new file cannot be moved to the target, every file is afterwards what
/// it was: a target that was moved away is moved back.
pub proof fn failed_replace_restores_target(
    side: Side,
    paths: ReplacePathsView,
    files: Files,
    reason: Seq<char>,
)
    requires
        paths.backup != paths.target,
        !files.contains_key(paths.backup),
    ensures
        ({
            let (after, end) = replacement_played(
                ReplaceView::Check,
                side,
                paths,
                true,
                files,
                Some(reason),
                6,
            );
            &&& after == files
            &&& end == (ReplaceView::Failed {
                error: fault_error(
                    replace_fault(side, ReplaceView::Install { backed_up: true }),
                    reason,
                ),
            })
        }),
{
    reveal_with_fuel(replacement_played, 7);
    let (after, end) = replacement_played(
        ReplaceView::Check,
        side,
        paths,
        true,
        files,
        Some(reason),
        6,
    );
    if files.contains_key(paths.target) {
        let moved = files.remove(paths.target).insert(paths.backup, files[paths.target]);
        let back = moved.remove(paths.backup).insert(paths.target, moved[paths.backup]);
        assert(back =~= files);
        assert(after == back);
    } else {
        assert(after == files);
    }
}

/// Where nothing fails, the target holds the new file, and the files that were
/// used meanwhile are gone.
pub proof fn replaced_target_holds_new_file(
    side: Side,
    paths: ReplacePathsView,
    files: Files,
)
    requires
        paths.backup != paths.target,
        paths.temporary != paths.target,
        paths.temporary != paths.backup,
        files.contains_key(paths.temporary),
        !files.contains_key(paths.backup),
    ensures
        replacement_played(ReplaceView::Check, side, paths, true, files, None, 6) == (
            files.remove(paths.temporary).insert(paths.target, files[paths.temporary]),
            ReplaceView::Replaced,
        ),
{
    reveal_with_fuel(replacement_played, 7);
    let wanted = files.remove(paths.temporary).insert(paths.target, files[paths.temporary]);
    let (after, end) = replacement_played(ReplaceView::Check, side, paths, true, files, None, 6);
    if files.contains_key(paths.target) {
        let moved = files.remove(paths.target).insert(paths.backup, files[paths.target]);
        let placed = moved.remove(paths.temporary).insert(paths.target, moved[paths.temporary]);
        assert(after == placed.remove(paths.backup));
        assert(after =~= wanted);
    } else {
        assert(after =~= wanted);
    }
}

/// A target that must not be overwritten is left alone.
pub proof fn kept_target_is_left_alone(
    side: Side,
    paths: ReplacePathsView,
    files: Files,
    install_fails: Option<Seq<char>>,
)
    requires
        files.contains_key(paths.target),
    ensures
        replacement_played(ReplaceView::Check, side, paths, false, files, install_fails, 6) == (
            files,
            ReplaceView::Failed { error: target_there_error(side, paths.target) },
        ),
{
    reveal_with_fuel(replacement_played, 7);
}

/// A new file takes its place where nothing is there, whether or not it might overwrite
/// something, and nothing else changes.
pub proof fn free_targets_are_taken(
    side: Side,
    paths: ReplacePathsView,
    overwrite: bool,
    files: Files,
)
    requires
        paths.temporary != paths.target,
        files.contains_key(paths.temporary),
        !files.contains_key(paths.target),
    ensures
        replacement_played(ReplaceView::Check, side, paths, overwrite, files, None, 6) == (
            files.remove(paths.temporary).insert(paths.target, files[paths.temporary]),
            ReplaceView::Replaced,
        ),
{
    reveal_with_fuel(replacement_played, 7);
}

/// What goes wrong while a target is replaced is told as an error of the side on which it
/// happened, with the reason that was given.
pub proof fn broken_replacements_are_told(
    step: ReplaceView,
    side: Side,
    target: Seq<char>,
    overwrite: bool,
    reason: Seq<char>,
)
    ensures
        match replace_after(step, side, target, overwrite, ReplaceEventView::Broken(reason)) {
            ReplaceView::Restore { error } => {
                &&& step == (ReplaceView::Install { backed_up: true })
                &&& error.code == "TRANSFER-ATOMIC-REPLACE-FAILED"@
                &&& error.technical_details == Some(reason)
            },
            ReplaceView::Failed { error } => match step {
                ReplaceView::Restore { error: first } => error == first,
                ReplaceView::Failed { error: first } => error == first,
                ReplaceView::Install { backed_up } => !backed_up && error.code
                    == "TRANSFER-ATOMIC-REPLACE-FAILED"@ && error.technical_details == Some(reason),
                ReplaceView::RemoveBackup => error.code == "TRANSFER-TEMP-CLEANUP-FAILED"@
                    && error.technical_details == Some(reason),
                ReplaceView::Check | ReplaceView::Backup => error.technical_details == Some(reason)
                    && error.code == if side == Side::Local {
                    "LOCAL-WRITE-FAILED"@
                } else {
                    "SFTP-BROWSE-FAILED"@
                },
                ReplaceView::Replaced => false,
            },
            ReplaceView::Replaced => step is Replaced,
            _ => false,
        },
{
}

/// A target that is there and must not be replaced, and names that run out, are told as
/// such, with the target.
pub proof fn conflicts_are_told(side: Side, target: Seq<char>)
    ensures
        conflict_error(target).code == "TRANSFER-CONFLICT"@,
        names_exhausted_error(side, target).code == "TRANSFER-CONFLICT"@,
        target_there_error(side, target).code == "TRANSFER-TARGET-EXISTS"@,
        conflict_error(target).technical_details == Some(target),
        names_exhausted_error(side, target).technical_details == Some(target),
        target_there_error(side, target).technical_details == Some(target),
        conflict_error(target).retryable,
        MAX_CONFLICT_NAMES == 999,
{
}

/// A file that is written first is moved to the target, the backup stands next to it, and
/// what is restored is the backup.
pub proof fn replacements_use_their_paths(
    side: Side,
    temporary: Seq<char>,
    target: Seq<char>,
    task_id: Seq<char>,
    error: ErrorView,
    backed_up: bool,
)
    ensures
        ({
            let p = replace_paths(side, temporary, target, task_id);
            &&& p.temporary == temporary
            &&& p.target == target
            &&& side == Side::Local ==> p.backup == paths::local_backup(target, task_id)
            &&& side == Side::Remote ==> p.backup == paths::remote_backup(target, task_id)
            &&& replace_action(ReplaceView::Check, p) == ReplaceActionView::Check(target)
            &&& replace_action(ReplaceView::Backup, p) == (ReplaceActionView::Move {
                from: target,
                to: p.backup,
            })
            &&& replace_action(ReplaceView::Install { backed_up }, p) == (
            ReplaceActionView::Move { from: temporary, to: target })
            &&& replace_action(ReplaceView::Restore { error }, p) == (ReplaceActionView::Move {
                from: p.backup,
                to: target,
            })
            &&& replace_action(ReplaceView::RemoveBackup, p) == ReplaceActionView::Remove(p.backup)
            &&& replace_action(ReplaceView::Replaced, p) is Finish
            &&& replace_action(ReplaceView::Failed { error }, p) is Finish
        }),
{
}

} // verus!
