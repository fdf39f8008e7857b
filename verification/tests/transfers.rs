use std::collections::HashMap;

use terminalt::models::{
    Duplicate, RemoteEntryKind, TransferConflictPolicy, TransferDirection, TransferStatus, TransferTask,
};
use terminalt::sftp::{
    browse_remote_directory, change_remote_permissions, check_target_free, delete_remote_entries,
    directory_entry, is_symlink, permission_change_failed, removal, rename_target,
    sftp_channel_failed, sftp_failed, RawEntry, Removal, TreeEntry, TreePlan, TreeScan, TreeStep,
};
use terminalt::transfer::{
    new_transfer_task, FoundChild, FoundKind, ScanStep, TransferItemKind, TransferPlan,
    TransferScan,
};
use terminalt::transfer_files::{
    ensure_remote_directory, file_failed, modified_timestamp, scan_failed, ConflictChoice,
    FileFault, FileReplacement, ReplaceAction, ReplaceEvent, Side,
};
use terminalt::transfer_job::{
    begin_scanning, cancel_queued, end_transfer, transfer_report, FileEvent, FileStep,
    FileTransfer, JobStep, TransferJob,
};
use terminalt::transfer_registry::{
    history_size_is_allowed, is_persisted, load_history, persist_history, TransferDocument,
    TransferRegistry,
};

fn task(status: TransferStatus) -> TransferTask {
    TransferTask {
        id: "00000000-0000-4000-8000-000000000001".to_owned(),
        created_at: "2026-08-21T00:00:00Z".to_owned(),
        session_id: "session".to_owned(),
        file_name: "folder".to_owned(),
        direction: TransferDirection::Upload,
        source: "C:/folder".to_owned(),
        target: "/tmp/folder".to_owned(),
        sources: vec!["C:/folder".to_owned()],
        target_directory: "/tmp".to_owned(),
        conflict_policy: TransferConflictPolicy::Ask,
        transferred_bytes: 0,
        total_bytes: Some(0),
        total_files: 0,
        total_directories: 1,
        completed_files: 0,
        completed_directories: 0,
        skipped_files: 0,
        bytes_per_second: 0,
        current_path: None,
        elapsed_seconds: 0,
        status,
        error: None,
        errors: Vec::new(),
    }
}

#[test]
fn active_jobs_load_as_retryable_failures() {
    let document = persist_history(&vec![task(TransferStatus::Running)]);
    let loaded = load_history(document);
    assert_eq!(loaded.len(), 1);
    assert!(matches!(loaded[0].status, TransferStatus::Failed));
    assert!(loaded[0].error.as_deref().unwrap().contains("重试"));
}

#[test]
fn histories_of_other_versions_are_ignored() {
    let document = TransferDocument {
        schema_version: 2,
        tasks: vec![task(TransferStatus::Completed)],
    };
    assert!(load_history(document).is_empty());
    assert!(history_size_is_allowed(2 * 1024 * 1024));
    assert!(!history_size_is_allowed(2 * 1024 * 1024 + 1));
}

fn numbered(number: usize, status: TransferStatus) -> TransferTask {
    TransferTask {
        id: format!("task-{number:03}"),
        created_at: format!("2026-08-21T00:{:02}:{:02}Z", number / 60, number % 60),
        ..task(status)
    }
}

#[test]
fn the_newest_transfers_are_kept() {
    let mut registry = TransferRegistry::new(&Vec::new());
    for number in 0..120 {
        let recorded = registry.record(numbered(number, TransferStatus::Completed), number % 2 == 0);
        assert_eq!(recorded.is_some(), number % 2 == 0);
    }
    let listed = registry.list("session");
    assert_eq!(listed.len(), 100);
    assert_eq!(listed[0].id, "task-119");
    assert_eq!(listed[99].id, "task-020");
    assert!(registry.list("other").is_empty());

    registry.record(numbered(200, TransferStatus::Running), false);
    let left = registry.clear_finished("session");
    assert_eq!(left.len(), 1);
    assert_eq!(registry.list("session")[0].id, "task-200");
    assert!(is_persisted(TransferStatus::Queued));
    assert!(!is_persisted(TransferStatus::Running));
}

fn upload(sources: &[&str], policy: TransferConflictPolicy) -> TransferTask {
    new_transfer_task(
        "session",
        TransferDirection::Upload,
        sources.iter().map(|source| (*source).to_owned()).collect(),
        "/deploy".to_owned(),
        policy,
    )
}

#[test]
fn tasks_are_named_by_their_sources() {
    let one = upload(&["/home/a/部署"], TransferConflictPolicy::Ask);
    assert_eq!(one.file_name, "部署");
    assert_eq!(one.source, "/home/a/部署");
    assert_eq!(one.target, "/deploy");
    assert_eq!(one.id.len(), 36);
    assert!(matches!(one.status, TransferStatus::Queued));
    let two = upload(&["/a", "/b"], TransferConflictPolicy::Ask);
    assert_eq!(two.file_name, "2 个对象");
    assert_eq!(upload(&[], TransferConflictPolicy::Ask).file_name, "0 个对象");
    assert_eq!(upload(&["/"], TransferConflictPolicy::Ask).file_name, "未命名对象");
}

/// What stands at a local path: a file of this size, or a directory with these
/// names.
enum Node {
    File(u64),
    Directory(Vec<String>),
    Link,
}

fn scan(tree: &HashMap<String, Node>, task: &TransferTask) -> Result<TransferPlan, terminalt::error::AppError> {
    let mut scan = TransferScan::upload(&task.sources, &task.target_directory)?;
    loop {
        match scan.next(false) {
            ScanStep::Finish => return Ok(scan.finish()),
            ScanStep::Refuse(error) => return Err(error),
            ScanStep::Inspect(item) => match &tree[&item.source] {
                Node::Link => scan.inspected(&item, FoundKind::Symlink, 0, None),
                Node::File(size) => scan.inspected(&item, FoundKind::File, *size, Some(7)),
                Node::Directory(names) => {
                    scan.inspected(&item, FoundKind::Directory, 0, None);
                    let children = names
                        .iter()
                        .map(|name| FoundChild {
                            path: format!("{}/{name}", item.source),
                            name: name.clone(),
                        })
                        .collect();
                    scan.listed_upload(&item, &children);
                }
            },
        }
    }
}

#[test]
fn local_recursive_scan_handles_large_unicode_tree() {
    let mut tree = HashMap::new();
    let mut top = Vec::new();
    for directory_index in 0..100 {
        let child = format!("目录-{directory_index:03}");
        let mut names = Vec::new();
        for file_index in 0..10 {
            let name = if directory_index == 0 && file_index == 0 {
                ".隐藏文件".to_owned()
            } else {
                format!("文件-{file_index:02}.txt")
            };
            tree.insert(format!("/部署 目录/{child}/{name}"), Node::File(1));
            names.push(name);
        }
        tree.insert(format!("/部署 目录/{child}"), Node::Directory(names));
        top.push(child);
    }
    top.push("十层".to_owned());
    let mut nested = "/部署 目录/十层".to_owned();
    for depth in 0..10 {
        tree.insert(nested.clone(), Node::Directory(vec![format!("d{depth}")]));
        nested = format!("{nested}/d{depth}");
    }
    tree.insert(nested.clone(), Node::Directory(vec!["zero".to_owned()]));
    tree.insert(format!("{nested}/zero"), Node::File(0));
    tree.insert("/部署 目录".to_owned(), Node::Directory(top));
    let task = upload(&["/部署 目录"], TransferConflictPolicy::Rename);
    let plan = scan(&tree, &task).unwrap();
    assert_eq!(plan.files, 1001);
    assert_eq!(plan.directories, 112);
    assert_eq!(plan.bytes, 1000);
    assert!(plan
        .items
        .iter()
        .any(|item| item.target.contains("隐藏文件")));
    assert!(plan.items.iter().any(|item| item.target.ends_with("/zero")));
    assert!(plan.items[..112]
        .iter()
        .all(|item| item.kind == TransferItemKind::Directory));
    assert_eq!(plan.items[0].target, "/deploy/部署 目录");
}

#[test]
fn local_scan_rejects_excessive_depth() {
    let mut tree = HashMap::new();
    let mut path = "/root".to_owned();
    for _ in 0..65 {
        tree.insert(path.clone(), Node::Directory(vec!["d".to_owned()]));
        path = format!("{path}/d");
    }
    tree.insert(path, Node::Directory(Vec::new()));
    let task = upload(&["/root"], TransferConflictPolicy::Ask);
    let error = match scan(&tree, &task) {
        Ok(_) => panic!("deep tree should be rejected"),
        Err(error) => error,
    };
    assert_eq!(error.code, "SFTP-RECURSIVE-LIMIT");
    assert_eq!(
        error.technical_details.as_deref(),
        Some("depth=65 entries=65")
    );
}

#[test]
fn links_are_passed_over() {
    let mut tree = HashMap::new();
    tree.insert("/link".to_owned(), Node::Link);
    let plan = scan(&tree, &upload(&["/link"], TransferConflictPolicy::Ask)).unwrap();
    assert_eq!((plan.skipped, plan.items.len()), (1, 0));
}

#[test]
fn scans_can_be_cancelled_and_name_what_they_refuse() {
    let mut scan = TransferScan::upload(&vec!["/a".to_owned()], "/deploy").unwrap();
    match scan.next(true) {
        ScanStep::Refuse(error) => assert_eq!(error.code, "TRANSFER-CANCELLED"),
        other => panic!("the scan went on: {other:?}"),
    }
    let error = TransferScan::upload(&vec!["/".to_owned()], "/deploy")
        .err()
        .unwrap();
    assert_eq!(error.message, "无法确定本地对象名称");
    let long = format!("/{}", "a".repeat(5000));
    let mut scan = TransferScan::upload(&vec![long], "/deploy").unwrap();
    match scan.next(false) {
        ScanStep::Refuse(error) => assert_eq!(error.message, "远端目标路径超过长度限制"),
        other => panic!("the scan went on: {other:?}"),
    }
}

#[test]
fn downloads_do_not_leave_their_directory() {
    let mut scan = TransferScan::start(
        TransferDirection::Download,
        &vec!["/srv/data".to_owned()],
        &vec!["/home/data".to_owned()],
    );
    let ScanStep::Inspect(item) = scan.next(false) else {
        panic!("nothing was looked at");
    };
    scan.inspected(&item, FoundKind::Directory, 0, Some(1));
    let inside = FoundChild {
        path: "/srv/data/a".to_owned(),
        name: "a".to_owned(),
    };
    let outside = FoundChild {
        path: "/etc/passwd".to_owned(),
        name: "passwd".to_owned(),
    };
    assert!(scan.listed_download(&item, &vec![inside.clone()], '/').is_ok());
    assert_eq!(
        scan.listed_download(&item, &vec![inside, outside], '/')
            .unwrap_err()
            .code,
        "SFTP-PATH-ESCAPE"
    );
}

#[test]
fn downloads_are_written_under_their_names() {
    let sources = vec!["/srv/data/".to_owned()];
    let mut scan = TransferScan::download(&sources, "/home", '/').unwrap();
    let ScanStep::Inspect(item) = scan.next(false) else {
        panic!("nothing was looked at");
    };
    assert_eq!(item.target, "/home/data");
    scan.inspected(&item, FoundKind::Directory, 0, None);
    let child = FoundChild {
        path: "/srv/data/a".to_owned(),
        name: "a".to_owned(),
    };
    scan.listed_download(&item, &vec![child], '/').unwrap();
    let ScanStep::Inspect(item) = scan.next(false) else {
        panic!("nothing was looked at");
    };
    assert_eq!(item.target, "/home/data/a");
    scan.inspected(&item, FoundKind::File, 3, None);
    assert!(matches!(scan.next(false), ScanStep::Finish));
    let plan = scan.finish();
    assert_eq!((plan.files, plan.directories, plan.bytes), (1, 1, 3));
    let nameless = vec!["/".to_owned()];
    assert!(TransferScan::download(&nameless, "/home", '/').is_err());
}

fn pick(
    side: Side,
    policy: TransferConflictPolicy,
    target: &str,
    there: &dyn Fn(&str) -> bool,
) -> Result<Option<String>, terminalt::error::AppError> {
    let mut choice = ConflictChoice::new(side, target, policy);
    while let Some(path) = choice.asks() {
        choice.answer(there(&path));
    }
    choice.outcome().unwrap()
}

#[test]
fn local_conflict_policies_are_deterministic() {
    let target = "/tmp/report.txt";
    let there = |path: &str| path == "/tmp/report.txt";
    let pick_local = |policy| pick(Side::Local, policy, target, &there);
    assert!(pick_local(TransferConflictPolicy::Ask).is_err());
    assert_eq!(pick_local(TransferConflictPolicy::Skip).unwrap(), None);
    assert_eq!(
        pick_local(TransferConflictPolicy::Overwrite).unwrap(),
        Some(target.to_owned())
    );
    assert!(pick_local(TransferConflictPolicy::Rename)
        .unwrap()
        .unwrap()
        .ends_with("report (1).txt"));
    assert_eq!(
        pick(
            Side::Local,
            TransferConflictPolicy::Ask,
            "/tmp/free",
            &there
        )
        .unwrap(),
        Some("/tmp/free".to_owned())
    );
}

#[test]
fn names_run_out() {
    let always = |_: &str| true;
    let policy = TransferConflictPolicy::Rename;
    assert_eq!(
        pick(Side::Remote, policy, "/a", &always).unwrap_err().message,
        "无法生成无冲突名称"
    );
    assert_eq!(
        pick(Side::Local, policy, "/a", &always).unwrap_err().message,
        "目标已存在，请选择覆盖、跳过或自动重命名"
    );
    let nearly = |path: &str| path != "/a (999)";
    assert_eq!(
        pick(Side::Remote, policy, "/a", &nearly).unwrap(),
        Some("/a (999)".to_owned())
    );
}

fn replace(
    files: &mut HashMap<String, Vec<u8>>,
    mut replacement: FileReplacement,
) -> Result<(), terminalt::error::AppError> {
    loop {
        match replacement.action() {
            ReplaceAction::Check(path) => {
                replacement.advance(ReplaceEvent::Found(files.contains_key(&path)));
            }
            ReplaceAction::Move { from, to } => match files.remove(&from) {
                Some(content) => {
                    files.insert(to, content);
                    replacement.advance(ReplaceEvent::Done);
                }
                None => replacement.advance(ReplaceEvent::Broken("no such file".to_owned())),
            },
            ReplaceAction::Remove(path) => {
                files.remove(&path);
                replacement.advance(ReplaceEvent::Done);
            }
            ReplaceAction::Finish => return replacement.outcome().unwrap(),
        }
    }
}

#[test]
fn failed_local_atomic_replace_restores_existing_target() {
    let mut files = HashMap::new();
    files.insert("/d/report.txt".to_owned(), b"original".to_vec());
    let missing =
        FileReplacement::new(Side::Local, "/d/missing.part", "/d/report.txt", "task", true);
    assert_eq!(
        replace(&mut files, missing).unwrap_err().code,
        "TRANSFER-ATOMIC-REPLACE-FAILED"
    );
    assert_eq!(files.len(), 1);
    assert_eq!(files["/d/report.txt"], b"original");
}

#[test]
fn replaced_files_hold_the_new_content() {
    for side in [Side::Local, Side::Remote] {
        let mut files = HashMap::new();
        files.insert("/d/report.txt".to_owned(), b"original".to_vec());
        files.insert("/d/part".to_owned(), b"new".to_vec());
        let refused = FileReplacement::new(side, "/d/part", "/d/report.txt", "task", false);
        assert_eq!(
            replace(&mut files, refused).unwrap_err().code,
            "TRANSFER-TARGET-EXISTS"
        );
        assert_eq!(files["/d/report.txt"], b"original");
        let replacement = FileReplacement::new(side, "/d/part", "/d/report.txt", "task", true);
        replace(&mut files, replacement).unwrap();
        assert_eq!(files.len(), 1);
        assert_eq!(files["/d/report.txt"], b"new");
    }
}

#[test]
fn files_are_copied_before_they_are_put_in_place() {
    let mut file = FileTransfer::new(TransferDirection::Download, "/d/a", true);
    assert!(matches!(file.step(), FileStep::Open));
    file.advance(FileEvent::Done);
    assert!(matches!(file.step(), FileStep::Create));
    file.advance(FileEvent::Done);
    file.advance(FileEvent::Failed(file_failed(
        FileFault::WriteLocal,
        "disk full",
    )));
    assert!(matches!(file.step(), FileStep::DropPart { .. }));
    let stuck = file.part_stays("locked");
    assert_eq!(stuck.code, "TRANSFER-TEMP-CLEANUP-FAILED");
    file.advance(FileEvent::Done);
    assert_eq!(
        file.outcome().unwrap().unwrap_err().code,
        "LOCAL-WRITE-FAILED"
    );

    let mut file = FileTransfer::new(TransferDirection::Upload, "/d/a", false);
    file.advance(FileEvent::Done);
    assert!(matches!(file.step(), FileStep::Check));
    file.advance(FileEvent::Found(true));
    assert_eq!(
        file.outcome().unwrap().unwrap_err().message,
        "远端已存在同名文件，请确认覆盖"
    );
}

fn planned() -> TransferPlan {
    let mut tree = HashMap::new();
    tree.insert(
        "/d".to_owned(),
        Node::Directory(vec!["a".to_owned(), "b".to_owned(), "c".to_owned()]),
    );
    for name in ["a", "b", "c"] {
        tree.insert(format!("/d/{name}"), Node::File(5));
    }
    scan(&tree, &upload(&["/d"], TransferConflictPolicy::Skip)).unwrap()
}

#[test]
fn jobs_go_on_after_a_failure() {
    let mut task = upload(&["/d"], TransferConflictPolicy::Skip);
    begin_scanning(&mut task);
    assert!(matches!(task.status, TransferStatus::Scanning));
    let mut job = TransferJob::new(task, planned());
    assert_eq!(job.task().total_files, 3);
    assert_eq!(job.task().total_bytes, Some(15));
    assert!(matches!(job.next(false), JobStep::MakeDirectory(_)));
    job.item_done(Ok(()), 1).unwrap();
    assert!(matches!(job.next(false), JobStep::WriteFile(_)));
    assert!(job.chosen(Ok(Some("/deploy/d/x".to_owned()))).unwrap());
    assert_eq!(job.task().target, "/deploy/d/x");
    job.count_bytes(5);
    job.set_speed(9);
    job.item_done(Ok(()), 2).unwrap();
    assert!(matches!(job.next(false), JobStep::WriteFile(_)));
    assert!(!job.chosen(Ok(None)).unwrap());
    let JobStep::WriteFile(item) = job.next(false) else {
        panic!("the last file was left out");
    };
    job.item_done(
        Err(file_failed(FileFault::ReadLocal, "gone")),
        3,
    )
    .unwrap();
    assert!(matches!(job.next(false), JobStep::Finish));
    let mut task = job.into_task();
    assert_eq!(
        task.errors,
        vec![format!("{} [LOCAL-READ-FAILED]: 读取本地文件失败", item.source)]
    );
    assert_eq!(
        (task.completed_files, task.completed_directories, task.skipped_files),
        (1, 1, 1)
    );
    end_transfer(&mut task, Ok(()), 4);
    assert!(matches!(task.status, TransferStatus::Failed));
    assert_eq!(task.error.as_deref(), Some("1 个项目失败"));
    assert_eq!(
        transfer_report(&task),
        "session=session direction=Upload status=Failed bytes=5"
    );
}

#[test]
fn cancelled_jobs_end_at_once() {
    let mut job = TransferJob::new(upload(&["/d"], TransferConflictPolicy::Skip), planned());
    let JobStep::Refuse(error) = job.next(true) else {
        panic!("the job went on");
    };
    job.next(false);
    assert_eq!(
        job.item_done(Err(error.duplicate()), 1).unwrap_err().code,
        "TRANSFER-CANCELLED"
    );
    let mut task = job.into_task();
    end_transfer(&mut task, Err(error), 1);
    assert!(matches!(task.status, TransferStatus::Cancelled));
    let mut waiting = upload(&["/d"], TransferConflictPolicy::Skip);
    cancel_queued(&mut waiting);
    assert!(matches!(waiting.status, TransferStatus::Cancelled));
    let mut done = upload(&["/d"], TransferConflictPolicy::Skip);
    end_transfer(&mut done, Ok(()), 1);
    assert!(matches!(done.status, TransferStatus::Completed));
}

#[test]
fn faults_name_their_place() {
    let error = scan_failed(FileFault::ScanLocal, "/a", "denied");
    assert_eq!(error.technical_details.as_deref(), Some("/a: denied"));
    assert_eq!(error.code, "TRANSFER-SCAN-FAILED");
    assert!(ensure_remote_directory("/d", None).unwrap());
    assert!(!ensure_remote_directory("/d", Some(RemoteEntryKind::Directory)).unwrap());
    assert_eq!(
        ensure_remote_directory("/d", Some(RemoteEntryKind::File))
            .unwrap_err()
            .code,
        "TRANSFER-CONFLICT"
    );
    assert_eq!(modified_timestamp(1_700_000_000), Some(1_700_000_000));
    assert_eq!(modified_timestamp(u64::from(u32::MAX) + 1), None);
}

fn raw(name: &str, mode: u32) -> RawEntry {
    RawEntry {
        name: name.to_owned(),
        path: format!("/srv/{name}"),
        size: Some(10),
        uid: Some(1000),
        gid: None,
        permissions: Some(mode),
        mtime: Some(1_700_000_000),
    }
}

#[test]
fn entries_are_listed_as_the_server_describes_them() {
    let entry = directory_entry(&raw("app", 0o100_754), Some("unused".to_owned()));
    assert_eq!(entry.permissions, "-rwxr-xr--");
    assert_eq!(entry.permission_mode, Some(0o754));
    assert_eq!(entry.kind, RemoteEntryKind::File);
    assert_eq!(entry.modified_at.as_deref(), Some("2023-11-14T22:13:20+00:00"));
    assert!(entry.symlink_target.is_none());
    let link = directory_entry(&raw("link", 0o120_777), Some("/etc".to_owned()));
    assert_eq!(link.permissions, "lrwxrwxrwx");
    assert_eq!(link.symlink_target.as_deref(), Some("/etc"));
    assert!(is_symlink(&raw("link", 0o120_777)));
    let other = directory_entry(&raw("pipe", 0o010_000), None);
    assert_eq!(other.permissions, "?---------");
    let bare = RawEntry {
        permissions: None,
        mtime: None,
        size: None,
        ..raw("x", 0)
    };
    let bare = directory_entry(&bare, None);
    assert_eq!((bare.size, bare.permission_mode), (0, None));
    assert!(bare.modified_at.is_none());
}

#[test]
fn directories_are_listed_first_and_in_pages() {
    let mut entries = vec![raw("b", 0o100_644), raw("A", 0o100_644), raw("z", 0o040_755)];
    let links = vec![None; 3];
    let listing =
        browse_remote_directory("/srv".to_owned(), &entries, &links, &None).unwrap();
    let names: Vec<_> = listing.entries.iter().map(|entry| entry.name.as_str()).collect();
    assert_eq!(names, vec!["z", "A", "b"]);
    assert_eq!(listing.parent_path.as_deref(), Some("/"));
    assert!(!listing.truncated);

    for number in 0..2100 {
        entries.push(raw(&format!("{number:05}"), 0o100_644));
    }
    let links = vec![None; entries.len()];
    let mut cursor = None;
    let mut seen = 0;
    let mut shown = Vec::new();
    loop {
        let page =
            browse_remote_directory("/srv".to_owned(), &entries, &links, &cursor).unwrap();
        seen += page.entries.len();
        assert!(page.entries.len() <= 1000);
        shown.extend(page.entries.iter().map(|entry| entry.name.clone()));
        assert_eq!(page.truncated, page.next_cursor.is_some());
        if page.next_cursor.is_none() {
            break;
        }
        cursor = page.next_cursor;
    }
    assert_eq!(seen, entries.len());
    let mut wanted: Vec<String> = (0..2100).map(|number| format!("{number:05}")).collect();
    wanted.insert(0, "z".to_owned());
    wanted.extend(["A".to_owned(), "b".to_owned()]);
    assert_eq!(shown, wanted);
    assert_eq!(
        browse_remote_directory(
            "/srv".to_owned(),
            &entries,
            &links,
            &Some("x".to_owned())
        )
        .unwrap_err()
        .message,
        "目录加载游标无效"
    );
}

#[test]
fn trees_are_walked_within_their_root() {
    let mut scan = TreeScan::new("/srv".to_owned(), true);
    let TreeStep::Inspect(root) = scan.next() else {
        panic!("nothing was looked at");
    };
    scan.inspected(&root, RemoteEntryKind::Directory).unwrap();
    scan.listed(root.depth, &vec![raw("a", 0o100_644), raw("link", 0o120_777)]);
    let TreeStep::Inspect(link) = scan.next() else {
        panic!("nothing was looked at");
    };
    assert_eq!(link.path, "/srv/link");
    scan.inspected(&link, RemoteEntryKind::Symlink).unwrap();
    let TreeStep::Inspect(file) = scan.next() else {
        panic!("nothing was looked at");
    };
    scan.inspected(&file, RemoteEntryKind::File).unwrap();
    assert!(matches!(scan.next(), TreeStep::Finish));
    let found = scan.finish();
    assert_eq!(found.len(), 3);

    let ordered = delete_remote_entries(&found);
    assert_eq!(ordered[2].path, "/srv");
    assert_eq!(removal(&ordered[2]).unwrap(), Removal::Directory);
    assert_eq!(removal(&ordered[0]).unwrap(), Removal::File);
    assert_eq!(
        change_remote_permissions(&found),
        vec!["/srv".to_owned(), "/srv/a".to_owned()]
    );
    let unknown = TreeEntry {
        path: "/srv/socket".to_owned(),
        kind: RemoteEntryKind::Other,
        depth: 1,
    };
    assert!(change_remote_permissions(&vec![unknown]).is_empty());
}

#[test]
fn trees_with_foreign_entries_are_refused() {
    let mut scan = TreeScan::new("/srv".to_owned(), false);
    let TreeStep::Inspect(root) = scan.next() else {
        panic!("nothing was looked at");
    };
    scan.inspected(&root, RemoteEntryKind::Directory).unwrap();
    let foreign = RawEntry {
        path: "/etc".to_owned(),
        ..raw("x", 0o040_755)
    };
    scan.listed(0, &vec![foreign, raw("link", 0o120_777)]);
    let TreeStep::Inspect(entry) = scan.next() else {
        panic!("nothing was looked at");
    };
    let error = scan
        .inspected(&entry, RemoteEntryKind::Directory)
        .unwrap_err();
    assert_eq!(error.code, "SFTP-PATH-ESCAPE");
    assert_eq!(
        error.technical_details.as_deref(),
        Some("root=/srv path=/etc")
    );
}

#[test]
fn plans_hold_what_was_chosen() {
    let mut plan = TreePlan::new();
    assert!(!plan.choose_entry("/a", RemoteEntryKind::File, true));
    assert!(plan.choose_entry("/d", RemoteEntryKind::Directory, true));
    plan.add_tree(vec![TreeEntry {
        path: "/d".to_owned(),
        kind: RemoteEntryKind::Other,
        depth: 0,
    }]);
    let entries = plan.into_entries();
    assert_eq!(entries.len(), 2);
    assert_eq!(
        removal(&entries[1]).unwrap_err().code,
        "SFTP-UNSUPPORTED-ENTRY"
    );
    assert_eq!(rename_target("/srv/a", "b").unwrap(), "/srv/b");
    assert_eq!(
        rename_target("/", "b").unwrap_err().message,
        "不能重命名远端根目录"
    );
    assert!(check_target_free("/a", false).is_ok());
    assert_eq!(
        check_target_free("/a", true).unwrap_err().code,
        "SFTP-TARGET-EXISTS"
    );
    assert_eq!(
        permission_change_failed("/a", "denied")
            .technical_details
            .as_deref(),
        Some("path=/a: denied")
    );
    assert_eq!(sftp_failed("x").code, "SFTP-BROWSE-FAILED");
    assert_eq!(sftp_channel_failed("x").code, "SFTP-CHANNEL-FAILED");
}
