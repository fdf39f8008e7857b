use terminalt::models::TransferDirection;
use terminalt::paths::{
    backup_local_path, backup_remote_path, conflict_name, join_local_path, join_remote_path,
    local_file_name, parent_remote_path, temporary_local_path, temporary_remote_path, transfer_source_name,
};

#[test]
fn derives_remote_parent_paths_without_escaping_root() {
    assert_eq!(parent_remote_path("/"), None);
    assert_eq!(parent_remote_path("/home"), Some("/".to_owned()));
    assert_eq!(parent_remote_path("/home/user/"), Some("/home".to_owned()));
    assert_eq!(parent_remote_path("relative"), None);
}

#[test]
fn joins_remote_paths_with_one_separator() {
    assert_eq!(join_remote_path("/", "日志"), "/日志");
    assert_eq!(join_remote_path("/home/user/", "a b"), "/home/user/a b");
}

#[test]
fn local_transfer_artifacts_stay_next_to_target() {
    let target = "C:\\downloads\\report.txt";
    let part = temporary_local_path(target, "task");
    assert_eq!(
        local_file_name(&part).unwrap(),
        ".report.txt.terminalt-task.part"
    );
    assert_eq!(part, "C:\\downloads\\.report.txt.terminalt-task.part");
    let backup = backup_local_path(target, "task");
    assert_eq!(
        local_file_name(&backup).unwrap(),
        ".report.txt.terminalt-task.backup"
    );
    assert_eq!(backup, "C:\\downloads\\.report.txt.terminalt-task.backup");
}

#[test]
fn conflict_names_preserve_extensions_and_remote_separators() {
    assert_eq!(conflict_name("/tmp/report.txt", 2), "/tmp/report (2).txt");
    assert_eq!(conflict_name("/tmp/archive", 1), "/tmp/archive (1)");
}

#[test]
fn conflict_names_keep_hidden_names_whole() {
    assert_eq!(conflict_name("/home/user/.profile", 3), "/home/user/.profile (3)");
    assert_eq!(conflict_name("C:\\logs\\a.tar.gz", 10), "C:/logs/a.tar (10).gz");
}

#[test]
fn remote_artifacts_carry_the_task() {
    assert_eq!(
        temporary_remote_path("/srv/app.jar", "7"),
        "/srv/app.jar.terminalt-7.part"
    );
    assert_eq!(
        backup_remote_path("/srv/app.jar", "7"),
        "/srv/app.jar.terminalt-7.backup"
    );
}

#[test]
fn sources_are_named_by_their_last_part() {
    assert_eq!(
        transfer_source_name("C:\\data\\部署", TransferDirection::Upload),
        Some("部署".to_owned())
    );
    assert_eq!(
        transfer_source_name("/var/log/", TransferDirection::Download),
        Some("log".to_owned())
    );
    assert_eq!(transfer_source_name("/", TransferDirection::Download), None);
    assert_eq!(transfer_source_name("..", TransferDirection::Upload), None);
}

#[test]
fn names_are_replaced_in_their_directory() {
    assert_eq!(conflict_name("/tmp//x", 1), "/tmp/x (1)");
    assert_eq!(conflict_name("/tmp/./x.txt", 1), "/tmp/x (1).txt");
    assert_eq!(conflict_name("/x", 1), "/x (1)");
    assert_eq!(conflict_name("//x", 1), "/x (1)");
    assert_eq!(conflict_name("x", 1), "x (1)");
    assert_eq!(conflict_name("C:\\x", 1), "C:/x (1)");
    assert_eq!(conflict_name("C:x", 1), "C:x (1)");
    assert_eq!(
        temporary_local_path("C:\\d\\\\x", "t"),
        "C:\\d\\.x.terminalt-t.part"
    );
}

#[test]
fn network_shares_have_no_name() {
    let share = "\\\\server\\share";
    assert_eq!(local_file_name(share), None);
    assert_eq!(local_file_name("\\\\server\\share\\"), None);
    assert_eq!(local_file_name("\\\\?\\UNC\\server\\share"), None);
    assert_eq!(transfer_source_name(share, TransferDirection::Upload), None);
    assert_eq!(
        local_file_name("\\\\server\\share\\docs").as_deref(),
        Some("docs")
    );
    assert_eq!(
        temporary_local_path("\\\\server\\share\\a", "t"),
        "\\\\server\\share\\.a.terminalt-t.part"
    );
}

#[test]
fn local_names_are_joined_to_their_directory() {
    assert_eq!(join_local_path("/home/a", "b", '/'), "/home/a/b");
    assert_eq!(join_local_path("/home/a/", "b", '/'), "/home/a/b");
    assert_eq!(join_local_path("C:\\d", "b", '\\'), "C:\\d\\b");
    assert_eq!(join_local_path("C:", "b", '\\'), "C:b");
    assert_eq!(join_local_path("", "b", '/'), "b");
    assert_eq!(join_local_path("C:\\d", "\\b", '\\'), "C:\\b");
    assert_eq!(join_local_path("C:\\d", "E:\\b", '\\'), "E:\\b");
}
