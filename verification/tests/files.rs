use frpc_client_app::atomic_write::following_step;
use frpc_client_app::atomic_write::needs_recovery;
use frpc_client_app::atomic_write::WriteStep;
use frpc_client_app::deletion;
use frpc_client_app::deletion::leftover_line;
use frpc_client_app::deletion::opening_step;
use frpc_client_app::deletion::staged_name;
use frpc_client_app::deletion::staged_name_at;
use frpc_client_app::deletion::DeletionPlan;
use frpc_client_app::deletion::DeletionStep;
use frpc_client_app::error::AppError;
use frpc_client_app::logs::LogBook;
use frpc_client_app::paths::archive_file_name;
use frpc_client_app::paths::atomic_directory;
use frpc_client_app::paths::atomic_sidecar_path;
use frpc_client_app::paths::containing_directory;
use frpc_client_app::paths::nonempty_parent;
use frpc_client_app::paths::sidecar_name;
use frpc_client_app::windows::cleanup_finished;
use frpc_client_app::windows::normalize_windows_path;
use frpc_client_app::windows::powershell_single_quoted;
use frpc_client_app::windows::windows_frpc_cleanup_script;

#[test]
fn containing_directory_returns_file_parent() {
    let directory = containing_directory("/tmp/frpc/config/frpc.toml")
        .expect("file path should have a parent directory");
    assert_eq!(directory, "/tmp/frpc/config");
    assert!(containing_directory("frpc.toml").is_err());
}

#[test]
fn a_path_without_directory_is_reported() {
    match containing_directory("frpc.toml") {
        Err(e) => assert_eq!(e.message(), "无法确定文件所在目录：frpc.toml"),
        Ok(_) => panic!("no directory"),
    }
    assert!(containing_directory("").is_err());
    assert!(containing_directory("/").is_err());
    assert_eq!(containing_directory("/frpc.toml").expect("the root"), "/");
    assert_eq!(atomic_directory("/settings.json").expect("the root"), "/");
    assert!(atomic_directory("/").is_err());
    assert_eq!(atomic_directory("/data/settings.json").expect("a directory"), "/data");
    match atomic_directory("settings.json") {
        Err(e) => assert_eq!(e.message(), "原子写入路径缺少父目录：settings.json"),
        Ok(_) => panic!("no directory"),
    }
    assert_eq!(nonempty_parent(Some(String::new())), None);
    assert_eq!(nonempty_parent(Some("d".to_string())), Some("d".to_string()));
}

#[test]
fn sidecars_stand_beside_their_file() {
    assert_eq!(sidecar_name("settings.json", "backup"), ".settings.json.backup");
    let beside = atomic_sidecar_path("/data/settings.json", "temporary").expect("a file name");
    assert_eq!(beside.replace('\\', "/"), "/data/.settings.json.temporary");
    assert_eq!(atomic_sidecar_path("a.json", "backup").expect("a file name"), ".a.json.backup");
    assert_eq!(atomic_sidecar_path("/a.json", "backup").expect("a file name"), "/.a.json.backup");
    assert!(atomic_sidecar_path("/", "backup").is_err());
    assert!(atomic_sidecar_path("", "backup").is_err());
    assert!(archive_file_name("/downloads/..").is_err());
    match atomic_sidecar_path("/data/..", "backup") {
        Err(e) => assert_eq!(e.message(), "原子写入路径无效：/data/.."),
        Ok(_) => panic!("no file name"),
    }
    assert_eq!(archive_file_name("/downloads/frp.zip").expect("a file name"), "frp.zip");
    match archive_file_name("/") {
        Err(e) => assert_eq!(e.message(), "版本包文件名无效"),
        Ok(_) => panic!("no file name"),
    }
}

/// Three files in memory.
#[derive(Clone, Default)]
struct Files {
    target: Option<Vec<u8>>,
    temporary: Option<Vec<u8>>,
    backup: Option<Vec<u8>>,
}

impl Files {
    fn perform(&mut self, step: WriteStep, bytes: &[u8]) -> bool {
        match step {
            WriteStep::ProbeTemporary => return self.temporary.is_some(),
            WriteStep::ProbeBackup => return self.backup.is_some(),
            WriteStep::ProbeTarget => return self.target.is_some(),
            WriteStep::RemoveTemporary => self.temporary = None,
            WriteStep::RemoveBackup | WriteStep::DropBackup => self.backup = None,
            WriteStep::WriteTemporary => self.temporary = Some(bytes.to_vec()),
            WriteStep::BackUp => self.backup = self.target.take(),
            WriteStep::Commit(_) => self.target = self.temporary.take(),
            WriteStep::Restore => self.target = self.backup.take(),
            _ => {}
        }
        true
    }

    fn recover(&mut self) {
        if needs_recovery(self.target.is_some(), self.backup.is_some()) {
            self.target = self.backup.take();
        }
    }

    /// Writes, and fails or breaks off at a step.
    fn write(&mut self, bytes: &[u8], fail_at: Option<usize>, crash_at: Option<usize>) -> Option<bool> {
        let mut step = WriteStep::CreateDirectory;
        let mut count = 0;
        loop {
            if matches!(step, WriteStep::Written) {
                return Some(true);
            }
            if matches!(step, WriteStep::Failed) {
                return Some(false);
            }
            if crash_at == Some(count) {
                return None;
            }
            let probe = matches!(
                step,
                WriteStep::ProbeTemporary | WriteStep::ProbeBackup | WriteStep::ProbeTarget
            );
            let outcome = if fail_at == Some(count) && !probe { false } else { self.perform(step, bytes) };
            step = following_step(step, outcome);
            count += 1;
        }
    }
}

#[test]
fn atomic_file_write_replaces_and_recovers_backup() {
    let mut files = Files::default();
    assert_eq!(files.write(b"first", None, None), Some(true));
    assert_eq!(files.write(b"second", None, None), Some(true));
    assert_eq!(files.target.as_deref(), Some(&b"second"[..]));
    assert!(files.backup.is_none() && files.temporary.is_none());

    files.backup = files.target.take();
    files.recover();
    assert_eq!(files.target.as_deref(), Some(&b"second"[..]));
}

#[test]
fn an_interrupted_write_leaves_the_old_or_the_new_contents() {
    for stale in [false, true] {
        for at in 0..12 {
            let mut start = Files { target: Some(b"old".to_vec()), ..Files::default() };
            if stale {
                start.backup = Some(b"stale".to_vec());
                start.temporary = Some(b"part".to_vec());
            }
            let mut files = start.clone();
            let finished = files.write(b"new", None, Some(at));
            files.recover();
            let contents = files.target.expect("never lost");
            assert!(contents == b"old" || contents == b"new");
            assert!(finished != Some(true) || contents == b"new");

            let mut files = start.clone();
            let written = files.write(b"new", Some(at), None).expect("no crash");
            files.recover();
            let contents = files.target.expect("never lost");
            assert_eq!(contents, if written { b"new" } else { b"old" });
        }
    }
}

#[test]
fn a_deletion_that_fails_is_undone() {
    let plan = DeletionPlan { has_directory: true, settings_changed: true };
    let mut step = opening_step(plan);
    let mut done = Vec::new();
    while !matches!(step, DeletionStep::Deleted | DeletionStep::Kept) {
        let succeeds = !matches!(step, DeletionStep::WriteRegistry);
        done.push(match step {
            DeletionStep::StageDirectory => "stage",
            DeletionStep::WriteSettings => "settings",
            DeletionStep::WriteRegistry => "registry",
            DeletionStep::RestoreSettings => "settings back",
            DeletionStep::RestoreDirectory => "directory back",
            DeletionStep::RemoveStaged => "remove",
            _ => unreachable!(),
        });
        step = deletion::following_step(plan, step, succeeds);
    }
    assert!(matches!(step, DeletionStep::Kept));
    assert_eq!(done, vec!["stage", "settings", "registry", "settings back", "directory back"]);
}

#[test]
fn a_deletion_removes_the_directory_last() {
    let plan = DeletionPlan { has_directory: true, settings_changed: false };
    assert!(matches!(opening_step(plan), DeletionStep::StageDirectory));
    let step = deletion::following_step(plan, DeletionStep::StageDirectory, true);
    assert!(matches!(step, DeletionStep::WriteRegistry));
    let step = deletion::following_step(plan, step, true);
    assert!(matches!(step, DeletionStep::RemoveStaged));
    assert!(matches!(deletion::following_step(plan, step, false), DeletionStep::Deleted));
    assert!(matches!(
        deletion::following_step(plan, DeletionStep::StageDirectory, false),
        DeletionStep::Kept
    ));
    let bare = DeletionPlan { has_directory: false, settings_changed: false };
    assert!(matches!(opening_step(bare), DeletionStep::WriteRegistry));
    assert!(matches!(
        deletion::following_step(bare, DeletionStep::WriteRegistry, true),
        DeletionStep::Deleted
    ));
    assert!(matches!(
        deletion::following_step(bare, DeletionStep::WriteRegistry, false),
        DeletionStep::Kept
    ));
}

#[test]
fn staged_directories_are_named_after_workspace_and_time() {
    assert_eq!(staged_name_at("a", 17), ".deleting-a-17");
    let name = staged_name("a");
    assert!(name.strip_prefix(".deleting-a-").expect("the prefix").parse::<i64>().expect("a time") > 0);
    assert_eq!(leftover_line("busy"), "工作区已删除，但暂存目录清理失败：busy");
}

#[test]
fn windows_cleanup_script_filters_to_app_data_frpc_executable() {
    let app_data_dir = r"C:\Users\Owner O'Neil\AppData\Roaming\com.dalong.frpc.tunnel-manager";
    let script = windows_frpc_cleanup_script(app_data_dir, None);

    assert!(script
        .contains("'c:/users/owner o''neil/appdata/roaming/com.dalong.frpc.tunnel-manager'"));
    assert!(script.contains("Name = 'frpc.exe'"));
    assert!(script.contains("$path.EndsWith('/frpc.exe')"));
    assert!(script.contains("StartsWith($root + '/')"));
    assert!(script.contains("Stop-Process"));
}

#[test]
fn the_cleanup_script_is_written_out() {
    let expected = r#"$root = 'c:/app'
$workspace = 'c:/app/workspaces/a'
Get-CimInstance Win32_Process -Filter "Name = 'frpc.exe'" | Where-Object {
  if (-not $_.ExecutablePath) { $false } else {
    $path = ($_.ExecutablePath -replace '\\', '/').TrimEnd('/').ToLowerInvariant()
    $commandLine = if ($_.CommandLine) { ($_.CommandLine -replace '\\', '/').ToLowerInvariant() } else { '' }
    $inWorkspace = (-not $workspace) -or $commandLine.Contains($workspace)
    $path.EndsWith('/frpc.exe') -and $path.StartsWith($root + '/') -and $inWorkspace
  }
} | ForEach-Object {
  Stop-Process -Id $_.ProcessId -Force -ErrorAction Stop
  Write-Output ("已停止残留 frpc.exe，PID " + $_.ProcessId)
}"#;
    assert_eq!(windows_frpc_cleanup_script(r"C:\App\", Some(r"C:\App\workspaces\A")), expected);
    assert!(windows_frpc_cleanup_script("c:/app", None).starts_with("$root = 'c:/app'\n$workspace = $null\nGet-"));
}

#[test]
fn windows_paths_are_normalized_and_quoted() {
    assert_eq!(normalize_windows_path(r"C:\A\B\\"), "c:/a/b");
    assert_eq!(normalize_windows_path("C:/É"), "c:/É");
    assert_eq!(powershell_single_quoted("o'neil''s"), "'o''neil''''s'");
    assert_eq!(powershell_single_quoted(""), "''");
}

#[test]
fn the_output_of_a_cleanup_is_logged() {
    let mut book = LogBook::new();
    assert!(cleanup_finished(&mut book, None, " stopped \n", "  ", true, 0).is_ok());
    assert_eq!(book.lines("default"), vec!["stopped".to_string()]);
    match cleanup_finished(&mut book, Some("w"), "", " denied\n", false, 0) {
        Err(e) => assert_eq!(e.message(), "清理工作区残留 frpc.exe 失败：denied"),
        Ok(_) => panic!("it failed"),
    }
    assert_eq!(book.lines("w"), vec!["denied".to_string()]);
    match cleanup_finished(&mut book, None, "", "", false, 0) {
        Err(AppError::CleanupFailed(text)) => assert_eq!(text, ""),
        _ => panic!("it failed"),
    }
}

#[test]
fn backslashed_paths_divide_as_the_platform_divides_them() {
    let path = "C:\\Users\\me\\settings.json";
    let drive = "C:\\settings.json";
    if std::path::is_separator('\\') {
        assert_eq!(containing_directory(path).expect("a directory"), "C:\\Users\\me");
        assert_eq!(atomic_directory(path).expect("a directory"), "C:\\Users\\me");
        assert_eq!(containing_directory(drive).expect("the drive"), "C:\\");
        assert_eq!(archive_file_name(path).expect("a file name"), "settings.json");
        assert_eq!(
            atomic_sidecar_path(path, "backup").expect("a file name"),
            "C:\\Users\\me\\.settings.json.backup"
        );
    } else {
        assert!(containing_directory(path).is_err());
        assert!(atomic_directory(path).is_err());
        assert!(containing_directory(drive).is_err());
        assert_eq!(archive_file_name(path).expect("a file name"), path);
        assert_eq!(
            atomic_sidecar_path(path, "backup").expect("a file name"),
            ".C:\\Users\\me\\settings.json.backup"
        );
    }
    let mixed = "/data/a\\b.json";
    assert!(matches!(containing_directory(mixed).expect("a directory").as_str(), "/data/a" | "/data"));
    assert!(matches!(archive_file_name(mixed).expect("a file name").as_str(), "b.json" | "a\\b.json"));
    let rooted = containing_directory("\\a.json");
    assert_eq!(rooted.is_ok(), std::path::is_separator('\\'));
}

#[test]
fn repeated_slashes_do_not_count() {
    for path in ["a/b/", "a//b", "a//b//", "a/./b"] {
        let directory = containing_directory(path).expect("a directory");
        assert_eq!(directory, "a");
        assert!(path.starts_with(directory.as_str()));
    }
    assert_eq!(archive_file_name("a/b//").expect("a file name"), "b");
    assert!(atomic_sidecar_path("a//b.json", "backup").expect("a file name").ends_with(".b.json.backup"));
    let drive = containing_directory("C:/b.json").expect("a directory");
    assert!(drive == "C:" || drive == "C:/");
}

#[test]
fn sidecars_and_their_file_have_different_paths() {
    for path in [
        "settings.json",
        "/settings.json",
        "/data/settings.json",
        "/data/.settings.json.backup",
        "C:\\data\\settings.json",
        "C:\\settings.json",
        "\\settings.json",
        ".a.backup\\a",
        "C:/data\\settings.json",
    ] {
        let temporary = atomic_sidecar_path(path, "temporary").expect("a file name");
        let backup = atomic_sidecar_path(path, "backup").expect("a file name");
        assert_ne!(temporary, path);
        assert_ne!(backup, path);
        assert_ne!(temporary, backup);
        assert!(temporary.ends_with(".temporary"));
        assert!(backup.ends_with(".backup"));
    }
}

#[test]
fn a_deletion_that_cannot_be_undone_keeps_the_directory() {
    let plan = DeletionPlan { has_directory: true, settings_changed: true };
    let mut step = opening_step(plan);
    while !matches!(step, DeletionStep::Deleted | DeletionStep::Kept) {
        assert!(!matches!(step, DeletionStep::RemoveStaged));
        let succeeds = matches!(step, DeletionStep::StageDirectory | DeletionStep::WriteSettings);
        step = deletion::following_step(plan, step, succeeds);
    }
    assert!(matches!(step, DeletionStep::Kept));
}
