use frpc_client_app::dashboard::dashboard_state;
use frpc_client_app::dashboard::path_info;
use frpc_client_app::error::AppError;
use frpc_client_app::logs::LogBook;
use frpc_client_app::runtime::manifest_at;
use frpc_client_app::service::ManagedService;
use frpc_client_app::service::ServiceTable;
use frpc_client_app::settings::AppSettings;
use frpc_client_app::status::service_status;
use frpc_client_app::status::ChildPoll;
use frpc_client_app::workspace::WorkspaceRecord;
use frpc_client_app::workspace::WorkspaceRegistry;

#[test]
fn the_dashboard_puts_everything_together() {
    let current = WorkspaceRecord { id: "a".to_string(), name: "A".to_string() };
    let registry = WorkspaceRegistry {
        workspaces: vec![current.clone(), WorkspaceRecord { id: "b".to_string(), name: "B".to_string() }],
    };
    let mut settings = AppSettings::default();
    settings.current_runtime_id = Some("2_p".to_string());
    settings.set_log_cleanup_interval("a", 60).expect("supported");
    let runtimes = vec![
        manifest_at("1", "p", "", "/1/frpc", String::new()),
        manifest_at("2", "p", "", "/2/frpc", String::new()),
    ];
    let mut table = ServiceTable::new();
    table.insert(ManagedService {
        workspace_id: "b".to_string(),
        runtime_id: "1_p".to_string(),
        proxy_index: 0,
        proxy_name: "web".to_string(),
        config_text: String::new(),
        child: (),
    });
    let mut book = LogBook::new();
    let service = service_status(&mut table, &mut book, &vec![ChildPoll::Running(Some(1))], "a", 0);
    let places = path_info("/d".to_string(), "/d/w".to_string(), "/d/w/c".to_string(), "/d/r".to_string(), &None);
    assert_eq!(places.current_binary, None);
    let state = dashboard_state(
        &registry,
        current,
        places,
        "darwin-arm64".to_string(),
        "serverAddr = \"h\"\n".to_string(),
        runtimes,
        &settings,
        service,
    );
    assert_eq!(state.workspaces.len(), 2);
    assert_eq!(state.workspaces[0].running_count, 0);
    assert_eq!(state.workspaces[1].running_count, 1);
    assert_eq!(state.current_workspace.id, "a");
    assert_eq!(state.paths.app_data_dir, "/d");
    assert_eq!(state.paths.workspace_dir, "/d/w");
    assert_eq!(state.paths.config_path, "/d/w/c");
    assert_eq!(state.paths.runtimes_dir, "/d/r");
    assert_eq!(state.paths.current_binary, Some("/2/frpc".to_string()));
    assert_eq!(state.current_platform, "darwin-arm64");
    assert_eq!(state.config_text, "serverAddr = \"h\"\n");
    assert_eq!(state.config_summary.server_addr, "h");
    assert_eq!(state.runtimes.len(), 2);
    assert_eq!(state.current_runtime.expect("chosen").id, "2_p");
    assert!(!state.service.running);
    assert_eq!(state.log_cleanup_interval_minutes, 60);
    assert!(state.latest_release.is_none());
}

#[test]
fn every_fault_has_its_sentence() {
    let x = || "x".to_string();
    let sentences = [
        (AppError::WorkspaceNotFound(x()), "找不到工作区：x"),
        (AppError::LastWorkspace, "至少需要保留一个工作区"),
        (AppError::EmptyWorkspaceName, "工作区名称不能为空"),
        (AppError::LongWorkspaceName, "工作区名称不能超过 32 个字符"),
        (AppError::DuplicateWorkspaceName(x()), "工作区名称已存在：x"),
        (AppError::NoWorkspace, "没有可用的工作区"),
        (AppError::UnsupportedCleanupInterval, "不支持的日志定时清理周期"),
        (AppError::InvalidToml, "TOML 格式校验失败"),
        (AppError::ProxyNotFound(2), "找不到第 2 个代理配置"),
        (AppError::NotATable, "frpc.toml 必须是 TOML 表结构"),
        (AppError::UnrenderableToml, "生成单服务配置失败"),
        (AppError::NoProxies, "没有可启动的代理配置"),
        (AppError::UnknownRuntime(x()), "找不到指定版本：x"),
        (AppError::RuntimeNotFound(x()), "找不到版本：x"),
        (AppError::RuntimeProtected, "当前版本或服务正在使用的版本不可删除"),
        (AppError::RuntimeInUse, "该 FRPC 版本正被运行中的服务使用，请先停止相关服务"),
        (AppError::NoRuntime, "没有可用的 frpc 运行时"),
        (AppError::BinaryMissing(x()), "当前 frpc 二进制不存在：x"),
        (AppError::InvalidArchivePath, "版本包文件名无效"),
        (AppError::ArchiveNameFormat(x()), "版本包命名不符合 frp 发布格式：x"),
        (AppError::UnsupportedPlatform, "仅支持 Windows 和 macOS 的 amd64/arm64 版本包"),
        (AppError::UnsupportedArchive, "仅支持 .tar.gz、.tgz、.zip 版本包"),
        (AppError::UnreadableZip, "读取 zip 版本包失败"),
        (AppError::UnreadableZipEntry, "读取 zip 条目失败"),
        (AppError::UnreadableTar, "读取 tar.gz 版本包失败"),
        (AppError::UnreadableTarEntry, "读取 tar.gz 条目失败"),
        (AppError::UnreadableTarPath, "读取 tar.gz 条目路径失败"),
        (AppError::ExtractionFailed, "提取 frpc 失败"),
        (AppError::BinaryNotInArchive(x()), "版本包中没有找到 x"),
        (AppError::NoContainingDirectory(x()), "无法确定文件所在目录：x"),
        (AppError::InvalidAtomicPath(x()), "原子写入路径无效：x"),
        (AppError::AtomicPathWithoutParent(x()), "原子写入路径缺少父目录：x"),
        (AppError::CleanupFailed(x()), "清理残留 frpc.exe 失败：x"),
        (AppError::WorkspaceCleanupFailed(x()), "清理工作区残留 frpc.exe 失败：x"),
    ];
    for (fault, sentence) in sentences {
        assert_eq!(fault.message(), sentence);
    }
}
