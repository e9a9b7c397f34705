use frpc_client_app::config::render_quick_config;
use frpc_client_app::config::render_single_proxy_config;
use frpc_client_app::config::QuickProxyRequest;
use frpc_client_app::config::SaveQuickConfigRequest;
use frpc_client_app::error::AppError;
use frpc_client_app::launch::begin_start;
use frpc_client_app::launch::record_start;
use frpc_client_app::launch::sanitize_file_segment;
use frpc_client_app::launch::service_config_file_name;
use frpc_client_app::launch::BatchAction;
use frpc_client_app::launch::BatchStart;
use frpc_client_app::logs::LogBook;
use frpc_client_app::runtime::mark_runtime_usage;
use frpc_client_app::runtime::RuntimeInfo;
use frpc_client_app::service::proxy_service_key;
use frpc_client_app::service::ManagedService;
use frpc_client_app::service::ServiceTable;
use frpc_client_app::settings::AppSettings;
use frpc_client_app::shutdown::CloseDecision;
use frpc_client_app::shutdown::CloseGate;
use frpc_client_app::status::output_line;
use frpc_client_app::status::service_status;
use frpc_client_app::status::started_line;
use frpc_client_app::status::stop_failure_line;
use frpc_client_app::status::stopped_line;
use frpc_client_app::status::ChildPoll;
use frpc_client_app::status::ServiceStatus;
use frpc_client_app::text_map::TextMap;
use frpc_client_app::workspace::DEFAULT_WORKSPACE_ID;

/// The process of a test service, by its id.
struct TestChild(u32);

fn insert_service(
    table: &mut ServiceTable<TestChild>,
    workspace_id: &str,
    runtime_id: &str,
    proxy_index: usize,
    config_text: String,
) {
    table.insert(ManagedService {
        workspace_id: workspace_id.to_string(),
        runtime_id: runtime_id.to_string(),
        proxy_index,
        proxy_name: format!("proxy-{proxy_index}"),
        config_text,
        child: TestChild(100 + proxy_index as u32),
    });
}

fn insert_test_service(table: &mut ServiceTable<TestChild>, proxy_index: usize) {
    insert_service(table, DEFAULT_WORKSPACE_ID, "test-runtime", proxy_index, String::new());
}

/// The status where every process runs.
fn running_status(
    table: &mut ServiceTable<TestChild>,
    book: &mut LogBook,
    workspace_id: &str,
) -> ServiceStatus {
    let mut polls: Vec<ChildPoll> = Vec::new();
    for i in 0..table.services.len() {
        polls.push(ChildPoll::Running(Some(table.child_mut(i).0)));
    }
    service_status(table, book, &polls, workspace_id, 0)
}

#[test]
fn terminate_proxy_child_returns_stopped_status() {
    let mut table = ServiceTable::new();
    let mut book = LogBook::new();
    insert_test_service(&mut table, 0);

    let service = table.take_proxy_service(DEFAULT_WORKSPACE_ID, 0).expect("stop should succeed");
    assert_eq!(service.child.0, 100);

    let status = running_status(&mut table, &mut book, DEFAULT_WORKSPACE_ID);
    assert!(!status.running);
    assert_eq!(status.pid, None);
}

#[test]
fn rollback_stops_every_proxy_started_by_batch() {
    let mut table = ServiceTable::new();
    let mut book = LogBook::new();
    let mut batch = BatchStart::begin("[[proxies]]\n[[proxies]]\n[[proxies]]\n").expect("three proxies");
    let mut stopped = Vec::new();
    loop {
        match batch.action() {
            BatchAction::Start(index) => {
                if index == 2 {
                    batch.start_failed();
                } else {
                    insert_test_service(&mut table, index);
                    batch.runs(true);
                }
            }
            BatchAction::Stop(index) => {
                assert!(table.take_proxy_service(DEFAULT_WORKSPACE_ID, index).is_some());
                stopped.push(index);
                batch.stopped();
            }
            BatchAction::Finished => panic!("the third start fails"),
            BatchAction::RolledBack => break,
        }
    }
    assert_eq!(stopped, vec![1, 0]);

    let status = running_status(&mut table, &mut book, DEFAULT_WORKSPACE_ID);
    assert!(!status.running);
    assert_eq!(status.running_count, 0);
    assert!(status.services.is_empty());
}

#[test]
fn a_rollback_spares_services_that_ran_before() {
    let mut table = ServiceTable::new();
    insert_test_service(&mut table, 0);
    let mut batch = BatchStart::begin("[[proxies]]\n[[proxies]]\n").expect("two proxies");
    assert!(begin_start(&table, DEFAULT_WORKSPACE_ID, 0).is_none());
    batch.runs(false);
    batch.start_failed();
    assert!(matches!(batch.action(), BatchAction::RolledBack));
    assert!(table.is_running(DEFAULT_WORKSPACE_ID, 0));
}

#[test]
fn a_batch_without_proxies_is_refused() {
    match BatchStart::begin("serverPort = 7000\n") {
        Err(e) => assert_eq!(e.message(), "没有可启动的代理配置"),
        Ok(_) => panic!("there is no proxy"),
    }
    let mut batch = BatchStart::begin("[[proxies]]\n").expect("one proxy");
    assert!(matches!(batch.action(), BatchAction::Start(0)));
    batch.runs(true);
    assert!(matches!(batch.action(), BatchAction::Finished));
}

#[test]
fn config_reconciliation_stops_only_changed_proxy() {
    let mut table = ServiceTable::new();
    let mut book = LogBook::new();
    let original = render_quick_config(&SaveQuickConfigRequest {
        server_addr: "203.0.113.10".to_string(),
        server_port: 7000,
        auth_method: "token".to_string(),
        auth_token: "secret".to_string(),
        proxies: vec![
            QuickProxyRequest {
                name: "ip1-web".to_string(),
                proxy_type: "tcp".to_string(),
                local_ip: "192.168.1.10".to_string(),
                local_port: 8080,
                remote_port: 18080,
            },
            QuickProxyRequest {
                name: "ip2-api".to_string(),
                proxy_type: "tcp".to_string(),
                local_ip: "192.168.1.11".to_string(),
                local_port: 9000,
                remote_port: 19000,
            },
        ],
    });
    let changed = original.replace("localPort = 9000", "localPort = 9001");

    for proxy_index in 0..2 {
        let (service_config, _) = render_single_proxy_config(&original, proxy_index)
            .expect("service config should render");
        insert_service(&mut table, DEFAULT_WORKSPACE_ID, "test-runtime", proxy_index, service_config);
    }

    assert!(table.take_stale_services(DEFAULT_WORKSPACE_ID, &original).is_empty());
    let stale = table.take_stale_services(DEFAULT_WORKSPACE_ID, &changed);
    assert_eq!(stale.len(), 1);
    assert_eq!(stale[0].proxy_index, 1);

    let status = running_status(&mut table, &mut book, DEFAULT_WORKSPACE_ID);
    assert_eq!(status.running_count, 1);
    assert_eq!(status.services[0].proxy_index, 0);

    table
        .take_proxy_service(DEFAULT_WORKSPACE_ID, 0)
        .expect("unchanged service should be cleaned up");
}

#[test]
fn a_configuration_that_is_no_document_makes_services_stale() {
    let mut table = ServiceTable::new();
    insert_test_service(&mut table, 0);
    insert_service(&mut table, "other", "test-runtime", 0, String::new());
    let stale = table.take_stale_services(DEFAULT_WORKSPACE_ID, "[");
    assert_eq!(stale.len(), 1);
    assert!(table.is_running("other", 0));
}

#[test]
fn same_proxy_index_is_isolated_between_workspaces() {
    let mut table = ServiceTable::new();
    let mut book = LogBook::new();
    insert_service(&mut table, "workspace-a", "test-runtime", 0, String::new());
    insert_service(&mut table, "workspace-b", "test-runtime", 0, String::new());

    table.take_proxy_service("workspace-a", 0).expect("workspace A service should stop");

    let workspace_a = running_status(&mut table, &mut book, "workspace-a");
    let workspace_b = running_status(&mut table, &mut book, "workspace-b");
    assert!(!workspace_a.running);
    assert!(workspace_b.running);
    assert_eq!(workspace_b.running_count, 1);
    assert_eq!(workspace_b.workspace_running_counts.get("workspace-b"), Some(&1));

    table.take_proxy_service("workspace-b", 0).expect("workspace B service should be cleaned up");
}

#[test]
fn active_runtime_cannot_be_reinstalled_or_deleted() {
    let mut table = ServiceTable::new();
    insert_service(&mut table, DEFAULT_WORKSPACE_ID, "runtime-a", 0, String::new());

    assert!(table.ensure_runtime_not_in_use("runtime-a").is_err());
    assert!(table.ensure_runtime_not_in_use("runtime-b").is_ok());

    let mut runtimes = vec![RuntimeInfo {
        id: "runtime-a".to_string(),
        version: "v1".to_string(),
        platform: "darwin-arm64".to_string(),
        imported_at: String::new(),
        archive_name: String::new(),
        binary_path: String::new(),
        is_current: false,
        is_in_use: false,
        can_delete: true,
    }];
    let mut active: TextMap<()> = TextMap::new();
    active.insert("runtime-a".to_string(), ());
    mark_runtime_usage(&mut runtimes, &active);
    assert!(runtimes[0].is_in_use);
    assert!(!runtimes[0].can_delete);

    table.take_proxy_service(DEFAULT_WORKSPACE_ID, 0).expect("test service should be cleaned up");
}

#[test]
fn the_runtimes_in_use_are_listed_once() {
    let mut table = ServiceTable::new();
    insert_service(&mut table, "a", "r2", 0, String::new());
    insert_service(&mut table, "a", "r1", 1, String::new());
    insert_service(&mut table, "b", "r2", 0, String::new());
    let ids = table.active_runtime_ids();
    assert_eq!(ids.len(), 2);
    assert!(ids.contains_key("r1"));
    assert!(ids.contains_key("r2"));
    match table.ensure_runtime_not_in_use("r2") {
        Err(e) => assert_eq!(e.message(), "该 FRPC 版本正被运行中的服务使用，请先停止相关服务"),
        Ok(_) => panic!("in use"),
    }
}

#[test]
fn cancelled_shutdown_keeps_service_running_and_does_not_exit() {
    let mut table = ServiceTable::new();
    let mut book = LogBook::new();
    let mut gate = CloseGate::new();
    insert_test_service(&mut table, 0);

    assert!(gate.request_close());
    assert!(!gate.request_close());
    assert!(matches!(gate.answer(false), CloseDecision::Stay));
    assert!(!gate.shutdown_requested);
    assert!(running_status(&mut table, &mut book, DEFAULT_WORKSPACE_ID).running);
    assert!(gate.request_close());

    table.take_proxy_service(DEFAULT_WORKSPACE_ID, 0).expect("test child should be cleaned up");
}

#[test]
fn confirmed_shutdown_stops_service_before_exit() {
    let mut table = ServiceTable::new();
    let mut book = LogBook::new();
    let mut gate = CloseGate::new();
    insert_test_service(&mut table, 0);

    assert!(gate.request_close());
    assert!(matches!(gate.answer(true), CloseDecision::StopServices));
    assert!(!gate.request_close());
    assert_eq!(table.take_all_services().len(), 1);
    assert!(gate.services_stopped(None, &mut book, 0));
    assert!(gate.shutdown_requested);
    assert!(!running_status(&mut table, &mut book, DEFAULT_WORKSPACE_ID).running);
}

#[test]
fn a_failed_shutdown_is_logged_and_can_be_asked_for_again() {
    let mut book = LogBook::new();
    let mut gate = CloseGate::new();
    assert!(gate.request_close());
    assert!(matches!(gate.answer(true), CloseDecision::StopServices));
    assert!(!gate.services_stopped(Some("denied"), &mut book, 0));
    assert_eq!(book.lines("default"), vec!["退出前停止服务失败：denied".to_string()]);
    assert!(gate.request_close());
}

#[test]
fn services_that_ended_leave_the_table_and_a_line() {
    let mut table = ServiceTable::new();
    let mut book = LogBook::new();
    insert_service(&mut table, "a", "r", 0, String::new());
    insert_service(&mut table, "a", "r", 1, String::new());
    insert_service(&mut table, "a", "r", 10, String::new());
    insert_service(&mut table, "b", "r", 0, String::new());
    // The order of the keys: a:0, a:1, a:10, b:0.
    let polls = vec![
        ChildPoll::Exited("exit status: 1".to_string()),
        ChildPoll::Running(Some(7)),
        ChildPoll::Failed("gone".to_string()),
        ChildPoll::Running(None),
    ];
    let status = service_status(&mut table, &mut book, &polls, "a", 0);
    assert!(status.running);
    assert_eq!(status.running_count, 1);
    assert_eq!(status.pid, Some(7));
    assert_eq!(status.services[0].proxy_index, 1);
    assert_eq!(status.services[0].proxy_name, "proxy-1");
    assert_eq!(status.services[0].pid, Some(7));
    assert_eq!(
        status.logs,
        vec![
            "[proxy-0] frpc 已退出：exit status: 1".to_string(),
            "[proxy-10] 读取 frpc 状态失败：gone".to_string(),
        ]
    );
    assert_eq!(status.workspace_running_counts.get("a"), Some(&1));
    assert_eq!(status.workspace_running_counts.get("b"), Some(&1));
    assert_eq!(table.services.len(), 2);
    assert!(!table.is_running("a", 0));
    assert!(table.is_running("a", 1));
}

#[test]
fn several_services_show_no_single_process_id() {
    let mut table = ServiceTable::new();
    let mut book = LogBook::new();
    insert_test_service(&mut table, 0);
    insert_test_service(&mut table, 1);
    let status = running_status(&mut table, &mut book, DEFAULT_WORKSPACE_ID);
    assert_eq!(status.running_count, 2);
    assert_eq!(status.pid, None);
    assert_eq!(status.services[1].pid, Some(101));
}

#[test]
fn stopping_a_workspace_takes_its_services_alone() {
    let mut table = ServiceTable::new();
    insert_service(&mut table, "a", "r", 1, String::new());
    insert_service(&mut table, "b", "r", 0, String::new());
    insert_service(&mut table, "a", "r", 0, String::new());
    let taken = table.take_workspace_services("a");
    assert_eq!(taken.iter().map(|s| s.proxy_index).collect::<Vec<_>>(), vec![0, 1]);
    assert!(table.is_running("b", 0));
    assert!(!table.is_running("a", 0));
    assert!(table.take_workspace_services("a").is_empty());
    assert!(table.take_proxy_service("a", 0).is_none());
    assert_eq!(table.take_all_services().len(), 1);
    assert!(table.services.is_empty());
}

#[test]
fn keys_name_workspace_and_proxy() {
    assert_eq!(proxy_service_key("default", 12), "default:12");
    assert_ne!(proxy_service_key("a:1", 2), proxy_service_key("a", 12));
}

#[test]
fn file_segments_are_safe() {
    assert_eq!(sanitize_file_segment("ip1-web_2"), "ip1-web_2");
    assert_eq!(sanitize_file_segment("../etc/passwd"), "etc-passwd");
    assert_eq!(sanitize_file_segment("网站 a"), "a");
    assert_eq!(sanitize_file_segment("网站"), "proxy");
    assert_eq!(sanitize_file_segment(""), "proxy");
    assert_eq!(service_config_file_name(0, "web"), "001-web.toml");
    assert_eq!(service_config_file_name(41, "a b"), "042-a-b.toml");
    assert_eq!(service_config_file_name(1233, ""), "1234-proxy.toml");
}

#[test]
fn log_lines_name_their_service() {
    assert_eq!(started_line("web", Some(42)), "[web] 已启动，PID 42");
    assert_eq!(started_line("web", None), "[web] 已启动，PID -");
    assert_eq!(stopped_line("web", Some(42)), "[web] frpc 已停止，PID 42");
    assert_eq!(stopped_line("web", None), "[web] frpc 已停止");
    assert_eq!(stop_failure_line("web", "denied"), "[web] 停止 frpc 失败：denied");
    assert_eq!(output_line("[web]", "hello"), "[web] hello");
}

fn runtime(id: &str) -> RuntimeInfo {
    RuntimeInfo {
        id: id.to_string(),
        version: "v1".to_string(),
        platform: "darwin-arm64".to_string(),
        imported_at: String::new(),
        archive_name: String::new(),
        binary_path: format!("/runtimes/{id}/frpc"),
        is_current: false,
        is_in_use: false,
        can_delete: true,
    }
}

#[test]
fn a_service_is_started_step_by_step() {
    let mut table: ServiceTable<TestChild> = ServiceTable::new();
    let mut book = LogBook::new();
    let mut settings = AppSettings::default();
    settings.current_runtime_id = Some("r2".to_string());
    let runtimes = vec![runtime("r1"), runtime("r2")];
    let config = "serverAddr = \"h\"\n[[proxies]]\nname = \"web\"\n";

    let request = begin_start(&table, "w", 0).expect("does not run");
    let with_runtime = request.with_runtime(&runtimes, &settings).expect("installed");
    assert_eq!(with_runtime.runtime.id, "r2");
    let with_binary = with_runtime.with_binary(true).expect("there");
    let prepared = with_binary.with_config(config).expect("a proxy");
    assert_eq!(prepared.file_name, "001-web.toml");
    assert_eq!(prepared.proxy_name, "web");
    assert_eq!(prepared.config_text, render_single_proxy_config(config, 0).expect("a proxy").0);
    record_start(&mut table, &mut book, prepared, TestChild(9), Some(9), 0);

    assert!(begin_start(&table, "w", 0).is_none());
    assert_eq!(book.lines("w"), vec!["[web] 已启动，PID 9".to_string()]);
    assert!(table.take_stale_services("w", config).is_empty());
    let service = table.take_proxy_service("w", 0).expect("runs");
    assert_eq!(service.runtime_id, "r2");
    assert_eq!(service.child.0, 9);
}

#[test]
fn a_start_fails_for_lack_of_runtime_executable_or_proxy() {
    let table: ServiceTable<TestChild> = ServiceTable::new();
    let settings = AppSettings::default();
    let request = begin_start(&table, "w", 0).expect("does not run");
    match request.with_runtime(&[], &settings) {
        Err(e) => assert_eq!(e.message(), "没有可用的 frpc 运行时"),
        Ok(_) => panic!("none is installed"),
    }
    let request = begin_start(&table, "w", 0).expect("does not run");
    match request.with_runtime(&[runtime("r")], &settings).expect("installed").with_binary(false) {
        Err(e) => assert_eq!(e.message(), "当前 frpc 二进制不存在：/runtimes/r/frpc"),
        Ok(_) => panic!("it is missing"),
    }
    let request = begin_start(&table, "w", 3).expect("does not run");
    let checked = request
        .with_runtime(&[runtime("r")], &settings)
        .expect("installed")
        .with_binary(true)
        .expect("there");
    assert!(matches!(checked.with_config("a = 1\n"), Err(AppError::ProxyNotFound(4))));
}
