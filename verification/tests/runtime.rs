use frpc_client_app::clock::format_import_time;
use frpc_client_app::clock::import_time_or;
use frpc_client_app::error::AppError;
use frpc_client_app::release::release_info;
use frpc_client_app::release::FoundAsset;
use frpc_client_app::runtime::adopt_seed_runtime;
use frpc_client_app::runtime::arrange_runtimes;
use frpc_client_app::runtime::binary_name;
use frpc_client_app::runtime::binary_name_for_platform;
use frpc_client_app::runtime::choose_runtime;
use frpc_client_app::runtime::current_platform;
use frpc_client_app::runtime::current_runtime;
use frpc_client_app::runtime::deletable_runtime;
use frpc_client_app::runtime::manifest_at;
use frpc_client_app::runtime::normalize_platform;
use frpc_client_app::runtime::parse_archive_name;
use frpc_client_app::runtime::platform_from_asset_name;
use frpc_client_app::runtime::runtime_id;
use frpc_client_app::runtime::runtime_manifest;
use frpc_client_app::runtime::seed_resource;
use frpc_client_app::runtime::select_current_runtime;
use frpc_client_app::runtime::RuntimeInfo;
use frpc_client_app::settings::AppSettings;

fn installed(id: &str, imported_at: &str) -> RuntimeInfo {
    manifest_at(id, "p", "a", &format!("/{id}"), imported_at.to_string())
}

#[test]
fn release_asset_names_are_mapped_to_supported_platforms() {
    assert_eq!(
        platform_from_asset_name("frp_0.67.0_windows_amd64.zip"),
        Some("windows-x64".to_string())
    );
    assert_eq!(
        platform_from_asset_name("frp_0.67.0_darwin_arm64.tar.gz"),
        Some("darwin-arm64".to_string())
    );
}

#[test]
fn other_asset_names_are_passed_over() {
    assert_eq!(platform_from_asset_name("frp_0.67.0_linux_amd64.tar.gz"), None);
    assert_eq!(platform_from_asset_name("frp_0.67.0_windows_386.zip"), None);
    assert_eq!(platform_from_asset_name("frp_sha256_checksums.txt"), None);
    assert_eq!(platform_from_asset_name("frpx_0.67.0_windows_amd64.zip"), None);
    assert_eq!(platform_from_asset_name(""), None);
    assert_eq!(normalize_platform("darwin", "amd64"), Some("darwin-x64".to_string()));
    assert_eq!(normalize_platform("Darwin", "amd64"), None);
}

#[test]
fn archive_names_tell_version_and_platform() {
    for tail in [".zip", ".tar.gz", ".tgz", ".tgz.tar.gz", ""] {
        let (version, platform) =
            parse_archive_name(&format!("frp_vv0.67.0_windows_arm64{tail}")).expect("a release");
        assert_eq!(version, "v0.67.0");
        assert_eq!(platform, "windows-arm64");
    }
    let (version, _) = parse_archive_name("frp_0.67.0_darwin_amd64_extra.zip").expect("a release");
    assert_eq!(version, "v0.67.0");
    match parse_archive_name("other.zip") {
        Err(e) => assert_eq!(e.message(), "版本包命名不符合 frp 发布格式：other.zip"),
        Ok(_) => panic!("no release"),
    }
    match parse_archive_name("frp_1_linux_amd64.zip") {
        Err(e) => assert_eq!(e.message(), "仅支持 Windows 和 macOS 的 amd64/arm64 版本包"),
        Ok(_) => panic!("not supported"),
    }
}

#[test]
fn ids_and_executables_follow_version_and_platform() {
    assert_eq!(runtime_id("v0.67.0", "darwin-arm64"), "0.67.0_darwin-arm64");
    assert_eq!(runtime_id("0.67.0", "darwin-arm64"), "0.67.0_darwin-arm64");
    assert_eq!(binary_name("windows"), "frpc.exe");
    assert_eq!(binary_name("macos"), "frpc");
    assert_eq!(binary_name_for_platform("windows-x64"), "frpc.exe");
    assert_eq!(binary_name_for_platform("darwin-x64"), "frpc");
    assert_eq!(current_platform("macos", "aarch64"), "darwin-arm64");
    assert_eq!(current_platform("windows", "x86_64"), "windows-x64");
    assert_eq!(current_platform("linux", "x86_64"), "unsupported-x64");
    assert_eq!(binary_name_for_platform(&current_platform("windows", "aarch64")), binary_name("windows"));
}

#[test]
fn runtimes_are_listed_with_the_newest_first() {
    let mut settings = AppSettings::default();
    settings.current_runtime_id = Some("2_p".to_string());
    let listed = arrange_runtimes(
        vec![
            installed("1", "2024-01-01"),
            installed("2", "2025-01-01"),
            installed("3", "2024-01-01"),
            installed("4", "2024-06-01"),
        ],
        &settings,
    );
    let ids: Vec<&str> = listed.iter().map(|r| r.id.as_str()).collect();
    assert_eq!(ids, vec!["2_p", "4_p", "1_p", "3_p"]);
    assert!(listed[0].is_current);
    assert!(!listed[0].can_delete);
    assert!(!listed[1].is_current);
    assert!(listed[1].can_delete);
    assert_eq!(select_current_runtime(&listed, &settings).expect("chosen").id, "2_p");
    settings.current_runtime_id = Some("x".to_string());
    assert_eq!(current_runtime(&listed, &settings).expect("the first").id, "2_p");
    assert!(select_current_runtime(&[], &settings).is_none());
    assert!(matches!(current_runtime(&[], &settings), Err(AppError::NoRuntime)));
}

#[test]
fn only_an_installed_runtime_can_be_chosen() {
    let runtimes = vec![installed("1", "")];
    let mut settings = AppSettings::default();
    assert!(choose_runtime(&runtimes, &mut settings, "1_p").is_ok());
    assert_eq!(settings.current_runtime_id, Some("1_p".to_string()));
    match choose_runtime(&runtimes, &mut settings, "x") {
        Err(e) => assert_eq!(e.message(), "找不到指定版本：x"),
        Ok(_) => panic!("unknown"),
    }
    assert_eq!(settings.current_runtime_id, Some("1_p".to_string()));
}

#[test]
fn only_a_free_runtime_can_be_deleted() {
    let mut runtimes = vec![installed("1", ""), installed("2", ""), installed("3", "")];
    runtimes[0].is_current = true;
    runtimes[1].is_in_use = true;
    match deletable_runtime(&runtimes, "1_p") {
        Err(e) => assert_eq!(e.message(), "当前版本或服务正在使用的版本不可删除"),
        Ok(_) => panic!("current"),
    }
    assert!(matches!(deletable_runtime(&runtimes, "2_p"), Err(AppError::RuntimeProtected)));
    assert_eq!(deletable_runtime(&runtimes, "3_p").expect("free").id, "3_p");
    match deletable_runtime(&runtimes, "x") {
        Err(e) => assert_eq!(e.message(), "找不到版本：x"),
        Ok(_) => panic!("unknown"),
    }
}

#[test]
fn a_manifest_records_the_installation() {
    let info = runtime_manifest("v1.2", "windows-x64", "a.zip", "C:/frpc.exe");
    assert_eq!(info.id, "1.2_windows-x64");
    assert_eq!(info.version, "v1.2");
    assert_eq!(info.archive_name, "a.zip");
    assert_eq!(info.binary_path, "C:/frpc.exe");
    assert!(!info.is_current && !info.is_in_use && info.can_delete);
    assert!(chrono::DateTime::parse_from_rfc3339(&info.imported_at).is_ok());
    assert_eq!(manifest_at("1", "p", "a", "b", "t".to_string()).imported_at, "t");
}

#[test]
fn the_seed_runtime_is_adopted_once() {
    assert_eq!(seed_resource("darwin-arm64", "frpc"), "resources/frpc/darwin-arm64/frpc");
    let mut settings = AppSettings::default();
    assert!(adopt_seed_runtime(&mut settings, "darwin-arm64"));
    assert_eq!(settings.current_runtime_id, Some("0.67.0_darwin-arm64".to_string()));
    settings.current_runtime_id = Some("own".to_string());
    assert!(!adopt_seed_runtime(&mut settings, "darwin-arm64"));
    assert_eq!(settings.current_runtime_id, Some("own".to_string()));
}

#[test]
fn a_release_offers_the_supported_files() {
    let found = ["frp_1_linux_amd64.tar.gz", "frp_1_darwin_arm64.tar.gz", "notes.txt", "frp_1_windows_amd64.zip"]
        .iter()
        .map(|name| FoundAsset { name: name.to_string(), download_url: format!("https://x/{name}") })
        .collect();
    let info = release_info("v1".to_string(), "https://x".to_string(), found);
    assert_eq!(info.version, "v1");
    assert_eq!(info.html_url, "https://x");
    assert_eq!(info.assets.len(), 2);
    assert_eq!(info.assets[0].name, "frp_1_darwin_arm64.tar.gz");
    assert_eq!(info.assets[0].platform, Some("darwin-arm64".to_string()));
    assert_eq!(info.assets[1].download_url, "https://x/frp_1_windows_amd64.zip");
}

#[test]
fn import_times_are_shown_to_the_minute() {
    let stamp = "2024-01-02T03:04:05.678+00:00";
    let expected = chrono::DateTime::parse_from_rfc3339(stamp)
        .expect("a time")
        .with_timezone(&chrono::Local)
        .format("%Y/%m/%d %H:%M")
        .to_string();
    assert_eq!(format_import_time(stamp), expected);
    assert_eq!(format_import_time(stamp).len(), 16);
    assert_eq!(format_import_time("yesterday"), "yesterday");
    assert_eq!(import_time_or(Some("now".to_string()), "x"), "now");
    assert_eq!(import_time_or(None, "x"), "x");
}
