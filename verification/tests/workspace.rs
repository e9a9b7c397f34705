use frpc_client_app::error::AppError;
use frpc_client_app::settings::is_valid_log_cleanup_interval;
use frpc_client_app::settings::AppSettings;
use frpc_client_app::text_map::TextMap;
use frpc_client_app::workspace::adopt_workspace_copy;
use frpc_client_app::workspace::config_source;
use frpc_client_app::workspace::ensure_current_workspace;
use frpc_client_app::workspace::ensure_default_workspace;
use frpc_client_app::workspace::ensure_workspace_exists;
use frpc_client_app::workspace::forget_workspace;
use frpc_client_app::workspace::initial_settings;
use frpc_client_app::workspace::next_workspace_number;
use frpc_client_app::workspace::plan_workspace_copy;
use frpc_client_app::workspace::register_workspace;
use frpc_client_app::workspace::remove_workspace_record;
use frpc_client_app::workspace::rename_workspace_record;
use frpc_client_app::workspace::select_workspace;
use frpc_client_app::workspace::workspace_id_at;
use frpc_client_app::workspace::workspace_infos;
use frpc_client_app::workspace::ConfigSource;
use frpc_client_app::workspace::WorkspaceRecord;
use frpc_client_app::workspace::WorkspaceRegistry;
use frpc_client_app::workspace::DEFAULT_WORKSPACE_ID;

fn registry_of(entries: &[(&str, &str)]) -> WorkspaceRegistry {
    WorkspaceRegistry {
        workspaces: entries
            .iter()
            .map(|(id, name)| WorkspaceRecord { id: id.to_string(), name: name.to_string() })
            .collect(),
    }
}

#[test]
fn workspace_removal_selects_neighbor_and_keeps_one_workspace() {
    let mut registry = WorkspaceRegistry {
        workspaces: vec![
            WorkspaceRecord {
                id: "workspace-a".to_string(),
                name: "工作区 A".to_string(),
            },
            WorkspaceRecord {
                id: "workspace-b".to_string(),
                name: "工作区 B".to_string(),
            },
        ],
    };

    let next = remove_workspace_record(&mut registry, "workspace-a")
        .expect("workspace A should be removable");
    assert_eq!(next.id, "workspace-b");
    assert_eq!(registry.workspaces.len(), 1);
    assert!(remove_workspace_record(&mut registry, "workspace-b").is_err());
}

#[test]
fn workspace_rename_validates_and_updates_registry() {
    let mut registry = WorkspaceRegistry {
        workspaces: vec![
            WorkspaceRecord {
                id: "workspace-a".to_string(),
                name: "工作区 A".to_string(),
            },
            WorkspaceRecord {
                id: "workspace-b".to_string(),
                name: "工作区 B".to_string(),
            },
        ],
    };

    let renamed = rename_workspace_record(&mut registry, "workspace-a", " 办公网 ")
        .expect("workspace should be renamed");
    assert_eq!(renamed.name, "办公网");
    assert!(rename_workspace_record(&mut registry, "workspace-a", "").is_err());
    assert!(rename_workspace_record(&mut registry, "workspace-a", "工作区 B").is_err());
}

#[test]
fn removing_the_last_entry_selects_the_one_before() {
    let mut registry = registry_of(&[("a", "A"), ("b", "B"), ("c", "C")]);
    let next = remove_workspace_record(&mut registry, "c").expect("removable");
    assert_eq!(next.id, "b");
    let next = remove_workspace_record(&mut registry, "a").expect("removable");
    assert_eq!(next.id, "b");
    match remove_workspace_record(&mut registry, "b") {
        Err(e) => assert_eq!(e.message(), "至少需要保留一个工作区"),
        Ok(_) => panic!("the last one stays"),
    }
}

#[test]
fn removing_an_unknown_workspace_is_a_fault() {
    let mut registry = registry_of(&[("a", "A"), ("b", "B")]);
    match remove_workspace_record(&mut registry, "x") {
        Err(e) => assert_eq!(e.message(), "找不到工作区：x"),
        Ok(_) => panic!("unknown"),
    }
    assert_eq!(registry.workspaces.len(), 2);
}

#[test]
fn names_are_checked_in_their_order() {
    let mut registry = registry_of(&[("a", "Office"), ("b", "Home")]);
    assert!(matches!(
        rename_workspace_record(&mut registry, "a", " \u{3000}\t"),
        Err(AppError::EmptyWorkspaceName)
    ));
    assert!(matches!(
        rename_workspace_record(&mut registry, "a", "九九九九九九九九九九九九九九九九九九九九九九九九九九九九九九九九九"),
        Err(AppError::LongWorkspaceName)
    ));
    match rename_workspace_record(&mut registry, "a", " hOME ") {
        Err(AppError::DuplicateWorkspaceName(name)) => assert_eq!(name, "hOME"),
        _ => panic!("the name is taken"),
    }
    assert!(matches!(
        rename_workspace_record(&mut registry, "x", "New"),
        Err(AppError::WorkspaceNotFound(_))
    ));
    let own = rename_workspace_record(&mut registry, "a", "OFFICE").expect("its own name");
    assert_eq!(own.name, "OFFICE");
    let long = "a".repeat(32);
    assert_eq!(rename_workspace_record(&mut registry, "a", &long).expect("just fits").name, long);
}

#[test]
fn workspaces_are_found_by_their_id() {
    let registry = registry_of(&[("a", "A"), ("b", "B")]);
    assert_eq!(ensure_workspace_exists(&registry, "b").expect("known").name, "B");
    match ensure_workspace_exists(&registry, "c") {
        Err(e) => assert_eq!(e.message(), "找不到工作区：c"),
        Ok(_) => panic!("unknown"),
    }
}

#[test]
fn infos_carry_the_running_counts() {
    let registry = registry_of(&[("a", "A"), ("b", "B")]);
    let mut counts: TextMap<usize> = TextMap::new();
    counts.insert("b".to_string(), 3);
    counts.insert("z".to_string(), 9);
    let infos = workspace_infos(&registry, &counts);
    assert_eq!(infos.len(), 2);
    assert_eq!(infos[0].running_count, 0);
    assert_eq!(infos[1].running_count, 3);
    assert_eq!(infos[1].name, "B");
}

#[test]
fn the_requested_workspace_is_selected_and_becomes_current() {
    let registry = registry_of(&[("a", "A"), ("b", "B")]);
    let mut settings = AppSettings::default();
    let (record, changed) = select_workspace(&registry, &mut settings, Some("b")).expect("known");
    assert_eq!(record.id, "b");
    assert!(changed);
    let (record, changed) = select_workspace(&registry, &mut settings, None).expect("current");
    assert_eq!(record.id, "b");
    assert!(!changed);
    let (record, changed) = select_workspace(&registry, &mut settings, Some("x")).expect("first");
    assert_eq!(record.id, "a");
    assert!(changed);
    assert_eq!(settings.current_workspace_id, Some("a".to_string()));
}

#[test]
fn without_workspaces_none_is_selected() {
    let registry = registry_of(&[]);
    let mut settings = AppSettings::default();
    assert!(matches!(
        select_workspace(&registry, &mut settings, None),
        Err(AppError::NoWorkspace)
    ));
}

#[test]
fn the_first_run_makes_one_workspace() {
    let mut registry = registry_of(&[]);
    assert!(ensure_default_workspace(&mut registry));
    assert_eq!(registry.workspaces.len(), 1);
    assert_eq!(registry.workspaces[0].id, DEFAULT_WORKSPACE_ID);
    assert_eq!(registry.workspaces[0].name, "工作区 1");
    assert!(!ensure_default_workspace(&mut registry));
    let settings = initial_settings(&registry);
    assert_eq!(settings.current_workspace_id, Some("default".to_string()));
    assert_eq!(settings.current_runtime_id, None);
    assert!(settings.log_cleanup_intervals.is_empty());
}

#[test]
fn an_unknown_current_workspace_is_replaced() {
    let registry = registry_of(&[("a", "A"), ("b", "B")]);
    let mut settings = AppSettings::default();
    settings.current_workspace_id = Some("gone".to_string());
    assert!(ensure_current_workspace(&mut settings, &registry));
    assert_eq!(settings.current_workspace_id, Some("a".to_string()));
    settings.current_workspace_id = Some("b".to_string());
    assert!(!ensure_current_workspace(&mut settings, &registry));
    assert_eq!(settings.current_workspace_id, Some("b".to_string()));
}

#[test]
fn only_the_default_workspace_takes_over_the_old_configuration() {
    assert!(matches!(config_source("default", true, true), ConfigSource::Existing));
    assert!(matches!(config_source("default", false, true), ConfigSource::Legacy));
    assert!(matches!(config_source("default", false, false), ConfigSource::Default));
    assert!(matches!(config_source("other", false, true), ConfigSource::Default));
}

#[test]
fn a_copy_has_the_least_free_number_and_a_fresh_id() {
    let mut registry = registry_of(&[("default", "工作区 1"), ("b", "工作区 3")]);
    assert_eq!(next_workspace_number(&registry), 2);
    let copy = plan_workspace_copy(&registry, "default").expect("a copy");
    assert_eq!(copy.name, "工作区 2");
    assert!(copy.id.starts_with("workspace-"));
    assert!(copy.id["workspace-".len()..].parse::<i64>().expect("a time") > 1_600_000_000_000);
    register_workspace(&mut registry, &copy);
    let second = plan_workspace_copy(&registry, "b").expect("a copy");
    assert_eq!(second.name, "工作区 4");
    assert_ne!(second.id, copy.id);
    assert!(matches!(
        plan_workspace_copy(&registry, "x"),
        Err(AppError::WorkspaceNotFound(_))
    ));
}

#[test]
fn colliding_ids_get_a_suffix() {
    assert_eq!(workspace_id_at(1700000000000, 1), "workspace-1700000000000");
    assert_eq!(workspace_id_at(1700000000000, 2), "workspace-1700000000000-2");
    assert_eq!(workspace_id_at(-5, 10), "workspace--5-10");
}

#[test]
fn a_copy_inherits_the_cleanup_interval() {
    let mut settings = AppSettings::default();
    settings.set_log_cleanup_interval("a", 30).expect("supported");
    let copy = WorkspaceRecord { id: "c".to_string(), name: "C".to_string() };
    adopt_workspace_copy(&mut settings, "a", &copy);
    assert_eq!(settings.log_cleanup_interval("c"), 30);
    assert_eq!(settings.current_workspace_id, Some("c".to_string()));
    let plain = WorkspaceRecord { id: "d".to_string(), name: "D".to_string() };
    adopt_workspace_copy(&mut settings, "b", &plain);
    assert_eq!(settings.log_cleanup_interval("d"), 0);
}

#[test]
fn a_removed_workspace_leaves_the_settings() {
    let mut settings = AppSettings::default();
    settings.current_workspace_id = Some("a".to_string());
    settings.set_log_cleanup_interval("a", 15).expect("supported");
    settings.set_log_cleanup_interval("b", 60).expect("supported");
    assert!(forget_workspace(&mut settings, "a", "b"));
    assert_eq!(settings.current_workspace_id, Some("b".to_string()));
    assert_eq!(settings.log_cleanup_interval("a"), 0);
    assert_eq!(settings.log_cleanup_interval("b"), 60);
    assert!(!forget_workspace(&mut settings, "a", "b"));
}

#[test]
fn log_cleanup_intervals_are_restricted_to_supported_options() {
    for interval in [0, 15, 30, 60, 360, 720, 1440] {
        assert!(is_valid_log_cleanup_interval(interval));
    }
    assert!(!is_valid_log_cleanup_interval(1));
    assert!(!is_valid_log_cleanup_interval(1441));
}

#[test]
fn new_settings_have_no_log_cleanup() {
    let settings = AppSettings::default();
    assert!(settings.log_cleanup_intervals.is_empty());
    assert_eq!(settings.log_cleanup_interval("default"), 0);
}

#[test]
fn an_unsupported_interval_is_refused_and_counts_as_none() {
    let mut settings = AppSettings::default();
    match settings.set_log_cleanup_interval("a", 17) {
        Err(e) => assert_eq!(e.message(), "不支持的日志定时清理周期"),
        Ok(_) => panic!("unsupported"),
    }
    settings.log_cleanup_intervals.insert("a".to_string(), 17);
    assert_eq!(settings.log_cleanup_interval("a"), 0);
    settings.set_log_cleanup_interval("a", 1440).expect("supported");
    assert_eq!(settings.duplicate().log_cleanup_interval("a"), 1440);
    settings.set_log_cleanup_interval("a", 0).expect("supported");
    assert!(settings.log_cleanup_intervals.is_empty());
}
