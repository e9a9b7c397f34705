use frpc_client_app::logs::next_log_cleanup_at;
use frpc_client_app::logs::LogBook;
use frpc_client_app::text_map::TextMap;

const SECOND: u64 = 1_000_000_000;
const MINUTE: u64 = 60 * SECOND;

#[test]
fn workspace_logs_can_be_cleared_manually_and_on_schedule() {
    let mut book = LogBook::new();
    let workspace_id = "workspace-a";
    let other_workspace_id = "workspace-b";
    let start = 5 * SECOND;
    book.configure_log_cleanup_policy(workspace_id, 15, start);
    book.configure_log_cleanup_policy(other_workspace_id, 30, start);
    book.append_log(workspace_id, "first".to_string(), start);
    book.append_log(other_workspace_id, "other".to_string(), start);

    let later = start + 15 * MINUTE + SECOND;
    assert!(book.policies.get(workspace_id).expect("cleanup policy should exist").next_cleanup_at < later as u128);
    book.append_log(workspace_id, "second".to_string(), later);
    assert_eq!(book.logs.get(workspace_id).cloned(), Some(vec!["second".to_string()]));
    assert_eq!(book.logs.get(other_workspace_id).cloned(), Some(vec!["other".to_string()]));

    book.clear_workspace_log_buffer(workspace_id, later);
    assert!(!book.logs.contains_key(workspace_id));
    assert!(book.logs.contains_key(other_workspace_id));
    assert!(
        book.policies
            .get(workspace_id)
            .expect("cleanup policy should remain enabled")
            .next_cleanup_at
            > later as u128
    );
}

#[test]
fn the_next_cleanup_comes_after_the_interval() {
    assert_eq!(next_log_cleanup_at(7, 15), 900_000_000_007);
    assert_eq!(next_log_cleanup_at(0, 1440), 86_400_000_000_000);
}

#[test]
fn the_last_lines_are_kept() {
    let mut book = LogBook::new();
    for n in 0..250 {
        book.append_log("w", format!("line {n}"), 0);
    }
    let lines = book.lines("w");
    assert_eq!(lines.len(), 240);
    assert_eq!(lines[0], "line 10");
    assert_eq!(lines[239], "line 249");
    assert!(book.lines("x").is_empty());
}

#[test]
fn an_interval_in_force_keeps_its_schedule() {
    let mut book = LogBook::new();
    book.configure_log_cleanup_policy("w", 15, 0);
    book.configure_log_cleanup_policy("w", 15, 10 * MINUTE);
    assert_eq!(book.policies.get("w").expect("policy").next_cleanup_at, (15 * MINUTE) as u128);
    book.configure_log_cleanup_policy("w", 30, 10 * MINUTE);
    assert_eq!(book.policies.get("w").expect("policy").next_cleanup_at, (40 * MINUTE) as u128);
    book.configure_log_cleanup_policy("w", 0, 10 * MINUTE);
    assert!(book.policies.get("w").is_none());
}

#[test]
fn nothing_is_cleared_before_it_is_due() {
    let mut book = LogBook::new();
    book.configure_log_cleanup_policy("w", 15, 0);
    book.append_log("w", "kept".to_string(), 0);
    book.clear_workspace_logs_if_due("w", 15 * MINUTE - 1);
    assert_eq!(book.lines("w").len(), 1);
    book.clear_workspace_logs_if_due("w", 15 * MINUTE);
    assert!(book.lines("w").is_empty());
    book.append_log("x", "kept".to_string(), 0);
    book.clear_workspace_logs_if_due("x", u64::MAX);
    assert_eq!(book.lines("x").len(), 1);
}

#[test]
fn policies_follow_the_settings() {
    let mut intervals: TextMap<u64> = TextMap::new();
    intervals.insert("kept".to_string(), 15);
    intervals.insert("changed".to_string(), 30);
    intervals.insert("odd".to_string(), 17);
    intervals.insert("off".to_string(), 0);
    let mut book = LogBook::new();
    book.configure_log_cleanup_policy("kept", 15, 0);
    book.configure_log_cleanup_policy("changed", 60, 0);
    book.configure_log_cleanup_policy("gone", 60, 0);
    book.sync_log_cleanup_policies(&intervals, MINUTE);
    assert_eq!(book.policies.len(), 2);
    assert_eq!(book.policies.get("kept").expect("policy").next_cleanup_at, (15 * MINUTE) as u128);
    let changed = book.policies.get("changed").expect("policy");
    assert_eq!(changed.interval_minutes, 30);
    assert_eq!(changed.next_cleanup_at, (31 * MINUTE) as u128);
    book.sync_log_cleanup_policies(&intervals, 2 * MINUTE);
    assert_eq!(book.policies.get("changed").expect("policy").next_cleanup_at, (31 * MINUTE) as u128);
}

#[test]
fn a_forgotten_workspace_has_neither_lines_nor_policy() {
    let mut book = LogBook::new();
    book.configure_log_cleanup_policy("w", 15, 0);
    book.append_log("w", "line".to_string(), 0);
    book.append_log("x", "line".to_string(), 0);
    book.forget_workspace("w");
    assert!(book.logs.get("w").is_none());
    assert!(book.policies.is_empty());
    assert_eq!(book.lines("x").len(), 1);
}
