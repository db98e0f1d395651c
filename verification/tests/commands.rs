use dsh_desktop::clock::{now_epoch_secs, stamp};
use dsh_desktop::commands::{
    app_err, check_log_name, harness_down, harness_url, is_log_name, promise_pnpm,
    sort_log_files, LogFileEntry, ShellUpdateInfo, UPDATE_AVAILABLE_EVENT,
};
use dsh_desktop::node::NodeInfo;

#[test]
fn app_errors_name_the_data_dir() {
    assert_eq!(app_err("/d", "删除失败"), "删除失败（数据目录：/d）");
}

#[test]
fn pnpm_hand_off_needs_a_usable_node() {
    let bad = NodeInfo { path: "/n".into(), version: None, ok: false, reason: "太旧".into() };
    assert_eq!(promise_pnpm("/d", &bad).unwrap_err(), "太旧");
    let good = NodeInfo { path: "/opt/node/bin/node".into(), version: None, ok: true, reason: "可用".into() };
    let plan = promise_pnpm("/d", &good).unwrap();
    assert_eq!(plan.node_path, "/opt/node/bin/node");
    assert_eq!(plan.node_dir, "/opt/node/bin");
    assert!(plan.install_log.starts_with("/d/logs/pnpm-install-"));
    assert!(plan.install_log.ends_with(".log"));
    let bare = NodeInfo { path: "node".into(), version: None, ok: true, reason: String::new() };
    assert_eq!(promise_pnpm("/d", &bare).unwrap().node_dir, "");
}

fn entry(name: &str) -> LogFileEntry {
    LogFileEntry { name: name.into(), size: name.len() as u64 }
}

#[test]
fn log_files_list_newest_name_first() {
    let sorted = sort_log_files(vec![
        entry("install-0.1.0-rc.6.log"),
        entry("kernel.log"),
        entry("plugin-wiring.log"),
        entry("install-0.1.0.log"),
    ]);
    let names: Vec<&str> = sorted.iter().map(|e| e.name.as_str()).collect();
    assert_eq!(
        names,
        vec!["plugin-wiring.log", "kernel.log", "install-0.1.0.log", "install-0.1.0-rc.6.log"]
    );
    let mut a = entry("same.log");
    a.size = 1;
    let mut b = entry("same.log");
    b.size = 2;
    let ties = sort_log_files(vec![a, b]);
    assert_eq!(ties[0].size, 1);
    assert_eq!(ties[1].size, 2);
}

#[test]
fn log_names_and_extensions() {
    assert!(is_log_name("kernel.log"));
    assert!(is_log_name("a.b.log"));
    assert!(!is_log_name(".log"));
    assert!(!is_log_name("kernel.txt"));
    assert!(!is_log_name("log"));
    assert!(!is_log_name("kernel.log.1"));
    assert!(check_log_name("kernel.log").is_ok());
    assert_eq!(check_log_name("").unwrap_err(), "非法的日志文件名：");
    assert_eq!(check_log_name("../x.log").unwrap_err(), "非法的日志文件名：../x.log");
    assert!(check_log_name("a\\b.log").is_err());
    assert!(check_log_name("a..log").is_err());
}

#[test]
fn harness_url_is_the_parsed_loopback_address() {
    assert_eq!(harness_url(3090).unwrap(), "http://127.0.0.1:3090/");
    assert_eq!(harness_url(80).unwrap(), "http://127.0.0.1/");
    assert_eq!(
        harness_down(3090),
        "内核未在运行（端口 3090），请先点击「启动工作台」"
    );
}

#[test]
fn timestamps_are_decimal_seconds() {
    assert_eq!(stamp(Some(1700000000)), "1700000000");
    assert_eq!(stamp(Some(0)), "0");
    assert_eq!(stamp(None), "");
    let now = now_epoch_secs();
    assert!(!now.is_empty() && now.chars().all(|c| c.is_ascii_digit()));
}

#[test]
fn shell_update_state() {
    let info = ShellUpdateInfo { current: "0.3.0".into(), available: Some("0.4.0".into()) };
    assert_eq!(info.available.as_deref(), Some("0.4.0"));
    assert_eq!(UPDATE_AVAILABLE_EVENT, "shell-update-available");
}
