use dsh_desktop::process::{heartbeat, merge_extra_path};
use std::path::PathBuf;

fn text(p: &PathBuf) -> &str {
    p.to_str().unwrap()
}

#[test]
fn merge_extra_path_no_extras_returns_base() {
    assert_eq!(merge_extra_path("/usr/bin:/bin", &[], ':'), "/usr/bin:/bin");
}

#[test]
fn merge_extra_path_prepends_single_dir() {
    let dir = PathBuf::from("/usr/local/bin");
    let merged = merge_extra_path("/usr/bin:/bin", &[text(&dir)], ':');
    assert_eq!(merged, "/usr/local/bin:/usr/bin:/bin");
}

#[test]
fn merge_extra_path_preserves_order() {
    let first = PathBuf::from("/opt/homebrew/bin");
    let second = PathBuf::from("/usr/local/bin");
    let merged = merge_extra_path("/usr/bin", &[text(&first), text(&second)], ':');
    assert_eq!(merged, "/opt/homebrew/bin:/usr/local/bin:/usr/bin");
}

#[test]
fn merge_extra_path_skips_empty_segments() {
    let empty = PathBuf::from("");
    let blank = PathBuf::from("   ");
    let real = PathBuf::from("/usr/local/bin");
    let merged = merge_extra_path("/usr/bin", &[text(&empty), text(&blank), text(&real)], ':');
    assert_eq!(merged, "/usr/local/bin:/usr/bin");
}

#[test]
fn merge_extra_path_empty_base_still_includes_extras() {
    let dir = PathBuf::from("/usr/local/bin");
    let merged = merge_extra_path("", &[text(&dir)], ':');
    assert_eq!(merged, "/usr/local/bin");
}

#[test]
fn merge_extra_path_all_extras_blank_falls_back_to_base() {
    let empty = PathBuf::from("");
    let merged = merge_extra_path("/usr/bin:/bin", &[text(&empty)], ':');
    assert_eq!(merged, "/usr/bin:/bin");
}

#[test]
fn merge_extra_path_trims_entries_and_uses_given_separator() {
    let merged = merge_extra_path("C:\\Windows", &["  C:\\node ", "D:\\pnpm"], ';');
    assert_eq!(merged, "C:\\node;D:\\pnpm;C:\\Windows");
}

#[test]
fn heartbeat_reports_elapsed_seconds() {
    assert_eq!(heartbeat(30), "… 子进程仍在运行（已进行 30 秒）");
}
