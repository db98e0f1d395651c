use std::path::{Component, Path, PathBuf};
use dsh_desktop::paths::{
    kernel_meta_file, kernel_plugin_dir, plugin_log_path, profile_dir, relative_path,
    spec_path_string, store_file, wiring_log_path,
};
use dsh_desktop::settings::{Settings, DEFAULT_PROFILE};

#[test]
fn computes_relative_paths() {
    let from = "/home/u/.dsh/profiles/web";
    let to = "/home/u/.dsh/desktop/kernels/0.1.1/plugins/x";
    assert_eq!(relative_path(from, to), "../../desktop/kernels/0.1.1/plugins/x");
    assert_eq!(relative_path(from, from), "");
}

#[test]
fn spec_path_uses_forward_slashes() {
    let rel = "../../desktop/kernels/1/plugins/x";
    assert_eq!(spec_path_string(rel), "../../desktop/kernels/1/plugins/x");
}

#[test]
fn settings_profile_defaults_to_web() {
    let s = Settings::default();
    assert_eq!(s.profile, DEFAULT_PROFILE);
    assert_eq!(DEFAULT_PROFILE, "web");
}

#[test]
fn spec_paths_turn_backslashes_into_slashes() {
    assert_eq!(
        spec_path_string("..\\..\\desktop\\kernels\\1\\plugins\\x"),
        "../../desktop/kernels/1/plugins/x"
    );
}

#[test]
fn data_layout_paths() {
    let d = "/home/u/.dsh/desktop";
    assert_eq!(store_file(d), "/home/u/.dsh/plugins/store.json");
    assert_eq!(kernel_plugin_dir(d, "0.1.1", "x"), "/home/u/.dsh/desktop/kernels/0.1.1/plugins/x");
    assert_eq!(
        kernel_meta_file(d, "0.1.1", "x"),
        "/home/u/.dsh/desktop/kernels/0.1.1/plugins/.meta/x.json"
    );
    assert_eq!(profile_dir(d, "web"), "/home/u/.dsh/profiles/web");
    assert_eq!(wiring_log_path(d), "/home/u/.dsh/desktop/logs/plugin-wiring.log");
    assert_eq!(plugin_log_path(d, "x"), "/home/u/.dsh/desktop/logs/plugin-x.log");
    assert_eq!(relative_path("/a/b", "/c/d"), "../../c/d");
    assert_eq!(relative_path("a/b", "/c"), "/c");
}

fn folded(p: &Path) -> PathBuf {
    let mut out = PathBuf::new();
    for c in p.components() {
        match c {
            Component::ParentDir => {
                out.pop();
            }
            other => out.push(other.as_os_str()),
        }
    }
    out
}

#[test]
fn relative_path_joined_to_its_start_leads_back() {
    for (from, to) in [
        ("/home/u/.dsh/profiles/web", "/home/u/desktop/kernels/0.1.1/plugins/x"),
        ("/a/b/c", "/a/b"),
        ("/a/b", "/a/b/c/d"),
        ("/a", "/a"),
        ("rel/x/y", "rel/z"),
    ] {
        let rel = relative_path(from, to);
        assert_eq!(folded(&Path::new(from).join(&rel)), Path::new(to), "{from} -> {to}");
    }
}

fn std_relative(from_dir: &Path, to: &Path) -> PathBuf {
    let from: Vec<Component> = from_dir.components().collect();
    let target: Vec<Component> = to.components().collect();
    let mut common = 0;
    while common < from.len() && common < target.len() && from[common] == target[common] {
        common += 1;
    }
    if common == 0 {
        return to.to_path_buf();
    }
    let mut out = PathBuf::new();
    for _ in common..from.len() {
        out.push("..");
    }
    for part in &target[common..] {
        out.push(part.as_os_str());
    }
    out
}

#[test]
fn relative_path_agrees_with_std_components_on_this_host() {
    for (from, to) in [
        ("/home/u/.dsh/profiles/web", "/home/u/desktop/kernels/0.1.1/plugins/x"),
        ("/a//b/./c/", "/a/b/d"),
        ("./a/b", "./a/c"),
        ("a\\b/c", "a\\b/d\\e"),
        ("/a", "b"),
    ] {
        let want = std_relative(Path::new(from), Path::new(to));
        assert_eq!(relative_path(from, to), want.to_string_lossy(), "{from} -> {to}");
    }
    assert!(dsh_desktop::paths::is_separator('/'));
}
