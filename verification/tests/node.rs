use dsh_desktop::node::{compatible, exe_name, parse_version, probe, resolve, version_of, NodeInfo};

#[test]
fn parses_node_version_output() {
    assert_eq!(parse_version("v22.19.0\n"), Some((22, 19, 0)));
    assert_eq!(parse_version("  v24.1.3-nightly2025 "), Some((24, 1, 3)));
    assert_eq!(parse_version("v20.5.1.7"), Some((20, 5, 1)));
    assert_eq!(parse_version("22.19.0"), None);
    assert_eq!(parse_version("v22.19"), None);
    assert_eq!(parse_version("v22.x.0"), None);
    assert_eq!(parse_version("v22.19.x"), None);
    assert_eq!(parse_version("v4294967296.0.0"), None);
    assert_eq!(parse_version(""), None);
}

#[test]
fn engine_range_is_22_19_or_24_up() {
    assert!(compatible((22, 19, 0)));
    assert!(compatible((22, 25, 3)));
    assert!(!compatible((22, 18, 9)));
    assert!(!compatible((23, 99, 0)));
    assert!(compatible((24, 0, 0)));
    assert!(compatible((30, 1, 1)));
    assert!(!compatible((20, 19, 0)));
}

#[test]
fn reported_version_needs_success_and_shape() {
    assert_eq!(version_of(true, "v22.19.0\n").as_deref(), Some("v22.19.0"));
    assert_eq!(version_of(false, "v22.19.0"), None);
    assert_eq!(version_of(true, "node: command not found"), None);
}

#[test]
fn probe_explains_each_outcome() {
    let missing = probe("/x/node", false, None);
    assert!(!missing.ok);
    assert_eq!(missing.reason, "路径不存在或不可读");
    let silent = probe("/x/node", true, None);
    assert_eq!(silent.reason, "无法读取版本输出（可能不是有效的 node 可执行文件）");
    let good = probe("/x/node", true, Some("v24.2.0".into()));
    assert!(good.ok);
    assert_eq!(good.reason, "可用");
    assert_eq!(good.path, "/x/node");
    let old = probe("/x/node", true, Some("v18.20.4".into()));
    assert!(!old.ok);
    assert_eq!(old.version.as_deref(), Some("v18.20.4"));
    assert_eq!(old.reason, "版本 18.20.4 不满足 dsh 要求（^22.19 || >=24）");
}

fn info(path: &str, ok: bool, reason: &str) -> NodeInfo {
    NodeInfo { path: path.into(), version: None, ok, reason: reason.into() }
}

#[test]
fn resolve_prefers_configured_then_detected() {
    let chosen = resolve(Some(info("/cfg/node", true, "可用")), Some(info("/usr/bin/node", true, "可用")));
    assert_eq!(chosen.path, "/cfg/node");
    let fallback = resolve(Some(info("/cfg/node", false, "路径不存在或不可读")), Some(info("/usr/bin/node", true, "可用")));
    assert_eq!(fallback.path, "/usr/bin/node");
    assert!(fallback.ok);
    assert_eq!(fallback.reason, "配置的路径不可用（路径不存在或不可读），已自动回退到：/usr/bin/node");
    let none = resolve(Some(info("/cfg/node", false, "坏")), None);
    assert_eq!(none.path, "/cfg/node");
    assert!(!none.ok);
    assert_eq!(none.reason, "配置路径不可用，且环境中也未找到 node：坏");
    let detected = resolve(None, Some(info("/usr/bin/node", true, "可用")));
    assert_eq!(detected.path, "/usr/bin/node");
    let nothing = resolve(None, None);
    assert_eq!(nothing.path, "");
    assert!(nothing.reason.starts_with("未检测到 Node.js"));
}

#[test]
fn exe_names_follow_the_host() {
    assert_eq!(exe_name("node", false), "node");
    assert_eq!(exe_name("node", true), "node.exe");
    assert_eq!(exe_name("NODE.EXE", true), "NODE.EXE");
    assert_eq!(exe_name("pnpm.Exe", true), "pnpm.Exe");
}
