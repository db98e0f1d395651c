use dsh_desktop::error::AppError;
use dsh_desktop::manifest::{wire_manifest, Dep, ProfileManifest, WireSpecs};
use dsh_desktop::store::{Store, StoreItem};
use dsh_desktop::wiring::{
    ensure_wiring, finish_wiring, plugin_dep_spec, profile_install_args, wiring_deferred,
    wiring_specs, WiringPlan,
};

fn dep(name: &str, spec: &str) -> Dep {
    Dep { name: name.to_string(), spec: Some(spec.to_string()) }
}

fn web_manifest() -> ProfileManifest {
    ProfileManifest {
        deps: Some(vec![
            dep("other", "1.0.0"),
            dep("old-plugin", "link:../../desktop/kernels/1.0.0/plugins/old-plugin"),
        ]),
        bundles: Some(vec![
            Some("@deepseek-ai/dsh-base".to_string()),
            Some("@deepseek-ai/dsh-web-app".to_string()),
            Some("old-plugin".to_string()),
        ]),
    }
}

fn two_specs() -> WireSpecs {
    let mut specs = WireSpecs::new();
    specs.insert(
        "new-plugin".to_string(),
        "link:../../desktop/kernels/9.9.9/plugins/new-plugin".to_string(),
        true,
    );
    specs.insert(
        "plain-plugin".to_string(),
        "link:../../desktop/kernels/9.9.9/plugins/plain-plugin".to_string(),
        false,
    );
    specs
}

fn dep_value<'a>(m: &'a ProfileManifest, name: &str) -> Option<&'a str> {
    m.deps
        .as_ref()
        .unwrap()
        .iter()
        .find(|d| d.name == name)
        .and_then(|d| d.spec.as_deref())
}

fn bundle_names(m: &ProfileManifest) -> Vec<String> {
    m.bundles.as_ref().unwrap().iter().filter_map(|b| b.clone()).collect()
}

#[test]
fn wire_manifest_applies_and_prunes() {
    let mut root = web_manifest();
    let specs = two_specs();

    let changed = wire_manifest(&mut root, &specs, "web").expect("wire");
    assert!(changed);
    assert_eq!(
        dep_value(&root, "new-plugin").unwrap(),
        "link:../../desktop/kernels/9.9.9/plugins/new-plugin"
    );
    assert!(dep_value(&root, "plain-plugin").is_some());
    assert!(dep_value(&root, "other").is_some()); // 用户/CLI 条目保留
    assert!(dep_value(&root, "old-plugin").is_none()); // 已卸载条目清退
    let bundles = bundle_names(&root);
    assert!(bundles.contains(&"@deepseek-ai/dsh-base".to_string()));
    assert!(bundles.contains(&"new-plugin".to_string()));
    assert!(!bundles.contains(&"plain-plugin".to_string())); // 非 bundle 不进层
    assert!(!bundles.contains(&"old-plugin".to_string()));

    let changed = wire_manifest(&mut root, &specs, "web").expect("wire again");
    assert!(!changed);
}

#[test]
fn wire_manifest_orders_template_user_then_managed_layers() {
    let mut root = web_manifest();
    root.deps.as_mut().unwrap().push(dep("user-layer", "^2.0.0"));
    root.bundles.as_mut().unwrap().insert(0, Some("user-layer".to_string()));
    wire_manifest(&mut root, &two_specs(), "web").unwrap();
    assert_eq!(
        bundle_names(&root),
        vec![
            "@deepseek-ai/dsh-base".to_string(),
            "@deepseek-ai/dsh-web-app".to_string(),
            "user-layer".to_string(),
            "new-plugin".to_string(),
        ]
    );
}

#[test]
fn wire_manifest_refuses_manifests_without_the_wired_sections() {
    let mut no_deps = ProfileManifest { deps: None, bundles: Some(Vec::new()) };
    match wire_manifest(&mut no_deps, &two_specs(), "web") {
        Err(AppError::Plugin(m)) => assert_eq!(m, "profile manifest 缺少 dependencies"),
        other => panic!("unexpected {other:?}"),
    }
    let mut no_bundles = ProfileManifest { deps: Some(Vec::new()), bundles: None };
    match wire_manifest(&mut no_bundles, &two_specs(), "web") {
        Err(AppError::Plugin(m)) => assert_eq!(m, "profile manifest 缺少 dsh.profile.bundles"),
        other => panic!("unexpected {other:?}"),
    }
}

fn item(id: &str, name: &str) -> StoreItem {
    let mut it = StoreItem::default();
    it.id = id.to_string();
    it.name = name.to_string();
    it
}

#[test]
fn dependency_specs_point_at_the_kernel_plugin_dir() {
    let data_dir = "/home/u/.dsh/desktop";
    assert_eq!(
        plugin_dep_spec(data_dir, "web", "1.0.0", "x", false),
        "link:../../desktop/kernels/1.0.0/plugins/x"
    );
    assert_eq!(
        plugin_dep_spec(data_dir, "web", "1.0.0", "x", true),
        "file:../../desktop/kernels/1.0.0/plugins/x"
    );
    let items = vec![item("b", "b-name"), item("a", "a-name")];
    let modes = vec!["copy".to_string(), "link".to_string()];
    let specs = wiring_specs(data_dir, "web", "2.0.0", &items, &modes, &vec![false, true]);
    assert_eq!(specs.len(), 2);
    assert_eq!(specs.entries[0].name, "a-name");
    assert_eq!(specs.entries[0].spec, "link:../../desktop/kernels/2.0.0/plugins/a");
    assert!(specs.entries[0].bundle);
    assert_eq!(specs.entries[1].name, "b-name");
    assert_eq!(specs.entries[1].spec, "file:../../desktop/kernels/2.0.0/plugins/b");
}

#[test]
fn wiring_waits_for_a_kernel_only_when_plugins_exist() {
    let mut store = Store::default();
    assert!(!wiring_deferred(&None, &store));
    store.items.push(item("a", "a"));
    assert!(wiring_deferred(&None, &store));
    assert!(!wiring_deferred(&Some("1.0.0".to_string()), &store));
}

#[test]
fn wiring_plan_installs_only_on_change_or_missing_modules() {
    let specs = two_specs();
    match ensure_wiring(&specs, Some(web_manifest()), "web", false) {
        Ok(WiringPlan::Install { wired, write, manifest }) => {
            assert_eq!(wired, 2);
            assert!(write);
            assert!(dep_value(&manifest, "old-plugin").is_none());
        }
        _ => panic!("expected an install"),
    }
    let mut settled = web_manifest();
    wire_manifest(&mut settled, &specs, "web").unwrap();
    match ensure_wiring(&specs, Some(settled.clone()), "web", false) {
        Ok(WiringPlan::Done { wired }) => assert_eq!(wired, 2),
        _ => panic!("expected nothing to do"),
    }
    match ensure_wiring(&specs, Some(settled), "web", true) {
        Ok(WiringPlan::Install { write, .. }) => assert!(!write),
        _ => panic!("expected an install"),
    }
    match ensure_wiring(&specs, None, "web", false) {
        Err(AppError::Plugin(m)) => assert_eq!(m, "profile 尚未初始化"),
        _ => panic!("expected an error"),
    }
}

#[test]
fn failed_profile_install_reports_code_and_log() {
    let (ok, restore) = finish_wiring(3, true, Ok((true, Some(0))), "/l");
    assert_eq!(ok.unwrap(), (3, true));
    assert!(!restore);
    let (failed, restore) =
        finish_wiring(3, true, Ok((false, Some(1))), "/logs/plugin-wiring.log");
    match failed {
        Err(AppError::Plugin(m)) => assert_eq!(
            m,
            "pnpm install 在 profile 中失败（退出码 Some(1)），已回滚 profile 配置，详情见日志：/logs/plugin-wiring.log"
        ),
        _ => panic!("expected an error"),
    }
    assert!(restore);
    match finish_wiring(0, false, Ok((false, None)), "x") {
        (Err(AppError::Plugin(m)), restore) => {
            assert!(m.contains("退出码 None"));
            assert!(!restore);
        }
        _ => panic!("expected an error"),
    }
    match finish_wiring(0, false, Ok((false, Some(-2))), "x").0 {
        Err(AppError::Plugin(m)) => assert!(m.contains("退出码 Some(-2)")),
        _ => panic!("expected an error"),
    }
    assert_eq!(
        profile_install_args(),
        vec!["install", "--reporter=append-only", "--config.strict-dep-builds=false"]
    );
}

#[test]
fn unstartable_pnpm_rolls_back_written_manifest() {
    match finish_wiring(2, true, Err("not found".to_string()), "/l") {
        (Err(AppError::Io(m)), restore) => {
            assert_eq!(m, "无法运行 pnpm（not found）");
            assert!(restore);
        }
        _ => panic!("expected an error"),
    }
    match finish_wiring(2, false, Err("x".to_string()), "/l") {
        (Err(AppError::Io(_)), restore) => assert!(!restore),
        _ => panic!("expected an error"),
    }
    let (ok, restore) = finish_wiring(2, false, Ok((true, None)), "/l");
    assert_eq!(ok.unwrap(), (2, false));
    assert!(!restore);
}
