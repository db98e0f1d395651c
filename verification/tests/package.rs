use dsh_desktop::error::AppError;
use dsh_desktop::package::{
    build_args, build_needed, build_result, deps_args, deps_result, entry_candidates,
    manifest_has_deps, manifest_is_bundle, validate_plugin, PluginManifest,
};

fn manifest(name: &str) -> PluginManifest {
    PluginManifest {
        name: Some(name.into()),
        main: None,
        has_exports: false,
        bundle_patch: None,
        prepare: None,
        has_deps: false,
        peers: None,
    }
}

fn plugin_message(r: Result<(), AppError>) -> String {
    match r {
        Err(AppError::Plugin(m)) => m,
        other => panic!("unexpected {other:?}"),
    }
}

#[test]
fn validate_plugin_checks_the_load_contract() {
    // 没有 package.json：拒绝
    assert!(validate_plugin(&None, false, false, false).is_err());

    // bundle 层声明了 patch 但文件缺失：拒绝
    let mut m = manifest("p");
    m.bundle_patch = Some("./cordis.patch.yml".into());
    assert!(validate_plugin(&Some(m.clone()), false, false, false).is_err());

    // patch 文件补齐但无运行时入口：仍拒绝
    assert!(validate_plugin(&Some(m.clone()), true, false, false).is_err());

    // 普通依赖型插件：main 指向真实文件才放行
    let mut plain = manifest("p");
    plain.main = Some("lib/index.js".into());
    assert!(validate_plugin(&Some(plain.clone()), false, false, false).is_err());
    assert!(validate_plugin(&Some(plain.clone()), false, true, false).is_ok());

    // bundle 层 + 有效运行时入口：放行
    let mut both = plain.clone();
    both.bundle_patch = Some("./cordis.patch.yml".into());
    assert!(validate_plugin(&Some(both), true, true, false).is_ok());

    // exports 入口存在即放行
    let mut exports = manifest("p");
    exports.has_exports = true;
    assert!(validate_plugin(&Some(exports), false, false, false).is_ok());

    // 既无 bundle 也无入口：拒绝
    assert!(validate_plugin(&Some(manifest("p")), false, false, false).is_err());
}

#[test]
fn load_contract_messages() {
    assert_eq!(
        plugin_message(validate_plugin(&None, true, true, true)),
        "不符合 dsh 插件规范：缺少可解析的 package.json"
    );
    assert_eq!(
        plugin_message(validate_plugin(&Some(manifest("")), true, true, true)),
        "不符合 dsh 插件规范：package.json 缺少 name 字段"
    );
    let mut m = manifest("p");
    m.bundle_patch = Some("./cordis.patch.yml".into());
    assert_eq!(
        plugin_message(validate_plugin(&Some(m), false, true, true)),
        "不符合 dsh 插件规范：声明了 bundle 层但包内找不到 patch 文件 \"./cordis.patch.yml\"，内核启动将无法加载该层"
    );
    let mut m = manifest("p");
    m.main = Some("lib/index".into());
    let msg = plugin_message(validate_plugin(&Some(m.clone()), false, false, false));
    assert!(msg.starts_with("不符合 dsh 插件规范：main 入口 \"lib/index\" 在包内不存在"));
    assert!(validate_plugin(&Some(m), false, false, true).is_ok());
    assert_eq!(
        plugin_message(validate_plugin(&Some(manifest("p")), false, false, false)),
        "不符合 dsh 插件规范：既未声明 dsh.bundle.patch，也没有 main/exports 入口，内核无法加载"
    );
}

#[test]
fn entry_candidates_accept_a_missing_js_suffix() {
    let (a, b) = entry_candidates("/store/p", "lib/index");
    assert_eq!(a, "/store/p/lib/index");
    assert_eq!(b, "/store/p/lib/index.js");
}

#[test]
fn manifest_flags() {
    let mut m = manifest("p");
    assert!(!manifest_has_deps(&Some(m.clone())));
    assert!(!manifest_is_bundle(&Some(m.clone())));
    m.has_deps = true;
    m.bundle_patch = Some("x.yml".into());
    assert!(manifest_has_deps(&Some(m.clone())));
    assert!(manifest_is_bundle(&Some(m.clone())));
    m.bundle_patch = Some(String::new());
    assert!(!manifest_is_bundle(&Some(m)));
    assert!(!manifest_has_deps(&None));
    assert!(!manifest_is_bundle(&None));
}

#[test]
fn git_checkouts_build_only_when_prepare_and_entry_missing() {
    let mut m = manifest("p");
    m.prepare = Some("tsdown".into());
    m.main = Some("lib/index.js".into());
    assert!(build_needed(&Some(m.clone()), false, false));
    assert!(!build_needed(&Some(m.clone()), true, false));
    assert!(!build_needed(&Some(m.clone()), false, true));
    m.prepare = Some(String::new());
    assert!(!build_needed(&Some(m.clone()), false, false));
    m.prepare = Some("tsdown".into());
    m.main = None;
    assert!(build_needed(&Some(m), true, true));
    assert!(!build_needed(&None, false, false));
}

#[test]
fn pnpm_outcomes_inside_a_plugin() {
    assert!(build_result(Ok((true, Some(0))), "/l").is_ok());
    match build_result(Ok((false, Some(1))), "/p/.dsh-build.log") {
        Err(AppError::Plugin(m)) => assert_eq!(
            m,
            "插件构建失败（退出码 Some(1)）：`prepare` 未成功生成入口。详情见 /p/.dsh-build.log"
        ),
        other => panic!("unexpected {other:?}"),
    }
    match build_result(Err("not found".into()), "/l") {
        Err(AppError::Io(m)) => assert_eq!(m, "无法运行 pnpm（not found）。请确认已安装 Node.js 与 pnpm"),
        other => panic!("unexpected {other:?}"),
    }
    assert_eq!(deps_result(Ok((true, Some(0))), false, "/l").unwrap(), false);
    assert_eq!(deps_result(Ok((false, Some(1))), true, "/l").unwrap(), true);
    match deps_result(Ok((false, None)), false, "/logs/plugin-x.log") {
        Err(AppError::Plugin(m)) => {
            assert_eq!(m, "插件依赖安装失败（退出码 None），详情见日志：/logs/plugin-x.log")
        }
        other => panic!("unexpected {other:?}"),
    }
    assert_eq!(build_args().len(), 6);
    assert_eq!(build_args()[5], "--config.enable-pre-post-scripts=true");
    assert_eq!(deps_args(), build_args()[..5].to_vec());
}
