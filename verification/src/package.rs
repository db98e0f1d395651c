//! A plugin's `package.json` as the shell reads it, and the checks made on
//! it: the load contract the kernel needs, whether a fresh git checkout must
//! be built, and the outcome of the pnpm runs inside a plugin directory.
use crate::error::{debug_quote, debug_str, AppError, ErrorModel};
use crate::paths::{join, join_path};
use crate::text::{debug_code, from_chars, push_all, push_exit_code, to_chars};
use vstd::prelude::*;

verus! {

/// The fields of a plugin's `package.json` the shell looks at; a field
/// reads `None` when absent or not a string.
#[derive(Debug, Clone)]
pub struct PluginManifest {
    /// `name`.
    pub name: Option<String>,
    /// `main`.
    pub main: Option<String>,
    /// Whether `exports` is present (Node resolves its target itself).
    pub has_exports: bool,
    /// `dsh.bundle.patch`.
    pub bundle_patch: Option<String>,
    /// `scripts.prepare`.
    pub prepare: Option<String>,
    /// Whether `dependencies` is an object with at least one entry.
    pub has_deps: bool,
    /// The keys of `peerDependencies`, when it is an object.
    pub peers: Option<Vec<String>>,
}

/// Text of an optional field, empty when absent.
pub open spec fn or_empty(o: Option<String>) -> Seq<char> {
    match o {
        Some(s) => s@,
        None => Seq::empty(),
    }
}

fn is_empty_opt(o: &Option<String>) -> (b: bool)
    ensures
        b == (or_empty(*o).len() == 0),
{
    match o {
        Some(s) => s.as_str().is_empty(),
        None => true,
    }
}

/// The plugin declares runtime dependencies (an unreadable manifest
/// declares none).
pub fn manifest_has_deps(m: &Option<PluginManifest>) -> (b: bool)
    ensures
        b == (m matches Some(p) && p.has_deps),
{
    match m {
        Some(p) => p.has_deps,
        None => false,
    }
}

/// The plugin declares a bundle layer: a non-empty `dsh.bundle.patch`.
pub fn manifest_is_bundle(m: &Option<PluginManifest>) -> (b: bool)
    ensures
        b == (m matches Some(p) && or_empty(p.bundle_patch).len() > 0),
{
    match m {
        Some(p) => !is_empty_opt(&p.bundle_patch),
        None => false,
    }
}

/// The files a `main` entry may name inside `dir`: the path itself and the
/// path with `.js` appended (Node allows leaving the suffix out).
pub fn entry_candidates(dir: &str, main: &str) -> (r: (String, String))
    ensures
        r.0@ == join(dir@, main@),
        r.1@ == join(dir@, main@ + ".js"@),
{
    let a = join_path(dir, main);
    let mut js = main.to_string();
    js.append(".js");
    let b = join_path(dir, js.as_str());
    (a, b)
}

/// What the kernel needs to load an installed plugin: a readable manifest
/// with a name; when it declares a bundle layer, the patch file must exist;
/// and, bundle or not, an `exports` entry or a `main` entry that exists.
/// `patch_file`: the declared patch is a file in the plugin directory;
/// `main_file` / `main_js_file`: the `main` entry names a file as is / with
/// `.js` appended.
pub open spec fn load_contract(
    m: Option<PluginManifest>,
    patch_file: bool,
    main_file: bool,
    main_js_file: bool,
) -> Result<(), ErrorModel> {
    match m {
        None => Err(ErrorModel::Plugin("不符合 dsh 插件规范：缺少可解析的 package.json"@)),
        Some(p) => if or_empty(p.name).len() == 0 {
            Err(ErrorModel::Plugin("不符合 dsh 插件规范：package.json 缺少 name 字段"@))
        } else if p.bundle_patch is Some && (or_empty(p.bundle_patch).len() == 0 || !patch_file) {
            Err(
                ErrorModel::Plugin(
                    "不符合 dsh 插件规范：声明了 bundle 层但包内找不到 patch 文件 "@ + debug_str(
                        or_empty(p.bundle_patch),
                    ) + "，内核启动将无法加载该层"@,
                ),
            )
        } else if p.has_exports {
            Ok(())
        } else if or_empty(p.main).len() == 0 {
            Err(
                ErrorModel::Plugin(
                    "不符合 dsh 插件规范：既未声明 dsh.bundle.patch，也没有 main/exports 入口，内核无法加载"@,
                ),
            )
        } else if main_file || main_js_file {
            Ok(())
        } else {
            Err(
                ErrorModel::Plugin(
                    "不符合 dsh 插件规范：main 入口 "@ + debug_str(or_empty(p.main))
                        + " 在包内不存在，内核无法加载。git 来源的插件通常需要在包内执行一次构建（如 `pnpm run prepare`）生成 lib/"@,
                ),
            )
        },
    }
}

/// Checks a fetched plugin against the kernel's load contract.
pub fn validate_plugin(
    m: &Option<PluginManifest>,
    patch_file: bool,
    main_file: bool,
    main_js_file: bool,
) -> (r: Result<(), AppError>)
    ensures
        (match r {
            Ok(()) => Ok(()),
            Err(e) => Err(e@),
        }) == load_contract(*m, patch_file, main_file, main_js_file),
{
    let p = match m {
        None => {
            return Err(
                AppError::Plugin(String::from_str("不符合 dsh 插件规范：缺少可解析的 package.json")),
            );
        },
        Some(p) => p,
    };
    if is_empty_opt(&p.name) {
        return Err(
            AppError::Plugin(String::from_str("不符合 dsh 插件规范：package.json 缺少 name 字段")),
        );
    }
    match &p.bundle_patch {
        Some(patch) => {
            if patch.as_str().is_empty() || !patch_file {
                let mut msg = to_chars("不符合 dsh 插件规范：声明了 bundle 层但包内找不到 patch 文件 ");
                let q = debug_quote(patch.as_str());
                let qv = to_chars(q.as_str());
                push_all(&mut msg, &qv);
                let tail = to_chars("，内核启动将无法加载该层");
                push_all(&mut msg, &tail);
                return Err(AppError::Plugin(from_chars(&msg)));
            }
        },
        None => {},
    }
    if p.has_exports {
        return Ok(());
    }
    let main = match &p.main {
        Some(s) => s.as_str(),
        None => "",
    };
    proof {
        reveal_strlit("");
    }
    if main.is_empty() {
        return Err(
            AppError::Plugin(
                String::from_str(
                    "不符合 dsh 插件规范：既未声明 dsh.bundle.patch，也没有 main/exports 入口，内核无法加载",
                ),
            ),
        );
    }
    if main_file || main_js_file {
        return Ok(());
    }
    let mut msg = to_chars("不符合 dsh 插件规范：main 入口 ");
    let q = debug_quote(main);
    let qv = to_chars(q.as_str());
    push_all(&mut msg, &qv);
    let tail = to_chars(
        " 在包内不存在，内核无法加载。git 来源的插件通常需要在包内执行一次构建（如 `pnpm run prepare`）生成 lib/",
    );
    push_all(&mut msg, &tail);
    Err(AppError::Plugin(from_chars(&msg)))
}

/// A fresh git checkout must be built when it declares a non-empty
/// `prepare` script and its `main` entry is not yet on disk (an unreadable
/// manifest is left to the load check).
pub open spec fn build_wanted(m: Option<PluginManifest>, main_file: bool, main_js_file: bool) -> bool {
    match m {
        None => false,
        Some(p) => {
            let has_prepare = or_empty(p.prepare).len() > 0;
            let entry_ready = or_empty(p.main).len() > 0 && (main_file || main_js_file);
            has_prepare && !entry_ready
        },
    }
}

pub fn build_needed(m: &Option<PluginManifest>, main_file: bool, main_js_file: bool) -> (b: bool)
    ensures
        b == build_wanted(*m, main_file, main_js_file),
{
    match m {
        None => false,
        Some(p) => {
            let has_prepare = !is_empty_opt(&p.prepare);
            let entry_ready = !is_empty_opt(&p.main) && (main_file || main_js_file);
            has_prepare && !entry_ready
        },
    }
}

/// How a pnpm run ended: `Ok((success, exit code))`, or the error text when
/// pnpm could not be started.
pub type PnpmRun = Result<(bool, Option<i32>), String>;

/// The error of a pnpm that could not be started.
pub open spec fn pnpm_unavailable(e: Seq<char>) -> ErrorModel {
    ErrorModel::Io("无法运行 pnpm（"@ + e + "）。请确认已安装 Node.js 与 pnpm"@)
}

fn unavailable(e: &str) -> (r: AppError)
    ensures
        r@ == pnpm_unavailable(e@),
{
    let mut msg = to_chars("无法运行 pnpm（");
    let ev = to_chars(e);
    push_all(&mut msg, &ev);
    let tail = to_chars("）。请确认已安装 Node.js 与 pnpm");
    push_all(&mut msg, &tail);
    AppError::Io(from_chars(&msg))
}

/// The outcome of building a git checkout with pnpm (`log_path`: the build
/// log).
pub open spec fn build_outcome(run: Result<(bool, Option<i32>), Seq<char>>, log_path: Seq<char>) -> Result<
    (),
    ErrorModel,
> {
    match run {
        Err(e) => Err(pnpm_unavailable(e)),
        Ok((true, _)) => Ok(()),
        Ok((false, code)) => Err(
            ErrorModel::Plugin(
                "插件构建失败（退出码 "@ + debug_code(code) + "）：`prepare` 未成功生成入口。详情见 "@
                    + log_path,
            ),
        ),
    }
}

pub open spec fn run_model(run: PnpmRun) -> Result<(bool, Option<i32>), Seq<char>> {
    match run {
        Ok(t) => Ok(t),
        Err(e) => Err(e@),
    }
}

pub fn build_result(run: PnpmRun, log_path: &str) -> (r: Result<(), AppError>)
    ensures
        (match r {
            Ok(()) => Ok(()),
            Err(e) => Err(e@),
        }) == build_outcome(run_model(run), log_path@),
{
    match run {
        Err(e) => Err(unavailable(e.as_str())),
        Ok((true, _)) => Ok(()),
        Ok((false, code)) => {
            let mut msg = to_chars("插件构建失败（退出码 ");
            push_exit_code(&mut msg, code);
            let mid = to_chars("）：`prepare` 未成功生成入口。详情见 ");
            push_all(&mut msg, &mid);
            let lp = to_chars(log_path);
            push_all(&mut msg, &lp);
            Err(AppError::Plugin(from_chars(&msg)))
        },
    }
}

/// The outcome of installing a plugin's own dependencies with pnpm: a
/// failed run is tolerated when `node_modules` came out anyway (pnpm exits
/// non-zero for ignored build scripts), and is then reported as a warning
/// (`Ok(true)`).
pub open spec fn deps_outcome(
    run: Result<(bool, Option<i32>), Seq<char>>,
    node_modules_present: bool,
    log_path: Seq<char>,
) -> Result<bool, ErrorModel> {
    match run {
        Err(e) => Err(pnpm_unavailable(e)),
        Ok((true, _)) => Ok(false),
        Ok((false, code)) => if node_modules_present {
            Ok(true)
        } else {
            Err(
                ErrorModel::Plugin(
                    "插件依赖安装失败（退出码 "@ + debug_code(code) + "），详情见日志："@ + log_path,
                ),
            )
        },
    }
}

pub fn deps_result(run: PnpmRun, node_modules_present: bool, log_path: &str) -> (r: Result<
    bool,
    AppError,
>)
    ensures
        (match r {
            Ok(w) => Ok(w),
            Err(e) => Err(e@),
        }) == deps_outcome(run_model(run), node_modules_present, log_path@),
{
    match run {
        Err(e) => Err(unavailable(e.as_str())),
        Ok((true, _)) => Ok(false),
        Ok((false, code)) => {
            if node_modules_present {
                Ok(true)
            } else {
                let mut msg = to_chars("插件依赖安装失败（退出码 ");
                push_exit_code(&mut msg, code);
                let mid = to_chars("），详情见日志：");
                push_all(&mut msg, &mid);
                let lp = to_chars(log_path);
                push_all(&mut msg, &lp);
                Err(AppError::Plugin(from_chars(&msg)))
            }
        },
    }
}


/// Arguments of the pnpm install that builds a fresh git checkout: its
/// `prepare` script runs after the install. Builds of transitive
/// dependencies that pnpm skips do not fail the run.
pub fn build_args() -> (r: Vec<&'static str>)
    ensures
        r@.map_values(|a: &str| a@) == seq![
            "install"@,
            "--ignore-workspace"@,
            "--config.node-linker=hoisted"@,
            "--reporter=append-only"@,
            "--config.strict-dep-builds=false"@,
            "--config.enable-pre-post-scripts=true"@,
        ],
{
    let r = vec![
        "install",
        "--ignore-workspace",
        "--config.node-linker=hoisted",
        "--reporter=append-only",
        "--config.strict-dep-builds=false",
        "--config.enable-pre-post-scripts=true",
    ];
    assert(r@.map_values(|a: &str| a@) =~= seq![
        "install"@,
        "--ignore-workspace"@,
        "--config.node-linker=hoisted"@,
        "--reporter=append-only"@,
        "--config.strict-dep-builds=false"@,
        "--config.enable-pre-post-scripts=true"@,
    ]);
    r
}

/// Arguments of the pnpm install of a link-mode plugin's own dependencies
/// inside the store.
pub fn deps_args() -> (r: Vec<&'static str>)
    ensures
        r@.map_values(|a: &str| a@) == seq![
            "install"@,
            "--ignore-workspace"@,
            "--config.node-linker=hoisted"@,
            "--reporter=append-only"@,
            "--config.strict-dep-builds=false"@,
        ],
{
    let r = vec![
        "install",
        "--ignore-workspace",
        "--config.node-linker=hoisted",
        "--reporter=append-only",
        "--config.strict-dep-builds=false",
    ];
    assert(r@.map_values(|a: &str| a@) =~= seq![
        "install"@,
        "--ignore-workspace"@,
        "--config.node-linker=hoisted"@,
        "--reporter=append-only"@,
        "--config.strict-dep-builds=false"@,
    ]);
    r
}

} // verus!
