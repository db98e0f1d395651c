//! Wiring the store's plugins into the active kernel's profile: the
//! dependency spec of each materialized plugin, the specs map built from
//! the store, and the decisions around the pnpm install that applies a
//! changed manifest (write, install, roll back).
use crate::error::{AppError, ErrorModel};
use crate::manifest::{
    map_insert, wire_manifest, wire_outcome, ProfileManifest, WireModel, WireSpecs,
};
use crate::paths::{
    kernel_plugin_dir, kernel_plugin_dir_of, profile_dir, profile_dir_of, relative, relative_path,
    spec_path_string,
};
use crate::store::{items_of, ItemModel, Store, StoreItem};
use crate::text::{
    contains, contains_seq, debug_code, from_chars, push_all, push_exit_code, replace_char, str_is,
    to_chars,
};
use vstd::prelude::*;

verus! {

/// The dependency spec that wires plugin `id` of kernel `version` into a
/// profile: `file:` for a copy, `link:` otherwise, then the forward-slash
/// path from the profile directory to the kernel's plugin directory.
pub open spec fn dep_spec_of(
    data_dir: Seq<char>,
    profile: Seq<char>,
    version: Seq<char>,
    id: Seq<char>,
    copy: bool,
) -> Seq<char> {
    (if copy {
        "file:"@
    } else {
        "link:"@
    }) + replace_char(
        relative(profile_dir_of(data_dir, profile), kernel_plugin_dir_of(data_dir, version, id)),
        '\\',
        "/"@,
    )
}

pub fn plugin_dep_spec(data_dir: &str, profile: &str, version: &str, id: &str, copy: bool) -> (r:
    String)
    ensures
        r@ == dep_spec_of(data_dir@, profile@, version@, id@, copy),
{
    let from = profile_dir(data_dir, profile);
    let to = kernel_plugin_dir(data_dir, version, id);
    let rel = relative_path(from.as_str(), to.as_str());
    let path = spec_path_string(rel.as_str());
    let mut out = if copy {
        to_chars("file:")
    } else {
        to_chars("link:")
    };
    let pv = to_chars(path.as_str());
    push_all(&mut out, &pv);
    from_chars(&out)
}

/// The specs map after entering the first `n` store items, each keyed by
/// its name with the spec of its materialization (`modes[i]`, the mode it
/// ended in) and whether it declares a bundle layer (`bundles[i]`).
pub open spec fn specs_upto(
    data_dir: Seq<char>,
    profile: Seq<char>,
    version: Seq<char>,
    items: Seq<ItemModel>,
    modes: Seq<Seq<char>>,
    bundles: Seq<bool>,
    n: nat,
) -> Seq<WireModel>
    decreases n,
{
    if n == 0 {
        seq![]
    } else {
        let k = (n - 1) as int;
        map_insert(
            specs_upto(data_dir, profile, version, items, modes, bundles, (n - 1) as nat),
            (
                items[k].name,
                dep_spec_of(data_dir, profile, version, items[k].id, modes[k] == "copy"@),
                bundles[k],
            ),
        )
    }
}

/// The wiring of every store plugin into the profile for the active kernel
/// `version`, keyed by package name (a later item replaces an earlier one
/// of the same name).
pub fn wiring_specs(
    data_dir: &str,
    profile: &str,
    version: &str,
    items: &Vec<StoreItem>,
    modes: &Vec<String>,
    bundles: &Vec<bool>,
) -> (r: WireSpecs)
    requires
        modes@.len() == items@.len(),
        bundles@.len() == items@.len(),
    ensures
        r.wf(),
        r.model() == specs_upto(
            data_dir@,
            profile@,
            version@,
            items_of(items@),
            modes@.map_values(|m: String| m@),
            bundles@,
            items@.len(),
        ),
{
    let ghost its = items_of(items@);
    let ghost ms = modes@.map_values(|m: String| m@);
    let mut specs = WireSpecs::new();
    let mut i: usize = 0;
    while i < items.len()
        invariant
            i <= items@.len(),
            modes@.len() == items@.len(),
            bundles@.len() == items@.len(),
            its == items_of(items@),
            ms == modes@.map_values(|m: String| m@),
            specs.wf(),
            specs.model() == specs_upto(data_dir@, profile@, version@, its, ms, bundles@, i as nat),
        decreases items.len() - i,
    {
        let it = &items[i];
        let copy = str_is(modes[i].as_str(), "copy");
        let spec = plugin_dep_spec(data_dir, profile, version, it.id.as_str(), copy);
        assert(its[i as int] == it@);
        assert(ms[i as int] == modes@[i as int]@);
        specs.insert(it.name.clone(), spec, bundles[i]);
        i = i + 1;
    }
    specs
}

/// Wiring waits for a kernel: with no active kernel and plugins in the
/// store there is nothing to point their specs at. An empty store still
/// reconciles, so the last uninstall prunes its residue.
pub fn wiring_deferred(active: &Option<String>, store: &Store) -> (b: bool)
    ensures
        b == (active is None && store.items@.len() > 0),
{
    active.is_none() && store.items.len() > 0
}

/// What wiring does after reconciling the manifest.
#[derive(Debug)]
pub enum WiringPlan {
    /// The manifest is unchanged and the profile's `node_modules` exists.
    Done { wired: usize },
    /// Run `pnpm install` in the profile, first writing `manifest` when
    /// `write`; on a failed install the written manifest is rolled back.
    Install { wired: usize, write: bool, manifest: ProfileManifest },
}

/// The error for a profile whose `package.json` is missing.
pub open spec fn uninitialized() -> ErrorModel {
    ErrorModel::Plugin("profile 尚未初始化"@)
}

/// Reconciles the profile manifest (`None` when the profile has none)
/// against the specs map and decides whether pnpm must run: when the
/// manifest changed or the profile's `node_modules` is missing.
pub fn ensure_wiring(
    specs: &WireSpecs,
    manifest: Option<ProfileManifest>,
    profile: &str,
    node_modules_missing: bool,
) -> (r: Result<WiringPlan, AppError>)
    requires
        specs.wf(),
    ensures
        manifest is None ==> (r matches Err(e) && e@ == uninitialized()),
        manifest matches Some(m) ==> {
            let out = wire_outcome(m@, specs.model(), profile@);
            match out.1 {
                Err(e) => (r matches Err(x) && x@ == e),
                Ok(changed) => if !changed && !node_modules_missing {
                    (r matches Ok(WiringPlan::Done { wired }) && wired == specs.model().len())
                } else {
                    (r matches Ok(WiringPlan::Install { wired, write, manifest: w }) && wired
                        == specs.model().len() && write == changed && w@ == out.0)
                },
            }
        },
{
    let mut root = match manifest {
        None => {
            return Err(AppError::Plugin(String::from_str("profile 尚未初始化")));
        },
        Some(m) => m,
    };
    let changed = wire_manifest(&mut root, specs, profile)?;
    let wired = specs.len();
    if !changed && !node_modules_missing {
        return Ok(WiringPlan::Done { wired });
    }
    Ok(WiringPlan::Install { wired, write: changed, manifest: root })
}

/// The error of a failed profile install.
pub open spec fn install_failed(code: Option<i32>, log_path: Seq<char>) -> ErrorModel {
    ErrorModel::Plugin(
        "pnpm install 在 profile 中失败（退出码 "@ + debug_code(code) + "），已回滚 profile 配置，详情见日志："@
            + log_path,
    )
}

/// The result of wiring after the profile's pnpm install (`run`: how the
/// install ended, `Ok((success, exit code))`, or the error text when pnpm
/// could not be started): the wired count and whether the manifest changed,
/// or the failure. The second part says whether the manifest written under
/// `write` must be restored: on every failure that followed a write, so a
/// manifest whose layers pnpm could not install never stays behind.
pub open spec fn wiring_result(
    wired: usize,
    write: bool,
    run: Result<(bool, Option<i32>), Seq<char>>,
    log_path: Seq<char>,
) -> Result<(usize, bool), ErrorModel> {
    match run {
        Err(e) => Err(ErrorModel::Io("无法运行 pnpm（"@ + e + "）"@)),
        Ok((true, _)) => Ok((wired, write)),
        Ok((false, code)) => Err(install_failed(code, log_path)),
    }
}

/// The outcome of the profile install, and whether the manifest written
/// before it must be put back.
pub fn finish_wiring(
    wired: usize,
    write: bool,
    run: Result<(bool, Option<i32>), String>,
    log_path: &str,
) -> (r: (Result<(usize, bool), AppError>, bool))
    ensures
        (match r.0 {
            Ok(t) => Ok(t),
            Err(e) => Err(e@),
        }) == wiring_result(
            wired,
            write,
            match run {
                Ok(t) => Ok(t),
                Err(e) => Err(e@),
            },
            log_path@,
        ),
        r.1 == (write && r.0 is Err),
{
    match run {
        Err(e) => {
            let mut msg = to_chars("无法运行 pnpm（");
            let ev = to_chars(e.as_str());
            push_all(&mut msg, &ev);
            let tail = to_chars("）");
            push_all(&mut msg, &tail);
            (Err(AppError::Io(from_chars(&msg))), write)
        },
        Ok((true, _)) => (Ok((wired, write)), false),
        Ok((false, code)) => {
            let mut msg = to_chars("pnpm install 在 profile 中失败（退出码 ");
            push_exit_code(&mut msg, code);
            let mid = to_chars("），已回滚 profile 配置，详情见日志：");
            push_all(&mut msg, &mid);
            let lp = to_chars(log_path);
            push_all(&mut msg, &lp);
            (Err(AppError::Plugin(from_chars(&msg))), write)
        },
    }
}

/// Arguments of the pnpm install run in the profile.
pub fn profile_install_args() -> (r: Vec<&'static str>)
    ensures
        r@.map_values(|a: &str| a@) == seq![
            "install"@,
            "--reporter=append-only"@,
            "--config.strict-dep-builds=false"@,
        ],
{
    let r = vec!["install", "--reporter=append-only", "--config.strict-dep-builds=false"];
    assert(r@.map_values(|a: &str| a@) =~= seq![
        "install"@,
        "--reporter=append-only"@,
        "--config.strict-dep-builds=false"@,
    ]);
    r
}


/// The `name` of a freshly initialized profile manifest.
pub fn profile_package_name(profile: &str) -> (r: String)
    ensures
        r@ == "dsh-profile-"@ + profile@,
{
    let mut out = to_chars("dsh-profile-");
    let p = to_chars(profile);
    push_all(&mut out, &p);
    from_chars(&out)
}

/// The patch layer a new profile starts with.
pub const PATCH_TEMPLATE: &'static str = "# Your patch layer for this dsh profile.\n[]\n";

/// The profile's pnpm workspace: hoisted, no automatic peers, and no
/// minimum release age.
pub const WORKSPACE_TEMPLATE: &'static str =
    "packages:\n  - .\n\nnodeLinker: hoisted\nautoInstallPeers: false\nminimumReleaseAge: 0\n";

/// The profile's workspace file is (re)written when it is missing or when
/// its readable text lacks `minimumReleaseAge: 0`; an unreadable one is
/// left alone. `text` is the file's content when it could be read.
pub fn workspace_needs_write(present: bool, text: &Option<String>) -> (b: bool)
    ensures
        b == (!present || (text matches Some(t) && !contains_seq(t@, "minimumReleaseAge: 0"@))),
{
    if !present {
        return true;
    }
    match text {
        Some(t) => {
            let v = to_chars(t.as_str());
            let mark = to_chars("minimumReleaseAge: 0");
            !contains(&v, &mark)
        },
        None => false,
    }
}

} // verus!
