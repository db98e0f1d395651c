//! Fetching a plugin into the store: which fetcher its origin selects,
//! which npm release and tarball to download, which git ref to clone, the
//! store item that results, and which peer packages of the active kernel a
//! link-mode plugin borrows.
use crate::error::{debug_quote, debug_str, AppError, ErrorModel};
use crate::install_spec::{copy_opt, opt_text, PluginSpec, PluginSpecModel};
use crate::package::PluginManifest;
use crate::paths::{join, join_path, kernel_dir, kernel_dir_of, store_plugin_dir, store_dir_of};
use crate::store::{ItemModel, StoreItem};
use crate::text::{debug_code, from_chars, push_all, push_exit_code, str_is, to_chars, trim, trim_chars};
use vstd::prelude::*;

verus! {

/// The fetcher a plugin's origin selects.
#[derive(Debug)]
pub enum Origin {
    Npm,
    Git,
}

/// `npm` and `git` select their fetchers; any other origin is refused.
pub fn fetch_origin(origin: &str) -> (r: Result<Origin, AppError>)
    ensures
        r matches Ok(Origin::Npm) ==> origin@ == "npm"@,
        r matches Ok(Origin::Git) ==> origin@ == "git"@,
        r is Err ==> origin@ != "npm"@ && origin@ != "git"@,
        r matches Err(e) ==> e@ == ErrorModel::Plugin("未知来源 "@ + debug_str(origin@)),
{
    if str_is(origin, "npm") {
        Ok(Origin::Npm)
    } else if str_is(origin, "git") {
        Ok(Origin::Git)
    } else {
        let mut msg = to_chars("未知来源 ");
        let q = debug_quote(origin);
        let qv = to_chars(q.as_str());
        push_all(&mut msg, &qv);
        Err(AppError::Plugin(from_chars(&msg)))
    }
}

/// A scratch directory in the store: `.<kind>-<id>-<stamp>` (`tmp` for a
/// fetch in progress, `old` for the entry being replaced).
pub fn scratch_dir(store: &str, kind: &str, id: &str, stamp: &str) -> (r: String)
    ensures
        r@ == join(store@, "."@ + kind@ + "-"@ + id@ + "-"@ + stamp@),
{
    let mut name = to_chars(".");
    let k = to_chars(kind);
    push_all(&mut name, &k);
    name.push('-');
    let i = to_chars(id);
    push_all(&mut name, &i);
    name.push('-');
    let s = to_chars(stamp);
    push_all(&mut name, &s);
    proof {
        reveal_strlit(".");
        reveal_strlit("-");
    }
    assert(name@ =~= "."@ + kind@ + "-"@ + id@ + "-"@ + stamp@);
    let n = from_chars(&name);
    join_path(store, n.as_str())
}

/// The store item a fetch produces: the spec's identity and source, the
/// fetched version, pinned when the spec pins one; mode, latest version and
/// install time carried over from the item it replaces (link mode and the
/// fetch time for a new one); updated at the fetch time.
pub open spec fn fetched(
    spec: PluginSpecModel,
    version: Seq<char>,
    existing: Option<ItemModel>,
    now: Seq<char>,
) -> ItemModel {
    ItemModel {
        id: spec.id,
        name: spec.name,
        origin: spec.origin,
        source: spec.source,
        installed_version: version,
        latest_version: match existing {
            Some(e) => e.latest_version,
            None => None,
        },
        mode: match existing {
            Some(e) => e.mode,
            None => "link"@,
        },
        pinned: spec.pin is Some,
        installed_at: match existing {
            Some(e) => e.installed_at,
            None => now,
        },
        updated_at: now,
        repo_url: spec.repo_url,
        description: None,
    }
}

pub fn fetched_item(spec: &PluginSpec, version: String, existing: &Option<StoreItem>, now: String) -> (r:
    StoreItem)
    ensures
        r@ == fetched(
            spec@,
            version@,
            match existing {
                Some(e) => Some(e@),
                None => None,
            },
            now@,
        ),
{
    let (latest_version, mode, installed_at) = match existing {
        Some(e) => (copy_opt(&e.latest_version), e.mode.clone(), e.installed_at.clone()),
        None => (None, String::from_str("link"), now.clone()),
    };
    StoreItem {
        id: spec.id.clone(),
        name: spec.name.clone(),
        origin: spec.origin.clone(),
        source: spec.source.clone(),
        installed_version: version,
        latest_version,
        mode,
        pinned: spec.pin.is_some(),
        installed_at,
        updated_at: now,
        repo_url: copy_opt(&spec.repo_url),
        description: None,
    }
}

// --- swapping a fetched copy into the store -----------------------------------

/// A step of putting a fetched copy (in its `tmp` scratch dir) in the place
/// of a store entry.
#[derive(Debug)]
pub enum SwapStep {
    /// Move the installed copy aside, to the entry's `old` scratch dir.
    MoveAside,
    /// Move the fetched copy into the entry's place.
    MoveIn,
    /// The fetched copy is in place; drop the set-aside copy when `drop_aside`.
    Finish { drop_aside: bool },
    /// Stop with `error`: drop the fetched copy, and move the set-aside copy
    /// back into the entry's place when `restore_aside`.
    Abort { error: AppError, restore_aside: bool },
}

/// A `SwapStep` with its error as mathematical text.
pub enum SwapStepModel {
    MoveAside,
    MoveIn,
    Finish { drop_aside: bool },
    Abort { error: ErrorModel, restore_aside: bool },
}

impl View for SwapStep {
    type V = SwapStepModel;

    open spec fn view(&self) -> SwapStepModel {
        match self {
            SwapStep::MoveAside => SwapStepModel::MoveAside,
            SwapStep::MoveIn => SwapStepModel::MoveIn,
            SwapStep::Finish { drop_aside } => SwapStepModel::Finish { drop_aside: *drop_aside },
            SwapStep::Abort { error, restore_aside } => SwapStepModel::Abort {
                error: error@,
                restore_aside: *restore_aside,
            },
        }
    }
}

/// What the last step of a swap came to.
pub enum SwapEvent {
    /// The swap starts; `installed` says whether the entry is already there.
    Begin { installed: bool },
    /// The installed copy was moved aside, or the move's error text.
    Aside(Result<(), String>),
    /// The fetched copy was moved into place, or the move's error text.
    MovedIn(Result<(), String>),
}

/// The next step of a swap and whether the installed copy then sits aside
/// (`aside`: whether it does now). An installed entry is moved aside before
/// the fetched copy moves in, and the set-aside copy is dropped only once
/// the fetched copy is in place; a failed move stops the swap with the
/// move's error, drops the fetched copy and puts a set-aside copy back.
pub open spec fn swap_next(aside: bool, event: SwapEvent) -> (SwapStepModel, bool) {
    match event {
        SwapEvent::Begin { installed } => (
            if installed {
                SwapStepModel::MoveAside
            } else {
                SwapStepModel::MoveIn
            },
            false,
        ),
        SwapEvent::Aside(Ok(_)) => (SwapStepModel::MoveIn, true),
        SwapEvent::Aside(Err(e)) => (
            SwapStepModel::Abort { error: ErrorModel::Io(e@), restore_aside: aside },
            aside,
        ),
        SwapEvent::MovedIn(Ok(_)) => (SwapStepModel::Finish { drop_aside: aside }, false),
        SwapEvent::MovedIn(Err(e)) => (
            SwapStepModel::Abort { error: ErrorModel::Io(e@), restore_aside: aside },
            false,
        ),
    }
}

pub fn swap_step(aside: bool, event: SwapEvent) -> (r: (SwapStep, bool))
    ensures
        (r.0@, r.1) == swap_next(aside, event),
{
    match event {
        SwapEvent::Begin { installed } => {
            if installed {
                (SwapStep::MoveAside, false)
            } else {
                (SwapStep::MoveIn, false)
            }
        },
        SwapEvent::Aside(Ok(_)) => (SwapStep::MoveIn, true),
        SwapEvent::Aside(Err(e)) => (SwapStep::Abort { error: AppError::Io(e), restore_aside: aside }, aside),
        SwapEvent::MovedIn(Ok(_)) => (SwapStep::Finish { drop_aside: aside }, false),
        SwapEvent::MovedIn(Err(e)) => (
            SwapStep::Abort { error: AppError::Io(e), restore_aside: aside },
            false,
        ),
    }
}

/// A swap never loses the installed copy: it is dropped only by the step
/// that follows the fetched copy's successful move into place, and every
/// failed step puts a set-aside copy back; a swap that moved the installed
/// copy aside moves the fetched copy in next.
pub proof fn lemma_swap_keeps_installed_copy(aside: bool, event: SwapEvent)
    ensures
        (swap_next(aside, event).0 matches SwapStepModel::Finish { drop_aside } && drop_aside)
            ==> (aside && event matches SwapEvent::MovedIn(Ok(_))),
        swap_next(aside, event).0 matches SwapStepModel::Abort { restore_aside, .. }
            ==> restore_aside == aside,
        swap_next(aside, event).1 ==> swap_next(aside, event).0 is MoveIn || swap_next(aside, event).0 is Abort,
{
}

// --- npm ---------------------------------------------------------------------

/// One published version of a package: its number and the tarball of its
/// `dist` record (`None` without one).
#[derive(Debug, Clone)]
pub struct NpmVersion {
    pub version: String,
    pub tarball: Option<String>,
}

/// The slice of an npm registry document the shell reads: the dist-tags
/// and the published versions.
#[derive(Debug, Clone)]
pub struct NpmDoc {
    pub dist_tags: Vec<(String, String)>,
    pub versions: Vec<NpmVersion>,
}

/// The value of the first entry with key `key`.
pub open spec fn tag_value(tags: Seq<(String, String)>, key: Seq<char>) -> Option<Seq<char>>
    decreases tags.len(),
{
    if tags.len() == 0 {
        None
    } else if tags[0].0@ == key {
        Some(tags[0].1@)
    } else {
        tag_value(tags.drop_first(), key)
    }
}

/// The tarball record of the first entry for `version`: `None` when the
/// version is unpublished, `Some(None)` when it has no `dist` record.
pub open spec fn version_tarball(vs: Seq<NpmVersion>, version: Seq<char>) -> Option<Option<Seq<char>>>
    decreases vs.len(),
{
    if vs.len() == 0 {
        None
    } else if vs[0].version@ == version {
        Some(opt_text(vs[0].tarball))
    } else {
        version_tarball(vs.drop_first(), version)
    }
}

/// The `latest` dist-tag.
pub fn doc_latest(doc: &NpmDoc) -> (r: Option<String>)
    ensures
        opt_text(r) == tag_value(doc.dist_tags@, "latest"@),
{
    let mut i: usize = 0;
    assert(doc.dist_tags@.subrange(0, doc.dist_tags@.len() as int) =~= doc.dist_tags@);
    while i < doc.dist_tags.len()
        invariant
            i <= doc.dist_tags@.len(),
            tag_value(doc.dist_tags@, "latest"@) == tag_value(
                doc.dist_tags@.subrange(i as int, doc.dist_tags@.len() as int),
                "latest"@,
            ),
        decreases doc.dist_tags.len() - i,
    {
        let ghost rest = doc.dist_tags@.subrange(i as int, doc.dist_tags@.len() as int);
        assert(rest[0] == doc.dist_tags@[i as int]);
        if str_is(doc.dist_tags[i].0.as_str(), "latest") {
            return Some(doc.dist_tags[i].1.clone());
        }
        assert(rest.drop_first() =~= doc.dist_tags@.subrange(i + 1, doc.dist_tags@.len() as int));
        i = i + 1;
    }
    None
}

fn find_tarball(vs: &Vec<NpmVersion>, version: &str) -> (r: Option<Option<String>>)
    ensures
        (match r {
            Some(t) => Some(opt_text(t)),
            None => None,
        }) == version_tarball(vs@, version@),
{
    let mut i: usize = 0;
    assert(vs@.subrange(0, vs@.len() as int) =~= vs@);
    while i < vs.len()
        invariant
            i <= vs@.len(),
            version_tarball(vs@, version@) == version_tarball(
                vs@.subrange(i as int, vs@.len() as int),
                version@,
            ),
        decreases vs.len() - i,
    {
        let ghost rest = vs@.subrange(i as int, vs@.len() as int);
        assert(rest[0] == vs@[i as int]);
        if str_is(vs[i].version.as_str(), version) {
            return Some(copy_opt(&vs[i].tarball));
        }
        assert(rest.drop_first() =~= vs@.subrange(i + 1, vs@.len() as int));
        i = i + 1;
    }
    None
}

/// The npm release to download for `spec`: the pinned version, else the
/// `latest` dist-tag; and that version's tarball. `doc` is the registry
/// document, or the error that fetching it gave.
pub open spec fn npm_choice(
    spec: PluginSpecModel,
    doc: Result<NpmDoc, Seq<char>>,
) -> Result<(Seq<char>, Seq<char>), ErrorModel> {
    match doc {
        Err(e) => Err(ErrorModel::Plugin("查询 npm 失败："@ + e)),
        Ok(d) => {
            let version = match spec.pin {
                Some(p) => p,
                None => match tag_value(d.dist_tags@, "latest"@) {
                    Some(l) => l,
                    None => Seq::empty(),
                },
            };
            if version.len() == 0 {
                Err(ErrorModel::Plugin("npm 上找不到包 "@ + spec.source + " 或其 latest 标记"@))
            } else {
                match version_tarball(d.versions@, version) {
                    Some(Some(t)) => if t.len() > 0 {
                        Ok((version, t))
                    } else {
                        Err(
                            ErrorModel::Plugin(
                                "npm 上 "@ + spec.source + "@"@ + version + " 没有可下载的 tarball"@,
                            ),
                        )
                    },
                    _ => Err(
                        ErrorModel::Plugin(
                            "npm 上 "@ + spec.source + "@"@ + version + " 没有可下载的 tarball"@,
                        ),
                    ),
                }
            }
        },
    }
}

fn no_tarball(source: &str, version: &str) -> (r: AppError)
    ensures
        r@ == ErrorModel::Plugin("npm 上 "@ + source@ + "@"@ + version@ + " 没有可下载的 tarball"@),
{
    let mut msg = to_chars("npm 上 ");
    let s = to_chars(source);
    push_all(&mut msg, &s);
    msg.push('@');
    let v = to_chars(version);
    push_all(&mut msg, &v);
    let tail = to_chars(" 没有可下载的 tarball");
    push_all(&mut msg, &tail);
    proof {
        reveal_strlit("@");
    }
    assert(msg@ =~= "npm 上 "@ + source@ + "@"@ + version@ + " 没有可下载的 tarball"@);
    AppError::Plugin(from_chars(&msg))
}

/// Picks the npm release of a spec: `(version, tarball URL)`.
pub fn npm_release(spec: &PluginSpec, doc: Result<NpmDoc, String>) -> (r: Result<(String, String), AppError>)
    ensures
        (match r {
            Ok((v, t)) => Ok((v@, t@)),
            Err(e) => Err(e@),
        }) == npm_choice(
            spec@,
            match doc {
                Ok(d) => Ok(d),
                Err(e) => Err(e@),
            },
        ),
{
    let d = match doc {
        Err(e) => {
            let mut msg = to_chars("查询 npm 失败：");
            let ev = to_chars(e.as_str());
            push_all(&mut msg, &ev);
            return Err(AppError::Plugin(from_chars(&msg)));
        },
        Ok(d) => d,
    };
    let version = match &spec.pin {
        Some(p) => p.clone(),
        None => match doc_latest(&d) {
            Some(l) => l,
            None => String::new(),
        },
    };
    if version.as_str().is_empty() {
        let mut msg = to_chars("npm 上找不到包 ");
        let s = to_chars(spec.source.as_str());
        push_all(&mut msg, &s);
        let tail = to_chars(" 或其 latest 标记");
        push_all(&mut msg, &tail);
        return Err(AppError::Plugin(from_chars(&msg)));
    }
    match find_tarball(&d.versions, version.as_str()) {
        Some(Some(t)) => {
            if t.as_str().is_empty() {
                Err(no_tarball(spec.source.as_str(), version.as_str()))
            } else {
                Ok((version, t))
            }
        },
        _ => Err(no_tarball(spec.source.as_str(), version.as_str())),
    }
}

// --- git ---------------------------------------------------------------------

/// The ref a git fetch clones.
#[derive(Debug)]
pub enum GitRef {
    /// The pinned tag.
    Tag(String),
    /// The highest semver tag the remote publishes, looked up first.
    LatestTag,
}

pub fn git_ref(spec: &PluginSpec) -> (r: GitRef)
    ensures
        r matches GitRef::Tag(t) ==> spec@.pin == Some(t@),
        r is LatestTag ==> spec@.pin is None,
{
    match &spec.pin {
        Some(t) => GitRef::Tag(t.clone()),
        None => GitRef::LatestTag,
    }
}

/// The branch to clone for an unpinned spec from the remote's tag lookup:
/// its highest semver tag, or the default branch (`None`) when it has none.
pub fn latest_branch(lookup: Result<Option<String>, String>) -> (r: Result<Option<String>, AppError>)
    ensures
        lookup matches Ok(t) ==> (r matches Ok(b) && opt_text(b) == opt_text(t)),
        lookup matches Err(e) ==> (r matches Err(x) && x@ == ErrorModel::Plugin(
            "查询最新 tag 失败："@ + e@,
        )),
{
    match lookup {
        Ok(t) => Ok(t),
        Err(e) => {
            let mut msg = to_chars("查询最新 tag 失败：");
            let ev = to_chars(e.as_str());
            push_all(&mut msg, &ev);
            Err(AppError::Plugin(from_chars(&msg)))
        },
    }
}

/// Git must be present to fetch a git-origin plugin (`git --version` ran).
pub fn git_available(probe_ran: bool) -> (r: Result<(), AppError>)
    ensures
        probe_ran ==> r is Ok,
        !probe_ran ==> (r matches Err(e) && e@ == ErrorModel::Plugin(
            "未找到 git（git 来源的插件需要 git；请先安装 git）"@,
        )),
{
    if probe_ran {
        Ok(())
    } else {
        Err(AppError::Plugin(String::from_str("未找到 git（git 来源的插件需要 git；请先安装 git）")))
    }
}

/// The outcome of `git clone`: `Ok((success, exit code))`, or the error
/// text when git could not be started.
pub open spec fn clone_outcome(run: Result<(bool, Option<i32>), Seq<char>>) -> Result<(), ErrorModel> {
    match run {
        Err(e) => Err(ErrorModel::Io("无法运行 git："@ + e)),
        Ok((true, _)) => Ok(()),
        Ok((false, code)) => Err(
            ErrorModel::Plugin("git clone 失败（退出码 "@ + debug_code(code) + "），请检查地址与网络"@),
        ),
    }
}

pub fn clone_result(run: Result<(bool, Option<i32>), String>) -> (r: Result<(), AppError>)
    ensures
        (match r {
            Ok(()) => Ok(()),
            Err(e) => Err(e@),
        }) == clone_outcome(
            match run {
                Ok(t) => Ok(t),
                Err(e) => Err(e@),
            },
        ),
{
    match run {
        Err(e) => {
            let mut msg = to_chars("无法运行 git：");
            let ev = to_chars(e.as_str());
            push_all(&mut msg, &ev);
            Err(AppError::Io(from_chars(&msg)))
        },
        Ok((true, _)) => Ok(()),
        Ok((false, code)) => {
            let mut msg = to_chars("git clone 失败（退出码 ");
            push_exit_code(&mut msg, code);
            let tail = to_chars("），请检查地址与网络");
            push_all(&mut msg, &tail);
            Err(AppError::Plugin(from_chars(&msg)))
        },
    }
}

/// The version recorded for a clone of the default branch, from
/// `git rev-parse --short HEAD`: its trimmed output, `head` when it failed,
/// or the error when git could not be started.
pub open spec fn head_outcome(run: Result<(bool, Seq<char>), Seq<char>>) -> Result<Seq<char>, ErrorModel> {
    match run {
        Err(e) => Err(ErrorModel::Io(e)),
        Ok((true, out)) => Ok(trim(out)),
        Ok((false, _)) => Ok("head"@),
    }
}

pub fn head_version(run: Result<(bool, String), String>) -> (r: Result<String, AppError>)
    ensures
        (match r {
            Ok(v) => Ok(v@),
            Err(e) => Err(e@),
        }) == head_outcome(
            match run {
                Ok((ok, out)) => Ok((ok, out@)),
                Err(e) => Err(e@),
            },
        ),
{
    match run {
        Err(e) => Err(AppError::Io(e)),
        Ok((true, out)) => {
            let v = to_chars(out.as_str());
            let t = trim_chars(&v);
            Ok(from_chars(&t))
        },
        Ok((false, _)) => Ok(String::from_str("head")),
    }
}

/// The version a git fetch records: the tag it cloned, or, when it cloned
/// the default branch, what `git rev-parse --short HEAD` gave (`head`, run
/// only in that case).
pub open spec fn cloned_outcome(
    branch: Option<Seq<char>>,
    head: Option<Result<(bool, Seq<char>), Seq<char>>>,
) -> Result<Seq<char>, ErrorModel> {
    match branch {
        Some(tag) => Ok(tag),
        None => match head {
            Some(run) => head_outcome(run),
            None => Err(ErrorModel::Io(Seq::empty())),
        },
    }
}

pub fn cloned_version(branch: Option<String>, head: Option<Result<(bool, String), String>>) -> (r:
    Result<String, AppError>)
    requires
        branch is Some || head is Some,
    ensures
        (match r {
            Ok(v) => Ok(v@),
            Err(e) => Err(e@),
        }) == cloned_outcome(
            opt_text(branch),
            match head {
                Some(Ok((ok, out))) => Some(Ok((ok, out@))),
                Some(Err(e)) => Some(Err(e@)),
                None => None,
            },
        ),
{
    match branch {
        Some(tag) => Ok(tag),
        None => match head {
            Some(run) => head_version(run),
            None => Err(AppError::Io(String::new())),
        },
    }
}

// --- peers -------------------------------------------------------------------

/// What `.dsh-peers.json` in a store entry records: the kernel whose peers
/// were resolved, and whether it lists them (`peers` is an array).
#[derive(Debug, Clone)]
pub struct PeersRecord {
    pub kernel: Option<String>,
    pub listed: bool,
}

/// The peer packages to resolve for a store item against the active kernel:
/// none for a copy-mode item, for one already resolved for this kernel, or
/// for one whose manifest is unreadable or declares no `peerDependencies`
/// object; otherwise the declared peer names.
pub open spec fn peers_wanted(
    item: ItemModel,
    record: Option<PeersRecord>,
    active: Seq<char>,
    manifest: Option<PluginManifest>,
) -> Option<Seq<String>> {
    if item.mode != "link"@ {
        None
    } else if (record matches Some(r) && opt_text(r.kernel) == Some(active) && r.listed) {
        None
    } else {
        match manifest {
            None => None,
            Some(m) => match m.peers {
                None => None,
                Some(p) => Some(p@),
            },
        }
    }
}

pub fn peers_plan(
    item: &StoreItem,
    record: &Option<PeersRecord>,
    active: &str,
    manifest: &Option<PluginManifest>,
) -> (r: Option<Vec<String>>)
    ensures
        (match r {
            Some(v) => Some(v@),
            None => None,
        }) == peers_wanted(item@, *record, active@, *manifest),
{
    if !str_is(item.mode.as_str(), "link") {
        return None;
    }
    let done = match record {
        Some(r) => match &r.kernel {
            Some(k) => str_is(k.as_str(), active) && r.listed,
            None => false,
        },
        None => false,
    };
    if done {
        return None;
    }
    match manifest {
        None => None,
        Some(m) => match &m.peers {
            None => None,
            Some(p) => Some(p.clone()),
        },
    }
}

/// Where peer `name` lives in the active kernel (`target`) and where the
/// store entry resolves it (`dest`).
pub fn peer_paths(data_dir: &str, active: &str, id: &str, name: &str) -> (r: (String, String))
    ensures
        r.0@ == join(join(kernel_dir_of(data_dir@, active@), "node_modules"@), name@),
        r.1@ == join(join(join(store_dir_of(data_dir@), id@), "node_modules"@), name@),
{
    let k = kernel_dir(data_dir, active);
    let km = join_path(k.as_str(), "node_modules");
    let target = join_path(km.as_str(), name);
    let root = store_plugin_dir(data_dir, id);
    let rm = join_path(root.as_str(), "node_modules");
    let dest = join_path(rm.as_str(), name);
    (target, dest)
}

/// The peers that get linked: those the kernel has (`in_kernel[i]`) and
/// the store entry does not have yet (`in_store[i]`), in declaration order.
pub open spec fn peers_linked(names: Seq<String>, in_kernel: Seq<bool>, in_store: Seq<bool>) -> Seq<
    Seq<char>,
>
    decreases names.len(),
{
    if names.len() == 0 {
        seq![]
    } else {
        let k = names.len() - 1;
        let rest = peers_linked(names.drop_last(), in_kernel.subrange(0, k), in_store.subrange(0, k));
        if in_kernel[k] && !in_store[k] {
            rest.push(names[k]@)
        } else {
            rest
        }
    }
}

pub fn peers_to_link(names: &Vec<String>, in_kernel: &Vec<bool>, in_store: &Vec<bool>) -> (r: Vec<
    String,
>)
    requires
        in_kernel@.len() == names@.len(),
        in_store@.len() == names@.len(),
    ensures
        r@.map_values(|s: String| s@) == peers_linked(names@, in_kernel@, in_store@),
{
    let mut out: Vec<String> = Vec::new();
    let mut i: usize = 0;
    while i < names.len()
        invariant
            i <= names@.len(),
            in_kernel@.len() == names@.len(),
            in_store@.len() == names@.len(),
            out@.map_values(|s: String| s@) == peers_linked(
                names@.subrange(0, i as int),
                in_kernel@.subrange(0, i as int),
                in_store@.subrange(0, i as int),
            ),
        decreases names.len() - i,
    {
        let ghost n1 = names@.subrange(0, i + 1);
        assert(n1.drop_last() =~= names@.subrange(0, i as int));
        assert(in_kernel@.subrange(0, i + 1).subrange(0, i as int) =~= in_kernel@.subrange(
            0,
            i as int,
        ));
        assert(in_store@.subrange(0, i + 1).subrange(0, i as int) =~= in_store@.subrange(
            0,
            i as int,
        ));
        if in_kernel[i] && !in_store[i] {
            out.push(names[i].clone());
            assert(out@.map_values(|s: String| s@) =~= peers_linked(
                names@.subrange(0, i as int),
                in_kernel@.subrange(0, i as int),
                in_store@.subrange(0, i as int),
            ).push(names@[i as int]@));
        }
        i = i + 1;
    }
    assert(names@.subrange(0, i as int) =~= names@);
    assert(in_kernel@.subrange(0, i as int) =~= in_kernel@);
    assert(in_store@.subrange(0, i as int) =~= in_store@);
    out
}

} // verus!
