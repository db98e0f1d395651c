//! The management UI's snapshot of the plugins: one row per store item with
//! its materialization and wiring state in the active kernel, and the count
//! of plugins with a known newer version.
use crate::install_spec::{copy_opt, opt_text};
use crate::manifest::{dep_string, dep_text, deps_model, managed_spec, is_managed_spec, DepModel, ProfileManifest};
use crate::materialize::{meta_model, KernelMeta, MetaModel};
use crate::settings::Settings;
use crate::store::{items_of, ItemModel, Store, StoreItem};
use crate::text::{contains, contains_seq, str_is, to_chars};
use crate::version::{is_newer_than, newer_than};
use crate::wiring::{dep_spec_of, plugin_dep_spec};
use vstd::prelude::*;

verus! {

/// One row the management UI renders.
#[derive(Debug, Clone)]
pub struct PluginRow {
    pub id: String,
    pub name: String,
    pub origin: String,
    pub source: String,
    pub installed_version: String,
    pub latest_version: Option<String>,
    pub pinned: bool,
    /// Desired mode from the store.
    pub desired_mode: String,
    /// Actual mode in the active kernel, when materialized there.
    pub actual_mode: Option<String>,
    /// Whether the active kernel's materialization is present and current.
    pub synced: bool,
    /// Whether the active kernel's profile already loads this plugin.
    pub wired: bool,
    pub repo_url: Option<String>,
    pub description: Option<String>,
    pub installed_at: String,
    pub updated_at: String,
}

/// A row as text.
pub struct RowModel {
    pub id: Seq<char>,
    pub name: Seq<char>,
    pub origin: Seq<char>,
    pub source: Seq<char>,
    pub installed_version: Seq<char>,
    pub latest_version: Option<Seq<char>>,
    pub pinned: bool,
    pub desired_mode: Seq<char>,
    pub actual_mode: Option<Seq<char>>,
    pub synced: bool,
    pub wired: bool,
    pub repo_url: Option<Seq<char>>,
    pub description: Option<Seq<char>>,
    pub installed_at: Seq<char>,
    pub updated_at: Seq<char>,
}

impl View for PluginRow {
    type V = RowModel;

    open spec fn view(&self) -> RowModel {
        RowModel {
            id: self.id@,
            name: self.name@,
            origin: self.origin@,
            source: self.source@,
            installed_version: self.installed_version@,
            latest_version: opt_text(self.latest_version),
            pinned: self.pinned,
            desired_mode: self.desired_mode@,
            actual_mode: opt_text(self.actual_mode),
            synced: self.synced,
            wired: self.wired,
            repo_url: opt_text(self.repo_url),
            description: opt_text(self.description),
            installed_at: self.installed_at@,
            updated_at: self.updated_at@,
        }
    }
}

/// Aggregate plugin status for the management UI.
#[derive(Debug, Clone)]
pub struct PluginStatus {
    pub rows: Vec<PluginRow>,
    pub profile: String,
    pub active_kernel: Option<String>,
    /// Number of plugins with a known newer version.
    pub updates: usize,
    pub last_checked_at: Option<String>,
    pub warning: Option<String>,
}

/// What the active kernel holds of one store item: its materialization
/// record, if readable, and whether the plugin directory exists.
#[derive(Debug, Clone)]
pub struct ItemFacts {
    pub meta: Option<KernelMeta>,
    pub present: bool,
}

/// The mode the active kernel recorded for the plugin.
pub open spec fn actual_mode_of(active: Option<Seq<char>>, meta: Option<MetaModel>) -> Option<
    Seq<char>,
> {
    match (active, meta) {
        (Some(_), Some(m)) => Some(m.mode),
        _ => None,
    }
}

/// The kernel holds the installed version and its directory is present.
pub open spec fn synced_of(
    active: Option<Seq<char>>,
    it: ItemModel,
    meta: Option<MetaModel>,
    present: bool,
) -> bool {
    match (active, meta) {
        (Some(_), Some(m)) => present && m.version == it.installed_version,
        _ => false,
    }
}

/// The spec the profile should hold for the plugin in the active kernel.
pub open spec fn expected_spec(
    data_dir: Seq<char>,
    profile: Seq<char>,
    active: Option<Seq<char>>,
    it: ItemModel,
    meta: Option<MetaModel>,
) -> Option<Seq<char>> {
    match active {
        Some(v) => Some(
            dep_spec_of(data_dir, profile, v, it.id, actual_mode_of(active, meta) == Some("copy"@)),
        ),
        None => None,
    }
}

/// The profile loads the plugin: its dependency is the expected spec, or a
/// spec into a kernel plugins directory that the shell did not write.
pub open spec fn wired_of(
    data_dir: Seq<char>,
    profile: Seq<char>,
    active: Option<Seq<char>>,
    it: ItemModel,
    meta: Option<MetaModel>,
    deps: Option<Seq<DepModel>>,
) -> bool {
    match deps {
        Some(d) => match dep_string(d, it.name) {
            Some(spec) => expected_spec(data_dir, profile, active, it, meta) == Some(spec) || (
            !managed_spec(spec) && contains_seq(spec, "desktop/kernels/"@)),
            None => false,
        },
        None => false,
    }
}

/// The UI row of one store item.
pub open spec fn row_of(
    data_dir: Seq<char>,
    profile: Seq<char>,
    active: Option<Seq<char>>,
    it: ItemModel,
    meta: Option<MetaModel>,
    present: bool,
    deps: Option<Seq<DepModel>>,
) -> RowModel {
    RowModel {
        id: it.id,
        name: it.name,
        origin: it.origin,
        source: it.source,
        installed_version: it.installed_version,
        latest_version: it.latest_version,
        pinned: it.pinned,
        desired_mode: it.mode,
        actual_mode: actual_mode_of(active, meta),
        synced: synced_of(active, it, meta, present),
        wired: wired_of(data_dir, profile, active, it, meta, deps),
        repo_url: it.repo_url,
        description: it.description,
        installed_at: it.installed_at,
        updated_at: it.updated_at,
    }
}

/// The item's known latest version is newer than the installed one.
pub open spec fn has_update(it: ItemModel) -> bool {
    match it.latest_version {
        Some(l) => newer_than(l, it.installed_version, it.origin, it.pinned),
        None => false,
    }
}

/// How many of the items have a newer version.
pub open spec fn update_count(items: Seq<ItemModel>) -> nat
    decreases items.len(),
{
    if items.len() == 0 {
        0
    } else {
        update_count(items.drop_last()) + (if has_update(items.last()) {
            1nat
        } else {
            0nat
        })
    }
}

/// The manifest's dependencies, when it has a `dependencies` object.
pub open spec fn manifest_deps(m: Option<ProfileManifest>) -> Option<Seq<DepModel>> {
    match m {
        Some(pm) => match pm.deps {
            Some(d) => Some(deps_model(d@)),
            None => None,
        },
        None => None,
    }
}

fn item_has_update(it: &StoreItem) -> (b: bool)
    ensures
        b == has_update(it@),
{
    match &it.latest_version {
        Some(l) => is_newer_than(l.as_str(), it.installed_version.as_str(), it.origin.as_str(), it.pinned),
        None => false,
    }
}

/// The row of one store item.
fn row(
    data_dir: &str,
    profile: &str,
    active: &Option<String>,
    it: &StoreItem,
    facts: &ItemFacts,
    manifest: &Option<ProfileManifest>,
) -> (r: PluginRow)
    ensures
        r@ == row_of(
            data_dir@,
            profile@,
            opt_text(*active),
            it@,
            meta_model(facts.meta),
            facts.present,
            manifest_deps(*manifest),
        ),
{
    let ghost act = opt_text(*active);
    let ghost mm = meta_model(facts.meta);
    let (actual_mode, synced) = match (active, &facts.meta) {
        (Some(_), Some(m)) => (
            Some(m.mode.clone()),
            facts.present && str_is(m.version.as_str(), it.installed_version.as_str()),
        ),
        _ => (None, false),
    };
    assert(opt_text(actual_mode) == actual_mode_of(act, mm));
    let copy = match &actual_mode {
        Some(m) => str_is(m.as_str(), "copy"),
        None => false,
    };
    let expected: Option<String> = match active {
        Some(v) => Some(plugin_dep_spec(data_dir, profile, v.as_str(), it.id.as_str(), copy)),
        None => None,
    };
    assert(opt_text(expected) == expected_spec(data_dir@, profile@, act, it@, mm));
    let deps = match manifest {
        Some(pm) => &pm.deps,
        None => &None,
    };
    let wired = match deps {
        Some(d) => match dep_text(d, it.name.as_str()) {
            Some(spec) => {
                let same = match &expected {
                    Some(e) => str_is(spec.as_str(), e.as_str()),
                    None => false,
                };
                let sv = to_chars(spec.as_str());
                let mark = to_chars("desktop/kernels/");
                same || (!is_managed_spec(spec.as_str()) && contains(&sv, &mark))
            },
            None => false,
        },
        None => false,
    };
    PluginRow {
        id: it.id.clone(),
        name: it.name.clone(),
        origin: it.origin.clone(),
        source: it.source.clone(),
        installed_version: it.installed_version.clone(),
        latest_version: copy_opt(&it.latest_version),
        pinned: it.pinned,
        desired_mode: it.mode.clone(),
        actual_mode,
        synced,
        wired,
        repo_url: copy_opt(&it.repo_url),
        description: copy_opt(&it.description),
        installed_at: it.installed_at.clone(),
        updated_at: it.updated_at.clone(),
    }
}

/// The UI status snapshot: a row per store item (in store order) against
/// the active kernel, the profile manifest's dependencies, the count of
/// newer versions, and the store's check time and warning. `facts[i]` is
/// what the active kernel holds of `store.items[i]`.
pub fn status(
    data_dir: &str,
    settings: &Settings,
    store: &Store,
    active: Option<String>,
    facts: &Vec<ItemFacts>,
    manifest: &Option<ProfileManifest>,
) -> (r: PluginStatus)
    requires
        facts@.len() == store.items@.len(),
    ensures
        r.rows@.len() == store.items@.len(),
        forall|i: int|
            0 <= i < r.rows@.len() ==> (#[trigger] r.rows@[i])@ == row_of(
                data_dir@,
                settings.profile@,
                opt_text(active),
                store.items@[i]@,
                meta_model(facts@[i].meta),
                facts@[i].present,
                manifest_deps(*manifest),
            ),
        r.updates == update_count(items_of(store.items@)),
        r.profile@ == settings.profile@,
        opt_text(r.active_kernel) == opt_text(active),
        opt_text(r.last_checked_at) == opt_text(store.last_checked_at),
        opt_text(r.warning) == opt_text(store.warning),
{
    let ghost its = items_of(store.items@);
    let mut rows: Vec<PluginRow> = Vec::new();
    let mut updates: usize = 0;
    let mut i: usize = 0;
    while i < store.items.len()
        invariant
            i <= store.items@.len(),
            facts@.len() == store.items@.len(),
            its == items_of(store.items@),
            rows@.len() == i,
            updates == update_count(its.subrange(0, i as int)),
            updates <= i,
            forall|j: int|
                0 <= j < i ==> (#[trigger] rows@[j])@ == row_of(
                    data_dir@,
                    settings.profile@,
                    opt_text(active),
                    store.items@[j]@,
                    meta_model(facts@[j].meta),
                    facts@[j].present,
                    manifest_deps(*manifest),
                ),
        decreases store.items.len() - i,
    {
        let it = &store.items[i];
        let r = row(data_dir, settings.profile.as_str(), &active, it, &facts[i], manifest);
        rows.push(r);
        assert(its.subrange(0, i + 1).drop_last() =~= its.subrange(0, i as int));
        assert(its.subrange(0, i + 1).last() == it@);
        if item_has_update(it) {
            updates = updates + 1;
        }
        i = i + 1;
    }
    assert(its.subrange(0, i as int) =~= its);
    PluginStatus {
        rows,
        profile: settings.profile.clone(),
        active_kernel: active,
        updates,
        last_checked_at: copy_opt(&store.last_checked_at),
        warning: copy_opt(&store.warning),
    }
}

/// A row is synced exactly when there is an active kernel, its plugin
/// directory is present, and its recorded materialization is of the store
/// item's installed version: a kernel still holding another version (say,
/// the one before an update) is never reported synced, whatever else holds.
/// The mode a row reports is the one the active kernel recorded, and none
/// without an active kernel or a record.
pub proof fn lemma_synced_means_current(
    data_dir: Seq<char>,
    profile: Seq<char>,
    active: Option<Seq<char>>,
    it: ItemModel,
    meta: Option<MetaModel>,
    present: bool,
    deps: Option<Seq<DepModel>>,
)
    ensures
        row_of(data_dir, profile, active, it, meta, present, deps).synced ==> {
            &&& active is Some
            &&& present
            &&& meta matches Some(m) && m.version == it.installed_version
        },
        (meta matches Some(m) && m.version != it.installed_version) ==> !row_of(
            data_dir,
            profile,
            active,
            it,
            meta,
            present,
            deps,
        ).synced,
        (meta matches Some(m) && active is Some && present && m.version == it.installed_version)
            ==> row_of(data_dir, profile, active, it, meta, present, deps).synced,
        row_of(data_dir, profile, active, it, meta, present, deps).actual_mode == (if active is Some {
            match meta {
                Some(m) => Some(m.mode),
                None => None,
            }
        } else {
            None
        }),
{
}

} // verus!
