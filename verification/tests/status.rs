use dsh_desktop::manifest::{Dep, ProfileManifest};
use dsh_desktop::materialize::KernelMeta;
use dsh_desktop::ops::updated_item;
use dsh_desktop::settings::Settings;
use dsh_desktop::status::{status, ItemFacts};
use dsh_desktop::store::{upsert_item, Store, StoreItem};

fn stale_plugin() -> StoreItem {
    StoreItem {
        id: "stale-plugin".into(),
        name: "stale-plugin".into(),
        origin: "npm".into(),
        source: "stale-plugin".into(),
        installed_version: "2.0.0".into(),
        latest_version: Some("3.0.0".into()),
        mode: "link".into(),
        pinned: false,
        installed_at: String::new(),
        updated_at: String::new(),
        repo_url: None,
        description: None,
    }
}

fn meta(mode: &str, version: &str) -> KernelMeta {
    KernelMeta { mode: mode.into(), version: version.into(), synced_at: "5".into() }
}

#[test]
fn status_flags_stale_materialization() {
    let data_dir = "/tmp/dsh-status/desktop";
    let version = "1.0.0";
    let mut store = Store::default();
    upsert_item(&mut store, stale_plugin());
    let settings = Settings::default();
    let facts = vec![ItemFacts { meta: None, present: false }];
    let view = status(data_dir, &settings, &store, Some(version.to_string()), &facts, &None);
    assert_eq!(view.rows.len(), 1);
    assert!(!view.rows[0].synced);
    assert_eq!(view.updates, 1);
    assert_eq!(view.rows[0].latest_version.as_deref(), Some("3.0.0"));
}

#[test]
fn status_reports_synced_and_wired_plugins() {
    let data_dir = "/home/u/.dsh/desktop";
    let mut store = Store::default();
    let mut it = stale_plugin();
    it.latest_version = Some("1.0.0".into());
    upsert_item(&mut store, it);
    store.warning = Some("w".into());
    let settings = Settings::default();
    let manifest = Some(ProfileManifest {
        deps: Some(vec![Dep {
            name: "stale-plugin".into(),
            spec: Some("file:../../desktop/kernels/1.0.0/plugins/stale-plugin".into()),
        }]),
        bundles: Some(Vec::new()),
    });
    let facts = vec![ItemFacts { meta: Some(meta("copy", "2.0.0")), present: true }];
    let view = status(data_dir, &settings, &store, Some("1.0.0".into()), &facts, &manifest);
    let row = &view.rows[0];
    assert!(row.synced);
    assert!(row.wired);
    assert_eq!(row.actual_mode.as_deref(), Some("copy"));
    assert_eq!(row.desired_mode, "link");
    assert_eq!(view.updates, 0);
    assert_eq!(view.profile, "web");
    assert_eq!(view.active_kernel.as_deref(), Some("1.0.0"));
    assert_eq!(view.warning.as_deref(), Some("w"));

    // A link spec where the kernel holds a copy is not the expected wiring.
    let facts = vec![ItemFacts { meta: Some(meta("link", "2.0.0")), present: true }];
    let view = status(data_dir, &settings, &store, Some("1.0.0".into()), &facts, &manifest);
    assert!(!view.rows[0].wired);
}

#[test]
fn status_without_active_kernel_is_unsynced() {
    let mut store = Store::default();
    upsert_item(&mut store, stale_plugin());
    let manifest = Some(ProfileManifest {
        deps: Some(vec![Dep {
            name: "stale-plugin".into(),
            spec: Some("^1.0.0 desktop/kernels/".into()),
        }]),
        bundles: None,
    });
    let facts = vec![ItemFacts { meta: Some(meta("link", "2.0.0")), present: true }];
    let view = status("/d/desktop", &Settings::default(), &store, None, &facts, &manifest);
    assert!(!view.rows[0].synced);
    assert_eq!(view.rows[0].actual_mode, None);
    // A spec into a kernel plugins dir that the shell did not write still counts.
    assert!(view.rows[0].wired);
    assert_eq!(view.active_kernel, None);
}

#[test]
fn an_update_clears_the_update_badge() {
    let mut prev = stale_plugin();
    prev.origin = "git".into();
    prev.installed_version = "v646c91c".into();
    let mut fetched = stale_plugin();
    fetched.origin = "git".into();
    fetched.installed_version = "v0.2.0".into();
    let next = updated_item(fetched, &prev);
    let mut store = Store::default();
    upsert_item(&mut store, next);
    let facts = vec![ItemFacts { meta: None, present: false }];
    let view = status("/d/desktop", &Settings::default(), &store, None, &facts, &None);
    assert_eq!(view.updates, 0);
    assert_eq!(view.rows[0].latest_version.as_deref(), Some("v0.2.0"));
}
