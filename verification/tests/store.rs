use dsh_desktop::error::AppError;
use dsh_desktop::ops::{
    ensure_wiring_quiet, install, installed_item, set_mode, uninstall, update, updated_item,
    wants_store_deps,
};
use dsh_desktop::paths::store_dir;
use dsh_desktop::store::{remove_item, store_item, upsert_item, Store, StoreItem};

fn plugin(id: &str, version: &str) -> StoreItem {
    StoreItem {
        id: id.into(),
        name: "test-plugin".into(),
        origin: "npm".into(),
        source: "test-plugin".into(),
        installed_version: version.into(),
        latest_version: None,
        mode: "link".into(),
        pinned: false,
        installed_at: "1".into(),
        updated_at: "2".into(),
        repo_url: None,
        description: None,
    }
}

#[test]
fn store_round_trips() {
    let home = "/tmp/dsh-plugins-test/home";
    let data_dir = format!("{home}/desktop");
    let mut store = Store::default();
    upsert_item(&mut store, plugin("test-plugin-1", "1.0.0"));
    assert_eq!(store.items.len(), 1);
    assert_eq!(store.items[0].id, "test-plugin-1");
    assert_eq!(store_item(&store, "test-plugin-1").unwrap().installed_version, "1.0.0");
    assert!(store_dir(&data_dir).starts_with(home));
    assert_eq!(store_dir(&data_dir), format!("{home}/plugins"));
}

#[test]
fn store_defaults_match_a_fresh_inventory() {
    let s = Store::default();
    assert_eq!(s.schema_version, 1);
    assert!(s.items.is_empty() && s.last_checked_at.is_none() && s.warning.is_none());
    let it = StoreItem::default();
    assert_eq!(it.origin, "npm");
    assert_eq!(it.mode, "link");
    assert!(!it.pinned);
}

#[test]
fn upsert_replaces_in_place_and_remove_drops_every_copy() {
    let mut store = Store::default();
    upsert_item(&mut store, plugin("a", "1"));
    upsert_item(&mut store, plugin("b", "1"));
    upsert_item(&mut store, plugin("a", "2"));
    assert_eq!(store.items.len(), 2);
    assert_eq!(store.items[0].id, "a");
    assert_eq!(store.items[0].installed_version, "2");
    assert_eq!(store.items[1].id, "b");
    store.items.push(plugin("b", "3"));
    remove_item(&mut store, "b");
    assert_eq!(store.items.len(), 1);
    assert!(store_item(&store, "b").is_none());
    assert_eq!(store_item(&store, "a").unwrap().installed_version, "2");
}

#[test]
fn install_refuses_an_installed_plugin() {
    let mut store = Store::default();
    let spec = install(&store, "dsh-market@1.0.0").unwrap();
    assert_eq!(spec.id, "dsh-market");
    let mut it = plugin("dsh-market", "1.0.0");
    it.name = "dsh-market".into();
    upsert_item(&mut store, it);
    match install(&store, "dsh-market") {
        Err(AppError::Plugin(m)) => assert_eq!(m, "dsh-market 已安装，请使用「更新」"),
        other => panic!("unexpected {other:?}"),
    }
    match install(&store, "   ") {
        Err(AppError::Plugin(m)) => assert_eq!(m, "安装地址为空或过长"),
        other => panic!("unexpected {other:?}"),
    }
    let copy = installed_item(plugin("x", "1"), "copy");
    assert_eq!(copy.mode, "copy");
    let link = installed_item(plugin("x", "1"), "anything");
    assert_eq!(link.mode, "link");
    assert!(wants_store_deps(&link));
    assert!(!wants_store_deps(&copy));
}

#[test]
fn update_checks_presence_and_pin() {
    let mut store = Store::default();
    match update(&store, "nope") {
        Err(AppError::Plugin(m)) => assert_eq!(m, "插件不在中央库中"),
        other => panic!("unexpected {other:?}"),
    }
    let mut pinned = plugin("p", "0.1.0");
    pinned.name = "p-name".into();
    pinned.pinned = true;
    upsert_item(&mut store, pinned);
    match update(&store, "p") {
        Err(AppError::Plugin(m)) => {
            assert_eq!(m, "p-name 已锁定版本 0.1.0，如需升级请重新安装（不带版本号）")
        }
        other => panic!("unexpected {other:?}"),
    }
    upsert_item(&mut store, plugin("q", "1.0.0"));
    let (cur, spec) = update(&store, "q").unwrap();
    assert_eq!(cur.installed_version, "1.0.0");
    assert_eq!(spec.source, "test-plugin");
    let mut fetched = plugin("q", "2.0.0");
    fetched.mode = "link".into();
    let mut prev = cur.clone();
    prev.mode = "copy".into();
    let next = updated_item(fetched, &prev);
    assert_eq!(next.mode, "copy");
    assert_eq!(next.latest_version.as_deref(), Some("2.0.0"));
}

#[test]
fn update_keeps_the_stored_id() {
    let mut store = Store::default();
    let mut item = plugin("o__r", "1.0.0");
    item.origin = "git".into();
    item.source = "https://github.com/o/r.git".into();
    upsert_item(&mut store, item);
    let (cur, spec) = update(&store, "o__r").unwrap();
    assert_eq!(cur.id, "o__r");
    assert_eq!(spec.id, "o__r");
    assert_eq!(spec.origin, "git");
    assert_eq!(spec.source, "https://github.com/o/r.git");
    assert_eq!(spec.pin, None);
}

#[test]
fn uninstall_removes_or_refuses() {
    let mut store = Store::default();
    upsert_item(&mut store, plugin("a", "1"));
    match uninstall(&mut store, "b") {
        Err(AppError::Plugin(m)) => assert_eq!(m, "插件不在中央库中"),
        other => panic!("unexpected {other:?}"),
    }
    assert_eq!(store.items.len(), 1);
    uninstall(&mut store, "a").unwrap();
    assert!(store.items.is_empty());
}

#[test]
fn set_mode_validates_then_updates() {
    let mut store = Store::default();
    upsert_item(&mut store, plugin("a", "1"));
    match set_mode(&mut store, "a", "hard") {
        Err(AppError::Plugin(m)) => assert_eq!(m, "模式只能是 link 或 copy"),
        other => panic!("unexpected {other:?}"),
    }
    match set_mode(&mut store, "zz", "copy") {
        Err(AppError::Plugin(m)) => assert_eq!(m, "插件不在中央库中"),
        other => panic!("unexpected {other:?}"),
    }
    let it = set_mode(&mut store, "a", "copy").unwrap();
    assert_eq!(it.mode, "copy");
    assert_eq!(store.items[0].mode, "copy");
    assert_eq!(store.items[0].installed_version, "1");
}

#[test]
fn background_wiring_outcome_becomes_the_store_warning() {
    let mut store = Store::default();
    let err = ensure_wiring_quiet(&mut store, &Err(AppError::Plugin("boom".into())));
    assert_eq!(err, Err("boom".to_string()));
    assert_eq!(store.warning.as_deref(), Some("boom"));
    assert_eq!(ensure_wiring_quiet(&mut store, &Ok((2, true))), Ok(()));
    assert_eq!(store.warning, None);
}
