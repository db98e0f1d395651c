use dsh_desktop::error::AppError;
use dsh_desktop::materialize::{materialize_plan, placement, rebuild_result, KernelMeta, Materialize};
use dsh_desktop::store::StoreItem;

fn mat_item(mode: &str) -> StoreItem {
    StoreItem {
        id: "mat-plugin".into(),
        name: "mat-plugin".into(),
        origin: "npm".into(),
        source: "mat-plugin".into(),
        installed_version: "1.0.0".into(),
        latest_version: None,
        mode: mode.into(),
        pinned: false,
        installed_at: String::new(),
        updated_at: String::new(),
        repo_url: None,
        description: None,
    }
}

#[test]
fn materialize_link_then_copy() {
    let item = mat_item("link");
    let version = "0.1.1";
    // First sync: nothing recorded, rebuild as a link.
    assert!(matches!(materialize_plan(&item, &None, false, false), Materialize::Rebuild { link: true }));
    let (actual, copy) = placement(&item, true);
    assert_eq!(actual, "link");
    assert!(!copy);
    let meta = rebuild_result(&item, version, &actual, None, true, "1".into()).expect("materialize");
    assert_eq!(meta.mode, "link");
    assert_eq!(meta.version, "1.0.0");
    // Second sync with the link in place: kept as is.
    match materialize_plan(&item, &Some(meta.clone()), true, true) {
        Materialize::Keep(mode) => assert_eq!(mode, "link"),
        other => panic!("unexpected {other:?}"),
    }
    // A link that points elsewhere is rebuilt.
    assert!(matches!(materialize_plan(&item, &Some(meta.clone()), true, false), Materialize::Rebuild { .. }));

    // copy 模式覆盖
    let copy_item = mat_item("copy");
    assert!(matches!(
        materialize_plan(&copy_item, &Some(meta), true, true),
        Materialize::Rebuild { link: false }
    ));
    let (actual, copy) = placement(&copy_item, false);
    assert_eq!(actual, "copy");
    assert!(copy);
    let meta = rebuild_result(&copy_item, version, &actual, None, true, "2".into()).expect("copy");
    assert_eq!(meta.mode, "copy");
    assert_eq!(meta.version, "1.0.0");
}

#[test]
fn failed_links_fall_back_to_copies() {
    let (actual, copy) = placement(&mat_item("link"), false);
    assert_eq!(actual, "copy");
    assert!(copy);
    let (odd, copy) = placement(&mat_item("mirror"), false);
    assert_eq!(odd, "mirror");
    assert!(!copy);
}

#[test]
fn rebuild_errors() {
    let item = mat_item("copy");
    match rebuild_result(&item, "0.1.1", "copy", Some("disk full".into()), true, "1".into()) {
        Err(AppError::Io(m)) => assert_eq!(m, "复制插件到内核失败：disk full"),
        other => panic!("unexpected {other:?}"),
    }
    match rebuild_result(&item, "0.1.1", "copy", None, false, "1".into()) {
        Err(AppError::Plugin(m)) => assert_eq!(m, "物化失败：mat-plugin 在内核 0.1.1 中未就绪"),
        other => panic!("unexpected {other:?}"),
    }
    let stale = KernelMeta { mode: "link".into(), version: "0.9.0".into(), synced_at: "1".into() };
    assert!(matches!(
        materialize_plan(&mat_item("link"), &Some(stale), true, true),
        Materialize::Rebuild { link: true }
    ));
}
