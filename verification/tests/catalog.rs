use dsh_desktop::catalog::{
    cache_fresh, catalog, from_market_raw, hub_items, market_items, pick_catalog, CatalogInstall,
    CatalogItem, CatalogRaw, HubRaw, CATALOG_TTL_SECS,
};
use dsh_desktop::error::AppError;

fn hub(s: &str, o: &str, n: &str, r: &str, v: &str) -> HubRaw {
    HubRaw {
        s: s.to_string(),
        o: o.to_string(),
        n: n.to_string(),
        vr: String::new(),
        c: String::new(),
        t: Vec::new(),
        d: String::new(),
        r: r.to_string(),
        v: v.to_string(),
        u: String::new(),
        sg: 0,
        fk: 0,
    }
}

fn market(name: &str) -> CatalogRaw {
    CatalogRaw {
        id: format!("id-{name}"),
        name: name.to_string(),
        kind: "plugin".to_string(),
        package: None,
        repo: None,
        version: None,
        description: None,
        stars: 0,
        downloads: 0,
        verified: false,
        install: None,
        category: "tools".to_string(),
    }
}

fn item(id: &str, stars: u64) -> CatalogItem {
    let mut raw = market(id);
    raw.stars = stars;
    let mut it = from_market_raw(raw);
    it.id = id.to_string();
    it
}

#[test]
fn hub_entry_normalizes_to_catalog_item() {
    let raw = HubRaw {
        s: "modlens".to_string(),
        o: "liustack".to_string(),
        n: "modlens".to_string(),
        vr: "v3.22.1".to_string(),
        c: "tools".to_string(),
        t: vec!["vision".to_string()],
        d: "desc".to_string(),
        r: "liustack/modlens".to_string(),
        v: "verified".to_string(),
        u: "2026-08-20T20:05:55Z".to_string(),
        sg: 3497,
        fk: 95,
    };
    let item = raw.into_item();
    assert_eq!(item.origin, "git");
    assert_eq!(item.spec, "https://github.com/liustack/modlens.git");
    assert_eq!(item.version, "v3.22.1");
    assert_eq!(item.stars, 3497);
    assert_eq!(item.forks, 95);
    assert!(item.verified);
    assert_eq!(item.category, "tools");
    assert_eq!(
        item.detail_url,
        "https://dsh-plugin.org/zh/plugins/liustack/modlens"
    );

    // 无 repo 的条目回退 npm 安装
    let mut raw = hub("", "", "pkg", "", "");
    raw.d = "x".to_string();
    let item = raw.into_item();
    assert_eq!(item.origin, "npm");
    assert_eq!(item.spec, "pkg");
    assert!(!item.verified);
}

#[test]
fn hub_entry_without_slug_uses_repo_page_and_name() {
    let item = hub("", "", "Lens", "o/lens", "pending").into_item();
    assert_eq!(item.id, "Lens");
    assert_eq!(item.detail_url, "https://github.com/o/lens");
    assert_eq!(item.repo.as_deref(), Some("o/lens"));
    assert!(!item.verified);
    let bare = hub("", "", "pkg", "", "").into_item();
    assert_eq!(bare.detail_url, "");
    assert_eq!(bare.repo, None);
}

#[test]
fn market_entry_with_package_installs_from_npm() {
    let mut raw = market("dsh-x");
    raw.package = Some("@s/dsh-x".to_string());
    raw.repo = Some("o/dsh-x".to_string());
    let it = from_market_raw(raw);
    assert_eq!(it.origin, "npm");
    assert_eq!(it.spec, "@s/dsh-x");
    assert_eq!(it.detail_url, "https://github.com/o/dsh-x");

    let mut raw = market("dsh-y");
    raw.install = Some(CatalogInstall { method: "dsh-plugin-add".to_string() });
    let it = from_market_raw(raw);
    assert_eq!(it.origin, "npm");
    assert_eq!(it.spec, "dsh-y");
}

#[test]
fn market_entry_with_repo_pins_semver_tags_only() {
    let mut raw = market("r");
    raw.repo = Some("o/r".to_string());
    raw.version = Some("v1.2.3-rc.1".to_string());
    let it = from_market_raw(raw);
    assert_eq!(it.origin, "git");
    assert_eq!(it.spec, "https://github.com/o/r.git#v1.2.3-rc.1");
    assert_eq!(it.version, "v1.2.3-rc.1");

    let mut raw = market("r");
    raw.repo = Some("o/r".to_string());
    raw.version = Some("latest".to_string());
    let it = from_market_raw(raw);
    assert_eq!(it.spec, "https://github.com/o/r.git");

    let it = from_market_raw(market("bare"));
    assert_eq!(it.origin, "git");
    assert_eq!(it.spec, "");
    assert_eq!(it.description, "");
    assert_eq!(it.version, "");
}

#[test]
fn catalog_sorts_by_stars_keeping_ties_in_order() {
    let items = vec![item("a", 5), item("b", 9), item("c", 5), item("d", 0), item("e", 9)];
    let sorted = catalog(Ok(items)).unwrap();
    let ids: Vec<&str> = sorted.iter().map(|i| i.id.as_str()).collect();
    assert_eq!(ids, vec!["b", "e", "a", "c", "d"]);
}

#[test]
fn catalog_fetch_failure_is_a_plugin_error() {
    match catalog(Err("timeout".to_string())) {
        Err(AppError::Plugin(m)) => assert_eq!(m, "目录获取失败：timeout"),
        other => panic!("unexpected {other:?}"),
    }
}

#[test]
fn catalog_cache_freshness_window() {
    assert_eq!(CATALOG_TTL_SECS, 6 * 3600);
    assert!(cache_fresh(false, Some(0)));
    assert!(cache_fresh(false, Some(21599)));
    assert!(!cache_fresh(false, Some(21600)));
    assert!(!cache_fresh(true, Some(10)));
    assert!(!cache_fresh(false, None));
}

#[test]
fn hub_is_preferred_when_it_answers_with_entries() {
    let picked = pick_catalog(Ok(vec![hub("a", "o", "A", "o/a", "")])).unwrap();
    assert_eq!(picked.len(), 1);
    assert_eq!(picked[0].spec, "https://github.com/o/a.git");
    assert!(pick_catalog(Ok(Vec::new())).is_none());
    assert!(pick_catalog(Err("down".to_string())).is_none());
    let listed = hub_items(vec![hub("x", "", "X", "", ""), hub("y", "", "Y", "", "")]);
    assert_eq!(listed[0].id, "x");
    assert_eq!(listed[1].id, "y");
    let fallback = market_items(vec![market("m1"), market("m2")]);
    assert_eq!(fallback[1].name, "m2");
}

#[test]
fn market_versions_with_leading_v_get_a_tag() {
    let mut raw = market("x");
    raw.repo = Some("o/r".to_string());
    raw.version = Some("v1.2.3".to_string());
    let it = from_market_raw(raw);
    assert_eq!(it.origin, "git");
    assert_eq!(it.spec, "https://github.com/o/r.git#v1.2.3");
    assert_eq!(it.version, "v1.2.3");
    assert_eq!(it.detail_url, "https://github.com/o/r");

    let mut raw = market("x");
    raw.repo = Some("o/r".to_string());
    raw.version = Some("1.2.3".to_string());
    assert_eq!(from_market_raw(raw).spec, "https://github.com/o/r.git#1.2.3");

    let mut raw = market("x");
    raw.repo = Some("o/r".to_string());
    raw.version = Some("v1.x".to_string());
    assert_eq!(from_market_raw(raw).spec, "https://github.com/o/r.git");
}
