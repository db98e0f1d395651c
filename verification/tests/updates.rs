use dsh_desktop::fetch::{NpmDoc, NpmVersion};
use dsh_desktop::store::{upsert_item, Store, StoreItem};
use dsh_desktop::updates::{check_updates, git_latest_tag, update_source, UpdateProbe, UpdateSource};

#[test]
fn reads_highest_tag_from_ls_remote() {
    let listing = "a1\trefs/tags/v1.2.0\r\nb2\trefs/tags/v1.2.0^{}\nc3\trefs/tags/v1.10.0\nd4\trefs/heads/main\ne5\trefs/tags/nightly\n";
    assert_eq!(
        git_latest_tag(Ok((true, listing.to_string()))).unwrap().as_deref(),
        Some("v1.10.0")
    );
    assert_eq!(git_latest_tag(Ok((true, "x\trefs/tags/beta\n".into()))).unwrap(), None);
    assert_eq!(git_latest_tag(Ok((false, listing.to_string()))).unwrap(), None);
    assert_eq!(git_latest_tag(Ok((true, String::new()))).unwrap(), None);
    assert_eq!(git_latest_tag(Err("spawn".into())), Err("spawn".to_string()));
    // The peeled line of the last tag (no trailing newline, tab-less lines ignored).
    let peeled = "a\trefs/tags/v2.0.0^{}\nnot a ref line";
    assert_eq!(git_latest_tag(Ok((true, peeled.into()))).unwrap().as_deref(), Some("v2.0.0"));
}

fn item(id: &str, origin: &str, installed: &str, pinned: bool) -> StoreItem {
    let mut it = StoreItem::default();
    it.id = id.into();
    it.origin = origin.into();
    it.installed_version = installed.into();
    it.pinned = pinned;
    it.latest_version = Some("stale".into());
    it
}

#[test]
fn update_check_records_newer_versions_only() {
    let mut store = Store::default();
    upsert_item(&mut store, item("n", "npm", "1.0.0", false));
    upsert_item(&mut store, item("g", "git", "v646c91c", false));
    upsert_item(&mut store, item("e", "npm", "1.0.0", false));
    upsert_item(&mut store, item("o", "svn", "1", false));
    assert!(matches!(update_source(&store.items[0]), UpdateSource::Npm));
    assert!(matches!(update_source(&store.items[1]), UpdateSource::Git));
    assert!(matches!(update_source(&store.items[3]), UpdateSource::Skip));
    let doc = NpmDoc {
        dist_tags: vec![("latest".into(), "1.1.0".into())],
        versions: vec![NpmVersion { version: "1.1.0".into(), tarball: None }],
    };
    let probes = vec![
        UpdateProbe::Npm(Ok(doc)),
        UpdateProbe::Git(Ok(Some("v0.15.0".into()))),
        UpdateProbe::Npm(Err("offline".into())),
        UpdateProbe::Skipped,
    ];
    let out = check_updates(&mut store, &probes, "1700000000".into());
    assert_eq!(out.len(), 4);
    assert_eq!(out[0].id, "n");
    assert_eq!(out[0].latest.as_deref(), Some("1.1.0"));
    assert_eq!(out[1].latest, None); // tag vs hash: no update
    assert_eq!(out[2].error.as_deref(), Some("offline"));
    assert_eq!(out[2].latest, None);
    assert_eq!(out[3].latest, None);
    assert_eq!(out[3].error, None);
    assert_eq!(store.items[0].latest_version.as_deref(), Some("1.1.0"));
    assert_eq!(store.items[1].latest_version, None);
    assert_eq!(store.last_checked_at.as_deref(), Some("1700000000"));
}
