use dsh_desktop::error::AppError;
use dsh_desktop::fetch::{
    clone_result, cloned_version, doc_latest, fetch_origin, fetched_item, git_available, git_ref, head_version,
    latest_branch, npm_release, peer_paths, peers_plan, peers_to_link, scratch_dir, swap_step,
    GitRef, NpmDoc, NpmVersion, Origin, PeersRecord, SwapEvent, SwapStep,
};
use dsh_desktop::install_spec::parse_spec;
use dsh_desktop::package::PluginManifest;
use dsh_desktop::store::StoreItem;

fn doc() -> NpmDoc {
    NpmDoc {
        dist_tags: vec![("next".into(), "2.0.0-rc.1".into()), ("latest".into(), "1.2.3".into())],
        versions: vec![
            NpmVersion { version: "1.2.3".into(), tarball: Some("https://r/x-1.2.3.tgz".into()) },
            NpmVersion { version: "1.0.0".into(), tarball: Some(String::new()) },
            NpmVersion { version: "0.9.0".into(), tarball: None },
        ],
    }
}

#[test]
fn origins_select_fetchers() {
    assert!(matches!(fetch_origin("npm"), Ok(Origin::Npm)));
    assert!(matches!(fetch_origin("git"), Ok(Origin::Git)));
    match fetch_origin("svn") {
        Err(AppError::Plugin(m)) => assert_eq!(m, "未知来源 \"svn\""),
        other => panic!("unexpected {other:?}"),
    }
}

#[test]
fn scratch_dirs_live_in_the_store() {
    assert_eq!(scratch_dir("/h/plugins", "tmp", "a__b", "17"), "/h/plugins/.tmp-a__b-17");
    assert_eq!(scratch_dir("/h/plugins", "old", "x", ""), "/h/plugins/.old-x-");
}

#[test]
fn fetched_items_inherit_mode_latest_and_install_time() {
    let spec = parse_spec("dsh-market@1.2.3").unwrap();
    let fresh = fetched_item(&spec, "1.2.3".into(), &None, "100".into());
    assert_eq!(fresh.id, "dsh-market");
    assert_eq!(fresh.mode, "link");
    assert!(fresh.pinned);
    assert_eq!(fresh.installed_at, "100");
    assert_eq!(fresh.updated_at, "100");
    assert_eq!(fresh.latest_version, None);
    let mut old = StoreItem::default();
    old.mode = "copy".into();
    old.installed_at = "50".into();
    old.latest_version = Some("9.9.9".into());
    let again = fetched_item(&spec, "1.2.3".into(), &Some(old), "200".into());
    assert_eq!(again.mode, "copy");
    assert_eq!(again.installed_at, "50");
    assert_eq!(again.updated_at, "200");
    assert_eq!(again.latest_version.as_deref(), Some("9.9.9"));
    let git = parse_spec("o/r").unwrap();
    let g = fetched_item(&git, "v1.0.0".into(), &None, "1".into());
    assert!(!g.pinned);
    assert_eq!(g.repo_url.as_deref(), Some("https://github.com/o/r"));
}

#[test]
fn npm_release_picks_pin_or_latest_and_its_tarball() {
    assert_eq!(doc_latest(&doc()).as_deref(), Some("1.2.3"));
    let unpinned = parse_spec("x").unwrap();
    assert_eq!(
        npm_release(&unpinned, Ok(doc())).unwrap(),
        ("1.2.3".to_string(), "https://r/x-1.2.3.tgz".to_string())
    );
    let pinned_empty = parse_spec("x@1.0.0").unwrap();
    match npm_release(&pinned_empty, Ok(doc())) {
        Err(AppError::Plugin(m)) => assert_eq!(m, "npm 上 x@1.0.0 没有可下载的 tarball"),
        other => panic!("unexpected {other:?}"),
    }
    let no_dist = parse_spec("x@0.9.0").unwrap();
    assert!(npm_release(&no_dist, Ok(doc())).is_err());
    let unknown = parse_spec("x@5.0.0").unwrap();
    assert!(npm_release(&unknown, Ok(doc())).is_err());
    let no_latest = NpmDoc { dist_tags: Vec::new(), versions: Vec::new() };
    match npm_release(&unpinned, Ok(no_latest)) {
        Err(AppError::Plugin(m)) => assert_eq!(m, "npm 上找不到包 x 或其 latest 标记"),
        other => panic!("unexpected {other:?}"),
    }
    match npm_release(&unpinned, Err("404".into())) {
        Err(AppError::Plugin(m)) => assert_eq!(m, "查询 npm 失败：404"),
        other => panic!("unexpected {other:?}"),
    }
}

#[test]
fn git_fetch_decisions() {
    let pinned = parse_spec("https://github.com/o/r.git#v1.2.3").unwrap();
    assert!(matches!(git_ref(&pinned), GitRef::Tag(t) if t == "v1.2.3"));
    let unpinned = parse_spec("https://github.com/o/r.git").unwrap();
    assert!(matches!(git_ref(&unpinned), GitRef::LatestTag));
    assert_eq!(latest_branch(Ok(Some("v2.0.0".into()))).unwrap().as_deref(), Some("v2.0.0"));
    assert_eq!(latest_branch(Ok(None)).unwrap(), None);
    match latest_branch(Err("boom".into())) {
        Err(AppError::Plugin(m)) => assert_eq!(m, "查询最新 tag 失败：boom"),
        other => panic!("unexpected {other:?}"),
    }
    assert!(git_available(true).is_ok());
    assert!(git_available(false).is_err());
    assert!(clone_result(Ok((true, Some(0)))).is_ok());
    match clone_result(Ok((false, Some(128)))) {
        Err(AppError::Plugin(m)) => assert_eq!(m, "git clone 失败（退出码 Some(128)），请检查地址与网络"),
        other => panic!("unexpected {other:?}"),
    }
    match clone_result(Err("no git".into())) {
        Err(AppError::Io(m)) => assert_eq!(m, "无法运行 git：no git"),
        other => panic!("unexpected {other:?}"),
    }
    assert_eq!(head_version(Ok((true, "646c91c\n".into()))).unwrap(), "646c91c");
    assert_eq!(head_version(Ok((false, String::new()))).unwrap(), "head");
    assert!(matches!(head_version(Err("x".into())), Err(AppError::Io(_))));
}

#[test]
fn refreshes_peers_from_active_kernel() {
    let data_dir = "/h/.dsh/desktop";
    let version = "2.0.0";
    let mut item = StoreItem::default();
    item.id = "peer-plugin".into();
    let manifest = Some(PluginManifest {
        name: Some("peer-plugin".into()),
        main: None,
        has_exports: false,
        bundle_patch: None,
        prepare: None,
        has_deps: false,
        peers: Some(vec!["@deepseek-ai/dsh-base".into()]),
    });
    let names = peers_plan(&item, &None, version, &manifest).expect("peers");
    assert_eq!(names, vec!["@deepseek-ai/dsh-base".to_string()]);
    let (target, dest) = peer_paths(data_dir, version, &item.id, &names[0]);
    assert_eq!(target, "/h/.dsh/desktop/kernels/2.0.0/node_modules/@deepseek-ai/dsh-base");
    assert_eq!(dest, "/h/.dsh/plugins/peer-plugin/node_modules/@deepseek-ai/dsh-base");
    let linked = peers_to_link(&names, &vec![true], &vec![false]);
    assert_eq!(linked, names);
    // 幂等：同内核再跑一次不重复
    let record = Some(PeersRecord { kernel: Some(version.into()), listed: true });
    assert!(peers_plan(&item, &record, version, &manifest).is_none());
    // 切换内核后重新解析；已存在的 peer 不再链接
    let names = peers_plan(&item, &record, "3.0.0", &manifest).expect("peers");
    assert!(peers_to_link(&names, &vec![true], &vec![true]).is_empty());
    assert!(peers_to_link(&names, &vec![false], &vec![false]).is_empty());
}

#[test]
fn peers_are_only_resolved_for_link_mode_with_declared_peers() {
    let mut item = StoreItem::default();
    item.mode = "copy".into();
    let m = Some(PluginManifest {
        name: None,
        main: None,
        has_exports: false,
        bundle_patch: None,
        prepare: None,
        has_deps: false,
        peers: Some(vec!["a".into()]),
    });
    assert!(peers_plan(&item, &None, "1", &m).is_none());
    item.mode = "link".into();
    assert!(peers_plan(&item, &None, "1", &None).is_none());
    let mut no_peers = m.clone().unwrap();
    no_peers.peers = None;
    assert!(peers_plan(&item, &None, "1", &Some(no_peers)).is_none());
    let unlisted = Some(PeersRecord { kernel: Some("1".into()), listed: false });
    assert!(peers_plan(&item, &unlisted, "1", &m).is_some());
    let order = peers_to_link(
        &vec!["c".into(), "a".into(), "b".into()],
        &vec![true, true, true],
        &vec![false, true, false],
    );
    assert_eq!(order, vec!["c".to_string(), "b".to_string()]);
}

#[test]
fn swap_replaces_installed_copy_only_after_move_in() {
    let (step, aside) = swap_step(false, SwapEvent::Begin { installed: true });
    assert!(matches!(step, SwapStep::MoveAside));
    assert!(!aside);
    let (step, aside) = swap_step(aside, SwapEvent::Aside(Ok(())));
    assert!(matches!(step, SwapStep::MoveIn));
    assert!(aside);
    let (step, aside) = swap_step(aside, SwapEvent::MovedIn(Ok(())));
    assert!(matches!(step, SwapStep::Finish { drop_aside: true }));
    assert!(!aside);
}

#[test]
fn swap_of_new_entry_moves_in_directly() {
    let (step, aside) = swap_step(false, SwapEvent::Begin { installed: false });
    assert!(matches!(step, SwapStep::MoveIn));
    let (step, _) = swap_step(aside, SwapEvent::MovedIn(Ok(())));
    assert!(matches!(step, SwapStep::Finish { drop_aside: false }));
}

#[test]
fn failed_swap_restores_installed_copy() {
    match swap_step(true, SwapEvent::MovedIn(Err("busy".to_string()))) {
        (SwapStep::Abort { error: AppError::Io(m), restore_aside }, _) => {
            assert_eq!(m, "busy");
            assert!(restore_aside);
        }
        _ => panic!("expected an abort"),
    }
    match swap_step(false, SwapEvent::Aside(Err("denied".to_string()))) {
        (SwapStep::Abort { error: AppError::Io(m), restore_aside }, aside) => {
            assert_eq!(m, "denied");
            assert!(!restore_aside);
            assert!(!aside);
        }
        _ => panic!("expected an abort"),
    }
    match swap_step(false, SwapEvent::MovedIn(Err("x".to_string()))) {
        (SwapStep::Abort { restore_aside, .. }, _) => assert!(!restore_aside),
        _ => panic!("expected an abort"),
    }
}

#[test]
fn cloned_version_prefers_the_cloned_tag() {
    assert_eq!(cloned_version(Some("v1.2.3".to_string()), None).unwrap(), "v1.2.3");
    assert_eq!(
        cloned_version(Some("v2".to_string()), Some(Ok((true, "abc\n".to_string())))).unwrap(),
        "v2"
    );
    assert_eq!(cloned_version(None, Some(Ok((true, " 1a2b3c \n".to_string())))).unwrap(), "1a2b3c");
    assert_eq!(cloned_version(None, Some(Ok((false, String::new())))).unwrap(), "head");
    match cloned_version(None, Some(Err("no git".to_string()))) {
        Err(AppError::Io(m)) => assert_eq!(m, "no git"),
        other => panic!("unexpected {other:?}"),
    }
}
