use dsh_desktop::error::AppError;
use dsh_desktop::install_spec::{id_for_name, parse_spec};

#[test]
fn parses_npm_specs() {
    assert_eq!(parse_spec("dsh-market").unwrap().origin, "npm");
    let scoped = parse_spec("@ace-zone/dsh-market").unwrap();
    assert_eq!(scoped.origin, "npm");
    assert_eq!(scoped.source, "@ace-zone/dsh-market");
    assert_eq!(scoped.pin, None);
    let pinned = parse_spec("@ace-zone/dsh-market@0.1.66").unwrap();
    assert_eq!(pinned.pin.as_deref(), Some("0.1.66"));
    assert_eq!(pinned.id, "@ace-zone__dsh-market");
    let unpinned = parse_spec("dsh-market@1.2.3").unwrap();
    assert_eq!(unpinned.source, "dsh-market");
    assert_eq!(unpinned.pin.as_deref(), Some("1.2.3"));
}

#[test]
fn parses_git_specs() {
    let url = parse_spec("https://github.com/losebird/dsh-plugin-market").unwrap();
    assert_eq!(url.origin, "git");
    assert!(url.source.starts_with("https://"));
    let pinned = parse_spec("https://github.com/o/r.git#v1.2.3").unwrap();
    assert_eq!(pinned.pin.as_deref(), Some("v1.2.3"));
    let ssh = parse_spec("git@github.com:o/r.git").unwrap();
    assert_eq!(ssh.origin, "git");
    let shorthand = parse_spec("losebird/dsh-plugin-market").unwrap();
    assert_eq!(shorthand.origin, "git");
    assert_eq!(
        shorthand.source,
        "https://github.com/losebird/dsh-plugin-market.git"
    );
    assert_eq!(shorthand.id, "losebird__dsh-plugin-market");
}

#[test]
fn rejects_path_traversal_ids() {
    assert!(id_for_name("a/../b").is_err());
    assert!(id_for_name("..").is_err());
    assert!(id_for_name("").is_err());
    assert!(id_for_name("a//b").is_err());
}

#[test]
fn ids_replace_slashes_and_explain_refusals() {
    assert_eq!(id_for_name("  @scope/pkg ").unwrap(), "@scope__pkg");
    match id_for_name("a/./b") {
        Err(AppError::Plugin(m)) => assert_eq!(m, "非法的插件名称 \"a/./b\"（包含空段或 ..）"),
        other => panic!("unexpected {other:?}"),
    }
    match id_for_name(&"x".repeat(201)) {
        Err(AppError::Plugin(m)) => assert_eq!(m, "插件名称为空或过长"),
        other => panic!("unexpected {other:?}"),
    }
}

#[test]
fn parse_spec_errors_and_git_names() {
    match parse_spec("bad name!") {
        Err(AppError::Plugin(m)) => assert_eq!(m, "非法的 npm 包名 \"bad name!\""),
        other => panic!("unexpected {other:?}"),
    }
    match parse_spec("@scope") {
        Err(AppError::Plugin(m)) => assert_eq!(m, "非法的 npm 包名 \"@scope\""),
        other => panic!("unexpected {other:?}"),
    }
    let ssh = parse_spec("git@github.com:o/r.git").unwrap();
    assert_eq!(ssh.id, "github.com__o__r");
    assert_eq!(ssh.name, "r");
    assert_eq!(ssh.repo_url, None);
    let trailing = parse_spec("https://gitlab.com/o/r/").unwrap();
    assert_eq!(trailing.source, "https://gitlab.com/o/r");
    assert_eq!(trailing.repo_url, None);
    assert_eq!(trailing.id, "gitlab.com__o__r");
}

#[test]
fn shorthand_takes_an_optional_tag() {
    let p = parse_spec("o/r#v1.2.3").unwrap();
    assert_eq!(p.origin, "git");
    assert_eq!(p.pin.as_deref(), Some("v1.2.3"));
    assert_eq!(p.source, "https://github.com/o/r.git");
    assert_eq!(p.id, "o__r");
    assert_eq!(p.repo_url.as_deref(), Some("https://github.com/o/r"));
    let bare = parse_spec("o/r").unwrap();
    assert_eq!(bare.pin, None);
    assert_eq!(bare.id, "o__r");
}

#[test]
fn ids_refuse_windows_separators() {
    match id_for_name("..\\x") {
        Err(AppError::Plugin(m)) => {
            assert_eq!(m, "非法的插件名称 \"..\\\\x\"（包含 \\ 或 :）")
        }
        other => panic!("unexpected {other:?}"),
    }
    assert!(id_for_name("C:").is_err());
    assert!(id_for_name("a\\b").is_err());
    assert_eq!(id_for_name("a.b-c").unwrap(), "a.b-c");
}
