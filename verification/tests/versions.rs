use dsh_desktop::version::{cmp_versions, is_newer_than, latest_tag, looks_like_semver};
use std::cmp::Ordering;

#[test]
fn picks_latest_tag() {
    let tags = ["v1.2.3", "v1.2.0", "v0.9.0", "v2.0.0-rc.1"];
    assert_eq!(latest_tag(&tags).as_deref(), Some("v2.0.0-rc.1"));
    assert_eq!(latest_tag(&["1.2.3", "1.10.0"]).as_deref(), Some("1.10.0"));
    assert_eq!(latest_tag(&["not-a-version"]), None);
}

#[test]
fn detects_semver_shape() {
    assert!(looks_like_semver("v0.15.0"));
    assert!(looks_like_semver("0.15.0"));
    assert!(looks_like_semver("1.2.3-rc.1"));
    assert!(!looks_like_semver("v646c91c"));
    assert!(!looks_like_semver("head"));
    assert!(!looks_like_semver("1"));
    assert!(!looks_like_semver(""));
}

#[test]
fn newer_than_handles_hash_vs_semver() {
    assert!(is_newer_than("v0.15.0", "v0.14.0", "npm", false));
    assert!(!is_newer_than("v0.14.0", "v0.15.0", "npm", false));
    assert!(is_newer_than("v1.0.0", "v0.15.0", "git", true));
    assert!(is_newer_than("v0.16.0", "v0.15.0", "git", false));
    assert!(!is_newer_than("v0.15.0", "v0.15.0", "git", false));
    assert!(!is_newer_than("v0.15.0", "v646c91c", "git", false));
    assert!(is_newer_than("vNEW1", "v646c91c", "git", false));
    assert!(!is_newer_than("v646c91c", "v646c91c", "git", false));
    assert!(is_newer_than("v0.15.0", "v646c91c", "git", true));
}

#[test]
fn versions_rank_by_release_then_prerelease() {
    assert_eq!(cmp_versions("v1.10.0", "v1.9.9"), Ordering::Greater);
    assert_eq!(cmp_versions("1.2.3", "v1.2.3"), Ordering::Equal);
    assert_eq!(cmp_versions("1.2.3-rc.1", "1.2.3"), Ordering::Less);
    assert_eq!(cmp_versions("1.2.3-rc.2", "1.2.3-rc.10"), Ordering::Greater);
    assert_eq!(cmp_versions("1.2", "1.2.0"), Ordering::Less);
    assert_eq!(cmp_versions("1.x.0", "1.0.0"), Ordering::Less);
}

#[test]
fn latest_tag_keeps_the_last_of_equal_ranks() {
    assert_eq!(latest_tag(&["1.2.3", "v1.2.3"]).as_deref(), Some("v1.2.3"));
    assert_eq!(latest_tag(&["v1.2.3", "1.2.3"]).as_deref(), Some("1.2.3"));
    assert_eq!(latest_tag(&["head", "v0.1.0", "abc"]).as_deref(), Some("v0.1.0"));
    assert_eq!(latest_tag(&[]), None);
}
