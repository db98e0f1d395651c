//! Update checks: the highest semver tag a git remote publishes (read from
//! `git ls-remote --tags`), and recording each store item's newer version.
use crate::fetch::{doc_latest, tag_value, NpmDoc};
use crate::install_spec::{copy_opt, opt_text};
use crate::store::{ItemModel, Store, StoreItem};
use crate::text::{
    find, find_char, from_chars, has_prefix, slice_to_vec, split_char, split_chars, starts_with,
    str_is, to_chars, trim_end_matches, trim_end_matches_chars,
};
use crate::ranking::lemma_version_order_preorder;
use std::cmp::Ordering;
use crate::version::{
    is_newer_than, latest_of, latest_tag, newer_than, semver_shaped, version_order,
};
use vstd::prelude::*;

verus! {

/// A line without the `\r` of a `\r\n` ending.
pub open spec fn strip_cr(p: Seq<char>) -> Seq<char> {
    if p.len() > 0 && p.last() == '\r' {
        p.drop_last()
    } else {
        p
    }
}

/// The lines of a text as `str::lines` yields them: split at `\n`, a `\r`
/// before the `\n` dropped, and no empty line after a final `\n`.
pub open spec fn text_lines(s: Seq<char>) -> Seq<Seq<char>> {
    let parts = split_char(s, '\n');
    let n = parts.len();
    if n == 0 {
        seq![]
    } else {
        let init = parts.subrange(0, n - 1).map_values(|p: Seq<char>| strip_cr(p));
        if parts[n - 1].len() == 0 {
            init
        } else {
            init.push(parts[n - 1])
        }
    }
}

/// The tag a `git ls-remote --tags` line names: the ref after the first tab
/// must start with `refs/tags/`; a peeled `^{}` suffix is dropped.
pub open spec fn remote_tag(line: Seq<char>) -> Option<Seq<char>> {
    match find_char(line, '\t') {
        None => None,
        Some(i) => {
            let r = line.subrange(i + 1, line.len() as int);
            if has_prefix(r, "refs/tags/"@) {
                Some(trim_end_matches(r.subrange(10, r.len() as int), "^{}"@))
            } else {
                None
            }
        },
    }
}

/// The tags named by the lines, in order.
pub open spec fn remote_tags(lines: Seq<Seq<char>>) -> Seq<Seq<char>>
    decreases lines.len(),
{
    if lines.len() == 0 {
        seq![]
    } else {
        let rest = remote_tags(lines.drop_last());
        match remote_tag(lines.last()) {
            Some(t) => rest.push(t),
            None => rest,
        }
    }
}

/// The highest semver tag in a `git ls-remote --tags` listing.
pub open spec fn remote_latest(out: Seq<char>) -> Option<Seq<char>> {
    latest_of(remote_tags(text_lines(out)))
}

fn strip_cr_chars(v: Vec<char>) -> (r: Vec<char>)
    ensures
        r@ == strip_cr(v@),
{
    let n = v.len();
    if n > 0 && v[n - 1] == '\r' {
        slice_to_vec(&v, 0, n - 1)
    } else {
        v
    }
}

fn line_tag(line: &[char]) -> (r: Option<Vec<char>>)
    ensures
        (match r {
            Some(t) => Some(t@),
            None => None,
        }) == remote_tag(line@),
{
    match find(line, '\t') {
        None => None,
        Some(i) => {
            let r = slice_to_vec(line, i + 1, line.len());
            let prefix = to_chars("refs/tags/");
            proof {
                reveal_strlit("refs/tags/");
            }
            if starts_with(&r, &prefix) {
                let name = slice_to_vec(&r, 10, r.len());
                let peel = to_chars("^{}");
                Some(trim_end_matches_chars(&name, &peel))
            } else {
                None
            }
        },
    }
}

fn listing_tags(out: &str) -> (r: Vec<String>)
    ensures
        r@.map_values(|s: String| s@) == remote_tags(text_lines(out@)),
{
    let v = to_chars(out);
    let parts = split_chars(&v, '\n');
    let ghost ps = split_char(v@, '\n');
    let n = parts.len();
    let mut lines: Vec<Vec<char>> = Vec::new();
    if n > 0 {
        let mut i: usize = 0;
        while i < n - 1
            invariant
                n == parts@.len(),
                n == ps.len(),
                n > 0,
                i <= n - 1,
                ps == split_char(v@, '\n'),
                forall|j: int| 0 <= j < parts@.len() ==> #[trigger] parts@[j]@ == ps[j],
                lines@.len() == i,
                forall|j: int| 0 <= j < i ==> #[trigger] lines@[j]@ == strip_cr(ps[j]),
            decreases n - 1 - i,
        {
            let c = slice_to_vec(&parts[i], 0, parts[i].len());
            assert(c@ =~= parts@[i as int]@);
            let l = strip_cr_chars(c);
            lines.push(l);
            i = i + 1;
        }
        if parts[n - 1].len() > 0 {
            let c = slice_to_vec(&parts[n - 1], 0, parts[n - 1].len());
            assert(c@ =~= parts@[n - 1]@);
            lines.push(c);
        }
    }
    assert(lines@.map_values(|l: Vec<char>| l@) =~= text_lines(v@)) by {
        if n > 0 {
            let init = ps.subrange(0, n - 1).map_values(|p: Seq<char>| strip_cr(p));
            assert forall|j: int| 0 <= j < n - 1 implies #[trigger] init[j] == lines@[j]@ by {
            }
        }
    }
    let ghost ls = text_lines(v@);
    let mut tags: Vec<String> = Vec::new();
    let mut k: usize = 0;
    while k < lines.len()
        invariant
            k <= lines@.len(),
            lines@.map_values(|l: Vec<char>| l@) == ls,
            tags@.map_values(|s: String| s@) == remote_tags(ls.subrange(0, k as int)),
        decreases lines.len() - k,
    {
        assert(ls.subrange(0, k + 1).drop_last() =~= ls.subrange(0, k as int));
        assert(ls[k as int] == lines@[k as int]@);
        match line_tag(&lines[k]) {
            Some(t) => {
                tags.push(from_chars(&t));
                assert(tags@.map_values(|s: String| s@) =~= remote_tags(ls.subrange(0, k as int)).push(t@));
            },
            None => {},
        }
        k = k + 1;
    }
    assert(ls.subrange(0, k as int) =~= ls);
    tags
}

/// The highest semver tag a git remote has published, from the run of
/// `git ls-remote --tags <source>`: `Ok((success, stdout))`, or the error
/// when git could not be started (passed through). A failed listing has no
/// tag.
pub fn git_latest_tag(listing: Result<(bool, String), String>) -> (r: Result<Option<String>, String>)
    ensures
        listing matches Err(e) ==> (r matches Err(x) && x@ == e@),
        listing matches Ok((false, _)) ==> (r matches Ok(None)),
        listing matches Ok((true, out)) ==> (r matches Ok(t) && opt_text(t) == remote_latest(out@)),
{
    match listing {
        Err(e) => Err(e),
        Ok((false, _)) => Ok(None),
        Ok((true, out)) => {
            let tags = listing_tags(out.as_str());
            let mut refs: Vec<&str> = Vec::new();
            let mut i: usize = 0;
            while i < tags.len()
                invariant
                    i <= tags@.len(),
                    refs@.len() == i,
                    forall|j: int| 0 <= j < i ==> #[trigger] refs@[j]@ == tags@[j]@,
                decreases tags.len() - i,
            {
                let t: &str = tags[i].as_str();
                assert(t@ == tags@[i as int]@);
                refs.push(t);
                i = i + 1;
            }
            assert(refs@.map_values(|t: &str| t@) =~= tags@.map_values(|s: String| s@));
            Ok(latest_tag(refs.as_slice()))
        },
    }
}

/// What the update check found for one plugin.
#[derive(Debug, Clone)]
pub struct UpdateInfo {
    pub id: String,
    /// The newer version, when there is one.
    pub latest: Option<String>,
    pub error: Option<String>,
}

/// Where the latest version of a plugin is looked up.
#[derive(Debug)]
pub enum UpdateSource {
    /// The npm registry document of `source`.
    Npm,
    /// The tags of the git remote `source`.
    Git,
    /// An origin with no lookup.
    Skip,
}

pub fn update_source(item: &StoreItem) -> (r: UpdateSource)
    ensures
        r is Npm <==> item@.origin == "npm"@,
        r is Git <==> item@.origin == "git"@,
{
    assert("npm"@ != "git"@) by {
        reveal_strlit("npm");
        reveal_strlit("git");
        assert("npm"@[0] != "git"@[0]);
    }
    if str_is(item.origin.as_str(), "npm") {
        UpdateSource::Npm
    } else if str_is(item.origin.as_str(), "git") {
        UpdateSource::Git
    } else {
        UpdateSource::Skip
    }
}

/// The result of one lookup: the registry document, the remote's highest
/// tag, or nothing for an origin without a lookup.
#[derive(Debug)]
pub enum UpdateProbe {
    Npm(Result<NpmDoc, String>),
    Git(Result<Option<String>, String>),
    Skipped,
}

/// The candidate latest version and the lookup error of a probe.
pub open spec fn probe_found(p: UpdateProbe) -> (Option<Seq<char>>, Option<Seq<char>>) {
    match p {
        UpdateProbe::Npm(Ok(d)) => (tag_value(d.dist_tags@, "latest"@), None),
        UpdateProbe::Npm(Err(e)) => (None, Some(e@)),
        UpdateProbe::Git(Ok(v)) => (opt_text(v), None),
        UpdateProbe::Git(Err(e)) => (None, Some(e@)),
        UpdateProbe::Skipped => (None, None),
    }
}

/// The candidate when it is newer than what is installed.
pub open spec fn newer_found(it: ItemModel, found: Option<Seq<char>>) -> Option<Seq<char>> {
    match found {
        Some(v) => if newer_than(v, it.installed_version, it.origin, it.pinned) {
            Some(v)
        } else {
            None
        },
        None => None,
    }
}

fn probe_result(p: &UpdateProbe) -> (r: (Option<String>, Option<String>))
    ensures
        (opt_text(r.0), opt_text(r.1)) == probe_found(*p),
{
    match p {
        UpdateProbe::Npm(Ok(d)) => (doc_latest(d), None),
        UpdateProbe::Npm(Err(e)) => (None, Some(e.clone())),
        UpdateProbe::Git(Ok(v)) => (copy_opt(v), None),
        UpdateProbe::Git(Err(e)) => (None, Some(e.clone())),
        UpdateProbe::Skipped => (None, None),
    }
}

/// Records the update check: each item's latest version becomes the newer
/// version its probe found (`probes[i]` for `items[i]`), or none; one
/// report per item in store order; the check time is stamped.
pub fn check_updates(store: &mut Store, probes: &Vec<UpdateProbe>, checked_at: String) -> (r: Vec<
    UpdateInfo,
>)
    requires
        probes@.len() == old(store).items@.len(),
    ensures
        final(store).items@.len() == old(store).items@.len(),
        r@.len() == old(store).items@.len(),
        forall|i: int|
            0 <= i < r@.len() ==> {
                let it = old(store).items@[i]@;
                let found = probe_found(probes@[i]);
                &&& (#[trigger] final(store).items@[i])@ == ItemModel {
                    latest_version: newer_found(it, found.0),
                    ..it
                }
                &&& r@[i].id@ == it.id
                &&& opt_text(r@[i].latest) == newer_found(it, found.0)
                &&& opt_text(r@[i].error) == found.1
            },
        opt_text(final(store).last_checked_at) == Some(checked_at@),
        final(store).schema_version == old(store).schema_version,
        final(store).warning == old(store).warning,
{
    let ghost olds = store.items@;
    let mut items: Vec<StoreItem> = Vec::new();
    let mut out: Vec<UpdateInfo> = Vec::new();
    let mut i: usize = 0;
    while i < store.items.len()
        invariant
            i <= store.items@.len(),
            store.items@ == olds,
            olds == old(store).items@,
            store.schema_version == old(store).schema_version,
            store.warning == old(store).warning,
            probes@.len() == olds.len(),
            items@.len() == i,
            out@.len() == i,
            forall|j: int|
                0 <= j < i ==> {
                    let it = olds[j]@;
                    let found = probe_found(probes@[j]);
                    &&& (#[trigger] items@[j])@ == ItemModel {
                        latest_version: newer_found(it, found.0),
                        ..it
                    }
                    &&& out@[j].id@ == it.id
                    &&& opt_text(out@[j].latest) == newer_found(it, found.0)
                    &&& opt_text(out@[j].error) == found.1
                },
        decreases store.items.len() - i,
    {
        let it = &store.items[i];
        let (latest, error) = probe_result(&probes[i]);
        let newer = match latest {
            Some(v) => {
                if is_newer_than(v.as_str(), it.installed_version.as_str(), it.origin.as_str(), it.pinned) {
                    Some(v)
                } else {
                    None
                }
            },
            None => None,
        };
        let mut updated = it.duplicate();
        updated.latest_version = copy_opt(&newer);
        items.push(updated);
        out.push(UpdateInfo { id: it.id.clone(), latest: newer, error });
        i = i + 1;
    }
    store.items = items;
    store.last_checked_at = Some(checked_at);
    out
}

/// What an update check records for an item is a version the probe found
/// that ranks strictly above the installed one: never the installed
/// version itself, so an item already at the latest version gets no
/// update; and a found version that does rank above it (an npm or pinned
/// item, or a git one installed at a tag) is always recorded.
pub proof fn lemma_recorded_update_is_newer(it: ItemModel, found: Option<Seq<char>>)
    ensures
        newer_found(it, found) matches Some(v) ==> found == Some(v) && v != it.installed_version,
        found == Some(it.installed_version) ==> newer_found(it, found) is None,
        newer_found(it, found) matches Some(v) ==> ((it.origin != "git"@ || it.pinned
            || semver_shaped(it.installed_version)) ==> version_order(v, it.installed_version)
            == Ordering::Greater),
        found matches Some(v) ==> ((it.origin != "git"@ || it.pinned || semver_shaped(
            it.installed_version,
        )) && version_order(v, it.installed_version) == Ordering::Greater ==> newer_found(it, found)
            == found),
{
    lemma_version_order_preorder(it.installed_version, it.installed_version, it.installed_version);
}

/// A git plugin installed unpinned at a commit hash has no version to rank
/// against: a tag the remote publishes is never recorded as its update, and
/// any other found version is recorded exactly when it differs from the
/// installed one.
pub proof fn lemma_hash_install_updates(it: ItemModel, found: Option<Seq<char>>)
    requires
        it.origin == "git"@,
        !it.pinned,
        !semver_shaped(it.installed_version),
    ensures
        found matches Some(v) ==> (semver_shaped(v) ==> newer_found(it, found) is None),
        found matches Some(v) ==> (!semver_shaped(v) ==> (newer_found(it, found) is Some <==> v
            != it.installed_version)),
        found is None ==> newer_found(it, found) is None,
{
}

} // verus!
