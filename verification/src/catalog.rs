//! The community plugin catalog: normalizing hub and market entries into
//! one item shape, and ordering the list by stars.
use crate::error::{AppError, ErrorModel};
use crate::install_spec::opt_text;
use crate::text::{texts, find, find_char, slice_to_vec, split_chars, split_char, str_is, to_chars};
use crate::version::{is_u64_text, strip_v};
use vstd::multiset::Multiset;
use vstd::prelude::*;

verus! {

/// One catalog entry surfacing in the plugin center.
#[derive(Debug, Clone)]
pub struct CatalogItem {
    pub id: String,
    pub name: String,
    pub kind: String,
    pub description: String,
    pub stars: u64,
    pub forks: u64,
    pub downloads: u64,
    pub verified: bool,
    pub repo: Option<String>,
    /// Install spec: npm package name or git URL (with `#tag` when known).
    pub spec: String,
    /// npm or git, derived from the entry's install method.
    pub origin: String,
    pub category: String,
    /// Latest published version string (may carry a leading `v`).
    pub version: String,
    pub tags: Vec<String>,
    /// ISO timestamp of the last upstream update, when known.
    pub updated: String,
    /// Human-facing detail page (dsh-plugin.org or the repository).
    pub detail_url: String,
}

/// A catalog item as mathematical values.
pub struct CatalogModel {
    pub id: Seq<char>,
    pub name: Seq<char>,
    pub kind: Seq<char>,
    pub description: Seq<char>,
    pub stars: u64,
    pub forks: u64,
    pub downloads: u64,
    pub verified: bool,
    pub repo: Option<Seq<char>>,
    pub spec: Seq<char>,
    pub origin: Seq<char>,
    pub category: Seq<char>,
    pub version: Seq<char>,
    pub tags: Seq<Seq<char>>,
    pub updated: Seq<char>,
    pub detail_url: Seq<char>,
}

impl View for CatalogItem {
    type V = CatalogModel;

    open spec fn view(&self) -> CatalogModel {
        CatalogModel {
            id: self.id@,
            name: self.name@,
            kind: self.kind@,
            description: self.description@,
            stars: self.stars,
            forks: self.forks,
            downloads: self.downloads,
            verified: self.verified,
            repo: opt_text(self.repo),
            spec: self.spec@,
            origin: self.origin@,
            category: self.category@,
            version: self.version@,
            tags: texts(self.tags@),
            updated: self.updated@,
            detail_url: self.detail_url@,
        }
    }
}

/// A dsh-plugin.org hub entry (the short-key payload).
#[derive(Debug, Clone)]
pub struct HubRaw {
    /// Plugin slug.
    pub s: String,
    /// Owner slug.
    pub o: String,
    /// Display name.
    pub n: String,
    /// Latest version.
    pub vr: String,
    /// Category id.
    pub c: String,
    /// Tags.
    pub t: Vec<String>,
    /// Description.
    pub d: String,
    /// GitHub repo `owner/name`.
    pub r: String,
    /// Verification state; `verified` means manually reviewed.
    pub v: String,
    /// Last upstream update.
    pub u: String,
    /// Stars.
    pub sg: u64,
    /// Forks.
    pub fk: u64,
}

/// The catalog item a hub entry normalizes to. The hub installs from git,
/// so an entry with a repo installs from it; one without falls back to npm.
pub open spec fn hub_item(h: HubRaw) -> CatalogModel {
    let repo: Option<Seq<char>> = if h.r@.len() > 0 {
        Some(h.r@)
    } else {
        None
    };
    CatalogModel {
        id: if h.s@.len() == 0 {
            h.n@
        } else {
            h.s@
        },
        name: h.n@,
        kind: Seq::empty(),
        description: h.d@,
        stars: h.sg,
        forks: h.fk,
        downloads: 0,
        verified: h.v@ == "verified"@,
        repo: repo,
        spec: if h.r@.len() > 0 {
            "https://github.com/"@ + h.r@ + ".git"@
        } else {
            h.n@
        },
        origin: if h.r@.len() > 0 {
            "git"@
        } else {
            "npm"@
        },
        category: h.c@,
        version: h.vr@,
        tags: texts(h.t@),
        updated: h.u@,
        detail_url: if h.o@.len() > 0 && h.s@.len() > 0 {
            "https://dsh-plugin.org/zh/plugins/"@ + h.o@ + "/"@ + h.s@
        } else if h.r@.len() > 0 {
            "https://github.com/"@ + h.r@
        } else {
            Seq::empty()
        },
    }
}

/// `prefix` followed by `s`.
fn prefixed(prefix: &str, s: &str) -> (r: String)
    ensures
        r@ == prefix@ + s@,
{
    let mut out = prefix.to_owned();
    out.append(s);
    out
}

impl HubRaw {
    /// Normalize a hub entry to the shared catalog item.
    pub fn into_item(self) -> (item: CatalogItem)
        ensures
            item@ == hub_item(self),
    {
        let has_repo = !self.r.as_str().is_empty();
        proof {
            assert(has_repo == (self.r@.len() > 0));
        }
        let repo = if has_repo {
            Some(self.r.clone())
        } else {
            None
        };
        let detail_url = if !self.o.as_str().is_empty() && !self.s.as_str().is_empty() {
            let mut d = prefixed("https://dsh-plugin.org/zh/plugins/", self.o.as_str());
            d.append("/");
            d.append(self.s.as_str());
            d
        } else if has_repo {
            prefixed("https://github.com/", self.r.as_str())
        } else {
            String::new()
        };
        let spec = if has_repo {
            let mut g = prefixed("https://github.com/", self.r.as_str());
            g.append(".git");
            g
        } else {
            self.n.clone()
        };
        let origin = if has_repo {
            String::from_str("git")
        } else {
            String::from_str("npm")
        };
        let id = if self.s.as_str().is_empty() {
            self.n.clone()
        } else {
            self.s.clone()
        };
        let verified = str_is(self.v.as_str(), "verified");
        CatalogItem {
            id,
            name: self.n,
            kind: String::new(),
            description: self.d,
            stars: self.sg,
            forks: self.fk,
            downloads: 0,
            verified,
            repo,
            spec,
            origin,
            category: self.c,
            version: self.vr,
            tags: self.t,
            updated: self.u,
            detail_url,
        }
    }
}


/// The install block of a market entry.
#[derive(Debug, Clone)]
pub struct CatalogInstall {
    pub method: String,
}

/// A reference-market listing entry.
#[derive(Debug, Clone)]
pub struct CatalogRaw {
    pub id: String,
    pub name: String,
    pub kind: String,
    pub package: Option<String>,
    pub repo: Option<String>,
    pub version: Option<String>,
    pub description: Option<String>,
    pub stars: u64,
    pub downloads: u64,
    pub verified: bool,
    pub install: Option<CatalogInstall>,
    pub category: String,
}

/// An install method that means npm.
pub open spec fn npm_method(m: Seq<char>) -> bool {
    m == "npm"@ || m == "pnpm"@ || m == "dsh-plugin-add"@
}

/// The release part of a market version: one leading `v` stripped, then
/// what precedes the first `-`.
pub open spec fn market_head(v: Seq<char>) -> Seq<char> {
    match find_char(strip_v(v), '-') {
        Some(i) => strip_v(v).subrange(0, i),
        None => strip_v(v),
    }
}

/// A market version usable as a git tag: its release part has at least two
/// `.`-separated segments and the first two are integers.
pub open spec fn market_tag(v: Seq<char>) -> bool {
    let parts = split_char(market_head(v), '.');
    parts.len() >= 2 && is_u64_text(parts[0]) && is_u64_text(parts[1])
}

/// The catalog item a market entry normalizes to.
pub open spec fn market_item(raw: CatalogRaw) -> CatalogModel {
    let npm_origin = raw.package is Some || (match raw.install {
        Some(i) => npm_method(i.method@),
        None => false,
    });
    let spec = if npm_origin {
        match raw.package {
            Some(p) => p@,
            None => raw.name@,
        }
    } else {
        match raw.repo {
            Some(r) => {
                let base = "https://github.com/"@ + r@ + ".git"@;
                match raw.version {
                    Some(v) => if market_tag(v@) {
                        base + "#"@ + v@
                    } else {
                        base
                    },
                    None => base,
                }
            },
            None => Seq::empty(),
        }
    };
    CatalogModel {
        id: raw.id@,
        name: raw.name@,
        kind: raw.kind@,
        description: match raw.description {
            Some(d) => d@,
            None => Seq::empty(),
        },
        stars: raw.stars,
        forks: 0,
        downloads: raw.downloads,
        verified: raw.verified,
        repo: opt_text(raw.repo),
        spec: spec,
        origin: if npm_origin {
            "npm"@
        } else {
            "git"@
        },
        category: raw.category@,
        version: match raw.version {
            Some(v) => v@,
            None => Seq::empty(),
        },
        tags: Seq::empty(),
        updated: Seq::empty(),
        detail_url: match raw.repo {
            Some(r) => "https://github.com/"@ + r@,
            None => Seq::empty(),
        },
    }
}

fn is_market_tag(v: &str) -> (b: bool)
    ensures
        b == market_tag(v@),
{
    let chars = to_chars(v);
    let start: usize = if chars.len() > 0 && chars[0] == 'v' {
        1
    } else {
        0
    };
    let stripped = slice_to_vec(&chars, start, chars.len());
    assert(stripped@ =~= strip_v(v@));
    let head = match find(&stripped, '-') {
        Some(i) => slice_to_vec(&stripped, 0, i),
        None => stripped,
    };
    let parts = split_chars(&head, '.');
    if parts.len() < 2 {
        return false;
    }
    let a = crate::text::parse_unsigned_chars(&parts[0], 0xffff_ffff_ffff_ffff).is_some();
    let b = crate::text::parse_unsigned_chars(&parts[1], 0xffff_ffff_ffff_ffff).is_some();
    a && b
}

/// Normalize a reference-market entry to the shared catalog item.
pub fn from_market_raw(raw: CatalogRaw) -> (item: CatalogItem)
    ensures
        item@ == market_item(raw),
{
    let npm_origin = raw.package.is_some() || match &raw.install {
        Some(i) => str_is(i.method.as_str(), "npm") || str_is(i.method.as_str(), "pnpm")
            || str_is(i.method.as_str(), "dsh-plugin-add"),
        None => false,
    };
    let spec = if npm_origin {
        match &raw.package {
            Some(p) => p.clone(),
            None => raw.name.clone(),
        }
    } else {
        match &raw.repo {
            Some(r) => {
                let mut base = prefixed("https://github.com/", r.as_str());
                base.append(".git");
                match &raw.version {
                    Some(v) => if is_market_tag(v.as_str()) {
                        base.append("#");
                        base.append(v.as_str());
                        base
                    } else {
                        base
                    },
                    None => base,
                }
            },
            None => String::new(),
        }
    };
    let detail_url = match &raw.repo {
        Some(r) => prefixed("https://github.com/", r.as_str()),
        None => String::new(),
    };
    let description = match raw.description {
        Some(d) => d,
        None => String::new(),
    };
    let version = match raw.version {
        Some(v) => v,
        None => String::new(),
    };
    let origin = if npm_origin {
        String::from_str("npm")
    } else {
        String::from_str("git")
    };
    let item = CatalogItem {
        id: raw.id,
        name: raw.name,
        kind: raw.kind,
        description,
        stars: raw.stars,
        forks: 0,
        downloads: raw.downloads,
        verified: raw.verified,
        repo: raw.repo,
        spec,
        origin,
        category: raw.category,
        version,
        tags: Vec::new(),
        updated: String::new(),
        detail_url,
    };
    assert(texts(item.tags@) =~= Seq::<Seq<char>>::empty());
    item
}


/// `x` placed into a list ordered by stars: after every item with at least
/// as many stars, before the first with fewer.
pub open spec fn insert_by_stars(sorted: Seq<CatalogItem>, x: CatalogItem) -> Seq<CatalogItem>
    decreases sorted.len(),
{
    if sorted.len() == 0 {
        seq![x]
    } else if sorted[0].stars >= x.stars {
        seq![sorted[0]] + insert_by_stars(sorted.drop_first(), x)
    } else {
        seq![x] + sorted
    }
}

/// The stable sort by stars, most first (`sort_by(|a, b| b.stars.cmp(&a.stars))`).
pub open spec fn sort_by_stars(s: Seq<CatalogItem>) -> Seq<CatalogItem>
    decreases s.len(),
{
    if s.len() == 0 {
        s
    } else {
        insert_by_stars(sort_by_stars(s.drop_last()), s.last())
    }
}

/// Most stars first.
pub open spec fn stars_descending(s: Seq<CatalogItem>) -> bool {
    forall|i: int, j: int| 0 <= i < j < s.len() ==> s[i].stars >= s[j].stars
}

proof fn lemma_insert_at(sorted: Seq<CatalogItem>, x: CatalogItem, p: int)
    requires
        0 <= p <= sorted.len(),
        forall|j: int| 0 <= j < p ==> sorted[j].stars >= x.stars,
        p < sorted.len() ==> sorted[p].stars < x.stars,
    ensures
        insert_by_stars(sorted, x) == sorted.insert(p, x),
    decreases sorted.len(),
{
    if sorted.len() == 0 {
        assert(sorted.insert(p, x) =~= seq![x]);
    } else if p == 0 {
        assert(sorted.insert(0, x) =~= seq![x] + sorted);
    } else {
        let t = sorted.drop_first();
        assert forall|j: int| 0 <= j < p - 1 implies t[j].stars >= x.stars by {
            assert(t[j] == sorted[j + 1]);
        }
        lemma_insert_at(t, x, p - 1);
        assert(sorted.insert(p, x) =~= seq![sorted[0]] + t.insert(p - 1, x));
    }
}

/// The catalog ordered by stars, most first; equal counts keep their
/// order. A fetch failure becomes a plugin error.
pub fn catalog(fetched: Result<Vec<CatalogItem>, String>) -> (r: Result<Vec<CatalogItem>, AppError>)
    ensures
        fetched matches Ok(items) ==> r matches Ok(out) && out@ == sort_by_stars(items@),
        fetched matches Err(e) ==> r matches Err(err) && err@ == ErrorModel::Plugin(
            "目录获取失败："@ + e@,
        ),
{
    match fetched {
        Err(e) => {
            let mut msg = String::from_str("目录获取失败：");
            msg.append(e.as_str());
            Err(AppError::Plugin(msg))
        },
        Ok(items) => Ok(sort_catalog(items)),
    }
}

fn sort_catalog(items: Vec<CatalogItem>) -> (out: Vec<CatalogItem>)
    ensures
        out@ == sort_by_stars(items@),
{
    let ghost all = items@;
    let mut rest = items;
    let mut out: Vec<CatalogItem> = Vec::new();
    let mut i: usize = 0;
    let n = rest.len();
    assert(all.subrange(0, 0) =~= Seq::<CatalogItem>::empty());
    assert(all.subrange(0, n as int) =~= all);
    while rest.len() > 0
        invariant
            i + rest@.len() == n,
            n == all.len(),
            rest@ == all.subrange(i as int, n as int),
            out@ == sort_by_stars(all.subrange(0, i as int)),
        decreases rest.len(),
    {
        let x = rest.remove(0);
        assert(x == all[i as int]);
        let mut p: usize = 0;
        while p < out.len() && out[p].stars >= x.stars
            invariant
                p <= out@.len(),
                forall|j: int| 0 <= j < p ==> out@[j].stars >= x.stars,
            decreases out.len() - p,
        {
            p = p + 1;
        }
        proof {
            lemma_insert_at(out@, x, p as int);
            assert(all.subrange(0, i + 1).drop_last() =~= all.subrange(0, i as int));
            assert(all.subrange(i + 1, n as int) =~= all.subrange(i as int, n as int).drop_first());
        }
        out.insert(p, x);
        i = i + 1;
    }
    assert(all.subrange(0, i as int) =~= all);
    out
}

/// Inserting keeps the order by stars.
pub proof fn lemma_insert_keeps_order(sorted: Seq<CatalogItem>, x: CatalogItem)
    requires
        stars_descending(sorted),
    ensures
        stars_descending(insert_by_stars(sorted, x)),
        insert_by_stars(sorted, x).to_multiset() == sorted.to_multiset().insert(x),
    decreases sorted.len(),
{
    broadcast use vstd::seq_lib::group_to_multiset_ensures;

    if sorted.len() == 0 {
        assert(seq![x] =~= sorted.push(x));
    } else if sorted[0].stars >= x.stars {
        let t = sorted.drop_first();
        assert(stars_descending(t)) by {
            assert forall|i: int, j: int| 0 <= i < j < t.len() implies t[i].stars >= t[j].stars by {
                assert(t[i] == sorted[i + 1] && t[j] == sorted[j + 1]);
            }
        }
        lemma_insert_keeps_order(t, x);
        let rest = insert_by_stars(t, x);
        let r = seq![sorted[0]] + rest;
        assert forall|k: int| 0 <= k < rest.len() implies rest[k].stars <= sorted[0].stars by {
            assert(rest.to_multiset().count(rest[k]) > 0);
            assert(t.to_multiset().insert(x).count(rest[k]) > 0);
            if rest[k] != x {
                assert(t.to_multiset().count(rest[k]) > 0);
                assert(t.contains(rest[k]));
                let m = choose|m: int| 0 <= m < t.len() && t[m] == rest[k];
                assert(sorted[m + 1] == rest[k]);
            }
        }
        assert forall|i: int, j: int| 0 <= i < j < r.len() implies r[i].stars >= r[j].stars by {
            if i > 0 {
                assert(r[i] == rest[i - 1] && r[j] == rest[j - 1]);
            } else {
                assert(r[j] == rest[j - 1]);
            }
        }
        assert(sorted =~= seq![sorted[0]] + t);
        vstd::seq_lib::lemma_multiset_commutative(seq![sorted[0]], rest);
        vstd::seq_lib::lemma_multiset_commutative(seq![sorted[0]], t);
        assert(seq![sorted[0]].to_multiset() =~= Multiset::<CatalogItem>::empty().insert(sorted[0])) by {
            assert(seq![sorted[0]] =~= Seq::<CatalogItem>::empty().push(sorted[0]));
        }
    } else {
        let r = seq![x] + sorted;
        assert forall|i: int, j: int| 0 <= i < j < r.len() implies r[i].stars >= r[j].stars by {
            if i > 0 {
                assert(r[i] == sorted[i - 1] && r[j] == sorted[j - 1]);
            } else {
                assert(r[j] == sorted[j - 1]);
                assert(sorted[0].stars >= sorted[j - 1].stars || j - 1 == 0);
            }
        }
        vstd::seq_lib::lemma_multiset_commutative(seq![x], sorted);
        assert(seq![x].to_multiset() =~= Multiset::<CatalogItem>::empty().insert(x)) by {
            assert(seq![x] =~= Seq::<CatalogItem>::empty().push(x));
        }
    }
}

/// The catalog order is most stars first, and it holds exactly the
/// fetched items.
pub proof fn lemma_catalog_sorted(items: Seq<CatalogItem>)
    ensures
        stars_descending(sort_by_stars(items)),
        sort_by_stars(items).to_multiset() == items.to_multiset(),
    decreases items.len(),
{
    broadcast use vstd::seq_lib::group_to_multiset_ensures;

    if items.len() > 0 {
        lemma_catalog_sorted(items.drop_last());
        lemma_insert_keeps_order(sort_by_stars(items.drop_last()), items.last());
        assert(items =~= items.drop_last().push(items.last()));
    }
}


/// How long a cached catalog stays fresh: six hours.
pub const CATALOG_TTL_SECS: u64 = 21600;

/// The cached catalog is used unless `force` asks for a refetch or the
/// cache's age (`None` when it cannot be read) has reached the window.
pub fn cache_fresh(force: bool, age_secs: Option<u64>) -> (b: bool)
    ensures
        b == (!force && (age_secs matches Some(a) && a < CATALOG_TTL_SECS)),
{
    !force && match age_secs {
        Some(a) => a < CATALOG_TTL_SECS,
        None => false,
    }
}

/// The hub entries normalized, in order.
pub fn hub_items(raws: Vec<HubRaw>) -> (r: Vec<CatalogItem>)
    ensures
        r@.len() == raws@.len(),
        forall|i: int| 0 <= i < r@.len() ==> (#[trigger] r@[i])@ == hub_item(raws@[i]),
{
    let ghost all = raws@;
    let n = raws.len();
    let mut rest = raws;
    let mut out: Vec<CatalogItem> = Vec::new();
    while rest.len() > 0
        invariant
            out@.len() + rest@.len() == n,
            n == all.len(),
            rest@ == all.subrange(out@.len() as int, n as int),
            forall|i: int| 0 <= i < out@.len() ==> (#[trigger] out@[i])@ == hub_item(all[i]),
        decreases rest.len(),
    {
        let ghost k: int = out@.len() as int;
        let x = rest.remove(0);
        assert(x == all[k]);
        assert(rest@ =~= all.subrange(k + 1, n as int));
        out.push(x.into_item());
    }
    out
}

/// The reference-market entries normalized, in order.
pub fn market_items(raws: Vec<CatalogRaw>) -> (r: Vec<CatalogItem>)
    ensures
        r@.len() == raws@.len(),
        forall|i: int| 0 <= i < r@.len() ==> (#[trigger] r@[i])@ == market_item(raws@[i]),
{
    let ghost all = raws@;
    let n = raws.len();
    let mut rest = raws;
    let mut out: Vec<CatalogItem> = Vec::new();
    while rest.len() > 0
        invariant
            out@.len() + rest@.len() == n,
            n == all.len(),
            rest@ == all.subrange(out@.len() as int, n as int),
            forall|i: int| 0 <= i < out@.len() ==> (#[trigger] out@[i])@ == market_item(all[i]),
        decreases rest.len(),
    {
        let ghost k: int = out@.len() as int;
        let x = rest.remove(0);
        assert(x == all[k]);
        assert(rest@ =~= all.subrange(k + 1, n as int));
        out.push(from_market_raw(x));
    }
    out
}

/// The hub is the primary catalog source: its entries normalized when it
/// answered with at least one; `None` sends the fetch to the reference
/// market instead.
pub fn pick_catalog(hub: Result<Vec<HubRaw>, String>) -> (r: Option<Vec<CatalogItem>>)
    ensures
        match hub {
            Ok(raws) => if raws@.len() > 0 {
                r matches Some(items) && items@.len() == raws@.len() && forall|i: int|
                    0 <= i < items@.len() ==> (#[trigger] items@[i])@ == hub_item(raws@[i])
            } else {
                r is None
            },
            Err(_) => r is None,
        },
{
    match hub {
        Ok(raws) => {
            if raws.len() > 0 {
                Some(hub_items(raws))
            } else {
                None
            }
        },
        Err(_) => None,
    }
}

/// A market entry installs from npm exactly when it names a package or its
/// install method is `npm`, `pnpm` or `dsh-plugin-add`, and its spec is then
/// the package (the entry's name when it names none); every other entry
/// installs from git.
pub proof fn lemma_market_origin(raw: CatalogRaw)
    ensures
        (raw.package is Some || (raw.install matches Some(i) && (i.method@ == "npm"@
            || i.method@ == "pnpm"@ || i.method@ == "dsh-plugin-add"@))) ==> {
            &&& market_item(raw).origin == "npm"@
            &&& market_item(raw).spec == match raw.package {
                Some(p) => p@,
                None => raw.name@,
            }
        },
        !(raw.package is Some || (raw.install matches Some(i) && (i.method@ == "npm"@
            || i.method@ == "pnpm"@ || i.method@ == "dsh-plugin-add"@))) ==> market_item(raw).origin
            == "git"@,
        !(raw.package is Some || (raw.install matches Some(i) && (i.method@ == "npm"@
            || i.method@ == "pnpm"@ || i.method@ == "dsh-plugin-add"@))) ==> match raw.repo {
            Some(r) => market_item(raw).spec == "https://github.com/"@ + r@ + ".git"@ || (
            raw.version matches Some(v) && market_item(raw).spec == "https://github.com/"@ + r@
                + ".git"@ + "#"@ + v@),
            None => market_item(raw).spec.len() == 0,
        },
        market_item(raw).version == match raw.version {
            Some(v) => v@,
            None => Seq::empty(),
        },
{
}

} // verus!
