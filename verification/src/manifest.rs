//! Profile manifest wiring: the plugin dependencies and bundle layers the
//! shell maintains in a profile's `package.json`, modelled as the values
//! it reads and writes there.
use crate::error::{AppError, ErrorModel};
use crate::text::{
    chars_less, contains, contains_seq, contains_text, has_prefix, item, lemma_prefix_full,
    lemma_prefix_next, lemma_text_less_irreflexive, lemma_text_less_total,
    lemma_text_less_transitive, prefix, starts_with, str_is, text_less, texts, texts_eq, to_chars,
};
use vstd::prelude::*;

verus! {

/// One `dependencies` entry: its name and its value when that is a string.
#[derive(Debug, Clone)]
pub struct Dep {
    pub name: String,
    pub spec: Option<String>,
}

/// The parts of a profile `package.json` that wiring reads and writes:
/// the `dependencies` object and the `dsh.profile.bundles` array (each
/// element's text when it is a string). `None` where the manifest lacks one.
#[derive(Debug, Clone)]
pub struct ProfileManifest {
    pub deps: Option<Vec<Dep>>,
    pub bundles: Option<Vec<Option<String>>>,
}

/// A dependency as text: name and optional string value.
pub type DepModel = (Seq<char>, Option<Seq<char>>);

pub open spec fn dep_model(d: Dep) -> DepModel {
    (d.name@, match d.spec {
        Some(s) => Some(s@),
        None => None,
    })
}

pub open spec fn deps_model(v: Seq<Dep>) -> Seq<DepModel> {
    v.map_values(|d: Dep| dep_model(d))
}

pub open spec fn bundles_model(v: Seq<Option<String>>) -> Seq<Option<Seq<char>>> {
    v.map_values(
        |b: Option<String>|
            match b {
                Some(s) => Some(s@),
                None => None,
            },
    )
}

/// A dependency spec the shell wrote: a `link:` or `file:` spec pointing
/// into a kernel plugins directory. Others belong to the user or the CLI.
pub open spec fn managed_spec(spec: Seq<char>) -> bool {
    (has_prefix(spec, "link:"@) || has_prefix(spec, "file:"@)) && contains_seq(
        spec,
        "desktop/kernels/"@,
    )
}

pub fn is_managed_spec(spec: &str) -> (b: bool)
    ensures
        b == managed_spec(spec@),
{
    let v = to_chars(spec);
    let link = to_chars("link:");
    let file = to_chars("file:");
    let mark = to_chars("desktop/kernels/");
    (starts_with(&v, &link) || starts_with(&v, &file)) && contains(&v, &mark)
}

/// The bundle layers a freshly initialized profile starts with.
pub open spec fn template_of(profile: Seq<char>) -> Seq<Seq<char>> {
    if profile == "web"@ {
        seq!["@deepseek-ai/dsh-base"@, "@deepseek-ai/dsh-web-app"@]
    } else if profile == "headless"@ {
        seq!["@deepseek-ai/dsh-base"@, "@deepseek-ai/dsh-headless"@]
    } else {
        seq!["@deepseek-ai/dsh-base"@]
    }
}

pub fn template_bundles(profile: &str) -> (r: Vec<String>)
    ensures
        r@.map_values(|s: String| s@) == template_of(profile@),
{
    let mut r: Vec<String> = Vec::new();
    r.push(String::from_str("@deepseek-ai/dsh-base"));
    if str_is(profile, "web") {
        r.push(String::from_str("@deepseek-ai/dsh-web-app"));
    } else if str_is(profile, "headless") {
        r.push(String::from_str("@deepseek-ai/dsh-headless"));
    }
    assert(r@.map_values(|s: String| s@) =~= template_of(profile@));
    r
}


/// One plugin's wiring: the dependency spec it should have and whether its
/// package declares a bundle layer.
#[derive(Debug, Clone)]
pub struct WireSpec {
    pub name: String,
    pub spec: String,
    pub bundle: bool,
}

/// A wiring entry as text.
pub type WireModel = (Seq<char>, Seq<char>, bool);

pub open spec fn wire_models(v: Seq<WireSpec>) -> Seq<WireModel> {
    v.map_values(|w: WireSpec| (w.name@, w.spec@, w.bundle))
}

/// Names strictly increasing: a map keyed by name, in key order.
pub open spec fn names_ascending(s: Seq<WireModel>) -> bool {
    forall|i: int, j: int| 0 <= i < j < s.len() ==> text_less(s[i].0, s[j].0)
}

/// `e` entered into an ordered map: replacing the entry with its name, or
/// placed before the first greater name.
pub open spec fn map_insert(s: Seq<WireModel>, e: WireModel) -> Seq<WireModel>
    decreases s.len(),
{
    if s.len() == 0 {
        seq![e]
    } else if s[0].0 == e.0 {
        seq![e] + s.drop_first()
    } else if text_less(e.0, s[0].0) {
        seq![e] + s
    } else {
        seq![s[0]] + map_insert(s.drop_first(), e)
    }
}

/// The wiring of every store plugin keyed by package name, in name order
/// (the shell's `BTreeMap<name, (spec, is_bundle)>`).
#[derive(Debug, Clone)]
pub struct WireSpecs {
    pub entries: Vec<WireSpec>,
}

impl WireSpecs {
    pub open spec fn model(&self) -> Seq<WireModel> {
        wire_models(self.entries@)
    }

    pub open spec fn wf(&self) -> bool {
        names_ascending(self.model())
    }

    pub fn new() -> (r: Self)
        ensures
            r.wf(),
            r.model().len() == 0,
    {
        WireSpecs { entries: Vec::new() }
    }

    pub fn len(&self) -> (n: usize)
        ensures
            n == self.model().len(),
    {
        self.entries.len()
    }

    /// Insert or replace the wiring of `name`.
    pub fn insert(&mut self, name: String, spec: String, bundle: bool)
        requires
            old(self).wf(),
        ensures
            final(self).wf(),
            final(self).model() == map_insert(old(self).model(), (name@, spec@, bundle)),
    {
        let ghost e: WireModel = (name@, spec@, bundle);
        let ghost s = self.model();
        assert(s.subrange(0, 0) + map_insert(s.subrange(0, s.len() as int), e) =~= map_insert(s, e))
            by {
            assert(s.subrange(0, s.len() as int) =~= s);
        }
        let mut i: usize = 0;
        while i < self.entries.len()
            invariant
                i <= self.entries@.len(),
                s == wire_models(self.entries@),
                self.entries@ == old(self).entries@,
                names_ascending(s),
                e == (name@, spec@, bundle),
                forall|j: int| 0 <= j < i ==> text_less(#[trigger] s[j].0, e.0),
                map_insert(s, e) == s.subrange(0, i as int) + map_insert(
                    s.subrange(i as int, s.len() as int),
                    e,
                ),
            decreases self.entries.len() - i,
        {
            let ghost rest = s.subrange(i as int, s.len() as int);
            assert(rest[0] == s[i as int]);
            let n_i = self.entries[i].name.as_str();
            let same = str_is(n_i, name.as_str());
            if same {
                assert(map_insert(rest, e) == seq![e] + rest.drop_first());
                let ghost before = self.entries@;
                self.entries.set(i, WireSpec { name, spec, bundle });
                proof {
                    assert(wire_models(self.entries@) =~= s.subrange(0, i as int) + (seq![e]
                        + rest.drop_first()));
                    lemma_names_after_replace(s, i as int, e);
                }
                return;
            }
            let less = {
                let a = to_chars(name.as_str());
                let b = to_chars(n_i);
                chars_less(&a, &b)
            };
            if less {
                assert(map_insert(rest, e) == seq![e] + rest);
                assert(rest =~= s.subrange(i as int, s.len() as int));
                self.entries.insert(i, WireSpec { name, spec, bundle });
                proof {
                    assert(wire_models(self.entries@) =~= s.subrange(0, i as int) + (seq![e]
                        + rest));
                    lemma_names_after_place(s, i as int, e);
                }
                return;
            }
            proof {
                lemma_text_less_total(e.0, s[i as int].0);
                assert(rest.drop_first() =~= s.subrange(i + 1, s.len() as int));
                assert(s.subrange(0, i + 1) =~= s.subrange(0, i as int) + seq![s[i as int]]);
            }
            i = i + 1;
        }
        let ghost before = self.entries@;
        self.entries.push(WireSpec { name, spec, bundle });
        proof {
            assert(s.subrange(i as int, s.len() as int) =~= Seq::<WireModel>::empty());
            assert(wire_models(self.entries@) =~= s + seq![e]);
            assert(s.subrange(0, i as int) =~= s);
            lemma_names_after_place(s, i as int, e);
        }
    }
}

proof fn lemma_names_after_replace(s: Seq<WireModel>, i: int, e: WireModel)
    requires
        names_ascending(s),
        0 <= i < s.len(),
        s[i].0 == e.0,
    ensures
        names_ascending(s.update(i, e)),
        s.subrange(0, i) + (seq![e] + s.subrange(i + 1, s.len() as int)) == s.update(i, e),
{
    assert(s.subrange(0, i) + (seq![e] + s.subrange(i + 1, s.len() as int)) =~= s.update(i, e));
}

proof fn lemma_names_after_place(s: Seq<WireModel>, i: int, e: WireModel)
    requires
        names_ascending(s),
        0 <= i <= s.len(),
        forall|j: int| 0 <= j < i ==> text_less(#[trigger] s[j].0, e.0),
        i < s.len() ==> text_less(e.0, s[i].0),
    ensures
        names_ascending(s.insert(i, e)),
        s.subrange(0, i) + (seq![e] + s.subrange(i, s.len() as int)) == s.insert(i, e),
{
    let t = s.insert(i, e);
    assert(s.subrange(0, i) + (seq![e] + s.subrange(i, s.len() as int)) =~= t);
    assert forall|a: int, b: int| 0 <= a < b < t.len() implies text_less(t[a].0, t[b].0) by {
        if b < i {
        } else if b == i {
        } else if a < i {
            if i < s.len() {
                lemma_text_less_transitive(s[a].0, e.0, s[i].0);
                if b - 1 > i {
                    lemma_text_less_transitive(s[a].0, s[i].0, s[b - 1].0);
                }
            }
        } else if a == i {
            if b - 1 > i {
                lemma_text_less_transitive(e.0, s[i].0, s[b - 1].0);
            }
        } else {
        }
    }
}


/// A manifest as text.
pub struct ManifestModel {
    pub deps: Option<Seq<DepModel>>,
    pub bundles: Option<Seq<Option<Seq<char>>>>,
}

impl View for ProfileManifest {
    type V = ManifestModel;

    open spec fn view(&self) -> ManifestModel {
        ManifestModel {
            deps: match self.deps {
                Some(d) => Some(deps_model(d@)),
                None => None,
            },
            bundles: match self.bundles {
                Some(b) => Some(bundles_model(b@)),
                None => None,
            },
        }
    }
}

/// A value's text, or empty text for a non-string value.
pub open spec fn text_or_empty(o: Option<Seq<char>>) -> Seq<char> {
    match o {
        Some(t) => t,
        None => Seq::empty(),
    }
}

/// The value of the first dependency named `name`.
pub open spec fn dep_get(deps: Seq<DepModel>, name: Seq<char>) -> Option<Option<Seq<char>>>
    decreases deps.len(),
{
    if deps.len() == 0 {
        None
    } else if deps[0].0 == name {
        Some(deps[0].1)
    } else {
        dep_get(deps.drop_first(), name)
    }
}

/// `name` set to `v`: the first entry of that name replaced, or appended.
pub open spec fn dep_set(deps: Seq<DepModel>, name: Seq<char>, v: Option<Seq<char>>) -> Seq<
    DepModel,
>
    decreases deps.len(),
{
    if deps.len() == 0 {
        seq![(name, v)]
    } else if deps[0].0 == name {
        seq![(name, v)] + deps.drop_first()
    } else {
        seq![deps[0]] + dep_set(deps.drop_first(), name, v)
    }
}

/// Every plugin's dependency set to its spec, in map order; the flag tells
/// whether any had to change.
pub open spec fn apply_specs(deps: Seq<DepModel>, specs: Seq<WireModel>) -> (Seq<DepModel>, bool)
    decreases specs.len(),
{
    if specs.len() == 0 {
        (deps, false)
    } else {
        let (d, c) = apply_specs(deps, specs.drop_last());
        let e = specs.last();
        if dep_get(d, e.0) == Some(Some(e.1)) {
            (d, c)
        } else {
            (dep_set(d, e.0, Some(e.1)), true)
        }
    }
}

/// Whether a plugin of that name is wired.
pub open spec fn has_name(specs: Seq<WireModel>, name: Seq<char>) -> bool {
    exists|i: int| 0 <= i < specs.len() && #[trigger] specs[i].0 == name
}

/// A dependency survives pruning unless the shell wrote it and its plugin
/// is gone.
pub open spec fn prune_keeps(d: DepModel, specs: Seq<WireModel>) -> bool {
    !managed_spec(text_or_empty(d.1)) || has_name(specs, d.0)
}

/// The dependencies that survive pruning.
pub open spec fn pruned(deps: Seq<DepModel>, specs: Seq<WireModel>) -> Seq<DepModel>
    decreases deps.len(),
{
    if deps.len() == 0 {
        deps
    } else if prune_keeps(deps[0], specs) {
        seq![deps[0]] + pruned(deps.drop_first(), specs)
    } else {
        pruned(deps.drop_first(), specs)
    }
}

/// Whether pruning drops anything.
pub open spec fn prunes_any(deps: Seq<DepModel>, specs: Seq<WireModel>) -> bool {
    exists|i: int| 0 <= i < deps.len() && !prune_keeps(#[trigger] deps[i], specs)
}

/// A name the user (or the CLI) depends on directly.
pub open spec fn kept_user(deps: Seq<DepModel>, b: Seq<char>) -> bool {
    exists|i: int| 0 <= i < deps.len() && #[trigger] deps[i].0 == b && !managed_spec(
        text_or_empty(deps[i].1),
    )
}

/// Names of the wired plugins that declare a bundle layer, in map order.
pub open spec fn managed_names(specs: Seq<WireModel>) -> Seq<Seq<char>>
    decreases specs.len(),
{
    if specs.len() == 0 {
        Seq::empty()
    } else if specs.last().2 {
        managed_names(specs.drop_last()).push(specs.last().0)
    } else {
        managed_names(specs.drop_last())
    }
}

/// The string elements of a bundles array.
pub open spec fn strings(b: Seq<Option<Seq<char>>>) -> Seq<Seq<char>>
    decreases b.len(),
{
    if b.len() == 0 {
        Seq::empty()
    } else {
        match b.last() {
            Some(t) => strings(b.drop_last()).push(t),
            None => strings(b.drop_last()),
        }
    }
}

/// A bundle entry the user keeps: not a template or managed layer, and a
/// direct user dependency.
pub open spec fn user_bundle(
    b: Seq<char>,
    template: Seq<Seq<char>>,
    managed: Seq<Seq<char>>,
    deps: Seq<DepModel>,
) -> bool {
    !template.contains(b) && !managed.contains(b) && kept_user(deps, b)
}

/// The user's bundle entries, first occurrences only, in order.
pub open spec fn users(
    cur: Seq<Seq<char>>,
    template: Seq<Seq<char>>,
    managed: Seq<Seq<char>>,
    deps: Seq<DepModel>,
) -> Seq<Seq<char>>
    decreases cur.len(),
{
    if cur.len() == 0 {
        Seq::empty()
    } else {
        let u = users(cur.drop_last(), template, managed, deps);
        if user_bundle(cur.last(), template, managed, deps) && !u.contains(cur.last()) {
            u.push(cur.last())
        } else {
            u
        }
    }
}

/// Some entry is neither a template, a managed, nor a user layer: it is
/// dropped.
pub open spec fn stray(
    cur: Seq<Seq<char>>,
    template: Seq<Seq<char>>,
    managed: Seq<Seq<char>>,
    deps: Seq<DepModel>,
) -> bool {
    exists|i: int|
        0 <= i < cur.len() && !template.contains(#[trigger] cur[i]) && !managed.contains(cur[i])
            && !kept_user(deps, cur[i])
}

/// `base` with each of `ms` appended unless already present.
pub open spec fn append_new(base: Seq<Seq<char>>, ms: Seq<Seq<char>>) -> Seq<Seq<char>>
    decreases ms.len(),
{
    if ms.len() == 0 {
        base
    } else {
        let r = append_new(base, ms.drop_last());
        if r.contains(ms.last()) {
            r
        } else {
            r.push(ms.last())
        }
    }
}

/// The rebuilt bundle list: template layers, the user's layers in their
/// order, then the managed layers not yet listed.
pub open spec fn next_bundles(
    cur: Seq<Seq<char>>,
    template: Seq<Seq<char>>,
    managed: Seq<Seq<char>>,
    deps: Seq<DepModel>,
) -> Seq<Seq<char>> {
    append_new(template + users(cur, template, managed, deps), managed)
}

/// Strings as bundle elements.
pub open spec fn as_elements(s: Seq<Seq<char>>) -> Seq<Option<Seq<char>>> {
    s.map_values(|t: Seq<char>| Some(t))
}

/// What wiring does to a manifest: the manifest afterwards and whether it
/// changed, or the error for a manifest missing `dependencies` or
/// `dsh.profile.bundles`.
pub open spec fn wire_outcome(m: ManifestModel, specs: Seq<WireModel>, profile: Seq<char>) -> (
    ManifestModel,
    Result<bool, ErrorModel>,
) {
    match m.deps {
        None => (m, Err(ErrorModel::Plugin("profile manifest 缺少 dependencies"@))),
        Some(d0) => {
            let (d1, c1) = apply_specs(d0, specs);
            let d2 = pruned(d1, specs);
            let c2 = prunes_any(d1, specs);
            match m.bundles {
                None => (
                    ManifestModel { deps: Some(d2), bundles: None },
                    Err(ErrorModel::Plugin("profile manifest 缺少 dsh.profile.bundles"@)),
                ),
                Some(b0) => {
                    let cur = strings(b0);
                    let t = template_of(profile);
                    let mn = managed_names(specs);
                    let nx = next_bundles(cur, t, mn, d2);
                    let c3 = stray(cur, t, mn, d2);
                    let rewrite = nx != cur;
                    (
                        ManifestModel {
                            deps: Some(d2),
                            bundles: Some(
                                if rewrite {
                                    as_elements(nx)
                                } else {
                                    b0
                                },
                            ),
                        },
                        Ok(c1 || c2 || c3 || rewrite),
                    )
                },
            }
        },
    }
}


proof fn lemma_dep_first(dm: Seq<DepModel>, name: Seq<char>, i: int, v: Option<Seq<char>>)
    requires
        0 <= i < dm.len(),
        dm[i].0 == name,
        forall|j: int| 0 <= j < i ==> dm[j].0 != name,
    ensures
        dep_get(dm, name) == Some(dm[i].1),
        dep_set(dm, name, v) == dm.update(i, (name, v)),
    decreases i,
{
    if i == 0 {
        assert(dep_set(dm, name, v) =~= dm.update(i, (name, v)));
    } else {
        let t = dm.drop_first();
        assert forall|j: int| 0 <= j < i - 1 implies t[j].0 != name by {
            assert(t[j] == dm[j + 1]);
        }
        lemma_dep_first(t, name, i - 1, v);
        assert(dep_set(dm, name, v) =~= dm.update(i, (name, v)));
    }
}

proof fn lemma_dep_absent(dm: Seq<DepModel>, name: Seq<char>, v: Option<Seq<char>>)
    requires
        forall|j: int| 0 <= j < dm.len() ==> dm[j].0 != name,
    ensures
        dep_get(dm, name) is None,
        dep_set(dm, name, v) == dm.push((name, v)),
    decreases dm.len(),
{
    if dm.len() > 0 {
        let t = dm.drop_first();
        assert forall|j: int| 0 <= j < t.len() implies t[j].0 != name by {
            assert(t[j] == dm[j + 1]);
        }
        lemma_dep_absent(t, name, v);
    }
    assert(dep_set(dm, name, v) =~= dm.push((name, v)));
}

/// The position of the first dependency named `name`.
fn dep_index(deps: &Vec<Dep>, name: &str) -> (r: Option<usize>)
    ensures
        r matches Some(i) ==> i < deps@.len() && deps@[i as int].name@ == name@ && forall|j: int|
            0 <= j < i ==> deps@[j].name@ != name@,
        r is None ==> forall|j: int| 0 <= j < deps@.len() ==> deps@[j].name@ != name@,
{
    let mut i: usize = 0;
    while i < deps.len()
        invariant
            i <= deps@.len(),
            forall|j: int| 0 <= j < i ==> deps@[j].name@ != name@,
        decreases deps.len() - i,
    {
        if str_is(deps[i].name.as_str(), name) {
            return Some(i);
        }
        i = i + 1;
    }
    None
}

/// The string value of the dependency named `name`, if it has one.
pub open spec fn dep_string(deps: Seq<DepModel>, name: Seq<char>) -> Option<Seq<char>> {
    match dep_get(deps, name) {
        Some(Some(t)) => Some(t),
        _ => None,
    }
}

/// `dependencies[name]` when it is a string.
pub fn dep_text(deps: &Vec<Dep>, name: &str) -> (r: Option<String>)
    ensures
        (match r {
            Some(s) => Some(s@),
            None => None,
        }) == dep_string(deps_model(deps@), name@),
{
    let ghost dm = deps_model(deps@);
    match dep_index(deps, name) {
        Some(i) => {
            proof {
                lemma_dep_first(dm, name@, i as int, None);
            }
            match &deps[i].spec {
                Some(s) => Some(s.clone()),
                None => None,
            }
        },
        None => {
            proof {
                lemma_dep_absent(dm, name@, None);
            }
            None
        },
    }
}

fn text_is(o: &Option<String>, t: &str) -> (b: bool)
    ensures
        b == (match o {
            Some(s) => Some(s@),
            None => None,
        } == Some(t@)),
{
    match o {
        Some(s) => str_is(s.as_str(), t),
        None => false,
    }
}

/// Set every wired plugin's dependency to its spec.
fn apply_specs_exec(deps: &mut Vec<Dep>, specs: &WireSpecs) -> (changed: bool)
    ensures
        (deps_model(final(deps)@), changed) == apply_specs(deps_model(old(deps)@), specs.model()),
{
    let ghost d0 = deps_model(deps@);
    let ghost sm = specs.model();
    let mut changed = false;
    let mut k: usize = 0;
    assert(prefix(sm, 0) =~= Seq::<WireModel>::empty());
    while k < specs.entries.len()
        invariant
            k <= specs.entries@.len(),
            sm == specs.model(),
            d0 == deps_model(old(deps)@),
            (deps_model(deps@), changed) == apply_specs(d0, prefix(sm, k)),
        decreases specs.entries.len() - k,
    {
        proof {
            lemma_prefix_next(sm, k);
        }
        let e = &specs.entries[k];
        assert(item(sm, k) == (e.name@, e.spec@, e.bundle));
        let ghost dm = deps_model(deps@);
        match dep_index(deps, e.name.as_str()) {
            Some(i) => {
                proof {
                    lemma_dep_first(dm, e.name@, i as int, Some(e.spec@));
                }
                if !text_is(&deps[i].spec, e.spec.as_str()) {
                    deps.set(i, Dep { name: e.name.clone(), spec: Some(e.spec.clone()) });
                    changed = true;
                    assert(deps_model(deps@) =~= dm.update(i as int, (e.name@, Some(e.spec@))));
                }
            },
            None => {
                proof {
                    lemma_dep_absent(dm, e.name@, Some(e.spec@));
                }
                deps.push(Dep { name: e.name.clone(), spec: Some(e.spec.clone()) });
                changed = true;
                assert(deps_model(deps@) =~= dm.push((e.name@, Some(e.spec@))));
            },
        }
        k = k + 1;
    }
    proof {
        lemma_prefix_full(sm, k);
    }
    changed
}

/// Whether some wired plugin has the name.
fn wired(specs: &WireSpecs, name: &str) -> (b: bool)
    ensures
        b == has_name(specs.model(), name@),
{
    let mut i: usize = 0;
    while i < specs.entries.len()
        invariant
            i <= specs.entries@.len(),
            forall|j: int| 0 <= j < i ==> specs.entries@[j].name@ != name@,
        decreases specs.entries.len() - i,
    {
        if str_is(specs.entries[i].name.as_str(), name) {
            assert(specs.model()[i as int].0 == name@);
            return true;
        }
        i = i + 1;
    }
    assert forall|j: int| 0 <= j < specs.model().len() implies specs.model()[j].0 != name@ by {
        assert(specs.model()[j].0 == specs.entries@[j].name@);
    }
    false
}

fn managed_value(o: &Option<String>) -> (b: bool)
    ensures
        b == managed_spec(
            text_or_empty(
                match o {
                    Some(s) => Some(s@),
                    None => None,
                },
            ),
        ),
{
    match o {
        Some(s) => {
            let t = s.as_str();
            let b = is_managed_spec(t);
            assert(t@ == s@);
            b
        },
        None => {
            let b = is_managed_spec("");
            assert(""@ =~= Seq::<char>::empty()) by {
                reveal_strlit("");
            }
            b
        },
    }
}

/// Drop the shell-written dependencies whose plugin is gone.
fn prune_exec(deps: &mut Vec<Dep>, specs: &WireSpecs) -> (any: bool)
    ensures
        deps_model(final(deps)@) == pruned(deps_model(old(deps)@), specs.model()),
        any == prunes_any(deps_model(old(deps)@), specs.model()),
{
    let ghost dm = deps_model(deps@);
    let ghost sm = specs.model();
    let mut kept: Vec<Dep> = Vec::new();
    let mut any = false;
    let mut i: usize = 0;
    proof {
        crate::text::lemma_suffix_zero(dm);
    }
    assert(deps_model(kept@) =~= Seq::<DepModel>::empty());
    while i < deps.len()
        invariant
            i <= deps@.len(),
            dm == deps_model(deps@),
            dm == deps_model(old(deps)@),
            sm == specs.model(),
            pruned(dm, sm) == deps_model(kept@) + pruned(crate::text::suffix(dm, i), sm),
            any == (exists|j: int| 0 <= j < i && !prune_keeps(#[trigger] dm[j], sm)),
        decreases deps.len() - i,
    {
        proof {
            crate::text::lemma_suffix_next(dm, i);
        }
        let d = &deps[i];
        assert(item(dm, i) == dep_model(*d));
        let keep = !managed_value(&d.spec) || wired(specs, d.name.as_str());
        if keep {
            let ghost before = kept@;
            kept.push(Dep { name: d.name.clone(), spec: crate::install_spec::copy_opt(&d.spec) });
            assert(deps_model(kept@) =~= deps_model(before).push(item(dm, i)));
        } else {
            any = true;
        }
        i = i + 1;
    }
    assert(crate::text::suffix(dm, i) =~= Seq::<DepModel>::empty());
    assert(deps_model(kept@) + Seq::<DepModel>::empty() =~= deps_model(kept@));
    *deps = kept;
    any
}


/// Whether some direct dependency of that name is the user's own.
fn kept_user_exec(deps: &Vec<Dep>, b: &str) -> (r: bool)
    ensures
        r == kept_user(deps_model(deps@), b@),
{
    let ghost dm = deps_model(deps@);
    let mut i: usize = 0;
    while i < deps.len()
        invariant
            i <= deps@.len(),
            dm == deps_model(deps@),
            forall|j: int| 0 <= j < i ==> !(dm[j].0 == b@ && !managed_spec(text_or_empty(dm[j].1))),
        decreases deps.len() - i,
    {
        assert(dm[i as int] == dep_model(deps@[i as int]));
        if str_is(deps[i].name.as_str(), b) && !managed_value(&deps[i].spec) {
            assert(dm[i as int].0 == b@ && !managed_spec(text_or_empty(dm[i as int].1)));
            return true;
        }
        i = i + 1;
    }
    false
}

/// Names of the wired plugins with a bundle layer, in map order.
fn managed_names_exec(specs: &WireSpecs) -> (r: Vec<String>)
    ensures
        texts(r@) == managed_names(specs.model()),
{
    let ghost sm = specs.model();
    let mut r: Vec<String> = Vec::new();
    let mut k: usize = 0;
    assert(prefix(sm, 0) =~= Seq::<WireModel>::empty());
    assert(texts(r@) =~= Seq::<Seq<char>>::empty());
    while k < specs.entries.len()
        invariant
            k <= specs.entries@.len(),
            sm == specs.model(),
            texts(r@) == managed_names(prefix(sm, k)),
        decreases specs.entries.len() - k,
    {
        proof {
            lemma_prefix_next(sm, k);
        }
        assert(item(sm, k) == (specs.entries@[k as int].name@, specs.entries@[k as int].spec@,
            specs.entries@[k as int].bundle));
        if specs.entries[k].bundle {
            r.push(specs.entries[k].name.clone());
            assert(texts(r@) =~= texts(r@.drop_last()).push(item(sm, k).0));
        }
        k = k + 1;
    }
    proof {
        lemma_prefix_full(sm, k);
    }
    r
}

/// The string elements of a bundles array.
fn strings_exec(b: &Vec<Option<String>>) -> (r: Vec<String>)
    ensures
        texts(r@) == strings(bundles_model(b@)),
{
    let ghost bm = bundles_model(b@);
    let mut r: Vec<String> = Vec::new();
    let mut i: usize = 0;
    assert(prefix(bm, 0) =~= Seq::<Option<Seq<char>>>::empty());
    assert(texts(r@) =~= Seq::<Seq<char>>::empty());
    while i < b.len()
        invariant
            i <= b@.len(),
            bm == bundles_model(b@),
            texts(r@) == strings(prefix(bm, i)),
        decreases b.len() - i,
    {
        proof {
            lemma_prefix_next(bm, i);
        }
        match &b[i] {
            Some(t) => {
                r.push(t.clone());
                assert(texts(r@) =~= texts(r@.drop_last()).push(t@));
            },
            None => {},
        }
        i = i + 1;
    }
    proof {
        lemma_prefix_full(bm, i);
    }
    r
}

/// The user's bundle entries and whether any entry is dropped.
fn users_exec(cur: &Vec<String>, template: &Vec<String>, managed: &Vec<String>, deps: &Vec<Dep>) -> (r: (
    Vec<String>,
    bool,
))
    ensures
        texts(r.0@) == users(texts(cur@), texts(template@), texts(managed@), deps_model(deps@)),
        r.1 == stray(texts(cur@), texts(template@), texts(managed@), deps_model(deps@)),
{
    let ghost cm = texts(cur@);
    let ghost tm = texts(template@);
    let ghost mm = texts(managed@);
    let ghost dm = deps_model(deps@);
    let mut u: Vec<String> = Vec::new();
    let mut any = false;
    let mut i: usize = 0;
    assert(prefix(cm, 0) =~= Seq::<Seq<char>>::empty());
    assert(texts(u@) =~= Seq::<Seq<char>>::empty());
    while i < cur.len()
        invariant
            i <= cur@.len(),
            cm == texts(cur@),
            tm == texts(template@),
            mm == texts(managed@),
            dm == deps_model(deps@),
            texts(u@) == users(prefix(cm, i), tm, mm, dm),
            any == (exists|j: int|
                0 <= j < i && !tm.contains(#[trigger] cm[j]) && !mm.contains(cm[j]) && !kept_user(
                    dm,
                    cm[j],
                )),
        decreases cur.len() - i,
    {
        proof {
            lemma_prefix_next(cm, i);
        }
        let b = cur[i].as_str();
        assert(item(cm, i) == b@);
        let in_t = contains_text(template, b);
        let in_m = contains_text(managed, b);
        let kept = kept_user_exec(deps, b);
        if !in_t && !in_m && kept && !contains_text(&u, b) {
            u.push(cur[i].clone());
            assert(texts(u@) =~= texts(u@.drop_last()).push(b@));
        }
        if !in_t && !in_m && !kept {
            any = true;
        }
        i = i + 1;
    }
    proof {
        lemma_prefix_full(cm, i);
    }
    (u, any)
}

/// `base` with each of `ms` appended unless present.
fn append_new_exec(base: Vec<String>, ms: &Vec<String>) -> (r: Vec<String>)
    ensures
        texts(r@) == append_new(texts(base@), texts(ms@)),
{
    let ghost mm = texts(ms@);
    let ghost bm = texts(base@);
    let mut r = base;
    let mut k: usize = 0;
    assert(prefix(mm, 0) =~= Seq::<Seq<char>>::empty());
    while k < ms.len()
        invariant
            k <= ms@.len(),
            mm == texts(ms@),
            texts(r@) == append_new(bm, prefix(mm, k)),
        decreases ms.len() - k,
    {
        proof {
            lemma_prefix_next(mm, k);
        }
        assert(item(mm, k) == ms@[k as int]@);
        if !contains_text(&r, ms[k].as_str()) {
            r.push(ms[k].clone());
            assert(texts(r@) =~= texts(r@.drop_last()).push(ms@[k as int]@));
        }
        k = k + 1;
    }
    proof {
        lemma_prefix_full(mm, k);
    }
    r
}


/// Apply the store's plugin dependencies and bundle layers onto a profile
/// manifest: each wired plugin's dependency is set to its spec, shell-written
/// dependencies of removed plugins are pruned, and the bundle list is
/// rebuilt as template layers, the user's layers, then the managed layers.
/// Returns whether anything changed.
pub fn wire_manifest(root: &mut ProfileManifest, specs: &WireSpecs, profile: &str) -> (r: Result<
    bool,
    AppError,
>)
    ensures
        final(root)@ == wire_outcome(old(root)@, specs.model(), profile@).0,
        r matches Ok(c) ==> wire_outcome(old(root)@, specs.model(), profile@).1 == Ok::<
            bool,
            ErrorModel,
        >(c),
        r matches Err(e) ==> wire_outcome(old(root)@, specs.model(), profile@).1 == Err::<
            bool,
            ErrorModel,
        >(e@),
{
    let ghost m0 = root@;
    let mut deps = match root.deps.take() {
        None => {
            return Err(AppError::Plugin(String::from_str("profile manifest 缺少 dependencies")));
        },
        Some(d) => d,
    };
    let c1 = apply_specs_exec(&mut deps, specs);
    let c2 = prune_exec(&mut deps, specs);
    let bundles = match root.bundles.take() {
        None => {
            root.deps = Some(deps);
            return Err(
                AppError::Plugin(String::from_str("profile manifest 缺少 dsh.profile.bundles")),
            );
        },
        Some(b) => b,
    };
    let cur = strings_exec(&bundles);
    let template = template_bundles(profile);
    let managed = managed_names_exec(specs);
    let (u, c3) = users_exec(&cur, &template, &managed, &deps);
    let mut base = template;
    let mut j: usize = 0;
    let ghost t0 = texts(base@);
    while j < u.len()
        invariant
            j <= u@.len(),
            texts(base@) == t0 + texts(u@).subrange(0, j as int),
        decreases u.len() - j,
    {
        let ghost before = base@;
        let x = u[j].clone();
        assert(x@ == u@[j as int]@);
        base.push(x);
        assert(texts(base@) =~= texts(before).push(u@[j as int]@));
        assert(texts(u@).subrange(0, j + 1) =~= texts(u@).subrange(0, j as int).push(
            u@[j as int]@,
        ));
        j = j + 1;
    }
    assert(texts(u@).subrange(0, j as int) =~= texts(u@));
    let next = append_new_exec(base, &managed);
    let rewrite = !texts_eq(&next, &cur);
    if rewrite {
        let mut elems: Vec<Option<String>> = Vec::new();
        let mut k: usize = 0;
        while k < next.len()
            invariant
                k <= next@.len(),
                bundles_model(elems@) == as_elements(texts(next@)).subrange(0, k as int),
            decreases next.len() - k,
        {
            let ghost before = elems@;
            let x = next[k].clone();
            assert(x@ == next@[k as int]@);
            elems.push(Some(x));
            assert(bundles_model(elems@) =~= bundles_model(before).push(Some(next@[k as int]@)));
            assert(as_elements(texts(next@)).subrange(0, k + 1) =~= as_elements(texts(next@)).subrange(
                0,
                k as int,
            ).push(Some(next@[k as int]@)));
            k = k + 1;
        }
        assert(as_elements(texts(next@)).subrange(0, k as int) =~= as_elements(texts(next@)));
        root.bundles = Some(elems);
    } else {
        root.bundles = Some(bundles);
    }
    root.deps = Some(deps);
    Ok(c1 || c2 || c3 || rewrite)
}


proof fn lemma_get_after_set(d: Seq<DepModel>, n: Seq<char>, v: Option<Seq<char>>, m: Seq<char>)
    ensures
        dep_get(dep_set(d, n, v), m) == (if m == n {
            Some(v)
        } else {
            dep_get(d, m)
        }),
    decreases d.len(),
{
    if d.len() > 0 {
        if d[0].0 == n {
            assert((seq![(n, v)] + d.drop_first()).drop_first() =~= d.drop_first());
        } else {
            lemma_get_after_set(d.drop_first(), n, v, m);
            assert((seq![d[0]] + dep_set(d.drop_first(), n, v)).drop_first() =~= dep_set(
                d.drop_first(),
                n,
                v,
            ));
        }
    } else {
        assert(seq![(n, v)].drop_first() =~= Seq::<DepModel>::empty());
        assert(dep_get(Seq::<DepModel>::empty(), m) is None);
    }
}

proof fn lemma_ascending_prefix(s: Seq<WireModel>)
    requires
        names_ascending(s),
        s.len() > 0,
    ensures
        names_ascending(s.drop_last()),
        forall|i: int| 0 <= i < s.len() - 1 ==> #[trigger] s[i].0 != s.last().0,
{
    assert forall|i: int| 0 <= i < s.len() - 1 implies #[trigger] s[i].0 != s.last().0 by {
        lemma_text_less_irreflexive(s[i].0);
    }
}

/// After setting the specs, every wired plugin's dependency holds its spec.
proof fn lemma_apply_sets(d0: Seq<DepModel>, sm: Seq<WireModel>)
    requires
        names_ascending(sm),
    ensures
        forall|i: int|
            0 <= i < sm.len() ==> dep_get(apply_specs(d0, sm).0, #[trigger] sm[i].0) == Some(
                Some(sm[i].1),
            ),
    decreases sm.len(),
{
    if sm.len() > 0 {
        let pre = sm.drop_last();
        lemma_ascending_prefix(sm);
        lemma_apply_sets(d0, pre);
        let d = apply_specs(d0, pre).0;
        let e = sm.last();
        assert forall|i: int| 0 <= i < sm.len() implies dep_get(
            apply_specs(d0, sm).0,
            #[trigger] sm[i].0,
        ) == Some(Some(sm[i].1)) by {
            if dep_get(d, e.0) != Some(Some(e.1)) {
                lemma_get_after_set(d, e.0, Some(e.1), sm[i].0);
            }
            if i < sm.len() - 1 {
                assert(pre[i] == sm[i]);
            }
        }
    }
}

proof fn lemma_pruned_get(d: Seq<DepModel>, sm: Seq<WireModel>, n: Seq<char>)
    requires
        has_name(sm, n),
    ensures
        dep_get(pruned(d, sm), n) == dep_get(d, n),
    decreases d.len(),
{
    if d.len() > 0 {
        lemma_pruned_get(d.drop_first(), sm, n);
        if prune_keeps(d[0], sm) {
            assert((seq![d[0]] + pruned(d.drop_first(), sm)).drop_first() =~= pruned(
                d.drop_first(),
                sm,
            ));
        }
    }
}

proof fn lemma_apply_noop(d: Seq<DepModel>, sm: Seq<WireModel>)
    requires
        forall|i: int| 0 <= i < sm.len() ==> dep_get(d, #[trigger] sm[i].0) == Some(Some(sm[i].1)),
    ensures
        apply_specs(d, sm) == (d, false),
    decreases sm.len(),
{
    if sm.len() > 0 {
        let pre = sm.drop_last();
        assert forall|i: int| 0 <= i < pre.len() implies dep_get(d, #[trigger] pre[i].0) == Some(
            Some(pre[i].1),
        ) by {
            assert(pre[i] == sm[i]);
        }
        lemma_apply_noop(d, pre);
        assert(dep_get(d, sm[sm.len() - 1].0) == Some(Some(sm[sm.len() - 1].1)));
    }
}

proof fn lemma_pruned_keeps_all(d: Seq<DepModel>, sm: Seq<WireModel>)
    ensures
        forall|i: int| 0 <= i < pruned(d, sm).len() ==> prune_keeps(#[trigger] pruned(d, sm)[i], sm),
    decreases d.len(),
{
    if d.len() > 0 {
        lemma_pruned_keeps_all(d.drop_first(), sm);
        let r = pruned(d.drop_first(), sm);
        if prune_keeps(d[0], sm) {
            assert forall|i: int| 0 <= i < pruned(d, sm).len() implies prune_keeps(
                #[trigger] pruned(d, sm)[i],
                sm,
            ) by {
                if i > 0 {
                    assert(pruned(d, sm)[i] == r[i - 1]);
                }
            }
        }
    }
}

proof fn lemma_pruned_identity(d: Seq<DepModel>, sm: Seq<WireModel>)
    requires
        forall|i: int| 0 <= i < d.len() ==> prune_keeps(#[trigger] d[i], sm),
    ensures
        pruned(d, sm) == d,
        !prunes_any(d, sm),
    decreases d.len(),
{
    if d.len() > 0 {
        let t = d.drop_first();
        assert forall|i: int| 0 <= i < t.len() implies prune_keeps(#[trigger] t[i], sm) by {
            assert(t[i] == d[i + 1]);
        }
        lemma_pruned_identity(t, sm);
        assert(prune_keeps(d[0], sm));
        assert(seq![d[0]] + t =~= d);
    }
}

/// The user's layers of `s`, every occurrence.
pub open spec fn user_filter(
    s: Seq<Seq<char>>,
    t: Seq<Seq<char>>,
    mn: Seq<Seq<char>>,
    d: Seq<DepModel>,
) -> Seq<Seq<char>>
    decreases s.len(),
{
    if s.len() == 0 {
        Seq::empty()
    } else if user_bundle(s.last(), t, mn, d) {
        user_filter(s.drop_last(), t, mn, d).push(s.last())
    } else {
        user_filter(s.drop_last(), t, mn, d)
    }
}

proof fn lemma_user_filter_concat(
    x: Seq<Seq<char>>,
    y: Seq<Seq<char>>,
    t: Seq<Seq<char>>,
    mn: Seq<Seq<char>>,
    d: Seq<DepModel>,
)
    ensures
        user_filter(x + y, t, mn, d) == user_filter(x, t, mn, d) + user_filter(y, t, mn, d),
    decreases y.len(),
{
    if y.len() == 0 {
        assert(x + y =~= x);
        assert(user_filter(x, t, mn, d) + Seq::<Seq<char>>::empty() =~= user_filter(x, t, mn, d));
    } else {
        lemma_user_filter_concat(x, y.drop_last(), t, mn, d);
        assert((x + y).drop_last() =~= x + y.drop_last());
        assert((x + y).last() == y.last());
        if user_bundle(y.last(), t, mn, d) {
            assert(user_filter(x, t, mn, d) + user_filter(y.drop_last(), t, mn, d).push(y.last())
                =~= (user_filter(x, t, mn, d) + user_filter(y.drop_last(), t, mn, d)).push(
                y.last(),
            ));
        }
    }
}

proof fn lemma_user_filter_none(s: Seq<Seq<char>>, t: Seq<Seq<char>>, mn: Seq<Seq<char>>, d: Seq<DepModel>)
    requires
        forall|i: int| 0 <= i < s.len() ==> !user_bundle(#[trigger] s[i], t, mn, d),
    ensures
        user_filter(s, t, mn, d) == Seq::<Seq<char>>::empty(),
    decreases s.len(),
{
    if s.len() > 0 {
        assert(!user_bundle(s[s.len() - 1], t, mn, d));
        lemma_user_filter_none(s.drop_last(), t, mn, d);
    }
}

proof fn lemma_user_filter_all(s: Seq<Seq<char>>, t: Seq<Seq<char>>, mn: Seq<Seq<char>>, d: Seq<DepModel>)
    requires
        forall|i: int| 0 <= i < s.len() ==> user_bundle(#[trigger] s[i], t, mn, d),
    ensures
        user_filter(s, t, mn, d) == s,
    decreases s.len(),
{
    if s.len() > 0 {
        assert(user_bundle(s[s.len() - 1], t, mn, d));
        lemma_user_filter_all(s.drop_last(), t, mn, d);
        assert(s.drop_last().push(s.last()) =~= s);
    }
}

/// The user's layers are user layers, each once.
proof fn lemma_users_shape(s: Seq<Seq<char>>, t: Seq<Seq<char>>, mn: Seq<Seq<char>>, d: Seq<DepModel>)
    ensures
        forall|i: int| 0 <= i < users(s, t, mn, d).len() ==> user_bundle(
            #[trigger] users(s, t, mn, d)[i],
            t,
            mn,
            d,
        ),
        users(s, t, mn, d).no_duplicates(),
    decreases s.len(),
{
    if s.len() > 0 {
        lemma_users_shape(s.drop_last(), t, mn, d);
    }
}

/// Without repeated user layers, keeping first occurrences keeps them all.
proof fn lemma_users_is_filter(s: Seq<Seq<char>>, t: Seq<Seq<char>>, mn: Seq<Seq<char>>, d: Seq<DepModel>)
    requires
        user_filter(s, t, mn, d).no_duplicates(),
    ensures
        users(s, t, mn, d) == user_filter(s, t, mn, d),
    decreases s.len(),
{
    if s.len() > 0 {
        let f = user_filter(s.drop_last(), t, mn, d);
        if user_bundle(s.last(), t, mn, d) {
            assert(f.push(s.last()).no_duplicates());
            assert forall|i: int, j: int| 0 <= i < f.len() && 0 <= j < f.len() && i != j implies f[i]
                != f[j] by {
                assert(f.push(s.last())[i] == f[i] && f.push(s.last())[j] == f[j]);
            }
            lemma_users_is_filter(s.drop_last(), t, mn, d);
            if f.contains(s.last()) {
                let k = choose|k: int| 0 <= k < f.len() && f[k] == s.last();
                assert(f.push(s.last())[k] == f.push(s.last())[f.len() as int]);
            }
        } else {
            lemma_users_is_filter(s.drop_last(), t, mn, d);
        }
    }
}

/// Appending new names extends the base with names from `ms` only.
proof fn lemma_append_new_shape(base: Seq<Seq<char>>, ms: Seq<Seq<char>>)
    ensures
        append_new(base, ms).len() >= base.len(),
        append_new(base, ms).subrange(0, base.len() as int) == base,
        forall|i: int|
            base.len() <= i < append_new(base, ms).len() ==> ms.contains(
                #[trigger] append_new(base, ms)[i],
            ),
    decreases ms.len(),
{
    if ms.len() > 0 {
        lemma_append_new_shape(base, ms.drop_last());
        let r = append_new(base, ms.drop_last());
        assert forall|i: int|
            base.len() <= i < append_new(base, ms).len() implies ms.contains(
            #[trigger] append_new(base, ms)[i],
        ) by {
            if i < r.len() {
                assert(append_new(base, ms)[i] == r[i]);
                assert(ms.drop_last().contains(r[i]));
                let k = choose|k: int| 0 <= k < ms.drop_last().len() && ms.drop_last()[k] == r[i];
                assert(ms[k] == r[i]);
            } else {
                assert(ms[ms.len() - 1] == ms.last());
            }
        }
        assert(append_new(base, ms).subrange(0, base.len() as int) =~= base);
    } else {
        assert(base.subrange(0, base.len() as int) =~= base);
    }
}

proof fn lemma_strings_elements(s: Seq<Seq<char>>)
    ensures
        strings(as_elements(s)) == s,
    decreases s.len(),
{
    if s.len() > 0 {
        lemma_strings_elements(s.drop_last());
        assert(as_elements(s).drop_last() =~= as_elements(s.drop_last()));
        assert(s.drop_last().push(s.last()) =~= s);
    } else {
        assert(as_elements(s) =~= Seq::<Option<Seq<char>>>::empty());
    }
}

/// Wiring is idempotent: wiring a manifest a second time with the same
/// plugins leaves it as it is and reports no change.
pub proof fn lemma_wiring_idempotent(m: ManifestModel, specs: Seq<WireModel>, profile: Seq<char>)
    requires
        names_ascending(specs),
        wire_outcome(m, specs, profile).1 is Ok,
    ensures
        wire_outcome(wire_outcome(m, specs, profile).0, specs, profile) == (
            wire_outcome(m, specs, profile).0,
            Ok::<bool, ErrorModel>(false),
        ),
{
    let m1 = wire_outcome(m, specs, profile).0;
    let d0 = m.deps.unwrap();
    let b0 = m.bundles.unwrap();
    let (d1, c1) = apply_specs(d0, specs);
    let d2 = pruned(d1, specs);
    lemma_apply_sets(d0, specs);
    assert forall|i: int| 0 <= i < specs.len() implies dep_get(d2, #[trigger] specs[i].0) == Some(
        Some(specs[i].1),
    ) by {
        assert(has_name(specs, specs[i].0));
        lemma_pruned_get(d1, specs, specs[i].0);
    }
    lemma_apply_noop(d2, specs);
    lemma_pruned_keeps_all(d1, specs);
    lemma_pruned_identity(d2, specs);
    let t = template_of(profile);
    let mn = managed_names(specs);
    let cur = strings(b0);
    let u = users(cur, t, mn, d2);
    let nx = next_bundles(cur, t, mn, d2);
    lemma_strings_elements(nx);
    let b1 = m1.bundles.unwrap();
    assert(strings(b1) == nx);
    let base = t + u;
    lemma_append_new_shape(base, mn);
    let extra = nx.subrange(base.len() as int, nx.len() as int);
    assert(nx =~= t + u + extra);
    lemma_users_shape(cur, t, mn, d2);
    assert forall|i: int| 0 <= i < t.len() implies !user_bundle(#[trigger] t[i], t, mn, d2) by {
        assert(t.contains(t[i]));
    }
    lemma_user_filter_none(t, t, mn, d2);
    assert forall|i: int| 0 <= i < extra.len() implies !user_bundle(#[trigger] extra[i], t, mn, d2)
        by {
        assert(extra[i] == nx[i + base.len()]);
        assert(mn.contains(nx[i + base.len()]));
    }
    lemma_user_filter_none(extra, t, mn, d2);
    lemma_user_filter_all(u, t, mn, d2);
    lemma_user_filter_concat(t, u, t, mn, d2);
    lemma_user_filter_concat(t + u, extra, t, mn, d2);
    assert(user_filter(nx, t, mn, d2) =~= u);
    lemma_users_is_filter(nx, t, mn, d2);
    assert(users(nx, t, mn, d2) == u);
    assert(next_bundles(nx, t, mn, d2) == nx);
    assert forall|i: int| 0 <= i < nx.len() implies !(!t.contains(#[trigger] nx[i]) && !mn.contains(
        nx[i],
    ) && !kept_user(d2, nx[i])) by {
        if i < t.len() {
            assert(nx[i] == t[i]);
            assert(t.contains(t[i]));
        } else if i < base.len() {
            assert(nx[i] == u[i - t.len()]);
            assert(user_bundle(u[i - t.len()], t, mn, d2));
        } else {
            assert(mn.contains(nx[i]));
        }
    }
    assert(!stray(nx, t, mn, d2));
}


proof fn lemma_append_new_covers(base: Seq<Seq<char>>, ms: Seq<Seq<char>>)
    ensures
        forall|i: int| 0 <= i < ms.len() ==> append_new(base, ms).contains(#[trigger] ms[i]),
    decreases ms.len(),
{
    if ms.len() > 0 {
        lemma_append_new_covers(base, ms.drop_last());
        let r = append_new(base, ms.drop_last());
        assert forall|i: int| 0 <= i < ms.len() implies append_new(base, ms).contains(
            #[trigger] ms[i],
        ) by {
            if i < ms.len() - 1 {
                assert(ms.drop_last()[i] == ms[i]);
                assert(r.contains(ms[i]));
                if !r.contains(ms.last()) {
                    let k = choose|k: int| 0 <= k < r.len() && r[k] == ms[i];
                    assert(r.push(ms.last())[k] == ms[i]);
                }
            } else if !r.contains(ms.last()) {
                assert(r.push(ms.last())[r.len() as int] == ms.last());
            }
        }
    }
}

/// Every bundle layer the manifest lists is a template layer, the layer of
/// a wired plugin, or a package the profile depends on directly (not through
/// a shell-written spec).
pub open spec fn layers_resolve(m: ManifestModel, specs: Seq<WireModel>, profile: Seq<char>) -> bool {
    match (m.bundles, m.deps) {
        (Some(b), Some(d)) => forall|i: int|
            0 <= i < strings(b).len() ==> {
                let x = #[trigger] strings(b)[i];
                template_of(profile).contains(x) || managed_names(specs).contains(x) || kept_user(
                    d,
                    x,
                )
            },
        _ => false,
    }
}

/// Every wired plugin that declares a bundle layer is listed.
pub open spec fn layers_complete(m: ManifestModel, specs: Seq<WireModel>) -> bool {
    match m.bundles {
        Some(b) => forall|i: int|
            0 <= i < managed_names(specs).len() ==> strings(b).contains(
                #[trigger] managed_names(specs)[i],
            ),
        None => false,
    }
}

/// No dependency the shell wrote remains for a plugin that is not wired.
pub open spec fn no_orphan_deps(m: ManifestModel, specs: Seq<WireModel>) -> bool {
    match m.deps {
        Some(d) => forall|i: int| 0 <= i < d.len() ==> prune_keeps(#[trigger] d[i], specs),
        None => false,
    }
}

/// After a successful wiring every listed bundle layer can be resolved (a
/// layer that cannot crashes the kernel at boot), every wired plugin's layer
/// is listed, and the dependencies of uninstalled plugins are gone; with an
/// empty store this prunes all the shell's residue.
pub proof fn lemma_wired_layers_resolve(m: ManifestModel, specs: Seq<WireModel>, profile: Seq<char>)
    requires
        wire_outcome(m, specs, profile).1 is Ok,
    ensures
        layers_resolve(wire_outcome(m, specs, profile).0, specs, profile),
        layers_complete(wire_outcome(m, specs, profile).0, specs),
        no_orphan_deps(wire_outcome(m, specs, profile).0, specs),
{
    let out = wire_outcome(m, specs, profile).0;
    let d0 = m.deps.unwrap();
    let b0 = m.bundles.unwrap();
    let (d1, c1) = apply_specs(d0, specs);
    let d2 = pruned(d1, specs);
    lemma_pruned_keeps_all(d1, specs);
    let t = template_of(profile);
    let mn = managed_names(specs);
    let cur = strings(b0);
    let u = users(cur, t, mn, d2);
    let nx = next_bundles(cur, t, mn, d2);
    lemma_strings_elements(nx);
    let b1 = out.bundles.unwrap();
    assert(strings(b1) == nx);
    assert(out.deps == Some(d2));
    let base = t + u;
    lemma_append_new_shape(base, mn);
    lemma_append_new_covers(base, mn);
    lemma_users_shape(cur, t, mn, d2);
    assert forall|i: int| 0 <= i < nx.len() implies {
        let x = #[trigger] nx[i];
        t.contains(x) || mn.contains(x) || kept_user(d2, x)
    } by {
        if i < base.len() {
            assert(nx.subrange(0, base.len() as int)[i] == nx[i]);
            assert(base[i] == nx[i]);
            if i < t.len() {
                assert(t[i] == nx[i]);
            } else {
                assert(u[i - t.len()] == nx[i]);
                assert(user_bundle(u[i - t.len()], t, mn, d2));
            }
        }
    }
}


proof fn lemma_apply_others(d0: Seq<DepModel>, sm: Seq<WireModel>, n: Seq<char>)
    requires
        !has_name(sm, n),
    ensures
        dep_get(apply_specs(d0, sm).0, n) == dep_get(d0, n),
    decreases sm.len(),
{
    if sm.len() > 0 {
        let init = sm.drop_last();
        assert(!has_name(init, n)) by {
            if has_name(init, n) {
                let k = choose|k: int| 0 <= k < init.len() && #[trigger] init[k].0 == n;
                assert(sm[k].0 == n);
            }
        }
        lemma_apply_others(d0, init, n);
        let (d, c) = apply_specs(d0, init);
        let e = sm.last();
        assert(sm[sm.len() - 1].0 == e.0);
        assert(e.0 != n);
        lemma_get_after_set(d, e.0, Some(e.1), n);
    }
}

/// The dependency `name` exists with a value the shell did not write.
pub open spec fn user_dep(deps: Seq<DepModel>, name: Seq<char>) -> bool {
    match dep_get(deps, name) {
        Some(v) => !managed_spec(text_or_empty(v)),
        None => false,
    }
}

proof fn lemma_pruned_keeps_user(d: Seq<DepModel>, sm: Seq<WireModel>, n: Seq<char>)
    requires
        user_dep(d, n),
    ensures
        dep_get(pruned(d, sm), n) == dep_get(d, n),
    decreases d.len(),
{
    if d.len() > 0 {
        if d[0].0 == n {
            assert((seq![d[0]] + pruned(d.drop_first(), sm))[0] == d[0]);
        } else {
            lemma_pruned_keeps_user(d.drop_first(), sm, n);
            if prune_keeps(d[0], sm) {
                assert((seq![d[0]] + pruned(d.drop_first(), sm)).drop_first() =~= pruned(
                    d.drop_first(),
                    sm,
                ));
            }
        }
    }
}

/// Wiring leaves the profile's own dependencies alone: a dependency the
/// shell did not write, named after no wired plugin, keeps its value.
pub proof fn lemma_wiring_keeps_user_deps(
    m: ManifestModel,
    specs: Seq<WireModel>,
    profile: Seq<char>,
    name: Seq<char>,
)
    requires
        wire_outcome(m, specs, profile).1 is Ok,
        !has_name(specs, name),
        user_dep(m.deps.unwrap(), name),
    ensures
        dep_get(wire_outcome(m, specs, profile).0.deps.unwrap(), name) == dep_get(
            m.deps.unwrap(),
            name,
        ),
{
    let d0 = m.deps.unwrap();
    let d1 = apply_specs(d0, specs).0;
    lemma_apply_others(d0, specs, name);
    lemma_pruned_keeps_user(d1, specs, name);
}

} // verus!
