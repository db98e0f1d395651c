//! The plugin store inventory (`store.json`): its items and the lookup,
//! insert-or-replace and removal operations on it.
use crate::install_spec::{copy_opt, opt_text};
use crate::text::{item, lemma_suffix_next, lemma_suffix_zero, prefix, str_is, suffix};
use vstd::prelude::*;

verus! {

/// One installed plugin in the store.
#[derive(Debug, Clone)]
pub struct StoreItem {
    /// Filesystem-safe plugin key.
    pub id: String,
    /// Display name (npm package name or repo shorthand).
    pub name: String,
    /// Fetch origin: npm or git.
    pub origin: String,
    /// npm package name or git URL.
    pub source: String,
    pub installed_version: String,
    /// Latest known version, refreshed by the update check.
    pub latest_version: Option<String>,
    /// Desired materialization mode: link or copy.
    pub mode: String,
    /// Whether the source pins a version (npm @version / git #tag).
    pub pinned: bool,
    /// Seconds since epoch, for display.
    pub installed_at: String,
    /// Seconds since epoch of the last fetch, for display.
    pub updated_at: String,
    /// Human-facing repo URL for git-origin plugins.
    pub repo_url: Option<String>,
    pub description: Option<String>,
}

/// A store item as mathematical text.
pub struct ItemModel {
    pub id: Seq<char>,
    pub name: Seq<char>,
    pub origin: Seq<char>,
    pub source: Seq<char>,
    pub installed_version: Seq<char>,
    pub latest_version: Option<Seq<char>>,
    pub mode: Seq<char>,
    pub pinned: bool,
    pub installed_at: Seq<char>,
    pub updated_at: Seq<char>,
    pub repo_url: Option<Seq<char>>,
    pub description: Option<Seq<char>>,
}

impl View for StoreItem {
    type V = ItemModel;

    open spec fn view(&self) -> ItemModel {
        ItemModel {
            id: self.id@,
            name: self.name@,
            origin: self.origin@,
            source: self.source@,
            installed_version: self.installed_version@,
            latest_version: opt_text(self.latest_version),
            mode: self.mode@,
            pinned: self.pinned,
            installed_at: self.installed_at@,
            updated_at: self.updated_at@,
            repo_url: opt_text(self.repo_url),
            description: opt_text(self.description),
        }
    }
}

impl StoreItem {
    /// A field-by-field copy.
    pub fn duplicate(&self) -> (r: StoreItem)
        ensures
            r@ == self@,
    {
        StoreItem {
            id: self.id.clone(),
            name: self.name.clone(),
            origin: self.origin.clone(),
            source: self.source.clone(),
            installed_version: self.installed_version.clone(),
            latest_version: copy_opt(&self.latest_version),
            mode: self.mode.clone(),
            pinned: self.pinned,
            installed_at: self.installed_at.clone(),
            updated_at: self.updated_at.clone(),
            repo_url: copy_opt(&self.repo_url),
            description: copy_opt(&self.description),
        }
    }
}

impl Default for StoreItem {
    fn default() -> (it: Self)
        ensures
            it@.id == Seq::<char>::empty(),
            it@.name == Seq::<char>::empty(),
            it@.origin == "npm"@,
            it@.source == Seq::<char>::empty(),
            it@.installed_version == Seq::<char>::empty(),
            it@.latest_version is None,
            it@.mode == "link"@,
            !it@.pinned,
            it@.installed_at == Seq::<char>::empty(),
            it@.updated_at == Seq::<char>::empty(),
            it@.repo_url is None,
            it@.description is None,
    {
        StoreItem {
            id: String::new(),
            name: String::new(),
            origin: String::from_str("npm"),
            source: String::new(),
            installed_version: String::new(),
            latest_version: None,
            mode: String::from_str("link"),
            pinned: false,
            installed_at: String::new(),
            updated_at: String::new(),
            repo_url: None,
            description: None,
        }
    }
}

/// The persisted store document.
#[derive(Debug, Clone)]
pub struct Store {
    pub schema_version: u32,
    pub items: Vec<StoreItem>,
    pub last_checked_at: Option<String>,
    /// Last wiring/install failure surfaced to the UI, if any.
    pub warning: Option<String>,
}

/// The store's items as mathematical values.
pub open spec fn items_of(s: Seq<StoreItem>) -> Seq<ItemModel> {
    s.map_values(|it: StoreItem| it@)
}

impl Default for Store {
    fn default() -> (s: Self)
        ensures
            s.schema_version == 1,
            s.items@.len() == 0,
            s.last_checked_at is None,
            s.warning is None,
    {
        Store { schema_version: 1, items: Vec::new(), last_checked_at: None, warning: None }
    }
}

/// The first item with the given id.
pub open spec fn lookup(items: Seq<ItemModel>, id: Seq<char>) -> Option<ItemModel>
    decreases items.len(),
{
    if items.len() == 0 {
        None
    } else if items[0].id == id {
        Some(items[0])
    } else {
        lookup(items.drop_first(), id)
    }
}

/// The items with the first one of the same id replaced by `it`, or with
/// `it` appended when no item has its id.
pub open spec fn upserted(items: Seq<ItemModel>, it: ItemModel) -> Seq<ItemModel>
    decreases items.len(),
{
    if items.len() == 0 {
        seq![it]
    } else if items[0].id == it.id {
        seq![it] + items.drop_first()
    } else {
        seq![items[0]] + upserted(items.drop_first(), it)
    }
}

/// The items without any whose id is `id`.
pub open spec fn removed(items: Seq<ItemModel>, id: Seq<char>) -> Seq<ItemModel>
    decreases items.len(),
{
    if items.len() == 0 {
        items
    } else if items[0].id == id {
        removed(items.drop_first(), id)
    } else {
        seq![items[0]] + removed(items.drop_first(), id)
    }
}

/// No two items share an id.
pub open spec fn ids_unique(items: Seq<ItemModel>) -> bool {
    forall|i: int, j: int|
        0 <= i < items.len() && 0 <= j < items.len() && i != j ==> items[i].id != items[j].id
}

/// The store item with the given id.
pub fn store_item(store: &Store, id: &str) -> (r: Option<StoreItem>)
    ensures
        r matches Some(it) ==> lookup(items_of(store.items@), id@) == Some(it@),
        r is None ==> lookup(items_of(store.items@), id@) is None,
{
    let ghost all = items_of(store.items@);
    proof {
        lemma_suffix_zero(all);
    }
    let mut i: usize = 0;
    while i < store.items.len()
        invariant
            i <= store.items@.len(),
            all == items_of(store.items@),
            lookup(all, id@) == lookup(suffix(all, i), id@),
        decreases store.items.len() - i,
    {
        proof {
            lemma_suffix_next(all, i);
        }
        assert(item(all, i) == item(store.items@, i)@);
        if str_is(store.items[i].id.as_str(), id) {
            return Some(store.items[i].duplicate());
        }
        i = i + 1;
    }
    None
}


/// Insert `it`, replacing the first item with the same id.
pub fn upsert_item(store: &mut Store, it: StoreItem)
    ensures
        items_of(final(store).items@) == upserted(items_of(old(store).items@), it@),
        final(store).schema_version == old(store).schema_version,
        final(store).last_checked_at == old(store).last_checked_at,
        final(store).warning == old(store).warning,
{
    let ghost all = items_of(store.items@);
    let ghost m = it@;
    assert(prefix(all, 0) + suffix(all, 0) =~= all);
    let mut i: usize = 0;
    while i < store.items.len()
        invariant
            i <= store.items@.len(),
            all == items_of(store.items@),
            store.schema_version == old(store).schema_version,
            store.last_checked_at == old(store).last_checked_at,
            store.warning == old(store).warning,
            all == items_of(old(store).items@),
            m == it@,
            upserted(all, m) == prefix(all, i) + upserted(suffix(all, i), m),
        decreases store.items.len() - i,
    {
        proof {
            lemma_suffix_next(all, i);
        }
        assert(item(all, i) == item(store.items@, i)@);
        if str_is(store.items[i].id.as_str(), it.id.as_str()) {
            let ghost before = store.items@;
            store.items.set(i, it);
            proof {
                assert(items_of(store.items@) =~= prefix(all, i) + (seq![m] + suffix(
                    all,
                    (i + 1) as usize,
                )));
            }
            return;
        }
        proof {
            assert(prefix(all, (i + 1) as usize) =~= prefix(all, i) + seq![item(all, i)]);
        }
        i = i + 1;
    }
    assert(suffix(all, i).len() == 0);
    store.items.push(it);
    assert(items_of(store.items@) =~= prefix(all, i) + seq![m]);
}

/// Drop every item with the given id.
pub fn remove_item(store: &mut Store, id: &str)
    ensures
        items_of(final(store).items@) == removed(items_of(old(store).items@), id@),
        final(store).schema_version == old(store).schema_version,
        final(store).last_checked_at == old(store).last_checked_at,
        final(store).warning == old(store).warning,
{
    let ghost all = items_of(store.items@);
    proof {
        lemma_suffix_zero(all);
    }
    let mut kept: Vec<StoreItem> = Vec::new();
    let mut i: usize = 0;
    while i < store.items.len()
        invariant
            i <= store.items@.len(),
            all == items_of(store.items@),
            removed(all, id@) == items_of(kept@) + removed(suffix(all, i), id@),
        decreases store.items.len() - i,
    {
        proof {
            lemma_suffix_next(all, i);
        }
        assert(item(all, i) == item(store.items@, i)@);
        if !str_is(store.items[i].id.as_str(), id) {
            let copy = store.items[i].duplicate();
            kept.push(copy);
            assert(items_of(kept@) =~= items_of(kept@.drop_last()) + seq![item(all, i)]);
        }
        i = i + 1;
    }
    assert(suffix(all, i).len() == 0);
    assert(items_of(kept@) =~= items_of(kept@) + removed(suffix(all, i), id@));
    store.items = kept;
}


/// Looking up an id right after inserting an item with that id gives back
/// that item.
pub proof fn lemma_lookup_after_upsert(items: Seq<ItemModel>, it: ItemModel)
    ensures
        lookup(upserted(items, it), it.id) == Some(it),
    decreases items.len(),
{
    if items.len() > 0 && items[0].id != it.id {
        lemma_lookup_after_upsert(items.drop_first(), it);
        assert((seq![items[0]] + upserted(items.drop_first(), it)).drop_first() =~= upserted(
            items.drop_first(),
            it,
        ));
    }
}

/// Inserting an item leaves the lookup of every other id unchanged.
pub proof fn lemma_upsert_keeps_others(items: Seq<ItemModel>, it: ItemModel, id: Seq<char>)
    requires
        id != it.id,
    ensures
        lookup(upserted(items, it), id) == lookup(items, id),
    decreases items.len(),
{
    if items.len() == 0 {
        assert(upserted(items, it).drop_first() =~= Seq::<ItemModel>::empty());
        assert(lookup(Seq::<ItemModel>::empty(), id) is None);
    } else if items[0].id == it.id {
        assert((seq![it] + items.drop_first()).drop_first() =~= items.drop_first());
    } else {
        lemma_upsert_keeps_others(items.drop_first(), it, id);
        assert((seq![items[0]] + upserted(items.drop_first(), it)).drop_first() =~= upserted(
            items.drop_first(),
            it,
        ));
    }
}

/// After removing an id, no item has it.
pub proof fn lemma_lookup_after_remove(items: Seq<ItemModel>, id: Seq<char>)
    ensures
        lookup(removed(items, id), id) is None,
    decreases items.len(),
{
    if items.len() > 0 {
        lemma_lookup_after_remove(items.drop_first(), id);
        if items[0].id != id {
            assert((seq![items[0]] + removed(items.drop_first(), id)).drop_first()
                =~= removed(items.drop_first(), id));
        }
    }
}

/// Removing an id leaves the lookup of every other id unchanged.
pub proof fn lemma_remove_keeps_others(items: Seq<ItemModel>, id: Seq<char>, other: Seq<char>)
    requires
        other != id,
    ensures
        lookup(removed(items, id), other) == lookup(items, other),
    decreases items.len(),
{
    if items.len() > 0 {
        lemma_remove_keeps_others(items.drop_first(), id, other);
        if items[0].id != id {
            assert((seq![items[0]] + removed(items.drop_first(), id)).drop_first()
                =~= removed(items.drop_first(), id));
        }
    }
}

/// Whether some item has the id.
pub open spec fn has_id(items: Seq<ItemModel>, id: Seq<char>) -> bool {
    exists|k: int| 0 <= k < items.len() && items[k].id == id
}

proof fn lemma_upserted_ids(items: Seq<ItemModel>, it: ItemModel, id: Seq<char>)
    ensures
        has_id(upserted(items, it), id) <==> (has_id(items, id) || id == it.id),
    decreases items.len(),
{
    if items.len() == 0 {
        assert(upserted(items, it)[0] == it);
    } else if items[0].id == it.id {
        let u = seq![it] + items.drop_first();
        if has_id(items, id) {
            let k = choose|k: int| 0 <= k < items.len() && items[k].id == id;
            assert(u[k].id == id);
        }
        if has_id(u, id) {
            let k = choose|k: int| 0 <= k < u.len() && u[k].id == id;
            assert(items[k].id == id || k == 0);
        }
        assert(u[0] == it);
    } else {
        let rest = upserted(items.drop_first(), it);
        lemma_upserted_ids(items.drop_first(), it, id);
        let u = seq![items[0]] + rest;
        if has_id(items, id) {
            let k = choose|k: int| 0 <= k < items.len() && items[k].id == id;
            if k > 0 {
                assert(items.drop_first()[k - 1].id == id);
                let k2 = choose|k2: int| 0 <= k2 < rest.len() && rest[k2].id == id;
                assert(u[k2 + 1].id == id);
            } else {
                assert(u[0].id == id);
            }
        }
        if id == it.id {
            let k2 = choose|k2: int| 0 <= k2 < rest.len() && rest[k2].id == id;
            assert(u[k2 + 1].id == id);
        }
        if has_id(u, id) {
            let k = choose|k: int| 0 <= k < u.len() && u[k].id == id;
            if k > 0 {
                assert(rest[k - 1].id == id);
                if has_id(items.drop_first(), id) {
                    let k3 = choose|k3: int|
                        0 <= k3 < items.drop_first().len() && items.drop_first()[k3].id == id;
                    assert(items[k3 + 1].id == id);
                }
            } else {
                assert(items[0].id == id);
            }
        }
    }
}

/// Inserting keeps ids unique.
pub proof fn lemma_upsert_keeps_ids_unique(items: Seq<ItemModel>, it: ItemModel)
    requires
        ids_unique(items),
    ensures
        ids_unique(upserted(items, it)),
    decreases items.len(),
{
    if items.len() == 0 {
    } else if items[0].id == it.id {
        let u = seq![it] + items.drop_first();
        assert forall|i: int, j: int|
            0 <= i < u.len() && 0 <= j < u.len() && i != j implies u[i].id != u[j].id by {
            if i > 0 && j > 0 {
                assert(u[i] == items[i] && u[j] == items[j]);
            } else if i == 0 {
                assert(u[j] == items[j]);
                assert(items[0].id != items[j].id);
            } else {
                assert(u[i] == items[i]);
                assert(items[0].id != items[i].id);
            }
        }
    } else {
        let tail = items.drop_first();
        assert(ids_unique(tail)) by {
            assert forall|i: int, j: int|
                0 <= i < tail.len() && 0 <= j < tail.len() && i != j implies tail[i].id
                != tail[j].id by {
                assert(tail[i] == items[i + 1] && tail[j] == items[j + 1]);
            }
        }
        lemma_upsert_keeps_ids_unique(tail, it);
        let rest = upserted(tail, it);
        let u = seq![items[0]] + rest;
        lemma_upserted_ids(tail, it, items[0].id);
        if has_id(tail, items[0].id) {
            let k = choose|k: int| 0 <= k < tail.len() && tail[k].id == items[0].id;
            assert(items[k + 1].id == items[0].id);
        }
        assert forall|i: int, j: int|
            0 <= i < u.len() && 0 <= j < u.len() && i != j implies u[i].id != u[j].id by {
            if i > 0 && j > 0 {
                assert(u[i] == rest[i - 1] && u[j] == rest[j - 1]);
            } else if i == 0 {
                assert(u[j] == rest[j - 1]);
                if rest[j - 1].id == items[0].id {
                    assert(has_id(rest, items[0].id));
                }
            } else {
                assert(u[i] == rest[i - 1]);
                if rest[i - 1].id == items[0].id {
                    assert(has_id(rest, items[0].id));
                }
            }
        }
    }
}


proof fn lemma_removed_ids(items: Seq<ItemModel>, id: Seq<char>, x: Seq<char>)
    ensures
        has_id(removed(items, id), x) ==> has_id(items, x) && x != id,
    decreases items.len(),
{
    if items.len() > 0 {
        let tail = items.drop_first();
        lemma_removed_ids(tail, id, x);
        let rest = removed(tail, id);
        if has_id(rest, x) {
            let k = choose|k: int| 0 <= k < tail.len() && tail[k].id == x;
            assert(items[k + 1].id == x);
        }
        if items[0].id != id {
            let r = seq![items[0]] + rest;
            if has_id(r, x) {
                let k = choose|k: int| 0 <= k < r.len() && r[k].id == x;
                if k > 0 {
                    assert(rest[k - 1].id == x);
                } else {
                    assert(items[0].id == x);
                }
            }
        }
    }
}

/// Removing keeps ids unique.
pub proof fn lemma_remove_keeps_ids_unique(items: Seq<ItemModel>, id: Seq<char>)
    requires
        ids_unique(items),
    ensures
        ids_unique(removed(items, id)),
    decreases items.len(),
{
    if items.len() > 0 {
        let tail = items.drop_first();
        assert(ids_unique(tail)) by {
            assert forall|i: int, j: int|
                0 <= i < tail.len() && 0 <= j < tail.len() && i != j implies tail[i].id
                != tail[j].id by {
                assert(tail[i] == items[i + 1] && tail[j] == items[j + 1]);
            }
        }
        lemma_remove_keeps_ids_unique(tail, id);
        if items[0].id != id {
            let rest = removed(tail, id);
            let r = seq![items[0]] + rest;
            lemma_removed_ids(tail, id, items[0].id);
            if has_id(tail, items[0].id) {
                let k = choose|k: int| 0 <= k < tail.len() && tail[k].id == items[0].id;
                assert(items[k + 1].id == items[0].id);
            }
            assert forall|i: int, j: int|
                0 <= i < r.len() && 0 <= j < r.len() && i != j implies r[i].id != r[j].id by {
                if i > 0 && j > 0 {
                    assert(r[i] == rest[i - 1] && r[j] == rest[j - 1]);
                } else if i == 0 {
                    if rest[j - 1].id == items[0].id {
                        assert(has_id(rest, items[0].id));
                    }
                } else {
                    if rest[i - 1].id == items[0].id {
                        assert(has_id(rest, items[0].id));
                    }
                }
            }
        }
    }
}


/// Upserting an item whose id the store already holds replaces it in
/// place: the store keeps its size.
pub proof fn lemma_upsert_existing_keeps_len(items: Seq<ItemModel>, it: ItemModel)
    requires
        lookup(items, it.id) is Some,
    ensures
        upserted(items, it).len() == items.len(),
    decreases items.len(),
{
    if items.len() > 0 && items[0].id != it.id {
        lemma_upsert_existing_keeps_len(items.drop_first(), it);
    }
}

} // verus!
