//! The store side of the plugin operations: what install, update,
//! uninstall and mode switches check and change in the inventory, and how a
//! background wiring run is recorded for the UI.
use crate::error::{AppError, ErrorModel};
use crate::install_spec::{opt_text, parse_spec, parsed_spec, PluginSpec, PluginSpecModel};
use crate::store::{
    items_of, lemma_lookup_after_remove, lemma_lookup_after_upsert, lookup, remove_item,
    removed, store_item, upsert_item, upserted, ItemModel, Store, StoreItem,
};
use crate::ranking::lemma_version_order_preorder;
use crate::status::has_update;
use crate::text::{from_chars, push_all, str_is, to_chars};
use vstd::prelude::*;

verus! {

proof fn lemma_lookup_has_id(items: Seq<ItemModel>, id: Seq<char>)
    ensures
        lookup(items, id) matches Some(x) ==> x.id == id,
    decreases items.len(),
{
    if items.len() > 0 && items[0].id != id {
        lemma_lookup_has_id(items.drop_first(), id);
    }
}

/// The error for an id the store does not hold.
pub open spec fn not_in_store() -> ErrorModel {
    ErrorModel::Plugin("插件不在中央库中"@)
}

/// Checks an install request against the store: the request must parse,
/// and no installed plugin may have its id. Returns what to fetch.
pub fn install(store: &Store, spec_str: &str) -> (r: Result<PluginSpec, AppError>)
    ensures
        parsed_spec(spec_str@) matches Err(e) ==> (r matches Err(x) && x@ == e),
        parsed_spec(spec_str@) matches Ok(p) ==> if lookup(items_of(store.items@), p.id) is Some {
            r matches Err(x) && x@ == ErrorModel::Plugin(p.name + " 已安装，请使用「更新」"@)
        } else {
            r matches Ok(q) && q@ == p
        },
{
    let spec = parse_spec(spec_str)?;
    match store_item(store, spec.id.as_str()) {
        Some(_) => {
            let mut msg = to_chars(spec.name.as_str());
            let tail = to_chars(" 已安装，请使用「更新」");
            push_all(&mut msg, &tail);
            Err(AppError::Plugin(from_chars(&msg)))
        },
        None => Ok(spec),
    }
}

/// The install mode asked for: `copy`, or `link` for anything else.
pub open spec fn chosen_mode(mode: Seq<char>) -> Seq<char> {
    if mode == "copy"@ {
        "copy"@
    } else {
        "link"@
    }
}

/// A freshly fetched item in the install mode asked for.
pub fn installed_item(fetched: StoreItem, mode: &str) -> (r: StoreItem)
    ensures
        r@ == (ItemModel { mode: chosen_mode(mode@), ..fetched@ }),
{
    let mut item = fetched;
    item.mode = if str_is(mode, "copy") {
        String::from_str("copy")
    } else {
        String::from_str("link")
    };
    item
}

/// A link-mode plugin resolves its own dependencies inside the store.
pub fn wants_store_deps(item: &StoreItem) -> (b: bool)
    ensures
        b == (item@.mode == "link"@),
{
    str_is(item.mode.as_str(), "link")
}

/// Checks an update request: the plugin must be in the store and not
/// pinned, and its source must parse again. Returns the current item and
/// what to fetch, under the item's own id, so the update replaces the item
/// rather than adding one.
pub fn update(store: &Store, id: &str) -> (r: Result<(StoreItem, PluginSpec), AppError>)
    ensures
        lookup(items_of(store.items@), id@) is None ==> (r matches Err(x) && x@ == not_in_store()),
        lookup(items_of(store.items@), id@) matches Some(it) ==> if it.pinned {
            r matches Err(x) && x@ == ErrorModel::Plugin(
                it.name + " 已锁定版本 "@ + it.installed_version + "，如需升级请重新安装（不带版本号）"@,
            )
        } else {
            match parsed_spec(it.source) {
                Err(e) => r matches Err(x) && x@ == e,
                Ok(p) => r matches Ok((cur, q)) && cur@ == it && q@ == (PluginSpecModel {
                    id: it.id,
                    ..p
                }),
            }
        },
{
    let item = match store_item(store, id) {
        None => {
            return Err(AppError::Plugin(String::from_str("插件不在中央库中")));
        },
        Some(it) => it,
    };
    if item.pinned {
        let mut msg = to_chars(item.name.as_str());
        let a = to_chars(" 已锁定版本 ");
        push_all(&mut msg, &a);
        let v = to_chars(item.installed_version.as_str());
        push_all(&mut msg, &v);
        let b = to_chars("，如需升级请重新安装（不带版本号）");
        push_all(&mut msg, &b);
        return Err(AppError::Plugin(from_chars(&msg)));
    }
    let mut spec = parse_spec(item.source.as_str())?;
    spec.id = item.id.clone();
    Ok((item, spec))
}

/// A re-fetched item keeps the mode of the item it replaces, and its latest
/// version is what was just installed (so the update badge clears).
pub fn updated_item(fetched: StoreItem, previous: &StoreItem) -> (r: StoreItem)
    ensures
        r@ == (ItemModel {
            mode: previous@.mode,
            latest_version: Some(fetched@.installed_version),
            ..fetched@
        }),
{
    let mut item = fetched;
    item.mode = previous.mode.clone();
    item.latest_version = Some(item.installed_version.clone());
    item
}

/// Removes a plugin from the store; refused, with the store unchanged, when
/// the store does not hold it. Afterwards no item has the id.
pub fn uninstall(store: &mut Store, id: &str) -> (r: Result<(), AppError>)
    ensures
        lookup(items_of(old(store).items@), id@) is None ==> (r matches Err(x) && x@
            == not_in_store() && final(store).items@ == old(store).items@),
        lookup(items_of(old(store).items@), id@) is Some ==> (r is Ok && items_of(final(store).items@)
            == removed(items_of(old(store).items@), id@)),
        lookup(items_of(final(store).items@), id@) is None,
        final(store).schema_version == old(store).schema_version,
        final(store).last_checked_at == old(store).last_checked_at,
        final(store).warning == old(store).warning,
{
    match store_item(store, id) {
        None => Err(AppError::Plugin(String::from_str("插件不在中央库中"))),
        Some(_) => {
            remove_item(store, id);
            proof {
                lemma_lookup_after_remove(items_of(old(store).items@), id@);
            }
            Ok(())
        },
    }
}

/// Switches a plugin's desired mode: `link` or `copy` only, for a plugin
/// in the store; the store is unchanged on refusal. Returns the updated
/// item, which the store then holds.
pub fn set_mode(store: &mut Store, id: &str, mode: &str) -> (r: Result<StoreItem, AppError>)
    ensures
        mode@ != "link"@ && mode@ != "copy"@ ==> (r matches Err(x) && x@ == ErrorModel::Plugin(
            "模式只能是 link 或 copy"@,
        ) && final(store).items@ == old(store).items@),
        mode@ == "link"@ || mode@ == "copy"@ ==> match lookup(items_of(old(store).items@), id@) {
            None => r matches Err(x) && x@ == not_in_store() && final(store).items@ == old(
                store,
            ).items@,
            Some(it) => r matches Ok(n) && n@ == (ItemModel { mode: mode@, ..it }) && items_of(
                final(store).items@,
            ) == upserted(items_of(old(store).items@), n@) && lookup(
                items_of(final(store).items@),
                id@,
            ) == Some(n@),
        },
        final(store).schema_version == old(store).schema_version,
        final(store).last_checked_at == old(store).last_checked_at,
        final(store).warning == old(store).warning,
{
    if !str_is(mode, "link") && !str_is(mode, "copy") {
        return Err(AppError::Plugin(String::from_str("模式只能是 link 或 copy")));
    }
    let mut item = match store_item(store, id) {
        None => {
            return Err(AppError::Plugin(String::from_str("插件不在中央库中")));
        },
        Some(it) => it,
    };
    item.mode = mode.to_string();
    let copy = item.duplicate();
    upsert_item(store, copy);
    proof {
        lemma_lookup_has_id(items_of(old(store).items@), id@);
        lemma_lookup_after_upsert(items_of(old(store).items@), item@);
    }
    Ok(item)
}

/// Records a background wiring run in the store for the UI: success clears
/// the warning, a failure becomes the warning and is passed on as text.
pub fn ensure_wiring_quiet(store: &mut Store, outcome: &Result<(usize, bool), AppError>) -> (r: Result<
    (),
    String,
>)
    ensures
        outcome is Ok ==> (r is Ok && final(store).warning is None),
        outcome matches Err(e) ==> (r matches Err(m) && opt_text(final(store).warning) == Some(
            m@,
        ) && m@ == e.message_text()),
        final(store).items@ == old(store).items@,
        final(store).schema_version == old(store).schema_version,
        final(store).last_checked_at == old(store).last_checked_at,
{
    match outcome {
        Ok(_) => {
            store.warning = None;
            Ok(())
        },
        Err(e) => {
            let m = e.message();
            store.warning = Some(m.clone());
            Err(m)
        },
    }
}


/// An updated item's latest version is the version it has installed, and
/// that never counts as an update: the UI's update badge clears as soon as
/// an update lands.
pub proof fn lemma_update_clears_badge(it: ItemModel)
    ensures
        !has_update(ItemModel { latest_version: Some(it.installed_version), ..it }),
{
    lemma_version_order_preorder(it.installed_version, it.installed_version, it.installed_version);
}

} // verus!
