//! Materializing a store plugin into one kernel's plugins directory, as a
//! link to the store entry or as a copy of it: what to keep, what to
//! rebuild, which mode results and what the kernel's metadata records.
use crate::error::{AppError, ErrorModel};
use crate::store::{ItemModel, StoreItem};
use crate::text::{from_chars, push_all, str_is, to_chars};
use vstd::prelude::*;

verus! {

/// Per-kernel materialization record (`.meta/<id>.json`).
#[derive(Debug, Clone)]
pub struct KernelMeta {
    /// Actual mode on disk: link or copy.
    pub mode: String,
    /// The store version this materialization reflects.
    pub version: String,
    pub synced_at: String,
}

/// A materialization record as text.
pub struct MetaModel {
    pub mode: Seq<char>,
    pub version: Seq<char>,
    pub synced_at: Seq<char>,
}

impl View for KernelMeta {
    type V = MetaModel;

    open spec fn view(&self) -> MetaModel {
        MetaModel { mode: self.mode@, version: self.version@, synced_at: self.synced_at@ }
    }
}

pub open spec fn meta_model(m: Option<KernelMeta>) -> Option<MetaModel> {
    match m {
        Some(k) => Some(k@),
        None => None,
    }
}

/// The record says the kernel holds this version of the plugin in the
/// desired mode.
pub open spec fn fresh(item: ItemModel, meta: Option<MetaModel>) -> bool {
    match meta {
        Some(m) => m.version == item.installed_version && m.mode == item.mode,
        None => false,
    }
}

/// What to do with a plugin's materialization in one kernel.
#[derive(Debug)]
pub enum Materialize {
    /// The recorded materialization is current and its link points at the
    /// store entry: nothing to redo; the kernel holds it in this mode.
    Keep(String),
    /// Clear whatever the kernel holds for the plugin, then link the store
    /// entry when `link`, otherwise lay out the plugin in its desired mode.
    Rebuild { link: bool },
}

/// The decision before touching the kernel directory. `target_exists`:
/// the kernel plugin directory exists; `target_links_source`: it is a
/// symbolic link whose target is the (resolved) store entry.
pub open spec fn materialize_choice(
    item: ItemModel,
    meta: Option<MetaModel>,
    target_exists: bool,
    target_links_source: bool,
) -> Option<Seq<char>> {
    if fresh(item, meta) && target_exists && target_links_source {
        match meta {
            Some(m) => Some(m.mode),
            None => Some(item.mode),
        }
    } else {
        None
    }
}

fn meta_is_fresh(item: &StoreItem, meta: &Option<KernelMeta>) -> (b: bool)
    ensures
        b == fresh(item@, meta_model(*meta)),
{
    match meta {
        Some(m) => str_is(m.version.as_str(), item.installed_version.as_str()) && str_is(
            m.mode.as_str(),
            item.mode.as_str(),
        ),
        None => false,
    }
}

/// Keep a current, correctly linked materialization; rebuild any other.
pub fn materialize_plan(
    item: &StoreItem,
    meta: &Option<KernelMeta>,
    target_exists: bool,
    target_links_source: bool,
) -> (r: Materialize)
    ensures
        r matches Materialize::Keep(m) ==> materialize_choice(
            item@,
            meta_model(*meta),
            target_exists,
            target_links_source,
        ) == Some(m@),
        r matches Materialize::Rebuild { link } ==> materialize_choice(
            item@,
            meta_model(*meta),
            target_exists,
            target_links_source,
        ) is None && link == (item@.mode == "link"@),
{
    if meta_is_fresh(item, meta) && target_exists && target_links_source {
        match meta {
            Some(m) => Materialize::Keep(m.mode.clone()),
            None => Materialize::Keep(item.mode.clone()),
        }
    } else {
        Materialize::Rebuild { link: str_is(item.mode.as_str(), "link") }
    }
}

/// The mode a rebuild ends in: a link mode whose link could not be made
/// falls back to a copy; otherwise the desired mode.
pub open spec fn placed_mode(item_mode: Seq<char>, link_ok: bool) -> Seq<char> {
    if item_mode == "link"@ && !link_ok {
        "copy"@
    } else {
        item_mode
    }
}

/// The mode of a rebuilt materialization and whether the store entry must
/// be copied into the kernel (`link_ok`: the link was made; ignored when the
/// desired mode is not link).
pub fn placement(item: &StoreItem, link_ok: bool) -> (r: (String, bool))
    ensures
        r.0@ == placed_mode(item@.mode, link_ok),
        r.1 == (placed_mode(item@.mode, link_ok) == "copy"@),
{
    let actual = if str_is(item.mode.as_str(), "link") && !link_ok {
        String::from_str("copy")
    } else {
        item.mode.clone()
    };
    let copy = str_is(actual.as_str(), "copy");
    (actual, copy)
}

/// The outcome of a rebuild: the copy's error, then the target's presence,
/// decide; on success the record to write for the kernel.
pub open spec fn rebuild_outcome(
    item: ItemModel,
    version: Seq<char>,
    actual: Seq<char>,
    copy_error: Option<Seq<char>>,
    target_exists: bool,
    synced_at: Seq<char>,
) -> Result<MetaModel, ErrorModel> {
    match copy_error {
        Some(e) => Err(ErrorModel::Io("复制插件到内核失败："@ + e)),
        None => if !target_exists {
            Err(
                ErrorModel::Plugin(
                    "物化失败："@ + item.id + " 在内核 "@ + version + " 中未就绪"@,
                ),
            )
        } else {
            Ok(MetaModel { mode: actual, version: item.installed_version, synced_at })
        },
    }
}

/// Checks a rebuilt materialization and produces the record to write.
pub fn rebuild_result(
    item: &StoreItem,
    version: &str,
    actual: &str,
    copy_error: Option<String>,
    target_exists: bool,
    synced_at: String,
) -> (r: Result<KernelMeta, AppError>)
    ensures
        (match r {
            Ok(m) => Ok(m@),
            Err(e) => Err(e@),
        }) == rebuild_outcome(
            item@,
            version@,
            actual@,
            match copy_error {
                Some(e) => Some(e@),
                None => None,
            },
            target_exists,
            synced_at@,
        ),
{
    match copy_error {
        Some(e) => {
            let mut msg = to_chars("复制插件到内核失败：");
            let ev = to_chars(e.as_str());
            push_all(&mut msg, &ev);
            Err(AppError::Io(from_chars(&msg)))
        },
        None => {
            if !target_exists {
                let mut msg = to_chars("物化失败：");
                let id = to_chars(item.id.as_str());
                push_all(&mut msg, &id);
                let a = to_chars(" 在内核 ");
                push_all(&mut msg, &a);
                let v = to_chars(version);
                push_all(&mut msg, &v);
                let b = to_chars(" 中未就绪");
                push_all(&mut msg, &b);
                Err(AppError::Plugin(from_chars(&msg)))
            } else {
                Ok(
                    KernelMeta {
                        mode: actual.to_string(),
                        version: item.installed_version.clone(),
                        synced_at,
                    },
                )
            }
        },
    }
}


/// A rebuild that ends in the desired mode records the installed version
/// in that mode; the next sync then keeps the materialization as it is, as
/// long as the kernel's directory links the store entry.
pub proof fn lemma_rebuild_then_keep(
    item: ItemModel,
    version: Seq<char>,
    synced_at: Seq<char>,
)
    ensures
        rebuild_outcome(item, version, item.mode, None, true, synced_at) == Ok::<MetaModel, ErrorModel>(
            MetaModel { mode: item.mode, version: item.installed_version, synced_at },
        ),
        materialize_choice(
            item,
            Some(MetaModel { mode: item.mode, version: item.installed_version, synced_at }),
            true,
            true,
        ) == Some(item.mode),
{
}

} // verus!
