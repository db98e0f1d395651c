//! The version ranking is a total preorder, and the newest-tag pick
//! returns a semver-shaped candidate that no other semver-shaped candidate
//! outranks.
use crate::version::{
    key_order, keys_order, latest_of, semver_shaped, text_order, version_keys,
    version_order, version_pre,
};
use std::cmp::Ordering;
use vstd::prelude::*;

verus! {

proof fn lemma_key_order_flip(x: Option<nat>, y: Option<nat>)
    ensures
        (key_order(x, y) == Ordering::Greater) <==> (key_order(y, x) == Ordering::Less),
        (key_order(x, y) == Ordering::Equal) <==> x == y,
{
}

proof fn lemma_key_order_trans(x: Option<nat>, y: Option<nat>, z: Option<nat>)
    requires
        key_order(x, y) == Ordering::Less,
        key_order(y, z) == Ordering::Less,
    ensures
        key_order(x, z) == Ordering::Less,
{
}

proof fn lemma_keys_order_flip(a: Seq<Option<nat>>, b: Seq<Option<nat>>)
    ensures
        (keys_order(a, b) == Ordering::Greater) <==> (keys_order(b, a) == Ordering::Less),
        (keys_order(a, b) == Ordering::Equal) <==> a == b,
    decreases a.len(),
{
    if a.len() > 0 && b.len() > 0 {
        lemma_key_order_flip(a[0], b[0]);
        lemma_keys_order_flip(a.drop_first(), b.drop_first());
        if a[0] == b[0] && a.drop_first() == b.drop_first() {
            assert(a =~= seq![a[0]] + a.drop_first());
            assert(b =~= seq![b[0]] + b.drop_first());
        }
        if a == b {
            assert(a.drop_first() == b.drop_first());
        }
    } else if a.len() == 0 && b.len() == 0 {
        assert(a =~= b);
    }
}

proof fn lemma_keys_order_less_trans(a: Seq<Option<nat>>, b: Seq<Option<nat>>, c: Seq<Option<nat>>)
    requires
        keys_order(a, b) != Ordering::Greater,
        keys_order(b, c) != Ordering::Greater,
        keys_order(a, b) == Ordering::Less || keys_order(b, c) == Ordering::Less,
    ensures
        keys_order(a, c) == Ordering::Less,
    decreases a.len(),
{
    lemma_keys_order_flip(a, b);
    lemma_keys_order_flip(b, c);
    if keys_order(a, b) == Ordering::Equal {
        assert(a == b);
    } else if keys_order(b, c) == Ordering::Equal {
        assert(b == c);
    } else if a.len() > 0 && b.len() > 0 && c.len() > 0 {
        lemma_key_order_flip(a[0], b[0]);
        lemma_key_order_flip(b[0], c[0]);
        lemma_key_order_flip(a[0], c[0]);
        if key_order(a[0], b[0]) == Ordering::Less && key_order(b[0], c[0]) == Ordering::Less {
            lemma_key_order_trans(a[0], b[0], c[0]);
        } else if key_order(a[0], b[0]) == Ordering::Equal && key_order(b[0], c[0])
            == Ordering::Equal {
            lemma_keys_order_less_trans(a.drop_first(), b.drop_first(), c.drop_first());
        }
    }
}

proof fn lemma_text_order_flip(a: Seq<char>, b: Seq<char>)
    ensures
        (text_order(a, b) == Ordering::Greater) <==> (text_order(b, a) == Ordering::Less),
        (text_order(a, b) == Ordering::Equal) <==> a == b,
    decreases a.len(),
{
    if a.len() > 0 && b.len() > 0 {
        lemma_text_order_flip(a.drop_first(), b.drop_first());
        if a[0] == b[0] && a.drop_first() == b.drop_first() {
            assert(a =~= seq![a[0]] + a.drop_first());
            assert(b =~= seq![b[0]] + b.drop_first());
        }
        if a == b {
            assert(a.drop_first() == b.drop_first());
        }
    } else if a.len() == 0 && b.len() == 0 {
        assert(a =~= b);
    }
}

proof fn lemma_text_order_trans(a: Seq<char>, b: Seq<char>, c: Seq<char>)
    requires
        text_order(a, b) != Ordering::Greater,
        text_order(b, c) != Ordering::Greater,
    ensures
        text_order(a, c) != Ordering::Greater,
    decreases a.len(),
{
    lemma_text_order_flip(a, b);
    lemma_text_order_flip(b, c);
    if text_order(a, b) == Ordering::Equal || text_order(b, c) == Ordering::Equal {
    } else if a.len() > 0 && b.len() > 0 && c.len() > 0 {
        if a[0] == b[0] && b[0] == c[0] {
            lemma_text_order_trans(a.drop_first(), b.drop_first(), c.drop_first());
        }
    }
}

/// Versions rank as a total preorder: every version ranks equal to itself;
/// `a` outranks `b` exactly when `b` ranks below `a`; and ranking no higher
/// is transitive.
pub proof fn lemma_version_order_preorder(a: Seq<char>, b: Seq<char>, c: Seq<char>)
    ensures
        version_order(a, a) == Ordering::Equal,
        (version_order(a, b) == Ordering::Greater) <==> (version_order(b, a) == Ordering::Less),
        version_order(a, b) != Ordering::Greater && version_order(b, c) != Ordering::Greater
            ==> version_order(a, c) != Ordering::Greater,
{
    let (ka, kb, kc) = (version_keys(a), version_keys(b), version_keys(c));
    let (pa, pb, pc) = (version_pre(a), version_pre(b), version_pre(c));
    lemma_keys_order_flip(ka, ka);
    lemma_keys_order_flip(ka, kb);
    lemma_keys_order_flip(kb, ka);
    lemma_keys_order_flip(kb, kc);
    lemma_keys_order_flip(ka, kc);
    match pa {
        Some(p) => {
            lemma_text_order_flip(p, p);
        },
        None => {},
    }
    match (pa, pb) {
        (Some(p), Some(q)) => {
            lemma_text_order_flip(p, q);
            lemma_text_order_flip(q, p);
        },
        _ => {},
    }
    if version_order(a, b) != Ordering::Greater && version_order(b, c) != Ordering::Greater {
        if keys_order(ka, kb) == Ordering::Equal && keys_order(kb, kc) == Ordering::Equal {
            assert(ka == kb && kb == kc);
            match (pa, pb, pc) {
                (Some(p), Some(q), Some(r)) => {
                    lemma_text_order_trans(p, q, r);
                },
                _ => {},
            }
        } else {
            lemma_keys_order_less_trans(ka, kb, kc);
        }
    }
}

/// The pick is `None` exactly when no candidate is semver-shaped, and
/// otherwise a semver-shaped candidate.
proof fn lemma_latest_member(tags: Seq<Seq<char>>)
    ensures
        latest_of(tags) is None <==> forall|i: int| 0 <= i < tags.len() ==> !semver_shaped(#[trigger] tags[i]),
        latest_of(tags) matches Some(t) ==> semver_shaped(t) && tags.contains(t),
    decreases tags.len(),
{
    if tags.len() > 0 {
        let init = tags.drop_last();
        lemma_latest_member(init);
        assert forall|i: int| 0 <= i < init.len() implies init[i] == #[trigger] tags[i] by {}
        if latest_of(init) is None && !semver_shaped(tags.last()) {
            assert forall|i: int| 0 <= i < tags.len() implies !semver_shaped(#[trigger] tags[i]) by {
                if i < init.len() {
                    assert(init[i] == tags[i]);
                }
            }
        }
        match latest_of(tags) {
            Some(t) => {
                if t == tags.last() {
                    assert(tags[tags.len() - 1] == t);
                } else {
                    let k = choose|k: int| 0 <= k < init.len() && init[k] == t;
                    assert(tags[k] == t);
                }
            },
            None => {},
        }
    }
}

/// The newest-tag pick returns a semver-shaped candidate that no other
/// semver-shaped candidate outranks, and returns nothing exactly when no
/// candidate is semver-shaped.
pub proof fn lemma_latest_is_highest(tags: Seq<Seq<char>>)
    ensures
        latest_of(tags) is None <==> forall|i: int| 0 <= i < tags.len() ==> !semver_shaped(#[trigger] tags[i]),
        latest_of(tags) matches Some(t) ==> semver_shaped(t) && tags.contains(t) && forall|i: int|
            0 <= i < tags.len() && semver_shaped(#[trigger] tags[i]) ==> version_order(tags[i], t)
                != Ordering::Greater,
    decreases tags.len(),
{
    lemma_latest_member(tags);
    if tags.len() > 0 {
        let init = tags.drop_last();
        let last = tags.last();
        lemma_latest_is_highest(init);
        lemma_latest_member(init);
        match latest_of(tags) {
            Some(t) => {
                assert forall|i: int|
                    0 <= i < tags.len() && semver_shaped(#[trigger] tags[i]) implies version_order(
                    tags[i],
                    t,
                ) != Ordering::Greater by {
                    lemma_version_order_preorder(tags[i], tags[i], tags[i]);
                    if i < init.len() {
                        assert(init[i] == tags[i]);
                        match latest_of(init) {
                            Some(b) => {
                                if semver_shaped(last) {
                                    lemma_version_order_preorder(tags[i], b, last);
                                    lemma_version_order_preorder(b, last, last);
                                }
                            },
                            None => {},
                        }
                    } else {
                        match latest_of(init) {
                            Some(b) => {
                                lemma_version_order_preorder(b, last, last);
                                lemma_version_order_preorder(last, b, b);
                            },
                            None => {},
                        }
                    }
                }
            },
            None => {},
        }
    }
}

} // verus!
