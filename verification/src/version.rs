//! Version strings: the semver-shape test, the ordering used to rank
//! versions and tags, and the newest-tag pick.
use crate::text::{
    find, find_char, lemma_find_char_bounds, parse_unsigned, parse_unsigned_chars,
    slice_to_vec, split_char, split_chars, str_is, to_chars, from_chars, suffix, prefix, item,
    lemma_suffix_next, lemma_suffix_zero, lemma_prefix_next, lemma_prefix_full,
};
use std::cmp::Ordering;
use vstd::prelude::*;

verus! {

/// The largest `u64`.
pub open spec fn u64_max() -> nat {
    0xffff_ffff_ffff_ffff
}

/// `t` without one leading `v`.
pub open spec fn strip_v(t: Seq<char>) -> Seq<char> {
    if t.len() > 0 && t[0] == 'v' {
        t.drop_first()
    } else {
        t
    }
}

/// The release part of a version: what precedes the first `-`.
pub open spec fn version_head(t: Seq<char>) -> Seq<char> {
    let s = strip_v(t);
    match find_char(s, '-') {
        Some(i) => s.subrange(0, i),
        None => s,
    }
}

/// The pre-release part of a version: what follows the first `-`.
pub open spec fn version_pre(t: Seq<char>) -> Option<Seq<char>> {
    let s = strip_v(t);
    match find_char(s, '-') {
        Some(i) => Some(s.subrange(i + 1, s.len() as int)),
        None => None,
    }
}

/// Text that `parse::<u64>` accepts.
pub open spec fn is_u64_text(s: Seq<char>) -> bool {
    parse_unsigned(s, u64_max()) is Some
}

/// Semver shape: the release part has at least two `.`-separated
/// segments and the first two of them are integers.
pub open spec fn semver_shaped(t: Seq<char>) -> bool {
    let parts = split_char(version_head(t), '.');
    parts.len() >= 2 && is_u64_text(parts[0]) && is_u64_text(parts[1])
}

/// The ranking key of each release segment: its integer value, or
/// `None` for a segment that is not an integer.
pub open spec fn version_keys(t: Seq<char>) -> Seq<Option<nat>> {
    split_char(version_head(t), '.').map_values(|seg: Seq<char>| parse_unsigned(seg, u64_max()))
}

/// A non-integer segment ranks below every integer segment.
pub open spec fn key_order(x: Option<nat>, y: Option<nat>) -> Ordering {
    match (x, y) {
        (None, None) => Ordering::Equal,
        (None, Some(_)) => Ordering::Less,
        (Some(_), None) => Ordering::Greater,
        (Some(p), Some(q)) => if p < q {
            Ordering::Less
        } else if p > q {
            Ordering::Greater
        } else {
            Ordering::Equal
        },
    }
}

/// Lexicographic order of key sequences; a proper prefix ranks lower.
pub open spec fn keys_order(a: Seq<Option<nat>>, b: Seq<Option<nat>>) -> Ordering
    decreases a.len(),
{
    if a.len() == 0 && b.len() == 0 {
        Ordering::Equal
    } else if a.len() == 0 {
        Ordering::Less
    } else if b.len() == 0 {
        Ordering::Greater
    } else {
        match key_order(a[0], b[0]) {
            Ordering::Equal => keys_order(a.drop_first(), b.drop_first()),
            o => o,
        }
    }
}

/// Lexicographic order of characters; a proper prefix ranks lower.
pub open spec fn text_order(a: Seq<char>, b: Seq<char>) -> Ordering
    decreases a.len(),
{
    if a.len() == 0 && b.len() == 0 {
        Ordering::Equal
    } else if a.len() == 0 {
        Ordering::Less
    } else if b.len() == 0 {
        Ordering::Greater
    } else if a[0] < b[0] {
        Ordering::Less
    } else if a[0] > b[0] {
        Ordering::Greater
    } else {
        text_order(a.drop_first(), b.drop_first())
    }
}

/// How two version strings rank: release segments first; on a tie a
/// release ranks above any pre-release, and two pre-releases rank by text.
pub open spec fn version_order(a: Seq<char>, b: Seq<char>) -> Ordering {
    match keys_order(version_keys(a), version_keys(b)) {
        Ordering::Equal => match (version_pre(a), version_pre(b)) {
            (None, None) => Ordering::Equal,
            (None, Some(_)) => Ordering::Greater,
            (Some(_), None) => Ordering::Less,
            (Some(x), Some(y)) => text_order(x, y),
        },
        o => o,
    }
}


/// A machine integer key read as a mathematical one.
pub open spec fn opt_nat(o: Option<u64>) -> Option<nat> {
    match o {
        Some(n) => Some(n as nat),
        None => None,
    }
}

/// The release and pre-release parts of a version's characters.
fn split_version(v: &[char]) -> (r: (Vec<char>, Option<Vec<char>>))
    ensures
        r.0@ == version_head(v@),
        r.1 matches Some(p) ==> version_pre(v@) == Some(p@),
        r.1 is None ==> version_pre(v@) is None,
{
    let start: usize = if v.len() > 0 && v[0] == 'v' {
        1
    } else {
        0
    };
    let s = slice_to_vec(v, start, v.len());
    assert(s@ =~= strip_v(v@));
    match find(&s, '-') {
        Some(i) => {
            proof {
                lemma_find_char_bounds(s@, '-');
            }
            let head = slice_to_vec(&s, 0, i);
            let pre = slice_to_vec(&s, i + 1, s.len());
            (head, Some(pre))
        },
        None => (s, None),
    }
}

/// Text that `parse::<u64>` accepts.
fn u64_text(v: &[char]) -> (b: bool)
    ensures
        b == is_u64_text(v@),
{
    parse_unsigned_chars(v, 0xffff_ffff_ffff_ffff).is_some()
}

/// Whether a stored version looks like semver (`v0.15.0`, `1.2.3-rc.1`)
/// rather than a git short hash (`v646c91c`).
pub fn looks_like_semver(version: &str) -> (b: bool)
    ensures
        b == semver_shaped(version@),
{
    let v = to_chars(version);
    let (head, _) = split_version(&v);
    let parts = split_chars(&head, '.');
    if parts.len() < 2 {
        return false;
    }
    let a = u64_text(&parts[0]);
    let b = u64_text(&parts[1]);
    a && b
}

/// The ranking keys of a release part.
fn release_keys(head: &[char]) -> (r: Vec<Option<u64>>)
    ensures
        r@.map_values(|o: Option<u64>| opt_nat(o)) == split_char(head@, '.').map_values(
            |seg: Seq<char>| parse_unsigned(seg, u64_max()),
        ),
{
    let parts = split_chars(head, '.');
    let ghost sp = split_char(head@, '.');
    let mut r: Vec<Option<u64>> = Vec::new();
    let mut i: usize = 0;
    while i < parts.len()
        invariant
            i <= parts@.len(),
            parts@.len() == sp.len(),
            forall|j: int| 0 <= j < parts@.len() ==> #[trigger] parts@[j]@ == sp[j],
            r@.len() == i,
            forall|j: int|
                0 <= j < i ==> opt_nat(#[trigger] r@[j]) == parse_unsigned(sp[j], u64_max()),
        decreases parts.len() - i,
    {
        let k = parse_unsigned_chars(&parts[i], 0xffff_ffff_ffff_ffff);
        r.push(k);
        i = i + 1;
    }
    assert(r@.map_values(|o: Option<u64>| opt_nat(o)) =~= sp.map_values(
        |seg: Seq<char>| parse_unsigned(seg, u64_max()),
    ));
    r
}


fn key_cmp(x: Option<u64>, y: Option<u64>) -> (o: Ordering)
    ensures
        o == key_order(opt_nat(x), opt_nat(y)),
{
    match (x, y) {
        (None, None) => Ordering::Equal,
        (None, Some(_)) => Ordering::Less,
        (Some(_), None) => Ordering::Greater,
        (Some(p), Some(q)) => if p < q {
            Ordering::Less
        } else if p > q {
            Ordering::Greater
        } else {
            Ordering::Equal
        },
    }
}

fn keys_cmp(a: &[Option<u64>], b: &[Option<u64>]) -> (o: Ordering)
    ensures
        o == keys_order(
            a@.map_values(|x: Option<u64>| opt_nat(x)),
            b@.map_values(|x: Option<u64>| opt_nat(x)),
        ),
{
    let ghost ka = a@.map_values(|x: Option<u64>| opt_nat(x));
    let ghost kb = b@.map_values(|x: Option<u64>| opt_nat(x));
    proof {
        lemma_suffix_zero(ka);
        lemma_suffix_zero(kb);
    }
    let mut i: usize = 0;
    while i < a.len() && i < b.len()
        invariant
            i <= a@.len(),
            i <= b@.len(),
            ka == a@.map_values(|x: Option<u64>| opt_nat(x)),
            kb == b@.map_values(|x: Option<u64>| opt_nat(x)),
            keys_order(ka, kb) == keys_order(suffix(ka, i), suffix(kb, i)),
        decreases a.len() - i,
    {
        let o = key_cmp(a[i], b[i]);
        assert(item(ka, i) == opt_nat(item(a@, i)));
        assert(item(kb, i) == opt_nat(item(b@, i)));
        match o {
            Ordering::Equal => {
                proof {
                    lemma_suffix_next(ka, i);
                    lemma_suffix_next(kb, i);
                }
                i = i + 1;
            },
            _ => {
                proof {
                    lemma_suffix_next(ka, i);
                    lemma_suffix_next(kb, i);
                }
                return o;
            },
        }
    }
    if i == a.len() && i == b.len() {
        Ordering::Equal
    } else if i == a.len() {
        Ordering::Less
    } else {
        Ordering::Greater
    }
}

fn text_cmp(a: &[char], b: &[char]) -> (o: Ordering)
    ensures
        o == text_order(a@, b@),
{
    proof {
        lemma_suffix_zero(a@);
        lemma_suffix_zero(b@);
    }
    let mut i: usize = 0;
    while i < a.len() && i < b.len()
        invariant
            i <= a@.len(),
            i <= b@.len(),
            text_order(a@, b@) == text_order(suffix(a@, i), suffix(b@, i)),
        decreases a.len() - i,
    {
        proof {
            lemma_suffix_next(a@, i);
            lemma_suffix_next(b@, i);
        }
        if a[i] < b[i] {
            return Ordering::Less;
        } else if a[i] > b[i] {
            return Ordering::Greater;
        }
        i = i + 1;
    }
    if i == a.len() && i == b.len() {
        Ordering::Equal
    } else if i == a.len() {
        Ordering::Less
    } else {
        Ordering::Greater
    }
}

/// How two version strings rank (release segments, then pre-release).
pub fn cmp_versions(a: &str, b: &str) -> (o: Ordering)
    ensures
        o == version_order(a@, b@),
{
    let va = to_chars(a);
    let vb = to_chars(b);
    cmp_version_chars(&va, &vb)
}

fn cmp_version_chars(va: &[char], vb: &[char]) -> (o: Ordering)
    ensures
        o == version_order(va@, vb@),
{
    let (ha, pa) = split_version(va);
    let (hb, pb) = split_version(vb);
    let ka = release_keys(&ha);
    let kb = release_keys(&hb);
    let o = keys_cmp(&ka, &kb);
    match o {
        Ordering::Equal => match (pa, pb) {
            (None, None) => Ordering::Equal,
            (None, Some(_)) => Ordering::Greater,
            (Some(_), None) => Ordering::Less,
            (Some(x), Some(y)) => text_cmp(&x, &y),
        },
        _ => o,
    }
}

/// Whether the candidate `latest` is newer than the installed version of a
/// plugin of the given origin. An unpinned git plugin whose installed
/// version is a commit hash has no version to rank against: a tag-shaped
/// `latest` is then not newer, and a hash-shaped one is newer exactly when
/// it differs.
pub open spec fn newer_than(latest: Seq<char>, installed: Seq<char>, origin: Seq<char>, pinned: bool) -> bool {
    if origin == "git"@ && !pinned && !semver_shaped(installed) {
        if semver_shaped(latest) {
            false
        } else {
            latest != installed
        }
    } else {
        version_order(latest, installed) == Ordering::Greater
    }
}

pub fn is_newer_than(latest: &str, installed: &str, origin: &str, pinned: bool) -> (b: bool)
    ensures
        b == newer_than(latest@, installed@, origin@, pinned),
{
    if str_is(origin, "git") && !pinned && !looks_like_semver(installed) {
        if looks_like_semver(latest) {
            false
        } else {
            !str_is(latest, installed)
        }
    } else {
        match cmp_versions(latest, installed) {
            Ordering::Greater => true,
            _ => false,
        }
    }
}

/// One step of `Iterator::max_by`: the later candidate wins unless the
/// current best ranks strictly above it.
pub open spec fn keep_newer(best: Option<Seq<char>>, t: Seq<char>) -> Option<Seq<char>> {
    match best {
        None => Some(t),
        Some(b) => if version_order(b, t) == Ordering::Greater {
            Some(b)
        } else {
            Some(t)
        },
    }
}

/// The highest-ranked semver-shaped tag, the last one among equals.
pub open spec fn latest_of(tags: Seq<Seq<char>>) -> Option<Seq<char>>
    decreases tags.len(),
{
    if tags.len() == 0 {
        None
    } else {
        let prev = latest_of(tags.drop_last());
        if semver_shaped(tags.last()) {
            keep_newer(prev, tags.last())
        } else {
            prev
        }
    }
}

/// Highest version among tag candidates, or `None`.
pub fn latest_tag(tags: &[&str]) -> (r: Option<String>)
    ensures
        r matches Some(s) ==> latest_of(tags@.map_values(|t: &str| t@)) == Some(s@),
        r is None ==> latest_of(tags@.map_values(|t: &str| t@)) is None,
{
    let ghost all = tags@.map_values(|t: &str| t@);
    let mut best: Option<Vec<char>> = None;
    let mut i: usize = 0;
    while i < tags.len()
        invariant
            i <= tags@.len(),
            all == tags@.map_values(|t: &str| t@),
            latest_of(prefix(all, i)) == (match best {
                Some(b) => Some(b@),
                None => None,
            }),
        decreases tags.len() - i,
    {
        proof {
            lemma_prefix_next(all, i);
        }
        assert(item(all, i) == item(tags@, i)@);
        let t = to_chars(tags[i]);
        let shaped = looks_like_semver(tags[i]);
        if shaped {
            match best {
                None => {
                    best = Some(t);
                },
                Some(b) => {
                    match cmp_version_chars(&b, &t) {
                        Ordering::Greater => {
                            best = Some(b);
                        },
                        _ => {
                            best = Some(t);
                        },
                    }
                },
            }
        }
        i = i + 1;
    }
    proof {
        lemma_prefix_full(all, i);
    }
    match best {
        Some(b) => Some(from_chars(&b)),
        None => None,
    }
}

} // verus!
