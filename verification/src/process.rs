//! Helper processes: the `PATH` value handed to them (caller-supplied
//! directories prepended, in order, to the inherited search path) and the
//! heartbeat reported while one stays silent.
use vstd::prelude::*;
use crate::text::{decimal, from_chars, push_all, push_decimal, to_chars, trim, trim_chars};

verus! {

/// The views of a list of string slices.
pub open spec fn strs(v: Seq<&str>) -> Seq<Seq<char>> {
    v.map_values(|s: &str| s@)
}

/// The trimmed entries of `extra` that are not blank, in order.
pub open spec fn kept_dirs(extra: Seq<Seq<char>>) -> Seq<Seq<char>>
    decreases extra.len(),
{
    if extra.len() == 0 {
        seq![]
    } else {
        let rest = kept_dirs(extra.drop_last());
        let t = trim(extra.last());
        if t.len() > 0 {
            rest.push(t)
        } else {
            rest
        }
    }
}

/// `parts` joined with `sep` between neighbours.
pub open spec fn join_with(parts: Seq<Seq<char>>, sep: char) -> Seq<char>
    decreases parts.len(),
{
    if parts.len() == 0 {
        seq![]
    } else if parts.len() == 1 {
        parts[0]
    } else {
        join_with(parts.drop_last(), sep).push(sep) + parts.last()
    }
}

/// The merged search path: the kept directories, then `base` when it is
/// not empty; `base` alone when no directory is kept.
pub open spec fn merged_path(base: Seq<char>, extra: Seq<Seq<char>>, sep: char) -> Seq<char> {
    let k = kept_dirs(extra);
    if k.len() == 0 {
        base
    } else if base.len() == 0 {
        join_with(k, sep)
    } else {
        join_with(k, sep).push(sep) + base
    }
}

/// Prepends the non-blank, trimmed `extra` directories to `base`, separated
/// by `sep` (the host's path-list separator: `;` on Windows, `:` elsewhere).
pub fn merge_extra_path(base: &str, extra: &[&str], sep: char) -> (r: String)
    ensures
        r@ == merged_path(base@, strs(extra@), sep),
{
    let ghost ex = strs(extra@);
    let mut out: Vec<char> = Vec::new();
    let mut first = true;
    let mut i: usize = 0;
    while i < extra.len()
        invariant
            i <= extra@.len(),
            ex == strs(extra@),
            ex.len() == extra@.len(),
            first == (kept_dirs(ex.subrange(0, i as int)).len() == 0),
            out@ == join_with(kept_dirs(ex.subrange(0, i as int)), sep),
        decreases extra.len() - i,
    {
        assert(ex.subrange(0, i + 1).drop_last() =~= ex.subrange(0, i as int));
        assert(ex.subrange(0, i + 1).last() == extra@[i as int]@);
        let text = to_chars(extra[i]);
        let trimmed = trim_chars(&text);
        let ghost rest = kept_dirs(ex.subrange(0, i as int));
        assert(rest.push(trimmed@).drop_last() =~= rest);
        if trimmed.len() > 0 {
            if !first {
                out.push(sep);
            }
            push_all(&mut out, &trimmed);
            first = false;
        }
        i = i + 1;
    }
    assert(ex.subrange(0, extra@.len() as int) =~= ex);
    let b = to_chars(base);
    if !first {
        if b.len() > 0 {
            out.push(sep);
            push_all(&mut out, &b);
        }
    } else {
        push_all(&mut out, &b);
        assert(out@ =~= base@);
    }
    from_chars(&out)
}


/// The progress line sent while a child stays silent: how long it has run.
pub fn heartbeat(secs: u64) -> (r: String)
    ensures
        r@ == "… 子进程仍在运行（已进行 "@ + decimal(secs as nat) + " 秒）"@,
{
    let mut out = to_chars("… 子进程仍在运行（已进行 ");
    push_decimal(&mut out, secs);
    let tail = to_chars(" 秒）");
    push_all(&mut out, &tail);
    from_chars(&out)
}

} // verus!
