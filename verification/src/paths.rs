//! Filesystem layout of the shell, with paths as text split by the host's
//! separators (`/`, and `\` on Windows): the plugin store, per-kernel
//! plugin directories, profiles and logs, and the relative paths written
//! into profile dependency specs.
use crate::install_spec::opt_text;
use crate::text::{
    chars_eq, find_char, from_chars, lemma_find_char_bounds, lemma_suffix_next, lemma_suffix_zero,
    prefix, push_all, replace_char, replace_chars, slice_to_vec, split_char, split_chars, suffix,
    to_chars,
};
use vstd::prelude::*;

verus! {

/// Whether std counts `c` as a path separator on the target the library
/// was built for.
pub uninterp spec fn separates(c: char) -> bool;

/// `std::path::is_separator`: whether `c` is one of the current platform's
/// path separators. Which characters those are is std's, per target; only
/// the name of the result is stated.
#[verifier::external_body]
pub fn is_separator(c: char) -> (b: bool)
    ensures
        b == separates(c),
{
    std::path::is_separator(c)
}

/// A path separator: `/` on every target, and `\` where std takes it as
/// one (on Windows); these are the separators std's paths use on unix and
/// on Windows.
pub open spec fn is_sep(c: char) -> bool {
    c == '/' || (c == '\\' && separates('\\'))
}

/// The separator a path is extended with: `\` where it separates (on
/// Windows), `/` otherwise.
pub open spec fn main_sep() -> char {
    if separates('\\') {
        '\\'
    } else {
        '/'
    }
}

/// A path's text with every separator written as `/`.
pub open spec fn norm(p: Seq<char>) -> Seq<char> {
    if separates('\\') {
        replace_char(p, '\\', "/"@)
    } else {
        p
    }
}

fn is_sep_char(c: char) -> (b: bool)
    ensures
        b == is_sep(c),
{
    c == '/' || (c == '\\' && is_separator('\\'))
}

fn main_sep_char() -> (c: char)
    ensures
        c == main_sep(),
{
    if is_separator('\\') {
        '\\'
    } else {
        '/'
    }
}

/// `base` joined with `part` as `PathBuf::push` does for the layout's
/// parts: a `part` that starts with a separator replaces `base`; otherwise
/// the main separator separates them unless `base` is empty or already
/// ends with a separator. (On Windows std keeps `base`'s drive prefix for
/// a `part` that starts with a separator, and lets a `part` with a drive
/// prefix replace `base`; neither is modelled here.)
pub open spec fn join(base: Seq<char>, part: Seq<char>) -> Seq<char> {
    if part.len() > 0 && is_sep(part[0]) {
        part
    } else if base.len() > 0 && !is_sep(base.last()) {
        base + seq![main_sep()] + part
    } else {
        base + part
    }
}

pub fn join_path(base: &str, part: &str) -> (r: String)
    ensures
        r@ == join(base@, part@),
{
    let b = to_chars(base);
    let p = to_chars(part);
    let out = join_chars(&b, &p);
    from_chars(&out)
}

pub fn join_chars(b: &[char], p: &[char]) -> (r: Vec<char>)
    ensures
        r@ == join(b@, p@),
{
    let mut out: Vec<char> = Vec::new();
    if p.len() > 0 && is_sep_char(p[0]) {
        push_all(&mut out, p);
        assert(out@ =~= p@);
        return out;
    }
    push_all(&mut out, b);
    if b.len() > 0 && !is_sep_char(b[b.len() - 1]) {
        out.push(main_sep_char());
        push_all(&mut out, p);
        assert(out@ =~= b@ + seq![main_sep()] + p@);
    } else {
        push_all(&mut out, p);
        assert(out@ =~= b@ + p@);
    }
    out
}

/// The parent directory of a path, as `Path::parent` computes it.
pub uninterp spec fn path_parent(p: Seq<char>) -> Option<Seq<char>>;

/// `Path::parent`: the path without its final component, `None` for a
/// root or empty path. What the parent is of a given path (std's component
/// rules) is left to std; only the name of the result is stated.
#[verifier::external_body]
pub fn parent_of(p: &str) -> (r: Option<String>)
    ensures
        opt_text(r) == path_parent(p@),
{
    match std::path::Path::new(p).parent() {
        Some(q) => Some(q.to_string_lossy().into_owned()),
        None => None,
    }
}

/// `<dir>/<name>` one level up from `data_dir` (next to it), or inside
/// `data_dir` when it has no parent.
pub open spec fn beside(data_dir: Seq<char>, name: Seq<char>) -> Seq<char> {
    match path_parent(data_dir) {
        Some(home) => join(home, name),
        None => join(data_dir, name),
    }
}

fn beside_path(data_dir: &str, name: &str) -> (r: String)
    ensures
        r@ == beside(data_dir@, name@),
{
    match parent_of(data_dir) {
        Some(home) => join_path(home.as_str(), name),
        None => join_path(data_dir, name),
    }
}

/// Central plugin store: `<home>/plugins`, next to the profiles it feeds.
pub open spec fn store_dir_of(data_dir: Seq<char>) -> Seq<char> {
    beside(data_dir, "plugins"@)
}

pub fn store_dir(data_dir: &str) -> (r: String)
    ensures
        r@ == store_dir_of(data_dir@),
{
    beside_path(data_dir, "plugins")
}

/// The store inventory file.
pub fn store_file(data_dir: &str) -> (r: String)
    ensures
        r@ == join(store_dir_of(data_dir@), "store.json"@),
{
    let dir = store_dir(data_dir);
    join_path(dir.as_str(), "store.json")
}

/// One plugin's directory in the store.
pub fn store_plugin_dir(data_dir: &str, id: &str) -> (r: String)
    ensures
        r@ == join(store_dir_of(data_dir@), id@),
{
    let dir = store_dir(data_dir);
    join_path(dir.as_str(), id)
}

/// An installed kernel's directory: `<data_dir>/kernels/<version>`.
pub open spec fn kernel_dir_of(data_dir: Seq<char>, version: Seq<char>) -> Seq<char> {
    join(join(data_dir, "kernels"@), version)
}

pub fn kernel_dir(data_dir: &str, version: &str) -> (r: String)
    ensures
        r@ == kernel_dir_of(data_dir@, version@),
{
    let k = join_path(data_dir, "kernels");
    join_path(k.as_str(), version)
}

/// The shell's log directory: `<data_dir>/logs`.
pub fn logs_dir(data_dir: &str) -> (r: String)
    ensures
        r@ == join(data_dir@, "logs"@),
{
    join_path(data_dir, "logs")
}

/// Where a kernel reads its plugins from.
pub open spec fn kernel_plugins_dir_of(data_dir: Seq<char>, version: Seq<char>) -> Seq<char> {
    join(kernel_dir_of(data_dir, version), "plugins"@)
}

pub fn kernel_plugins_dir(data_dir: &str, version: &str) -> (r: String)
    ensures
        r@ == kernel_plugins_dir_of(data_dir@, version@),
{
    let k = kernel_dir(data_dir, version);
    join_path(k.as_str(), "plugins")
}

/// One plugin's materialized directory inside a kernel.
pub open spec fn kernel_plugin_dir_of(data_dir: Seq<char>, version: Seq<char>, id: Seq<char>) -> Seq<
    char,
> {
    join(kernel_plugins_dir_of(data_dir, version), id)
}

pub fn kernel_plugin_dir(data_dir: &str, version: &str, id: &str) -> (r: String)
    ensures
        r@ == kernel_plugin_dir_of(data_dir@, version@, id@),
{
    let k = kernel_plugins_dir(data_dir, version);
    join_path(k.as_str(), id)
}

/// The materialization record of one plugin in one kernel:
/// `<kernel plugins>/.meta/<id>.json`.
pub fn kernel_meta_file(data_dir: &str, version: &str, id: &str) -> (r: String)
    ensures
        r@ == join(join(kernel_plugins_dir_of(data_dir@, version@), ".meta"@), id@ + ".json"@),
{
    let k = kernel_plugins_dir(data_dir, version);
    let m = join_path(k.as_str(), ".meta");
    let mut file = id.to_owned();
    file.append(".json");
    join_path(m.as_str(), file.as_str())
}

/// A profile's directory: `<home>/profiles/<profile>`.
pub open spec fn profile_dir_of(data_dir: Seq<char>, profile: Seq<char>) -> Seq<char> {
    join(beside(data_dir, "profiles"@), profile)
}

pub fn profile_dir(data_dir: &str, profile: &str) -> (r: String)
    ensures
        r@ == profile_dir_of(data_dir@, profile@),
{
    let p = beside_path(data_dir, "profiles");
    join_path(p.as_str(), profile)
}

/// The log of profile wiring runs.
pub fn wiring_log_path(data_dir: &str) -> (r: String)
    ensures
        r@ == join(join(data_dir@, "logs"@), "plugin-wiring.log"@),
{
    let l = logs_dir(data_dir);
    join_path(l.as_str(), "plugin-wiring.log")
}

/// The log of one plugin's own installs: `<logs>/plugin-<id>.log`.
pub fn plugin_log_path(data_dir: &str, id: &str) -> (r: String)
    ensures
        r@ == join(join(data_dir@, "logs"@), "plugin-"@ + id@ + ".log"@),
{
    let l = logs_dir(data_dir);
    let mut file = String::from_str("plugin-");
    file.append(id);
    file.append(".log");
    join_path(l.as_str(), file.as_str())
}


/// A path piece that `Path::components` keeps in the middle of a path.
pub open spec fn kept_piece(seg: Seq<char>) -> bool {
    seg.len() > 0 && seg != "."@
}

/// The components of a path as `Path::components` yields them: the root
/// (written as the main separator) when the path starts with a separator,
/// a leading `.` of a relative path, then every piece between separators
/// that is neither empty nor `.`. (A Windows drive or share prefix, which
/// std parses as a component of its own, is taken here as the first
/// piece.)
pub open spec fn components(p: Seq<char>) -> Seq<Seq<char>> {
    let n = norm(p);
    let segs = split_char(n, '/');
    let root: Seq<Seq<char>> = if n.len() > 0 && n[0] == '/' {
        seq![seq![main_sep()]]
    } else {
        Seq::empty()
    };
    let cur: Seq<Seq<char>> = if n.len() > 0 && n[0] != '/' && segs[0] == "."@ {
        seq!["."@]
    } else {
        Seq::empty()
    };
    root + cur + segs.filter(|seg: Seq<char>| kept_piece(seg))
}

/// Pieces joined by the main separator (pushing each onto an empty
/// `PathBuf`).
pub open spec fn render(parts: Seq<Seq<char>>) -> Seq<char>
    decreases parts.len(),
{
    if parts.len() == 0 {
        Seq::empty()
    } else {
        join(render(parts.drop_last()), parts.last())
    }
}

/// Length of the longest common prefix of two component lists.
pub open spec fn common_len(a: Seq<Seq<char>>, b: Seq<Seq<char>>) -> nat
    decreases a.len(),
{
    if a.len() > 0 && b.len() > 0 && a[0] == b[0] {
        1 + common_len(a.drop_first(), b.drop_first())
    } else {
        0
    }
}

/// `to` relative to `from_dir`: one `..` per component of `from_dir`
/// beyond the shared prefix, then the rest of `to`; `to` itself when the
/// two share no component.
pub open spec fn relative(from_dir: Seq<char>, to: Seq<char>) -> Seq<char> {
    let f = components(from_dir);
    let t = components(to);
    let c = common_len(f, t) as int;
    if c == 0 {
        to
    } else {
        render(Seq::new((f.len() - c) as nat, |i: int| ".."@) + t.subrange(c, t.len() as int))
    }
}

fn is_kept_piece(seg: &[char]) -> (b: bool)
    ensures
        b == kept_piece(seg@),
{
    let dot = to_chars(".");
    seg.len() > 0 && !chars_eq(seg, &dot)
}

/// A path's text with every separator written as `/`.
fn normalized(p: &[char]) -> (r: Vec<char>)
    ensures
        r@ == norm(p@),
{
    if is_separator('\\') {
        let slash = to_chars("/");
        replace_chars(p, '\\', &slash)
    } else {
        slice_to_vec(p, 0, p.len())
    }
}

/// The components of a path.
pub fn path_components(p: &[char]) -> (r: Vec<Vec<char>>)
    ensures
        r@.len() == components(p@).len(),
        forall|j: int| 0 <= j < r@.len() ==> #[trigger] r@[j]@ == components(p@)[j],
{
    let n = normalized(p);
    let segs = split_chars(&n, '/');
    let ghost sp = split_char(n@, '/');
    let mut out: Vec<Vec<char>> = Vec::new();
    let ghost head: Seq<Seq<char>> = Seq::empty();
    let dot = to_chars(".");
    if n.len() > 0 && n[0] == '/' {
        let mut root: Vec<char> = Vec::new();
        root.push(main_sep_char());
        out.push(root);
        proof {
            head = seq![seq![main_sep()]];
        }
        assert(out@[0]@ =~= seq![main_sep()]);
    } else if n.len() > 0 && chars_eq(&segs[0], &dot) {
        out.push(to_chars("."));
        proof {
            head = seq!["."@];
        }
    }
    assert(sp.len() > 0);
    assert(components(p@) == head + sp.filter(|seg: Seq<char>| kept_piece(seg)));
    let ghost base_len = out@.len();
    assert(sp.subrange(0, 0).filter(|seg: Seq<char>| kept_piece(seg)) =~= Seq::<Seq<char>>::empty());
    let mut i: usize = 0;
    while i < segs.len()
        invariant
            i <= segs@.len(),
            segs@.len() == sp.len(),
            forall|j: int| 0 <= j < segs@.len() ==> #[trigger] segs@[j]@ == sp[j],
            out@.len() == head.len() + sp.subrange(0, i as int).filter(
                |seg: Seq<char>| kept_piece(seg),
            ).len(),
            forall|j: int|
                0 <= j < out@.len() ==> #[trigger] out@[j]@ == (head + sp.subrange(
                    0,
                    i as int,
                ).filter(|seg: Seq<char>| kept_piece(seg)))[j],
        decreases segs.len() - i,
    {
        assert(sp.subrange(0, i + 1).drop_last() =~= sp.subrange(0, i as int));
        assert(sp.subrange(0, i + 1).last() == sp[i as int]);
        reveal_with_fuel(Seq::filter, 1);
        if is_kept_piece(&segs[i]) {
            let piece = segs[i].clone();
            out.push(piece);
        }
        i = i + 1;
    }
    assert(sp.subrange(0, sp.len() as int) =~= sp);
    out
}


/// Renders pieces joined by `/`.
fn render_parts(parts: &Vec<Vec<char>>) -> (r: Vec<char>)
    ensures
        r@ == render(parts@.map_values(|v: Vec<char>| v@)),
{
    let ghost ps = parts@.map_values(|v: Vec<char>| v@);
    let mut out: Vec<char> = Vec::new();
    let mut k: usize = 0;
    assert(prefix(ps, 0) =~= Seq::<Seq<char>>::empty());
    while k < parts.len()
        invariant
            k <= parts@.len(),
            ps == parts@.map_values(|v: Vec<char>| v@),
            out@ == render(prefix(ps, k)),
        decreases parts.len() - k,
    {
        assert(prefix(ps, (k + 1) as usize).drop_last() =~= prefix(ps, k));
        assert(prefix(ps, (k + 1) as usize).last() == parts@[k as int]@);
        out = join_chars(&out, &parts[k]);
        k = k + 1;
    }
    assert(prefix(ps, k) =~= ps);
    out
}

/// Relative path from `from_dir` to `to` (both under the same root), or
/// `to` itself when they share no component.
pub fn relative_path(from_dir: &str, to: &str) -> (r: String)
    ensures
        r@ == relative(from_dir@, to@),
{
    let fv = to_chars(from_dir);
    let tv = to_chars(to);
    let f = path_components(&fv);
    let t = path_components(&tv);
    let ghost fs = components(from_dir@);
    let ghost ts = components(to@);
    assert(f@.map_values(|v: Vec<char>| v@) =~= fs);
    assert(t@.map_values(|v: Vec<char>| v@) =~= ts);
    proof {
        lemma_suffix_zero(fs);
        lemma_suffix_zero(ts);
    }
    let mut c: usize = 0;
    while c < f.len() && c < t.len() && chars_eq(&f[c], &t[c])
        invariant
            c <= f@.len(),
            c <= t@.len(),
            f@.len() == fs.len(),
            t@.len() == ts.len(),
            forall|j: int| 0 <= j < f@.len() ==> #[trigger] f@[j]@ == fs[j],
            forall|j: int| 0 <= j < t@.len() ==> #[trigger] t@[j]@ == ts[j],
            common_len(fs, ts) == c + common_len(suffix(fs, c), suffix(ts, c)),
        decreases f.len() - c,
    {
        proof {
            lemma_suffix_next(fs, c);
            lemma_suffix_next(ts, c);
        }
        c = c + 1;
    }
    proof {
        if c < f@.len() && c < t@.len() {
            lemma_suffix_next(fs, c);
            lemma_suffix_next(ts, c);
        }
    }
    assert(common_len(suffix(fs, c), suffix(ts, c)) == 0);
    if c == 0 {
        return from_chars(&tv);
    }
    let mut parts: Vec<Vec<char>> = Vec::new();
    let mut k: usize = c;
    while k < f.len()
        invariant
            c <= k <= f@.len(),
            parts@.len() == k - c,
            forall|j: int| 0 <= j < parts@.len() ==> #[trigger] parts@[j]@ == ".."@,
        decreases f.len() - k,
    {
        parts.push(to_chars(".."));
        k = k + 1;
    }
    let ghost ndots = parts@.len();
    let mut m: usize = c;
    while m < t.len()
        invariant
            c <= m <= t@.len(),
            t@.len() == ts.len(),
            forall|j: int| 0 <= j < t@.len() ==> #[trigger] t@[j]@ == ts[j],
            parts@.len() == ndots + (m - c),
            forall|j: int| 0 <= j < ndots ==> #[trigger] parts@[j]@ == ".."@,
            forall|j: int| ndots <= j < parts@.len() ==> #[trigger] parts@[j]@ == ts[j - ndots + c],
        decreases t.len() - m,
    {
        let piece = t[m].clone();
        parts.push(piece);
        m = m + 1;
    }
    let out = render_parts(&parts);
    assert(parts@.map_values(|v: Vec<char>| v@) =~= Seq::new(
        (fs.len() - c) as nat,
        |i: int| ".."@,
    ) + ts.subrange(c as int, ts.len() as int));
    from_chars(&out)
}

/// One step of walking a component list: `..` steps back over the last
/// component (when there is one to step back over), any other component
/// is entered.
pub open spec fn step_into(at: Seq<Seq<char>>, part: Seq<char>) -> Seq<Seq<char>> {
    if part == ".."@ && at.len() > 0 && at.last() != ".."@ {
        at.drop_last()
    } else {
        at.push(part)
    }
}

/// Walking from `at` along `parts`, one component at a time.
pub open spec fn walk_parts(at: Seq<Seq<char>>, parts: Seq<Seq<char>>) -> Seq<Seq<char>>
    decreases parts.len(),
{
    if parts.len() == 0 {
        at
    } else {
        walk_parts(step_into(at, parts[0]), parts.drop_first())
    }
}

/// A component list with no `..` in it.
pub open spec fn no_parent_step(parts: Seq<Seq<char>>) -> bool {
    forall|i: int| 0 <= i < parts.len() ==> #[trigger] parts[i] != ".."@
}

/// The components `relative` renders when the two paths share some.
pub open spec fn relative_parts(f: Seq<Seq<char>>, t: Seq<Seq<char>>) -> Seq<Seq<char>> {
    let c = common_len(f, t) as int;
    Seq::new((f.len() - c) as nat, |i: int| ".."@) + t.subrange(c, t.len() as int)
}

proof fn lemma_walk_concat(at: Seq<Seq<char>>, a: Seq<Seq<char>>, b: Seq<Seq<char>>)
    ensures
        walk_parts(at, a + b) == walk_parts(walk_parts(at, a), b),
    decreases a.len(),
{
    if a.len() == 0 {
        assert(a + b =~= b);
    } else {
        assert((a + b)[0] == a[0]);
        assert((a + b).drop_first() =~= a.drop_first() + b);
        lemma_walk_concat(step_into(at, a[0]), a.drop_first(), b);
    }
}

proof fn lemma_walk_plain(at: Seq<Seq<char>>, s: Seq<Seq<char>>)
    requires
        no_parent_step(s),
    ensures
        walk_parts(at, s) == at + s,
    decreases s.len(),
{
    if s.len() == 0 {
        assert(at + s =~= at);
    } else {
        assert(s[0] != ".."@);
        assert(no_parent_step(s.drop_first())) by {
            assert forall|i: int| 0 <= i < s.drop_first().len() implies #[trigger] s.drop_first()[i]
                != ".."@ by {
                assert(s.drop_first()[i] == s[i + 1]);
            }
        }
        lemma_walk_plain(at.push(s[0]), s.drop_first());
        assert(at.push(s[0]) + s.drop_first() =~= at + s);
    }
}

proof fn lemma_walk_back(at: Seq<Seq<char>>, k: nat)
    requires
        k <= at.len(),
        no_parent_step(at),
    ensures
        walk_parts(at, Seq::new(k, |i: int| ".."@)) == at.subrange(0, at.len() - k),
    decreases k,
{
    let dots = Seq::new(k, |i: int| ".."@);
    if k == 0 {
        assert(at.subrange(0, at.len() as int) =~= at);
    } else {
        assert(dots[0] == ".."@);
        assert(at.last() == at[at.len() - 1]);
        let back = at.drop_last();
        assert(no_parent_step(back)) by {
            assert forall|i: int| 0 <= i < back.len() implies #[trigger] back[i] != ".."@ by {
                assert(back[i] == at[i]);
            }
        }
        assert(dots.drop_first() =~= Seq::new((k - 1) as nat, |i: int| ".."@));
        lemma_walk_back(back, (k - 1) as nat);
        assert(back.subrange(0, back.len() - (k - 1)) =~= at.subrange(0, at.len() - k));
    }
}

proof fn lemma_common_prefix(a: Seq<Seq<char>>, b: Seq<Seq<char>>)
    ensures
        common_len(a, b) <= a.len(),
        common_len(a, b) <= b.len(),
        forall|i: int| 0 <= i < common_len(a, b) ==> #[trigger] a[i] == b[i],
    decreases a.len(),
{
    if a.len() > 0 && b.len() > 0 && a[0] == b[0] {
        lemma_common_prefix(a.drop_first(), b.drop_first());
        assert forall|i: int| 0 <= i < common_len(a, b) implies #[trigger] a[i] == b[i] by {
            if i > 0 {
                assert(a.drop_first()[i - 1] == b.drop_first()[i - 1]);
            }
        }
    }
}

proof fn lemma_find_first(s: Seq<char>, c: char, i: int)
    requires
        0 <= i < s.len(),
        s[i] == c,
        forall|j: int| 0 <= j < i ==> s[j] != c,
    ensures
        find_char(s, c) == Some(i),
{
    lemma_find_char_bounds(s, c);
    if find_char(s, c) is None {
        assert(s.contains(s[i]));
    }
}

proof fn lemma_split_plain(p: Seq<char>, c: char)
    requires
        !p.contains(c),
    ensures
        split_char(p, c) == seq![p],
{
    lemma_find_char_bounds(p, c);
    if let Some(i) = find_char(p, c) {
        assert(p.contains(p[i]));
    }
}

/// Splitting `a`, a separator and `b` splits `a` and `b` apart.
proof fn lemma_split_concat(a: Seq<char>, b: Seq<char>, c: char)
    ensures
        split_char(a + seq![c] + b, c) == split_char(a, c) + split_char(b, c),
    decreases a.len(),
{
    let s = a + seq![c] + b;
    lemma_find_char_bounds(a, c);
    match find_char(a, c) {
        None => {
            assert forall|j: int| 0 <= j < a.len() implies s[j] != c by {
                assert(s[j] == a[j]);
                assert(a.contains(a[j]));
            }
            lemma_find_first(s, c, a.len() as int);
            assert(s.subrange(0, a.len() as int) =~= a);
            assert(s.subrange(a.len() as int + 1, s.len() as int) =~= b);
            assert(split_char(s, c) == seq![a] + split_char(b, c));
        },
        Some(i) => {
            assert forall|j: int| 0 <= j < i implies s[j] != c by {
                assert(s[j] == a[j]);
            }
            lemma_find_first(s, c, i);
            let rest = a.subrange(i + 1, a.len() as int);
            assert(s.subrange(0, i) =~= a.subrange(0, i));
            assert(s.subrange(i + 1, s.len() as int) =~= rest + seq![c] + b);
            lemma_split_concat(rest, b, c);
            assert(split_char(a, c) == seq![a.subrange(0, i)] + split_char(rest, c));
            assert(split_char(s, c) == seq![a.subrange(0, i)] + (split_char(rest, c) + split_char(
                b,
                c,
            )));
            assert(seq![a.subrange(0, i)] + (split_char(rest, c) + split_char(b, c)) =~= (seq![
                a.subrange(0, i),
            ] + split_char(rest, c)) + split_char(b, c));
        },
    }
}

/// No piece of a split holds the separator, and every character of a
/// piece is one of the text's.
proof fn lemma_split_pieces(s: Seq<char>, c: char)
    ensures
        split_char(s, c).len() > 0,
        forall|k: int| 0 <= k < split_char(s, c).len() ==> !(#[trigger] split_char(s, c)[k]).contains(c),
        forall|k: int, x: char|
            0 <= k < split_char(s, c).len() && #[trigger] split_char(s, c)[k].contains(x)
                ==> s.contains(x),
    decreases s.len(),
{
    lemma_find_char_bounds(s, c);
    match find_char(s, c) {
        None => {},
        Some(i) => {
            let rest = s.subrange(i + 1, s.len() as int);
            lemma_split_pieces(rest, c);
            let head = s.subrange(0, i);
            assert forall|k: int| 0 <= k < split_char(s, c).len() implies !(#[trigger] split_char(
                s,
                c,
            )[k]).contains(c) by {
                if k == 0 {
                    assert(split_char(s, c)[0] == head);
                    assert forall|j: int| 0 <= j < head.len() implies head[j] != c by {
                        assert(head[j] == s[j]);
                    }
                } else {
                    assert(split_char(s, c)[k] == split_char(rest, c)[k - 1]);
                }
            }
            assert forall|k: int, x: char|
                0 <= k < split_char(s, c).len() && #[trigger] split_char(s, c)[k].contains(
                    x,
                ) implies s.contains(x) by {
                if k == 0 {
                    assert(split_char(s, c)[0] == head);
                    let j = choose|j: int| 0 <= j < head.len() && head[j] == x;
                    assert(s[j] == x);
                } else {
                    assert(split_char(s, c)[k] == split_char(rest, c)[k - 1]);
                    assert(rest.contains(x));
                    let j = choose|j: int| 0 <= j < rest.len() && rest[j] == x;
                    assert(s[j + i + 1] == x);
                }
            }
        },
    }
}

proof fn lemma_replace_concat(a: Seq<char>, b: Seq<char>, c: char, rep: Seq<char>)
    ensures
        replace_char(a + b, c, rep) == replace_char(a, c, rep) + replace_char(b, c, rep),
    decreases b.len(),
{
    if b.len() == 0 {
        assert(a + b =~= a);
        assert(replace_char(a, c, rep) + replace_char(b, c, rep) =~= replace_char(a, c, rep));
    } else {
        assert((a + b).drop_last() =~= a + b.drop_last());
        assert((a + b).last() == b.last());
        lemma_replace_concat(a, b.drop_last(), c, rep);
        let tail = if b.last() == c {
            rep
        } else {
            seq![b.last()]
        };
        assert(replace_char(a, c, rep) + replace_char(b.drop_last(), c, rep) + tail =~= replace_char(
            a,
            c,
            rep,
        ) + (replace_char(b.drop_last(), c, rep) + tail));
    }
}

proof fn lemma_replace_plain(a: Seq<char>, c: char, rep: Seq<char>)
    requires
        !a.contains(c),
    ensures
        replace_char(a, c, rep) == a,
    decreases a.len(),
{
    if a.len() > 0 {
        assert(!a.drop_last().contains(c)) by {
            if a.drop_last().contains(c) {
                let j = choose|j: int| 0 <= j < a.drop_last().len() && a.drop_last()[j] == c;
                assert(a[j] == c);
            }
        }
        assert(a.contains(a[a.len() - 1]));
        lemma_replace_plain(a.drop_last(), c, rep);
        assert(a.drop_last() + seq![a.last()] =~= a);
    }
}

proof fn lemma_replace_shape(a: Seq<char>, c: char, rep: Seq<char>)
    requires
        rep.len() == 1,
        rep[0] != c,
    ensures
        replace_char(a, c, rep).len() == a.len(),
        !replace_char(a, c, rep).contains(c),
    decreases a.len(),
{
    if a.len() > 0 {
        lemma_replace_shape(a.drop_last(), c, rep);
        let head = replace_char(a.drop_last(), c, rep);
        let tail = if a.last() == c {
            rep
        } else {
            seq![a.last()]
        };
        assert(!tail.contains(c));
        let whole = head + tail;
        assert(!whole.contains(c)) by {
            if whole.contains(c) {
                let j = choose|j: int| 0 <= j < whole.len() && whole[j] == c;
                if j < head.len() {
                    assert(head[j] == c);
                } else {
                    assert(tail[j - head.len()] == c);
                }
            }
        }
    }
}

proof fn lemma_norm_concat(a: Seq<char>, b: Seq<char>)
    ensures
        norm(a + b) == norm(a) + norm(b),
{
    lemma_replace_concat(a, b, '\\', "/"@);
}

proof fn lemma_norm_shape(a: Seq<char>)
    ensures
        norm(a).len() == a.len(),
        separates('\\') ==> !norm(a).contains('\\'),
{
    reveal_strlit("/");
    lemma_replace_shape(a, '\\', "/"@);
}

proof fn lemma_norm_sep(x: char)
    requires
        is_sep(x),
    ensures
        norm(seq![x]) == seq!['/'],
{
    reveal_strlit("/");
    if separates('\\') {
        let one = seq![x];
        assert(one.drop_last() =~= Seq::<char>::empty());
        assert(one.last() == x);
        assert(replace_char(one.drop_last(), '\\', "/"@) =~= Seq::<char>::empty());
        assert("/"@ =~= seq!['/']);
        assert(replace_char(one, '\\', "/"@) =~= seq!['/']);
    }
}

/// A path piece with no separator in it, kept by `Path::components`.
pub open spec fn plain_piece(x: Seq<char>) -> bool {
    kept_piece(x) && forall|j: int| 0 <= j < x.len() ==> !is_sep(#[trigger] x[j])
}

/// A component list that renders and splits back to itself.
pub open spec fn plain_pieces(parts: Seq<Seq<char>>) -> bool {
    forall|i: int| 0 <= i < parts.len() ==> plain_piece(#[trigger] parts[i])
}

proof fn lemma_plain_piece(x: Seq<char>)
    requires
        plain_piece(x),
    ensures
        norm(x) == x,
        !x.contains('/'),
        !is_sep(x[0]),
        !is_sep(x.last()),
{
    assert(!x.contains('/')) by {
        if x.contains('/') {
            let j = choose|j: int| 0 <= j < x.len() && x[j] == '/';
            assert(!is_sep(x[j]));
        }
    }
    if separates('\\') {
        assert(!x.contains('\\')) by {
            if x.contains('\\') {
                let j = choose|j: int| 0 <= j < x.len() && x[j] == '\\';
                assert(!is_sep(x[j]));
            }
        }
        lemma_replace_plain(x, '\\', "/"@);
    }
    assert(!is_sep(x[x.len() - 1]));
}

proof fn lemma_render_splits(parts: Seq<Seq<char>>)
    requires
        plain_pieces(parts),
    ensures
        split_char(norm(render(parts)), '/').filter(|seg: Seq<char>| kept_piece(seg)) == parts,
        parts.len() > 0 ==> render(parts).len() > 0 && !is_sep(render(parts)[0]) && !is_sep(
            render(parts).last(),
        ),
    decreases parts.len(),
{
    reveal_with_fuel(Seq::filter, 2);
    if parts.len() == 0 {
        assert(norm(Seq::<char>::empty()) =~= Seq::<char>::empty());
        lemma_split_plain(Seq::<char>::empty(), '/');
    } else {
        let dl = parts.drop_last();
        let last = parts.last();
        assert(plain_piece(parts[parts.len() - 1]));
        lemma_plain_piece(last);
        assert(plain_pieces(dl)) by {
            assert forall|i: int| 0 <= i < dl.len() implies plain_piece(#[trigger] dl[i]) by {
                assert(dl[i] == parts[i]);
            }
        }
        lemma_render_splits(dl);
        lemma_split_plain(last, '/');
        if dl.len() == 0 {
            assert(render(dl) =~= Seq::<char>::empty());
            assert(render(parts) =~= last);
            assert(parts =~= seq![last]);
        } else {
            let m = main_sep();
            assert(is_sep(m));
            assert(render(parts) =~= render(dl) + seq![m] + last);
            lemma_norm_concat(render(dl) + seq![m], last);
            lemma_norm_concat(render(dl), seq![m]);
            lemma_norm_sep(m);
            assert(norm(render(parts)) =~= norm(render(dl)) + seq!['/'] + last);
            lemma_split_concat(norm(render(dl)), last, '/');
            Seq::filter_distributes_over_add(
                split_char(norm(render(dl)), '/'),
                seq![last],
                |seg: Seq<char>| kept_piece(seg),
            );
            assert(dl.push(last) =~= parts);
        }
    }
}

/// The components of `from_dir` joined with rendered plain pieces are
/// those of `from_dir` followed by the pieces.
proof fn lemma_join_components(from_dir: Seq<char>, parts: Seq<Seq<char>>)
    requires
        from_dir.len() > 0,
        plain_pieces(parts),
    ensures
        components(join(from_dir, render(parts))) == components(from_dir) + parts,
{
    let r = render(parts);
    lemma_render_splits(parts);
    let kept = |seg: Seq<char>| kept_piece(seg);
    let sep_end = is_sep(from_dir.last());
    let base = if sep_end {
        from_dir.drop_last()
    } else {
        from_dir
    };
    let joined = join(from_dir, r);
    let nb = norm(base);
    if sep_end {
        assert(from_dir =~= base + seq![from_dir.last()]);
        assert(joined =~= base + seq![from_dir.last()] + r);
        lemma_norm_concat(base, seq![from_dir.last()]);
        lemma_norm_concat(base + seq![from_dir.last()], r);
        lemma_norm_sep(from_dir.last());
        assert(norm(from_dir) =~= nb + seq!['/'] + Seq::<char>::empty());
    } else {
        assert(is_sep(main_sep()));
        assert(joined =~= base + seq![main_sep()] + r);
        lemma_norm_concat(base, seq![main_sep()]);
        lemma_norm_concat(base + seq![main_sep()], r);
        lemma_norm_sep(main_sep());
    }
    let nj = norm(joined);
    assert(nj =~= nb + seq!['/'] + norm(r));
    lemma_norm_shape(from_dir);
    lemma_split_concat(nb, norm(r), '/');
    lemma_split_concat(nb, Seq::<char>::empty(), '/');
    lemma_split_plain(Seq::<char>::empty(), '/');
    lemma_split_pieces(nb, '/');
    Seq::filter_distributes_over_add(split_char(nb, '/'), split_char(norm(r), '/'), kept);
    Seq::filter_distributes_over_add(split_char(nb, '/'), seq![Seq::<char>::empty()], kept);
    assert(seq![Seq::<char>::empty()].filter(kept) =~= Seq::<Seq<char>>::empty()) by {
        reveal_with_fuel(Seq::filter, 2);
    }
    let nf = norm(from_dir);
    assert(nj[0] == nf[0]);
    let sj = split_char(nj, '/');
    let sf = split_char(nf, '/');
    assert(sj[0] == sf[0]);
    assert(sj.filter(kept) == sf.filter(kept) + parts);
    assert(components(joined) =~= components(from_dir) + parts);
}

/// Past its first component, a path's components are plain pieces.
proof fn lemma_components_tail(p: Seq<char>)
    ensures
        forall|j: int| 1 <= j < components(p).len() ==> plain_piece(#[trigger] components(p)[j]),
        p.len() == 0 ==> components(p).len() == 0,
{
    let n = norm(p);
    let segs = split_char(n, '/');
    let kept = |seg: Seq<char>| kept_piece(seg);
    let fl = segs.filter(kept);
    let root: Seq<Seq<char>> = if n.len() > 0 && n[0] == '/' {
        seq![seq![main_sep()]]
    } else {
        Seq::empty()
    };
    let cur: Seq<Seq<char>> = if n.len() > 0 && n[0] != '/' && segs[0] == "."@ {
        seq!["."@]
    } else {
        Seq::empty()
    };
    let pre = root.len() + cur.len();
    assert(pre <= 1);
    assert(components(p) == root + cur + fl);
    lemma_split_pieces(n, '/');
    lemma_norm_shape(p);
    assert forall|j: int| 1 <= j < components(p).len() implies plain_piece(
        #[trigger] components(p)[j],
    ) by {
        let k = j - pre;
        let x = fl[k];
        assert(components(p)[j] == x);
        segs.lemma_filter_pred(kept, k);
        assert(fl.contains(x));
        segs.lemma_filter_contains_rev(kept, x);
        let m = choose|m: int| 0 <= m < segs.len() && segs[m] == x;
        assert(!segs[m].contains('/'));
        assert forall|i: int| 0 <= i < x.len() implies !is_sep(#[trigger] x[i]) by {
            assert(x.contains(x[i]));
            assert(n.contains(x[i]));
        }
    }
    if p.len() == 0 {
        lemma_split_plain(n, '/');
        assert(segs.filter(kept) =~= Seq::<Seq<char>>::empty()) by {
            reveal_with_fuel(Seq::filter, 2);
        }
    }
}

/// The relative path leads back to the target: `from_dir` joined with
/// `relative(from_dir, to)`, with each `..` stepping back over the
/// component before it, has the components of `to` (when neither path has
/// a `..` component); the relative path's own components are one `..` per
/// unshared component of `from_dir`, then the rest of `to`; and when the
/// two paths share no component, the result is `to` itself.
pub proof fn lemma_relative_leads_back(from_dir: Seq<char>, to: Seq<char>)
    requires
        no_parent_step(components(from_dir)),
        no_parent_step(components(to)),
    ensures
        common_len(components(from_dir), components(to)) == 0 ==> relative(from_dir, to) == to,
        common_len(components(from_dir), components(to)) > 0 ==> {
            &&& relative(from_dir, to) == render(relative_parts(components(from_dir), components(to)))
            &&& walk_parts(
                components(from_dir),
                relative_parts(components(from_dir), components(to)),
            ) == components(to)
            &&& walk_parts(Seq::empty(), components(join(from_dir, relative(from_dir, to))))
                == components(to)
        },
{
    let f = components(from_dir);
    let t = components(to);
    let c = common_len(f, t);
    lemma_common_prefix(f, t);
    let k = (f.len() - c) as nat;
    let dots = Seq::new(k, |i: int| ".."@);
    let rest = t.subrange(c as int, t.len() as int);
    lemma_walk_concat(f, dots, rest);
    lemma_walk_back(f, k);
    assert(no_parent_step(rest)) by {
        assert forall|i: int| 0 <= i < rest.len() implies #[trigger] rest[i] != ".."@ by {
            assert(rest[i] == t[i + c]);
        }
    }
    let kept = f.subrange(0, f.len() - k);
    lemma_walk_plain(kept, rest);
    assert(kept =~= t.subrange(0, c as int));
    assert(kept + rest =~= t);
    if c > 0 {
        let rel = relative_parts(f, t);
        lemma_components_tail(from_dir);
        lemma_components_tail(to);
        assert(plain_pieces(rel)) by {
            reveal_strlit("..");
            reveal_strlit(".");
            assert(plain_piece(".."@)) by {
                assert(".."@.len() != "."@.len());
                assert forall|j: int| 0 <= j < ".."@.len() implies !is_sep(#[trigger] ".."@[j]) by {
                    assert(".."@[j] == '.');
                }
            }
            assert forall|i: int| 0 <= i < rel.len() implies plain_piece(#[trigger] rel[i]) by {
                if i >= k {
                    assert(rel[i] == t[i - k + c]);
                } else {
                    assert(rel[i] == ".."@);
                }
            }
        }
        lemma_join_components(from_dir, rel);
        lemma_walk_concat(Seq::empty(), f, rel);
        lemma_walk_plain(Seq::empty(), f);
        assert(Seq::<Seq<char>>::empty() + f =~= f);
    }
}

/// Forward-slash text of a relative path for a dependency spec.
pub fn spec_path_string(rel: &str) -> (r: String)
    ensures
        r@ == replace_char(rel@, '\\', "/"@),
{
    let v = to_chars(rel);
    let slash = to_chars("/");
    let out = replace_chars(&v, '\\', &slash);
    from_chars(&out)
}

} // verus!
