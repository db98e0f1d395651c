//! Parsing install requests: npm package names (optionally `@version`),
//! git URLs (optionally `#tag`) and `owner/repo` shorthand, and mapping
//! names to filesystem-safe store ids.
use crate::error::{debug_quote, debug_str, AppError, ErrorModel};
use crate::text::{
    after_last, after_last_chars, after_last_pat, after_last_seq, byte_len, byte_len_exceeds,
    chars_eq, contains, contains_char, contains_seq, find, find_char, from_chars, has_prefix,
    lemma_find_char_bounds, lemma_rfind_char_bounds, opt_seq, push_all, replace_char,
    replace_chars, rfind, rfind_char, slice_to_vec, split_char, split_chars, starts_with,
    to_chars, trim, trim_chars, trim_end_matches, trim_end_matches_chars, trim_start_matches,
    trim_start_matches_chars,
};
use vstd::prelude::*;

verus! {

/// A path segment that an id must not contain: empty, `.` or `..`.
pub open spec fn bad_segment(p: Seq<char>) -> bool {
    p.len() == 0 || p == "."@ || p == ".."@
}

/// The store id for a package or repo name, or the error refusing it.
pub open spec fn id_for(raw: Seq<char>) -> Result<Seq<char>, ErrorModel> {
    let name = trim(raw);
    let parts = split_char(name, '/');
    if name.len() == 0 || byte_len(name) > 200 {
        Err(ErrorModel::Plugin("插件名称为空或过长"@))
    } else if exists|j: int| 0 <= j < parts.len() && bad_segment(#[trigger] parts[j]) {
        Err(ErrorModel::Plugin("非法的插件名称 "@ + debug_str(name) + "（包含空段或 ..）"@))
    } else if name.contains('\\') || name.contains(':') {
        Err(ErrorModel::Plugin("非法的插件名称 "@ + debug_str(name) + "（包含 \\ 或 :）"@))
    } else {
        Ok(replace_char(name, '/', "__"@))
    }
}

fn is_bad_segment(p: &[char]) -> (b: bool)
    ensures
        b == bad_segment(p@),
{
    let dot = to_chars(".");
    let dots = to_chars("..");
    p.len() == 0 || chars_eq(p, &dot) || chars_eq(p, &dots)
}

/// Map a package/repo name to a filesystem-safe store id. Slashes become
/// double underscores; empty, `.` and `..` segments are refused, and so are
/// `\` and `:` (a separator and a drive prefix on Windows), so the id can
/// never step out of the store directory.
pub fn id_for_name(raw: &str) -> (r: Result<String, AppError>)
    ensures
        r matches Ok(id) ==> id_for(raw@) == Ok::<Seq<char>, ErrorModel>(id@),
        r matches Err(e) ==> id_for(raw@) == Err::<Seq<char>, ErrorModel>(e@),
{
    let v = to_chars(raw);
    id_for_chars(&v)
}

pub fn id_for_chars(raw: &[char]) -> (r: Result<String, AppError>)
    ensures
        r matches Ok(id) ==> id_for(raw@) == Ok::<Seq<char>, ErrorModel>(id@),
        r matches Err(e) ==> id_for(raw@) == Err::<Seq<char>, ErrorModel>(e@),
{
    let name = trim_chars(raw);
    if name.len() == 0 || byte_len_exceeds(&name, 200) {
        return Err(AppError::Plugin(String::from_str("插件名称为空或过长")));
    }
    let parts = split_chars(&name, '/');
    let ghost sp = split_char(name@, '/');
    let mut i: usize = 0;
    while i < parts.len()
        invariant
            i <= parts@.len(),
            parts@.len() == sp.len(),
            name@ == trim(raw@),
            sp == split_char(name@, '/'),
            !(name@.len() == 0 || byte_len(name@) > 200),
            forall|j: int| 0 <= j < parts@.len() ==> #[trigger] parts@[j]@ == sp[j],
            forall|j: int| 0 <= j < i ==> !bad_segment(#[trigger] sp[j]),
        decreases parts.len() - i,
    {
        if is_bad_segment(&parts[i]) {
            let shown = from_chars(&name);
            let mut msg = String::from_str("非法的插件名称 ");
            let q = debug_quote(shown.as_str());
            msg.append(q.as_str());
            msg.append("（包含空段或 ..）");
            assert(sp[i as int] == parts@[i as int]@);
            assert(bad_segment(sp[i as int]));
            assert(msg@ == "非法的插件名称 "@ + debug_str(name@) + "（包含空段或 ..）"@);
            return Err(AppError::Plugin(msg));
        }
        i = i + 1;
    }
    if contains_char(&name, '\\') || contains_char(&name, ':') {
        let shown = from_chars(&name);
        let mut msg = String::from_str("非法的插件名称 ");
        let q = debug_quote(shown.as_str());
        msg.append(q.as_str());
        msg.append("（包含 \\ 或 :）");
        return Err(AppError::Plugin(msg));
    }
    let sep = to_chars("__");
    let id = replace_chars(&name, '/', &sep);
    Ok(from_chars(&id))
}


/// A name split from its version at the last `@`, when both sides are
/// non-empty and the version has no `/`.
pub open spec fn pin_split(t: Seq<char>) -> (Seq<char>, Option<Seq<char>>) {
    match rfind_char(t, '@') {
        Some(i) => {
            let n = t.subrange(0, i);
            let p = t.subrange(i + 1, t.len() as int);
            if n.len() > 0 && p.len() > 0 && !p.contains('/') {
                (n, Some(p))
            } else {
                (t, None)
            }
        },
        None => (t, None),
    }
}

/// An npm spec split into package name and optional pinned version; the
/// scope prefix of `@scope/name@1.2.3` never counts as the version.
pub open spec fn npm_split(spec: Seq<char>) -> Result<(Seq<char>, Option<Seq<char>>), ErrorModel> {
    let s = trim(spec);
    if s.len() > 0 && s[0] == '@' {
        match find_char(s, '/') {
            None => Err(ErrorModel::Plugin("非法的 npm 包名 "@ + debug_str(spec))),
            Some(i) => {
                let head = s.subrange(0, i);
                let rest = trim(s.subrange(i + 1, s.len() as int));
                let (n, p) = pin_split(rest);
                Ok((head + "/"@ + n, p))
            },
        }
    } else {
        Ok(pin_split(s))
    }
}

fn pin_split_chars(t: &[char]) -> (r: (Vec<char>, Option<Vec<char>>))
    ensures
        (r.0@, opt_seq(r.1)) == pin_split(t@),
{
    match rfind(t, '@') {
        Some(i) => {
            proof {
                lemma_rfind_char_bounds(t@, '@');
            }
            let n = slice_to_vec(t, 0, i);
            let p = slice_to_vec(t, i + 1, t.len());
            if n.len() > 0 && p.len() > 0 && !contains_char(&p, '/') {
                (n, Some(p))
            } else {
                (slice_to_vec(t, 0, t.len()), None)
            }
        },
        None => (slice_to_vec(t, 0, t.len()), None),
    }
}

fn npm_error(spec: &[char]) -> (e: AppError)
    ensures
        e@ == ErrorModel::Plugin("非法的 npm 包名 "@ + debug_str(spec@)),
{
    let shown = from_chars(spec);
    let mut msg = String::from_str("非法的 npm 包名 ");
    let q = debug_quote(shown.as_str());
    msg.append(q.as_str());
    AppError::Plugin(msg)
}

/// Split an npm spec into (name, optional pin).
pub fn split_npm_spec(spec: &[char]) -> (r: Result<(Vec<char>, Option<Vec<char>>), AppError>)
    ensures
        r matches Ok((n, p)) ==> npm_split(spec@) == Ok::<
            (Seq<char>, Option<Seq<char>>),
            ErrorModel,
        >((n@, opt_seq(p))),
        r matches Err(e) ==> npm_split(spec@) == Err::<(Seq<char>, Option<Seq<char>>), ErrorModel>(
            e@,
        ),
{
    let s = trim_chars(spec);
    if s.len() > 0 && s[0] == '@' {
        match find(&s, '/') {
            None => Err(npm_error(spec)),
            Some(i) => {
                proof {
                    lemma_find_char_bounds(s@, '/');
                }
                let head = slice_to_vec(&s, 0, i);
                let rest_raw = slice_to_vec(&s, i + 1, s.len());
                let rest = trim_chars(&rest_raw);
                let (n, p) = pin_split_chars(&rest);
                let mut name = head;
                name.push('/');
                push_all(&mut name, &n);
                assert(name@ =~= s@.subrange(0, i as int) + "/"@ + n@) by {
                    reveal_strlit("/");
                }
                Ok((name, p))
            },
        }
    } else {
        Ok(pin_split_chars(&s))
    }
}


/// A parsed install request.
#[derive(Debug, Clone)]
pub struct PluginSpec {
    pub origin: String,
    /// npm package name or git URL.
    pub source: String,
    /// Optional pinned version (npm) or tag (git).
    pub pin: Option<String>,
    /// Filesystem-safe store id.
    pub id: String,
    /// Display name.
    pub name: String,
    /// Human-facing repo URL for git origin.
    pub repo_url: Option<String>,
}

/// A parsed install request as mathematical text.
pub struct PluginSpecModel {
    pub origin: Seq<char>,
    pub source: Seq<char>,
    pub pin: Option<Seq<char>>,
    pub id: Seq<char>,
    pub name: Seq<char>,
    pub repo_url: Option<Seq<char>>,
}

/// An optional owned string read as optional text.
pub open spec fn opt_text(o: Option<String>) -> Option<Seq<char>> {
    match o {
        Some(s) => Some(s@),
        None => None,
    }
}

/// A copy of an optional string.
pub fn copy_opt(o: &Option<String>) -> (r: Option<String>)
    ensures
        opt_text(r) == opt_text(*o),
{
    match o {
        Some(s) => Some(s.clone()),
        None => None,
    }
}

impl View for PluginSpec {
    type V = PluginSpecModel;

    open spec fn view(&self) -> PluginSpecModel {
        PluginSpecModel {
            origin: self.origin@,
            source: self.source@,
            pin: opt_text(self.pin),
            id: self.id@,
            name: self.name@,
            repo_url: opt_text(self.repo_url),
        }
    }
}

/// A character allowed in an npm package name.
pub open spec fn npm_name_char(c: char) -> bool {
    ||| ('a' <= c && c <= 'z')
    ||| ('A' <= c && c <= 'Z')
    ||| ('0' <= c && c <= '9')
    ||| c == '-'
    ||| c == '.'
    ||| c == '_'
    ||| c == '@'
    ||| c == '/'
}

/// A git URL split at the first `#` into URL and tag, when both are non-empty.
pub open spec fn tag_split(s: Seq<char>) -> (Seq<char>, Option<Seq<char>>) {
    match find_char(s, '#') {
        Some(i) => if i > 0 && i + 1 < s.len() {
            (s.subrange(0, i), Some(s.subrange(i + 1, s.len() as int)))
        } else {
            (s, None)
        },
        None => (s, None),
    }
}

/// What an install request parses to.
pub open spec fn parsed_spec(spec: Seq<char>) -> Result<PluginSpecModel, ErrorModel> {
    let s = trim_end_matches(trim(spec), "/"@);
    if s.len() == 0 || byte_len(s) > 500 {
        Err(ErrorModel::Plugin("安装地址为空或过长"@))
    } else if has_prefix(s, "git@"@) || contains_seq(s, "://"@) || contains_seq(s, "github.com/"@) {
        let (url, pin) = tag_split(s);
        let repo_url = if contains_seq(s, "github.com/"@) {
            Some(url)
        } else {
            None
        };
        let id_base = replace_char(
            trim_end_matches(after_last_seq(trim_start_matches(url, "git@"@), "://"@), ".git"@),
            ':',
            "/"@,
        );
        match id_for(id_base) {
            Err(e) => Err(e),
            Ok(id) => Ok(
                PluginSpecModel {
                    origin: "git"@,
                    source: url,
                    pin: pin,
                    id: id,
                    name: after_last(trim_end_matches(url, ".git"@), '/'),
                    repo_url: repo_url,
                },
            ),
        }
    } else if s.contains('/') && s[0] != '@' {
        let (repo, pin) = tag_split(s);
        match id_for(repo) {
            Err(e) => Err(e),
            Ok(id) => Ok(
                PluginSpecModel {
                    origin: "git"@,
                    source: "https://github.com/"@ + repo + ".git"@,
                    pin: pin,
                    id: id,
                    name: after_last(repo, '/'),
                    repo_url: Some("https://github.com/"@ + repo),
                },
            ),
        }
    } else {
        match npm_split(s) {
            Err(e) => Err(e),
            Ok((name, pin)) => if !(forall|i: int| 0 <= i < name.len() ==> npm_name_char(#[trigger] name[i])) {
                Err(ErrorModel::Plugin("非法的 npm 包名 "@ + debug_str(spec)))
            } else {
                match id_for(name) {
                    Err(e) => Err(e),
                    Ok(id) => Ok(
                        PluginSpecModel {
                            origin: "npm"@,
                            source: name,
                            pin: pin,
                            id: id,
                            name: name,
                            repo_url: None,
                        },
                    ),
                }
            },
        }
    }
}

fn tag_split_chars(s: &[char]) -> (r: (Vec<char>, Option<Vec<char>>))
    ensures
        (r.0@, opt_seq(r.1)) == tag_split(s@),
{
    match find(s, '#') {
        Some(i) => {
            if i > 0 && i + 1 < s.len() {
                (slice_to_vec(s, 0, i), Some(slice_to_vec(s, i + 1, s.len())))
            } else {
                (slice_to_vec(s, 0, s.len()), None)
            }
        },
        None => (slice_to_vec(s, 0, s.len()), None),
    }
}

fn all_npm_chars(v: &[char]) -> (b: bool)
    ensures
        b == (forall|i: int| 0 <= i < v@.len() ==> npm_name_char(#[trigger] v@[i])),
{
    let mut i: usize = 0;
    while i < v.len()
        invariant
            i <= v@.len(),
            forall|j: int| 0 <= j < i ==> npm_name_char(#[trigger] v@[j]),
        decreases v.len() - i,
    {
        let c = v[i];
        let ok = ('a' <= c && c <= 'z') || ('A' <= c && c <= 'Z') || ('0' <= c && c <= '9') || c
            == '-' || c == '.' || c == '_' || c == '@' || c == '/';
        if !ok {
            assert(!npm_name_char(v@[i as int]));
            return false;
        }
        i = i + 1;
    }
    true
}

/// Parse an install request into a `PluginSpec`. Accepts npm package
/// names (with optional `@version`) and git URLs (https, `git@`, or
/// `owner/repo` shorthand), each git form with an optional `#tag`.
pub fn parse_spec(spec: &str) -> (r: Result<PluginSpec, AppError>)
    ensures
        r matches Ok(p) ==> parsed_spec(spec@) == Ok::<PluginSpecModel, ErrorModel>(p@),
        r matches Err(e) ==> parsed_spec(spec@) == Err::<PluginSpecModel, ErrorModel>(e@),
{
    let raw = to_chars(spec);
    let trimmed = trim_chars(&raw);
    let slash = to_chars("/");
    let s = trim_end_matches_chars(&trimmed, &slash);
    if s.len() == 0 || byte_len_exceeds(&s, 500) {
        return Err(AppError::Plugin(String::from_str("安装地址为空或过长")));
    }
    let git_at = to_chars("git@");
    let scheme = to_chars("://");
    let github = to_chars("github.com/");
    let dot_git = to_chars(".git");
    let on_github = contains(&s, &github);
    if starts_with(&s, &git_at) || contains(&s, &scheme) || on_github {
        let (url, pin) = tag_split_chars(&s);
        let no_user = trim_start_matches_chars(&url, &git_at);
        let after_scheme = after_last_pat(&no_user, &scheme);
        let no_suffix = trim_end_matches_chars(&after_scheme, &dot_git);
        let id_base = replace_chars(&no_suffix, ':', &slash);
        let id = match id_for_chars(&id_base) {
            Ok(id) => id,
            Err(e) => {
                return Err(e);
            },
        };
        let url_base = trim_end_matches_chars(&url, &dot_git);
        let name = after_last_chars(&url_base, '/');
        let repo_url = if on_github {
            Some(from_chars(&url))
        } else {
            None
        };
        let pin = match pin {
            Some(p) => Some(from_chars(&p)),
            None => None,
        };
        return Ok(
            PluginSpec {
                origin: String::from_str("git"),
                source: from_chars(&url),
                pin,
                id,
                name: from_chars(&name),
                repo_url,
            },
        );
    }
    if contains_char(&s, '/') && s[0] != '@' {
        let (base, pin) = tag_split_chars(&s);
        let id = match id_for_chars(&base) {
            Ok(id) => id,
            Err(e) => {
                return Err(e);
            },
        };
        let mut repo = to_chars("https://github.com/");
        push_all(&mut repo, &base);
        let mut source = repo.clone();
        push_all(&mut source, &dot_git);
        let name = after_last_chars(&base, '/');
        let pin = match pin {
            Some(p) => Some(from_chars(&p)),
            None => None,
        };
        return Ok(
            PluginSpec {
                origin: String::from_str("git"),
                source: from_chars(&source),
                pin,
                id,
                name: from_chars(&name),
                repo_url: Some(from_chars(&repo)),
            },
        );
    }
    let (name, pin) = match split_npm_spec(&s) {
        Ok(np) => np,
        Err(e) => {
            return Err(e);
        },
    };
    if !all_npm_chars(&name) {
        return Err(npm_error(&raw));
    }
    let id = match id_for_chars(&name) {
        Ok(id) => id,
        Err(e) => {
            return Err(e);
        },
    };
    let pin = match pin {
        Some(p) => Some(from_chars(&p)),
        None => None,
    };
    Ok(
        PluginSpec {
            origin: String::from_str("npm"),
            source: from_chars(&name),
            pin,
            id,
            name: from_chars(&name),
            repo_url: None,
        },
    )
}


proof fn lemma_replace_facts(s: Seq<char>, c: char, rep: Seq<char>)
    requires
        rep.len() > 0,
        !rep.contains(c),
    ensures
        !replace_char(s, c, rep).contains(c),
        s.contains(c) ==> replace_char(s, c, rep).contains(rep[0]),
        !s.contains(c) ==> replace_char(s, c, rep) == s,
    decreases s.len(),
{
    if s.len() > 0 {
        let init = s.drop_last();
        lemma_replace_facts(init, c, rep);
        let r0 = replace_char(init, c, rep);
        let tail = if s.last() == c {
            rep
        } else {
            seq![s.last()]
        };
        let r = replace_char(s, c, rep);
        assert(r == r0 + tail);
        assert forall|k: int| 0 <= k < r.len() implies r[k] != c by {
            if k < r0.len() {
                assert(r[k] == r0[k]);
                assert(r0.contains(r0[k]));
            } else {
                assert(r[k] == tail[k - r0.len()]);
                if s.last() == c {
                    assert(rep.contains(rep[k - r0.len()]));
                }
            }
        }
        if s.contains(c) {
            if s.last() == c {
                assert(r[r0.len() as int] == rep[0]);
            } else {
                let k = choose|k: int| 0 <= k < s.len() && s[k] == c;
                assert(init[k] == c);
                assert(init.contains(c));
                let m = choose|m: int| 0 <= m < r0.len() && r0[m] == rep[0];
                assert(r[m] == rep[0]);
            }
        } else {
            assert forall|k: int| 0 <= k < init.len() implies init[k] != c by {
                assert(s[k] == init[k]);
            }
            assert(r0 == init);
            assert(r =~= s);
        }
    } else {
        assert(replace_char(s, c, rep) =~= s);
    }
}

proof fn lemma_find_absent(s: Seq<char>, c: char)
    requires
        !s.contains(c),
    ensures
        find_char(s, c) is None,
    decreases s.len(),
{
    if s.len() > 0 {
        let t = s.drop_first();
        assert forall|k: int| 0 <= k < t.len() implies t[k] != c by {
            assert(t[k] == s[k + 1]);
        }
        lemma_find_absent(t, c);
        assert(s[0] != c);
    }
}

/// An id that stays one entry directly inside the store on every host: non-empty,
/// free of the separators `/` and `\` and of the drive mark `:`, and neither
/// `.` nor `..`.
pub open spec fn single_entry(id: Seq<char>) -> bool {
    id.len() > 0 && !id.contains('/') && !id.contains('\\') && !id.contains(':') && id != "."@
        && id != ".."@
}

proof fn lemma_replace_keeps_absent(s: Seq<char>, c: char, rep: Seq<char>, d: char)
    requires
        !s.contains(d),
        !rep.contains(d),
    ensures
        !replace_char(s, c, rep).contains(d),
    decreases s.len(),
{
    if s.len() > 0 {
        let init = s.drop_last();
        assert forall|k: int| 0 <= k < init.len() implies init[k] != d by {
            assert(s[k] == init[k]);
        }
        lemma_replace_keeps_absent(init, c, rep, d);
        let r0 = replace_char(init, c, rep);
        let tail = if s.last() == c {
            rep
        } else {
            seq![s.last()]
        };
        let r = replace_char(s, c, rep);
        assert(r == r0 + tail);
        assert(s[s.len() - 1] != d);
        assert forall|k: int| 0 <= k < r.len() implies r[k] != d by {
            if k < r0.len() {
                assert(r[k] == r0[k]);
                assert(r0.contains(r0[k]));
            } else {
                assert(r[k] == tail[k - r0.len()]);
                if s.last() == c {
                    assert(rep.contains(rep[k - r0.len()]));
                }
            }
        }
    }
}

/// An accepted name's id is a single entry on every host (`single_entry`):
/// joined to the store directory it always names one entry directly inside
/// it.
pub proof fn lemma_store_ids_stay_inside(raw: Seq<char>)
    ensures
        id_for(raw) matches Ok(id) ==> single_entry(id),
{
    reveal_strlit("__");
    reveal_strlit(".");
    reveal_strlit("..");
    let name = trim(raw);
    let rep = "__"@;
    assert(rep[0] == '_' && rep[1] == '_' && rep.len() == 2);
    assert(!rep.contains('/'));
    if id_for(raw) is Ok {
        let id = replace_char(name, '/', rep);
        lemma_replace_facts(name, '/', rep);
        assert(!rep.contains('\\') && !rep.contains(':'));
        lemma_replace_keeps_absent(name, '/', rep, '\\');
        lemma_replace_keeps_absent(name, '/', rep, ':');
        if name.contains('/') {
            let m = choose|m: int| 0 <= m < id.len() && id[m] == '_';
            assert(id.len() > 0);
            assert(id != "."@) by {
                if id == "."@ {
                    assert(id[m] == '.');
                }
            }
            assert(id != ".."@) by {
                if id == ".."@ {
                    assert(id[m] == '.');
                }
            }
        } else {
            lemma_find_absent(name, '/');
            let parts = split_char(name, '/');
            assert(parts == seq![name]);
            assert(parts[0] == name);
            assert(!bad_segment(parts[0]));
        }
    }
}


/// Every install request that parses gets a store id that names one entry
/// directly inside the store.
pub proof fn lemma_parsed_ids_stay_inside(spec: Seq<char>)
    ensures
        parsed_spec(spec) matches Ok(p) ==> single_entry(p.id),
{
    let s = trim_end_matches(trim(spec), "/"@);
    let (url, pin) = tag_split(s);
    let id_base = replace_char(
        trim_end_matches(after_last_seq(trim_start_matches(url, "git@"@), "://"@), ".git"@),
        ':',
        "/"@,
    );
    lemma_store_ids_stay_inside(id_base);
    lemma_store_ids_stay_inside(tag_split(s).0);
    match npm_split(s) {
        Ok((name, _)) => {
            lemma_store_ids_stay_inside(name);
        },
        Err(_) => {},
    }
}

/// An install request as parsing reads it: trimmed, trailing `/` dropped.
pub open spec fn request_text(spec: Seq<char>) -> Seq<char> {
    trim_end_matches(trim(spec), "/"@)
}

/// A request in git URL form (https, `git@`, or naming `github.com/`).
pub open spec fn url_request(s: Seq<char>) -> bool {
    has_prefix(s, "git@"@) || contains_seq(s, "://"@) || contains_seq(s, "github.com/"@)
}

proof fn lemma_tag_split_parts(s: Seq<char>)
    ensures
        tag_split(s).1 matches Some(t) ==> tag_split(s).0 + "#"@ + t == s && !tag_split(
            s,
        ).0.contains('#') && tag_split(s).0.len() > 0 && t.len() > 0,
        tag_split(s).1 is None ==> tag_split(s).0 == s,
{
    reveal_strlit("#");
    lemma_find_char_bounds(s, '#');
    if let Some(i) = find_char(s, '#') {
        if i > 0 && i + 1 < s.len() {
            let u = s.subrange(0, i);
            assert(u + "#"@ + s.subrange(i + 1, s.len() as int) =~= s);
            assert(!u.contains('#')) by {
                if u.contains('#') {
                    let j = choose|j: int| 0 <= j < u.len() && u[j] == '#';
                    assert(s[j] == '#');
                }
            }
        }
    }
}

/// A git request's `#tag` is taken off what is cloned. For a URL request
/// with a tag, the source followed by `#` and the tag is the request
/// itself, and the source holds no `#`; without a tag the source is the
/// request. For `owner/repo#tag` the clone URL is
/// `https://github.com/owner/repo.git`, with `owner/repo` the part of the
/// request before its first `#`.
pub proof fn lemma_git_tag_leaves_source(spec: Seq<char>)
    ensures
        parsed_spec(spec) matches Ok(p) ==> (url_request(request_text(spec)) ==> {
            &&& p.origin == "git"@
            &&& (p.pin matches Some(t) ==> p.source + "#"@ + t == request_text(spec)
                && !p.source.contains('#'))
            &&& (p.pin is None ==> p.source == request_text(spec))
        }),
        parsed_spec(spec) matches Ok(p) ==> ((!url_request(request_text(spec)) && request_text(
            spec,
        ).contains('/') && request_text(spec)[0] != '@') ==> (p.pin matches Some(t) ==> {
            let repo = request_text(spec).subrange(0, request_text(spec).len() - t.len() - 1);
            &&& repo + "#"@ + t == request_text(spec)
            &&& !repo.contains('#')
            &&& p.source == "https://github.com/"@ + repo + ".git"@
        })),
{
    let s = request_text(spec);
    lemma_tag_split_parts(s);
    reveal_strlit("#");
    if let Some(t) = tag_split(s).1 {
        let u = tag_split(s).0;
        assert((u + "#"@ + t).len() == u.len() + 1 + t.len());
        assert(s.subrange(0, s.len() - t.len() - 1) =~= u);
    }
}

} // verus!
