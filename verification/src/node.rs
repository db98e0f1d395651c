//! The Node.js runtime that runs the kernel: reading `node --version`,
//! the engine range dsh requires, and how a configured or detected
//! executable is reported.
use crate::text::{
    decimal, from_chars, is_digit, parse_unsigned, parse_unsigned_chars, push_all,
    push_decimal, slice_to_vec, split_char, split_chars, to_chars, trim, trim_chars,
};
use vstd::prelude::*;

verus! {

/// What the shell found out about a Node candidate.
#[derive(Debug, Clone)]
pub struct NodeInfo {
    pub path: String,
    pub version: Option<String>,
    pub ok: bool,
    pub reason: String,
}

/// A Node candidate's report as text.
pub struct NodeModel {
    pub path: Seq<char>,
    pub version: Option<Seq<char>>,
    pub ok: bool,
    pub reason: Seq<char>,
}

impl View for NodeInfo {
    type V = NodeModel;

    open spec fn view(&self) -> NodeModel {
        NodeModel {
            path: self.path@,
            version: match self.version {
                Some(v) => Some(v@),
                None => None,
            },
            ok: self.ok,
            reason: self.reason@,
        }
    }
}

pub open spec fn u32_max() -> nat {
    4294967295
}

/// The leading ASCII digits of `s`.
pub open spec fn digit_run(s: Seq<char>) -> Seq<char>
    decreases s.len(),
{
    if s.len() > 0 && is_digit(s[0]) {
        seq![s[0]] + digit_run(s.drop_first())
    } else {
        seq![]
    }
}

/// `(major, minor, patch)` of `v22.19.0`-style output: trimmed, a leading
/// `v`, then dot-separated numbers, the patch read up to its first
/// non-digit (`v22.19.0-nightly` gives patch 0).
pub open spec fn node_version(out: Seq<char>) -> Option<(nat, nat, nat)> {
    let t = trim(out);
    if t.len() == 0 || t[0] != 'v' {
        None
    } else {
        let parts = split_char(t.drop_first(), '.');
        if parts.len() < 3 {
            None
        } else {
            match (
                parse_unsigned(parts[0], u32_max()),
                parse_unsigned(parts[1], u32_max()),
                parse_unsigned(digit_run(parts[2]), u32_max()),
            ) {
                (Some(a), Some(b), Some(c)) => Some((a, b, c)),
                _ => None,
            }
        }
    }
}

fn digit_run_chars(v: &[char]) -> (r: Vec<char>)
    ensures
        r@ == digit_run(v@),
{
    let n = v.len();
    let mut i: usize = 0;
    assert(v@.subrange(0, 0) + digit_run(v@.subrange(0, n as int)) =~= digit_run(v@)) by {
        assert(v@.subrange(0, n as int) =~= v@);
    }
    while i < n && v[i] >= '0' && v[i] <= '9'
        invariant
            i <= n,
            n == v@.len(),
            digit_run(v@) == v@.subrange(0, i as int) + digit_run(v@.subrange(i as int, n as int)),
        decreases n - i,
    {
        let ghost sub = v@.subrange(i as int, n as int);
        assert(sub[0] == v@[i as int]);
        assert(sub.drop_first() =~= v@.subrange(i + 1, n as int));
        assert(v@.subrange(0, i + 1) =~= v@.subrange(0, i as int) + seq![v@[i as int]]);
        i = i + 1;
        assert(digit_run(v@) =~= v@.subrange(0, i as int) + digit_run(
            v@.subrange(i as int, n as int),
        ));
    }
    proof {
        let sub = v@.subrange(i as int, n as int);
        if i < n {
            assert(sub[0] == v@[i as int]);
        }
        assert(digit_run(sub) =~= Seq::<char>::empty());
        assert(digit_run(v@) =~= v@.subrange(0, i as int));
    }
    slice_to_vec(v, 0, i)
}

/// Parses `v22.19.0`-style output into `(major, minor, patch)`.
pub fn parse_version(output: &str) -> (r: Option<(u32, u32, u32)>)
    ensures
        r matches Some(t) ==> node_version(output@) == Some((t.0 as nat, t.1 as nat, t.2 as nat)),
        r is None ==> node_version(output@) is None,
{
    let v = to_chars(output);
    let t = trim_chars(&v);
    if t.len() == 0 || t[0] != 'v' {
        return None;
    }
    let rest = slice_to_vec(&t, 1, t.len());
    assert(rest@ =~= t@.drop_first());
    let parts = split_chars(&rest, '.');
    if parts.len() < 3 {
        return None;
    }
    let major = parse_unsigned_chars(&parts[0], 4294967295);
    let minor = parse_unsigned_chars(&parts[1], 4294967295);
    let run = digit_run_chars(&parts[2]);
    let patch = parse_unsigned_chars(&run, 4294967295);
    match (major, minor, patch) {
        (Some(a), Some(b), Some(c)) => Some((a as u32, b as u32, c as u32)),
        _ => None,
    }
}

/// The dsh engine range `^22.19.0 || >=24.0.0`.
pub open spec fn compatible_version(v: (nat, nat, nat)) -> bool {
    (v.0 == 22 && v.1 >= 19) || v.0 >= 24
}

/// Whether a parsed version satisfies the dsh engine requirement.
pub fn compatible(v: (u32, u32, u32)) -> (b: bool)
    ensures
        b == compatible_version((v.0 as nat, v.1 as nat, v.2 as nat)),
{
    (v.0 == 22 && v.1 >= 19) || v.0 >= 24
}

/// What `node --version` reports: the trimmed output when the command
/// succeeded and the output parses as a version.
pub open spec fn reported_version(success: bool, stdout: Seq<char>) -> Option<Seq<char>> {
    if success && node_version(stdout) is Some {
        Some(trim(stdout))
    } else {
        None
    }
}

/// The version a node executable reported, from the exit status and the
/// standard output of `node --version`.
pub fn version_of(success: bool, stdout: &str) -> (r: Option<String>)
    ensures
        (match r {
            Some(s) => Some(s@),
            None => None,
        }) == reported_version(success, stdout@),
{
    if !success {
        return None;
    }
    let v = to_chars(stdout);
    let t = trim_chars(&v);
    match parse_version(stdout) {
        Some(_) => Some(from_chars(&t)),
        None => None,
    }
}

/// The report on a candidate executable at `path`: `is_file` says whether
/// the path is a readable file, `version` what it reported (see
/// `version_of`).
pub open spec fn probe_report(path: Seq<char>, is_file: bool, version: Option<Seq<char>>) -> NodeModel {
    if !is_file {
        NodeModel { path, version: None, ok: false, reason: "路径不存在或不可读"@ }
    } else {
        match version {
            None => NodeModel {
                path,
                version: None,
                ok: false,
                reason: "无法读取版本输出（可能不是有效的 node 可执行文件）"@,
            },
            Some(v) => {
                let parsed = match node_version(v) {
                    Some(t) => t,
                    None => (0nat, 0nat, 0nat),
                };
                if compatible_version(parsed) {
                    NodeModel { path, version: Some(v), ok: true, reason: "可用"@ }
                } else {
                    NodeModel {
                        path,
                        version: Some(v),
                        ok: false,
                        reason: "版本 "@ + decimal(parsed.0) + "."@ + decimal(parsed.1) + "."@
                            + decimal(parsed.2) + " 不满足 dsh 要求（^22.19 || >=24）"@,
                    }
                }
            },
        }
    }
}

/// Reports how usable a candidate node executable is.
pub fn probe(path: &str, is_file: bool, version: Option<String>) -> (r: NodeInfo)
    ensures
        r@ == probe_report(
            path@,
            is_file,
            match version {
                Some(v) => Some(v@),
                None => None,
            },
        ),
{
    if !is_file {
        return NodeInfo {
            path: path.to_string(),
            version: None,
            ok: false,
            reason: String::from_str("路径不存在或不可读"),
        };
    }
    match version {
        None => NodeInfo {
            path: path.to_string(),
            version: None,
            ok: false,
            reason: String::from_str("无法读取版本输出（可能不是有效的 node 可执行文件）"),
        },
        Some(v) => {
            let parsed = match parse_version(v.as_str()) {
                Some(t) => t,
                None => (0, 0, 0),
            };
            if compatible(parsed) {
                NodeInfo {
                    path: path.to_string(),
                    version: Some(v),
                    ok: true,
                    reason: String::from_str("可用"),
                }
            } else {
                let mut msg = to_chars("版本 ");
                push_decimal(&mut msg, parsed.0 as u64);
                msg.push('.');
                push_decimal(&mut msg, parsed.1 as u64);
                msg.push('.');
                push_decimal(&mut msg, parsed.2 as u64);
                let tail = to_chars(" 不满足 dsh 要求（^22.19 || >=24）");
                push_all(&mut msg, &tail);
                proof {
                    reveal_strlit(".");
                }
                assert(msg@ =~= "版本 "@ + decimal(parsed.0 as nat) + "."@ + decimal(parsed.1 as nat)
                    + "."@ + decimal(parsed.2 as nat) + " 不满足 dsh 要求（^22.19 || >=24）"@);
                NodeInfo { path: path.to_string(), version: Some(v), ok: false, reason: from_chars(&msg) }
            }
        },
    }
}

/// The runtime to use: a usable configured executable; otherwise the one
/// detected in the environment (explaining why the configured one was
/// passed over); otherwise a report of what is missing.
pub open spec fn resolved(configured: Option<NodeModel>, detected: Option<NodeModel>) -> NodeModel {
    match configured {
        Some(info) => if info.ok {
            info
        } else {
            match detected {
                Some(d) => NodeModel {
                    reason: "配置的路径不可用（"@ + info.reason + "），已自动回退到："@ + d.path,
                    ..d
                },
                None => NodeModel {
                    path: info.path,
                    ok: false,
                    version: None,
                    reason: "配置路径不可用，且环境中也未找到 node："@ + info.reason,
                },
            }
        },
        None => match detected {
            Some(d) => d,
            None => NodeModel {
                path: Seq::empty(),
                version: None,
                ok: false,
                reason: "未检测到 Node.js。请安装 Node.js 22.19+（或 >=24）后重试，或在设置中手动指定 node 路径。"@,
            },
        },
    }
}

pub open spec fn node_model(o: Option<NodeInfo>) -> Option<NodeModel> {
    match o {
        Some(i) => Some(i@),
        None => None,
    }
}

/// Resolves the node executable from explicit configuration, then the
/// environment. `configured` is the probe of the configured node path when
/// one is set; `detected` the probe of the executable found on the `PATH`
/// or at a well-known install location, when one was found.
pub fn resolve(configured: Option<NodeInfo>, detected: Option<NodeInfo>) -> (r: NodeInfo)
    ensures
        r@ == resolved(node_model(configured), node_model(detected)),
{
    match configured {
        Some(info) => {
            if info.ok {
                return info;
            }
            match detected {
                Some(d) => {
                    let mut msg = to_chars("配置的路径不可用（");
                    let r = to_chars(info.reason.as_str());
                    push_all(&mut msg, &r);
                    let mid = to_chars("），已自动回退到：");
                    push_all(&mut msg, &mid);
                    let p = to_chars(d.path.as_str());
                    push_all(&mut msg, &p);
                    NodeInfo { path: d.path, version: d.version, ok: d.ok, reason: from_chars(&msg) }
                },
                None => {
                    let mut msg = to_chars("配置路径不可用，且环境中也未找到 node：");
                    let r = to_chars(info.reason.as_str());
                    push_all(&mut msg, &r);
                    NodeInfo { path: info.path, ok: false, version: None, reason: from_chars(&msg) }
                },
            }
        },
        None => match detected {
            Some(d) => d,
            None => NodeInfo {
                path: String::new(),
                version: None,
                ok: false,
                reason: String::from_str(
                    "未检测到 Node.js。请安装 Node.js 22.19+（或 >=24）后重试，或在设置中手动指定 node 路径。",
                ),
            },
        },
    }
}

/// ASCII lower case of one character (`char::to_ascii_lowercase`).
pub open spec fn ascii_lower(c: char) -> char {
    if 'A' <= c && c <= 'Z' {
        ((c as u32) + 32) as char
    } else {
        c
    }
}

/// The executable's file name to look up: on Windows `.exe` is appended
/// unless the name already ends with it in any letter case.
pub open spec fn exe_file_name(name: Seq<char>, windows: bool) -> Seq<char> {
    let lower = name.map_values(|c: char| ascii_lower(c));
    if windows && !(lower.len() >= 4 && lower.subrange(lower.len() - 4, lower.len() as int)
        == ".exe"@) {
        name + ".exe"@
    } else {
        name
    }
}

fn lower_char(c: char) -> (r: char)
    ensures
        r == ascii_lower(c),
{
    if c >= 'A' && c <= 'Z' {
        let b: u8 = (c as u32 + 32) as u8;
        b as char
    } else {
        c
    }
}

/// The file name `name` is looked up as on the host (`windows`: a Windows
/// host).
pub fn exe_name(name: &str, windows: bool) -> (r: String)
    ensures
        r@ == exe_file_name(name@, windows),
{
    let v = to_chars(name);
    let mut lower: Vec<char> = Vec::new();
    let mut i: usize = 0;
    while i < v.len()
        invariant
            i <= v@.len(),
            lower@ == v@.subrange(0, i as int).map_values(|c: char| ascii_lower(c)),
        decreases v.len() - i,
    {
        let c = lower_char(v[i]);
        lower.push(c);
        i = i + 1;
        assert(lower@ =~= v@.subrange(0, i as int).map_values(|c: char| ascii_lower(c)));
    }
    assert(v@.subrange(0, v@.len() as int) =~= v@);
    let n = lower.len();
    let ends_exe = n >= 4 && lower[n - 4] == '.' && lower[n - 3] == 'e' && lower[n - 2] == 'x'
        && lower[n - 1] == 'e';
    proof {
        reveal_strlit(".exe");
        if n >= 4 {
            let tail = lower@.subrange(n - 4, n as int);
            assert(tail[0] == lower@[n - 4]);
            assert(tail[1] == lower@[n - 3]);
            assert(tail[2] == lower@[n - 2]);
            assert(tail[3] == lower@[n - 1]);
            if ends_exe {
                assert(tail =~= ".exe"@);
            } else {
                assert(tail != ".exe"@);
            }
        }
    }
    if windows && !ends_exe {
        let mut out = v;
        let ext = to_chars(".exe");
        push_all(&mut out, &ext);
        from_chars(&out)
    } else {
        name.to_string()
    }
}

/// `v` is at or above `w` in the usual ordering of versions: by major, then
/// minor, then patch.
pub open spec fn at_least(v: (nat, nat, nat), w: (nat, nat, nat)) -> bool {
    v.0 > w.0 || (v.0 == w.0 && (v.1 > w.1 || (v.1 == w.1 && v.2 >= w.2)))
}

/// A Node.js version is accepted exactly when it lies in the engine range
/// `^22.19.0 || >=24.0.0`: at or above 22.19.0 and below 23.0.0, or at or
/// above 24.0.0. In particular every version from 24 on is accepted, and
/// acceptance never drops as the version rises past 24.
pub proof fn lemma_compatible_is_engine_range(v: (nat, nat, nat), w: (nat, nat, nat))
    ensures
        compatible_version(v) <==> ((at_least(v, (22, 19, 0)) && !at_least(v, (23, 0, 0)))
            || at_least(v, (24, 0, 0))),
        v.0 >= 24 ==> compatible_version(v),
        (compatible_version(v) && v.0 >= 24 && at_least(w, v)) ==> compatible_version(w),
{
}

} // verus!
