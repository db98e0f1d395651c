//! What the management UI's commands decide before and after their I/O:
//! error text, the pnpm hand-off, the log file list and its names, the
//! harness address, and the shell's own update state.
use crate::clock::epoch_secs;
use crate::node::NodeInfo;
use crate::paths::{join, join_path, logs_dir, parent_of, path_parent};
use crate::text::{
    chars_less, contains, contains_char, contains_seq, decimal, from_chars,
    lemma_text_less_total, lemma_text_less_transitive, push_all, push_decimal, rfind, rfind_char,
    slice_to_vec, text_less, to_chars,
};
use vstd::multiset::Multiset;
use vstd::prelude::*;

verus! {

/// An error as the UI shows it: the message, then the data directory.
pub fn app_err(data_dir: &str, e: &str) -> (r: String)
    ensures
        r@ == e@ + "（数据目录："@ + data_dir@ + "）"@,
{
    let mut out = to_chars(e);
    let a = to_chars("（数据目录：");
    push_all(&mut out, &a);
    let d = to_chars(data_dir);
    push_all(&mut out, &d);
    let b = to_chars("）");
    push_all(&mut out, &b);
    from_chars(&out)
}

/// Where pnpm is looked for and installed from: the resolved node
/// executable, its directory, and the log of a pnpm auto-install.
#[derive(Debug)]
pub struct PnpmPlan {
    pub node_path: String,
    pub node_dir: String,
    pub install_log: String,
}

/// Prepares the pnpm hand-off against a probed node: a node that is not
/// usable refuses with its reason. The node's directory is its parent
/// (`.` when it has none); the install log is
/// `<logs>/pnpm-install-<seconds since the epoch>.log` (0 when the clock
/// reads before the epoch).
pub fn promise_pnpm(data_dir: &str, node_info: &NodeInfo) -> (r: Result<PnpmPlan, String>)
    ensures
        !node_info.ok ==> (r matches Err(e) && e@ == node_info.reason@),
        node_info.ok ==> (r matches Ok(p) && p.node_path@ == node_info.path@ && p.node_dir@ == (
        match path_parent(node_info.path@) {
            Some(d) => d,
            None => "."@,
        }) && exists|secs: u64|
            p.install_log@ == join(join(data_dir@, "logs"@), "pnpm-install-"@ + decimal(secs as nat) + ".log"@)),
{
    if !node_info.ok {
        return Err(node_info.reason.clone());
    }
    let node_dir = match parent_of(node_info.path.as_str()) {
        Some(d) => d,
        None => String::from_str("."),
    };
    let secs: u64 = match epoch_secs() {
        Some(s) => s,
        None => 0,
    };
    let mut name = to_chars("pnpm-install-");
    push_decimal(&mut name, secs);
    let ext = to_chars(".log");
    push_all(&mut name, &ext);
    let file = from_chars(&name);
    let logs = logs_dir(data_dir);
    let install_log = join_path(logs.as_str(), file.as_str());
    assert(install_log@ == join(join(data_dir@, "logs"@), "pnpm-install-"@ + decimal(secs as nat) + ".log"@));
    Ok(PnpmPlan { node_path: node_info.path.clone(), node_dir, install_log })
}

// --- log files ---------------------------------------------------------------

/// One entry of the log-files list: a bare file name and its size.
#[derive(Debug, Clone)]
pub struct LogFileEntry {
    pub name: String,
    pub size: u64,
}

/// A file name whose extension is `log` (`Path::extension`: the text after
/// the last `.`, which must not be the first character).
pub open spec fn log_name(name: Seq<char>) -> bool {
    match rfind_char(name, '.') {
        Some(i) => i > 0 && name.subrange(i + 1, name.len() as int) == "log"@,
        None => false,
    }
}

pub fn is_log_name(name: &str) -> (b: bool)
    ensures
        b == log_name(name@),
{
    let v = to_chars(name);
    match rfind(&v, '.') {
        Some(i) => {
            if i == 0 {
                return false;
            }
            let ext = slice_to_vec(&v, i + 1, v.len());
            let log = to_chars("log");
            crate::text::chars_eq(&ext, &log)
        },
        None => false,
    }
}

/// `x` placed into a list ordered by name, last first: after every entry
/// whose name is not smaller, before the first smaller one.
pub open spec fn insert_by_name(sorted: Seq<LogFileEntry>, x: LogFileEntry) -> Seq<LogFileEntry>
    decreases sorted.len(),
{
    if sorted.len() == 0 {
        seq![x]
    } else if !text_less(sorted[0].name@, x.name@) {
        seq![sorted[0]] + insert_by_name(sorted.drop_first(), x)
    } else {
        seq![x] + sorted
    }
}

/// The stable sort by name, greatest first (`sort_by(|a, b| b.name.cmp(&a.name))`).
pub open spec fn sort_by_name(s: Seq<LogFileEntry>) -> Seq<LogFileEntry>
    decreases s.len(),
{
    if s.len() == 0 {
        s
    } else {
        insert_by_name(sort_by_name(s.drop_last()), s.last())
    }
}

/// Greatest name first.
pub open spec fn names_descending(s: Seq<LogFileEntry>) -> bool {
    forall|i: int, j: int| 0 <= i < j < s.len() ==> !text_less(s[i].name@, s[j].name@)
}

proof fn lemma_insert_name_at(sorted: Seq<LogFileEntry>, x: LogFileEntry, p: int)
    requires
        0 <= p <= sorted.len(),
        forall|j: int| 0 <= j < p ==> !text_less(#[trigger] sorted[j].name@, x.name@),
        p < sorted.len() ==> text_less(sorted[p].name@, x.name@),
    ensures
        insert_by_name(sorted, x) == sorted.insert(p, x),
    decreases sorted.len(),
{
    if sorted.len() == 0 {
        assert(sorted.insert(p, x) =~= seq![x]);
    } else if p == 0 {
        assert(sorted.insert(0, x) =~= seq![x] + sorted);
    } else {
        let t = sorted.drop_first();
        assert forall|j: int| 0 <= j < p - 1 implies !text_less(#[trigger] t[j].name@, x.name@) by {
            assert(t[j] == sorted[j + 1]);
        }
        lemma_insert_name_at(t, x, p - 1);
        assert(sorted.insert(p, x) =~= seq![sorted[0]] + t.insert(p - 1, x));
    }
}

/// The log files, greatest name first (the live `kernel.log` ahead of the
/// install logs); entries with equal names keep their order.
pub fn sort_log_files(entries: Vec<LogFileEntry>) -> (out: Vec<LogFileEntry>)
    ensures
        out@ == sort_by_name(entries@),
{
    let ghost all = entries@;
    let mut rest = entries;
    let mut out: Vec<LogFileEntry> = Vec::new();
    let mut i: usize = 0;
    let n = rest.len();
    assert(all.subrange(0, 0) =~= Seq::<LogFileEntry>::empty());
    assert(all.subrange(0, n as int) =~= all);
    while rest.len() > 0
        invariant
            i + rest@.len() == n,
            n == all.len(),
            rest@ == all.subrange(i as int, n as int),
            out@ == sort_by_name(all.subrange(0, i as int)),
        decreases rest.len(),
    {
        let x = rest.remove(0);
        assert(x == all[i as int]);
        let xv = to_chars(x.name.as_str());
        let mut p: usize = 0;
        while p < out.len() && !chars_less(&to_chars(out[p].name.as_str()), &xv)
            invariant
                p <= out@.len(),
                xv@ == x.name@,
                forall|j: int| 0 <= j < p ==> !text_less(#[trigger] out@[j].name@, x.name@),
            decreases out.len() - p,
        {
            p = p + 1;
        }
        proof {
            lemma_insert_name_at(out@, x, p as int);
            assert(all.subrange(0, i + 1).drop_last() =~= all.subrange(0, i as int));
            assert(all.subrange(i + 1, n as int) =~= all.subrange(i as int, n as int).drop_first());
        }
        out.insert(p, x);
        i = i + 1;
    }
    assert(all.subrange(0, i as int) =~= all);
    out
}

/// Inserting keeps the order by name and adds exactly the new entry.
pub proof fn lemma_insert_keeps_name_order(sorted: Seq<LogFileEntry>, x: LogFileEntry)
    requires
        names_descending(sorted),
    ensures
        names_descending(insert_by_name(sorted, x)),
        insert_by_name(sorted, x).to_multiset() == sorted.to_multiset().insert(x),
    decreases sorted.len(),
{
    broadcast use vstd::seq_lib::group_to_multiset_ensures;

    if sorted.len() == 0 {
        assert(seq![x] =~= sorted.push(x));
    } else if !text_less(sorted[0].name@, x.name@) {
        let t = sorted.drop_first();
        assert(names_descending(t)) by {
            assert forall|i: int, j: int| 0 <= i < j < t.len() implies !text_less(
                t[i].name@,
                t[j].name@,
            ) by {
                assert(t[i] == sorted[i + 1] && t[j] == sorted[j + 1]);
            }
        }
        lemma_insert_keeps_name_order(t, x);
        let rest = insert_by_name(t, x);
        let r = seq![sorted[0]] + rest;
        assert forall|k: int| 0 <= k < rest.len() implies !text_less(
            sorted[0].name@,
            #[trigger] rest[k].name@,
        ) by {
            assert(rest.to_multiset().count(rest[k]) > 0);
            assert(t.to_multiset().insert(x).count(rest[k]) > 0);
            if rest[k] != x {
                assert(t.to_multiset().count(rest[k]) > 0);
                assert(t.contains(rest[k]));
                let m = choose|m: int| 0 <= m < t.len() && t[m] == rest[k];
                assert(sorted[m + 1] == rest[k]);
            }
        }
        assert forall|i: int, j: int| 0 <= i < j < r.len() implies !text_less(
            r[i].name@,
            r[j].name@,
        ) by {
            if i > 0 {
                assert(r[i] == rest[i - 1] && r[j] == rest[j - 1]);
            } else {
                assert(r[j] == rest[j - 1]);
            }
        }
        assert(sorted =~= seq![sorted[0]] + t);
        vstd::seq_lib::lemma_multiset_commutative(seq![sorted[0]], rest);
        vstd::seq_lib::lemma_multiset_commutative(seq![sorted[0]], t);
        assert(seq![sorted[0]].to_multiset() =~= Multiset::<LogFileEntry>::empty().insert(
            sorted[0],
        )) by {
            assert(seq![sorted[0]] =~= Seq::<LogFileEntry>::empty().push(sorted[0]));
        }
    } else {
        let r = seq![x] + sorted;
        assert forall|i: int, j: int| 0 <= i < j < r.len() implies !text_less(
            r[i].name@,
            r[j].name@,
        ) by {
            if i > 0 {
                assert(r[i] == sorted[i - 1] && r[j] == sorted[j - 1]);
            } else {
                assert(r[j] == sorted[j - 1]);
                lemma_text_less_total(x.name@, sorted[0].name@);
                if j - 1 > 0 {
                    if text_less(x.name@, sorted[j - 1].name@) {
                        lemma_text_less_total(sorted[0].name@, sorted[j - 1].name@);
                        if sorted[0].name@ == sorted[j - 1].name@ {
                        } else {
                            lemma_text_less_transitive(sorted[0].name@, x.name@, sorted[j - 1].name@);
                        }
                    }
                }
            }
        }
        vstd::seq_lib::lemma_multiset_commutative(seq![x], sorted);
        assert(seq![x].to_multiset() =~= Multiset::<LogFileEntry>::empty().insert(x)) by {
            assert(seq![x] =~= Seq::<LogFileEntry>::empty().push(x));
        }
    }
}

/// The log list is ordered greatest name first and holds exactly the
/// listed files.
pub proof fn lemma_log_files_sorted(entries: Seq<LogFileEntry>)
    ensures
        names_descending(sort_by_name(entries)),
        sort_by_name(entries).to_multiset() == entries.to_multiset(),
    decreases entries.len(),
{
    broadcast use vstd::seq_lib::group_to_multiset_ensures;

    if entries.len() > 0 {
        lemma_log_files_sorted(entries.drop_last());
        lemma_insert_keeps_name_order(sort_by_name(entries.drop_last()), entries.last());
        assert(entries =~= entries.drop_last().push(entries.last()));
    }
}

/// A log name the UI may ask for: a bare, non-empty file name without `/`,
/// `\` or `..`.
pub open spec fn log_name_allowed(name: Seq<char>) -> bool {
    name.len() > 0 && !name.contains('/') && !name.contains('\\') && !contains_seq(name, ".."@)
}

/// Refuses a log name that could leave the logs directory.
pub fn check_log_name(name: &str) -> (r: Result<(), String>)
    ensures
        log_name_allowed(name@) ==> r is Ok,
        !log_name_allowed(name@) ==> (r matches Err(e) && e@ == "非法的日志文件名："@ + name@),
{
    let v = to_chars(name);
    let dots = to_chars("..");
    if v.len() == 0 || contains_char(&v, '/') || contains_char(&v, '\\') || contains(&v, &dots) {
        let mut msg = to_chars("非法的日志文件名：");
        push_all(&mut msg, &v);
        return Err(from_chars(&msg));
    }
    Ok(())
}

// --- harness -----------------------------------------------------------------

/// What `url::Url::parse` gives for a text: the URL's serialization, or
/// the parse error's message.
pub uninterp spec fn url_parsed(text: Seq<char>) -> Result<Seq<char>, Seq<char>>;

/// `url::Url::parse`: the serialization (`Url::as_str`) of the parsed URL,
/// or the `Display` text of the `ParseError`. The WHATWG parsing rules are
/// the crate's; only the name of the result is stated.
#[verifier::external_body]
fn parse_url(text: &str) -> (r: Result<String, String>)
    ensures
        (match r {
            Ok(s) => Ok(s@),
            Err(e) => Err(e@),
        }) == url_parsed(text@),
{
    match url::Url::parse(text) {
        Ok(u) => Ok(u.as_str().to_string()),
        Err(e) => Err(e.to_string()),
    }
}

/// The address the kernel's web UI answers on.
pub open spec fn harness_address(port: u16) -> Seq<char> {
    "http://127.0.0.1:"@ + decimal(port as nat)
}

/// The harness web UI's URL on the loopback port.
pub fn harness_url(port: u16) -> (r: Result<String, String>)
    ensures
        (match r {
            Ok(s) => Ok(s@),
            Err(e) => Err(e@),
        }) == url_parsed(harness_address(port)),
{
    let mut text = to_chars("http://127.0.0.1:");
    push_decimal(&mut text, port as u64);
    let t = from_chars(&text);
    parse_url(t.as_str())
}

/// The refusal to open the harness while the kernel is down.
pub fn harness_down(port: u16) -> (r: String)
    ensures
        r@ == "内核未在运行（端口 "@ + decimal(port as nat) + "），请先点击「启动工作台」"@,
{
    let mut msg = to_chars("内核未在运行（端口 ");
    push_decimal(&mut msg, port as u64);
    let tail = to_chars("），请先点击「启动工作台」");
    push_all(&mut msg, &tail);
    from_chars(&msg)
}

// --- shell self-update -------------------------------------------------------

/// What the overview page shows about the shell's own version state.
#[derive(Debug, Clone)]
pub struct ShellUpdateInfo {
    pub current: String,
    /// Version of the published update, when one exists.
    pub available: Option<String>,
}

/// Event emitted when a background check finds a newer shell release.
pub const UPDATE_AVAILABLE_EVENT: &'static str = "shell-update-available";

} // verus!
