//! What DSH start-up output says: the web URL, the listening port, the
//! packages that could not be found and the plugins that broke the boot.
use vstd::prelude::*;
use crate::logscan::{
    all_captures, captures_from, find_first, first_match, lemma_first_match_is_match, lemma_match_bounds,
    match_at, Grammar, Literals,
};
use crate::fspath::{FsPath, Os};
use crate::installer::{dsh_node_modules, node_modules_of};
use crate::text::{
    CharClass,
    chars_of, concat, decimal, decimal_string, has_sub, parse_unsigned, parse_unsigned_range,
    starts_at, str_contains, str_eq, str_starts_with, string_of_range, trim, trim_bounds,
};

verus! {

/// `s` with later repetitions of an element dropped (first occurrences kept, in order).
pub open spec fn dedup(s: Seq<Seq<char>>) -> Seq<Seq<char>>
    decreases s.len(),
{
    if s.len() == 0 {
        seq![]
    } else {
        let d = dedup(s.drop_last());
        if d.contains(s.last()) {
            d
        } else {
            d.push(s.last())
        }
    }
}

/// Whether `v` holds a string equal to `x`.
pub fn contains_string(v: &Vec<String>, x: &String) -> (r: bool)
    ensures
        r == v.deep_view().contains(x@),
{
    let mut i: usize = 0;
    while i < v.len()
        invariant
            i <= v.len(),
            forall|k: int| 0 <= k < i ==> v.deep_view()[k] != x@,
        decreases v.len() - i,
    {
        if v[i] == *x {
            proof {
                assert(v.deep_view()[i as int] == x@);
            }
            return true;
        }
        i += 1;
    }
    false
}

/// Drops later repetitions, keeping first occurrences in order.
pub fn dedup_strings(items: Vec<String>) -> (r: Vec<String>)
    ensures
        r.deep_view() == dedup(items.deep_view()),
{
    let mut out: Vec<String> = Vec::new();
    let mut i: usize = 0;
    while i < items.len()
        invariant
            i <= items.len(),
            out.deep_view() == dedup(items.deep_view().take(i as int)),
        decreases items.len() - i,
    {
        let ghost pre = items.deep_view().take(i as int);
        let ghost nxt = items.deep_view().take(i + 1);
        proof {
            assert(nxt.drop_last() =~= pre);
            assert(nxt.last() == items[i as int]@);
        }
        if !contains_string(&out, &items[i]) {
            let ghost before = out.deep_view();
            out.push(items[i].clone());
            proof {
                assert(out.deep_view() =~= before.push(items[i as int]@));
            }
        }
        i += 1;
    }
    proof {
        assert(items.deep_view().take(items.len() as int) =~= items.deep_view());
    }
    out
}

/// Core bundles (`@iyam/*`, `@deepseek-ai/*`) are never disabled automatically.
pub open spec fn core_bundle(name: Seq<char>) -> bool {
    starts_at(name, 0, "@iyam/"@) || starts_at(name, 0, "@deepseek-ai/"@)
}

/// Whether `name` is a core bundle that is never disabled automatically.
pub fn is_core_bundle(name: &str) -> (r: bool)
    ensures
        r == core_bundle(name@),
{
    str_starts_with(name, "@iyam/") || str_starts_with(name, "@deepseek-ai/")
}

/// A package named in a boot failure that may be blamed: neither a `node:`
/// builtin nor a core bundle.
pub open spec fn blamable(name: Seq<char>) -> bool {
    !starts_at(name, 0, "node:"@) && !core_bundle(name)
}

/// The blamable names of `s`, in order.
pub open spec fn blamable_only(s: Seq<Seq<char>>) -> Seq<Seq<char>>
    decreases s.len(),
{
    if s.len() == 0 {
        seq![]
    } else if blamable(s.last()) {
        blamable_only(s.drop_last()).push(s.last())
    } else {
        blamable_only(s.drop_last())
    }
}

fn keep_blamable(items: Vec<String>) -> (r: Vec<String>)
    ensures
        r.deep_view() == blamable_only(items.deep_view()),
{
    let mut out: Vec<String> = Vec::new();
    let mut i: usize = 0;
    while i < items.len()
        invariant
            i <= items.len(),
            out.deep_view() == blamable_only(items.deep_view().take(i as int)),
        decreases items.len() - i,
    {
        let ghost pre = items.deep_view().take(i as int);
        let ghost nxt = items.deep_view().take(i + 1);
        proof {
            assert(nxt.drop_last() =~= pre);
            assert(nxt.last() == items[i as int]@);
        }
        let n = items[i].as_str();
        if !str_starts_with(n, "node:") && !is_core_bundle(n) {
            let ghost before = out.deep_view();
            out.push(items[i].clone());
            proof {
                assert(out.deep_view() =~= before.push(items[i as int]@));
            }
        }
        i += 1;
    }
    proof {
        assert(items.deep_view().take(items.len() as int) =~= items.deep_view());
    }
    out
}

/// The web URL that a DSH stdout line announces (with its launch token when
/// there is one): the first `dsh web: http://127.0.0.1:<port>...` URL.
pub open spec fn web_url_of(line: Seq<char>) -> Option<Seq<char>> {
    match first_match(Grammar::WebUrl, line, 0) {
        Some(m) => Some(line.subrange(m.0, m.1)),
        None => None,
    }
}

/// Reads the authenticated web URL from a DSH stdout line.
pub fn parse_web_url(line: &str) -> (r: Option<String>)
    ensures
        match r {
            Some(u) => web_url_of(line@) == Some(u@),
            None => web_url_of(line@) is None,
        },
{
    let s = chars_of(line);
    let lits = Literals::new();
    match find_first(Grammar::WebUrl, &s, &lits) {
        Some(m) => Some(string_of_range(&s, m.0, m.1)),
        None => None,
    }
}

/// The URL that DSH announces always points at this machine: it begins with
/// `http://127.0.0.1:`, and reading its port looks at the digits right after that.
pub proof fn announced_url_is_loopback(line: Seq<char>)
    ensures
        web_url_of(line) matches Some(u) ==> {
            &&& starts_at(u, 0, "http://127.0.0.1:"@)
            &&& first_match(Grammar::LoopbackPort, u, 0) matches Some(m) && m.0 == 17
        },
{
    reveal_strlit("http://127.0.0.1:");
    lemma_first_match_is_match(Grammar::WebUrl, line, 0);
    if let Some(m) = first_match(Grammar::WebUrl, line, 0) {
        let j = choose|j: int| 0 <= j < line.len() && #[trigger] match_at(Grammar::WebUrl, line, j) == Some(m);
        lemma_match_bounds(Grammar::WebUrl, line, j);
        let w2 = m.0;
        let d = w2 + 17;
        let u = line.subrange(m.0, m.1);
        crate::text::lemma_run_end(line, d, CharClass::NonSpace);
        assert(crate::text::is_nd(line[d]));
        assert(!crate::text::is_ws(line[d]));
        assert(m.1 > d);
        assert(u[17] == line[d]);
        assert(starts_at(line, w2, "http://127.0.0.1:"@));
        assert(u.subrange(0, 17) =~= line.subrange(w2, w2 + 17));
        assert(starts_at(u, 0, "http://127.0.0.1:"@));
        assert(match_at(Grammar::LoopbackPort, u, 0) is Some);
    }
}

/// The port of the first `http://127.0.0.1:<digits>` in `url`, when those digits
/// read as a `u16`.
pub open spec fn port_of(url: Seq<char>) -> Option<u16> {
    match first_match(Grammar::LoopbackPort, url, 0) {
        Some(m) => match parse_unsigned(url.subrange(m.0, m.1), 65535) {
            Some(v) => Some(v as u16),
            None => None,
        },
        None => None,
    }
}

/// Reads the port from a loopback web URL.
pub fn port_of_url(url: &str) -> (r: Option<u16>)
    ensures
        r == port_of(url@),
{
    let s = chars_of(url);
    let lits = Literals::new();
    match find_first(Grammar::LoopbackPort, &s, &lits) {
        Some(m) => match parse_unsigned_range(&s, m.0, m.1, 65535) {
            Some(v) => Some(v as u16),
            None => None,
        },
        None => None,
    }
}

/// The packages that `Cannot find package '<pkg>'` lines name, without repetitions.
pub open spec fn missing_packages_of(text: Seq<char>) -> Seq<Seq<char>> {
    dedup(captures_from(Grammar::MissingPackage, text, 0))
}

/// Every package that start-up output reports as not found, first occurrences in order.
pub fn parse_missing_packages(text: &str) -> (r: Vec<String>)
    ensures
        r.deep_view() == missing_packages_of(text@),
{
    let s = chars_of(text);
    let lits = Literals::new();
    dedup_strings(all_captures(Grammar::MissingPackage, &s, &lits))
}

proof fn lemma_dedup(s: Seq<Seq<char>>)
    ensures
        dedup(s).no_duplicates(),
        forall|x: Seq<char>| dedup(s).contains(x) ==> s.contains(x),
    decreases s.len(),
{
    if s.len() > 0 {
        let d = dedup(s.drop_last());
        lemma_dedup(s.drop_last());
        assert forall|x: Seq<char>| dedup(s).contains(x) implies s.contains(x) by {
            if d.contains(x) {
                assert(s.drop_last().contains(x));
                let k = choose|k: int| 0 <= k < s.drop_last().len() && s.drop_last()[k] == x;
                assert(s[k] == x);
            } else {
                assert(x == s.last());
                assert(s[s.len() - 1] == x);
            }
        }
        if !d.contains(s.last()) {
            assert forall|a: int, b: int| 0 <= a < b < d.push(s.last()).len() implies d.push(s.last())[a]
                != d.push(s.last())[b] by {
                if b == d.len() {
                    assert(d.push(s.last())[a] == d[a]);
                }
            }
        }
    }
}

proof fn lemma_blamable_only(s: Seq<Seq<char>>)
    ensures
        forall|x: Seq<char>| blamable_only(s).contains(x) ==> blamable(x),
    decreases s.len(),
{
    if s.len() > 0 {
        lemma_blamable_only(s.drop_last());
        let r = blamable_only(s.drop_last());
        assert forall|x: Seq<char>| blamable_only(s).contains(x) implies blamable(x) by {
            if blamable(s.last()) && !r.contains(x) {
                let k = choose|k: int| 0 <= k < r.push(s.last()).len() && r.push(s.last())[k] == x;
                assert(k == r.len());
            }
        }
    }
}

/// A failed boot never blames a core bundle or a `node:` builtin, and names each
/// plugin once; missing packages are listed once each too.
pub proof fn blamed_plugins_are_third_party(text: Seq<char>)
    ensures
        forall|x: Seq<char>| broken_plugins_of(text).contains(x) ==> !core_bundle(x) && !starts_at(x, 0, "node:"@),
        broken_plugins_of(text).no_duplicates(),
        missing_packages_of(text).no_duplicates(),
{
    let a = blamable_only(captures_from(Grammar::LoaderEntry, text, 0));
    let b = blamable_only(captures_from(Grammar::ModulePath, text, 0));
    lemma_blamable_only(captures_from(Grammar::LoaderEntry, text, 0));
    lemma_blamable_only(captures_from(Grammar::ModulePath, text, 0));
    lemma_dedup(a + b);
    lemma_dedup(captures_from(Grammar::MissingPackage, text, 0));
    assert(broken_plugins_of(text) == dedup(a + b));
    assert forall|x: Seq<char>| broken_plugins_of(text).contains(x) implies !core_bundle(x) && !starts_at(
        x,
        0,
        "node:"@,
    ) by {
        assert((a + b).contains(x));
        let k = choose|k: int| 0 <= k < (a + b).len() && (a + b)[k] == x;
        if k < a.len() {
            assert(a[k] == x);
            assert(a.contains(x));
            assert(blamable(x));
        } else {
            assert(b[k - a.len()] == x);
            assert(b.contains(x));
            assert(blamable(x));
        }
    }
}

/// The third-party plugins that a failed boot blames: first the packages of
/// `failed to import loader entry <id> (<pkg>)` lines, then the packages whose
/// `node_modules/...` paths appear (through a `.pnpm` store too), leaving out
/// `node:` builtins and core bundles, without repetitions.
pub open spec fn broken_plugins_of(text: Seq<char>) -> Seq<Seq<char>> {
    dedup(
        blamable_only(captures_from(Grammar::LoaderEntry, text, 0)) + blamable_only(
            captures_from(Grammar::ModulePath, text, 0),
        ),
    )
}

/// The third-party plugins that start-up output blames for a failed boot.
pub fn parse_broken_plugins(text: &str) -> (r: Vec<String>)
    ensures
        r.deep_view() == broken_plugins_of(text@),
{
    let s = chars_of(text);
    let lits = Literals::new();
    let mut named = keep_blamable(all_captures(Grammar::LoaderEntry, &s, &lits));
    let mut paths = keep_blamable(all_captures(Grammar::ModulePath, &s, &lits));
    let ghost a = named.deep_view();
    let ghost b = paths.deep_view();
    named.append(&mut paths);
    proof {
        assert(named.deep_view() =~= a + b);
    }
    dedup_strings(named)
}

/// `items` joined with `sep` between consecutive items.
pub open spec fn join(items: Seq<Seq<char>>, sep: Seq<char>) -> Seq<char>
    decreases items.len(),
{
    if items.len() == 0 {
        seq![]
    } else if items.len() == 1 {
        items[0]
    } else {
        join(items.drop_last(), sep) + sep + items.last()
    }
}

/// `items.join(sep)`.
pub fn join_strings(items: &Vec<String>, sep: &str) -> (r: String)
    ensures
        r@ == join(items.deep_view(), sep@),
{
    let mut out = String::new();
    let mut i: usize = 0;
    while i < items.len()
        invariant
            i <= items.len(),
            out@ == join(items.deep_view().take(i as int), sep@),
        decreases items.len() - i,
    {
        let ghost nxt = items.deep_view().take(i + 1);
        proof {
            assert(nxt.drop_last() =~= items.deep_view().take(i as int));
            assert(nxt.last() == items[i as int]@);
        }
        if i == 0 {
            out.append(items[i].as_str());
            proof {
                assert(out@ =~= nxt[0]);
            }
        } else {
            out.append(sep);
            out.append(items[i].as_str());
        }
        i += 1;
    }
    proof {
        assert(items.deep_view().take(items.len() as int) =~= items.deep_view());
    }
    out
}

/// The message shown when DSH could not be started: it names the first missing
/// package, the plugins that were disabled along the way, or else reports a time-out.
pub open spec fn start_error_message(tail: Seq<char>, removed: Seq<Seq<char>>) -> Seq<char> {
    match first_match(Grammar::MissingPackage, tail, 0) {
        Some(m) => {
            let pkg = tail.subrange(m.0, m.1);
            if removed.len() == 0 {
                "DSH 启动失败：插件 "@ + pkg + " 未能加载（ERR_MODULE_NOT_FOUND），请检查插件市场安装后重试，或查看日志"@
            } else {
                "DSH 启动失败：已自动禁用 "@ + decimal(removed.len()) + " 个损坏插件（"@ + join(
                    removed,
                    "、"@,
                ) + "），但 "@ + pkg + " 仍无法加载，请查看日志"@
            }
        },
        None => if removed.len() != 0 {
            "DSH 启动失败：已自动禁用 "@ + decimal(removed.len()) + " 个损坏插件（"@ + join(
                removed,
                "、"@,
            ) + "），但 DSH 仍无法启动，请查看日志"@
        } else {
            "DSH 启动超时（30s），请查看日志"@
        },
    }
}

/// Builds the user-facing start-up error from the new stderr text and the
/// plugins disabled while retrying.
pub fn real_start_error(tail: &str, all_removed: &Vec<String>) -> (r: String)
    ensures
        r@ == start_error_message(tail@, all_removed.deep_view()),
{
    let s = chars_of(tail);
    let lits = Literals::new();
    let first = find_first(Grammar::MissingPackage, &s, &lits);
    match first {
        Some(m) => {
            let pkg = string_of_range(&s, m.0, m.1);
            if all_removed.len() == 0 {
                let a = concat("DSH 启动失败：插件 ", pkg.as_str());
                concat(a.as_str(), " 未能加载（ERR_MODULE_NOT_FOUND），请检查插件市场安装后重试，或查看日志")
            } else {
                let n = decimal_string(all_removed.len() as u64);
                let joined = join_strings(all_removed, "、");
                let a = concat("DSH 启动失败：已自动禁用 ", n.as_str());
                let b = concat(a.as_str(), " 个损坏插件（");
                let c = concat(b.as_str(), joined.as_str());
                let d = concat(c.as_str(), "），但 ");
                let e = concat(d.as_str(), pkg.as_str());
                concat(e.as_str(), " 仍无法加载，请查看日志")
            }
        },
        None => {
            if all_removed.len() != 0 {
                let n = decimal_string(all_removed.len() as u64);
                let joined = join_strings(all_removed, "、");
                let a = concat("DSH 启动失败：已自动禁用 ", n.as_str());
                let b = concat(a.as_str(), " 个损坏插件（");
                let c = concat(b.as_str(), joined.as_str());
                concat(c.as_str(), "），但 DSH 仍无法启动，请查看日志")
            } else {
                "DSH 启动超时（30s），请查看日志".to_owned()
            }
        },
    }
}

// ---------------------------------------------------------------- start-up decisions

/// The trimmed text of a state file, when it is not blank.
pub open spec fn trimmed_nonblank(text: Option<Seq<char>>) -> Option<Seq<char>> {
    match text {
        Some(t) => if trim(t).len() > 0 {
            Some(trim(t))
        } else {
            None
        },
        None => None,
    }
}

fn trimmed_text(text: &Option<String>) -> (r: Option<String>)
    ensures
        r.deep_view() == trimmed_nonblank(text.deep_view()),
{
    match text {
        Some(t) => {
            let v = chars_of(t.as_str());
            let (a, b) = trim_bounds(&v);
            if a == b {
                None
            } else {
                Some(string_of_range(&v, a, b))
            }
        },
        None => None,
    }
}

/// The URL of an already running DSH: the stored (token-bearing) URL, else the
/// bare loopback URL of its port.
pub open spec fn stored_url_of(stored: Option<Seq<char>>, port: u16) -> Seq<char> {
    match trimmed_nonblank(stored) {
        Some(u) => u,
        None => "http://127.0.0.1:"@ + decimal(port as nat),
    }
}

/// Picks the URL of a DSH that is already running (`stored` is the content of
/// the URL file, when it could be read).
pub fn stored_web_url(stored: &Option<String>, port: u16) -> (r: String)
    ensures
        r@ == stored_url_of(stored.deep_view(), port),
{
    match trimmed_text(stored) {
        Some(u) => u,
        None => {
            let n = decimal_string(port as u64);
            concat("http://127.0.0.1:", n.as_str())
        },
    }
}

/// Whether the running DSH was started from another core version than the one
/// on disk (a missing record counts as another version); unknown when the
/// version on disk cannot be read, which counts as no mismatch.
pub open spec fn version_mismatch(recorded: Option<Seq<char>>, current: Option<Seq<char>>) -> bool {
    match current {
        Some(c) => trimmed_nonblank(recorded) != Some(c),
        None => false,
    }
}

/// Decides whether a running DSH must be restarted because the core on disk changed.
pub fn core_version_mismatch(recorded: &Option<String>, current: &Option<String>) -> (r: bool)
    ensures
        r == version_mismatch(recorded.deep_view(), current.deep_view()),
{
    match current {
        Some(c) => match trimmed_text(recorded) {
            Some(t) => !str_eq(t.as_str(), c.as_str()),
            None => true,
        },
        None => false,
    }
}

/// The cached answer to "does DSH accept `--no-open`": `1` yes, `0` no, else unknown.
pub open spec fn cached_flag_of(content: Option<Seq<char>>) -> Option<bool> {
    match content {
        Some(c) => if trim(c) == "1"@ {
            Some(true)
        } else if trim(c) == "0"@ {
            Some(false)
        } else {
            None
        },
        None => None,
    }
}

/// Reads the cached `--no-open` capability.
pub fn cached_no_open(content: &Option<String>) -> (r: Option<bool>)
    ensures
        r == cached_flag_of(content.deep_view()),
{
    match content {
        Some(c) => {
            let v = chars_of(c.as_str());
            let (a, b) = trim_bounds(&v);
            let t = string_of_range(&v, a, b);
            if str_eq(t.as_str(), "1") {
                Some(true)
            } else if str_eq(t.as_str(), "0") {
                Some(false)
            } else {
                None
            }
        },
        None => None,
    }
}

/// The cache holds what the last probe found: a file whose text, blanks aside,
/// is `1` reads as "accepts `--no-open`", one that is `0` as "refuses it"; any
/// other text, or no file, leaves the capability unknown (probe again).
pub proof fn cached_flag_reads_probe(c: Seq<char>)
    ensures
        trim(c) == "1"@ ==> cached_flag_of(Some(c)) == Some(true),
        trim(c) == "0"@ ==> cached_flag_of(Some(c)) == Some(false),
        cached_flag_of(Some(c)) == Some(true) ==> trim(c) == "1"@,
        cached_flag_of(Some(c)) == Some(false) ==> trim(c) == "0"@,
        cached_flag_of(None) is None,
{
    reveal_strlit("1");
    reveal_strlit("0");
    assert("1"@ != "0"@) by {
        assert("1"@[0] != "0"@[0]);
    }
}

/// Whether a probe run's stderr shows that `--no-open` was refused.
pub fn no_open_rejected(stderr: &str) -> (r: bool)
    ensures
        r == (has_sub(stderr@, "unknown option"@) && has_sub(stderr@, "no-open"@)),
{
    str_contains(stderr, "unknown option") && str_contains(stderr, "no-open")
}

/// The process id in a PID file.
pub fn parse_pid(text: &str) -> (r: Option<u32>)
    ensures
        r matches Some(p) ==> parse_unsigned(trim(text@), u32::MAX as nat) == Some(p as nat),
        r is None ==> parse_unsigned(trim(text@), u32::MAX as nat) is None,
{
    let v = chars_of(text);
    let (a, b) = trim_bounds(&v);
    match parse_unsigned_range(&v, a, b, u32::MAX as u64) {
        Some(n) => Some(n as u32),
        None => None,
    }
}

/// The port in a port file.
pub fn parse_port(text: &str) -> (r: Option<u16>)
    ensures
        r matches Some(p) ==> parse_unsigned(trim(text@), 65535) == Some(p as nat),
        r is None ==> parse_unsigned(trim(text@), 65535) is None,
{
    let v = chars_of(text);
    let (a, b) = trim_bounds(&v);
    match parse_unsigned_range(&v, a, b, 65535) {
        Some(n) => Some(n as u16),
        None => None,
    }
}

/// A live DSH is reused unless the bundled plugins were just installed into it,
/// its core version changed on disk, or its port is unknown.
pub fn reuse_running(needs_restart: bool, version_changed: bool, port_known: bool) -> (r: bool)
    ensures
        r == (!needs_restart && !version_changed && port_known),
{
    !needs_restart && !version_changed && port_known
}

/// How many times DSH is spawned before start-up gives up on self-healing.
pub open spec fn max_attempts() -> u32 {
    3
}

/// The next recovery after a failed spawn.
#[derive(Clone, Copy, PartialEq, Eq, Structural)]
pub enum Recovery {
    /// Disable the plugins that stderr points at, then retry.
    QuarantineNamed,
    /// Nothing could be blamed: disable every third-party plugin, then retry.
    QuarantineAll,
    /// Retrying is over: roll back a just-applied upgrade (if any), else report.
    RollBack,
}

pub open spec fn recovery_of(attempt: u32, missing: nat, named: nat) -> Recovery {
    if attempt < max_attempts() {
        if missing > 0 || named > 0 {
            Recovery::QuarantineNamed
        } else {
            Recovery::QuarantineAll
        }
    } else {
        Recovery::RollBack
    }
}

/// Chooses how to recover from failed spawn number `attempt` (from 1), given
/// how many missing packages and blamed plugins its stderr showed.  When a
/// quarantine disables nothing, start-up goes on to roll back.
pub fn recovery_step(attempt: u32, missing: usize, named: usize) -> (r: Recovery)
    ensures
        r == recovery_of(attempt, missing as nat, named as nat),
{
    if attempt < 3 {
        if missing > 0 || named > 0 {
            Recovery::QuarantineNamed
        } else {
            Recovery::QuarantineAll
        }
    } else {
        Recovery::RollBack
    }
}

/// Start-up self-healing is bounded: from the third failed spawn on, only a
/// roll-back remains.
pub proof fn self_healing_is_bounded(attempt: u32, missing: nat, named: nat)
    requires
        attempt >= max_attempts(),
    ensures
        recovery_of(attempt, missing, named) == Recovery::RollBack,
{
}

/// Seconds that a spawned DSH has to announce its URL before the start counts as failed.
pub const START_TIMEOUT_SECS: u64 = 30;

/// What start-up does after a failed spawn, once its recovery has run.
#[derive(Clone, Copy, PartialEq, Eq, Structural)]
pub enum FailedStart {
    /// The quarantine disabled something: spawn again.
    Retry,
    /// Nothing was disabled: try to roll back a just-applied upgrade, and come
    /// back with whether it rolled back.
    RollBack,
    /// An upgrade was rolled back: start again from the top.
    Restart,
    /// Nothing is left to try: report the start error.
    Fail,
}

pub open spec fn failed_start_of(removed: nat, rolled_back: Option<bool>) -> FailedStart {
    if removed > 0 {
        FailedStart::Retry
    } else {
        match rolled_back {
            None => FailedStart::RollBack,
            Some(true) => FailedStart::Restart,
            Some(false) => FailedStart::Fail,
        }
    }
}

/// The step after a failed spawn whose recovery disabled `removed` plugins;
/// `rolled_back` is the outcome of the roll-back once it has been tried.
pub fn failed_start_step(removed: usize, rolled_back: Option<bool>) -> (r: FailedStart)
    ensures
        r == failed_start_of(removed as nat, rolled_back),
{
    if removed > 0 {
        FailedStart::Retry
    } else {
        match rolled_back {
            None => FailedStart::RollBack,
            Some(true) => FailedStart::Restart,
            Some(false) => FailedStart::Fail,
        }
    }
}

/// A failed start is retried exactly when its quarantine disabled something,
/// and the roll-back is asked for at most once: once its outcome is known the
/// step is a restart or the end.
pub proof fn failed_start_rolls_back_once(removed: nat, rolled: bool)
    ensures
        (failed_start_of(removed, None) == FailedStart::Retry) == (removed > 0),
        failed_start_of(removed, Some(rolled)) != FailedStart::RollBack,
        removed == 0 ==> failed_start_of(removed, Some(rolled)) == (if rolled {
            FailedStart::Restart
        } else {
            FailedStart::Fail
        }),
{
}

/// The state files of a running DSH under its home.
pub struct RuntimeFiles {
    pub pid: FsPath,
    pub port: FsPath,
    pub url: FsPath,
    pub version: FsPath,
    pub stderr_log: FsPath,
    pub no_open_cache: FsPath,
    pub quarantine: FsPath,
}

/// Names the state files kept under the DSH home.
pub fn runtime_files(home: &FsPath) -> (r: RuntimeFiles)
    ensures
        r.pid@ == home@.push(".iyam-dsh.pid"@),
        r.port@ == home@.push(".iyam-dsh.port"@),
        r.url@ == home@.push(".iyam-dsh.url"@),
        r.version@ == home@.push(".iyam-dsh.version"@),
        r.stderr_log@ == home@.push(".iyam-dsh-stderr.log"@),
        r.no_open_cache@ == home@.push(".no-open-supported"@),
        r.quarantine@ == home@.push(".quarantine.json"@),
{
    RuntimeFiles {
        pid: home.join(".iyam-dsh.pid"),
        port: home.join(".iyam-dsh.port"),
        url: home.join(".iyam-dsh.url"),
        version: home.join(".iyam-dsh.version"),
        stderr_log: home.join(".iyam-dsh-stderr.log"),
        no_open_cache: home.join(".no-open-supported"),
        quarantine: home.join(".quarantine.json"),
    }
}

/// The file whose absence shows that the running DSH predates the bundled
/// file-handler plugin: `<npm tree>/@iyam/dsh-file-handler/client.js`.
pub fn file_handler_marker(home: &FsPath, os: Os) -> (r: FsPath)
    ensures
        r@ == node_modules_of(home@, os).push("@iyam"@).push("dsh-file-handler"@).push("client.js"@),
{
    dsh_node_modules(home, os).join("@iyam").join("dsh-file-handler").join("client.js")
}

} // verus!
