//! The child processes the shell runs (DSH itself, npm, pnpm, tar): their
//! argument lists, and what each outcome means for the installer.
use vstd::prelude::*;
use crate::process::parse_pid;
use crate::text::{concat, parse_unsigned, decimal, decimal_string, has_sub, replace_all, replace_str, str_contains, trim, trim_str};

verus! {

fn owned(s: &str) -> (r: String)
    ensures
        r@ == s@,
{
    s.to_owned()
}

// ---------------------------------------------------------------- DSH

/// Arguments of `node <bin.js> web`: `--no-open` only where DSH accepts it, and
/// a port chosen by the system.
pub open spec fn web_args(cli: Seq<char>, no_open: bool) -> Seq<Seq<char>> {
    if no_open {
        seq![cli, "web"@, "--no-open"@, "--port"@, "0"@]
    } else {
        seq![cli, "web"@, "--port"@, "0"@]
    }
}

/// The arguments that start the DSH web server.
pub fn dsh_web_args(cli: &str, no_open: bool) -> (r: Vec<String>)
    ensures
        r.deep_view() == web_args(cli@, no_open),
{
    let mut v: Vec<String> = Vec::new();
    v.push(owned(cli));
    v.push(owned("web"));
    if no_open {
        v.push(owned("--no-open"));
    }
    v.push(owned("--port"));
    v.push(owned("0"));
    proof {
        assert(v.deep_view() =~= web_args(cli@, no_open));
    }
    v
}

/// The `NODE_OPTIONS` value that preloads the taskbar script (Windows paths
/// written with `/`).
pub open spec fn require_option(preload: Seq<char>) -> Seq<char> {
    "--require=\""@ + replace_all(preload, "\\"@, "/"@) + "\""@
}

/// Builds the `NODE_OPTIONS` value that preloads `preload`.
pub fn node_options_require(preload: &str) -> (r: String)
    ensures
        r@ == require_option(preload@),
{
    proof {
        reveal_strlit("\\");
    }
    let p = replace_str(preload, "\\", "/");
    let a = concat("--require=\"", p.as_str());
    concat(a.as_str(), "\"")
}

/// Arguments of `node <bin.js> plugin --profile web add dshmarket`.
pub fn plugin_add_args(cli: &str) -> (r: Vec<String>)
    ensures
        r.deep_view() == seq![cli@, "plugin"@, "--profile"@, "web"@, "add"@, "dshmarket"@],
{
    let mut v: Vec<String> = Vec::new();
    v.push(owned(cli));
    v.push(owned("plugin"));
    v.push(owned("--profile"));
    v.push(owned("web"));
    v.push(owned("add"));
    v.push(owned("dshmarket"));
    proof {
        assert(v.deep_view() =~= seq![cli@, "plugin"@, "--profile"@, "web"@, "add"@, "dshmarket"@]);
    }
    v
}

// ---------------------------------------------------------------- npm and pnpm

/// Arguments of the global npm install of DSH `version` into `prefix` from `registry`.
pub open spec fn npm_dsh_args(npm_cli: Seq<char>, version: Seq<char>, prefix: Seq<char>, registry: Seq<char>) -> Seq<
    Seq<char>,
> {
    seq![
        npm_cli,
        "install"@,
        "-g"@,
        "@deepseek-ai/dsh@"@ + version,
        "--prefix"@,
        prefix,
        "--no-save"@,
        "--no-audit"@,
        "--no-fund"@,
        "--dangerously-allow-all-scripts"@,
        "--loglevel"@,
        "http"@,
        "--registry"@,
        registry,
    ]
}

/// The arguments (after the Node executable) of one npm install attempt.
pub fn npm_install_dsh_args(npm_cli: &str, version: &str, prefix: &str, registry: &str) -> (r: Vec<String>)
    ensures
        r.deep_view() == npm_dsh_args(npm_cli@, version@, prefix@, registry@),
{
    let mut v: Vec<String> = Vec::new();
    v.push(owned(npm_cli));
    v.push(owned("install"));
    v.push(owned("-g"));
    v.push(concat("@deepseek-ai/dsh@", version));
    v.push(owned("--prefix"));
    v.push(owned(prefix));
    v.push(owned("--no-save"));
    v.push(owned("--no-audit"));
    v.push(owned("--no-fund"));
    v.push(owned("--dangerously-allow-all-scripts"));
    v.push(owned("--loglevel"));
    v.push(owned("http"));
    v.push(owned("--registry"));
    v.push(owned(registry));
    proof {
        assert(v.deep_view() =~= npm_dsh_args(npm_cli@, version@, prefix@, registry@));
    }
    v
}

/// The registries tried, in order, for pnpm.
pub fn pnpm_registries() -> (r: Vec<&'static str>)
    ensures
        r@.len() == 4,
        r@[0]@ == "https://registry.npmmirror.com"@,
        r@[1]@ == "https://mirrors.cloud.tencent.com/npm/"@,
        r@[2]@ == "https://repo.huaweicloud.com/repository/npm/"@,
        r@[3]@ == "https://registry.npmjs.org"@,
{
    let mut v: Vec<&'static str> = Vec::new();
    v.push("https://registry.npmmirror.com");
    v.push("https://mirrors.cloud.tencent.com/npm/");
    v.push("https://repo.huaweicloud.com/repository/npm/");
    v.push("https://registry.npmjs.org");
    v
}

/// Arguments of the npm install of pnpm 11 into the managed Node directory.
pub fn pnpm_install_args(npm_cli: &str, node_dir: &str, registry: &str) -> (r: Vec<String>)
    ensures
        r.deep_view() == seq![
            npm_cli@,
            "install"@,
            "-g"@,
            "pnpm@11"@,
            "--prefix"@,
            node_dir@,
            "--no-audit"@,
            "--no-fund"@,
            "--registry"@,
            registry@,
        ],
{
    let mut v: Vec<String> = Vec::new();
    v.push(owned(npm_cli));
    v.push(owned("install"));
    v.push(owned("-g"));
    v.push(owned("pnpm@11"));
    v.push(owned("--prefix"));
    v.push(owned(node_dir));
    v.push(owned("--no-audit"));
    v.push(owned("--no-fund"));
    v.push(owned("--registry"));
    v.push(owned(registry));
    proof {
        assert(v.deep_view() =~= seq![
            npm_cli@,
            "install"@,
            "-g"@,
            "pnpm@11"@,
            "--prefix"@,
            node_dir@,
            "--no-audit"@,
            "--no-fund"@,
            "--registry"@,
            registry@,
        ]);
    }
    v
}

/// Progress while npm installs: once a line mentions `reify` the install is
/// downloading and linking, before that it is resolving.
pub open spec fn npm_stage(saw_reify: bool, line: Seq<char>) -> (bool, Seq<char>) {
    let seen = saw_reify || has_sub(line, "reify"@);
    (seen, if seen { "downloading-deps"@ } else { "resolving-deps"@ })
}

/// Reads one npm output line: whether `reify` has been seen, and the stage to report.
pub fn npm_progress(saw_reify: bool, line: &str) -> (r: (bool, &'static str))
    ensures
        (r.0, r.1@) == npm_stage(saw_reify, line@),
{
    let seen = saw_reify || str_contains(line, "reify");
    if seen {
        (true, "downloading-deps")
    } else {
        (false, "resolving-deps")
    }
}

/// Once npm reached `reify`, every later line reports downloading.
pub proof fn npm_stage_never_goes_back(line: Seq<char>)
    ensures
        npm_stage(true, line) == (true, "downloading-deps"@),
{
}

// ---------------------------------------------------------------- outcomes

/// Seconds an npm install of DSH may take.
pub const NPM_INSTALL_TIMEOUT: u64 = 900;

/// Seconds `dsh plugin add dshmarket` may take.
pub const PLUGIN_ADD_TIMEOUT: u64 = 300;

/// How a child process that was waited on with a time-out ended.
#[derive(Clone, Copy, PartialEq, Eq, Structural, Debug)]
pub enum ChildOutcome {
    /// It exited; `true` for a zero exit status.
    Exited(bool),
    /// Waiting for it failed.
    WaitFailed,
    /// It ran past the time-out and was killed with its process tree.
    TimedOut,
}

pub open spec fn npm_attempt_message(outcome: ChildOutcome, registry: Seq<char>) -> Option<Seq<char>> {
    match outcome {
        ChildOutcome::Exited(true) => None,
        ChildOutcome::Exited(false) => Some("npm 退出码非零 (registry="@ + registry + ")"@),
        ChildOutcome::WaitFailed => Some("无法等待 npm 进程 (registry="@ + registry + ")"@),
        ChildOutcome::TimedOut => Some(
            "npm install 超时（>"@ + decimal(NPM_INSTALL_TIMEOUT as nat) + "s，registry="@ + registry + "）"@,
        ),
    }
}

/// The error of one npm install attempt from `registry` (`None`: it succeeded).
pub fn npm_attempt_error(outcome: ChildOutcome, registry: &str) -> (r: Option<String>)
    ensures
        r.deep_view() == npm_attempt_message(outcome, registry@),
{
    match outcome {
        ChildOutcome::Exited(true) => None,
        ChildOutcome::Exited(false) => {
            let a = concat("npm 退出码非零 (registry=", registry);
            Some(concat(a.as_str(), ")"))
        },
        ChildOutcome::WaitFailed => {
            let a = concat("无法等待 npm 进程 (registry=", registry);
            Some(concat(a.as_str(), ")"))
        },
        ChildOutcome::TimedOut => {
            let n = decimal_string(NPM_INSTALL_TIMEOUT);
            let a = concat("npm install 超时（>", n.as_str());
            let b = concat(a.as_str(), "s，registry=");
            let c = concat(b.as_str(), registry);
            Some(concat(c.as_str(), "）"))
        },
    }
}

pub open spec fn plugin_add_message(outcome: ChildOutcome) -> Option<Seq<char>> {
    match outcome {
        ChildOutcome::Exited(true) => None,
        ChildOutcome::Exited(false) => Some("dsh plugin add 退出码非零"@),
        ChildOutcome::WaitFailed => Some("无法等待 dsh plugin add 进程"@),
        ChildOutcome::TimedOut => Some("dsh plugin add 超时（>"@ + decimal(PLUGIN_ADD_TIMEOUT as nat) + "s）"@),
    }
}

/// The error of installing the plugin market (`None`: it succeeded).
pub fn plugin_add_error(outcome: ChildOutcome) -> (r: Option<String>)
    ensures
        r.deep_view() == plugin_add_message(outcome),
{
    match outcome {
        ChildOutcome::Exited(true) => None,
        ChildOutcome::Exited(false) => Some(owned("dsh plugin add 退出码非零")),
        ChildOutcome::WaitFailed => Some(owned("无法等待 dsh plugin add 进程")),
        ChildOutcome::TimedOut => {
            let n = decimal_string(PLUGIN_ADD_TIMEOUT);
            let a = concat("dsh plugin add 超时（>", n.as_str());
            Some(concat(a.as_str(), "s）"))
        },
    }
}

/// How one pnpm install attempt went.
pub enum PnpmAttempt {
    Succeeded,
    /// npm ran and failed, with this standard error.
    Failed(String),
    /// npm could not be run, with this error.
    NotRun(String),
}

pub open spec fn pnpm_attempt_message(registry: Seq<char>, attempt: PnpmAttempt) -> Option<Seq<char>> {
    match attempt {
        PnpmAttempt::Succeeded => None,
        PnpmAttempt::Failed(stderr) => Some(registry + ": "@ + trim(stderr@)),
        PnpmAttempt::NotRun(e) => Some(registry + ": "@ + e@),
    }
}

/// The error an attempt leaves for the report (`None`: pnpm is installed).
pub fn pnpm_attempt_error(registry: &str, attempt: &PnpmAttempt) -> (r: Option<String>)
    ensures
        r.deep_view() == pnpm_attempt_message(registry@, *attempt),
{
    match attempt {
        PnpmAttempt::Succeeded => None,
        PnpmAttempt::Failed(stderr) => {
            let t = trim_str(stderr.as_str());
            let a = concat(registry, ": ");
            Some(concat(a.as_str(), t.as_str()))
        },
        PnpmAttempt::NotRun(e) => {
            let a = concat(registry, ": ");
            Some(concat(a.as_str(), e.as_str()))
        },
    }
}

// ---------------------------------------------------------------- archives and process trees

/// Arguments of `tar -xf <archive> -C <dest>`.
pub fn extract_args(archive: &str, dest: &str) -> (r: Vec<String>)
    ensures
        r.deep_view() == seq!["-xf"@, archive@, "-C"@, dest@],
{
    let mut v: Vec<String> = Vec::new();
    v.push(owned("-xf"));
    v.push(owned(archive));
    v.push(owned("-C"));
    v.push(owned(dest));
    proof {
        assert(v.deep_view() =~= seq!["-xf"@, archive@, "-C"@, dest@]);
    }
    v
}

/// The directory a Node archive unpacks into: the first directory entry.
pub open spec fn first_dir_of(entries: Seq<(Seq<char>, bool)>) -> Option<Seq<char>>
    decreases entries.len(),
{
    if entries.len() == 0 {
        None
    } else if entries[0].1 {
        Some(entries[0].0)
    } else {
        first_dir_of(entries.drop_first())
    }
}

/// Picks the unpacked Node directory among the entries (name, is a directory).
pub fn unpacked_node_dir(entries: &Vec<(String, bool)>) -> (r: Option<String>)
    ensures
        r.deep_view() == first_dir_of(entries_view(entries@)),
{
    let ghost ev = entries_view(entries@);
    let mut i: usize = 0;
    proof {
        assert(ev.skip(0) =~= ev);
    }
    while i < entries.len()
        invariant
            i <= entries.len(),
            ev == entries_view(entries@),
            first_dir_of(ev) == first_dir_of(ev.skip(i as int)),
        decreases entries.len() - i,
    {
        proof {
            assert(ev.skip(i as int)[0] == ev[i as int]);
            assert(ev.skip(i as int).drop_first() =~= ev.skip(i + 1));
        }
        if entries[i].1 {
            return Some(entries[i].0.clone());
        }
        i += 1;
    }
    proof {
        assert(ev.skip(i as int) =~= seq![]);
    }
    None
}

/// Directory entries as plain values.
pub open spec fn entries_view(entries: Seq<(String, bool)>) -> Seq<(Seq<char>, bool)> {
    entries.map_values(|e: (String, bool)| (e.0@, e.1))
}

/// Arguments of `taskkill /F /T /PID <pid>`, which ends a whole process tree on Windows.
pub fn taskkill_args(pid: u32) -> (r: Vec<String>)
    ensures
        r.deep_view() == seq!["/F"@, "/T"@, "/PID"@, decimal(pid as nat)],
{
    let mut v: Vec<String> = Vec::new();
    v.push(owned("/F"));
    v.push(owned("/T"));
    v.push(owned("/PID"));
    v.push(decimal_string(pid as u64));
    proof {
        assert(v.deep_view() =~= seq!["/F"@, "/T"@, "/PID"@, decimal(pid as nat)]);
    }
    v
}

/// Arguments of `tasklist /FI "PID eq <pid>" /NH`.
pub fn tasklist_args(pid: u32) -> (r: Vec<String>)
    ensures
        r.deep_view() == seq!["/FI"@, "PID eq "@ + decimal(pid as nat), "/NH"@],
{
    let mut v: Vec<String> = Vec::new();
    v.push(owned("/FI"));
    let n = decimal_string(pid as u64);
    v.push(concat("PID eq ", n.as_str()));
    v.push(owned("/NH"));
    proof {
        assert(v.deep_view() =~= seq!["/FI"@, "PID eq "@ + decimal(pid as nat), "/NH"@]);
    }
    v
}

/// On Windows a process counts as alive when `tasklist` lists its id.
pub fn tasklist_shows(stdout: &str, pid: u32) -> (r: bool)
    ensures
        r == has_sub(stdout@, decimal(pid as nat)),
{
    let n = decimal_string(pid as u64);
    str_contains(stdout, n.as_str())
}

/// The process left in a PID file that exit clean-up still kills: a trimmed
/// decimal `u32` other than 0.
pub open spec fn reap_target(text: Seq<char>) -> Option<nat> {
    match parse_unsigned(trim(text), u32::MAX as nat) {
        Some(p) => if p != 0 {
            Some(p)
        } else {
            None
        },
        None => None,
    }
}

/// Reads the PID file for the exit clean-up.
pub fn reap_pid(text: &str) -> (r: Option<u32>)
    ensures
        r matches Some(p) ==> reap_target(text@) == Some(p as nat),
        r is None ==> reap_target(text@) is None,
{
    match parse_pid(text) {
        Some(p) => if p != 0 {
            Some(p)
        } else {
            None
        },
        None => None,
    }
}

} // verus!
