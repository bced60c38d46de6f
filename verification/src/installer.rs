//! Where DSH and its Node runtime live under the DSH home, how the managed
//! install is recognised, and the text that the installer writes or reads.
use vstd::prelude::*;
use crate::fspath::{Arch, FsPath, Os};
use crate::quarantine::contains_entry;
use crate::text::{
    chars_of, concat, contains_ascii_ci, first_line, has_sub, has_sub_ascii_ci, lines, str_contains,
    string_of_range, trim, trim_bounds, replace_all, replace_str, lemma_replace_all_shows_to,
    lemma_has_sub_trans, starts_at, str_eq,
};

verus! {

// ---------------------------------------------------------------- platform names

/// The Node platform directory name of an OS and architecture.
pub open spec fn target_name(os: Os, arch: Arch) -> Seq<char> {
    match (os, arch) {
        (Os::MacOs, Arch::Aarch64) => "darwin-arm64"@,
        (Os::MacOs, Arch::X86_64) => "darwin-x64"@,
        (Os::Windows, Arch::X86_64) => "win32-x64"@,
        (Os::Windows, Arch::Aarch64) => "win32-arm64"@,
        (Os::Linux, Arch::X86_64) => "linux-x64"@,
        (Os::Linux, Arch::Aarch64) => "linux-arm64"@,
    }
}

/// Node platform directory name (the key the Node fetch script uses).
pub fn node_target(os: Os, arch: Arch) -> (r: &'static str)
    ensures
        r@ == target_name(os, arch),
{
    match (os, arch) {
        (Os::MacOs, Arch::Aarch64) => "darwin-arm64",
        (Os::MacOs, Arch::X86_64) => "darwin-x64",
        (Os::Windows, Arch::X86_64) => "win32-x64",
        (Os::Windows, Arch::Aarch64) => "win32-arm64",
        (Os::Linux, Arch::X86_64) => "linux-x64",
        (Os::Linux, Arch::Aarch64) => "linux-arm64",
    }
}

pub open spec fn exe_name(os: Os) -> Seq<char> {
    if os == Os::Windows {
        "node.exe"@
    } else {
        "node"@
    }
}

/// File name of the Node executable.
pub fn node_exe_name(os: Os) -> (r: &'static str)
    ensures
        r@ == exe_name(os),
{
    if os == Os::Windows {
        "node.exe"
    } else {
        "node"
    }
}

pub open spec fn separator(os: Os) -> Seq<char> {
    if os == Os::Windows {
        ";"@
    } else {
        ":"@
    }
}

/// The `PATH` list separator.
pub fn path_separator(os: Os) -> (r: &'static str)
    ensures
        r@ == separator(os),
{
    if os == Os::Windows {
        ";"
    } else {
        ":"
    }
}

/// `dir` put in front of a `PATH` value: `dir`, then the separator and the
/// existing value when that is set and not empty.
pub open spec fn path_with_front(dir: Seq<char>, existing: Option<Seq<char>>, os: Os) -> Seq<char> {
    match existing {
        Some(e) => if e.len() > 0 {
            dir + separator(os) + e
        } else {
            dir
        },
        None => dir,
    }
}

/// Builds the `PATH` value with `dir` searched first.
pub fn prepend_to_path(dir: &str, existing: &Option<String>, os: Os) -> (r: String)
    ensures
        r@ == path_with_front(dir@, existing.deep_view(), os),
{
    let mut out = dir.to_owned();
    match existing {
        Some(e) => {
            if e.as_str().is_empty() {
                out
            } else {
                out.append(path_separator(os));
                out.append(e.as_str());
                out
            }
        },
        None => out,
    }
}

// ---------------------------------------------------------------- layout under the DSH home

/// The npm global tree: `<home>/lib/node_modules`, on Windows `<home>/node_modules`.
pub open spec fn node_modules_of(home: Seq<Seq<char>>, os: Os) -> Seq<Seq<char>> {
    if os == Os::Windows {
        home.push("node_modules"@)
    } else {
        home.push("lib"@).push("node_modules"@)
    }
}

/// The npm global tree under `home`.
pub fn dsh_node_modules(home: &FsPath, os: Os) -> (r: FsPath)
    ensures
        r@ == node_modules_of(home@, os),
{
    if os == Os::Windows {
        home.join("node_modules")
    } else {
        home.join("lib").join("node_modules")
    }
}

pub open spec fn core_dir_of(home: Seq<Seq<char>>, os: Os) -> Seq<Seq<char>> {
    node_modules_of(home, os).push("@deepseek-ai"@).push("dsh"@)
}

/// The DSH core package directory.
pub fn dsh_core_dir(home: &FsPath, os: Os) -> (r: FsPath)
    ensures
        r@ == core_dir_of(home@, os),
{
    dsh_node_modules(home, os).join("@deepseek-ai").join("dsh")
}

pub open spec fn bin_js_of(home: Seq<Seq<char>>, os: Os) -> Seq<Seq<char>> {
    core_dir_of(home, os).push("lib"@).push("bin.js"@)
}

/// The real DSH entry point, `lib/bin.js` of the core package.
pub fn dsh_bin_js(home: &FsPath, os: Os) -> (r: FsPath)
    ensures
        r@ == bin_js_of(home@, os),
{
    dsh_core_dir(home, os).join("lib").join("bin.js")
}

/// The manifest of the DSH core package, which holds the installed version.
pub fn dsh_core_manifest(home: &FsPath, os: Os) -> (r: FsPath)
    ensures
        r@ == core_dir_of(home@, os).push("package.json"@),
{
    dsh_core_dir(home, os).join("package.json")
}

pub open spec fn node_dir_of(home: Seq<Seq<char>>, os: Os, arch: Arch) -> Seq<Seq<char>> {
    home.push("node"@).push(target_name(os, arch))
}

pub open spec fn managed_node_of(home: Seq<Seq<char>>, os: Os, arch: Arch) -> Seq<Seq<char>> {
    if os == Os::Windows {
        node_dir_of(home, os, arch).push("node.exe"@)
    } else {
        node_dir_of(home, os, arch).push("bin"@).push("node"@)
    }
}

/// The Node runtime directory that the app manages.
pub fn managed_node_dir(home: &FsPath, os: Os, arch: Arch) -> (r: FsPath)
    ensures
        r@ == node_dir_of(home@, os, arch),
{
    home.join("node").join(node_target(os, arch))
}

/// The managed Node executable: `<home>/node/<target>/node.exe` on Windows,
/// `<home>/node/<target>/bin/node` elsewhere.
pub fn managed_node(home: &FsPath, os: Os, arch: Arch) -> (r: FsPath)
    ensures
        r@ == managed_node_of(home@, os, arch),
{
    let base = managed_node_dir(home, os, arch);
    if os == Os::Windows {
        base.join("node.exe")
    } else {
        base.join("bin").join("node")
    }
}

/// The directory that holds the managed Node executable (to put on `PATH`).
pub fn managed_node_bin_dir(home: &FsPath, os: Os, arch: Arch) -> (r: Option<FsPath>)
    ensures
        r matches Some(d) && d@ == managed_node_of(home@, os, arch).drop_last(),
{
    managed_node(home, os, arch).parent()
}

/// The npm entry script inside a Node runtime directory.
pub open spec fn npm_cli_in(node_dir: Seq<Seq<char>>, os: Os) -> Seq<Seq<char>> {
    if os == Os::Windows {
        node_dir.push("node_modules"@).push("npm"@).push("bin"@).push("npm-cli.js"@)
    } else {
        node_dir.push("lib"@).push("node_modules"@).push("npm"@).push("bin"@).push("npm-cli.js"@)
    }
}

fn npm_cli_under(node_dir: &FsPath, os: Os) -> (r: FsPath)
    ensures
        r@ == npm_cli_in(node_dir@, os),
{
    if os == Os::Windows {
        node_dir.join("node_modules").join("npm").join("bin").join("npm-cli.js")
    } else {
        node_dir.join("lib").join("node_modules").join("npm").join("bin").join("npm-cli.js")
    }
}

/// The npm entry script of the Node runtime whose executable is `node`: the
/// runtime directory is the executable's directory on Windows and the one
/// above it elsewhere.
pub fn npm_cli_for_node(node: &FsPath, os: Os) -> (r: FsPath)
    requires
        node@.len() >= 2,
    ensures
        os == Os::Windows ==> r@ == npm_cli_in(node@.drop_last(), os),
        os != Os::Windows ==> r@ == npm_cli_in(node@.drop_last().drop_last(), os),
{
    let p = node.parent();
    let dir = match p {
        Some(d) => d,
        None => node.duplicate(),
    };
    if os == Os::Windows {
        npm_cli_under(&dir, os)
    } else {
        let q = dir.parent();
        let dir2 = match q {
            Some(d) => d,
            None => dir,
        };
        npm_cli_under(&dir2, os)
    }
}

/// The npm entry script of the managed Node runtime (where pnpm is installed from).
pub fn managed_npm_cli(home: &FsPath, os: Os, arch: Arch) -> (r: FsPath)
    ensures
        r@ == npm_cli_in(node_dir_of(home@, os, arch), os),
{
    npm_cli_under(&managed_node_dir(home, os, arch), os)
}

/// Where pnpm's launcher lands once installed into the managed Node runtime.
pub fn pnpm_launcher(home: &FsPath, os: Os, arch: Arch) -> (r: FsPath)
    ensures
        os == Os::Windows ==> r@ == node_dir_of(home@, os, arch).push("pnpm.cmd"@),
        os != Os::Windows ==> r@ == node_dir_of(home@, os, arch).push("bin"@).push("pnpm"@),
{
    let d = managed_node_dir(home, os, arch);
    if os == Os::Windows {
        d.join("pnpm.cmd")
    } else {
        d.join("bin").join("pnpm")
    }
}

/// The npm script that the DSH install runs is the one pnpm is installed from:
/// both are the managed runtime's npm.
pub proof fn npm_of_managed_node_is_managed_npm(home: Seq<Seq<char>>, os: Os, arch: Arch)
    ensures
        os == Os::Windows ==> npm_cli_in(managed_node_of(home, os, arch).drop_last(), os)
            == npm_cli_in(node_dir_of(home, os, arch), os),
        os != Os::Windows ==> npm_cli_in(
            managed_node_of(home, os, arch).drop_last().drop_last(),
            os,
        ) == npm_cli_in(node_dir_of(home, os, arch), os),
{
    let n = node_dir_of(home, os, arch);
    if os == Os::Windows {
        assert(n.push("node.exe"@).drop_last() =~= n);
    } else {
        assert(n.push("bin"@).push("node"@).drop_last().drop_last() =~= n);
    }
}

/// Where a bundled plugin is installed: `<npm tree>/@iyam/<name>`.
pub fn plugin_install_dir(home: &FsPath, os: Os, name: &str) -> (r: FsPath)
    ensures
        r@ == node_modules_of(home@, os).push("@iyam"@).push(name@),
{
    dsh_node_modules(home, os).join("@iyam").join(name)
}

/// The link that makes a bundled plugin resolvable from the profiles:
/// `<home>/profiles/node_modules/@iyam/<name>`.
pub fn plugin_profile_link(home: &FsPath, name: &str) -> (r: FsPath)
    ensures
        r@ == home@.push("profiles"@).push("node_modules"@).push("@iyam"@).push(name@),
{
    home.join("profiles").join("node_modules").join("@iyam").join(name)
}

/// The web profile manifest `<home>/profiles/web/package.json`.
pub fn web_profile_manifest(home: &FsPath) -> (r: FsPath)
    ensures
        r@ == home@.push("profiles"@).push("web"@).push("package.json"@),
{
    home.join("profiles").join("web").join("package.json")
}

/// Whether the DSH entry `cli` lies under `home` (then the managed Node runs it).
pub fn cli_is_managed(cli: &FsPath, home: &FsPath) -> (r: bool)
    ensures
        r == (home@.len() <= cli@.len() && cli@.take(home@.len() as int) == home@),
{
    cli.starts_with(home)
}

/// The Node program that runs the DSH entry `cli`: the managed Node when the
/// entry lies under `home` (an install of this app), else `None` for the
/// system `node` (a DSH the user installed).
pub open spec fn dsh_node_of(cli: Seq<Seq<char>>, home: Seq<Seq<char>>, os: Os, arch: Arch) -> Option<Seq<Seq<char>>> {
    if home.len() <= cli.len() && cli.take(home.len() as int) == home {
        Some(managed_node_of(home, os, arch))
    } else {
        None
    }
}

/// Which Node runs the DSH entry `cli` (see `dsh_node_of`).
pub fn dsh_node_program(cli: &FsPath, home: &FsPath, os: Os, arch: Arch) -> (r: Option<FsPath>)
    ensures
        match r {
            Some(p) => dsh_node_of(cli@, home@, os, arch) == Some(p@),
            None => dsh_node_of(cli@, home@, os, arch) is None,
        },
{
    if cli_is_managed(cli, home) {
        Some(managed_node(home, os, arch))
    } else {
        None
    }
}

// ---------------------------------------------------------------- profile registration

/// The profile bundles after registering `name`: appended unless already listed.
pub open spec fn registered(bundles: Seq<Option<Seq<char>>>, name: Seq<char>) -> Seq<Option<Seq<char>>> {
    if bundles.contains(Some(name)) {
        bundles
    } else {
        bundles.push(Some(name))
    }
}

/// Registers a bundled plugin in the web profile's bundles (idempotent).
pub fn register_bundle(bundles: &Vec<Option<String>>, name: &str) -> (r: Vec<Option<String>>)
    ensures
        r.deep_view() == registered(bundles.deep_view(), name@),
{
    let mut out = bundles.clone();
    proof {
        assert(out.deep_view() =~= bundles.deep_view()) by {
            assert forall|k: int| 0 <= k < out.len() implies out.deep_view()[k]
                == bundles.deep_view()[k] by {
                assert(out@[k] == bundles@[k]);
            }
        }
    }
    let n = name.to_owned();
    if !contains_entry(&out, &n) {
        let ghost before = out.deep_view();
        out.push(Some(n));
        proof {
            assert(out.deep_view() =~= before.push(Some(name@)));
        }
    }
    out
}

/// Registering a plugin twice is the same as registering it once.
pub proof fn register_bundle_idempotent(bundles: Seq<Option<Seq<char>>>, name: Seq<char>)
    ensures
        registered(registered(bundles, name), name) == registered(bundles, name),
        registered(bundles, name).contains(Some(name)),
{
    if !bundles.contains(Some(name)) {
        assert(bundles.push(Some(name))[bundles.len() as int] == Some(name));
    }
}

/// Whether the web profile's bundles list the plugin market.
pub fn bundles_list_market(bundles: &Vec<Option<String>>) -> (r: bool)
    ensures
        r == bundles.deep_view().contains(Some("dshmarket"@)),
{
    let m = "dshmarket".to_owned();
    contains_entry(bundles, &m)
}

// ---------------------------------------------------------------- launcher scripts

/// The terminal launcher that runs the DSH entry with the managed Node: a sh
/// script, or a `.cmd` batch file on Windows.
pub open spec fn launcher_text(os: Os, node: Seq<char>, bin_js: Seq<char>) -> Seq<char> {
    if os == Os::Windows {
        "@echo off\r\n\""@ + node + "\" \""@ + bin_js + "\" %*\r\n"@
    } else {
        "#!/bin/sh\nexec \""@ + node + "\" \""@ + bin_js + "\" \"$@\"\n"@
    }
}

/// Text of the `dsh` launcher (`bin/dsh`, or `bin/dsh.cmd` on Windows).
pub fn launcher_script(os: Os, node: &str, bin_js: &str) -> (r: String)
    ensures
        r@ == launcher_text(os, node@, bin_js@),
{
    if os == Os::Windows {
        let a = concat("@echo off\r\n\"", node);
        let b = concat(a.as_str(), "\" \"");
        let c = concat(b.as_str(), bin_js);
        concat(c.as_str(), "\" %*\r\n")
    } else {
        let a = concat("#!/bin/sh\nexec \"", node);
        let b = concat(a.as_str(), "\" \"");
        let c = concat(b.as_str(), bin_js);
        concat(c.as_str(), "\" \"$@\"\n")
    }
}

/// File name of the `dsh` launcher under `<home>/bin`.
pub fn launcher_name(os: Os) -> (r: &'static str)
    ensures
        os == Os::Windows ==> r@ == "dsh.cmd"@,
        os != Os::Windows ==> r@ == "dsh"@,
{
    if os == Os::Windows {
        "dsh.cmd"
    } else {
        "dsh"
    }
}

// ---------------------------------------------------------------- probing an entry

/// Whether `--version` output looks like a version: blank, or holding an ASCII
/// digit and a `.` and no `error` in any letter case.
pub open spec fn version_like(out: Seq<char>) -> bool {
    trim(out).len() == 0 || ((exists|i: int| 0 <= i < out.len() && '0' <= #[trigger] out[i] <= '9')
        && has_sub(out, "."@) && !has_sub_ascii_ci(out, "error"@))
}

/// Judges the output of `<node> <bin.js> --version`: the entry is usable when
/// the run succeeded and printed something version-like (or nothing).
pub fn looks_like_version(succeeded: bool, stdout: &str) -> (r: bool)
    ensures
        r == (succeeded && version_like(stdout@)),
{
    if !succeeded {
        return false;
    }
    let v = chars_of(stdout);
    let (a, b) = trim_bounds(&v);
    if a == b {
        return true;
    }
    let mut has_digit = false;
    let mut i: usize = 0;
    while i < v.len()
        invariant
            i <= v.len(),
            has_digit == exists|k: int| 0 <= k < i && '0' <= #[trigger] v@[k] <= '9',
        decreases v.len() - i,
    {
        if '0' <= v[i] && v[i] <= '9' {
            has_digit = true;
        }
        i += 1;
    }
    let dot = str_contains(stdout, ".");
    let err = chars_of("error");
    proof {
        reveal_strlit("error");
    }
    let has_err = contains_ascii_ci(&v, &err);
    has_digit && dot && !has_err
}

/// The first line of `which`/`where` output, trimmed, when not blank.
pub open spec fn first_path_of(out: Seq<char>) -> Option<Seq<char>> {
    if lines(out).len() == 0 || trim(lines(out)[0]).len() == 0 {
        None
    } else {
        Some(trim(lines(out)[0]))
    }
}

/// Reads the resolved command path from `which`/`where` output.
pub fn first_path_line(out: &str) -> (r: Option<String>)
    ensures
        r.deep_view() == first_path_of(out@),
{
    let v = chars_of(out);
    match first_line(&v) {
        None => None,
        Some((a, b)) => {
            let line = string_of_range(&v, a, b);
            let l = chars_of(line.as_str());
            let (x, y) = trim_bounds(&l);
            if x == y {
                None
            } else {
                Some(string_of_range(&l, x, y))
            }
        },
    }
}

// ---------------------------------------------------------------- directory picker owner patch

/// The marker of a patched picker worker.
pub open spec fn picker_marker() -> Seq<char> {
    "const _h = process.env.DSH_DIALOG_OWNER_HWND; let _o = null; if (_h && /^[0-9]+$/.test(_h)) { const _n = Number(_h); if (_n > 0 && _n <= 0x7fffffff) { _o = _n; } }"@
}

/// The unpatched `show` of the picker worker.
pub open spec fn picker_show_plain() -> Seq<char> {
    "show: () => method(dialog, SLOT_SHOW, protoShow)(null),"@
}

/// The patched `show`: the dialog is owned by the window whose handle
/// `DSH_DIALOG_OWNER_HWND` holds, when that is a plausible handle.
pub open spec fn picker_show_owned() -> Seq<char> {
    "show: () => { "@ + picker_marker() + " return method(dialog, SLOT_SHOW, protoShow)(_o); },"@
}

/// An earlier form of the patch that trusted the variable as is.
pub open spec fn picker_show_old_env() -> Seq<char> {
    "show: () => method(dialog, SLOT_SHOW, protoShow)(process.env.DSH_DIALOG_OWNER_HWND ? Number(process.env.DSH_DIALOG_OWNER_HWND) : null),"@
}

/// An earlier form of the patch that called `IsWindow` through koffi.
pub open spec fn picker_show_old_koffi() -> Seq<char> {
    "show: () => { const _h = process.env.DSH_DIALOG_OWNER_HWND; let _o = null; if (_h && /^[0-9]+$/.test(_h)) { const _n = Number(_h); if (_n > 0 && _n <= 0x7fffffff) { try { const _u = koffi.load('user32.dll'); const _isw = _u.func('__stdcall', 'IsWindow', 'int32', ['void *']); if (_isw(_n)) _o = _n; } catch (_e) { _o = null; } } } return method(dialog, SLOT_SHOW, protoShow)(_o); },"@
}

/// What patching a picker worker file does to its text.
pub enum PickerPatch {
    /// The file already carries the patch: leave it.
    AlreadyPatched,
    /// Write this text.
    Patched(String),
    /// The worker's layout is not recognised: leave it (and warn).
    Unrecognized,
}

/// Patching `content` gives `p`: a patched file is left alone; otherwise older
/// patches are undone, and the plain `show` is replaced by the owned one when present.
pub open spec fn picker_patch_is(p: PickerPatch, content: Seq<char>) -> bool {
    if has_sub(content, picker_marker()) {
        p is AlreadyPatched
    } else {
        let base = replace_all(
            replace_all(content, picker_show_old_env(), picker_show_plain()),
            picker_show_old_koffi(),
            picker_show_plain(),
        );
        if has_sub(base, picker_show_plain()) {
            p matches PickerPatch::Patched(t) && t@ == replace_all(
                base,
                picker_show_plain(),
                picker_show_owned(),
            )
        } else {
            p is Unrecognized
        }
    }
}

fn show_owned() -> (r: String)
    ensures
        r@ == picker_show_owned(),
{
    let a = concat(
        "show: () => { ",
        "const _h = process.env.DSH_DIALOG_OWNER_HWND; let _o = null; if (_h && /^[0-9]+$/.test(_h)) { const _n = Number(_h); if (_n > 0 && _n <= 0x7fffffff) { _o = _n; } }",
    );
    concat(a.as_str(), " return method(dialog, SLOT_SHOW, protoShow)(_o); },")
}

/// Patches a directory-picker worker so that its dialog is owned by the main
/// window (the text to write, or why nothing is written).
pub fn patch_picker_worker_file(content: &str) -> (r: PickerPatch)
    ensures
        picker_patch_is(r, content@),
{
    let marker = "const _h = process.env.DSH_DIALOG_OWNER_HWND; let _o = null; if (_h && /^[0-9]+$/.test(_h)) { const _n = Number(_h); if (_n > 0 && _n <= 0x7fffffff) { _o = _n; } }";
    if str_contains(content, marker) {
        return PickerPatch::AlreadyPatched;
    }
    let plain = "show: () => method(dialog, SLOT_SHOW, protoShow)(null),";
    let old_env = "show: () => method(dialog, SLOT_SHOW, protoShow)(process.env.DSH_DIALOG_OWNER_HWND ? Number(process.env.DSH_DIALOG_OWNER_HWND) : null),";
    let old_koffi = "show: () => { const _h = process.env.DSH_DIALOG_OWNER_HWND; let _o = null; if (_h && /^[0-9]+$/.test(_h)) { const _n = Number(_h); if (_n > 0 && _n <= 0x7fffffff) { try { const _u = koffi.load('user32.dll'); const _isw = _u.func('__stdcall', 'IsWindow', 'int32', ['void *']); if (_isw(_n)) _o = _n; } catch (_e) { _o = null; } } } return method(dialog, SLOT_SHOW, protoShow)(_o); },";
    proof {
        reveal_strlit("show: () => method(dialog, SLOT_SHOW, protoShow)(null),");
        reveal_strlit(
            "show: () => method(dialog, SLOT_SHOW, protoShow)(process.env.DSH_DIALOG_OWNER_HWND ? Number(process.env.DSH_DIALOG_OWNER_HWND) : null),",
        );
        reveal_strlit(
            "show: () => { const _h = process.env.DSH_DIALOG_OWNER_HWND; let _o = null; if (_h && /^[0-9]+$/.test(_h)) { const _n = Number(_h); if (_n > 0 && _n <= 0x7fffffff) { try { const _u = koffi.load('user32.dll'); const _isw = _u.func('__stdcall', 'IsWindow', 'int32', ['void *']); if (_isw(_n)) _o = _n; } catch (_e) { _o = null; } } } return method(dialog, SLOT_SHOW, protoShow)(_o); },",
        );
    }
    let step = replace_str(content, old_env, plain);
    let base = replace_str(step.as_str(), old_koffi, plain);
    if str_contains(base.as_str(), plain) {
        let owned = show_owned();
        PickerPatch::Patched(replace_str(base.as_str(), plain, owned.as_str()))
    } else {
        PickerPatch::Unrecognized
    }
}

/// Patching is idempotent: a file that the patch rewrote is recognised as
/// patched, so a second pass leaves it alone.
pub proof fn picker_patch_idempotent(content: Seq<char>, p: PickerPatch, again: PickerPatch)
    requires
        picker_patch_is(p, content),
        p matches PickerPatch::Patched(t) && picker_patch_is(again, t@),
    ensures
        again is AlreadyPatched,
{
    reveal_strlit("show: () => method(dialog, SLOT_SHOW, protoShow)(null),");
    reveal_strlit("show: () => { ");
    let base = replace_all(
        replace_all(content, picker_show_old_env(), picker_show_plain()),
        picker_show_old_koffi(),
        picker_show_plain(),
    );
    let owned = picker_show_owned();
    lemma_replace_all_shows_to(base, picker_show_plain(), owned);
    let m = picker_marker();
    assert(starts_at(owned, 14, m)) by {
        assert(owned.subrange(14, 14 + m.len() as int) =~= m);
    }
    lemma_has_sub_trans(replace_all(base, picker_show_plain(), owned), owned, m);
}

/// What the picker search does with one directory entry.
#[derive(Clone, Copy, PartialEq, Eq, Structural)]
pub enum PickerVisit {
    /// Symbolic links (cycles), plain files and non-UTF-8 names are passed over.
    Skip,
    /// A picker package: patch its `lib/worker.cjs`, do not look inside further.
    Patch,
    /// Any other directory: search it.
    Descend,
}

pub open spec fn picker_visit_of(name: Option<Seq<char>>, is_symlink: bool, is_dir: bool) -> PickerVisit {
    if is_symlink || !is_dir {
        PickerVisit::Skip
    } else {
        match name {
            None => PickerVisit::Skip,
            Some(n) => if n == "dsh-host-directory-picker-native"@ {
                PickerVisit::Patch
            } else {
                PickerVisit::Descend
            },
        }
    }
}

/// The picker search never follows a symbolic link and never enters a plain
/// file; a real directory is patched exactly when it is named
/// `dsh-host-directory-picker-native`, and searched when it has any other name.
pub proof fn picker_visit_skips_links(name: Option<Seq<char>>, is_symlink: bool, is_dir: bool)
    ensures
        is_symlink ==> picker_visit_of(name, is_symlink, is_dir) == PickerVisit::Skip,
        !is_dir ==> picker_visit_of(name, is_symlink, is_dir) == PickerVisit::Skip,
        picker_visit_of(name, is_symlink, is_dir) == PickerVisit::Patch ==> !is_symlink && is_dir && name
            == Some("dsh-host-directory-picker-native"@),
        picker_visit_of(name, is_symlink, is_dir) == PickerVisit::Descend ==> !is_symlink && is_dir
            && name is Some && name != Some("dsh-host-directory-picker-native"@),
        !is_symlink && is_dir && name == Some("dsh-host-directory-picker-native"@) ==> picker_visit_of(
            name,
            is_symlink,
            is_dir,
        ) == PickerVisit::Patch,
        !is_symlink && is_dir && name is Some && name != Some("dsh-host-directory-picker-native"@)
            ==> picker_visit_of(name, is_symlink, is_dir) == PickerVisit::Descend,
{
}

/// Classifies a directory entry met while searching for picker workers.
pub fn picker_visit(name: &Option<String>, is_symlink: bool, is_dir: bool) -> (r: PickerVisit)
    ensures
        r == picker_visit_of(name.deep_view(), is_symlink, is_dir),
{
    if is_symlink || !is_dir {
        return PickerVisit::Skip;
    }
    match name {
        None => PickerVisit::Skip,
        Some(n) => if str_eq(n.as_str(), "dsh-host-directory-picker-native") {
            PickerVisit::Patch
        } else {
            PickerVisit::Descend
        },
    }
}

/// The search for picker workers goes no deeper than 24 directory levels.
pub fn picker_depth_allowed(depth: u32) -> (r: bool)
    ensures
        r == (depth <= 24),
{
    depth <= 24
}

/// Where the search for picker workers starts: `<home>/node_modules`.
pub fn picker_search_root(home: &FsPath) -> (r: FsPath)
    ensures
        r@ == home@.push("node_modules"@),
{
    home.join("node_modules")
}

/// The worker file of a picker package directory.
pub fn picker_worker(package_dir: &FsPath) -> (r: FsPath)
    ensures
        r@ == package_dir@.push("lib"@).push("worker.cjs"@),
{
    package_dir.join("lib").join("worker.cjs")
}

// ---------------------------------------------------------------- locating DSH

/// The marker file that says this app installed the DSH in `home`.
pub fn managed_marker(home: &FsPath) -> (r: FsPath)
    ensures
        r@ == home@.push(".iyam-managed"@),
{
    home.join(".iyam-managed")
}

/// Which DSH entry to use. The managed entry is preferred whenever it runs
/// under the managed Node; otherwise the one found on `PATH` (resolved through
/// its links) if it runs under the system Node; otherwise none, and DSH must be
/// installed.
pub open spec fn chosen_cli(
    managed: Seq<Seq<char>>,
    managed_runs: bool,
    system: Option<(Seq<Seq<char>>, bool)>,
) -> Option<Seq<Seq<char>>> {
    if managed_runs {
        Some(managed)
    } else {
        match system {
            Some((p, true)) => Some(p),
            _ => None,
        }
    }
}

/// Chooses the DSH entry from the probes: `managed_runs` says whether the
/// managed `bin.js` exists and answers `--version` under the managed Node;
/// `system` is the entry found on `PATH` with whether it answers.
pub fn detect_dsh_cli(managed: &FsPath, managed_runs: bool, system: &Option<(FsPath, bool)>) -> (r: Option<FsPath>)
    ensures
        r matches Some(p) ==> chosen_cli(managed@, managed_runs, system_view(*system)) == Some(p@),
        r is None ==> chosen_cli(managed@, managed_runs, system_view(*system)) is None,
{
    if managed_runs {
        return Some(managed.duplicate());
    }
    match system {
        Some((p, true)) => Some(p.duplicate()),
        _ => None,
    }
}

/// The probed `PATH` entry as path components.
pub open spec fn system_view(system: Option<(FsPath, bool)>) -> Option<(Seq<Seq<char>>, bool)> {
    match system {
        Some((p, ok)) => Some((p@, ok)),
        None => None,
    }
}

/// Whether an installed entry really runs: its `bin.js` and the Node meant to
/// run it both exist, and `<node> <bin.js> --version` (`run`: whether it
/// succeeded, and its output; `None` when not run) printed a version.
pub open spec fn entry_runs(bin_js_present: bool, node_present: bool, run: Option<(bool, Seq<char>)>) -> bool {
    bin_js_present && node_present && match run {
        Some((ok, out)) => ok && version_like(out),
        None => false,
    }
}

/// Judges a managed (or staged) install from its probes.
pub fn dsh_entry_runs(bin_js_present: bool, node_present: bool, run: &Option<(bool, String)>) -> (r: bool)
    ensures
        r == entry_runs(bin_js_present, node_present, run_view(*run)),
{
    if !bin_js_present || !node_present {
        return false;
    }
    match run {
        Some((ok, out)) => looks_like_version(*ok, out.as_str()),
        None => false,
    }
}

/// A `--version` run as plain values.
pub open spec fn run_view(run: Option<(bool, String)>) -> Option<(bool, Seq<char>)> {
    match run {
        Some((ok, out)) => Some((ok, out@)),
        None => None,
    }
}

// ---------------------------------------------------------------- bundled plugins

/// The plugins this app ships and installs into every DSH it runs.
#[derive(Clone, Copy, PartialEq, Eq, Structural, Debug)]
pub enum BundledPlugin {
    /// The desktop-shell companion (layout CSS).
    DesktopShell,
    /// The theme UI (theme tokens and settings panel).
    RtuiUi,
    /// The file viewer (forwards file clicks to the host preview).
    FileHandler,
}

/// The plugin's directory in the app's resources.
pub open spec fn source_dir_name(p: BundledPlugin) -> Seq<char> {
    match p {
        BundledPlugin::DesktopShell => "dsh-shell-plugin"@,
        BundledPlugin::RtuiUi => "dsh-rtui-ui"@,
        BundledPlugin::FileHandler => "dsh-file-handler"@,
    }
}

/// The plugin's package name below the `@iyam` scope.
pub open spec fn package_name(p: BundledPlugin) -> Seq<char> {
    match p {
        BundledPlugin::DesktopShell => "dsh-desktop-shell"@,
        BundledPlugin::RtuiUi => "dsh-rtui-ui"@,
        BundledPlugin::FileHandler => "dsh-file-handler"@,
    }
}

/// Name of the plugin's directory among the app's resources.
pub fn bundled_source_name(p: BundledPlugin) -> (r: &'static str)
    ensures
        r@ == source_dir_name(p),
{
    match p {
        BundledPlugin::DesktopShell => "dsh-shell-plugin",
        BundledPlugin::RtuiUi => "dsh-rtui-ui",
        BundledPlugin::FileHandler => "dsh-file-handler",
    }
}

/// The plugin's package name below `@iyam`.
pub fn bundled_package_name(p: BundledPlugin) -> (r: &'static str)
    ensures
        r@ == package_name(p),
{
    match p {
        BundledPlugin::DesktopShell => "dsh-desktop-shell",
        BundledPlugin::RtuiUi => "dsh-rtui-ui",
        BundledPlugin::FileHandler => "dsh-file-handler",
    }
}

/// The entry that registers the plugin in the web profile's bundles.
pub fn bundle_entry(p: BundledPlugin) -> (r: String)
    ensures
        r@ == "@iyam/"@ + package_name(p),
{
    concat("@iyam/", bundled_package_name(p))
}

/// The files whose presence makes `dir` a usable copy of the plugin: the
/// desktop shell's `lib/client.js`; for the others `client.js` and `package.json`.
pub open spec fn markers_of(p: BundledPlugin, dir: Seq<Seq<char>>) -> Seq<Seq<Seq<char>>> {
    if p == BundledPlugin::DesktopShell {
        seq![dir.push("lib"@).push("client.js"@)]
    } else {
        seq![dir.push("client.js"@), dir.push("package.json"@)]
    }
}

/// The marker files to probe in a candidate directory.
pub fn plugin_markers(p: BundledPlugin, dir: &FsPath) -> (r: Vec<FsPath>)
    ensures
        paths_view(r@) == markers_of(p, dir@),
{
    let mut v: Vec<FsPath> = Vec::new();
    if p == BundledPlugin::DesktopShell {
        v.push(dir.join("lib").join("client.js"));
    } else {
        v.push(dir.join("client.js"));
        v.push(dir.join("package.json"));
    }
    proof {
        assert(paths_view(v@) =~= markers_of(p, dir@));
    }
    v
}

/// Paths as component sequences.
pub open spec fn paths_view(ps: Seq<FsPath>) -> Seq<Seq<Seq<char>>> {
    ps.map_values(|p: FsPath| p@)
}

/// Where the plugin is looked for, in order: the app's resources
/// (`<resources>/bin/<dir>`), beside the executable (`<exe dir>/<dir>`), and in
/// the working directory (`src-tauri/bin/<dir>`, then `bin/<dir>`). A location
/// that could not be determined is left out.
pub open spec fn candidates_of(
    p: BundledPlugin,
    resource_dir: Option<Seq<Seq<char>>>,
    exe_dir: Option<Seq<Seq<char>>>,
    cwd: Option<Seq<Seq<char>>>,
) -> Seq<Seq<Seq<char>>> {
    let n = source_dir_name(p);
    (match resource_dir {
        Some(r) => seq![r.push("bin"@).push(n)],
        None => seq![],
    }) + (match exe_dir {
        Some(e) => seq![e.push(n)],
        None => seq![],
    }) + (match cwd {
        Some(c) => seq![c.push("src-tauri"@).push("bin"@).push(n), c.push("bin"@).push(n)],
        None => seq![],
    })
}

/// The optional paths as plain values.
pub open spec fn opt_path(p: Option<FsPath>) -> Option<Seq<Seq<char>>> {
    match p {
        Some(x) => Some(x@),
        None => None,
    }
}

/// The directories to probe for a bundled plugin, first match wins.
pub fn plugin_candidates(
    p: BundledPlugin,
    resource_dir: &Option<FsPath>,
    exe_dir: &Option<FsPath>,
    cwd: &Option<FsPath>,
) -> (r: Vec<FsPath>)
    ensures
        paths_view(r@) == candidates_of(p, opt_path(*resource_dir), opt_path(*exe_dir), opt_path(*cwd)),
{
    let n = bundled_source_name(p);
    let mut v: Vec<FsPath> = Vec::new();
    let ghost a: Seq<Seq<Seq<char>>> = match opt_path(*resource_dir) {
        Some(r) => seq![r.push("bin"@).push(n@)],
        None => seq![],
    };
    let ghost b: Seq<Seq<Seq<char>>> = match opt_path(*exe_dir) {
        Some(e) => seq![e.push(n@)],
        None => seq![],
    };
    let ghost c: Seq<Seq<Seq<char>>> = match opt_path(*cwd) {
        Some(w) => seq![w.push("src-tauri"@).push("bin"@).push(n@), w.push("bin"@).push(n@)],
        None => seq![],
    };
    match resource_dir {
        Some(r) => v.push(r.join("bin").join(n)),
        None => {},
    }
    proof {
        assert(paths_view(v@) =~= a);
    }
    match exe_dir {
        Some(e) => v.push(e.join(n)),
        None => {},
    }
    proof {
        assert(paths_view(v@) =~= a + b);
    }
    match cwd {
        Some(w) => {
            v.push(w.join("src-tauri").join("bin").join(n));
            v.push(w.join("bin").join(n));
        },
        None => {},
    }
    proof {
        assert(paths_view(v@) =~= a + b + c);
    }
    v
}

/// The bundles of a web profile created from scratch.
pub fn default_profile_bundles() -> (r: Vec<Option<String>>)
    ensures
        r.deep_view() == seq![Some("@deepseek-ai/dsh-base"@), Some("@deepseek-ai/dsh-web-app"@)],
{
    let mut v: Vec<Option<String>> = Vec::new();
    v.push(Some("@deepseek-ai/dsh-base".to_owned()));
    v.push(Some("@deepseek-ai/dsh-web-app".to_owned()));
    proof {
        assert(v.deep_view() =~= seq![Some("@deepseek-ai/dsh-base"@), Some("@deepseek-ai/dsh-web-app"@)]);
    }
    v
}

} // verus!
