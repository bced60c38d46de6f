use iyam_dsh::fspath::{Arch, FsPath, Os};
use iyam_dsh::installer::{
    bundles_list_market, cli_is_managed, detect_dsh_cli, dsh_bin_js, dsh_core_dir, dsh_core_manifest,
    dsh_entry_runs, dsh_node_modules, first_path_line, launcher_name, launcher_script,
    looks_like_version, managed_marker, managed_node, managed_node_bin_dir, managed_npm_cli,
    node_exe_name, node_target, npm_cli_for_node, patch_picker_worker_file,
    path_separator, picker_depth_allowed, picker_search_root, picker_visit, picker_worker,
    plugin_install_dir, plugin_profile_link, pnpm_launcher, prepend_to_path, register_bundle,
    web_profile_manifest, PickerPatch, PickerVisit,
};
use iyam_dsh::installer::{
    bundle_entry, bundled_package_name, bundled_source_name, default_profile_bundles, plugin_candidates,
    plugin_markers, BundledPlugin,
};

fn s(x: &str) -> String {
    x.to_string()
}

fn path(parts: &[&str]) -> FsPath {
    FsPath::from_parts(parts.iter().map(|p| p.to_string()).collect())
}

fn parts(p: &FsPath) -> Vec<&str> {
    p.parts.iter().map(|x| x.as_str()).collect()
}

fn home() -> FsPath {
    path(&["/", "home", "u", ".dsh"])
}

#[test]
fn platform_names() {
    assert_eq!(node_target(Os::MacOs, Arch::Aarch64), "darwin-arm64");
    assert_eq!(node_target(Os::MacOs, Arch::X86_64), "darwin-x64");
    assert_eq!(node_target(Os::Windows, Arch::X86_64), "win32-x64");
    assert_eq!(node_target(Os::Windows, Arch::Aarch64), "win32-arm64");
    assert_eq!(node_target(Os::Linux, Arch::X86_64), "linux-x64");
    assert_eq!(node_target(Os::Linux, Arch::Aarch64), "linux-arm64");
    assert_eq!(node_exe_name(Os::Windows), "node.exe");
    assert_eq!(node_exe_name(Os::Linux), "node");
    assert_eq!(path_separator(Os::Windows), ";");
    assert_eq!(path_separator(Os::MacOs), ":");
    assert_eq!(launcher_name(Os::Windows), "dsh.cmd");
    assert_eq!(launcher_name(Os::Linux), "dsh");
}

#[test]
fn path_gets_the_managed_node_first() {
    assert_eq!(prepend_to_path("/n/bin", &Some(s("/usr/bin")), Os::Linux), "/n/bin:/usr/bin");
    assert_eq!(prepend_to_path("C:\\n", &Some(s("C:\\w")), Os::Windows), "C:\\n;C:\\w");
    assert_eq!(prepend_to_path("/n/bin", &Some(s("")), Os::Linux), "/n/bin");
    assert_eq!(prepend_to_path("/n/bin", &None, Os::Linux), "/n/bin");
}

#[test]
fn dsh_layout_follows_the_npm_global_tree() {
    let h = home();
    assert_eq!(parts(&dsh_node_modules(&h, Os::Linux)), vec!["/", "home", "u", ".dsh", "lib", "node_modules"]);
    assert_eq!(parts(&dsh_node_modules(&h, Os::Windows)), vec!["/", "home", "u", ".dsh", "node_modules"]);
    assert_eq!(
        parts(&dsh_core_dir(&h, Os::MacOs)),
        vec!["/", "home", "u", ".dsh", "lib", "node_modules", "@deepseek-ai", "dsh"]
    );
    assert_eq!(
        parts(&dsh_bin_js(&h, Os::Windows)),
        vec!["/", "home", "u", ".dsh", "node_modules", "@deepseek-ai", "dsh", "lib", "bin.js"]
    );
    assert_eq!(
        parts(&dsh_core_manifest(&h, Os::Linux)),
        vec!["/", "home", "u", ".dsh", "lib", "node_modules", "@deepseek-ai", "dsh", "package.json"]
    );
    assert_eq!(parts(&managed_marker(&h)), vec!["/", "home", "u", ".dsh", ".iyam-managed"]);
    assert_eq!(parts(&web_profile_manifest(&h)), vec!["/", "home", "u", ".dsh", "profiles", "web", "package.json"]);
}

#[test]
fn managed_node_and_its_npm() {
    let h = home();
    let unix = managed_node(&h, Os::Linux, Arch::X86_64);
    assert_eq!(parts(&unix), vec!["/", "home", "u", ".dsh", "node", "linux-x64", "bin", "node"]);
    let win = managed_node(&h, Os::Windows, Arch::X86_64);
    assert_eq!(parts(&win), vec!["/", "home", "u", ".dsh", "node", "win32-x64", "node.exe"]);
    assert_eq!(
        parts(&managed_node_bin_dir(&h, Os::Linux, Arch::X86_64).unwrap()),
        vec!["/", "home", "u", ".dsh", "node", "linux-x64", "bin"]
    );
    assert_eq!(
        parts(&npm_cli_for_node(&unix, Os::Linux)),
        parts(&managed_npm_cli(&h, Os::Linux, Arch::X86_64))
    );
    assert_eq!(
        parts(&managed_npm_cli(&h, Os::Linux, Arch::X86_64)),
        vec!["/", "home", "u", ".dsh", "node", "linux-x64", "lib", "node_modules", "npm", "bin", "npm-cli.js"]
    );
    assert_eq!(
        parts(&managed_npm_cli(&h, Os::Windows, Arch::Aarch64)),
        vec!["/", "home", "u", ".dsh", "node", "win32-arm64", "node_modules", "npm", "bin", "npm-cli.js"]
    );
    assert_eq!(
        parts(&pnpm_launcher(&h, Os::Windows, Arch::X86_64)),
        vec!["/", "home", "u", ".dsh", "node", "win32-x64", "pnpm.cmd"]
    );
    assert_eq!(
        parts(&pnpm_launcher(&h, Os::MacOs, Arch::Aarch64)),
        vec!["/", "home", "u", ".dsh", "node", "darwin-arm64", "bin", "pnpm"]
    );
}

#[test]
fn plugin_locations() {
    let h = home();
    assert_eq!(
        parts(&plugin_install_dir(&h, Os::Linux, "dsh-rtui-ui")),
        vec!["/", "home", "u", ".dsh", "lib", "node_modules", "@iyam", "dsh-rtui-ui"]
    );
    assert_eq!(
        parts(&plugin_profile_link(&h, "dsh-rtui-ui")),
        vec!["/", "home", "u", ".dsh", "profiles", "node_modules", "@iyam", "dsh-rtui-ui"]
    );
}

#[test]
fn managed_cli_lies_under_home() {
    let h = home();
    assert!(cli_is_managed(&dsh_bin_js(&h, Os::Linux), &h));
    assert!(!cli_is_managed(&path(&["/", "usr", "lib", "node_modules", "dsh"]), &h));
    assert!(!cli_is_managed(&path(&["/", "home"]), &h));
}

#[test]
fn the_managed_entry_is_preferred() {
    let m = path(&["/", "m", "bin.js"]);
    let sys = path(&["/", "usr", "lib", "bin.js"]);
    assert_eq!(parts(&detect_dsh_cli(&m, true, &Some((sys.duplicate(), true))).unwrap()), vec!["/", "m", "bin.js"]);
    assert_eq!(parts(&detect_dsh_cli(&m, false, &Some((sys.duplicate(), true))).unwrap()), vec!["/", "usr", "lib", "bin.js"]);
    assert!(detect_dsh_cli(&m, false, &Some((sys.duplicate(), false))).is_none());
    assert!(detect_dsh_cli(&m, false, &None).is_none());
}

#[test]
fn entry_runs_only_when_everything_is_there_and_answers() {
    assert!(dsh_entry_runs(true, true, &Some((true, s("0.1.1-rc.2\n")))));
    assert!(dsh_entry_runs(true, true, &Some((true, s("")))));
    assert!(!dsh_entry_runs(true, true, &Some((false, s("0.1.1")))));
    assert!(!dsh_entry_runs(false, true, &Some((true, s("0.1.1")))));
    assert!(!dsh_entry_runs(true, false, &None));
    assert!(!dsh_entry_runs(true, true, &None));
}

#[test]
fn version_output_is_judged_like_a_version() {
    assert!(looks_like_version(true, "0.1.1-rc.2"));
    assert!(looks_like_version(true, "  \n"));
    assert!(looks_like_version(true, "npm ERR! 1.0"));
    assert!(!looks_like_version(true, "npm error 1.0"));
    assert!(!looks_like_version(true, "Error: 1.2"));
    assert!(!looks_like_version(true, "dsh"));
    assert!(!looks_like_version(true, "12"));
    assert!(!looks_like_version(false, "0.1.1"));
}

#[test]
fn which_output_first_line() {
    assert_eq!(first_path_line("/usr/bin/dsh\n/other/dsh\n"), Some(s("/usr/bin/dsh")));
    assert_eq!(first_path_line("  C:\\n\\dsh.cmd \r\n"), Some(s("C:\\n\\dsh.cmd")));
    assert_eq!(first_path_line("   \n/x"), None);
    assert_eq!(first_path_line(""), None);
}

#[test]
fn launcher_scripts() {
    assert_eq!(
        launcher_script(Os::Linux, "/h/node/bin/node", "/h/bin.js"),
        "#!/bin/sh\nexec \"/h/node/bin/node\" \"/h/bin.js\" \"$@\"\n"
    );
    assert_eq!(
        launcher_script(Os::Windows, "C:\\h\\node.exe", "C:\\h\\bin.js"),
        "@echo off\r\n\"C:\\h\\node.exe\" \"C:\\h\\bin.js\" %*\r\n"
    );
}

#[test]
fn bundles_are_registered_once() {
    let b = vec![Some(s("@deepseek-ai/dsh-base")), None];
    let once = register_bundle(&b, "@iyam/dsh-desktop-shell");
    assert_eq!(once, vec![Some(s("@deepseek-ai/dsh-base")), None, Some(s("@iyam/dsh-desktop-shell"))]);
    assert_eq!(register_bundle(&once, "@iyam/dsh-desktop-shell"), once);
    assert!(!bundles_list_market(&once));
    assert!(bundles_list_market(&register_bundle(&once, "dshmarket")));
}

const PLAIN: &str = "show: () => method(dialog, SLOT_SHOW, protoShow)(null),";
const OLD_ENV: &str = "show: () => method(dialog, SLOT_SHOW, protoShow)(process.env.DSH_DIALOG_OWNER_HWND ? Number(process.env.DSH_DIALOG_OWNER_HWND) : null),";
const OWNED: &str = "show: () => { const _h = process.env.DSH_DIALOG_OWNER_HWND; let _o = null; if (_h && /^[0-9]+$/.test(_h)) { const _n = Number(_h); if (_n > 0 && _n <= 0x7fffffff) { _o = _n; } } return method(dialog, SLOT_SHOW, protoShow)(_o); },";

#[test]
fn picker_worker_is_patched_once() {
    let src = format!("a\n  {}\nb", PLAIN);
    let patched = match patch_picker_worker_file(&src) {
        PickerPatch::Patched(t) => t,
        _ => panic!("expected a patch"),
    };
    assert_eq!(patched, format!("a\n  {}\nb", OWNED));
    assert!(matches!(patch_picker_worker_file(&patched), PickerPatch::AlreadyPatched));
    let old = format!("x {} y", OLD_ENV);
    match patch_picker_worker_file(&old) {
        PickerPatch::Patched(t) => assert_eq!(t, format!("x {} y", OWNED)),
        _ => panic!("expected a patch"),
    }
    assert!(matches!(patch_picker_worker_file("module.exports = {}"), PickerPatch::Unrecognized));
}

#[test]
fn picker_search_rules() {
    let n = |x: &str| Some(s(x));
    assert!(picker_visit(&n("dsh-host-directory-picker-native"), false, true) == PickerVisit::Patch);
    assert!(picker_visit(&n("dsh-host-directory-picker-native"), true, true) == PickerVisit::Skip);
    assert!(picker_visit(&n("other"), false, true) == PickerVisit::Descend);
    assert!(picker_visit(&n("file.js"), false, false) == PickerVisit::Skip);
    assert!(picker_visit(&None, false, true) == PickerVisit::Skip);
    assert!(picker_depth_allowed(24));
    assert!(!picker_depth_allowed(25));
    assert_eq!(parts(&picker_search_root(&home())), vec!["/", "home", "u", ".dsh", "node_modules"]);
    assert_eq!(parts(&picker_worker(&path(&["p"]))), vec!["p", "lib", "worker.cjs"]);
}

#[test]
fn bundled_plugins_are_found_in_order() {
    assert_eq!(bundled_source_name(BundledPlugin::DesktopShell), "dsh-shell-plugin");
    assert_eq!(bundled_package_name(BundledPlugin::DesktopShell), "dsh-desktop-shell");
    assert_eq!(bundle_entry(BundledPlugin::RtuiUi), "@iyam/dsh-rtui-ui");
    assert_eq!(bundle_entry(BundledPlugin::FileHandler), "@iyam/dsh-file-handler");
    let c = plugin_candidates(
        BundledPlugin::RtuiUi,
        &Some(path(&["/", "res"])),
        &Some(path(&["/", "exe"])),
        &Some(path(&["/", "cwd"])),
    );
    let got: Vec<Vec<&str>> = c.iter().map(parts).collect();
    assert_eq!(
        got,
        vec![
            vec!["/", "res", "bin", "dsh-rtui-ui"],
            vec!["/", "exe", "dsh-rtui-ui"],
            vec!["/", "cwd", "src-tauri", "bin", "dsh-rtui-ui"],
            vec!["/", "cwd", "bin", "dsh-rtui-ui"],
        ]
    );
    assert_eq!(plugin_candidates(BundledPlugin::FileHandler, &None, &None, &None).len(), 0);
    let only_exe = plugin_candidates(BundledPlugin::DesktopShell, &None, &Some(path(&["e"])), &None);
    assert_eq!(parts(&only_exe[0]), vec!["e", "dsh-shell-plugin"]);
    let shell = plugin_markers(BundledPlugin::DesktopShell, &path(&["d"]));
    let m: Vec<Vec<&str>> = shell.iter().map(parts).collect();
    assert_eq!(m, vec![vec!["d", "lib", "client.js"]]);
    let handler = plugin_markers(BundledPlugin::FileHandler, &path(&["d"]));
    let m2: Vec<Vec<&str>> = handler.iter().map(parts).collect();
    assert_eq!(m2, vec![vec!["d", "client.js"], vec!["d", "package.json"]]);
    assert_eq!(
        default_profile_bundles(),
        vec![Some(s("@deepseek-ai/dsh-base")), Some(s("@deepseek-ai/dsh-web-app"))]
    );
}

#[test]
fn managed_node_runs_only_the_managed_entry() {
    let h = path(&["/", "home", "u", ".dsh"]);
    let entry = dsh_bin_js(&h, Os::Linux);
    let node = iyam_dsh::installer::dsh_node_program(&entry, &h, Os::Linux, Arch::X86_64).unwrap();
    assert_eq!(parts(&node), parts(&managed_node(&h, Os::Linux, Arch::X86_64)));
    let system = path(&["/", "usr", "lib", "node_modules", "dsh", "lib", "bin.js"]);
    assert!(iyam_dsh::installer::dsh_node_program(&system, &h, Os::Linux, Arch::X86_64).is_none());
}
