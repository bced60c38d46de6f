use iyam_dsh::downloader::{
    apply_staged_if_ready, clear_applying, copy_step, dsh_package_spec, is_newer, is_js_file,
    latest_version_url, node_archive, node_archive_name, node_download_url, node_extract_scratch_name,
    node_mirrors, node_temp_archive_name, node_version, npm_registries,
    read_bad_version, rollback_after_failure, staged_record, staging_and_backup,
    strip_source_mapping_lines, tar_program, ApplyPlan, CopyStep, EntryKind, UpdateRecord, VisitedDirs,
};
use iyam_dsh::fspath::FsPath;

fn s(x: &str) -> String {
    x.to_string()
}

fn path(parts: &[&str]) -> FsPath {
    FsPath::from_parts(parts.iter().map(|p| p.to_string()).collect())
}

#[test]
fn versions_order_numbers_then_release_then_tags() {
    assert!(is_newer("0.1.2", "0.1.1"));
    assert!(is_newer("v0.2.0", "0.1.9"));
    assert!(is_newer("1.0.0", "1.0.0-rc.1"));
    assert!(!is_newer("1.0.0-rc.1", "1.0.0"));
    assert!(is_newer("0.1.2-rc.2", "0.1.2-rc.1"));
    assert!(!is_newer("0.1.2", "0.1.2"));
    assert!(!is_newer("v1.2.3", "1.2.3"));
    assert!(is_newer("0.10.0", "0.9.9"));
    assert!(!is_newer("0.1", "0.1.0"));
}

#[test]
fn prerelease_identifiers_follow_semver() {
    assert!(is_newer("1.0.0-rc.10", "1.0.0-rc.2"));
    assert!(!is_newer("1.0.0-rc.2", "1.0.0-rc.10"));
    assert!(is_newer("1.0.0-10", "1.0.0-2"));
    assert!(is_newer("0.1.2-rc.10", "0.1.2-rc.9"));
    // The precedence chain of the SemVer specification.
    let chain = [
        "1.0.0-alpha", "1.0.0-alpha.1", "1.0.0-alpha.beta", "1.0.0-beta", "1.0.0-beta.2", "1.0.0-beta.11",
        "1.0.0-rc.1", "1.0.0",
    ];
    for i in 0..chain.len() {
        for j in 0..chain.len() {
            assert_eq!(is_newer(chain[j], chain[i]), j > i, "{} vs {}", chain[j], chain[i]);
        }
    }
    // Build metadata does not take part in precedence.
    assert!(!is_newer("1.0.0+build.2", "1.0.0+build.1"));
    assert!(is_newer("1.0.1+x", "1.0.0"));
}

#[test]
fn order_agrees_with_the_semver_crate() {
    let cores = ["0.0.0", "0.1.0", "0.1.2", "1.0.0", "1.10.0", "1.2.3", "10.0.0"];
    let pres = ["", "-0", "-1", "-2", "-10", "-rc", "-rc.1", "-rc.2", "-rc.10", "-rc.1.0", "-alpha", "-alpha.beta", "-a-b", "-1.a", "-a.1"];
    let mut all: Vec<String> = Vec::new();
    for c in cores {
        for p in pres {
            all.push(format!("{}{}", c, p));
        }
    }
    for a in &all {
        for b in &all {
            assert_eq!(is_newer(a, b), iyam_dsh::updater::is_newer(a, b), "{} vs {}", a, b);
            assert_eq!(is_newer(&format!("v{}", a), b), iyam_dsh::updater::is_newer(a, b), "v{} vs {}", a, b);
        }
    }
}

#[test]
fn staged_newer_version_is_promoted_and_old_one_discarded() {
    let rec = staged_record("0.1.2");
    assert_eq!(rec.status, Some(s("ready")));
    assert_eq!(rec.staged_version, Some(s("0.1.2")));
    match apply_staged_if_ready(&rec, &Some(s("0.1.1"))) {
        ApplyPlan::Promote(a) => {
            assert_eq!(a.status, Some(s("applying")));
            assert_eq!(a.staged_version, Some(s("0.1.2")));
            assert_eq!(a.from_version, Some(s("0.1.1")));
        },
        _ => panic!("expected a promotion"),
    }
    assert!(matches!(apply_staged_if_ready(&rec, &Some(s("0.1.2"))), ApplyPlan::Discard));
    assert!(matches!(apply_staged_if_ready(&rec, &Some(s("0.2.0"))), ApplyPlan::Discard));
    match apply_staged_if_ready(&rec, &None) {
        ApplyPlan::Promote(a) => assert_eq!(a.from_version, None),
        _ => panic!("expected a promotion"),
    }
}

#[test]
fn failed_upgrade_rolls_back_and_is_remembered_for_this_app() {
    let applying = match apply_staged_if_ready(&staged_record("0.1.2-rc.1"), &Some(s("0.1.1"))) {
        ApplyPlan::Promote(a) => a,
        _ => panic!("expected a promotion"),
    };
    assert!(clear_applying(&applying));
    let failed = rollback_after_failure(&applying, "0.2.15").unwrap();
    assert_eq!(failed.status, Some(s("failed")));
    assert_eq!(failed.bad_version, Some(s("0.1.2-rc.1")));
    assert_eq!(read_bad_version(&failed, "0.2.15"), Some(s("0.1.2-rc.1")));
    assert_eq!(read_bad_version(&failed, "0.2.16"), None);
    assert!(matches!(apply_staged_if_ready(&failed, &None), ApplyPlan::Skip));
    assert!(!clear_applying(&failed));
    assert!(rollback_after_failure(&failed, "0.2.15").is_none());
}

#[test]
fn records_without_status_or_version_are_left_alone() {
    let empty = UpdateRecord { status: None, staged_version: None, from_version: None, bad_version: None, app_version: None };
    assert!(matches!(apply_staged_if_ready(&empty, &None), ApplyPlan::Skip));
    let ready_without_version =
        UpdateRecord { status: Some(s("ready")), staged_version: None, from_version: None, bad_version: None, app_version: None };
    assert!(matches!(apply_staged_if_ready(&ready_without_version, &None), ApplyPlan::Skip));
    let applying_without_version =
        UpdateRecord { status: Some(s("applying")), staged_version: None, from_version: None, bad_version: None, app_version: None };
    assert_eq!(rollback_after_failure(&applying_without_version, "1").unwrap().bad_version, Some(s("")));
}

#[test]
fn node_archives_by_target() {
    assert_eq!(node_archive("darwin-arm64"), ("darwin", "arm64", "tar.gz"));
    assert_eq!(node_archive("win32-x64"), ("win", "x64", "zip"));
    assert_eq!(node_archive("win32-arm64"), ("win", "arm64", "zip"));
    assert_eq!(node_archive("linux-arm64"), ("linux", "arm64", "tar.gz"));
    assert_eq!(node_archive("plan9-mips"), ("linux", "x64", "tar.gz"));
    assert_eq!(node_archive_name("v24.19.0", "win32-x64"), "node-v24.19.0-win-x64.zip");
    assert_eq!(
        node_download_url("https://nodejs.org/dist", "v24.19.0", "node-v24.19.0-linux-x64.tar.gz"),
        "https://nodejs.org/dist/v24.19.0/node-v24.19.0-linux-x64.tar.gz"
    );
    assert_eq!(node_temp_archive_name("darwin-x64"), "iyam-node-darwin-x64.tar.gz");
    assert_eq!(node_extract_scratch_name("linux-x64"), "._extract_linux-x64");
    assert_eq!(node_version(&None), "v24.19.0");
    assert_eq!(node_version(&Some(s("v22.1.0"))), "v22.1.0");
}

#[test]
fn mirrors_and_registries_fall_back_in_order() {
    assert_eq!(node_mirrors(), vec!["https://registry.npmmirror.com/-/binary/node", "https://nodejs.org/dist"]);
    assert_eq!(npm_registries(), vec!["https://registry.npmmirror.com", "https://registry.npmjs.org"]);
    assert_eq!(latest_version_url("https://registry.npmjs.org"), "https://registry.npmjs.org/@deepseek-ai/dsh/latest");
    assert_eq!(dsh_package_spec("0.1.2"), "@deepseek-ai/dsh@0.1.2");
    assert_eq!(tar_program(true), "C:\\Windows\\System32\\tar.exe");
    assert_eq!(tar_program(false), "tar");
}

#[test]
fn staging_locations() {
    let home = path(&["/", "home", "u", ".dsh"]);
    let (staging, backup) = staging_and_backup(&home);
    assert_eq!(staging.parts, path(&["/", "home", "u", ".dsh", ".staging"]).parts);
    assert_eq!(backup.parts, path(&["/", "home", "u", ".dsh", ".backup"]).parts);
}

#[test]
fn source_map_comments_are_stripped() {
    let src = "a();\n//# sourceMappingURL=a.js.map\n  //# sourceMappingURL=b\nb();";
    assert_eq!(strip_source_mapping_lines(src), Some(s("a();\nb();")));
    assert_eq!(strip_source_mapping_lines("a();\nb();"), None);
    assert_eq!(strip_source_mapping_lines("// sourceMappingURL=x"), None);
    // Lines are re-joined without the final line feed, so such a file is rewritten.
    assert_eq!(strip_source_mapping_lines("// sourceMappingURL=x\n"), Some(s("// sourceMappingURL=x")));
    assert!(is_js_file("index.js"));
    assert!(!is_js_file(".js"));
    assert!(!is_js_file("index.mjs"));
}

#[test]
fn links_are_followed_once() {
    assert_eq!(copy_step(EntryKind::File, None), CopyStep::CopyFile);
    assert_eq!(copy_step(EntryKind::Dir, None), CopyStep::CopyTree);
    assert_eq!(copy_step(EntryKind::Symlink, None), CopyStep::Skip);
    assert_eq!(copy_step(EntryKind::Symlink, Some((false, false))), CopyStep::CopyFile);
    assert_eq!(copy_step(EntryKind::Symlink, Some((true, false))), CopyStep::CopyTree);
    assert_eq!(copy_step(EntryKind::Symlink, Some((true, true))), CopyStep::Skip);
    let mut seen = VisitedDirs::new();
    let d = s("/home/u/.dsh/node_modules/@deepseek-ai/dsh");
    assert!(!seen.contains(&d));
    assert!(seen.insert(&d));
    assert!(seen.contains(&d));
    assert!(!seen.insert(&d));
    assert!(seen.insert(&s("/other")));
}
