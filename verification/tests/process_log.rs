use iyam_dsh::process::{
    core_version_mismatch, is_core_bundle, parse_broken_plugins, parse_missing_packages, parse_pid,
    parse_port, parse_web_url, port_of_url, real_start_error, recovery_step, reuse_running,
    stored_web_url, Recovery,
};

/// A real failure: dshmarket 1.20.0 failing to link after DSH dropped an export.
const STDERR_DSHMARKET: &str = r#"
Error: dsh: plugin tree failed to load: failed to apply loader entry include (cordis:include): failed to import loader entry dsh-market (dshmarket): The requested module '@deepseek-ai/dsh-settings' does not provide an export named 'installSettingsSection'
file:///Users/u/.dsh/profiles/web/node_modules/.pnpm/dshmarket@1.20.0_@deepseek-ai+cordis@4.0.1/node_modules/dshmarket/lib/settings.js:35
import { installSettingsSection, settingsNamespace } from '@deepseek-ai/dsh-settings';
SyntaxError: The requested module '@deepseek-ai/dsh-settings' does not provide an export named 'installSettingsSection'
    at #asyncInstantiate (node:internal/modules/esm/module_job:327:21)
    at async file:///Users/u/.dsh/lib/node_modules/@deepseek-ai/cordis-plugin-loader/lib/index.js:274:41
    at async Entry._init (file:///Users/u/.dsh/lib/node_modules/@deepseek-ai/dsh/node_modules/@deepseek-ai/dsh-app-boot/lib/index.js:522:39)
    at boot (file:///Users/u/.dsh/lib/node_modules/@deepseek-ai/dsh/node_modules/@deepseek-ai/dsh-app-boot/lib/index.js:1511:9)
"#;

#[test]
fn parse_broken_plugins_names_third_party_offender() {
    let parsed = parse_broken_plugins(STDERR_DSHMARKET);
    assert_eq!(parsed, vec!["dshmarket".to_string()]);
}

#[test]
fn parse_broken_plugins_ignores_core_and_internal() {
    let text = r#"
    at async file:///h/.dsh/lib/node_modules/@deepseek-ai/cordis-plugin-loader/lib/index.js:1:1
    at #asyncInstantiate (node:internal/modules/esm/module_job:327:21)
Error: failed to import loader entry foo (@iyam/dsh-rtui-ui): boom
"#;
    assert!(parse_broken_plugins(text).is_empty());
}

#[test]
fn parse_missing_packages_dedupes() {
    let text = "Cannot find package 'foo' \n x \n Cannot find package 'foo'";
    assert_eq!(parse_missing_packages(text), vec!["foo".to_string()]);
}

#[test]
fn parse_web_url_captures_token_and_ignores_lan() {
    let line = r#"dsh web: http://127.0.0.1:60830/?token=Ab12-_.x (LAN: http://192.168.1.5:60830/?token=Ab12-_.x)"#;
    let url = parse_web_url(line).unwrap();
    assert_eq!(url, "http://127.0.0.1:60830/?token=Ab12-_.x");
    assert_eq!(port_of_url(&url), Some(60830));
    let old = parse_web_url("dsh web: http://127.0.0.1:5173").unwrap();
    assert_eq!(old, "http://127.0.0.1:5173");
    assert_eq!(port_of_url(&old), Some(5173));
    assert!(parse_web_url("listening on http://127.0.0.1:1").is_none());
}

#[test]
fn broken_plugins_keep_first_appearance_order() {
    let text = "failed to import loader entry a (zeta): x\n\
                at file:///h/node_modules/alpha/lib/x.js:1:1\n\
                at file:///h/node_modules/@scope/beta/index.js:2:2\n\
                failed to import loader entry b (alpha): y\n\
                at node:internal/x";
    assert_eq!(
        parse_broken_plugins(text),
        vec!["zeta".to_string(), "alpha".to_string(), "@scope/beta".to_string()]
    );
}

#[test]
fn missing_packages_keep_order_of_first_mention() {
    let text = "Cannot find package 'b'\nCannot find package 'a'\nCannot find package 'b'\nCannot find package ''";
    assert_eq!(parse_missing_packages(text), vec!["b".to_string(), "a".to_string()]);
}

#[test]
fn web_url_needs_the_dsh_web_prefix_and_loopback() {
    assert_eq!(
        parse_web_url("xx dsh \t web:   http://127.0.0.1:80/a b"),
        Some("http://127.0.0.1:80/a".to_string())
    );
    assert_eq!(parse_web_url("dsh web: http://localhost:80"), None);
    assert_eq!(parse_web_url("dsh web: http://127.0.0.1:"), None);
    assert_eq!(parse_web_url("dshweb: http://127.0.0.1:80"), None);
}

#[test]
fn port_of_url_rejects_ports_out_of_range() {
    assert_eq!(port_of_url("http://127.0.0.1:65535/"), Some(65535));
    assert_eq!(port_of_url("http://127.0.0.1:65536/"), None);
    assert_eq!(port_of_url("http://127.0.0.1:x"), None);
    assert_eq!(port_of_url("see http://127.0.0.1:0"), Some(0));
}

#[test]
fn core_bundles_are_the_two_scopes() {
    assert!(is_core_bundle("@iyam/dsh-desktop-shell"));
    assert!(is_core_bundle("@deepseek-ai/dsh-base"));
    assert!(!is_core_bundle("dshmarket"));
    assert!(!is_core_bundle("@iyamx/thing"));
    assert!(!is_core_bundle("iyam/"));
}

#[test]
fn version_record_mismatch_forces_restart() {
    let v = |s: &str| Some(s.to_string());
    assert!(!core_version_mismatch(&v("0.1.2"), &v("0.1.2")));
    assert!(core_version_mismatch(&v("0.1.1"), &v("0.1.2")));
    assert!(core_version_mismatch(&None, &v("0.1.2")));
    assert!(!core_version_mismatch(&v("0.1.1"), &None));
}

#[test]
fn stored_url_falls_back_to_bare_loopback() {
    assert_eq!(stored_web_url(&None, 5173), "http://127.0.0.1:5173");
    assert_eq!(stored_web_url(&Some("  \n".to_string()), 80), "http://127.0.0.1:80");
    assert_eq!(
        stored_web_url(&Some(" http://127.0.0.1:9/?token=t\n".to_string()), 80),
        "http://127.0.0.1:9/?token=t"
    );
}

#[test]
fn pid_and_port_files_are_trimmed_numbers() {
    assert_eq!(parse_pid(" 4242\n"), Some(4242));
    assert_eq!(parse_pid("+7"), Some(7));
    assert_eq!(parse_pid("-7"), None);
    assert_eq!(parse_pid("4294967296"), None);
    assert_eq!(parse_port("8080"), Some(8080));
    assert_eq!(parse_port("70000"), None);
    assert_eq!(parse_port(""), None);
}

#[test]
fn running_dsh_is_reused_only_when_nothing_changed() {
    assert!(reuse_running(false, false, true));
    assert!(!reuse_running(true, false, true));
    assert!(!reuse_running(false, true, true));
    assert!(!reuse_running(false, false, false));
}

#[test]
fn start_error_names_removed_plugins() {
    assert_eq!(real_start_error("boom", &vec![]), "DSH 启动超时（30s），请查看日志");
    assert_eq!(
        real_start_error("boom", &vec!["dshmarket".to_string(), "x".to_string()]),
        "DSH 启动失败：已自动禁用 2 个损坏插件（dshmarket、x），但 DSH 仍无法启动，请查看日志"
    );
    assert_eq!(
        real_start_error("e: Cannot find package 'koffi' imported", &vec![]),
        "DSH 启动失败：插件 koffi 未能加载（ERR_MODULE_NOT_FOUND），请检查插件市场安装后重试，或查看日志"
    );
    assert_eq!(
        real_start_error("Cannot find package 'koffi'", &vec!["dshmarket".to_string()]),
        "DSH 启动失败：已自动禁用 1 个损坏插件（dshmarket），但 koffi 仍无法加载，请查看日志"
    );
}

#[test]
fn recovery_is_bounded() {
    assert!(matches!(recovery_step(1, 0, 0), Recovery::QuarantineAll));
    assert!(matches!(recovery_step(2, 1, 0), Recovery::QuarantineNamed));
    assert!(matches!(recovery_step(2, 0, 3), Recovery::QuarantineNamed));
    assert!(matches!(recovery_step(3, 1, 1), Recovery::RollBack));
    assert!(matches!(recovery_step(3, 0, 0), Recovery::RollBack));
}

#[test]
fn announced_urls_are_loopback_and_carry_their_port() {
    for line in [
        "dsh web: http://127.0.0.1:4100/?token=t (LAN: http://10.0.0.2:4100/?token=t)",
        "x dsh  web:\thttp://127.0.0.1:9 y",
        "dsh web: http://127.0.0.1:70000",
    ] {
        let url = parse_web_url(line).unwrap();
        assert!(url.starts_with("http://127.0.0.1:"));
        let digits: String = url[17..].chars().take_while(|c| c.is_ascii_digit()).collect();
        assert_eq!(port_of_url(&url), digits.parse::<u16>().ok());
    }
}
