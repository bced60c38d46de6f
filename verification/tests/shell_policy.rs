use iyam_dsh::aumid::{register_aumid_registry, str_to_wide, value_bytes, RegistryValue};
use iyam_dsh::fspath::Os;
use iyam_dsh::window::{hides_on_close, navigation_allowed, tray_action, window_obscured, TrayAction, WindowProbe};

fn s(x: &str) -> String {
    x.to_string()
}

#[test]
fn aumid_registry_entries() {
    let w = register_aumid_registry("ai.iyam.dsh");
    assert_eq!(w.len(), 2);
    assert_eq!(w[0].key, "Software\\Classes\\AppUserModelId\\ai.iyam.dsh");
    assert!(w[0].name.is_none());
    assert!(matches!(&w[0].value, RegistryValue::Text(v) if v == "ai.iyam.dsh"));
    assert_eq!(w[1].key, "Software\\Microsoft\\Windows\\CurrentVersion\\Notifications\\Settings\\ai.iyam.dsh");
    assert_eq!(w[1].name.as_deref(), Some("ToastEnabled"));
    assert!(matches!(&w[1].value, RegistryValue::Dword(1)));
}

#[test]
fn wide_strings_match_encode_utf16() {
    for t in ["", "ai.iyam.dsh", "你好", "a\u{1F600}b"] {
        let mut expected: Vec<u16> = t.encode_utf16().collect();
        expected.push(0);
        assert_eq!(str_to_wide(t), expected);
    }
}

#[test]
fn registry_value_bytes_are_little_endian() {
    assert_eq!(value_bytes(&RegistryValue::Dword(1)), vec![1, 0, 0, 0]);
    assert_eq!(value_bytes(&RegistryValue::Dword(0x01020304)), vec![4, 3, 2, 1]);
    assert_eq!(value_bytes(&RegistryValue::Text(s("A"))), vec![0x41, 0, 0, 0]);
    assert_eq!(value_bytes(&RegistryValue::Text(s("你"))), vec![0x60, 0x4f, 0, 0]);
}

#[test]
fn notifications_only_when_obscured() {
    let w = |v: Option<bool>, m: Option<bool>, f: Option<bool>| Some(WindowProbe { visible: v, minimized: m, focused: f });
    assert!(window_obscured(Os::MacOs, &w(Some(true), Some(false), Some(true))));
    assert!(window_obscured(Os::Linux, &None));
    assert!(!window_obscured(Os::Windows, &w(Some(true), Some(false), Some(true))));
    assert!(window_obscured(Os::Windows, &w(Some(true), Some(true), Some(true))));
    assert!(window_obscured(Os::Windows, &w(Some(true), Some(false), Some(false))));
    assert!(window_obscured(Os::Windows, &w(Some(true), None, None)));
    assert!(!window_obscured(Os::Windows, &w(Some(true), None, Some(true))));
    assert!(window_obscured(Os::Windows, &w(Some(false), Some(false), Some(true))));
    assert!(window_obscured(Os::Windows, &w(None, Some(false), Some(true))));
    assert!(window_obscured(Os::Windows, &None));
}

#[test]
fn webview_navigation_policy() {
    let h = |x: &str| Some(s(x));
    assert!(navigation_allowed("tauri", &h("localhost"), "/"));
    assert!(navigation_allowed("ipc", &None, "/x"));
    assert!(navigation_allowed("http", &h("localhost"), "/"));
    assert!(navigation_allowed("https", &h("127.0.0.1"), "/"));
    assert!(navigation_allowed("http", &h("::1"), "/"));
    assert!(navigation_allowed("http", &h("tauri.localhost"), "/"));
    assert!(!navigation_allowed("http", &h("example.com"), "/"));
    assert!(!navigation_allowed("http", &None, "/"));
    assert!(navigation_allowed("about", &None, "blank"));
    assert!(!navigation_allowed("about", &None, "srcdoc"));
    assert!(!navigation_allowed("file", &None, "/etc/passwd"));
    assert!(!navigation_allowed("HTTP", &h("localhost"), "/"));
}

#[test]
fn tray_and_close() {
    assert_eq!(tray_action("open_dsh"), TrayAction::OpenMain);
    assert_eq!(tray_action("quit"), TrayAction::Quit);
    assert_eq!(tray_action("restart"), TrayAction::Ignore);
    assert!(hides_on_close("main"));
    assert!(!hides_on_close("devtools"));
}
