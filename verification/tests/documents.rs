use iyam_dsh::documents::{
    bundle_members_from_text, default_profile_text, installed_version_from_text, package_version_from_text,
    profile_entries_from_text, profile_text_appending, profile_text_keeping, quarantine_record_from_text,
    quarantine_record_text, update_record_from_text, update_record_text,
};
use iyam_dsh::downloader::{rollback_after_failure, staged_record, UpdateRecord};
use iyam_dsh::json::is_json;
use iyam_dsh::process::{failed_start_step, FailedStart};
use iyam_dsh::quarantine::{disabled_names, quarantine_broken_plugins, reinstate_bundles, reinstate_gate, ReinstateGate};

fn s(x: &str) -> String {
    x.to_string()
}

fn value(text: &str) -> serde_json::Value {
    serde_json::from_str(text).unwrap()
}

fn strings(v: &serde_json::Value) -> Vec<String> {
    v.as_array().unwrap().iter().map(|x| x.as_str().unwrap().to_string()).collect()
}

const PROFILE: &str = r#"{
  "name": "dsh-profile-web",
  "private": true,
  "dsh": { "profile": { "bundles": ["@deepseek-ai/dsh-base", "@iyam/dsh-desktop-shell", "dshmarket"] } }
}"#;

#[test]
fn staged_record_survives_its_file() {
    let text = update_record_text(&staged_record("1.2.3"));
    let v = value(&text);
    assert_eq!(v["status"].as_str(), Some("ready"));
    assert_eq!(v["staged_version"].as_str(), Some("1.2.3"));
    assert!(v.get("from_version").is_none());
    let back = update_record_from_text(&text).unwrap();
    assert_eq!(back.status, Some(s("ready")));
    assert_eq!(back.staged_version, Some(s("1.2.3")));
    assert_eq!(back.from_version, None);
    assert_eq!(back.bad_version, None);
    assert_eq!(back.app_version, None);
}

#[test]
fn applying_without_previous_version_writes_null() {
    let rec = UpdateRecord {
        status: Some(s("applying")),
        staged_version: Some(s("2.0.0")),
        from_version: None,
        bad_version: None,
        app_version: None,
    };
    let v = value(&update_record_text(&rec));
    assert!(v.get("from_version").unwrap().is_null());
    assert_eq!(v.as_object().unwrap().len(), 3);
    let with_from = UpdateRecord { from_version: Some(s("1.9.0")), ..rec };
    assert_eq!(value(&update_record_text(&with_from))["from_version"].as_str(), Some("1.9.0"));
}

#[test]
fn failed_record_round_trip_after_rollback() {
    let applying = update_record_from_text(r#"{"status":"applying","staged_version":"2.0.0","from_version":"1.9.0"}"#).unwrap();
    let failed = rollback_after_failure(&applying, "0.2.15").unwrap();
    let back = update_record_from_text(&update_record_text(&failed)).unwrap();
    assert_eq!(back.status, Some(s("failed")));
    assert_eq!(back.bad_version, Some(s("2.0.0")));
    assert_eq!(back.app_version, Some(s("0.2.15")));
}

#[test]
fn unreadable_update_record() {
    assert!(update_record_from_text("not json").is_none());
    assert!(update_record_from_text("").is_none());
    let odd = update_record_from_text(r#"{"status": 3, "staged_version": null}"#).unwrap();
    assert_eq!(odd.status, None);
    assert_eq!(odd.staged_version, None);
    let arr = update_record_from_text("[1, 2]").unwrap();
    assert_eq!(arr.status, None);
}

#[test]
fn manifest_versions() {
    assert_eq!(package_version_from_text(r#"{"name":"@deepseek-ai/dsh","version":"0.1.1-rc.2"}"#), Some(s("0.1.1-rc.2")));
    assert_eq!(package_version_from_text(r#"{"version": 3}"#), None);
    assert_eq!(package_version_from_text("{"), None);
    assert_eq!(installed_version_from_text(r#"{"version":"1.0.0"}"#), Some(s("1.0.0")));
    assert_eq!(installed_version_from_text(r#"{"name":"x"}"#), Some(s("unknown")));
    assert_eq!(installed_version_from_text("nope"), None);
}

#[test]
fn profile_entries_mark_non_strings() {
    let text = r#"{"dsh":{"profile":{"bundles":["a", {"x":1}, "b"], "dependencies": "oops"}}}"#;
    assert_eq!(profile_entries_from_text(text, "bundles"), Some(vec![Some(s("a")), None, Some(s("b"))]));
    assert_eq!(profile_entries_from_text(text, "dependencies"), None);
    assert_eq!(profile_entries_from_text(r#"{"dsh":{}}"#, "bundles"), None);
    assert_eq!(profile_entries_from_text("[", "bundles"), None);
}

#[test]
fn keeping_flags_keeps_items_as_they_are() {
    let text = r#"{"name":"p","dsh":{"profile":{"bundles":["a", {"x":1}, "b"]}}}"#;
    let out = profile_text_keeping(text, "bundles", &vec![false, true, true]).unwrap();
    let v = value(&out);
    assert_eq!(v["name"].as_str(), Some("p"));
    let arr = v["dsh"]["profile"]["bundles"].as_array().unwrap();
    assert_eq!(arr.len(), 2);
    assert_eq!(arr[0]["x"].as_i64(), Some(1));
    assert_eq!(arr[1].as_str(), Some("b"));
    assert!(profile_text_keeping(text, "bundles", &vec![true]).is_none());
    assert!(profile_text_keeping(text, "dependencies", &vec![]).is_none());
}

#[test]
fn appending_to_the_default_profile() {
    let text = default_profile_text();
    let v = value(&text);
    assert_eq!(v["name"].as_str(), Some("dsh-profile-web"));
    assert_eq!(v["private"].as_bool(), Some(true));
    assert!(v["dependencies"].as_object().unwrap().is_empty());
    assert_eq!(strings(&v["dsh"]["profile"]["bundles"]), vec![s("@deepseek-ai/dsh-base"), s("@deepseek-ai/dsh-web-app")]);
    let out = profile_text_appending(&text, "bundles", &vec![s("@iyam/dsh-desktop-shell")]).unwrap();
    assert_eq!(
        strings(&value(&out)["dsh"]["profile"]["bundles"]),
        vec![s("@deepseek-ai/dsh-base"), s("@deepseek-ai/dsh-web-app"), s("@iyam/dsh-desktop-shell")]
    );
    assert!(profile_text_appending(r#"{"dsh":1}"#, "bundles", &vec![s("x")]).is_none());
}

#[test]
fn quarantine_record_written_and_read() {
    let first = quarantine_record_text(&None, &vec![s("dshmarket")], &Some(s("0.1.1-rc.2"))).unwrap();
    let v = value(&first);
    assert_eq!(strings(&v["disabled"]), vec![s("dshmarket")]);
    assert_eq!(v["dsh_version"].as_str(), Some("0.1.1-rc.2"));
    let second = quarantine_record_text(&Some(first), &vec![s("dshmarket"), s("other")], &None).unwrap();
    let v2 = value(&second);
    assert_eq!(strings(&v2["disabled"]), vec![s("dshmarket"), s("other")]);
    assert!(v2["dsh_version"].is_null());
    let (disabled, version) = quarantine_record_from_text(&second).unwrap();
    assert_eq!(disabled, vec![Some(s("dshmarket")), Some(s("other"))]);
    assert_eq!(version, None);
    // An unreadable record starts afresh; one whose `disabled` is no array is left alone.
    let fresh = quarantine_record_text(&Some(s("garbage")), &vec![s("a")], &Some(s("1"))).unwrap();
    assert_eq!(strings(&value(&fresh)["disabled"]), vec![s("a")]);
    assert!(quarantine_record_text(&Some(s(r#"{"disabled": {}}"#)), &vec![s("a")], &None).is_none());
    assert_eq!(quarantine_record_from_text(r#"{"dsh_version":"2"}"#), Some((vec![], Some(s("2")))));
    assert_eq!(quarantine_record_from_text("x"), None);
}

#[test]
fn bundle_manifest_members() {
    let text = r#"{"dsh":{"bundles":["b1", 7, "b2"], "dependencies":{"d2":"*"}}, "dependencies":{"z":"1","a":"2"}}"#;
    // serde_json's map keeps member names sorted.
    assert_eq!(bundle_members_from_text(text), vec![s("b1"), s("b2"), s("a"), s("z"), s("d2")]);
    assert!(bundle_members_from_text("nope").is_empty());
    assert!(bundle_members_from_text(r#"{"dsh": []}"#).is_empty());
}

#[test]
fn quarantine_and_reinstate_through_the_files() {
    let entries = profile_entries_from_text(PROFILE, "bundles").unwrap();
    let p = quarantine_broken_plugins(&entries, &vec![true; 3], &vec![false; 3], &vec![], &vec![s("dshmarket")]);
    let profile = profile_text_keeping(PROFILE, "bundles", &p.keep).unwrap();
    assert_eq!(
        strings(&value(&profile)["dsh"]["profile"]["bundles"]),
        vec![s("@deepseek-ai/dsh-base"), s("@iyam/dsh-desktop-shell")]
    );
    let record = quarantine_record_text(&None, &p.removed, &Some(s("0.1.1-rc.2"))).unwrap();
    let (disabled, recorded) = quarantine_record_from_text(&record).unwrap();
    assert_eq!(recorded, Some(s("0.1.1-rc.2")));
    let names = disabled_names(&disabled);
    assert!(reinstate_gate(names.len(), &recorded, &Some(s("0.1.1-rc.2")), false) == ReinstateGate::Keep);
    assert!(reinstate_gate(names.len(), &recorded, &Some(s("0.1.2-rc.1")), false) == ReinstateGate::Reinstate);
    let bundles = profile_entries_from_text(&profile, "bundles").unwrap();
    let (_, back) = reinstate_bundles(&bundles, &names, &vec![true]);
    let restored = profile_text_appending(&profile, "bundles", &back).unwrap();
    assert!(strings(&value(&restored)["dsh"]["profile"]["bundles"]).contains(&s("dshmarket")));
}

#[test]
fn failed_start_steps() {
    assert!(failed_start_step(2, None) == FailedStart::Retry);
    assert!(failed_start_step(0, None) == FailedStart::RollBack);
    assert!(failed_start_step(0, Some(true)) == FailedStart::Restart);
    assert!(failed_start_step(0, Some(false)) == FailedStart::Fail);
}

#[test]
fn json_documents_are_recognised() {
    assert!(is_json("{\"a\": 1.5}"));
    assert!(is_json("[]"));
    assert!(!is_json("{\"a\": }"));
}

#[test]
fn file_merge_agrees_with_list_merge() {
    let existing = s(r#"{"disabled": ["a", 5, "b"], "dsh_version": "1"}"#);
    let removed = vec![s("b"), s("c"), s("c"), s("d")];
    let (before, _) = quarantine_record_from_text(&existing).unwrap();
    let text = quarantine_record_text(&Some(existing), &removed, &Some(s("2"))).unwrap();
    let (after, version) = quarantine_record_from_text(&text).unwrap();
    assert_eq!(after, iyam_dsh::quarantine::record_quarantine(&before, &removed));
    assert_eq!(after, vec![Some(s("a")), None, Some(s("b")), Some(s("c")), Some(s("d"))]);
    assert_eq!(version, Some(s("2")));
}

#[test]
fn file_keep_agrees_with_list_keep() {
    let text = r#"{"dsh":{"profile":{"dependencies":["x", null, "y", "z"]}}}"#;
    let keep = vec![true, true, false, true];
    let entries = profile_entries_from_text(text, "dependencies").unwrap();
    let out = profile_text_keeping(text, "dependencies", &keep).unwrap();
    assert_eq!(
        profile_entries_from_text(&out, "dependencies").unwrap(),
        iyam_dsh::quarantine::kept_entries(&entries, &keep)
    );
    assert_eq!(profile_entries_from_text(&out, "dependencies").unwrap(), vec![Some(s("x")), None, Some(s("z"))]);
}
