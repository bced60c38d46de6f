use iyam_dsh::documents::{quarantine_record_from_text, quarantine_record_text};
use iyam_dsh::quarantine::{
    bundle_references_missing, disabled_names, kept_entries, quarantine_all_third_party,
    quarantine_broken_plugins, record_quarantine, reinstate_bundles, reinstate_gate, ReinstateGate,
};

fn s(x: &str) -> String {
    x.to_string()
}

/// The web profile's bundles in the fixture: two core bundles and dshmarket.
fn fixture_bundles() -> Vec<Option<String>> {
    vec![Some(s("@deepseek-ai/dsh-base")), Some(s("@iyam/dsh-desktop-shell")), Some(s("dshmarket"))]
}

#[test]
fn quarantine_named_then_reinstate_on_version_change() {
    let entries = fixture_bundles();
    let p = quarantine_broken_plugins(&entries, &vec![true; 3], &vec![false; 3], &vec![], &vec![s("dshmarket")]);
    assert_eq!(p.removed, vec![s("dshmarket")]);
    let bundles = kept_entries(&entries, &p.keep);
    assert!(!bundles.contains(&Some(s("dshmarket"))));
    assert!(bundles.contains(&Some(s("@deepseek-ai/dsh-base"))));
    let record = record_quarantine(&vec![], &p.removed);
    assert_eq!(disabled_names(&record), vec![s("dshmarket")]);
    let recorded = Some(s("0.1.1-rc.2"));

    // Same DSH version at the next start: the record stays, the plugin stays out.
    assert!(reinstate_gate(record.len(), &recorded, &Some(s("0.1.1-rc.2")), false) == ReinstateGate::Keep);

    // After DSH was upgraded: the plugin goes back and the record is dropped.
    assert!(reinstate_gate(record.len(), &recorded, &Some(s("0.1.2-rc.1")), false) == ReinstateGate::Reinstate);
    let (back_in, put_back) = reinstate_bundles(&bundles, &disabled_names(&record), &vec![true]);
    assert!(back_in.contains(&Some(s("dshmarket"))));
    assert_eq!(put_back, vec![s("dshmarket")]);
}

#[test]
fn rollback_force_reinstates_and_all_third_party_strips_non_core() {
    let entries = fixture_bundles();
    let p = quarantine_all_third_party(&entries);
    assert_eq!(p.removed, vec![s("dshmarket")]);
    assert_eq!(
        kept_entries(&entries, &p.keep),
        vec![Some(s("@deepseek-ai/dsh-base")), Some(s("@iyam/dsh-desktop-shell"))]
    );
    let record = record_quarantine(&vec![], &p.removed);
    // A roll-back forces the plugins back whatever the versions.
    assert!(reinstate_gate(record.len(), &None, &None, true) == ReinstateGate::Reinstate);
    let (back_in, _) = reinstate_bundles(&kept_entries(&entries, &p.keep), &disabled_names(&record), &vec![true]);
    assert!(back_in.contains(&Some(s("dshmarket"))));
}

#[test]
fn unknown_versions_keep_the_quarantine() {
    assert!(reinstate_gate(2, &None, &Some(s("1")), false) == ReinstateGate::Keep);
    assert!(reinstate_gate(2, &Some(s("1")), &None, false) == ReinstateGate::Keep);
    assert!(reinstate_gate(0, &Some(s("1")), &Some(s("2")), false) == ReinstateGate::ClearRecord);
    assert!(reinstate_gate(0, &None, &None, true) == ReinstateGate::ClearRecord);
}

#[test]
fn broken_plugin_reasons_each_strip_but_never_core() {
    let entries = vec![
        Some(s("@iyam/dsh-rtui-ui")),
        Some(s("named")),
        Some(s("not-installed")),
        Some(s("missing-itself")),
        Some(s("bundles-missing")),
        Some(s("healthy")),
        None,
    ];
    let installed = vec![false, true, false, true, true, true, true];
    let refs = vec![true, false, false, false, true, false, false];
    let p = quarantine_broken_plugins(
        &entries,
        &installed,
        &refs,
        &vec![s("missing-itself"), s("@iyam/dsh-rtui-ui")],
        &vec![s("named"), s("@iyam/dsh-rtui-ui")],
    );
    assert_eq!(
        kept_entries(&entries, &p.keep),
        vec![Some(s("@iyam/dsh-rtui-ui")), Some(s("healthy")), None]
    );
    let mut removed = p.removed.clone();
    removed.sort();
    assert_eq!(removed, vec![s("bundles-missing"), s("missing-itself"), s("named"), s("not-installed")]);
}

#[test]
fn quarantining_all_twice_removes_nothing_more() {
    let entries = fixture_bundles();
    let p = quarantine_all_third_party(&entries);
    let kept = kept_entries(&entries, &p.keep);
    let again = quarantine_all_third_party(&kept);
    assert!(again.removed.is_empty());
    assert_eq!(kept_entries(&kept, &again.keep), kept);
}

#[test]
fn record_merges_without_duplicates() {
    let first = record_quarantine(&vec![], &vec![s("a"), s("b")]);
    let second = record_quarantine(&first, &vec![s("b"), s("c")]);
    assert_eq!(disabled_names(&second), vec![s("a"), s("b"), s("c")]);
}

#[test]
fn reinstating_skips_vanished_and_listed_packages() {
    let bundles = vec![Some(s("@deepseek-ai/dsh-base")), Some(s("a"))];
    let (out, back) = reinstate_bundles(&bundles, &vec![s("a"), s("gone"), s("b")], &vec![true, false, true]);
    assert_eq!(out, vec![Some(s("@deepseek-ai/dsh-base")), Some(s("a")), Some(s("b"))]);
    assert_eq!(back, vec![s("b")]);
    let (again, back2) = reinstate_bundles(&out, &vec![s("a"), s("gone"), s("b")], &vec![true, false, true]);
    assert_eq!(again, out);
    assert!(back2.is_empty());
}

#[test]
fn bundle_members_are_checked_against_missing() {
    assert!(bundle_references_missing(&vec![s("x"), s("koffi")], &vec![s("koffi")]));
    assert!(!bundle_references_missing(&vec![s("x")], &vec![s("koffi")]));
    assert!(!bundle_references_missing(&vec![], &vec![s("koffi")]));
}

#[test]
fn written_quarantine_record_reads_back() {
    let p = quarantine_broken_plugins(&fixture_bundles(), &vec![true; 3], &vec![false; 3], &vec![], &vec![s("dshmarket")]);
    let text = quarantine_record_text(&None, &p.removed, &Some(s("0.1.1-rc.2"))).unwrap();
    let (disabled, recorded) = quarantine_record_from_text(&text).unwrap();
    assert_eq!(recorded, Some(s("0.1.1-rc.2")));
    assert_eq!(disabled_names(&disabled), vec![s("dshmarket")]);
    assert!(reinstate_gate(disabled.len(), &recorded, &Some(s("0.1.1-rc.2")), false) == ReinstateGate::Keep);
    assert!(reinstate_gate(disabled.len(), &recorded, &Some(s("0.1.2-rc.1")), false) == ReinstateGate::Reinstate);
}
