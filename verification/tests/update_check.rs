use iyam_dsh::downloader::{apply_staged_if_ready, read_bad_version, rollback_after_failure, staged_record, ApplyPlan};
use iyam_dsh::updater::{
    auto_stage_plan, installed_or_unknown, is_newer, should_stage_now, stamp_text, strip_v_text,
    update_verdict, AutoStage, UpdateInfo,
};

fn s(x: &str) -> String {
    x.to_string()
}

#[test]
fn semver_order_decides_updates() {
    assert!(is_newer("0.1.2", "0.1.1"));
    assert!(is_newer("0.1.2", "0.1.2-rc.1"));
    assert!(is_newer("0.1.2-rc.10", "0.1.2-rc.9"));
    assert!(!is_newer("0.1.1", "0.1.2"));
    assert!(!is_newer("0.1.2", "0.1.2"));
    // An installed version that cannot be read means an update is offered.
    assert!(is_newer("0.1.2", "unknown"));
    // A registry answer that is not a version never is one.
    assert!(!is_newer("latest", "0.1.0"));
    assert!(!is_newer("latest", "unknown"));
    // `semver` takes no leading `v`.
    assert!(!is_newer("v0.2.0", "0.1.0"));
}

#[test]
fn verdict_table() {
    assert!(update_verdict(true, true, true));
    assert!(!update_verdict(true, true, false));
    assert!(update_verdict(true, false, false));
    assert!(!update_verdict(false, true, true));
    assert!(!update_verdict(false, false, true));
}

#[test]
fn update_report() {
    let info = UpdateInfo::new(s("0.1.1"), s("0.1.2"), true);
    assert_eq!(info.installed, "0.1.1");
    assert_eq!(info.latest, "0.1.2");
    assert!(info.has_update);
    assert!(info.managed);
    let same = UpdateInfo::new(s("0.1.2"), s("0.1.2"), false);
    assert!(!same.has_update);
    assert!(!same.managed);
    assert_eq!(installed_or_unknown(None), "unknown");
    assert_eq!(installed_or_unknown(Some(s("0.1.1-rc.2"))), "0.1.1-rc.2");
}

#[test]
fn manual_update_stages_only_a_different_managed_version() {
    assert!(should_stage_now(true, "0.1.2", "0.1.1"));
    assert!(should_stage_now(true, "0.1.0", "0.1.1"));
    assert!(!should_stage_now(true, "v0.1.2", "0.1.2"));
    assert!(!should_stage_now(false, "0.1.2", "0.1.1"));
    assert_eq!(strip_v_text("vv1.0"), "1.0");
    assert_eq!(strip_v_text("1.0v"), "1.0v");
}

#[test]
fn background_staging_waits_a_day_and_skips_the_bad_version() {
    let now = 1_700_000_000u64;
    let stamp = Some(stamp_text(now - 3600));
    assert_eq!(stamp.as_deref(), Some("1699996400"));
    assert_eq!(auto_stage_plan(&stamp, now, &None, "0.1.2"), AutoStage::Throttled);
    let old = Some(s(" 1699900000\n"));
    assert_eq!(auto_stage_plan(&old, now, &None, "0.1.2"), AutoStage::Stage);
    assert_eq!(auto_stage_plan(&old, now, &Some(s("0.1.2")), "0.1.2"), AutoStage::StampOnly);
    assert_eq!(auto_stage_plan(&old, now, &Some(s("0.1.1")), "0.1.2"), AutoStage::Stage);
    assert_eq!(auto_stage_plan(&None, now, &None, "0.1.2"), AutoStage::Stage);
    assert_eq!(auto_stage_plan(&Some(s("garbage")), now, &None, "0.1.2"), AutoStage::Stage);
    // A stamp from the future (clock set back) still throttles.
    assert_eq!(auto_stage_plan(&Some(stamp_text(now + 10)), now, &None, "0.1.2"), AutoStage::Throttled);
    // Exactly one day later the next staging happens.
    assert_eq!(auto_stage_plan(&Some(stamp_text(now - 86400)), now, &None, "0.1.2"), AutoStage::Stage);
    assert_eq!(auto_stage_plan(&Some(stamp_text(now - 86399)), now, &None, "0.1.2"), AutoStage::Throttled);
}

#[test]
fn rolled_back_version_is_only_recorded_not_restaged() {
    let applying = match apply_staged_if_ready(&staged_record("0.1.2-rc.1"), &Some(s("0.1.1"))) {
        ApplyPlan::Promote(a) => a,
        _ => panic!("expected a promotion"),
    };
    let failed = rollback_after_failure(&applying, "0.2.15").unwrap();
    let now = 1_700_000_000u64;
    let bad_here = read_bad_version(&failed, "0.2.15");
    assert_eq!(auto_stage_plan(&None, now, &bad_here, "0.1.2-rc.1"), AutoStage::StampOnly);
    let bad_after_app_upgrade = read_bad_version(&failed, "0.2.16");
    assert_eq!(auto_stage_plan(&None, now, &bad_after_app_upgrade, "0.1.2-rc.1"), AutoStage::Stage);
}
