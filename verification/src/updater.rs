//! Update checks: whether the registry's newest DSH is newer than the installed
//! one (semantic-version order), and when to stage an upgrade.
use vstd::prelude::*;
use crate::downloader::{bad_version_of, rollback_model, skip_v, strip_v, UpdateRecordModel};
use crate::text::{
    chars_of, decimal, decimal_string, lemma_decimal_reads_back, parse_unsigned, parse_unsigned_range, str_eq, string_of_range, trim, trim_bounds,
};

verus! {

// ---------------------------------------------------------------- semantic versions

#[verifier::external_type_specification]
#[verifier::external_body]
pub struct ExSemverVersion(semver::Version);

#[verifier::external_type_specification]
#[verifier::external_body]
pub struct ExSemverError(semver::Error);

/// Whether `semver::Version::parse` accepts `text`.
pub uninterp spec fn semver_valid(text: Seq<char>) -> bool;

/// Whether the version parsed from `a` orders after the one parsed from `b`
/// under `semver::Version`'s `Ord`.
pub uninterp spec fn semver_newer(a: Seq<char>, b: Seq<char>) -> bool;

/// A version that `semver` parsed, together with the text it was read from.
pub struct ParsedVersion {
    version: semver::Version,
    text: Ghost<Seq<char>>,
}

impl View for ParsedVersion {
    type V = Seq<char>;

    closed spec fn view(&self) -> Seq<char> {
        self.text@
    }
}

/// `semver::Version::parse`. Trusted: it succeeds exactly on the texts that
/// `semver_valid` names, and the parsed value is kept with its text.
#[verifier::external_body]
fn parse_version(text: &str) -> (r: Result<ParsedVersion, semver::Error>)
    ensures
        r is Ok <==> semver_valid(text@),
        r matches Ok(p) ==> p@ == text@,
{
    match semver::Version::parse(text) {
        Ok(version) => Ok(ParsedVersion { version, text: Ghost(text@) }),
        Err(e) => Err(e),
    }
}

/// `>` on `semver::Version`, the order that `derive(Ord)` gives over major,
/// minor, patch, pre-release and build metadata. Trusted: the result is
/// `semver_newer` of the two texts, and, as for any strict order, a version is
/// not newer than itself and two versions are not each newer than the other.
#[verifier::external_body]
fn version_gt(a: &ParsedVersion, b: &ParsedVersion) -> (r: bool)
    ensures
        r == semver_newer(a@, b@),
        a@ == b@ ==> !r,
        r ==> !semver_newer(b@, a@),
{
    a.version > b.version
}

/// What the update check concludes from the two parses: both parse, then their
/// order; only the registry's parses (the installed one reads "unknown", say),
/// then there is an update; otherwise none.
pub open spec fn verdict(latest_valid: bool, installed_valid: bool, greater: bool) -> bool {
    if latest_valid && installed_valid {
        greater
    } else {
        latest_valid && !installed_valid
    }
}

/// Whether an update is offered, given whether each text parsed and, when both
/// did, whether the registry's version orders after the installed one.
pub fn update_verdict(latest_valid: bool, installed_valid: bool, greater: bool) -> (r: bool)
    ensures
        r == verdict(latest_valid, installed_valid, greater),
{
    if latest_valid && installed_valid {
        greater
    } else {
        latest_valid && !installed_valid
    }
}

/// Whether `latest` is an update over `installed`.
pub open spec fn has_newer(latest: Seq<char>, installed: Seq<char>) -> bool {
    verdict(semver_valid(latest), semver_valid(installed), semver_newer(latest, installed))
}

/// Whether the registry's `latest` is newer than the `installed` version.
pub fn is_newer(latest: &str, installed: &str) -> (r: bool)
    ensures
        r == has_newer(latest@, installed@),
        latest@ == installed@ ==> !r,
{
    let l = parse_version(latest);
    let i = parse_version(installed);
    match (&l, &i) {
        (Ok(lv), Ok(iv)) => {
            let g = version_gt(lv, iv);
            update_verdict(true, true, g)
        },
        (Ok(_), Err(_)) => update_verdict(true, false, false),
        (Err(_), Ok(_)) => update_verdict(false, true, false),
        (Err(_), Err(_)) => update_verdict(false, false, false),
    }
}

// ---------------------------------------------------------------- update report

/// What the front end is told about the installed and the newest DSH.
pub struct UpdateInfo {
    pub installed: String,
    pub latest: String,
    pub has_update: bool,
    /// Whether this app installed (and so upgrades) the DSH in use.
    pub managed: bool,
}

impl UpdateInfo {
    /// The report for `installed` and `latest`; `has_update` is the version order.
    pub fn new(installed: String, latest: String, managed: bool) -> (r: UpdateInfo)
        ensures
            r.installed@ == installed@,
            r.latest@ == latest@,
            r.has_update == has_newer(latest@, installed@),
            r.managed == managed,
    {
        let has_update = is_newer(latest.as_str(), installed.as_str());
        UpdateInfo { installed, latest, has_update, managed }
    }
}

/// The installed version as reported: the manifest's `version`, else `unknown`.
pub open spec fn installed_text(version: Option<Seq<char>>) -> Seq<char> {
    match version {
        Some(v) => v,
        None => "unknown"@,
    }
}

/// The installed version to report, given the core manifest's `version` field.
pub fn installed_or_unknown(version: Option<String>) -> (r: String)
    ensures
        r@ == installed_text(version.deep_view()),
{
    match version {
        Some(v) => v,
        None => "unknown".to_owned(),
    }
}

// ---------------------------------------------------------------- staging decisions

/// `v` without its leading `v`s.
pub fn strip_v_text(v: &str) -> (r: String)
    ensures
        r@ == strip_v(v@),
{
    let cs = chars_of(v);
    let k = skip_v(&cs);
    proof {
        assert(cs@.skip(k as int) =~= cs@.subrange(k as int, cs@.len() as int));
    }
    string_of_range(&cs, k, cs.len())
}

/// Whether a manual update stages the registry's version: only for a managed
/// install, and only when the two differ once leading `v`s are dropped.
pub open spec fn stages_now(managed: bool, latest: Seq<char>, installed: Seq<char>) -> bool {
    managed && strip_v(latest) != strip_v(installed)
}

/// Whether "check and update" stages `latest` over `installed`.
pub fn should_stage_now(managed: bool, latest: &str, installed: &str) -> (r: bool)
    ensures
        r == stages_now(managed, latest@, installed@),
{
    if !managed {
        return false;
    }
    let a = strip_v_text(latest);
    let b = strip_v_text(installed);
    !str_eq(a.as_str(), b.as_str())
}

/// Seconds between two automatic stagings.
pub const AUTO_STAGE_INTERVAL: u64 = 86400;

/// What a background check does about an available update.
#[derive(Clone, Copy, PartialEq, Eq, Structural, Debug)]
pub enum AutoStage {
    /// Checked within the last day: do nothing.
    Throttled,
    /// Record the check, but the newest version is the one that failed: do not stage it.
    StampOnly,
    /// Record the check and stage the newest version.
    Stage,
}

/// The time (seconds since the epoch) that a stamp file records, if it reads as one.
pub open spec fn stamp_time(stamp: Option<Seq<char>>) -> Option<nat> {
    match stamp {
        Some(c) => parse_unsigned(trim(c), u64::MAX as nat),
        None => None,
    }
}

/// Whether the last check lies less than a day before `now`
/// (`now.saturating_sub(t) < 86400`).
pub open spec fn checked_recently(stamp: Option<Seq<char>>, now: u64) -> bool {
    match stamp_time(stamp) {
        Some(t) => now < t + AUTO_STAGE_INTERVAL,
        None => false,
    }
}

pub open spec fn auto_stage_of(
    stamp: Option<Seq<char>>,
    now: u64,
    bad: Option<Seq<char>>,
    latest: Seq<char>,
) -> AutoStage {
    if checked_recently(stamp, now) {
        AutoStage::Throttled
    } else if bad == Some(latest) {
        AutoStage::StampOnly
    } else {
        AutoStage::Stage
    }
}

/// The background staging decision: `stamp` is the last-check file's content,
/// `now` the clock, `bad` the version a failed upgrade recorded for this app.
pub fn auto_stage_plan(stamp: &Option<String>, now: u64, bad: &Option<String>, latest: &str) -> (r: AutoStage)
    ensures
        r == auto_stage_of(stamp.deep_view(), now, bad.deep_view(), latest@),
{
    let mut recent = false;
    if let Some(c) = stamp {
        let v = chars_of(c.as_str());
        let (a, b) = trim_bounds(&v);
        proof {
            assert(v@.subrange(a as int, b as int) == trim(c@));
        }
        match parse_unsigned_range(&v, a, b, u64::MAX) {
            Some(t) => {
                recent = now.saturating_sub(t) < AUTO_STAGE_INTERVAL;
            },
            None => {},
        }
    }
    if recent {
        return AutoStage::Throttled;
    }
    match bad {
        Some(b) => {
            if str_eq(b.as_str(), latest) {
                AutoStage::StampOnly
            } else {
                AutoStage::Stage
            }
        },
        None => AutoStage::Stage,
    }
}

/// The content of the last-check stamp written at `now`.
pub fn stamp_text(now: u64) -> (r: String)
    ensures
        r@ == decimal(now as nat),
{
    decimal_string(now)
}

/// A stamp written at `then` holds off every background staging until a full
/// day has passed, and no longer (a clock set back counts as within the day).
pub proof fn stamp_throttles_for_one_day(then: u64, now: u64, bad: Option<Seq<char>>, latest: Seq<char>)
    ensures
        (auto_stage_of(Some(decimal(then as nat)), now, bad, latest) == AutoStage::Throttled)
            <==> now < then + AUTO_STAGE_INTERVAL,
{
    lemma_decimal_reads_back(then as nat, u64::MAX as nat);
}

/// A version whose upgrade failed and was rolled back is not staged again in
/// the background by the same app version (the check is only recorded), while
/// after an app upgrade the mark no longer holds it back.
pub proof fn failed_version_is_not_restaged(
    rec: UpdateRecordModel,
    app_version: Seq<char>,
    newer_app_version: Seq<char>,
    stamp: Option<Seq<char>>,
    now: u64,
)
    requires
        rollback_model(rec, app_version) is Some,
        rec.staged_version is Some,
        newer_app_version != app_version,
    ensures
        ({
            let f = rollback_model(rec, app_version)->0;
            let latest = rec.staged_version->0;
            &&& auto_stage_of(stamp, now, bad_version_of(f, app_version), latest) != AutoStage::Stage
            &&& auto_stage_of(stamp, now, bad_version_of(f, newer_app_version), latest) != AutoStage::StampOnly
        }),
{
}

} // verus!
