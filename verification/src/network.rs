//! Official firmware downloads and client update checks: the rules applied
//! to what the servers return.
use vstd::prelude::*;

use crate::error::{error_message, CoreError};
use crate::paths::last_segment_of;
use crate::text::{chars_of, starts_with, string_from_chars};
use crate::types::{AppSettings, ClientUpdateInfo, FirmwareDownloadProgress, OfficialFirmwareInfo};

verus! {

pub const FIRMWARE_INFO_URL: &'static str = "https://no-chicken.com/resources/Power-Pico/firmware_version.json";
pub const RELEASE_NOTES_URL: &'static str = "https://no-chicken.com/content/Power-Pico/others/release_note.html";
pub const HELP_URL: &'static str = "https://no-chicken.com/content/Power-Pico/intro.html";
pub const FEEDBACK_URL: &'static str = "https://no-chicken.com/content/discuss_groups.html";
pub const GITHUB_LATEST_URL: &'static str = "https://github.com/haoyn231/power_pico_client/releases/latest";
pub const USER_AGENT: &'static str = "PowerPico-Client/0.1.1";
/// The downloaded official firmware, in the application data directory.
pub const FIRMWARE_FILE: &'static str = "PowerPico_Firmware.bin";
/// The file a download is written to before it replaces `FIRMWARE_FILE`.
pub const FIRMWARE_PART_FILE: &'static str = "PowerPico_Firmware.bin.part";

pub open spec fn is_https(url: Seq<char>) -> bool {
    starts_with(url, "https://"@)
}

fn has_https_scheme(url: &str) -> (r: bool)
    ensures
        r == is_https(url@),
{
    let u = chars_of(url);
    let p = chars_of("https://");
    if p.len() > u.len() {
        return false;
    }
    let mut i: usize = 0;
    while i < p.len()
        invariant
            0 <= i <= p.len(),
            p.len() <= u.len(),
            u@ == url@,
            p@ == "https://"@,
            forall|k: int| 0 <= k < i ==> u@[k] == p@[k],
        decreases p.len() - i,
    {
        if u[i] != p[i] {
            assert(u@.subrange(0, p.len() as int)[i as int] != p@[i as int]);
            assert(u@.subrange(0, p.len() as int) != p@);
            return false;
        }
        i = i + 1;
    }
    assert(u@.subrange(0, p.len() as int) =~= p@);
    true
}

/// Firmware is only fetched over HTTPS.
pub fn require_https(url: &str) -> (r: Result<(), CoreError>)
    ensures
        is_https(url@) ==> r is Ok,
        !is_https(url@) ==> (r matches Err(CoreError::Other(m)) && m@ == "official firmware URL must use HTTPS"@),
{
    if has_https_scheme(url) {
        Ok(())
    } else {
        Err(CoreError::other("official firmware URL must use HTTPS"))
    }
}

/// A download starts only when none runs and the URL is HTTPS.
pub fn download_start_check(running: bool, url: &str) -> (r: Result<(), CoreError>)
    ensures
        running ==> r matches Err(CoreError::DeviceBusy),
        !running && is_https(url@) ==> r is Ok,
        !running && !is_https(url@) ==> (r matches Err(CoreError::Other(m)) && m@
            == "official firmware URL must use HTTPS"@),
{
    if running {
        return Err(CoreError::DeviceBusy);
    }
    require_https(url)
}

/// Percent shown while downloading: 0 when the size is unknown, and never
/// 100 before the download completes.
pub open spec fn percent_of(received: u64, total: u64) -> u8 {
    if total == 0 {
        0
    } else {
        let scaled = if received * 100 > u64::MAX { u64::MAX as int } else { received * 100 };
        let p = scaled / (total as int);
        (if p < 99 { p } else { 99 }) as u8
    }
}

pub fn download_percent(received: u64, total: u64) -> (r: u8)
    ensures
        r == percent_of(received, total),
        r <= 99,
{
    if total == 0 {
        0
    } else {
        let scaled: u64 = if received > u64::MAX / 100 { u64::MAX } else { received * 100 };
        let p = scaled / total;
        if p < 99 { p as u8 } else { 99 }
    }
}

/// Download progress never goes backwards: more bytes received never show a
/// smaller percent.
pub proof fn lemma_download_percent_monotone(a: u64, b: u64, total: u64)
    requires
        a <= b,
    ensures
        percent_of(a, total) <= percent_of(b, total),
{
    if total > 0 {
        let sa: int = if a * 100 > u64::MAX { u64::MAX as int } else { a * 100 };
        let sb: int = if b * 100 > u64::MAX { u64::MAX as int } else { b * 100 };
        assert(a * 100 <= b * 100) by (nonlinear_arith)
            requires
                a <= b,
        ;
        assert(sa <= sb);
        vstd::arithmetic::div_mod::lemma_div_is_ordered(sa, sb, total as int);
    }
}

/// An empty download is an error.
pub fn check_download_size(received: u64) -> (r: Result<(), CoreError>)
    ensures
        received > 0 ==> r is Ok,
        received == 0 ==> (r matches Err(CoreError::Other(m)) && m@ == "downloaded firmware is empty"@),
{
    if received == 0 {
        Err(CoreError::other("downloaded firmware is empty"))
    } else {
        Ok(())
    }
}

pub fn download_progress(percent: u8, stage: &str, detail: Option<String>) -> (p: FirmwareDownloadProgress)
    ensures
        p.percent == percent,
        p.stage@ == stage@,
        p.detail == detail,
{
    FirmwareDownloadProgress { percent, stage: String::from_str(stage), detail }
}

/// The last progress of a download: completed, cancelled, or failed with
/// the error's text.
pub fn download_final_progress(result: Result<(), CoreError>) -> (p: FirmwareDownloadProgress)
    ensures
        result is Ok ==> p.percent == 100 && p.stage@ == "completed"@ && p.detail is None,
        result matches Err(CoreError::Cancelled) ==> p.percent == 0 && p.stage@ == "cancelled"@
            && p.detail is None,
        result is Err && !(result->Err_0 is Cancelled) ==> p.percent == 0 && p.stage@ == "failed"@ && (
        p.detail matches Some(d) && d@ == error_message(result->Err_0)),
{
    match result {
        Ok(()) => download_progress(100, "completed", None),
        Err(CoreError::Cancelled) => download_progress(0, "cancelled", None),
        Err(e) => download_progress(0, "failed", Some(e.message())),
    }
}

/// The settings after a download of `version` released on `release_date`.
pub fn with_local_firmware(settings: AppSettings, version: String, release_date: String) -> (r: AppSettings)
    ensures
        r == (AppSettings { local_firmware_version: version, local_firmware_release_date: release_date, ..settings }),
{
    let mut next = settings;
    next.local_firmware_version = version;
    next.local_firmware_release_date = release_date;
    next
}

/// What the firmware information service answered.
#[derive(Debug, Clone, PartialEq, Eq)]
pub struct FirmwareRelease {
    pub version: String,
    pub release_date: String,
    pub url: String,
}

/// The official firmware on offer. When the service cannot be reached but a
/// firmware was downloaded before, that one is offered under the version
/// recorded in the settings; a release must be served over HTTPS.
pub fn official_firmware_info(
    response: Result<FirmwareRelease, String>,
    local_path: String,
    local_exists: bool,
    fallback_version: String,
    fallback_release_date: String,
) -> (r: Result<OfficialFirmwareInfo, CoreError>)
    ensures
        response is Err && local_exists ==> (r matches Ok(info) && info.version == fallback_version
            && info.release_date == fallback_release_date && info.url@ == Seq::<char>::empty()
            && info.local_path == Some(local_path) && info.downloaded),
        response is Err && !local_exists ==> (r matches Err(CoreError::Other(m)) && m == response->Err_0),
        response is Ok && !is_https(response->Ok_0.url@) ==> (r matches Err(CoreError::Other(m)) && m@
            == "official firmware URL must use HTTPS"@),
        response is Ok && is_https(response->Ok_0.url@) ==> (r matches Ok(info) && info.version
            == response->Ok_0.version && info.release_date == response->Ok_0.release_date && info.url
            == response->Ok_0.url && info.local_path == (if local_exists { Some(local_path) } else {
            None }) && info.downloaded == local_exists),
{
    match response {
        Err(message) => {
            if local_exists {
                Ok(OfficialFirmwareInfo {
                    version: fallback_version,
                    release_date: fallback_release_date,
                    url: String::new(),
                    local_path: Some(local_path),
                    downloaded: true,
                })
            } else {
                Err(CoreError::Other(message))
            }
        },
        Ok(release) => {
            if !has_https_scheme(release.url.as_str()) {
                return Err(CoreError::other("official firmware URL must use HTTPS"));
            }
            Ok(OfficialFirmwareInfo {
                version: release.version,
                release_date: release.release_date,
                url: release.url,
                local_path: if local_exists { Some(local_path) } else { None },
                downloaded: local_exists,
            })
        },
    }
}

/// The canonical text of the semantic version `text` (`semver::Version`
/// parsed then displayed), or the parser's error message.
pub uninterp spec fn semver_text(text: Seq<char>) -> Result<Seq<char>, Seq<char>>;

/// Whether semantic version `latest` has higher precedence than `current`
/// (`semver::Version` ordering; false unless both parse).
pub uninterp spec fn semver_newer(latest: Seq<char>, current: Seq<char>) -> bool;

/// `semver::Version::parse`, shown with its `Display`; on failure the
/// error's `Display`. The result is named `semver_text`.
#[verifier::external_body]
fn parse_version_text(text: &str) -> (r: Result<String, String>)
    ensures
        match semver_text(text@) {
            Ok(v) => r matches Ok(s) && s@ == v,
            Err(e) => r matches Err(s) && s@ == e,
        },
{
    match semver::Version::parse(text) {
        Ok(v) => Ok(v.to_string()),
        Err(e) => Err(e.to_string()),
    }
}

/// `>` of `semver::Version` on the two parsed texts (false when either does
/// not parse). The result is named `semver_newer`. `Version` orders major,
/// minor, patch, pre-release and build metadata in turn, and equal versions
/// compare equal, so the same text is never newer than itself.
#[verifier::external_body]
fn version_is_newer(latest: &str, current: &str) -> (r: bool)
    ensures
        r == semver_newer(latest@, current@),
        latest@ == current@ ==> !r,
{
    match (semver::Version::parse(latest), semver::Version::parse(current)) {
        (Ok(l), Ok(c)) => l > c,
        _ => false,
    }
}

/// `s` without its leading `v`s.
pub open spec fn trim_v(s: Seq<char>) -> Seq<char>
    decreases s.len(),
{
    if s.len() > 0 && s[0] == 'v' {
        trim_v(s.drop_first())
    } else {
        s
    }
}

fn trimmed_v(s: &str) -> (r: String)
    ensures
        r@ == trim_v(s@),
{
    let cs = chars_of(s);
    let mut i: usize = 0;
    assert(cs@.skip(0) =~= cs@);
    while i < cs.len() && cs[i] == 'v'
        invariant
            0 <= i <= cs.len(),
            trim_v(cs@) == trim_v(cs@.skip(i as int)),
        decreases cs.len() - i,
    {
        assert(cs@.skip(i as int).drop_first() =~= cs@.skip(i + 1));
        i = i + 1;
    }
    let mut out: Vec<char> = Vec::new();
    let mut k: usize = i;
    while k < cs.len()
        invariant
            i <= k <= cs.len(),
            out@ == cs@.subrange(i as int, k as int),
        decreases cs.len() - k,
    {
        out.push(cs[k]);
        assert(cs@.subrange(i as int, k + 1) =~= cs@.subrange(i as int, k as int).push(cs@[k as int]));
        k = k + 1;
    }
    assert(cs@.subrange(i as int, cs.len() as int) =~= cs@.skip(i as int));
    string_from_chars(&out)
}

/// The release tag a release page's URL path ends with: its last segment,
/// unless it is empty or `latest`. A path without a leading `/` has no
/// segments.
pub open spec fn release_tag_of(path: Seq<char>) -> Option<Seq<char>> {
    let last = last_segment_of(path);
    if path.len() > 0 && path[0] == '/' && last.len() > 0 && last != "latest"@ {
        Some(last)
    } else {
        None
    }
}

pub fn release_tag(path: &str) -> (r: Option<String>)
    ensures
        match release_tag_of(path@) {
            Some(t) => r matches Some(s) && s@ == t,
            None => r is None,
        },
{
    let cs = chars_of(path);
    if cs.len() == 0 || cs[0] != '/' {
        return None;
    }
    let name = crate::paths::last_segment(path);
    let latest = chars_of("latest");
    let nv = chars_of(name.as_str());
    if nv.len() == 0 || crate::text::chars_equal(&nv, &latest) {
        return None;
    }
    Some(name)
}

/// The update check's answer from the version running, the release page
/// the latest-release link led to and that page's URL path.
pub fn client_update_info(current_version: &str, release_url: String, url_path: &str) -> (r: Result<ClientUpdateInfo, CoreError>)
    ensures
        release_tag_of(url_path@) is None ==> (r matches Err(CoreError::Other(m)) && m@
            == "GitHub did not return a release tag"@),
        release_tag_of(url_path@) matches Some(tag) ==> {
            let cur = semver_text(trim_v(current_version@));
            let lat = semver_text(trim_v(tag));
            &&& cur is Err ==> (r matches Err(CoreError::Other(m)) && m@ == cur->Err_0)
            &&& cur is Ok && lat is Err ==> (r matches Err(CoreError::Other(m)) && m@ == lat->Err_0)
            &&& cur is Ok && lat is Ok ==> (r matches Ok(info) && info.current_version@ == cur->Ok_0
                && info.latest_version@ == lat->Ok_0 && info.release_url == release_url
                && info.update_available == semver_newer(trim_v(tag), trim_v(current_version@)))
        },
{
    let tag = match release_tag(url_path) {
        Some(t) => t,
        None => return Err(CoreError::other("GitHub did not return a release tag")),
    };
    let current_text = trimmed_v(current_version);
    let latest_text = trimmed_v(tag.as_str());
    let current = match parse_version_text(current_text.as_str()) {
        Ok(v) => v,
        Err(e) => return Err(CoreError::Other(e)),
    };
    let latest = match parse_version_text(latest_text.as_str()) {
        Ok(v) => v,
        Err(e) => return Err(CoreError::Other(e)),
    };
    let update_available = version_is_newer(latest_text.as_str(), current_text.as_str());
    Ok(ClientUpdateInfo {
        current_version: current,
        latest_version: latest,
        release_url,
        update_available,
    })
}

} // verus!
