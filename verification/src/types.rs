//! Values exchanged with the user interface, and the settings rules.
use vstd::prelude::*;

verus! {

/// A serial port as offered to the user.
#[derive(Debug, Clone, PartialEq, Eq)]
pub struct SerialDevice {
    pub id: String,
    pub display_name: String,
    pub system_path: String,
    pub vid: Option<u16>,
    pub pid: Option<u16>,
    pub serial_number: Option<String>,
    pub manufacturer: Option<String>,
    pub product: Option<String>,
}

#[derive(Debug, Clone, Copy, PartialEq, Eq, Structural)]
pub enum CaptureStatus {
    Idle,
    Connecting,
    Capturing,
    Stopping,
    Error,
}

#[derive(Debug, Clone, PartialEq, Eq)]
pub struct CaptureState {
    pub status: CaptureStatus,
    pub device_id: Option<String>,
    pub record_path: Option<String>,
    pub error: Option<String>,
}

impl Default for CaptureState {
    fn default() -> (s: CaptureState)
        ensures
            s.status == CaptureStatus::Idle,
            s.device_id is None,
            s.record_path is None,
            s.error is None,
    {
        CaptureState { status: CaptureStatus::Idle, device_id: None, record_path: None, error: None }
    }
}

#[derive(Debug, Clone, Copy, PartialEq, Eq, Structural)]
pub enum FirmwareStage {
    Idle,
    Connecting,
    Rebooting,
    SearchingBootloader,
    Handshaking,
    Uploading,
    Finishing,
    Completed,
    Cancelled,
    Failed,
}

#[derive(Debug, Clone, PartialEq, Eq)]
pub struct FirmwareProgress {
    pub stage: FirmwareStage,
    pub percent: u8,
    pub message_key: String,
    pub detail: Option<String>,
}

#[derive(Debug, Clone, Default, PartialEq, Eq)]
pub struct OfficialFirmwareInfo {
    pub version: String,
    pub release_date: String,
    pub url: String,
    pub local_path: Option<String>,
    pub downloaded: bool,
}

#[derive(Debug, Clone, Default, PartialEq, Eq)]
pub struct FirmwareDownloadProgress {
    pub percent: u8,
    pub stage: String,
    pub detail: Option<String>,
}

#[derive(Debug, Clone, Default, PartialEq, Eq)]
pub struct ClientUpdateInfo {
    pub current_version: String,
    pub latest_version: String,
    pub release_url: String,
    pub update_available: bool,
}

#[derive(Debug, Clone, Copy, Default, PartialEq, Eq, Structural)]
pub struct StorageUsage {
    pub cache_bytes: u64,
    pub app_data_bytes: u64,
    pub log_bytes: u64,
    pub total_bytes: u64,
}

#[derive(Debug, Clone, Default, PartialEq, Eq)]
pub struct UninstallInfo {
    pub supported: bool,
    pub app_path: Option<String>,
    pub app_bytes: u64,
    pub cache_bytes: u64,
    pub app_data_bytes: u64,
    pub log_bytes: u64,
    pub system_data_bytes: u64,
    pub total_bytes: u64,
    pub mounted_volumes: Vec<String>,
}

#[derive(Debug, Clone, Copy, PartialEq, Eq, Structural)]
pub enum ThemeMode {
    System,
    Light,
    Dark,
}

#[derive(Debug, Clone, Copy, PartialEq, Eq, Structural)]
pub enum Language {
    Auto,
    ZhCn,
    ZhHk,
    En,
    Ja,
}

#[derive(Debug, Clone, Copy, PartialEq, Eq, Structural)]
pub enum FirmwareMode {
    Official,
    Custom,
}

/// A metric card of the waveform view. `Unknown` stands for any name this
/// version does not know.
#[derive(Debug, Clone, Copy, PartialEq, Eq, Hash, Structural)]
pub enum MetricId {
    LatestVoltage,
    AverageVoltage,
    PeakVoltage,
    LatestCurrent,
    AverageCurrent,
    PeakCurrent,
    LatestPower,
    AveragePower,
    Duration,
    PointCount,
    Energy,
    Unknown,
}

/// The metric cards shown when none are configured.
pub open spec fn default_metrics() -> Seq<MetricId> {
    seq![
        MetricId::AverageVoltage,
        MetricId::AverageCurrent,
        MetricId::PeakVoltage,
        MetricId::PeakCurrent,
        MetricId::AveragePower,
        MetricId::Duration,
    ]
}

pub fn default_waveform_metrics() -> (v: Vec<MetricId>)
    ensures
        v@ == default_metrics(),
{
    let mut v: Vec<MetricId> = Vec::new();
    v.push(MetricId::AverageVoltage);
    v.push(MetricId::AverageCurrent);
    v.push(MetricId::PeakVoltage);
    v.push(MetricId::PeakCurrent);
    v.push(MetricId::AveragePower);
    v.push(MetricId::Duration);
    assert(v@ =~= default_metrics());
    v
}

/// Known metrics of `s`, each at its first occurrence, in order.
pub open spec fn known_unique(s: Seq<MetricId>) -> Seq<MetricId>
    decreases s.len(),
{
    if s.len() == 0 {
        seq![]
    } else {
        let kept = known_unique(s.drop_last());
        if s.last() == MetricId::Unknown || kept.contains(s.last()) {
            kept
        } else {
            kept.push(s.last())
        }
    }
}

/// The metric list a stored configuration is read as.
pub open spec fn sanitized_metrics(s: Seq<MetricId>) -> Seq<MetricId> {
    if known_unique(s).len() == 0 {
        default_metrics()
    } else {
        known_unique(s)
    }
}

/// Interface scales on offer; 0 follows the system.
pub open spec fn valid_ui_scale(scale: u16) -> bool {
    scale == 0 || scale == 100 || scale == 125 || scale == 150 || scale == 175 || scale == 200
}

pub open spec fn no_duplicates(s: Seq<MetricId>) -> bool {
    forall|i: int, j: int| 0 <= i < j < s.len() ==> s[i] != s[j]
}

#[derive(Debug, Clone, PartialEq, Eq)]
pub struct AppSettings {
    pub theme: ThemeMode,
    pub language: Language,
    pub waveform_metrics: Vec<MetricId>,
    pub ui_scale: u16,
    pub check_update_at_startup: bool,
    pub anti_aliasing: bool,
    pub firmware_mode: FirmwareMode,
    pub custom_firmware_path: String,
    pub local_firmware_version: String,
    pub local_firmware_release_date: String,
}

fn contains_metric(v: &Vec<MetricId>, m: MetricId) -> (r: bool)
    ensures
        r == v@.contains(m),
{
    let mut i: usize = 0;
    while i < v.len()
        invariant
            0 <= i <= v.len(),
            forall|j: int| 0 <= j < i ==> v@[j] != m,
        decreases v.len() - i,
    {
        if v[i] == m {
            return true;
        }
        i = i + 1;
    }
    false
}

/// The known metrics of `metrics`, each once, in first-seen order.
pub fn known_unique_metrics(metrics: &Vec<MetricId>) -> (r: Vec<MetricId>)
    ensures
        r@ == known_unique(metrics@),
{
    let mut kept: Vec<MetricId> = Vec::new();
    let mut i: usize = 0;
    assert(metrics@.take(0) =~= Seq::<MetricId>::empty());
    while i < metrics.len()
        invariant
            0 <= i <= metrics.len(),
            kept@ == known_unique(metrics@.take(i as int)),
        decreases metrics.len() - i,
    {
        let m = metrics[i];
        assert(metrics@.take(i + 1).drop_last() =~= metrics@.take(i as int));
        if m != MetricId::Unknown && !contains_metric(&kept, m) {
            kept.push(m);
        }
        i = i + 1;
    }
    assert(metrics@.take(metrics.len() as int) =~= metrics@);
    kept
}

impl AppSettings {
    /// The settings with unknown and repeated metrics dropped (the default set
    /// when none is left) and an unsupported scale reset to 0.
    pub fn sanitized(self) -> (r: AppSettings)
        ensures
            r.waveform_metrics@ == sanitized_metrics(self.waveform_metrics@),
            r.ui_scale == (if valid_ui_scale(self.ui_scale) { self.ui_scale } else { 0 }),
            self.ui_scale == 0 || self.ui_scale == 100 || self.ui_scale == 125 || self.ui_scale == 150
                || self.ui_scale == 175 || self.ui_scale == 200 ==> r.ui_scale == self.ui_scale,
            !(self.ui_scale == 0 || self.ui_scale == 100 || self.ui_scale == 125 || self.ui_scale == 150
                || self.ui_scale == 175 || self.ui_scale == 200) ==> r.ui_scale == 0,
            r.theme == self.theme,
            r.language == self.language,
            r.check_update_at_startup == self.check_update_at_startup,
            r.anti_aliasing == self.anti_aliasing,
            r.firmware_mode == self.firmware_mode,
            r.custom_firmware_path == self.custom_firmware_path,
            r.local_firmware_version == self.local_firmware_version,
            r.local_firmware_release_date == self.local_firmware_release_date,
    {
        let mut s = self;
        let mut metrics = known_unique_metrics(&s.waveform_metrics);
        if metrics.len() == 0 {
            metrics = default_waveform_metrics();
        }
        s.waveform_metrics = metrics;
        let u = s.ui_scale;
        if !(u == 0 || u == 100 || u == 125 || u == 150 || u == 175 || u == 200) {
            s.ui_scale = 0;
        }
        s
    }
}

impl Default for AppSettings {
    fn default() -> (s: AppSettings)
        ensures
            s.theme == ThemeMode::System,
            s.language == Language::Auto,
            s.waveform_metrics@ == default_metrics(),
            s.ui_scale == 0,
            s.check_update_at_startup,
            !s.anti_aliasing,
            s.firmware_mode == FirmwareMode::Official,
            s.custom_firmware_path@ == Seq::<char>::empty(),
            s.local_firmware_version@ == Seq::<char>::empty(),
            s.local_firmware_release_date@ == Seq::<char>::empty(),
    {
        AppSettings {
            theme: ThemeMode::System,
            language: Language::Auto,
            waveform_metrics: default_waveform_metrics(),
            ui_scale: 0,
            check_update_at_startup: true,
            anti_aliasing: false,
            firmware_mode: FirmwareMode::Official,
            custom_firmware_path: String::new(),
            local_firmware_version: String::new(),
            local_firmware_release_date: String::new(),
        }
    }
}

/// Kept metrics are known, distinct, and each occurs in the input.
pub proof fn lemma_known_unique_props(s: Seq<MetricId>)
    ensures
        no_duplicates(known_unique(s)),
        forall|k: int| 0 <= k < known_unique(s).len() ==> #[trigger] known_unique(s)[k] != MetricId::Unknown
            && s.contains(known_unique(s)[k]),
        forall|m: MetricId| m != MetricId::Unknown && s.contains(m) ==> #[trigger] known_unique(s).contains(m),
    decreases s.len(),
{
    if s.len() > 0 {
        let p = s.drop_last();
        lemma_known_unique_props(p);
        let kept = known_unique(p);
        let r = known_unique(s);
        assert forall|k: int| 0 <= k < r.len() implies #[trigger] r[k] != MetricId::Unknown && s.contains(r[k]) by {
            if k < kept.len() {
                assert(r[k] == kept[k]);
                let w = choose|w: int| 0 <= w < p.len() && p[w] == kept[k];
                assert(s[w] == kept[k]);
            } else {
                assert(s[s.len() - 1] == s.last());
            }
        }
        assert forall|m: MetricId| m != MetricId::Unknown && s.contains(m) implies #[trigger] r.contains(m) by {
            let w = choose|w: int| 0 <= w < s.len() && s[w] == m;
            if w < s.len() - 1 {
                assert(p[w] == m);
                assert(kept.contains(m));
                if r != kept {
                    let x = choose|x: int| 0 <= x < kept.len() && kept[x] == m;
                    assert(r[x] == m);
                }
            } else {
                if r == kept {
                } else {
                    assert(r[r.len() - 1] == m);
                }
            }
        }
    }
}

/// Sanitizing is idempotent, and what it yields is never empty, holds no
/// unknown metric and no metric twice.
pub proof fn lemma_sanitized_metrics_props(s: Seq<MetricId>)
    ensures
        sanitized_metrics(sanitized_metrics(s)) == sanitized_metrics(s),
        sanitized_metrics(s).len() > 0,
        no_duplicates(sanitized_metrics(s)),
        forall|k: int| 0 <= k < sanitized_metrics(s).len() ==> #[trigger] sanitized_metrics(s)[k]
            != MetricId::Unknown,
{
    lemma_known_unique_props(s);
    lemma_default_metrics_fixed();
    if known_unique(s).len() > 0 {
        lemma_known_unique_fixed(known_unique(s));
    }
}

/// A list of distinct known metrics is left as it is.
pub proof fn lemma_known_unique_fixed(s: Seq<MetricId>)
    requires
        no_duplicates(s),
        forall|k: int| 0 <= k < s.len() ==> #[trigger] s[k] != MetricId::Unknown,
    ensures
        known_unique(s) == s,
    decreases s.len(),
{
    if s.len() > 0 {
        let p = s.drop_last();
        lemma_known_unique_fixed(p);
        assert(!p.contains(s.last())) by {
            if p.contains(s.last()) {
                let w = choose|w: int| 0 <= w < p.len() && p[w] == s.last();
                assert(s[w] == s[s.len() - 1]);
            }
        }
        assert(s.last() == s[s.len() - 1]);
        assert(p.push(s.last()) =~= s);
    }
}

/// The default metric set is already sanitized.
pub proof fn lemma_default_metrics_fixed()
    ensures
        sanitized_metrics(default_metrics()) == default_metrics(),
        no_duplicates(default_metrics()),
{
    let d = default_metrics();
    assert(no_duplicates(d));
    lemma_known_unique_fixed(d);
}

/// Every interface scale on offer (system, 100 %, 125 %, 150 %, 175 %,
/// 200 %) survives sanitising, and every other value is reset to follow the
/// system.
pub proof fn lemma_offered_scales_kept(scale: u16)
    ensures
        (scale == 0 || scale == 100 || scale == 125 || scale == 150 || scale == 175 || scale == 200)
            <==> valid_ui_scale(scale),
{
}

} // verus!
