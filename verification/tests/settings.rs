use powerpico_client::types::{
    default_waveform_metrics, AppSettings, FirmwareMode, Language, MetricId, ThemeMode,
};

#[test]
fn sanitizing_filters_unknown_or_duplicate_metrics() {
    let mut settings = AppSettings::default();
    settings.theme = ThemeMode::Dark;
    settings.language = Language::En;
    settings.waveform_metrics = vec![
        MetricId::LatestVoltage,
        MetricId::LatestVoltage,
        MetricId::Unknown,
    ];
    let clean = settings.sanitized();
    assert_eq!(clean.theme, ThemeMode::Dark);
    assert_eq!(clean.waveform_metrics, vec![MetricId::LatestVoltage]);
}

#[test]
fn missing_metrics_fall_back_to_the_defaults() {
    let mut settings = AppSettings::default();
    settings.language = Language::ZhCn;
    settings.waveform_metrics = vec![];
    assert_eq!(
        settings.sanitized().waveform_metrics,
        AppSettings::default().waveform_metrics
    );
    let mut only_unknown = AppSettings::default();
    only_unknown.waveform_metrics = vec![MetricId::Unknown, MetricId::Unknown];
    assert_eq!(only_unknown.sanitized().waveform_metrics, default_waveform_metrics());
}

#[test]
fn unsupported_scales_reset_to_system() {
    for (scale, expected) in [(0, 0), (100, 100), (125, 125), (175, 175), (200, 200), (110, 0), (250, 0)] {
        let mut s = AppSettings::default();
        s.ui_scale = scale;
        assert_eq!(s.sanitized().ui_scale, expected);
    }
}

#[test]
fn sanitizing_twice_changes_nothing_more() {
    let mut s = AppSettings::default();
    s.waveform_metrics = vec![
        MetricId::Energy,
        MetricId::Unknown,
        MetricId::PeakCurrent,
        MetricId::Energy,
        MetricId::Duration,
    ];
    s.ui_scale = 7;
    s.firmware_mode = FirmwareMode::Custom;
    let once = s.sanitized();
    assert_eq!(
        once.waveform_metrics,
        vec![MetricId::Energy, MetricId::PeakCurrent, MetricId::Duration]
    );
    let twice = once.clone().sanitized();
    assert_eq!(twice, once);
    assert_eq!(twice.firmware_mode, FirmwareMode::Custom);
}

#[test]
fn defaults_are_as_documented() {
    let d = AppSettings::default();
    assert_eq!(d.theme, ThemeMode::System);
    assert_eq!(d.language, Language::Auto);
    assert_eq!(
        d.waveform_metrics,
        vec![
            MetricId::AverageVoltage,
            MetricId::AverageCurrent,
            MetricId::PeakVoltage,
            MetricId::PeakCurrent,
            MetricId::AveragePower,
            MetricId::Duration,
        ]
    );
    assert!(d.check_update_at_startup);
    assert!(!d.anti_aliasing);
    assert_eq!(d.firmware_mode, FirmwareMode::Official);
    assert_eq!(d.clone().sanitized(), d);
}
