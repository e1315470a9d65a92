use waveform::binned::{amplitude_to_row, BinnedWaveformRenderer};
use waveform::color::Color;
use waveform::config::WaveformConfig;
use waveform::sample::SampleSequence;
use waveform::time::TimeRange;

fn any_config() -> WaveformConfig {
    WaveformConfig::new(-1_000_000, 1_000_000, Color::Scalar(0), Color::Scalar(255)).unwrap()
}

#[test]
fn bin_count_is_rounded_up_and_minmax_exact() {
    let seq = SampleSequence { data: vec![3, 1, 4, 1, 5, 9, 2, 6], sample_rate_millihz: 1_000 };
    let wfr = BinnedWaveformRenderer::new(&seq, 3, any_config()).unwrap();
    let bins = wfr.get_bins();
    assert_eq!(bins.len(), 3); // ceil(8 / 3)
    assert_eq!((bins[0].min, bins[0].max), (1, 4)); // 3, 1, 4
    assert_eq!((bins[1].min, bins[1].max), (1, 9)); // 1, 5, 9
    assert_eq!((bins[2].min, bins[2].max), (2, 6)); // 2, 6 (partial bin)
}

#[test]
fn construction_fails_when_bin_size_exceeds_samples() {
    let seq = SampleSequence { data: vec![0i64; 20], sample_rate_millihz: 44_100_000 };
    let e = BinnedWaveformRenderer::new(&seq, 21, any_config()).unwrap_err();
    assert_eq!(e.var_name, "bin_size");
    assert_eq!(e.message(), "bin_size");
}

#[test]
fn accessors_report_construction_values() {
    let seq = SampleSequence { data: vec![0i64; 20], sample_rate_millihz: 48_000_000 };
    let wfr = BinnedWaveformRenderer::new(&seq, 5, any_config()).unwrap();
    assert_eq!(wfr.get_bin_size(), 5);
    assert_eq!(wfr.get_sample_rate(), 48_000_000);
    assert_eq!(wfr.get_bins().len(), 4);
}

#[test]
fn config_rejects_bad_inputs() {
    let a = Color::Scalar(1);
    let b = Color::Vector3(1, 2, 3);
    let c = Color::Vector4(1, 2, 3, 4);
    assert!(WaveformConfig::new(0, 1, a, a).is_some());
    assert!(WaveformConfig::new(1, 1, a, a).is_none()); // empty amplitude range
    assert!(WaveformConfig::new(1, 0, a, a).is_none()); // reversed range
    assert!(WaveformConfig::new(0, 1, a, b).is_none()); // mismatched layouts
    assert!(WaveformConfig::new(0, 1, b, c).is_none());
    assert!(WaveformConfig::new(0, 1, c, c).is_some());
}

#[test]
fn config_getters_return_validated_values() {
    let bg = Color::Vector3(1, 2, 3);
    let fg = Color::Vector3(9, 8, 7);
    let cfg = WaveformConfig::new(-5, 5, bg, fg).unwrap();
    assert_eq!(cfg.get_amp_min(), -5);
    assert_eq!(cfg.get_amp_max(), 5);
    assert_eq!(cfg.get_background(), bg);
    assert_eq!(cfg.get_foreground(), fg);
}

#[test]
fn time_ranges_resolve_to_sample_intervals() {
    // ten seconds at 44.1 kHz
    assert_eq!(TimeRange::Micros(0, 10_000_000).resolve(44_100_000), (0, 441_000));
    // half a second, rounded down to whole samples
    assert_eq!(TimeRange::Micros(0, 500_000).resolve(44_100_000), (0, 22_050));
    // a fractional rate of 2.5 Hz: 2500 millihertz for two seconds
    assert_eq!(TimeRange::Micros(1_000_000, 2_000_000).resolve(2_500), (2, 5));
    // sample windows pass through unchanged
    assert_eq!(TimeRange::Samples(3, 17).resolve(44_100_000), (3, 17));
}

#[test]
fn amplitude_rows_flip_scale_and_clamp() {
    // height 100 over [-1, 1] in fixed point: zero is the middle row
    assert_eq!(amplitude_to_row(0, -1_000_000, 1_000_000, 100), 50);
    assert_eq!(amplitude_to_row(1_000_000, -1_000_000, 1_000_000, 100), 0);
    assert_eq!(amplitude_to_row(-1_000_000, -1_000_000, 1_000_000, 100), 100);
    // out-of-range amplitudes clamp to the image bounds
    assert_eq!(amplitude_to_row(2_000_000, -1_000_000, 1_000_000, 100), 0);
    assert_eq!(amplitude_to_row(-2_000_000, -1_000_000, 1_000_000, 100), 100);
    // height 4 over [-2000, 2000]
    assert_eq!(amplitude_to_row(-1000, -2000, 2000, 4), 3);
    assert_eq!(amplitude_to_row(1000, -2000, 2000, 4), 1);
}

#[test]
fn colors_know_their_width() {
    assert_eq!(Color::Scalar(0).bytes_per_pixel(), 1);
    assert_eq!(Color::Vector3(0, 0, 0).bytes_per_pixel(), 3);
    assert_eq!(Color::Vector4(0, 0, 0, 0).bytes_per_pixel(), 4);
    assert_eq!(Color::Vector3(5, 6, 7).channel_bytes(), vec![5, 6, 7]);
    assert_eq!(Color::Vector4(5, 6, 7, 8).channel_bytes(), vec![5, 6, 7, 8]);
    assert_eq!(Color::Scalar(9).channel_bytes(), vec![9]);
}
