use waveform::binned::BinnedWaveformRenderer;
use waveform::color::Color;
use waveform::config::WaveformConfig;
use waveform::sample::SampleSequence;
use waveform::time::TimeRange;

/// Amplitudes are fixed-point: one million units per 1.0 of amplitude.
const AMP_ONE: i64 = 1_000_000;

fn amp(x: f64) -> i64 {
    (x * AMP_ONE as f64).round() as i64
}

/// 44.1 kHz in millihertz.
const RATE_44100: u64 = 44_100_000;

#[test]
fn render_vec_and_write_eq() {
    let tr = TimeRange::Micros(0, 10_000_000);
    let (width, height) = (1000, 100);
    let mut samples: Vec<i64> = Vec::new();
    for t in 0u32..44100u32 {
        samples.push(amp(((t as f64) * 0.01f64 * 2f64 * 3.1415f64).sin()));
    }
    let config = WaveformConfig::new(
        -AMP_ONE,
        AMP_ONE,
        Color::Vector4(0, 0, 0, 255),
        Color::Vector4(0, 0, 0, 255),
    )
    .unwrap();
    let wfr = BinnedWaveformRenderer::new(
        &SampleSequence { data: samples, sample_rate_millihz: RATE_44100 },
        10,
        config,
    )
    .unwrap();

    let v1 = wfr.render_vec(tr, (width, height)).unwrap();

    let mut v2: Vec<u8> = vec![0; width * height * 4];

    wfr.render_write(tr, (0, 0), (width, height), &mut v2, (width, height)).unwrap();

    assert_eq!(v1, v2);
    assert_eq!(v1.len(), width * height * 4);
}

#[test]
fn markers() {
    let c = Color::Scalar(0);
    let config = WaveformConfig::new(-AMP_ONE, AMP_ONE, c, c).unwrap();
    let wfr = BinnedWaveformRenderer::new(
        &SampleSequence { data: vec![0i64; 10], sample_rate_millihz: RATE_44100 },
        10,
        config,
    )
    .unwrap();
    fn must_be_sync_send<T: Sync + Send>(_: &T) {}
    must_be_sync_send(&wfr);
}

#[test]
fn render_vec_empty_shapes_give_none() {
    let c = Color::Scalar(0);
    let config = WaveformConfig::new(-AMP_ONE, AMP_ONE, c, c).unwrap();
    let wfr = BinnedWaveformRenderer::new(
        &SampleSequence { data: vec![0i64; 10], sample_rate_millihz: RATE_44100 },
        10,
        config,
    )
    .unwrap();
    let tr = TimeRange::Samples(0, 10);
    assert!(wfr.render_vec(tr, (0, 5)).is_none());
    assert!(wfr.render_vec(tr, (7, 0)).is_none());
    assert!(wfr.render_vec(tr, (0, 0)).is_none());
}

#[test]
fn zero_samples_render_flat_background() {
    // ten zero-valued samples in one bin: every column's envelope maps to the
    // same row, so the foreground band is empty and only background is drawn
    let bg = Color::Scalar(10);
    let fg = Color::Scalar(200);
    let config = WaveformConfig::new(-AMP_ONE, AMP_ONE, bg, fg).unwrap();
    let wfr = BinnedWaveformRenderer::new(
        &SampleSequence { data: vec![0i64; 10], sample_rate_millihz: RATE_44100 },
        10,
        config,
    )
    .unwrap();
    let img = wfr.render_vec(TimeRange::Samples(0, 10), (4, 100)).unwrap();
    assert_eq!(img.len(), 4 * 100);
    assert!(img.iter().all(|&b| b == 10));
}

#[test]
fn exact_bar_bytes_scalar() {
    // two bins: (-1000, 1000) and (0, 0); on a height of 4 with amplitudes
    // spanning [-2000, 2000], -1000 maps to row 3 and 1000 to row 1, so
    // column 0 paints foreground on rows 1 and 2; column 1 starts at the
    // final bin and falls back to the zero amplitude: all background
    let bg = Color::Scalar(7);
    let fg = Color::Scalar(9);
    let config = WaveformConfig::new(-2000, 2000, bg, fg).unwrap();
    let wfr = BinnedWaveformRenderer::new(
        &SampleSequence { data: vec![-1000, 1000, 0, 0], sample_rate_millihz: 1_000 },
        2,
        config,
    )
    .unwrap();
    let img = wfr.render_vec(TimeRange::Samples(0, 4), (2, 4)).unwrap();
    assert_eq!(img, vec![7, 7, 9, 7, 9, 7, 7, 7]);
}

#[test]
fn exact_bar_bytes_vector3() {
    // the same scene in the three-byte layout: each painted byte triples
    let bg = Color::Vector3(1, 2, 3);
    let fg = Color::Vector3(40, 50, 60);
    let config = WaveformConfig::new(-2000, 2000, bg, fg).unwrap();
    let wfr = BinnedWaveformRenderer::new(
        &SampleSequence { data: vec![-1000, 1000, 0, 0], sample_rate_millihz: 1_000 },
        2,
        config,
    )
    .unwrap();
    let img = wfr.render_vec(TimeRange::Samples(0, 4), (2, 4)).unwrap();
    let b = [1u8, 2, 3];
    let f = [40u8, 50, 60];
    let mut want: Vec<u8> = Vec::new();
    for (x0, x1) in [(b, b), (f, b), (f, b), (b, b)] {
        want.extend_from_slice(&x0);
        want.extend_from_slice(&x1);
    }
    assert_eq!(img, want);
}

#[test]
fn sub_rectangle_leaves_outside_untouched() {
    let bg = Color::Scalar(7);
    let fg = Color::Scalar(9);
    let config = WaveformConfig::new(-2000, 2000, bg, fg).unwrap();
    let wfr = BinnedWaveformRenderer::new(
        &SampleSequence { data: vec![-1000, 1000, 0, 0], sample_rate_millihz: 1_000 },
        2,
        config,
    )
    .unwrap();
    let (fullw, fullh) = (10, 10);
    let (offx, offy) = (2, 3);
    let (w, h) = (4, 5);
    let mut buf: Vec<u8> = vec![0xAB; fullw * fullh];
    wfr.render_write(TimeRange::Samples(0, 4), (offx, offy), (w, h), &mut buf, (fullw, fullh))
        .unwrap();
    for y in 0..fullh {
        for x in 0..fullw {
            let inside = x >= offx && x < offx + w && y >= offy && y < offy + h;
            let v = buf[y * fullw + x];
            if inside {
                assert!(v == 7 || v == 9, "inside byte at ({x},{y}) was {v}");
            } else {
                assert_eq!(v, 0xAB, "outside byte at ({x},{y}) was overwritten");
            }
        }
    }
}

#[test]
fn window_reaching_last_bin_is_safe() {
    // three bins; the window spans all of them, so the rightmost columns
    // reach the final bin and take the zero-amplitude fallback
    let bg = Color::Scalar(0);
    let fg = Color::Scalar(255);
    let config = WaveformConfig::new(-AMP_ONE, AMP_ONE, bg, fg).unwrap();
    let data: Vec<i64> = (0..30).map(|i| (i - 15) * 1000).collect();
    let wfr = BinnedWaveformRenderer::new(
        &SampleSequence { data, sample_rate_millihz: RATE_44100 },
        10,
        config,
    )
    .unwrap();
    let img = wfr.render_vec(TimeRange::Samples(0, 30), (10, 4)).unwrap();
    assert_eq!(img.len(), 10 * 4);
}

#[test]
fn render_write_rejects_bad_shapes() {
    let c = Color::Scalar(0);
    let config = WaveformConfig::new(-AMP_ONE, AMP_ONE, c, c).unwrap();
    let wfr = BinnedWaveformRenderer::new(
        &SampleSequence { data: vec![0i64; 10], sample_rate_millihz: RATE_44100 },
        10,
        config,
    )
    .unwrap();
    let tr = TimeRange::Samples(0, 10);
    let mut buf: Vec<u8> = vec![0; 100];

    let e = wfr.render_write(tr, (0, 0), (0, 5), &mut buf, (10, 10)).unwrap_err();
    assert_eq!(e.var_name, "shape");
    let e = wfr.render_write(tr, (0, 0), (5, 0), &mut buf, (10, 10)).unwrap_err();
    assert_eq!(e.var_name, "shape");

    let e = wfr.render_write(tr, (0, 0), (11, 5), &mut buf, (10, 10)).unwrap_err();
    assert_eq!(e.var_name, "shape and/or full_shape");
    let e = wfr.render_write(tr, (0, 0), (5, 11), &mut buf, (10, 10)).unwrap_err();
    assert_eq!(e.var_name, "shape and/or full_shape");

    // the offsets push the sub-rectangle out of the declared grid
    let e = wfr.render_write(tr, (7, 0), (5, 5), &mut buf, (10, 10)).unwrap_err();
    assert_eq!(e.var_name, "offsets and/or shape");
    // the buffer is shorter than the declared grid needs
    let mut short: Vec<u8> = vec![0; 30];
    let e = wfr.render_write(tr, (0, 0), (10, 10), &mut short, (10, 10)).unwrap_err();
    assert_eq!(e.var_name, "offsets and/or shape");
    assert!(short.iter().all(|&b| b == 0));

    // and the same call against a big enough buffer succeeds
    assert!(wfr.render_write(tr, (0, 0), (10, 10), &mut buf, (10, 10)).is_ok());
}
